//! Frame synchronisation on chirp symbols.
//!
//! A frame opens with a run of equal up-chirps, the two up-chirps 8 and 16,
//! and two and a quarter down-chirps; the payload follows as up-chirps. The
//! machine walks through these stages symbol by symbol, says by how much the
//! chirp window has to move, and hands out the payload once it is complete.
//! Whatever does not fit sends it back to the start.

use crate::symbol::{Packet, Symbol};
use vstd::prelude::*;

verus! {

/// The up-chirps that have to agree before the preamble counts as found.
pub const PREAMBLE_RUN: usize = 7;

/// How far, in bins, the up-chirps of the run may lie from a common value.
pub const PREAMBLE_TOLERANCE: usize = 2;

/// How far apart, in bins, the two down-chirps may lie.
pub const DOWN_TOLERANCE: usize = 1;

/// The symbols of a payload.
pub const PAYLOAD_SYMBOLS: usize = 74;

#[derive(Copy, Clone, Debug, PartialEq, Eq, Structural)]
pub enum SyncingMode {
    LookSync,
    Look8,
    Look16,
    LookDown0,
    LookDown1,
    LookDownQuarter,
    Synced,
}

#[derive(Copy, Clone, Debug, PartialEq, Eq, Structural)]
pub enum ChirpKind {
    Up,
    Down,
}

/// By how much of a chirp the next window starts later than it would.
#[derive(Copy, Clone, Debug)]
pub enum WindowShift {
    /// The window stays.
    Stay,
    /// By the fraction of a chirp that the symbol, with its adjustment,
    /// stands for.
    ToSymbol(Symbol),
    /// By three quarters of a chirp.
    ThreeQuarters,
}

impl WindowShift {
    /// The samples that the window moves on by, where a whole number is
    /// meant: all of the chirp if the window stays, a quarter of it, rounded
    /// down, if three quarters are kept. A move to a symbol depends on the
    /// symbol's adjustment and is left to the caller.
    pub open spec fn samples_of(self, chirp_len: usize) -> Option<usize> {
        match self {
            WindowShift::Stay => Some(chirp_len),
            WindowShift::ThreeQuarters => Some((chirp_len / 4) as usize),
            WindowShift::ToSymbol(_) => None,
        }
    }

    pub fn samples(&self, chirp_len: usize) -> (samples: Option<usize>)
        ensures
            samples == self.samples_of(chirp_len),
    {
        match self {
            WindowShift::Stay => Some(chirp_len),
            WindowShift::ThreeQuarters => Some(chirp_len / 4),
            WindowShift::ToSymbol(_) => None,
        }
    }
}

/// What one symbol did to the machine.
pub struct SyncStep {
    pub shift: WindowShift,
    pub packet: Option<Packet>,
}

/// The distance between `a` and `b` on a ring of `base` values.
pub open spec fn ring_distance(a: int, b: int, base: int) -> int {
    let d = (if a >= b {
        a - b
    } else {
        b - a
    }) % base;
    if d <= base - d {
        d
    } else {
        base - d
    }
}

/// Whether every one of `symbols` lies within `range` of `center` on a ring
/// of `base` values.
pub open spec fn within(symbols: Seq<Symbol>, center: int, range: int, base: int) -> bool {
    forall|k: int|
        0 <= k < symbols.len() ==> ring_distance(
            (#[trigger] symbols[k]).value as int,
            center,
            base,
        ) <= range
}

/// Whether the `symbols` all lie within `range` of some common value on a
/// ring of `base` values.
pub open spec fn clustered(symbols: Seq<Symbol>, range: int, base: int) -> bool {
    symbols.len() == 0 || exists|center: int|
        0 <= center < base && #[trigger] within(symbols, center, range, base)
}

pub fn mod_distance(a: usize, b: usize, mod_base: usize) -> (d: usize)
    requires
        mod_base > 0,
    ensures
        d == ring_distance(a as int, b as int, mod_base as int),
        d <= mod_base / 2,
{
    let gap: usize = if a >= b {
        a - b
    } else {
        b - a
    };
    let d: usize = gap % mod_base;
    if d <= mod_base - d {
        d
    } else {
        mod_base - d
    }
}

/// Whether every one of `symbols` lies within `range` of `center`.
fn within_of(symbols: &[Symbol], center: usize, range: usize, mod_base: usize) -> (all: bool)
    requires
        mod_base > 0,
    ensures
        all == within(symbols@, center as int, range as int, mod_base as int),
{
    let mut k: usize = 0;
    while k < symbols.len()
        invariant
            mod_base > 0,
            k <= symbols@.len(),
            forall|j: int|
                0 <= j < k ==> ring_distance(
                    (#[trigger] symbols@[j]).value as int,
                    center as int,
                    mod_base as int,
                ) <= range,
        decreases symbols@.len() - k,
    {
        if mod_distance(symbols[k].value, center, mod_base) > range {
            return false;
        }
        k += 1;
    }
    true
}

pub fn all_within(symbols: &[Symbol], range: usize, mod_base: usize) -> (all: bool)
    ensures
        all == clustered(symbols@, range as int, mod_base as int),
{
    if symbols.len() == 0 {
        return true;
    }
    let mut center: usize = 0;
    while center < mod_base
        invariant
            center <= mod_base,
            forall|c: int|
                0 <= c < center ==> !#[trigger] within(
                    symbols@,
                    c,
                    range as int,
                    mod_base as int,
                ),
        decreases mod_base - center,
    {
        if within_of(symbols, center, range, mod_base) {
            return true;
        }
        center += 1;
    }
    false
}

/// The last `n` items of `s`, or all of them if there are fewer.
pub open spec fn keep_last(s: Seq<Symbol>, n: int) -> Seq<Symbol> {
    if s.len() > n {
        s.subrange(s.len() - n, s.len() as int)
    } else {
        s
    }
}

/// What the machine knows between two symbols.
pub struct SyncModel {
    pub mode: SyncingMode,
    /// The latest up-chirps, `PREAMBLE_RUN` at most, oldest first.
    pub up: Seq<Symbol>,
    /// The latest down-chirps, two at most, oldest first.
    pub down: Seq<Symbol>,
    /// The payload symbols gathered so far.
    pub packet: Seq<Symbol>,
    /// The number of symbol values.
    pub base: int,
}

impl SyncModel {
    /// What holds of the machine between any two symbols.
    pub open spec fn wf(self) -> bool {
        &&& self.base > 0
        &&& self.up.len() <= PREAMBLE_RUN
        &&& self.down.len() <= 2
        &&& self.packet.len() < PAYLOAD_SYMBOLS
        &&& self.mode != SyncingMode::Synced ==> self.packet.len() == 0
        &&& self.mode == SyncingMode::LookDown1 ==> self.down.len() >= 1
    }

    /// The machine before the first symbol.
    pub open spec fn start(base: int) -> SyncModel {
        SyncModel {
            mode: SyncingMode::LookSync,
            up: Seq::empty(),
            down: Seq::empty(),
            packet: Seq::empty(),
            base,
        }
    }

    /// The kind of chirp that the next symbol is to be read as.
    pub open spec fn chirp(self) -> ChirpKind {
        match self.mode {
            SyncingMode::LookDown0 | SyncingMode::LookDown1 | SyncingMode::LookDownQuarter => {
                ChirpKind::Down
            },
            _ => ChirpKind::Up,
        }
    }

    /// The up-chirps remembered once `sym` has come in.
    pub open spec fn up_after(self, sym: Symbol) -> Seq<Symbol> {
        if self.chirp() == ChirpKind::Up {
            keep_last(self.up.push(sym), PREAMBLE_RUN as int)
        } else {
            self.up
        }
    }

    /// The down-chirps remembered once `sym` has come in.
    pub open spec fn down_after(self, sym: Symbol) -> Seq<Symbol> {
        if self.chirp() == ChirpKind::Down {
            keep_last(self.down.push(sym), 2)
        } else {
            self.down
        }
    }

    /// Whether the run of up-chirps that opens a frame is complete with `sym`.
    pub open spec fn preamble_found(self, sym: Symbol) -> bool {
        self.up_after(sym).len() == PREAMBLE_RUN && clustered(
            self.up_after(sym),
            PREAMBLE_TOLERANCE as int,
            self.base,
        )
    }

    /// Whether `sym` and the down-chirp before it agree.
    pub open spec fn down_pair_agrees(self, sym: Symbol) -> bool {
        self.down.len() >= 1 && ring_distance(
            sym.value as int,
            self.down.last().value as int,
            self.base,
        ) <= DOWN_TOLERANCE
    }

    /// Whether `sym` completes a payload.
    pub open spec fn completes(self, sym: Symbol) -> bool {
        self.mode == SyncingMode::Synced && self.packet.len() + 1 >= PAYLOAD_SYMBOLS
    }

    /// The stage that `sym` takes the machine to.
    pub open spec fn mode_after(self, sym: Symbol) -> SyncingMode {
        match self.mode {
            SyncingMode::LookSync => if self.preamble_found(sym) {
                SyncingMode::Look8
            } else {
                SyncingMode::LookSync
            },
            SyncingMode::Look8 => if sym.value == 0 {
                SyncingMode::Look8
            } else if sym.value == 8 {
                SyncingMode::Look16
            } else {
                SyncingMode::LookSync
            },
            SyncingMode::Look16 => if sym.value == 16 {
                SyncingMode::LookDown0
            } else {
                SyncingMode::LookSync
            },
            SyncingMode::LookDown0 => SyncingMode::LookDown1,
            SyncingMode::LookDown1 => if self.down_pair_agrees(sym) {
                SyncingMode::LookDownQuarter
            } else {
                SyncingMode::LookSync
            },
            SyncingMode::LookDownQuarter => SyncingMode::Synced,
            SyncingMode::Synced => if self.completes(sym) {
                SyncingMode::LookSync
            } else {
                SyncingMode::Synced
            },
        }
    }

    /// The machine once `sym` has come in.
    pub open spec fn after(self, sym: Symbol) -> SyncModel {
        SyncModel {
            mode: self.mode_after(sym),
            up: self.up_after(sym),
            down: self.down_after(sym),
            packet: if self.mode == SyncingMode::Synced && !self.completes(sym) {
                self.packet.push(sym)
            } else {
                Seq::empty()
            },
            base: self.base,
        }
    }

    /// The move of the chirp window that `sym` asks for.
    pub open spec fn shift(self, sym: Symbol) -> WindowShift {
        if self.mode == SyncingMode::LookSync && self.preamble_found(sym) {
            WindowShift::ToSymbol(sym)
        } else if self.mode == SyncingMode::LookDown1 && self.down_pair_agrees(sym) {
            WindowShift::ThreeQuarters
        } else {
            WindowShift::Stay
        }
    }

    /// The payload that `sym` completes, if it completes one.
    pub open spec fn emitted(self, sym: Symbol) -> Option<Seq<Symbol>> {
        if self.completes(sym) {
            Some(self.packet.push(sym))
        } else {
            None
        }
    }
}

pub struct LoraSyncStateMachine {
    sync_state: SyncingMode,
    up_history: Vec<Symbol>,
    down_history: Vec<Symbol>,
    packet: Vec<Symbol>,
    sf2: usize,
}

impl View for LoraSyncStateMachine {
    type V = SyncModel;

    closed spec fn view(&self) -> SyncModel {
        SyncModel {
            mode: self.sync_state,
            up: self.up_history@,
            down: self.down_history@,
            packet: self.packet@,
            base: self.sf2 as int,
        }
    }
}

/// Appends `sym` to `history` and drops the oldest item if more than `keep`
/// are held.
fn remember(history: &mut Vec<Symbol>, sym: Symbol, keep: usize)
    requires
        old(history)@.len() <= keep,
        keep >= 1,
    ensures
        final(history)@ == keep_last(old(history)@.push(sym), keep as int),
        final(history)@.len() <= keep,
        final(history)@.len() >= 1,
        final(history)@.last() == sym,
{
    history.push(sym);
    if history.len() > keep {
        let _ = history.remove(0);
        assert(history@ =~= keep_last(old(history)@.push(sym), keep as int));
    }
}

impl LoraSyncStateMachine {
    /// Whether the machine is in a state that its own methods leave it in.
    pub closed spec fn wf(&self) -> bool {
        self@.wf()
    }

    /// A machine at the start, for `2^spreading_factor` symbol values.
    pub fn new(spreading_factor: u32) -> (machine: Self)
        requires
            spreading_factor < 32,
        ensures
            machine.wf(),
            machine@ == SyncModel::start(vstd::arithmetic::power2::pow2(spreading_factor as nat) as int),
    {
        let mut sf2: u32 = 1;
        let mut i: u32 = 0;
        proof {
            vstd::arithmetic::power2::lemma2_to64();
        }
        while i < spreading_factor
            invariant
                i <= spreading_factor < 32,
                sf2 == vstd::arithmetic::power2::pow2(i as nat),
            decreases spreading_factor - i,
        {
            proof {
                vstd::arithmetic::power2::lemma_pow2_unfold((i + 1) as nat);
                vstd::arithmetic::power2::lemma_pow2_strictly_increases((i + 1) as nat, 32);
                vstd::arithmetic::power2::lemma2_to64();
            }
            sf2 = sf2 * 2;
            i += 1;
        }
        proof {
            vstd::arithmetic::power2::lemma_pow2_pos(spreading_factor as nat);
        }
        Self {
            sync_state: SyncingMode::LookSync,
            up_history: Vec::new(),
            down_history: Vec::new(),
            packet: Vec::new(),
            sf2: sf2 as usize,
        }
    }

    /// The stage the machine is in.
    pub fn mode(&self) -> (mode: SyncingMode)
        ensures
            mode == self@.mode,
    {
        self.sync_state
    }

    /// The kind of chirp that the next symbol is to be read as.
    pub fn which_chirp(&self) -> (kind: ChirpKind)
        ensures
            kind == self@.chirp(),
    {
        match self.sync_state {
            SyncingMode::LookSync => ChirpKind::Up,
            SyncingMode::Look8 => ChirpKind::Up,
            SyncingMode::Look16 => ChirpKind::Up,
            SyncingMode::LookDown0 => ChirpKind::Down,
            SyncingMode::LookDown1 => ChirpKind::Down,
            SyncingMode::LookDownQuarter => ChirpKind::Down,
            SyncingMode::Synced => ChirpKind::Up,
        }
    }

    /// Takes in the next symbol.
    pub fn next(&mut self, sym: Symbol) -> (step: SyncStep)
        requires
            old(self).wf(),
        ensures
            final(self).wf(),
            final(self)@ == old(self)@.after(sym),
            step.shift == old(self)@.shift(sym),
            match step.packet {
                Some(packet) => old(self)@.emitted(sym) == Some(packet.symbols@),
                None => old(self)@.emitted(sym).is_none(),
            },
    {
        let ghost before = self@;
        let mut shift = WindowShift::Stay;
        let mut packet: Option<Packet> = None;
        match self.sync_state {
            SyncingMode::LookSync => {
                remember(&mut self.up_history, sym, PREAMBLE_RUN);
                if self.up_history.len() == PREAMBLE_RUN && all_within(
                    self.up_history.as_slice(),
                    PREAMBLE_TOLERANCE,
                    self.sf2,
                ) {
                    shift = WindowShift::ToSymbol(sym);
                    self.sync_state = SyncingMode::Look8;
                }
            },
            SyncingMode::Look8 => {
                remember(&mut self.up_history, sym, PREAMBLE_RUN);
                if sym.value == 0 {
                } else if sym.value == 8 {
                    self.sync_state = SyncingMode::Look16;
                } else {
                    self.sync_state = SyncingMode::LookSync;
                }
            },
            SyncingMode::Look16 => {
                remember(&mut self.up_history, sym, PREAMBLE_RUN);
                if sym.value == 16 {
                    self.sync_state = SyncingMode::LookDown0;
                } else {
                    self.sync_state = SyncingMode::LookSync;
                }
            },
            SyncingMode::LookDown0 => {
                remember(&mut self.down_history, sym, 2);
                self.sync_state = SyncingMode::LookDown1;
            },
            SyncingMode::LookDown1 => {
                let earlier: Symbol = self.down_history[self.down_history.len() - 1];
                remember(&mut self.down_history, sym, 2);
                if mod_distance(sym.value, earlier.value, self.sf2) <= DOWN_TOLERANCE {
                    shift = WindowShift::ThreeQuarters;
                    self.sync_state = SyncingMode::LookDownQuarter;
                } else {
                    self.sync_state = SyncingMode::LookSync;
                }
            },
            SyncingMode::LookDownQuarter => {
                remember(&mut self.down_history, sym, 2);
                self.sync_state = SyncingMode::Synced;
            },
            SyncingMode::Synced => {
                remember(&mut self.up_history, sym, PREAMBLE_RUN);
                self.packet.push(sym);
                if self.packet.len() >= PAYLOAD_SYMBOLS {
                    let mut symbols: Vec<Symbol> = Vec::new();
                    core::mem::swap(&mut symbols, &mut self.packet);
                    packet = Some(Packet::new(symbols));
                    self.sync_state = SyncingMode::LookSync;
                }
            },
        }
        assert(self@.up =~= before.after(sym).up);
        assert(self@.down =~= before.after(sym).down);
        assert(self@.packet =~= before.after(sym).packet);
        SyncStep { shift, packet }
    }
}

/// A symbol leaves the machine in a state that it can go on from.
pub proof fn lemma_after_keeps_wf(m: SyncModel, sym: Symbol)
    requires
        m.wf(),
    ensures
        m.after(sym).wf(),
{
}

/// A payload is handed out only by the symbol that completes it: the machine
/// was gathering, the payload has `PAYLOAD_SYMBOLS` symbols and ends with that
/// symbol, and the machine goes back to the start with nothing gathered.
pub proof fn lemma_emits_whole_payloads_only(m: SyncModel, sym: Symbol)
    requires
        m.wf(),
    ensures
        match m.emitted(sym) {
            Some(payload) => {
                &&& m.mode == SyncingMode::Synced
                &&& payload.len() == PAYLOAD_SYMBOLS
                &&& payload == m.packet.push(sym)
                &&& m.after(sym).mode == SyncingMode::LookSync
                &&& m.after(sym).packet.len() == 0
            },
            None => m.after(sym).mode == SyncingMode::Synced ==> m.mode == SyncingMode::Synced
                || m.mode == SyncingMode::LookDownQuarter,
        },
{
}

/// After the up-chirps 8 and 16, two down-chirps that lie further apart than
/// `DOWN_TOLERANCE` send the machine back to the start, and none of the four
/// symbols hands out a payload.
pub proof fn lemma_corrupted_down_pair_resets(
    m: SyncModel,
    eight: Symbol,
    sixteen: Symbol,
    first_down: Symbol,
    second_down: Symbol,
)
    requires
        m.wf(),
        m.mode == SyncingMode::Look8,
        eight.value == 8,
        sixteen.value == 16,
        ring_distance(second_down.value as int, first_down.value as int, m.base) > DOWN_TOLERANCE,
    ensures
        ({
            let m1 = m.after(eight);
            let m2 = m1.after(sixteen);
            let m3 = m2.after(first_down);
            let m4 = m3.after(second_down);
            &&& m1.mode == SyncingMode::Look16
            &&& m2.mode == SyncingMode::LookDown0
            &&& m3.mode == SyncingMode::LookDown1
            &&& m4.mode == SyncingMode::LookSync
            &&& m4.wf()
            &&& m4.packet.len() == 0
            &&& m.emitted(eight).is_none()
            &&& m1.emitted(sixteen).is_none()
            &&& m2.emitted(first_down).is_none()
            &&& m3.emitted(second_down).is_none()
            &&& m3.shift(second_down) == WindowShift::Stay
        }),
{
    let m1 = m.after(eight);
    let m2 = m1.after(sixteen);
    let m3 = m2.after(first_down);
    assert(m3.down.last() == first_down);
}

/// While the machine looks for 8, 16 or the down-chirps, a symbol that is
/// not the expected one sends it back to the start without a payload.
pub proof fn lemma_unexpected_symbol_resets(m: SyncModel, sym: Symbol)
    requires
        m.wf(),
    ensures
        m.mode == SyncingMode::Look8 && sym.value != 0 && sym.value != 8 ==> m.after(sym).mode
            == SyncingMode::LookSync,
        m.mode == SyncingMode::Look16 && sym.value != 16 ==> m.after(sym).mode
            == SyncingMode::LookSync,
        m.mode == SyncingMode::LookDown1 && !m.down_pair_agrees(sym) ==> m.after(sym).mode
            == SyncingMode::LookSync,
        m.mode != SyncingMode::Synced ==> m.emitted(sym).is_none(),
{
}

impl SyncModel {
    /// The machine once all of `symbols` have come in.
    pub open spec fn run(self, symbols: Seq<Symbol>) -> SyncModel
        decreases symbols.len(),
    {
        if symbols.len() == 0 {
            self
        } else {
            self.run(symbols.drop_last()).after(symbols.last())
        }
    }

    /// The payloads handed out while `symbols` come in, in order.
    pub open spec fn payloads(self, symbols: Seq<Symbol>) -> Seq<Seq<Symbol>>
        decreases symbols.len(),
    {
        if symbols.len() == 0 {
            Seq::empty()
        } else {
            let earlier = self.payloads(symbols.drop_last());
            match self.run(symbols.drop_last()).emitted(symbols.last()) {
                Some(payload) => earlier.push(payload),
                None => earlier,
            }
        }
    }
}

/// Feeding `a` and then `b` is feeding `a + b`.
pub proof fn lemma_run_in_two_parts(m: SyncModel, a: Seq<Symbol>, b: Seq<Symbol>)
    ensures
        m.run(a + b) == m.run(a).run(b),
        m.payloads(a + b) == m.payloads(a) + m.run(a).payloads(b),
    decreases b.len(),
{
    if b.len() == 0 {
        assert(a + b =~= a);
        assert(m.payloads(a) + m.run(a).payloads(b) =~= m.payloads(a));
    } else {
        assert((a + b).drop_last() =~= a + b.drop_last());
        assert((a + b).last() == b.last());
        lemma_run_in_two_parts(m, a, b.drop_last());
        match m.run(a).run(b.drop_last()).emitted(b.last()) {
            Some(payload) => {
                assert((m.payloads(a) + m.run(a).payloads(b.drop_last())).push(payload)
                    =~= m.payloads(a) + m.run(a).payloads(b.drop_last()).push(payload));
            },
            None => {},
        }
    }
}

/// Whatever comes in, the machine stays in a state that it can go on from.
pub proof fn lemma_run_keeps_wf(m: SyncModel, symbols: Seq<Symbol>)
    requires
        m.wf(),
    ensures
        m.run(symbols).wf(),
    decreases symbols.len(),
{
    if symbols.len() > 0 {
        lemma_run_keeps_wf(m, symbols.drop_last());
    }
}

/// A fresh machine finds the preamble with the last of `PREAMBLE_RUN` equal
/// up-chirps, not before, and asks for the window to move to that symbol.
pub proof fn lemma_equal_run_is_found(base: int, run: Seq<Symbol>, k: int)
    requires
        base > 0,
        run.len() == PREAMBLE_RUN,
        0 <= run[0].value < base,
        forall|i: int| 0 <= i < run.len() ==> (#[trigger] run[i]).value == run[0].value,
        0 <= k <= PREAMBLE_RUN,
    ensures
        SyncModel::start(base).run(run.subrange(0, k)).up == run.subrange(0, k),
        SyncModel::start(base).run(run.subrange(0, k)).wf(),
        SyncModel::start(base).run(run.subrange(0, k)).mode == if k == PREAMBLE_RUN {
            SyncingMode::Look8
        } else {
            SyncingMode::LookSync
        },
        SyncModel::start(base).payloads(run.subrange(0, k)).len() == 0,
        k == PREAMBLE_RUN ==> SyncModel::start(base).run(run.subrange(0, k - 1)).shift(run[k - 1])
            == WindowShift::ToSymbol(run[k - 1]),
    decreases k,
{
    let fed = run.subrange(0, k);
    if k == 0 {
        assert(SyncModel::start(base).up =~= fed);
    } else {
        lemma_equal_run_is_found(base, run, k - 1);
        assert(fed.drop_last() =~= run.subrange(0, k - 1));
        let m = SyncModel::start(base).run(fed.drop_last());
        lemma_run_keeps_base(SyncModel::start(base), fed.drop_last());
        assert(fed.last() == run[k - 1]);
        assert(m.up_after(fed.last()) =~= fed);
        if k == PREAMBLE_RUN {
            let center = run[0].value as int;
            assert forall|j: int| 0 <= j < fed.len() implies ring_distance(
                (#[trigger] fed[j]).value as int,
                center,
                base,
            ) <= PREAMBLE_TOLERANCE by {
                assert(fed[j] == run[j]);
                assert(0int % base == 0) by (nonlinear_arith)
                    requires
                        base > 0,
                ;
            }
            assert(within(fed, center, PREAMBLE_TOLERANCE as int, base));
            assert(clustered(fed, PREAMBLE_TOLERANCE as int, base));
        }
    }
}

/// A machine that has found the preamble and then sees the up-chirps 8 and
/// 16, two down-chirps that agree, and one more chirp, is ready to gather a
/// payload, and has handed out nothing on the way.
pub proof fn lemma_sync_word_leads_to_payload(m: SyncModel, word: Seq<Symbol>)
    requires
        m.wf(),
        m.mode == SyncingMode::Look8,
        word.len() == 5,
        word[0].value == 8,
        word[1].value == 16,
        ring_distance(word[3].value as int, word[2].value as int, m.base) <= DOWN_TOLERANCE,
    ensures
        m.run(word).mode == SyncingMode::Synced,
        m.run(word).packet.len() == 0,
        m.run(word).wf(),
        m.payloads(word).len() == 0,
{
    let w1 = word.subrange(0, 1);
    let w2 = word.subrange(0, 2);
    let w3 = word.subrange(0, 3);
    let w4 = word.subrange(0, 4);
    assert(w1.drop_last() =~= Seq::<Symbol>::empty());
    assert(w2.drop_last() =~= w1);
    assert(w3.drop_last() =~= w2);
    assert(w4.drop_last() =~= w3);
    assert(word.drop_last() =~= w4);
    assert(m.run(w1.drop_last()) == m);
    assert(m.run(w1).mode == SyncingMode::Look16);
    assert(m.run(w2).mode == SyncingMode::LookDown0);
    assert(m.run(w3).mode == SyncingMode::LookDown1);
    assert(m.run(w3).down.last() == word[2]);
    assert(m.run(w4).mode == SyncingMode::LookDownQuarter);
    assert(m.payloads(w1.drop_last()).len() == 0);
    assert(m.payloads(w1).len() == 0);
    assert(m.payloads(w2).len() == 0);
    assert(m.payloads(w3).len() == 0);
    assert(m.payloads(w4).len() == 0);
}

/// A machine that is ready to gather a payload hands out the next
/// `PAYLOAD_SYMBOLS` symbols as one payload, with the last of them, and
/// then looks for a preamble again.
pub proof fn lemma_payload_is_gathered(m: SyncModel, symbols: Seq<Symbol>)
    requires
        m.wf(),
        m.mode == SyncingMode::Synced,
        m.packet.len() == 0,
        symbols.len() <= PAYLOAD_SYMBOLS,
    ensures
        symbols.len() < PAYLOAD_SYMBOLS ==> m.run(symbols).mode == SyncingMode::Synced && m.run(
            symbols,
        ).packet == symbols && m.payloads(symbols).len() == 0,
        symbols.len() == PAYLOAD_SYMBOLS ==> m.run(symbols).mode == SyncingMode::LookSync && m.run(
            symbols,
        ).packet.len() == 0 && m.payloads(symbols) == seq![symbols],
        m.run(symbols).wf(),
    decreases symbols.len(),
{
    if symbols.len() == 0 {
        assert(m.packet =~= symbols);
    } else {
        lemma_payload_is_gathered(m, symbols.drop_last());
        let before = m.run(symbols.drop_last());
        assert(before.packet.push(symbols.last()) =~= symbols);
        if symbols.len() == PAYLOAD_SYMBOLS {
            assert(m.payloads(symbols) =~= seq![symbols]);
        }
    }
}

/// A fresh machine that is fed a whole frame, that is `PREAMBLE_RUN` equal
/// up-chirps, the up-chirps 8 and 16, two down-chirps that agree, one more
/// chirp and `PAYLOAD_SYMBOLS` payload symbols, hands out exactly one
/// payload, those symbols, and looks for a preamble again.
pub proof fn lemma_frame_yields_its_payload(
    base: int,
    run: Seq<Symbol>,
    word: Seq<Symbol>,
    payload: Seq<Symbol>,
)
    requires
        base > 0,
        run.len() == PREAMBLE_RUN,
        0 <= run[0].value < base,
        forall|i: int| 0 <= i < run.len() ==> (#[trigger] run[i]).value == run[0].value,
        word.len() == 5,
        word[0].value == 8,
        word[1].value == 16,
        ring_distance(word[3].value as int, word[2].value as int, base) <= DOWN_TOLERANCE,
        payload.len() == PAYLOAD_SYMBOLS,
    ensures
        SyncModel::start(base).payloads(run + word + payload) == seq![payload],
        SyncModel::start(base).run(run + word + payload).mode == SyncingMode::LookSync,
{
    let start = SyncModel::start(base);
    lemma_equal_run_is_found(base, run, PREAMBLE_RUN as int);
    assert(run.subrange(0, PREAMBLE_RUN as int) =~= run);
    let found = start.run(run);
    assert(found.base == base) by {
        lemma_run_keeps_base(start, run);
    }
    lemma_sync_word_leads_to_payload(found, word);
    let synced = found.run(word);
    lemma_payload_is_gathered(synced, payload);
    lemma_run_in_two_parts(start, run, word);
    lemma_run_in_two_parts(start, run + word, payload);
    assert(start.payloads(run + word) =~= Seq::<Seq<Symbol>>::empty());
    assert(start.payloads(run + word) + synced.payloads(payload) =~= seq![payload]);
}

/// The number of symbol values never changes.
pub proof fn lemma_run_keeps_base(m: SyncModel, symbols: Seq<Symbol>)
    ensures
        m.run(symbols).base == m.base,
    decreases symbols.len(),
{
    if symbols.len() > 0 {
        lemma_run_keeps_base(m, symbols.drop_last());
    }
}

} // verus!
