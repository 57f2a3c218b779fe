//! Framing of a stream of bit decisions.
//!
//! The decoder slides the latest decisions past the sync pattern. Once they
//! match it bit for bit, the decisions that follow are gathered as one soft
//! byte each, until a whole message is there to be handed to the
//! error-correcting decoder. Then the search begins again.

use vstd::prelude::*;

verus! {

/// The bits of the sync pattern.
pub const SYNC_BITS: usize = 34;

/// The bits of a message as it is sent.
pub const MESSAGE_LEN: usize = 72 * 8;

/// The sync pattern, one byte per bit.
pub const SYNC_PATTERN: [u8; 34] = [
    1, 0, 1, 0, 1, 0, 1, 0, 1, 0, 1, 0, 1, 0, 1, 0, 1, 0, 1, 1, 0, 1, 0, 0, 1, 1, 1, 0, 0, 1, 0, 0,
    0, 1,
];

#[derive(Copy, Clone, Debug, PartialEq, Eq, Structural)]
pub enum FecDecoderState {
    SYNCING,
    BUFFERING,
}

/// The byte that stands for a bit decision in the sync window.
pub open spec fn sync_byte(sample: bool) -> u8 {
    if sample {
        1
    } else {
        0
    }
}

/// The soft byte that stands for a bit decision in a message.
pub open spec fn soft_byte(sample: bool) -> u8 {
    if sample {
        0x00
    } else {
        0xff
    }
}

/// What the decoder knows between two decisions.
pub struct FecModel {
    pub state: FecDecoderState,
    /// The window on the latest decisions, `SYNC_BITS` long, oldest first.
    pub window: Seq<u8>,
    /// The soft bytes of the message gathered so far.
    pub message: Seq<u8>,
}

impl FecModel {
    /// What holds of the decoder between any two decisions.
    pub open spec fn wf(self) -> bool {
        &&& self.window.len() == SYNC_BITS
        &&& self.message.len() < MESSAGE_LEN
        &&& self.state == FecDecoderState::SYNCING ==> self.message.len() == 0
    }

    /// The decoder before the first decision: no bit of the window can be
    /// taken for one of the pattern.
    pub open spec fn start() -> FecModel {
        FecModel {
            state: FecDecoderState::SYNCING,
            window: Seq::new(SYNC_BITS as nat, |i: int| 0xffu8),
            message: Seq::empty(),
        }
    }

    /// The window once `sample` has come in while searching.
    pub open spec fn slid(self, sample: bool) -> Seq<u8> {
        self.window.subrange(1, self.window.len() as int).push(sync_byte(sample))
    }

    /// Whether `sample` completes a message.
    pub open spec fn completes(self, sample: bool) -> bool {
        self.state == FecDecoderState::BUFFERING && self.message.len() + 1 == MESSAGE_LEN
    }

    /// The decoder once `sample` has come in.
    pub open spec fn after(self, sample: bool) -> FecModel {
        match self.state {
            FecDecoderState::SYNCING => FecModel {
                state: if self.slid(sample) == SYNC_PATTERN@ {
                    FecDecoderState::BUFFERING
                } else {
                    FecDecoderState::SYNCING
                },
                window: self.slid(sample),
                message: self.message,
            },
            FecDecoderState::BUFFERING => if self.completes(sample) {
                FecModel {
                    state: FecDecoderState::SYNCING,
                    window: self.window,
                    message: Seq::empty(),
                }
            } else {
                FecModel {
                    state: FecDecoderState::BUFFERING,
                    window: self.window,
                    message: self.message.push(soft_byte(sample)),
                }
            },
        }
    }

    /// The message that `sample` completes, if it completes one.
    pub open spec fn emitted(self, sample: bool) -> Option<Seq<u8>> {
        if self.completes(sample) {
            Some(self.message.push(soft_byte(sample)))
        } else {
            None
        }
    }
}

pub struct StreamingFecDecoder {
    sync_buffer: [u8; 34],
    message_buffer: [u8; 576],
    message_head: usize,
    state: FecDecoderState,
}

impl View for StreamingFecDecoder {
    type V = FecModel;

    closed spec fn view(&self) -> FecModel {
        FecModel {
            state: self.state,
            window: self.sync_buffer@,
            message: self.message_buffer@.subrange(0, self.message_head as int),
        }
    }
}

/// One byte per character of `s`: zero for the digit zero, one for anything
/// else.
pub open spec fn bits_of(s: Seq<u8>) -> Seq<u8> {
    Seq::new(
        s.len(),
        |i: int|
            if s[i] == 0x30 {
                0u8
            } else {
                1u8
            },
    )
}

/// The first `N` characters of `s` as bits, one byte each.
pub fn to_bits<const N: usize>(s: &[u8]) -> (bits: [u8; N])
    requires
        N <= s@.len(),
    ensures
        bits@ == bits_of(s@.subrange(0, N as int)),
{
    let mut new: [u8; N] = [0u8; N];
    let mut i: usize = 0;
    while i < N
        invariant
            i <= N <= s@.len(),
            forall|k: int| 0 <= k < i ==> new@[k] == bits_of(s@)[k],
        decreases N - i,
    {
        new[i] = if s[i] == 0x30 {
            0
        } else {
            1
        };
        i += 1;
    }
    assert(new@ =~= bits_of(s@.subrange(0, N as int)));
    new
}

impl StreamingFecDecoder {
    /// Whether the decoder is in a state that its own methods leave it in.
    pub closed spec fn wf(&self) -> bool {
        &&& self.message_head < MESSAGE_LEN
        &&& self@.wf()
    }

    pub fn new() -> (decoder: StreamingFecDecoder)
        ensures
            decoder.wf(),
            decoder@ == FecModel::start(),
    {
        let decoder = StreamingFecDecoder {
            sync_buffer: [0xff;34],
            message_buffer: [0;576],
            message_head: 0,
            state: FecDecoderState::SYNCING,
        };
        assert(decoder@.window =~= FecModel::start().window);
        assert(decoder@.message =~= FecModel::start().message);
        decoder
    }

    /// Whether the decoder is gathering a message.
    pub fn is_buffering(&self) -> (buffering: bool)
        ensures
            buffering == (self@.state == FecDecoderState::BUFFERING),
    {
        match self.state {
            FecDecoderState::SYNCING => false,
            FecDecoderState::BUFFERING => true,
        }
    }

    /// Whether the window holds the sync pattern.
    fn window_matches(&self) -> (same: bool)
        ensures
            same == (self.sync_buffer@ == SYNC_PATTERN@),
    {
        let mut i: usize = 0;
        while i < SYNC_BITS
            invariant
                i <= SYNC_BITS,
                forall|k: int| 0 <= k < i ==> self.sync_buffer@[k] == SYNC_PATTERN@[k],
            decreases SYNC_BITS - i,
        {
            if self.sync_buffer[i] != SYNC_PATTERN[i] {
                return false;
            }
            i += 1;
        }
        assert(self.sync_buffer@ =~= SYNC_PATTERN@);
        true
    }

    /// Takes in the next bit decision. Hands back the soft bytes of a
    /// message when `sample` completes one: they are then due at the
    /// error-correcting decoder.
    pub fn feed(&mut self, sample: bool) -> (message: Option<[u8; 576]>)
        requires
            old(self).wf(),
        ensures
            final(self).wf(),
            final(self)@ == old(self)@.after(sample),
            match message {
                Some(bytes) => old(self)@.emitted(sample) == Some(bytes@),
                None => old(self)@.emitted(sample).is_none(),
            },
    {
        let ghost before = self@;
        match self.state {
            FecDecoderState::SYNCING => {
                let mut i: usize = 0;
                while i < SYNC_BITS - 1
                    invariant
                        i <= SYNC_BITS - 1,
                        self.message_head == old(self).message_head,
                        self.message_buffer == old(self).message_buffer,
                        self.state == old(self).state,
                        forall|k: int| 0 <= k < i ==> self.sync_buffer@[k] == before.window[k + 1],
                        forall|k: int|
                            i <= k < SYNC_BITS ==> self.sync_buffer@[k] == before.window[k],
                    decreases SYNC_BITS - 1 - i,
                {
                    self.sync_buffer[i] = self.sync_buffer[i + 1];
                    i += 1;
                }
                self.sync_buffer[SYNC_BITS - 1] = if sample {
                    1
                } else {
                    0
                };
                assert(self.sync_buffer@ =~= before.slid(sample));
                if self.window_matches() {
                    self.state = FecDecoderState::BUFFERING;
                }
                assert(self@.message =~= before.after(sample).message);
                None
            },
            FecDecoderState::BUFFERING => {
                self.message_buffer[self.message_head] = if sample {
                    0x00
                } else {
                    0xff
                };
                self.message_head += 1;
                assert(self.message_buffer@.subrange(0, self.message_head as int)
                    =~= before.message.push(soft_byte(sample)));
                if self.message_head == MESSAGE_LEN {
                    let message: [u8; 576] = self.message_buffer;
                    assert(message@ =~= before.message.push(soft_byte(sample)));
                    self.state = FecDecoderState::SYNCING;
                    self.message_head = 0;
                    assert(self@.message =~= before.after(sample).message);
                    Some(message)
                } else {
                    None
                }
            },
        }
    }
}

/// The sync pattern as bit decisions.
pub open spec fn sync_samples() -> Seq<bool> {
    Seq::new(SYNC_BITS as nat, |i: int| SYNC_PATTERN@[i] == 1)
}

/// The soft bytes of the bit decisions `samples`.
pub open spec fn soft_bytes(samples: Seq<bool>) -> Seq<u8> {
    Seq::new(samples.len(), |i: int| soft_byte(samples[i]))
}

impl FecModel {
    /// The decoder once all of `samples` have come in.
    pub open spec fn run(self, samples: Seq<bool>) -> FecModel
        decreases samples.len(),
    {
        if samples.len() == 0 {
            self
        } else {
            self.run(samples.drop_last()).after(samples.last())
        }
    }

    /// The messages handed out while `samples` come in, in order.
    pub open spec fn messages(self, samples: Seq<bool>) -> Seq<Seq<u8>>
        decreases samples.len(),
    {
        if samples.len() == 0 {
            Seq::empty()
        } else {
            let earlier = self.messages(samples.drop_last());
            match self.run(samples.drop_last()).emitted(samples.last()) {
                Some(message) => earlier.push(message),
                None => earlier,
            }
        }
    }
}

/// A decision leaves the decoder in a state that it can go on from.
pub proof fn lemma_after_keeps_wf(m: FecModel, sample: bool)
    requires
        m.wf(),
    ensures
        m.after(sample).wf(),
{
}

/// Feeding `a` and then `b` is feeding `a + b`.
pub proof fn lemma_run_in_two_parts(m: FecModel, a: Seq<bool>, b: Seq<bool>)
    ensures
        m.run(a + b) == m.run(a).run(b),
        m.messages(a + b) == m.messages(a) + m.run(a).messages(b),
    decreases b.len(),
{
    if b.len() == 0 {
        assert(a + b =~= a);
        assert(m.messages(a) + m.run(a).messages(b) =~= m.messages(a));
    } else {
        assert((a + b).drop_last() =~= a + b.drop_last());
        assert((a + b).last() == b.last());
        lemma_run_in_two_parts(m, a, b.drop_last());
        let earlier = m.messages(a) + m.run(a).messages(b.drop_last());
        match m.run(a).run(b.drop_last()).emitted(b.last()) {
            Some(message) => {
                assert(earlier.push(message) =~= m.messages(a) + m.run(a).messages(
                    b.drop_last(),
                ).push(message));
            },
            None => {},
        }
    }
}

/// The window of a fresh decoder after the first `k` bits of the sync
/// pattern: the bits, behind what is left of the filling.
spec fn partly_synced(k: int) -> Seq<u8> {
    Seq::new(
        SYNC_BITS as nat,
        |i: int|
            if i < SYNC_BITS - k {
                0xffu8
            } else {
                SYNC_PATTERN@[i - (SYNC_BITS - k)]
            },
    )
}

/// A fresh decoder that is fed the sync pattern finds it with the last bit
/// and not before, and hands out nothing.
proof fn lemma_fresh_decoder_syncs(k: int)
    requires
        0 <= k <= SYNC_BITS,
    ensures
        FecModel::start().run(sync_samples().subrange(0, k)).window == partly_synced(k),
        FecModel::start().run(sync_samples().subrange(0, k)).message.len() == 0,
        FecModel::start().run(sync_samples().subrange(0, k)).state == if k == SYNC_BITS {
            FecDecoderState::BUFFERING
        } else {
            FecDecoderState::SYNCING
        },
        FecModel::start().messages(sync_samples().subrange(0, k)).len() == 0,
    decreases k,
{
    let fed = sync_samples().subrange(0, k);
    if k == 0 {
        assert(FecModel::start().window =~= partly_synced(0));
    } else {
        lemma_fresh_decoder_syncs(k - 1);
        assert(fed.drop_last() =~= sync_samples().subrange(0, k - 1));
        let m = FecModel::start().run(fed.drop_last());
        assert(m.window == partly_synced(k - 1));
        assert(sync_byte(fed.last()) == SYNC_PATTERN@[k - 1]);
        assert(m.slid(fed.last()) =~= partly_synced(k));
        if k < SYNC_BITS {
            assert(partly_synced(k)[0] == 0xff);
            assert(SYNC_PATTERN@[0] == 1);
        } else {
            assert(partly_synced(k) =~= SYNC_PATTERN@);
        }
    }
}

/// A decoder that has just found the sync pattern gathers the decisions that
/// follow and hands them out as one message once `MESSAGE_LEN` are there.
proof fn lemma_synced_decoder_gathers(m: FecModel, samples: Seq<bool>)
    requires
        m.wf(),
        m.state == FecDecoderState::BUFFERING,
        m.message.len() == 0,
        samples.len() <= MESSAGE_LEN,
    ensures
        samples.len() < MESSAGE_LEN ==> m.run(samples).state == FecDecoderState::BUFFERING
            && m.run(samples).message == soft_bytes(samples) && m.messages(samples).len() == 0,
        samples.len() == MESSAGE_LEN ==> m.run(samples).state == FecDecoderState::SYNCING
            && m.run(samples).message.len() == 0 && m.messages(samples) == seq![
            soft_bytes(samples),
        ],
        m.run(samples).window == m.window,
    decreases samples.len(),
{
    if samples.len() == 0 {
        assert(m.message =~= soft_bytes(samples));
    } else {
        lemma_synced_decoder_gathers(m, samples.drop_last());
        let before = m.run(samples.drop_last());
        assert(before.message.push(soft_byte(samples.last())) =~= soft_bytes(samples));
        if samples.len() == MESSAGE_LEN {
            assert(m.messages(samples) =~= seq![soft_bytes(samples)]);
        }
    }
}

/// A fresh decoder that is fed the sync pattern and then `MESSAGE_LEN`
/// decisions hands out exactly one message, the soft bytes of those
/// decisions, and is searching again afterwards.
pub proof fn lemma_frame_is_handed_out_once(message: Seq<bool>)
    requires
        message.len() == MESSAGE_LEN,
    ensures
        FecModel::start().messages(sync_samples() + message) == seq![soft_bytes(message)],
        FecModel::start().run(sync_samples() + message).state == FecDecoderState::SYNCING,
        FecModel::start().run(sync_samples() + message).wf(),
{
    let start = FecModel::start();
    lemma_fresh_decoder_syncs(SYNC_BITS as int);
    assert(sync_samples().subrange(0, SYNC_BITS as int) =~= sync_samples());
    let synced = start.run(sync_samples());
    assert(synced.window.len() == SYNC_BITS);
    lemma_synced_decoder_gathers(synced, message);
    lemma_run_in_two_parts(start, sync_samples(), message);
    assert(start.messages(sync_samples()) + synced.messages(message) =~= seq![
        soft_bytes(message),
    ]);
}

} // verus!
