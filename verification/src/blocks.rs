//! Cutting a stream of samples into the pieces that the stages work on.
//!
//! Samples arrive in blocks of any length. One stage wants them in blocks of
//! a fixed length, another in windows of one chirp that may overlap. Both
//! keep what is left over for the next call: no sample is lost and none is
//! used twice.

use vstd::prelude::*;

verus! {

/// The samples of a block that goes through mixer, filter and the rest.
pub const BUFFER_SIZE: usize = 1024 * 32;

/// The look-back of the discriminator, in samples.
pub const OFFSET_SIZE: usize = 64;

/// The full blocks of `size` samples in `total`, in order.
pub open spec fn blocks_of<T>(total: Seq<T>, size: int) -> Seq<Seq<T>> {
    Seq::new(
        (total.len() as int / size) as nat,
        |k: int| total.subrange(k * size, k * size + size),
    )
}

/// The samples of `total` behind its last full block of `size` samples.
pub open spec fn rest_of<T>(total: Seq<T>, size: int) -> Seq<T> {
    total.subrange((total.len() as int / size) * size, total.len() as int)
}

/// Samples waiting to fill a block of a fixed size.
pub struct BlockBuffer<T> {
    buffer: Vec<T>,
    size: usize,
}

impl<T: Copy> BlockBuffer<T> {
    /// The samples that wait for their block to fill, oldest first.
    pub closed spec fn pending(&self) -> Seq<T> {
        self.buffer@
    }

    /// The size of a block.
    pub closed spec fn block_size(&self) -> nat {
        self.size as nat
    }

    /// Whether fewer samples wait than make a block.
    pub closed spec fn wf(&self) -> bool {
        self.buffer@.len() < self.size
    }

    /// An empty buffer for blocks of `size` samples.
    pub fn new(size: usize) -> (made: BlockBuffer<T>)
        requires
            size > 0,
        ensures
            made.wf(),
            made.block_size() == size,
            made.pending().len() == 0,
    {
        BlockBuffer { buffer: Vec::new(), size }
    }

    /// The number of samples that wait.
    pub fn len(&self) -> (len: usize)
        ensures
            len == self.pending().len(),
    {
        self.buffer.len()
    }

    /// Takes in `item` and hands back the blocks that are full with it, in
    /// order: the samples that waited and then those of `item`, cut every
    /// `block_size()` samples. What does not fill a block waits on.
    pub fn feed(&mut self, item: &[T]) -> (blocks: Vec<Vec<T>>)
        requires
            old(self).wf(),
        ensures
            final(self).wf(),
            final(self).block_size() == old(self).block_size(),
            blocks@.len() == blocks_of(
                old(self).pending() + item@,
                old(self).block_size() as int,
            ).len(),
            forall|k: int|
                0 <= k < blocks@.len() ==> (#[trigger] blocks@[k])@ == blocks_of(
                    old(self).pending() + item@,
                    old(self).block_size() as int,
                )[k],
            final(self).pending() == rest_of(
                old(self).pending() + item@,
                old(self).block_size() as int,
            ),
    {
        let ghost total = self.buffer@ + item@;
        let ghost size = self.size as int;
        let ghost waited = self.buffer@.len() as int;
        let mut blocks: Vec<Vec<T>> = Vec::new();
        let mut i: usize = 0;
        assert(blocks@.len() * size == 0) by (nonlinear_arith)
            requires
                blocks@.len() == 0,
        ;
        assert(self.buffer@ =~= total.subrange(0, waited));
        while i < item.len()
            invariant
                i <= item@.len(),
                self.size == size,
                size > 0,
                total == old(self).buffer@ + item@,
                waited == old(self).buffer@.len(),
                self.buffer@.len() < size,
                blocks@.len() * size + self.buffer@.len() == waited + i,
                forall|k: int|
                    0 <= k < blocks@.len() ==> (#[trigger] blocks@[k])@ == total.subrange(
                        k * size,
                        k * size + size,
                    ),
                self.buffer@ == total.subrange(blocks@.len() * size, waited + i),
            decreases item@.len() - i,
        {
            let ghost held = self.buffer@;
            let ghost n = blocks@.len() as int;
            self.buffer.push(item[i]);
            assert(self.buffer@ =~= total.subrange(n * size, waited + i + 1));
            if self.buffer.len() == self.size {
                let mut full: Vec<T> = Vec::new();
                core::mem::swap(&mut full, &mut self.buffer);
                blocks.push(full);
                assert((n + 1) * size == n * size + size) by (nonlinear_arith);
                assert(self.buffer@ =~= total.subrange((n + 1) * size, waited + i + 1));
            }
            i += 1;
        }
        proof {
            let n = blocks@.len() as int;
            vstd::arithmetic::div_mod::lemma_fundamental_div_mod_converse(
                total.len() as int,
                size,
                n,
                self.buffer@.len() as int,
            );
            assert(n * size == size * n) by (nonlinear_arith);
            assert(n >= 0);
        }
        blocks
    }

    /// Hands back the samples that wait, and waits for none.
    pub fn take_rest(&mut self) -> (rest: Vec<T>)
        requires
            old(self).wf(),
        ensures
            final(self).wf(),
            final(self).block_size() == old(self).block_size(),
            final(self).pending().len() == 0,
            rest@ == old(self).pending(),
    {
        let mut rest: Vec<T> = Vec::new();
        core::mem::swap(&mut rest, &mut self.buffer);
        rest
    }
}

/// The samples of the chirp that is looked at next.
pub struct ChirpWindow<T> {
    chirp_buffer: Vec<T>,
    chirp_len: usize,
}

impl<T: Copy> ChirpWindow<T> {
    /// The samples in the window, oldest first.
    pub closed spec fn held(&self) -> Seq<T> {
        self.chirp_buffer@
    }

    /// The samples of one chirp.
    pub closed spec fn chirp_len(&self) -> nat {
        self.chirp_len as nat
    }

    /// Whether the window holds no more than one chirp.
    pub closed spec fn wf(&self) -> bool {
        self.chirp_buffer@.len() <= self.chirp_len
    }

    /// An empty window for chirps of `chirp_len` samples.
    pub fn new(chirp_len: usize) -> (made: ChirpWindow<T>)
        ensures
            made.wf(),
            made.chirp_len() == chirp_len,
            made.held().len() == 0,
    {
        ChirpWindow { chirp_buffer: Vec::new(), chirp_len }
    }

    /// Whether the window holds a whole chirp.
    pub fn is_full(&self) -> (full: bool)
        ensures
            full == (self.held().len() == self.chirp_len()),
    {
        self.chirp_buffer.len() == self.chirp_len
    }

    /// The samples in the window.
    pub fn samples(&self) -> (samples: &Vec<T>)
        ensures
            samples@ == self.held(),
    {
        &self.chirp_buffer
    }

    /// Moves samples from the front of `view` into the window until it
    /// holds a whole chirp or `view` ends. Hands back how many were moved.
    pub fn fill(&mut self, view: &[T]) -> (take: usize)
        requires
            old(self).wf(),
        ensures
            final(self).wf(),
            final(self).chirp_len() == old(self).chirp_len(),
            take == if old(self).chirp_len() - old(self).held().len() <= view@.len() {
                old(self).chirp_len() - old(self).held().len()
            } else {
                view@.len() as int
            },
            final(self).held() == old(self).held() + view@.subrange(0, take as int),
    {
        let room: usize = self.chirp_len - self.chirp_buffer.len();
        let take: usize = if room <= view.len() {
            room
        } else {
            view.len()
        };
        let ghost before = self.chirp_buffer@;
        let mut i: usize = 0;
        while i < take
            invariant
                i <= take <= view@.len(),
                self.chirp_len == old(self).chirp_len,
                before.len() + take <= self.chirp_len,
                self.chirp_buffer@ == before + view@.subrange(0, i as int),
            decreases take - i,
        {
            self.chirp_buffer.push(view[i]);
            i += 1;
            assert(self.chirp_buffer@ =~= before + view@.subrange(0, i as int));
        }
        take
    }

    /// Moves the window on by `shift_idx` samples: the samples from there on
    /// stay, as the start of the next chirp.
    pub fn advance(&mut self, shift_idx: usize)
        requires
            old(self).wf(),
            shift_idx <= old(self).held().len(),
        ensures
            final(self).wf(),
            final(self).chirp_len() == old(self).chirp_len(),
            final(self).held() == old(self).held().subrange(
                shift_idx as int,
                old(self).held().len() as int,
            ),
    {
        let mut kept: Vec<T> = Vec::new();
        let mut i: usize = shift_idx;
        while i < self.chirp_buffer.len()
            invariant
                shift_idx <= i <= self.chirp_buffer@.len(),
                self.chirp_buffer@ == old(self).chirp_buffer@,
                kept@ == self.chirp_buffer@.subrange(shift_idx as int, i as int),
            decreases self.chirp_buffer@.len() - i,
        {
            kept.push(self.chirp_buffer[i]);
            i += 1;
            assert(kept@ =~= self.chirp_buffer@.subrange(shift_idx as int, i as int));
        }
        self.chirp_buffer = kept;
    }
}

/// Feeding a stream in two parts yields the blocks, and leaves waiting the
/// samples, that feeding it in one part does: the cut does not show.
pub proof fn lemma_feed_in_two_parts<T>(size: int, waited: Seq<T>, first: Seq<T>, second: Seq<T>)
    requires
        size > 0,
    ensures
        blocks_of(waited + first + second, size) == blocks_of(waited + first, size) + blocks_of(
            rest_of(waited + first, size) + second,
            size,
        ),
        rest_of(waited + first + second, size) == rest_of(
            rest_of(waited + first, size) + second,
            size,
        ),
        rest_of(waited + first, size).len() < size,
{
    let total = waited + first + second;
    let head = waited + first;
    let hl = head.len() as int;
    let tl = total.len() as int;
    let early = hl / size;
    vstd::arithmetic::div_mod::lemma_fundamental_div_mod(hl, size);
    vstd::arithmetic::div_mod::lemma_div_pos_is_pos(hl, size);
    assert(early * size == size * early) by (nonlinear_arith);
    let rest = rest_of(head, size);
    let tail = rest + second;
    let sl = tail.len() as int;
    let later = sl / size;
    vstd::arithmetic::div_mod::lemma_fundamental_div_mod(sl, size);
    vstd::arithmetic::div_mod::lemma_div_pos_is_pos(sl, size);
    assert(later * size == size * later) by (nonlinear_arith);
    assert((early + later) * size == early * size + later * size) by (nonlinear_arith);
    vstd::arithmetic::div_mod::lemma_fundamental_div_mod_converse(
        tl,
        size,
        early + later,
        sl % size,
    );
    let joined = blocks_of(head, size) + blocks_of(tail, size);
    assert forall|k: int| 0 <= k < early + later implies blocks_of(total, size)[k] == joined[k] by {
        assert((k + 1) * size == k * size + size) by (nonlinear_arith);
        assert(0 <= k * size) by (nonlinear_arith)
            requires
                0 <= k,
                size > 0,
        ;
        if k < early {
            assert((k + 1) * size <= early * size) by (nonlinear_arith)
                requires
                    k + 1 <= early,
                    size > 0,
            ;
            assert(total.subrange(k * size, k * size + size) =~= head.subrange(
                k * size,
                k * size + size,
            ));
        } else {
            assert((k + 1) * size <= (early + later) * size) by (nonlinear_arith)
                requires
                    k + 1 <= early + later,
                    size > 0,
            ;
            assert((k - early) * size == k * size - early * size) by (nonlinear_arith);
            assert(early * size <= k * size) by (nonlinear_arith)
                requires
                    early <= k,
                    size > 0,
            ;
            assert(total.subrange(k * size, k * size + size) =~= tail.subrange(
                (k - early) * size,
                (k - early) * size + size,
            ));
        }
    }
    assert(blocks_of(total, size) =~= joined);
    assert(rest_of(total, size) =~= rest_of(tail, size));
}

} // verus!
