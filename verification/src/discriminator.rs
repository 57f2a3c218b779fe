//! The look-back of the phase discriminator.
//!
//! Each sample of a block is combined with the sample a fixed number of
//! places before it in the stream. For the first samples of a block that one
//! lies in the block before: its tail is carried over. The combining itself,
//! a product with a conjugate, is the caller's; here is which sample meets
//! which, and what is carried.

use vstd::prelude::*;

verus! {

/// The sample that meets sample `i` of `block`: the one `carry.len()` places
/// before it in the stream, of which `carry` is the part before the block.
pub open spec fn partner<T>(carry: Seq<T>, block: Seq<T>, i: int) -> T {
    (carry + block)[i]
}

/// What is carried over from `block`: the last `carry.len()` samples of the
/// stream up to its end.
pub open spec fn carried<T>(carry: Seq<T>, block: Seq<T>) -> Seq<T> {
    (carry + block).subrange(block.len() as int, (block.len() + carry.len()) as int)
}

/// Whether `out` holds, for each sample of `block`, a result of `combine` on
/// its partner and the sample.
pub open spec fn is_discriminated<T, F: Fn(T, T) -> T>(
    combine: F,
    carry: Seq<T>,
    block: Seq<T>,
    out: Seq<T>,
) -> bool {
    &&& out.len() == block.len()
    &&& forall|i: int|
        0 <= i < block.len() ==> call_ensures(
            combine,
            (partner(carry, block, i), block[i]),
            #[trigger] out[i],
        )
}

/// Whether `combine` has, on any two samples, one result only.
pub open spec fn single_valued<T, F: Fn(T, T) -> T>(combine: F) -> bool {
    forall|a: T, b: T, r: T, s: T|
        call_ensures(combine, (a, b), r) && call_ensures(combine, (a, b), s) ==> r == s
}

/// The block is shorter than the look-back.
#[derive(Copy, Clone, Debug, PartialEq, Eq, Structural)]
pub struct BufferTooSmall;

/// Replaces each sample of `x` by `combine` of its partner and itself, and
/// `prev` by what is carried over to the next block. A block shorter than
/// the look-back is refused, and nothing changes.
pub fn polar_discriminate<T: Copy, F: Fn(T, T) -> T>(
    x: &mut Vec<T>,
    prev: &mut Vec<T>,
    combine: F,
) -> (done: Result<(), BufferTooSmall>)
    requires
        forall|a: T, b: T| call_requires(combine, (a, b)),
    ensures
        old(x)@.len() >= old(prev)@.len() ==> done.is_ok() && is_discriminated(
            combine,
            old(prev)@,
            old(x)@,
            final(x)@,
        ) && final(prev)@ == carried(old(prev)@, old(x)@),
        old(x)@.len() < old(prev)@.len() ==> done.is_err() && final(x)@ == old(x)@ && final(prev)@
            == old(prev)@,
{
    let offset: usize = prev.len();
    let len: usize = x.len();
    if len < offset {
        return Err(BufferTooSmall);
    }
    let ghost block = x@;
    let ghost carry = prev@;
    let mut staging: Vec<T> = Vec::new();
    let mut k: usize = 0;
    while k < offset
        invariant
            k <= offset <= len,
            len == x@.len(),
            x@ == block,
            staging@.len() == k,
            forall|j: int| 0 <= j < k ==> staging@[j] == block[len - offset + j],
        decreases offset - k,
    {
        staging.push(x[len - offset + k]);
        k += 1;
    }
    let mut i: usize = len;
    while i > offset
        invariant
            offset <= i <= len,
            len == x@.len(),
            len == block.len(),
            offset == carry.len(),
            forall|a: T, b: T| call_requires(combine, (a, b)),
            forall|j: int| 0 <= j < i ==> x@[j] == block[j],
            forall|j: int|
                i <= j < len ==> call_ensures(
                    combine,
                    (partner(carry, block, j), block[j]),
                    #[trigger] x@[j],
                ),
        decreases i,
    {
        i -= 1;
        let value: T = combine(x[i - offset], x[i]);
        x[i] = value;
    }
    let mut i: usize = 0;
    while i < offset
        invariant
            i <= offset <= len,
            len == x@.len(),
            len == block.len(),
            offset == carry.len(),
            prev@ == carry,
            forall|a: T, b: T| call_requires(combine, (a, b)),
            forall|j: int| i <= j < offset ==> x@[j] == block[j],
            forall|j: int|
                0 <= j < i || offset <= j < len ==> call_ensures(
                    combine,
                    (partner(carry, block, j), block[j]),
                    #[trigger] x@[j],
                ),
        decreases offset - i,
    {
        let value: T = combine(prev[i], x[i]);
        x[i] = value;
        i += 1;
    }
    *prev = staging;
    assert(prev@ =~= carried(carry, block));
    Ok(())
}

/// Discriminating a stream block by block gives what discriminating it in
/// one piece gives, wherever the blocks are cut, as long as `combine` has one
/// result only and no block is shorter than the look-back.
pub proof fn lemma_block_boundary_is_invisible<T, F: Fn(T, T) -> T>(
    combine: F,
    carry: Seq<T>,
    first: Seq<T>,
    second: Seq<T>,
    first_out: Seq<T>,
    second_out: Seq<T>,
    whole_out: Seq<T>,
)
    requires
        single_valued(combine),
        first.len() >= carry.len(),
        second.len() >= carry.len(),
        is_discriminated(combine, carry, first, first_out),
        is_discriminated(combine, carried(carry, first), second, second_out),
        is_discriminated(combine, carry, first + second, whole_out),
    ensures
        whole_out == first_out + second_out,
        carried(carried(carry, first), second) == carried(carry, first + second),
{
    let mid = carried(carry, first);
    let split = first_out + second_out;
    assert forall|i: int| 0 <= i < whole_out.len() implies whole_out[i] == split[i] by {
        if i < first.len() {
            assert(partner(carry, first + second, i) == partner(carry, first, i));
            assert((first + second)[i] == first[i]);
            assert(call_ensures(combine, (partner(carry, first, i), first[i]), first_out[i]));
            assert(call_ensures(combine, (partner(carry, first, i), first[i]), whole_out[i]));
        } else {
            let j = i - first.len();
            assert(partner(mid, second, j) == partner(carry, first + second, i));
            assert((first + second)[i] == second[j]);
            assert(call_ensures(combine, (partner(mid, second, j), second[j]), second_out[j]));
            assert(call_ensures(combine, (partner(mid, second, j), second[j]), whole_out[i]));
        }
    }
    assert(whole_out =~= split);
    assert(carried(mid, second) =~= carried(carry, first + second));
}

/// Discriminating the same block with the same carry twice gives the same
/// samples, as long as `combine` has one result only.
pub proof fn lemma_discrimination_is_determined<T, F: Fn(T, T) -> T>(
    combine: F,
    carry: Seq<T>,
    block: Seq<T>,
    once: Seq<T>,
    again: Seq<T>,
)
    requires
        single_valued(combine),
        is_discriminated(combine, carry, block, once),
        is_discriminated(combine, carry, block, again),
    ensures
        once == again,
{
    assert forall|i: int| 0 <= i < once.len() implies once[i] == again[i] by {
        assert(call_ensures(combine, (partner(carry, block, i), block[i]), once[i]));
        assert(call_ensures(combine, (partner(carry, block, i), block[i]), again[i]));
    }
    assert(once =~= again);
}

} // verus!
