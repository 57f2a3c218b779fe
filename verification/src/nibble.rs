//! Splitting bytes into nibbles, low nibble first, and joining them again.

use itertools::Itertools;
use vstd::prelude::*;

verus! {

/// The nibbles of `bytes`: for each byte its low nibble, then its high one.
pub open spec fn nibbles_of(bytes: Seq<u8>) -> Seq<u8> {
    Seq::new(
        2 * bytes.len(),
        |i: int|
            if i % 2 == 0 {
                bytes[i / 2] % 16
            } else {
                bytes[i / 2] / 16
            },
    )
}

/// The bytes made of each two neighbouring `nibbles`, the low one first. A
/// last nibble without a partner is left out.
pub open spec fn bytes_of(nibbles: Seq<u8>) -> Seq<u8> {
    Seq::new(nibbles.len() / 2, |i: int| (nibbles[2 * i] + nibbles[2 * i + 1] * 16) as u8)
}

/// Whether every nibble that has a partner is below sixteen.
pub open spec fn paired_nibbles_in_range(nibbles: Seq<u8>) -> bool {
    forall|i: int| 0 <= i < 2 * (nibbles.len() / 2) ==> #[trigger] nibbles[i] < 16
}

/// `Itertools::tuples` on the bytes of a slice, taken two at a time: the
/// items come out in order as non-overlapping pairs, and an item left over
/// at the end is dropped.
#[verifier::external_body]
pub(crate) fn pairs(x: &[u8]) -> (out: Vec<(u8, u8)>)
    ensures
        out@.len() == x@.len() / 2,
        forall|i: int| 0 <= i < out@.len() ==> #[trigger] out@[i] == (x@[2 * i], x@[2 * i + 1]),
{
    x.iter().tuples().map(|(low, high)| (*low, *high)).collect()
}

pub fn nibble(x: &[u8]) -> (out: Vec<u8>)
    ensures
        out@ == nibbles_of(x@),
{
    let mut out: Vec<u8> = Vec::new();
    let mut i: usize = 0;
    while i < x.len()
        invariant
            i <= x@.len(),
            out@.len() == 2 * i,
            forall|k: int| 0 <= k < out@.len() ==> #[trigger] out@[k] == nibbles_of(x@)[k],
        decreases x@.len() - i,
    {
        let b: u8 = x[i];
        out.push(b % 16);
        out.push(b / 16);
        i += 1;
    }
    assert(out@ =~= nibbles_of(x@));
    out
}

pub fn denibble(x: &[u8]) -> (out: Vec<u8>)
    requires
        paired_nibbles_in_range(x@),
    ensures
        out@ == bytes_of(x@),
{
    let two: Vec<(u8, u8)> = pairs(x);
    let mut out: Vec<u8> = Vec::new();
    let mut i: usize = 0;
    while i < two.len()
        invariant
            i <= two@.len(),
            two@.len() == x@.len() / 2,
            paired_nibbles_in_range(x@),
            forall|k: int| 0 <= k < two@.len() ==> #[trigger] two@[k] == (x@[2 * k], x@[2 * k + 1]),
            out@.len() == i,
            forall|k: int| 0 <= k < out@.len() ==> #[trigger] out@[k] == bytes_of(x@)[k],
        decreases two@.len() - i,
    {
        let (low, high) = two[i];
        assert(x@[2 * i] < 16 && x@[2 * i + 1] < 16);
        out.push(low + high * 16);
        i += 1;
    }
    assert(out@ =~= bytes_of(x@));
    out
}

/// Joining the nibbles of any bytes gives the bytes back.
pub proof fn lemma_denibble_inverts_nibble(bytes: Seq<u8>)
    ensures
        paired_nibbles_in_range(nibbles_of(bytes)),
        bytes_of(nibbles_of(bytes)) == bytes,
{
    let n = nibbles_of(bytes);
    assert forall|i: int| 0 <= i < bytes.len() implies #[trigger] bytes_of(n)[i] == bytes[i] by {
        assert((2 * i) % 2 == 0 && (2 * i) / 2 == i && (2 * i + 1) % 2 == 1 && (2 * i + 1) / 2
            == i);
    }
    assert(bytes_of(n) =~= bytes);
}

/// Splitting the bytes joined from an even number of nibbles, each below
/// sixteen, gives the nibbles back.
pub proof fn lemma_nibble_inverts_denibble(nibbles: Seq<u8>)
    requires
        nibbles.len() % 2 == 0,
        paired_nibbles_in_range(nibbles),
    ensures
        nibbles_of(bytes_of(nibbles)) == nibbles,
{
    let b = bytes_of(nibbles);
    assert forall|i: int| 0 <= i < nibbles.len() implies #[trigger] nibbles_of(b)[i]
        == nibbles[i] by {
        let k = i / 2;
        assert(nibbles[2 * k] < 16 && nibbles[2 * k + 1] < 16);
    }
    assert(nibbles_of(b) =~= nibbles);
}

} // verus!
