//! Hamming codes that protect one nibble with zero to four check bits.
//!
//! A codeword keeps the nibble in its low four bits; the check bits follow
//! from bit four upwards. Decoding picks the nearest codeword.

use crate::bits::bit_if;
use vstd::prelude::*;

verus! {

/// The number of one bits in `x`.
pub open spec fn ones(x: u8) -> nat {
    ((x & 1) + ((x >> 1) & 1) + ((x >> 2) & 1) + ((x >> 3) & 1) + ((x >> 4) & 1) + ((x >> 5) & 1)
        + ((x >> 6) & 1) + ((x >> 7) & 1)) as nat
}

/// Whether an odd number of the bits of `x` selected by `mask` are set.
pub open spec fn odd_parity(x: u8, mask: u8) -> bool {
    ones(x & mask) % 2 == 1
}

/// The number of bit positions in which `a` and `b` differ.
pub open spec fn distance(a: u8, b: u8) -> nat {
    ones(a ^ b)
}

/// The codeword with one check bit: the parity of the nibble.
pub open spec fn codeword5(nibble: u8) -> u8 {
    nibble | bit_if(odd_parity(nibble, 0x0f), 0x10)
}

/// The codeword with two check bits.
pub open spec fn codeword6(nibble: u8) -> u8 {
    nibble | bit_if(odd_parity(nibble, 0x0e), 0x20) | bit_if(odd_parity(nibble, 0x07), 0x10)
}

/// The codeword with three check bits.
pub open spec fn codeword7(nibble: u8) -> u8 {
    nibble | bit_if(odd_parity(nibble, 0x0b), 0x40) | bit_if(odd_parity(nibble, 0x0e), 0x20)
        | bit_if(odd_parity(nibble, 0x07), 0x10)
}

/// The codeword with four check bits: three that cover parts of the nibble,
/// and one over everything above it and the nibble together.
pub open spec fn codeword8(nibble: u8) -> u8 {
    let upper = nibble | bit_if(odd_parity(nibble, 0x0d), 0x80) | bit_if(
        odd_parity(nibble, 0x0b),
        0x40,
    ) | bit_if(odd_parity(nibble, 0x07), 0x20);
    upper | bit_if(odd_parity(upper, 0xff), 0x10)
}

/// The codeword of `bits` bits in all for `nibble`.
pub open spec fn codeword(bits: usize, nibble: u8) -> u8 {
    if bits == 4 {
        nibble
    } else if bits == 5 {
        codeword5(nibble)
    } else if bits == 6 {
        codeword6(nibble)
    } else if bits == 7 {
        codeword7(nibble)
    } else {
        codeword8(nibble)
    }
}

/// Whether `best` is the nibble that decoding `symbol` yields: no nibble's
/// codeword is nearer to `symbol`, and every larger nibble's is farther.
pub open spec fn is_nearest(bits: usize, symbol: u8, best: u8) -> bool {
    &&& best < 16
    &&& forall|k: u8|
        k < 16 ==> distance(codeword(bits, best), symbol) <= #[trigger] distance(
            codeword(bits, k),
            symbol,
        )
    &&& forall|k: u8|
        best < k < 16 ==> distance(codeword(bits, best), symbol) < #[trigger] distance(
            codeword(bits, k),
            symbol,
        )
}

/// The nibble that decoding `symbol` yields.
pub open spec fn nearest_nibble(bits: usize, symbol: u8) -> u8 {
    choose|best: u8| is_nearest(bits, symbol, best)
}

/// At most one nibble is the nearest: `is_nearest` settles ties.
pub proof fn lemma_nearest_is_unique(bits: usize, symbol: u8, a: u8, b: u8)
    requires
        is_nearest(bits, symbol, a),
        is_nearest(bits, symbol, b),
    ensures
        a == b,
        a == nearest_nibble(bits, symbol),
{
    let da = distance(codeword(bits, a), symbol);
    let db = distance(codeword(bits, b), symbol);
    assert(da <= db && db <= da);
    let c = nearest_nibble(bits, symbol);
    let dc = distance(codeword(bits, c), symbol);
    assert(da <= dc && dc <= da);
}

/// `u8::count_ones` of std: the number of ones in the binary representation.
#[verifier::external_body]
fn count_ones(x: u8) -> (n: u32)
    ensures
        n == ones(x),
{
    x.count_ones()
}

/// `x` with `flag` set where an odd number of its bits under `mask` are set.
fn with_check(x: u8, mask: u8, flag: u8) -> (r: u8)
    ensures
        r == x | bit_if(odd_parity(x, mask), flag),
{
    let n: u32 = count_ones(x & mask);
    assert(n & 1 == n % 2) by (bit_vector);
    assert(x | 0 == x) by (bit_vector);
    if n & 1 == 1 {
        x | flag
    } else {
        x
    }
}

pub fn hamming48_encode(nibble: u8) -> (code: u8)
    ensures
        code == codeword8(nibble),
{
    let a: u8 = with_check(nibble, 0x0d, 0x80);
    let ghost ha = bit_if(odd_parity(nibble, 0x0d), 0x80);
    assert(a & 0x0b == nibble & 0x0b) by (bit_vector)
        requires
            a == nibble | ha,
            ha == 0x80 || ha == 0,
    ;
    let b: u8 = with_check(a, 0x0b, 0x40);
    let ghost hb = bit_if(odd_parity(nibble, 0x0b), 0x40);
    assert(b & 0x07 == nibble & 0x07) by (bit_vector)
        requires
            b == nibble | ha | hb,
            ha == 0x80 || ha == 0,
            hb == 0x40 || hb == 0,
    ;
    let c: u8 = with_check(b, 0x07, 0x20);
    with_check(c, 0xff, 0x10)
}

pub fn hamming45_encode(nibble: u8) -> (code: u8)
    ensures
        code == codeword5(nibble),
{
    with_check(nibble, 0x0f, 0x10)
}

pub fn hamming46_encode(nibble: u8) -> (code: u8)
    ensures
        code == codeword6(nibble),
{
    let a: u8 = with_check(nibble, 0x0e, 0x20);
    let ghost ha = bit_if(odd_parity(nibble, 0x0e), 0x20);
    assert(a & 0x07 == nibble & 0x07) by (bit_vector)
        requires
            a == nibble | ha,
            ha == 0x20 || ha == 0,
    ;
    with_check(a, 0x07, 0x10)
}

pub fn hamming47_encode(nibble: u8) -> (code: u8)
    ensures
        code == codeword7(nibble),
{
    let a: u8 = with_check(nibble, 0x0b, 0x40);
    let ghost ha = bit_if(odd_parity(nibble, 0x0b), 0x40);
    assert(a & 0x0e == nibble & 0x0e) by (bit_vector)
        requires
            a == nibble | ha,
            ha == 0x40 || ha == 0,
    ;
    let b: u8 = with_check(a, 0x0e, 0x20);
    let ghost hb = bit_if(odd_parity(nibble, 0x0e), 0x20);
    assert(b & 0x07 == nibble & 0x07) by (bit_vector)
        requires
            b == nibble | ha | hb,
            ha == 0x40 || ha == 0,
            hb == 0x20 || hb == 0,
    ;
    with_check(b, 0x07, 0x10)
}

pub fn hamming_distance(a: u8, b: u8) -> (d: u32)
    ensures
        d == distance(a, b),
{
    count_ones(a ^ b)
}

pub fn hamming4_n_encode<const N: usize>(nibble: u8) -> (code: u8)
    requires
        4 <= N <= 8,
    ensures
        code == codeword(N, nibble),
{
    if N == 4 {
        nibble
    } else if N == 5 {
        hamming45_encode(nibble)
    } else if N == 6 {
        hamming46_encode(nibble)
    } else if N == 7 {
        hamming47_encode(nibble)
    } else {
        hamming48_encode(nibble)
    }
}

pub fn hamming4_n_decode<const N: usize>(symbol: u8) -> (nibble: u8)
    requires
        4 <= N <= 8,
    ensures
        is_nearest(N, symbol, nibble),
        nibble == nearest_nibble(N, symbol),
{
    let mut best: u8 = 0;
    let mut best_distance: u32 = hamming_distance(hamming4_n_encode::<N>(0), symbol);
    let mut candidate: u8 = 1;
    while candidate < 16
        invariant
            4 <= N <= 8,
            1 <= candidate <= 16,
            best < candidate,
            best_distance == distance(codeword(N, best), symbol),
            forall|k: u8|
                k < candidate ==> best_distance <= #[trigger] distance(codeword(N, k), symbol),
            forall|k: u8|
                best < k < candidate ==> best_distance < #[trigger] distance(
                    codeword(N, k),
                    symbol,
                ),
        decreases 16 - candidate,
    {
        let d: u32 = hamming_distance(hamming4_n_encode::<N>(candidate), symbol);
        if !(best_distance < d) {
            best = candidate;
            best_distance = d;
        }
        candidate += 1;
    }
    proof {
        lemma_nearest_is_unique(N, symbol, best, best);
    }
    best
}

/// Decoding an undamaged codeword gives back the nibble it was made from,
/// whatever the number of check bits.
pub proof fn lemma_decode_inverts_encode(bits: usize, nibble: u8, decoded: u8)
    requires
        4 <= bits <= 8,
        nibble < 16,
        is_nearest(bits, codeword(bits, nibble), decoded),
    ensures
        decoded == nibble,
{
    let sent = codeword(bits, nibble);
    let found = codeword(bits, decoded);
    assert(distance(found, sent) <= distance(codeword(bits, nibble), sent));
    assert(ones(sent ^ sent) == 0) by (bit_vector);
    assert(ones(found ^ sent) == 0 ==> found == sent) by (bit_vector);
    lemma_codeword_keeps_nibble(nibble);
    lemma_codeword_keeps_nibble(decoded);
}

/// With three or four check bits, decoding a codeword in which one bit was
/// flipped still gives back the nibble it was made from.
pub proof fn lemma_decode_corrects_one_flip(bits: usize, nibble: u8, flip: u8, decoded: u8)
    requires
        bits == 7 || bits == 8,
        nibble < 16,
        flip < bits,
        is_nearest(bits, codeword(bits, nibble) ^ (1u8 << flip), decoded),
    ensures
        decoded == nibble,
{
    let received = codeword(bits, nibble) ^ (1u8 << flip);
    assert(distance(codeword(bits, decoded), received) <= distance(
        codeword(bits, nibble),
        received,
    ));
    if bits == 7 {
        assert(nibble < 16 && flip < 7 ==> ones(codeword7(nibble) ^ (codeword7(nibble) ^ (1u8
            << flip))) == 1) by (bit_vector);
        assert(nibble < 16 && decoded < 16 && flip < 7 && decoded != nibble ==> ones(
            codeword7(decoded) ^ (codeword7(nibble) ^ (1u8 << flip)),
        ) >= 2) by (bit_vector);
    } else {
        assert(nibble < 16 && flip < 8 ==> ones(codeword8(nibble) ^ (codeword8(nibble) ^ (1u8
            << flip))) == 1) by (bit_vector);
        assert(nibble < 16 && decoded < 16 && flip < 8 && decoded != nibble ==> ones(
            codeword8(decoded) ^ (codeword8(nibble) ^ (1u8 << flip)),
        ) >= 2) by (bit_vector);
    }
}

/// The low four bits of a codeword are the nibble.
pub proof fn lemma_codeword_keeps_nibble(nibble: u8)
    requires
        nibble < 16,
    ensures
        forall|bits: usize| 4 <= bits <= 8 ==> #[trigger] codeword(bits, nibble) & 0x0f == nibble,
{
    assert(nibble < 16 ==> nibble & 0x0f == nibble) by (bit_vector);
    assert(nibble < 16 ==> codeword5(nibble) & 0x0f == nibble) by (bit_vector);
    assert(nibble < 16 ==> codeword6(nibble) & 0x0f == nibble) by (bit_vector);
    assert(nibble < 16 ==> codeword7(nibble) & 0x0f == nibble) by (bit_vector);
    assert(nibble < 16 ==> codeword8(nibble) & 0x0f == nibble) by (bit_vector);
}

} // verus!
