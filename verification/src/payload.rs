//! From the symbols of a frame to its payload bytes.
//!
//! Each symbol value is lowered by one and Gray-coded, the code of an
//! all-zero payload is taken off by exclusive or, the header is skipped, the
//! rest is unwoven into codewords of seven bits, each codeword is corrected
//! to its nibble, and the nibbles are joined into bytes.

use crate::gray::{gray_of, to_gray};
use crate::hamming::{hamming4_n_decode, nearest_nibble};
use crate::interleaving::{deinterleave, deinterleaved};
use crate::nibble::{bytes_of, denibble};
use crate::symbol::{values_of, Packet};
use vstd::prelude::*;
use vstd::slice::slice_subrange;

verus! {

/// The symbols of a frame.
pub const FRAME_SYMBOLS: usize = 74;

/// The symbols at the head of a frame that hold no payload.
pub const HEADER_SYMBOLS: usize = 8;

/// The nibbles after the header whose meaning is not known.
pub const LEADING_NIBBLES: usize = 7;

/// The symbol values of a frame with an all-zero payload, at seven bits per
/// codeword.
pub const ZERO_CR7: [u8; 74] = [
    93, 205, 229, 1, 165, 17, 57, 25, 100, 49, 28, 11, 199, 254, 178, 195, 133, 119, 212, 223, 78,
    182, 117, 23, 212, 26, 178, 131, 94, 42, 173, 39, 77, 130, 227, 76, 100, 57, 144, 162, 227, 59,
    101, 8, 241, 98, 253, 7, 4, 8, 4, 8, 16, 33, 196, 119, 53, 53, 105, 48, 32, 70, 133, 112, 89,
    49, 225, 95, 69, 137, 213, 206, 173, 44,
];

/// The reference frame as a sequence.
pub open spec fn zero_frame() -> Seq<u8> {
    ZERO_CR7@
}

/// `a` with each value lowered by one, wrapping at zero, and Gray-coded.
pub open spec fn degrayed(a: Seq<u8>) -> Seq<u8> {
    Seq::new(a.len(), |i: int| gray_of(((a[i] + 255) % 256) as u8))
}

/// The exclusive or of `a` and `b`, item by item.
pub open spec fn masked(a: Seq<u8>, b: Seq<u8>) -> Seq<u8> {
    Seq::new(a.len(), |i: int| a[i] ^ b[i])
}

/// The low eight bits of each of `values`.
pub open spec fn low_bytes(values: Seq<usize>) -> Seq<u8> {
    Seq::new(values.len(), |i: int| (values[i] % 256) as u8)
}

/// The nibble of each seven-bit codeword in `words`.
pub open spec fn corrected(words: Seq<u8>) -> Seq<u8> {
    Seq::new(words.len(), |i: int| nearest_nibble(7, words[i]))
}

/// The payload bytes of a frame with the symbol values `values`.
pub open spec fn payload_of(values: Seq<usize>) -> Seq<u8> {
    let clear = masked(degrayed(low_bytes(values)), degrayed(zero_frame()));
    let words = deinterleaved(7, clear.subrange(HEADER_SYMBOLS as int, clear.len() as int));
    let nibbles = corrected(words);
    bytes_of(nibbles.subrange(LEADING_NIBBLES as int, nibbles.len() as int))
}

pub fn degray(a: &[u8]) -> (out: Vec<u8>)
    ensures
        out@ == degrayed(a@),
{
    let mut out: Vec<u8> = Vec::new();
    let mut i: usize = 0;
    while i < a.len()
        invariant
            i <= a@.len(),
            out@.len() == i,
            forall|k: int| 0 <= k < i ==> out@[k] == degrayed(a@)[k],
        decreases a@.len() - i,
    {
        out.push(to_gray(a[i].wrapping_sub(1)));
        i += 1;
    }
    assert(out@ =~= degrayed(a@));
    out
}

pub fn apply_mask(a: &[u8], b: &[u8]) -> (out: Vec<u8>)
    requires
        a@.len() == b@.len(),
    ensures
        out@ == masked(a@, b@),
{
    let mut out: Vec<u8> = Vec::new();
    let mut i: usize = 0;
    while i < a.len()
        invariant
            i <= a@.len(),
            a@.len() == b@.len(),
            out@.len() == i,
            forall|k: int| 0 <= k < i ==> out@[k] == a@[k] ^ b@[k],
        decreases a@.len() - i,
    {
        out.push(a[i] ^ b[i]);
        i += 1;
    }
    assert(out@ =~= masked(a@, b@));
    out
}

/// The payload bytes of `packet`.
pub fn decode(packet: &Packet) -> (payload: Vec<u8>)
    requires
        packet.symbols@.len() == FRAME_SYMBOLS,
    ensures
        payload@ == payload_of(values_of(packet.symbols@)),
        payload@.len() == 32,
{
    let mask: Vec<u8> = degray(ZERO_CR7.as_slice());
    let mut raw: Vec<u8> = Vec::new();
    let mut i: usize = 0;
    while i < packet.symbols.len()
        invariant
            i <= packet.symbols@.len(),
            raw@.len() == i,
            forall|k: int|
                0 <= k < i ==> raw@[k] == low_bytes(values_of(packet.symbols@))[k],
        decreases packet.symbols@.len() - i,
    {
        raw.push((packet.symbols[i].value % 256) as u8);
        i += 1;
    }
    assert(raw@ =~= low_bytes(values_of(packet.symbols@)));
    let gray: Vec<u8> = degray(raw.as_slice());
    let clear: Vec<u8> = apply_mask(gray.as_slice(), mask.as_slice());
    let body: &[u8] = slice_subrange(clear.as_slice(), HEADER_SYMBOLS, clear.len());
    let words: Vec<u8> = deinterleave::<7>(body);
    let mut nibbles: Vec<u8> = Vec::new();
    let mut j: usize = 0;
    while j < words.len()
        invariant
            j <= words@.len(),
            nibbles@.len() == j,
            forall|k: int| 0 <= k < j ==> nibbles@[k] == corrected(words@)[k],
            forall|k: int| 0 <= k < j ==> nibbles@[k] < 16,
        decreases words@.len() - j,
    {
        nibbles.push(hamming4_n_decode::<7>(words[j]));
        j += 1;
    }
    assert(nibbles@ =~= corrected(words@));
    let tail: &[u8] = slice_subrange(nibbles.as_slice(), LEADING_NIBBLES, nibbles.len());
    denibble(tail)
}

} // verus!
