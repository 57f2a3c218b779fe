//! Gray coding of chirp symbol values.

use vstd::prelude::*;

verus! {

/// The reflected binary code of `symbol`.
pub open spec fn gray_of(symbol: u8) -> u8 {
    (symbol >> 1) ^ symbol
}

/// The value whose reflected binary code is `symbol`.
pub open spec fn gray_inverse(symbol: u8) -> u8 {
    let a = symbol ^ (symbol >> 4);
    let b = a ^ (a >> 2);
    b ^ (b >> 1)
}

pub fn to_gray(symbol: u8) -> (code: u8)
    ensures
        code == gray_of(symbol),
{
    (symbol >> 1) ^ symbol
}

pub fn from_gray(symbol: u8) -> (value: u8)
    ensures
        value == gray_inverse(symbol),
{
    let x: u8 = symbol ^ (symbol >> 4);
    let x: u8 = x ^ (x >> 2);
    let x: u8 = x ^ (x >> 1);
    x
}

/// Decoding a Gray code gives back the value that was encoded.
pub proof fn lemma_gray_round_trip(symbol: u8)
    ensures
        gray_inverse(gray_of(symbol)) == symbol,
        gray_of(gray_inverse(symbol)) == symbol,
{
    assert(gray_inverse(gray_of(symbol)) == symbol) by (bit_vector);
    assert(gray_of(gray_inverse(symbol)) == symbol) by (bit_vector);
}

/// Two neighbouring values have codes that differ in exactly one bit.
pub proof fn lemma_gray_neighbours_differ_in_one_bit(symbol: u8)
    requires
        symbol < 255,
    ensures
        ({
            let d = gray_of(symbol) ^ gray_of((symbol + 1) as u8);
            d != 0 && d & ((d - 1) as u8) == 0
        }),
{
    assert(symbol < 255 ==> ({
        let d = gray_of(symbol) ^ gray_of((symbol + 1) as u8);
        d != 0 && d & ((d - 1) as u8) == 0
    })) by (bit_vector);
}

} // verus!
