//! Single bits of a byte.

use vstd::prelude::*;

verus! {

/// Whether bit `bit` of `x` is set.
pub open spec fn bit_set(x: u8, bit: u8) -> bool {
    (x >> bit) & 1 == 1
}

/// `flag` if `on`, else nothing.
pub open spec fn bit_if(on: bool, flag: u8) -> u8 {
    if on {
        flag
    } else {
        0
    }
}

/// The byte whose bit `j` is set exactly where `bits(j)` holds.
pub open spec fn byte_of(bits: spec_fn(u8) -> bool) -> u8 {
    bit_if(bits(0), 0x01) | bit_if(bits(1), 0x02) | bit_if(bits(2), 0x04) | bit_if(bits(3), 0x08)
        | bit_if(bits(4), 0x10) | bit_if(bits(5), 0x20) | bit_if(bits(6), 0x40) | bit_if(
        bits(7),
        0x80,
    )
}

pub fn is_bit_set(x: u8, bit: usize) -> (set: bool)
    requires
        bit < 8,
    ensures
        set == bit_set(x, bit as u8),
{
    let b: u8 = bit as u8;
    assert(b < 8 ==> ((x & (1u8 << b)) != 0) == ((x >> b) & 1 == 1)) by (bit_vector);
    (x & (1u8 << bit)) != 0
}

/// `x` with bit `bit` set.
pub fn with_bit(x: u8, bit: usize) -> (r: u8)
    requires
        bit < 8,
    ensures
        forall|j: u8| j < 8 ==> #[trigger] bit_set(r, j) == (bit_set(x, j) || j == bit),
{
    let b: u8 = bit as u8;
    assert forall|j: u8| j < 8 implies #[trigger] bit_set(x | (1u8 << b), j) == (bit_set(x, j) || j
        == b) by {
        assert(j < 8 && b < 8 ==> (((x | (1u8 << b)) >> j) & 1 == 1) == (((x >> j) & 1 == 1) || j
            == b)) by (bit_vector);
    }
    x | (1u8 << bit)
}

/// No bit of zero is set.
pub proof fn lemma_zero_has_no_bit()
    ensures
        forall|j: u8| j < 8 ==> !#[trigger] bit_set(0u8, j),
{
    assert forall|j: u8| j < 8 implies !#[trigger] bit_set(0u8, j) by {
        assert(j < 8 ==> !((0u8 >> j) & 1 == 1)) by (bit_vector);
    }
}

/// Two bytes with the same bits are the same byte.
pub proof fn lemma_same_bits_same_byte(a: u8, b: u8)
    requires
        forall|j: u8| j < 8 ==> #[trigger] bit_set(a, j) == bit_set(b, j),
    ensures
        a == b,
{
    assert(bit_set(a, 0) == bit_set(b, 0));
    assert(bit_set(a, 1) == bit_set(b, 1));
    assert(bit_set(a, 2) == bit_set(b, 2));
    assert(bit_set(a, 3) == bit_set(b, 3));
    assert(bit_set(a, 4) == bit_set(b, 4));
    assert(bit_set(a, 5) == bit_set(b, 5));
    assert(bit_set(a, 6) == bit_set(b, 6));
    assert(bit_set(a, 7) == bit_set(b, 7));
    assert(a == b) by (bit_vector)
        requires
            ((a >> 0u8) & 1 == 1) == ((b >> 0u8) & 1 == 1),
            ((a >> 1u8) & 1 == 1) == ((b >> 1u8) & 1 == 1),
            ((a >> 2u8) & 1 == 1) == ((b >> 2u8) & 1 == 1),
            ((a >> 3u8) & 1 == 1) == ((b >> 3u8) & 1 == 1),
            ((a >> 4u8) & 1 == 1) == ((b >> 4u8) & 1 == 1),
            ((a >> 5u8) & 1 == 1) == ((b >> 5u8) & 1 == 1),
            ((a >> 6u8) & 1 == 1) == ((b >> 6u8) & 1 == 1),
            ((a >> 7u8) & 1 == 1) == ((b >> 7u8) & 1 == 1),
    ;
}

/// The bits of `byte_of(bits)` are `bits`.
pub proof fn lemma_byte_of(bits: spec_fn(u8) -> bool)
    ensures
        forall|j: u8| j < 8 ==> #[trigger] bit_set(byte_of(bits), j) == bits(j),
{
    let x0 = bit_if(bits(0), 0x01);
    let x1 = bit_if(bits(1), 0x02);
    let x2 = bit_if(bits(2), 0x04);
    let x3 = bit_if(bits(3), 0x08);
    let x4 = bit_if(bits(4), 0x10);
    let x5 = bit_if(bits(5), 0x20);
    let x6 = bit_if(bits(6), 0x40);
    let x7 = bit_if(bits(7), 0x80);
    let x = x0 | x1 | x2 | x3 | x4 | x5 | x6 | x7;
    assert((((x >> 0u8) & 1 == 1) == (x0 != 0)) && (((x >> 1u8) & 1 == 1) == (x1 != 0)) && (((x
        >> 2u8) & 1 == 1) == (x2 != 0)) && (((x >> 3u8) & 1 == 1) == (x3 != 0)) && (((x >> 4u8) & 1
        == 1) == (x4 != 0)) && (((x >> 5u8) & 1 == 1) == (x5 != 0)) && (((x >> 6u8) & 1 == 1) == (x6
        != 0)) && (((x >> 7u8) & 1 == 1) == (x7 != 0))) by (bit_vector)
        requires
            x == x0 | x1 | x2 | x3 | x4 | x5 | x6 | x7,
            x0 == 0 || x0 == 0x01,
            x1 == 0 || x1 == 0x02,
            x2 == 0 || x2 == 0x04,
            x3 == 0 || x3 == 0x08,
            x4 == 0 || x4 == 0x10,
            x5 == 0 || x5 == 0x20,
            x6 == 0 || x6 == 0x40,
            x7 == 0 || x7 == 0x80,
    ;
    assert forall|j: u8| j < 8 implies #[trigger] bit_set(byte_of(bits), j) == bits(j) by {
        assert(j == 0 || j == 1 || j == 2 || j == 3 || j == 4 || j == 5 || j == 6 || j == 7);
    }
}

} // verus!
