//! The diagonal bit interleaver between codewords and chirp symbols.
//!
//! A block is eight codewords of `CR` bits each on one side and `CR` bytes of
//! eight bits each on the other. Bit `b` of woven byte `o` comes from the
//! codeword `(b + o) mod 8`, bit `o`; with eight bits per codeword the bits
//! four and five trade places.

use crate::bits::{
    bit_set, byte_of, is_bit_set, lemma_byte_of, lemma_same_bits_same_byte,
    lemma_zero_has_no_bit, with_bit,
};
use vstd::prelude::*;

verus! {

const INTERLEAVE_TABLE_8: [(usize, usize); 64] = [
    (0, 0), (1, 0), (2, 0), (3, 0), (4, 0), (5, 0), (6, 0), (7, 0),
    (1, 1), (2, 1), (3, 1), (4, 1), (5, 1), (6, 1), (7, 1), (0, 1),
    (2, 2), (3, 2), (4, 2), (5, 2), (6, 2), (7, 2), (0, 2), (1, 2),
    (3, 3), (4, 3), (5, 3), (6, 3), (7, 3), (0, 3), (1, 3), (2, 3),
    (4, 5), (5, 5), (6, 5), (7, 5), (0, 5), (1, 5), (2, 5), (3, 5),
    (5, 4), (6, 4), (7, 4), (0, 4), (1, 4), (2, 4), (3, 4), (4, 4),
    (6, 6), (7, 6), (0, 6), (1, 6), (2, 6), (3, 6), (4, 6), (5, 6),
    (7, 7), (0, 7), (1, 7), (2, 7), (3, 7), (4, 7), (5, 7), (6, 7),
];

const INTERLEAVE_TABLE_5: [(usize, usize); 40] = [
    (0, 0), (1, 0), (2, 0), (3, 0), (4, 0), (5, 0), (6, 0), (7, 0),
    (1, 1), (2, 1), (3, 1), (4, 1), (5, 1), (6, 1), (7, 1), (0, 1),
    (2, 2), (3, 2), (4, 2), (5, 2), (6, 2), (7, 2), (0, 2), (1, 2),
    (3, 3), (4, 3), (5, 3), (6, 3), (7, 3), (0, 3), (1, 3), (2, 3),
    (4, 4), (5, 4), (6, 4), (7, 4), (0, 4), (1, 4), (2, 4), (3, 4),
];

const INTERLEAVE_TABLE_6: [(usize, usize); 48] = [
    (0, 0), (1, 0), (2, 0), (3, 0), (4, 0), (5, 0), (6, 0), (7, 0),
    (1, 1), (2, 1), (3, 1), (4, 1), (5, 1), (6, 1), (7, 1), (0, 1),
    (2, 2), (3, 2), (4, 2), (5, 2), (6, 2), (7, 2), (0, 2), (1, 2),
    (3, 3), (4, 3), (5, 3), (6, 3), (7, 3), (0, 3), (1, 3), (2, 3),
    (4, 4), (5, 4), (6, 4), (7, 4), (0, 4), (1, 4), (2, 4), (3, 4),
    (5, 5), (6, 5), (7, 5), (0, 5), (1, 5), (2, 5), (3, 5), (4, 5),
];

const INTERLEAVE_TABLE_7: [(usize, usize); 56] = [
    (0, 0), (1, 0), (2, 0), (3, 0), (4, 0), (5, 0), (6, 0), (7, 0),
    (1, 1), (2, 1), (3, 1), (4, 1), (5, 1), (6, 1), (7, 1), (0, 1),
    (2, 2), (3, 2), (4, 2), (5, 2), (6, 2), (7, 2), (0, 2), (1, 2),
    (3, 3), (4, 3), (5, 3), (6, 3), (7, 3), (0, 3), (1, 3), (2, 3),
    (4, 4), (5, 4), (6, 4), (7, 4), (0, 4), (1, 4), (2, 4), (3, 4),
    (5, 5), (6, 5), (7, 5), (0, 5), (1, 5), (2, 5), (3, 5), (4, 5),
    (6, 6), (7, 6), (0, 6), (1, 6), (2, 6), (3, 6), (4, 6), (5, 6),
];

/// The codeword bit that a woven byte stands for: itself, but that with
/// eight bits per codeword the bits four and five trade places.
pub open spec fn column(cr: usize, byte: int) -> int {
    if cr == 8 && byte == 4 {
        5
    } else if cr == 8 && byte == 5 {
        4
    } else {
        byte
    }
}

/// Where bit `bit` of woven byte `byte` comes from: the codeword, then the
/// bit in it.
pub open spec fn source_of(cr: usize, byte: int, bit: int) -> (int, int) {
    ((bit + byte) % 8, column(cr, byte))
}

/// Where bit `bit` of codeword `word` goes: the woven byte, then the bit in it.
pub open spec fn target_of(cr: usize, word: int, bit: int) -> (int, int) {
    (column(cr, bit), (word + 8 - column(cr, bit)) % 8)
}

/// Whether `woven` is the interleaving of the eight codewords `plain`.
pub open spec fn is_interleaved(cr: usize, plain: Seq<u8>, woven: Seq<u8>) -> bool {
    &&& plain.len() == 8
    &&& woven.len() == cr
    &&& forall|o: int, b: u8|
        0 <= o < cr && b < 8 ==> #[trigger] bit_set(woven[o], b) == bit_set(
            plain[source_of(cr, o, b as int).0],
            source_of(cr, o, b as int).1 as u8,
        )
}

/// Whether the eight codewords `plain` are what the bytes `woven` were woven
/// from: each of their low `cr` bits is the woven bit it went to, and the
/// bits above are clear.
pub open spec fn is_deinterleaved(cr: usize, woven: Seq<u8>, plain: Seq<u8>) -> bool {
    &&& plain.len() == 8
    &&& woven.len() == cr
    &&& forall|w: int, c: u8|
        0 <= w < 8 && c < 8 ==> #[trigger] bit_set(plain[w], c) == (c < cr && bit_set(
            woven[target_of(cr, w, c as int).0],
            target_of(cr, w, c as int).1 as u8,
        ))
}

/// Whether every byte of `plain` keeps to its low `cr` bits.
pub open spec fn fits_in_bits(cr: usize, plain: Seq<u8>) -> bool {
    forall|w: int, c: u8| 0 <= w < plain.len() && cr <= c < 8 ==> !#[trigger] bit_set(plain[w], c)
}

/// The `cr` bytes that the eight codewords `plain` are woven into.
pub open spec fn interleaved_block(cr: usize, plain: Seq<u8>) -> Seq<u8> {
    Seq::new(
        cr as nat,
        |o: int|
            byte_of(
                |b: u8|
                    bit_set(
                        plain[source_of(cr, o, b as int).0],
                        source_of(cr, o, b as int).1 as u8,
                    ),
            ),
    )
}

/// The eight codewords that the `cr` bytes `woven` were woven from.
pub open spec fn deinterleaved_block(cr: usize, woven: Seq<u8>) -> Seq<u8> {
    Seq::new(
        8,
        |w: int|
            byte_of(
                |c: u8|
                    c < cr && bit_set(
                        woven[target_of(cr, w, c as int).0],
                        target_of(cr, w, c as int).1 as u8,
                    ),
            ),
    )
}

/// Block `k` of `s` cut into blocks of `size`.
pub open spec fn block(s: Seq<u8>, size: int, k: int) -> Seq<u8> {
    s.subrange(k * size, k * size + size)
}

/// The weaving of every full block of eight codewords in `plain`.
pub open spec fn interleaved(cr: usize, plain: Seq<u8>) -> Seq<u8> {
    Seq::new(
        cr as nat * (plain.len() / 8),
        |i: int| interleaved_block(cr, block(plain, 8, i / cr as int))[i % cr as int],
    )
}

/// The codewords of every full block of `cr` bytes in `woven`.
pub open spec fn deinterleaved(cr: usize, woven: Seq<u8>) -> Seq<u8> {
    Seq::new(
        8 * (woven.len() / cr as nat),
        |i: int| deinterleaved_block(cr, block(woven, cr as int, i / 8))[i % 8],
    )
}

/// `interleaved_block` and `deinterleaved_block` are the bytes that
/// `is_interleaved` and `is_deinterleaved` describe.
pub proof fn lemma_block_functions(cr: usize, s: Seq<u8>)
    requires
        5 <= cr <= 8,
    ensures
        s.len() == 8 ==> is_interleaved(cr, s, interleaved_block(cr, s)),
        s.len() == cr ==> is_deinterleaved(cr, s, deinterleaved_block(cr, s)),
{
    if s.len() == 8 {
        let woven = interleaved_block(cr, s);
        assert forall|o: int, b: u8| 0 <= o < cr && b < 8 implies #[trigger] bit_set(woven[o], b)
            == bit_set(s[source_of(cr, o, b as int).0], source_of(cr, o, b as int).1 as u8) by {
            lemma_byte_of(
                |b: u8| bit_set(s[source_of(cr, o, b as int).0], source_of(cr, o, b as int).1 as u8),
            );
        }
    }
    if s.len() == cr {
        let plain = deinterleaved_block(cr, s);
        assert forall|w: int, c: u8| 0 <= w < 8 && c < 8 implies #[trigger] bit_set(plain[w], c)
            == (c < cr && bit_set(
            s[target_of(cr, w, c as int).0],
            target_of(cr, w, c as int).1 as u8,
        )) by {
            lemma_byte_of(
                |c: u8|
                    c < cr && bit_set(
                        s[target_of(cr, w, c as int).0],
                        target_of(cr, w, c as int).1 as u8,
                    ),
            );
        }
    }
}

/// The entry of the table for `CR` bits per codeword at `index`.
fn table<const CR: usize>(index: usize) -> (entry: (usize, usize))
    requires
        5 <= CR <= 8,
        index < CR * 8,
    ensures
        entry.0 == source_of(CR, index as int / 8, index as int % 8).0,
        entry.1 == source_of(CR, index as int / 8, index as int % 8).1,
{
    if CR == 5 {
        INTERLEAVE_TABLE_5[index]
    } else if CR == 6 {
        INTERLEAVE_TABLE_6[index]
    } else if CR == 7 {
        INTERLEAVE_TABLE_7[index]
    } else {
        INTERLEAVE_TABLE_8[index]
    }
}

pub fn interleave_pos<const CR: usize>(byte: usize, bit: usize) -> (from: (usize, usize))
    requires
        5 <= CR <= 8,
        byte < CR,
        bit < 8,
    ensures
        from.0 == source_of(CR, byte as int, bit as int).0,
        from.1 == source_of(CR, byte as int, bit as int).1,
        from.0 < 8,
        from.1 < CR,
{
    table::<CR>(byte * 8 + bit)
}

/// Weaves eight codewords of `CR` bits each into `CR` bytes.
pub fn interleave_block<const CR: usize>(bytes: [u8; 8]) -> (woven: [u8; CR])
    requires
        5 <= CR <= 8,
    ensures
        is_interleaved(CR, bytes@, woven@),
        woven@ == interleaved_block(CR, bytes@),
{
    let mut ret: [u8; CR] = [0u8; CR];
    let mut outbyte: usize = 0;
    while outbyte < CR
        invariant
            5 <= CR <= 8,
            outbyte <= CR,
            forall|o: int, b: u8|
                0 <= o < outbyte && b < 8 ==> #[trigger] bit_set(ret@[o], b) == bit_set(
                    bytes@[source_of(CR, o, b as int).0],
                    source_of(CR, o, b as int).1 as u8,
                ),
        decreases CR - outbyte,
    {
        let mut acc: u8 = 0;
        let mut outbit: usize = 0;
        proof {
            lemma_zero_has_no_bit();
        }
        while outbit < 8
            invariant
                5 <= CR <= 8,
                outbyte < CR,
                outbit <= 8,
                forall|b: u8|
                    b < 8 ==> #[trigger] bit_set(acc, b) == (b < outbit && bit_set(
                        bytes@[source_of(CR, outbyte as int, b as int).0],
                        source_of(CR, outbyte as int, b as int).1 as u8,
                    )),
            decreases 8 - outbit,
        {
            let (inbyte, inbit) = interleave_pos::<CR>(outbyte, outbit);
            if is_bit_set(bytes[inbyte], inbit) {
                acc = with_bit(acc, outbit);
            }
            outbit += 1;
        }
        ret[outbyte] = acc;
        outbyte += 1;
    }
    proof {
        lemma_block_functions(CR, bytes@);
        lemma_interleaving_is_determined(CR, bytes@, ret@, interleaved_block(CR, bytes@));
    }
    ret
}

/// Whether `plain` holds the bits of `woven` that come before bit `b` of
/// byte `o`, each where it belongs, and no others.
spec fn unwoven_up_to(cr: usize, woven: Seq<u8>, plain: Seq<u8>, o: int, b: int) -> bool {
    &&& plain.len() == 8
    &&& woven.len() == cr
    &&& forall|w: int, c: u8|
        0 <= w < 8 && c < 8 ==> #[trigger] bit_set(plain[w], c) == (c < cr && (target_of(
            cr,
            w,
            c as int,
        ).0 < o || (target_of(cr, w, c as int).0 == o && target_of(cr, w, c as int).1 < b))
            && bit_set(woven[target_of(cr, w, c as int).0], target_of(cr, w, c as int).1 as u8))
}

/// A bit of a codeword goes to woven bit `b` of byte `o` exactly if that
/// woven bit comes from it.
proof fn lemma_target_inverts_source(cr: usize, o: int, b: int, w: int, c: int)
    requires
        5 <= cr <= 8,
        0 <= o < cr,
        0 <= b < 8,
        0 <= w < 8,
        0 <= c < cr,
    ensures
        (target_of(cr, w, c) == (o, b)) <==> (source_of(cr, o, b) == (w, c)),
{
}

/// Handing bit `b` of woven byte `o` to the codeword it came from takes
/// `unwoven_up_to` one bit further.
proof fn lemma_unweave_step(
    cr: usize,
    woven: Seq<u8>,
    before: Seq<u8>,
    after: Seq<u8>,
    o: int,
    b: int,
)
    requires
        5 <= cr <= 8,
        0 <= o < cr,
        0 <= b < 8,
        unwoven_up_to(cr, woven, before, o, b),
        after.len() == 8,
        forall|w: int| 0 <= w < 8 && w != source_of(cr, o, b).0 ==> after[w] == before[w],
        forall|j: u8|
            j < 8 ==> #[trigger] bit_set(after[source_of(cr, o, b).0], j) == (bit_set(
                before[source_of(cr, o, b).0],
                j,
            ) || (j == source_of(cr, o, b).1 && bit_set(woven[o], b as u8))),
    ensures
        unwoven_up_to(cr, woven, after, o, b + 1),
{
    let from = source_of(cr, o, b);
    assert forall|w: int, c: u8| 0 <= w < 8 && c < 8 implies #[trigger] bit_set(after[w], c) == (c
        < cr && (target_of(cr, w, c as int).0 < o || (target_of(cr, w, c as int).0 == o
        && target_of(cr, w, c as int).1 < b + 1)) && bit_set(
        woven[target_of(cr, w, c as int).0],
        target_of(cr, w, c as int).1 as u8,
    )) by {
        assert(bit_set(before[w], c) == (c < cr && (target_of(cr, w, c as int).0 < o || (target_of(
            cr,
            w,
            c as int,
        ).0 == o && target_of(cr, w, c as int).1 < b)) && bit_set(
            woven[target_of(cr, w, c as int).0],
            target_of(cr, w, c as int).1 as u8,
        )));
        if c < cr {
            lemma_target_inverts_source(cr, o, b, w, c as int);
        }
        if w != from.0 {
            assert(after[w] == before[w]);
        }
    }
}

/// Gives back the eight codewords that `CR` woven bytes were made from.
pub fn deinterleave_block<const CR: usize>(bytes: [u8; CR]) -> (plain: [u8; 8])
    requires
        5 <= CR <= 8,
    ensures
        is_deinterleaved(CR, bytes@, plain@),
        plain@ == deinterleaved_block(CR, bytes@),
{
    let mut ret: [u8; 8] = [0u8; 8];
    let mut outbyte: usize = 0;
    proof {
        lemma_zero_has_no_bit();
    }
    while outbyte < CR
        invariant
            5 <= CR <= 8,
            outbyte <= CR,
            unwoven_up_to(CR, bytes@, ret@, outbyte as int, 0),
        decreases CR - outbyte,
    {
        let mut outbit: usize = 0;
        while outbit < 8
            invariant
                5 <= CR <= 8,
                outbyte < CR,
                outbit <= 8,
                unwoven_up_to(CR, bytes@, ret@, outbyte as int, outbit as int),
            decreases 8 - outbit,
        {
            let (inbyte, inbit) = interleave_pos::<CR>(outbyte, outbit);
            let ghost before = ret@;
            if is_bit_set(bytes[outbyte], outbit) {
                let updated: u8 = with_bit(ret[inbyte], inbit);
                ret[inbyte] = updated;
            }
            proof {
                lemma_unweave_step(CR, bytes@, before, ret@, outbyte as int, outbit as int);
            }
            outbit += 1;
        }
        proof {
            lemma_unwoven_next_byte(CR, bytes@, ret@, outbyte as int);
        }
        outbyte += 1;
    }
    proof {
        lemma_block_functions(CR, bytes@);
        lemma_interleaving_is_determined(CR, bytes@, ret@, deinterleaved_block(CR, bytes@));
    }
    ret
}

/// With all eight bits of woven byte `o` handed out, the next byte begins.
proof fn lemma_unwoven_next_byte(cr: usize, woven: Seq<u8>, plain: Seq<u8>, o: int)
    requires
        5 <= cr <= 8,
        0 <= o < cr,
        unwoven_up_to(cr, woven, plain, o, 8),
    ensures
        unwoven_up_to(cr, woven, plain, o + 1, 0),
{
    assert forall|w: int, c: u8| 0 <= w < 8 && c < 8 implies #[trigger] bit_set(plain[w], c) == (c
        < cr && (target_of(cr, w, c as int).0 < o + 1 || (target_of(cr, w, c as int).0 == o + 1
        && target_of(cr, w, c as int).1 < 0)) && bit_set(
        woven[target_of(cr, w, c as int).0],
        target_of(cr, w, c as int).1 as u8,
    )) by {
        assert(bit_set(plain[w], c) == (c < cr && (target_of(cr, w, c as int).0 < o || (target_of(
            cr,
            w,
            c as int,
        ).0 == o && target_of(cr, w, c as int).1 < 8)) && bit_set(
            woven[target_of(cr, w, c as int).0],
            target_of(cr, w, c as int).1 as u8,
        )));
    }
}

/// Whether `plain` holds, block after block, the codewords that the full
/// blocks of `cr` bytes in `woven` were made from. Bytes after the last full
/// block are left out.
pub open spec fn is_deinterleaved_stream(cr: usize, woven: Seq<u8>, plain: Seq<u8>) -> bool {
    &&& plain.len() == 8 * (woven.len() / cr as nat)
    &&& forall|k: int|
        0 <= k < woven.len() / cr as nat ==> is_deinterleaved(
            cr,
            #[trigger] block(woven, cr as int, k),
            block(plain, 8, k),
        )
}

/// Whether `woven` holds, block after block, the interleaving of the full
/// blocks of eight codewords in `plain`. Codewords after the last full block
/// are left out.
pub open spec fn is_interleaved_stream(cr: usize, plain: Seq<u8>, woven: Seq<u8>) -> bool {
    &&& woven.len() == cr * (plain.len() / 8)
    &&& forall|k: int|
        0 <= k < plain.len() / 8 ==> is_interleaved(
            cr,
            #[trigger] block(plain, 8, k),
            block(woven, cr as int, k),
        )
}

/// Appending `size` items to `before`, which holds `blocks` blocks, makes
/// them block `blocks` and leaves the earlier blocks as they were.
proof fn lemma_append_block(before: Seq<u8>, added: Seq<u8>, size: int, blocks: int)
    requires
        0 < size,
        0 <= blocks,
        before.len() == blocks * size,
        added.len() == size,
    ensures
        block(before + added, size, blocks) == added,
        forall|k: int|
            0 <= k < blocks ==> #[trigger] block(before + added, size, k) == block(before, size, k),
        (before + added).len() == (blocks + 1) * size,
{
    assert((blocks + 1) * size == blocks * size + size) by (nonlinear_arith);
    assert(block(before + added, size, blocks) =~= added);
    assert forall|k: int| 0 <= k < blocks implies #[trigger] block(before + added, size, k)
        == block(before, size, k) by {
        assert((k + 1) * size <= blocks * size) by (nonlinear_arith)
            requires
                k + 1 <= blocks,
                size > 0,
        ;
        assert((k + 1) * size == k * size + size) by (nonlinear_arith);
        assert(0 <= k * size) by (nonlinear_arith)
            requires
                0 <= k,
                size > 0,
        ;
        assert(block(before + added, size, k) =~= block(before, size, k));
    }
}

/// `blocks` full blocks of `size` fit in `len`, and no further one: `blocks`
/// is the quotient.
proof fn lemma_block_count(len: int, size: int, blocks: int)
    requires
        0 < size,
        0 <= blocks,
        blocks * size <= len < blocks * size + size,
    ensures
        blocks == len / size,
{
    vstd::arithmetic::div_mod::lemma_fundamental_div_mod_converse(
        len,
        size,
        blocks,
        len - blocks * size,
    );
}

/// Item `i` of a sequence of `blocks` blocks is item `i % size` of block
/// `i / size`.
proof fn lemma_block_item(s: Seq<u8>, size: int, blocks: int, i: int)
    requires
        0 < size,
        0 <= blocks,
        s.len() == blocks * size,
        0 <= i < s.len(),
    ensures
        0 <= i / size < blocks,
        0 <= i % size < size,
        block(s, size, i / size)[i % size] == s[i],
{
    let k = i / size;
    let r = i % size;
    vstd::arithmetic::div_mod::lemma_fundamental_div_mod(i, size);
    assert(0 <= k < blocks) by (nonlinear_arith)
        requires
            0 <= i < blocks * size,
            i == size * k + r,
            0 <= r < size,
    ;
    assert(k * size == size * k) by (nonlinear_arith);
    assert(k * size + size <= blocks * size) by (nonlinear_arith)
        requires
            k + 1 <= blocks,
            0 < size,
    ;
    assert(0 <= k * size) by (nonlinear_arith)
        requires
            0 <= k,
            0 < size,
    ;
    assert(block(s, size, k)[r] == s[k * size + r]);
}

/// Appends the items of `items` to `out`.
fn append(out: &mut Vec<u8>, items: &[u8])
    ensures
        final(out)@ == old(out)@ + items@,
{
    let ghost before = out@;
    let mut j: usize = 0;
    while j < items.len()
        invariant
            j <= items@.len(),
            out@ == before + items@.subrange(0, j as int),
        decreases items@.len() - j,
    {
        out.push(items[j]);
        j += 1;
        assert(out@ =~= before + items@.subrange(0, j as int));
    }
    assert(items@.subrange(0, items@.len() as int) =~= items@);
}

/// Gives back the codewords of every full block of `CR` bytes in `bytes`.
pub fn deinterleave<const CR: usize>(bytes: &[u8]) -> (plain: Vec<u8>)
    requires
        5 <= CR <= 8,
    ensures
        is_deinterleaved_stream(CR, bytes@, plain@),
        plain@ == deinterleaved(CR, bytes@),
{
    let mut out: Vec<u8> = Vec::new();
    let mut start: usize = 0;
    let ghost mut blocks: int = 0;
    while bytes.len() - start >= CR
        invariant
            5 <= CR <= 8,
            start <= bytes@.len(),
            start == blocks * CR,
            0 <= blocks,
            out@.len() == blocks * 8,
            forall|k: int|
                0 <= k < blocks ==> is_deinterleaved(
                    CR,
                    #[trigger] block(bytes@, CR as int, k),
                    block(out@, 8, k),
                ),
        decreases bytes@.len() - start,
    {
        let mut chunk: [u8; CR] = [0u8; CR];
        let mut i: usize = 0;
        while i < CR
            invariant
                5 <= CR <= 8,
                i <= CR,
                start + CR <= bytes@.len() <= usize::MAX,
                forall|j: int| 0 <= j < i ==> chunk@[j] == bytes@[start + j],
            decreases CR - i,
        {
            chunk[i] = bytes[start + i];
            i += 1;
        }
        assert(chunk@ =~= block(bytes@, CR as int, blocks));
        let plain: [u8; 8] = deinterleave_block::<CR>(chunk);
        proof {
            lemma_append_block(out@, plain@, 8, blocks);
        }
        append(&mut out, plain.as_slice());
        proof {
            assert((blocks + 1) * CR == blocks * CR + CR) by (nonlinear_arith);
            blocks = blocks + 1;
        }
        start += CR;
    }
    proof {
        lemma_block_count(bytes@.len() as int, CR as int, blocks);
        assert forall|i: int| 0 <= i < out@.len() implies out@[i] == deinterleaved(CR, bytes@)[i] by {
            let k = i / 8;
            lemma_block_item(out@, 8, blocks, i);
            assert(is_deinterleaved(CR, block(bytes@, CR as int, k), block(out@, 8, k)));
            lemma_block_functions(CR, block(bytes@, CR as int, k));
            lemma_interleaving_is_determined(
                CR,
                block(bytes@, CR as int, k),
                block(out@, 8, k),
                deinterleaved_block(CR, block(bytes@, CR as int, k)),
            );
        }
        assert(out@ =~= deinterleaved(CR, bytes@));
    }
    out
}

/// Weaves every full block of eight codewords in `bytes` into `CR` bytes.
pub fn interleave<const CR: usize>(bytes: &[u8]) -> (woven: Vec<u8>)
    requires
        5 <= CR <= 8,
    ensures
        is_interleaved_stream(CR, bytes@, woven@),
        woven@ == interleaved(CR, bytes@),
{
    let mut out: Vec<u8> = Vec::new();
    let mut start: usize = 0;
    let ghost mut blocks: int = 0;
    while bytes.len() - start >= 8
        invariant
            5 <= CR <= 8,
            start <= bytes@.len(),
            start == blocks * 8,
            0 <= blocks,
            out@.len() == blocks * CR,
            forall|k: int|
                0 <= k < blocks ==> is_interleaved(
                    CR,
                    #[trigger] block(bytes@, 8, k),
                    block(out@, CR as int, k),
                ),
        decreases bytes@.len() - start,
    {
        let mut chunk: [u8; 8] = [0u8; 8];
        let mut i: usize = 0;
        while i < 8
            invariant
                i <= 8,
                start + 8 <= bytes@.len() <= usize::MAX,
                forall|j: int| 0 <= j < i ==> chunk@[j] == bytes@[start + j],
            decreases 8 - i,
        {
            chunk[i] = bytes[start + i];
            i += 1;
        }
        assert(chunk@ =~= block(bytes@, 8, blocks));
        let woven: [u8; CR] = interleave_block::<CR>(chunk);
        proof {
            lemma_append_block(out@, woven@, CR as int, blocks);
        }
        append(&mut out, woven.as_slice());
        proof {
            blocks = blocks + 1;
        }
        start += 8;
    }
    proof {
        lemma_block_count(bytes@.len() as int, 8, blocks);
        assert(CR * blocks == blocks * CR) by (nonlinear_arith);
        assert(8 * blocks == blocks * 8);
        assert forall|i: int| 0 <= i < out@.len() implies out@[i] == interleaved(CR, bytes@)[i] by {
            let k = i / CR as int;
            lemma_block_item(out@, CR as int, blocks, i);
            assert(is_interleaved(CR, block(bytes@, 8, k), block(out@, CR as int, k)));
            lemma_block_functions(CR, block(bytes@, 8, k));
            lemma_interleaving_is_determined(
                CR,
                block(bytes@, 8, k),
                block(out@, CR as int, k),
                interleaved_block(CR, block(bytes@, 8, k)),
            );
        }
        assert(out@ =~= interleaved(CR, bytes@));
    }
    out
}

/// The codewords determine the woven bytes, and the woven bytes the
/// codewords.
pub proof fn lemma_interleaving_is_determined(cr: usize, a: Seq<u8>, b: Seq<u8>, c: Seq<u8>)
    requires
        5 <= cr <= 8,
    ensures
        is_interleaved(cr, a, b) && is_interleaved(cr, a, c) ==> b == c,
        is_deinterleaved(cr, a, b) && is_deinterleaved(cr, a, c) ==> b == c,
{
    if is_interleaved(cr, a, b) && is_interleaved(cr, a, c) {
        assert forall|o: int| 0 <= o < cr implies b[o] == c[o] by {
            assert forall|j: u8| j < 8 implies #[trigger] bit_set(b[o], j) == bit_set(c[o], j) by {}
            lemma_same_bits_same_byte(b[o], c[o]);
        }
        assert(b =~= c);
    }
    if is_deinterleaved(cr, a, b) && is_deinterleaved(cr, a, c) {
        assert forall|w: int| 0 <= w < 8 implies b[w] == c[w] by {
            assert forall|j: u8| j < 8 implies #[trigger] bit_set(b[w], j) == bit_set(c[w], j) by {}
            lemma_same_bits_same_byte(b[w], c[w]);
        }
        assert(b =~= c);
    }
}

/// Eight codewords that keep to their low `cr` bits come back unchanged
/// from being woven and unwoven.
pub proof fn lemma_deinterleave_inverts_interleave_block(
    cr: usize,
    plain: Seq<u8>,
    woven: Seq<u8>,
    back: Seq<u8>,
)
    requires
        5 <= cr <= 8,
        fits_in_bits(cr, plain),
        is_interleaved(cr, plain, woven),
        is_deinterleaved(cr, woven, back),
    ensures
        back == plain,
{
    assert forall|w: int| 0 <= w < 8 implies back[w] == plain[w] by {
        assert forall|c: u8| c < 8 implies #[trigger] bit_set(back[w], c) == bit_set(
            plain[w],
            c,
        ) by {
            if c < cr {
                let t = target_of(cr, w, c as int);
                assert(bit_set(back[w], c) == bit_set(woven[t.0], t.1 as u8));
                assert(source_of(cr, t.0, t.1) == (w, c as int));
                assert(bit_set(woven[t.0], t.1 as u8) == bit_set(plain[w], c));
            } else {
                assert(!bit_set(plain[w], c));
            }
        }
        lemma_same_bits_same_byte(back[w], plain[w]);
    }
    assert(back =~= plain);
}

/// Woven bytes come back unchanged from being unwoven and woven again.
pub proof fn lemma_interleave_inverts_deinterleave_block(
    cr: usize,
    woven: Seq<u8>,
    plain: Seq<u8>,
    again: Seq<u8>,
)
    requires
        5 <= cr <= 8,
        is_deinterleaved(cr, woven, plain),
        is_interleaved(cr, plain, again),
    ensures
        again == woven,
        fits_in_bits(cr, plain),
{
    assert forall|o: int| 0 <= o < cr implies again[o] == woven[o] by {
        assert forall|b: u8| b < 8 implies #[trigger] bit_set(again[o], b) == bit_set(
            woven[o],
            b,
        ) by {
            let f = source_of(cr, o, b as int);
            assert(bit_set(again[o], b) == bit_set(plain[f.0], f.1 as u8));
            assert(target_of(cr, f.0, f.1) == (o, b as int));
            assert(bit_set(plain[f.0], f.1 as u8) == bit_set(woven[o], b));
        }
        lemma_same_bits_same_byte(again[o], woven[o]);
    }
    assert(again =~= woven);
    assert forall|w: int, c: u8| 0 <= w < plain.len() && cr <= c < 8 implies !#[trigger] bit_set(
        plain[w],
        c,
    ) by {}
}

/// A whole number of blocks of codewords, each codeword within its low `cr`
/// bits, comes back unchanged from `interleave` followed by `deinterleave`.
pub proof fn lemma_deinterleave_inverts_interleave(
    cr: usize,
    plain: Seq<u8>,
    woven: Seq<u8>,
    back: Seq<u8>,
)
    requires
        5 <= cr <= 8,
        plain.len() % 8 == 0,
        fits_in_bits(cr, plain),
        is_interleaved_stream(cr, plain, woven),
        is_deinterleaved_stream(cr, woven, back),
    ensures
        back == plain,
{
    let n = (plain.len() / 8) as int;
    assert(cr * n == n * cr) by (nonlinear_arith);
    lemma_block_count(woven.len() as int, cr as int, n);
    assert forall|i: int| 0 <= i < plain.len() implies back[i] == plain[i] by {
        let k = i / 8;
        let p = block(plain, 8, k);
        let w = block(woven, cr as int, k);
        let b = block(back, 8, k);
        assert(is_interleaved(cr, p, w));
        assert(is_deinterleaved(cr, w, b));
        assert forall|x: int, c: u8| 0 <= x < p.len() && cr <= c < 8 implies !#[trigger] bit_set(
            p[x],
            c,
        ) by {
            assert(p[x] == plain[8 * k + x]);
        }
        lemma_deinterleave_inverts_interleave_block(cr, p, w, b);
        assert(b[i - 8 * k] == back[i]);
        assert(p[i - 8 * k] == plain[i]);
    }
    assert(back =~= plain);
}

} // verus!
