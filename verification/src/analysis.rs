//! Small tools for looking at captured frames.

use crate::bits::{bit_set, is_bit_set};
use crate::hamming::{codeword, hamming4_n_encode};
use crate::payload::masked;
use vstd::prelude::*;

verus! {

/// The number of different values among the exclusive ors of the eight
/// items of `a` with those of `b`.
pub fn xoreq(a: &[u8], b: &[u8]) -> (count: usize)
    requires
        a@.len() == 8,
        b@.len() == 8,
    ensures
        count == masked(a@, b@).to_set().len(),
        1 <= count <= 8,
{
    let mut xor: [u8; 8] = [0u8;8];
    let mut i: usize = 0;
    while i < 8
        invariant
            i <= 8,
            a@.len() == 8,
            b@.len() == 8,
            forall|k: int| 0 <= k < i ==> xor@[k] == a@[k] ^ b@[k],
        decreases 8 - i,
    {
        xor[i] = a[i] ^ b[i];
        i += 1;
    }
    assert(xor@ =~= masked(a@, b@));
    let mut count: usize = 0;
    let mut n: usize = 0;
    assert(xor@.subrange(0, 0).to_set() =~= Set::<u8>::empty());
    while n < 8
        invariant
            n <= 8,
            count <= n,
            n > 0 ==> count >= 1,
            count == xor@.subrange(0, n as int).to_set().len(),
        decreases 8 - n,
    {
        let mut seen: bool = false;
        let mut j: usize = 0;
        while j < n
            invariant
                j <= n < 8,
                seen == exists|k: int| 0 <= k < j && xor@[k] == xor@[n as int],
            decreases n - j,
        {
            if xor[j] == xor[n] {
                seen = true;
            }
            j += 1;
        }
        proof {
            let before = xor@.subrange(0, n as int);
            let after = xor@.subrange(0, n + 1);
            let value = xor@[n as int];
            assert(after =~= before.push(value));
            assert(after.to_set() =~= before.to_set().insert(value)) by {
                assert forall|v: u8| after.to_set().contains(v) implies before.to_set().insert(
                    value,
                ).contains(v) by {
                    let w = choose|w: int| 0 <= w < after.len() && after[w] == v;
                    if w < n {
                        assert(before[w] == v);
                    }
                }
                assert forall|v: u8| before.to_set().insert(value).contains(
                    v,
                ) implies after.to_set().contains(v) by {
                    if v == value {
                        assert(after[n as int] == v);
                    } else {
                        let w = choose|w: int| 0 <= w < before.len() && before[w] == v;
                        assert(after[w] == v);
                    }
                }
            }
            vstd::seq_lib::seq_to_set_is_finite(before);
            if seen {
                let k = choose|k: int| 0 <= k < n && xor@[k] == value;
                assert(before[k] == value);
                assert(before.to_set().contains(value));
                assert(before.to_set().insert(value) =~= before.to_set());
            } else {
                assert(!before.to_set().contains(value)) by {
                    if before.to_set().contains(value) {
                        let w = choose|w: int| 0 <= w < before.len() && before[w] == value;
                        assert(xor@[w] == xor@[n as int]);
                    }
                }
            }
        }
        if !seen {
            count += 1;
        }
        n += 1;
    }
    assert(xor@.subrange(0, 8) =~= xor@);
    count
}

/// Whether place `(i, j)` comes before place `(r, c)` when the rows are read
/// one after the other.
pub open spec fn comes_before(i: int, j: int, r: int, c: int) -> bool {
    i < r || (i == r && j < c)
}

/// The place of the largest item of `arr`, rows first; of the first such
/// item in reading order where there are several, and `(0, 0)` where `arr`
/// has no item.
pub fn max_idx<const N: usize, const M: usize>(arr: &[[i32; N]; M]) -> (place: (usize, usize))
    ensures
        N == 0 || M == 0 ==> place == (0usize, 0usize),
        N > 0 && M > 0 ==> place.0 < M && place.1 < N,
        forall|i: int, j: int|
            0 <= i < M && 0 <= j < N ==> #[trigger] arr@[i]@[j] <= arr@[place.0 as int]@[place.1 as int],
        forall|i: int, j: int|
            0 <= i < M && 0 <= j < N && comes_before(i, j, place.0 as int, place.1 as int)
                ==> #[trigger] arr@[i]@[j] < arr@[place.0 as int]@[place.1 as int],
{
    let mut max_i: usize = 0;
    let mut max_j: usize = 0;
    if N == 0 || M == 0 {
        return (0, 0);
    }
    let mut i: usize = 0;
    while i < M
        invariant
            N > 0,
            M > 0,
            i <= M,
            max_i < M,
            max_j < N,
            i == 0 ==> max_i == 0 && max_j == 0,
            i > 0 ==> max_i < i,
            forall|r: int, c: int|
                0 <= r < i && 0 <= c < N ==> #[trigger] arr@[r]@[c] <= arr@[max_i as int]@[max_j as int],
            forall|r: int, c: int|
                0 <= r < i && 0 <= c < N && comes_before(r, c, max_i as int, max_j as int)
                    ==> #[trigger] arr@[r]@[c] < arr@[max_i as int]@[max_j as int],
        decreases M - i,
    {
        let mut j: usize = 0;
        while j < N
            invariant
                N > 0,
                M > 0,
                i < M,
                j <= N,
                max_i < M,
                max_j < N,
                i == 0 && j == 0 ==> max_i == 0 && max_j == 0,
                max_i < i || (max_i == i && (max_j < j || j == 0 && max_j == 0 && i == 0)),
                forall|r: int, c: int|
                    0 <= r < M && 0 <= c < N && comes_before(r, c, i as int, j as int)
                        ==> #[trigger] arr@[r]@[c] <= arr@[max_i as int]@[max_j as int],
                forall|r: int, c: int|
                    0 <= r < M && 0 <= c < N && comes_before(r, c, max_i as int, max_j as int)
                        ==> #[trigger] arr@[r]@[c] < arr@[max_i as int]@[max_j as int],
            decreases N - j,
        {
            if arr[i][j] > arr[max_i][max_j] {
                max_i = i;
                max_j = j;
            }
            j += 1;
        }
        i += 1;
    }
    (max_i, max_j)
}

/// The frames that one guess at the interleaving is made from: sixteen for
/// each of the eight codewords of a block, one for each nibble.
pub const CAPTURES: usize = 128;

/// Among the first `n` of the sixteen frames in which codeword `word` runs
/// through all nibbles, the number of those where bit `bit` of byte `byte`
/// is set together with bit `code_bit` of the nibble's codeword.
pub open spec fn votes(
    frames: Seq<Seq<u8>>,
    cr: usize,
    byte: int,
    bit: int,
    word: int,
    code_bit: int,
    n: int,
) -> int
    decreases n,
{
    if n <= 0 {
        0
    } else {
        votes(frames, cr, byte, bit, word, code_bit, n - 1) + if bit_set(
            frames[word * 16 + n - 1][byte],
            bit as u8,
        ) && bit_set(codeword(cr, (n - 1) as u8), code_bit as u8) {
            1int
        } else {
            0int
        }
    }
}

/// Whether `place` names the codeword and the bit in it that goes best with
/// bit `bit` of byte `byte`: no other has more votes, and those before it in
/// reading order have fewer.
pub open spec fn is_best_guess(
    frames: Seq<Seq<u8>>,
    cr: usize,
    byte: int,
    bit: int,
    place: (usize, usize),
) -> bool {
    &&& place.0 < 8
    &&& place.1 < cr
    &&& forall|w: int, c: int|
        0 <= w < 8 && 0 <= c < cr ==> #[trigger] votes(frames, cr, byte, bit, w, c, 16) <= votes(
            frames,
            cr,
            byte,
            bit,
            place.0 as int,
            place.1 as int,
            16,
        )
    &&& forall|w: int, c: int|
        0 <= w < 8 && 0 <= c < cr && comes_before(w, c, place.0 as int, place.1 as int)
            ==> #[trigger] votes(frames, cr, byte, bit, w, c, 16) < votes(
            frames,
            cr,
            byte,
            bit,
            place.0 as int,
            place.1 as int,
            16,
        )
}

/// The frames as sequences of bytes.
pub open spec fn frames_of(interleaved: Seq<Vec<u8>>) -> Seq<Seq<u8>> {
    Seq::new(interleaved.len(), |i: int| interleaved[i]@)
}

/// For each bit of each of the `CR` bytes of a block, the codeword and the
/// bit in it that it most likely carries, judged from frames that were
/// Gray-decoded and unmasked and in which one codeword at a time runs
/// through all nibbles.
pub fn deduce_interleave<const CR: usize>(interleaved: &[Vec<u8>]) -> (out: Vec<(usize, usize)>)
    requires
        4 <= CR <= 8,
        interleaved@.len() >= CAPTURES,
        forall|k: int| 0 <= k < CAPTURES ==> (#[trigger] interleaved@[k])@.len() >= CR,
    ensures
        out@.len() == CR * 8,
        forall|byte: int, bit: int|
            0 <= byte < CR && 0 <= bit < 8 ==> is_best_guess(
                frames_of(interleaved@),
                CR,
                byte,
                bit,
                #[trigger] out@[byte * 8 + bit],
            ),
{
    let ghost frames = frames_of(interleaved@);
    let mut out: Vec<(usize, usize)> = Vec::new();
    let mut byte: usize = 0;
    while byte < CR
        invariant
            4 <= CR <= 8,
            byte <= CR,
            interleaved@.len() >= CAPTURES,
            forall|k: int| 0 <= k < CAPTURES ==> (#[trigger] interleaved@[k])@.len() >= CR,
            frames == frames_of(interleaved@),
            out@.len() == byte * 8,
            forall|y: int, b: int|
                0 <= y < byte && 0 <= b < 8 ==> is_best_guess(
                    frames,
                    CR,
                    y,
                    b,
                    #[trigger] out@[y * 8 + b],
                ),
        decreases CR - byte,
    {
        let mut bit: usize = 0;
        while bit < 8
            invariant
                4 <= CR <= 8,
                byte < CR,
                bit <= 8,
                interleaved@.len() >= CAPTURES,
                forall|k: int| 0 <= k < CAPTURES ==> (#[trigger] interleaved@[k])@.len() >= CR,
                frames == frames_of(interleaved@),
                out@.len() == byte * 8 + bit,
                forall|y: int, b: int|
                    0 <= y < byte && 0 <= b < 8 ==> is_best_guess(
                        frames,
                        CR,
                        y,
                        b,
                        #[trigger] out@[y * 8 + b],
                    ),
                forall|b: int|
                    0 <= b < bit ==> is_best_guess(
                        frames,
                        CR,
                        byte as int,
                        b,
                        #[trigger] out@[byte * 8 + b],
                    ),
            decreases 8 - bit,
        {
            let counts: [[i32; CR]; 8] = count_votes::<CR>(interleaved, byte, bit);
            let place: (usize, usize) = max_idx(&counts);
            let ghost before = out@;
            out.push(place);
            proof {
                assert forall|y: int, b: int| 0 <= y < byte && 0 <= b < 8 implies is_best_guess(
                    frames,
                    CR,
                    y,
                    b,
                    #[trigger] out@[y * 8 + b],
                ) by {
                    assert(out@[y * 8 + b] == before[y * 8 + b]);
                }
                assert forall|b: int| 0 <= b < bit + 1 implies is_best_guess(
                    frames,
                    CR,
                    byte as int,
                    b,
                    #[trigger] out@[byte * 8 + b],
                ) by {
                    if b < bit {
                        assert(out@[byte * 8 + b] == before[byte * 8 + b]);
                    } else {
                        assert(out@[byte * 8 + b] == place);
                        let top = counts@[place.0 as int]@[place.1 as int];
                        assert(top == votes(
                            frames,
                            CR,
                            byte as int,
                            bit as int,
                            place.0 as int,
                            place.1 as int,
                            16,
                        ));
                        assert forall|w: int, c: int| 0 <= w < 8 && 0 <= c < CR implies #[trigger] votes(
                            frames,
                            CR,
                            byte as int,
                            bit as int,
                            w,
                            c,
                            16,
                        ) <= top && (comes_before(w, c, place.0 as int, place.1 as int) ==> votes(
                            frames,
                            CR,
                            byte as int,
                            bit as int,
                            w,
                            c,
                            16,
                        ) < top) by {
                            assert(counts@[w]@[c] == votes(
                                frames,
                                CR,
                                byte as int,
                                bit as int,
                                w,
                                c,
                                16,
                            ));
                        }
                    }
                }
            }
            bit += 1;
        }
        byte += 1;
    }
    out
}

/// The votes for every codeword and every bit in it, for bit `bit` of byte
/// `byte`.
fn count_votes<const CR: usize>(interleaved: &[Vec<u8>], byte: usize, bit: usize) -> (counts: [[i32;
    CR]; 8])
    requires
        4 <= CR <= 8,
        byte < CR,
        bit < 8,
        interleaved@.len() >= CAPTURES,
        forall|k: int| 0 <= k < CAPTURES ==> (#[trigger] interleaved@[k])@.len() >= CR,
    ensures
        forall|w: int, c: int|
            0 <= w < 8 && 0 <= c < CR ==> #[trigger] counts@[w]@[c] == votes(
                frames_of(interleaved@),
                CR,
                byte as int,
                bit as int,
                w,
                c,
                16,
            ),
{
    let ghost frames = frames_of(interleaved@);
    let mut counts: [[i32; CR]; 8] = [[0i32; CR]; 8];
    let mut nibble: usize = 0;
    while nibble < 8
        invariant
            4 <= CR <= 8,
            byte < CR,
            bit < 8,
            nibble <= 8,
            interleaved@.len() >= CAPTURES,
            forall|k: int| 0 <= k < CAPTURES ==> (#[trigger] interleaved@[k])@.len() >= CR,
            frames == frames_of(interleaved@),
            forall|w: int, c: int|
                0 <= w < nibble && 0 <= c < CR ==> #[trigger] counts@[w]@[c] == votes(
                    frames,
                    CR,
                    byte as int,
                    bit as int,
                    w,
                    c,
                    16,
                ),
        decreases 8 - nibble,
    {
        let mut row: [i32; CR] = [0i32; CR];
        let mut i: usize = 0;
        while i < 16
            invariant
                4 <= CR <= 8,
                byte < CR,
                bit < 8,
                nibble < 8,
                i <= 16,
                interleaved@.len() >= CAPTURES,
                forall|k: int| 0 <= k < CAPTURES ==> (#[trigger] interleaved@[k])@.len() >= CR,
                frames == frames_of(interleaved@),
                forall|c: int|
                    0 <= c < CR ==> #[trigger] row@[c] == votes(
                        frames,
                        CR,
                        byte as int,
                        bit as int,
                        nibble as int,
                        c,
                        i as int,
                    ),
                forall|c: int| 0 <= c < CR ==> 0 <= #[trigger] row@[c] <= i,
            decreases 16 - i,
        {
            let frame: &Vec<u8> = &interleaved[nibble * 16 + i];
            let packet_bit: bool = is_bit_set(frame[byte], bit);
            let ham: u8 = hamming4_n_encode::<CR>(i as u8);
            let ghost earlier = row@;
            let mut code_bit: usize = 0;
            while code_bit < CR
                invariant
                    4 <= CR <= 8,
                    code_bit <= CR,
                    i < 16,
                    earlier.len() == CR,
                    forall|c: int| 0 <= c < CR ==> 0 <= #[trigger] earlier[c] <= i,
                    forall|c: int| code_bit <= c < CR ==> row@[c] == earlier[c],
                    forall|c: int|
                        0 <= c < code_bit ==> #[trigger] row@[c] == earlier[c] + if packet_bit
                            && bit_set(ham, c as u8) {
                            1int
                        } else {
                            0int
                        },
                decreases CR - code_bit,
            {
                assert(row@[code_bit as int] == earlier[code_bit as int]);
                assert(0 <= earlier[code_bit as int] <= i);
                if packet_bit && is_bit_set(ham, code_bit) {
                    row[code_bit] = row[code_bit] + 1;
                }
                code_bit += 1;
            }
            assert(frames[nibble * 16 + i] == frame@);
            i += 1;
        }
        counts[nibble] = row;
        nibble += 1;
    }
    counts
}

} // verus!
