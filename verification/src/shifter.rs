//! The walk of the mixer through its table of rotation factors.
//!
//! The table holds one period of the rotation. Sample number `n` of the
//! stream meets the factor at `n` modulo the period, however the stream is
//! cut into blocks. The product itself is the caller's.

use vstd::prelude::*;

verus! {

/// Whether `out` holds, for each sample of `x`, a result of `rotate` on the
/// sample and the factor that belongs to its place in the stream, where the
/// first sample of `x` is sample number `start`.
pub open spec fn is_shifted<T, F: Fn(T, T) -> T>(
    rotate: F,
    table: Seq<T>,
    start: int,
    x: Seq<T>,
    out: Seq<T>,
) -> bool {
    &&& out.len() == x.len()
    &&& forall|i: int|
        0 <= i < x.len() ==> call_ensures(
            rotate,
            (x[i], table[(start + i) % table.len() as int]),
            #[trigger] out[i],
        )
}

/// Whether `rotate` has, on any sample and factor, one result only.
pub open spec fn single_valued<T, F: Fn(T, T) -> T>(rotate: F) -> bool {
    forall|a: T, b: T, r: T, s: T|
        call_ensures(rotate, (a, b), r) && call_ensures(rotate, (a, b), s) ==> r == s
}

/// One period of rotation factors.
pub struct Shifter<T> {
    buffer: Vec<T>,
}

impl<T: Copy> Shifter<T> {
    /// The factors, in order.
    pub closed spec fn table(&self) -> Seq<T> {
        self.buffer@
    }

    /// Whether there is a factor at all.
    pub closed spec fn wf(&self) -> bool {
        self.buffer@.len() > 0
    }

    /// A mixer that walks through `table`, if it holds a factor.
    pub fn new(table: Vec<T>) -> (made: Option<Shifter<T>>)
        ensures
            match made {
                Some(shifter) => table@.len() > 0 && shifter.wf() && shifter.table() == table@,
                None => table@.len() == 0,
            },
    {
        if table.len() == 0 {
            None
        } else {
            Some(Shifter { buffer: table })
        }
    }

    /// The number of factors in a period.
    pub fn period(&self) -> (period: usize)
        ensures
            period == self.table().len(),
    {
        self.buffer.len()
    }

    /// Replaces each sample of `x` by `rotate` of itself and its factor.
    /// `start` is the number of the first sample of `x` in the stream.
    pub fn shift<F: Fn(T, T) -> T>(&self, x: &mut Vec<T>, start: usize, rotate: F)
        requires
            self.wf(),
            forall|a: T, b: T| call_requires(rotate, (a, b)),
        ensures
            is_shifted(rotate, self.table(), start as int, old(x)@, final(x)@),
    {
        let period: usize = self.buffer.len();
        let ghost before = x@;
        let mut j: usize = start % period;
        let mut i: usize = 0;
        while i < x.len()
            invariant
                period == self.buffer@.len(),
                period > 0,
                i <= x@.len(),
                x@.len() == before.len(),
                j < period,
                j == (start + i) % period as int,
                forall|a: T, b: T| call_requires(rotate, (a, b)),
                forall|k: int| i <= k < x@.len() ==> x@[k] == before[k],
                forall|k: int|
                    0 <= k < i ==> call_ensures(
                        rotate,
                        (before[k], self.buffer@[(start + k) % period as int]),
                        #[trigger] x@[k],
                    ),
            decreases x@.len() - i,
        {
            let value: T = rotate(x[i], self.buffer[j]);
            x[i] = value;
            proof {
                lemma_next_phase(start + i, period as int);
            }
            j = if j + 1 == period {
                0
            } else {
                j + 1
            };
            i += 1;
        }
    }
}

/// One sample on, the place in the period is one on, or back at the start.
proof fn lemma_next_phase(n: int, period: int)
    requires
        0 <= n,
        0 < period,
    ensures
        (n + 1) % period == if n % period + 1 == period {
            0
        } else {
            n % period + 1
        },
{
    vstd::arithmetic::div_mod::lemma_fundamental_div_mod(n, period);
    let q = n / period;
    let r = n % period;
    if r + 1 == period {
        assert(n + 1 == (q + 1) * period + 0) by (nonlinear_arith)
            requires
                n == period * q + r,
                r + 1 == period,
        ;
        vstd::arithmetic::div_mod::lemma_fundamental_div_mod_converse(n + 1, period, q + 1, 0);
    } else {
        assert(n + 1 == q * period + (r + 1)) by (nonlinear_arith)
            requires
                n == period * q + r,
        ;
        vstd::arithmetic::div_mod::lemma_fundamental_div_mod_converse(n + 1, period, q, r + 1);
    }
}

/// Mixing a stream block by block, each block at its place in the stream,
/// gives what mixing it in one piece gives, as long as `rotate` has one
/// result only.
pub proof fn lemma_phase_is_continuous<T, F: Fn(T, T) -> T>(
    rotate: F,
    table: Seq<T>,
    start: int,
    first: Seq<T>,
    second: Seq<T>,
    first_out: Seq<T>,
    second_out: Seq<T>,
    whole_out: Seq<T>,
)
    requires
        single_valued(rotate),
        is_shifted(rotate, table, start, first, first_out),
        is_shifted(rotate, table, start + first.len(), second, second_out),
        is_shifted(rotate, table, start, first + second, whole_out),
    ensures
        whole_out == first_out + second_out,
{
    let split = first_out + second_out;
    let period = table.len() as int;
    assert forall|i: int| 0 <= i < whole_out.len() implies whole_out[i] == split[i] by {
        if i < first.len() {
            assert((first + second)[i] == first[i]);
            assert(call_ensures(rotate, (first[i], table[(start + i) % period]), first_out[i]));
            assert(call_ensures(rotate, (first[i], table[(start + i) % period]), whole_out[i]));
        } else {
            let j = i - first.len();
            assert((first + second)[i] == second[j]);
            assert(start + first.len() + j == start + i);
            assert(call_ensures(
                rotate,
                (second[j], table[(start + first.len() + j) % period]),
                second_out[j],
            ));
            assert(call_ensures(rotate, (second[j], table[(start + i) % period]), whole_out[i]));
        }
    }
    assert(whole_out =~= split);
}

/// The walk comes back to the same factor after every period.
pub proof fn lemma_table_repeats(n: int, period: int)
    requires
        0 <= n,
        0 < period,
    ensures
        (n + period) % period == n % period,
{
    vstd::arithmetic::div_mod::lemma_mod_add_multiples_vanish(n, period);
}

/// Mixing the same block at the same place in the stream twice gives the
/// same samples, as long as `rotate` has one result only.
pub proof fn lemma_mixing_is_determined<T, F: Fn(T, T) -> T>(
    rotate: F,
    table: Seq<T>,
    start: int,
    x: Seq<T>,
    once: Seq<T>,
    again: Seq<T>,
)
    requires
        single_valued(rotate),
        is_shifted(rotate, table, start, x, once),
        is_shifted(rotate, table, start, x, again),
    ensures
        once == again,
{
    let period = table.len() as int;
    assert forall|i: int| 0 <= i < once.len() implies once[i] == again[i] by {
        assert(call_ensures(rotate, (x[i], table[(start + i) % period]), once[i]));
        assert(call_ensures(rotate, (x[i], table[(start + i) % period]), again[i]));
    }
    assert(once =~= again);
}

} // verus!
