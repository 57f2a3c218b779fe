//! The places where a stream of bit decisions changes.

use vstd::prelude::*;

verus! {

/// A change of the bit decision: the number of the first sample with the new
/// decision, and that decision.
#[derive(Copy, Clone, Debug, PartialEq, Eq, Structural)]
pub struct Transition {
    pub idx: usize,
    pub new_state: bool,
}

/// The decision before decision `i` of `bits`, where `prev_bit` is the one
/// before the first.
pub open spec fn decision_before(prev_bit: bool, bits: Seq<bool>, i: int) -> bool {
    if i == 0 {
        prev_bit
    } else {
        bits[i - 1]
    }
}

/// The changes among the first `n` decisions of `bits`, in order, where the
/// first decision is sample number `start` and follows on `prev_bit`.
pub open spec fn changes(prev_bit: bool, bits: Seq<bool>, start: int, n: int) -> Seq<Transition>
    decreases n,
{
    if n <= 0 {
        Seq::empty()
    } else if bits[n - 1] != decision_before(prev_bit, bits, n - 1) {
        changes(prev_bit, bits, start, n - 1).push(
            Transition { idx: (start + n - 1) as usize, new_state: bits[n - 1] },
        )
    } else {
        changes(prev_bit, bits, start, n - 1)
    }
}

/// The changes in `bits`, in order. `prev_bit` is the last decision of the
/// block before, `start` the number of the first sample of this one.
pub fn find_transitions(prev_bit: bool, bits: &[bool], start: usize) -> (found: Vec<Transition>)
    requires
        start + bits@.len() <= usize::MAX,
    ensures
        found@ == changes(prev_bit, bits@, start as int, bits@.len() as int),
{
    let mut found: Vec<Transition> = Vec::new();
    let mut last: bool = prev_bit;
    let mut i: usize = 0;
    while i < bits.len()
        invariant
            i <= bits@.len(),
            start + bits@.len() <= usize::MAX,
            last == decision_before(prev_bit, bits@, i as int),
            found@ == changes(prev_bit, bits@, start as int, i as int),
        decreases bits@.len() - i,
    {
        let bit: bool = bits[i];
        if bit != last {
            found.push(Transition { idx: start + i, new_state: bit });
        }
        last = bit;
        i += 1;
    }
    found
}

/// Every change that is found is a place where the decision differs from
/// the one before, it carries the new decision, and the changes come in the
/// order of the samples.
pub proof fn lemma_changes_are_changes(prev_bit: bool, bits: Seq<bool>, start: int, n: int)
    requires
        0 <= n <= bits.len(),
        0 <= start,
        start + bits.len() <= usize::MAX,
    ensures
        changes(prev_bit, bits, start, n).len() <= n,
        forall|k: int|
            0 <= k < changes(prev_bit, bits, start, n).len() ==> {
                let t = #[trigger] changes(prev_bit, bits, start, n)[k];
                &&& start <= t.idx < start + n
                &&& t.new_state == bits[t.idx - start]
                &&& t.new_state != decision_before(prev_bit, bits, t.idx - start)
            },
        forall|j: int, k: int|
            0 <= j < k < changes(prev_bit, bits, start, n).len() ==> changes(
                prev_bit,
                bits,
                start,
                n,
            )[j].idx < changes(prev_bit, bits, start, n)[k].idx,
    decreases n,
{
    if n > 0 {
        lemma_changes_are_changes(prev_bit, bits, start, n - 1);
    }
}

/// A place where the decision differs from the one before is among the
/// changes that are found.
pub proof fn lemma_every_change_is_found(
    prev_bit: bool,
    bits: Seq<bool>,
    start: int,
    n: int,
    i: int,
)
    requires
        0 <= i < n <= bits.len(),
        0 <= start,
        start + bits.len() <= usize::MAX,
        bits[i] != decision_before(prev_bit, bits, i),
    ensures
        changes(prev_bit, bits, start, n).contains(
            Transition { idx: (start + i) as usize, new_state: bits[i] },
        ),
    decreases n,
{
    let t = Transition { idx: (start + i) as usize, new_state: bits[i] };
    if i == n - 1 {
        let c = changes(prev_bit, bits, start, n);
        assert(c[c.len() - 1] == t);
    } else {
        lemma_every_change_is_found(prev_bit, bits, start, n - 1, i);
        let earlier = changes(prev_bit, bits, start, n - 1);
        let w = choose|w: int| 0 <= w < earlier.len() && earlier[w] == t;
        let c = changes(prev_bit, bits, start, n);
        assert(c[w] == t);
    }
}

} // verus!
