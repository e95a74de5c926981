use std::collections::VecDeque;
use vstd::prelude::*;

verus! {

broadcast use vstd::std_specs::vecdeque::group_vec_dequeue_axioms;

/// The series that results from appending `x` to `q` when at most `cap`
/// items are kept: the oldest item leaves first once the series is full.
pub open spec fn ring_push<T>(q: Seq<T>, cap: nat, x: T) -> Seq<T> {
    if q.len() >= cap && q.len() > 0 {
        q.drop_first().push(x)
    } else {
        q.push(x)
    }
}

/// The series that results from appending every item of `xs`, in order.
pub open spec fn ring_push_all<T>(q: Seq<T>, cap: nat, xs: Seq<T>) -> Seq<T>
    decreases xs.len(),
{
    if xs.len() == 0 {
        q
    } else {
        ring_push(ring_push_all(q, cap, xs.drop_last()), cap, xs.last())
    }
}

/// How many items a bounded series with threshold `cap` holds at most: a
/// threshold of zero still lets the newest item in.
pub open spec fn effective_capacity(cap: nat) -> nat {
    if cap == 0 { 1 } else { cap }
}

/// The newest `min(len, k)` items of `s`, in order.
pub open spec fn newest<T>(s: Seq<T>, k: nat) -> Seq<T> {
    if s.len() <= k {
        s
    } else {
        s.skip(s.len() - k)
    }
}

/// Appends `value`, first dropping the oldest item when `cap` items are held.
pub fn push_bounded<T>(series: &mut VecDeque<T>, value: T, cap: usize)
    ensures
        final(series)@ == ring_push(old(series)@, cap as nat, value),
{
    if series.len() >= cap {
        series.pop_front();
    }
    series.push_back(value);
}

/// Appends one sample to a history series of at most `cap` entries (a
/// zero cap still keeps the newest sample).
pub fn push_history(series: &mut VecDeque<u64>, value: u64, cap: usize)
    ensures
        final(series)@ == ring_push(old(series)@, cap as nat, value),
{
    push_bounded(series, value, cap);
}

/// A bounded series never grows past its capacity.
pub proof fn lemma_ring_push_bounded<T>(q: Seq<T>, cap: nat, x: T)
    requires
        q.len() <= effective_capacity(cap),
    ensures
        ring_push(q, cap, x).len() <= effective_capacity(cap),
        ring_push(q, cap, x).last() == x,
{
}

/// Appending items one by one to a bounded series keeps the newest of
/// everything seen, as many as the capacity allows, oldest first.
pub proof fn lemma_ring_keeps_newest<T>(q: Seq<T>, cap: nat, xs: Seq<T>)
    requires
        q.len() <= effective_capacity(cap),
    ensures
        ring_push_all(q, cap, xs) == newest(q + xs, effective_capacity(cap)),
    decreases xs.len(),
{
    let k = effective_capacity(cap);
    if xs.len() == 0 {
        assert(q + xs =~= q);
    } else {
        lemma_ring_keeps_newest(q, cap, xs.drop_last());
        let all = q + xs;
        let prev = q + xs.drop_last();
        assert(prev =~= all.drop_last());
        let r = ring_push_all(q, cap, xs);
        assert(r =~= newest(all, k));
    }
}

} // verus!
