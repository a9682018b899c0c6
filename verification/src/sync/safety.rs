//! What the deadlock check decides, stated without its simulation: a snapshot
//! is safe exactly when the tasks can be put in an order in which each finds
//! free what it may still need once those before it have finished.
use vstd::prelude::*;
use crate::sync::{
    can_finish, finished_count, initial, is_unsafe, lemma_count_finish, lemma_count_full, lemma_count_zero,
    lemma_next_finishable, lemma_outcome_is_final, next_finishable, outcome, release, settle, stuck, units,
    Progress,
};

verus! {

/// Units of resource `r` that the tasks in `done` hold together.
pub open spec fn gain(allocation: Seq<Vec<usize>>, done: Seq<int>, r: int) -> int
    decreases done.len(),
{
    if done.len() == 0 {
        0
    } else {
        gain(allocation, done.drop_last(), r) + units(allocation, done.last(), r)
    }
}

/// The free units once the tasks in `done` have finished and handed back
/// what they hold.
pub open spec fn free_after(available: Seq<int>, allocation: Seq<Vec<usize>>, done: Seq<int>) -> Seq<int> {
    Seq::new(available.len(), |r: int| available[r] + gain(allocation, done, r))
}

/// Whether `order` names each of the tasks `0` to `n - 1` once.
pub open spec fn is_permutation(order: Seq<int>, n: nat) -> bool {
    &&& order.len() == n
    &&& forall|k: int| 0 <= k < order.len() ==> 0 <= #[trigger] order[k] < n
    &&& forall|a: int, b: int| 0 <= a < b < order.len() ==> order[a] != order[b]
    &&& forall|t: int| 0 <= t < n ==> order.contains(t)
}

/// Whether the tasks can finish one after the other in the order `order`:
/// each finds free what it may still need once those before it have
/// finished.
pub open spec fn is_safe_order(
    order: Seq<int>,
    available: Seq<int>,
    allocation: Seq<Vec<usize>>,
    need: Seq<Vec<usize>>,
) -> bool {
    &&& is_permutation(order, allocation.len())
    &&& forall|k: int|
        0 <= k < order.len() ==> can_finish(
            free_after(available, allocation, #[trigger] order.take(k)),
            need,
            order[k],
        )
}

/// Whether there is an order in which all tasks can finish.
pub open spec fn is_safe(available: Seq<int>, allocation: Seq<Vec<usize>>, need: Seq<Vec<usize>>) -> bool {
    exists|order: Seq<int>| is_safe_order(order, available, allocation, need)
}

/// Whether `order` lists the tasks that have finished in `state`, in an
/// order in which they could finish from the free units `available`.
spec fn tracks(
    order: Seq<int>,
    state: Progress,
    available: Seq<int>,
    allocation: Seq<Vec<usize>>,
    need: Seq<Vec<usize>>,
) -> bool {
    let n = allocation.len();
    &&& state.finish.len() == n
    &&& forall|k: int| 0 <= k < order.len() ==> 0 <= #[trigger] order[k] < n
    &&& forall|a: int, b: int| 0 <= a < b < order.len() ==> order[a] != order[b]
    &&& forall|t: int| 0 <= t < n ==> (state.finish[t] <==> order.contains(t))
    &&& state.available == free_after(available, allocation, order)
    &&& forall|k: int|
        0 <= k < order.len() ==> can_finish(
            free_after(available, allocation, #[trigger] order.take(k)),
            need,
            order[k],
        )
    &&& order.len() == finished_count(state.finish, n)
}

proof fn lemma_track(
    available: Seq<int>,
    allocation: Seq<Vec<usize>>,
    need: Seq<Vec<usize>>,
    state: Progress,
    order: Seq<int>,
    rounds: nat,
) -> (full: Seq<int>)
    requires
        tracks(order, state, available, allocation, need),
    ensures
        tracks(full, settle(state, allocation, need, rounds), available, allocation, need),
    decreases rounds,
{
    let n = allocation.len();
    let t = next_finishable(state.available, need, state.finish, 0);
    lemma_next_finishable(state.available, need, state.finish, 0);
    if rounds == 0 || t >= state.finish.len() {
        order
    } else {
        let next = Progress {
            available: release(state.available, allocation, t),
            finish: state.finish.update(t, true),
        };
        let longer = order.push(t);
        assert(longer.drop_last() =~= order);
        assert(longer.last() == t);
        assert(next.available =~= free_after(available, allocation, longer));
        assert forall|k: int| 0 <= k < longer.len() implies can_finish(
            free_after(available, allocation, #[trigger] longer.take(k)),
            need,
            longer[k],
        ) by {
            if k < order.len() {
                assert(longer.take(k) =~= order.take(k));
            } else {
                assert(longer.take(k) =~= order);
            }
        }
        assert forall|a: int, b: int| 0 <= a < b < longer.len() implies longer[a] != longer[b] by {
            if b == order.len() {
                assert(order.contains(order[a]));
            }
        }
        assert forall|q: int| 0 <= q < n implies (next.finish[q] <==> longer.contains(q)) by {
            if q == t {
                assert(longer[order.len() as int] == t);
            } else {
                if order.contains(q) {
                    let i = choose|i: int| 0 <= i < order.len() && order[i] == q;
                    assert(longer[i] == q);
                }
                if longer.contains(q) {
                    let i = choose|i: int| 0 <= i < longer.len() && longer[i] == q;
                    assert(order[i] == q);
                }
            }
        }
        lemma_count_finish(state.finish, n, t);
        lemma_track(available, allocation, need, next, longer, (rounds - 1) as nat)
    }
}

proof fn lemma_gain_remove(allocation: Seq<Vec<usize>>, s: Seq<int>, i: int, r: int)
    requires
        0 <= i < s.len(),
    ensures
        gain(allocation, s, r) == gain(allocation, s.remove(i), r) + units(allocation, s[i], r),
    decreases s.len(),
{
    if i == s.len() - 1 {
        assert(s.remove(i) =~= s.drop_last());
    } else {
        lemma_gain_remove(allocation, s.drop_last(), i, r);
        assert(s.remove(i).drop_last() =~= s.drop_last().remove(i));
        assert(s.remove(i).last() == s.last());
    }
}

proof fn lemma_gain_subset(allocation: Seq<Vec<usize>>, s: Seq<int>, f: Seq<int>, r: int)
    requires
        forall|a: int, b: int| 0 <= a < b < s.len() ==> s[a] != s[b],
        forall|a: int, b: int| 0 <= a < b < f.len() ==> f[a] != f[b],
        forall|i: int| 0 <= i < s.len() ==> f.contains(#[trigger] s[i]),
    ensures
        gain(allocation, s, r) <= gain(allocation, f, r),
    decreases f.len(),
{
    if f.len() == 0 {
        if s.len() > 0 {
            assert(f.contains(s[0]));
        }
    } else {
        let x = f.last();
        let rest = f.drop_last();
        if s.contains(x) {
            let i = choose|i: int| 0 <= i < s.len() && s[i] == x;
            let less = s.remove(i);
            lemma_gain_remove(allocation, s, i, r);
            assert forall|j: int| 0 <= j < less.len() implies rest.contains(#[trigger] less[j]) by {
                let j0 = if j < i { j } else { j + 1 };
                assert(less[j] == s[j0]);
                assert(f.contains(s[j0]));
                let m = choose|m: int| 0 <= m < f.len() && f[m] == s[j0];
                assert(rest[m] == s[j0]);
            }
            assert forall|a: int, b: int| 0 <= a < b < less.len() implies less[a] != less[b] by {
                let a0 = if a < i { a } else { a + 1 };
                let b0 = if b < i { b } else { b + 1 };
                assert(less[a] == s[a0] && less[b] == s[b0]);
            }
            lemma_gain_subset(allocation, less, rest, r);
        } else {
            assert forall|j: int| 0 <= j < s.len() implies rest.contains(#[trigger] s[j]) by {
                assert(f.contains(s[j]));
                let m = choose|m: int| 0 <= m < f.len() && f[m] == s[j];
                assert(s.contains(s[j]));
                assert(rest[m] == s[j]);
            }
            lemma_gain_subset(allocation, s, rest, r);
        }
    }
}

/// The first position of `order` at or after `from` whose task has not
/// finished.
proof fn lemma_first_unfinished(order: Seq<int>, finish: Seq<bool>, from: int, at: int) -> (k: int)
    requires
        0 <= from <= at < order.len(),
        !finish[order[at]],
        forall|j: int| 0 <= j < from ==> finish[#[trigger] order[j]],
    ensures
        0 <= k < order.len(),
        !finish[order[k]],
        forall|j: int| 0 <= j < k ==> finish[#[trigger] order[j]],
    decreases at - from,
{
    if !finish[order[from]] {
        from
    } else {
        lemma_first_unfinished(order, finish, from + 1, at)
    }
}

/// The check reports a snapshot as unsafe exactly when there is no order in
/// which all its tasks can finish; so which task the simulation lets finish
/// first, where several can, does not matter.
pub proof fn lemma_unsafe_iff_no_safe_order(
    available: Seq<int>,
    allocation: Seq<Vec<usize>>,
    need: Seq<Vec<usize>>,
)
    ensures
        is_unsafe(available, allocation, need) <==> !is_safe(available, allocation, need),
{
    let n = allocation.len();
    let start = initial(available, n);
    let end = outcome(available, allocation, need);
    let none = Seq::<int>::empty();
    lemma_count_zero(start.finish, n);
    assert(start.available =~= free_after(available, allocation, none));
    let full = lemma_track(available, allocation, need, start, none, n);
    lemma_outcome_is_final(available, allocation, need);
    if !is_unsafe(available, allocation, need) {
        assert forall|t: int| 0 <= t < n implies end.finish[t] && full.contains(t) by {}
        lemma_count_full(end.finish, n);
        lemma_count_all(end.finish, n);
        assert(is_safe_order(full, available, allocation, need));
    }
    if is_safe(available, allocation, need) && is_unsafe(available, allocation, need) {
        let order = choose|order: Seq<int>| is_safe_order(order, available, allocation, need);
        let t = choose|t: int| 0 <= t < allocation.len() && !end.finish[t];
        assert(order.contains(t));
        let at = choose|i: int| 0 <= i < order.len() && order[i] == t;
        let k = lemma_first_unfinished(order, end.finish, 0, at);
        let before = order.take(k);
        assert forall|i: int| 0 <= i < before.len() implies full.contains(#[trigger] before[i]) by {
            assert(before[i] == order[i]);
            assert(end.finish[order[i]]);
        }
        assert(can_finish(free_after(available, allocation, before), need, order[k]));
        assert forall|r: int| 0 <= r < end.available.len() && r < need[order[k]].len() implies need[order[k]][r]
            <= end.available[r] by {
            lemma_gain_subset(allocation, before, full, r);
            assert(free_after(available, allocation, before)[r] == available[r] + gain(allocation, before, r));
            assert(end.available[r] == available[r] + gain(allocation, full, r));
        }
        assert(can_finish(end.available, need, order[k]));
        assert(false);
    }
}

proof fn lemma_count_all(finish: Seq<bool>, n: nat)
    requires
        n <= finish.len(),
        forall|t: int| 0 <= t < n ==> finish[t],
    ensures
        finished_count(finish, n) == n,
    decreases n,
{
    if n > 0 {
        lemma_count_all(finish, (n - 1) as nat);
    }
}

} // verus!
