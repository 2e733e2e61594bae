//! The reorder buffer as mathematics.
//!
//! Solutions arrive in any order. They leave in case order: a solution is
//! released when every case before it has been released, and it waits in the
//! buffer until then. This module states that rule over integers, sequences
//! and maps, and proves what follows from it.

use vstd::prelude::*;
use vstd::set_lib::{lemma_int_range, lemma_len_subset, lemma_subset_equality, set_int_range};

verus! {

/// The state of a collector: the index that is released next, and the
/// solutions that arrived ahead of it.
pub struct Reorder<O> {
    pub cursor: int,
    pub pending: Map<int, O>,
}

/// The first index at or after `from` for which `pending` holds nothing.
pub open spec fn first_gap<O>(pending: Map<int, O>, from: int) -> int {
    choose|k: int|
        from <= k && !pending.contains_key(k) && forall|j: int|
            from <= j < k ==> pending.contains_key(j)
}

/// What a sequential run emits for `solutions`: each with the index of its
/// position.
pub open spec fn numbered<O>(solutions: Seq<O>) -> Seq<(int, O)> {
    Seq::new(solutions.len(), |i: int| (i, solutions[i]))
}

/// Whether `order` names each of the `count` cases of a run exactly once.
pub open spec fn is_arrival_order(order: Seq<int>, count: nat) -> bool {
    &&& order.len() == count
    &&& order.no_duplicates()
    &&& forall|j: int| 0 <= j < order.len() ==> 0 <= #[trigger] order[j] < count
}

/// What reaches the collector when the cases finish in the order `order`:
/// the solution of each case, tagged with the index of the case.
pub open spec fn deliveries<O>(solutions: Seq<O>, order: Seq<int>) -> Seq<(int, O)> {
    Seq::new(order.len(), |j: int| (order[j], solutions[order[j]]))
}

impl<O> Reorder<O> {
    /// The state before anything has arrived.
    pub open spec fn start() -> Self {
        Reorder { cursor: 0, pending: Map::empty() }
    }

    /// The number of solutions that were released or are waiting.
    pub open spec fn held(self) -> int {
        self.cursor + self.pending.dom().len()
    }

    /// The state after the solution of case `index` has arrived, and the
    /// solutions that this arrival releases, in the order of their release.
    ///
    /// An arrival at the cursor is released at once, and after it the
    /// solutions that wait at the indices that follow, up to the first index
    /// for which nothing waits. Any other arrival waits.
    pub open spec fn arrive(self, index: int, solution: O) -> (Self, Seq<(int, O)>) {
        if index == self.cursor {
            let from = self.cursor + 1;
            let next = first_gap(self.pending, from);
            (
                Reorder {
                    cursor: next,
                    pending: self.pending.remove_keys(set_int_range(from, next)),
                },
                seq![(index, solution)] + Seq::new(
                    (next - from) as nat,
                    |i: int| (from + i, self.pending[from + i]),
                ),
            )
        } else {
            (
                Reorder { cursor: self.cursor, pending: self.pending.insert(index, solution) },
                Seq::empty(),
            )
        }
    }

    /// The state after all of `arrivals`, first to last, and everything that
    /// they released.
    pub open spec fn run(self, arrivals: Seq<(int, O)>) -> (Self, Seq<(int, O)>)
        decreases arrivals.len(),
    {
        if arrivals.len() == 0 {
            (self, Seq::empty())
        } else {
            let before = self.run(arrivals.drop_last());
            let step = before.0.arrive(arrivals.last().0, arrivals.last().1);
            (step.0, before.1 + step.1)
        }
    }
}

/// For a finite buffer the first gap exists, every index between `from` and
/// the gap is buffered, and taking those indices out shrinks the buffer by
/// their number.
pub proof fn lemma_first_gap<O>(pending: Map<int, O>, from: int)
    requires
        pending.dom().finite(),
    ensures
        from <= first_gap(pending, from),
        !pending.contains_key(first_gap(pending, from)),
        forall|j: int| from <= j < first_gap(pending, from) ==> pending.contains_key(j),
        pending.remove_keys(set_int_range(from, first_gap(pending, from))).dom().finite(),
        pending.remove_keys(set_int_range(from, first_gap(pending, from))).dom().len() + (
        first_gap(pending, from) - from) == pending.dom().len(),
    decreases pending.dom().len(),
{
    if !pending.contains_key(from) {
        assert(pending.remove_keys(set_int_range(from, from)) =~= pending);
        lemma_gap_is_first(pending, from, from);
    } else {
        let rest = pending.remove(from);
        lemma_first_gap(rest, from + 1);
        let k = first_gap(rest, from + 1);
        assert forall|j: int| from <= j < k implies pending.contains_key(j) by {
            if j != from {
                assert(rest.contains_key(j));
            }
        }
        lemma_gap_is_first(pending, from, k);
        assert(pending.remove_keys(set_int_range(from, k)) =~= rest.remove_keys(
            set_int_range(from + 1, k),
        ));
    }
}

/// An index at or after `from` that is not buffered, while all between `from`
/// and it are, is the first gap.
pub proof fn lemma_gap_is_first<O>(pending: Map<int, O>, from: int, k: int)
    requires
        from <= k,
        !pending.contains_key(k),
        forall|j: int| from <= j < k ==> pending.contains_key(j),
    ensures
        first_gap(pending, from) == k,
{
    let g = first_gap(pending, from);
    assert(from <= g && !pending.contains_key(g) && forall|j: int|
        from <= j < g ==> pending.contains_key(j));
    if g < k {
        assert(pending.contains_key(g));
    }
    if k < g {
        assert(pending.contains_key(k));
    }
}

/// One arrival releases a run of consecutive cases that starts at the
/// cursor and ends where the new cursor stands, and it adds at most one to
/// the number of solutions held.
pub proof fn lemma_arrive<O>(state: Reorder<O>, index: int, solution: O)
    requires
        state.pending.dom().finite(),
    ensures
        ({
            let (after, released) = state.arrive(index, solution);
            &&& after.pending.dom().finite()
            &&& after.cursor == state.cursor + released.len()
            &&& forall|i: int| 0 <= i < released.len() ==> (#[trigger] released[i]).0 == state.cursor + i
            &&& after.held() <= state.held() + 1
            &&& index != state.cursor ==> released.len() == 0
            &&& index == state.cursor ==> released.len() >= 1 && released[0] == (index, solution)
            &&& !state.pending.contains_key(index) ==> after.held() == state.held() + 1
        }),
{
    if index == state.cursor {
        lemma_first_gap(state.pending, state.cursor + 1);
    }
}

/// Whatever arrives and in whatever order, what has been released is a run
/// of consecutive cases from the first case on: ascending, without a gap and
/// without a case twice. The buffer never holds more than has arrived and
/// was not released.
pub proof fn lemma_run_in_order<O>(arrivals: Seq<(int, O)>)
    ensures
        ({
            let (after, released) = Reorder::<O>::start().run(arrivals);
            &&& after.pending.dom().finite()
            &&& after.cursor == released.len()
            &&& forall|i: int| 0 <= i < released.len() ==> (#[trigger] released[i]).0 == i
            &&& after.cursor + after.pending.dom().len() <= arrivals.len()
        }),
    decreases arrivals.len(),
{
    if arrivals.len() > 0 {
        lemma_run_in_order(arrivals.drop_last());
        let before = Reorder::<O>::start().run(arrivals.drop_last());
        lemma_arrive(before.0, arrivals.last().0, arrivals.last().1);
    }
}

/// While the cases of a run arrive, each once, the collector has released
/// the solutions of all cases before its cursor, holds those that arrived
/// from behind the cursor on, and holds nothing else.
pub proof fn lemma_run_partial<O>(solutions: Seq<O>, order: Seq<int>, taken: int)
    requires
        is_arrival_order(order, solutions.len()),
        0 <= taken <= order.len(),
    ensures
        ({
            let (after, released) = Reorder::<O>::start().run(
                deliveries(solutions, order).take(taken),
            );
            let arrived = order.take(taken);
            &&& after.pending.dom().finite()
            &&& 0 <= after.cursor <= solutions.len()
            &&& released == numbered(solutions.take(after.cursor))
            &&& !arrived.contains(after.cursor)
            &&& forall|i: int| 0 <= i < after.cursor ==> arrived.contains(i)
            &&& forall|i: int| #[trigger]
                after.pending.contains_key(i) <==> arrived.contains(i) && after.cursor < i
            &&& forall|i: int| #[trigger]
                after.pending.contains_key(i) ==> after.pending[i] == solutions[i]
            &&& after.cursor + after.pending.dom().len() == taken
        }),
    decreases taken,
{
    let all = deliveries(solutions, order);
    if taken == 0 {
        assert(all.take(0) =~= Seq::<(int, O)>::empty());
        assert(numbered(solutions.take(0)) =~= Seq::<(int, O)>::empty());
        assert(Reorder::<O>::start().pending.dom() =~= Set::<int>::empty());
    } else {
        lemma_run_partial(solutions, order, taken - 1);
        let earlier = order.take(taken - 1);
        let arrived = order.take(taken);
        let index = order[taken - 1];
        assert(all.take(taken).drop_last() =~= all.take(taken - 1));
        assert(all.take(taken).last() == (index, solutions[index]));
        let (before, early) = Reorder::<O>::start().run(all.take(taken - 1));
        let (after, late) = before.arrive(index, solutions[index]);
        assert(Reorder::<O>::start().run(all.take(taken)) == (after, early + late));

        assert(!earlier.contains(index)) by {
            if earlier.contains(index) {
                let j = choose|j: int| 0 <= j < earlier.len() && earlier[j] == index;
                assert(order[j] == order[taken - 1]);
            }
        }
        assert forall|i: int| arrived.contains(i) <==> earlier.contains(i) || i == index by {
            if arrived.contains(i) {
                let j = choose|j: int| 0 <= j < arrived.len() && arrived[j] == i;
                if j < taken - 1 {
                    assert(earlier[j] == i);
                }
            }
            if earlier.contains(i) {
                let j = choose|j: int| 0 <= j < earlier.len() && earlier[j] == i;
                assert(arrived[j] == i);
            }
            assert(arrived[taken - 1] == index);
        }
        assert(!before.pending.contains_key(index));
        lemma_arrive(before, index, solutions[index]);
        if index == before.cursor {
            lemma_first_gap(before.pending, before.cursor + 1);
            assert(after.cursor <= solutions.len()) by {
                if after.cursor > solutions.len() {
                    let top = after.cursor - 1;
                    assert(before.pending.contains_key(top));
                    assert(earlier.contains(top));
                    let j = choose|j: int| 0 <= j < earlier.len() && earlier[j] == top;
                    assert(order[j] == top);
                }
            }
            assert(early + late =~= numbered(solutions.take(after.cursor))) by {
                assert forall|i: int| 0 <= i < after.cursor implies (early + late)[i] == (
                    i,
                    solutions[i],
                ) by {
                    if i > before.cursor {
                        assert(before.pending.contains_key(i));
                    }
                }
            }
            assert forall|i: int| 0 <= i < after.cursor implies arrived.contains(i) by {
                if i > before.cursor {
                    assert(before.pending.contains_key(i));
                }
            }
        } else {
            assert(before.cursor < index) by {
                if index < before.cursor {
                    assert(earlier.contains(index));
                }
            }
            assert(early + late =~= early);
        }
    }
}

/// When every case of a run has arrived once, in whatever order, the
/// collector has released exactly what a sequential run emits, and its
/// buffer is empty.
pub proof fn lemma_run_complete<O>(solutions: Seq<O>, order: Seq<int>)
    requires
        is_arrival_order(order, solutions.len()),
    ensures
        Reorder::<O>::start().run(deliveries(solutions, order)).1 == numbered(solutions),
        Reorder::<O>::start().run(deliveries(solutions, order)).0 == (Reorder::<O> {
            cursor: solutions.len() as int,
            pending: Map::empty(),
        }),
{
    let count = solutions.len() as int;
    let all = deliveries(solutions, order);
    lemma_run_partial(solutions, order, count);
    assert(all.take(count) =~= all);
    assert(order.take(count) =~= order);
    let (after, released) = Reorder::<O>::start().run(all);

    // Every case is among the arrivals: they are as many as the cases, no
    // two are alike, and none lies outside the run.
    let named = order.to_set();
    let cases = set_int_range(0, count);
    order.unique_seq_to_set();
    lemma_int_range(0, count);
    assert(named.subset_of(cases)) by {
        assert forall|i: int| named.contains(i) implies cases.contains(i) by {
            let j = choose|j: int| 0 <= j < order.len() && order[j] == i;
            assert(0 <= order[j] < count);
        }
    }
    lemma_len_subset(named, cases);
    lemma_subset_equality(named, cases);
    if after.cursor < count {
        assert(cases.contains(after.cursor));
        assert(named.contains(after.cursor));
        assert(order.contains(after.cursor));
    }
    assert(after.cursor == count);
    assert(solutions.take(count) =~= solutions);
    assert(after.pending =~= Map::<int, O>::empty()) by {
        assert forall|i: int| !after.pending.contains_key(i) by {
            if after.pending.contains_key(i) {
                assert(order.contains(i));
                let j = choose|j: int| 0 <= j < order.len() && order[j] == i;
                assert(0 <= order[j] < count);
            }
        }
    }
}

/// At every moment of a run in which each case arrives once, the buffer
/// holds no more solutions than have arrived and were not released, which is
/// less than the number of cases; when the last case has arrived, the buffer
/// is empty.
pub proof fn lemma_buffer_bounded<O>(solutions: Seq<O>, order: Seq<int>, taken: int)
    requires
        is_arrival_order(order, solutions.len()),
        0 <= taken <= order.len(),
    ensures
        ({
            let after = Reorder::<O>::start().run(deliveries(solutions, order).take(taken)).0;
            &&& after.pending.dom().finite()
            &&& after.pending.dom().len() == taken - after.cursor
            &&& after.pending.dom().len() <= solutions.len()
            &&& taken == order.len() ==> after.pending.dom().len() == 0
        }),
{
    lemma_run_partial(solutions, order, taken);
    if taken == order.len() {
        assert(deliveries(solutions, order).take(taken) =~= deliveries(solutions, order));
        lemma_run_complete(solutions, order);
    }
}

} // verus!
