//! The collector: the reorder buffer and its cursor, as executable state.

use std::collections::HashMap;
use vstd::prelude::*;
use vstd::set_lib::{lemma_int_range, lemma_len_subset, lemma_map_size, set_int_range};

use crate::case_index::CaseIndex;
use crate::reorder::{lemma_gap_is_first, Reorder};

verus! {

/// Takes the solutions of a run in the order in which they arrive and
/// releases them in the order of their cases.
pub struct Collector<O> {
    cursor: usize,
    pending: HashMap<usize, O>,
}

/// A buffer keyed by machine integers, as a buffer keyed by integers.
pub open spec fn buffer_of<O>(pending: Map<usize, O>) -> Map<int, O> {
    Map::new(
        |k: int| 0 <= k <= usize::MAX && pending.contains_key(k as usize),
        |k: int| pending[k as usize],
    )
}

/// Released solutions, each with the index of its case as an integer.
pub open spec fn releases<O>(released: Seq<(CaseIndex, O)>) -> Seq<(int, O)> {
    released.map_values(|r: (CaseIndex, O)| (r.0@ as int, r.1))
}

proof fn lemma_buffer_size<O>(pending: Map<usize, O>)
    requires
        pending.dom().finite(),
    ensures
        buffer_of(pending).dom().finite(),
        buffer_of(pending).dom().len() == pending.dom().len(),
{
    let widen = |k: usize| k as int;
    pending.dom().lemma_map_finite(widen);
    assert(buffer_of(pending).dom() =~= pending.dom().map(widen)) by {
        assert forall|k: int| buffer_of(pending).dom().contains(k) implies pending.dom().map(
            widen,
        ).contains(k) by {
            assert(pending.dom().contains(k as usize) && widen(k as usize) == k);
        }
    }
    assert(vstd::relations::injective(widen));
    lemma_map_size(pending.dom(), buffer_of(pending).dom(), widen);
}

impl<O> View for Collector<O> {
    type V = Reorder<O>;

    closed spec fn view(&self) -> Reorder<O> {
        Reorder { cursor: self.cursor as int, pending: buffer_of(self.pending@) }
    }
}

impl<O> Collector<O> {
    /// A collector that expects the first case and holds nothing.
    pub fn new() -> (r: Self)
        ensures
            r@ == Reorder::<O>::start(),
    {
        let r = Collector { cursor: 0, pending: HashMap::new() };
        proof {
            assert(buffer_of(r.pending@) =~= Map::<int, O>::empty());
        }
        r
    }

    /// The buffer of a collector is finite, and the cursor is no index of the
    /// past.
    pub proof fn lemma_bounds(&self)
        ensures
            self@.pending.dom().finite(),
            0 <= self@.cursor <= usize::MAX,
    {
        broadcast use vstd::std_specs::hash::group_hash_axioms;

        lemma_buffer_size(self.pending@);
    }

    /// The index of the case that is released next.
    pub fn cursor(&self) -> (r: CaseIndex)
        ensures
            r@ == self@.cursor,
    {
        CaseIndex(self.cursor)
    }

    /// The number of solutions that wait in the buffer.
    pub fn buffered(&self) -> (r: usize)
        ensures
            r == self@.pending.dom().len(),
    {
        broadcast use vstd::std_specs::hash::group_hash_axioms;

        proof {
            lemma_buffer_size(self.pending@);
        }
        self.pending.len()
    }

    /// Takes the solution of `case` as it arrives, and returns the solutions
    /// that this arrival releases, in case order.
    ///
    /// The solution of the case at the cursor is released at once, together
    /// with the solutions that wait for the cases right after it; the cursor
    /// then stands behind the last of them. Any other solution is put in the
    /// buffer, and nothing is released.
    pub fn accept(&mut self, case: CaseIndex, solution: O) -> (released: Vec<(CaseIndex, O)>)
        requires
            old(self)@.held() < usize::MAX,
        ensures
            (final(self)@, releases(released@)) == old(self)@.arrive(case@ as int, solution),
    {
        broadcast use vstd::std_specs::hash::group_hash_axioms;

        let mut released: Vec<(CaseIndex, O)> = Vec::new();
        let ghost before = self.pending@;
        let ghost waiting = buffer_of(self.pending@);
        let ghost index = self.cursor as int;
        let ghost from = index + 1;
        proof {
            lemma_buffer_size(before);
        }
        if case.0 != self.cursor {
            self.pending.insert(case.0, solution);
            proof {
                assert(buffer_of(self.pending@) =~= waiting.insert(case@ as int, solution));
                assert(releases(released@) =~= Seq::<(int, O)>::empty());
            }
            return released;
        }
        released.push((case, solution));
        self.cursor = self.cursor + 1;
        proof {
            assert(buffer_of(self.pending@) =~= waiting.remove_keys(set_int_range(from, from)));
            assert(releases(released@) =~= seq![(index, solution)] + Seq::new(
                0,
                |i: int| (from + i, waiting[from + i]),
            ));
        }
        loop
            invariant
                waiting.dom().finite(),
                index + waiting.dom().len() < usize::MAX,
                from == index + 1,
                from <= self.cursor,
                forall|j: int| from <= j < self.cursor ==> waiting.contains_key(j),
                buffer_of(self.pending@) == waiting.remove_keys(
                    set_int_range(from, self.cursor as int),
                ),
                releases(released@) == seq![(index, solution)] + Seq::new(
                    (self.cursor - from) as nat,
                    |i: int| (from + i, waiting[from + i]),
                ),
            ensures
                !waiting.contains_key(self.cursor as int),
            decreases self.pending@.dom().len(),
        {
            let ghost at = self.cursor as int;
            let ghost key = self.cursor;
            let ghost so_far = released@;
            let ghost held = self.pending@;
            match self.pending.remove(&self.cursor) {
                None => {
                    proof {
                        assert(!buffer_of(held).contains_key(at));
                    }
                    break ;
                },
                Some(next) => {
                    proof {
                        assert(held.contains_key(key) && held[key] == next);
                        assert(buffer_of(held).contains_key(at) && buffer_of(held)[at] == next);
                        assert(waiting.contains_key(at) && waiting[at] == next);
                        assert(at < usize::MAX) by {
                            lemma_int_range(from, at + 1);
                            assert(set_int_range(from, at + 1).subset_of(waiting.dom()));
                            lemma_len_subset(set_int_range(from, at + 1), waiting.dom());
                        }
                    }
                    released.push((CaseIndex(self.cursor), next));
                    self.cursor = self.cursor + 1;
                    proof {
                        assert(self.pending@ == held.remove(key));
                        assert(buffer_of(held.remove(key)) =~= buffer_of(held).remove(at));
                        assert(buffer_of(self.pending@) =~= waiting.remove_keys(
                            set_int_range(from, at + 1),
                        ));
                        assert(releases(released@) =~= releases(so_far).push((at, next)));
                        assert(releases(released@) =~= seq![(index, solution)] + Seq::new(
                            (at + 1 - from) as nat,
                            |i: int| (from + i, waiting[from + i]),
                        ));
                    }
                },
            }
        }
        proof {
            lemma_gap_is_first(waiting, from, self.cursor as int);
        }
        released
    }
}

} // verus!
