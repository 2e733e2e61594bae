//! The consumer of the solutions of a run.

use vstd::prelude::*;

use crate::case_index::CaseIndex;

verus! {

/// An ordered output for the solutions of a run, written by the user of the
/// harness. It is handed one solution per call, with the index of its case.
pub trait Sink {
    /// The solution of one case.
    type Solution;

    /// Writes the solution of `case`.
    fn emit(&mut self, case: CaseIndex, solution: Self::Solution) -> Result<(), std::io::Error>;
}

/// A sink together with the record of what was handed to it: the solutions
/// that it took, oldest first, each with the index under which it was handed
/// over, and the failures that it reported, each with the index of the case
/// that it refused.
pub struct Emitter<P: Sink> {
    sink: P,
    emitted: Ghost<Seq<(CaseIndex, P::Solution)>>,
    refused: Ghost<Seq<(CaseIndex, std::io::Error)>>,
}

/// Whether `emitted` lists the first cases of a run in their order: its
/// first entry is for the first case, and each further entry is for the case
/// after the one before.
pub open spec fn in_run_order<O>(emitted: Seq<(CaseIndex, O)>) -> bool {
    forall|j: int| 0 <= j < emitted.len() ==> (#[trigger] emitted[j]).0@ == j
}

/// Whether the sink, on its way from the state `before` to the state
/// `after`, took nothing but the solutions of the first cases of a run of
/// `count` cases, in their order.
pub open spec fn emitted_in_order<P: Sink>(before: Emitter<P>, after: Emitter<P>, count: nat) -> bool {
    &&& after.continues(&before)
    &&& in_run_order(after.emitted_since(&before))
    &&& after.emitted_since(&before).len() <= count
}

/// Whether the sink, on its way from the state `before` to the state
/// `after`, was handed the solutions of the first `due` cases of a run, in
/// their order, until it had taken them all or had refused one: either it
/// took them all and refused nothing, or it took those before the one that
/// it refused, and that refusal is the only one and the last on record.
pub open spec fn took_or_refused<P: Sink>(before: Emitter<P>, after: Emitter<P>, due: nat) -> bool {
    let out = after.emitted_since(&before);
    &&& in_run_order(out)
    &&& {
        ||| out.len() == due && after.took(&before, out)
        ||| {
            &&& out.len() < due
            &&& after.refused().len() > 0
            &&& after.refused().last().0@ == out.len()
            &&& after.took_until(&before, out, after.refused().last())
        }
    }
}

impl<P: Sink> Emitter<P> {
    /// The sink as it is now.
    pub closed spec fn inner(&self) -> P {
        self.sink
    }

    /// What the sink took, oldest first.
    pub closed spec fn emitted(&self) -> Seq<(CaseIndex, P::Solution)> {
        self.emitted@
    }

    /// The failures that the sink reported, oldest first, each with the case
    /// whose solution it refused.
    pub closed spec fn refused(&self) -> Seq<(CaseIndex, std::io::Error)> {
        self.refused@
    }

    /// What the sink took since it was in the state `before`.
    pub open spec fn emitted_since(&self, before: &Self) -> Seq<(CaseIndex, P::Solution)> {
        self.emitted().skip(before.emitted().len() as int)
    }

    /// Whether this is a later state of `before`: what the sink had taken
    /// then, it has taken now, in the same order and before all else.
    pub open spec fn continues(&self, before: &Self) -> bool {
        &&& before.emitted().len() <= self.emitted().len()
        &&& self.emitted().take(before.emitted().len() as int) =~= before.emitted()
    }

    /// Whether this is a later state of `before` in which the sink has
    /// taken `entries` more, in this order, and has refused nothing since.
    pub open spec fn took(&self, before: &Self, entries: Seq<(CaseIndex, P::Solution)>) -> bool {
        &&& self.emitted() =~= before.emitted() + entries
        &&& self.refused() == before.refused()
    }

    /// Whether this is a later state of `before` in which the sink has
    /// taken `entries` more, in this order, and has then reported the
    /// failure `refusal`, its only one since.
    pub open spec fn took_until(
        &self,
        before: &Self,
        entries: Seq<(CaseIndex, P::Solution)>,
        refusal: (CaseIndex, std::io::Error),
    ) -> bool {
        &&& self.emitted() =~= before.emitted() + entries
        &&& self.refused() =~= before.refused().push(refusal)
    }

    /// An emitter for `sink` to which nothing was handed yet.
    pub fn new(sink: P) -> (r: Self)
        ensures
            r.inner() == sink,
            r.emitted() == Seq::<(CaseIndex, P::Solution)>::empty(),
            r.refused() == Seq::<(CaseIndex, std::io::Error)>::empty(),
    {
        Emitter { sink, emitted: Ghost(Seq::empty()), refused: Ghost(Seq::empty()) }
    }

    /// Hands the solution of `case` to the sink.
    pub fn emit(&mut self, case: CaseIndex, solution: P::Solution) -> (r: Result<
        (),
        std::io::Error,
    >)
        ensures
            match r {
                Ok(()) => {
                    &&& final(self).emitted() == old(self).emitted().push((case, solution))
                    &&& final(self).refused() == old(self).refused()
                },
                Err(failure) => {
                    &&& final(self).emitted() == old(self).emitted()
                    &&& final(self).refused() == old(self).refused().push((case, failure))
                },
            },
    {
        let ghost entry = (case, solution);
        let r = self.sink.emit(case, solution);
        proof {
            if r is Ok {
                self.emitted@ = self.emitted@.push(entry);
            } else {
                self.refused@ = self.refused@.push((case, r->Err_0));
            }
        }
        r
    }

    /// The sink.
    pub fn sink(&self) -> (r: &P)
        ensures
            *r == self.inner(),
    {
        &self.sink
    }

    /// Gives the sink back.
    pub fn into_sink(self) -> (r: P)
        ensures
            r == self.inner(),
    {
        self.sink
    }
}

} // verus!
