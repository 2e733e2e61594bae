//! The producer of the inputs of a run.

use vstd::prelude::*;

verus! {

/// A sequential reader of the inputs of a run, written by the user of the
/// harness. It yields the shared context and the number of cases once, and
/// then the input of one case per call, in case order. It is never called
/// from two threads at once.
pub trait CaseSource {
    /// The context that all cases of a run share.
    type Global;

    /// The input of one case.
    type Case;

    /// Why the context could not be read.
    type GlobalError;

    /// Why the input of a case could not be read.
    type CaseError;

    /// Reads the shared context and the number of cases.
    fn start(&mut self) -> Result<(Self::Global, usize), Self::GlobalError>;

    /// Reads the input of the next case.
    fn next_case(&mut self) -> Result<Self::Case, Self::CaseError>;
}

/// A source together with the record of the inputs that were asked of it:
/// the inputs that it gave, and the failures that it reported in place of
/// an input.
pub struct CaseReader<T: CaseSource> {
    source: T,
    delivered: Ghost<Seq<T::Case>>,
    refused: Ghost<Seq<T::CaseError>>,
}

impl<T: CaseSource> CaseReader<T> {
    /// The source as it is now.
    pub closed spec fn inner(&self) -> T {
        self.source
    }

    /// The inputs that the source gave, oldest first.
    pub closed spec fn delivered(&self) -> Seq<T::Case> {
        self.delivered@
    }

    /// The failures that the source reported in place of an input, oldest
    /// first.
    pub closed spec fn refused(&self) -> Seq<T::CaseError> {
        self.refused@
    }

    /// The inputs that the source gave since it was in the state `before`.
    pub open spec fn delivered_since(&self, before: &Self) -> Seq<T::Case> {
        self.delivered().skip(before.delivered().len() as int)
    }

    /// Whether this is a later state of `before` in which the source has
    /// given `cases` more, in this order.
    pub open spec fn read(&self, before: &Self, cases: Seq<T::Case>) -> bool {
        self.delivered() =~= before.delivered() + cases
    }

    /// Whether this is a later state of `before` in which the source has
    /// given `cases` more, in this order, and has reported no failure since.
    pub open spec fn gave(&self, before: &Self, cases: Seq<T::Case>) -> bool {
        &&& self.delivered() =~= before.delivered() + cases
        &&& self.refused() == before.refused()
    }

    /// Whether this is a later state of `before` in which the source has
    /// given `cases` more, in this order, and has then reported the failure
    /// `failure`, its only one since.
    pub open spec fn gave_until(
        &self,
        before: &Self,
        cases: Seq<T::Case>,
        failure: T::CaseError,
    ) -> bool {
        &&& self.delivered() =~= before.delivered() + cases
        &&& self.refused() =~= before.refused().push(failure)
    }

    /// Asks the source for the input of the next case.
    pub fn next_case(&mut self) -> (r: Result<T::Case, T::CaseError>)
        ensures
            match r {
                Ok(input) => {
                    &&& final(self).delivered() == old(self).delivered().push(input)
                    &&& final(self).refused() == old(self).refused()
                },
                Err(failure) => {
                    &&& final(self).delivered() == old(self).delivered()
                    &&& final(self).refused() == old(self).refused().push(failure)
                },
            },
    {
        let r = self.source.next_case();
        proof {
            if r is Ok {
                self.delivered@ = self.delivered@.push(r->Ok_0);
            } else {
                self.refused@ = self.refused@.push(r->Err_0);
            }
        }
        r
    }
}

/// A source together with the record of what was asked of it: what it
/// answered each time it was asked for the context, the inputs that it gave,
/// and the failures that it reported when asked for an input.
pub struct Reader<T: CaseSource> {
    cases: CaseReader<T>,
    opened: Ghost<Seq<Result<(T::Global, usize), T::GlobalError>>>,
}

impl<T: CaseSource> Reader<T> {
    /// The source with the record of the inputs that were asked of it.
    pub closed spec fn cases(&self) -> CaseReader<T> {
        self.cases
    }

    /// What the source answered each time it was asked for the context,
    /// oldest first: the context and the number of cases, or its failure.
    pub closed spec fn opened(&self) -> Seq<Result<(T::Global, usize), T::GlobalError>> {
        self.opened@
    }

    /// The source as it is now.
    pub open spec fn inner(&self) -> T {
        self.cases().inner()
    }

    /// The inputs that the source gave since it was in the state `before`.
    pub open spec fn delivered_since(&self, before: &Self) -> Seq<T::Case> {
        self.cases().delivered_since(&before.cases())
    }

    /// Whether this is a later state of `before` in which the source has
    /// given `cases` more, in this order.
    pub open spec fn read(&self, before: &Self, cases: Seq<T::Case>) -> bool {
        self.cases().read(&before.cases(), cases)
    }

    /// Whether this is a later state of `before` in which the source has
    /// given `cases` more, in this order, and has reported no failure since.
    pub open spec fn gave(&self, before: &Self, cases: Seq<T::Case>) -> bool {
        self.cases().gave(&before.cases(), cases)
    }

    /// Whether this is a later state of `before` in which the source has
    /// given `cases` more, in this order, and has then reported the failure
    /// `failure`, its only one since.
    pub open spec fn gave_until(
        &self,
        before: &Self,
        cases: Seq<T::Case>,
        failure: T::CaseError,
    ) -> bool {
        self.cases().gave_until(&before.cases(), cases, failure)
    }

    /// Whether this is the state `before` after the source was asked for the
    /// context once more and answered `answer`, and nothing else.
    pub open spec fn asked(
        &self,
        before: &Self,
        answer: Result<(T::Global, usize), T::GlobalError>,
    ) -> bool {
        &&& self.opened() == before.opened().push(answer)
        &&& self.cases().delivered() == before.cases().delivered()
        &&& self.cases().refused() == before.cases().refused()
    }

    /// A reader of `source` of which nothing was asked yet.
    pub fn new(source: T) -> (r: Self)
        ensures
            r.inner() == source,
            r.opened() == Seq::<Result<(T::Global, usize), T::GlobalError>>::empty(),
            r.cases().delivered() == Seq::<T::Case>::empty(),
            r.cases().refused() == Seq::<T::CaseError>::empty(),
    {
        Reader {
            cases: CaseReader {
                source,
                delivered: Ghost(Seq::empty()),
                refused: Ghost(Seq::empty()),
            },
            opened: Ghost(Seq::empty()),
        }
    }

    /// Asks the source for the shared context and the number of cases.
    pub fn start(&mut self) -> (r: Result<(T::Global, usize), T::GlobalError>)
        ensures
            final(self).asked(old(self), r),
    {
        let r = self.cases.source.start();
        proof {
            self.opened@ = self.opened@.push(r);
        }
        r
    }

    /// Asks the source for the input of the next case.
    pub fn next_case(&mut self) -> (r: Result<T::Case, T::CaseError>)
        ensures
            final(self).opened() == old(self).opened(),
            match r {
                Ok(input) => {
                    &&& final(self).cases().delivered() == old(self).cases().delivered().push(
                        input,
                    )
                    &&& final(self).cases().refused() == old(self).cases().refused()
                },
                Err(failure) => {
                    &&& final(self).cases().delivered() == old(self).cases().delivered()
                    &&& final(self).cases().refused() == old(self).cases().refused().push(
                        failure,
                    )
                },
            },
    {
        self.cases.next_case()
    }

    /// Lends the part that reads the cases. What is asked of the source
    /// through it is on this reader's record when the loan ends, and the
    /// record of the requests for the context stays as it is.
    pub fn cases_mut(&mut self) -> (r: &mut CaseReader<T>)
        ensures
            *r == old(self).cases(),
            final(self).cases() == *final(r),
            final(self).opened() == old(self).opened(),
    {
        &mut self.cases
    }

    /// The source.
    pub fn source(&self) -> (r: &T)
        ensures
            *r == self.inner(),
    {
        &self.cases.source
    }

    /// Gives the source back.
    pub fn into_source(self) -> (r: T)
        ensures
            r == self.inner(),
    {
        self.cases.source
    }
}

} // verus!
