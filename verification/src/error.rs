//! The failures that end a run.

use std::fmt::Display;
use vstd::prelude::*;
use vstd::string::{to_string_from_display_ensures, StringExecFns};

use crate::case_index::{label_of, CaseIndex};

verus! {

/// The failure of an input or output operation, `std::io::Error`. Nothing
/// is known of what is inside.
#[verifier::external_type_specification]
#[verifier::external_body]
pub struct ExIoError(std::io::Error);

/// What went wrong with one case.
#[derive(Debug)]
pub enum CaseErrorKind<E> {
    /// The input of the case could not be read.
    Load(E),
    /// The solution of the case could not be written.
    Print(std::io::Error),
}

/// A failure tied to the case at which it happened.
#[derive(Debug)]
pub struct CaseError<E> {
    pub case: CaseIndex,
    pub error: CaseErrorKind<E>,
}

/// The text of a report: what failed, at which case, and why.
pub open spec fn report(headline: Seq<char>, case: Seq<char>, cause: Seq<char>) -> Seq<char> {
    headline + seq![' '] + case + seq![':', ' '] + cause
}

impl<E> CaseErrorKind<E> {
    /// The words with which a report of this failure begins.
    pub open spec fn headline_of(self) -> Seq<char> {
        match self {
            CaseErrorKind::Load(_) => "error loading data for"@,
            CaseErrorKind::Print(_) => "error writing solution to"@,
        }
    }

    /// The words with which a report of this failure begins; the case and
    /// the cause follow them.
    pub fn headline(&self) -> (r: &'static str)
        ensures
            r@ == self.headline_of(),
    {
        match self {
            CaseErrorKind::Load(_) => "error loading data for",
            CaseErrorKind::Print(_) => "error writing solution to",
        }
    }
}

impl<E: Display> CaseErrorKind<E> {
    /// Whether `cause` is how the underlying failure words itself.
    pub open spec fn worded(self, cause: String) -> bool {
        match self {
            CaseErrorKind::Load(err) => to_string_from_display_ensures(&err, cause),
            CaseErrorKind::Print(err) => to_string_from_display_ensures(&err, cause),
        }
    }
}

impl<E> CaseError<E> {
    /// The failure `error` at the case `case`.
    pub fn new(case: CaseIndex, error: CaseErrorKind<E>) -> (r: Self)
        ensures
            r == (CaseError { case, error }),
    {
        CaseError { case, error }
    }

    /// The failure to read the input of `case`.
    pub fn load_error(case: CaseIndex, err: E) -> (r: Self)
        ensures
            r == (CaseError { case, error: CaseErrorKind::Load(err) }),
    {
        CaseError::new(case, CaseErrorKind::Load(err))
    }

    /// The failure to write the solution of `case`.
    pub fn print_error(case: CaseIndex, err: std::io::Error) -> (r: Self)
        ensures
            r == (CaseError { case, error: CaseErrorKind::<E>::Print(err) }),
    {
        CaseError::new(case, CaseErrorKind::Print(err))
    }

    /// The case at which the run failed.
    pub fn case(&self) -> (r: CaseIndex)
        ensures
            r == self.case,
    {
        self.case
    }

    /// Whether the input of the case could not be read.
    pub fn is_load(&self) -> (r: bool)
        ensures
            r == (self.error is Load),
    {
        match self.error {
            CaseErrorKind::Load(_) => true,
            CaseErrorKind::Print(_) => false,
        }
    }

    /// Whether the solution of the case could not be written.
    pub fn is_print(&self) -> (r: bool)
        ensures
            r == (self.error is Print),
    {
        match self.error {
            CaseErrorKind::Load(_) => false,
            CaseErrorKind::Print(_) => true,
        }
    }
}

impl<E: Display> CaseError<E> {
    /// The report of this failure: the headline of its kind, the name of the
    /// case, and the cause in the words of the underlying failure.
    pub fn message(&self) -> (r: String)
        ensures
            exists|cause: String| #[trigger]
                self.error.worded(cause) && r@ == report(
                    self.error.headline_of(),
                    label_of(self.case@),
                    cause@,
                ),
    {
        let cause = match &self.error {
            CaseErrorKind::Load(err) => err.to_string(),
            CaseErrorKind::Print(err) => err.to_string(),
        };
        let label = self.case.label();
        let mut text = self.error.headline().to_owned();
        proof {
            reveal_strlit(" ");
            reveal_strlit(": ");
        }
        text.append(" ");
        text.append(label.as_str());
        text.append(": ");
        text.append(cause.as_str());
        proof {
            assert(self.error.worded(cause));
            assert(text@ =~= report(self.error.headline_of(), label_of(self.case@), cause@));
        }
        text
    }
}

/// A fault of the run's own machinery, as opposed to a failure of the source
/// or of the sink.
#[derive(Clone, Copy, Debug, PartialEq, Eq, Structural)]
pub enum WorkerFault {
    /// No worker could be started for the case.
    NotStarted(CaseIndex),
    /// Every worker has finished, and the solution of the case has not
    /// arrived.
    Missing(CaseIndex),
    /// A thread of the run could not be started, or one ended abnormally.
    Halted,
}

impl WorkerFault {
    /// The report of this fault.
    pub open spec fn message_of(self) -> Seq<char> {
        match self {
            WorkerFault::NotStarted(case) => "no worker could be started for "@ + label_of(case@),
            WorkerFault::Missing(case) => "no solution arrived for "@ + label_of(case@),
            WorkerFault::Halted => "a worker thread ended abnormally"@,
        }
    }

    /// The report of this fault.
    pub fn message(&self) -> (r: String)
        ensures
            r@ == self.message_of(),
    {
        match self {
            WorkerFault::NotStarted(case) => {
                let mut text = "no worker could be started for ".to_owned();
                text.append(case.label().as_str());
                text
            },
            WorkerFault::Missing(case) => {
                let mut text = "no solution arrived for ".to_owned();
                text.append(case.label().as_str());
                text
            },
            WorkerFault::Halted => "a worker thread ended abnormally".to_owned(),
        }
    }
}

/// The failure of a run.
#[derive(Debug)]
pub enum ExecutionError<E1, E2> {
    /// The shared context could not be read; no case was processed.
    Global(E1),
    /// The input of a case could not be read, or its solution could not be
    /// written.
    Case(CaseError<E2>),
    /// A worker did not do its part.
    Worker(WorkerFault),
}

impl<E1, E2> ExecutionError<E1, E2> {
    /// The failure to read the shared context.
    pub fn global_error(err: E1) -> (r: Self)
        ensures
            r == ExecutionError::<E1, E2>::Global(err),
    {
        ExecutionError::Global(err)
    }

    /// The failure to read the input of `case`.
    pub fn load_error(case: CaseIndex, err: E2) -> (r: Self)
        ensures
            r == ExecutionError::<E1, E2>::Case(
                CaseError { case, error: CaseErrorKind::Load(err) },
            ),
    {
        ExecutionError::Case(CaseError::load_error(case, err))
    }

    /// The failure to write the solution of `case`.
    pub fn print_error(case: CaseIndex, err: std::io::Error) -> (r: Self)
        ensures
            r == ExecutionError::<E1, E2>::Case(
                CaseError { case, error: CaseErrorKind::Print(err) },
            ),
    {
        ExecutionError::Case(CaseError::print_error(case, err))
    }

    /// The fault `fault` of a worker.
    pub fn worker_fault(fault: WorkerFault) -> (r: Self)
        ensures
            r == ExecutionError::<E1, E2>::Worker(fault),
    {
        ExecutionError::Worker(fault)
    }
}

impl<E1: Display, E2: Display> ExecutionError<E1, E2> {
    /// The report of this failure: for a failure to read the shared context,
    /// the words of that failure; for a failure at a case, the report of
    /// that; for a fault of a worker, the report of the fault.
    pub fn message(&self) -> (r: String)
        ensures
            match *self {
                ExecutionError::Global(err) => to_string_from_display_ensures(&err, r),
                ExecutionError::Case(err) => exists|cause: String| #[trigger]
                    err.error.worded(cause) && r@ == report(
                        err.error.headline_of(),
                        label_of(err.case@),
                        cause@,
                    ),
                ExecutionError::Worker(fault) => r@ == fault.message_of(),
            },
    {
        match self {
            ExecutionError::Global(err) => err.to_string(),
            ExecutionError::Case(err) => err.message(),
            ExecutionError::Worker(fault) => fault.message(),
        }
    }
}

} // verus!
