//! The threads of a parallel run.

use crossbeam::thread::Scope;
use vstd::prelude::*;

use crate::case_index::CaseIndex;
use crate::channel::Outbox;
use crate::pipeline::{collected, dispatch, dispatched, run_in_scope, work, DispatchError};
use crate::sink::{emitted_in_order, Emitter, Sink};
use crate::source::{CaseReader, CaseSource};

verus! {

/// A scope in which threads can be started that borrow from their
/// surroundings, `crossbeam::thread::Scope`. Nothing is known of what is
/// inside.
#[verifier::external_type_specification]
#[verifier::external_body]
pub struct ExScope<'env>(Scope<'env>);

/// Starts a thread that solves one case and sends the solution, and tells
/// whether the thread was started.
///
/// Calls `spawn` of `crossbeam::thread::ScopedThreadBuilder` with a closure
/// that calls `work`, and reports the error that it returns when the system
/// starts no thread. Nothing is claimed of the result.
#[verifier::external_body]
pub(crate) fn spawn_worker<'env, G, C, O, S>(
    scope: &Scope<'env>,
    solver: &'env S,
    global: &'env G,
    case: CaseIndex,
    input: C,
    mut outbox: Outbox<(CaseIndex, O)>,
) -> (started: bool) where
    S: Fn(&G, C) -> O + Sync,
    G: Sync,
    C: Send + 'env,
    O: Send + 'env,

    requires
        call_requires(*solver, (global, input)),
{
    scope.builder().spawn(move |_| work(solver, global, case, input, &mut outbox)).is_ok()
}

/// The scope of the threads of a run together with the record of the workers
/// that were started in it, oldest first: for each, the case and the input
/// that it was handed.
#[verifier::reject_recursive_types(C)]
pub struct Crew<'scope, 'env, C> {
    scope: &'scope Scope<'env>,
    started: Ghost<Seq<(CaseIndex, C)>>,
}

impl<'scope, 'env, C> Crew<'scope, 'env, C> {
    /// What the workers that were started were handed, oldest first.
    pub closed spec fn started(&self) -> Seq<(CaseIndex, C)> {
        self.started@
    }

    /// The crew of `scope`, with no worker started yet.
    pub(crate) fn new(scope: &'scope Scope<'env>) -> (r: Self)
        ensures
            r.started() == Seq::<(CaseIndex, C)>::empty(),
    {
        Crew { scope, started: Ghost(Seq::empty()) }
    }

    /// Starts a worker for `case` with the input `input`, to send its
    /// solution through `outbox`, and tells whether the worker was started.
    pub(crate) fn start<G, O, S>(
        &mut self,
        solver: &'env S,
        global: &'env G,
        case: CaseIndex,
        input: C,
        outbox: Outbox<(CaseIndex, O)>,
    ) -> (started: bool) where
        S: Fn(&G, C) -> O + Sync,
        G: Sync,
        C: Send + 'env,
        O: Send + 'env,

        requires
            call_requires(*solver, (global, input)),
        ensures
            started ==> final(self).started() == old(self).started().push((case, input)),
            !started ==> final(self).started() == old(self).started(),
    {
        let ghost handed = (case, input);
        let started = spawn_worker(self.scope, solver, global, case, input, outbox);
        proof {
            if started {
                self.started@ = self.started@.push(handed);
            }
        }
        started
    }
}

/// Starts the thread that reads the cases and starts their workers, and
/// tells whether the thread was started. The thread leaves the outcome of
/// its work in `report`.
///
/// Calls `spawn` of `crossbeam::thread::ScopedThreadBuilder` with a closure
/// that calls `dispatch`. The thread has the source and the report to itself
/// until the scope ends, and the scope ends only when the thread has. So
/// where there is a report in the end, the thread has run `dispatch` to its
/// end, and what `dispatch` ensures of the source and of its report holds of
/// them. Nothing is claimed of the result.
#[verifier::external_body]
pub(crate) fn spawn_dispatcher<'env, T, O, S>(
    scope: &Scope<'env>,
    source: &'env mut CaseReader<T>,
    report: &'env mut Option<Result<(), DispatchError<T::CaseError>>>,
    solver: &'env S,
    global: &'env T::Global,
    count: usize,
    outbox: Outbox<(CaseIndex, O)>,
) -> (started: bool) where
    T: CaseSource + Send,
    T::Global: Sync,
    T::Case: Send + 'env,
    T::CaseError: Send + 'env,
    S: Fn(&T::Global, T::Case) -> O + Sync,
    O: Send + 'env,

    requires
        *old(report) is None,
        forall|g: &T::Global, c: T::Case| call_requires(*solver, (g, c)),
    ensures
        *final(report) matches Some(outcome) ==> dispatched(
            *old(source),
            *final(source),
            count as nat,
            outcome,
        ),
{
    scope.builder().spawn(
        move |inner| dispatch(inner, source, report, solver, global, count, outbox),
    ).is_ok()
}

/// Runs the parallel part of a run inside a scope for its threads, and
/// returns what the collector returned when all threads have ended, or
/// nothing if one of them panicked.
///
/// Calls `crossbeam::scope` with a closure that calls `run_in_scope`. The
/// scope calls the closure once, on the calling thread, and joins every
/// thread that was started in it before it returns; it returns what the
/// closure returned unless a thread panicked. So what `run_in_scope` ensures
/// of the source, of the report and of the sink holds when the scope
/// returns, and what it ensures of its result holds of the result that is
/// handed on.
#[verifier::external_body]
pub(crate) fn scoped<'env, T, P, S>(
    source: &'env mut CaseReader<T>,
    report: &'env mut Option<Result<(), DispatchError<T::CaseError>>>,
    sink: &mut Emitter<P>,
    solver: &'env S,
    global: &'env T::Global,
    count: usize,
    capacity: usize,
) -> (collect: Option<Option<Result<usize, (CaseIndex, std::io::Error)>>>) where
    T: CaseSource + Send,
    T::Global: Sync,
    T::Case: Send + 'env,
    T::CaseError: Send + 'env,
    P: Sink,
    P::Solution: Send + 'env,
    S: Fn(&T::Global, T::Case) -> P::Solution + Sync,

    requires
        *old(report) is None,
        forall|g: &T::Global, c: T::Case| call_requires(*solver, (g, c)),
    ensures
        *final(report) matches Some(outcome) ==> dispatched(
            *old(source),
            *final(source),
            count as nat,
            outcome,
        ),
        emitted_in_order(*old(sink), *final(sink), count as nat),
        collect matches Some(Some(outcome)) ==> collected(
            *old(sink),
            *final(sink),
            count as nat,
            outcome,
        ),
{
    crossbeam::scope(
        |scope| run_in_scope(scope, source, report, sink, solver, global, count, capacity),
    ).ok()
}

} // verus!
