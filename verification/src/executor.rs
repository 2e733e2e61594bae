//! The two ways to run a batch: one case after the other, or the cases in
//! parallel. Both read the cases in order and emit the solutions in order.

use vstd::prelude::*;

use crate::case_index::CaseIndex;
use crate::collector::releases;
use crate::error::{CaseError, CaseErrorKind, ExecutionError, WorkerFault};
use crate::pipeline::{conclude, DispatchError};
use crate::reorder::{deliveries, is_arrival_order, lemma_run_complete, numbered, Reorder};
use crate::sink::{emitted_in_order, took_or_refused, Emitter, Sink};
use crate::source::{CaseSource, Reader};
use crate::workers::scoped;

verus! {

/// Whether a run of `count` cases that ended with `outcome` took the source
/// and the sink from their states `before` to their states `after`.
///
/// However the run ended, the sink took the solutions of the first cases in
/// their order, and no more than there are cases. A run of no cases
/// succeeds.
///
/// After a run that succeeds, the source has given every case and the sink
/// has taken every case, and neither has reported a failure. A run that
/// fails because a case could not be read names that case and carries the
/// failure of the source: the source gave every case before it and was asked
/// for none after it, and the sink has taken every case before it, or those
/// before one that it refused. A run that fails because a solution could not
/// be written names the case of that solution and carries the failure of
/// the sink: it is the case after the last that the sink took, and its input
/// was read. The fault of a worker that could not be started names the case
/// that was read last, and the sink has taken every case before it, or those
/// before one that it refused. The fault of a missing solution names the
/// case after the last that the sink took, a case whose input was read.
pub open spec fn run<T: CaseSource, P: Sink>(
    before: (Reader<T>, Emitter<P>),
    after: (Reader<T>, Emitter<P>),
    count: nat,
    outcome: Result<(), ExecutionError<T::GlobalError, T::CaseError>>,
) -> bool {
    let cases = after.0.delivered_since(&before.0);
    let out = after.1.emitted_since(&before.1);
    &&& emitted_in_order(before.1, after.1, count)
    &&& count == 0 ==> outcome is Ok
    &&& match outcome {
        Ok(()) => {
            &&& cases.len() == count
            &&& after.0.gave(&before.0, cases)
            &&& out.len() == count
            &&& after.1.took(&before.1, out)
        },
        Err(ExecutionError::Global(_)) => false,
        Err(ExecutionError::Case(e)) => match e.error {
            CaseErrorKind::Load(failure) => {
                &&& e.case@ < count
                &&& cases.len() == e.case@
                &&& after.0.gave_until(&before.0, cases, failure)
                &&& took_or_refused(before.1, after.1, e.case@)
            },
            CaseErrorKind::Print(failure) => {
                &&& e.case@ == out.len()
                &&& e.case@ < cases.len() <= count
                &&& after.0.gave(&before.0, cases)
                &&& after.1.took_until(&before.1, out, (e.case, failure))
            },
        },
        Err(ExecutionError::Worker(fault)) => match fault {
            WorkerFault::NotStarted(case) => {
                &&& case@ < count
                &&& cases.len() == case@ + 1
                &&& after.0.gave(&before.0, cases)
                &&& took_or_refused(before.1, after.1, case@)
            },
            WorkerFault::Missing(case) => {
                &&& case@ == out.len()
                &&& case@ < cases.len() <= count
                &&& after.0.read(&before.0, cases)
                &&& after.1.took(&before.1, out)
            },
            WorkerFault::Halted => true,
        },
    }
}

/// Whether a whole batch that ended with `outcome` took the source and the
/// sink from their states `before` to their states `after`.
///
/// The source was asked for the shared context once, before all else. Where
/// it failed, the batch fails with that failure, no case was asked for and
/// nothing was handed to the sink. Where it gave a context and a number of
/// cases, the batch went on as a run of that many cases.
pub open spec fn batch<T: CaseSource, P: Sink>(
    before: (Reader<T>, Emitter<P>),
    after: (Reader<T>, Emitter<P>),
    outcome: Result<(), ExecutionError<T::GlobalError, T::CaseError>>,
) -> bool {
    let answer = after.0.opened().last();
    &&& after.0.opened() == before.0.opened().push(answer)
    &&& match answer {
        Err(failure) => {
            &&& outcome matches Err(ExecutionError::Global(carried))
            &&& carried == failure
            &&& after.0.gave(&before.0, Seq::empty())
            &&& after.1.took(&before.1, Seq::empty())
        },
        Ok(context) => run(before, after, context.1 as nat, outcome),
    }
}

/// Whether a sequential run of `count` cases that ended with `outcome` took
/// the source and the sink from their states `before` to their states
/// `after`.
///
/// The sink took the solutions of the first cases in their order, each the
/// answer of `solver` to the input that the source gave for the case. A run
/// that succeeds has read and emitted every case, and neither the source nor
/// the sink reported a failure. A run that fails names the case at which it
/// stopped and carries the one failure that was reported, of the source or
/// of the sink: all cases before that case were emitted, no case after it
/// was read, and the case itself was read unless reading it was what failed.
pub open spec fn sequential_run<T, P, S>(
    before: (Reader<T>, Emitter<P>),
    after: (Reader<T>, Emitter<P>),
    solver: S,
    global: T::Global,
    count: nat,
    outcome: Result<(), CaseError<T::CaseError>>,
) -> bool where T: CaseSource, P: Sink, S: Fn(&T::Global, T::Case) -> P::Solution {
    let cases = after.0.delivered_since(&before.0);
    let out = after.1.emitted_since(&before.1);
    &&& after.1.continues(&before.1)
    &&& out.len() <= cases.len() <= count
    &&& forall|j: int|
        0 <= j < out.len() ==> (#[trigger] out[j]).0@ == j && call_ensures(
            solver,
            (&global, cases[j]),
            out[j].1,
        )
    &&& match outcome {
        Ok(()) => {
            &&& out.len() == count
            &&& after.0.gave(&before.0, cases)
            &&& after.1.took(&before.1, out)
        },
        Err(e) => {
            &&& e.case@ < count
            &&& out.len() == e.case@
            &&& match e.error {
                CaseErrorKind::Load(failure) => {
                    &&& cases.len() == e.case@
                    &&& after.0.gave_until(&before.0, cases, failure)
                    &&& after.1.took(&before.1, out)
                },
                CaseErrorKind::Print(failure) => {
                    &&& cases.len() == e.case@ + 1
                    &&& after.0.gave(&before.0, cases)
                    &&& after.1.took_until(&before.1, out, (e.case, failure))
                },
            }
        },
    }
}

/// Whether a sequential batch that ended with `outcome` took the source and
/// the sink from their states `before` to their states `after`.
///
/// The source was asked for the shared context once, before all else. Where
/// it failed, the batch fails with that failure, no case was asked for and
/// nothing was handed to the sink. Where it gave a context and a number of
/// cases, the batch went on as a sequential run of that many cases under
/// that context, and no worker was involved.
pub open spec fn sequential_batch<T, P, S>(
    before: (Reader<T>, Emitter<P>),
    after: (Reader<T>, Emitter<P>),
    solver: S,
    outcome: Result<(), ExecutionError<T::GlobalError, T::CaseError>>,
) -> bool where T: CaseSource, P: Sink, S: Fn(&T::Global, T::Case) -> P::Solution {
    let answer = after.0.opened().last();
    &&& after.0.opened() == before.0.opened().push(answer)
    &&& match answer {
        Err(failure) => {
            &&& outcome matches Err(ExecutionError::Global(carried))
            &&& carried == failure
            &&& after.0.gave(&before.0, Seq::empty())
            &&& after.1.took(&before.1, Seq::empty())
        },
        Ok(context) => match outcome {
            Ok(()) => sequential_run(before, after, solver, context.0, context.1 as nat, Ok(())),
            Err(ExecutionError::Case(e)) => sequential_run(
                before,
                after,
                solver,
                context.0,
                context.1 as nat,
                Err(e),
            ),
            _ => false,
        },
    }
}

/// A way to run a batch: to read the shared context and the number of cases
/// from the source, to solve every case, and to hand the solutions to the
/// sink in case order.
pub trait Executor<T, P, S> where
    T: CaseSource,
    P: Sink,
    S: Fn(&T::Global, T::Case) -> P::Solution,
 {
    /// Runs a whole batch.
    fn execute(source: &mut Reader<T>, sink: &mut Emitter<P>, solver: &S) -> (r: Result<
        (),
        ExecutionError<T::GlobalError, T::CaseError>,
    >)
        requires
            forall|g: &T::Global, c: T::Case| call_requires(*solver, (g, c)),
        ensures
            batch((*old(source), *old(sink)), (*final(source), *final(sink)), r),
    ;
}

/// Runs the cases one after the other: each case is read, solved and emitted
/// before the next is read.
pub struct SequentialExecutor;

impl SequentialExecutor {
    /// Runs `count` cases that share the context `global`.
    pub fn run_cases<T, P, S>(
        source: &mut Reader<T>,
        sink: &mut Emitter<P>,
        solver: &S,
        global: &T::Global,
        count: usize,
    ) -> (r: Result<(), CaseError<T::CaseError>>) where
        T: CaseSource,
        P: Sink,
        S: Fn(&T::Global, T::Case) -> P::Solution,

        requires
            forall|g: &T::Global, c: T::Case| call_requires(*solver, (g, c)),
        ensures
            final(source).opened() == old(source).opened(),
            sequential_run(
                (*old(source), *old(sink)),
                (*final(source), *final(sink)),
                *solver,
                *global,
                count as nat,
                r,
            ),
    {
        let ghost source0 = *source;
        let ghost sink0 = *sink;
        let mut done: usize = 0;
        while done < count
            invariant
                done <= count,
                source0 == *old(source),
                sink0 == *old(sink),
                forall|g: &T::Global, c: T::Case| call_requires(*solver, (g, c)),
                source.opened() == source0.opened(),
                source.gave(&source0, source.delivered_since(&source0)),
                sink.took(&sink0, sink.emitted_since(&sink0)),
                source.delivered_since(&source0).len() == done,
                sink.emitted_since(&sink0).len() == done,
                forall|j: int|
                    0 <= j < done ==> (#[trigger] sink.emitted_since(&sink0)[j]).0@ == j
                        && call_ensures(
                        *solver,
                        (global, source.delivered_since(&source0)[j]),
                        sink.emitted_since(&sink0)[j].1,
                    ),
            decreases count - done,
        {
            let case = CaseIndex::at(done);
            let ghost cases = source.delivered_since(&source0);
            let ghost out = sink.emitted_since(&sink0);
            match source.next_case() {
                Err(e) => {
                    proof {
                        assert(source.delivered_since(&source0) =~= cases);
                    }
                    return Err(CaseError::load_error(case, e));
                },
                Ok(input) => {
                    proof {
                        assert(source.delivered_since(&source0) =~= cases.push(input));
                    }
                    let solution = solver(global, input);
                    let ghost answer = solution;
                    match sink.emit(case, solution) {
                        Err(e) => {
                            proof {
                                assert(sink.emitted_since(&sink0) =~= out);
                            }
                            return Err(CaseError::print_error(case, e));
                        },
                        Ok(()) => {
                            proof {
                                assert(sink.emitted_since(&sink0) =~= out.push((case, answer)));
                            }
                        },
                    }
                },
            }
            done = done + 1;
        }
        Ok(())
    }
}

/// A sequential run is a run: what every run says of the source and of the
/// sink, a sequential run says too.
pub proof fn lemma_sequential_run_is_run<T, P, S>(
    before: (Reader<T>, Emitter<P>),
    after: (Reader<T>, Emitter<P>),
    solver: S,
    global: T::Global,
    count: nat,
    outcome: Result<(), CaseError<T::CaseError>>,
) where T: CaseSource, P: Sink, S: Fn(&T::Global, T::Case) -> P::Solution
    requires
        sequential_run(before, after, solver, global, count, outcome),
    ensures
        run(
            before,
            after,
            count,
            match outcome {
                Ok(()) => Ok(()),
                Err(e) => Err(ExecutionError::Case(e)),
            },
        ),
{
}

impl<T, P, S> Executor<T, P, S> for SequentialExecutor where
    T: CaseSource,
    P: Sink,
    S: Fn(&T::Global, T::Case) -> P::Solution,
 {
    /// Reads the shared context and the number of cases, then runs the cases
    /// one after the other.
    fn execute(source: &mut Reader<T>, sink: &mut Emitter<P>, solver: &S) -> (r: Result<
        (),
        ExecutionError<T::GlobalError, T::CaseError>,
    >)
        ensures
            sequential_batch((*old(source), *old(sink)), (*final(source), *final(sink)), *solver, r),
    {
        match source.start() {
            Err(err) => {
                proof {
                    assert(sink.emitted() =~= old(sink).emitted() + Seq::empty());
                    assert(source.cases().delivered() =~= old(source).cases().delivered()
                        + Seq::empty());
                }
                Err(ExecutionError::global_error(err))
            },
            Ok((global, count)) => {
                let ghost opened = *source;
                let ghost before = (*old(source), *old(sink));
                let cases = SequentialExecutor::run_cases(source, sink, solver, &global, count);
                let ghost after = (*source, *sink);
                proof {
                    assert(sequential_run(
                        (opened, before.1),
                        after,
                        *solver,
                        global,
                        count as nat,
                        cases,
                    ));
                    assert(sequential_run(before, after, *solver, global, count as nat, cases));
                    lemma_sequential_run_is_run::<T, P, S>(
                        before,
                        after,
                        *solver,
                        global,
                        count as nat,
                        cases,
                    );
                }
                match cases {
                    Ok(()) => Ok(()),
                    Err(e) => Err(ExecutionError::Case(e)),
                }
            },
        }
    }
}

/// Runs the cases in parallel: the cases are read in order, one worker per
/// case solves it, and the solutions are emitted in case order as soon as
/// they can be.
pub struct ThreadExecutor;

impl ThreadExecutor {
    /// Runs `count` cases that share the context `global`, over a result
    /// channel that holds at most `capacity` solutions, or as many as the
    /// harness allows where `capacity` is more.
    ///
    /// With no case to run, nothing is read, started or emitted.
    pub fn run_cases<T, P, S>(
        source: &mut Reader<T>,
        sink: &mut Emitter<P>,
        solver: &S,
        global: &T::Global,
        count: usize,
        capacity: usize,
    ) -> (r: Result<(), ExecutionError<T::GlobalError, T::CaseError>>) where
        T: CaseSource + Send,
        T::Global: Sync,
        T::Case: Send,
        T::CaseError: Send,
        P: Sink,
        P::Solution: Send,
        S: Fn(&T::Global, T::Case) -> P::Solution + Sync,

        requires
            forall|g: &T::Global, c: T::Case| call_requires(*solver, (g, c)),
        ensures
            final(source).opened() == old(source).opened(),
            run((*old(source), *old(sink)), (*final(source), *final(sink)), count as nat, r),
            count == 0 ==> *final(source) == *old(source) && *final(sink) == *old(sink),
    {
        if count == 0 {
            proof {
                assert(sink.emitted_since(&*old(sink)) =~= Seq::empty());
                assert(source.delivered_since(&*old(source)) =~= Seq::empty());
            }
            return Ok(());
        }
        let mut report: Option<Result<(), DispatchError<T::CaseError>>> = None;
        let collect = match scoped(
            source.cases_mut(),
            &mut report,
            sink,
            solver,
            global,
            count,
            capacity,
        ) {
            Some(Some(outcome)) => Some(outcome),
            _ => None,
        };
        conclude(report, collect, count)
    }

    /// Runs a whole batch over a result channel that holds at most
    /// `capacity` solutions: reads the shared context and the number of
    /// cases, then runs the cases in parallel.
    pub fn execute_with_capacity<T, P, S>(
        source: &mut Reader<T>,
        sink: &mut Emitter<P>,
        solver: &S,
        capacity: usize,
    ) -> (r: Result<(), ExecutionError<T::GlobalError, T::CaseError>>) where
        T: CaseSource + Send,
        T::Global: Sync,
        T::Case: Send,
        T::CaseError: Send,
        P: Sink,
        P::Solution: Send,
        S: Fn(&T::Global, T::Case) -> P::Solution + Sync,

        requires
            forall|g: &T::Global, c: T::Case| call_requires(*solver, (g, c)),
        ensures
            batch((*old(source), *old(sink)), (*final(source), *final(sink)), r),
    {
        match source.start() {
            Err(err) => {
                proof {
                    assert(sink.emitted() =~= old(sink).emitted() + Seq::empty());
                    assert(source.cases().delivered() =~= old(source).cases().delivered()
                        + Seq::empty());
                }
                Err(ExecutionError::global_error(err))
            },
            Ok((global, count)) => {
                let ghost opened = *source;
                let r = ThreadExecutor::run_cases(source, sink, solver, &global, count, capacity);
                proof {
                    let before = (*old(source), *old(sink));
                    let after = (*source, *sink);
                    assert(run((opened, before.1), after, count as nat, r));
                    assert(run(before, after, count as nat, r));
                }
                r
            },
        }
    }
}

impl<T, P, S> Executor<T, P, S> for ThreadExecutor where
    T: CaseSource + Send,
    T::Global: Sync,
    T::Case: Send,
    T::CaseError: Send,
    P: Sink,
    P::Solution: Send,
    S: Fn(&T::Global, T::Case) -> P::Solution + Sync,
 {
    /// Reads the shared context and the number of cases, then runs the cases
    /// in parallel, over a result channel with room for the solution of
    /// every case, as far as the harness allows.
    fn execute(source: &mut Reader<T>, sink: &mut Emitter<P>, solver: &S) -> (r: Result<
        (),
        ExecutionError<T::GlobalError, T::CaseError>,
    >) {
        match source.start() {
            Err(err) => {
                proof {
                    assert(sink.emitted() =~= old(sink).emitted() + Seq::empty());
                    assert(source.cases().delivered() =~= old(source).cases().delivered()
                        + Seq::empty());
                }
                Err(ExecutionError::global_error(err))
            },
            Ok((global, count)) => {
                let ghost opened = *source;
                let r = ThreadExecutor::run_cases(source, sink, solver, &global, count, count);
                proof {
                    let before = (*old(source), *old(sink));
                    let after = (*source, *sink);
                    assert(run((opened, before.1), after, count as nat, r));
                    assert(run(before, after, count as nat, r));
                }
                r
            },
        }
    }
}

/// The solutions of emitted entries, without the indices.
pub open spec fn solutions_of<O>(emitted: Seq<(CaseIndex, O)>) -> Seq<O> {
    emitted.map_values(|e: (CaseIndex, O)| e.1)
}

/// The parallel and the sequential way emit the same: had the solutions that
/// a sequential run emitted reached a collector instead, each once and in
/// whatever order, the collector would have released exactly what the
/// sequential run emitted, in the same order.
pub proof fn lemma_parallel_matches_sequential<T, P, S>(
    before: (Reader<T>, Emitter<P>),
    after: (Reader<T>, Emitter<P>),
    solver: S,
    global: T::Global,
    count: nat,
    order: Seq<int>,
) where T: CaseSource, P: Sink, S: Fn(&T::Global, T::Case) -> P::Solution
    requires
        sequential_run(before, after, solver, global, count, Ok(())),
        is_arrival_order(order, count),
    ensures
        Reorder::<P::Solution>::start().run(
            deliveries(solutions_of(after.1.emitted_since(&before.1)), order),
        ).1 == releases(after.1.emitted_since(&before.1)),
{
    let out = after.1.emitted_since(&before.1);
    lemma_run_complete(solutions_of(out), order);
    assert(numbered(solutions_of(out)) =~= releases(out));
}

} // verus!
