//! The parts of a parallel run: the dispatcher that reads the cases and
//! starts a worker for each, the workers, and the collector that emits what
//! the workers send.

use crossbeam::thread::Scope;
use vstd::prelude::*;

use crate::case_index::CaseIndex;
use crate::channel::{bounded, room, Inbox, Outbox};
use crate::collector::{releases, Collector};
use crate::error::{CaseError, CaseErrorKind, ExecutionError, WorkerFault};
use crate::reorder::{lemma_run_in_order, Reorder};
use crate::sink::{emitted_in_order, in_run_order, Emitter, Sink};
use crate::source::{CaseReader, CaseSource};
use crate::workers::{spawn_dispatcher, Crew};

verus! {

/// Why the dispatcher stopped before every case had its worker.
#[derive(Debug)]
pub enum DispatchError<E> {
    /// The input of the case could not be read.
    Load(CaseIndex, E),
    /// The input of the case was read, and no worker could be started for it.
    NotStarted(CaseIndex),
}

/// Whether the dispatcher, asked for `count` cases and ending with
/// `outcome`, took the source from the state `before` to the state `after`.
///
/// It asks for the cases one at a time and in order, and it asks for no
/// further case once one could not be read or could not be given a worker.
pub open spec fn dispatched<T: CaseSource>(
    before: CaseReader<T>,
    after: CaseReader<T>,
    count: nat,
    outcome: Result<(), DispatchError<T::CaseError>>,
) -> bool {
    let cases = after.delivered_since(&before);
    match outcome {
        Ok(()) => cases.len() == count && after.gave(&before, cases),
        Err(DispatchError::Load(case, failure)) => {
            &&& case@ < count
            &&& cases.len() == case@
            &&& after.gave_until(&before, cases, failure)
        },
        Err(DispatchError::NotStarted(case)) => {
            &&& case@ < count
            &&& cases.len() == case@ + 1
            &&& after.gave(&before, cases)
        },
    }
}

/// Whether the collector, waiting for `count` solutions and ending with
/// `outcome`, took the sink from the state `before` to the state `after`.
///
/// Whatever arrived and in whatever order, the sink took the solutions of
/// the first cases in their order. A collector that ends well tells how
/// many it emitted; one that fails names the case that the sink refused,
/// which is the one after the last that it took.
pub open spec fn collected<P: Sink>(
    before: Emitter<P>,
    after: Emitter<P>,
    count: nat,
    outcome: Result<usize, (CaseIndex, std::io::Error)>,
) -> bool {
    let out = after.emitted_since(&before);
    &&& emitted_in_order(before, after, count)
    &&& match outcome {
        Ok(emitted) => emitted == out.len() && after.took(&before, out),
        Err(refusal) => {
            &&& refusal.0@ == out.len()
            &&& out.len() < count
            &&& after.took_until(&before, out, refusal)
        },
    }
}

/// The number of workers that a dispatcher has started that was asked for
/// `count` cases and ended with `outcome`: one for every case before the one
/// at which it stopped.
pub open spec fn started_for<E>(outcome: Result<(), DispatchError<E>>, count: nat) -> nat {
    match outcome {
        Ok(()) => count,
        Err(DispatchError::Load(case, _)) => case@,
        Err(DispatchError::NotStarted(case)) => case@,
    }
}

/// The outcome of a run in which the dispatcher ended with `outcome`, every
/// worker that was started has sent its solution, and the sink has taken
/// every solution or has refused one: the failure of the dispatcher, if it
/// failed, and else the failure of the sink, if it refused.
pub open spec fn settled<E1, E2>(
    outcome: Result<(), DispatchError<E2>>,
    refused: Option<(CaseIndex, std::io::Error)>,
) -> Result<(), ExecutionError<E1, E2>> {
    match outcome {
        Err(DispatchError::Load(case, err)) => Err(
            ExecutionError::Case(CaseError { case, error: CaseErrorKind::Load(err) }),
        ),
        Err(DispatchError::NotStarted(case)) => Err(
            ExecutionError::Worker(WorkerFault::NotStarted(case)),
        ),
        Ok(()) => match refused {
            Some(refusal) => Err(
                ExecutionError::Case(
                    CaseError { case: refusal.0, error: CaseErrorKind::Print(refusal.1) },
                ),
            ),
            None => Ok(()),
        },
    }
}

/// The outcome of a parallel run of `count` cases, from the report of the
/// dispatcher, if it left one, and what the collector returned, if that was
/// handed on.
///
/// A thread that ended abnormally comes first: it shows in a report or a
/// return that is missing, and in a solution that was emitted or refused
/// for a case for which no worker was started. Next comes a solution that
/// is missing: the collector ended well and has emitted less than one
/// solution for every worker that was started. Then comes a failure of the
/// dispatcher, and last a failure of the sink. A run succeeds when none of
/// these happened.
pub open spec fn conclusion<E1, E2>(
    dispatch: Option<Result<(), DispatchError<E2>>>,
    collect: Option<Result<usize, (CaseIndex, std::io::Error)>>,
    count: usize,
) -> Result<(), ExecutionError<E1, E2>> {
    match (dispatch, collect) {
        (Some(outcome), Some(Ok(emitted))) => if emitted < started_for(outcome, count as nat) {
            Err(ExecutionError::Worker(WorkerFault::Missing(CaseIndex(emitted))))
        } else if emitted == started_for(outcome, count as nat) {
            settled(outcome, None)
        } else {
            Err(ExecutionError::Worker(WorkerFault::Halted))
        },
        (Some(outcome), Some(Err(refusal))) => if refusal.0@ < started_for(
            outcome,
            count as nat,
        ) {
            settled(outcome, Some(refusal))
        } else {
            Err(ExecutionError::Worker(WorkerFault::Halted))
        },
        _ => Err(ExecutionError::Worker(WorkerFault::Halted)),
    }
}

/// Decides the outcome of a parallel run of `count` cases.
pub fn conclude<E1, E2>(
    dispatch: Option<Result<(), DispatchError<E2>>>,
    collect: Option<Result<usize, (CaseIndex, std::io::Error)>>,
    count: usize,
) -> (r: Result<(), ExecutionError<E1, E2>>)
    ensures
        r == conclusion::<E1, E2>(dispatch, collect, count),
{
    match (dispatch, collect) {
        (Some(outcome), Some(collected)) => {
            let due = match &outcome {
                Ok(()) => count,
                Err(DispatchError::Load(case, _)) => case.offset(),
                Err(DispatchError::NotStarted(case)) => case.offset(),
            };
            let refused = match collected {
                Ok(emitted) => {
                    if emitted < due {
                        return Err(
                            ExecutionError::worker_fault(
                                WorkerFault::Missing(CaseIndex::at(emitted)),
                            ),
                        );
                    }
                    if emitted > due {
                        return Err(ExecutionError::worker_fault(WorkerFault::Halted));
                    }
                    None
                },
                Err(refusal) => {
                    if refusal.0.offset() >= due {
                        return Err(ExecutionError::worker_fault(WorkerFault::Halted));
                    }
                    Some(refusal)
                },
            };
            match outcome {
                Err(DispatchError::Load(case, err)) => Err(ExecutionError::load_error(case, err)),
                Err(DispatchError::NotStarted(case)) => Err(
                    ExecutionError::worker_fault(WorkerFault::NotStarted(case)),
                ),
                Ok(()) => match refused {
                    Some((case, err)) => Err(ExecutionError::print_error(case, err)),
                    None => Ok(()),
                },
            }
        },
        _ => Err(ExecutionError::worker_fault(WorkerFault::Halted)),
    }
}

/// Solves one case: the message of a worker to the collector is the index
/// of its case and the answer of the solver to the input of the case.
pub fn solve_case<G, C, O, S>(solver: &S, global: &G, case: CaseIndex, input: C) -> (message: (
    CaseIndex,
    O,
)) where S: Fn(&G, C) -> O
    requires
        call_requires(*solver, (global, input)),
    ensures
        message.0 == case,
        call_ensures(*solver, (global, input), message.1),
{
    (case, solver(global, input))
}

/// The work of a worker: solves its case and hands one message to the
/// channel, the index of the case with the answer of the solver to its
/// input. A message that the collector no longer waits for is dropped.
pub(crate) fn work<G, C, O, S>(
    solver: &S,
    global: &G,
    case: CaseIndex,
    input: C,
    outbox: &mut Outbox<(CaseIndex, O)>,
) where S: Fn(&G, C) -> O
    requires
        call_requires(*solver, (global, input)),
    ensures
        final(outbox).sent().len() == old(outbox).sent().len() + 1,
        final(outbox).sent().drop_last() == old(outbox).sent(),
        final(outbox).sent().last().0 == case,
        call_ensures(*solver, (global, input), final(outbox).sent().last().1),
{
    let message = solve_case(solver, global, case, input);
    let _ = outbox.send(message);
    proof {
        assert(outbox.sent().drop_last() =~= old(outbox).sent());
    }
}

/// What the workers for the first `number` of `cases` are handed, in the
/// order in which they are started: each the index of its case and the input
/// of that case.
pub open spec fn handed<C>(cases: Seq<C>, number: nat) -> Seq<(CaseIndex, C)> {
    Seq::new(number, |k: int| (CaseIndex(k as usize), cases[k]))
}

/// Reads `count` cases, one at a time and in order, and starts a worker for
/// each as soon as it is read, handing it the index and the input of the
/// case. Stops at the first case that cannot be read or cannot be given a
/// worker.
fn read_and_start<'scope, 'env, T, O, S>(
    crew: &mut Crew<'scope, 'env, T::Case>,
    source: &mut CaseReader<T>,
    solver: &'env S,
    global: &'env T::Global,
    count: usize,
    outbox: Outbox<(CaseIndex, O)>,
) -> (r: Result<(), DispatchError<T::CaseError>>) where
    T: CaseSource,
    T::Global: Sync,
    T::Case: Send + 'env,
    S: Fn(&T::Global, T::Case) -> O + Sync,
    O: Send + 'env,

    requires
        forall|g: &T::Global, c: T::Case| call_requires(*solver, (g, c)),
    ensures
        dispatched(*old(source), *final(source), count as nat, r),
        final(crew).started() == old(crew).started() + handed(
            final(source).delivered_since(old(source)),
            started_for(r, count as nat),
        ),
{
    let ghost source0 = *source;
    let ghost crew0 = crew.started();
    let mut next: usize = 0;
    while next < count
        invariant
            next <= count,
            source0 == *old(source),
            crew0 == old(crew).started(),
            forall|g: &T::Global, c: T::Case| call_requires(*solver, (g, c)),
            source.gave(&source0, source.delivered_since(&source0)),
            source.delivered_since(&source0).len() == next,
            crew.started() == crew0 + handed(source.delivered_since(&source0), next as nat),
        decreases count - next,
    {
        let case = CaseIndex::at(next);
        let ghost cases = source.delivered_since(&source0);
        match source.next_case() {
            Err(err) => {
                proof {
                    assert(source.delivered_since(&source0) =~= cases);
                }
                return Err(DispatchError::Load(case, err));
            },
            Ok(input) => {
                proof {
                    assert(source.delivered_since(&source0) =~= cases.push(input));
                    assert(handed(cases.push(input), next as nat) =~= handed(cases, next as nat));
                    assert(handed(cases.push(input), (next + 1) as nat) =~= handed(
                        cases,
                        next as nat,
                    ).push((case, input)));
                }
                let started = crew.start(solver, global, case, input, outbox.share());
                if !started {
                    return Err(DispatchError::NotStarted(case));
                }
            },
        }
        next = next + 1;
    }
    Ok(())
}

/// The work of the dispatcher: reads the cases and starts their workers, and
/// leaves the outcome in `report` as the last thing it does.
pub(crate) fn dispatch<'env, T, O, S>(
    scope: &Scope<'env>,
    source: &mut CaseReader<T>,
    report: &mut Option<Result<(), DispatchError<T::CaseError>>>,
    solver: &'env S,
    global: &'env T::Global,
    count: usize,
    outbox: Outbox<(CaseIndex, O)>,
) where
    T: CaseSource,
    T::Global: Sync,
    T::Case: Send + 'env,
    S: Fn(&T::Global, T::Case) -> O + Sync,
    O: Send + 'env,

    requires
        forall|g: &T::Global, c: T::Case| call_requires(*solver, (g, c)),
    ensures
        *final(report) matches Some(outcome) && dispatched(
            *old(source),
            *final(source),
            count as nat,
            outcome,
        ),
{
    let mut crew = Crew::new(scope);
    let outcome = read_and_start(&mut crew, source, solver, global, count, outbox);
    *report = Some(outcome);
}

/// Hands `released` to the sink, first to last, and stops at the first
/// solution that the sink refuses.
fn emit_all<P: Sink>(sink: &mut Emitter<P>, released: Vec<(CaseIndex, P::Solution)>) -> (r: Result<
    (),
    (CaseIndex, std::io::Error),
>)
    ensures
        match r {
            Ok(()) => final(sink).took(old(sink), released@),
            Err(refusal) => exists|taken: int|
                0 <= taken < released.len() && refusal.0 == (#[trigger] released[taken]).0
                    && final(sink).took_until(old(sink), released@.take(taken), refusal),
        },
{
    let ghost sink0 = *sink;
    let ghost all = released@;
    for entry in it: released
        invariant
            sink0 == *old(sink),
            all == it.seq(),
            sink.took(&sink0, all.take(it.index() as int)),
    {
        let ghost taken = it.index() as int;
        let (case, solution) = entry;
        match sink.emit(case, solution) {
            Err(err) => {
                proof {
                    assert(all[taken].0 == case);
                }
                return Err((case, err));
            },
            Ok(()) => {
                proof {
                    assert(all.take(taken + 1) =~= all.take(taken).push(all[taken]));
                }
            },
        }
    }
    proof {
        assert(all.take(all.len() as int) =~= all);
    }
    Ok(())
}

/// Whether the collector, taking the solution of `case` as it arrives and
/// ending with `outcome`, went from the state `before` to the state `after`,
/// and took the sink from its state `before` to its state `after`.
///
/// The collector releases what the arrival makes ready, and the sink is
/// handed what is released, first to last. Where the sink takes it all, it
/// has taken exactly what was released. Where the sink refuses one of the
/// solutions, it has taken those released before that one, and the failure
/// names the case of the one refused.
pub open spec fn delivered<P: Sink>(
    before: (Reorder<P::Solution>, Emitter<P>),
    after: (Reorder<P::Solution>, Emitter<P>),
    case: CaseIndex,
    solution: P::Solution,
    outcome: Result<(), (CaseIndex, std::io::Error)>,
) -> bool {
    let (state, released) = before.0.arrive(case@ as int, solution);
    let out = after.1.emitted_since(&before.1);
    &&& after.0 == state
    &&& match outcome {
        Ok(()) => releases(out) == released && after.1.took(&before.1, out),
        Err(refusal) => {
            &&& out.len() < released.len()
            &&& releases(out) == released.take(out.len() as int)
            &&& refusal.0@ == released[out.len() as int].0
            &&& after.1.took_until(&before.1, out, refusal)
        },
    }
}

/// Takes the solution of `case` as it arrives: lets the collector release
/// what the arrival makes ready, and hands that to the sink, first to last,
/// until the sink refuses a solution.
pub fn deliver<P: Sink>(
    collector: &mut Collector<P::Solution>,
    sink: &mut Emitter<P>,
    case: CaseIndex,
    solution: P::Solution,
) -> (r: Result<(), (CaseIndex, std::io::Error)>)
    requires
        old(collector)@.held() < usize::MAX,
    ensures
        delivered(
            (old(collector)@, *old(sink)),
            (final(collector)@, *final(sink)),
            case,
            solution,
            r,
        ),
{
    let released = collector.accept(case, solution);
    let r = emit_all(sink, released);
    proof {
        let out = sink.emitted_since(&*old(sink));
        if r is Ok {
            assert(out =~= released@);
        } else {
            let refusal = r->Err_0;
            let taken = choose|taken: int|
                0 <= taken < released.len() && refusal.0 == (#[trigger] released[taken]).0
                    && sink.took_until(&*old(sink), released@.take(taken), refusal);
            assert(out =~= released@.take(taken));
            assert(releases(out) =~= releases(released@).take(taken));
            assert(releases(released@)[taken].0 == released[taken].0@);
        }
    }
    r
}

/// Whether the collector, waiting for `count` solutions at an inbox and
/// ending with `outcome`, took the inbox and the sink from their states
/// `before` to their states `after`.
///
/// The collector takes solutions out of the inbox one at a time, and no more
/// than `count`. What it hands to the sink is what a collector that starts
/// afresh releases for the solutions taken, in the order of their release.
///
/// A collector that ends well has handed over all that was released and
/// tells how many solutions that were. It has stopped because it had taken
/// `count` solutions, or else because the channel was exhausted. A collector
/// that fails has stopped at the solution that the sink refused: the sink
/// took what was released before it, the arrival that released it is the
/// last that was taken out of the inbox, and the failure names its case.
pub open spec fn collected_from<P: Sink>(
    before: (Inbox<(CaseIndex, P::Solution)>, Emitter<P>),
    after: (Inbox<(CaseIndex, P::Solution)>, Emitter<P>),
    count: nat,
    outcome: Result<usize, (CaseIndex, std::io::Error)>,
) -> bool {
    let arrivals = after.0.received_since(&before.0);
    let released = Reorder::<P::Solution>::start().run(releases(arrivals)).1;
    let out = after.1.emitted_since(&before.1);
    &&& after.0.took(&before.0, arrivals)
    &&& arrivals.len() <= count
    &&& match outcome {
        Ok(emitted) => {
            &&& arrivals.len() < count ==> after.0.exhausted()
            &&& arrivals.len() == count ==> after.0.exhausted() == before.0.exhausted()
            &&& releases(out) == released
            &&& emitted == out.len()
            &&& after.1.took(&before.1, out)
        },
        Err(refusal) => {
            &&& after.0.exhausted() == before.0.exhausted()
            &&& out.len() < released.len()
            &&& releases(out) == released.take(out.len() as int)
            &&& arrivals.len() > 0
            &&& Reorder::<P::Solution>::start().run(releases(arrivals.drop_last())).1.len()
                <= out.len()
            &&& refusal.0@ == released[out.len() as int].0
            &&& after.1.took_until(&before.1, out, refusal)
        },
    }
}

/// What the collector does to the sink, whatever came out of the inbox: the
/// sink took the solutions of the first cases in their order.
pub proof fn lemma_collected_in_order<P: Sink>(
    before: (Inbox<(CaseIndex, P::Solution)>, Emitter<P>),
    after: (Inbox<(CaseIndex, P::Solution)>, Emitter<P>),
    count: nat,
    outcome: Result<usize, (CaseIndex, std::io::Error)>,
)
    requires
        collected_from(before, after, count, outcome),
    ensures
        collected(before.1, after.1, count, outcome),
{
    let arrivals = after.0.received_since(&before.0);
    let released = Reorder::<P::Solution>::start().run(releases(arrivals)).1;
    let out = after.1.emitted_since(&before.1);
    lemma_run_in_order(releases(arrivals));
    assert forall|j: int| 0 <= j < out.len() implies (#[trigger] out[j]).0@ == j by {
        assert(releases(out)[j].0 == released[j].0);
    }
}

/// Receives up to `count` solutions in the order in which the workers send
/// them, and emits them in the order of their cases. Stops when the sink
/// refuses a solution, and when no worker is left to send one.
///
/// A solution is handed to the sink as soon as the collector releases it.
/// When the sink refuses one, what was released after it is dropped, and so
/// is what still waits in the buffer or in the channel.
pub(crate) fn collect<P: Sink>(
    inbox: &mut Inbox<(CaseIndex, P::Solution)>,
    sink: &mut Emitter<P>,
    count: usize,
) -> (r: Result<usize, (CaseIndex, std::io::Error)>)
    ensures
        collected_from(
            (*old(inbox), *old(sink)),
            (*final(inbox), *final(sink)),
            count as nat,
            r,
        ),
{
    let ghost inbox0 = *inbox;
    let ghost sink0 = *sink;
    let mut collector: Collector<P::Solution> = Collector::new();
    let mut received: usize = 0;
    proof {
        assert(inbox.received_since(&inbox0) =~= Seq::empty());
        assert(sink.emitted_since(&sink0) =~= Seq::empty());
        assert(releases(inbox.received_since(&inbox0)) =~= Seq::empty());
        assert(releases(sink.emitted_since(&sink0)) =~= Seq::empty());
    }
    while received < count
        invariant
            received <= count,
            inbox0 == *old(inbox),
            sink0 == *old(sink),
            inbox.took(&inbox0, inbox.received_since(&inbox0)),
            inbox.received_since(&inbox0).len() == received,
            inbox.exhausted() == inbox0.exhausted(),
            sink.took(&sink0, sink.emitted_since(&sink0)),
            collector@ == Reorder::<P::Solution>::start().run(
                releases(inbox.received_since(&inbox0)),
            ).0,
            releases(sink.emitted_since(&sink0)) == Reorder::<P::Solution>::start().run(
                releases(inbox.received_since(&inbox0)),
            ).1,
        decreases count - received,
    {
        let ghost arrivals = inbox.received_since(&inbox0);
        let ghost out = sink.emitted_since(&sink0);
        let ghost state = collector@;
        let ghost sent = *sink;
        proof {
            lemma_run_in_order(releases(arrivals));
        }
        match inbox.take() {
            None => {
                proof {
                    assert(inbox.received_since(&inbox0) =~= arrivals);
                }
                return Ok(collector.cursor().offset());
            },
            Some((case, solution)) => {
                let delivery = deliver(&mut collector, sink, case, solution);
                proof {
                    let later = arrivals.push((case, solution));
                    let step = state.arrive(case@ as int, solution);
                    let more = sink.emitted_since(&sent);
                    assert(inbox.received_since(&inbox0) =~= later);
                    assert(releases(later) =~= releases(arrivals).push((case@ as int, solution)));
                    assert(releases(later).drop_last() =~= releases(arrivals));
                    assert(later.drop_last() =~= arrivals);
                    assert(sink.emitted_since(&sink0) =~= out + more);
                    assert(releases(out + more) =~= releases(out) + releases(more));
                    if delivery is Err {
                        assert((releases(out) + step.1).take((out.len() + more.len()) as int) =~= releases(
                            out,
                        ) + step.1.take(more.len() as int));
                    }
                }
                match delivery {
                    Err(refusal) => {
                        return Err(refusal);
                    },
                    Ok(()) => {},
                }
            },
        }
        received = received + 1;
    }
    proof {
        lemma_run_in_order(releases(inbox.received_since(&inbox0)));
    }
    Ok(collector.cursor().offset())
}

/// The parallel part of a run, inside the scope of its threads: starts the
/// dispatcher and collects on the calling thread. Returns what the collector
/// returned, or nothing where the dispatcher could not be started.
pub(crate) fn run_in_scope<'env, T, P, S>(
    scope: &Scope<'env>,
    source: &'env mut CaseReader<T>,
    report: &'env mut Option<Result<(), DispatchError<T::CaseError>>>,
    sink: &mut Emitter<P>,
    solver: &'env S,
    global: &'env T::Global,
    count: usize,
    capacity: usize,
) -> (collect: Option<Result<usize, (CaseIndex, std::io::Error)>>) where
    T: CaseSource + Send,
    T::Global: Sync,
    T::Case: Send + 'env,
    T::CaseError: Send + 'env,
    P: Sink,
    P::Solution: Send + 'env,
    S: Fn(&T::Global, T::Case) -> P::Solution + Sync,

    requires
        *old(report) is None,
        forall|g: &T::Global, c: T::Case| call_requires(*solver, (g, c)),
    ensures
        *final(report) matches Some(outcome) ==> dispatched(
            *old(source),
            *final(source),
            count as nat,
            outcome,
        ),
        emitted_in_order(*old(sink), *final(sink), count as nat),
        collect matches Some(outcome) ==> collected(
            *old(sink),
            *final(sink),
            count as nat,
            outcome,
        ),
{
    let (sender, receiver) = bounded::<(CaseIndex, P::Solution)>(room(capacity));
    if spawn_dispatcher(scope, source, report, solver, global, count, Outbox::new(sender)) {
        let mut inbox = Inbox::new(receiver);
        let ghost before = (inbox, *sink);
        let outcome = collect(&mut inbox, sink, count);
        proof {
            lemma_collected_in_order(before, (inbox, *sink), count as nat, outcome);
        }
        Some(outcome)
    } else {
        proof {
            assert(sink.emitted_since(&*old(sink)) =~= Seq::empty());
        }
        None
    }
}

} // verus!
