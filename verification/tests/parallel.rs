use case_harness::case_index::CaseIndex;
use case_harness::channel::MAX_CAPACITY;
use case_harness::error::{CaseError, CaseErrorKind, ExecutionError, WorkerFault};
use case_harness::executor::{Executor, SequentialExecutor, ThreadExecutor};
use case_harness::sink::{Emitter, Sink};
use case_harness::source::{CaseSource, Reader};
use std::io::{Error, ErrorKind};
use std::sync::atomic::{AtomicUsize, Ordering};
use std::time::Duration;

/// A case: a number to work on, and how long the work takes.
#[derive(Clone, Copy)]
struct Job {
    value: u64,
    millis: u64,
}

struct Jobs {
    base: Option<u64>,
    inputs: Vec<Result<Job, String>>,
    reads: usize,
}

impl Jobs {
    fn new(base: Option<u64>, inputs: Vec<Result<Job, String>>) -> Jobs {
        Jobs { base, inputs, reads: 0 }
    }

    fn timed(millis: &[u64]) -> Jobs {
        let inputs = millis.iter().enumerate().map(|(i, m)| Ok(Job { value: i as u64, millis: *m })).collect();
        Jobs::new(Some(100), inputs)
    }
}

impl CaseSource for Jobs {
    type Global = u64;
    type Case = Job;
    type GlobalError = String;
    type CaseError = String;

    fn start(&mut self) -> Result<(u64, usize), String> {
        match self.base {
            Some(base) => Ok((base, self.inputs.len())),
            None => Err("no header".to_string()),
        }
    }

    fn next_case(&mut self) -> Result<Job, String> {
        let r = self.inputs[self.reads].clone();
        self.reads += 1;
        r
    }
}

struct Lines {
    lines: Vec<String>,
    refuse_at: Option<usize>,
}

impl Lines {
    fn new(refuse_at: Option<usize>) -> Lines {
        Lines { lines: Vec::new(), refuse_at }
    }
}

impl Sink for Lines {
    type Solution = u64;

    fn emit(&mut self, case: CaseIndex, solution: u64) -> Result<(), Error> {
        if self.refuse_at == Some(case.offset()) {
            return Err(Error::new(ErrorKind::BrokenPipe, "closed"));
        }
        self.lines.push(format!("case{}: {}", case.offset(), solution));
        Ok(())
    }
}

fn wait(millis: u64) {
    if millis > 0 {
        let _ = crossbeam::channel::after(Duration::from_millis(millis)).recv();
    }
}

fn slow_sum(global: &u64, job: Job) -> u64 {
    wait(job.millis);
    *global + job.value
}

#[test]
fn parallel_run_emits_in_case_order_whatever_finishes_first() {
    let mut source = Reader::new(Jobs::timed(&[50, 10, 30]));
    let mut sink = Emitter::new(Lines::new(None));
    let r = ThreadExecutor::execute(&mut source, &mut sink, &slow_sum);
    assert!(r.is_ok());
    assert_eq!(sink.sink().lines, vec!["case0: 100", "case1: 101", "case2: 102"]);
}

#[test]
fn parallel_run_emits_first_case_first_though_it_finishes_last() {
    let (done, others) = crossbeam::channel::unbounded::<u64>();
    let finished = std::sync::Mutex::new(Vec::new());
    let solver = |global: &u64, job: Job| {
        if job.value == 0 {
            let _ = others.recv();
            let _ = others.recv();
        }
        finished.lock().unwrap().push(job.value);
        if job.value != 0 {
            let _ = done.send(job.value);
        }
        *global + job.value
    };
    let mut source = Reader::new(Jobs::timed(&[0, 0, 0]));
    let mut sink = Emitter::new(Lines::new(None));
    let r = ThreadExecutor::execute(&mut source, &mut sink, &solver);
    assert!(r.is_ok());
    assert_eq!(sink.sink().lines, vec!["case0: 100", "case1: 101", "case2: 102"]);
    let finished = finished.lock().unwrap();
    assert_eq!(finished.len(), 3);
    assert_eq!(finished[2], 0);
}

#[test]
fn parallel_run_reads_every_case_once() {
    let mut source = Reader::new(Jobs::timed(&[0, 0, 0, 0]));
    let mut sink = Emitter::new(Lines::new(None));
    let r = ThreadExecutor::execute(&mut source, &mut sink, &slow_sum);
    assert!(r.is_ok());
    assert_eq!(source.source().reads, 4);
    assert_eq!(sink.sink().lines.len(), 4);
}

#[test]
fn parallel_run_reports_case_that_cannot_be_read() {
    let inputs = vec![
        Ok(Job { value: 1, millis: 20 }),
        Err("garbled".to_string()),
        Ok(Job { value: 3, millis: 0 }),
    ];
    let solved = AtomicUsize::new(0);
    let solver = |global: &u64, job: Job| {
        wait(job.millis);
        solved.fetch_add(1, Ordering::SeqCst);
        *global + job.value
    };
    let mut source = Reader::new(Jobs::new(Some(100), inputs));
    let mut sink = Emitter::new(Lines::new(None));
    let r = ThreadExecutor::execute(&mut source, &mut sink, &solver);
    assert!(matches!(
        r,
        Err(ExecutionError::Case(CaseError { case, error: CaseErrorKind::Load(ref why) }))
            if case == CaseIndex::at(1) && why == "garbled"
    ));
    assert_eq!(source.source().reads, 2);
    assert_eq!(solved.load(Ordering::SeqCst), 1);
    assert_eq!(sink.sink().lines, vec!["case0: 101"]);
}

#[test]
fn parallel_run_reports_case_that_cannot_be_written() {
    let solved = AtomicUsize::new(0);
    let solver = |global: &u64, job: Job| {
        wait(job.millis);
        solved.fetch_add(1, Ordering::SeqCst);
        *global + job.value
    };
    let mut source = Reader::new(Jobs::timed(&[0, 10, 60]));
    let mut sink = Emitter::new(Lines::new(Some(1)));
    let r = ThreadExecutor::execute(&mut source, &mut sink, &solver);
    assert!(matches!(
        r,
        Err(ExecutionError::Case(CaseError { case, error: CaseErrorKind::Print(ref io) }))
            if case == CaseIndex::at(1) && io.kind() == ErrorKind::BrokenPipe
    ));
    assert_eq!(sink.sink().lines, vec!["case0: 100"]);
    assert_eq!(solved.load(Ordering::SeqCst), 3);
    assert_eq!(source.source().reads, 3);
}

#[test]
fn parallel_run_puts_unreadable_case_before_refused_solution() {
    let inputs = vec![
        Ok(Job { value: 1, millis: 0 }),
        Ok(Job { value: 2, millis: 0 }),
        Err("garbled".to_string()),
    ];
    let mut source = Reader::new(Jobs::new(Some(100), inputs));
    let mut sink = Emitter::new(Lines::new(Some(0)));
    let r = ThreadExecutor::execute(&mut source, &mut sink, &slow_sum);
    assert!(matches!(
        r,
        Err(ExecutionError::Case(CaseError { case, error: CaseErrorKind::Load(_) }))
            if case == CaseIndex::at(2)
    ));
    assert!(sink.sink().lines.is_empty());
}

#[test]
fn parallel_run_reports_worker_that_panicked() {
    let solver = |global: &u64, job: Job| {
        if job.value == 1 {
            panic!("no answer");
        }
        *global + job.value
    };
    let mut source = Reader::new(Jobs::timed(&[0, 0, 0]));
    let mut sink = Emitter::new(Lines::new(None));
    let r = ThreadExecutor::execute(&mut source, &mut sink, &solver);
    assert!(matches!(r, Err(ExecutionError::Worker(WorkerFault::Halted))));
    assert_eq!(sink.sink().lines, vec!["case0: 100"]);
}

#[test]
fn parallel_run_puts_worker_that_panicked_before_unreadable_case() {
    let inputs = vec![
        Ok(Job { value: 0, millis: 0 }),
        Ok(Job { value: 1, millis: 0 }),
        Err("garbled".to_string()),
    ];
    let solver = |global: &u64, job: Job| {
        if job.value == 1 {
            panic!("no answer");
        }
        *global + job.value
    };
    let mut source = Reader::new(Jobs::new(Some(100), inputs));
    let mut sink = Emitter::new(Lines::new(None));
    let r = ThreadExecutor::execute(&mut source, &mut sink, &solver);
    assert!(matches!(r, Err(ExecutionError::Worker(WorkerFault::Halted))));
    assert_eq!(sink.sink().lines, vec!["case0: 100"]);
}

#[test]
fn parallel_run_of_no_cases_reads_and_emits_nothing() {
    let solved = AtomicUsize::new(0);
    let solver = |global: &u64, job: Job| {
        solved.fetch_add(1, Ordering::SeqCst);
        *global + job.value
    };
    let mut source = Reader::new(Jobs::new(Some(100), vec![]));
    let mut sink = Emitter::new(Lines::new(None));
    let r = ThreadExecutor::execute(&mut source, &mut sink, &solver);
    assert!(r.is_ok());
    assert_eq!(source.source().reads, 0);
    assert_eq!(solved.load(Ordering::SeqCst), 0);
    assert!(sink.sink().lines.is_empty());
}

#[test]
fn parallel_run_stops_when_context_cannot_be_read() {
    let mut source = Reader::new(Jobs::new(None, vec![Ok(Job { value: 1, millis: 0 })]));
    let mut sink = Emitter::new(Lines::new(None));
    let r = ThreadExecutor::execute(&mut source, &mut sink, &slow_sum);
    assert!(matches!(r, Err(ExecutionError::Global(ref why)) if why == "no header"));
    assert_eq!(source.source().reads, 0);
    assert!(sink.sink().lines.is_empty());
}

#[test]
fn parallel_run_with_room_for_one_solution() {
    let mut source = Reader::new(Jobs::timed(&[60, 0, 30, 0, 10]));
    let mut sink = Emitter::new(Lines::new(None));
    let r = ThreadExecutor::execute_with_capacity(&mut source, &mut sink, &slow_sum, 1);
    assert!(r.is_ok());
    assert_eq!(
        sink.sink().lines,
        vec!["case0: 100", "case1: 101", "case2: 102", "case3: 103", "case4: 104"]
    );
}

#[test]
fn parallel_run_with_no_room_hands_over_directly() {
    let mut source = Reader::new(Jobs::timed(&[20, 0, 10]));
    let mut sink = Emitter::new(Lines::new(None));
    let r = ThreadExecutor::execute_with_capacity(&mut source, &mut sink, &slow_sum, 0);
    assert!(r.is_ok());
    assert_eq!(sink.sink().lines, vec!["case0: 100", "case1: 101", "case2: 102"]);
}

#[test]
fn parallel_run_with_more_room_than_the_limit() {
    let mut source = Reader::new(Jobs::timed(&[0, 5, 0]));
    let mut sink = Emitter::new(Lines::new(None));
    let r = ThreadExecutor::execute_with_capacity(&mut source, &mut sink, &slow_sum, MAX_CAPACITY + 1);
    assert!(r.is_ok());
    assert_eq!(sink.sink().lines, vec!["case0: 100", "case1: 101", "case2: 102"]);
}

#[test]
fn parallel_run_cases_under_given_context() {
    let mut source = Reader::new(Jobs::timed(&[10, 0, 0]));
    let mut sink = Emitter::new(Lines::new(None));
    let r = ThreadExecutor::run_cases(&mut source, &mut sink, &slow_sum, &7, 2, 2);
    assert!(r.is_ok());
    assert_eq!(sink.sink().lines, vec!["case0: 7", "case1: 8"]);
    assert_eq!(source.source().reads, 2);
}

#[test]
fn parallel_and_sequential_runs_emit_the_same() {
    let millis: Vec<u64> = (0..24).map(|i| (i * 7) % 11).collect();
    let mut in_turn = Emitter::new(Lines::new(None));
    let mut source = Reader::new(Jobs::timed(&millis));
    assert!(SequentialExecutor::execute(&mut source, &mut in_turn, &slow_sum).is_ok());
    let mut at_once = Emitter::new(Lines::new(None));
    let mut source = Reader::new(Jobs::timed(&millis));
    assert!(ThreadExecutor::execute(&mut source, &mut at_once, &slow_sum).is_ok());
    assert_eq!(in_turn.sink().lines.len(), 24);
    assert_eq!(in_turn.sink().lines, at_once.sink().lines);
}

fn lines_by<X>(millis: &[u64]) -> Vec<String>
where
    X: Executor<Jobs, Lines, fn(&u64, Job) -> u64>,
{
    let solver: fn(&u64, Job) -> u64 = slow_sum;
    let mut source = Reader::new(Jobs::timed(millis));
    let mut sink = Emitter::new(Lines::new(None));
    assert!(X::execute(&mut source, &mut sink, &solver).is_ok());
    sink.into_sink().lines
}

#[test]
fn both_executors_run_a_batch_the_same_way() {
    let millis = [5, 0, 9, 2];
    let expected = vec!["case0: 100", "case1: 101", "case2: 102", "case3: 103"];
    assert_eq!(lines_by::<SequentialExecutor>(&millis), expected);
    assert_eq!(lines_by::<ThreadExecutor>(&millis), expected);
}
