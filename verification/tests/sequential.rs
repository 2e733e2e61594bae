use case_harness::case_index::CaseIndex;
use case_harness::error::{CaseError, CaseErrorKind, ExecutionError};
use case_harness::executor::{Executor, SequentialExecutor};
use case_harness::sink::{Emitter, Sink};
use case_harness::source::{CaseSource, Reader};
use std::io::{Error, ErrorKind};

struct Numbers {
    base: Option<u64>,
    inputs: Vec<Result<u64, String>>,
    starts: usize,
    reads: usize,
}

impl Numbers {
    fn new(base: Option<u64>, inputs: Vec<Result<u64, String>>) -> Numbers {
        Numbers { base, inputs, starts: 0, reads: 0 }
    }
}

impl CaseSource for Numbers {
    type Global = u64;
    type Case = u64;
    type GlobalError = String;
    type CaseError = String;

    fn start(&mut self) -> Result<(u64, usize), String> {
        self.starts += 1;
        match self.base {
            Some(base) => Ok((base, self.inputs.len())),
            None => Err("no header".to_string()),
        }
    }

    fn next_case(&mut self) -> Result<u64, String> {
        let r = self.inputs[self.reads].clone();
        self.reads += 1;
        r
    }
}

struct Lines {
    lines: Vec<String>,
    refuse_at: Option<usize>,
}

impl Lines {
    fn new(refuse_at: Option<usize>) -> Lines {
        Lines { lines: Vec::new(), refuse_at }
    }
}

impl Sink for Lines {
    type Solution = u64;

    fn emit(&mut self, case: CaseIndex, solution: u64) -> Result<(), Error> {
        if self.refuse_at == Some(case.offset()) {
            return Err(Error::new(ErrorKind::BrokenPipe, "closed"));
        }
        self.lines.push(format!("case{}: {}", case.offset(), solution));
        Ok(())
    }
}

fn sum(global: &u64, input: u64) -> u64 {
    *global + input
}

#[test]
fn sequential_run_emits_every_case_in_order() {
    let mut source = Reader::new(Numbers::new(Some(100), vec![Ok(1), Ok(2), Ok(3)]));
    let mut sink = Emitter::new(Lines::new(None));
    let r = SequentialExecutor::execute(&mut source, &mut sink, &sum);
    assert!(r.is_ok());
    assert_eq!(sink.sink().lines, vec!["case0: 101", "case1: 102", "case2: 103"]);
    assert_eq!(source.source().starts, 1);
    assert_eq!(source.source().reads, 3);
}

#[test]
fn sequential_run_of_no_cases_reads_and_emits_nothing() {
    let mut source = Reader::new(Numbers::new(Some(100), vec![]));
    let mut sink = Emitter::new(Lines::new(None));
    let r = SequentialExecutor::execute(&mut source, &mut sink, &sum);
    assert!(r.is_ok());
    assert!(sink.sink().lines.is_empty());
    assert_eq!(source.source().reads, 0);
}

#[test]
fn sequential_run_stops_when_context_cannot_be_read() {
    let mut source = Reader::new(Numbers::new(None, vec![Ok(1), Ok(2)]));
    let mut sink = Emitter::new(Lines::new(None));
    let r = SequentialExecutor::execute(&mut source, &mut sink, &sum);
    assert!(matches!(r, Err(ExecutionError::Global(ref why)) if why == "no header"));
    assert!(sink.sink().lines.is_empty());
    assert_eq!(source.source().starts, 1);
    assert_eq!(source.source().reads, 0);
}

#[test]
fn sequential_run_reports_case_that_cannot_be_read() {
    let inputs = vec![Ok(1), Err("garbled".to_string()), Ok(3)];
    let mut source = Reader::new(Numbers::new(Some(100), inputs));
    let mut sink = Emitter::new(Lines::new(None));
    let r = SequentialExecutor::execute(&mut source, &mut sink, &sum);
    assert!(matches!(
        r,
        Err(ExecutionError::Case(CaseError { case, error: CaseErrorKind::Load(ref why) }))
            if case == CaseIndex::at(1) && why == "garbled"
    ));
    assert_eq!(sink.sink().lines, vec!["case0: 101"]);
    assert_eq!(source.source().reads, 2);
}

#[test]
fn sequential_run_reports_case_that_cannot_be_written() {
    let mut source = Reader::new(Numbers::new(Some(100), vec![Ok(1), Ok(2), Ok(3)]));
    let mut sink = Emitter::new(Lines::new(Some(1)));
    let r = SequentialExecutor::execute(&mut source, &mut sink, &sum);
    assert!(matches!(
        r,
        Err(ExecutionError::Case(CaseError { case, error: CaseErrorKind::Print(ref io) }))
            if case == CaseIndex::at(1) && io.kind() == ErrorKind::BrokenPipe
    ));
    assert_eq!(sink.sink().lines, vec!["case0: 101"]);
    assert_eq!(source.source().reads, 2);
}

#[test]
fn sequential_run_cases_under_given_context() {
    let mut source = Reader::new(Numbers::new(Some(0), vec![Ok(5), Ok(6), Ok(7), Ok(8)]));
    let mut sink = Emitter::new(Lines::new(None));
    let r = SequentialExecutor::run_cases(&mut source, &mut sink, &sum, &1000, 2);
    assert!(r.is_ok());
    assert_eq!(sink.sink().lines, vec!["case0: 1005", "case1: 1006"]);
    assert_eq!(source.source().starts, 0);
    assert_eq!(source.source().reads, 2);
    let sink = sink.into_sink();
    assert_eq!(sink.lines.len(), 2);
    let source = source.into_source();
    assert_eq!(source.reads, 2);
}

#[test]
fn sequential_run_cases_reports_failures_by_case() {
    let mut source = Reader::new(Numbers::new(Some(0), vec![Ok(5), Ok(6), Ok(7)]));
    let mut sink = Emitter::new(Lines::new(Some(2)));
    let r = SequentialExecutor::run_cases(&mut source, &mut sink, &sum, &0, 3);
    let e = r.unwrap_err();
    assert_eq!(e.case(), CaseIndex::at(2));
    assert!(e.is_print());
    assert_eq!(sink.sink().lines, vec!["case0: 5", "case1: 6"]);
}
