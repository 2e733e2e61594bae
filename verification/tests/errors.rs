use case_harness::case_index::CaseIndex;
use case_harness::error::{CaseError, CaseErrorKind, ExecutionError, WorkerFault};
use case_harness::pipeline::{conclude, DispatchError};
use std::io::{Error, ErrorKind};

fn broken_pipe() -> Error {
    Error::new(ErrorKind::BrokenPipe, "closed")
}

#[test]
fn case_error_new_keeps_case_and_kind() {
    let e: CaseError<String> = CaseError::new(CaseIndex::at(3), CaseErrorKind::Load("bad".to_string()));
    assert_eq!(e.case(), CaseIndex::at(3));
    assert!(e.is_load());
    assert!(!e.is_print());
    assert!(matches!(e.error, CaseErrorKind::Load(ref s) if s == "bad"));
}

#[test]
fn headline_tells_what_failed() {
    let load: CaseErrorKind<u8> = CaseErrorKind::Load(1);
    assert_eq!(load.headline(), "error loading data for");
    let print: CaseErrorKind<u8> = CaseErrorKind::Print(broken_pipe());
    assert_eq!(print.headline(), "error writing solution to");
}

#[test]
fn case_error_load_error() {
    let e = CaseError::load_error(CaseIndex::at(1), 17u32);
    assert_eq!(e.case, CaseIndex::at(1));
    assert!(matches!(e.error, CaseErrorKind::Load(17)));
}

#[test]
fn case_error_print_error() {
    let e: CaseError<u32> = CaseError::print_error(CaseIndex::at(2), broken_pipe());
    assert_eq!(e.case, CaseIndex::at(2));
    assert!(e.is_print());
    assert!(matches!(e.error, CaseErrorKind::Print(ref io) if io.kind() == ErrorKind::BrokenPipe));
}

#[test]
fn execution_error_global_error() {
    let e: ExecutionError<&str, u32> = ExecutionError::global_error("truncated");
    assert!(matches!(e, ExecutionError::Global("truncated")));
}

#[test]
fn execution_error_load_error() {
    let e: ExecutionError<&str, u32> = ExecutionError::load_error(CaseIndex::at(4), 9);
    assert!(matches!(
        e,
        ExecutionError::Case(CaseError { case, error: CaseErrorKind::Load(9) }) if case == CaseIndex::at(4)
    ));
}

#[test]
fn execution_error_print_error() {
    let e: ExecutionError<&str, u32> = ExecutionError::print_error(CaseIndex::at(5), broken_pipe());
    assert!(matches!(
        e,
        ExecutionError::Case(CaseError { case, error: CaseErrorKind::Print(_) }) if case == CaseIndex::at(5)
    ));
}

#[test]
fn execution_error_worker_fault() {
    let e: ExecutionError<&str, u32> = ExecutionError::worker_fault(WorkerFault::Halted);
    assert!(matches!(e, ExecutionError::Worker(WorkerFault::Halted)));
}

fn load(case: usize) -> Option<Result<(), DispatchError<u32>>> {
    Some(Err(DispatchError::Load(CaseIndex::at(case), 40)))
}

fn refused(case: usize) -> Option<Result<usize, (CaseIndex, Error)>> {
    Some(Err((CaseIndex::at(case), broken_pipe())))
}

fn is_halted(r: &Result<(), ExecutionError<&str, u32>>) -> bool {
    matches!(r, Err(ExecutionError::Worker(WorkerFault::Halted)))
}

fn is_load_at(r: &Result<(), ExecutionError<&str, u32>>, at: usize) -> bool {
    matches!(
        r,
        Err(ExecutionError::Case(CaseError { case, error: CaseErrorKind::Load(40) }))
            if *case == CaseIndex::at(at)
    )
}

fn is_print_at(r: &Result<(), ExecutionError<&str, u32>>, at: usize) -> bool {
    matches!(
        r,
        Err(ExecutionError::Case(CaseError { case, error: CaseErrorKind::Print(_) }))
            if *case == CaseIndex::at(at)
    )
}

fn is_missing_at(r: &Result<(), ExecutionError<&str, u32>>, at: usize) -> bool {
    matches!(
        r,
        Err(ExecutionError::Worker(WorkerFault::Missing(case))) if *case == CaseIndex::at(at)
    )
}

#[test]
fn conclude_succeeds_when_every_case_was_emitted() {
    let r: Result<(), ExecutionError<&str, u32>> = conclude(Some(Ok(())), Some(Ok(3)), 3);
    assert!(r.is_ok());
    let r: Result<(), ExecutionError<&str, u32>> = conclude(Some(Ok(())), Some(Ok(0)), 0);
    assert!(r.is_ok());
}

#[test]
fn conclude_reports_missing_solution() {
    assert!(is_missing_at(&conclude(Some(Ok(())), Some(Ok(2)), 3), 2));
    assert!(is_missing_at(&conclude(load(2), Some(Ok(1)), 3), 1));
}

#[test]
fn conclude_reports_refused_solution() {
    assert!(is_print_at(&conclude(Some(Ok(())), refused(1), 3), 1));
    assert!(is_print_at(&conclude(Some(Ok(())), refused(2), 3), 2));
}

#[test]
fn conclude_puts_load_failure_before_refused_solution() {
    assert!(is_load_at(&conclude(load(2), refused(0), 3), 2));
    assert!(is_load_at(&conclude(load(2), refused(1), 3), 2));
}

#[test]
fn conclude_reports_load_failure_when_every_earlier_case_was_emitted() {
    assert!(is_load_at(&conclude(load(1), Some(Ok(1)), 3), 1));
    assert!(is_load_at(&conclude(load(0), Some(Ok(0)), 3), 0));
}

#[test]
fn conclude_reports_worker_that_was_not_started() {
    let r: Result<(), ExecutionError<&str, u32>> =
        conclude(Some(Err(DispatchError::NotStarted(CaseIndex::at(1)))), Some(Ok(1)), 3);
    assert!(matches!(
        r,
        Err(ExecutionError::Worker(WorkerFault::NotStarted(case))) if case == CaseIndex::at(1)
    ));
}

#[test]
fn conclude_reports_halted_thread_when_report_or_return_is_missing() {
    assert!(is_halted(&conclude(None, Some(Ok(3)), 3)));
    assert!(is_halted(&conclude(None, refused(0), 3)));
    assert!(is_halted(&conclude(Some(Ok(())), None, 3)));
    assert!(is_halted(&conclude(load(1), None, 3)));
    assert!(is_halted(&conclude(None, None, 3)));
}

#[test]
fn conclude_reports_halted_thread_when_a_solution_has_no_worker() {
    assert!(is_halted(&conclude(Some(Ok(())), Some(Ok(4)), 3)));
    assert!(is_halted(&conclude(Some(Ok(())), refused(3), 3)));
    assert!(is_halted(&conclude(load(1), Some(Ok(2)), 3)));
    assert!(is_halted(&conclude(load(1), refused(1), 3)));
}

#[test]
fn message_of_load_failure_names_case_and_cause() {
    let e = CaseError::load_error(CaseIndex::at(1), "garbled".to_string());
    assert_eq!(e.message(), "error loading data for Case #2: garbled");
}

#[test]
fn message_of_print_failure_names_case_and_cause() {
    let e: CaseError<String> = CaseError::print_error(CaseIndex::at(0), broken_pipe());
    assert_eq!(e.message(), "error writing solution to Case #1: closed");
}

#[test]
fn message_of_worker_fault() {
    assert_eq!(
        WorkerFault::NotStarted(CaseIndex::at(2)).message(),
        "no worker could be started for Case #3"
    );
    assert_eq!(WorkerFault::Missing(CaseIndex::at(11)).message(), "no solution arrived for Case #12");
    assert_eq!(WorkerFault::Halted.message(), "a worker thread ended abnormally");
}

#[test]
fn message_of_execution_error() {
    let e: ExecutionError<String, String> = ExecutionError::global_error("no header".to_string());
    assert_eq!(e.message(), "no header");
    let e: ExecutionError<String, String> = ExecutionError::load_error(CaseIndex::at(4), "eof".to_string());
    assert_eq!(e.message(), "error loading data for Case #5: eof");
    let e: ExecutionError<String, String> = ExecutionError::print_error(CaseIndex::at(4), broken_pipe());
    assert_eq!(e.message(), "error writing solution to Case #5: closed");
    let e: ExecutionError<String, String> = ExecutionError::worker_fault(WorkerFault::Halted);
    assert_eq!(e.message(), "a worker thread ended abnormally");
}
