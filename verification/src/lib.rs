//! A harness that runs a batch of independent cases.
//!
//! A batch is one shared context and a number of cases. A run reads the
//! context and then one input per case from a sequential source, computes
//! one solution per case, and hands the solutions to a sink in case order,
//! whether the solutions were computed one after the other or by parallel
//! workers that finish in any order.
//!
//! The parts, from the leaves up:
//!
//! - `text`: numbers as text, for the reports;
//! - `case_index`: the position of a case in its run;
//! - `error`: the failures that end a run, and how they are reported;
//! - `decode`: how the failures of decoding tokens are reported;
//! - `source` and `sink`: what the user of the harness provides, each with
//!   a record of what the harness asked of it, over which the contracts of
//!   the executors are stated;
//! - `reorder`: the reorder buffer as mathematics, and what is proved of it;
//! - `collector`: the reorder buffer as executable state;
//! - `channel` and `workers`: the bounded channel and the scoped threads of
//!   a parallel run, taken from `crossbeam` without proof;
//! - `pipeline`: the dispatcher, the workers and the collector of a parallel
//!   run;
//! - `executor`: the sequential and the parallel executor.

pub mod text;
pub mod case_index;
pub mod error;
pub mod decode;
pub mod sink;
pub mod source;
pub mod reorder;
pub mod collector;
pub mod channel;
pub mod workers;
pub mod pipeline;
pub mod executor;
