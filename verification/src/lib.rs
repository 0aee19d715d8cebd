//! Run a child command and annotate every line it writes to stdout or
//! stderr with a timestamp and a stream tag, interleaved onto one output
//! stream between a start banner and a finish banner that reports the
//! child's exit code.
//!
//! The library holds everything that decides or formats: interpreting the
//! command line (`cli`), splitting the child's byte streams into lines
//! (`lines`), rendering annotated records and banners (`record`), the
//! decision step of the child-wait loop (`wait`), and the sequencing of one
//! run's output (`session`). Reading the clock is the one outside call
//! (`clock`). Process plumbing — pipes, fork, exec, threads — stays with
//! the caller, which feeds bytes and wait outcomes in and writes the
//! returned records out.

pub mod bytes;
pub mod cli;
pub mod clock;
pub mod lines;
pub mod record;
pub mod session;
pub mod wait;
