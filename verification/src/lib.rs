//! Verified core of a small query-serving pipeline.
//!
//! The library contains the pieces of the pipeline that are pure logic and
//! proves their contracts: the line-oriented plan parser, the predicate and
//! aggregate expression grammars, the plan compiler that maps parsed steps
//! onto engine operations, the admission-controlled scheduler core, and the
//! output materializer that decides between inline and spilled delivery.
//! The surrounding process (HTTP transport, the columnar engine runs, file
//! and metrics I/O) lives outside the library and only feeds it plain values.

pub mod exprs;
pub mod output;
pub mod parser;
pub mod plan;
pub mod sched;
