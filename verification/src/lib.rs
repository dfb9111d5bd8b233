//! Memori: a multi-dimensional benchmarking suite.
//!
//! Competing functions are registered in a [`Func`] together with benchmark
//! scenarios ([`Bench::Instant`] for trend tracking on one representative input,
//! [`Bench::Scaling`] for growth over a series of inputs). Every function is
//! measured against every scenario; each measurement records CPU cycles,
//! hardware instructions, wall-clock time and heap allocations
//! ([`Measurement`]). The results are kept as numbered history files per suite
//! and gathered into one HTML report page.
//!
//! This crate holds the decisions of all of that: how a measuring run proceeds
//! and what it reports ([`runner::RunState`]), how allocations are counted
//! ([`allocator`]), in which order a suite measures its cells
//! ([`func::schedule`]), how the report of a suite run is assembled, when the
//! suite's metadata is rewritten, how history files are numbered, which
//! history files the report page shows and the JSON data it embeds
//! ([`func::page_data`]), and how the page itself is put together
//! ([`func::page`]). Reading and writing files, the hardware counters and the
//! program's entry point are left to the program that uses it.
pub mod allocator;
pub mod bench;
pub mod func;
pub mod keyed;
pub mod runner;
pub mod text;

pub use allocator::{AllocCounts, TrackingAllocator};
pub use func::output::{BenchJsonEntry, BenchJsonReport, FuncMetadata, PatternMetadata};
pub use func::{Bench, BenchPattern, Func};
pub use keyed::KeyedList;
pub use runner::measurement::Measurement;
pub use runner::Runner;
