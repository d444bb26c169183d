//! An in-process instrumentation core.
//!
//! The library records hierarchical timing spans across one or more logical
//! timelines and merges the finished timelines into a single document with a
//! shared frame table, uniform start/end bounds, and per-timeline event
//! arrays that are bracket-balanced and sorted by timestamp.

pub mod clock;
pub mod encode;
pub mod frame;
pub mod profiler;
pub mod speedscope;
