//! Runs benchmarks under callgrind and reports what they cost.
//!
//! Everything here computes on plain values. Starting processes, touching the file system and
//! printing is left to the program around this library.
pub mod args;
pub mod bench;
pub mod command;
pub mod output;
pub mod paths;
pub mod report;
pub mod stats;
pub mod style;
pub mod text;
