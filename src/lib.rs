//! Measurement primitives of a memory-subsystem microbenchmark: cache-line
//! sized records, a sequential scan, a randomized pointer chase over a single
//! cycle, and the word-buffer passes behind the bandwidth probes.
//!
//! Every primitive here is a pure computation over its buffers with an exact
//! contract, or draws from an explicitly passed generator; timing and printing
//! are left to the caller.

pub mod bandwidth;
pub mod chase;
pub mod random;
pub mod records;
pub mod sequential;
pub mod size_label;
pub mod sweep;
