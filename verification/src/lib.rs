//! Peak resident set size of a command and of every process that descends
//! from it: the logic of a supervisor that traces a process tree, reads each
//! process's memory counter just before the process goes away, and sums up
//! the readings that count.
//!
//! - [`cli`]: the command line.
//! - [`rollup`]: the kernel's memory summary of a process.
//! - [`table`]: the process table; [`shape`]: when it is a tree.
//! - [`protocol`], [`pump`]: the event pump and what passes between it and
//!   its caller; [`model`], [`laws`]: what the pump is and keeps to.
//! - [`graph`], [`census`], [`report`]: the result of a run.

pub mod census;
pub mod cli;
pub mod graph;
pub mod laws;
pub mod model;
pub mod protocol;
pub mod pump;
pub mod report;
pub mod rollup;
pub mod shape;
pub mod table;
