//! The reports of a run.

pub mod cli;
