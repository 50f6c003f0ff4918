//! A parallel command runner: input lines become jobs, each job runs in one of
//! a pool of persistent shells, and the output of every job is framed by a
//! random completion marker, spilled to a file when large, and handed on in
//! the order of submission when asked.
//!
//! This crate holds the logic of that runner: the output framing and spill
//! policy, the reorder buffer, the broker's backpressure decisions, the
//! command template and its substitution.

pub mod command;
pub mod framing;
pub mod jobs;
pub mod ordering;
pub mod shell;
mod text;
pub mod tokenize;
