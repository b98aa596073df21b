//! Core logic of a tool that removes local version-control branches which
//! have already been integrated into a base branch, including branches that
//! were integrated by a squash merge and are therefore invisible to plain
//! ancestry checks.
//!
//! The crate holds the decision logic only: classifying command output,
//! assembling the deletable-branch set, and driving the interactive deletion
//! workflow as an explicit state machine. Running the version-control tool,
//! reading the terminal and printing belong to the surrounding program, which
//! feeds results back in as plain values.

pub mod classify;
pub mod detect;
pub mod text;
pub mod workflow;
