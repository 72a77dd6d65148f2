//! An execution engine for graphs of shell scripts.
//!
//! A graph's nodes are scripts; its edges are named pipes (FIFOs) through
//! which the scripts stream bytes to one another, like a shell pipeline
//! arranged as an arbitrary DAG. This crate holds the engine itself:
//! resolving the graph's edges to pipes, computing each script's
//! environment, and supervising the lifecycle of the spawned processes.
//! The operating-system work (creating the FIFOs, writing the script
//! files, spawning, reading) is left to the embedding program, which
//! executes the [`engine::StartPlan`] the engine hands out and feeds
//! observations back as [`engine::TickEvent`]s.

pub mod engine;
pub mod ephemeral;
pub mod graph;
pub mod resolve;
