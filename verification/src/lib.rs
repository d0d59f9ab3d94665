//! Pre-flight verification and setup for a manual Linux-from-scratch style
//! build.
//!
//! The crate holds the logic of three components: a staged-execution
//! framework (`stages`), an environment verification engine that compares
//! tool versions against a minimum-version policy (`engine`, `version`),
//! and an interactive partition selector (`partitions`).  All process
//! spawning and console I/O live outside this crate; every function here is
//! a pure, verified computation over the values such probes produce.

pub mod engine;
pub mod stages;
pub mod partitions;
pub mod text;
pub mod version;
