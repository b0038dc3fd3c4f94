//! Multithreaded directory-copy core: a parallel tree scanner with
//! pending-counter termination, a pull-based copy dispatcher with
//! idle-counter termination, and the statistics and error types the
//! two phases exchange.
//!
//! The coordination protocols, the per-item copy policy, and path
//! re-rooting are verified here; thread spawning, channels, and real
//! filesystem access live with the surrounding binary.

pub mod config;
pub mod copy;
pub mod copy_laws;
pub mod copy_model;
pub mod errors;
pub mod fs_model;
pub mod paths;
pub mod scan;
pub mod scan_model;
pub mod stats;
