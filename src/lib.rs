//! Scheduling and lifecycle engine of a self-hosted CI runner orchestrator.
//!
//! The library holds the decisions: which jobs are outstanding, which virtual
//! machines should exist under the host's RAM budget, how each machine moves
//! through its lifecycle, which disk image a new machine boots from, and how
//! uploads are authorised and metered. Performing network calls, spawning
//! processes and touching the disk is left to the caller.
pub mod text;
pub mod size_in_bytes;
pub mod config;
pub mod triplet;
pub mod machine;
pub mod manager;
pub mod jobs;
pub mod auth;
pub mod webhook;
pub mod artifacts;
pub mod run_dir;
pub mod config_fs;
pub mod qemu;
pub mod poll;
mod random;
