//! Log-derived status inference for a container-orchestration deployment.
//!
//! The library scans already-fetched log tails and status text for
//! domain-specific markers: the most recent block height built, a reported
//! sync percentage, and per-service health. All functions here are pure:
//! fetching log text and probing the container runtime are left to the
//! caller, which hands the collected text or probe outcomes in as plain
//! values.

pub mod text;
pub mod extract;
pub mod service;
pub mod config;
pub mod manager;
