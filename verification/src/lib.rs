//! The decisions of a container registry's housekeeping: how its configuration is read, which
//! stored manifests are worth keeping, and what a garbage collection pass deletes.
//!
//! Everything here works on plain values. Databases, files and clocks belong to the caller.

pub mod configuration;
pub mod repositories;
pub mod sequences;
pub mod services;
pub mod text;
