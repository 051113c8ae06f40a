//! What the registry stores about manifests, and the queries over it.

pub mod guarantees;
pub mod manifest_repository;
pub mod models;
pub mod retention;
pub mod sweep;
