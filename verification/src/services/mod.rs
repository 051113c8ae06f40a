//! What the registry does on its own.

pub mod gc_run;
pub mod gc_service;
pub mod guarantees;
