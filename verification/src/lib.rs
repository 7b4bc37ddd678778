//! Resumable bulk deletion of vault archives.
//!
//! An inventory names the archives that a vault holds. A completion log names
//! those whose deletion the remote service has confirmed. The library works
//! out which archives are left, hands them out for deletion with a cap on the
//! number in flight, and says after each outcome whether the log gets an
//! entry.

pub mod config;
pub mod convergence;
pub mod executor;
pub mod file_service;
pub mod identifiers;
pub mod inventory;
pub mod progress_log;
pub mod report;
pub mod run_laws;
pub mod run_model;
pub mod string_specs;
