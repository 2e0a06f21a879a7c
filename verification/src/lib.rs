//! Incremental reading of a Redis server's slow-command log.

pub mod command;
pub mod failure;
pub mod laws;
pub mod reader;
pub mod record;
pub mod uptime;

pub use failure::ConnectionFailure;
pub use reader::{Poll, SlowlogReader};
pub use record::SlowlogRecord;
