//! The workers behind the remote helper.

pub mod cryptworker;
pub mod fetch;
pub mod gitworker;
pub mod keyworker;
pub mod push;
pub mod update;
