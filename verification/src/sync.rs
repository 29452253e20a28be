//! Per-account synchronisation with the mail server.

pub mod actor;
pub mod batches;
pub mod bodies;
pub mod cycle;
pub mod fetch;
pub mod folders;
pub mod headers;
pub mod opening;
pub mod pool;
pub mod reader;
pub mod status;
