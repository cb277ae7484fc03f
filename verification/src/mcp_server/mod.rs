//! The query tools: their parameters, results and the logic between the index and the answer.

pub mod answers;
pub mod cache;
pub mod error;
pub mod formatting;
pub mod hierarchy;
pub mod models;
pub mod pools;
pub mod reexports;
pub mod server;
pub mod staleness;
pub mod tools;
