//! Cortex: a local code-context engine. This crate holds the verified core:
//! symbol extraction over syntax trees, identifier tokenisation, symbol
//! selection and ranking, reference classification, content matching,
//! report synthesis and directory listings.

pub mod config;
pub mod error;
pub mod indexer;
pub mod mcp_server;
pub mod models;
pub mod parser;
pub mod paths;
pub mod query;
pub mod report;
pub mod scanner;
pub mod syntax;
pub mod text;
pub mod update;
pub mod watcher;

use vstd::prelude::*;

verus! {

} // verus!
