//! Queries over the index: symbol selection, code extraction, references and
//! content matching.

pub mod content;
pub mod context;
pub mod document;
pub mod imports_query;
pub mod keyword;
pub mod references;
pub mod search;
