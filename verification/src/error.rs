//! Errors of the library.

use vstd::prelude::*;

verus! {

/// Everything that can go wrong in indexing and querying.
#[derive(Debug, Clone, PartialEq, Eq)]
pub enum CortexError {
    Io(String),
    Database(String),
    Parse(String),
    Config(String),
    Indexer(String),
    Embedding(String),
    Query(String),
    Mcp(String),
    Watcher(String),
    FileNotFound(String),
    SymbolNotFound(String),
    Update(String),
}

impl CortexError {
    /// The human-readable form of the error.
    pub open spec fn text(self) -> Seq<char> {
        match self {
            CortexError::Io(m) => "IO error: "@ + m@,
            CortexError::Database(m) => "Database error: "@ + m@,
            CortexError::Parse(m) => "Parse error: "@ + m@,
            CortexError::Config(m) => "Config error: "@ + m@,
            CortexError::Indexer(m) => "Indexer error: "@ + m@,
            CortexError::Embedding(m) => "Embedding error: "@ + m@,
            CortexError::Query(m) => "Query error: "@ + m@,
            CortexError::Mcp(m) => "MCP server error: "@ + m@,
            CortexError::Watcher(m) => "Watcher error: "@ + m@,
            CortexError::FileNotFound(m) => "File not found: "@ + m@,
            CortexError::SymbolNotFound(m) => "Symbol not found: "@ + m@,
            CortexError::Update(m) => "Update error: "@ + m@,
        }
    }

    /// The human-readable form of the error.
    pub fn message(&self) -> (r: String)
        ensures
            r@ == self.text(),
    {
        let (prefix, m) = match self {
            CortexError::Io(m) => ("IO error: ", m),
            CortexError::Database(m) => ("Database error: ", m),
            CortexError::Parse(m) => ("Parse error: ", m),
            CortexError::Config(m) => ("Config error: ", m),
            CortexError::Indexer(m) => ("Indexer error: ", m),
            CortexError::Embedding(m) => ("Embedding error: ", m),
            CortexError::Query(m) => ("Query error: ", m),
            CortexError::Mcp(m) => ("MCP server error: ", m),
            CortexError::Watcher(m) => ("Watcher error: ", m),
            CortexError::FileNotFound(m) => ("File not found: ", m),
            CortexError::SymbolNotFound(m) => ("Symbol not found: ", m),
            CortexError::Update(m) => ("Update error: ", m),
        };
        let mut r = prefix.to_owned();
        r.append(m.as_str());
        r
    }
}

} // verus!
