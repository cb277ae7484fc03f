//! Error codes of the query tools.

use crate::error::CortexError;
use vstd::prelude::*;
use vstd::std_specs::convert::FromSpecImpl;

verus! {

/// A JSON value (`serde_json::Value`), carried as it is.
#[verifier::external_type_specification]
#[verifier::external_body]
pub struct ExJsonValue(serde_json::Value);

/// Structured error codes.
#[derive(Debug, Clone, Copy, PartialEq, Eq, Structural)]
pub enum ErrorCode {
    DatabaseError,
    FileNotFound,
    SymbolNotFound,
    InvalidPath,
    IndexingFailed,
    ParseError,
    AmbiguousSymbol,
    InvalidParameters,
    IoError,
    ConfigError,
    InternalError,
}

impl ErrorCode {
    /// The snake-case name of the code.
    pub open spec fn name(self) -> Seq<char> {
        match self {
            ErrorCode::DatabaseError => "database_error"@,
            ErrorCode::FileNotFound => "file_not_found"@,
            ErrorCode::SymbolNotFound => "symbol_not_found"@,
            ErrorCode::InvalidPath => "invalid_path"@,
            ErrorCode::IndexingFailed => "indexing_failed"@,
            ErrorCode::ParseError => "parse_error"@,
            ErrorCode::AmbiguousSymbol => "ambiguous_symbol"@,
            ErrorCode::InvalidParameters => "invalid_parameters"@,
            ErrorCode::IoError => "io_error"@,
            ErrorCode::ConfigError => "config_error"@,
            ErrorCode::InternalError => "internal_error"@,
        }
    }

    /// The snake-case name of the code.
    pub fn as_str(&self) -> (r: &'static str)
        ensures
            r@ == self.name(),
    {
        match self {
            ErrorCode::DatabaseError => "database_error",
            ErrorCode::FileNotFound => "file_not_found",
            ErrorCode::SymbolNotFound => "symbol_not_found",
            ErrorCode::InvalidPath => "invalid_path",
            ErrorCode::IndexingFailed => "indexing_failed",
            ErrorCode::ParseError => "parse_error",
            ErrorCode::AmbiguousSymbol => "ambiguous_symbol",
            ErrorCode::InvalidParameters => "invalid_parameters",
            ErrorCode::IoError => "io_error",
            ErrorCode::ConfigError => "config_error",
            ErrorCode::InternalError => "internal_error",
        }
    }
}

/// The error code that a library error is reported under.
pub open spec fn code_of(e: CortexError) -> ErrorCode {
    match e {
        CortexError::Database(_) => ErrorCode::DatabaseError,
        CortexError::FileNotFound(_) => ErrorCode::FileNotFound,
        CortexError::SymbolNotFound(_) => ErrorCode::SymbolNotFound,
        CortexError::Parse(_) => ErrorCode::ParseError,
        CortexError::Indexer(_) => ErrorCode::IndexingFailed,
        CortexError::Config(_) => ErrorCode::ConfigError,
        CortexError::Io(_) => ErrorCode::IoError,
        CortexError::Query(_) => ErrorCode::DatabaseError,
        CortexError::Mcp(_) => ErrorCode::InternalError,
        CortexError::Watcher(_) => ErrorCode::InternalError,
        CortexError::Embedding(_) => ErrorCode::InternalError,
        CortexError::Update(_) => ErrorCode::InternalError,
    }
}

/// The message a library error carries.
pub open spec fn error_message(e: CortexError) -> String {
    match e {
        CortexError::Database(m) => m,
        CortexError::FileNotFound(m) => m,
        CortexError::SymbolNotFound(m) => m,
        CortexError::Parse(m) => m,
        CortexError::Indexer(m) => m,
        CortexError::Config(m) => m,
        CortexError::Io(m) => m,
        CortexError::Query(m) => m,
        CortexError::Mcp(m) => m,
        CortexError::Watcher(m) => m,
        CortexError::Embedding(m) => m,
        CortexError::Update(m) => m,
    }
}

/// The message a library error carries, as characters.
pub open spec fn message_of(e: CortexError) -> Seq<char> {
    match e {
        CortexError::Database(m) => m@,
        CortexError::FileNotFound(m) => m@,
        CortexError::SymbolNotFound(m) => m@,
        CortexError::Parse(m) => m@,
        CortexError::Indexer(m) => m@,
        CortexError::Config(m) => m@,
        CortexError::Io(m) => m@,
        CortexError::Query(m) => m@,
        CortexError::Mcp(m) => m@,
        CortexError::Watcher(m) => m@,
        CortexError::Embedding(m) => m@,
        CortexError::Update(m) => m@,
    }
}

/// The code and message a library error is reported with.
pub fn classify_error(e: CortexError) -> (r: (ErrorCode, String))
    ensures
        r.0 == code_of(e),
        r.1 == error_message(e),
        r.1@ == message_of(e),
{
    match e {
        CortexError::Database(m) => (ErrorCode::DatabaseError, m),
        CortexError::FileNotFound(m) => (ErrorCode::FileNotFound, m),
        CortexError::SymbolNotFound(m) => (ErrorCode::SymbolNotFound, m),
        CortexError::Parse(m) => (ErrorCode::ParseError, m),
        CortexError::Indexer(m) => (ErrorCode::IndexingFailed, m),
        CortexError::Config(m) => (ErrorCode::ConfigError, m),
        CortexError::Io(m) => (ErrorCode::IoError, m),
        CortexError::Query(m) => (ErrorCode::DatabaseError, m),
        CortexError::Mcp(m) => (ErrorCode::InternalError, m),
        CortexError::Watcher(m) => (ErrorCode::InternalError, m),
        CortexError::Embedding(m) => (ErrorCode::InternalError, m),
        CortexError::Update(m) => (ErrorCode::InternalError, m),
    }
}

/// A structured error of the query tools: a code, a message, and optional details.
#[derive(Debug, Clone)]
pub struct McpError {
    pub code: ErrorCode,
    pub message: String,
    pub details: Option<serde_json::Value>,
}

impl McpError {
    /// An error without details.
    pub fn new(code: ErrorCode, message: String) -> (r: Self)
        ensures
            r.code == code,
            r.message == message,
            r.details is None,
    {
        McpError { code, message, details: None }
    }

    /// The error with `details` added.
    pub fn with_details(self, details: serde_json::Value) -> (r: Self)
        ensures
            r.code == self.code,
            r.message == self.message,
            r.details == Some(details),
    {
        McpError { code: self.code, message: self.message, details: Some(details) }
    }
}

/// The tool error a library error becomes: its code, and its message as it is.
pub open spec fn mcp_error_of(e: CortexError) -> McpError {
    McpError { code: code_of(e), message: error_message(e), details: None }
}

impl From<CortexError> for McpError {
    fn from(err: CortexError) -> (r: McpError) {
        let (code, message) = classify_error(err);
        McpError::new(code, message)
    }
}

impl FromSpecImpl<CortexError> for McpError {
    open spec fn obeys_from_spec() -> bool {
        true
    }

    open spec fn from_spec(err: CortexError) -> McpError {
        mcp_error_of(err)
    }
}

} // verus!
