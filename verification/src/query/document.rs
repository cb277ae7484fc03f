//! Rows that list the symbols of one file.

use vstd::prelude::*;

verus! {

/// A symbol of one file as read back from the index, in line order.
#[derive(Debug, Clone)]
pub struct DocumentSymbolRow {
    pub id: i64,
    pub name: String,
    pub kind: String,
    pub start_line: i64,
    pub end_line: i64,
    pub start_col: i64,
    pub end_col: i64,
    pub signature: Option<String>,
    pub documentation: Option<String>,
}

} // verus!
