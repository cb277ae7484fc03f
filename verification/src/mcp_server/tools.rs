//! The decisions of the query tools between the requests and the index:
//! request checks, defaults and limits, and the answers built from the rows.

use crate::error::CortexError;
use crate::indexer::db::{ImportRow, SymbolRow};
use crate::mcp_server::models::{
    ContentMatchEntry, ContentSearchResult, FindReferencesResult, ImportAnalysisResult,
    ImportEntry, KeywordSearchResult, ReferenceMatchEntry, SearchResult, SymbolMatch,
};
use crate::mcp_server::server::{
    kind_named, parse_symbol_kind, FindReferencesRequest, GetCodeContextRequest,
    SearchByKeywordRequest, SearchContentRequest, SearchSymbolsRequest,
};
use crate::query::content::ContentMatch;
use crate::query::imports_query::ImportAnalysis;
use crate::query::references::ReferenceMatch;
use crate::text::{is_whitespace, trim};
use vstd::prelude::*;

verus! {

// ---------------------------------------------------------------------------
// Errors
// ---------------------------------------------------------------------------

/// An error answer of a tool: a code and a message.
#[derive(Debug, Clone)]
pub struct ToolError {
    pub code: String,
    pub message: String,
}

/// An error answer with the given code and message.
pub fn tool_error(code: &str, message: &str) -> (e: ToolError)
    ensures
        e.code@ == code@,
        e.message@ == message@,
{
    ToolError { code: code.to_owned(), message: message.to_owned() }
}

/// `s` is empty or whitespace only.
pub fn is_blank(s: &str) -> (b: bool)
    ensures
        b == (trim(s@).len() == 0),
{
    let cs = crate::text::to_chars(s);
    let t = crate::text::trim_chars(cs.as_slice());
    t.len() == 0
}

/// The answer to a parameter that must not be blank: `invalid_parameters`
/// with `message` when `value` is blank.
pub fn require_nonblank(value: &str, message: &str) -> (r: Result<(), ToolError>)
    ensures
        r is Err <==> trim(value@).len() == 0,
        r matches Err(e) ==> e.code@ == "invalid_parameters"@ && e.message@ == message@,
{
    if is_blank(value) {
        Err(tool_error("invalid_parameters", message))
    } else {
        Ok(())
    }
}

/// The error code under which a failed symbol lookup is answered.
pub open spec fn lookup_error_code(e: CortexError) -> Seq<char> {
    match e {
        CortexError::SymbolNotFound(_) => "symbol_not_found"@,
        CortexError::FileNotFound(_) => "file_not_found"@,
        _ => "query_error"@,
    }
}

/// The message of a failed lookup of `symbol_name`: `Symbol '<name>' not
/// found` where no symbol of that name was found, and otherwise the error's
/// text (an ambiguity, a name missing from a given file, a query failure).
pub open spec fn lookup_error_message(e: CortexError, symbol_name: Seq<char>) -> Seq<char> {
    match e {
        CortexError::SymbolNotFound(m) => if m@ == symbol_name {
            "Symbol '"@ + symbol_name + "' not found"@
        } else {
            e.text()
        },
        _ => e.text(),
    }
}

/// The answer to a failed lookup of `symbol_name`: its code and message.
pub fn lookup_error(e: &CortexError, symbol_name: &str) -> (r: ToolError)
    ensures
        r.code@ == lookup_error_code(*e),
        r.message@ == lookup_error_message(*e, symbol_name@),
{
    let code = match e {
        CortexError::SymbolNotFound(_) => "symbol_not_found",
        CortexError::FileNotFound(_) => "file_not_found",
        _ => "query_error",
    };
    let message = match e {
        CortexError::SymbolNotFound(m) => if crate::text::str_eq(m.as_str(), symbol_name) {
            let mut t = "Symbol '".to_owned();
            t.append(symbol_name);
            t.append("' not found");
            t
        } else {
            e.message()
        },
        _ => e.message(),
    };
    ToolError { code: code.to_owned(), message }
}

/// A symbol offered in place of one that was not found.
#[derive(Debug, Clone)]
pub struct SymbolSuggestion {
    pub name: String,
    pub kind: String,
    pub file_path: String,
    pub signature: Option<String>,
}

/// The suggestion made of a row.
pub open spec fn suggestion_of(row: SymbolRow, s: SymbolSuggestion) -> bool {
    &&& s.name == row.name
    &&& s.kind == row.kind
    &&& s.file_path == row.path
    &&& s.signature == row.signature
}

/// The suggestions offered after a failed lookup: one per row of the
/// similar-name search, in order, with its name, kind, path and signature.
pub fn symbol_suggestions(rows: Vec<SymbolRow>) -> (r: Vec<SymbolSuggestion>)
    ensures
        r@.len() == rows@.len(),
        forall|i: int| 0 <= i < rows@.len() ==> suggestion_of(rows@[i], #[trigger] r@[i]),
{
    let mut r: Vec<SymbolSuggestion> = Vec::new();
    let mut k: usize = 0;
    while k < rows.len()
        invariant
            k <= rows@.len(),
            r@.len() == k,
            forall|i: int| 0 <= i < k ==> suggestion_of(rows@[i], #[trigger] r@[i]),
        decreases rows@.len() - k,
    {
        let row = &rows[k];
        r.push(
            SymbolSuggestion {
                name: row.name.clone(),
                kind: row.kind.clone(),
                file_path: row.path.clone(),
                signature: row.signature.clone(),
            },
        );
        k = k + 1;
    }
    r
}

// ---------------------------------------------------------------------------
// Limits
// ---------------------------------------------------------------------------

/// `value`, or `default` where it is absent, at most `max`.
pub open spec fn clamped(value: Option<u32>, default: u32, max: u32) -> u32 {
    let v = match value {
        Some(x) => x,
        None => default,
    };
    if v <= max {
        v
    } else {
        max
    }
}

/// `value`, or `default` where it is absent, at most `max`.
pub fn clamp_or(value: Option<u32>, default: u32, max: u32) -> (r: usize)
    ensures
        r as int == clamped(value, default, max) as int,
{
    let v = match value {
        Some(x) => x,
        None => default,
    };
    let c = if v <= max {
        v
    } else {
        max
    };
    c as usize
}

// ---------------------------------------------------------------------------
// Symbol search
// ---------------------------------------------------------------------------

/// The page a symbol search asks for: `(limit, offset)`, the limit 50 by
/// default and at most 100, the offset 0 by default; an error for a blank query.
pub fn search_symbols_page(req: &SearchSymbolsRequest) -> (r: Result<(usize, usize), ToolError>)
    ensures
        r is Err <==> trim(req.query@).len() == 0,
        r matches Err(e) ==> e.code@ == "invalid_parameters"@ && e.message@ == "Query cannot be empty"@,
        r matches Ok((limit, offset)) ==> limit as int == clamped(req.limit, 50, 100) as int
            && offset as int == (match req.offset {
            Some(o) => o as int,
            None => 0,
        }),
{
    match require_nonblank(req.query.as_str(), "Query cannot be empty") {
        Err(e) => Err(e),
        Ok(()) => {
            let limit = clamp_or(req.limit, 50, 100);
            let offset = match req.offset {
                Some(o) => o as usize,
                None => 0,
            };
            Ok((limit, offset))
        },
    }
}

/// The search mode of a symbol search, `contains` by default.
pub fn search_mode_of(req: &SearchSymbolsRequest) -> (r: String)
    ensures
        r@ == (match req.search_mode {
            Some(m) => m@,
            None => "contains"@,
        }),
{
    match &req.search_mode {
        Some(m) => m.clone(),
        None => "contains".to_owned(),
    }
}

/// The symbol of a row, its kind read from its name.
pub open spec fn symbol_match_of(row: SymbolRow, m: SymbolMatch) -> bool {
    &&& m.id == row.id
    &&& m.name == row.name
    &&& m.kind == kind_named(row.kind@)
    &&& m.file_path == row.path
    &&& m.project_root == row.project_root
    &&& m.start_line == row.start_line
    &&& m.end_line == row.end_line
    &&& m.signature == row.signature
    &&& m.language == row.language
}

/// The symbols of the rows, in order.
pub fn symbol_matches(rows: Vec<SymbolRow>) -> (r: Vec<SymbolMatch>)
    ensures
        r@.len() == rows@.len(),
        forall|k: int| 0 <= k < rows@.len() ==> symbol_match_of(rows@[k], #[trigger] r@[k]),
{
    let ghost orig = rows@;
    let n = rows.len();
    let mut rows = rows;
    let mut r: Vec<SymbolMatch> = Vec::new();
    let mut k: usize = 0;
    while k < n
        invariant
            k <= n,
            n == orig.len(),
            rows@ == orig.skip(k as int),
            r@.len() == k,
            forall|q: int| 0 <= q < k ==> symbol_match_of(orig[q], #[trigger] r@[q]),
        decreases n - k,
    {
        let row = rows.remove(0);
        assert(row == orig[k as int]);
        let kind = parse_symbol_kind(row.kind.as_str());
        r.push(
            SymbolMatch {
                id: row.id,
                name: row.name,
                kind,
                file_path: row.path,
                project_root: row.project_root,
                start_line: row.start_line,
                end_line: row.end_line,
                signature: row.signature,
                language: row.language,
            },
        );
        assert(rows@ =~= orig.skip(k + 1));
        k = k + 1;
    }
    r
}

/// The total a count query reports, or the number of rows where it failed
/// (each read as a `u32`).
pub open spec fn total_of(count: Option<i64>, rows: nat) -> u32 {
    match count {
        Some(c) => c as u32,
        None => rows as u32,
    }
}

/// The answer to a symbol search: the symbols of the first `limit` rows (a
/// page never holds more), the total, and whether there are more after this
/// page.
pub fn search_result(rows: Vec<SymbolRow>, count: Option<i64>, limit: usize, offset: usize) -> (r:
    SearchResult)
    requires
        offset + limit <= usize::MAX,
    ensures
        r.total_count == total_of(count, rows@.len()),
        r.has_more == (offset + limit < r.total_count),
        r.symbols@.len() == (if rows@.len() <= limit {
            rows@.len()
        } else {
            limit as nat
        }),
        r.symbols@.len() <= limit,
        forall|k: int|
            0 <= k < r.symbols@.len() ==> symbol_match_of(rows@[k], #[trigger] r.symbols@[k]),
{
    let total_count: u32 = match count {
        Some(c) => c as u32,
        None => rows.len() as u32,
    };
    let has_more = (offset + limit) < total_count as usize;
    let ghost all = rows@;
    let mut page = rows;
    page.truncate(limit);
    assert(forall|k: int| 0 <= k < page@.len() ==> page@[k] == all[k]);
    SearchResult { symbols: symbol_matches(page), total_count, has_more }
}

// ---------------------------------------------------------------------------
// Keyword search
// ---------------------------------------------------------------------------

/// The limit of a keyword search, 50 by default and at most 100; an error
/// for a blank query.
pub fn keyword_search_limit(req: &SearchByKeywordRequest) -> (r: Result<usize, ToolError>)
    ensures
        r is Err <==> trim(req.query@).len() == 0,
        r matches Err(e) ==> e.code@ == "invalid_parameters"@ && e.message@ == "Query cannot be empty"@,
        r matches Ok(limit) ==> limit as int == clamped(req.limit, 50, 100) as int,
{
    match require_nonblank(req.query.as_str(), "Query cannot be empty") {
        Err(e) => Err(e),
        Ok(()) => Ok(clamp_or(req.limit, 50, 100)),
    }
}

/// The answer to a keyword search: the symbols of the rows, the total, and
/// whether the total exceeds the rows returned.
pub fn keyword_result(query: String, rows: Vec<SymbolRow>, count: Option<i64>) -> (r:
    KeywordSearchResult)
    ensures
        r.query == query,
        r.total_count == total_of(count, rows@.len()),
        r.has_more == (rows@.len() < r.total_count),
        r.symbols@.len() == rows@.len(),
        forall|k: int| 0 <= k < rows@.len() ==> symbol_match_of(rows@[k], #[trigger] r.symbols@[k]),
{
    let total_count: u32 = match count {
        Some(c) => c as u32,
        None => rows.len() as u32,
    };
    let has_more = rows.len() < total_count as usize;
    KeywordSearchResult { query, total_count, has_more, symbols: symbol_matches(rows) }
}

// ---------------------------------------------------------------------------
// Content search and references
// ---------------------------------------------------------------------------

/// The limits of a content search: `(limit, context_lines)`, 50 and 2 by
/// default, at most 200 and 10; an error for a blank pattern.
pub fn content_search_limits(req: &SearchContentRequest) -> (r: Result<(usize, usize), ToolError>)
    ensures
        r is Err <==> trim(req.pattern@).len() == 0,
        r matches Err(e) ==> e.code@ == "invalid_parameters"@ && e.message@
            == "Pattern cannot be empty"@,
        r matches Ok((limit, ctx)) ==> limit as int == clamped(req.limit, 50, 200) as int
            && ctx as int == clamped(req.context_lines, 2, 10) as int,
{
    match require_nonblank(req.pattern.as_str(), "Pattern cannot be empty") {
        Err(e) => Err(e),
        Ok(()) => Ok((clamp_or(req.limit, 50, 200), clamp_or(req.context_lines, 2, 10))),
    }
}

/// A match entry carries the match's fields.
pub open spec fn content_entry_of(m: ContentMatch, e: ContentMatchEntry) -> bool {
    &&& e.file_path == m.file_path
    &&& e.project_root == m.project_root
    &&& e.line_number == m.line_number
    &&& e.line_content == m.line_content
    &&& e.context_before == m.context_before
    &&& e.context_after == m.context_after
}

/// The answer to a content search: the matches, their number, and whether
/// the limit was reached.
pub fn content_search_result(pattern: String, matches: Vec<ContentMatch>, limit: usize) -> (r:
    ContentSearchResult)
    requires
        limit <= u32::MAX,
    ensures
        r.pattern == pattern,
        r.total_count == matches@.len() as u32,
        r.has_more == (r.total_count >= limit),
        r.matches@.len() == matches@.len(),
        forall|k: int|
            0 <= k < matches@.len() ==> content_entry_of(matches@[k], #[trigger] r.matches@[k]),
{
    let total_count = matches.len() as u32;
    let has_more = total_count >= limit as u32;
    let ghost orig = matches@;
    let n = matches.len();
    let mut matches = matches;
    let mut entries: Vec<ContentMatchEntry> = Vec::new();
    let mut k: usize = 0;
    while k < n
        invariant
            k <= n,
            n == orig.len(),
            matches@ == orig.skip(k as int),
            entries@.len() == k,
            forall|q: int| 0 <= q < k ==> content_entry_of(orig[q], #[trigger] entries@[q]),
        decreases n - k,
    {
        let m = matches.remove(0);
        assert(m == orig[k as int]);
        entries.push(
            ContentMatchEntry {
                file_path: m.file_path,
                project_root: m.project_root,
                line_number: m.line_number,
                line_content: m.line_content,
                context_before: m.context_before,
                context_after: m.context_after,
            },
        );
        assert(matches@ =~= orig.skip(k + 1));
        k = k + 1;
    }
    ContentSearchResult { pattern, total_count, has_more, matches: entries }
}

/// The limits of a reference search: `(limit, context_lines)`, 50 and 2 by
/// default, at most 100 and 10; an error for a blank symbol name.
pub fn references_limits(req: &FindReferencesRequest) -> (r: Result<(usize, usize), ToolError>)
    ensures
        r is Err <==> trim(req.symbol_name@).len() == 0,
        r matches Err(e) ==> e.code@ == "invalid_parameters"@ && e.message@
            == "Symbol name cannot be empty"@,
        r matches Ok((limit, ctx)) ==> limit as int == clamped(req.limit, 50, 100) as int
            && ctx as int == clamped(req.context_lines, 2, 10) as int,
{
    match require_nonblank(req.symbol_name.as_str(), "Symbol name cannot be empty") {
        Err(e) => Err(e),
        Ok(()) => Ok((clamp_or(req.limit, 50, 100), clamp_or(req.context_lines, 2, 10))),
    }
}

/// A reference entry carries the reference's fields, its type by name.
pub open spec fn reference_entry_of(m: ReferenceMatch, e: ReferenceMatchEntry) -> bool {
    &&& e.file_path == m.file_path
    &&& e.project_root == m.project_root
    &&& e.line_number == m.line_number
    &&& e.line_content == m.line_content
    &&& e.reference_type@ == m.reference_type.name()
}

/// The answer to a reference search: the references, their number, and
/// whether the limit was reached.
pub fn references_result(symbol_name: String, refs: Vec<ReferenceMatch>, limit: usize) -> (r:
    FindReferencesResult)
    requires
        limit <= u32::MAX,
    ensures
        r.symbol_name == symbol_name,
        r.total_count == refs@.len() as u32,
        r.has_more == (r.total_count >= limit),
        r.references@.len() == refs@.len(),
        forall|k: int|
            0 <= k < refs@.len() ==> reference_entry_of(refs@[k], #[trigger] r.references@[k]),
{
    let total_count = refs.len() as u32;
    let has_more = total_count >= limit as u32;
    let ghost orig = refs@;
    let n = refs.len();
    let mut refs = refs;
    let mut entries: Vec<ReferenceMatchEntry> = Vec::new();
    let mut k: usize = 0;
    while k < n
        invariant
            k <= n,
            n == orig.len(),
            refs@ == orig.skip(k as int),
            entries@.len() == k,
            forall|q: int| 0 <= q < k ==> reference_entry_of(orig[q], #[trigger] entries@[q]),
        decreases n - k,
    {
        let m = refs.remove(0);
        assert(m == orig[k as int]);
        let t = m.reference_type.as_str().to_owned();
        entries.push(
            ReferenceMatchEntry {
                file_path: m.file_path,
                project_root: m.project_root,
                line_number: m.line_number,
                line_content: m.line_content,
                reference_type: t,
            },
        );
        assert(refs@ =~= orig.skip(k + 1));
        k = k + 1;
    }
    FindReferencesResult { symbol_name, total_count, has_more, references: entries }
}

// ---------------------------------------------------------------------------
// Imports
// ---------------------------------------------------------------------------

/// An import entry carries the row's fields.
pub open spec fn import_entry_of(row: ImportRow, e: ImportEntry) -> bool {
    &&& e.id == row.id
    &&& e.imported_symbol == row.imported_symbol
    &&& e.imported_from_path == row.imported_from_path
    &&& e.import_type == row.import_type
    &&& e.start_line == row.start_line
    &&& e.raw_statement == row.raw_statement
    &&& e.file_path == row.file_path
    &&& e.project_root == row.project_root
}

/// The import entries of the rows, in order.
pub fn import_entries(rows: Vec<ImportRow>) -> (r: Vec<ImportEntry>)
    ensures
        r@.len() == rows@.len(),
        forall|k: int| 0 <= k < rows@.len() ==> import_entry_of(rows@[k], #[trigger] r@[k]),
{
    let ghost orig = rows@;
    let n = rows.len();
    let mut rows = rows;
    let mut r: Vec<ImportEntry> = Vec::new();
    let mut k: usize = 0;
    while k < n
        invariant
            k <= n,
            n == orig.len(),
            rows@ == orig.skip(k as int),
            r@.len() == k,
            forall|q: int| 0 <= q < k ==> import_entry_of(orig[q], #[trigger] r@[q]),
        decreases n - k,
    {
        let row = rows.remove(0);
        assert(row == orig[k as int]);
        r.push(
            ImportEntry {
                id: row.id,
                imported_symbol: row.imported_symbol,
                imported_from_path: row.imported_from_path,
                import_type: row.import_type,
                start_line: row.start_line,
                raw_statement: row.raw_statement,
                file_path: row.file_path,
                project_root: row.project_root,
            },
        );
        assert(rows@ =~= orig.skip(k + 1));
        k = k + 1;
    }
    r
}

/// The answer to an import analysis: the outgoing and incoming edges.
pub fn imports_result(file_path: String, project_root: String, analysis: ImportAnalysis) -> (r:
    ImportAnalysisResult)
    ensures
        r.file_path == file_path,
        r.project_root == project_root,
        r.outgoing@.len() == analysis.outgoing@.len(),
        forall|k: int|
            0 <= k < analysis.outgoing@.len() ==> import_entry_of(
                analysis.outgoing@[k],
                #[trigger] r.outgoing@[k],
            ),
        r.incoming@.len() == analysis.incoming@.len(),
        forall|k: int|
            0 <= k < analysis.incoming@.len() ==> import_entry_of(
                analysis.incoming@[k],
                #[trigger] r.incoming@[k],
            ),
{
    let ImportAnalysis { outgoing, incoming } = analysis;
    ImportAnalysisResult {
        file_path,
        project_root,
        outgoing: import_entries(outgoing),
        incoming: import_entries(incoming),
    }
}

/// The direction of an import analysis, `both` by default.
pub fn import_direction(direction: &Option<String>) -> (r: String)
    ensures
        r@ == (match direction {
            Some(d) => d@,
            None => "both"@,
        }),
{
    match direction {
        Some(d) => d.clone(),
        None => "both".to_owned(),
    }
}

// ---------------------------------------------------------------------------
// Code context
// ---------------------------------------------------------------------------

/// The context lines a code-context request asks for, 0 by default; an
/// error for a blank symbol name.
pub fn code_context_lines(req: &GetCodeContextRequest) -> (r: Result<usize, ToolError>)
    ensures
        r is Err <==> trim(req.symbol_name@).len() == 0,
        r matches Err(e) ==> e.code@ == "invalid_parameters"@ && e.message@
            == "Symbol name cannot be empty"@,
        r matches Ok(c) ==> c as int == (match req.context_lines {
            Some(x) => x as int,
            None => 0,
        }),
{
    match require_nonblank(req.symbol_name.as_str(), "Symbol name cannot be empty") {
        Err(e) => Err(e),
        Ok(()) => Ok(
            match req.context_lines {
                Some(x) => x as usize,
                None => 0,
            },
        ),
    }
}

} // verus!
