//! Result types of the query tools.

use crate::models::{opt_view, SymbolKind};
use crate::text::string_views;
use vstd::prelude::*;

verus! {

/// Result of exporting a task report.
#[derive(Debug, Clone)]
pub struct ExportReportResult {
    pub report_id: String,
    pub file_path: String,
    pub project_root: String,
    pub timestamp: String,
}

/// Result of synthesizing reports.
#[derive(Debug, Clone)]
pub struct SynthesizeReportsResult {
    pub total_reports: usize,
    pub reports_analyzed: usize,
    pub date_range: Option<DateRangeResult>,
    pub task_type_breakdown: Vec<(String, u32)>,
    pub model_breakdown: Vec<(String, u32)>,
    pub frequently_modified_files: Vec<FileFrequencyResult>,
    pub recurring_issues: Vec<IssueFrequencyResult>,
    pub improvement_suggestions: Vec<SuggestionFrequencyResult>,
    pub tools_usage: Vec<ToolUsageResult>,
    pub summary: String,
}

#[derive(Debug, Clone)]
pub struct DateRangeResult {
    pub from: String,
    pub to: String,
}

#[derive(Debug, Clone)]
pub struct FileFrequencyResult {
    pub file_path: String,
    pub count: u32,
}

#[derive(Debug, Clone)]
pub struct IssueFrequencyResult {
    pub issue: String,
    pub count: u32,
}

#[derive(Debug, Clone)]
pub struct SuggestionFrequencyResult {
    pub suggestion: String,
    pub count: u32,
}

#[derive(Debug, Clone)]
pub struct ToolUsageResult {
    pub tool: String,
    pub count: u32,
}

/// Keyword search result.
#[derive(Debug, Clone)]
pub struct KeywordSearchResult {
    pub query: String,
    pub total_count: u32,
    pub has_more: bool,
    pub symbols: Vec<SymbolMatch>,
}

/// Find references result.
#[derive(Debug, Clone)]
pub struct FindReferencesResult {
    pub symbol_name: String,
    pub total_count: u32,
    pub has_more: bool,
    pub references: Vec<ReferenceMatchEntry>,
}

/// One reference match.
#[derive(Debug, Clone)]
pub struct ReferenceMatchEntry {
    pub file_path: String,
    pub project_root: String,
    pub line_number: usize,
    pub line_content: String,
    pub reference_type: String,
}

/// Content search result.
#[derive(Debug, Clone)]
pub struct ContentSearchResult {
    pub pattern: String,
    pub total_count: u32,
    pub has_more: bool,
    pub matches: Vec<ContentMatchEntry>,
}

/// One content match with its context.
#[derive(Debug, Clone)]
pub struct ContentMatchEntry {
    pub file_path: String,
    pub project_root: String,
    pub line_number: usize,
    pub line_content: String,
    pub context_before: Vec<String>,
    pub context_after: Vec<String>,
}

/// Symbol search result.
#[derive(Debug, Clone)]
pub struct SearchResult {
    pub symbols: Vec<SymbolMatch>,
    pub total_count: u32,
    pub has_more: bool,
}

/// One symbol in search results.
#[derive(Debug, Clone)]
pub struct SymbolMatch {
    pub id: i64,
    pub name: String,
    pub kind: SymbolKind,
    pub file_path: String,
    pub project_root: String,
    pub start_line: i64,
    pub end_line: i64,
    pub signature: Option<String>,
    pub language: String,
}

/// The source of one symbol.
#[derive(Debug, Clone)]
pub struct CodeContextResult {
    pub symbol_name: String,
    pub kind: SymbolKind,
    pub file_path: String,
    pub start_line: i64,
    pub end_line: i64,
    pub signature: Option<String>,
    pub code: String,
    pub preview: String,
    pub context_before: Option<Vec<String>>,
    pub context_after: Option<Vec<String>>,
}

/// One entry of a directory listing.
#[derive(Debug, Clone)]
pub struct FileEntry {
    pub name: String,
    pub path: String,
    pub entry_type: FileType,
    pub extension: Option<String>,
    pub language: Option<String>,
    pub size: Option<u64>,
    pub depth: usize,
}

/// File, directory or symbolic link.
#[derive(Debug, Clone, Copy, PartialEq, Eq, Structural)]
pub enum FileType {
    File,
    Directory,
    Symlink,
}

/// A structured directory listing.
#[derive(Debug, Clone)]
pub struct DirectoryListing {
    pub root: String,
    pub entries: Vec<FileEntry>,
    pub file_count: usize,
    pub directory_count: usize,
}

/// A structured file listing.
#[derive(Debug, Clone)]
pub struct FileListResult {
    pub path: String,
    pub files: Vec<FileEntry>,
    pub total_count: usize,
    pub has_more: bool,
}

/// Index status of a project.
#[derive(Debug, Clone)]
pub struct IndexStatus {
    pub is_indexed: bool,
    pub file_count: u32,
    pub symbol_count: u32,
    pub last_indexed_at: Option<String>,
    pub project_root: String,
    pub languages: Vec<String>,
}

/// Result of indexing a project.
#[derive(Debug, Clone)]
pub struct IndexResult {
    pub files_indexed: u32,
    pub files_unchanged: u32,
    pub files_failed: u32,
    pub symbols_found: u32,
    pub duration_ms: u64,
    pub project_root: String,
}

/// Details of an ambiguous symbol lookup.
#[derive(Debug, Clone)]
pub struct AmbiguousSymbolDetails {
    pub symbol_name: String,
    pub matches: Vec<SymbolMatch>,
    pub suggestion: String,
}

/// Symbol statistics.
#[derive(Debug, Clone)]
pub struct SymbolStats {
    pub total_symbols: u32,
    pub by_kind: Vec<(String, u32)>,
    pub by_language: Vec<(String, u32)>,
}

/// The symbols of one file.
#[derive(Debug)]
pub struct DocumentSymbolResult {
    pub file_path: String,
    pub project_root: String,
    pub language: Option<String>,
    pub symbols: Vec<DocumentSymbolEntry>,
    pub re_exports: Option<Vec<ReExportEntry>>,
    pub note: Option<String>,
}

/// One symbol of a file, with the symbols nested in it.
#[derive(Debug)]
pub struct DocumentSymbolEntry {
    pub id: i64,
    pub name: String,
    pub kind: SymbolKind,
    pub start_line: i64,
    pub end_line: i64,
    pub start_col: i64,
    pub end_col: i64,
    pub signature: Option<String>,
    pub documentation: Option<String>,
    pub children: Vec<DocumentSymbolEntry>,
}

/// A document symbol as plain values, with the symbols nested in it.
pub struct DocSymbolView {
    pub id: int,
    pub name: Seq<char>,
    pub kind: SymbolKind,
    pub start_line: int,
    pub end_line: int,
    pub start_col: int,
    pub end_col: int,
    pub signature: Option<Seq<char>>,
    pub documentation: Option<Seq<char>>,
    pub children: Seq<DocSymbolView>,
}

/// The view of one document symbol, its nested symbols included.
pub open spec fn doc_symbol_view(e: DocumentSymbolEntry) -> DocSymbolView
    decreases e,
{
    DocSymbolView {
        id: e.id as int,
        name: e.name@,
        kind: e.kind,
        start_line: e.start_line as int,
        end_line: e.end_line as int,
        start_col: e.start_col as int,
        end_col: e.end_col as int,
        signature: opt_view(e.signature),
        documentation: opt_view(e.documentation),
        children: doc_symbol_views(e.children@),
    }
}

/// The views of a sequence of document symbols.
pub open spec fn doc_symbol_views(s: Seq<DocumentSymbolEntry>) -> Seq<DocSymbolView>
    decreases s,
{
    if s.len() == 0 {
        Seq::empty()
    } else {
        doc_symbol_views(s.subrange(0, s.len() - 1)).push(doc_symbol_view(s[s.len() - 1]))
    }
}

impl View for DocumentSymbolEntry {
    type V = DocSymbolView;

    open spec fn view(&self) -> DocSymbolView {
        doc_symbol_view(*self)
    }
}

/// Request for a file's content.
#[derive(Debug, Clone)]
pub struct GetFileContentRequest {
    pub project_root: String,
    pub file_path: String,
}

/// A file's content.
#[derive(Debug, Clone)]
pub struct GetFileContentResult {
    pub file_path: String,
    pub project_root: String,
    pub language: Option<String>,
    pub content: String,
    pub line_count: usize,
}

/// One re-export of a barrel file.
#[derive(Debug, Clone)]
pub struct ReExportEntry {
    pub exported_symbols: Option<Vec<String>>,
    pub source_path: String,
    pub start_line: i64,
}

/// A re-export as plain values.
pub struct ReExportView {
    pub exported_symbols: Option<Seq<Seq<char>>>,
    pub source_path: Seq<char>,
    pub start_line: int,
}

impl View for ReExportEntry {
    type V = ReExportView;

    open spec fn view(&self) -> ReExportView {
        ReExportView {
            exported_symbols: match self.exported_symbols {
                Some(v) => Some(string_views(v@)),
                None => None,
            },
            source_path: self.source_path@,
            start_line: self.start_line as int,
        }
    }
}

/// The views of a sequence of re-exports.
pub open spec fn re_export_views(s: Seq<ReExportEntry>) -> Seq<ReExportView> {
    s.map_values(|e: ReExportEntry| e@)
}

/// Import analysis of a file.
#[derive(Debug, Clone)]
pub struct ImportAnalysisResult {
    pub file_path: String,
    pub project_root: String,
    pub outgoing: Vec<ImportEntry>,
    pub incoming: Vec<ImportEntry>,
}

/// One import.
#[derive(Debug, Clone)]
pub struct ImportEntry {
    pub id: i64,
    pub imported_symbol: String,
    pub imported_from_path: Option<String>,
    pub import_type: String,
    pub start_line: Option<i64>,
    pub raw_statement: Option<String>,
    pub file_path: String,
    pub project_root: String,
}

} // verus!
