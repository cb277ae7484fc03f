//! The answers of the listing, indexing, document and report tools, built
//! from what the index, the file system and the report store handed back.

use crate::indexer::IndexStats;
use crate::mcp_server::formatting::{context_after, context_before, format_code_with_context, format_fits, preview_of};
use crate::mcp_server::hierarchy::{build_symbol_hierarchy, hierarchy};
use crate::mcp_server::models::{
    doc_symbol_views, re_export_views, CodeContextResult, DateRangeResult, DirectoryListing,
    DocSymbolView, DocumentSymbolEntry, DocumentSymbolResult, FileEntry, FileFrequencyResult,
    FileListResult, FileType, GetFileContentResult, IndexResult, IndexStatus,
    IssueFrequencyResult, SuggestionFrequencyResult, SynthesizeReportsResult, ToolUsageResult,
};
use crate::mcp_server::reexports::{detect_re_exports, re_export_input_ok, re_exports_of};
use crate::mcp_server::server::{kind_named, parse_symbol_kind, ExportReportRequest};
use crate::mcp_server::tools::{tool_error, ToolError};
use crate::models::opt_view;
use crate::paths::{extension, extension_of};
use crate::query::context::CodeContext;
use crate::query::document::DocumentSymbolRow;
use crate::report::{
    FileFrequency, IssueFrequency, SuggestionFrequency, SynthesisResult, TaskReport,
    ToolUsageEntry,
};
use crate::text::{join, lines, lines_chars, lowercase, str_eq, string_chars, to_lowercase, trim};
use vstd::prelude::*;

verus! {

// ---------------------------------------------------------------------------
// Listings
// ---------------------------------------------------------------------------

/// The number of entries of `s` of type `t`.
pub open spec fn count_of_type(s: Seq<FileEntry>, t: FileType) -> nat
    decreases s.len(),
{
    if s.len() == 0 {
        0
    } else {
        count_of_type(s.drop_last(), t) + (if s.last().entry_type == t {
            1nat
        } else {
            0nat
        })
    }
}

/// The number of entries of `entries` of type `t`.
fn count_type(entries: &Vec<FileEntry>, t: FileType) -> (n: usize)
    ensures
        n == count_of_type(entries@, t),
{
    let mut n: usize = 0;
    let mut k: usize = 0;
    while k < entries.len()
        invariant
            k <= entries@.len(),
            n == count_of_type(entries@.take(k as int), t),
            n <= k,
        decreases entries@.len() - k,
    {
        assert(entries@.take(k + 1).drop_last() =~= entries@.take(k as int));
        if entries[k].entry_type == t {
            n = n + 1;
        }
        k = k + 1;
    }
    assert(entries@.take(entries@.len() as int) =~= entries@);
    n
}

/// A directory listing with its numbers of files and of directories.
pub fn directory_listing(root: String, entries: Vec<FileEntry>) -> (r: DirectoryListing)
    ensures
        r.root == root,
        r.entries == entries,
        r.file_count == count_of_type(entries@, FileType::File),
        r.directory_count == count_of_type(entries@, FileType::Directory),
{
    let file_count = count_type(&entries, FileType::File);
    let directory_count = count_type(&entries, FileType::Directory);
    DirectoryListing { root, entries, file_count, directory_count }
}

/// A file listing: its number of entries, and whether the limit was reached.
pub fn file_list_result(path: String, files: Vec<FileEntry>, limit: usize) -> (r: FileListResult)
    ensures
        r.path == path,
        r.files == files,
        r.total_count == files@.len(),
        r.has_more == (files@.len() >= limit),
{
    let total_count = files.len();
    let has_more = total_count >= limit;
    FileListResult { path, files, total_count, has_more }
}

// ---------------------------------------------------------------------------
// Indexing
// ---------------------------------------------------------------------------

/// The answer to an indexing run: its counts, each read as a `u32`.
pub fn index_result(stats: &IndexStats, duration_ms: u64, project_root: String) -> (r: IndexResult)
    ensures
        r.files_indexed == stats.files_indexed as u32,
        r.files_unchanged == stats.files_unchanged as u32,
        r.files_failed == stats.files_failed as u32,
        r.symbols_found == stats.symbols_found as u32,
        r.duration_ms == duration_ms,
        r.project_root == project_root,
{
    IndexResult {
        files_indexed: stats.files_indexed as u32,
        files_unchanged: stats.files_unchanged as u32,
        files_failed: stats.files_failed as u32,
        symbols_found: stats.symbols_found as u32,
        duration_ms,
        project_root,
    }
}

/// The index status of a project: indexed when it has files.
pub fn index_status(
    file_count: u32,
    symbol_count: u32,
    last_indexed_at: Option<String>,
    project_root: String,
    languages: Vec<String>,
) -> (r: IndexStatus)
    ensures
        r.is_indexed == (file_count > 0),
        r.file_count == file_count,
        r.symbol_count == symbol_count,
        r.last_indexed_at == last_indexed_at,
        r.project_root == project_root,
        r.languages == languages,
{
    IndexStatus {
        is_indexed: file_count > 0,
        file_count,
        symbol_count,
        last_indexed_at,
        project_root,
        languages,
    }
}

// ---------------------------------------------------------------------------
// File content
// ---------------------------------------------------------------------------

/// The language reported for a file extension.
pub open spec fn language_name_of(ext: Seq<char>) -> Option<Seq<char>> {
    if ext == "rs"@ {
        Some("rust"@)
    } else if ext == "py"@ {
        Some("python"@)
    } else if ext == "js"@ || ext == "jsx"@ {
        Some("javascript"@)
    } else if ext == "ts"@ || ext == "tsx"@ {
        Some("typescript"@)
    } else if ext == "java"@ {
        Some("java"@)
    } else {
        None
    }
}

/// The language reported for the file at `path`, by its extension.
pub open spec fn file_language(path: Seq<char>) -> Option<Seq<char>> {
    match extension(path) {
        Some(e) => language_name_of(e),
        None => None,
    }
}

/// The language reported for the file at `path`.
fn language_for(path: &str) -> (r: Option<String>)
    ensures
        opt_view(r) == file_language(path@),
{
    match extension_of(path) {
        None => None,
        Some(e) => {
            let es = e.as_str();
            if str_eq(es, "rs") {
                Some("rust".to_owned())
            } else if str_eq(es, "py") {
                Some("python".to_owned())
            } else if str_eq(es, "js") || str_eq(es, "jsx") {
                Some("javascript".to_owned())
            } else if str_eq(es, "ts") || str_eq(es, "tsx") {
                Some("typescript".to_owned())
            } else if str_eq(es, "java") {
                Some("java".to_owned())
            } else {
                None
            }
        },
    }
}

/// The answer to a file-content request: the content, its number of lines,
/// and the language its extension names.
pub fn file_content_result(file_path: String, project_root: String, content: String) -> (r:
    GetFileContentResult)
    ensures
        r.file_path == file_path,
        r.project_root == project_root,
        r.content == content,
        r.line_count == lines(content@).len(),
        opt_view(r.language) == file_language(file_path@),
{
    let cs = string_chars(&content);
    let ls = lines_chars(cs.as_slice());
    proof {
        assert(crate::text::views(ls@).len() == ls@.len());
    }
    let line_count = ls.len();
    let language = language_for(file_path.as_str());
    GetFileContentResult { file_path, project_root, language, content, line_count }
}

// ---------------------------------------------------------------------------
// Document symbols
// ---------------------------------------------------------------------------

/// The entry, without children, of a row of a file's symbols.
pub open spec fn row_entry_view(row: DocumentSymbolRow) -> DocSymbolView {
    DocSymbolView {
        id: row.id as int,
        name: row.name@,
        kind: kind_named(row.kind@),
        start_line: row.start_line as int,
        end_line: row.end_line as int,
        start_col: row.start_col as int,
        end_col: row.end_col as int,
        signature: opt_view(row.signature),
        documentation: opt_view(row.documentation),
        children: Seq::empty(),
    }
}

/// The entries, without children, of the rows of a file's symbols.
pub open spec fn row_entry_views(rows: Seq<DocumentSymbolRow>) -> Seq<DocSymbolView> {
    rows.map_values(|r: DocumentSymbolRow| row_entry_view(r))
}

/// The entries, without children, of the rows of a file's symbols.
pub fn document_entries(rows: Vec<DocumentSymbolRow>) -> (r: Vec<DocumentSymbolEntry>)
    ensures
        doc_symbol_views(r@) == row_entry_views(rows@),
{
    let ghost orig = rows@;
    let n = rows.len();
    let mut rows = rows;
    let mut r: Vec<DocumentSymbolEntry> = Vec::new();
    let mut k: usize = 0;
    proof {
        crate::mcp_server::hierarchy::lemma_doc_views(r@);
    }
    while k < n
        invariant
            k <= n,
            n == orig.len(),
            rows@ == orig.skip(k as int),
            doc_symbol_views(r@) == row_entry_views(orig.take(k as int)),
        decreases n - k,
    {
        let row = rows.remove(0);
        assert(row == orig[k as int]);
        let kind = parse_symbol_kind(row.kind.as_str());
        let e = DocumentSymbolEntry {
            id: row.id,
            name: row.name,
            kind,
            start_line: row.start_line,
            end_line: row.end_line,
            start_col: row.start_col,
            end_col: row.end_col,
            signature: row.signature,
            documentation: row.documentation,
            children: Vec::new(),
        };
        proof {
            crate::mcp_server::hierarchy::lemma_doc_views(e.children@);
            assert(crate::mcp_server::models::doc_symbol_view(e) == row_entry_view(orig[k as int]));
        }
        let ghost before = r@;
        r.push(e);
        proof {
            assert(r@.subrange(0, r@.len() - 1) =~= before);
            assert(row_entry_views(orig.take(k + 1)) =~= row_entry_views(orig.take(k as int)).push(
                row_entry_view(orig[k as int]),
            ));
        }
        assert(rows@ =~= orig.skip(k + 1));
        k = k + 1;
    }
    assert(orig.take(n as int) =~= orig);
    r
}

/// The answer listing the symbols of a file: its rows nested into a hierarchy.
pub fn document_symbols_result(file_path: String, project_root: String, rows: Vec<
    DocumentSymbolRow,
>) -> (r: DocumentSymbolResult)
    ensures
        r.file_path == file_path,
        r.project_root == project_root,
        r.language is None,
        doc_symbol_views(r.symbols@) == hierarchy(row_entry_views(rows@)),
        r.re_exports is None,
        r.note is None,
{
    let entries = document_entries(rows);
    let symbols = build_symbol_hierarchy(entries);
    DocumentSymbolResult {
        file_path,
        project_root,
        language: None,
        symbols,
        re_exports: None,
        note: None,
    }
}

/// The note of a file that has re-exports and no symbols.
pub open spec fn barrel_note() -> Seq<char> {
    "File contains only re-exports (barrel file)"@
}

/// The note of a file that has neither symbols nor re-exports.
pub open spec fn empty_file_note() -> Seq<char> {
    "File has no indexable symbols or re-exports"@
}

/// The answer for a file of the project without indexed symbols: its
/// re-exports where it has any, with a note saying which; nothing where its
/// content could not be read (`None`).
pub fn barrel_file_result(file_path: String, project_root: String, content: Option<&str>) -> (r:
    DocumentSymbolResult)
    requires
        content matches Some(c) ==> re_export_input_ok(c@, file_path@),
    ensures
        r.file_path == file_path,
        r.project_root == project_root,
        r.language is None,
        r.symbols@.len() == 0,
        match content {
            Some(c) => {
                let found = re_exports_of(c@, file_path@);
                if found.len() > 0 {
                    (r.re_exports matches Some(v) && re_export_views(v@) == found) && opt_view(r.note)
                        == Some(barrel_note())
                } else {
                    r.re_exports is None && opt_view(r.note) == Some(empty_file_note())
                }
            },
            None => r.re_exports is None && r.note is None,
        },
{
    let (re_exports, note) = match content {
        Some(c) => {
            let detected = detect_re_exports(c, file_path.as_str());
            proof {
                assert(re_export_views(detected@).len() == detected@.len());
            }
            if detected.len() > 0 {
                (Some(detected), Some("File contains only re-exports (barrel file)".to_owned()))
            } else {
                (None, Some("File has no indexable symbols or re-exports".to_owned()))
            }
        },
        None => (None, None),
    };
    DocumentSymbolResult {
        file_path,
        project_root,
        language: None,
        symbols: Vec::new(),
        re_exports,
        note,
    }
}

// ---------------------------------------------------------------------------
// Code context
// ---------------------------------------------------------------------------

/// The answer to a code-context request: the symbol's code, a numbered
/// preview, and the numbered lines of its file around it where there are any.
pub fn code_context_result(ctx: CodeContext, file_content: &str, context_lines: usize) -> (r: CodeContextResult)
    requires
        format_fits(lines(ctx.code@), (ctx.start_line as usize) as int),
    ensures
        r.symbol_name == ctx.symbol_name,
        r.kind == kind_named(ctx.kind@),
        r.file_path == ctx.file_path,
        r.start_line == ctx.start_line,
        r.end_line == ctx.end_line,
        r.signature == ctx.signature,
        r.code@ == join(lines(ctx.code@), "\n"@),
        r.preview@ == preview_of(lines(ctx.code@), (ctx.start_line as usize) as int),
        ({
            let before = context_before(
                lines(file_content@),
                (ctx.start_line as usize) as int,
                context_lines as int,
            );
            if before.len() == 0 {
                r.context_before is None
            } else {
                r.context_before matches Some(v) && crate::text::string_views(v@) == before
            }
        }),
        ({
            let after = context_after(
                lines(file_content@),
                (ctx.end_line as usize) as int,
                context_lines as int,
            );
            if after.len() == 0 {
                r.context_after is None
            } else {
                r.context_after matches Some(v) && crate::text::string_views(v@) == after
            }
        }),
{
    let (code, preview, before, after) = format_code_with_context(&ctx, file_content, context_lines);
    let kind = parse_symbol_kind(ctx.kind.as_str());
    proof {
        assert(crate::text::string_views(before@).len() == before@.len());
        assert(crate::text::string_views(after@).len() == after@.len());
    }
    let context_before = if before.len() == 0 {
        None
    } else {
        Some(before)
    };
    let context_after = if after.len() == 0 {
        None
    } else {
        Some(after)
    };
    CodeContextResult {
        symbol_name: ctx.symbol_name,
        kind,
        file_path: ctx.file_path,
        start_line: ctx.start_line,
        end_line: ctx.end_line,
        signature: ctx.signature,
        code,
        preview,
        context_before,
        context_after,
    }
}

// ---------------------------------------------------------------------------
// Reports
// ---------------------------------------------------------------------------

/// The task types a report may have.
pub open spec fn valid_task_types() -> Seq<Seq<char>> {
    seq!["bug_fix"@, "feature"@, "refactoring"@, "exploration"@, "review"@, "other"@]
}

/// The message for a report whose task type is not one of them.
pub open spec fn invalid_task_type_message(task_type: Seq<char>) -> Seq<char> {
    "Invalid task_type '"@ + task_type
        + "'. Must be one of: bug_fix, feature, refactoring, exploration, review, other"@
}

/// The message for a report without a model name.
pub open spec fn missing_model_message() -> Seq<char> {
    "Model name is required. Include your AI model identifier (e.g., 'gpt-4o') so reports can be tracked per model."@
}

/// `v`, or an empty list where it is absent.
pub open spec fn or_empty<T>(v: Option<Vec<T>>) -> Seq<T> {
    match v {
        Some(x) => x@,
        None => Seq::empty(),
    }
}

/// A vector's content, or an empty vector.
fn unwrap_or_empty<T>(v: Option<Vec<T>>) -> (r: Vec<T>)
    ensures
        r@ == or_empty(v),
{
    match v {
        Some(x) => x,
        None => Vec::new(),
    }
}

/// The report a request to export one describes, its task type lower-cased
/// and its id, time and project left to be filled in when it is saved; or
/// the first thing wrong with the request: a task type not among the valid
/// ones, a blank summary, a missing or blank model name.
pub fn check_report_request(req: ExportReportRequest) -> (r: Result<TaskReport, ToolError>)
    ensures
        ({
            let tt = lowercase(req.task_type@);
            let bad_type = !valid_task_types().contains(tt);
            let bad_summary = trim(req.summary@).len() == 0;
            let bad_model = match req.model {
                Some(m) => trim(m@).len() == 0,
                None => true,
            };
            match r {
                Err(e) => e.code@ == "invalid_parameters"@ && (if bad_type {
                    e.message@ == invalid_task_type_message(req.task_type@)
                } else if bad_summary {
                    e.message@ == "Summary cannot be empty"@
                } else {
                    bad_model && e.message@ == missing_model_message()
                }),
                Ok(t) => !bad_type && !bad_summary && !bad_model && t.id@.len() == 0
                    && t.timestamp@.len() == 0 && t.project_root@.len() == 0 && t.task_type@ == tt
                    && t.summary == req.summary && Some(t.model) == req.model && t.tools_used@
                    == or_empty(req.tools_used) && t.files_modified@ == or_empty(
                    req.files_modified,
                ) && t.issues_found@ == or_empty(req.issues_found) && t.improvement_suggestions@
                    == or_empty(req.improvement_suggestions) && t.metadata@ == or_empty(
                    req.metadata,
                ),
            }
        }),
{
    let task_type = to_lowercase(req.task_type.as_str());
    let tt = task_type.as_str();
    proof {
        reveal_strlit("bug_fix");
        reveal_strlit("feature");
        reveal_strlit("refactoring");
        reveal_strlit("exploration");
        reveal_strlit("review");
        reveal_strlit("other");
    }
    let valid = str_eq(tt, "bug_fix") || str_eq(tt, "feature") || str_eq(tt, "refactoring")
        || str_eq(tt, "exploration") || str_eq(tt, "review") || str_eq(tt, "other");
    assert(valid == valid_task_types().contains(task_type@)) by {
        if valid_task_types().contains(task_type@) {
            let i = choose|i: int| 0 <= i < 6 && valid_task_types()[i] == task_type@;
        }
        if valid {
            if task_type@ == "bug_fix"@ {
                assert(valid_task_types()[0] == task_type@);
            } else if task_type@ == "feature"@ {
                assert(valid_task_types()[1] == task_type@);
            } else if task_type@ == "refactoring"@ {
                assert(valid_task_types()[2] == task_type@);
            } else if task_type@ == "exploration"@ {
                assert(valid_task_types()[3] == task_type@);
            } else if task_type@ == "review"@ {
                assert(valid_task_types()[4] == task_type@);
            } else {
                assert(valid_task_types()[5] == task_type@);
            }
        }
    }
    if !valid {
        let mut m = "Invalid task_type '".to_owned();
        m.append(req.task_type.as_str());
        m.append("'. Must be one of: bug_fix, feature, refactoring, exploration, review, other");
        return Err(ToolError { code: "invalid_parameters".to_owned(), message: m });
    }
    if crate::mcp_server::tools::is_blank(req.summary.as_str()) {
        return Err(tool_error("invalid_parameters", "Summary cannot be empty"));
    }
    let model = match req.model {
        Some(m) => {
            if crate::mcp_server::tools::is_blank(m.as_str()) {
                return Err(
                    tool_error(
                        "invalid_parameters",
                        "Model name is required. Include your AI model identifier (e.g., 'gpt-4o') so reports can be tracked per model.",
                    ),
                );
            }
            m
        },
        None => {
            return Err(
                tool_error(
                    "invalid_parameters",
                    "Model name is required. Include your AI model identifier (e.g., 'gpt-4o') so reports can be tracked per model.",
                ),
            );
        },
    };
    Ok(
        TaskReport {
            id: String::new(),
            timestamp: String::new(),
            project_root: String::new(),
            task_type,
            summary: req.summary,
            model,
            tools_used: unwrap_or_empty(req.tools_used),
            files_modified: unwrap_or_empty(req.files_modified),
            issues_found: unwrap_or_empty(req.issues_found),
            improvement_suggestions: unwrap_or_empty(req.improvement_suggestions),
            metadata: unwrap_or_empty(req.metadata),
        },
    )
}

/// The number of reports a synthesis reads at most, 50 by default.
pub fn synthesis_limit(limit: Option<usize>) -> (r: usize)
    ensures
        r == (match limit {
            Some(l) => l,
            None => 50,
        }),
{
    match limit {
        Some(l) => l,
        None => 50,
    }
}

/// The summary of a project without reports.
pub open spec fn no_reports_summary() -> Seq<char> {
    "No reports found for this project."@
}

/// The answer to a synthesis of a project without reports.
pub fn empty_synthesis() -> (r: SynthesizeReportsResult)
    ensures
        r.total_reports == 0,
        r.reports_analyzed == 0,
        r.date_range is None,
        r.task_type_breakdown@.len() == 0,
        r.model_breakdown@.len() == 0,
        r.frequently_modified_files@.len() == 0,
        r.recurring_issues@.len() == 0,
        r.improvement_suggestions@.len() == 0,
        r.tools_usage@.len() == 0,
        r.summary@ == no_reports_summary(),
{
    SynthesizeReportsResult {
        total_reports: 0,
        reports_analyzed: 0,
        date_range: None,
        task_type_breakdown: Vec::new(),
        model_breakdown: Vec::new(),
        frequently_modified_files: Vec::new(),
        recurring_issues: Vec::new(),
        improvement_suggestions: Vec::new(),
        tools_usage: Vec::new(),
        summary: "No reports found for this project.".to_owned(),
    }
}

/// The file counts of a synthesis as answered.
fn file_frequencies(v: Vec<FileFrequency>) -> (r: Vec<FileFrequencyResult>)
    ensures
        r@.len() == v@.len(),
        forall|k: int|
            0 <= k < v@.len() ==> (#[trigger] r@[k]).file_path == v@[k].file_path && r@[k].count
                == v@[k].count,
{
    let ghost orig = v@;
    let n = v.len();
    let mut v = v;
    let mut r: Vec<FileFrequencyResult> = Vec::new();
    let mut k: usize = 0;
    while k < n
        invariant
            k <= n,
            n == orig.len(),
            v@ == orig.skip(k as int),
            r@.len() == k,
            forall|q: int|
                0 <= q < k ==> (#[trigger] r@[q]).file_path == orig[q].file_path && r@[q].count
                    == orig[q].count,
        decreases n - k,
    {
        let x = v.remove(0);
        assert(x == orig[k as int]);
        r.push(FileFrequencyResult { file_path: x.file_path, count: x.count });
        assert(v@ =~= orig.skip(k + 1));
        k = k + 1;
    }
    r
}

/// The issue counts of a synthesis as answered.
fn issue_frequencies(v: Vec<IssueFrequency>) -> (r: Vec<IssueFrequencyResult>)
    ensures
        r@.len() == v@.len(),
        forall|k: int|
            0 <= k < v@.len() ==> (#[trigger] r@[k]).issue == v@[k].issue && r@[k].count
                == v@[k].count,
{
    let ghost orig = v@;
    let n = v.len();
    let mut v = v;
    let mut r: Vec<IssueFrequencyResult> = Vec::new();
    let mut k: usize = 0;
    while k < n
        invariant
            k <= n,
            n == orig.len(),
            v@ == orig.skip(k as int),
            r@.len() == k,
            forall|q: int|
                0 <= q < k ==> (#[trigger] r@[q]).issue == orig[q].issue && r@[q].count
                    == orig[q].count,
        decreases n - k,
    {
        let x = v.remove(0);
        assert(x == orig[k as int]);
        r.push(IssueFrequencyResult { issue: x.issue, count: x.count });
        assert(v@ =~= orig.skip(k + 1));
        k = k + 1;
    }
    r
}

/// The suggestion counts of a synthesis as answered.
fn suggestion_frequencies(v: Vec<SuggestionFrequency>) -> (r: Vec<SuggestionFrequencyResult>)
    ensures
        r@.len() == v@.len(),
        forall|k: int|
            0 <= k < v@.len() ==> (#[trigger] r@[k]).suggestion == v@[k].suggestion && r@[k].count
                == v@[k].count,
{
    let ghost orig = v@;
    let n = v.len();
    let mut v = v;
    let mut r: Vec<SuggestionFrequencyResult> = Vec::new();
    let mut k: usize = 0;
    while k < n
        invariant
            k <= n,
            n == orig.len(),
            v@ == orig.skip(k as int),
            r@.len() == k,
            forall|q: int|
                0 <= q < k ==> (#[trigger] r@[q]).suggestion == orig[q].suggestion && r@[q].count
                    == orig[q].count,
        decreases n - k,
    {
        let x = v.remove(0);
        assert(x == orig[k as int]);
        r.push(SuggestionFrequencyResult { suggestion: x.suggestion, count: x.count });
        assert(v@ =~= orig.skip(k + 1));
        k = k + 1;
    }
    r
}

/// The tool counts of a synthesis as answered.
fn tool_usages(v: Vec<ToolUsageEntry>) -> (r: Vec<ToolUsageResult>)
    ensures
        r@.len() == v@.len(),
        forall|k: int|
            0 <= k < v@.len() ==> (#[trigger] r@[k]).tool == v@[k].tool && r@[k].count
                == v@[k].count,
{
    let ghost orig = v@;
    let n = v.len();
    let mut v = v;
    let mut r: Vec<ToolUsageResult> = Vec::new();
    let mut k: usize = 0;
    while k < n
        invariant
            k <= n,
            n == orig.len(),
            v@ == orig.skip(k as int),
            r@.len() == k,
            forall|q: int|
                0 <= q < k ==> (#[trigger] r@[q]).tool == orig[q].tool && r@[q].count
                    == orig[q].count,
        decreases n - k,
    {
        let x = v.remove(0);
        assert(x == orig[k as int]);
        r.push(ToolUsageResult { tool: x.tool, count: x.count });
        assert(v@ =~= orig.skip(k + 1));
        k = k + 1;
    }
    r
}

/// The answer to a synthesis: the synthesis itself, field by field.
pub fn synthesis_answer(s: SynthesisResult) -> (r: SynthesizeReportsResult)
    ensures
        r.total_reports == s.total_reports,
        r.reports_analyzed == s.reports_analyzed,
        match s.date_range {
            Some(d) => r.date_range matches Some(x) && x.from == d.from && x.to == d.to,
            None => r.date_range is None,
        },
        r.task_type_breakdown == s.task_type_breakdown,
        r.model_breakdown == s.model_breakdown,
        r.frequently_modified_files@.len() == s.frequently_modified_files@.len(),
        forall|k: int|
            0 <= k < s.frequently_modified_files@.len() ==> (
            #[trigger] r.frequently_modified_files@[k]).file_path
                == s.frequently_modified_files@[k].file_path && r.frequently_modified_files@[k].count
                == s.frequently_modified_files@[k].count,
        r.recurring_issues@.len() == s.recurring_issues@.len(),
        forall|k: int|
            0 <= k < s.recurring_issues@.len() ==> (#[trigger] r.recurring_issues@[k]).issue
                == s.recurring_issues@[k].issue && r.recurring_issues@[k].count
                == s.recurring_issues@[k].count,
        r.improvement_suggestions@.len() == s.improvement_suggestions@.len(),
        forall|k: int|
            0 <= k < s.improvement_suggestions@.len() ==> (
            #[trigger] r.improvement_suggestions@[k]).suggestion
                == s.improvement_suggestions@[k].suggestion && r.improvement_suggestions@[k].count
                == s.improvement_suggestions@[k].count,
        r.tools_usage@.len() == s.tools_usage@.len(),
        forall|k: int|
            0 <= k < s.tools_usage@.len() ==> (#[trigger] r.tools_usage@[k]).tool
                == s.tools_usage@[k].tool && r.tools_usage@[k].count == s.tools_usage@[k].count,
        r.summary == s.summary,
{
    let SynthesisResult {
        total_reports,
        reports_analyzed,
        date_range,
        task_type_breakdown,
        model_breakdown,
        frequently_modified_files,
        recurring_issues,
        improvement_suggestions,
        tools_usage,
        summary,
    } = s;
    let date_range = match date_range {
        Some(d) => Some(DateRangeResult { from: d.from, to: d.to }),
        None => None,
    };
    SynthesizeReportsResult {
        total_reports,
        reports_analyzed,
        date_range,
        task_type_breakdown,
        model_breakdown,
        frequently_modified_files: file_frequencies(frequently_modified_files),
        recurring_issues: issue_frequencies(recurring_issues),
        improvement_suggestions: suggestion_frequencies(improvement_suggestions),
        tools_usage: tool_usages(tools_usage),
        summary,
    }
}

} // verus!
