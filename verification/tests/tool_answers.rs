use cortex::error::CortexError;
use cortex::indexer::db::SymbolRow;
use cortex::indexer::IndexStats;
use cortex::mcp_server::answers::{
    barrel_file_result, check_report_request, code_context_result, directory_listing,
    document_symbols_result, empty_synthesis, file_content_result, file_list_result, index_result,
    index_status, synthesis_limit,
};
use cortex::mcp_server::models::{FileEntry, FileType};
use cortex::mcp_server::server::{ExportReportRequest, SearchContentRequest, SearchSymbolsRequest};
use cortex::mcp_server::tools::{
    content_search_limits, content_search_result, lookup_error, require_nonblank, search_result,
    search_symbols_page, symbol_suggestions,
};
use cortex::paths::within_root;
use cortex::models::SymbolKind;
use cortex::query::content::ContentMatch;
use cortex::query::context::CodeContext;
use cortex::query::document::DocumentSymbolRow;

fn row(id: i64, name: &str, kind: &str) -> SymbolRow {
    SymbolRow {
        id,
        project_root: "/p".to_string(),
        path: "src/a.rs".to_string(),
        name: name.to_string(),
        kind: kind.to_string(),
        start_line: 1,
        end_line: 3,
        signature: Some("fn x()".to_string()),
        language: "rust".to_string(),
    }
}

fn search_request(query: &str, limit: Option<u32>, offset: Option<u32>) -> SearchSymbolsRequest {
    SearchSymbolsRequest {
        query: query.to_string(),
        project_root: "/p".to_string(),
        kind: None,
        limit,
        offset,
        search_mode: None,
    }
}

#[test]
fn blank_queries_are_refused() {
    let e = search_symbols_page(&search_request("   ", None, None)).unwrap_err();
    assert_eq!(e.code, "invalid_parameters");
    assert_eq!(e.message, "Query cannot be empty");
    assert!(require_nonblank("x", "m").is_ok());
}

#[test]
fn search_page_defaults_and_limits() {
    assert_eq!(search_symbols_page(&search_request("parse", None, None)).unwrap(), (50, 0));
    assert_eq!(search_symbols_page(&search_request("parse", Some(500), Some(20))).unwrap(), (100, 20));
    let req = SearchContentRequest {
        pattern: "TODO".to_string(),
        path: "/p".to_string(),
        file_extension: None,
        limit: Some(1000),
        context_lines: None,
    };
    assert_eq!(content_search_limits(&req).unwrap(), (200, 2));
}

#[test]
fn search_result_pages() {
    let rows = vec![row(1, "parse", "function"), row(2, "Parser", "struct")];
    let r = search_result(rows.clone(), Some(5), 2, 0);
    assert_eq!(r.total_count, 5);
    assert!(r.has_more);
    assert_eq!(r.symbols[1].kind, SymbolKind::Struct);
    assert_eq!(r.symbols[0].file_path, "src/a.rs");
    let last = search_result(rows.clone(), Some(5), 2, 4);
    assert!(!last.has_more);
    let uncounted = search_result(rows.clone(), None, 50, 0);
    assert_eq!(uncounted.total_count, 2);
    assert!(!uncounted.has_more);
    let cut = search_result(rows, Some(5), 1, 0);
    assert_eq!(cut.symbols.len(), 1);
    assert_eq!(cut.symbols[0].name, "parse");
    assert!(cut.has_more);
}

#[test]
fn content_result_reaches_limit() {
    let m = ContentMatch {
        file_path: "a.rs".to_string(),
        project_root: "/p".to_string(),
        line_number: 3,
        line_content: "// TODO".to_string(),
        context_before: vec![],
        context_after: vec![],
    };
    let r = content_search_result("TODO".to_string(), vec![m.clone(), m.clone()], 2);
    assert_eq!(r.total_count, 2);
    assert!(r.has_more);
    assert_eq!(r.matches[0].line_number, 3);
    let r = content_search_result("TODO".to_string(), vec![m], 2);
    assert!(!r.has_more);
}

#[test]
fn lookup_errors_keep_their_code() {
    let e = lookup_error(&CortexError::SymbolNotFound("my_func".to_string()), "my_func");
    assert_eq!(e.code, "symbol_not_found");
    assert_eq!(e.message, "Symbol 'my_func' not found");
    let e = lookup_error(&CortexError::SymbolNotFound("my_func in a.rs".to_string()), "my_func");
    assert_eq!(e.code, "symbol_not_found");
    assert_eq!(e.message, "Symbol not found: my_func in a.rs");
    let f = lookup_error(&CortexError::FileNotFound("f".to_string()), "x");
    assert_eq!(f.code, "file_not_found");
    assert_eq!(f.message, "File not found: f");
    assert_eq!(lookup_error(&CortexError::Database("d".to_string()), "x").code, "query_error");
}

fn file_entry(name: &str, t: FileType) -> FileEntry {
    FileEntry {
        name: name.to_string(),
        path: name.to_string(),
        entry_type: t,
        extension: None,
        language: None,
        size: None,
        depth: 1,
    }
}

#[test]
fn listings_count_entries() {
    let entries = vec![
        file_entry("a.rs", FileType::File),
        file_entry("src", FileType::Directory),
        file_entry("b.rs", FileType::File),
        file_entry("l", FileType::Symlink),
    ];
    let d = directory_listing("proj".to_string(), entries.clone());
    assert_eq!(d.file_count, 2);
    assert_eq!(d.directory_count, 1);
    let l = file_list_result("/p".to_string(), entries, 4);
    assert_eq!(l.total_count, 4);
    assert!(l.has_more);
}

#[test]
fn index_answers() {
    let stats = IndexStats { files_indexed: 3, files_unchanged: 2, files_skipped: 1, files_failed: 0, symbols_found: 40 };
    let r = index_result(&stats, 12, "/p".to_string());
    assert_eq!(r.files_indexed, 3);
    assert_eq!(r.symbols_found, 40);
    assert_eq!(r.duration_ms, 12);
    assert!(index_status(4, 10, None, "/p".to_string(), vec![]).is_indexed);
    assert!(!index_status(0, 0, None, "/p".to_string(), vec![]).is_indexed);
}

#[test]
fn file_content_answer() {
    let r = file_content_result("src/app.tsx".to_string(), "/p".to_string(), "a\nb\r\nc\n".to_string());
    assert_eq!(r.line_count, 3);
    assert_eq!(r.language, Some("typescript".to_string()));
    let r = file_content_result("Makefile".to_string(), "/p".to_string(), String::new());
    assert_eq!(r.line_count, 0);
    assert_eq!(r.language, None);
}

#[test]
fn document_symbols_answer() {
    let rows = vec![
        DocumentSymbolRow { id: 1, name: "Outer".to_string(), kind: "class".to_string(), start_line: 1, end_line: 9, start_col: 0, end_col: 1, signature: None, documentation: None },
        DocumentSymbolRow { id: 2, name: "inner".to_string(), kind: "method".to_string(), start_line: 2, end_line: 4, start_col: 4, end_col: 5, signature: None, documentation: None },
    ];
    let r = document_symbols_result("a.py".to_string(), "/p".to_string(), rows);
    assert_eq!(r.symbols.len(), 1);
    assert_eq!(r.symbols[0].kind, SymbolKind::Class);
    assert_eq!(r.symbols[0].children[0].name, "inner");
    assert!(r.note.is_none());
}

#[test]
fn barrel_files_are_described() {
    let r = barrel_file_result("index.ts".to_string(), "/p".to_string(), Some("export * from './a'\n"));
    assert_eq!(r.re_exports.as_ref().map(|v| v.len()), Some(1));
    assert_eq!(r.note, Some("File contains only re-exports (barrel file)".to_string()));
    let r = barrel_file_result("empty.ts".to_string(), "/p".to_string(), Some("// nothing\n"));
    assert!(r.re_exports.is_none());
    assert_eq!(r.note, Some("File has no indexable symbols or re-exports".to_string()));
    let r = barrel_file_result("gone.ts".to_string(), "/p".to_string(), None);
    assert!(r.note.is_none());
}

#[test]
fn code_context_answer() {
    let ctx = || CodeContext {
        symbol_name: "main".to_string(),
        kind: "function".to_string(),
        file_path: "src/main.rs".to_string(),
        start_line: 1,
        end_line: 2,
        signature: Some("fn main()".to_string()),
        code: "fn main() {\n}".to_string(),
    };
    let file = "fn main() {\n}\n\nfn helper() {}\n";
    let r = code_context_result(ctx(), file, 0);
    assert_eq!(r.kind, SymbolKind::Function);
    assert_eq!(r.preview, "   1 | fn main() {\n   2 | }");
    assert!(r.context_before.is_none());
    assert!(r.context_after.is_none());
    let r = code_context_result(ctx(), file, 2);
    assert!(r.context_before.is_none());
    assert_eq!(r.context_after, Some(vec!["   3 | ".to_string(), "   4 | fn helper() {}".to_string()]));
}

fn report_request(task_type: &str, summary: &str, model: Option<&str>) -> ExportReportRequest {
    ExportReportRequest {
        project_root: "/p".to_string(),
        task_type: task_type.to_string(),
        summary: summary.to_string(),
        model: model.map(|m| m.to_string()),
        tools_used: Some(vec!["search_symbols".to_string()]),
        files_modified: None,
        issues_found: None,
        improvement_suggestions: None,
        metadata: None,
    }
}

#[test]
fn report_requests_are_checked() {
    let ok = check_report_request(report_request("Bug_Fix", "Fixed it", Some("m1"))).unwrap();
    assert_eq!(ok.task_type, "bug_fix");
    assert_eq!(ok.model, "m1");
    assert!(ok.id.is_empty());
    assert_eq!(ok.tools_used, vec!["search_symbols".to_string()]);
    assert!(ok.files_modified.is_empty());
    let e = check_report_request(report_request("chore", "x", Some("m"))).unwrap_err();
    assert_eq!(
        e.message,
        "Invalid task_type 'chore'. Must be one of: bug_fix, feature, refactoring, exploration, review, other"
    );
    let e = check_report_request(report_request("review", "  ", Some("m"))).unwrap_err();
    assert_eq!(e.message, "Summary cannot be empty");
    let e = check_report_request(report_request("review", "ok", None)).unwrap_err();
    assert_eq!(e.code, "invalid_parameters");
    assert_eq!(e.message, "Model name is required. Include your AI model identifier (e.g., 'gpt-4o') so reports can be tracked per model.");
}

#[test]
fn synthesis_without_reports() {
    let r = empty_synthesis();
    assert_eq!(r.total_reports, 0);
    assert_eq!(r.summary, "No reports found for this project.");
    assert_eq!(synthesis_limit(None), 50);
    assert_eq!(synthesis_limit(Some(7)), 7);
}

#[test]
fn suggestions_carry_name_kind_path_and_signature() {
    let mut a = row(1, "my_function", "function");
    a.signature = Some("fn my_function()".to_string());
    let s = symbol_suggestions(vec![a, row(2, "my_funky", "struct")]);
    assert_eq!(s.len(), 2);
    assert_eq!(s[0].name, "my_function");
    assert_eq!(s[0].kind, "function");
    assert_eq!(s[0].signature, Some("fn my_function()".to_string()));
    assert_eq!(s[1].name, "my_funky");
    assert_eq!(s[1].kind, "struct");
    assert!(symbol_suggestions(Vec::new()).is_empty());
}

#[test]
fn resolved_paths_stay_within_the_root() {
    assert!(within_root("/home/p", "/home/p"));
    assert!(within_root("/home/p", "/home/p/src/a.rs"));
    assert!(!within_root("/home/p", "/home/pq/a.rs"));
    assert!(!within_root("/home/p", "/home/a.rs"));
    assert!(!within_root("/home/p", "/etc/passwd"));
    assert!(within_root("/", "/etc/passwd"));
}
