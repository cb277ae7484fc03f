use cortex::error::CortexError;
use cortex::mcp_server::cache::FileCache;
use cortex::mcp_server::error::{classify_error, ErrorCode, McpError};
use cortex::mcp_server::formatting::format_code_with_context;
use cortex::mcp_server::hierarchy::build_symbol_hierarchy;
use cortex::mcp_server::models::DocumentSymbolEntry;
use cortex::mcp_server::pools::pool_to_evict;
use cortex::mcp_server::reexports::{
    detect_js_ts_re_exports, detect_python_re_exports, detect_re_exports, extract_exported_names,
    extract_from_path,
};
use cortex::mcp_server::server::{list_symbol_kinds, parse_symbol_kind};
use cortex::mcp_server::staleness::{
    days_from_ce, has_stale_files, parse_db_timestamp, recently_checked, root_unchanged,
};
use cortex::models::SymbolKind;
use cortex::query::context::CodeContext;

fn entry(id: i64, name: &str, start: i64, end: i64) -> DocumentSymbolEntry {
    DocumentSymbolEntry {
        id,
        name: name.to_string(),
        kind: SymbolKind::Function,
        start_line: start,
        end_line: end,
        start_col: 0,
        end_col: 0,
        signature: None,
        documentation: None,
        children: Vec::new(),
    }
}

#[test]
fn js_re_exports_star_and_named() {
    let content = "export * from './a'\nexport { foo, bar as baz } from \"./b\"\nconst x = 1;\n";
    let r = detect_js_ts_re_exports(content);
    assert_eq!(r.len(), 2);
    assert_eq!(r[0].source_path, "./a");
    assert!(r[0].exported_symbols.is_none());
    assert_eq!(r[0].start_line, 1);
    assert_eq!(r[1].source_path, "./b");
    assert_eq!(r[1].exported_symbols, Some(vec!["foo".to_string(), "bar".to_string()]));
    assert_eq!(r[1].start_line, 2);
}

#[test]
fn re_export_paths_lose_semicolon_and_quotes() {
    let content = "export * from './helpers';\nexport { a, b as c } from \"./m\";";
    let r = detect_re_exports(content, "index.ts");
    assert_eq!(r.len(), 2);
    assert_eq!(r[0].source_path, "./helpers");
    assert!(r[0].exported_symbols.is_none());
    assert_eq!(r[0].start_line, 1);
    assert_eq!(r[1].source_path, "./m");
    assert_eq!(r[1].exported_symbols, Some(vec!["a".to_string(), "b".to_string()]));
    assert_eq!(r[1].start_line, 2);
    assert_eq!(extract_from_path("export * from './x';;"), Some("./x".to_string()));
}

#[test]
fn js_export_without_from_is_not_a_re_export() {
    let r = detect_js_ts_re_exports("export { a, b }\nexport * as ns\n");
    assert!(r.is_empty());
}

#[test]
fn python_re_exports_star_and_names() {
    let content = "from .models import User, Post\nfrom .utils import *\nimport os\n";
    let r = detect_python_re_exports(content);
    assert_eq!(r.len(), 2);
    assert_eq!(r[0].source_path, ".models");
    assert_eq!(r[0].exported_symbols, Some(vec!["User".to_string(), "Post".to_string()]));
    assert_eq!(r[0].start_line, 1);
    assert_eq!(r[1].source_path, ".utils");
    assert!(r[1].exported_symbols.is_none());
    assert_eq!(r[1].start_line, 2);
}

#[test]
fn re_exports_chosen_by_extension() {
    let js = "export * from './x'\n";
    assert_eq!(detect_re_exports(js, "src/index.ts").len(), 1);
    assert_eq!(detect_re_exports(js, "src/index.jsx").len(), 1);
    assert!(detect_re_exports(js, "src/lib.rs").is_empty());
    assert!(detect_re_exports(js, "README").is_empty());
    assert_eq!(detect_re_exports("from . import *\n", "pkg/__init__.py").len(), 1);
}

#[test]
fn from_path_and_exported_names() {
    assert_eq!(extract_from_path("export * from \"./mod\""), Some("./mod".to_string()));
    assert_eq!(extract_from_path("export * as x"), None);
    assert_eq!(
        extract_exported_names("export { a, b as c, }"),
        vec!["a".to_string(), "b".to_string()]
    );
    assert!(extract_exported_names("no braces here").is_empty());
}

#[test]
fn hierarchy_nests_enclosed_symbols() {
    let entries = vec![
        entry(1, "A", 1, 10),
        entry(2, "B", 2, 5),
        entry(3, "C", 3, 4),
        entry(4, "D", 12, 15),
    ];
    let r = build_symbol_hierarchy(entries);
    assert_eq!(r.len(), 2);
    assert_eq!(r[0].name, "A");
    assert_eq!(r[0].children.len(), 1);
    assert_eq!(r[0].children[0].name, "B");
    assert_eq!(r[0].children[0].children.len(), 1);
    assert_eq!(r[0].children[0].children[0].name, "C");
    assert_eq!(r[1].name, "D");
    assert!(r[1].children.is_empty());
}

#[test]
fn hierarchy_keeps_siblings_apart() {
    let entries = vec![entry(1, "Outer", 1, 20), entry(2, "First", 2, 5), entry(3, "Second", 6, 9)];
    let r = build_symbol_hierarchy(entries);
    assert_eq!(r.len(), 1);
    let names: Vec<&str> = r[0].children.iter().map(|c| c.name.as_str()).collect();
    assert_eq!(names, vec!["First", "Second"]);
    assert!(build_symbol_hierarchy(Vec::new()).is_empty());
}

fn ctx(code: &str, start: i64, end: i64) -> CodeContext {
    CodeContext {
        symbol_name: "a".to_string(),
        kind: "function".to_string(),
        file_path: "a.rs".to_string(),
        start_line: start,
        end_line: end,
        signature: None,
        code: code.to_string(),
    }
}

#[test]
fn code_preview_is_numbered_from_start_line() {
    let file = "\n\n\n\nfn a() {\n    1\n}\n";
    let (code, preview, before, after) = format_code_with_context(&ctx("fn a() {\n    1\n}\n", 5, 7), file, 0);
    assert_eq!(code, "fn a() {\n    1\n}");
    assert_eq!(preview, "   5 | fn a() {\n   6 |     1\n   7 | }");
    assert!(before.is_empty());
    assert!(after.is_empty());
}

#[test]
fn code_context_lines_around() {
    let file = "l1\nl2\nl3\nl4\nl5";
    let (_, _, before, after) = format_code_with_context(&ctx("l3\nl4", 3, 4), file, 1);
    assert_eq!(before, vec!["   2 | l2".to_string()]);
    assert_eq!(after, vec!["   5 | l5".to_string()]);
    let (_, _, before, after) = format_code_with_context(&ctx("l3\nl4", 3, 4), file, 5);
    assert_eq!(before, vec!["   1 | l1".to_string(), "   2 | l2".to_string()]);
    assert_eq!(after, vec!["   5 | l5".to_string()]);
}

#[test]
fn day_count_formula() {
    assert_eq!(days_from_ce(1, 1, 1), 1);
    assert_eq!(days_from_ce(1, 3, 1), 60);
    assert_eq!(days_from_ce(1970, 1, 1), 719163);
    assert_eq!(days_from_ce(2000, 2, 29), 730179);
    assert_eq!(days_from_ce(2000, 3, 1), 730180);
    assert_eq!(days_from_ce(2024, 1, 15), 738900);
}

#[test]
fn database_timestamps() {
    assert_eq!(parse_db_timestamp("1970-01-01 00:00:00"), 0);
    assert_eq!(parse_db_timestamp("1970-01-02 00:00:01"), 86401);
    assert_eq!(parse_db_timestamp("2024-01-01 00:00:00"), 1704067200);
    assert_eq!(parse_db_timestamp("2024-01-15 10:30:00"), 1705314600);
    assert_eq!(parse_db_timestamp("1969-12-31 23:59:59"), 0);
    assert_eq!(parse_db_timestamp("never"), 0);
    assert_eq!(parse_db_timestamp("2024-01-15"), 0);
    assert_eq!(parse_db_timestamp(""), 0);
}

#[test]
fn staleness_decisions() {
    assert!(root_unchanged(Some(5), 10));
    assert!(!root_unchanged(None, 10));
    assert!(!has_stale_files(Some(5), Some(&vec![Some(50)]), 10));
    assert!(has_stale_files(Some(20), Some(&vec![Some(3), None, Some(11)]), 10));
    assert!(!has_stale_files(Some(20), Some(&vec![Some(3), None]), 10));
    assert!(!has_stale_files(None, None, 10));
    assert!(recently_checked(Some(1_000_000_000)));
    assert!(!recently_checked(Some(30_000_000_000)));
    assert!(!recently_checked(None));
}

#[test]
fn cache_serves_fresh_entries() {
    let mut cache = FileCache::new();
    assert_eq!(cache.lookup("a.rs", 7, 0), None);
    cache.store("a.rs".to_string(), "fn a() {}".to_string(), 7, 100);
    assert_eq!(cache.lookup("a.rs", 7, 200), Some("fn a() {}".to_string()));
    assert_eq!(cache.lookup("a.rs", 8, 200), None);
    assert_eq!(cache.lookup("a.rs", 7, 100 + 60_000_000_000), None);
    cache.store("a.rs".to_string(), "fn b() {}".to_string(), 8, 300);
    assert_eq!(cache.lookup("a.rs", 8, 400), Some("fn b() {}".to_string()));
}

#[test]
fn cache_evicts_oldest_when_full() {
    let mut cache = FileCache::new();
    for i in 0..50u128 {
        cache.store(format!("f{i}"), format!("c{i}"), 1, 1000 + i);
    }
    assert_eq!(cache.lookup("f0", 1, 2000), Some("c0".to_string()));
    cache.store("new".to_string(), "n".to_string(), 1, 3000);
    assert_eq!(cache.lookup("f0", 1, 3001), None);
    assert_eq!(cache.lookup("f1", 1, 3001), Some("c1".to_string()));
    assert_eq!(cache.lookup("new", 1, 3001), Some("n".to_string()));
}

#[test]
fn least_recently_used_pool_is_evicted() {
    let pools: Vec<String> = (0..10).map(|i| format!("p{i}")).collect();
    let access: Vec<(String, u128)> = (0..10).map(|i| (format!("p{i}"), if i == 3 { 1 } else { 10 + i as u128 })).collect();
    assert_eq!(pool_to_evict(&pools, &access), Some("p3".to_string()));
    let fewer: Vec<String> = (0..9).map(|i| format!("p{i}")).collect();
    assert_eq!(pool_to_evict(&fewer, &access), None);
    let stale = vec![("gone".to_string(), 0u128)];
    assert_eq!(pool_to_evict(&pools, &stale), None);
}

#[test]
fn symbol_kinds_round_trip() {
    for k in list_symbol_kinds() {
        assert_eq!(parse_symbol_kind(k.as_str()), k);
    }
    assert_eq!(list_symbol_kinds().len(), 11);
    assert_eq!(parse_symbol_kind("nonsense"), SymbolKind::Function);
}

#[test]
fn mcp_errors_from_library_errors() {
    let e = McpError::from(CortexError::Database("locked".to_string()));
    assert_eq!(e.code, ErrorCode::DatabaseError);
    assert_eq!(e.message, "locked");
    assert!(e.details.is_none());
    let q = McpError::from(CortexError::Query("bad".to_string()));
    assert_eq!(q.code, ErrorCode::DatabaseError);
    let w = McpError::new(ErrorCode::InvalidPath, "x".to_string()).with_details(serde_json::Value::Bool(true));
    assert_eq!(w.details, Some(serde_json::Value::Bool(true)));
    let (code, msg) = classify_error(CortexError::Watcher("w".to_string()));
    assert_eq!(code, ErrorCode::InternalError);
    assert_eq!(msg, "w");
    assert_eq!(ErrorCode::SymbolNotFound.as_str(), "symbol_not_found");
}
