use cortex::error::CortexError;
use cortex::indexer::db::SymbolRow;
use cortex::query::content::{search_content, ContentMatch, SearchFile};
use cortex::query::context::{extract_code, is_barrel_file, lookup_symbol};
use cortex::query::imports_query::wanted_directions;
use cortex::query::keyword::{keyword_match_query, semantic_match_query};
use cortex::query::references::{classify_reference, find_references, ReferenceType};
use cortex::query::search::like_pattern;

fn row(name: &str, kind: &str, path: &str) -> SymbolRow {
    SymbolRow {
        id: 1,
        project_root: "/p".to_string(),
        path: path.to_string(),
        name: name.to_string(),
        kind: kind.to_string(),
        start_line: 2,
        end_line: 3,
        signature: None,
        language: "rust".to_string(),
    }
}

#[test]
fn lookup_prefers_the_exact_name() {
    let rows = vec![row("parse_all", "function", "src/a.rs"), row("parse", "function", "src/b.rs")];
    let r = lookup_symbol(rows, None, None, "parse", None).unwrap();
    assert_eq!(r.name, "parse");
    assert_eq!(r.path, "src/b.rs");
}

#[test]
fn lookup_reports_ambiguity_and_absence() {
    let rows = vec![row("parse", "function", "src/a.rs"), row("parse", "function", "src/b.rs")];
    match lookup_symbol(rows, None, None, "parse", None) {
        Err(CortexError::SymbolNotFound(m)) => assert!(m.contains("parse")),
        other => panic!("unexpected {other:?}"),
    }
    match lookup_symbol(Vec::new(), None, None, "missing", None) {
        Err(CortexError::SymbolNotFound(m)) => assert_eq!(m, "missing"),
        other => panic!("unexpected {other:?}"),
    }
}

#[test]
fn lookup_by_file_and_kind() {
    let rows = vec![
        row("Config", "struct", "src/config.rs"),
        row("Config", "impl", "src/config.rs"),
        row("Config", "struct", "src/other.rs"),
    ];
    let r = lookup_symbol(rows.clone(), Some("src/config.rs"), None, "Config", Some("impl")).unwrap();
    assert_eq!(r.kind, "impl");
    assert_eq!(r.path, "src/config.rs");
    let r = lookup_symbol(rows, Some("other.rs"), None, "Config", Some("struct")).unwrap();
    assert_eq!(r.path, "src/other.rs");
}

#[test]
fn code_is_cut_from_the_file() {
    let r = row("b", "function", "src/a.rs");
    let ctx = extract_code(&r, "line1\nfn b() {\n}\nline4\n");
    assert_eq!(ctx.code, "fn b() {\n}");
    assert_eq!(ctx.start_line, 2);
}

#[test]
fn barrel_files_by_name() {
    assert!(is_barrel_file("src/index.ts"));
    assert!(is_barrel_file("pkg/__init__.py"));
    assert!(is_barrel_file("src/mod.rs"));
    assert!(!is_barrel_file("src/main.rs"));
}

#[test]
fn references_are_classified() {
    assert_eq!(classify_reference("import { Foo } from './foo'", "Foo", false), ReferenceType::Import);
    assert_eq!(classify_reference("let x = Foo::new();", "Foo", false), ReferenceType::Other);
    assert_eq!(classify_reference("  build(x)", "build", false), ReferenceType::Call);
    assert_eq!(classify_reference("let v: Vec<Foo> = x;", "Vec", false), ReferenceType::Call);
    assert_eq!(classify_reference("fn f(a: Foo)", "Foo", false), ReferenceType::TypeUsage);
    assert_eq!(classify_reference("pub struct Foo {", "Foo", true), ReferenceType::Definition);
    assert_eq!(classify_reference("pub struct Foo {", "Foo", false), ReferenceType::Other);
}

fn m(file: &str, line: usize, text: &str) -> ContentMatch {
    ContentMatch {
        file_path: file.to_string(),
        project_root: "/p".to_string(),
        line_number: line,
        line_content: text.to_string(),
        context_before: vec![],
        context_after: vec![],
    }
}

#[test]
fn references_skip_comments_and_respect_the_limit() {
    let matches = vec![
        m("src/a.rs", 1, "fn foo() {}"),
        m("src/a.rs", 2, "// foo is old"),
        m("src/a.rs", 3, "let y = foo();"),
        m("src/b.rs", 1, "use crate::foo;"),
    ];
    let r = find_references(&matches, "foo", Some("src/a.rs"), 10);
    assert_eq!(r.len(), 3);
    assert_eq!(r[0].reference_type, ReferenceType::Definition);
    assert_eq!(r[1].line_number, 3);
    assert_eq!(r[1].reference_type, ReferenceType::Call);
    assert_eq!(r[2].file_path, "src/b.rs");
    assert_eq!(r[2].reference_type, ReferenceType::Import);
    assert_eq!(find_references(&matches, "foo", None, 1).len(), 1);
}

#[test]
fn content_search_by_regex_with_context() {
    let files = vec![
        SearchFile {
            project_root: "/p".to_string(),
            path: "a.rs".to_string(),
            content: Some("fn foo() {}\nlet x = foo();\nbar\n".to_string()),
        },
        SearchFile { project_root: "/p".to_string(), path: "gone.rs".to_string(), content: None },
    ];
    let r = search_content(&files, "fo+", 10, 1, false);
    assert_eq!(r.len(), 2);
    assert_eq!(r[0].line_number, 1);
    assert!(r[0].context_before.is_empty());
    assert_eq!(r[0].context_after, vec!["let x = foo();".to_string()]);
    assert_eq!(r[1].line_number, 2);
    assert_eq!(r[1].context_before, vec!["fn foo() {}".to_string()]);
    assert_eq!(search_content(&files, "foo", 1, 0, false).len(), 1);
}

#[test]
fn content_search_falls_back_to_literal_text() {
    let files = vec![SearchFile {
        project_root: "/p".to_string(),
        path: "a.py".to_string(),
        content: Some("x = call(1\ny = 2\n".to_string()),
    }];
    let r = search_content(&files, "call(", 10, 0, false);
    assert_eq!(r.len(), 1);
    assert_eq!(r[0].line_content, "x = call(1");
}

#[test]
fn invalid_pattern_is_searched_as_literal() {
    let files = vec![SearchFile {
        project_root: "/p".to_string(),
        path: "a.rs".to_string(),
        content: Some("let x = foo();\n".to_string()),
    }];
    let r = search_content(&files, "foo(", 10, 0, false);
    assert_eq!(r.len(), 1);
    assert_eq!(r[0].file_path, "a.rs");
    assert_eq!(r[0].project_root, "/p");
    assert_eq!(r[0].line_number, 1);
    assert_eq!(r[0].line_content, "let x = foo();");
    assert!(r[0].context_before.is_empty());
    assert!(r[0].context_after.is_empty());
}

#[test]
fn content_search_across_lines() {
    let files = vec![SearchFile {
        project_root: "/p".to_string(),
        path: "a.rs".to_string(),
        content: Some("a\nstart\nmiddle\nend\nz\n".to_string()),
    }];
    let r = search_content(&files, "start.*end", 10, 1, true);
    assert_eq!(r.len(), 1);
    assert_eq!(r[0].line_number, 2);
    assert_eq!(r[0].line_content, "start\nmiddle\nend");
    assert_eq!(r[0].context_before, vec!["a".to_string()]);
    assert_eq!(r[0].context_after, vec!["z".to_string()]);
}

#[test]
fn name_patterns_by_mode() {
    assert_eq!(like_pattern("parse", "exact"), "parse");
    assert_eq!(like_pattern("parse", "prefix"), "parse%");
    assert_eq!(like_pattern("parse", "contains"), "%parse%");
    assert_eq!(like_pattern("parse", "fuzzy"), "%parse%");
}

#[test]
fn full_text_queries() {
    assert_eq!(keyword_match_query("rate  limiting"), Some("rate* AND limiting*".to_string()));
    assert_eq!(keyword_match_query(" \t "), None);
    assert_eq!(semantic_match_query("db connection pool"), Some("db OR connection OR pool".to_string()));
    assert_eq!(semantic_match_query(""), None);
}

#[test]
fn import_directions() {
    assert_eq!(wanted_directions("both"), (true, true));
    assert_eq!(wanted_directions("outgoing"), (true, false));
    assert_eq!(wanted_directions("incoming"), (false, true));
    assert_eq!(wanted_directions("sideways"), (false, false));
}

#[test]
fn lookup_in_file_prefers_the_best_path_match() {
    let rows = vec![
        row("handler", "function", "app/src/api.rs"),
        row("handler", "function", "src/api.rs"),
        row("handler", "function", "other/api.rs"),
    ];
    let r = lookup_symbol(rows.clone(), Some("src/api.rs"), None, "handler", None).unwrap();
    assert_eq!(r.path, "src/api.rs");
    let rows = vec![row("handler", "function", "other/api.rs"), row("handler", "function", "app/src/api.rs")];
    let r = lookup_symbol(rows, Some("src/api.rs"), None, "handler", None).unwrap();
    assert_eq!(r.path, "app/src/api.rs");
    let rows = vec![row("handler", "function", "src/index.ts"), row("handler", "function", "lib/index.ts"), row("handler", "function", "src/h.ts")];
    let r = lookup_symbol(rows, Some("index.ts"), None, "handler", None).unwrap();
    assert_eq!(r.path, "src/index.ts");
}
