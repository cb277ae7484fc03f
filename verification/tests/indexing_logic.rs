use cortex::config::{cortex_dir, project_db_path, Config};
use cortex::indexer::db::{connection_string, contains_pattern, db_file_path, module_name, split_identifier};
use cortex::indexer::{compute_hash, decide_index, plan_file, single_file_count, FilePlan, IndexDecision, IndexFileResult, IndexStats};
use cortex::models::import::ImportType;
use cortex::models::Language;
use cortex::parser::java_parser::java_parse_tree;
use cortex::parser::python_parser::python_parse_tree;
use cortex::parser::rust_parser::rust_parse_tree;
use cortex::parser::ts_parser::ts_parse_tree;
use cortex::syntax::SyntaxTree;

#[test]
fn content_hash_is_hex_sha256() {
    assert_eq!(compute_hash("hello"), "2cf24dba5fb0a30e26e83b2ac5b9e29e1b161e5c1fa7425e73043362938b9824");
    assert_eq!(compute_hash("").len(), 64);
}

#[test]
fn identifiers_split_into_words() {
    assert_eq!(split_identifier("RfqBuyerService"), "rfq buyer service");
    assert_eq!(split_identifier("handle_parsed_result"), "handle parsed result");
    assert_eq!(split_identifier("HTTPServer"), "http server");
    assert_eq!(split_identifier("crate.module.Item"), "crate module item");
    assert_eq!(split_identifier("x"), "x");
    assert_eq!(split_identifier(""), "");
}

#[test]
fn unchanged_files_are_not_parsed_again() {
    let src = "fn a() {}\n";
    let hash = compute_hash(src);
    assert!(matches!(plan_file(src, "a.rs", Language::Rust, 1024, Some(hash.as_str())), FilePlan::Unchanged));
    match plan_file(src, "a.rs", Language::Rust, 1024, Some("old")) {
        FilePlan::Store { hash: h, result } => {
            assert_eq!(h, hash);
            assert_eq!(result.symbols.len(), 1);
            assert_eq!(result.symbols[0].name, "a");
        }
        _ => panic!("expected the file to be stored"),
    }
    assert!(matches!(plan_file(src, "a.rs", Language::Rust, 0, None), FilePlan::Skip));
    assert_eq!(decide_index("", 0, "h", None), IndexDecision::Index);
}

#[test]
fn indexing_counts() {
    let mut stats = IndexStats { files_indexed: 0, files_unchanged: 0, files_skipped: 0, files_failed: 0, symbols_found: 0 };
    stats.record(Some(IndexFileResult::New(4)));
    stats.record(Some(IndexFileResult::Unchanged));
    stats.record(Some(IndexFileResult::Skipped));
    stats.record(None);
    assert_eq!((stats.files_indexed, stats.symbols_found), (1, 4));
    assert_eq!((stats.files_unchanged, stats.files_skipped, stats.files_failed), (1, 1, 1));
    assert_eq!(single_file_count(IndexFileResult::New(7)), 7);
    assert_eq!(single_file_count(IndexFileResult::Unchanged), 0);
}

#[test]
fn database_locations() {
    assert_eq!(connection_string("/p/.cortex/index.sqlite"), "sqlite:/p/.cortex/index.sqlite?mode=rwc");
    assert_eq!(connection_string("sqlite:/x.db"), "sqlite:/x.db?mode=rwc");
    assert_eq!(db_file_path("sqlite:/x.db"), "/x.db");
    assert_eq!(project_db_path("/home/u/proj"), "/home/u/proj/.cortex/index.sqlite");
    assert_eq!(cortex_dir("/home/u"), "/home/u/.cortex");
    assert_eq!(contains_pattern("abc"), "%abc%");
    assert_eq!(module_name("src/utils/helpers.ts"), "helpers");
}

#[test]
fn default_configuration() {
    let c = Config::default_for("/home/u");
    assert_eq!(c.database.path, "/home/u/.cortex/db.sqlite");
    assert_eq!(c.indexing.max_file_size_kb, 1024);
    assert_eq!(c.watcher.debounce_ms, 500);
    assert_eq!(Config::default_config_path("/home/u"), "/home/u/.cortex/config.toml");
}

#[test]
fn names_of_languages_and_imports() {
    assert_eq!(Language::from_extension("tsx"), Some(Language::TypeScript));
    assert_eq!(Language::from_extension("md"), None);
    assert_eq!(Language::Java.as_str(), "java");
    for t in [ImportType::Import, ImportType::Require, ImportType::Use, ImportType::From, ImportType::Include] {
        assert_eq!(ImportType::from_str(t.as_str()), t);
    }
    assert_eq!(ImportType::from_str("whatever"), ImportType::Include);
}

#[test]
fn parsing_a_built_tree_gives_the_parse_result() {
    let r = rust_parse_tree(&SyntaxTree::build(Language::Rust, "use std::fmt;\nfn alpha() {}\nstruct Beta;\n"));
    let names: Vec<&str> = r.symbols.iter().map(|s| s.name.as_str()).collect();
    assert!(names.contains(&"alpha") && names.contains(&"Beta"));
    assert_eq!(r.imports.len(), 1);

    let p = python_parse_tree(&SyntaxTree::build(Language::Python, "import os\ndef gamma():\n    pass\n"));
    assert_eq!(p.symbols[0].name, "gamma");
    assert_eq!(p.imports.len(), 1);

    let t = ts_parse_tree(&SyntaxTree::build(Language::TypeScript, "interface Delta { x: number }\n"));
    assert_eq!(t.symbols[0].name, "Delta");

    let j = java_parse_tree(&SyntaxTree::build(Language::Java, "class Epsilon {}\n"));
    assert_eq!(j.symbols[0].name, "Epsilon");
}
