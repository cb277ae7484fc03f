//! Parameters of the query tools and the logic that turns index rows into answers.

use crate::models::SymbolKind;
use crate::text::str_eq;
use vstd::prelude::*;

verus! {

/// Parameters of `search_symbols`.
#[derive(Debug, Clone)]
pub struct SearchSymbolsRequest {
    pub query: String,
    pub project_root: String,
    pub kind: Option<SymbolKind>,
    pub limit: Option<u32>,
    pub offset: Option<u32>,
    pub search_mode: Option<String>,
}

/// Parameters of `get_code_context`.
#[derive(Debug, Clone)]
pub struct GetCodeContextRequest {
    pub symbol_name: String,
    pub project_root: String,
    pub file_path: Option<String>,
    pub context_lines: Option<u32>,
}

/// Parameters of `list_directory_structure`.
#[derive(Debug, Clone)]
pub struct ListDirectoryRequest {
    pub path: String,
    pub max_depth: Option<usize>,
    pub extension: Option<String>,
}

/// Parameters of `list_document_symbols`.
#[derive(Debug, Clone)]
pub struct ListDocumentSymbolsRequest {
    pub file_path: String,
    pub project_root: String,
}

/// Parameters of `search_content`.
#[derive(Debug, Clone)]
pub struct SearchContentRequest {
    pub pattern: String,
    pub path: String,
    pub file_extension: Option<String>,
    pub limit: Option<u32>,
    pub context_lines: Option<u32>,
}

/// Parameters of `find_references`.
#[derive(Debug, Clone)]
pub struct FindReferencesRequest {
    pub symbol_name: String,
    pub path: String,
    pub file_path: Option<String>,
    pub limit: Option<u32>,
    pub context_lines: Option<u32>,
}

/// Parameters of `search_by_keyword`.
#[derive(Debug, Clone)]
pub struct SearchByKeywordRequest {
    pub query: String,
    pub path: String,
    pub limit: Option<u32>,
}

/// Parameters of `get_imports`.
#[derive(Debug, Clone)]
pub struct GetImportsRequest {
    pub file_path: String,
    pub project_root: String,
    pub direction: Option<String>,
}

/// Parameters of `export_report`.
#[derive(Debug, Clone)]
pub struct ExportReportRequest {
    pub project_root: String,
    pub task_type: String,
    pub summary: String,
    pub model: Option<String>,
    pub tools_used: Option<Vec<String>>,
    pub files_modified: Option<Vec<String>>,
    pub issues_found: Option<Vec<String>>,
    pub improvement_suggestions: Option<Vec<String>>,
    pub metadata: Option<Vec<(String, String)>>,
}

/// Parameters of `synthesize_reports`.
#[derive(Debug, Clone)]
pub struct SynthesizeReportsRequest {
    pub project_root: String,
    pub limit: Option<usize>,
}

/// Parameters of `index_project`.
#[derive(Debug, Clone)]
pub struct IndexProjectRequest {
    pub path: String,
}

/// Parameters of `get_index_status`.
#[derive(Debug, Clone)]
pub struct GetIndexStatusRequest {
    pub path: String,
}

/// Parameters of `get_symbol_stats`.
#[derive(Debug, Clone)]
pub struct GetSymbolStatsRequest {
    pub path: String,
}

/// Parameters of `list_files`.
#[derive(Debug, Clone)]
pub struct ListFilesRequest {
    pub path: String,
    pub extension: Option<String>,
    pub include_directories: Option<bool>,
    pub limit: Option<usize>,
}

/// The kind named `s` in the index; unknown names read as `Function`.
pub open spec fn kind_named(s: Seq<char>) -> SymbolKind {
    if s == "function"@ {
        SymbolKind::Function
    } else if s == "struct"@ {
        SymbolKind::Struct
    } else if s == "impl"@ {
        SymbolKind::Impl
    } else if s == "trait"@ {
        SymbolKind::Trait
    } else if s == "interface"@ {
        SymbolKind::Interface
    } else if s == "enum"@ {
        SymbolKind::Enum
    } else if s == "type_alias"@ {
        SymbolKind::TypeAlias
    } else if s == "constant"@ {
        SymbolKind::Constant
    } else if s == "module"@ {
        SymbolKind::Module
    } else if s == "class"@ {
        SymbolKind::Class
    } else if s == "method"@ {
        SymbolKind::Method
    } else {
        SymbolKind::Function
    }
}

/// The kind named `kind_str` in the index; unknown names read as `Function`.
pub fn parse_symbol_kind(kind_str: &str) -> (k: SymbolKind)
    ensures
        k == kind_named(kind_str@),
{
    if str_eq(kind_str, "function") {
        SymbolKind::Function
    } else if str_eq(kind_str, "struct") {
        SymbolKind::Struct
    } else if str_eq(kind_str, "impl") {
        SymbolKind::Impl
    } else if str_eq(kind_str, "trait") {
        SymbolKind::Trait
    } else if str_eq(kind_str, "interface") {
        SymbolKind::Interface
    } else if str_eq(kind_str, "enum") {
        SymbolKind::Enum
    } else if str_eq(kind_str, "type_alias") {
        SymbolKind::TypeAlias
    } else if str_eq(kind_str, "constant") {
        SymbolKind::Constant
    } else if str_eq(kind_str, "module") {
        SymbolKind::Module
    } else if str_eq(kind_str, "class") {
        SymbolKind::Class
    } else if str_eq(kind_str, "method") {
        SymbolKind::Method
    } else {
        SymbolKind::Function
    }
}

/// Law: the name a symbol kind is stored under reads back as that kind.
pub proof fn lemma_kind_round_trip(k: SymbolKind)
    ensures
        kind_named(k.name()) == k,
{
    reveal_strlit("function");
    reveal_strlit("struct");
    reveal_strlit("impl");
    reveal_strlit("trait");
    reveal_strlit("interface");
    reveal_strlit("enum");
    reveal_strlit("type_alias");
    reveal_strlit("constant");
    reveal_strlit("module");
    reveal_strlit("class");
    reveal_strlit("method");
    assert("function"@.len() == 8 && "struct"@.len() == 6 && "impl"@.len() == 4 && "trait"@.len()
        == 5 && "interface"@.len() == 9 && "enum"@.len() == 4 && "type_alias"@.len() == 10
        && "constant"@.len() == 8 && "module"@.len() == 6 && "class"@.len() == 5
        && "method"@.len() == 6);
    assert("function"@[0] != "constant"@[0]);
    assert("struct"@[0] != "module"@[0]);
    assert("struct"@[0] != "method"@[0]);
    assert("module"@[1] != "method"@[1]);
    assert("impl"@[0] != "enum"@[0]);
    assert("trait"@[0] != "class"@[0]);
    assert("function"@ != "constant"@);
    assert("struct"@ != "module"@);
    assert("struct"@ != "method"@);
    assert("module"@ != "method"@);
    assert("impl"@ != "enum"@);
    assert("trait"@ != "class"@);
}

/// All symbol kinds, in the order the `list_symbol_kinds` tool lists them.
pub open spec fn all_kinds() -> Seq<SymbolKind> {
    seq![
        SymbolKind::Function,
        SymbolKind::Struct,
        SymbolKind::Impl,
        SymbolKind::Trait,
        SymbolKind::Interface,
        SymbolKind::Enum,
        SymbolKind::TypeAlias,
        SymbolKind::Constant,
        SymbolKind::Module,
        SymbolKind::Class,
        SymbolKind::Method,
    ]
}

/// Law: the kinds listed as search filters are every kind, each once.
pub proof fn lemma_all_kinds_complete(k: SymbolKind)
    ensures
        all_kinds().len() == 11,
        all_kinds().contains(k),
        forall|i: int, j: int| 0 <= i < j < 11 ==> all_kinds()[i] != all_kinds()[j],
{
    let s = all_kinds();
    match k {
        SymbolKind::Function => assert(s[0] == k),
        SymbolKind::Struct => assert(s[1] == k),
        SymbolKind::Impl => assert(s[2] == k),
        SymbolKind::Trait => assert(s[3] == k),
        SymbolKind::Interface => assert(s[4] == k),
        SymbolKind::Enum => assert(s[5] == k),
        SymbolKind::TypeAlias => assert(s[6] == k),
        SymbolKind::Constant => assert(s[7] == k),
        SymbolKind::Module => assert(s[8] == k),
        SymbolKind::Class => assert(s[9] == k),
        SymbolKind::Method => assert(s[10] == k),
    }
}

/// All symbol kinds that can be used as search filters.
pub fn list_symbol_kinds() -> (r: Vec<SymbolKind>)
    ensures
        r@ == all_kinds(),
{
    let r = vec![
        SymbolKind::Function,
        SymbolKind::Struct,
        SymbolKind::Impl,
        SymbolKind::Trait,
        SymbolKind::Interface,
        SymbolKind::Enum,
        SymbolKind::TypeAlias,
        SymbolKind::Constant,
        SymbolKind::Module,
        SymbolKind::Class,
        SymbolKind::Method,
    ];
    assert(r@ =~= all_kinds());
    r
}

} // verus!
