//! Core data model: languages, symbol kinds, symbols and imports.

pub mod import;

pub use import::{import_views, Import, ImportType, ImportView};

use crate::text::str_eq;
use vstd::prelude::*;

verus! {

/// A source language that the indexer understands.
#[derive(Debug, Clone, Copy, PartialEq, Eq, Structural)]
pub enum Language {
    Rust,
    Python,
    JavaScript,
    TypeScript,
    Java,
}

/// The language of files with extension `ext` (without the dot).
pub open spec fn language_of_extension(ext: Seq<char>) -> Option<Language> {
    if ext == "rs"@ {
        Some(Language::Rust)
    } else if ext == "py"@ {
        Some(Language::Python)
    } else if ext == "js"@ || ext == "jsx"@ {
        Some(Language::JavaScript)
    } else if ext == "ts"@ || ext == "tsx"@ {
        Some(Language::TypeScript)
    } else if ext == "java"@ {
        Some(Language::Java)
    } else {
        None
    }
}

impl Language {
    /// The lower-case name stored in the index.
    pub open spec fn name(self) -> Seq<char> {
        match self {
            Language::Rust => "rust"@,
            Language::Python => "python"@,
            Language::JavaScript => "javascript"@,
            Language::TypeScript => "typescript"@,
            Language::Java => "java"@,
        }
    }

    /// The lower-case name stored in the index.
    pub fn as_str(&self) -> (r: &'static str)
        ensures
            r@ == self.name(),
    {
        match self {
            Language::Rust => "rust",
            Language::Python => "python",
            Language::JavaScript => "javascript",
            Language::TypeScript => "typescript",
            Language::Java => "java",
        }
    }

    /// The language of files with extension `ext`, if it is one the indexer parses.
    pub fn from_extension(ext: &str) -> (r: Option<Language>)
        ensures
            r == language_of_extension(ext@),
    {
        if str_eq(ext, "rs") {
            Some(Language::Rust)
        } else if str_eq(ext, "py") {
            Some(Language::Python)
        } else if str_eq(ext, "js") || str_eq(ext, "jsx") {
            Some(Language::JavaScript)
        } else if str_eq(ext, "ts") || str_eq(ext, "tsx") {
            Some(Language::TypeScript)
        } else if str_eq(ext, "java") {
            Some(Language::Java)
        } else {
            None
        }
    }
}

/// The kind of a code symbol.
#[derive(Debug, Clone, Copy, PartialEq, Eq, Structural)]
pub enum SymbolKind {
    Function,
    Struct,
    Impl,
    Trait,
    Interface,
    Enum,
    TypeAlias,
    Constant,
    Module,
    Class,
    Method,
}

impl SymbolKind {
    /// The name stored in the index for this kind.
    pub open spec fn name(self) -> Seq<char> {
        match self {
            SymbolKind::Function => "function"@,
            SymbolKind::Struct => "struct"@,
            SymbolKind::Impl => "impl"@,
            SymbolKind::Trait => "trait"@,
            SymbolKind::Interface => "interface"@,
            SymbolKind::Enum => "enum"@,
            SymbolKind::TypeAlias => "type_alias"@,
            SymbolKind::Constant => "constant"@,
            SymbolKind::Module => "module"@,
            SymbolKind::Class => "class"@,
            SymbolKind::Method => "method"@,
        }
    }

    /// The name stored in the index for this kind.
    pub fn as_str(&self) -> (r: &'static str)
        ensures
            r@ == self.name(),
    {
        match self {
            SymbolKind::Function => "function",
            SymbolKind::Struct => "struct",
            SymbolKind::Impl => "impl",
            SymbolKind::Trait => "trait",
            SymbolKind::Interface => "interface",
            SymbolKind::Enum => "enum",
            SymbolKind::TypeAlias => "type_alias",
            SymbolKind::Constant => "constant",
            SymbolKind::Module => "module",
            SymbolKind::Class => "class",
            SymbolKind::Method => "method",
        }
    }
}

/// A symbol found in a source file; lines are 1-based, columns are 0-based byte offsets.
#[derive(Debug, Clone)]
pub struct Symbol {
    pub name: String,
    pub kind: SymbolKind,
    pub start_line: usize,
    pub end_line: usize,
    pub start_col: usize,
    pub end_col: usize,
    pub signature: Option<String>,
    pub documentation: Option<String>,
}

/// The mathematical content of a [`Symbol`].
pub struct SymbolView {
    pub name: Seq<char>,
    pub kind: SymbolKind,
    pub start_line: nat,
    pub end_line: nat,
    pub start_col: nat,
    pub end_col: nat,
    pub signature: Option<Seq<char>>,
    pub documentation: Option<Seq<char>>,
}

/// The view of an optional string.
pub open spec fn opt_view(o: Option<String>) -> Option<Seq<char>> {
    match o {
        Some(s) => Some(s@),
        None => None,
    }
}

impl View for Symbol {
    type V = SymbolView;

    open spec fn view(&self) -> SymbolView {
        SymbolView {
            name: self.name@,
            kind: self.kind,
            start_line: self.start_line as nat,
            end_line: self.end_line as nat,
            start_col: self.start_col as nat,
            end_col: self.end_col as nat,
            signature: opt_view(self.signature),
            documentation: opt_view(self.documentation),
        }
    }
}

/// The views of a sequence of symbols.
pub open spec fn symbol_views(s: Seq<Symbol>) -> Seq<SymbolView> {
    s.map_values(|x: Symbol| x@)
}

} // verus!
