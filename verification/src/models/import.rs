//! Import statements recorded for dependency analysis.

use crate::text::str_eq;
use crate::models::opt_view;
use vstd::prelude::*;

verus! {

/// The form of an import statement.
#[derive(Debug, Clone, Copy, PartialEq, Eq, Structural)]
pub enum ImportType {
    Import,
    Require,
    Use,
    From,
    Include,
}

/// The import type whose name is `s`; any other text reads as `Include`.
pub open spec fn import_type_named(s: Seq<char>) -> ImportType {
    if s == "import"@ {
        ImportType::Import
    } else if s == "require"@ {
        ImportType::Require
    } else if s == "use"@ {
        ImportType::Use
    } else if s == "from"@ {
        ImportType::From
    } else {
        ImportType::Include
    }
}

impl ImportType {
    /// The name stored in the index for this import type.
    pub open spec fn name(self) -> Seq<char> {
        match self {
            ImportType::Import => "import"@,
            ImportType::Require => "require"@,
            ImportType::Use => "use"@,
            ImportType::From => "from"@,
            ImportType::Include => "include"@,
        }
    }

    /// The name stored in the index for this import type.
    pub fn as_str(&self) -> (r: &'static str)
        ensures
            r@ == self.name(),
    {
        match self {
            ImportType::Import => "import",
            ImportType::Require => "require",
            ImportType::Use => "use",
            ImportType::From => "from",
            ImportType::Include => "include",
        }
    }

    /// The import type named `s`; unknown names read as `Include`.
    pub fn from_str(s: &str) -> (r: ImportType)
        ensures
            r == import_type_named(s@),
    {
        if str_eq(s, "import") {
            ImportType::Import
        } else if str_eq(s, "require") {
            ImportType::Require
        } else if str_eq(s, "use") {
            ImportType::Use
        } else if str_eq(s, "from") {
            ImportType::From
        } else {
            ImportType::Include
        }
    }
}

/// Law: the name an import type is stored under reads back as that import type.
pub proof fn lemma_import_type_round_trip(t: ImportType)
    ensures
        import_type_named(t.name()) == t,
{
    reveal_strlit("import");
    reveal_strlit("require");
    reveal_strlit("use");
    reveal_strlit("from");
    reveal_strlit("include");
    assert("import"@.len() == 6 && "require"@.len() == 7 && "use"@.len() == 3 && "from"@.len()
        == 4 && "include"@.len() == 7);
    assert("include"@[0] != "require"@[0]);
    assert("include"@ != "require"@);
}

/// An import statement found in a source file.
#[derive(Debug, Clone)]
pub struct Import {
    pub imported_symbol: String,
    pub imported_from_path: Option<String>,
    pub import_type: ImportType,
    pub start_line: Option<usize>,
    pub raw_statement: Option<String>,
}

/// The mathematical content of an [`Import`].
pub struct ImportView {
    pub imported_symbol: Seq<char>,
    pub imported_from_path: Option<Seq<char>>,
    pub import_type: ImportType,
    pub start_line: Option<nat>,
    pub raw_statement: Option<Seq<char>>,
}

impl View for Import {
    type V = ImportView;

    open spec fn view(&self) -> ImportView {
        ImportView {
            imported_symbol: self.imported_symbol@,
            imported_from_path: opt_view(self.imported_from_path),
            import_type: self.import_type,
            start_line: match self.start_line {
                Some(l) => Some(l as nat),
                None => None,
            },
            raw_statement: opt_view(self.raw_statement),
        }
    }
}

/// The views of a sequence of imports.
pub open spec fn import_views(s: Seq<Import>) -> Seq<ImportView> {
    s.map_values(|x: Import| x@)
}

} // verus!
