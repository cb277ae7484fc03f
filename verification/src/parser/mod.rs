//! Parsers that extract symbols and imports from source files.

pub mod java_parser;
pub mod js_parser;
pub mod python_parser;
pub mod rust_parser;
pub mod ts_parser;

use crate::models::{import_views, symbol_views, Import, ImportView, Language, Symbol, SymbolView};
use crate::text::{
    join, join_chars, lines, lines_chars, skip_set, skip_set_chars, trim, trim_chars, views,
};
use vstd::prelude::*;

verus! {

/// The symbols and imports found in one file.
pub struct ParseResult {
    pub symbols: Vec<Symbol>,
    pub imports: Vec<Import>,
}

/// The mathematical content of a [`ParseResult`].
pub struct ParseResultView {
    pub symbols: Seq<SymbolView>,
    pub imports: Seq<ImportView>,
}

impl View for ParseResult {
    type V = ParseResultView;

    open spec fn view(&self) -> ParseResultView {
        ParseResultView { symbols: symbol_views(self.symbols@), imports: import_views(self.imports@) }
    }
}

/// The one-element sequence holding `o`'s value, or the empty sequence.
pub open spec fn opt_seq<T>(o: Option<T>) -> Seq<T> {
    match o {
        Some(x) => seq![x],
        None => Seq::empty(),
    }
}

/// The view of an optional symbol.
pub open spec fn opt_symbol_view(o: Option<Symbol>) -> Option<SymbolView> {
    match o {
        Some(s) => Some(s@),
        None => None,
    }
}

/// The view of an optional import.
pub open spec fn opt_import_view(o: Option<Import>) -> Option<ImportView> {
    match o {
        Some(s) => Some(s@),
        None => None,
    }
}

/// Appends the symbol held by `o`, if any.
pub fn push_symbol(v: &mut Vec<Symbol>, o: Option<Symbol>)
    ensures
        symbol_views(final(v)@) == symbol_views(old(v)@) + opt_seq(opt_symbol_view(o)),
{
    let ghost before = symbol_views(v@);
    match o {
        Some(s) => {
            v.push(s);
            assert(symbol_views(v@) =~= before + opt_seq(opt_symbol_view(o)));
        },
        None => {
            assert(symbol_views(v@) =~= before + opt_seq(opt_symbol_view(o)));
        },
    }
}

/// Appends the import held by `o`, if any.
pub fn push_import(v: &mut Vec<Import>, o: Option<Import>)
    ensures
        import_views(final(v)@) == import_views(old(v)@) + opt_seq(opt_import_view(o)),
{
    let ghost before = import_views(v@);
    match o {
        Some(s) => {
            v.push(s);
            assert(import_views(v@) =~= before + opt_seq(opt_import_view(o)));
        },
        None => {
            assert(import_views(v@) =~= before + opt_seq(opt_import_view(o)));
        },
    }
}

/// The lines of a comment body that carry text: each trimmed, stripped of
/// leading `*` and trimmed again; blank lines and tag lines (`@...`) left out.
pub open spec fn doc_lines(ls: Seq<Seq<char>>) -> Seq<Seq<char>>
    decreases ls.len(),
{
    if ls.len() == 0 {
        Seq::empty()
    } else {
        let l = trim(skip_set(trim(ls[0]), seq!['*']));
        (if l.len() > 0 && l[0] != '@' {
            seq![l]
        } else {
            Seq::empty()
        }) + doc_lines(ls.drop_first())
    }
}

/// The text of a comment body: its text-carrying lines joined by spaces.
pub open spec fn doc_body(s: Seq<char>) -> Seq<char> {
    trim(join(doc_lines(lines(trim(s))), seq![' ']))
}

/// The text of a comment body whose delimiters are already removed.
pub fn doc_body_of(s: &[char]) -> (r: Vec<char>)
    ensures
        r@ == doc_body(s@),
{
    let t = trim_chars(s);
    let ls = lines_chars(t.as_slice());
    let ghost lv = views(ls@);
    let star = ['*'];
    assert(star@ =~= seq!['*']);
    let mut kept: Vec<Vec<char>> = Vec::new();
    let mut i: usize = 0;
    assert(lv.skip(0) =~= lv);
    while i < ls.len()
        invariant
            lv == views(ls@),
            star@ == seq!['*'],
            i <= ls@.len(),
            views(kept@) + doc_lines(lv.skip(i as int)) == doc_lines(lv),
        decreases ls.len() - i,
    {
        let a = trim_chars(ls[i].as_slice());
        let b = skip_set_chars(a.as_slice(), &star);
        let l = trim_chars(b.as_slice());
        assert(lv.skip(i as int)[0] == lv[i as int]);
        assert(lv.skip(i as int).drop_first() =~= lv.skip(i + 1));
        let ghost before = views(kept@);
        if l.len() > 0 && l[0] != '@' {
            kept.push(l);
            assert(views(kept@) =~= before.push(trim(skip_set(trim(lv[i as int]), seq!['*']))));
        }
        assert(views(kept@) + doc_lines(lv.skip(i + 1)) =~= before + doc_lines(lv.skip(i as int)));
        i = i + 1;
    }
    assert(lv.skip(i as int) =~= Seq::<Seq<char>>::empty());
    assert(views(kept@) =~= doc_lines(lv));
    let sp = [' '];
    assert(sp@ =~= seq![' ']);
    let j = join_chars(&kept, &sp);
    trim_chars(j.as_slice())
}

/// A language-specific extractor of symbols and imports.
pub trait Parser {
    /// The language this parser reads.
    spec fn reads(&self) -> Language;

    /// What parsing `content` yields.
    spec fn parsed(&self, content: Seq<char>) -> ParseResultView;

    /// The language this parser reads.
    fn language(&self) -> (l: Language)
        ensures
            l == self.reads(),
    ;

    /// The symbols and imports of `content`; `path` names the file.
    fn parse(&self, content: &str, path: &str) -> (r: ParseResult)
        ensures
            r@ == self.parsed(content@),
    ;
}

/// What parsing `content` in `language` yields.
pub open spec fn parse_in(language: Language, content: Seq<char>) -> ParseResultView {
    match language {
        Language::Rust => rust_parser::rust_parse(content),
        Language::Python => python_parser::python_parse(content),
        Language::JavaScript => js_parser::js_parse(content),
        Language::TypeScript => ts_parser::ts_parse(content),
        Language::Java => java_parser::java_parse(content),
    }
}

/// The parser of one language, dispatching to that language's parser.
pub struct SourceParser {
    pub language: Language,
}

impl Parser for SourceParser {
    open spec fn reads(&self) -> Language {
        self.language
    }

    open spec fn parsed(&self, content: Seq<char>) -> ParseResultView {
        parse_in(self.language, content)
    }

    fn language(&self) -> (l: Language) {
        self.language
    }

    fn parse(&self, content: &str, path: &str) -> (r: ParseResult) {
        match self.language {
            Language::Rust => rust_parser::RustParser.parse(content, path),
            Language::Python => python_parser::PythonParser.parse(content, path),
            Language::JavaScript => js_parser::JsParser.parse(content, path),
            Language::TypeScript => ts_parser::TsParser.parse(content, path),
            Language::Java => java_parser::JavaParser.parse(content, path),
        }
    }
}

/// The parser for `language`.
pub fn get_parser(language: Language) -> (p: SourceParser)
    ensures
        p.reads() == language,
{
    SourceParser { language }
}

} // verus!
