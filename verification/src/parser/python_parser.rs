//! Symbols and imports of Python sources.

use crate::models::{import_views, symbol_views, Import, ImportType, ImportView, Language, Symbol, SymbolKind, SymbolView};
use crate::parser::{opt_import_view, opt_seq, opt_symbol_view, push_import, push_symbol, ParseResult, ParseResultView, Parser};
use crate::syntax::{index_views, opt_string_view, tree_of, SyntaxTree, TreeView};
use crate::text::{
    chars_to_string, is_whitespace, is_ws, join, join_strings, strip_prefixes, strip_prefixes_chars,
    strip_suffixes, strip_suffixes_chars, string_chars, string_views, trim, trim_chars, trim_end,
    trim_end_chars,
};
use vstd::prelude::*;

verus! {

/// The Python parser.
pub struct PythonParser;

// ---------------------------------------------------------------------------
// What the parser extracts
// ---------------------------------------------------------------------------

/// A docstring without its quotes: leading `"`, `'`, `"""`, `'''` runs, then
/// the same at the end, each stripped in turn.
pub open spec fn unquote_docstring(tx: Seq<char>) -> Seq<char> {
    let a = strip_prefixes(tx, seq!['"']);
    let b = strip_prefixes(a, seq!['\'']);
    let c = strip_prefixes(b, seq!['"', '"', '"']);
    let d = strip_prefixes(c, seq!['\'', '\'', '\'']);
    let e = strip_suffixes(d, seq!['"']);
    let f = strip_suffixes(e, seq!['\'']);
    let g = strip_suffixes(f, seq!['"', '"', '"']);
    strip_suffixes(g, seq!['\'', '\'', '\''])
}

/// The docstring of a definition: the string that is the first statement of
/// its first `block` child, unquoted and trimmed.
pub open spec fn py_docstring(t: TreeView, i: int) -> Option<Seq<char>> {
    match t.kind_child(i, "block"@) {
        None => None,
        Some(b) => match t.first_child(b) {
            None => None,
            Some(st) => if t.kind(st) != "expression_statement"@ {
                None
            } else {
                match t.first_child(st) {
                    None => None,
                    Some(sn) => if t.kind(sn) != "string"@ {
                        None
                    } else {
                        match t.text(sn) {
                            None => None,
                            Some(tx) => Some(trim(unquote_docstring(tx))),
                        }
                    },
                }
            },
        },
    }
}

/// The symbol of a `function_definition`, with the given kind.
pub open spec fn py_function_symbol(t: TreeView, i: int, kind: SymbolKind) -> Option<SymbolView> {
    match t.field_child(i, "name"@) {
        None => None,
        Some(nn) => match t.text(nn) {
            None => None,
            Some(name) => {
                let sig = match t.field_child(i, "parameters"@) {
                    Some(p) => match t.text(p) {
                        Some(x) => "def "@ + name + x,
                        None => "def "@ + name + "()"@,
                    },
                    None => "def "@ + name + "()"@,
                };
                Some(
                    SymbolView {
                        name,
                        kind,
                        start_line: t.start_line(i),
                        end_line: t.end_line(i),
                        start_col: t.start_col(i),
                        end_col: t.end_col(i),
                        signature: Some(sig),
                        documentation: py_docstring(t, i),
                    },
                )
            },
        },
    }
}

/// The symbol of a `class_definition`.
pub open spec fn py_class_symbol(t: TreeView, i: int) -> Option<SymbolView> {
    match t.field_child(i, "name"@) {
        None => None,
        Some(nn) => match t.text(nn) {
            None => None,
            Some(name) => {
                let sig = match t.field_child(i, "superclasses"@) {
                    Some(p) => match t.text(p) {
                        Some(x) => "class "@ + name + "("@ + x + ")"@,
                        None => "class "@ + name,
                    },
                    None => "class "@ + name,
                };
                Some(
                    SymbolView {
                        name,
                        kind: SymbolKind::Class,
                        start_line: t.start_line(i),
                        end_line: t.end_line(i),
                        start_col: t.start_col(i),
                        end_col: t.end_col(i),
                        signature: Some(sig),
                        documentation: py_docstring(t, i),
                    },
                )
            },
        },
    }
}

/// The methods among the statements `ds` of a class body.
pub open spec fn py_methods_of(t: TreeView, ds: Seq<int>) -> Seq<SymbolView>
    decreases ds.len(),
{
    if ds.len() == 0 {
        Seq::empty()
    } else {
        (if t.kind(ds[0]) == "function_definition"@ {
            opt_seq(py_function_symbol(t, ds[0], SymbolKind::Method))
        } else {
            Seq::empty()
        }) + py_methods_of(t, ds.drop_first())
    }
}

/// The methods in the `block` nodes among `cs`.
pub open spec fn py_class_methods(t: TreeView, cs: Seq<int>) -> Seq<SymbolView>
    decreases cs.len(),
{
    if cs.len() == 0 {
        Seq::empty()
    } else {
        (if t.kind(cs[0]) == "block"@ {
            py_methods_of(t, t.children(cs[0]))
        } else {
            Seq::empty()
        }) + py_class_methods(t, cs.drop_first())
    }
}

/// The symbols that node `i` gives by itself: a function, or a class and its methods.
pub open spec fn py_node_symbols(t: TreeView, i: int) -> Seq<SymbolView> {
    if t.kind(i) == "function_definition"@ {
        opt_seq(py_function_symbol(t, i, SymbolKind::Function))
    } else if t.kind(i) == "class_definition"@ {
        opt_seq(py_class_symbol(t, i)) + py_class_methods(t, t.children(i))
    } else {
        Seq::empty()
    }
}

/// The symbols of every node from preorder position `i` on.  Every node is
/// visited, so a method also appears as a function where its definition is met.
pub open spec fn py_symbols_from(t: TreeView, i: int) -> Seq<SymbolView>
    decreases t.nodes.len() - i,
{
    if i < 0 || i >= t.nodes.len() {
        Seq::empty()
    } else {
        py_node_symbols(t, i) + py_symbols_from(t, i + 1)
    }
}

/// The longest suffix of `s` without whitespace.
pub open spec fn trailing_word(s: Seq<char>) -> Seq<char>
    decreases s.len(),
{
    if s.len() == 0 || is_ws(s.last()) {
        Seq::empty()
    } else {
        trailing_word(s.drop_last()).push(s.last())
    }
}

/// The last whitespace-separated word of `s`, or `s` when it has none.
pub open spec fn last_word(s: Seq<char>) -> Seq<char> {
    if trim_end(s).len() == 0 {
        s
    } else {
        trailing_word(trim_end(s))
    }
}

/// The texts of the `dotted_name` and `aliased_import` nodes among `cs`.
pub open spec fn py_import_names(t: TreeView, cs: Seq<int>) -> Seq<Seq<char>>
    decreases cs.len(),
{
    if cs.len() == 0 {
        Seq::empty()
    } else {
        (if t.kind(cs[0]) == "dotted_name"@ || t.kind(cs[0]) == "aliased_import"@ {
            opt_seq(t.text(cs[0]))
        } else {
            Seq::empty()
        }) + py_import_names(t, cs.drop_first())
    }
}

/// The imports of an `import_statement`: one per imported module, named by
/// its last word; one holding the raw statement when none is found.
pub open spec fn py_import_statement(t: TreeView, i: int) -> Seq<ImportView> {
    let raw = t.text_or_empty(i);
    let line = Some(t.start_line(i));
    let names = py_import_names(t, t.children(i));
    if names.len() == 0 {
        seq![
            ImportView {
                imported_symbol: raw,
                imported_from_path: None,
                import_type: ImportType::Import,
                start_line: line,
                raw_statement: Some(raw),
            },
        ]
    } else {
        names.map_values(
            |n: Seq<char>|
                ImportView {
                    imported_symbol: last_word(n),
                    imported_from_path: Some(n),
                    import_type: ImportType::Import,
                    start_line: line,
                    raw_statement: Some(raw),
                },
        )
    }
}

/// The (module, imported names) state after the first `n` children `cs` of
/// an `import_from_statement`.
pub open spec fn py_from_state(t: TreeView, cs: Seq<int>, n: int) -> (Option<Seq<char>>, Seq<Seq<char>>)
    decreases n,
{
    if n <= 0 || n > cs.len() {
        (None, Seq::empty())
    } else {
        let st = py_from_state(t, cs, n - 1);
        let c = cs[n - 1];
        let k = t.kind(c);
        if (k == "dotted_name"@ || k == "relative_import"@) && st.0 is None {
            (t.text(c), st.1)
        } else if k == "identifier"@ {
            (st.0, st.1 + opt_seq(t.text(c)))
        } else if k == "wildcard_import"@ {
            (st.0, st.1.push(seq!['*']))
        } else if k == "aliased_import"@ {
            (
                st.0,
                st.1 + match t.first_child(c) {
                    Some(a) => opt_seq(t.text(a)),
                    None => Seq::empty(),
                },
            )
        } else {
            st
        }
    }
}

/// The import of an `import_from_statement`: the imported names joined by
/// `, ` (the module when there are none) from the first module path.
pub open spec fn py_import_from(t: TreeView, i: int) -> ImportView {
    let cs = t.children(i);
    let st = py_from_state(t, cs, cs.len() as int);
    ImportView {
        imported_symbol: if st.1.len() == 0 {
            match st.0 {
                Some(m) => m,
                None => Seq::empty(),
            }
        } else {
            join(st.1, ", "@)
        },
        imported_from_path: st.0,
        import_type: ImportType::From,
        start_line: Some(t.start_line(i)),
        raw_statement: Some(t.text_or_empty(i)),
    }
}

/// The imports of the nodes from preorder position `i` on; an import
/// statement's subtree is not searched further.
pub open spec fn py_imports_from(t: TreeView, i: int) -> Seq<ImportView>
    decreases t.nodes.len() - i,
{
    if i < 0 || i >= t.nodes.len() {
        Seq::empty()
    } else {
        proof {
            t.lemma_end(i);
        }
        if t.kind(i) == "import_statement"@ {
            py_import_statement(t, i) + py_imports_from(t, t.end(i))
        } else if t.kind(i) == "import_from_statement"@ {
            seq![py_import_from(t, i)] + py_imports_from(t, t.end(i))
        } else {
            py_imports_from(t, i + 1)
        }
    }
}

/// What parsing Python `content` yields.
pub open spec fn python_parse(content: Seq<char>) -> ParseResultView {
    let t = tree_of(Language::Python, content);
    ParseResultView { symbols: py_symbols_from(t, 0), imports: py_imports_from(t, 0) }
}

// ---------------------------------------------------------------------------
// Laws of the symbol extraction
// ---------------------------------------------------------------------------

/// The syntax tree of Python `content`.
pub open spec fn py_tree(content: Seq<char>) -> TreeView {
    tree_of(Language::Python, content)
}

/// The symbols that node `i` gives stand together among those of the nodes
/// from `k` on, from the returned position on.
proof fn lemma_py_symbols_reach(t: TreeView, k: int, i: int) -> (m: int)
    requires
        0 <= k <= i < t.nodes.len(),
    ensures
        0 <= m,
        m + py_node_symbols(t, i).len() <= py_symbols_from(t, k).len(),
        py_symbols_from(t, k).subrange(m, m + py_node_symbols(t, i).len()) == py_node_symbols(t, i),
    decreases i - k,
{
    let h = py_node_symbols(t, i);
    let first = py_node_symbols(t, k);
    let rest = py_symbols_from(t, k + 1);
    assert(py_symbols_from(t, k) == first + rest);
    if k == i {
        assert((first + rest).subrange(0, h.len() as int) =~= h);
        0
    } else {
        let m1 = lemma_py_symbols_reach(t, k + 1, i);
        assert((first + rest).subrange(first.len() + m1, first.len() + m1 + h.len()) =~= rest.subrange(
            m1,
            m1 + h.len(),
        ));
        first.len() + m1
    }
}

/// Every function definition with a readable name, wherever it stands (at the
/// top of the module, in a class, or nested in a function), gives a symbol of
/// the parse: its name, kind `Function`, a signature that begins
/// `def {name}`, and the definition's lines and columns. The result is its
/// position among the symbols.
pub proof fn lemma_py_function_symbol(content: Seq<char>, i: int, nn: int, name: Seq<char>) -> (k: int)
    requires
        0 <= i < py_tree(content).nodes.len(),
        py_tree(content).kind(i) == "function_definition"@,
        py_tree(content).field_child(i, "name"@) == Some(nn),
        py_tree(content).text(nn) == Some(name),
    ensures
        0 <= k < python_parse(content).symbols.len(),
        python_parse(content).symbols[k].name == name,
        python_parse(content).symbols[k].kind == SymbolKind::Function,
        python_parse(content).symbols[k].signature is Some,
        ("def "@ + name).is_prefix_of(python_parse(content).symbols[k].signature->0),
        python_parse(content).symbols[k].start_line == py_tree(content).start_line(i),
        python_parse(content).symbols[k].end_line == py_tree(content).end_line(i),
        python_parse(content).symbols[k].start_col == py_tree(content).start_col(i),
        python_parse(content).symbols[k].end_col == py_tree(content).end_col(i),
{
    let t = py_tree(content);
    let h = py_node_symbols(t, i);
    let f = py_function_symbol(t, i, SymbolKind::Function)->0;
    assert(h == seq![f]);
    let sig = f.signature->0;
    let rest = sig.skip(("def "@ + name).len() as int);
    assert(sig =~= ("def "@ + name) + rest);
    assert(sig.subrange(0, ("def "@ + name).len() as int) =~= "def "@ + name);
    let m = lemma_py_symbols_reach(t, 0, i);
    let all = py_symbols_from(t, 0);
    assert(all.subrange(m, m + 1)[0] == all[m]);
    m
}

/// Every class definition with a readable name, wherever it stands, gives a
/// symbol of the parse: its name, kind `Class`, a signature that begins
/// `class {name}`, and the definition's lines and columns. The result is its
/// position among the symbols.
pub proof fn lemma_py_class_symbol(content: Seq<char>, i: int, nn: int, name: Seq<char>) -> (k: int)
    requires
        0 <= i < py_tree(content).nodes.len(),
        py_tree(content).kind(i) == "class_definition"@,
        py_tree(content).field_child(i, "name"@) == Some(nn),
        py_tree(content).text(nn) == Some(name),
    ensures
        0 <= k < python_parse(content).symbols.len(),
        python_parse(content).symbols[k].name == name,
        python_parse(content).symbols[k].kind == SymbolKind::Class,
        python_parse(content).symbols[k].signature is Some,
        ("class "@ + name).is_prefix_of(python_parse(content).symbols[k].signature->0),
        python_parse(content).symbols[k].start_line == py_tree(content).start_line(i),
        python_parse(content).symbols[k].end_line == py_tree(content).end_line(i),
        python_parse(content).symbols[k].start_col == py_tree(content).start_col(i),
        python_parse(content).symbols[k].end_col == py_tree(content).end_col(i),
{
    let t = py_tree(content);
    reveal_strlit("function_definition");
    reveal_strlit("class_definition");
    assert("function_definition"@[0] == 'f');
    assert(t.kind(i)[0] == 'c');
    let h = py_node_symbols(t, i);
    let c = py_class_symbol(t, i)->0;
    assert(h == seq![c] + py_class_methods(t, t.children(i)));
    assert(h[0] == c);
    let sig = c.signature->0;
    let rest = sig.skip(("class "@ + name).len() as int);
    assert(sig =~= ("class "@ + name) + rest);
    assert(sig.subrange(0, ("class "@ + name).len() as int) =~= "class "@ + name);
    let m = lemma_py_symbols_reach(t, 0, i);
    let all = py_symbols_from(t, 0);
    assert(all.subrange(m, m + h.len())[0] == all[m]);
    m
}

// ---------------------------------------------------------------------------
// Extraction
// ---------------------------------------------------------------------------

fn extract_python_docstring(t: &SyntaxTree, i: usize) -> (r: Option<String>)
    requires
        t.wf(),
        i < t@.nodes.len(),
    ensures
        opt_string_view(r) == py_docstring(t@, i as int),
{
    let b = match t.kind_child(i, "block") {
        Some(b) => b,
        None => {
            return None;
        },
    };
    let st = match t.first_child(b) {
        Some(x) => x,
        None => {
            return None;
        },
    };
    if !t.kind_is(st, "expression_statement") {
        return None;
    }
    let sn = match t.first_child(st) {
        Some(x) => x,
        None => {
            return None;
        },
    };
    if !t.kind_is(sn, "string") {
        return None;
    }
    let tx = match t.text(sn) {
        Some(x) => x,
        None => {
            return None;
        },
    };
    let dq = ['"'];
    let sq = ['\''];
    let tdq = ['"', '"', '"'];
    let tsq = ['\'', '\'', '\''];
    assert(dq@ =~= seq!['"']);
    assert(sq@ =~= seq!['\'']);
    assert(tdq@ =~= seq!['"', '"', '"']);
    assert(tsq@ =~= seq!['\'', '\'', '\'']);
    let cs = string_chars(&tx);
    let a = strip_prefixes_chars(cs.as_slice(), &dq);
    let b2 = strip_prefixes_chars(a.as_slice(), &sq);
    let c = strip_prefixes_chars(b2.as_slice(), &tdq);
    let d = strip_prefixes_chars(c.as_slice(), &tsq);
    let e = strip_suffixes_chars(d.as_slice(), &dq);
    let f = strip_suffixes_chars(e.as_slice(), &sq);
    let g = strip_suffixes_chars(f.as_slice(), &tdq);
    let h = strip_suffixes_chars(g.as_slice(), &tsq);
    let done = trim_chars(h.as_slice());
    Some(chars_to_string(done.as_slice()))
}

fn extract_python_function(t: &SyntaxTree, i: usize, kind: SymbolKind) -> (r: Option<Symbol>)
    requires
        t.wf(),
        i < t@.nodes.len(),
    ensures
        opt_symbol_view(r) == py_function_symbol(t@, i as int, kind),
{
    let name_node = match t.field_child(i, "name") {
        Some(n) => n,
        None => {
            return None;
        },
    };
    let name = match t.text(name_node) {
        Some(s) => s,
        None => {
            return None;
        },
    };
    let mut sig = "def ".to_owned();
    sig.append(name.as_str());
    match t.field_child(i, "parameters") {
        Some(p) => match t.text(p) {
            Some(x) => {
                sig.append(x.as_str());
            },
            None => {
                sig.append("()");
            },
        },
        None => {
            sig.append("()");
        },
    }
    let (sl, el, sc, ec) = t.span(i);
    let doc = extract_python_docstring(t, i);
    Some(
        Symbol {
            name,
            kind,
            start_line: sl,
            end_line: el,
            start_col: sc,
            end_col: ec,
            signature: Some(sig),
            documentation: doc,
        },
    )
}

fn extract_python_class(t: &SyntaxTree, i: usize) -> (r: Option<Symbol>)
    requires
        t.wf(),
        i < t@.nodes.len(),
    ensures
        opt_symbol_view(r) == py_class_symbol(t@, i as int),
{
    let name_node = match t.field_child(i, "name") {
        Some(n) => n,
        None => {
            return None;
        },
    };
    let name = match t.text(name_node) {
        Some(s) => s,
        None => {
            return None;
        },
    };
    let mut sig = "class ".to_owned();
    sig.append(name.as_str());
    match t.field_child(i, "superclasses") {
        Some(p) => match t.text(p) {
            Some(x) => {
                sig.append("(");
                sig.append(x.as_str());
                sig.append(")");
            },
            None => {},
        },
        None => {},
    }
    let (sl, el, sc, ec) = t.span(i);
    let doc = extract_python_docstring(t, i);
    Some(
        Symbol {
            name,
            kind: SymbolKind::Class,
            start_line: sl,
            end_line: el,
            start_col: sc,
            end_col: ec,
            signature: Some(sig),
            documentation: doc,
        },
    )
}

fn extract_class_methods(t: &SyntaxTree, i: usize, symbols: &mut Vec<Symbol>)
    requires
        t.wf(),
        i < t@.nodes.len(),
    ensures
        symbol_views(final(symbols)@) == symbol_views(old(symbols)@) + py_class_methods(
            t@,
            t@.children(i as int),
        ),
{
    let cs = t.children(i);
    let ghost v = index_views(cs@);
    let mut k: usize = 0;
    assert(v.skip(0) =~= v);
    while k < cs.len()
        invariant
            t.wf(),
            v == index_views(cs@),
            v == t@.children(i as int),
            k <= cs@.len(),
            forall|m: int| 0 <= m < cs@.len() ==> #[trigger] cs@[m] < t@.nodes.len(),
            symbol_views(symbols@) + py_class_methods(t@, v.skip(k as int)) == symbol_views(
                old(symbols)@,
            ) + py_class_methods(t@, v),
        decreases cs.len() - k,
    {
        let c = cs[k];
        assert(v.skip(k as int)[0] == c as int);
        assert(v.skip(k as int).drop_first() =~= v.skip(k + 1));
        let ghost mid = symbol_views(symbols@);
        if t.kind_is(c, "block") {
            let ds = t.children(c);
            let ghost w = index_views(ds@);
            let mut m: usize = 0;
            assert(w.skip(0) =~= w);
            while m < ds.len()
                invariant
                    t.wf(),
                    w == index_views(ds@),
                    m <= ds@.len(),
                    forall|q: int| 0 <= q < ds@.len() ==> #[trigger] ds@[q] < t@.nodes.len(),
                    symbol_views(symbols@) + py_methods_of(t@, w.skip(m as int)) == mid
                        + py_methods_of(t@, w),
                decreases ds.len() - m,
            {
                let d = ds[m];
                assert(w.skip(m as int)[0] == d as int);
                assert(w.skip(m as int).drop_first() =~= w.skip(m + 1));
                let ghost before = symbol_views(symbols@);
                if t.kind_is(d, "function_definition") {
                    let o = extract_python_function(t, d, SymbolKind::Method);
                    push_symbol(symbols, o);
                }
                assert(symbol_views(symbols@) + py_methods_of(t@, w.skip(m + 1)) =~= before
                    + py_methods_of(t@, w.skip(m as int)));
                m = m + 1;
            }
            assert(w.skip(m as int) =~= Seq::<int>::empty());
        }
        assert(symbol_views(symbols@) + py_class_methods(t@, v.skip(k + 1)) =~= mid
            + py_class_methods(t@, v.skip(k as int)));
        k = k + 1;
    }
    assert(v.skip(k as int) =~= Seq::<int>::empty());
}

fn extract_python_symbols(t: &SyntaxTree, symbols: &mut Vec<Symbol>)
    requires
        t.wf(),
    ensures
        symbol_views(final(symbols)@) == symbol_views(old(symbols)@) + py_symbols_from(t@, 0),
{
    let n = t.len();
    let mut i: usize = 0;
    while i < n
        invariant
            t.wf(),
            n == t@.nodes.len(),
            i <= n,
            symbol_views(symbols@) + py_symbols_from(t@, i as int) == symbol_views(old(symbols)@)
                + py_symbols_from(t@, 0),
        decreases n - i,
    {
        let ghost before = symbol_views(symbols@);
        if t.kind_is(i, "function_definition") {
            let o = extract_python_function(t, i, SymbolKind::Function);
            push_symbol(symbols, o);
        } else if t.kind_is(i, "class_definition") {
            let o = extract_python_class(t, i);
            push_symbol(symbols, o);
            extract_class_methods(t, i, symbols);
        }
        assert(symbol_views(symbols@) =~= before + py_node_symbols(t@, i as int));
        i = i + 1;
    }
}

/// The last whitespace-separated word of `s`, or `s` itself.
fn last_word_of(s: &String) -> (r: String)
    ensures
        r@ == last_word(s@),
{
    let cs = string_chars(s);
    let e = trim_end_chars(cs.as_slice());
    if e.len() == 0 {
        return s.clone();
    }
    let mut k = e.len();
    assert(e@.take(k as int) =~= e@);
    while k > 0 && !is_whitespace(e[k - 1])
        invariant
            k <= e@.len(),
            trailing_word(e@) == trailing_word(e@.take(k as int)) + e@.skip(k as int),
        decreases k,
    {
        assert(e@.take(k as int).drop_last() =~= e@.take(k - 1));
        assert(e@.skip(k - 1) =~= seq![e@[k - 1]] + e@.skip(k as int));
        assert(trailing_word(e@.take(k - 1)).push(e@[k - 1]) + e@.skip(k as int) =~= trailing_word(
            e@.take(k - 1),
        ) + e@.skip(k - 1));
        k = k - 1;
    }
    assert(trailing_word(e@.take(k as int)) =~= Seq::<char>::empty());
    let w = crate::text::copy_range(e.as_slice(), k, e.len());
    assert(w@ =~= e@.skip(k as int));
    chars_to_string(w.as_slice())
}

fn extract_import_statement(t: &SyntaxTree, i: usize, imports: &mut Vec<Import>)
    requires
        t.wf(),
        i < t@.nodes.len(),
    ensures
        import_views(final(imports)@) == import_views(old(imports)@) + py_import_statement(t@, i as int),
{
    let (line, _, _, _) = t.span(i);
    let raw = t.text_or_empty(i);
    let cs = t.children(i);
    let ghost v = index_views(cs@);
    let mut names: Vec<String> = Vec::new();
    let mut k: usize = 0;
    assert(v.skip(0) =~= v);
    while k < cs.len()
        invariant
            t.wf(),
            v == index_views(cs@),
            k <= cs@.len(),
            forall|m: int| 0 <= m < cs@.len() ==> #[trigger] cs@[m] < t@.nodes.len(),
            string_views(names@) + py_import_names(t@, v.skip(k as int)) == py_import_names(t@, v),
        decreases cs.len() - k,
    {
        let c = cs[k];
        assert(v.skip(k as int)[0] == c as int);
        assert(v.skip(k as int).drop_first() =~= v.skip(k + 1));
        let ghost before = string_views(names@);
        if t.kind_is(c, "dotted_name") || t.kind_is(c, "aliased_import") {
            match t.text(c) {
                Some(x) => {
                    names.push(x);
                },
                None => {},
            }
        }
        assert(string_views(names@) + py_import_names(t@, v.skip(k + 1)) =~= before
            + py_import_names(t@, v.skip(k as int)));
        k = k + 1;
    }
    assert(v.skip(k as int) =~= Seq::<int>::empty());
    assert(string_views(names@) =~= py_import_names(t@, v));
    let ghost expected = py_import_statement(t@, i as int);
    let ghost start = import_views(imports@);
    if names.len() == 0 {
        imports.push(
            Import {
                imported_symbol: raw.clone(),
                imported_from_path: None,
                import_type: ImportType::Import,
                start_line: Some(line),
                raw_statement: Some(raw),
            },
        );
        assert(import_views(imports@) =~= start + expected);
    } else {
        let mut j: usize = 0;
        while j < names.len()
            invariant
                j <= names@.len(),
                names@.len() > 0,
                string_views(names@) == py_import_names(t@, t@.children(i as int)),
                line == t@.start_line(i as int),
                raw@ == t@.text_or_empty(i as int),
                expected == py_import_statement(t@, i as int),
                import_views(imports@) == start + expected.take(j as int),
            decreases names.len() - j,
        {
            let sym = last_word_of(&names[j]);
            let ghost before = import_views(imports@);
            imports.push(
                Import {
                    imported_symbol: sym,
                    imported_from_path: Some(names[j].clone()),
                    import_type: ImportType::Import,
                    start_line: Some(line),
                    raw_statement: Some(raw.clone()),
                },
            );
            assert(expected[j as int] == import_views(imports@).last());
            assert(import_views(imports@) =~= before.push(expected[j as int]));
            assert(import_views(imports@) =~= start + expected.take(j + 1));
            j = j + 1;
        }
        assert(expected.take(names@.len() as int) =~= expected);
    }
}

fn extract_import_from(t: &SyntaxTree, i: usize) -> (r: Import)
    requires
        t.wf(),
        i < t@.nodes.len(),
    ensures
        r@ == py_import_from(t@, i as int),
{
    let (line, _, _, _) = t.span(i);
    let raw = t.text_or_empty(i);
    let cs = t.children(i);
    let ghost v = index_views(cs@);
    let mut module: Option<String> = None;
    let mut names: Vec<String> = Vec::new();
    let mut k: usize = 0;
    while k < cs.len()
        invariant
            t.wf(),
            v == index_views(cs@),
            v == t@.children(i as int),
            k <= cs@.len(),
            forall|m: int| 0 <= m < cs@.len() ==> #[trigger] cs@[m] < t@.nodes.len(),
            (opt_string_view(module), string_views(names@)) == py_from_state(t@, v, k as int),
        decreases cs.len() - k,
    {
        let c = cs[k];
        assert(v[k as int] == c as int);
        let ghost before = string_views(names@);
        if (t.kind_is(c, "dotted_name") || t.kind_is(c, "relative_import")) && module.is_none() {
            module = t.text(c);
        } else if t.kind_is(c, "identifier") {
            match t.text(c) {
                Some(x) => {
                    names.push(x);
                    assert(string_views(names@) =~= before + opt_seq(t@.text(c as int)));
                },
                None => {
                    assert(string_views(names@) =~= before + opt_seq(t@.text(c as int)));
                },
            }
        } else if t.kind_is(c, "wildcard_import") {
            names.push("*".to_owned());
            proof {
                reveal_strlit("*");
                assert("*"@ =~= seq!['*']);
            }
            assert(string_views(names@) =~= before.push(seq!['*']));
        } else if t.kind_is(c, "aliased_import") {
            match t.first_child(c) {
                Some(a) => match t.text(a) {
                    Some(x) => {
                        names.push(x);
                        assert(string_views(names@) =~= before + opt_seq(t@.text(a as int)));
                    },
                    None => {
                        assert(string_views(names@) =~= before + opt_seq(t@.text(a as int)));
                    },
                },
                None => {
                    assert(string_views(names@) =~= before + Seq::<Seq<char>>::empty());
                },
            }
        }
        k = k + 1;
    }
    let symbol = if names.len() == 0 {
        match &module {
            Some(m) => m.clone(),
            None => String::new(),
        }
    } else {
        join_strings(&names, ", ")
    };
    Import {
        imported_symbol: symbol,
        imported_from_path: module,
        import_type: ImportType::From,
        start_line: Some(line),
        raw_statement: Some(raw),
    }
}

fn extract_python_imports(t: &SyntaxTree, imports: &mut Vec<Import>)
    requires
        t.wf(),
    ensures
        import_views(final(imports)@) == import_views(old(imports)@) + py_imports_from(t@, 0),
{
    let n = t.len();
    let mut i: usize = 0;
    while i < n
        invariant
            t.wf(),
            n == t@.nodes.len(),
            i <= n,
            import_views(imports@) + py_imports_from(t@, i as int) == import_views(old(imports)@)
                + py_imports_from(t@, 0),
        decreases n - i,
    {
        let ghost before = import_views(imports@);
        if t.kind_is(i, "import_statement") {
            extract_import_statement(t, i, imports);
            i = t.end_of(i);
        } else if t.kind_is(i, "import_from_statement") {
            let im = extract_import_from(t, i);
            imports.push(im);
            assert(import_views(imports@) =~= before + seq![py_import_from(t@, i as int)]);
            i = t.end_of(i);
        } else {
            i = i + 1;
        }
    }
}

/// The symbols and imports of the Python syntax tree `t`.
pub fn python_parse_tree(t: &SyntaxTree) -> (r: ParseResult)
    requires
        t.wf(),
    ensures
        r@ == (ParseResultView { symbols: py_symbols_from(t@, 0), imports: py_imports_from(t@, 0) }),
{
    let mut symbols: Vec<Symbol> = Vec::new();
    let mut imports: Vec<Import> = Vec::new();
    extract_python_symbols(t, &mut symbols);
    extract_python_imports(t, &mut imports);
    assert(symbol_views(symbols@) =~= py_symbols_from(t@, 0));
    assert(import_views(imports@) =~= py_imports_from(t@, 0));
    ParseResult { symbols, imports }
}

impl Parser for PythonParser {
    open spec fn reads(&self) -> Language {
        Language::Python
    }

    open spec fn parsed(&self, content: Seq<char>) -> ParseResultView {
        python_parse(content)
    }

    fn language(&self) -> (l: Language) {
        Language::Python
    }

    fn parse(&self, content: &str, path: &str) -> (r: ParseResult) {
        let t = SyntaxTree::build(Language::Python, content);
        python_parse_tree(&t)
    }
}

} // verus!
