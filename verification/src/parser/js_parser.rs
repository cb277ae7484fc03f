//! Symbols and imports of JavaScript sources.

use crate::models::{import_views, symbol_views, Import, ImportType, ImportView, Language, Symbol, SymbolKind, SymbolView};
use crate::parser::{
    doc_body, doc_body_of, opt_import_view, opt_seq, opt_symbol_view, push_import, push_symbol,
    ParseResult, ParseResultView, Parser,
};
use crate::syntax::{index_views, opt_string_view, tree_of, SyntaxTree, TreeView};
use crate::text::{
    chars_to_string, contains, contains_chars, find, find_first, join, join_strings, rskip_set,
    rskip_set_chars, string_chars, string_views, strip_prefixes, strip_prefixes_chars,
    strip_suffixes, strip_suffixes_chars, trim, trim_chars, trim_set, trim_set_chars, views,
};
use vstd::prelude::*;

verus! {

/// The JavaScript parser.
pub struct JsParser;

// ---------------------------------------------------------------------------
// Comments
// ---------------------------------------------------------------------------

/// The text of a JSDoc (or other) comment: `/**`, `/*` and `//` runs removed
/// from its start and `*/` runs from its end, then its text-carrying lines
/// joined by spaces.
pub open spec fn jsdoc_text(text: Seq<char>) -> Seq<char> {
    let a = strip_prefixes(text, seq!['/', '*', '*']);
    let b = strip_prefixes(a, seq!['/', '*']);
    let c = strip_prefixes(b, seq!['/', '/']);
    doc_body(strip_suffixes(c, seq!['*', '/']))
}

/// The comments collected before a node whose first byte is `start`, after
/// looking at the first `n` siblings `cs`: a comment adds its cleaned text
/// (when not empty), a decorator is passed over, anything else clears what was
/// collected; the scan stops at the first sibling that does not start before
/// `start`.  The flag tells whether the scan has stopped.
pub open spec fn jsdoc_scan(t: TreeView, cs: Seq<int>, n: int, start: nat) -> (Seq<Seq<char>>, bool)
    decreases n,
{
    if n <= 0 || n > cs.len() {
        (Seq::empty(), false)
    } else {
        let st = jsdoc_scan(t, cs, n - 1, start);
        let c = cs[n - 1];
        if st.1 {
            st
        } else if t.nodes[c].start >= start {
            (st.0, true)
        } else if t.kind(c) == "decorator"@ {
            st
        } else if t.kind(c) == "comment"@ {
            let cl = jsdoc_text(t.text_or_empty(c));
            (if cl.len() > 0 {
                st.0.push(cl)
            } else {
                st.0
            }, false)
        } else {
            (Seq::empty(), false)
        }
    }
}

/// The JSDoc of node `i`: the comments right before it among its siblings,
/// joined by spaces.
pub open spec fn jsdoc(t: TreeView, i: int) -> Option<Seq<char>> {
    match t.parent(i) {
        None => None,
        Some(p) => {
            let cs = t.children(p);
            let found = jsdoc_scan(t, cs, cs.len() as int, t.nodes[i].start).0;
            if found.len() == 0 {
                None
            } else {
                Some(join(found, seq![' ']))
            }
        },
    }
}

// ---------------------------------------------------------------------------
// Symbols
// ---------------------------------------------------------------------------

/// The symbol of a `function_declaration`.
pub open spec fn js_function_symbol(t: TreeView, i: int) -> Option<SymbolView> {
    match t.field_child(i, "name"@) {
        None => None,
        Some(nn) => match t.text(nn) {
            None => None,
            Some(name) => {
                let sig = match t.kind_child(i, "formal_parameters"@) {
                    Some(p) => match t.text(p) {
                        Some(x) => "function "@ + name + x,
                        None => "function "@ + name + "()"@,
                    },
                    None => "function "@ + name + "()"@,
                };
                Some(
                    SymbolView {
                        name,
                        kind: SymbolKind::Function,
                        start_line: t.start_line(i),
                        end_line: t.end_line(i),
                        start_col: t.start_col(i),
                        end_col: t.end_col(i),
                        signature: Some(sig),
                        documentation: jsdoc(t, i),
                    },
                )
            },
        },
    }
}

/// The symbol of a `class_declaration`.
pub open spec fn js_class_symbol(t: TreeView, i: int) -> Option<SymbolView> {
    match t.field_child(i, "name"@) {
        None => None,
        Some(nn) => match t.text(nn) {
            None => None,
            Some(name) => {
                let sig = match t.kind_child(i, "class_heritage"@) {
                    Some(h) => match t.text(h) {
                        Some(x) => "class "@ + name + " "@ + x,
                        None => "class "@ + name,
                    },
                    None => "class "@ + name,
                };
                Some(
                    SymbolView {
                        name,
                        kind: SymbolKind::Class,
                        start_line: t.start_line(i),
                        end_line: t.end_line(i),
                        start_col: t.start_col(i),
                        end_col: t.end_col(i),
                        signature: Some(sig),
                        documentation: jsdoc(t, i),
                    },
                )
            },
        },
    }
}

/// The symbol of a `method_definition`, named by its `property_identifier`.
pub open spec fn js_method_symbol(t: TreeView, i: int) -> Option<SymbolView> {
    match t.kind_child(i, "property_identifier"@) {
        None => None,
        Some(nn) => match t.text(nn) {
            None => None,
            Some(name) => {
                let sig = match t.kind_child(i, "formal_parameters"@) {
                    Some(p) => match t.text(p) {
                        Some(x) => name + x,
                        None => name + "()"@,
                    },
                    None => name + "()"@,
                };
                Some(
                    SymbolView {
                        name,
                        kind: SymbolKind::Method,
                        start_line: t.start_line(i),
                        end_line: t.end_line(i),
                        start_col: t.start_col(i),
                        end_col: t.end_col(i),
                        signature: Some(sig),
                        documentation: jsdoc(t, i),
                    },
                )
            },
        },
    }
}

/// The methods among the members `ds` of a class body.
pub open spec fn js_methods_of(t: TreeView, ds: Seq<int>) -> Seq<SymbolView>
    decreases ds.len(),
{
    if ds.len() == 0 {
        Seq::empty()
    } else {
        (if t.kind(ds[0]) == "method_definition"@ {
            opt_seq(js_method_symbol(t, ds[0]))
        } else {
            Seq::empty()
        }) + js_methods_of(t, ds.drop_first())
    }
}

/// The methods in the `class_body` nodes among `cs`.
pub open spec fn js_class_methods(t: TreeView, cs: Seq<int>) -> Seq<SymbolView>
    decreases cs.len(),
{
    if cs.len() == 0 {
        Seq::empty()
    } else {
        (if t.kind(cs[0]) == "class_body"@ {
            js_methods_of(t, t.children(cs[0]))
        } else {
            Seq::empty()
        }) + js_class_methods(t, cs.drop_first())
    }
}

/// A class and its methods.
pub open spec fn js_class_symbols(t: TreeView, i: int) -> Seq<SymbolView> {
    opt_seq(js_class_symbol(t, i)) + js_class_methods(t, t.children(i))
}

/// The child at position `k` of node `c` (`Node::child(k)`).
pub open spec fn nth_child(t: TreeView, c: int, k: int) -> Option<int> {
    let cs = t.children(c);
    if 0 <= k < cs.len() {
        Some(cs[k])
    } else {
        None
    }
}

/// The function symbol of a `variable_declarator` whose value (third child)
/// is an arrow function, named by its first child.
pub open spec fn js_arrow_symbol(t: TreeView, c: int) -> Option<SymbolView> {
    match (nth_child(t, c, 0), nth_child(t, c, 2)) {
        (Some(n), Some(v)) => if t.kind(v) == "arrow_function"@ {
            match t.text(n) {
                Some(name) => Some(
                    SymbolView {
                        name,
                        kind: SymbolKind::Function,
                        start_line: t.start_line(c),
                        end_line: t.end_line(c),
                        start_col: t.start_col(c),
                        end_col: t.end_col(c),
                        signature: Some("const "@ + name + " = () => ..."@),
                        documentation: jsdoc(t, c),
                    },
                ),
                None => None,
            }
        } else {
            None
        },
        _ => None,
    }
}

/// The arrow functions declared by the declarators among `cs`.
pub open spec fn js_var_symbols(t: TreeView, cs: Seq<int>) -> Seq<SymbolView>
    decreases cs.len(),
{
    if cs.len() == 0 {
        Seq::empty()
    } else {
        (if t.kind(cs[0]) == "variable_declarator"@ {
            opt_seq(js_arrow_symbol(t, cs[0]))
        } else {
            Seq::empty()
        }) + js_var_symbols(t, cs.drop_first())
    }
}

/// The module path after ` from ` in an export or import statement: what
/// follows, without surrounding whitespace, then without trailing semicolons,
/// then without surrounding quotes.
pub open spec fn js_from_path(raw: Seq<char>) -> Option<Seq<char>> {
    match find(raw, " from "@) {
        None => None,
        Some(k) => Some(trim_set(rskip_set(trim(raw.skip(k + 6)), seq![';']), seq!['\'', '"', '`'])),
    }
}

/// The names of the `export_specifier` nodes among `cs`.
pub open spec fn js_export_names(t: TreeView, cs: Seq<int>) -> Seq<Seq<char>>
    decreases cs.len(),
{
    if cs.len() == 0 {
        Seq::empty()
    } else {
        (if t.kind(cs[0]) == "export_specifier"@ {
            match t.field_child(cs[0], "name"@) {
                Some(n) => opt_seq(t.text(n)),
                None => Seq::empty(),
            }
        } else {
            Seq::empty()
        }) + js_export_names(t, cs.drop_first())
    }
}

/// The module symbol of `export { a, b } from '...'` (clause `c` of export `e`).
pub open spec fn js_export_clause_symbol(t: TreeView, c: int, e: int) -> Option<SymbolView> {
    match t.text(e) {
        None => None,
        Some(raw) => if !contains(raw, " from "@) && !contains(raw, " from'"@) && !contains(
            raw,
            " from\""@,
        ) {
            None
        } else {
            match js_from_path(raw) {
                None => None,
                Some(sp) => {
                    let names = js_export_names(t, t.children(c));
                    Some(
                        SymbolView {
                            name: if names.len() == 0 {
                                "{} from "@ + sp
                            } else {
                                "{ "@ + join(names, ", "@) + " } from "@ + sp
                            },
                            kind: SymbolKind::Module,
                            start_line: t.start_line(e),
                            end_line: t.end_line(e),
                            start_col: t.start_col(e),
                            end_col: t.end_col(e),
                            signature: Some(trim(raw)),
                            documentation: None,
                        },
                    )
                },
            }
        },
    }
}

/// Some node of `cs` has kind `k`.
pub open spec fn has_child_kind(t: TreeView, cs: Seq<int>, k: Seq<char>) -> bool {
    t.first_of_kind(cs, k) is Some
}

/// The symbols of the declarations among the children `cs` of an export.
pub open spec fn js_exported_decls(t: TreeView, cs: Seq<int>) -> Seq<SymbolView>
    decreases cs.len(),
{
    if cs.len() == 0 {
        Seq::empty()
    } else {
        let c = cs[0];
        (if t.kind(c) == "function_declaration"@ {
            opt_seq(js_function_symbol(t, c))
        } else if t.kind(c) == "class_declaration"@ {
            js_class_symbols(t, c)
        } else if t.kind(c) == "lexical_declaration"@ || t.kind(c) == "variable_declaration"@ {
            js_var_symbols(t, t.children(c))
        } else {
            Seq::empty()
        }) + js_exported_decls(t, cs.drop_first())
    }
}

/// The symbols of an `export_statement`: a module symbol for `export * from`
/// and `export { .. } from`, otherwise the declarations it exports.
pub open spec fn js_export_symbols(t: TreeView, i: int) -> Seq<SymbolView> {
    let cs = t.children(i);
    if has_child_kind(t, cs, "*"@) && has_child_kind(t, cs, "from"@) {
        let raw = t.text_or_empty(i);
        match js_from_path(raw) {
            Some(sp) => seq![
                SymbolView {
                    name: "* from "@ + sp,
                    kind: SymbolKind::Module,
                    start_line: t.start_line(i),
                    end_line: t.end_line(i),
                    start_col: t.start_col(i),
                    end_col: t.end_col(i),
                    signature: Some(trim(raw)),
                    documentation: None,
                },
            ],
            None => Seq::empty(),
        }
    } else if has_child_kind(t, cs, "export_clause"@) && has_child_kind(t, cs, "from"@) {
        match t.first_of_kind(cs, "export_clause"@) {
            Some(c) => opt_seq(js_export_clause_symbol(t, c, i)),
            None => Seq::empty(),
        }
    } else {
        js_exported_decls(t, cs)
    }
}

/// The symbols of the nodes from preorder position `i` on; a declaration or
/// export gives its symbols and its subtree is not searched further.
pub open spec fn js_symbols_from(t: TreeView, i: int) -> Seq<SymbolView>
    decreases t.nodes.len() - i,
{
    if i < 0 || i >= t.nodes.len() {
        Seq::empty()
    } else {
        proof {
            t.lemma_end(i);
        }
        let k = t.kind(i);
        if k == "function_declaration"@ {
            opt_seq(js_function_symbol(t, i)) + js_symbols_from(t, t.end(i))
        } else if k == "class_declaration"@ {
            js_class_symbols(t, i) + js_symbols_from(t, t.end(i))
        } else if k == "variable_declaration"@ || k == "lexical_declaration"@ {
            js_var_symbols(t, t.children(i)) + js_symbols_from(t, t.end(i))
        } else if k == "export_statement"@ {
            js_export_symbols(t, i) + js_symbols_from(t, t.end(i))
        } else {
            js_symbols_from(t, i + 1)
        }
    }
}

// ---------------------------------------------------------------------------
// Imports
// ---------------------------------------------------------------------------

/// The names of the `import_specifier` nodes among `cs`.
pub open spec fn js_import_names(t: TreeView, cs: Seq<int>) -> Seq<Seq<char>>
    decreases cs.len(),
{
    if cs.len() == 0 {
        Seq::empty()
    } else {
        (if t.kind(cs[0]) == "import_specifier"@ {
            match t.field_child(cs[0], "name"@) {
                Some(n) => opt_seq(t.text(n)),
                None => Seq::empty(),
            }
        } else {
            Seq::empty()
        }) + js_import_names(t, cs.drop_first())
    }
}

/// The (module path, imported names) state after the first `n` children `cs`
/// of an `import_statement`; a later string replaces an earlier one.
pub open spec fn js_import_state(t: TreeView, cs: Seq<int>, n: int) -> (Option<Seq<char>>, Seq<Seq<char>>)
    decreases n,
{
    if n <= 0 || n > cs.len() {
        (None, Seq::empty())
    } else {
        let st = js_import_state(t, cs, n - 1);
        let c = cs[n - 1];
        let k = t.kind(c);
        if k == "string"@ {
            (Some(trim_set(t.text_or_empty(c), seq!['\'', '"'])), st.1)
        } else if k == "named_imports"@ {
            (st.0, st.1 + js_import_names(t, t.children(c)))
        } else if k == "identifier"@ {
            (st.0, st.1 + opt_seq(t.text(c)))
        } else {
            st
        }
    }
}

/// The import of an `import_statement`.
pub open spec fn js_import(t: TreeView, i: int) -> ImportView {
    let cs = t.children(i);
    let st = js_import_state(t, cs, cs.len() as int);
    ImportView {
        imported_symbol: if st.1.len() == 0 {
            match st.0 {
                Some(m) => m,
                None => Seq::empty(),
            }
        } else {
            join(st.1, ", "@)
        },
        imported_from_path: st.0,
        import_type: ImportType::Import,
        start_line: Some(t.start_line(i)),
        raw_statement: Some(t.text_or_empty(i)),
    }
}

/// The first string among `cs` whose text is readable, without quotes.
pub open spec fn first_string_arg(t: TreeView, cs: Seq<int>) -> Option<Seq<char>>
    decreases cs.len(),
{
    if cs.len() == 0 {
        None
    } else if t.kind(cs[0]) == "string"@ && t.text(cs[0]) is Some {
        Some(trim_set(t.text(cs[0])->0, seq!['\'', '"']))
    } else {
        first_string_arg(t, cs.drop_first())
    }
}

/// The import of a `require(...)` call, if node `i` is one.
pub open spec fn js_require(t: TreeView, i: int) -> Seq<ImportView> {
    match t.field_child(i, "function"@) {
        Some(f) => if t.text(f) == Some("require"@) {
            let from = match t.field_child(i, "arguments"@) {
                Some(a) => first_string_arg(t, t.children(a)),
                None => None,
            };
            seq![
                ImportView {
                    imported_symbol: match from {
                        Some(m) => m,
                        None => Seq::empty(),
                    },
                    imported_from_path: from,
                    import_type: ImportType::Require,
                    start_line: Some(t.start_line(i)),
                    raw_statement: Some(t.text_or_empty(i)),
                },
            ]
        } else {
            Seq::empty()
        },
        None => Seq::empty(),
    }
}

/// The imports of the nodes from preorder position `i` on: an import
/// statement's subtree is not searched further; calls are searched through.
pub open spec fn js_imports_from(t: TreeView, i: int) -> Seq<ImportView>
    decreases t.nodes.len() - i,
{
    if i < 0 || i >= t.nodes.len() {
        Seq::empty()
    } else {
        proof {
            t.lemma_end(i);
        }
        if t.kind(i) == "import_statement"@ {
            seq![js_import(t, i)] + js_imports_from(t, t.end(i))
        } else if t.kind(i) == "call_expression"@ {
            js_require(t, i) + js_imports_from(t, i + 1)
        } else {
            js_imports_from(t, i + 1)
        }
    }
}

/// What parsing JavaScript `content` yields.
pub open spec fn js_parse(content: Seq<char>) -> ParseResultView {
    let t = tree_of(Language::JavaScript, content);
    ParseResultView { symbols: js_symbols_from(t, 0), imports: js_imports_from(t, 0) }
}

// ---------------------------------------------------------------------------
// Laws of the symbol extraction
// ---------------------------------------------------------------------------

/// The syntax tree of JavaScript `content`.
pub open spec fn js_tree(content: Seq<char>) -> TreeView {
    tree_of(Language::JavaScript, content)
}

/// Node kinds that give symbols and whose subtrees are not searched further.
pub open spec fn is_js_handled(k: Seq<char>) -> bool {
    k == "function_declaration"@ || k == "class_declaration"@ || k == "variable_declaration"@ || k
        == "lexical_declaration"@ || k == "export_statement"@
}

/// No handled node before `i` has `i` in its subtree: the scan reaches `i`.
pub open spec fn js_unenclosed(t: TreeView, i: int) -> bool {
    forall|j: int| 0 <= j < i && #[trigger] is_js_handled(t.kind(j)) ==> t.end(j) <= i
}

/// The symbols from a handled node `k` on end with those from the end of its
/// subtree on.
proof fn lemma_js_handled_step(t: TreeView, k: int)
    requires
        0 <= k < t.nodes.len(),
        is_js_handled(t.kind(k)),
    ensures
        js_symbols_from(t, t.end(k)).len() <= js_symbols_from(t, k).len(),
        js_symbols_from(t, k).skip(js_symbols_from(t, k).len() - js_symbols_from(t, t.end(k)).len())
            == js_symbols_from(t, t.end(k)),
{
    t.lemma_end(k);
    let a = js_symbols_from(t, k);
    let b = js_symbols_from(t, t.end(k));
    let kd = t.kind(k);
    let x = if kd == "function_declaration"@ {
        opt_seq(js_function_symbol(t, k))
    } else if kd == "class_declaration"@ {
        js_class_symbols(t, k)
    } else if kd == "variable_declaration"@ || kd == "lexical_declaration"@ {
        js_var_symbols(t, t.children(k))
    } else {
        js_export_symbols(t, k)
    };
    assert(a == x + b);
    assert(a.skip(x.len() as int) =~= b);
}

/// Scanning from `k` passes a node `i` that no handled node from `k` on
/// encloses: the symbols from `i` on end those from `k` on, after the
/// returned count.
proof fn lemma_js_symbols_reach(t: TreeView, k: int, i: int) -> (m: int)
    requires
        0 <= k <= i < t.nodes.len(),
        forall|j: int| k <= j < i && #[trigger] is_js_handled(t.kind(j)) ==> t.end(j) <= i,
    ensures
        0 <= m <= js_symbols_from(t, k).len(),
        js_symbols_from(t, k).skip(m) == js_symbols_from(t, i),
    decreases i - k,
{
    if k == i {
        assert(js_symbols_from(t, k).skip(0) =~= js_symbols_from(t, k));
        0
    } else if is_js_handled(t.kind(k)) {
        t.lemma_end(k);
        lemma_js_handled_step(t, k);
        let a = js_symbols_from(t, k);
        let b = js_symbols_from(t, t.end(k));
        let m1 = lemma_js_symbols_reach(t, t.end(k), i);
        let d = a.len() - b.len();
        assert(a.skip(d + m1) =~= b.skip(m1));
        d + m1
    } else {
        assert(js_symbols_from(t, k) == js_symbols_from(t, k + 1));
        lemma_js_symbols_reach(t, k + 1, i)
    }
}

/// Every function declaration with a readable name that no handled node
/// encloses gives a symbol of the parse: its name, kind `Function`, a
/// signature that begins `function {name}`, and the declaration's lines and
/// columns. The result is its position among the symbols.
pub proof fn lemma_js_function_symbol(content: Seq<char>, i: int, nn: int, name: Seq<char>) -> (k: int)
    requires
        0 <= i < js_tree(content).nodes.len(),
        js_tree(content).kind(i) == "function_declaration"@,
        js_tree(content).field_child(i, "name"@) == Some(nn),
        js_tree(content).text(nn) == Some(name),
        js_unenclosed(js_tree(content), i),
    ensures
        0 <= k < js_parse(content).symbols.len(),
        js_parse(content).symbols[k].name == name,
        js_parse(content).symbols[k].kind == SymbolKind::Function,
        js_parse(content).symbols[k].signature is Some,
        ("function "@ + name).is_prefix_of(js_parse(content).symbols[k].signature->0),
        js_parse(content).symbols[k].start_line == js_tree(content).start_line(i),
        js_parse(content).symbols[k].end_line == js_tree(content).end_line(i),
        js_parse(content).symbols[k].start_col == js_tree(content).start_col(i),
        js_parse(content).symbols[k].end_col == js_tree(content).end_col(i),
{
    let t = js_tree(content);
    let m = lemma_js_symbols_reach(t, 0, i);
    t.lemma_end(i);
    let f = js_function_symbol(t, i)->0;
    assert(js_symbols_from(t, i) == seq![f] + js_symbols_from(t, t.end(i)));
    let sig = f.signature->0;
    let p = "function "@ + name;
    assert(sig =~= p + sig.skip(p.len() as int));
    assert(sig.subrange(0, p.len() as int) =~= p);
    let all = js_symbols_from(t, 0);
    assert(all.skip(m)[0] == all[m]);
    m
}

/// Every class declaration with a readable name that no handled node
/// encloses gives a symbol of the parse: its name, kind `Class`, a signature
/// that begins `class {name}`, and the declaration's lines and columns. The
/// result is its position among the symbols.
pub proof fn lemma_js_class_symbol(content: Seq<char>, i: int, nn: int, name: Seq<char>) -> (k: int)
    requires
        0 <= i < js_tree(content).nodes.len(),
        js_tree(content).kind(i) == "class_declaration"@,
        js_tree(content).field_child(i, "name"@) == Some(nn),
        js_tree(content).text(nn) == Some(name),
        js_unenclosed(js_tree(content), i),
    ensures
        0 <= k < js_parse(content).symbols.len(),
        js_parse(content).symbols[k].name == name,
        js_parse(content).symbols[k].kind == SymbolKind::Class,
        js_parse(content).symbols[k].signature is Some,
        ("class "@ + name).is_prefix_of(js_parse(content).symbols[k].signature->0),
        js_parse(content).symbols[k].start_line == js_tree(content).start_line(i),
        js_parse(content).symbols[k].end_line == js_tree(content).end_line(i),
        js_parse(content).symbols[k].start_col == js_tree(content).start_col(i),
        js_parse(content).symbols[k].end_col == js_tree(content).end_col(i),
{
    let t = js_tree(content);
    let m = lemma_js_symbols_reach(t, 0, i);
    t.lemma_end(i);
    reveal_strlit("function_declaration");
    reveal_strlit("class_declaration");
    assert("function_declaration"@[0] == 'f');
    assert(t.kind(i)[0] == 'c');
    let f = js_class_symbol(t, i)->0;
    let h = js_class_symbols(t, i);
    assert(js_symbols_from(t, i) == h + js_symbols_from(t, t.end(i)));
    assert(h[0] == f);
    let sig = f.signature->0;
    let p = "class "@ + name;
    assert(sig =~= p + sig.skip(p.len() as int));
    assert(sig.subrange(0, p.len() as int) =~= p);
    let all = js_symbols_from(t, 0);
    assert(all.skip(m)[0] == all[m]);
    m
}

// ---------------------------------------------------------------------------
// Extraction
// ---------------------------------------------------------------------------

/// The text of a JSDoc comment.
fn clean_jsdoc(text: &String) -> (r: Vec<char>)
    ensures
        r@ == jsdoc_text(text@),
{
    let p1 = ['/', '*', '*'];
    let p2 = ['/', '*'];
    let p3 = ['/', '/'];
    let s1 = ['*', '/'];
    assert(p1@ =~= seq!['/', '*', '*']);
    assert(p2@ =~= seq!['/', '*']);
    assert(p3@ =~= seq!['/', '/']);
    assert(s1@ =~= seq!['*', '/']);
    let cs = string_chars(text);
    let a = strip_prefixes_chars(cs.as_slice(), &p1);
    let b = strip_prefixes_chars(a.as_slice(), &p2);
    let c = strip_prefixes_chars(b.as_slice(), &p3);
    let d = strip_suffixes_chars(c.as_slice(), &s1);
    doc_body_of(d.as_slice())
}

fn extract_jsdoc(t: &SyntaxTree, i: usize) -> (r: Option<String>)
    requires
        t.wf(),
        i < t@.nodes.len(),
    ensures
        opt_string_view(r) == jsdoc(t@, i as int),
{
    let p = match t.parent(i) {
        Some(p) => p,
        None => {
            return None;
        },
    };
    let my_start = t.nodes[i].start;
    let cs = t.children(p);
    let ghost v = index_views(cs@);
    let mut comments: Vec<Vec<char>> = Vec::new();
    let mut stopped = false;
    let mut k: usize = 0;
    while k < cs.len()
        invariant
            t.wf(),
            v == index_views(cs@),
            k <= cs@.len(),
            my_start == t@.nodes[i as int].start,
            forall|m: int| 0 <= m < cs@.len() ==> #[trigger] cs@[m] < t@.nodes.len(),
            (views(comments@), stopped) == jsdoc_scan(t@, v, k as int, my_start as nat),
        decreases cs.len() - k,
    {
        let c = cs[k];
        assert(v[k as int] == c as int);
        if !stopped {
            if t.nodes[c].start >= my_start {
                stopped = true;
            } else if t.kind_is(c, "decorator") {
            } else if t.kind_is(c, "comment") {
                let tx = t.text_or_empty(c);
                let cl = clean_jsdoc(&tx);
                if cl.len() > 0 {
                    let ghost before = views(comments@);
                    comments.push(cl);
                    assert(views(comments@) =~= before.push(jsdoc_text(t@.text_or_empty(c as int))));
                }
            } else {
                comments = Vec::new();
                assert(views(comments@) =~= Seq::<Seq<char>>::empty());
            }
        }
        k = k + 1;
    }
    if comments.len() == 0 {
        return None;
    }
    let sp = [' '];
    assert(sp@ =~= seq![' ']);
    let j = crate::text::join_chars(&comments, &sp);
    Some(chars_to_string(j.as_slice()))
}

fn extract_js_function(t: &SyntaxTree, i: usize) -> (r: Option<Symbol>)
    requires
        t.wf(),
        i < t@.nodes.len(),
    ensures
        opt_symbol_view(r) == js_function_symbol(t@, i as int),
{
    let name_node = match t.field_child(i, "name") {
        Some(n) => n,
        None => {
            return None;
        },
    };
    let name = match t.text(name_node) {
        Some(s) => s,
        None => {
            return None;
        },
    };
    let mut sig = "function ".to_owned();
    sig.append(name.as_str());
    match t.kind_child(i, "formal_parameters") {
        Some(p) => match t.text(p) {
            Some(x) => {
                sig.append(x.as_str());
            },
            None => {
                sig.append("()");
            },
        },
        None => {
            sig.append("()");
        },
    }
    let (sl, el, sc, ec) = t.span(i);
    let doc = extract_jsdoc(t, i);
    Some(
        Symbol {
            name,
            kind: SymbolKind::Function,
            start_line: sl,
            end_line: el,
            start_col: sc,
            end_col: ec,
            signature: Some(sig),
            documentation: doc,
        },
    )
}

fn extract_js_class(t: &SyntaxTree, i: usize) -> (r: Option<Symbol>)
    requires
        t.wf(),
        i < t@.nodes.len(),
    ensures
        opt_symbol_view(r) == js_class_symbol(t@, i as int),
{
    let name_node = match t.field_child(i, "name") {
        Some(n) => n,
        None => {
            return None;
        },
    };
    let name = match t.text(name_node) {
        Some(s) => s,
        None => {
            return None;
        },
    };
    let mut sig = "class ".to_owned();
    sig.append(name.as_str());
    match t.kind_child(i, "class_heritage") {
        Some(h) => match t.text(h) {
            Some(x) => {
                sig.append(" ");
                sig.append(x.as_str());
            },
            None => {},
        },
        None => {},
    }
    let (sl, el, sc, ec) = t.span(i);
    let doc = extract_jsdoc(t, i);
    Some(
        Symbol {
            name,
            kind: SymbolKind::Class,
            start_line: sl,
            end_line: el,
            start_col: sc,
            end_col: ec,
            signature: Some(sig),
            documentation: doc,
        },
    )
}

fn extract_js_method(t: &SyntaxTree, i: usize) -> (r: Option<Symbol>)
    requires
        t.wf(),
        i < t@.nodes.len(),
    ensures
        opt_symbol_view(r) == js_method_symbol(t@, i as int),
{
    let name_node = match t.kind_child(i, "property_identifier") {
        Some(n) => n,
        None => {
            return None;
        },
    };
    let name = match t.text(name_node) {
        Some(s) => s,
        None => {
            return None;
        },
    };
    let mut sig = name.clone();
    match t.kind_child(i, "formal_parameters") {
        Some(p) => match t.text(p) {
            Some(x) => {
                sig.append(x.as_str());
            },
            None => {
                sig.append("()");
            },
        },
        None => {
            sig.append("()");
        },
    }
    let (sl, el, sc, ec) = t.span(i);
    let doc = extract_jsdoc(t, i);
    Some(
        Symbol {
            name,
            kind: SymbolKind::Method,
            start_line: sl,
            end_line: el,
            start_col: sc,
            end_col: ec,
            signature: Some(sig),
            documentation: doc,
        },
    )
}

fn extract_class_symbols(t: &SyntaxTree, i: usize, symbols: &mut Vec<Symbol>)
    requires
        t.wf(),
        i < t@.nodes.len(),
    ensures
        symbol_views(final(symbols)@) == symbol_views(old(symbols)@) + js_class_symbols(t@, i as int),
{
    let ghost start = symbol_views(symbols@);
    let o = extract_js_class(t, i);
    push_symbol(symbols, o);
    let cs = t.children(i);
    let ghost v = index_views(cs@);
    let ghost base = symbol_views(symbols@);
    let mut k: usize = 0;
    assert(v.skip(0) =~= v);
    while k < cs.len()
        invariant
            t.wf(),
            v == index_views(cs@),
            v == t@.children(i as int),
            k <= cs@.len(),
            forall|m: int| 0 <= m < cs@.len() ==> #[trigger] cs@[m] < t@.nodes.len(),
            symbol_views(symbols@) + js_class_methods(t@, v.skip(k as int)) == base
                + js_class_methods(t@, v),
        decreases cs.len() - k,
    {
        let c = cs[k];
        assert(v.skip(k as int)[0] == c as int);
        assert(v.skip(k as int).drop_first() =~= v.skip(k + 1));
        let ghost mid = symbol_views(symbols@);
        if t.kind_is(c, "class_body") {
            let ds = t.children(c);
            let ghost w = index_views(ds@);
            let mut m: usize = 0;
            assert(w.skip(0) =~= w);
            while m < ds.len()
                invariant
                    t.wf(),
                    w == index_views(ds@),
                    m <= ds@.len(),
                    forall|q: int| 0 <= q < ds@.len() ==> #[trigger] ds@[q] < t@.nodes.len(),
                    symbol_views(symbols@) + js_methods_of(t@, w.skip(m as int)) == mid
                        + js_methods_of(t@, w),
                decreases ds.len() - m,
            {
                let d = ds[m];
                assert(w.skip(m as int)[0] == d as int);
                assert(w.skip(m as int).drop_first() =~= w.skip(m + 1));
                let ghost before = symbol_views(symbols@);
                if t.kind_is(d, "method_definition") {
                    let o = extract_js_method(t, d);
                    push_symbol(symbols, o);
                }
                assert(symbol_views(symbols@) + js_methods_of(t@, w.skip(m + 1)) =~= before
                    + js_methods_of(t@, w.skip(m as int)));
                m = m + 1;
            }
            assert(w.skip(m as int) =~= Seq::<int>::empty());
        }
        assert(symbol_views(symbols@) + js_class_methods(t@, v.skip(k + 1)) =~= mid
            + js_class_methods(t@, v.skip(k as int)));
        k = k + 1;
    }
    assert(v.skip(k as int) =~= Seq::<int>::empty());
    assert(symbol_views(symbols@) =~= start + js_class_symbols(t@, i as int));
}

/// The child at position `k` of `c`.
fn nth_child_of(t: &SyntaxTree, c: usize, k: usize) -> (r: Option<usize>)
    requires
        t.wf(),
        c < t@.nodes.len(),
    ensures
        opt_index_view_eq(r, nth_child(t@, c as int, k as int)),
        r matches Some(x) ==> x < t@.nodes.len(),
{
    let cs = t.children(c);
    if k < cs.len() {
        Some(cs[k])
    } else {
        None
    }
}

/// An optional position agrees with an optional node.
pub open spec fn opt_index_view_eq(r: Option<usize>, o: Option<int>) -> bool {
    crate::syntax::opt_index_view(r) == o
}

fn extract_arrow(t: &SyntaxTree, c: usize) -> (r: Option<Symbol>)
    requires
        t.wf(),
        c < t@.nodes.len(),
    ensures
        opt_symbol_view(r) == js_arrow_symbol(t@, c as int),
{
    let n = nth_child_of(t, c, 0);
    let v = nth_child_of(t, c, 2);
    match (n, v) {
        (Some(n), Some(v)) => {
            if !t.kind_is(v, "arrow_function") {
                return None;
            }
            match t.text(n) {
                Some(name) => {
                    let mut sig = "const ".to_owned();
                    sig.append(name.as_str());
                    sig.append(" = () => ...");
                    let (sl, el, sc, ec) = t.span(c);
                    let doc = extract_jsdoc(t, c);
                    Some(
                        Symbol {
                            name,
                            kind: SymbolKind::Function,
                            start_line: sl,
                            end_line: el,
                            start_col: sc,
                            end_col: ec,
                            signature: Some(sig),
                            documentation: doc,
                        },
                    )
                },
                None => None,
            }
        },
        _ => None,
    }
}

fn extract_variable_declarations(t: &SyntaxTree, i: usize, symbols: &mut Vec<Symbol>)
    requires
        t.wf(),
        i < t@.nodes.len(),
    ensures
        symbol_views(final(symbols)@) == symbol_views(old(symbols)@) + js_var_symbols(
            t@,
            t@.children(i as int),
        ),
{
    let cs = t.children(i);
    let ghost v = index_views(cs@);
    let ghost start = symbol_views(symbols@);
    let mut k: usize = 0;
    assert(v.skip(0) =~= v);
    while k < cs.len()
        invariant
            t.wf(),
            v == index_views(cs@),
            k <= cs@.len(),
            forall|m: int| 0 <= m < cs@.len() ==> #[trigger] cs@[m] < t@.nodes.len(),
            symbol_views(symbols@) + js_var_symbols(t@, v.skip(k as int)) == start + js_var_symbols(
                t@,
                v,
            ),
        decreases cs.len() - k,
    {
        let c = cs[k];
        assert(v.skip(k as int)[0] == c as int);
        assert(v.skip(k as int).drop_first() =~= v.skip(k + 1));
        let ghost before = symbol_views(symbols@);
        if t.kind_is(c, "variable_declarator") {
            let o = extract_arrow(t, c);
            push_symbol(symbols, o);
        }
        assert(symbol_views(symbols@) + js_var_symbols(t@, v.skip(k + 1)) =~= before
            + js_var_symbols(t@, v.skip(k as int)));
        k = k + 1;
    }
    assert(v.skip(k as int) =~= Seq::<int>::empty());
}

/// The module path after ` from ` in `raw`.
fn extract_js_from_path(raw: &String) -> (r: Option<Vec<char>>)
    ensures
        match r {
            Some(v) => js_from_path(raw@) == Some(v@),
            None => js_from_path(raw@) is None,
        },
{
    let cs = string_chars(raw);
    from_path_of(cs.as_slice())
}

/// The module path after ` from ` in the text `cs`: what follows, trimmed of
/// whitespace, then of trailing semicolons, then of quotes.
pub fn from_path_of(cs: &[char]) -> (r: Option<Vec<char>>)
    ensures
        match r {
            Some(v) => js_from_path(cs@) == Some(v@),
            None => js_from_path(cs@) is None,
        },
{
    let pat = [' ', 'f', 'r', 'o', 'm', ' '];
    proof {
        reveal_strlit(" from ");
    }
    assert(pat@ =~= " from "@);
    match find_first(cs, &pat) {
        None => None,
        Some(k) => {
            proof {
                crate::text::lemma_find_bounds(cs@, pat@);
            }
            assert(pat@.len() == 6);
            assert(crate::text::find(cs@, pat@) == Some(k as int));
            let cl = cs.len();
            assert(k + 6 <= cl);
            let after = crate::text::copy_range(cs, k + 6, cl);
            assert(after@ =~= cs@.skip(k + 6));
            let a = trim_chars(after.as_slice());
            let semi = [';'];
            assert(semi@ =~= seq![';']);
            let b = rskip_set_chars(a.as_slice(), &semi);
            let quotes = ['\'', '"', '`'];
            assert(quotes@ =~= seq!['\'', '"', '`']);
            Some(trim_set_chars(b.as_slice(), &quotes))
        },
    }
}

fn str_chars_contains(cs: &Vec<char>, p: &str) -> (b: bool)
    ensures
        b == contains(cs@, p@),
{
    let pc = crate::text::to_chars(p);
    contains_chars(cs.as_slice(), pc.as_slice())
}

fn extract_js_export_clause(t: &SyntaxTree, c: usize, e: usize) -> (r: Option<Symbol>)
    requires
        t.wf(),
        c < t@.nodes.len(),
        e < t@.nodes.len(),
    ensures
        opt_symbol_view(r) == js_export_clause_symbol(t@, c as int, e as int),
{
    let raw = match t.text(e) {
        Some(x) => x,
        None => {
            return None;
        },
    };
    let rc = string_chars(&raw);
    if !str_chars_contains(&rc, " from ") && !str_chars_contains(&rc, " from'")
        && !str_chars_contains(&rc, " from\"") {
        return None;
    }
    let sp = match extract_js_from_path(&raw) {
        Some(x) => x,
        None => {
            return None;
        },
    };
    let cs = t.children(c);
    let ghost v = index_views(cs@);
    let mut names: Vec<String> = Vec::new();
    let mut k: usize = 0;
    assert(v.skip(0) =~= v);
    while k < cs.len()
        invariant
            t.wf(),
            v == index_views(cs@),
            k <= cs@.len(),
            forall|m: int| 0 <= m < cs@.len() ==> #[trigger] cs@[m] < t@.nodes.len(),
            string_views(names@) + js_export_names(t@, v.skip(k as int)) == js_export_names(t@, v),
        decreases cs.len() - k,
    {
        let x = cs[k];
        assert(v.skip(k as int)[0] == x as int);
        assert(v.skip(k as int).drop_first() =~= v.skip(k + 1));
        let ghost before = string_views(names@);
        if t.kind_is(x, "export_specifier") {
            match t.field_child(x, "name") {
                Some(n) => match t.text(n) {
                    Some(s) => {
                        names.push(s);
                    },
                    None => {},
                },
                None => {},
            }
        }
        assert(string_views(names@) + js_export_names(t@, v.skip(k + 1)) =~= before
            + js_export_names(t@, v.skip(k as int)));
        k = k + 1;
    }
    assert(v.skip(k as int) =~= Seq::<int>::empty());
    assert(string_views(names@) =~= js_export_names(t@, v));
    let spath = chars_to_string(sp.as_slice());
    let name = if names.len() == 0 {
        let mut s = "{} from ".to_owned();
        s.append(spath.as_str());
        s
    } else {
        let mut s = "{ ".to_owned();
        let l = join_strings(&names, ", ");
        s.append(l.as_str());
        s.append(" } from ");
        s.append(spath.as_str());
        s
    };
    let tr = trim_chars(rc.as_slice());
    let (sl, el, sc, ec) = t.span(e);
    Some(
        Symbol {
            name,
            kind: SymbolKind::Module,
            start_line: sl,
            end_line: el,
            start_col: sc,
            end_col: ec,
            signature: Some(chars_to_string(tr.as_slice())),
            documentation: None,
        },
    )
}

fn extract_exported_decls(t: &SyntaxTree, i: usize, symbols: &mut Vec<Symbol>)
    requires
        t.wf(),
        i < t@.nodes.len(),
    ensures
        symbol_views(final(symbols)@) == symbol_views(old(symbols)@) + js_exported_decls(
            t@,
            t@.children(i as int),
        ),
{
    let cs = t.children(i);
    let ghost v = index_views(cs@);
    let ghost start = symbol_views(symbols@);
    let mut k: usize = 0;
    assert(v.skip(0) =~= v);
    while k < cs.len()
        invariant
            t.wf(),
            v == index_views(cs@),
            k <= cs@.len(),
            forall|m: int| 0 <= m < cs@.len() ==> #[trigger] cs@[m] < t@.nodes.len(),
            symbol_views(symbols@) + js_exported_decls(t@, v.skip(k as int)) == start
                + js_exported_decls(t@, v),
        decreases cs.len() - k,
    {
        let c = cs[k];
        assert(v.skip(k as int)[0] == c as int);
        assert(v.skip(k as int).drop_first() =~= v.skip(k + 1));
        let ghost before = symbol_views(symbols@);
        if t.kind_is(c, "function_declaration") {
            let o = extract_js_function(t, c);
            push_symbol(symbols, o);
        } else if t.kind_is(c, "class_declaration") {
            extract_class_symbols(t, c, symbols);
        } else if t.kind_is(c, "lexical_declaration") || t.kind_is(c, "variable_declaration") {
            extract_variable_declarations(t, c, symbols);
        }
        assert(symbol_views(symbols@) + js_exported_decls(t@, v.skip(k + 1)) =~= before
            + js_exported_decls(t@, v.skip(k as int)));
        k = k + 1;
    }
    assert(v.skip(k as int) =~= Seq::<int>::empty());
}

fn extract_export(t: &SyntaxTree, i: usize, symbols: &mut Vec<Symbol>)
    requires
        t.wf(),
        i < t@.nodes.len(),
    ensures
        symbol_views(final(symbols)@) == symbol_views(old(symbols)@) + js_export_symbols(t@, i as int),
{
    let cs = t.children(i);
    let ghost v = index_views(cs@);
    let ghost start = symbol_views(symbols@);
    let has_star = t.first_of_kind(&cs, "*").is_some();
    let has_from = t.first_of_kind(&cs, "from").is_some();
    if has_star && has_from {
        let raw = t.text_or_empty(i);
        match extract_js_from_path(&raw) {
            Some(sp) => {
                let mut name = "* from ".to_owned();
                let s = chars_to_string(sp.as_slice());
                name.append(s.as_str());
                let rc = string_chars(&raw);
                let tr = trim_chars(rc.as_slice());
                let (sl, el, sc, ec) = t.span(i);
                symbols.push(
                    Symbol {
                        name,
                        kind: SymbolKind::Module,
                        start_line: sl,
                        end_line: el,
                        start_col: sc,
                        end_col: ec,
                        signature: Some(chars_to_string(tr.as_slice())),
                        documentation: None,
                    },
                );
                assert(symbol_views(symbols@) =~= start + js_export_symbols(t@, i as int));
            },
            None => {
                assert(symbol_views(symbols@) =~= start + js_export_symbols(t@, i as int));
            },
        }
        return ;
    }
    let clause = t.first_of_kind(&cs, "export_clause");
    if clause.is_some() && has_from {
        match clause {
            Some(c) => {
                let o = extract_js_export_clause(t, c, i);
                push_symbol(symbols, o);
            },
            None => {},
        }
        return ;
    }
    extract_exported_decls(t, i, symbols);
}

#[verifier::rlimit(40)]
fn extract_js_item(t: &SyntaxTree, i: usize, symbols: &mut Vec<Symbol>) -> (next: usize)
    requires
        t.wf(),
        i < t@.nodes.len(),
    ensures
        i < next <= t@.nodes.len(),
        symbol_views(final(symbols)@) + js_symbols_from(t@, next as int) == symbol_views(
            old(symbols)@,
        ) + js_symbols_from(t@, i as int),
{
    let ghost before = symbol_views(symbols@);
    proof {
        t@.lemma_end(i as int);
    }
    if t.kind_is(i, "function_declaration") {
        let o = extract_js_function(t, i);
        push_symbol(symbols, o);
    } else if t.kind_is(i, "class_declaration") {
        extract_class_symbols(t, i, symbols);
    } else if t.kind_is(i, "variable_declaration") || t.kind_is(i, "lexical_declaration") {
        extract_variable_declarations(t, i, symbols);
    } else if t.kind_is(i, "export_statement") {
        extract_export(t, i, symbols);
    } else {
        return i + 1;
    }
    t.end_of(i)
}

fn extract_js_symbols(t: &SyntaxTree, symbols: &mut Vec<Symbol>)
    requires
        t.wf(),
    ensures
        symbol_views(final(symbols)@) == symbol_views(old(symbols)@) + js_symbols_from(t@, 0),
{
    let n = t.len();
    let mut i: usize = 0;
    while i < n
        invariant
            t.wf(),
            n == t@.nodes.len(),
            i <= n,
            symbol_views(symbols@) + js_symbols_from(t@, i as int) == symbol_views(old(symbols)@)
                + js_symbols_from(t@, 0),
        decreases n - i,
    {
        i = extract_js_item(t, i, symbols);
    }
}

fn extract_js_import(t: &SyntaxTree, i: usize) -> (r: Import)
    requires
        t.wf(),
        i < t@.nodes.len(),
    ensures
        r@ == js_import(t@, i as int),
{
    let (line, _, _, _) = t.span(i);
    let raw = t.text_or_empty(i);
    let cs = t.children(i);
    let ghost v = index_views(cs@);
    let mut from: Option<String> = None;
    let mut names: Vec<String> = Vec::new();
    let quotes = ['\'', '"'];
    assert(quotes@ =~= seq!['\'', '"']);
    let mut k: usize = 0;
    while k < cs.len()
        invariant
            t.wf(),
            v == index_views(cs@),
            v == t@.children(i as int),
            quotes@ == seq!['\'', '"'],
            k <= cs@.len(),
            forall|m: int| 0 <= m < cs@.len() ==> #[trigger] cs@[m] < t@.nodes.len(),
            (opt_string_view(from), string_views(names@)) == js_import_state(t@, v, k as int),
        decreases cs.len() - k,
    {
        let c = cs[k];
        assert(v[k as int] == c as int);
        let ghost before = string_views(names@);
        if t.kind_is(c, "string") {
            let tx = t.text_or_empty(c);
            let tc = string_chars(&tx);
            let tr = trim_set_chars(tc.as_slice(), &quotes);
            from = Some(chars_to_string(tr.as_slice()));
        } else if t.kind_is(c, "named_imports") {
            let ds = t.children(c);
            let ghost w = index_views(ds@);
            let mut m: usize = 0;
            assert(w.skip(0) =~= w);
            while m < ds.len()
                invariant
                    t.wf(),
                    w == index_views(ds@),
                    m <= ds@.len(),
                    forall|q: int| 0 <= q < ds@.len() ==> #[trigger] ds@[q] < t@.nodes.len(),
                    string_views(names@) + js_import_names(t@, w.skip(m as int)) == before
                        + js_import_names(t@, w),
                decreases ds.len() - m,
            {
                let d = ds[m];
                assert(w.skip(m as int)[0] == d as int);
                assert(w.skip(m as int).drop_first() =~= w.skip(m + 1));
                let ghost b2 = string_views(names@);
                if t.kind_is(d, "import_specifier") {
                    match t.field_child(d, "name") {
                        Some(n) => match t.text(n) {
                            Some(s) => {
                                names.push(s);
                            },
                            None => {},
                        },
                        None => {},
                    }
                }
                assert(string_views(names@) + js_import_names(t@, w.skip(m + 1)) =~= b2
                    + js_import_names(t@, w.skip(m as int)));
                m = m + 1;
            }
            assert(w.skip(m as int) =~= Seq::<int>::empty());
            assert(string_views(names@) =~= before + js_import_names(t@, w));
        } else if t.kind_is(c, "identifier") {
            match t.text(c) {
                Some(s) => {
                    names.push(s);
                    assert(string_views(names@) =~= before + opt_seq(t@.text(c as int)));
                },
                None => {
                    assert(string_views(names@) =~= before + opt_seq(t@.text(c as int)));
                },
            }
        }
        k = k + 1;
    }
    let symbol = if names.len() == 0 {
        match &from {
            Some(m) => m.clone(),
            None => String::new(),
        }
    } else {
        join_strings(&names, ", ")
    };
    Import {
        imported_symbol: symbol,
        imported_from_path: from,
        import_type: ImportType::Import,
        start_line: Some(line),
        raw_statement: Some(raw),
    }
}

fn first_string_argument(t: &SyntaxTree, a: usize) -> (r: Option<String>)
    requires
        t.wf(),
        a < t@.nodes.len(),
    ensures
        opt_string_view(r) == first_string_arg(t@, t@.children(a as int)),
{
    let cs = t.children(a);
    let ghost v = index_views(cs@);
    let quotes = ['\'', '"'];
    assert(quotes@ =~= seq!['\'', '"']);
    let mut k: usize = 0;
    assert(v.skip(0) =~= v);
    while k < cs.len()
        invariant
            t.wf(),
            v == index_views(cs@),
            v == t@.children(a as int),
            quotes@ == seq!['\'', '"'],
            k <= cs@.len(),
            forall|m: int| 0 <= m < cs@.len() ==> #[trigger] cs@[m] < t@.nodes.len(),
            first_string_arg(t@, v) == first_string_arg(t@, v.skip(k as int)),
        decreases cs.len() - k,
    {
        let c = cs[k];
        assert(v.skip(k as int)[0] == c as int);
        assert(v.skip(k as int).drop_first() =~= v.skip(k + 1));
        if t.kind_is(c, "string") {
            match t.text(c) {
                Some(s) => {
                    let sc = string_chars(&s);
                    let tr = trim_set_chars(sc.as_slice(), &quotes);
                    return Some(chars_to_string(tr.as_slice()));
                },
                None => {},
            }
        }
        k = k + 1;
    }
    assert(v.skip(k as int) =~= Seq::<int>::empty());
    None
}

fn extract_require(t: &SyntaxTree, i: usize, imports: &mut Vec<Import>)
    requires
        t.wf(),
        i < t@.nodes.len(),
    ensures
        import_views(final(imports)@) == import_views(old(imports)@) + js_require(t@, i as int),
{
    let ghost start = import_views(imports@);
    let f = match t.field_child(i, "function") {
        Some(f) => f,
        None => {
            assert(import_views(imports@) =~= start + js_require(t@, i as int));
            return ;
        },
    };
    let is_require = match t.text(f) {
        Some(name) => str_is(&name, "require"),
        None => false,
    };
    if !is_require {
        assert(import_views(imports@) =~= start + js_require(t@, i as int));
        return ;
    }
    let (line, _, _, _) = t.span(i);
    let raw = t.text_or_empty(i);
    let from = match t.field_child(i, "arguments") {
        Some(a) => first_string_argument(t, a),
        None => None,
    };
    let symbol = match &from {
        Some(m) => m.clone(),
        None => String::new(),
    };
    imports.push(
        Import {
            imported_symbol: symbol,
            imported_from_path: from,
            import_type: ImportType::Require,
            start_line: Some(line),
            raw_statement: Some(raw),
        },
    );
    assert(import_views(imports@) =~= start + js_require(t@, i as int));
}

/// Whether `s` holds exactly `lit`.
fn str_is(s: &String, lit: &str) -> (b: bool)
    ensures
        b == (s@ == lit@),
{
    crate::text::str_eq(s.as_str(), lit)
}

fn extract_js_imports(t: &SyntaxTree, imports: &mut Vec<Import>)
    requires
        t.wf(),
    ensures
        import_views(final(imports)@) == import_views(old(imports)@) + js_imports_from(t@, 0),
{
    let n = t.len();
    let mut i: usize = 0;
    while i < n
        invariant
            t.wf(),
            n == t@.nodes.len(),
            i <= n,
            import_views(imports@) + js_imports_from(t@, i as int) == import_views(old(imports)@)
                + js_imports_from(t@, 0),
        decreases n - i,
    {
        let ghost before = import_views(imports@);
        if t.kind_is(i, "import_statement") {
            let im = extract_js_import(t, i);
            imports.push(im);
            assert(import_views(imports@) =~= before + seq![js_import(t@, i as int)]);
            i = t.end_of(i);
        } else if t.kind_is(i, "call_expression") {
            extract_require(t, i, imports);
            i = i + 1;
        } else {
            i = i + 1;
        }
    }
}

/// The symbols and imports of the JavaScript syntax tree `t`.
pub fn js_parse_tree(t: &SyntaxTree) -> (r: ParseResult)
    requires
        t.wf(),
    ensures
        r@ == (ParseResultView { symbols: js_symbols_from(t@, 0), imports: js_imports_from(t@, 0) }),
{
    let mut symbols: Vec<Symbol> = Vec::new();
    let mut imports: Vec<Import> = Vec::new();
    extract_js_symbols(t, &mut symbols);
    extract_js_imports(t, &mut imports);
    assert(symbol_views(symbols@) =~= js_symbols_from(t@, 0));
    assert(import_views(imports@) =~= js_imports_from(t@, 0));
    ParseResult { symbols, imports }
}

impl Parser for JsParser {
    open spec fn reads(&self) -> Language {
        Language::JavaScript
    }

    open spec fn parsed(&self, content: Seq<char>) -> ParseResultView {
        js_parse(content)
    }

    fn language(&self) -> (l: Language) {
        Language::JavaScript
    }

    fn parse(&self, content: &str, path: &str) -> (r: ParseResult) {
        let t = SyntaxTree::build(Language::JavaScript, content);
        js_parse_tree(&t)
    }
}

} // verus!
