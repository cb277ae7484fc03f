//! Symbols and imports of TypeScript (and TSX) sources.

use crate::models::{import_views, symbol_views, Import, ImportType, ImportView, Language, Symbol, SymbolKind, SymbolView};
use crate::parser::js_parser::{first_string_arg, js_import_names, js_require, nth_child};
use crate::parser::{opt_import_view, opt_seq, opt_symbol_view, push_import, push_symbol, ParseResult, ParseResultView, Parser};
use crate::syntax::{index_views, opt_string_view, tree_of, SyntaxTree, TreeView};
use crate::text::{chars_to_string, join, join_strings, string_chars, string_views, trim_set, trim_set_chars};
use vstd::prelude::*;

verus! {

/// The TypeScript parser (TSX grammar).
pub struct TsParser;

// ---------------------------------------------------------------------------
// Symbols
// ---------------------------------------------------------------------------

/// A declaration named by its `name` field, signed `{keyword} {name}`.
pub open spec fn ts_named_symbol(t: TreeView, i: int, kind: SymbolKind, keyword: Seq<char>) -> Option<SymbolView> {
    match t.field_child(i, "name"@) {
        None => None,
        Some(nn) => match t.text(nn) {
            None => None,
            Some(name) => Some(
                SymbolView {
                    name,
                    kind,
                    start_line: t.start_line(i),
                    end_line: t.end_line(i),
                    start_col: t.start_col(i),
                    end_col: t.end_col(i),
                    signature: Some(keyword + " "@ + name),
                    documentation: None,
                },
            ),
        },
    }
}

/// The readable texts of the `class_heritage` nodes among `cs`.
pub open spec fn ts_heritage(t: TreeView, cs: Seq<int>) -> Seq<Seq<char>>
    decreases cs.len(),
{
    if cs.len() == 0 {
        Seq::empty()
    } else {
        (if t.kind(cs[0]) == "class_heritage"@ {
            opt_seq(t.text(cs[0]))
        } else {
            Seq::empty()
        }) + ts_heritage(t, cs.drop_first())
    }
}

/// The symbol of a class, signed with its heritage clauses.
pub open spec fn ts_class_symbol(t: TreeView, i: int) -> Option<SymbolView> {
    match t.field_child(i, "name"@) {
        None => None,
        Some(nn) => match t.text(nn) {
            None => None,
            Some(name) => {
                let h = ts_heritage(t, t.children(i));
                Some(
                    SymbolView {
                        name,
                        kind: SymbolKind::Class,
                        start_line: t.start_line(i),
                        end_line: t.end_line(i),
                        start_col: t.start_col(i),
                        end_col: t.end_col(i),
                        signature: Some(
                            if h.len() == 0 {
                                "class "@ + name
                            } else {
                                "class "@ + name + " "@ + join(h, " "@)
                            },
                        ),
                        documentation: None,
                    },
                )
            },
        },
    }
}

/// The node naming a class member: its `name` field, or else its first
/// `property_identifier`, or else its first `identifier` child.
pub open spec fn ts_member_name(t: TreeView, i: int) -> Option<int> {
    match t.field_child(i, "name"@) {
        Some(n) => Some(n),
        None => match t.kind_child(i, "property_identifier"@) {
            Some(n) => Some(n),
            None => t.kind_child(i, "identifier"@),
        },
    }
}

/// The method symbol of a class member, signed by its name.
pub open spec fn ts_method_symbol(t: TreeView, i: int) -> Option<SymbolView> {
    match ts_member_name(t, i) {
        None => None,
        Some(nn) => match t.text(nn) {
            None => None,
            Some(name) => Some(
                SymbolView {
                    name,
                    kind: SymbolKind::Method,
                    start_line: t.start_line(i),
                    end_line: t.end_line(i),
                    start_col: t.start_col(i),
                    end_col: t.end_col(i),
                    signature: Some(name),
                    documentation: None,
                },
            ),
        },
    }
}

/// Member kinds that give a method symbol.
pub open spec fn is_ts_member_kind(k: Seq<char>) -> bool {
    k == "method_definition"@ || k == "public_field_definition"@ || k == "property_signature"@ || k
        == "abstract_method_signature"@ || k == "method_signature"@
}

/// The member symbols among `ds`.
pub open spec fn ts_members_of(t: TreeView, ds: Seq<int>) -> Seq<SymbolView>
    decreases ds.len(),
{
    if ds.len() == 0 {
        Seq::empty()
    } else {
        (if is_ts_member_kind(t.kind(ds[0])) {
            opt_seq(ts_method_symbol(t, ds[0]))
        } else {
            Seq::empty()
        }) + ts_members_of(t, ds.drop_first())
    }
}

/// The members in the `class_body` and `object_type` nodes among `cs`.
pub open spec fn ts_class_members(t: TreeView, cs: Seq<int>) -> Seq<SymbolView>
    decreases cs.len(),
{
    if cs.len() == 0 {
        Seq::empty()
    } else {
        (if t.kind(cs[0]) == "class_body"@ || t.kind(cs[0]) == "object_type"@ {
            ts_members_of(t, t.children(cs[0]))
        } else {
            Seq::empty()
        }) + ts_class_members(t, cs.drop_first())
    }
}

/// The function symbol of a declarator whose value (third child) is an arrow function.
pub open spec fn ts_arrow_symbol(t: TreeView, c: int) -> Option<SymbolView> {
    match (nth_child(t, c, 0), nth_child(t, c, 2)) {
        (Some(n), Some(v)) => if t.kind(v) == "arrow_function"@ {
            match t.text(n) {
                Some(name) => Some(
                    SymbolView {
                        name,
                        kind: SymbolKind::Function,
                        start_line: t.start_line(c),
                        end_line: t.end_line(c),
                        start_col: t.start_col(c),
                        end_col: t.end_col(c),
                        signature: Some("const "@ + name + " = () => ..."@),
                        documentation: None,
                    },
                ),
                None => None,
            }
        } else {
            None
        },
        _ => None,
    }
}

/// The arrow functions declared by the declarators among `cs`.
pub open spec fn ts_var_symbols(t: TreeView, cs: Seq<int>) -> Seq<SymbolView>
    decreases cs.len(),
{
    if cs.len() == 0 {
        Seq::empty()
    } else {
        (if t.kind(cs[0]) == "variable_declarator"@ {
            opt_seq(ts_arrow_symbol(t, cs[0]))
        } else {
            Seq::empty()
        }) + ts_var_symbols(t, cs.drop_first())
    }
}

/// Node kinds that the symbol extraction handles itself (and does not search through).
pub open spec fn is_ts_handled(k: Seq<char>) -> bool {
    k == "function_declaration"@ || k == "generator_function_declaration"@ || k
        == "class_declaration"@ || k == "interface_declaration"@ || k == "type_alias_declaration"@
        || k == "enum_declaration"@ || k == "lexical_declaration"@ || k == "variable_declaration"@
        || k == "export_statement"@ || k == "ambient_declaration"@ || k
        == "abstract_class_declaration"@
}

/// Kinds of the children of an `export_statement` that are extracted.
pub open spec fn is_ts_export_kind(k: Seq<char>) -> bool {
    k == "function_declaration"@ || k == "generator_function_declaration"@ || k
        == "class_declaration"@ || k == "interface_declaration"@ || k == "type_alias_declaration"@
        || k == "enum_declaration"@ || k == "lexical_declaration"@ || k == "variable_declaration"@
}

/// Kinds of the children of an `ambient_declaration` that are extracted.
pub open spec fn is_ts_ambient_kind(k: Seq<char>) -> bool {
    k == "function_declaration"@ || k == "class_declaration"@ || k == "interface_declaration"@ || k
        == "type_alias_declaration"@ || k == "enum_declaration"@ || k == "module"@
}

/// The symbols of the nodes from preorder position `i` up to `stop`: a handled
/// node gives its symbols and its subtree is not searched further.
pub open spec fn ts_scan(t: TreeView, i: int, stop: int) -> Seq<SymbolView>
    decreases t.nodes.len() - i, 2int, 0int,
{
    if i < 0 || i >= t.nodes.len() || i >= stop {
        Seq::empty()
    } else if is_ts_handled(t.kind(i)) {
        proof {
            t.lemma_end(i);
        }
        ts_handle(t, i) + ts_scan(t, t.end(i), stop)
    } else {
        ts_scan(t, i + 1, stop)
    }
}

/// The symbols of a handled node `i`.
pub open spec fn ts_handle(t: TreeView, i: int) -> Seq<SymbolView>
    decreases t.nodes.len() - i, 1int, 0int,
{
    if i < 0 || i >= t.nodes.len() {
        Seq::empty()
    } else {
        let k = t.kind(i);
        if k == "function_declaration"@ || k == "generator_function_declaration"@ {
            opt_seq(ts_named_symbol(t, i, SymbolKind::Function, "function"@))
        } else if k == "class_declaration"@ || k == "abstract_class_declaration"@ {
            opt_seq(ts_class_symbol(t, i)) + ts_class_members(t, t.children(i))
        } else if k == "interface_declaration"@ {
            opt_seq(ts_named_symbol(t, i, SymbolKind::Interface, "interface"@))
        } else if k == "type_alias_declaration"@ {
            opt_seq(ts_named_symbol(t, i, SymbolKind::TypeAlias, "type"@))
        } else if k == "enum_declaration"@ {
            opt_seq(ts_named_symbol(t, i, SymbolKind::Enum, "enum"@))
        } else if k == "lexical_declaration"@ || k == "variable_declaration"@ {
            ts_var_symbols(t, t.children(i))
        } else if k == "export_statement"@ {
            ts_export_list(t, i, t.children(i))
        } else if k == "ambient_declaration"@ {
            ts_ambient_list(t, i, t.children(i))
        } else {
            Seq::empty()
        }
    }
}

/// The symbols of the exported declarations among the children `cs` of node `lo`.
pub open spec fn ts_export_list(t: TreeView, lo: int, cs: Seq<int>) -> Seq<SymbolView>
    decreases t.nodes.len() - lo, 0int, cs.len(),
{
    if cs.len() == 0 {
        Seq::empty()
    } else {
        let c = cs[0];
        (if c <= lo || c >= t.nodes.len() {
            Seq::empty()
        } else if is_ts_export_kind(t.kind(c)) {
            ts_handle(t, c)
        } else {
            Seq::empty()
        }) + ts_export_list(t, lo, cs.drop_first())
    }
}

/// The symbols of the ambient declarations among the children `cs` of node
/// `lo`; a `module` is searched through.
pub open spec fn ts_ambient_list(t: TreeView, lo: int, cs: Seq<int>) -> Seq<SymbolView>
    decreases t.nodes.len() - lo, 0int, cs.len(),
{
    if cs.len() == 0 {
        Seq::empty()
    } else {
        let c = cs[0];
        (if c <= lo || c >= t.nodes.len() {
            Seq::empty()
        } else if t.kind(c) == "module"@ {
            ts_scan(t, c + 1, t.end(c))
        } else if is_ts_ambient_kind(t.kind(c)) {
            ts_handle(t, c)
        } else {
            Seq::empty()
        }) + ts_ambient_list(t, lo, cs.drop_first())
    }
}

// ---------------------------------------------------------------------------
// Imports
// ---------------------------------------------------------------------------

/// The (module path, imported names) state after the first `n` children `cs`
/// of an `import_statement`.
pub open spec fn ts_import_state(t: TreeView, cs: Seq<int>, n: int) -> (Option<Seq<char>>, Seq<Seq<char>>)
    decreases n,
{
    if n <= 0 || n > cs.len() {
        (None, Seq::empty())
    } else {
        let st = ts_import_state(t, cs, n - 1);
        let c = cs[n - 1];
        let k = t.kind(c);
        if k == "string"@ || k == "template_string"@ {
            (Some(trim_set(t.text_or_empty(c), seq!['\'', '"', '`'])), st.1)
        } else if k == "named_imports"@ {
            (st.0, st.1 + js_import_names(t, t.children(c)))
        } else if k == "identifier"@ {
            (st.0, st.1 + opt_seq(t.text(c)))
        } else if k == "namespace_import"@ {
            (
                st.0,
                st.1 + match t.field_child(c, "name"@) {
                    Some(n) => match t.text(n) {
                        Some(x) => seq!["* as "@ + x],
                        None => Seq::empty(),
                    },
                    None => Seq::empty(),
                },
            )
        } else {
            st
        }
    }
}

/// The import of an `import_statement`.
pub open spec fn ts_import(t: TreeView, i: int) -> ImportView {
    let cs = t.children(i);
    let st = ts_import_state(t, cs, cs.len() as int);
    ImportView {
        imported_symbol: if st.1.len() == 0 {
            match st.0 {
                Some(m) => m,
                None => Seq::empty(),
            }
        } else {
            join(st.1, ", "@)
        },
        imported_from_path: st.0,
        import_type: ImportType::Import,
        start_line: Some(t.start_line(i)),
        raw_statement: Some(t.text_or_empty(i)),
    }
}

/// The imports of the nodes from preorder position `i` on: an import
/// statement's subtree is not searched further; calls are searched through.
pub open spec fn ts_imports_from(t: TreeView, i: int) -> Seq<ImportView>
    decreases t.nodes.len() - i,
{
    if i < 0 || i >= t.nodes.len() {
        Seq::empty()
    } else {
        proof {
            t.lemma_end(i);
        }
        if t.kind(i) == "import_statement"@ {
            seq![ts_import(t, i)] + ts_imports_from(t, t.end(i))
        } else if t.kind(i) == "call_expression"@ {
            js_require(t, i) + ts_imports_from(t, i + 1)
        } else {
            ts_imports_from(t, i + 1)
        }
    }
}

/// Scanning from `k` for imports passes a node `i` that no import statement
/// from `k` on encloses: the imports from `i` on end those from `k` on, after
/// the returned count.
proof fn lemma_ts_imports_reach(t: TreeView, k: int, i: int) -> (m: int)
    requires
        0 <= k <= i < t.nodes.len(),
        forall|j: int| k <= j < i && #[trigger] t.kind(j) == "import_statement"@ ==> t.end(j) <= i,
    ensures
        0 <= m <= ts_imports_from(t, k).len(),
        ts_imports_from(t, k).skip(m) == ts_imports_from(t, i),
    decreases i - k,
{
    if k == i {
        assert(ts_imports_from(t, k).skip(0) =~= ts_imports_from(t, k));
        0
    } else {
        t.lemma_end(k);
        let a = ts_imports_from(t, k);
        let (x, next) = if t.kind(k) == "import_statement"@ {
            (seq![ts_import(t, k)], t.end(k))
        } else if t.kind(k) == "call_expression"@ {
            (js_require(t, k), k + 1)
        } else {
            (Seq::empty(), k + 1)
        };
        let b = ts_imports_from(t, next);
        assert(a == x + b);
        let m1 = lemma_ts_imports_reach(t, next, i);
        assert(a.skip(x.len() + m1) =~= b.skip(m1));
        x.len() + m1
    }
}

/// Every import statement that no other import statement encloses gives an
/// import of the parse, of type `Import`, at the statement's first line, with
/// the statement's text as its raw statement. The result is its position
/// among the imports.
pub proof fn lemma_ts_import_statement(content: Seq<char>, i: int) -> (k: int)
    requires
        0 <= i < ts_tree(content).nodes.len(),
        ts_tree(content).kind(i) == "import_statement"@,
        forall|j: int|
            0 <= j < i && #[trigger] ts_tree(content).kind(j) == "import_statement"@
                ==> ts_tree(content).end(j) <= i,
    ensures
        0 <= k < ts_parse(content).imports.len(),
        ts_parse(content).imports[k] == ts_import(ts_tree(content), i),
        ts_parse(content).imports[k].import_type == ImportType::Import,
        ts_parse(content).imports[k].start_line == Some(ts_tree(content).start_line(i)),
        ts_parse(content).imports[k].raw_statement == Some(ts_tree(content).text_or_empty(i)),
{
    let t = ts_tree(content);
    let m = lemma_ts_imports_reach(t, 0, i);
    t.lemma_end(i);
    assert(ts_imports_from(t, i) == seq![ts_import(t, i)] + ts_imports_from(t, t.end(i)));
    let all = ts_imports_from(t, 0);
    assert(all.skip(m)[0] == all[m]);
    m
}

/// What parsing TypeScript `content` yields.
pub open spec fn ts_parse(content: Seq<char>) -> ParseResultView {
    let t = tree_of(Language::TypeScript, content);
    ParseResultView {
        symbols: ts_scan(t, 0, t.nodes.len() as int),
        imports: ts_imports_from(t, 0),
    }
}

// ---------------------------------------------------------------------------
// Laws of the symbol extraction
// ---------------------------------------------------------------------------

/// The syntax tree of TypeScript `content`.
pub open spec fn ts_tree(content: Seq<char>) -> TreeView {
    tree_of(Language::TypeScript, content)
}

/// No node before `i` that the extraction handles itself has `i` in its
/// subtree: the scan of the tree reaches `i`.
pub open spec fn ts_unenclosed(t: TreeView, i: int) -> bool {
    forall|j: int| 0 <= j < i && #[trigger] is_ts_handled(t.kind(j)) ==> t.end(j) <= i
}

/// Scanning from `k` up to `stop` passes a handled node `i` that no handled
/// node from `k` on encloses: its symbols stand together in the scan, from
/// the returned position on.
proof fn lemma_ts_scan_reaches(t: TreeView, k: int, i: int, stop: int) -> (m: int)
    requires
        0 <= k <= i < stop <= t.nodes.len(),
        is_ts_handled(t.kind(i)),
        forall|j: int| k <= j < i && #[trigger] is_ts_handled(t.kind(j)) ==> t.end(j) <= i,
    ensures
        0 <= m,
        m + ts_handle(t, i).len() <= ts_scan(t, k, stop).len(),
        ts_scan(t, k, stop).subrange(m, m + ts_handle(t, i).len()) == ts_handle(t, i),
    decreases i - k,
{
    if k == i {
        let h = ts_handle(t, i);
        let all = ts_scan(t, k, stop);
        assert(all == h + ts_scan(t, t.end(i), stop));
        assert(all.subrange(0, h.len() as int) =~= h);
        0
    } else if is_ts_handled(t.kind(k)) {
        t.lemma_end(k);
        let e = t.end(k);
        let m1 = lemma_ts_scan_reaches(t, e, i, stop);
        let h = ts_handle(t, i);
        let first = ts_handle(t, k);
        let rest = ts_scan(t, e, stop);
        assert(ts_scan(t, k, stop) == first + rest);
        assert((first + rest).subrange(first.len() + m1, first.len() + m1 + h.len()) =~= rest.subrange(
            m1,
            m1 + h.len(),
        ));
        first.len() + m1
    } else {
        lemma_ts_scan_reaches(t, k + 1, i, stop)
    }
}

/// The symbol kind of the declarations named by a `name` field: functions
/// (and generator functions), interfaces, type aliases and enums.
pub open spec fn ts_named_kind(k: Seq<char>) -> Option<SymbolKind> {
    if k == "function_declaration"@ || k == "generator_function_declaration"@ {
        Some(SymbolKind::Function)
    } else if k == "interface_declaration"@ {
        Some(SymbolKind::Interface)
    } else if k == "type_alias_declaration"@ {
        Some(SymbolKind::TypeAlias)
    } else if k == "enum_declaration"@ {
        Some(SymbolKind::Enum)
    } else {
        None
    }
}

/// The keyword that opens the signature of such a declaration.
pub open spec fn ts_named_keyword(k: Seq<char>) -> Seq<char> {
    if k == "function_declaration"@ || k == "generator_function_declaration"@ {
        "function"@
    } else if k == "interface_declaration"@ {
        "interface"@
    } else if k == "type_alias_declaration"@ {
        "type"@
    } else {
        "enum"@
    }
}

/// The first characters that tell the declaration kinds apart.
proof fn lemma_ts_kind_letters()
    ensures
        "function_declaration"@[0] == 'f',
        "generator_function_declaration"@[0] == 'g',
        "class_declaration"@[0] == 'c',
        "abstract_class_declaration"@[0] == 'a',
        "interface_declaration"@[0] == 'i',
        "type_alias_declaration"@[0] == 't',
        "enum_declaration"@[0] == 'e',
        "enum_declaration"@[1] == 'n',
        "lexical_declaration"@[0] == 'l',
        "variable_declaration"@[0] == 'v',
        "export_statement"@[0] == 'e',
        "export_statement"@[1] == 'x',
{
    reveal_strlit("function_declaration");
    reveal_strlit("generator_function_declaration");
    reveal_strlit("class_declaration");
    reveal_strlit("abstract_class_declaration");
    reveal_strlit("interface_declaration");
    reveal_strlit("type_alias_declaration");
    reveal_strlit("enum_declaration");
    reveal_strlit("lexical_declaration");
    reveal_strlit("variable_declaration");
    reveal_strlit("export_statement");
}

/// A declaration named by its `name` field gives one symbol: its name, the
/// kind of the declaration, the signature `{keyword} {name}`, and its span.
proof fn lemma_ts_handle_named(t: TreeView, i: int, nn: int, name: Seq<char>)
    requires
        0 <= i < t.nodes.len(),
        ts_named_kind(t.kind(i)) is Some,
        t.field_child(i, "name"@) == Some(nn),
        t.text(nn) == Some(name),
    ensures
        is_ts_handled(t.kind(i)),
        ts_handle(t, i) == seq![
            SymbolView {
                name,
                kind: ts_named_kind(t.kind(i))->0,
                start_line: t.start_line(i),
                end_line: t.end_line(i),
                start_col: t.start_col(i),
                end_col: t.end_col(i),
                signature: Some(ts_named_keyword(t.kind(i)) + " "@ + name),
                documentation: None,
            },
        ],
{
    lemma_ts_kind_letters();
    let k = t.kind(i);
    if k == "interface_declaration"@ || k == "type_alias_declaration"@ || k == "enum_declaration"@ {
        assert(k != "function_declaration"@ && k != "generator_function_declaration"@);
        assert(k != "class_declaration"@ && k != "abstract_class_declaration"@);
    }
    if k == "type_alias_declaration"@ || k == "enum_declaration"@ {
        assert(k != "interface_declaration"@);
    }
    if k == "enum_declaration"@ {
        assert(k != "type_alias_declaration"@);
    }
}

/// Every declaration named by its `name` field (a function, generator
/// function, interface, type alias or enum) with a readable name, that no
/// handled declaration encloses, gives a symbol of the parse: its name, the
/// kind of the declaration, signature `{keyword} {name}`, and the
/// declaration's lines and columns. The result is its position among the
/// symbols.
pub proof fn lemma_ts_declaration_symbol(content: Seq<char>, i: int, nn: int, name: Seq<char>) -> (k: int)
    requires
        0 <= i < ts_tree(content).nodes.len(),
        ts_named_kind(ts_tree(content).kind(i)) is Some,
        ts_tree(content).field_child(i, "name"@) == Some(nn),
        ts_tree(content).text(nn) == Some(name),
        ts_unenclosed(ts_tree(content), i),
    ensures
        0 <= k < ts_parse(content).symbols.len(),
        ts_parse(content).symbols[k] == (SymbolView {
            name,
            kind: ts_named_kind(ts_tree(content).kind(i))->0,
            start_line: ts_tree(content).start_line(i),
            end_line: ts_tree(content).end_line(i),
            start_col: ts_tree(content).start_col(i),
            end_col: ts_tree(content).end_col(i),
            signature: Some(ts_named_keyword(ts_tree(content).kind(i)) + " "@ + name),
            documentation: None,
        }),
{
    let t = ts_tree(content);
    lemma_ts_handle_named(t, i, nn, name);
    let m = lemma_ts_scan_reaches(t, 0, i, t.nodes.len() as int);
    let all = ts_scan(t, 0, t.nodes.len() as int);
    assert(all.subrange(m, m + 1)[0] == all[m]);
    m
}

/// Every class declaration (abstract or not) with a readable name that no
/// handled declaration encloses gives a symbol of the parse: its name, kind
/// `Class`, a signature that begins `class {name}`, and the declaration's
/// lines and columns. The result is its position among the symbols.
pub proof fn lemma_ts_class_symbol(content: Seq<char>, i: int, nn: int, name: Seq<char>) -> (k: int)
    requires
        0 <= i < ts_tree(content).nodes.len(),
        ts_tree(content).kind(i) == "class_declaration"@ || ts_tree(content).kind(i)
            == "abstract_class_declaration"@,
        ts_tree(content).field_child(i, "name"@) == Some(nn),
        ts_tree(content).text(nn) == Some(name),
        ts_unenclosed(ts_tree(content), i),
    ensures
        0 <= k < ts_parse(content).symbols.len(),
        ts_parse(content).symbols[k].name == name,
        ts_parse(content).symbols[k].kind == SymbolKind::Class,
        ts_parse(content).symbols[k].signature is Some,
        ("class "@ + name).is_prefix_of(ts_parse(content).symbols[k].signature->0),
        ts_parse(content).symbols[k].start_line == ts_tree(content).start_line(i),
        ts_parse(content).symbols[k].end_line == ts_tree(content).end_line(i),
        ts_parse(content).symbols[k].start_col == ts_tree(content).start_col(i),
        ts_parse(content).symbols[k].end_col == ts_tree(content).end_col(i),
{
    let t = ts_tree(content);
    lemma_ts_kind_letters();
    let kd = t.kind(i);
    assert(kd != "function_declaration"@ && kd != "generator_function_declaration"@);
    let c = ts_class_symbol(t, i)->0;
    let h = ts_handle(t, i);
    assert(h == seq![c] + ts_class_members(t, t.children(i)));
    assert(h[0] == c);
    let hs = ts_heritage(t, t.children(i));
    if hs.len() > 0 {
        let sig = "class "@ + name + " "@ + join(hs, " "@);
        assert(sig.subrange(0, ("class "@ + name).len() as int) =~= "class "@ + name);
    } else {
        assert(("class "@ + name).subrange(0, ("class "@ + name).len() as int) =~= "class "@ + name);
    }
    let m = lemma_ts_scan_reaches(t, 0, i, t.nodes.len() as int);
    let all = ts_scan(t, 0, t.nodes.len() as int);
    assert(all.subrange(m, m + h.len())[0] == all[m]);
    m
}

/// The arrow function symbol of declarator `cs[q]` stands in those of the
/// declarators `cs`, at the returned position.
proof fn lemma_ts_var_symbols_has(t: TreeView, cs: Seq<int>, q: int) -> (m: int)
    requires
        0 <= q < cs.len(),
        t.kind(cs[q]) == "variable_declarator"@,
        ts_arrow_symbol(t, cs[q]) is Some,
    ensures
        0 <= m < ts_var_symbols(t, cs).len(),
        ts_var_symbols(t, cs)[m] == ts_arrow_symbol(t, cs[q])->0,
    decreases cs.len(),
{
    let rest = ts_var_symbols(t, cs.drop_first());
    let first = if t.kind(cs[0]) == "variable_declarator"@ {
        opt_seq(ts_arrow_symbol(t, cs[0]))
    } else {
        Seq::empty()
    };
    assert(ts_var_symbols(t, cs) == first + rest);
    if q == 0 {
        0
    } else {
        assert(cs.drop_first()[q - 1] == cs[q]);
        let m1 = lemma_ts_var_symbols_has(t, cs.drop_first(), q - 1);
        first.len() + m1
    }
}

/// Every declarator whose value is an arrow function (`const f = () => ...`),
/// in a `const`, `let` or `var` declaration that no handled declaration
/// encloses, gives a function symbol of the parse: the declarator's name
/// (its first child), kind `Function`, signature `const {name} = () => ...`,
/// and the declarator's lines and columns. The result is its position among
/// the symbols.
pub proof fn lemma_ts_arrow_function_symbol(content: Seq<char>, i: int, q: int, name: Seq<char>) -> (k: int)
    requires
        0 <= i < ts_tree(content).nodes.len(),
        ts_tree(content).kind(i) == "lexical_declaration"@ || ts_tree(content).kind(i)
            == "variable_declaration"@,
        ts_unenclosed(ts_tree(content), i),
        0 <= q < ts_tree(content).children(i).len(),
        ts_tree(content).kind(ts_tree(content).children(i)[q]) == "variable_declarator"@,
        nth_child(ts_tree(content), ts_tree(content).children(i)[q], 2) is Some,
        ts_tree(content).kind(nth_child(ts_tree(content), ts_tree(content).children(i)[q], 2)->0)
            == "arrow_function"@,
        nth_child(ts_tree(content), ts_tree(content).children(i)[q], 0) is Some,
        ts_tree(content).text(nth_child(ts_tree(content), ts_tree(content).children(i)[q], 0)->0)
            == Some(name),
    ensures
        0 <= k < ts_parse(content).symbols.len(),
        ts_parse(content).symbols[k] == (SymbolView {
            name,
            kind: SymbolKind::Function,
            start_line: ts_tree(content).start_line(ts_tree(content).children(i)[q]),
            end_line: ts_tree(content).end_line(ts_tree(content).children(i)[q]),
            start_col: ts_tree(content).start_col(ts_tree(content).children(i)[q]),
            end_col: ts_tree(content).end_col(ts_tree(content).children(i)[q]),
            signature: Some("const "@ + name + " = () => ..."@),
            documentation: None,
        }),
{
    let t = ts_tree(content);
    let cs = t.children(i);
    lemma_ts_kind_letters();
    let kd = t.kind(i);
    assert(kd[0] == 'l' || kd[0] == 'v');
    assert(kd != "function_declaration"@ && kd != "generator_function_declaration"@);
    assert(kd != "class_declaration"@ && kd != "abstract_class_declaration"@);
    assert(kd != "interface_declaration"@ && kd != "type_alias_declaration"@);
    assert(kd != "enum_declaration"@);
    assert(is_ts_handled(kd));
    let h = ts_handle(t, i);
    assert(h == ts_var_symbols(t, cs));
    let m0 = lemma_ts_var_symbols_has(t, cs, q);
    let m = lemma_ts_scan_reaches(t, 0, i, t.nodes.len() as int);
    let all = ts_scan(t, 0, t.nodes.len() as int);
    assert(all.subrange(m, m + h.len())[m0] == all[m + m0]);
    m + m0
}

/// The method symbol of member `ds[r]` stands among the member symbols of
/// `ds`, at the returned position.
proof fn lemma_ts_members_has(t: TreeView, ds: Seq<int>, r: int) -> (m: int)
    requires
        0 <= r < ds.len(),
        is_ts_member_kind(t.kind(ds[r])),
        ts_method_symbol(t, ds[r]) is Some,
    ensures
        0 <= m < ts_members_of(t, ds).len(),
        ts_members_of(t, ds)[m] == ts_method_symbol(t, ds[r])->0,
    decreases ds.len(),
{
    let first = if is_ts_member_kind(t.kind(ds[0])) {
        opt_seq(ts_method_symbol(t, ds[0]))
    } else {
        Seq::empty()
    };
    assert(ts_members_of(t, ds) == first + ts_members_of(t, ds.drop_first()));
    if r == 0 {
        0
    } else {
        assert(ds.drop_first()[r - 1] == ds[r]);
        first.len() + lemma_ts_members_has(t, ds.drop_first(), r - 1)
    }
}

/// The method symbol of member `r` of body `cs[q]` stands among the class
/// members found in `cs`, at the returned position.
proof fn lemma_ts_class_members_has(t: TreeView, cs: Seq<int>, q: int, r: int) -> (m: int)
    requires
        0 <= q < cs.len(),
        t.kind(cs[q]) == "class_body"@ || t.kind(cs[q]) == "object_type"@,
        0 <= r < t.children(cs[q]).len(),
        is_ts_member_kind(t.kind(t.children(cs[q])[r])),
        ts_method_symbol(t, t.children(cs[q])[r]) is Some,
    ensures
        0 <= m < ts_class_members(t, cs).len(),
        ts_class_members(t, cs)[m] == ts_method_symbol(t, t.children(cs[q])[r])->0,
    decreases cs.len(),
{
    let first = if t.kind(cs[0]) == "class_body"@ || t.kind(cs[0]) == "object_type"@ {
        ts_members_of(t, t.children(cs[0]))
    } else {
        Seq::empty()
    };
    assert(ts_class_members(t, cs) == first + ts_class_members(t, cs.drop_first()));
    if q == 0 {
        lemma_ts_members_has(t, t.children(cs[0]), r)
    } else {
        assert(cs.drop_first()[q - 1] == cs[q]);
        first.len() + lemma_ts_class_members_has(t, cs.drop_first(), q - 1, r)
    }
}

/// Every member of a class body (a method, field, or signature) named by its
/// `name` field, or else its first property identifier or identifier, in a
/// class declaration that no handled declaration encloses, gives a method
/// symbol of the parse: its name, kind `Method`, signature `{name}`, and the
/// member's lines and columns. The result is its position among the symbols.
pub proof fn lemma_ts_member_symbol(content: Seq<char>, i: int, q: int, r: int, nn: int, name: Seq<char>) -> (k: int)
    requires
        0 <= i < ts_tree(content).nodes.len(),
        ts_tree(content).kind(i) == "class_declaration"@ || ts_tree(content).kind(i)
            == "abstract_class_declaration"@,
        ts_unenclosed(ts_tree(content), i),
        0 <= q < ts_tree(content).children(i).len(),
        ts_tree(content).kind(ts_tree(content).children(i)[q]) == "class_body"@,
        0 <= r < ts_tree(content).children(ts_tree(content).children(i)[q]).len(),
        is_ts_member_kind(
            ts_tree(content).kind(ts_tree(content).children(ts_tree(content).children(i)[q])[r]),
        ),
        ts_member_name(ts_tree(content), ts_tree(content).children(ts_tree(content).children(i)[q])[r])
            == Some(nn),
        ts_tree(content).text(nn) == Some(name),
    ensures
        0 <= k < ts_parse(content).symbols.len(),
        ts_parse(content).symbols[k] == (SymbolView {
            name,
            kind: SymbolKind::Method,
            start_line: ts_tree(content).start_line(
                ts_tree(content).children(ts_tree(content).children(i)[q])[r],
            ),
            end_line: ts_tree(content).end_line(
                ts_tree(content).children(ts_tree(content).children(i)[q])[r],
            ),
            start_col: ts_tree(content).start_col(
                ts_tree(content).children(ts_tree(content).children(i)[q])[r],
            ),
            end_col: ts_tree(content).end_col(
                ts_tree(content).children(ts_tree(content).children(i)[q])[r],
            ),
            signature: Some(name),
            documentation: None,
        }),
{
    let t = ts_tree(content);
    let cs = t.children(i);
    lemma_ts_kind_letters();
    let kd = t.kind(i);
    assert(kd != "function_declaration"@ && kd != "generator_function_declaration"@);
    assert(is_ts_handled(kd));
    let h = ts_handle(t, i);
    let head = opt_seq(ts_class_symbol(t, i));
    assert(h == head + ts_class_members(t, cs));
    let m0 = lemma_ts_class_members_has(t, cs, q, r);
    let m = lemma_ts_scan_reaches(t, 0, i, t.nodes.len() as int);
    let all = ts_scan(t, 0, t.nodes.len() as int);
    assert(h[head.len() + m0] == ts_class_members(t, cs)[m0]);
    assert(all.subrange(m, m + h.len())[head.len() + m0] == all[m + head.len() + m0]);
    m + head.len() + m0
}

/// The signature of an enum is `enum {name}`.
proof fn lemma_enum_signature(name: Seq<char>)
    ensures
        "enum"@ + " "@ + name == "enum "@ + name,
{
    reveal_strlit("enum");
    reveal_strlit(" ");
    reveal_strlit("enum ");
    assert("enum"@ + " "@ + name =~= "enum "@ + name);
}

/// Every enum declaration with a readable name that no handled declaration
/// encloses (one at the top of the file, or in a block or namespace that the
/// extraction searches) gives a symbol of the parse: its name, kind `Enum`,
/// signature `enum {name}`, and the declaration's lines and columns. The
/// result is its position among the symbols.
pub proof fn lemma_ts_enum_symbol(content: Seq<char>, i: int, nn: int, name: Seq<char>) -> (k: int)
    requires
        0 <= i < ts_tree(content).nodes.len(),
        ts_tree(content).kind(i) == "enum_declaration"@,
        ts_tree(content).field_child(i, "name"@) == Some(nn),
        ts_tree(content).text(nn) == Some(name),
        ts_unenclosed(ts_tree(content), i),
    ensures
        0 <= k < ts_parse(content).symbols.len(),
        ts_parse(content).symbols[k] == (SymbolView {
            name,
            kind: SymbolKind::Enum,
            start_line: ts_tree(content).start_line(i),
            end_line: ts_tree(content).end_line(i),
            start_col: ts_tree(content).start_col(i),
            end_col: ts_tree(content).end_col(i),
            signature: Some("enum "@ + name),
            documentation: None,
        }),
{
    lemma_ts_kind_letters();
    lemma_enum_signature(name);
    lemma_ts_declaration_symbol(content, i, nn, name)
}

/// The symbols of an extracted child `cs[q]` of an export statement `lo` stand
/// together in those of the statement, from the returned position on.
proof fn lemma_ts_export_list_has(t: TreeView, lo: int, cs: Seq<int>, q: int) -> (m: int)
    requires
        0 <= q < cs.len(),
        lo < cs[q] < t.nodes.len(),
        is_ts_export_kind(t.kind(cs[q])),
    ensures
        0 <= m,
        m + ts_handle(t, cs[q]).len() <= ts_export_list(t, lo, cs).len(),
        ts_export_list(t, lo, cs).subrange(m, m + ts_handle(t, cs[q]).len()) == ts_handle(t, cs[q]),
    decreases cs.len(),
{
    let h = ts_handle(t, cs[q]);
    let rest = ts_export_list(t, lo, cs.drop_first());
    let first = if cs[0] <= lo || cs[0] >= t.nodes.len() {
        Seq::empty()
    } else if is_ts_export_kind(t.kind(cs[0])) {
        ts_handle(t, cs[0])
    } else {
        Seq::empty()
    };
    assert(ts_export_list(t, lo, cs) == first + rest);
    if q == 0 {
        assert((first + rest).subrange(0, h.len() as int) =~= h);
        0
    } else {
        assert(cs.drop_first()[q - 1] == cs[q]);
        let m1 = lemma_ts_export_list_has(t, lo, cs.drop_first(), q - 1);
        assert((first + rest).subrange(first.len() + m1, first.len() + m1 + h.len()) =~= rest.subrange(
            m1,
            m1 + h.len(),
        ));
        first.len() + m1
    }
}

/// Every exported declaration named by its `name` field (`export function`,
/// `export interface`, `export type`, `export enum` ...) with a readable name,
/// whose export statement no handled declaration encloses, gives a symbol of
/// the parse: its name, the kind of the declaration, signature
/// `{keyword} {name}`, and the declaration's lines and columns. The result is
/// its position among the symbols.
pub proof fn lemma_ts_exported_symbol(content: Seq<char>, p: int, q: int, nn: int, name: Seq<char>) -> (k: int)
    requires
        0 <= p < ts_tree(content).nodes.len(),
        ts_tree(content).kind(p) == "export_statement"@,
        ts_unenclosed(ts_tree(content), p),
        0 <= q < ts_tree(content).children(p).len(),
        ts_named_kind(ts_tree(content).kind(ts_tree(content).children(p)[q])) is Some,
        ts_tree(content).field_child(ts_tree(content).children(p)[q], "name"@) == Some(nn),
        ts_tree(content).text(nn) == Some(name),
    ensures
        0 <= k < ts_parse(content).symbols.len(),
        ts_parse(content).symbols[k] == (SymbolView {
            name,
            kind: ts_named_kind(ts_tree(content).kind(ts_tree(content).children(p)[q]))->0,
            start_line: ts_tree(content).start_line(ts_tree(content).children(p)[q]),
            end_line: ts_tree(content).end_line(ts_tree(content).children(p)[q]),
            start_col: ts_tree(content).start_col(ts_tree(content).children(p)[q]),
            end_col: ts_tree(content).end_col(ts_tree(content).children(p)[q]),
            signature: Some(
                ts_named_keyword(ts_tree(content).kind(ts_tree(content).children(p)[q])) + " "@ + name,
            ),
            documentation: None,
        }),
{
    let t = ts_tree(content);
    let cs = t.children(p);
    let i = cs[q];
    t.lemma_children_bounds(p);
    assert(p < i < t.nodes.len());
    lemma_ts_kind_letters();
    lemma_ts_handle_named(t, i, nn, name);
    let kp = t.kind(p);
    assert(kp[0] == 'e' && kp[1] == 'x');
    assert(ts_handle(t, p) == ts_export_list(t, p, cs));
    assert(is_ts_export_kind(t.kind(i)));
    let m0 = lemma_ts_export_list_has(t, p, cs, q);
    let m = lemma_ts_scan_reaches(t, 0, p, t.nodes.len() as int);
    let all = ts_scan(t, 0, t.nodes.len() as int);
    let hp = ts_handle(t, p);
    assert(all.subrange(m, m + hp.len())[m0] == all[m + m0]);
    assert(hp.subrange(m0, m0 + 1)[0] == hp[m0]);
    m + m0
}

// ---------------------------------------------------------------------------
// Extraction
// ---------------------------------------------------------------------------

fn extract_named_symbol(t: &SyntaxTree, i: usize, kind: SymbolKind, keyword: &str) -> (r: Option<Symbol>)
    requires
        t.wf(),
        i < t@.nodes.len(),
    ensures
        opt_symbol_view(r) == ts_named_symbol(t@, i as int, kind, keyword@),
{
    let name_node = match t.field_child(i, "name") {
        Some(n) => n,
        None => {
            return None;
        },
    };
    let name = match t.text(name_node) {
        Some(s) => s,
        None => {
            return None;
        },
    };
    let mut sig = keyword.to_owned();
    sig.append(" ");
    sig.append(name.as_str());
    let (sl, el, sc, ec) = t.span(i);
    Some(
        Symbol {
            name,
            kind,
            start_line: sl,
            end_line: el,
            start_col: sc,
            end_col: ec,
            signature: Some(sig),
            documentation: None,
        },
    )
}

fn extract_class(t: &SyntaxTree, i: usize) -> (r: Option<Symbol>)
    requires
        t.wf(),
        i < t@.nodes.len(),
    ensures
        opt_symbol_view(r) == ts_class_symbol(t@, i as int),
{
    let name_node = match t.field_child(i, "name") {
        Some(n) => n,
        None => {
            return None;
        },
    };
    let name = match t.text(name_node) {
        Some(s) => s,
        None => {
            return None;
        },
    };
    let cs = t.children(i);
    let ghost v = index_views(cs@);
    let mut heritage: Vec<String> = Vec::new();
    let mut k: usize = 0;
    assert(v.skip(0) =~= v);
    while k < cs.len()
        invariant
            t.wf(),
            v == index_views(cs@),
            k <= cs@.len(),
            forall|m: int| 0 <= m < cs@.len() ==> #[trigger] cs@[m] < t@.nodes.len(),
            string_views(heritage@) + ts_heritage(t@, v.skip(k as int)) == ts_heritage(t@, v),
        decreases cs.len() - k,
    {
        let c = cs[k];
        assert(v.skip(k as int)[0] == c as int);
        assert(v.skip(k as int).drop_first() =~= v.skip(k + 1));
        let ghost before = string_views(heritage@);
        if t.kind_is(c, "class_heritage") {
            match t.text(c) {
                Some(x) => {
                    heritage.push(x);
                },
                None => {},
            }
        }
        assert(string_views(heritage@) + ts_heritage(t@, v.skip(k + 1)) =~= before + ts_heritage(
            t@,
            v.skip(k as int),
        ));
        k = k + 1;
    }
    assert(v.skip(k as int) =~= Seq::<int>::empty());
    assert(string_views(heritage@) =~= ts_heritage(t@, v));
    let mut sig = "class ".to_owned();
    sig.append(name.as_str());
    if heritage.len() > 0 {
        sig.append(" ");
        let h = join_strings(&heritage, " ");
        sig.append(h.as_str());
    }
    let (sl, el, sc, ec) = t.span(i);
    Some(
        Symbol {
            name,
            kind: SymbolKind::Class,
            start_line: sl,
            end_line: el,
            start_col: sc,
            end_col: ec,
            signature: Some(sig),
            documentation: None,
        },
    )
}

fn extract_method_symbol(t: &SyntaxTree, i: usize) -> (r: Option<Symbol>)
    requires
        t.wf(),
        i < t@.nodes.len(),
    ensures
        opt_symbol_view(r) == ts_method_symbol(t@, i as int),
{
    let nn = match t.field_child(i, "name") {
        Some(n) => n,
        None => match t.kind_child(i, "property_identifier") {
            Some(n) => n,
            None => match t.kind_child(i, "identifier") {
                Some(n) => n,
                None => {
                    return None;
                },
            },
        },
    };
    let name = match t.text(nn) {
        Some(s) => s,
        None => {
            return None;
        },
    };
    let (sl, el, sc, ec) = t.span(i);
    let sig = name.clone();
    Some(
        Symbol {
            name,
            kind: SymbolKind::Method,
            start_line: sl,
            end_line: el,
            start_col: sc,
            end_col: ec,
            signature: Some(sig),
            documentation: None,
        },
    )
}

fn extract_methods(t: &SyntaxTree, i: usize, symbols: &mut Vec<Symbol>)
    requires
        t.wf(),
        i < t@.nodes.len(),
    ensures
        symbol_views(final(symbols)@) == symbol_views(old(symbols)@) + ts_class_members(
            t@,
            t@.children(i as int),
        ),
{
    let cs = t.children(i);
    let ghost v = index_views(cs@);
    let ghost start = symbol_views(symbols@);
    let mut k: usize = 0;
    assert(v.skip(0) =~= v);
    while k < cs.len()
        invariant
            t.wf(),
            v == index_views(cs@),
            k <= cs@.len(),
            forall|m: int| 0 <= m < cs@.len() ==> #[trigger] cs@[m] < t@.nodes.len(),
            symbol_views(symbols@) + ts_class_members(t@, v.skip(k as int)) == start
                + ts_class_members(t@, v),
        decreases cs.len() - k,
    {
        let c = cs[k];
        assert(v.skip(k as int)[0] == c as int);
        assert(v.skip(k as int).drop_first() =~= v.skip(k + 1));
        let ghost mid = symbol_views(symbols@);
        if t.kind_is(c, "class_body") || t.kind_is(c, "object_type") {
            let ds = t.children(c);
            let ghost w = index_views(ds@);
            let mut m: usize = 0;
            assert(w.skip(0) =~= w);
            while m < ds.len()
                invariant
                    t.wf(),
                    w == index_views(ds@),
                    m <= ds@.len(),
                    forall|q: int| 0 <= q < ds@.len() ==> #[trigger] ds@[q] < t@.nodes.len(),
                    symbol_views(symbols@) + ts_members_of(t@, w.skip(m as int)) == mid
                        + ts_members_of(t@, w),
                decreases ds.len() - m,
            {
                let d = ds[m];
                assert(w.skip(m as int)[0] == d as int);
                assert(w.skip(m as int).drop_first() =~= w.skip(m + 1));
                let ghost before = symbol_views(symbols@);
                if t.kind_is(d, "method_definition") || t.kind_is(d, "public_field_definition")
                    || t.kind_is(d, "property_signature") || t.kind_is(
                    d,
                    "abstract_method_signature",
                ) || t.kind_is(d, "method_signature") {
                    let o = extract_method_symbol(t, d);
                    push_symbol(symbols, o);
                }
                assert(symbol_views(symbols@) + ts_members_of(t@, w.skip(m + 1)) =~= before
                    + ts_members_of(t@, w.skip(m as int)));
                m = m + 1;
            }
            assert(w.skip(m as int) =~= Seq::<int>::empty());
        }
        assert(symbol_views(symbols@) + ts_class_members(t@, v.skip(k + 1)) =~= mid
            + ts_class_members(t@, v.skip(k as int)));
        k = k + 1;
    }
    assert(v.skip(k as int) =~= Seq::<int>::empty());
}

fn nth_child_of(t: &SyntaxTree, c: usize, k: usize) -> (r: Option<usize>)
    requires
        t.wf(),
        c < t@.nodes.len(),
    ensures
        crate::syntax::opt_index_view(r) == nth_child(t@, c as int, k as int),
        r matches Some(x) ==> x < t@.nodes.len(),
{
    let cs = t.children(c);
    if k < cs.len() {
        Some(cs[k])
    } else {
        None
    }
}

fn extract_variable_declarations(t: &SyntaxTree, i: usize, symbols: &mut Vec<Symbol>)
    requires
        t.wf(),
        i < t@.nodes.len(),
    ensures
        symbol_views(final(symbols)@) == symbol_views(old(symbols)@) + ts_var_symbols(
            t@,
            t@.children(i as int),
        ),
{
    let cs = t.children(i);
    let ghost v = index_views(cs@);
    let ghost start = symbol_views(symbols@);
    let mut k: usize = 0;
    assert(v.skip(0) =~= v);
    while k < cs.len()
        invariant
            t.wf(),
            v == index_views(cs@),
            k <= cs@.len(),
            forall|m: int| 0 <= m < cs@.len() ==> #[trigger] cs@[m] < t@.nodes.len(),
            symbol_views(symbols@) + ts_var_symbols(t@, v.skip(k as int)) == start + ts_var_symbols(
                t@,
                v,
            ),
        decreases cs.len() - k,
    {
        let c = cs[k];
        assert(v.skip(k as int)[0] == c as int);
        assert(v.skip(k as int).drop_first() =~= v.skip(k + 1));
        let ghost before = symbol_views(symbols@);
        if t.kind_is(c, "variable_declarator") {
            let n = nth_child_of(t, c, 0);
            let val = nth_child_of(t, c, 2);
            let o: Option<Symbol> = match (n, val) {
                (Some(n), Some(val)) => if t.kind_is(val, "arrow_function") {
                    match t.text(n) {
                        Some(name) => {
                            let mut sig = "const ".to_owned();
                            sig.append(name.as_str());
                            sig.append(" = () => ...");
                            let (sl, el, sc, ec) = t.span(c);
                            Some(
                                Symbol {
                                    name,
                                    kind: SymbolKind::Function,
                                    start_line: sl,
                                    end_line: el,
                                    start_col: sc,
                                    end_col: ec,
                                    signature: Some(sig),
                                    documentation: None,
                                },
                            )
                        },
                        None => None,
                    }
                } else {
                    None
                },
                _ => None,
            };
            assert(opt_symbol_view(o) == ts_arrow_symbol(t@, c as int));
            push_symbol(symbols, o);
        }
        assert(symbol_views(symbols@) + ts_var_symbols(t@, v.skip(k + 1)) =~= before
            + ts_var_symbols(t@, v.skip(k as int)));
        k = k + 1;
    }
    assert(v.skip(k as int) =~= Seq::<int>::empty());
}

fn is_handled(t: &SyntaxTree, i: usize) -> (b: bool)
    requires
        i < t@.nodes.len(),
    ensures
        b == is_ts_handled(t@.kind(i as int)),
{
    t.kind_is(i, "function_declaration") || t.kind_is(i, "generator_function_declaration")
        || t.kind_is(i, "class_declaration") || t.kind_is(i, "interface_declaration") || t.kind_is(
        i,
        "type_alias_declaration",
    ) || t.kind_is(i, "enum_declaration") || t.kind_is(i, "lexical_declaration") || t.kind_is(
        i,
        "variable_declaration",
    ) || t.kind_is(i, "export_statement") || t.kind_is(i, "ambient_declaration") || t.kind_is(
        i,
        "abstract_class_declaration",
    )
}

/// Appends the symbols of the nodes from `i` up to `stop`.
fn scan(t: &SyntaxTree, i: usize, stop: usize, symbols: &mut Vec<Symbol>)
    requires
        t.wf(),
        i <= t@.nodes.len(),
    ensures
        symbol_views(final(symbols)@) == symbol_views(old(symbols)@) + ts_scan(
            t@,
            i as int,
            stop as int,
        ),
    decreases t@.nodes.len() - i, 2int, 0int,
{
    let n = t.len();
    let ghost start = symbol_views(symbols@);
    let mut j = i;
    while j < n && j < stop
        invariant
            t.wf(),
            n == t@.nodes.len(),
            i <= j <= n,
            symbol_views(symbols@) + ts_scan(t@, j as int, stop as int) == start + ts_scan(
                t@,
                i as int,
                stop as int,
            ),
        decreases n - j,
    {
        let ghost before = symbol_views(symbols@);
        if is_handled(t, j) {
            proof {
                t@.lemma_end(j as int);
            }
            handle(t, j, symbols);
            let e = t.end_of(j);
            assert(symbol_views(symbols@) + ts_scan(t@, e as int, stop as int) =~= before + ts_scan(
                t@,
                j as int,
                stop as int,
            ));
            j = e;
        } else {
            j = j + 1;
        }
    }
    assert(ts_scan(t@, j as int, stop as int) =~= Seq::<SymbolView>::empty());
    assert(symbol_views(symbols@) =~= symbol_views(symbols@) + ts_scan(t@, j as int, stop as int));
}

/// Appends the symbols of handled node `i`.
fn handle(t: &SyntaxTree, i: usize, symbols: &mut Vec<Symbol>)
    requires
        t.wf(),
        i < t@.nodes.len(),
    ensures
        symbol_views(final(symbols)@) == symbol_views(old(symbols)@) + ts_handle(t@, i as int),
    decreases t@.nodes.len() - i, 1int, 0int,
{
    let ghost start = symbol_views(symbols@);
    if t.kind_is(i, "function_declaration") || t.kind_is(i, "generator_function_declaration") {
        let o = extract_named_symbol(t, i, SymbolKind::Function, "function");
        push_symbol(symbols, o);
    } else if t.kind_is(i, "class_declaration") || t.kind_is(i, "abstract_class_declaration") {
        let o = extract_class(t, i);
        push_symbol(symbols, o);
        extract_methods(t, i, symbols);
        assert(symbol_views(symbols@) =~= start + ts_handle(t@, i as int));
    } else if t.kind_is(i, "interface_declaration") {
        let o = extract_named_symbol(t, i, SymbolKind::Interface, "interface");
        push_symbol(symbols, o);
    } else if t.kind_is(i, "type_alias_declaration") {
        let o = extract_named_symbol(t, i, SymbolKind::TypeAlias, "type");
        push_symbol(symbols, o);
    } else if t.kind_is(i, "enum_declaration") {
        let o = extract_named_symbol(t, i, SymbolKind::Enum, "enum");
        push_symbol(symbols, o);
    } else if t.kind_is(i, "lexical_declaration") || t.kind_is(i, "variable_declaration") {
        extract_variable_declarations(t, i, symbols);
    } else if t.kind_is(i, "export_statement") {
        let cs = t.children(i);
        children_list(t, i, &cs, false, symbols);
    } else if t.kind_is(i, "ambient_declaration") {
        let cs = t.children(i);
        children_list(t, i, &cs, true, symbols);
    }
}

/// Appends the symbols of the children `cs` of node `lo` that an export
/// (`ambient` false) or an ambient declaration (`ambient` true) extracts.
fn children_list(t: &SyntaxTree, lo: usize, cs: &Vec<usize>, ambient: bool, symbols: &mut Vec<Symbol>)
    requires
        t.wf(),
        lo < t@.nodes.len(),
        index_views(cs@) == t@.children(lo as int),
    ensures
        symbol_views(final(symbols)@) == symbol_views(old(symbols)@) + if ambient {
            ts_ambient_list(t@, lo as int, index_views(cs@))
        } else {
            ts_export_list(t@, lo as int, index_views(cs@))
        },
    decreases t@.nodes.len() - lo, 0int, cs@.len(),
{
    let ghost v = index_views(cs@);
    let ghost start = symbol_views(symbols@);
    proof {
        t@.lemma_children_bounds(lo as int);
    }
    let mut k: usize = 0;
    assert(v.skip(0) =~= v);
    while k < cs.len()
        invariant
            t.wf(),
            lo < t@.nodes.len(),
            v == index_views(cs@),
            v == t@.children(lo as int),
            forall|m: int| 0 <= m < v.len() ==> lo < #[trigger] v[m] < t@.nodes.len(),
            k <= cs@.len(),
            symbol_views(symbols@) + (if ambient {
                ts_ambient_list(t@, lo as int, v.skip(k as int))
            } else {
                ts_export_list(t@, lo as int, v.skip(k as int))
            }) == start + (if ambient {
                ts_ambient_list(t@, lo as int, v)
            } else {
                ts_export_list(t@, lo as int, v)
            }),
        decreases cs.len() - k,
    {
        let c = cs[k];
        assert(v[k as int] == c as int);
        assert(v.skip(k as int)[0] == c as int);
        assert(v.skip(k as int).drop_first() =~= v.skip(k + 1));
        let ghost before = symbol_views(symbols@);
        if ambient {
            if t.kind_is(c, "module") {
                proof {
                    t@.lemma_end(c as int);
                }
                let e = t.end_of(c);
                scan(t, c + 1, e, symbols);
            } else if t.kind_is(c, "function_declaration") || t.kind_is(c, "class_declaration")
                || t.kind_is(c, "interface_declaration") || t.kind_is(c, "type_alias_declaration")
                || t.kind_is(c, "enum_declaration") {
                handle(t, c, symbols);
            }
            assert(symbol_views(symbols@) + ts_ambient_list(t@, lo as int, v.skip(k + 1)) =~= before
                + ts_ambient_list(t@, lo as int, v.skip(k as int)));
        } else {
            if t.kind_is(c, "function_declaration") || t.kind_is(c, "generator_function_declaration")
                || t.kind_is(c, "class_declaration") || t.kind_is(c, "interface_declaration")
                || t.kind_is(c, "type_alias_declaration") || t.kind_is(c, "enum_declaration")
                || t.kind_is(c, "lexical_declaration") || t.kind_is(c, "variable_declaration") {
                handle(t, c, symbols);
            }
            assert(symbol_views(symbols@) + ts_export_list(t@, lo as int, v.skip(k + 1)) =~= before
                + ts_export_list(t@, lo as int, v.skip(k as int)));
        }
        k = k + 1;
    }
    assert(v.skip(k as int) =~= Seq::<int>::empty());
}

fn extract_ts_import(t: &SyntaxTree, i: usize) -> (r: Import)
    requires
        t.wf(),
        i < t@.nodes.len(),
    ensures
        r@ == ts_import(t@, i as int),
{
    let (line, _, _, _) = t.span(i);
    let raw = t.text_or_empty(i);
    let cs = t.children(i);
    let ghost v = index_views(cs@);
    let mut from: Option<String> = None;
    let mut names: Vec<String> = Vec::new();
    let quotes = ['\'', '"', '`'];
    assert(quotes@ =~= seq!['\'', '"', '`']);
    let mut k: usize = 0;
    while k < cs.len()
        invariant
            t.wf(),
            v == index_views(cs@),
            v == t@.children(i as int),
            quotes@ == seq!['\'', '"', '`'],
            k <= cs@.len(),
            forall|m: int| 0 <= m < cs@.len() ==> #[trigger] cs@[m] < t@.nodes.len(),
            (opt_string_view(from), string_views(names@)) == ts_import_state(t@, v, k as int),
        decreases cs.len() - k,
    {
        let c = cs[k];
        assert(v[k as int] == c as int);
        let ghost before = string_views(names@);
        if t.kind_is(c, "string") || t.kind_is(c, "template_string") {
            let tx = t.text_or_empty(c);
            let tc = string_chars(&tx);
            let tr = trim_set_chars(tc.as_slice(), &quotes);
            from = Some(chars_to_string(tr.as_slice()));
        } else if t.kind_is(c, "named_imports") {
            let ds = t.children(c);
            let ghost w = index_views(ds@);
            let mut m: usize = 0;
            assert(w.skip(0) =~= w);
            while m < ds.len()
                invariant
                    t.wf(),
                    w == index_views(ds@),
                    m <= ds@.len(),
                    forall|q: int| 0 <= q < ds@.len() ==> #[trigger] ds@[q] < t@.nodes.len(),
                    string_views(names@) + js_import_names(t@, w.skip(m as int)) == before
                        + js_import_names(t@, w),
                decreases ds.len() - m,
            {
                let d = ds[m];
                assert(w.skip(m as int)[0] == d as int);
                assert(w.skip(m as int).drop_first() =~= w.skip(m + 1));
                let ghost b2 = string_views(names@);
                if t.kind_is(d, "import_specifier") {
                    match t.field_child(d, "name") {
                        Some(n) => match t.text(n) {
                            Some(s) => {
                                names.push(s);
                            },
                            None => {},
                        },
                        None => {},
                    }
                }
                assert(string_views(names@) + js_import_names(t@, w.skip(m + 1)) =~= b2
                    + js_import_names(t@, w.skip(m as int)));
                m = m + 1;
            }
            assert(w.skip(m as int) =~= Seq::<int>::empty());
            assert(string_views(names@) =~= before + js_import_names(t@, w));
        } else if t.kind_is(c, "identifier") {
            match t.text(c) {
                Some(s) => {
                    names.push(s);
                    assert(string_views(names@) =~= before + opt_seq(t@.text(c as int)));
                },
                None => {
                    assert(string_views(names@) =~= before + opt_seq(t@.text(c as int)));
                },
            }
        } else if t.kind_is(c, "namespace_import") {
            match t.field_child(c, "name") {
                Some(n) => match t.text(n) {
                    Some(x) => {
                        let mut s = "* as ".to_owned();
                        s.append(x.as_str());
                        names.push(s);
                        assert(string_views(names@) =~= before + seq!["* as "@ + x@]);
                    },
                    None => {
                        assert(string_views(names@) =~= before + Seq::<Seq<char>>::empty());
                    },
                },
                None => {
                    assert(string_views(names@) =~= before + Seq::<Seq<char>>::empty());
                },
            }
        }
        k = k + 1;
    }
    let symbol = if names.len() == 0 {
        match &from {
            Some(m) => m.clone(),
            None => String::new(),
        }
    } else {
        join_strings(&names, ", ")
    };
    Import {
        imported_symbol: symbol,
        imported_from_path: from,
        import_type: ImportType::Import,
        start_line: Some(line),
        raw_statement: Some(raw),
    }
}

fn first_string_argument(t: &SyntaxTree, a: usize) -> (r: Option<String>)
    requires
        t.wf(),
        a < t@.nodes.len(),
    ensures
        opt_string_view(r) == first_string_arg(t@, t@.children(a as int)),
{
    let cs = t.children(a);
    let ghost v = index_views(cs@);
    let quotes = ['\'', '"'];
    assert(quotes@ =~= seq!['\'', '"']);
    let mut k: usize = 0;
    assert(v.skip(0) =~= v);
    while k < cs.len()
        invariant
            t.wf(),
            v == index_views(cs@),
            v == t@.children(a as int),
            quotes@ == seq!['\'', '"'],
            k <= cs@.len(),
            forall|m: int| 0 <= m < cs@.len() ==> #[trigger] cs@[m] < t@.nodes.len(),
            first_string_arg(t@, v) == first_string_arg(t@, v.skip(k as int)),
        decreases cs.len() - k,
    {
        let c = cs[k];
        assert(v.skip(k as int)[0] == c as int);
        assert(v.skip(k as int).drop_first() =~= v.skip(k + 1));
        if t.kind_is(c, "string") {
            match t.text(c) {
                Some(s) => {
                    let sc = string_chars(&s);
                    let tr = trim_set_chars(sc.as_slice(), &quotes);
                    return Some(chars_to_string(tr.as_slice()));
                },
                None => {},
            }
        }
        k = k + 1;
    }
    assert(v.skip(k as int) =~= Seq::<int>::empty());
    None
}

fn extract_require(t: &SyntaxTree, i: usize, imports: &mut Vec<Import>)
    requires
        t.wf(),
        i < t@.nodes.len(),
    ensures
        import_views(final(imports)@) == import_views(old(imports)@) + js_require(t@, i as int),
{
    let ghost start = import_views(imports@);
    let f = match t.field_child(i, "function") {
        Some(f) => f,
        None => {
            assert(import_views(imports@) =~= start + js_require(t@, i as int));
            return ;
        },
    };
    let is_require = match t.text(f) {
        Some(name) => crate::text::str_eq(name.as_str(), "require"),
        None => false,
    };
    if !is_require {
        assert(import_views(imports@) =~= start + js_require(t@, i as int));
        return ;
    }
    let (line, _, _, _) = t.span(i);
    let raw = t.text_or_empty(i);
    let from = match t.field_child(i, "arguments") {
        Some(a) => first_string_argument(t, a),
        None => None,
    };
    let symbol = match &from {
        Some(m) => m.clone(),
        None => String::new(),
    };
    imports.push(
        Import {
            imported_symbol: symbol,
            imported_from_path: from,
            import_type: ImportType::Require,
            start_line: Some(line),
            raw_statement: Some(raw),
        },
    );
    assert(import_views(imports@) =~= start + js_require(t@, i as int));
}

fn extract_ts_imports(t: &SyntaxTree, imports: &mut Vec<Import>)
    requires
        t.wf(),
    ensures
        import_views(final(imports)@) == import_views(old(imports)@) + ts_imports_from(t@, 0),
{
    let n = t.len();
    let mut i: usize = 0;
    while i < n
        invariant
            t.wf(),
            n == t@.nodes.len(),
            i <= n,
            import_views(imports@) + ts_imports_from(t@, i as int) == import_views(old(imports)@)
                + ts_imports_from(t@, 0),
        decreases n - i,
    {
        let ghost before = import_views(imports@);
        if t.kind_is(i, "import_statement") {
            let im = extract_ts_import(t, i);
            imports.push(im);
            assert(import_views(imports@) =~= before + seq![ts_import(t@, i as int)]);
            i = t.end_of(i);
        } else if t.kind_is(i, "call_expression") {
            extract_require(t, i, imports);
            i = i + 1;
        } else {
            i = i + 1;
        }
    }
}

/// The symbols and imports of the TypeScript syntax tree `t`.
pub fn ts_parse_tree(t: &SyntaxTree) -> (r: ParseResult)
    requires
        t.wf(),
    ensures
        r@ == (ParseResultView {
            symbols: ts_scan(t@, 0, t@.nodes.len() as int),
            imports: ts_imports_from(t@, 0),
        }),
{
    let mut symbols: Vec<Symbol> = Vec::new();
    let mut imports: Vec<Import> = Vec::new();
    let n = t.len();
    scan(t, 0, n, &mut symbols);
    extract_ts_imports(t, &mut imports);
    assert(symbol_views(symbols@) =~= ts_scan(t@, 0, t@.nodes.len() as int));
    assert(import_views(imports@) =~= ts_imports_from(t@, 0));
    ParseResult { symbols, imports }
}

impl Parser for TsParser {
    open spec fn reads(&self) -> Language {
        Language::TypeScript
    }

    open spec fn parsed(&self, content: Seq<char>) -> ParseResultView {
        ts_parse(content)
    }

    fn language(&self) -> (l: Language) {
        Language::TypeScript
    }

    fn parse(&self, content: &str, path: &str) -> (r: ParseResult) {
        let t = SyntaxTree::build(Language::TypeScript, content);
        ts_parse_tree(&t)
    }
}

} // verus!
