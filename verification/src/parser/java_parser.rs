//! Symbols and imports of Java sources.

use crate::models::{import_views, symbol_views, Import, ImportType, ImportView, Language, Symbol, SymbolKind, SymbolView};
use crate::parser::{doc_body, doc_body_of, opt_seq, opt_symbol_view, push_symbol, ParseResult, ParseResultView, Parser};
use crate::syntax::{index_views, opt_string_view, tree_of, SyntaxTree, TreeView};
use crate::text::{
    after_last, after_last_chars, chars_to_string, contains, contains_chars, join, join_strings, lemma_join_first,
    starts_with, string_chars, string_views, strip_prefixes, strip_prefixes_chars, strip_suffixes,
    strip_suffixes_chars, to_chars,
};
use vstd::prelude::*;

verus! {

/// The Java parser.
pub struct JavaParser;

// ---------------------------------------------------------------------------
// Javadoc
// ---------------------------------------------------------------------------

/// The text of a Javadoc comment: `/**` and `/*` runs removed from its start
/// and `*/` runs from its end, then its text-carrying lines joined by spaces.
pub open spec fn javadoc_text(text: Seq<char>) -> Seq<char> {
    let a = strip_prefixes(text, seq!['/', '*', '*']);
    let b = strip_prefixes(a, seq!['/', '*']);
    doc_body(strip_suffixes(b, seq!['*', '/']))
}

/// The Javadoc comments collected before a node whose first byte is `start`,
/// after looking at the first `n` siblings `cs`: a `/**` block comment adds its
/// cleaned text (when not empty), other block comments and annotations are
/// passed over, anything else clears what was collected; the scan stops at
/// the first sibling that does not start before `start`.
pub open spec fn javadoc_scan(t: TreeView, cs: Seq<int>, n: int, start: nat) -> (Seq<Seq<char>>, bool)
    decreases n,
{
    if n <= 0 || n > cs.len() {
        (Seq::empty(), false)
    } else {
        let st = javadoc_scan(t, cs, n - 1, start);
        let c = cs[n - 1];
        if st.1 {
            st
        } else if t.nodes[c].start >= start {
            (st.0, true)
        } else if t.kind(c) == "marker_annotation"@ || t.kind(c) == "annotation"@ {
            st
        } else if t.kind(c) == "block_comment"@ {
            let tx = t.text_or_empty(c);
            if seq!['/', '*', '*'].is_prefix_of(tx) {
                let cl = javadoc_text(tx);
                (if cl.len() > 0 {
                    st.0.push(cl)
                } else {
                    st.0
                }, false)
            } else {
                st
            }
        } else {
            (Seq::empty(), false)
        }
    }
}

/// The Javadoc of node `i`: the comments right before it among its siblings,
/// joined by spaces.
pub open spec fn javadoc(t: TreeView, i: int) -> Option<Seq<char>> {
    match t.parent(i) {
        None => None,
        Some(p) => {
            let cs = t.children(p);
            let found = javadoc_scan(t, cs, cs.len() as int, t.nodes[i].start).0;
            if found.len() == 0 {
                None
            } else {
                Some(join(found, seq![' ']))
            }
        },
    }
}

// ---------------------------------------------------------------------------
// Declarations
// ---------------------------------------------------------------------------

/// The signature parts after the head of a class: `extends T` for a
/// `superclass` with a readable type, the text of `super_interfaces`.
pub open spec fn class_tail_parts(t: TreeView, cs: Seq<int>) -> Seq<Seq<char>>
    decreases cs.len(),
{
    if cs.len() == 0 {
        Seq::empty()
    } else {
        let c = cs[0];
        (if t.kind(c) == "superclass"@ {
            match t.kind_child(c, "type_identifier"@) {
                Some(ti) => match t.text(ti) {
                    Some(x) => seq!["extends "@ + x],
                    None => Seq::empty(),
                },
                None => Seq::empty(),
            }
        } else if t.kind(c) == "super_interfaces"@ {
            seq![t.text_or_empty(c)]
        } else {
            Seq::empty()
        }) + class_tail_parts(t, cs.drop_first())
    }
}

/// The texts (or the empty text) of the children of kind `k` among `cs`.
pub open spec fn kind_texts(t: TreeView, cs: Seq<int>, k: Seq<char>) -> Seq<Seq<char>>
    decreases cs.len(),
{
    if cs.len() == 0 {
        Seq::empty()
    } else {
        (if t.kind(cs[0]) == k {
            seq![t.text_or_empty(cs[0])]
        } else {
            Seq::empty()
        }) + kind_texts(t, cs.drop_first(), k)
    }
}

/// A type declaration named by its `name` field, signed by `head` and `tail`
/// joined with spaces.
pub open spec fn java_type_symbol(
    t: TreeView,
    i: int,
    kind: SymbolKind,
    keyword: Seq<char>,
    tail: Seq<Seq<char>>,
) -> Option<SymbolView> {
    match t.field_child(i, "name"@) {
        None => None,
        Some(nn) => match t.text(nn) {
            None => None,
            Some(name) => Some(
                SymbolView {
                    name,
                    kind,
                    start_line: t.start_line(i),
                    end_line: t.end_line(i),
                    start_col: t.start_col(i),
                    end_col: t.end_col(i),
                    signature: Some(join(seq![keyword + " "@ + name] + tail, " "@)),
                    documentation: javadoc(t, i),
                },
            ),
        },
    }
}

/// The symbol of a `class_declaration`.
pub open spec fn java_class_symbol(t: TreeView, i: int) -> Option<SymbolView> {
    java_type_symbol(t, i, SymbolKind::Class, "class"@, class_tail_parts(t, t.children(i)))
}

/// The symbol of an `interface_declaration`.
pub open spec fn java_interface_symbol(t: TreeView, i: int) -> Option<SymbolView> {
    java_type_symbol(
        t,
        i,
        SymbolKind::Interface,
        "interface"@,
        kind_texts(t, t.children(i), "extends_interfaces"@),
    )
}

/// The symbol of an `enum_declaration`.
pub open spec fn java_enum_symbol(t: TreeView, i: int) -> Option<SymbolView> {
    java_type_symbol(t, i, SymbolKind::Enum, "enum"@, kind_texts(t, t.children(i), "super_interfaces"@))
}

/// The symbol of an `annotation_type_declaration`.
pub open spec fn java_annotation_symbol(t: TreeView, i: int) -> Option<SymbolView> {
    match t.field_child(i, "name"@) {
        None => None,
        Some(nn) => match t.text(nn) {
            None => None,
            Some(name) => Some(
                SymbolView {
                    name,
                    kind: SymbolKind::Interface,
                    start_line: t.start_line(i),
                    end_line: t.end_line(i),
                    start_col: t.start_col(i),
                    end_col: t.end_col(i),
                    signature: Some("@interface "@ + name),
                    documentation: javadoc(t, i),
                },
            ),
        },
    }
}

/// The readable texts of the `modifiers` children among `cs`.
pub open spec fn modifier_texts(t: TreeView, cs: Seq<int>) -> Seq<Seq<char>>
    decreases cs.len(),
{
    if cs.len() == 0 {
        Seq::empty()
    } else {
        (if t.kind(cs[0]) == "modifiers"@ {
            opt_seq(t.text(cs[0]))
        } else {
            Seq::empty()
        }) + modifier_texts(t, cs.drop_first())
    }
}

/// The return type node of a method: its first `type_identifier`, else
/// `generic_type`, else `array_type`, else `void_type` child.
pub open spec fn return_type_node(t: TreeView, i: int) -> Option<int> {
    match t.kind_child(i, "type_identifier"@) {
        Some(n) => Some(n),
        None => match t.kind_child(i, "generic_type"@) {
            Some(n) => Some(n),
            None => match t.kind_child(i, "array_type"@) {
                Some(n) => Some(n),
                None => t.kind_child(i, "void_type"@),
            },
        },
    }
}

/// The text of a method's parameter list, or `()`.
pub open spec fn params_text(t: TreeView, i: int) -> Seq<char> {
    match t.kind_child(i, "formal_parameters"@) {
        Some(p) => match t.text(p) {
            Some(x) => x,
            None => "()"@,
        },
        None => "()"@,
    }
}

/// The symbol of a method (`with_return`) or constructor, named by its first
/// `identifier` child and signed by its modifiers, return type, name and parameters.
pub open spec fn java_callable_symbol(t: TreeView, i: int, with_return: bool) -> Option<SymbolView> {
    match t.kind_child(i, "identifier"@) {
        None => None,
        Some(nn) => match t.text(nn) {
            None => None,
            Some(name) => {
                let ret = if with_return {
                    match return_type_node(t, i) {
                        Some(r) => opt_seq(t.text(r)),
                        None => Seq::empty(),
                    }
                } else {
                    Seq::empty()
                };
                let parts = modifier_texts(t, t.children(i)) + ret + seq![name, params_text(t, i)];
                Some(
                    SymbolView {
                        name,
                        kind: SymbolKind::Method,
                        start_line: t.start_line(i),
                        end_line: t.end_line(i),
                        start_col: t.start_col(i),
                        end_col: t.end_col(i),
                        signature: Some(join(parts, " "@)),
                        documentation: javadoc(t, i),
                    },
                )
            },
        },
    }
}

/// The text of the last `modifiers` child among `cs` (the empty text when unreadable).
pub open spec fn last_modifiers(t: TreeView, cs: Seq<int>) -> Option<Seq<char>>
    decreases cs.len(),
{
    if cs.len() == 0 {
        None
    } else if t.kind(cs.last()) == "modifiers"@ {
        Some(t.text_or_empty(cs.last()))
    } else {
        last_modifiers(t, cs.drop_last())
    }
}

/// The constant symbol of a field or constant declaration, named by the first
/// child of its first `variable_declarator` and signed by its whole text.
pub open spec fn java_constant_symbol(t: TreeView, i: int) -> Option<SymbolView> {
    match t.kind_child(i, "variable_declarator"@) {
        None => None,
        Some(vd) => match t.first_child(vd) {
            None => None,
            Some(nn) => match t.text(nn) {
                None => None,
                Some(name) => match t.text(i) {
                    None => None,
                    Some(sig) => Some(
                        SymbolView {
                            name,
                            kind: SymbolKind::Constant,
                            start_line: t.start_line(i),
                            end_line: t.end_line(i),
                            start_col: t.start_col(i),
                            end_col: t.end_col(i),
                            signature: Some(sig),
                            documentation: javadoc(t, i),
                        },
                    ),
                },
            },
        },
    }
}

/// The constant symbol of a `field_declaration` whose (last) modifiers say
/// both `static` and `final`.
pub open spec fn java_field_symbol(t: TreeView, i: int) -> Option<SymbolView> {
    match last_modifiers(t, t.children(i)) {
        Some(m) => if contains(m, "static"@) && contains(m, "final"@) {
            java_constant_symbol(t, i)
        } else {
            None
        },
        None => None,
    }
}

/// Kinds of type declarations.
pub open spec fn is_java_decl_kind(k: Seq<char>) -> bool {
    k == "class_declaration"@ || k == "interface_declaration"@ || k == "enum_declaration"@ || k
        == "annotation_type_declaration"@
}

/// The symbols of type declaration `i`: its own and its members'.
pub open spec fn java_decl(t: TreeView, i: int) -> Seq<SymbolView>
    decreases t.nodes.len() - i, 1int, 0int,
{
    if i < 0 || i >= t.nodes.len() {
        Seq::empty()
    } else {
        let k = t.kind(i);
        if k == "class_declaration"@ {
            opt_seq(java_class_symbol(t, i)) + java_bodies(t, i, t.children(i), "class_body"@)
        } else if k == "interface_declaration"@ {
            opt_seq(java_interface_symbol(t, i)) + java_bodies(
                t,
                i,
                t.children(i),
                "interface_body"@,
            )
        } else if k == "enum_declaration"@ {
            opt_seq(java_enum_symbol(t, i)) + java_bodies(t, i, t.children(i), "enum_body"@)
        } else if k == "annotation_type_declaration"@ {
            opt_seq(java_annotation_symbol(t, i)) + java_bodies(
                t,
                i,
                t.children(i),
                "annotation_type_body"@,
            )
        } else {
            Seq::empty()
        }
    }
}

/// The member symbols of the bodies of kind `body` among the children `cs` of node `lo`.
pub open spec fn java_bodies(t: TreeView, lo: int, cs: Seq<int>, body: Seq<char>) -> Seq<SymbolView>
    decreases t.nodes.len() - lo, 0int, cs.len(),
{
    if cs.len() == 0 {
        Seq::empty()
    } else {
        let c = cs[0];
        (if c <= lo || c >= t.nodes.len() {
            Seq::empty()
        } else if t.kind(c) == body {
            java_members(t, c, t.children(c))
        } else {
            Seq::empty()
        }) + java_bodies(t, lo, cs.drop_first(), body)
    }
}

/// The symbols of the members `cs` of body `lo`: methods, constructors,
/// constant fields, constants and nested type declarations; enum body
/// declarations are searched through.
pub open spec fn java_members(t: TreeView, lo: int, cs: Seq<int>) -> Seq<SymbolView>
    decreases t.nodes.len() - lo, 0int, cs.len(),
{
    if cs.len() == 0 {
        Seq::empty()
    } else {
        let c = cs[0];
        let k = t.kind(c);
        (if c <= lo || c >= t.nodes.len() {
            Seq::empty()
        } else if k == "method_declaration"@ {
            opt_seq(java_callable_symbol(t, c, true))
        } else if k == "constructor_declaration"@ {
            opt_seq(java_callable_symbol(t, c, false))
        } else if k == "field_declaration"@ {
            opt_seq(java_field_symbol(t, c))
        } else if k == "constant_declaration"@ {
            opt_seq(java_constant_symbol(t, c))
        } else if is_java_decl_kind(k) {
            java_decl(t, c)
        } else if k == "enum_body_declarations"@ {
            java_members(t, c, t.children(c))
        } else {
            Seq::empty()
        }) + java_members(t, lo, cs.drop_first())
    }
}

/// The symbols of the nodes from preorder position `i` on; a type
/// declaration gives its symbols and its subtree is not searched further.
pub open spec fn java_symbols_from(t: TreeView, i: int) -> Seq<SymbolView>
    decreases t.nodes.len() - i,
{
    if i < 0 || i >= t.nodes.len() {
        Seq::empty()
    } else {
        proof {
            t.lemma_end(i);
        }
        if is_java_decl_kind(t.kind(i)) {
            java_decl(t, i) + java_symbols_from(t, t.end(i))
        } else {
            java_symbols_from(t, i + 1)
        }
    }
}

// ---------------------------------------------------------------------------
// Imports
// ---------------------------------------------------------------------------

/// The (path, wildcard) state after the first `n` children `cs` of an
/// `import_declaration`: a scoped name sets the path, a plain name sets it
/// when none is set, an asterisk marks a wildcard.
pub open spec fn java_import_state(t: TreeView, cs: Seq<int>, n: int) -> (Option<Seq<char>>, bool)
    decreases n,
{
    if n <= 0 || n > cs.len() {
        (None, false)
    } else {
        let st = java_import_state(t, cs, n - 1);
        let c = cs[n - 1];
        let k = t.kind(c);
        if k == "scoped_identifier"@ || k == "scoped_type_identifier"@ {
            (t.text(c), st.1)
        } else if k == "asterisk"@ {
            (st.0, true)
        } else if (k == "identifier"@ || k == "type_identifier"@) && st.0 is None {
            (t.text(c), st.1)
        } else {
            st
        }
    }
}

/// The import of an `import_declaration`: `path.*` for a wildcard, otherwise
/// the last dotted segment of the path.
pub open spec fn java_import(t: TreeView, i: int) -> ImportView {
    let cs = t.children(i);
    let st = java_import_state(t, cs, cs.len() as int);
    let p = match st.0 {
        Some(x) => x,
        None => Seq::empty(),
    };
    ImportView {
        imported_symbol: if st.1 {
            p + ".*"@
        } else {
            match st.0 {
                Some(x) => after_last(x, seq!['.']),
                None => Seq::empty(),
            }
        },
        imported_from_path: st.0,
        import_type: ImportType::Import,
        start_line: Some(t.start_line(i)),
        raw_statement: Some(t.text_or_empty(i)),
    }
}

/// The imports of the nodes from preorder position `i` on.
pub open spec fn java_imports_from(t: TreeView, i: int) -> Seq<ImportView>
    decreases t.nodes.len() - i,
{
    if i < 0 || i >= t.nodes.len() {
        Seq::empty()
    } else {
        proof {
            t.lemma_end(i);
        }
        if t.kind(i) == "import_declaration"@ {
            seq![java_import(t, i)] + java_imports_from(t, t.end(i))
        } else {
            java_imports_from(t, i + 1)
        }
    }
}

/// What parsing Java `content` yields.
pub open spec fn java_parse(content: Seq<char>) -> ParseResultView {
    let t = tree_of(Language::Java, content);
    ParseResultView { symbols: java_symbols_from(t, 0), imports: java_imports_from(t, 0) }
}

// ---------------------------------------------------------------------------
// Laws of the symbol extraction
// ---------------------------------------------------------------------------

/// The syntax tree of Java `content`.
pub open spec fn java_tree(content: Seq<char>) -> TreeView {
    tree_of(Language::Java, content)
}

/// No type declaration before `i` has `i` in its subtree: the scan reaches `i`.
pub open spec fn java_unenclosed(t: TreeView, i: int) -> bool {
    forall|j: int| 0 <= j < i && #[trigger] is_java_decl_kind(t.kind(j)) ==> t.end(j) <= i
}

/// Scanning from `k` passes a node `i` that no type declaration from `k` on
/// encloses: the symbols from `i` on end those from `k` on, after the
/// returned count.
proof fn lemma_java_symbols_reach(t: TreeView, k: int, i: int) -> (m: int)
    requires
        0 <= k <= i < t.nodes.len(),
        forall|j: int| k <= j < i && #[trigger] is_java_decl_kind(t.kind(j)) ==> t.end(j) <= i,
    ensures
        0 <= m <= java_symbols_from(t, k).len(),
        java_symbols_from(t, k).skip(m) == java_symbols_from(t, i),
    decreases i - k,
{
    if k == i {
        assert(java_symbols_from(t, k).skip(0) =~= java_symbols_from(t, k));
        0
    } else if is_java_decl_kind(t.kind(k)) {
        t.lemma_end(k);
        let x = java_decl(t, k);
        let b = java_symbols_from(t, t.end(k));
        assert(java_symbols_from(t, k) == x + b);
        let m1 = lemma_java_symbols_reach(t, t.end(k), i);
        assert((x + b).skip(x.len() + m1) =~= b.skip(m1));
        x.len() + m1
    } else {
        assert(java_symbols_from(t, k) == java_symbols_from(t, k + 1));
        lemma_java_symbols_reach(t, k + 1, i)
    }
}

/// The symbol kind of the class, interface and enum declarations.
pub open spec fn java_type_kind(k: Seq<char>) -> Option<SymbolKind> {
    if k == "class_declaration"@ {
        Some(SymbolKind::Class)
    } else if k == "interface_declaration"@ {
        Some(SymbolKind::Interface)
    } else if k == "enum_declaration"@ {
        Some(SymbolKind::Enum)
    } else {
        None
    }
}

/// The keyword that opens the signature of such a declaration.
pub open spec fn java_type_keyword(k: Seq<char>) -> Seq<char> {
    if k == "class_declaration"@ {
        "class"@
    } else if k == "interface_declaration"@ {
        "interface"@
    } else {
        "enum"@
    }
}

/// Every class, interface or enum declaration with a readable name that no
/// type declaration encloses gives a symbol of the parse: its name, the kind
/// of the declaration, a signature that begins `{keyword} {name}`, and the
/// declaration's lines and columns. The result is its position among the
/// symbols.
pub proof fn lemma_java_type_symbol(content: Seq<char>, i: int, nn: int, name: Seq<char>) -> (k: int)
    requires
        0 <= i < java_tree(content).nodes.len(),
        java_type_kind(java_tree(content).kind(i)) is Some,
        java_tree(content).field_child(i, "name"@) == Some(nn),
        java_tree(content).text(nn) == Some(name),
        java_unenclosed(java_tree(content), i),
    ensures
        0 <= k < java_parse(content).symbols.len(),
        java_parse(content).symbols[k].name == name,
        java_parse(content).symbols[k].kind == java_type_kind(java_tree(content).kind(i))->0,
        java_parse(content).symbols[k].signature is Some,
        (java_type_keyword(java_tree(content).kind(i)) + " "@ + name).is_prefix_of(
            java_parse(content).symbols[k].signature->0,
        ),
        java_parse(content).symbols[k].start_line == java_tree(content).start_line(i),
        java_parse(content).symbols[k].end_line == java_tree(content).end_line(i),
        java_parse(content).symbols[k].start_col == java_tree(content).start_col(i),
        java_parse(content).symbols[k].end_col == java_tree(content).end_col(i),
{
    let t = java_tree(content);
    let kd = t.kind(i);
    reveal_strlit("class_declaration");
    reveal_strlit("interface_declaration");
    reveal_strlit("enum_declaration");
    assert("class_declaration"@[0] == 'c');
    assert("interface_declaration"@[0] == 'i');
    assert("enum_declaration"@[0] == 'e');
    if kd == "interface_declaration"@ || kd == "enum_declaration"@ {
        assert(kd != "class_declaration"@);
    }
    if kd == "enum_declaration"@ {
        assert(kd != "interface_declaration"@);
    }
    assert(is_java_decl_kind(kd));
    let m = lemma_java_symbols_reach(t, 0, i);
    t.lemma_end(i);
    let h = java_decl(t, i);
    assert(java_symbols_from(t, i) == h + java_symbols_from(t, t.end(i)));
    let kw = java_type_keyword(kd);
    let tail = if kd == "class_declaration"@ {
        class_tail_parts(t, t.children(i))
    } else if kd == "interface_declaration"@ {
        kind_texts(t, t.children(i), "extends_interfaces"@)
    } else {
        kind_texts(t, t.children(i), "super_interfaces"@)
    };
    let f = java_type_symbol(t, i, java_type_kind(kd)->0, kw, tail)->0;
    assert(h[0] == f);
    lemma_join_first(seq![kw + " "@ + name] + tail, " "@);
    let all = java_symbols_from(t, 0);
    assert(all.skip(m)[0] == all[m]);
    m
}

// ---------------------------------------------------------------------------
// Extraction
// ---------------------------------------------------------------------------

/// The text of a Javadoc comment.
fn clean_javadoc(text: &String) -> (r: Vec<char>)
    ensures
        r@ == javadoc_text(text@),
{
    let p1 = ['/', '*', '*'];
    let p2 = ['/', '*'];
    let s1 = ['*', '/'];
    assert(p1@ =~= seq!['/', '*', '*']);
    assert(p2@ =~= seq!['/', '*']);
    assert(s1@ =~= seq!['*', '/']);
    let cs = string_chars(text);
    let a = strip_prefixes_chars(cs.as_slice(), &p1);
    let b = strip_prefixes_chars(a.as_slice(), &p2);
    let d = strip_suffixes_chars(b.as_slice(), &s1);
    doc_body_of(d.as_slice())
}

fn extract_javadoc(t: &SyntaxTree, i: usize) -> (r: Option<String>)
    requires
        t.wf(),
        i < t@.nodes.len(),
    ensures
        opt_string_view(r) == javadoc(t@, i as int),
{
    let p = match t.parent(i) {
        Some(p) => p,
        None => {
            return None;
        },
    };
    let my_start = t.nodes[i].start;
    let cs = t.children(p);
    let ghost v = index_views(cs@);
    let mut comments: Vec<Vec<char>> = Vec::new();
    let mut stopped = false;
    let open = ['/', '*', '*'];
    assert(open@ =~= seq!['/', '*', '*']);
    let mut k: usize = 0;
    while k < cs.len()
        invariant
            t.wf(),
            v == index_views(cs@),
            k <= cs@.len(),
            open@ == seq!['/', '*', '*'],
            my_start == t@.nodes[i as int].start,
            forall|m: int| 0 <= m < cs@.len() ==> #[trigger] cs@[m] < t@.nodes.len(),
            (crate::text::views(comments@), stopped) == javadoc_scan(t@, v, k as int, my_start as nat),
        decreases cs.len() - k,
    {
        let c = cs[k];
        assert(v[k as int] == c as int);
        if !stopped {
            if t.nodes[c].start >= my_start {
                stopped = true;
            } else if t.kind_is(c, "marker_annotation") || t.kind_is(c, "annotation") {
            } else if t.kind_is(c, "block_comment") {
                let tx = t.text_or_empty(c);
                let tc = string_chars(&tx);
                if starts_with(tc.as_slice(), &open) {
                    let cl = clean_javadoc(&tx);
                    if cl.len() > 0 {
                        let ghost before = crate::text::views(comments@);
                        comments.push(cl);
                        assert(crate::text::views(comments@) =~= before.push(
                            javadoc_text(t@.text_or_empty(c as int)),
                        ));
                    }
                }
            } else {
                comments = Vec::new();
                assert(crate::text::views(comments@) =~= Seq::<Seq<char>>::empty());
            }
        }
        k = k + 1;
    }
    if comments.len() == 0 {
        return None;
    }
    let sp = [' '];
    assert(sp@ =~= seq![' ']);
    let j = crate::text::join_chars(&comments, &sp);
    Some(chars_to_string(j.as_slice()))
}

/// The signature parts after the head of a class.
fn class_tail(t: &SyntaxTree, i: usize) -> (r: Vec<String>)
    requires
        t.wf(),
        i < t@.nodes.len(),
    ensures
        string_views(r@) == class_tail_parts(t@, t@.children(i as int)),
{
    let cs = t.children(i);
    let ghost v = index_views(cs@);
    let mut parts: Vec<String> = Vec::new();
    let mut k: usize = 0;
    assert(v.skip(0) =~= v);
    while k < cs.len()
        invariant
            t.wf(),
            v == index_views(cs@),
            k <= cs@.len(),
            forall|m: int| 0 <= m < cs@.len() ==> #[trigger] cs@[m] < t@.nodes.len(),
            string_views(parts@) + class_tail_parts(t@, v.skip(k as int)) == class_tail_parts(t@, v),
        decreases cs.len() - k,
    {
        let c = cs[k];
        assert(v.skip(k as int)[0] == c as int);
        assert(v.skip(k as int).drop_first() =~= v.skip(k + 1));
        let ghost before = string_views(parts@);
        if t.kind_is(c, "superclass") {
            match t.kind_child(c, "type_identifier") {
                Some(ti) => match t.text(ti) {
                    Some(x) => {
                        let mut s = "extends ".to_owned();
                        s.append(x.as_str());
                        parts.push(s);
                    },
                    None => {},
                },
                None => {},
            }
        } else if t.kind_is(c, "super_interfaces") {
            parts.push(t.text_or_empty(c));
        }
        assert(string_views(parts@) + class_tail_parts(t@, v.skip(k + 1)) =~= before
            + class_tail_parts(t@, v.skip(k as int)));
        k = k + 1;
    }
    assert(v.skip(k as int) =~= Seq::<int>::empty());
    parts
}

/// The texts of the children of kind `kind`.
fn kind_texts_of(t: &SyntaxTree, i: usize, kind: &str) -> (r: Vec<String>)
    requires
        t.wf(),
        i < t@.nodes.len(),
    ensures
        string_views(r@) == kind_texts(t@, t@.children(i as int), kind@),
{
    let cs = t.children(i);
    let ghost v = index_views(cs@);
    let mut parts: Vec<String> = Vec::new();
    let mut k: usize = 0;
    assert(v.skip(0) =~= v);
    while k < cs.len()
        invariant
            t.wf(),
            v == index_views(cs@),
            k <= cs@.len(),
            forall|m: int| 0 <= m < cs@.len() ==> #[trigger] cs@[m] < t@.nodes.len(),
            string_views(parts@) + kind_texts(t@, v.skip(k as int), kind@) == kind_texts(t@, v, kind@),
        decreases cs.len() - k,
    {
        let c = cs[k];
        assert(v.skip(k as int)[0] == c as int);
        assert(v.skip(k as int).drop_first() =~= v.skip(k + 1));
        let ghost before = string_views(parts@);
        if t.kind_is(c, kind) {
            parts.push(t.text_or_empty(c));
        }
        assert(string_views(parts@) + kind_texts(t@, v.skip(k + 1), kind@) =~= before + kind_texts(
            t@,
            v.skip(k as int),
            kind@,
        ));
        k = k + 1;
    }
    assert(v.skip(k as int) =~= Seq::<int>::empty());
    parts
}

/// A type declaration's symbol, signed by `keyword`, its name and `tail`.
fn extract_type_decl(t: &SyntaxTree, i: usize, kind: SymbolKind, keyword: &str, tail: Vec<String>) -> (r: Option<Symbol>)
    requires
        t.wf(),
        i < t@.nodes.len(),
    ensures
        opt_symbol_view(r) == java_type_symbol(t@, i as int, kind, keyword@, string_views(tail@)),
{
    let name_node = match t.field_child(i, "name") {
        Some(n) => n,
        None => {
            return None;
        },
    };
    let name = match t.text(name_node) {
        Some(s) => s,
        None => {
            return None;
        },
    };
    let mut head = keyword.to_owned();
    head.append(" ");
    head.append(name.as_str());
    let mut parts: Vec<String> = Vec::new();
    parts.push(head);
    let mut k: usize = 0;
    let ghost hv = string_views(parts@);
    assert(hv =~= seq![keyword@ + " "@ + name@]);
    while k < tail.len()
        invariant
            k <= tail@.len(),
            hv.len() == 1,
            string_views(parts@) == hv + string_views(tail@).take(k as int),
        decreases tail.len() - k,
    {
        let ghost before = string_views(parts@);
        parts.push(tail[k].clone());
        assert(string_views(parts@) =~= before.push(tail@[k as int]@));
        assert(string_views(tail@).take(k + 1) =~= string_views(tail@).take(k as int).push(
            tail@[k as int]@,
        ));
        k = k + 1;
    }
    assert(string_views(tail@).take(tail@.len() as int) =~= string_views(tail@));
    assert(string_views(parts@) =~= seq![keyword@ + " "@ + name@] + string_views(tail@));
    let sig = join_strings(&parts, " ");
    let (sl, el, sc, ec) = t.span(i);
    let doc = extract_javadoc(t, i);
    Some(
        Symbol {
            name,
            kind,
            start_line: sl,
            end_line: el,
            start_col: sc,
            end_col: ec,
            signature: Some(sig),
            documentation: doc,
        },
    )
}

fn extract_annotation_type(t: &SyntaxTree, i: usize) -> (r: Option<Symbol>)
    requires
        t.wf(),
        i < t@.nodes.len(),
    ensures
        opt_symbol_view(r) == java_annotation_symbol(t@, i as int),
{
    let name_node = match t.field_child(i, "name") {
        Some(n) => n,
        None => {
            return None;
        },
    };
    let name = match t.text(name_node) {
        Some(s) => s,
        None => {
            return None;
        },
    };
    let mut sig = "@interface ".to_owned();
    sig.append(name.as_str());
    let (sl, el, sc, ec) = t.span(i);
    let doc = extract_javadoc(t, i);
    Some(
        Symbol {
            name,
            kind: SymbolKind::Interface,
            start_line: sl,
            end_line: el,
            start_col: sc,
            end_col: ec,
            signature: Some(sig),
            documentation: doc,
        },
    )
}

/// The readable modifier texts of node `i`.
fn modifiers_of(t: &SyntaxTree, i: usize) -> (r: Vec<String>)
    requires
        t.wf(),
        i < t@.nodes.len(),
    ensures
        string_views(r@) == modifier_texts(t@, t@.children(i as int)),
{
    let cs = t.children(i);
    let ghost v = index_views(cs@);
    let mut parts: Vec<String> = Vec::new();
    let mut k: usize = 0;
    assert(v.skip(0) =~= v);
    while k < cs.len()
        invariant
            t.wf(),
            v == index_views(cs@),
            k <= cs@.len(),
            forall|m: int| 0 <= m < cs@.len() ==> #[trigger] cs@[m] < t@.nodes.len(),
            string_views(parts@) + modifier_texts(t@, v.skip(k as int)) == modifier_texts(t@, v),
        decreases cs.len() - k,
    {
        let c = cs[k];
        assert(v.skip(k as int)[0] == c as int);
        assert(v.skip(k as int).drop_first() =~= v.skip(k + 1));
        let ghost before = string_views(parts@);
        if t.kind_is(c, "modifiers") {
            match t.text(c) {
                Some(x) => {
                    parts.push(x);
                },
                None => {},
            }
        }
        assert(string_views(parts@) + modifier_texts(t@, v.skip(k + 1)) =~= before
            + modifier_texts(t@, v.skip(k as int)));
        k = k + 1;
    }
    assert(v.skip(k as int) =~= Seq::<int>::empty());
    parts
}

fn extract_callable(t: &SyntaxTree, i: usize, with_return: bool) -> (r: Option<Symbol>)
    requires
        t.wf(),
        i < t@.nodes.len(),
    ensures
        opt_symbol_view(r) == java_callable_symbol(t@, i as int, with_return),
{
    let nn = match t.kind_child(i, "identifier") {
        Some(n) => n,
        None => {
            return None;
        },
    };
    let name = match t.text(nn) {
        Some(s) => s,
        None => {
            return None;
        },
    };
    let mut parts = modifiers_of(t, i);
    let ghost mods = string_views(parts@);
    if with_return {
        let rt = match t.kind_child(i, "type_identifier") {
            Some(n) => Some(n),
            None => match t.kind_child(i, "generic_type") {
                Some(n) => Some(n),
                None => match t.kind_child(i, "array_type") {
                    Some(n) => Some(n),
                    None => t.kind_child(i, "void_type"),
                },
            },
        };
        match rt {
            Some(r) => match t.text(r) {
                Some(x) => {
                    parts.push(x);
                },
                None => {},
            },
            None => {},
        }
    }
    let ghost with_ret = string_views(parts@);
    assert(with_ret == mods + (if with_return {
        match return_type_node(t@, i as int) {
            Some(r) => opt_seq(t@.text(r)),
            None => Seq::<Seq<char>>::empty(),
        }
    } else {
        Seq::<Seq<char>>::empty()
    }));
    parts.push(name.clone());
    let params = match t.kind_child(i, "formal_parameters") {
        Some(p) => match t.text(p) {
            Some(x) => x,
            None => "()".to_owned(),
        },
        None => "()".to_owned(),
    };
    parts.push(params);
    assert(string_views(parts@) =~= with_ret + seq![name@, params_text(t@, i as int)]);
    let sig = join_strings(&parts, " ");
    let (sl, el, sc, ec) = t.span(i);
    let doc = extract_javadoc(t, i);
    Some(
        Symbol {
            name,
            kind: SymbolKind::Method,
            start_line: sl,
            end_line: el,
            start_col: sc,
            end_col: ec,
            signature: Some(sig),
            documentation: doc,
        },
    )
}

fn extract_constant(t: &SyntaxTree, i: usize) -> (r: Option<Symbol>)
    requires
        t.wf(),
        i < t@.nodes.len(),
    ensures
        opt_symbol_view(r) == java_constant_symbol(t@, i as int),
{
    let vd = match t.kind_child(i, "variable_declarator") {
        Some(x) => x,
        None => {
            return None;
        },
    };
    let nn = match t.first_child(vd) {
        Some(x) => x,
        None => {
            return None;
        },
    };
    let name = match t.text(nn) {
        Some(s) => s,
        None => {
            return None;
        },
    };
    let sig = match t.text(i) {
        Some(s) => s,
        None => {
            return None;
        },
    };
    let (sl, el, sc, ec) = t.span(i);
    let doc = extract_javadoc(t, i);
    Some(
        Symbol {
            name,
            kind: SymbolKind::Constant,
            start_line: sl,
            end_line: el,
            start_col: sc,
            end_col: ec,
            signature: Some(sig),
            documentation: doc,
        },
    )
}

fn extract_field(t: &SyntaxTree, i: usize) -> (r: Option<Symbol>)
    requires
        t.wf(),
        i < t@.nodes.len(),
    ensures
        opt_symbol_view(r) == java_field_symbol(t@, i as int),
{
    let cs = t.children(i);
    let ghost v = index_views(cs@);
    let mut last: Option<String> = None;
    let mut k: usize = 0;
    while k < cs.len()
        invariant
            t.wf(),
            v == index_views(cs@),
            k <= cs@.len(),
            forall|m: int| 0 <= m < cs@.len() ==> #[trigger] cs@[m] < t@.nodes.len(),
            opt_string_view(last) == last_modifiers(t@, v.take(k as int)),
        decreases cs.len() - k,
    {
        let c = cs[k];
        assert(v.take(k + 1).drop_last() =~= v.take(k as int));
        assert(v.take(k + 1).last() == c as int);
        if t.kind_is(c, "modifiers") {
            last = Some(t.text_or_empty(c));
        }
        k = k + 1;
    }
    assert(v.take(k as int) =~= v);
    match last {
        Some(m) => {
            let mc = string_chars(&m);
            let st = to_chars("static");
            let fi = to_chars("final");
            if contains_chars(mc.as_slice(), st.as_slice()) && contains_chars(
                mc.as_slice(),
                fi.as_slice(),
            ) {
                extract_constant(t, i)
            } else {
                None
            }
        },
        None => None,
    }
}

fn is_decl(t: &SyntaxTree, i: usize) -> (b: bool)
    requires
        i < t@.nodes.len(),
    ensures
        b == is_java_decl_kind(t@.kind(i as int)),
{
    t.kind_is(i, "class_declaration") || t.kind_is(i, "interface_declaration") || t.kind_is(
        i,
        "enum_declaration",
    ) || t.kind_is(i, "annotation_type_declaration")
}

/// Appends the symbols of type declaration `i`.
fn extract_decl(t: &SyntaxTree, i: usize, symbols: &mut Vec<Symbol>)
    requires
        t.wf(),
        i < t@.nodes.len(),
    ensures
        symbol_views(final(symbols)@) == symbol_views(old(symbols)@) + java_decl(t@, i as int),
    decreases t@.nodes.len() - i, 1int, 0int,
{
    let ghost start = symbol_views(symbols@);
    let cs = t.children(i);
    if t.kind_is(i, "class_declaration") {
        let tail = class_tail(t, i);
        let o = extract_type_decl(t, i, SymbolKind::Class, "class", tail);
        push_symbol(symbols, o);
        extract_bodies(t, i, &cs, "class_body", symbols);
    } else if t.kind_is(i, "interface_declaration") {
        let tail = kind_texts_of(t, i, "extends_interfaces");
        let o = extract_type_decl(t, i, SymbolKind::Interface, "interface", tail);
        push_symbol(symbols, o);
        extract_bodies(t, i, &cs, "interface_body", symbols);
    } else if t.kind_is(i, "enum_declaration") {
        let tail = kind_texts_of(t, i, "super_interfaces");
        let o = extract_type_decl(t, i, SymbolKind::Enum, "enum", tail);
        push_symbol(symbols, o);
        extract_bodies(t, i, &cs, "enum_body", symbols);
    } else if t.kind_is(i, "annotation_type_declaration") {
        let o = extract_annotation_type(t, i);
        push_symbol(symbols, o);
        extract_bodies(t, i, &cs, "annotation_type_body", symbols);
    }
    assert(symbol_views(symbols@) =~= start + java_decl(t@, i as int));
}

/// Appends the member symbols of the bodies of kind `body` among the children `cs` of `lo`.
fn extract_bodies(t: &SyntaxTree, lo: usize, cs: &Vec<usize>, body: &str, symbols: &mut Vec<Symbol>)
    requires
        t.wf(),
        lo < t@.nodes.len(),
        index_views(cs@) == t@.children(lo as int),
    ensures
        symbol_views(final(symbols)@) == symbol_views(old(symbols)@) + java_bodies(
            t@,
            lo as int,
            index_views(cs@),
            body@,
        ),
    decreases t@.nodes.len() - lo, 0int, cs@.len(),
{
    let ghost v = index_views(cs@);
    let ghost start = symbol_views(symbols@);
    proof {
        t@.lemma_children_bounds(lo as int);
    }
    let mut k: usize = 0;
    assert(v.skip(0) =~= v);
    while k < cs.len()
        invariant
            t.wf(),
            lo < t@.nodes.len(),
            v == index_views(cs@),
            forall|m: int| 0 <= m < v.len() ==> lo < #[trigger] v[m] < t@.nodes.len(),
            k <= cs@.len(),
            symbol_views(symbols@) + java_bodies(t@, lo as int, v.skip(k as int), body@) == start
                + java_bodies(t@, lo as int, v, body@),
        decreases cs.len() - k,
    {
        let c = cs[k];
        assert(v[k as int] == c as int);
        assert(v.skip(k as int)[0] == c as int);
        assert(v.skip(k as int).drop_first() =~= v.skip(k + 1));
        let ghost before = symbol_views(symbols@);
        if t.kind_is(c, body) {
            let ds = t.children(c);
            extract_members(t, c, &ds, symbols);
        }
        assert(symbol_views(symbols@) + java_bodies(t@, lo as int, v.skip(k + 1), body@) =~= before
            + java_bodies(t@, lo as int, v.skip(k as int), body@));
        k = k + 1;
    }
    assert(v.skip(k as int) =~= Seq::<int>::empty());
}

/// Appends the symbols of the members `cs` of body `lo`.
fn extract_members(t: &SyntaxTree, lo: usize, cs: &Vec<usize>, symbols: &mut Vec<Symbol>)
    requires
        t.wf(),
        lo < t@.nodes.len(),
        index_views(cs@) == t@.children(lo as int),
    ensures
        symbol_views(final(symbols)@) == symbol_views(old(symbols)@) + java_members(
            t@,
            lo as int,
            index_views(cs@),
        ),
    decreases t@.nodes.len() - lo, 0int, cs@.len(),
{
    let ghost v = index_views(cs@);
    let ghost start = symbol_views(symbols@);
    proof {
        t@.lemma_children_bounds(lo as int);
    }
    let mut k: usize = 0;
    assert(v.skip(0) =~= v);
    while k < cs.len()
        invariant
            t.wf(),
            lo < t@.nodes.len(),
            v == index_views(cs@),
            forall|m: int| 0 <= m < v.len() ==> lo < #[trigger] v[m] < t@.nodes.len(),
            k <= cs@.len(),
            symbol_views(symbols@) + java_members(t@, lo as int, v.skip(k as int)) == start
                + java_members(t@, lo as int, v),
        decreases cs.len() - k,
    {
        let c = cs[k];
        assert(v[k as int] == c as int);
        assert(v.skip(k as int)[0] == c as int);
        assert(v.skip(k as int).drop_first() =~= v.skip(k + 1));
        let ghost before = symbol_views(symbols@);
        if t.kind_is(c, "method_declaration") {
            let o = extract_callable(t, c, true);
            push_symbol(symbols, o);
        } else if t.kind_is(c, "constructor_declaration") {
            let o = extract_callable(t, c, false);
            push_symbol(symbols, o);
        } else if t.kind_is(c, "field_declaration") {
            let o = extract_field(t, c);
            push_symbol(symbols, o);
        } else if t.kind_is(c, "constant_declaration") {
            let o = extract_constant(t, c);
            push_symbol(symbols, o);
        } else if is_decl(t, c) {
            extract_decl(t, c, symbols);
        } else if t.kind_is(c, "enum_body_declarations") {
            let ds = t.children(c);
            extract_members(t, c, &ds, symbols);
        }
        assert(symbol_views(symbols@) + java_members(t@, lo as int, v.skip(k + 1)) =~= before
            + java_members(t@, lo as int, v.skip(k as int)));
        k = k + 1;
    }
    assert(v.skip(k as int) =~= Seq::<int>::empty());
}

fn extract_java_symbols(t: &SyntaxTree, symbols: &mut Vec<Symbol>)
    requires
        t.wf(),
    ensures
        symbol_views(final(symbols)@) == symbol_views(old(symbols)@) + java_symbols_from(t@, 0),
{
    let n = t.len();
    let mut i: usize = 0;
    while i < n
        invariant
            t.wf(),
            n == t@.nodes.len(),
            i <= n,
            symbol_views(symbols@) + java_symbols_from(t@, i as int) == symbol_views(old(symbols)@)
                + java_symbols_from(t@, 0),
        decreases n - i,
    {
        let ghost before = symbol_views(symbols@);
        proof {
            t@.lemma_end(i as int);
        }
        if is_decl(t, i) {
            extract_decl(t, i, symbols);
            i = t.end_of(i);
        } else {
            i = i + 1;
        }
    }
}

fn extract_java_import(t: &SyntaxTree, i: usize) -> (r: Import)
    requires
        t.wf(),
        i < t@.nodes.len(),
    ensures
        r@ == java_import(t@, i as int),
{
    let (line, _, _, _) = t.span(i);
    let raw = t.text_or_empty(i);
    let cs = t.children(i);
    let ghost v = index_views(cs@);
    let mut from: Option<String> = None;
    let mut wildcard = false;
    let mut k: usize = 0;
    while k < cs.len()
        invariant
            t.wf(),
            v == index_views(cs@),
            v == t@.children(i as int),
            k <= cs@.len(),
            forall|m: int| 0 <= m < cs@.len() ==> #[trigger] cs@[m] < t@.nodes.len(),
            (opt_string_view(from), wildcard) == java_import_state(t@, v, k as int),
        decreases cs.len() - k,
    {
        let c = cs[k];
        assert(v[k as int] == c as int);
        if t.kind_is(c, "scoped_identifier") || t.kind_is(c, "scoped_type_identifier") {
            from = t.text(c);
        } else if t.kind_is(c, "asterisk") {
            wildcard = true;
        } else if (t.kind_is(c, "identifier") || t.kind_is(c, "type_identifier")) && from.is_none() {
            from = t.text(c);
        }
        k = k + 1;
    }
    let symbol = if wildcard {
        let mut s = match &from {
            Some(p) => p.clone(),
            None => String::new(),
        };
        s.append(".*");
        s
    } else {
        match &from {
            Some(p) => {
                let pc = string_chars(p);
                let dot = ['.'];
                assert(dot@ =~= seq!['.']);
                let last = after_last_chars(pc.as_slice(), &dot);
                chars_to_string(last.as_slice())
            },
            None => String::new(),
        }
    };
    Import {
        imported_symbol: symbol,
        imported_from_path: from,
        import_type: ImportType::Import,
        start_line: Some(line),
        raw_statement: Some(raw),
    }
}

fn extract_java_imports(t: &SyntaxTree, imports: &mut Vec<Import>)
    requires
        t.wf(),
    ensures
        import_views(final(imports)@) == import_views(old(imports)@) + java_imports_from(t@, 0),
{
    let n = t.len();
    let mut i: usize = 0;
    while i < n
        invariant
            t.wf(),
            n == t@.nodes.len(),
            i <= n,
            import_views(imports@) + java_imports_from(t@, i as int) == import_views(old(imports)@)
                + java_imports_from(t@, 0),
        decreases n - i,
    {
        let ghost before = import_views(imports@);
        if t.kind_is(i, "import_declaration") {
            let im = extract_java_import(t, i);
            imports.push(im);
            assert(import_views(imports@) =~= before + seq![java_import(t@, i as int)]);
            i = t.end_of(i);
        } else {
            i = i + 1;
        }
    }
}

/// The symbols and imports of the Java syntax tree `t`.
pub fn java_parse_tree(t: &SyntaxTree) -> (r: ParseResult)
    requires
        t.wf(),
    ensures
        r@ == (ParseResultView { symbols: java_symbols_from(t@, 0), imports: java_imports_from(t@, 0) }),
{
    let mut symbols: Vec<Symbol> = Vec::new();
    let mut imports: Vec<Import> = Vec::new();
    extract_java_symbols(t, &mut symbols);
    extract_java_imports(t, &mut imports);
    assert(symbol_views(symbols@) =~= java_symbols_from(t@, 0));
    assert(import_views(imports@) =~= java_imports_from(t@, 0));
    ParseResult { symbols, imports }
}

impl Parser for JavaParser {
    open spec fn reads(&self) -> Language {
        Language::Java
    }

    open spec fn parsed(&self, content: Seq<char>) -> ParseResultView {
        java_parse(content)
    }

    fn language(&self) -> (l: Language) {
        Language::Java
    }

    fn parse(&self, content: &str, path: &str) -> (r: ParseResult) {
        let t = SyntaxTree::build(Language::Java, content);
        java_parse_tree(&t)
    }
}

} // verus!
