//! Symbols and imports of Rust sources.

use crate::models::{import_views, symbol_views, Import, ImportType, ImportView, Language, Symbol, SymbolKind, SymbolView};
use crate::parser::{opt_import_view, opt_seq, opt_symbol_view, push_import, push_symbol, ParseResult, ParseResultView, Parser};
use crate::syntax::{index_views, opt_string_view, tree_of, SyntaxTree, TreeView};
use crate::text::{
    after_last, after_last_chars, before_first, before_first_chars, chars_eq, chars_to_string,
    copy_range, join, join_chars, rskip_set, rskip_set_chars, skip_set, skip_set_chars,
    starts_with, string_chars, trim, trim_chars, views,
};
use vstd::prelude::*;

verus! {

/// The Rust parser.
pub struct RustParser;

// ---------------------------------------------------------------------------
// What the parser extracts
// ---------------------------------------------------------------------------

/// The text after the first `->` child of `cs` (skipping further arrows).
pub open spec fn rust_return_type_from(t: TreeView, cs: Seq<int>, found: bool) -> Option<Seq<char>>
    decreases cs.len(),
{
    if cs.len() == 0 {
        None
    } else if t.kind(cs[0]) == "->"@ {
        rust_return_type_from(t, cs.drop_first(), true)
    } else if found {
        t.text(cs[0])
    } else {
        rust_return_type_from(t, cs.drop_first(), found)
    }
}

/// The text of a function's return type.
pub open spec fn rust_return_type(t: TreeView, i: int) -> Option<Seq<char>> {
    rust_return_type_from(t, t.children(i), false)
}

/// A line comment is a doc comment when it starts with `///` or `//!`.
pub open spec fn is_doc_line(tx: Seq<char>) -> bool {
    seq!['/', '/', '/'].is_prefix_of(tx) || seq!['/', '/', '!'].is_prefix_of(tx)
}

/// A measure that decreases along previous-sibling steps.
pub open spec fn sibling_measure(s: Option<int>) -> int {
    match s {
        Some(x) => if x >= 0 {
            x + 1
        } else {
            0
        },
        None => 0,
    }
}

/// The doc comments met walking back over named siblings from `s`, nearest
/// first; `None` when a comment's text is not valid UTF-8.
pub open spec fn rust_docs_walk(t: TreeView, s: Option<int>) -> Option<Seq<Seq<char>>>
    decreases sibling_measure(s),
{
    match s {
        None => Some(Seq::empty()),
        Some(x) => if x < 0 || x >= t.nodes.len() || t.kind(x) != "line_comment"@ {
            Some(Seq::empty())
        } else {
            match t.text(x) {
                None => None,
                Some(tx) => if is_doc_line(tx) {
                    proof {
                        t.lemma_prev_named_sibling_lt(x);
                    }
                    match rust_docs_walk(t, t.prev_named_sibling(x)) {
                        None => None,
                        Some(rest) => Some(seq![trim(tx.skip(3))] + rest),
                    }
                } else {
                    Some(Seq::empty())
                },
            }
        },
    }
}

/// The documentation of node `i`: its preceding doc comments in source order, one per line.
pub open spec fn rust_doc(t: TreeView, i: int) -> Option<Seq<char>> {
    match rust_docs_walk(t, t.prev_named_sibling(i)) {
        None => None,
        Some(cs) => if cs.len() == 0 {
            None
        } else {
            Some(join(cs.reverse(), seq!['\n']))
        },
    }
}

/// The symbol of a `function_item`, with the given kind.
pub open spec fn rust_function_symbol(t: TreeView, i: int, kind: SymbolKind) -> Option<SymbolView> {
    match t.field_child(i, "name"@) {
        None => None,
        Some(nn) => match t.text(nn) {
            None => None,
            Some(name) => {
                let params = match t.field_child(i, "parameters"@) {
                    Some(p) => match t.text(p) {
                        Some(x) => x,
                        None => "()"@,
                    },
                    None => "()"@,
                };
                let base = "fn "@ + name + params;
                let sig = match rust_return_type(t, i) {
                    Some(rt) => base + " -> "@ + rt,
                    None => base,
                };
                Some(
                    SymbolView {
                        name,
                        kind,
                        start_line: t.start_line(i),
                        end_line: t.end_line(i),
                        start_col: t.start_col(i),
                        end_col: t.end_col(i),
                        signature: Some(sig),
                        documentation: rust_doc(t, i),
                    },
                )
            },
        },
    }
}

/// The symbol of a `struct_item`, `enum_item` or `trait_item`.
pub open spec fn rust_type_symbol(t: TreeView, i: int, kind: SymbolKind) -> Option<SymbolView> {
    match t.field_child(i, "name"@) {
        None => None,
        Some(nn) => match t.text(nn) {
            None => None,
            Some(name) => Some(
                SymbolView {
                    name,
                    kind,
                    start_line: t.start_line(i),
                    end_line: t.end_line(i),
                    start_col: t.start_col(i),
                    end_col: t.end_col(i),
                    signature: None,
                    documentation: rust_doc(t, i),
                },
            ),
        },
    }
}

/// Node kinds that name the type of an `impl`.
pub open spec fn is_impl_type_kind(k: Seq<char>) -> bool {
    k == "type_identifier"@ || k == "generic_type"@ || k == "scoped_type_identifier"@
}

/// The (type, trait, `for` seen) state after reading the first `n` children `cs` of an `impl_item`.
pub open spec fn rust_impl_state(t: TreeView, cs: Seq<int>, n: int) -> (
    Option<Seq<char>>,
    Option<Seq<char>>,
    bool,
)
    decreases n,
{
    if n <= 0 || n > cs.len() {
        (None, None, false)
    } else {
        let st = rust_impl_state(t, cs, n - 1);
        let c = cs[n - 1];
        let k = t.kind(c);
        if is_impl_type_kind(k) {
            if !st.2 && n - 1 > 0 && n < cs.len() && t.kind(cs[n]) == "for"@ {
                (st.0, t.text(c), true)
            } else {
                (t.text(c), st.1, st.2)
            }
        } else if k == "for"@ {
            (st.0, st.1, true)
        } else {
            st
        }
    }
}

/// The symbol of an `impl_item`, named after its type.
pub open spec fn rust_impl_symbol(t: TreeView, i: int) -> Option<SymbolView> {
    let cs = t.children(i);
    let st = rust_impl_state(t, cs, cs.len() as int);
    match st.0 {
        None => None,
        Some(ty) => Some(
            SymbolView {
                name: ty,
                kind: SymbolKind::Impl,
                start_line: t.start_line(i),
                end_line: t.end_line(i),
                start_col: t.start_col(i),
                end_col: t.end_col(i),
                signature: Some(
                    match st.1 {
                        Some(tr) => "impl "@ + tr + " for "@ + ty,
                        None => "impl "@ + ty,
                    },
                ),
                documentation: None,
            },
        ),
    }
}

/// The symbol of a `const_item` or `mod_item`, named by its first `identifier` child.
pub open spec fn rust_named_item(t: TreeView, i: int, kind: SymbolKind) -> Option<SymbolView> {
    match t.kind_child(i, "identifier"@) {
        None => None,
        Some(c) => match t.text(c) {
            None => None,
            Some(name) => Some(
                SymbolView {
                    name,
                    kind,
                    start_line: t.start_line(i),
                    end_line: t.end_line(i),
                    start_col: t.start_col(i),
                    end_col: t.end_col(i),
                    signature: None,
                    documentation: None,
                },
            ),
        },
    }
}

/// The methods among the `function_item` nodes `ds`.
pub open spec fn rust_methods_of(t: TreeView, ds: Seq<int>) -> Seq<SymbolView>
    decreases ds.len(),
{
    if ds.len() == 0 {
        Seq::empty()
    } else {
        (if t.kind(ds[0]) == "function_item"@ {
            opt_seq(rust_function_symbol(t, ds[0], SymbolKind::Method))
        } else {
            Seq::empty()
        }) + rust_methods_of(t, ds.drop_first())
    }
}

/// The methods in the `declaration_list` nodes among `cs`.
pub open spec fn rust_impl_methods(t: TreeView, cs: Seq<int>) -> Seq<SymbolView>
    decreases cs.len(),
{
    if cs.len() == 0 {
        Seq::empty()
    } else {
        (if t.kind(cs[0]) == "declaration_list"@ {
            rust_methods_of(t, t.children(cs[0]))
        } else {
            Seq::empty()
        }) + rust_impl_methods(t, cs.drop_first())
    }
}

/// The symbols of the nodes from preorder position `i` on: each item node gives
/// its symbol and its subtree is not searched further (an `impl` also gives its
/// methods); other nodes are searched through.
pub open spec fn rust_items_from(t: TreeView, i: int) -> Seq<SymbolView>
    decreases t.nodes.len() - i,
{
    if i < 0 || i >= t.nodes.len() {
        Seq::empty()
    } else {
        proof {
            t.lemma_end(i);
        }
        let k = t.kind(i);
        if k == "function_item"@ {
            opt_seq(rust_function_symbol(t, i, SymbolKind::Function)) + rust_items_from(t, t.end(i))
        } else if k == "struct_item"@ {
            opt_seq(rust_type_symbol(t, i, SymbolKind::Struct)) + rust_items_from(t, t.end(i))
        } else if k == "enum_item"@ {
            opt_seq(rust_type_symbol(t, i, SymbolKind::Enum)) + rust_items_from(t, t.end(i))
        } else if k == "trait_item"@ {
            opt_seq(rust_type_symbol(t, i, SymbolKind::Trait)) + rust_items_from(t, t.end(i))
        } else if k == "impl_item"@ {
            opt_seq(rust_impl_symbol(t, i)) + rust_impl_methods(t, t.children(i)) + rust_items_from(
                t,
                t.end(i),
            )
        } else if k == "const_item"@ {
            opt_seq(rust_named_item(t, i, SymbolKind::Constant)) + rust_items_from(t, t.end(i))
        } else if k == "mod_item"@ {
            opt_seq(rust_named_item(t, i, SymbolKind::Module)) + rust_items_from(t, t.end(i))
        } else {
            rust_items_from(t, i + 1)
        }
    }
}

/// Node kinds whose text makes up the path of a `use` declaration.
pub open spec fn is_use_path_kind(k: Seq<char>) -> bool {
    k == "scoped_identifier"@ || k == "identifier"@ || k == "use_list"@ || k == "scoped_use_list"@
}

/// The texts of the path parts among `cs`.
pub open spec fn rust_use_parts(t: TreeView, cs: Seq<int>) -> Seq<Seq<char>>
    decreases cs.len(),
{
    if cs.len() == 0 {
        Seq::empty()
    } else {
        (if is_use_path_kind(t.kind(cs[0])) {
            opt_seq(t.text(cs[0]))
        } else {
            Seq::empty()
        }) + rust_use_parts(t, cs.drop_first())
    }
}

/// The name a `use` path imports: its last `::` segment, without braces,
/// up to the first comma, trimmed.
pub open spec fn rust_use_name(path: Seq<char>) -> Seq<char> {
    trim(before_first(rskip_set(skip_set(after_last(path, seq![':', ':']), seq!['{']), seq!['}']), seq![',']))
}

/// `cs` without its first element (empty when `cs` is).
pub open spec fn after_first(cs: Seq<int>) -> Seq<int> {
    if cs.len() == 0 {
        cs
    } else {
        cs.skip(1)
    }
}

/// The import of a `use_declaration`.
pub open spec fn rust_use_import(t: TreeView, i: int) -> Option<ImportView> {
    let path = join(rust_use_parts(t, after_first(t.children(i))), Seq::empty());
    if path.len() == 0 {
        None
    } else {
        let name = rust_use_name(path);
        Some(
            ImportView {
                imported_symbol: if name == seq!['*'] || name.len() == 0 {
                    path
                } else {
                    name
                },
                imported_from_path: Some(path),
                import_type: ImportType::Use,
                start_line: Some(t.start_line(i)),
                raw_statement: Some(
                    match t.text(i) {
                        Some(x) => x,
                        None => Seq::empty(),
                    },
                ),
            },
        )
    }
}

/// The imports of the `use_declaration` nodes from preorder position `i` on.
pub open spec fn rust_imports_from(t: TreeView, i: int) -> Seq<ImportView>
    decreases t.nodes.len() - i,
{
    if i < 0 || i >= t.nodes.len() {
        Seq::empty()
    } else {
        proof {
            t.lemma_end(i);
        }
        if t.kind(i) == "use_declaration"@ {
            opt_seq(rust_use_import(t, i)) + rust_imports_from(t, t.end(i))
        } else {
            rust_imports_from(t, i + 1)
        }
    }
}

/// What parsing Rust `content` yields.
pub open spec fn rust_parse(content: Seq<char>) -> ParseResultView {
    let t = tree_of(Language::Rust, content);
    ParseResultView { symbols: rust_items_from(t, 0), imports: rust_imports_from(t, 0) }
}

// ---------------------------------------------------------------------------
// Laws of the symbol extraction
// ---------------------------------------------------------------------------

/// The syntax tree of Rust `content`.
pub open spec fn rust_tree(content: Seq<char>) -> TreeView {
    tree_of(Language::Rust, content)
}

/// Item kinds that give symbols and whose subtrees are not searched further.
pub open spec fn is_rust_item_kind(k: Seq<char>) -> bool {
    k == "function_item"@ || k == "struct_item"@ || k == "enum_item"@ || k == "trait_item"@ || k
        == "impl_item"@ || k == "const_item"@ || k == "mod_item"@
}

/// No item before `i` has `i` in its subtree: the scan of the tree reaches `i`.
pub open spec fn rust_unenclosed(t: TreeView, i: int) -> bool {
    forall|j: int| 0 <= j < i && #[trigger] is_rust_item_kind(t.kind(j)) ==> t.end(j) <= i
}

/// The first characters that tell the item kinds apart.
proof fn lemma_rust_kind_letters()
    ensures
        "function_item"@[0] == 'f',
        "struct_item"@[0] == 's',
        "enum_item"@[0] == 'e',
        "trait_item"@[0] == 't',
        "impl_item"@[0] == 'i',
        "const_item"@[0] == 'c',
        "mod_item"@[0] == 'm',
{
    reveal_strlit("function_item");
    reveal_strlit("struct_item");
    reveal_strlit("enum_item");
    reveal_strlit("trait_item");
    reveal_strlit("impl_item");
    reveal_strlit("const_item");
    reveal_strlit("mod_item");
}

/// The symbols from an item `k` on end with those from the end of its subtree on.
proof fn lemma_rust_item_step(t: TreeView, k: int)
    requires
        0 <= k < t.nodes.len(),
        is_rust_item_kind(t.kind(k)),
    ensures
        rust_items_from(t, t.end(k)).len() <= rust_items_from(t, k).len(),
        rust_items_from(t, k).skip(rust_items_from(t, k).len() - rust_items_from(t, t.end(k)).len())
            == rust_items_from(t, t.end(k)),
{
    t.lemma_end(k);
    let a = rust_items_from(t, k);
    let b = rust_items_from(t, t.end(k));
    let kd = t.kind(k);
    let x = if kd == "function_item"@ {
        opt_seq(rust_function_symbol(t, k, SymbolKind::Function))
    } else if kd == "struct_item"@ {
        opt_seq(rust_type_symbol(t, k, SymbolKind::Struct))
    } else if kd == "enum_item"@ {
        opt_seq(rust_type_symbol(t, k, SymbolKind::Enum))
    } else if kd == "trait_item"@ {
        opt_seq(rust_type_symbol(t, k, SymbolKind::Trait))
    } else if kd == "impl_item"@ {
        opt_seq(rust_impl_symbol(t, k)) + rust_impl_methods(t, t.children(k))
    } else if kd == "const_item"@ {
        opt_seq(rust_named_item(t, k, SymbolKind::Constant))
    } else {
        opt_seq(rust_named_item(t, k, SymbolKind::Module))
    };
    assert(a == x + b);
    assert(a.skip(x.len() as int) =~= b);
}

/// Scanning from `k` passes an item `i` that no item from `k` on encloses:
/// the symbols from `i` on end those from `k` on, after the returned count.
proof fn lemma_rust_items_reach(t: TreeView, k: int, i: int) -> (m: int)
    requires
        0 <= k <= i < t.nodes.len(),
        forall|j: int| k <= j < i && #[trigger] is_rust_item_kind(t.kind(j)) ==> t.end(j) <= i,
    ensures
        0 <= m <= rust_items_from(t, k).len(),
        rust_items_from(t, k).skip(m) == rust_items_from(t, i),
    decreases i - k,
{
    if k == i {
        assert(rust_items_from(t, k).skip(0) =~= rust_items_from(t, k));
        0
    } else if is_rust_item_kind(t.kind(k)) {
        t.lemma_end(k);
        lemma_rust_item_step(t, k);
        let a = rust_items_from(t, k);
        let b = rust_items_from(t, t.end(k));
        let m1 = lemma_rust_items_reach(t, t.end(k), i);
        let d = a.len() - b.len();
        assert(a.skip(d + m1) =~= b.skip(m1));
        d + m1
    } else {
        assert(rust_items_from(t, k) == rust_items_from(t, k + 1));
        lemma_rust_items_reach(t, k + 1, i)
    }
}

/// Every function item with a readable name that no item encloses (one at the
/// top of the file, or in a block that the extraction searches) gives a
/// symbol of the parse: its name, kind `Function`, a signature that begins
/// `fn {name}`, and the item's lines and columns. The result is its position
/// among the symbols.
pub proof fn lemma_rust_function_symbol(content: Seq<char>, i: int, nn: int, name: Seq<char>) -> (k: int)
    requires
        0 <= i < rust_tree(content).nodes.len(),
        rust_tree(content).kind(i) == "function_item"@,
        rust_tree(content).field_child(i, "name"@) == Some(nn),
        rust_tree(content).text(nn) == Some(name),
        rust_unenclosed(rust_tree(content), i),
    ensures
        0 <= k < rust_parse(content).symbols.len(),
        rust_parse(content).symbols[k].name == name,
        rust_parse(content).symbols[k].kind == SymbolKind::Function,
        rust_parse(content).symbols[k].signature is Some,
        ("fn "@ + name).is_prefix_of(rust_parse(content).symbols[k].signature->0),
        rust_parse(content).symbols[k].start_line == rust_tree(content).start_line(i),
        rust_parse(content).symbols[k].end_line == rust_tree(content).end_line(i),
        rust_parse(content).symbols[k].start_col == rust_tree(content).start_col(i),
        rust_parse(content).symbols[k].end_col == rust_tree(content).end_col(i),
{
    let t = rust_tree(content);
    let m = lemma_rust_items_reach(t, 0, i);
    t.lemma_end(i);
    let f = rust_function_symbol(t, i, SymbolKind::Function)->0;
    assert(rust_items_from(t, i) == seq![f] + rust_items_from(t, t.end(i)));
    let sig = f.signature->0;
    let rest = sig.skip(("fn "@ + name).len() as int);
    assert(sig =~= ("fn "@ + name) + rest);
    assert(sig.subrange(0, ("fn "@ + name).len() as int) =~= "fn "@ + name);
    let all = rust_items_from(t, 0);
    assert(all.skip(m)[0] == all[m]);
    m
}

/// The symbol kind of the struct, enum and trait items.
pub open spec fn rust_type_kind(k: Seq<char>) -> Option<SymbolKind> {
    if k == "struct_item"@ {
        Some(SymbolKind::Struct)
    } else if k == "enum_item"@ {
        Some(SymbolKind::Enum)
    } else if k == "trait_item"@ {
        Some(SymbolKind::Trait)
    } else {
        None
    }
}

/// Every struct, enum or trait item with a readable name that no item
/// encloses gives a symbol of the parse: its name, the kind of the item, and
/// the item's lines and columns. The result is its position among the
/// symbols.
pub proof fn lemma_rust_type_symbol(content: Seq<char>, i: int, nn: int, name: Seq<char>) -> (k: int)
    requires
        0 <= i < rust_tree(content).nodes.len(),
        rust_type_kind(rust_tree(content).kind(i)) is Some,
        rust_tree(content).field_child(i, "name"@) == Some(nn),
        rust_tree(content).text(nn) == Some(name),
        rust_unenclosed(rust_tree(content), i),
    ensures
        0 <= k < rust_parse(content).symbols.len(),
        rust_parse(content).symbols[k].name == name,
        rust_parse(content).symbols[k].kind == rust_type_kind(rust_tree(content).kind(i))->0,
        rust_parse(content).symbols[k].start_line == rust_tree(content).start_line(i),
        rust_parse(content).symbols[k].end_line == rust_tree(content).end_line(i),
        rust_parse(content).symbols[k].start_col == rust_tree(content).start_col(i),
        rust_parse(content).symbols[k].end_col == rust_tree(content).end_col(i),
{
    let t = rust_tree(content);
    let m = lemma_rust_items_reach(t, 0, i);
    t.lemma_end(i);
    lemma_rust_kind_letters();
    let kd = t.kind(i);
    assert(kd != "function_item"@);
    let f = rust_type_symbol(t, i, rust_type_kind(kd)->0)->0;
    if kd == "enum_item"@ {
        assert(kd != "struct_item"@);
    }
    if kd == "trait_item"@ {
        assert(kd != "struct_item"@ && kd != "enum_item"@);
    }
    assert(rust_items_from(t, i) == seq![f] + rust_items_from(t, t.end(i)));
    let all = rust_items_from(t, 0);
    assert(all.skip(m)[0] == all[m]);
    m
}

// ---------------------------------------------------------------------------
// Extraction
// ---------------------------------------------------------------------------

fn find_return_type(t: &SyntaxTree, i: usize) -> (r: Option<String>)
    requires
        t.wf(),
        i < t@.nodes.len(),
    ensures
        opt_string_view(r) == rust_return_type(t@, i as int),
{
    let cs = t.children(i);
    let ghost v = index_views(cs@);
    let mut found = false;
    let mut k: usize = 0;
    assert(v.skip(0) =~= v);
    while k < cs.len()
        invariant
            t.wf(),
            v == index_views(cs@),
            k <= cs@.len(),
            forall|m: int| 0 <= m < cs@.len() ==> #[trigger] cs@[m] < t@.nodes.len(),
            rust_return_type(t@, i as int) == rust_return_type_from(t@, v.skip(k as int), found),
        decreases cs.len() - k,
    {
        let c = cs[k];
        assert(v.skip(k as int)[0] == c as int);
        assert(v.skip(k as int).drop_first() =~= v.skip(k + 1));
        if t.kind_is(c, "->") {
            found = true;
        } else if found {
            return t.text(c);
        }
        k = k + 1;
    }
    None
}

fn extract_doc_comments(t: &SyntaxTree, i: usize) -> (r: Option<String>)
    requires
        t.wf(),
        i < t@.nodes.len(),
    ensures
        opt_string_view(r) == rust_doc(t@, i as int),
{
    let mut walk: Vec<Vec<char>> = Vec::new();
    let mut sib = t.prev_named_sibling(i);
    let ghost start = crate::syntax::opt_index_view(sib);
    loop
        invariant
            t.wf(),
            start == t@.prev_named_sibling(i as int),
            sib matches Some(x) ==> x < t@.nodes.len(),
            rust_docs_walk(t@, start) == match rust_docs_walk(
                t@,
                crate::syntax::opt_index_view(sib),
            ) {
                None => None,
                Some(rest) => Some(views(walk@) + rest),
            },
        ensures
            rust_docs_walk(t@, start) == Some(views(walk@)),
        decreases sibling_measure(crate::syntax::opt_index_view(sib)),
    {
        assert(views(walk@) + Seq::<Seq<char>>::empty() =~= views(walk@));
        match sib {
            None => {
                break ;
            },
            Some(s) => {
                if !t.kind_is(s, "line_comment") {
                    break ;
                }
                let tx = match t.text(s) {
                    Some(x) => x,
                    None => {
                        assert(rust_docs_walk(t@, Some(s as int)) is None);
                        return None;
                    },
                };
                let cs = string_chars(&tx);
                if starts_with(cs.as_slice(), &['/', '/', '/']) || starts_with(
                    cs.as_slice(),
                    &['/', '/', '!'],
                ) {
                    let rest = copy_range(cs.as_slice(), 3, cs.len());
                    assert(rest@ =~= tx@.skip(3));
                    let cleaned = trim_chars(rest.as_slice());
                    let ghost before = views(walk@);
                    walk.push(cleaned);
                    assert(views(walk@) =~= before.push(trim(tx@.skip(3))));
                    let next = t.prev_named_sibling(s);
                    proof {
                        assert(rust_docs_walk(t@, Some(s as int)) == match rust_docs_walk(
                            t@,
                            crate::syntax::opt_index_view(next),
                        ) {
                            None => None,
                            Some(r2) => Some(seq![trim(tx@.skip(3))] + r2),
                        });
                        let nx = crate::syntax::opt_index_view(next);
                        match rust_docs_walk(t@, nx) {
                            None => {},
                            Some(r2) => {
                                assert(views(walk@) + r2 =~= before + (seq![trim(tx@.skip(3))]
                                    + r2));
                            },
                        }
                    }
                    sib = next;
                } else {
                    break ;
                }
            },
        }
    }
    if walk.len() == 0 {
        return None;
    }
    let mut rev: Vec<Vec<char>> = Vec::new();
    let mut k = walk.len();
    while k > 0
        invariant
            k <= walk@.len(),
            walk@.len() > 0,
            views(rev@) =~= views(walk@).reverse().take((walk@.len() - k) as int),
        decreases k,
    {
        let item = copy_range(walk[k - 1].as_slice(), 0, walk[k - 1].len());
        assert(item@ =~= walk@[k - 1]@);
        let ghost before = views(rev@);
        rev.push(item);
        assert(views(rev@) =~= before.push(views(walk@)[k - 1]));
        assert(views(walk@).reverse().take((walk@.len() - k + 1) as int) =~= views(walk@).reverse().take((walk@.len() - k) as int).push(views(walk@)[k - 1]));
        k = k - 1;
    }
    assert(views(walk@).reverse().take(walk@.len() as int) =~= views(walk@).reverse());
    let nl = ['\n'];
    assert(nl@ =~= seq!['\n']);
    let joined = join_chars(&rev, &nl);
    Some(chars_to_string(joined.as_slice()))
}

fn extract_function(t: &SyntaxTree, i: usize, kind: SymbolKind) -> (r: Option<Symbol>)
    requires
        t.wf(),
        i < t@.nodes.len(),
    ensures
        opt_symbol_view(r) == rust_function_symbol(t@, i as int, kind),
{
    let name_node = match t.field_child(i, "name") {
        Some(n) => n,
        None => {
            return None;
        },
    };
    let name = match t.text(name_node) {
        Some(s) => s,
        None => {
            return None;
        },
    };
    let params = match t.field_child(i, "parameters") {
        Some(p) => match t.text(p) {
            Some(x) => x,
            None => "()".to_owned(),
        },
        None => "()".to_owned(),
    };
    let ret = find_return_type(t, i);
    let mut sig = "fn ".to_owned();
    sig.append(name.as_str());
    sig.append(params.as_str());
    match &ret {
        Some(rt) => {
            sig.append(" -> ");
            sig.append(rt.as_str());
        },
        None => {},
    }
    let (sl, el, sc, ec) = t.span(i);
    let doc = extract_doc_comments(t, i);
    Some(
        Symbol {
            name,
            kind,
            start_line: sl,
            end_line: el,
            start_col: sc,
            end_col: ec,
            signature: Some(sig),
            documentation: doc,
        },
    )
}

fn extract_type_ident(t: &SyntaxTree, i: usize, kind: SymbolKind) -> (r: Option<Symbol>)
    requires
        t.wf(),
        i < t@.nodes.len(),
    ensures
        opt_symbol_view(r) == rust_type_symbol(t@, i as int, kind),
{
    let name_node = match t.field_child(i, "name") {
        Some(n) => n,
        None => {
            return None;
        },
    };
    let name = match t.text(name_node) {
        Some(s) => s,
        None => {
            return None;
        },
    };
    let (sl, el, sc, ec) = t.span(i);
    let doc = extract_doc_comments(t, i);
    Some(
        Symbol {
            name,
            kind,
            start_line: sl,
            end_line: el,
            start_col: sc,
            end_col: ec,
            signature: None,
            documentation: doc,
        },
    )
}

fn is_impl_type(t: &SyntaxTree, c: usize) -> (b: bool)
    requires
        c < t@.nodes.len(),
    ensures
        b == is_impl_type_kind(t@.kind(c as int)),
{
    t.kind_is(c, "type_identifier") || t.kind_is(c, "generic_type") || t.kind_is(
        c,
        "scoped_type_identifier",
    )
}

fn extract_impl(t: &SyntaxTree, i: usize) -> (r: Option<Symbol>)
    requires
        t.wf(),
        i < t@.nodes.len(),
    ensures
        opt_symbol_view(r) == rust_impl_symbol(t@, i as int),
{
    let cs = t.children(i);
    let ghost v = index_views(cs@);
    let mut ty_name: Option<String> = None;
    let mut trait_name: Option<String> = None;
    let mut found_for = false;
    let mut k: usize = 0;
    while k < cs.len()
        invariant
            t.wf(),
            v == index_views(cs@),
            v == t@.children(i as int),
            k <= cs@.len(),
            forall|m: int| 0 <= m < cs@.len() ==> #[trigger] cs@[m] < t@.nodes.len(),
            (opt_string_view(ty_name), opt_string_view(trait_name), found_for)
                == rust_impl_state(t@, v, k as int),
        decreases cs.len() - k,
    {
        let c = cs[k];
        assert(v[k as int] == c as int);
        if is_impl_type(t, c) {
            if !found_for && k > 0 && k + 1 < cs.len() && t.kind_is(cs[k + 1], "for") {
                assert(v[k + 1] == cs@[k + 1] as int);
                trait_name = t.text(c);
                found_for = true;
            } else {
                proof {
                    if !found_for && k > 0 && k + 1 < cs.len() {
                        assert(v[k + 1] == cs@[k + 1] as int);
                    }
                }
                ty_name = t.text(c);
            }
        } else if t.kind_is(c, "for") {
            found_for = true;
        }
        k = k + 1;
    }
    let ty = match ty_name {
        Some(ty) => ty,
        None => {
            return None;
        },
    };
    let mut sig = "impl ".to_owned();
    match &trait_name {
        Some(tr) => {
            sig.append(tr.as_str());
            sig.append(" for ");
            sig.append(ty.as_str());
        },
        None => {
            sig.append(ty.as_str());
        },
    }
    let (sl, el, sc, ec) = t.span(i);
    Some(
        Symbol {
            name: ty,
            kind: SymbolKind::Impl,
            start_line: sl,
            end_line: el,
            start_col: sc,
            end_col: ec,
            signature: Some(sig),
            documentation: None,
        },
    )
}

fn extract_named_item(t: &SyntaxTree, i: usize, kind: SymbolKind) -> (r: Option<Symbol>)
    requires
        t.wf(),
        i < t@.nodes.len(),
    ensures
        opt_symbol_view(r) == rust_named_item(t@, i as int, kind),
{
    let c = match t.kind_child(i, "identifier") {
        Some(c) => c,
        None => {
            return None;
        },
    };
    let name = match t.text(c) {
        Some(s) => s,
        None => {
            return None;
        },
    };
    let (sl, el, sc, ec) = t.span(i);
    Some(
        Symbol {
            name,
            kind,
            start_line: sl,
            end_line: el,
            start_col: sc,
            end_col: ec,
            signature: None,
            documentation: None,
        },
    )
}

fn extract_const(t: &SyntaxTree, i: usize) -> (r: Option<Symbol>)
    requires
        t.wf(),
        i < t@.nodes.len(),
    ensures
        opt_symbol_view(r) == rust_named_item(t@, i as int, SymbolKind::Constant),
{
    extract_named_item(t, i, SymbolKind::Constant)
}

fn extract_mod(t: &SyntaxTree, i: usize) -> (r: Option<Symbol>)
    requires
        t.wf(),
        i < t@.nodes.len(),
    ensures
        opt_symbol_view(r) == rust_named_item(t@, i as int, SymbolKind::Module),
{
    extract_named_item(t, i, SymbolKind::Module)
}

fn extract_impl_methods(t: &SyntaxTree, i: usize, symbols: &mut Vec<Symbol>)
    requires
        t.wf(),
        i < t@.nodes.len(),
    ensures
        symbol_views(final(symbols)@) == symbol_views(old(symbols)@) + rust_impl_methods(
            t@,
            t@.children(i as int),
        ),
{
    let cs = t.children(i);
    let ghost v = index_views(cs@);
    let mut k: usize = 0;
    assert(v.skip(0) =~= v);
    while k < cs.len()
        invariant
            t.wf(),
            v == index_views(cs@),
            v == t@.children(i as int),
            k <= cs@.len(),
            forall|m: int| 0 <= m < cs@.len() ==> #[trigger] cs@[m] < t@.nodes.len(),
            symbol_views(symbols@) + rust_impl_methods(t@, v.skip(k as int)) == symbol_views(
                old(symbols)@,
            ) + rust_impl_methods(t@, v),
        decreases cs.len() - k,
    {
        let c = cs[k];
        assert(v.skip(k as int)[0] == c as int);
        assert(v.skip(k as int).drop_first() =~= v.skip(k + 1));
        let ghost mid = symbol_views(symbols@);
        if t.kind_is(c, "declaration_list") {
            let ds = t.children(c);
            let ghost w = index_views(ds@);
            let mut m: usize = 0;
            assert(w.skip(0) =~= w);
            while m < ds.len()
                invariant
                    t.wf(),
                    w == index_views(ds@),
                    m <= ds@.len(),
                    forall|q: int| 0 <= q < ds@.len() ==> #[trigger] ds@[q] < t@.nodes.len(),
                    symbol_views(symbols@) + rust_methods_of(t@, w.skip(m as int)) == mid
                        + rust_methods_of(t@, w),
                decreases ds.len() - m,
            {
                let d = ds[m];
                assert(w.skip(m as int)[0] == d as int);
                assert(w.skip(m as int).drop_first() =~= w.skip(m + 1));
                let ghost before = symbol_views(symbols@);
                if t.kind_is(d, "function_item") {
                    let o = extract_function(t, d, SymbolKind::Method);
                    push_symbol(symbols, o);
                }
                assert(symbol_views(symbols@) + rust_methods_of(t@, w.skip(m + 1)) =~= before
                    + rust_methods_of(t@, w.skip(m as int)));
                m = m + 1;
            }
            assert(w.skip(m as int) =~= Seq::<int>::empty());
        }
        assert(symbol_views(symbols@) + rust_impl_methods(t@, v.skip(k + 1)) =~= mid
            + rust_impl_methods(t@, v.skip(k as int)));
        k = k + 1;
    }
    assert(v.skip(k as int) =~= Seq::<int>::empty());
}

#[verifier::rlimit(40)]
fn extract_item(t: &SyntaxTree, i: usize, symbols: &mut Vec<Symbol>) -> (next: usize)
    requires
        t.wf(),
        i < t@.nodes.len(),
    ensures
        i < next <= t@.nodes.len(),
        symbol_views(final(symbols)@) + rust_items_from(t@, next as int) == symbol_views(
            old(symbols)@,
        ) + rust_items_from(t@, i as int),
{
    let ghost before = symbol_views(symbols@);
    proof {
        t@.lemma_end(i as int);
    }
    if t.kind_is(i, "function_item") {
        let o = extract_function(t, i, SymbolKind::Function);
        push_symbol(symbols, o);
    } else if t.kind_is(i, "struct_item") {
        let o = extract_type_ident(t, i, SymbolKind::Struct);
        push_symbol(symbols, o);
    } else if t.kind_is(i, "enum_item") {
        let o = extract_type_ident(t, i, SymbolKind::Enum);
        push_symbol(symbols, o);
    } else if t.kind_is(i, "trait_item") {
        let o = extract_type_ident(t, i, SymbolKind::Trait);
        push_symbol(symbols, o);
    } else if t.kind_is(i, "impl_item") {
        let o = extract_impl(t, i);
        push_symbol(symbols, o);
        extract_impl_methods(t, i, symbols);
        assert(symbol_views(symbols@) =~= before + opt_seq(rust_impl_symbol(t@, i as int))
            + rust_impl_methods(t@, t@.children(i as int)));
    } else if t.kind_is(i, "const_item") {
        let o = extract_const(t, i);
        push_symbol(symbols, o);
    } else if t.kind_is(i, "mod_item") {
        let o = extract_mod(t, i);
        push_symbol(symbols, o);
    } else {
        return i + 1;
    }
    t.end_of(i)
}

fn extract_symbols(t: &SyntaxTree, symbols: &mut Vec<Symbol>)
    requires
        t.wf(),
    ensures
        symbol_views(final(symbols)@) == symbol_views(old(symbols)@) + rust_items_from(t@, 0),
{
    let n = t.len();
    let mut i: usize = 0;
    while i < n
        invariant
            t.wf(),
            n == t@.nodes.len(),
            i <= n,
            symbol_views(symbols@) + rust_items_from(t@, i as int) == symbol_views(old(symbols)@)
                + rust_items_from(t@, 0),
        decreases n - i,
    {
        i = extract_item(t, i, symbols);
    }
}

fn use_path_text(t: &SyntaxTree, i: usize) -> (r: Vec<char>)
    requires
        t.wf(),
        i < t@.nodes.len(),
    ensures
        r@ == join(rust_use_parts(t@, after_first(t@.children(i as int))), Seq::empty()),
{
    let cs = t.children(i);
    let ghost v = after_first(index_views(cs@));
    let mut parts: Vec<Vec<char>> = Vec::new();
    let mut k: usize = 1;
    if cs.len() == 0 {
        let r: Vec<char> = Vec::new();
        assert(r@ =~= join(rust_use_parts(t@, v), Seq::empty()));
        return r;
    }
    assert(index_views(cs@).skip(1).skip(0) =~= v);
    while k < cs.len()
        invariant
            t.wf(),
            v == index_views(cs@).skip(1),
            v == after_first(index_views(cs@)),
            1 <= k <= cs@.len(),
            forall|m: int| 0 <= m < cs@.len() ==> #[trigger] cs@[m] < t@.nodes.len(),
            views(parts@) + rust_use_parts(t@, index_views(cs@).skip(k as int)) == rust_use_parts(
                t@,
                v,
            ),
        decreases cs.len() - k,
    {
        let c = cs[k];
        let ghost w = index_views(cs@).skip(k as int);
        assert(w[0] == c as int);
        assert(w.drop_first() =~= index_views(cs@).skip(k + 1));
        let ghost before = views(parts@);
        if t.kind_is(c, "scoped_identifier") || t.kind_is(c, "identifier") || t.kind_is(
            c,
            "use_list",
        ) || t.kind_is(c, "scoped_use_list") {
            match t.text(c) {
                Some(s) => {
                    parts.push(string_chars(&s));
                },
                None => {},
            }
        }
        assert(views(parts@) + rust_use_parts(t@, index_views(cs@).skip(k + 1)) =~= before
            + rust_use_parts(t@, w));
        k = k + 1;
    }
    assert(index_views(cs@).skip(k as int) =~= Seq::<int>::empty());
    assert(views(parts@) =~= rust_use_parts(t@, v));
    let none: [char; 0] = [];
    assert(none@ =~= Seq::<char>::empty());
    join_chars(&parts, &none)
}

fn extract_use(t: &SyntaxTree, i: usize) -> (r: Option<Import>)
    requires
        t.wf(),
        i < t@.nodes.len(),
    ensures
        opt_import_view(r) == rust_use_import(t@, i as int),
{
    let (line, _, _, _) = t.span(i);
    let raw = match t.text(i) {
        Some(x) => x,
        None => String::new(),
    };
    let path = use_path_text(t, i);
    if path.len() == 0 {
        return None;
    }
    let sep = [':', ':'];
    let open_brace = ['{'];
    let close_brace = ['}'];
    let comma = [','];
    let star = ['*'];
    assert(sep@ =~= seq![':', ':']);
    assert(open_brace@ =~= seq!['{']);
    assert(close_brace@ =~= seq!['}']);
    assert(comma@ =~= seq![',']);
    assert(star@ =~= seq!['*']);
    let a = after_last_chars(path.as_slice(), &sep);
    let b = skip_set_chars(a.as_slice(), &open_brace);
    let c = rskip_set_chars(b.as_slice(), &close_brace);
    let d = before_first_chars(c.as_slice(), &comma);
    let name = trim_chars(d.as_slice());
    assert(name@ == rust_use_name(path@));
    let imported = if chars_eq(name.as_slice(), &star) || name.len() == 0 {
        chars_to_string(path.as_slice())
    } else {
        chars_to_string(name.as_slice())
    };
    Some(
        Import {
            imported_symbol: imported,
            imported_from_path: Some(chars_to_string(path.as_slice())),
            import_type: ImportType::Use,
            start_line: Some(line),
            raw_statement: Some(raw),
        },
    )
}

fn extract_imports(t: &SyntaxTree, imports: &mut Vec<Import>)
    requires
        t.wf(),
    ensures
        import_views(final(imports)@) == import_views(old(imports)@) + rust_imports_from(t@, 0),
{
    let n = t.len();
    let mut i: usize = 0;
    while i < n
        invariant
            t.wf(),
            n == t@.nodes.len(),
            i <= n,
            import_views(imports@) + rust_imports_from(t@, i as int) == import_views(
                old(imports)@,
            ) + rust_imports_from(t@, 0),
        decreases n - i,
    {
        if t.kind_is(i, "use_declaration") {
            let o = extract_use(t, i);
            push_import(imports, o);
            i = t.end_of(i);
        } else {
            i = i + 1;
        }
    }
}

/// The symbols and imports of the Rust syntax tree `t`.
pub fn rust_parse_tree(t: &SyntaxTree) -> (r: ParseResult)
    requires
        t.wf(),
    ensures
        r@ == (ParseResultView { symbols: rust_items_from(t@, 0), imports: rust_imports_from(t@, 0) }),
{
    let mut symbols: Vec<Symbol> = Vec::new();
    let mut imports: Vec<Import> = Vec::new();
    extract_symbols(t, &mut symbols);
    extract_imports(t, &mut imports);
    assert(symbol_views(symbols@) =~= rust_items_from(t@, 0));
    assert(import_views(imports@) =~= rust_imports_from(t@, 0));
    ParseResult { symbols, imports }
}

impl Parser for RustParser {
    open spec fn reads(&self) -> Language {
        Language::Rust
    }

    open spec fn parsed(&self, content: Seq<char>) -> ParseResultView {
        rust_parse(content)
    }

    fn language(&self) -> (l: Language) {
        Language::Rust
    }

    fn parse(&self, content: &str, path: &str) -> (r: ParseResult) {
        let t = SyntaxTree::build(Language::Rust, content);
        rust_parse_tree(&t)
    }
}

} // verus!
