//! Nesting the symbols of a file: a symbol whose line range lies within that
//! of an earlier symbol becomes its child.

use crate::mcp_server::models::{doc_symbol_view, doc_symbol_views, DocSymbolView, DocumentSymbolEntry};
use vstd::prelude::*;

verus! {

// ---------------------------------------------------------------------------
// Specifications
// ---------------------------------------------------------------------------

/// The line range of `a` contains that of `b`.
pub open spec fn encloses(a: DocSymbolView, b: DocSymbolView) -> bool {
    a.start_line <= b.start_line && b.end_line <= a.end_line
}

/// Some symbol of `chosen` contains `x`.
pub open spec fn covered(chosen: Seq<DocSymbolView>, x: DocSymbolView) -> bool {
    exists|k: int| 0 <= k < chosen.len() && #[trigger] encloses(chosen[k], x)
}

/// `x` lies within `start..=end` and within none of the symbols chosen so far.
pub open spec fn takes(chosen: Seq<DocSymbolView>, x: DocSymbolView, start: int, end: int) -> bool {
    start <= x.start_line && x.end_line <= end && !covered(chosen, x)
}

/// The symbols of `rest` that become children of a symbol spanning
/// `start..=end`: in order, each one within the range and not within a
/// child chosen before it.
pub open spec fn picked(rest: Seq<DocSymbolView>, start: int, end: int) -> Seq<DocSymbolView>
    decreases rest.len(),
{
    if rest.len() == 0 {
        Seq::empty()
    } else {
        let p = picked(rest.drop_last(), start, end);
        if takes(p, rest.last(), start, end) {
            p.push(rest.last())
        } else {
            p
        }
    }
}

/// The symbols of `rest` that `picked` leaves where they are, in order.
pub open spec fn unpicked(rest: Seq<DocSymbolView>, start: int, end: int) -> Seq<DocSymbolView>
    decreases rest.len(),
{
    if rest.len() == 0 {
        Seq::empty()
    } else {
        let u = unpicked(rest.drop_last(), start, end);
        if takes(picked(rest.drop_last(), start, end), rest.last(), start, end) {
            u
        } else {
            u.push(rest.last())
        }
    }
}

/// The hierarchy of `s`, nested at most `n` levels deep: the rest of the list
/// is nested first; then the first symbol takes as children the symbols of
/// the nested rest that `picked` chooses, themselves nested, and keeps the
/// others after it.
pub open spec fn hierarchy_fuel(s: Seq<DocSymbolView>, n: nat) -> Seq<DocSymbolView>
    decreases n,
{
    if n == 0 || s.len() == 0 {
        s
    } else {
        let rest = hierarchy_fuel(s.drop_first(), (n - 1) as nat);
        let e = s[0];
        let kids = picked(rest, e.start_line, e.end_line);
        let head = if kids.len() == 0 {
            e
        } else {
            DocSymbolView { children: hierarchy_fuel(kids, (n - 1) as nat), ..e }
        };
        seq![head] + unpicked(rest, e.start_line, e.end_line)
    }
}

/// The hierarchy of the symbols `s` of a file.
pub open spec fn hierarchy(s: Seq<DocSymbolView>) -> Seq<DocSymbolView> {
    hierarchy_fuel(s, s.len())
}

/// Every symbol nested in `v`, at any depth, lies within the lines of its parent.
pub open spec fn well_nested(v: DocSymbolView) -> bool
    decreases v,
{
    forall|c: int|
        0 <= c < v.children.len() ==> encloses(v, #[trigger] v.children[c]) && well_nested(
            v.children[c],
        )
}

/// Every symbol of `s` is well nested.
pub open spec fn all_well_nested(s: Seq<DocSymbolView>) -> bool {
    forall|k: int| 0 <= k < s.len() ==> #[trigger] well_nested(s[k])
}

/// Every symbol of `s` lies within the lines `lo..=hi`.
pub open spec fn all_within(s: Seq<DocSymbolView>, lo: int, hi: int) -> bool {
    forall|k: int| 0 <= k < s.len() ==> lo <= #[trigger] s[k].start_line && s[k].end_line <= hi
}

// ---------------------------------------------------------------------------
// Lemmas
// ---------------------------------------------------------------------------

/// The views of a sequence of entries, element by element.
pub proof fn lemma_doc_views(s: Seq<DocumentSymbolEntry>)
    ensures
        doc_symbol_views(s).len() == s.len(),
        forall|k: int| 0 <= k < s.len() ==> #[trigger] doc_symbol_views(s)[k] == doc_symbol_view(s[k]),
    decreases s.len(),
{
    if s.len() > 0 {
        lemma_doc_views(s.subrange(0, s.len() - 1));
    }
}

/// Two sequences of entries with the same views element by element have the same views.
proof fn lemma_doc_views_ext(a: Seq<DocumentSymbolEntry>, b: Seq<DocSymbolView>)
    requires
        a.len() == b.len(),
        forall|k: int| 0 <= k < a.len() ==> doc_symbol_view(a[k]) == b[k],
    ensures
        doc_symbol_views(a) == b,
{
    lemma_doc_views(a);
    assert(doc_symbol_views(a) =~= b);
}

/// `picked` and `unpicked` split `rest` between them.
pub proof fn lemma_pick_len(rest: Seq<DocSymbolView>, start: int, end: int)
    ensures
        picked(rest, start, end).len() + unpicked(rest, start, end).len() == rest.len(),
    decreases rest.len(),
{
    if rest.len() > 0 {
        lemma_pick_len(rest.drop_last(), start, end);
    }
}

/// Nesting never lengthens the list.
pub proof fn lemma_hierarchy_len(s: Seq<DocSymbolView>, n: nat)
    ensures
        hierarchy_fuel(s, n).len() <= s.len(),
    decreases n,
{
    if n > 0 && s.len() > 0 {
        let rest = hierarchy_fuel(s.drop_first(), (n - 1) as nat);
        lemma_hierarchy_len(s.drop_first(), (n - 1) as nat);
        lemma_pick_len(rest, s[0].start_line, s[0].end_line);
    }
}

/// Nesting depth beyond the length of the list changes nothing.
pub proof fn lemma_hierarchy_fuel(s: Seq<DocSymbolView>, m: nat)
    requires
        m >= s.len(),
    ensures
        hierarchy_fuel(s, m) == hierarchy(s),
    decreases s.len(),
{
    if s.len() > 0 {
        let d = s.drop_first();
        lemma_hierarchy_fuel(d, (m - 1) as nat);
        lemma_hierarchy_fuel(d, (s.len() - 1) as nat);
        let rest = hierarchy_fuel(d, (s.len() - 1) as nat);
        let e = s[0];
        let kids = picked(rest, e.start_line, e.end_line);
        lemma_hierarchy_len(d, (s.len() - 1) as nat);
        lemma_pick_len(rest, e.start_line, e.end_line);
        lemma_hierarchy_fuel(kids, (m - 1) as nat);
        lemma_hierarchy_fuel(kids, (s.len() - 1) as nat);
    }
}

/// What holds of every symbol of `rest` holds of every picked and unpicked one.
proof fn lemma_pick_forall(
    rest: Seq<DocSymbolView>,
    start: int,
    end: int,
    p: spec_fn(DocSymbolView) -> bool,
)
    requires
        forall|k: int| 0 <= k < rest.len() ==> p(#[trigger] rest[k]),
    ensures
        forall|k: int|
            0 <= k < picked(rest, start, end).len() ==> p(#[trigger] picked(rest, start, end)[k]),
        forall|k: int|
            0 <= k < unpicked(rest, start, end).len() ==> p(
                #[trigger] unpicked(rest, start, end)[k],
            ),
    decreases rest.len(),
{
    if rest.len() > 0 {
        let d = rest.drop_last();
        assert forall|k: int| 0 <= k < d.len() implies p(#[trigger] d[k]) by {
            assert(d[k] == rest[k]);
        }
        lemma_pick_forall(d, start, end, p);
        let x = rest.last();
        assert(p(x));
        let pk = picked(d, start, end);
        let uk = unpicked(d, start, end);
        if takes(pk, x, start, end) {
            assert(picked(rest, start, end) == pk.push(x));
            assert(unpicked(rest, start, end) == uk);
            assert forall|k: int| 0 <= k < pk.len() + 1 implies p(#[trigger] pk.push(x)[k]) by {
                if k < pk.len() {
                    assert(pk.push(x)[k] == pk[k]);
                }
            }
        } else {
            assert(picked(rest, start, end) == pk);
            assert(unpicked(rest, start, end) == uk.push(x));
            assert forall|k: int| 0 <= k < uk.len() + 1 implies p(#[trigger] uk.push(x)[k]) by {
                if k < uk.len() {
                    assert(uk.push(x)[k] == uk[k]);
                }
            }
        }
    }
}

/// The picked symbols lie within the lines `start..=end`.
proof fn lemma_picked_within(rest: Seq<DocSymbolView>, start: int, end: int)
    ensures
        all_within(picked(rest, start, end), start, end),
    decreases rest.len(),
{
    if rest.len() > 0 {
        lemma_picked_within(rest.drop_last(), start, end);
    }
}

/// Nesting keeps the symbols of a list within the lines that held them.
proof fn lemma_hierarchy_within(s: Seq<DocSymbolView>, n: nat, lo: int, hi: int)
    requires
        all_within(s, lo, hi),
    ensures
        all_within(hierarchy_fuel(s, n), lo, hi),
    decreases n,
{
    if n > 0 && s.len() > 0 {
        let d = s.drop_first();
        assert(all_within(d, lo, hi)) by {
            assert forall|k: int| 0 <= k < d.len() implies lo <= #[trigger] d[k].start_line
                && d[k].end_line <= hi by {
                assert(d[k] == s[k + 1]);
            }
        }
        lemma_hierarchy_within(d, (n - 1) as nat, lo, hi);
        let rest = hierarchy_fuel(d, (n - 1) as nat);
        let e = s[0];
        let p = |x: DocSymbolView| lo <= x.start_line && x.end_line <= hi;
        lemma_pick_forall(rest, e.start_line, e.end_line, p);
        let r = hierarchy_fuel(s, n);
        let u = unpicked(rest, e.start_line, e.end_line);
        assert forall|k: int| 0 <= k < r.len() implies lo <= #[trigger] r[k].start_line
            && r[k].end_line <= hi by {
            if k > 0 {
                assert(r[k] == u[k - 1]);
                assert(p(u[k - 1]));
            }
        }
    }
}

/// Nesting keeps every symbol within the lines of its parent.
proof fn lemma_hierarchy_well_nested(s: Seq<DocSymbolView>, n: nat)
    requires
        all_well_nested(s),
    ensures
        all_well_nested(hierarchy_fuel(s, n)),
    decreases n,
{
    if n > 0 && s.len() > 0 {
        let d = s.drop_first();
        assert(all_well_nested(d)) by {
            assert forall|k: int| 0 <= k < d.len() implies #[trigger] well_nested(d[k]) by {
                assert(d[k] == s[k + 1]);
            }
        }
        lemma_hierarchy_well_nested(d, (n - 1) as nat);
        let rest = hierarchy_fuel(d, (n - 1) as nat);
        let e = s[0];
        let wn = |x: DocSymbolView| well_nested(x);
        lemma_pick_forall(rest, e.start_line, e.end_line, wn);
        let kids = picked(rest, e.start_line, e.end_line);
        let u = unpicked(rest, e.start_line, e.end_line);
        assert(all_well_nested(kids)) by {
            assert forall|k: int| 0 <= k < kids.len() implies #[trigger] well_nested(kids[k]) by {
                assert(wn(kids[k]));
            }
        }
        lemma_picked_within(rest, e.start_line, e.end_line);
        lemma_hierarchy_well_nested(kids, (n - 1) as nat);
        lemma_hierarchy_within(kids, (n - 1) as nat, e.start_line, e.end_line);
        assert(well_nested(e));
        let r = hierarchy_fuel(s, n);
        if kids.len() > 0 {
            let built = hierarchy_fuel(kids, (n - 1) as nat);
            let head = DocSymbolView { children: built, ..e };
            assert forall|c: int| 0 <= c < head.children.len() implies encloses(
                head,
                #[trigger] head.children[c],
            ) && well_nested(head.children[c]) by {
                assert(well_nested(built[c]));
            }
            assert(well_nested(head));
        }
        assert forall|k: int| 0 <= k < r.len() implies #[trigger] well_nested(r[k]) by {
            if k > 0 {
                assert(r[k] == u[k - 1]);
                assert(wn(u[k - 1]));
            }
        }
    }
}

/// Law: in the hierarchy of a file's symbols, every symbol nested in another
/// lies within that symbol's lines, at every depth (given that the symbols
/// handed in are themselves so nested, as symbols without children are).
pub proof fn lemma_children_within_parent(s: Seq<DocSymbolView>)
    requires
        all_well_nested(s),
    ensures
        all_well_nested(hierarchy(s)),
{
    lemma_hierarchy_well_nested(s, s.len());
}

/// The number of symbols in `v`, itself and those nested in it at any depth.
pub open spec fn node_count(v: DocSymbolView) -> nat
    decreases v,
{
    1 + nodes_count(v.children)
}

/// The number of symbols in `s`, nested ones included.
pub open spec fn nodes_count(s: Seq<DocSymbolView>) -> nat
    decreases s,
{
    if s.len() == 0 {
        0
    } else {
        nodes_count(s.subrange(0, s.len() - 1)) + node_count(s[s.len() - 1])
    }
}

/// Counting symbols adds up over concatenation.
proof fn lemma_nodes_concat(a: Seq<DocSymbolView>, b: Seq<DocSymbolView>)
    ensures
        nodes_count(a + b) == nodes_count(a) + nodes_count(b),
    decreases b.len(),
{
    if b.len() == 0 {
        assert(a + b =~= a);
    } else {
        let bl = b.subrange(0, b.len() - 1);
        assert((a + b).subrange(0, (a + b).len() - 1) =~= a + bl);
        assert((a + b)[(a + b).len() - 1] == b[b.len() - 1]);
        lemma_nodes_concat(a, bl);
    }
}

/// Counting symbols of a sequence with one more at its end.
proof fn lemma_nodes_push(a: Seq<DocSymbolView>, x: DocSymbolView)
    ensures
        nodes_count(a.push(x)) == nodes_count(a) + node_count(x),
{
    assert(a.push(x).subrange(0, a.len() as int) =~= a);
}

/// The symbols picked and left over between them hold all symbols of `rest`.
proof fn lemma_pick_nodes(rest: Seq<DocSymbolView>, start: int, end: int)
    ensures
        nodes_count(picked(rest, start, end)) + nodes_count(unpicked(rest, start, end))
            == nodes_count(rest),
    decreases rest.len(),
{
    if rest.len() > 0 {
        let d = rest.drop_last();
        lemma_pick_nodes(d, start, end);
        lemma_nodes_push(picked(d, start, end), rest.last());
        lemma_nodes_push(unpicked(d, start, end), rest.last());
        assert(rest.subrange(0, rest.len() - 1) =~= d);
    }
}

/// No picked symbol lies within the lines of one picked before it.
proof fn lemma_picked_antichain(rest: Seq<DocSymbolView>, start: int, end: int)
    ensures
        forall|a: int, b: int|
            0 <= a < b < picked(rest, start, end).len() ==> !encloses(
                #[trigger] picked(rest, start, end)[a],
                #[trigger] picked(rest, start, end)[b],
            ),
    decreases rest.len(),
{
    if rest.len() > 0 {
        let d = rest.drop_last();
        lemma_picked_antichain(d, start, end);
        let p = picked(d, start, end);
        let x = rest.last();
        if takes(p, x, start, end) {
            let q = p.push(x);
            assert forall|a: int, b: int| 0 <= a < b < q.len() implies !encloses(
                #[trigger] q[a],
                #[trigger] q[b],
            ) by {
                if b == q.len() - 1 {
                    assert(q[a] == p[a]);
                    if encloses(p[a], x) {
                        assert(covered(p, x));
                    }
                } else {
                    assert(q[a] == p[a]);
                    assert(q[b] == p[b]);
                }
            }
        }
    }
}

/// Nothing of `rest` lies within `start..=end`, so nothing is picked.
proof fn lemma_nothing_picked(rest: Seq<DocSymbolView>, start: int, end: int)
    requires
        forall|j: int|
            0 <= j < rest.len() ==> !(start <= #[trigger] rest[j].start_line && rest[j].end_line
                <= end),
    ensures
        picked(rest, start, end).len() == 0,
        unpicked(rest, start, end) == rest,
    decreases rest.len(),
{
    if rest.len() > 0 {
        let d = rest.drop_last();
        assert forall|j: int| 0 <= j < d.len() implies !(start <= #[trigger] d[j].start_line
            && d[j].end_line <= end) by {
            assert(d[j] == rest[j]);
        }
        lemma_nothing_picked(d, start, end);
        assert(d.push(rest.last()) =~= rest);
    }
}

/// A list in which no symbol lies within the lines of an earlier one is left
/// as it is by nesting.
proof fn lemma_antichain_fixed(s: Seq<DocSymbolView>, n: nat)
    requires
        forall|a: int, b: int| 0 <= a < b < s.len() ==> !encloses(#[trigger] s[a], #[trigger] s[b]),
    ensures
        hierarchy_fuel(s, n) == s,
    decreases n,
{
    if n > 0 && s.len() > 0 {
        let d = s.drop_first();
        assert forall|a: int, b: int| 0 <= a < b < d.len() implies !encloses(
            #[trigger] d[a],
            #[trigger] d[b],
        ) by {
            assert(d[a] == s[a + 1]);
            assert(d[b] == s[b + 1]);
        }
        lemma_antichain_fixed(d, (n - 1) as nat);
        let e = s[0];
        assert forall|j: int| 0 <= j < d.len() implies !(e.start_line
            <= #[trigger] d[j].start_line && d[j].end_line <= e.end_line) by {
            assert(d[j] == s[j + 1]);
            assert(!encloses(s[0], s[j + 1]));
        }
        lemma_nothing_picked(d, e.start_line, e.end_line);
        assert(seq![e] + d =~= s);
    }
}

/// Nesting a list of symbols without children keeps every symbol.
proof fn lemma_hierarchy_count(s: Seq<DocSymbolView>, n: nat)
    requires
        forall|k: int| 0 <= k < s.len() ==> (#[trigger] s[k]).children.len() == 0,
    ensures
        nodes_count(hierarchy_fuel(s, n)) == s.len(),
    decreases n,
{
    if n == 0 || s.len() == 0 {
        lemma_childless_count(s);
    } else {
        let d = s.drop_first();
        assert forall|k: int| 0 <= k < d.len() implies (#[trigger] d[k]).children.len() == 0 by {
            assert(d[k] == s[k + 1]);
        }
        lemma_hierarchy_count(d, (n - 1) as nat);
        let rest = hierarchy_fuel(d, (n - 1) as nat);
        let e = s[0];
        let kids = picked(rest, e.start_line, e.end_line);
        let u = unpicked(rest, e.start_line, e.end_line);
        lemma_pick_nodes(rest, e.start_line, e.end_line);
        let head = if kids.len() == 0 {
            e
        } else {
            DocSymbolView { children: hierarchy_fuel(kids, (n - 1) as nat), ..e }
        };
        lemma_nodes_concat(seq![head], u);
        lemma_nodes_push(Seq::<DocSymbolView>::empty(), head);
        assert(Seq::<DocSymbolView>::empty().push(head) =~= seq![head]);
        assert(nodes_count(e.children) == 0);
        if kids.len() > 0 {
            lemma_picked_antichain(rest, e.start_line, e.end_line);
            lemma_antichain_fixed(kids, (n - 1) as nat);
        } else {
            assert(nodes_count(kids) == 0);
        }
    }
}

/// Symbols without children count one each.
proof fn lemma_childless_count(s: Seq<DocSymbolView>)
    requires
        forall|k: int| 0 <= k < s.len() ==> (#[trigger] s[k]).children.len() == 0,
    ensures
        nodes_count(s) == s.len(),
    decreases s.len(),
{
    if s.len() > 0 {
        let d = s.subrange(0, s.len() - 1);
        assert forall|k: int| 0 <= k < d.len() implies (#[trigger] d[k]).children.len() == 0 by {
            assert(d[k] == s[k]);
        }
        lemma_childless_count(d);
        let x = s[s.len() - 1];
        assert(x.children.len() == 0);
        assert(nodes_count(x.children) == 0);
        assert(node_count(x) == 1);
        assert(nodes_count(s) == nodes_count(d) + node_count(x));
    }
}

/// Law: nesting loses no symbol and adds none: the hierarchy of symbols
/// without children holds as many symbols, at all depths, as were given.
pub proof fn lemma_hierarchy_keeps_every_symbol(s: Seq<DocSymbolView>)
    requires
        forall|k: int| 0 <= k < s.len() ==> (#[trigger] s[k]).children.len() == 0,
    ensures
        nodes_count(hierarchy(s)) == s.len(),
{
    lemma_hierarchy_count(s, s.len());
}

/// `v` without its children.
pub open spec fn bare(v: DocSymbolView) -> DocSymbolView {
    DocSymbolView { children: Seq::empty(), ..v }
}

/// `v` and the symbols nested in it, in preorder, each without children.
pub open spec fn flat(v: DocSymbolView) -> Seq<DocSymbolView>
    decreases v,
{
    seq![bare(v)] + flats(v.children)
}

/// The symbols of `s` and those nested in them, in preorder, each without
/// children.
pub open spec fn flats(s: Seq<DocSymbolView>) -> Seq<DocSymbolView>
    decreases s,
{
    if s.len() == 0 {
        Seq::empty()
    } else {
        flats(s.subrange(0, s.len() - 1)) + flat(s[s.len() - 1])
    }
}

proof fn lemma_flats_concat(a: Seq<DocSymbolView>, b: Seq<DocSymbolView>)
    ensures
        flats(a + b) == flats(a) + flats(b),
    decreases b.len(),
{
    if b.len() == 0 {
        assert(a + b =~= a);
        assert(flats(b) =~= Seq::<DocSymbolView>::empty());
        assert(flats(a) + flats(b) =~= flats(a));
    } else {
        let bl = b.subrange(0, b.len() - 1);
        assert((a + b).subrange(0, (a + b).len() - 1) =~= a + bl);
        assert((a + b)[(a + b).len() - 1] == b[b.len() - 1]);
        lemma_flats_concat(a, bl);
        assert(flats(a) + flats(bl) + flat(b[b.len() - 1]) =~= flats(a) + (flats(bl) + flat(
            b[b.len() - 1],
        )));
    }
}

proof fn lemma_flats_push(a: Seq<DocSymbolView>, x: DocSymbolView)
    ensures
        flats(a.push(x)) == flats(a) + flat(x),
{
    assert(a.push(x).subrange(0, a.len() as int) =~= a);
}

proof fn lemma_pick_flats(rest: Seq<DocSymbolView>, start: int, end: int)
    ensures
        flats(picked(rest, start, end)).to_multiset().add(
            flats(unpicked(rest, start, end)).to_multiset(),
        ) == flats(rest).to_multiset(),
    decreases rest.len(),
{
    broadcast use vstd::seq_lib::group_to_multiset_ensures;

    let p = picked(rest, start, end);
    let u = unpicked(rest, start, end);
    if rest.len() == 0 {
        assert(flats(p) =~= Seq::<DocSymbolView>::empty());
        assert(flats(u) =~= Seq::<DocSymbolView>::empty());
        assert(flats(rest) =~= Seq::<DocSymbolView>::empty());
        assert(flats(p).to_multiset().add(flats(u).to_multiset()) =~= flats(rest).to_multiset());
    } else {
        let d = rest.drop_last();
        let x = rest.last();
        lemma_pick_flats(d, start, end);
        lemma_flats_push(picked(d, start, end), x);
        lemma_flats_push(unpicked(d, start, end), x);
        lemma_flats_push(d, x);
        assert(d.push(x) =~= rest);
        vstd::seq_lib::lemma_multiset_commutative(flats(picked(d, start, end)), flat(x));
        vstd::seq_lib::lemma_multiset_commutative(flats(unpicked(d, start, end)), flat(x));
        vstd::seq_lib::lemma_multiset_commutative(flats(d), flat(x));
        assert(flats(p).to_multiset().add(flats(u).to_multiset()) =~= flats(rest).to_multiset());
    }
}

proof fn lemma_childless_flats(s: Seq<DocSymbolView>)
    requires
        forall|k: int| 0 <= k < s.len() ==> (#[trigger] s[k]).children.len() == 0,
    ensures
        flats(s) == s,
    decreases s.len(),
{
    if s.len() > 0 {
        let d = s.subrange(0, s.len() - 1);
        assert forall|k: int| 0 <= k < d.len() implies (#[trigger] d[k]).children.len() == 0 by {
            assert(d[k] == s[k]);
        }
        lemma_childless_flats(d);
        let x = s[s.len() - 1];
        assert(x.children =~= Seq::<DocSymbolView>::empty());
        assert(bare(x) == x);
        assert(flats(x.children) =~= Seq::<DocSymbolView>::empty());
        assert(flat(x) =~= seq![x]);
        assert(d.push(x) =~= s);
    }
}

proof fn lemma_hierarchy_flats(s: Seq<DocSymbolView>, n: nat)
    requires
        forall|k: int| 0 <= k < s.len() ==> (#[trigger] s[k]).children.len() == 0,
    ensures
        flats(hierarchy_fuel(s, n)).to_multiset() == s.to_multiset(),
    decreases n,
{
    broadcast use vstd::seq_lib::group_to_multiset_ensures;

    if n == 0 || s.len() == 0 {
        lemma_childless_flats(s);
    } else {
        let d = s.drop_first();
        assert forall|k: int| 0 <= k < d.len() implies (#[trigger] d[k]).children.len() == 0 by {
            assert(d[k] == s[k + 1]);
        }
        lemma_hierarchy_flats(d, (n - 1) as nat);
        let rest = hierarchy_fuel(d, (n - 1) as nat);
        let e = s[0];
        let kids = picked(rest, e.start_line, e.end_line);
        let u = unpicked(rest, e.start_line, e.end_line);
        lemma_pick_flats(rest, e.start_line, e.end_line);
        let head = if kids.len() == 0 {
            e
        } else {
            DocSymbolView { children: hierarchy_fuel(kids, (n - 1) as nat), ..e }
        };
        assert(e.children =~= Seq::<DocSymbolView>::empty());
        assert(bare(head) == e);
        if kids.len() > 0 {
            lemma_picked_antichain(rest, e.start_line, e.end_line);
            lemma_antichain_fixed(kids, (n - 1) as nat);
            assert(head.children == kids);
        } else {
            assert(flats(kids) =~= Seq::<DocSymbolView>::empty());
            assert(flats(head.children) =~= Seq::<DocSymbolView>::empty());
        }
        assert(flats(head.children) == flats(kids));
        assert(flat(head) == seq![e] + flats(kids));
        lemma_flats_concat(seq![head], u);
        lemma_flats_push(Seq::<DocSymbolView>::empty(), head);
        assert(Seq::<DocSymbolView>::empty().push(head) =~= seq![head]);
        assert(flats(Seq::<DocSymbolView>::empty()) =~= Seq::<DocSymbolView>::empty());
        assert(flats(seq![head]) =~= flat(head));
        assert(hierarchy_fuel(s, n) == seq![head] + u);
        vstd::seq_lib::lemma_multiset_commutative(seq![e], flats(kids));
        vstd::seq_lib::lemma_multiset_commutative(seq![e] + flats(kids), flats(u));
        vstd::seq_lib::lemma_multiset_commutative(seq![e], d);
        assert(seq![e] + d =~= s);
        assert(flats(hierarchy_fuel(s, n)).to_multiset() =~= s.to_multiset());
    }
}

/// Law: nesting rearranges the symbols of a file and nothing more: the
/// hierarchy of symbols without children, flattened in preorder, holds
/// exactly the symbols given, each as often as it was given.
pub proof fn lemma_hierarchy_flattens_back(s: Seq<DocSymbolView>)
    requires
        forall|k: int| 0 <= k < s.len() ==> (#[trigger] s[k]).children.len() == 0,
    ensures
        flats(hierarchy(s)).to_multiset() == s.to_multiset(),
{
    lemma_hierarchy_flats(s, s.len());
}

/// The symbols of `s` come by start line, and those starting on the same line
/// by decreasing end line (the order in which a file's symbols are listed).
pub open spec fn doc_sorted(s: Seq<DocSymbolView>) -> bool {
    forall|i: int, j: int|
        0 <= i < j < s.len() ==> (#[trigger] s[i]).start_line < (#[trigger] s[j]).start_line || (
        s[i].start_line == s[j].start_line && s[i].end_line >= s[j].end_line)
}

/// Any two symbols of `s` are nested one in the other or lie apart, and each
/// starts no later than it ends.
pub open spec fn laminar(s: Seq<DocSymbolView>) -> bool {
    &&& forall|i: int| 0 <= i < s.len() ==> (#[trigger] s[i]).start_line <= s[i].end_line
    &&& forall|i: int, j: int|
        0 <= i < s.len() && 0 <= j < s.len() ==> encloses(#[trigger] s[i], #[trigger] s[j])
            || encloses(s[j], s[i]) || s[i].end_line < s[j].start_line || s[j].end_line
            < s[i].start_line
}

/// No symbol of the list `l` lies within the lines of one before it.
pub open spec fn unnested(l: Seq<DocSymbolView>) -> bool {
    forall|a: int, b: int| 0 <= a < b < l.len() ==> !encloses(#[trigger] l[a], #[trigger] l[b])
}

/// Every sibling list of the tree `v` (its children, theirs, and so on) is
/// unnested.
pub open spec fn siblings_unnested(v: DocSymbolView) -> bool
    decreases v,
{
    &&& unnested(v.children)
    &&& forall|c: int| 0 <= c < v.children.len() ==> siblings_unnested(#[trigger] v.children[c])
}

/// The position of the first symbol of `r` from `i` on that starts after line `end`.
pub open spec fn first_start_after(r: Seq<DocSymbolView>, end: int, i: int) -> int
    decreases r.len() - i,
{
    if i < 0 || i >= r.len() {
        r.len() as int
    } else if r[i].start_line > end {
        i
    } else {
        first_start_after(r, end, i + 1)
    }
}

proof fn lemma_first_start_after(r: Seq<DocSymbolView>, end: int, i: int)
    requires
        0 <= i <= r.len(),
    ensures
        i <= first_start_after(r, end, i) <= r.len(),
        forall|k: int| i <= k < first_start_after(r, end, i) ==> (#[trigger] r[k]).start_line <= end,
        first_start_after(r, end, i) < r.len() ==> r[first_start_after(r, end, i)].start_line > end,
    decreases r.len() - i,
{
    if i < r.len() && r[i].start_line <= end {
        lemma_first_start_after(r, end, i + 1);
    }
}

/// An unnested list whose symbols within `start..=end` come first is split
/// by `picked` into that prefix and the rest.
proof fn lemma_pick_prefix(r: Seq<DocSymbolView>, start: int, end: int, p: int)
    requires
        0 <= p <= r.len(),
        unnested(r),
        forall|k: int| 0 <= k < p ==> start <= (#[trigger] r[k]).start_line && r[k].end_line <= end,
        forall|k: int| p <= k < r.len() ==> !(start <= (#[trigger] r[k]).start_line && r[k].end_line <= end),
    ensures
        picked(r, start, end) == r.take(p),
        unpicked(r, start, end) == r.skip(p),
    decreases r.len(),
{
    if r.len() == 0 {
        assert(r.take(p) =~= Seq::<DocSymbolView>::empty());
        assert(r.skip(p) =~= Seq::<DocSymbolView>::empty());
    } else {
        let d = r.drop_last();
        let x = r.last();
        let q = if p < r.len() { p } else { d.len() as int };
        assert forall|a: int, b: int| 0 <= a < b < d.len() implies !encloses(#[trigger] d[a], #[trigger] d[b]) by {
            assert(d[a] == r[a] && d[b] == r[b]);
        }
        assert forall|k: int| 0 <= k < q implies start <= (#[trigger] d[k]).start_line && d[k].end_line <= end by {
            assert(d[k] == r[k]);
        }
        assert forall|k: int| q <= k < d.len() implies !(start <= (#[trigger] d[k]).start_line && d[k].end_line <= end) by {
            assert(d[k] == r[k]);
        }
        lemma_pick_prefix(d, start, end, q);
        if p == r.len() {
            assert(!covered(d, x)) by {
                if covered(d, x) {
                    let k = choose|k: int| 0 <= k < d.len() && #[trigger] encloses(d[k], x);
                    assert(d[k] == r[k]);
                    assert(!encloses(r[k], r[r.len() - 1]));
                }
            }
            assert(d.take(q).push(x) =~= r.take(p));
            assert(d.skip(q) =~= r.skip(p));
        } else {
            assert(d.take(q) =~= r.take(p));
            assert(d.skip(q).push(x) =~= r.skip(p));
        }
    }
}

proof fn lemma_sorted_laminar_tail(s: Seq<DocSymbolView>)
    requires
        s.len() > 0,
        doc_sorted(s),
        laminar(s),
    ensures
        doc_sorted(s.drop_first()),
        laminar(s.drop_first()),
        forall|k: int| 0 <= k < s.len() - 1 ==> #[trigger] s.drop_first()[k] == s[k + 1],
{
    let d = s.drop_first();
    assert forall|i: int, j: int| 0 <= i < j < d.len() implies (#[trigger] d[i]).start_line < (#[trigger] d[j]).start_line || (
        d[i].start_line == d[j].start_line && d[i].end_line >= d[j].end_line) by {
        assert(d[i] == s[i + 1] && d[j] == s[j + 1]);
    }
    assert forall|i: int| 0 <= i < d.len() implies (#[trigger] d[i]).start_line <= d[i].end_line by {
        assert(d[i] == s[i + 1]);
    }
    assert forall|i: int, j: int| 0 <= i < d.len() && 0 <= j < d.len() implies encloses(#[trigger] d[i], #[trigger] d[j])
        || encloses(d[j], d[i]) || d[i].end_line < d[j].start_line || d[j].end_line < d[i].start_line by {
        assert(d[i] == s[i + 1] && d[j] == s[j + 1]);
    }
}

/// The facts carried through the nesting of `s`.
pub open spec fn nests_well(s: Seq<DocSymbolView>, h: Seq<DocSymbolView>) -> bool {
    &&& flats(h) == s
    &&& unnested(h)
    &&& forall|k: int| 0 <= k < h.len() ==> #[trigger] siblings_unnested(h[k])
    &&& forall|a: int, b: int| 0 <= a < b < h.len() ==> (#[trigger] h[a]).start_line <= (#[trigger] h[b]).start_line
    &&& forall|k: int| 0 <= k < h.len() ==> exists|i: int|
        0 <= i < s.len() && (#[trigger] s[i]).start_line == (#[trigger] h[k]).start_line && s[i].end_line
            == h[k].end_line
}

/// `e` with the children `kids`, or `e` itself where there are none.
pub open spec fn with_children(e: DocSymbolView, kids: Seq<DocSymbolView>) -> DocSymbolView {
    if kids.len() == 0 {
        e
    } else {
        DocSymbolView { children: kids, ..e }
    }
}

proof fn lemma_within_prefix(s: Seq<DocSymbolView>, rest: Seq<DocSymbolView>)
    requires
        s.len() > 0,
        doc_sorted(s),
        laminar(s),
        nests_well(s.drop_first(), rest),
    ensures
        0 <= first_start_after(rest, s[0].end_line, 0) <= rest.len(),
        forall|k: int|
            0 <= k < first_start_after(rest, s[0].end_line, 0) ==> s[0].start_line
                <= (#[trigger] rest[k]).start_line && rest[k].end_line <= s[0].end_line,
        forall|k: int|
            first_start_after(rest, s[0].end_line, 0) <= k < rest.len() ==> !(s[0].start_line
                <= (#[trigger] rest[k]).start_line && rest[k].end_line <= s[0].end_line),
        forall|k: int|
            first_start_after(rest, s[0].end_line, 0) <= k < rest.len() ==> (#[trigger] rest[k]).start_line
                > s[0].end_line,
{
    let d = s.drop_first();
    let e = s[0];
    lemma_first_start_after(rest, e.end_line, 0);
    let p = first_start_after(rest, e.end_line, 0);
    assert forall|k: int| 0 <= k < rest.len() implies (e.start_line <= (#[trigger] rest[k]).start_line
        && rest[k].end_line <= e.end_line) == (rest[k].start_line <= e.end_line) by {
        let i = choose|i: int|
            0 <= i < d.len() && (#[trigger] d[i]).start_line == rest[k].start_line && d[i].end_line
                == rest[k].end_line;
        assert(d[i] == s[i + 1]);
        assert(e.start_line < s[i + 1].start_line || (e.start_line == s[i + 1].start_line
            && e.end_line >= s[i + 1].end_line));
        assert(s[i + 1].start_line <= s[i + 1].end_line);
        assert(encloses(s[0], s[i + 1]) || encloses(s[i + 1], s[0]) || s[0].end_line
            < s[i + 1].start_line || s[i + 1].end_line < s[0].start_line);
    }
    assert forall|k: int| p <= k < rest.len() implies (#[trigger] rest[k]).start_line > e.end_line by {
        assert(rest[p].start_line > e.end_line);
        if k > p {
            assert(rest[p].start_line <= rest[k].start_line);
        }
    }
}

proof fn lemma_nest_step_flats(s: Seq<DocSymbolView>, rest: Seq<DocSymbolView>, p: int)
    requires
        s.len() > 0,
        s[0].children.len() == 0,
        flats(rest) == s.drop_first(),
        0 <= p <= rest.len(),
    ensures
        flats(seq![with_children(s[0], rest.take(p))] + rest.skip(p)) == s,
{
    let e = s[0];
    let kids = rest.take(p);
    let u = rest.skip(p);
    let head = with_children(e, kids);
    assert(e.children =~= Seq::<DocSymbolView>::empty());
    assert(head.children == kids);
    assert(rest =~= kids + u);
    lemma_flats_concat(kids, u);
    lemma_flats_concat(seq![head], u);
    lemma_flats_push(Seq::<DocSymbolView>::empty(), head);
    assert(Seq::<DocSymbolView>::empty().push(head) =~= seq![head]);
    assert(flats(Seq::<DocSymbolView>::empty()) =~= Seq::<DocSymbolView>::empty());
    assert(bare(head) == e);
    assert(flats(seq![head]) =~= seq![e] + flats(kids));
    assert(seq![e] + s.drop_first() =~= s);
}

#[verifier::rlimit(50)]
proof fn lemma_nest_step_order(s: Seq<DocSymbolView>, rest: Seq<DocSymbolView>, p: int)
    requires
        s.len() > 0,
        s[0].children.len() == 0,
        doc_sorted(s),
        nests_well(s.drop_first(), rest),
        0 <= p <= rest.len(),
        forall|k: int|
            p <= k < rest.len() ==> !(s[0].start_line <= (#[trigger] rest[k]).start_line
                && rest[k].end_line <= s[0].end_line),
    ensures
        ({
            let h = seq![with_children(s[0], rest.take(p))] + rest.skip(p);
            &&& unnested(h)
            &&& forall|k: int| 0 <= k < h.len() ==> #[trigger] siblings_unnested(h[k])
            &&& forall|a: int, b: int|
                0 <= a < b < h.len() ==> (#[trigger] h[a]).start_line <= (#[trigger] h[b]).start_line
            &&& forall|k: int|
                0 <= k < h.len() ==> exists|i: int|
                    0 <= i < s.len() && (#[trigger] s[i]).start_line == (#[trigger] h[k]).start_line
                        && s[i].end_line == h[k].end_line
        }),
{
    let d = s.drop_first();
    let e = s[0];
    let kids = rest.take(p);
    let u = rest.skip(p);
    let head = with_children(e, kids);
    let h = seq![head] + u;
    assert(e.children =~= Seq::<DocSymbolView>::empty());
    assert(head.children == kids);
    assert forall|a: int, b: int| 0 <= a < b < h.len() implies !encloses(#[trigger] h[a], #[trigger] h[b]) by {
        if a == 0 {
            assert(h[b] == rest[p + b - 1]);
        } else {
            assert(h[a] == rest[p + a - 1] && h[b] == rest[p + b - 1]);
        }
    }
    assert(siblings_unnested(head)) by {
        assert(unnested(kids)) by {
            assert forall|a: int, b: int| 0 <= a < b < kids.len() implies !encloses(#[trigger] kids[a], #[trigger] kids[b]) by {
                assert(kids[a] == rest[a] && kids[b] == rest[b]);
            }
        }
        assert forall|c: int| 0 <= c < head.children.len() implies siblings_unnested(#[trigger] head.children[c]) by {
            assert(head.children[c] == rest[c]);
        }
    }
    assert forall|k: int| 0 <= k < h.len() implies #[trigger] siblings_unnested(h[k]) by {
        if k > 0 {
            assert(h[k] == rest[p + k - 1]);
        }
    }
    assert forall|k: int| 0 <= k < h.len() implies exists|i: int|
        0 <= i < s.len() && (#[trigger] s[i]).start_line == (#[trigger] h[k]).start_line && s[i].end_line
            == h[k].end_line by {
        if k == 0 {
            assert(s[0].start_line == h[0].start_line && s[0].end_line == h[0].end_line);
        } else {
            let x = rest[p + k - 1];
            assert(h[k] == x);
            let i = choose|i: int|
                0 <= i < d.len() && (#[trigger] d[i]).start_line == x.start_line && d[i].end_line == x.end_line;
            assert(d[i] == s[i + 1]);
            assert(s[i + 1].start_line == h[k].start_line && s[i + 1].end_line == h[k].end_line);
        }
    }
    assert forall|a: int, b: int| 0 <= a < b < h.len() implies (#[trigger] h[a]).start_line <= (#[trigger] h[b]).start_line by {
        if a == 0 {
            let x = rest[p + b - 1];
            assert(h[b] == x);
            let i = choose|i: int|
                0 <= i < d.len() && (#[trigger] d[i]).start_line == x.start_line && d[i].end_line == x.end_line;
            assert(d[i] == s[i + 1]);
            assert(s[0].start_line < s[i + 1].start_line || s[0].start_line == s[i + 1].start_line);
        } else {
            assert(h[a] == rest[p + a - 1] && h[b] == rest[p + b - 1]);
        }
    }
}

/// The position in the nested rest where the symbols within the first
/// symbol's lines end.
pub open spec fn split_point(s: Seq<DocSymbolView>) -> int {
    first_start_after(hierarchy_fuel(s.drop_first(), (s.len() - 1) as nat), s[0].end_line, 0)
}

proof fn lemma_hierarchy_step(s: Seq<DocSymbolView>)
    requires
        s.len() > 0,
        forall|k: int| 0 <= k < s.len() ==> (#[trigger] s[k]).children.len() == 0,
        doc_sorted(s),
        laminar(s),
    ensures
        ({
            let rest = hierarchy_fuel(s.drop_first(), (s.len() - 1) as nat);
            let p = split_point(s);
            &&& nests_well(s.drop_first(), rest)
            &&& 0 <= p <= rest.len()
            &&& forall|k: int| p <= k < rest.len() ==> (#[trigger] rest[k]).start_line > s[0].end_line
            &&& forall|k: int|
                p <= k < rest.len() ==> !(s[0].start_line <= (#[trigger] rest[k]).start_line
                    && rest[k].end_line <= s[0].end_line)
            &&& hierarchy_fuel(s, s.len()) == seq![with_children(s[0], rest.take(p))] + rest.skip(p)
        }),
    decreases s.len(), 0int,
{
    let n = s.len();
    let d = s.drop_first();
    lemma_sorted_laminar_tail(s);
    assert forall|k: int| 0 <= k < d.len() implies (#[trigger] d[k]).children.len() == 0 by {
        assert(d[k] == s[k + 1]);
    }
    lemma_nests_well(d);
    let rest = hierarchy_fuel(d, (n - 1) as nat);
    let e = s[0];
    lemma_within_prefix(s, rest);
    let p = first_start_after(rest, e.end_line, 0);
    lemma_pick_prefix(rest, e.start_line, e.end_line, p);
    let kids = picked(rest, e.start_line, e.end_line);
    assert(unnested(kids)) by {
        assert forall|a: int, b: int| 0 <= a < b < kids.len() implies !encloses(#[trigger] kids[a], #[trigger] kids[b]) by {
            assert(kids[a] == rest[a] && kids[b] == rest[b]);
        }
    }
    if kids.len() > 0 {
        lemma_antichain_fixed(kids, (n - 1) as nat);
    }
    assert(hierarchy_fuel(s, n) == seq![with_children(e, rest.take(p))] + rest.skip(p));
}

proof fn lemma_nests_well(s: Seq<DocSymbolView>)
    requires
        forall|k: int| 0 <= k < s.len() ==> (#[trigger] s[k]).children.len() == 0,
        doc_sorted(s),
        laminar(s),
    ensures
        nests_well(s, hierarchy_fuel(s, s.len())),
    decreases s.len(), 1int,
{
    if s.len() == 0 {
        assert(flats(s) =~= s);
    } else {
        lemma_hierarchy_step(s);
        let rest = hierarchy_fuel(s.drop_first(), (s.len() - 1) as nat);
        let p = split_point(s);
        lemma_nest_step_flats(s, rest, p);
        lemma_nest_step_order(s, rest, p);
    }
}

/// One past the position, in the preorder `flats(l)`, of the last symbol in
/// the subtree of the symbol at position `a`.
pub open spec fn block_end(l: Seq<DocSymbolView>, a: int) -> int
    decreases l,
{
    if l.len() == 0 || a < 0 {
        a
    } else {
        let size = flat(l[0]).len() as int;
        if a == 0 {
            size
        } else if a < size {
            1 + block_end(l[0].children, a - 1)
        } else {
            size + block_end(l.subrange(1, l.len() as int), a - size)
        }
    }
}

proof fn lemma_flats_cons(x: DocSymbolView, rest: Seq<DocSymbolView>)
    ensures
        flats(seq![x] + rest) == flat(x) + flats(rest),
{
    lemma_flats_concat(seq![x], rest);
    lemma_flats_push(Seq::<DocSymbolView>::empty(), x);
    assert(Seq::<DocSymbolView>::empty().push(x) =~= seq![x]);
    assert(flats(Seq::<DocSymbolView>::empty()) =~= Seq::<DocSymbolView>::empty());
    assert(Seq::<DocSymbolView>::empty() + flat(x) =~= flat(x));
}

proof fn lemma_block_end_concat(k: Seq<DocSymbolView>, u: Seq<DocSymbolView>, a: int)
    requires
        0 <= a,
    ensures
        a < flats(k).len() ==> block_end(k + u, a) == block_end(k, a),
        a >= flats(k).len() ==> block_end(k + u, a) == flats(k).len() + block_end(u, a - flats(k).len()),
    decreases k.len(),
{
    if k.len() == 0 {
        assert(k + u =~= u);
        assert(flats(k) =~= Seq::<DocSymbolView>::empty());
    } else {
        let k0 = k[0];
        let kr = k.subrange(1, k.len() as int);
        assert(k =~= seq![k0] + kr);
        assert((k + u).subrange(1, (k + u).len() as int) =~= kr + u);
        assert((k + u)[0] == k0);
        lemma_flats_cons(k0, kr);
        if a >= flat(k0).len() {
            lemma_block_end_concat(kr, u, a - flat(k0).len());
        }
    }
}

proof fn lemma_flat_enclosed(v: DocSymbolView)
    requires
        well_nested(v),
    ensures
        forall|j: int| 0 <= j < flat(v).len() ==> encloses(v, #[trigger] flat(v)[j]),
    decreases v, 1int,
{
    lemma_flats_enclosed(v.children);
    assert forall|j: int| 0 <= j < flat(v).len() implies encloses(v, #[trigger] flat(v)[j]) by {
        if j > 0 {
            assert(flat(v)[j] == flats(v.children)[j - 1]);
            let c = choose|c: int| 0 <= c < v.children.len() && encloses(v.children[c], flats(v.children)[j - 1]);
            assert(encloses(v, v.children[c]));
        }
    }
}

proof fn lemma_flats_enclosed(l: Seq<DocSymbolView>)
    requires
        forall|k: int| 0 <= k < l.len() ==> #[trigger] well_nested(l[k]),
    ensures
        forall|j: int|
            0 <= j < flats(l).len() ==> exists|c: int| 0 <= c < l.len() && encloses(l[c], #[trigger] flats(l)[j]),
    decreases l, 0int,
{
    if l.len() > 0 {
        let dl = l.subrange(0, l.len() - 1);
        let x = l[l.len() - 1];
        assert forall|k: int| 0 <= k < dl.len() implies #[trigger] well_nested(dl[k]) by {
            assert(dl[k] == l[k]);
        }
        lemma_flats_enclosed(dl);
        lemma_flat_enclosed(x);
        assert forall|j: int| 0 <= j < flats(l).len() implies exists|c: int|
            0 <= c < l.len() && encloses(l[c], #[trigger] flats(l)[j]) by {
            if j < flats(dl).len() {
                assert(flats(l)[j] == flats(dl)[j]);
                let c = choose|c: int| 0 <= c < dl.len() && encloses(dl[c], flats(dl)[j]);
                assert(l[c] == dl[c]);
            } else {
                assert(flats(l)[j] == flat(x)[j - flats(dl).len()]);
                assert(encloses(l[l.len() - 1], flats(l)[j]));
            }
        }
    }
}

proof fn lemma_childless_well_nested(s: Seq<DocSymbolView>)
    requires
        forall|k: int| 0 <= k < s.len() ==> (#[trigger] s[k]).children.len() == 0,
    ensures
        all_well_nested(s),
{
    assert forall|k: int| 0 <= k < s.len() implies #[trigger] well_nested(s[k]) by {
        assert(s[k].children.len() == 0);
    }
}

/// The nesting of `s` in terms of its first symbol and the nested rest.
pub open spec fn step_shape(s: Seq<DocSymbolView>) -> bool {
    let rest = hierarchy_fuel(s.drop_first(), (s.len() - 1) as nat);
    let p = split_point(s);
    &&& flats(rest) == s.drop_first()
    &&& 0 <= p <= rest.len()
    &&& forall|k: int| p <= k < rest.len() ==> (#[trigger] rest[k]).start_line > s[0].end_line
    &&& hierarchy_fuel(s, s.len()) == seq![with_children(s[0], rest.take(p))] + rest.skip(p)
    &&& flat(with_children(s[0], rest.take(p))).len() == 1 + flats(rest.take(p)).len()
    &&& flats(rest) == flats(rest.take(p)) + flats(rest.skip(p))
}

proof fn lemma_step_shape(s: Seq<DocSymbolView>)
    requires
        s.len() > 0,
        listed_flat(s),
    ensures
        step_shape(s),
{
    let n = s.len();
    let e = s[0];
    lemma_hierarchy_step(s);
    let rest = hierarchy_fuel(s.drop_first(), (n - 1) as nat);
    let p = split_point(s);
    let kids = rest.take(p);
    let u = rest.skip(p);
    let head = with_children(e, kids);
    assert(rest =~= kids + u);
    lemma_flats_concat(kids, u);
    assert(e.children =~= Seq::<DocSymbolView>::empty());
    assert(head.children == kids);
}

#[verifier::rlimit(40)]
proof fn lemma_descend_first(s: Seq<DocSymbolView>, b: int)
    requires
        s.len() > 0,
        listed_flat(s),
        step_shape(s),
        0 < b < s.len(),
        encloses(s[0], s[b]),
    ensures
        b < block_end(hierarchy_fuel(s, s.len()), 0),
{
    let n = s.len();
    let d = s.drop_first();
    let e = s[0];
    let rest = hierarchy_fuel(d, (n - 1) as nat);
    let p = split_point(s);
    let kids = rest.take(p);
    let u = rest.skip(p);
    let head = with_children(e, kids);
    let h = hierarchy_fuel(s, n);
    assert(block_end(h, 0) == flat(head).len());
    if b - 1 >= flats(kids).len() {
        assert forall|k: int| 0 <= k < d.len() implies (#[trigger] d[k]).children.len() == 0 by {
            assert(d[k] == s[k + 1]);
        }
        lemma_childless_well_nested(d);
        lemma_hierarchy_well_nested(d, (n - 1) as nat);
        assert forall|k: int| 0 <= k < u.len() implies #[trigger] well_nested(u[k]) by {
            assert(u[k] == rest[p + k]);
        }
        lemma_flats_enclosed(u);
        let j = b - 1 - flats(kids).len();
        assert(s[b] == d[b - 1]);
        assert(d[b - 1] == flats(u)[j]);
        let c = choose|c: int| 0 <= c < u.len() && encloses(u[c], flats(u)[j]);
        assert(u[c] == rest[p + c]);
        assert(rest[p + c].start_line > e.end_line);
        assert(s[b].start_line <= s[b].end_line);
    }
}

proof fn lemma_block_end_step(s: Seq<DocSymbolView>, a: int)
    requires
        s.len() > 0,
        step_shape(s),
        0 < a,
    ensures
        block_end(hierarchy_fuel(s, s.len()), a) == 1 + block_end(
            hierarchy_fuel(s.drop_first(), (s.len() - 1) as nat),
            a - 1,
        ),
{
    let n = s.len();
    let rest = hierarchy_fuel(s.drop_first(), (n - 1) as nat);
    let p = split_point(s);
    let kids = rest.take(p);
    let u = rest.skip(p);
    let head = with_children(s[0], kids);
    let h = hierarchy_fuel(s, n);
    assert(rest =~= kids + u);
    lemma_block_end_concat(kids, u, a - 1);
    assert(h.subrange(1, h.len() as int) =~= u);
    assert(h[0] == head);
}

proof fn lemma_nest_descend(s: Seq<DocSymbolView>)
    requires
        forall|k: int| 0 <= k < s.len() ==> (#[trigger] s[k]).children.len() == 0,
        doc_sorted(s),
        laminar(s),
    ensures
        forall|a: int, b: int|
            0 <= a < b < s.len() && encloses(#[trigger] s[a], #[trigger] s[b]) ==> b < block_end(
                hierarchy_fuel(s, s.len()),
                a,
            ),
    decreases s.len(),
{
    if s.len() > 0 {
        let d = s.drop_first();
        lemma_sorted_laminar_tail(s);
        assert forall|k: int| 0 <= k < d.len() implies (#[trigger] d[k]).children.len() == 0 by {
            assert(d[k] == s[k + 1]);
        }
        lemma_nest_descend(d);
        assert forall|a: int, b: int|
            0 <= a < b < s.len() && encloses(#[trigger] s[a], #[trigger] s[b]) implies b < block_end(
                hierarchy_fuel(s, s.len()),
                a,
            ) by {
            lemma_step_shape(s);
            if a == 0 {
                lemma_descend_first(s, b);
            } else {
                lemma_block_end_step(s, a);
                assert(s[a] == d[a - 1] && s[b] == d[b - 1]);
            }
        }
    }
}

/// Law: for the symbols of a file listed by start line (those starting on
/// the same line by decreasing end line), each pair nested or apart, a
/// symbol within the lines of an earlier one ends up in that one's subtree:
/// in the preorder of the hierarchy (which is the list itself), it comes
/// before the end of the earlier symbol's subtree.
pub proof fn lemma_hierarchy_descendants(s: Seq<DocSymbolView>)
    requires
        forall|k: int| 0 <= k < s.len() ==> (#[trigger] s[k]).children.len() == 0,
        doc_sorted(s),
        laminar(s),
    ensures
        forall|a: int, b: int|
            0 <= a < b < s.len() && encloses(#[trigger] s[a], #[trigger] s[b]) ==> b < block_end(
                hierarchy(s),
                a,
            ),
{
    lemma_nest_descend(s);
}

/// Law: for the symbols of a file listed by start line (those starting on
/// the same line by decreasing end line), each pair nested or apart, the
/// hierarchy read in preorder gives back exactly the symbols in their order
/// (so every list of siblings keeps their order), and at no level does a
/// symbol lie within the lines of a sibling before it.
pub proof fn lemma_hierarchy_preorder(s: Seq<DocSymbolView>)
    requires
        forall|k: int| 0 <= k < s.len() ==> (#[trigger] s[k]).children.len() == 0,
        doc_sorted(s),
        laminar(s),
    ensures
        flats(hierarchy(s)) == s,
        unnested(hierarchy(s)),
        forall|k: int| 0 <= k < hierarchy(s).len() ==> #[trigger] siblings_unnested(hierarchy(s)[k]),
{
    lemma_nests_well(s);
}

/// What nesting gives for the symbols `s` of a file listed by start line,
/// each pair nested or apart, without children.
pub open spec fn nesting_laws(s: Seq<DocSymbolView>, h: Seq<DocSymbolView>) -> bool {
    &&& flats(h) == s
    &&& all_well_nested(h)
    &&& unnested(h)
    &&& forall|k: int| 0 <= k < h.len() ==> #[trigger] siblings_unnested(h[k])
    &&& forall|a: int, b: int|
        0 <= a < b < s.len() && encloses(#[trigger] s[a], #[trigger] s[b]) ==> b < block_end(h, a)
}

/// The symbols of a file listed by start line (those starting on the same
/// line by decreasing end line), each pair nested or apart, none with
/// children yet.
pub open spec fn listed_flat(s: Seq<DocSymbolView>) -> bool {
    &&& forall|k: int| 0 <= k < s.len() ==> (#[trigger] s[k]).children.len() == 0
    &&& doc_sorted(s)
    &&& laminar(s)
}

proof fn lemma_nesting_laws(s: Seq<DocSymbolView>)
    requires
        listed_flat(s),
    ensures
        nesting_laws(s, hierarchy(s)),
{
    lemma_hierarchy_preorder(s);
    lemma_hierarchy_descendants(s);
    lemma_childless_well_nested(s);
    lemma_children_within_parent(s);
}

// ---------------------------------------------------------------------------
// Executable functions
// ---------------------------------------------------------------------------

/// Some entry of `chosen` contains the lines `start..=end`.
fn is_claimed(chosen: &Vec<DocumentSymbolEntry>, start: i64, end: i64) -> (b: bool)
    ensures
        b == exists|k: int|
            0 <= k < chosen@.len() && chosen@[k].start_line <= start && end <= chosen@[k].end_line,
{
    let mut c: usize = 0;
    while c < chosen.len()
        invariant
            c <= chosen.len(),
            forall|k: int| 0 <= k < c ==> !(chosen@[k].start_line <= start && end <= chosen@[k].end_line),
        decreases chosen.len() - c,
    {
        if chosen[c].start_line <= start && end <= chosen[c].end_line {
            return true;
        }
        c = c + 1;
    }
    false
}

/// Splits the (already nested) entries `tail` into the children of a symbol
/// spanning `start..=end` and the entries that stay beside it.
fn split_children(tail: Vec<DocumentSymbolEntry>, start: i64, end: i64) -> (r: (
    Vec<DocumentSymbolEntry>,
    Vec<DocumentSymbolEntry>,
))
    ensures
        doc_symbol_views(r.0@) == picked(doc_symbol_views(tail@), start as int, end as int),
        doc_symbol_views(r.1@) == unpicked(doc_symbol_views(tail@), start as int, end as int),
{
    let ghost tv = doc_symbol_views(tail@);
    proof {
        lemma_doc_views(tail@);
    }
    let tlen = tail.len();
    let mut tail = tail;
    let mut children: Vec<DocumentSymbolEntry> = Vec::new();
    let mut others: Vec<DocumentSymbolEntry> = Vec::new();
    let mut k: usize = 0;
    proof {
        lemma_doc_views(children@);
        assert(tv.take(0) =~= Seq::<DocSymbolView>::empty());
        assert(doc_symbol_views(children@) =~= Seq::<DocSymbolView>::empty());
    }
    while k < tlen
        invariant
            k <= tlen,
            tv.len() == tlen,
            tail@.len() == tlen - k,
            forall|q: int| 0 <= q < tail@.len() ==> doc_symbol_view(#[trigger] tail@[q]) == tv[k + q],
            doc_symbol_views(children@) == picked(tv.take(k as int), start as int, end as int),
            doc_symbol_views(others@) == unpicked(tv.take(k as int), start as int, end as int),
        decreases tlen - k,
    {
        let ghost before_tail = tail@;
        let x = tail.remove(0);
        assert forall|q: int| 0 <= q < tail@.len() implies doc_symbol_view(
            #[trigger] tail@[q],
        ) == tv[k + 1 + q] by {
            assert(tail@[q] == before_tail[q + 1]);
        }
        let ghost xv = doc_symbol_view(x);
        assert(xv == tv[k as int]);
        let ghost pre = tv.take(k as int);
        let ghost p = picked(pre, start as int, end as int);
        assert(tv.take(k + 1).drop_last() =~= pre);
        assert(tv.take(k + 1).last() == xv);
        let claimed = is_claimed(&children, x.start_line, x.end_line);
        proof {
            lemma_doc_views(children@);
            if claimed {
                let w = choose|w: int|
                    0 <= w < children@.len() && children@[w].start_line <= x.start_line
                        && x.end_line <= children@[w].end_line;
                assert(encloses(p[w], xv));
            }
            if covered(p, xv) {
                let w = choose|w: int| 0 <= w < p.len() && #[trigger] encloses(p[w], xv);
                assert(p[w] == doc_symbol_view(children@[w]));
            }
        }
        assert(claimed == covered(p, xv));
        if x.start_line >= start && x.end_line <= end && !claimed {
            let ghost old_children = children@;
            children.push(x);
            proof {
                lemma_doc_views(old_children);
                lemma_doc_views_ext(children@, p.push(xv));
            }
        } else {
            let ghost old_others = others@;
            others.push(x);
            proof {
                lemma_doc_views(old_others);
                lemma_doc_views_ext(others@, unpicked(pre, start as int, end as int).push(xv));
            }
        }
        k = k + 1;
    }
    assert(tv.take(tlen as int) =~= tv);
    (children, others)
}

/// Nests the symbols of a file, given in order of their first line: each
/// symbol, from the last to the first, takes as children the following
/// top-level symbols whose lines lie within its own and that lie within no
/// child taken before them; the children are nested in turn.
pub fn build_symbol_hierarchy(entries: Vec<DocumentSymbolEntry>) -> (r: Vec<DocumentSymbolEntry>)
    ensures
        doc_symbol_views(r@) == hierarchy(doc_symbol_views(entries@)),
        listed_flat(doc_symbol_views(entries@)) ==> nesting_laws(
            doc_symbol_views(entries@),
            doc_symbol_views(r@),
        ),
    decreases entries@.len(),
{
    let ghost es = doc_symbol_views(entries@);
    proof {
        lemma_doc_views(entries@);
    }
    proof {
        if listed_flat(es) {
            lemma_nesting_laws(es);
        }
    }
    let n = entries.len();
    if n == 0 {
        return entries;
    }
    let mut list = entries;
    let mut i = n;
    proof {
        assert(es.take(n as int) =~= es);
        assert(es.skip(n as int) =~= Seq::<DocSymbolView>::empty());
        assert(es.take(n as int) + hierarchy_fuel(es.skip(n as int), 0) =~= es);
    }
    while i > 0
        invariant
            i <= n,
            n == es.len(),
            n == entries@.len(),
            doc_symbol_views(list@) == es.take(i as int) + hierarchy_fuel(
                es.skip(i as int),
                (n - i) as nat,
            ),
        decreases i,
    {
        i = i - 1;
        let ghost s_i = es.skip(i as int);
        let ghost rest = hierarchy_fuel(es.skip(i + 1), (n - i - 1) as nat);
        proof {
            lemma_hierarchy_len(es.skip(i + 1), (n - i - 1) as nat);
            lemma_doc_views(list@);
            assert(s_i.drop_first() =~= es.skip(i + 1));
        }
        let ghost before = list@;
        assert(doc_symbol_views(before) == es.take(i + 1) + rest);
        assert(doc_symbol_views(before).len() == i + 1 + rest.len());
        assert(doc_symbol_view(before[i as int]) == doc_symbol_views(before)[i as int]);
        assert(doc_symbol_view(list@[i as int]) == es[i as int]);
        let start = list[i].start_line;
        let end = list[i].end_line;
        let tail = list.split_off(i + 1);
        proof {
            assert forall|k: int| 0 <= k < tail@.len() implies doc_symbol_view(tail@[k]) == rest[k] by {
                assert(tail@[k] == before[i + 1 + k]);
                assert(doc_symbol_view(before[i + 1 + k]) == doc_symbol_views(before)[i + 1 + k]);
            }
            lemma_doc_views_ext(tail@, rest);
            assert(list@ =~= before.take(i + 1));
        }
        let (children, mut others) = split_children(tail, start, end);
        let ghost e = es[i as int];
        let ghost kids = picked(rest, e.start_line, e.end_line);
        proof {
            lemma_pick_len(rest, e.start_line, e.end_line);
            lemma_doc_views(children@);
            lemma_doc_views(others@);
        }
        let ghost head: DocSymbolView;
        if children.len() > 0 {
            assert(children@.len() < entries@.len());
            let built = build_symbol_hierarchy(children);
            proof {
                lemma_hierarchy_fuel(kids, (n - i - 1) as nat);
            }
            let ghost pre_pop = list@;
            let mut last = list.pop().unwrap();
            last.children = built;
            list.push(last);
            proof {
                head = DocSymbolView { children: hierarchy_fuel(kids, (n - i - 1) as nat), ..e };
                assert(doc_symbol_view(last) == head);
                assert(list@[i as int] == last);
                assert(forall|k: int| 0 <= k < i ==> list@[k] == pre_pop[k]);
            }
        } else {
            proof {
                head = e;
            }
        }
        assert(list@.len() == i + 1);
        assert(doc_symbol_view(list@[i as int]) == head);
        assert(forall|k: int| 0 <= k < i ==> list@[k] == before[k]);
        let ghost mid = list@;
        let ghost moved = others@;
        list.append(&mut others);
        proof {
            lemma_doc_views(list@);
            lemma_doc_views(mid);
            lemma_doc_views(moved);
            let target = es.take(i as int) + (seq![head] + unpicked(rest, e.start_line, e.end_line));
            assert forall|k: int| 0 <= k < list@.len() implies doc_symbol_view(list@[k]) == target[k] by {
                if k < i {
                    assert(list@[k] == before[k]);
                    assert(doc_symbol_view(before[k]) == doc_symbol_views(before)[k]);
                } else if k == i {
                } else {
                    assert(list@[k] == moved[k - i - 1]);
                    assert(doc_symbol_view(moved[k - i - 1]) == doc_symbol_views(moved)[k - i - 1]);
                }
            }
            assert(hierarchy_fuel(s_i, (n - i) as nat) == seq![head] + unpicked(
                rest,
                e.start_line,
                e.end_line,
            ));
            lemma_doc_views_ext(
                list@,
                es.take(i as int) + hierarchy_fuel(es.skip(i as int), (n - i) as nat),
            );
        }
    }
    proof {
        assert(es.skip(0) =~= es);
        assert(es.take(0) + hierarchy_fuel(es, n as nat) =~= hierarchy_fuel(es, n as nat));
        if listed_flat(es) {
            lemma_nesting_laws(es);
        }
    }
    list
}

} // verus!
