//! Syntax trees of source files, held as plain values.
//!
//! A tree is the preorder list of its nodes (kind, field name in the parent,
//! whether the node is named, byte range, depth) together with the source
//! bytes.  Children, fields, text and positions are defined over that list.

use crate::models::Language;
use crate::models::Language::{Java, JavaScript, Python, Rust, TypeScript};
use crate::text::str_eq;
use vstd::prelude::*;
use vstd::string::StringSliceAdditionalSpecFns;
use vstd::utf8::{decode_utf8, encode_utf8, valid_utf8};

verus! {

/// One node of a syntax tree, in preorder.
pub struct FlatNode {
    pub kind: String,
    pub field: Option<String>,
    pub named: bool,
    pub start: usize,
    pub end: usize,
    pub depth: usize,
}

/// The mathematical content of a [`FlatNode`].
pub struct NodeView {
    pub kind: Seq<char>,
    pub field: Option<Seq<char>>,
    pub named: bool,
    pub start: nat,
    pub end: nat,
    pub depth: nat,
}

impl View for FlatNode {
    type V = NodeView;

    open spec fn view(&self) -> NodeView {
        NodeView {
            kind: self.kind@,
            field: crate::models::opt_view(self.field),
            named: self.named,
            start: self.start as nat,
            end: self.end as nat,
            depth: self.depth as nat,
        }
    }
}

/// The views of a sequence of nodes.
pub open spec fn node_views(s: Seq<FlatNode>) -> Seq<NodeView> {
    s.map_values(|n: FlatNode| n@)
}

/// The preorder node list that tree-sitter produces for `source` in `language`.
pub uninterp spec fn syntax_of(language: Language, source: Seq<char>) -> Option<Seq<NodeView>>;

/// Parses `source` with the tree-sitter grammar of `language`
/// (`tree_sitter::Parser::parse`) and lists the tree's nodes in preorder
/// (the order of `TreeCursor::goto_descendant`), each with its kind, the field
/// name under which it hangs in its parent, whether it is named, its byte range
/// and its depth.  The result is a function of the language and the text alone;
/// which nodes the grammar produces is not restated here.
#[verifier::external_body]
fn syntax_nodes(language: Language, source: &str) -> (r: Option<Vec<FlatNode>>)
    ensures
        match r {
            Some(v) => syntax_of(language, source@) == Some(node_views(v@)),
            None => syntax_of(language, source@) is None,
        },
{
    let grammar = match language { Rust => tree_sitter_rust::LANGUAGE, Python => tree_sitter_python::LANGUAGE,
        JavaScript => tree_sitter_javascript::LANGUAGE, TypeScript => tree_sitter_typescript::LANGUAGE_TSX,
        Java => tree_sitter_java::LANGUAGE };
    let mut parser = tree_sitter::Parser::new();
    parser.set_language(&grammar.into()).ok()?;
    let tree = parser.parse(source, None)?;
    let mut c = tree.walk();
    Some((0..tree.root_node().descendant_count()).map(|i| {
        c.goto_descendant(i);
        let n = c.node();
        FlatNode { kind: n.kind().to_string(), field: c.field_name().map(String::from), named: n.is_named(),
            start: n.start_byte(), end: n.end_byte(), depth: c.depth() as usize }
    }).collect())
}

/// Converts `std::str::from_utf8` on `bytes` into an owned string; `None` when
/// the bytes are not valid UTF-8.
#[verifier::external_body]
fn utf8_string(bytes: &[u8]) -> (r: Option<String>)
    ensures
        r is Some <==> valid_utf8(bytes@),
        r matches Some(s) ==> s@ == decode_utf8(bytes@),
{
    std::str::from_utf8(bytes).ok().map(String::from)
}

/// A syntax tree as plain values.
pub struct TreeView {
    pub nodes: Seq<NodeView>,
    pub source: Seq<u8>,
}

/// The tree that the library builds for `content` in `language`.
pub open spec fn tree_of(language: Language, content: Seq<char>) -> TreeView {
    let bytes = encode_utf8(content);
    TreeView {
        nodes: match syntax_of(language, content) {
            Some(v) => if bytes.len() < usize::MAX {
                v
            } else {
                Seq::empty()
            },
            None => Seq::empty(),
        },
        source: bytes,
    }
}

impl TreeView {
    /// The first position at or after `k` whose depth is at most `d`.
    pub open spec fn scan_end(self, d: nat, k: int) -> int
        decreases self.nodes.len() - k,
    {
        if k < 0 || k >= self.nodes.len() || self.nodes[k].depth <= d {
            k
        } else {
            self.scan_end(d, k + 1)
        }
    }

    /// One past the last node of the subtree rooted at `i`.
    pub open spec fn end(self, i: int) -> int {
        self.scan_end(self.nodes[i].depth, i + 1)
    }

    pub proof fn lemma_scan_end(self, d: nat, k: int)
        requires
            0 <= k <= self.nodes.len(),
        ensures
            k <= self.scan_end(d, k) <= self.nodes.len(),
            forall|m: int| k <= m < self.scan_end(d, k) ==> self.nodes[m].depth > d,
            self.scan_end(d, k) < self.nodes.len() ==> self.nodes[self.scan_end(d, k)].depth <= d,
        decreases self.nodes.len() - k,
    {
        if k < self.nodes.len() && self.nodes[k].depth > d {
            self.lemma_scan_end(d, k + 1);
        }
    }

    pub proof fn lemma_end(self, i: int)
        requires
            0 <= i < self.nodes.len(),
        ensures
            i < self.end(i) <= self.nodes.len(),
    {
        self.lemma_scan_end(self.nodes[i].depth, i + 1);
    }

    /// The children of `i` from position `j` on: `j`, then the node after `j`'s subtree, and so on.
    pub open spec fn children_from(self, i: int, j: int) -> Seq<int>
        decreases self.nodes.len() - j,
    {
        if 0 <= i && i < j && j < self.nodes.len() && i < self.nodes.len() && j < self.end(i) {
            proof {
                self.lemma_end(j);
            }
            seq![j] + self.children_from(i, self.end(j))
        } else {
            Seq::empty()
        }
    }

    /// The children of `i`, in order.
    pub open spec fn children(self, i: int) -> Seq<int> {
        self.children_from(i, i + 1)
    }

    pub proof fn lemma_children_from_bounds(self, i: int, j: int)
        requires
            0 <= i < j,
        ensures
            forall|k: int|
                0 <= k < self.children_from(i, j).len() ==> j <= #[trigger] self.children_from(
                    i,
                    j,
                )[k] < self.nodes.len(),
        decreases self.nodes.len() - j,
    {
        if 0 <= i && i < j && j < self.nodes.len() && i < self.nodes.len() && j < self.end(i) {
            self.lemma_end(j);
            self.lemma_children_from_bounds(i, self.end(j));
            let rest = self.children_from(i, self.end(j));
            assert(self.children_from(i, j) == seq![j] + rest);
            assert forall|k: int| 0 <= k < self.children_from(i, j).len() implies j
                <= #[trigger] self.children_from(i, j)[k] < self.nodes.len() by {
                if k > 0 {
                    assert(self.children_from(i, j)[k] == rest[k - 1]);
                }
            }
        }
    }

    /// The children of `i` come after it and are nodes of the tree.
    pub proof fn lemma_children_bounds(self, i: int)
        requires
            0 <= i,
        ensures
            forall|k: int|
                0 <= k < self.children(i).len() ==> i < #[trigger] self.children(i)[k]
                    < self.nodes.len(),
    {
        self.lemma_children_from_bounds(i, i + 1);
    }

    /// The kind of node `i`.
    pub open spec fn kind(self, i: int) -> Seq<char> {
        self.nodes[i].kind
    }

    /// The source text of node `i` (`Node::utf8_text(..).ok()`).
    pub open spec fn text(self, i: int) -> Option<Seq<char>> {
        let n = self.nodes[i];
        if n.start <= n.end && n.end <= self.source.len() && valid_utf8(
            self.source.subrange(n.start as int, n.end as int),
        ) {
            Some(decode_utf8(self.source.subrange(n.start as int, n.end as int)))
        } else {
            None
        }
    }

    /// The first node of `cs` hanging under field `name`.
    pub open spec fn first_with_field(self, cs: Seq<int>, name: Seq<char>) -> Option<int>
        decreases cs.len(),
    {
        if cs.len() == 0 {
            None
        } else if self.nodes[cs[0]].field == Some(name) {
            Some(cs[0])
        } else {
            self.first_with_field(cs.drop_first(), name)
        }
    }

    /// The child of `i` under field `name` (`Node::child_by_field_name`).
    pub open spec fn field_child(self, i: int, name: Seq<char>) -> Option<int> {
        self.first_with_field(self.children(i), name)
    }

    /// The first node of `cs` of kind `kind`.
    pub open spec fn first_of_kind(self, cs: Seq<int>, kind: Seq<char>) -> Option<int>
        decreases cs.len(),
    {
        if cs.len() == 0 {
            None
        } else if self.nodes[cs[0]].kind == kind {
            Some(cs[0])
        } else {
            self.first_of_kind(cs.drop_first(), kind)
        }
    }

    /// The first child of `i` of kind `kind`.
    pub open spec fn kind_child(self, i: int, kind: Seq<char>) -> Option<int> {
        self.first_of_kind(self.children(i), kind)
    }

    /// The first child of `i` (`Node::child(0)`).
    pub open spec fn first_child(self, i: int) -> Option<int> {
        let cs = self.children(i);
        if cs.len() > 0 {
            Some(cs[0])
        } else {
            None
        }
    }

    /// The source text of node `i`, or the empty text when it is not valid UTF-8.
    pub open spec fn text_or_empty(self, i: int) -> Seq<char> {
        match self.text(i) {
            Some(x) => x,
            None => Seq::empty(),
        }
    }

    /// The number of line feeds in the first `b` source bytes.
    pub open spec fn newlines_before(self, b: int) -> nat
        decreases b,
    {
        if b <= 0 || b > self.source.len() {
            0
        } else {
            self.newlines_before(b - 1) + (if self.source[b - 1] == 10u8 {
                1nat
            } else {
                0nat
            })
        }
    }

    /// The byte position where the line holding byte `b` starts.
    pub open spec fn line_start(self, b: int) -> int
        decreases b,
    {
        if b <= 0 || b > self.source.len() {
            0
        } else if self.source[b - 1] == 10u8 {
            b
        } else {
            self.line_start(b - 1)
        }
    }

    /// The zero-based row of byte position `b`.
    pub open spec fn row(self, b: nat) -> nat {
        self.newlines_before(b as int)
    }

    /// The zero-based byte column of byte position `b`.
    pub open spec fn col(self, b: nat) -> nat {
        if b > self.source.len() {
            0
        } else {
            (b - self.line_start(b as int)) as nat
        }
    }

    /// The nearest node before `j` (inclusive) that is shallower than `i`.
    pub open spec fn parent_from(self, i: int, j: int) -> Option<int>
        decreases j + 1,
    {
        if j < 0 {
            None
        } else if self.nodes[j].depth < self.nodes[i].depth {
            Some(j)
        } else {
            self.parent_from(i, j - 1)
        }
    }

    /// The parent of node `i` (`Node::parent`).
    pub open spec fn parent(self, i: int) -> Option<int> {
        self.parent_from(i, i - 1)
    }

    /// The last named node of `cs` that comes before `i`.
    pub open spec fn last_named_before(self, cs: Seq<int>, i: int) -> Option<int>
        decreases cs.len(),
    {
        if cs.len() == 0 {
            None
        } else if cs.last() < i && self.nodes[cs.last()].named {
            Some(cs.last())
        } else {
            self.last_named_before(cs.drop_last(), i)
        }
    }

    /// The previous named sibling of node `i` (`Node::prev_named_sibling`).
    pub open spec fn prev_named_sibling(self, i: int) -> Option<int> {
        match self.parent(i) {
            Some(p) => self.last_named_before(self.children(p), i),
            None => None,
        }
    }

    /// 1-based first line of node `i`.
    pub open spec fn start_line(self, i: int) -> nat {
        self.row(self.nodes[i].start) + 1
    }

    /// 1-based last line of node `i`.
    pub open spec fn end_line(self, i: int) -> nat {
        self.row(self.nodes[i].end) + 1
    }

    /// 0-based byte column where node `i` starts.
    pub open spec fn start_col(self, i: int) -> nat {
        self.col(self.nodes[i].start)
    }

    /// 0-based byte column where node `i` ends.
    pub open spec fn end_col(self, i: int) -> nat {
        self.col(self.nodes[i].end)
    }
}

/// A syntax tree: its nodes in preorder, the end of each node's subtree, and the source bytes.
pub struct SyntaxTree {
    pub nodes: Vec<FlatNode>,
    pub ends: Vec<usize>,
    pub source: Vec<u8>,
}

impl View for SyntaxTree {
    type V = TreeView;

    open spec fn view(&self) -> TreeView {
        TreeView { nodes: node_views(self.nodes@), source: self.source@ }
    }
}

impl SyntaxTree {
    /// The subtree ends are those of the node list.
    pub open spec fn wf(&self) -> bool {
        &&& self.ends@.len() == self.nodes@.len()
        &&& forall|i: int| 0 <= i < self.nodes@.len() ==> self.ends@[i] as int == #[trigger] self@.end(i)
        &&& self.nodes@.len() > 0 ==> self.source@.len() < usize::MAX
    }

    /// Parses `content` in `language`.
    pub fn build(language: Language, content: &str) -> (t: SyntaxTree)
        ensures
            t.wf(),
            t@ == tree_of(language, content@),
    {
        let source = vstd::slice::slice_to_vec(content.as_bytes());
        let nodes = match syntax_nodes(language, content) {
            Some(v) => if source.len() < usize::MAX {
                v
            } else {
                Vec::new()
            },
            None => Vec::new(),
        };
        let ghost tv = TreeView { nodes: node_views(nodes@), source: source@ };
        let n = nodes.len();
        let mut ends: Vec<usize> = Vec::new();
        let mut i: usize = 0;
        while i < n
            invariant
                n == nodes@.len(),
                tv.nodes == node_views(nodes@),
                i <= n,
                ends@.len() == i,
                forall|k: int| 0 <= k < i ==> ends@[k] as int == #[trigger] tv.end(k),
            decreases n - i,
        {
            let d = nodes[i].depth;
            let mut k = i + 1;
            proof {
                tv.lemma_scan_end(d as nat, i + 1);
            }
            while k < n && nodes[k].depth > d
                invariant
                    n == nodes@.len(),
                    tv.nodes == node_views(nodes@),
                    i < k <= n,
                    d == nodes@[i as int].depth,
                    tv.scan_end(d as nat, i + 1) == tv.scan_end(d as nat, k as int),
                decreases n - k,
            {
                k = k + 1;
            }
            ends.push(k);
            i = i + 1;
        }
        let t = SyntaxTree { nodes, ends, source };
        assert(t@ == tv);
        assert(t@.nodes == tree_of(language, content@).nodes);
        t
    }

    /// Number of nodes.
    pub fn len(&self) -> (n: usize)
        ensures
            n == self@.nodes.len(),
    {
        self.nodes.len()
    }

    /// One past the last node of the subtree rooted at `i`.
    pub fn end_of(&self, i: usize) -> (e: usize)
        requires
            self.wf(),
            i < self@.nodes.len(),
        ensures
            e == self@.end(i as int),
            i < e <= self@.nodes.len(),
    {
        proof {
            self@.lemma_end(i as int);
        }
        self.ends[i]
    }

    /// Node `i` has kind `k`.
    pub fn kind_is(&self, i: usize, k: &str) -> (b: bool)
        requires
            i < self@.nodes.len(),
        ensures
            b == (self@.kind(i as int) == k@),
    {
        str_eq(self.nodes[i].kind.as_str(), k)
    }

    /// Node `i` is named.
    pub fn is_named(&self, i: usize) -> (b: bool)
        requires
            i < self@.nodes.len(),
        ensures
            b == self@.nodes[i as int].named,
    {
        self.nodes[i].named
    }

    /// The source text of node `i`.
    pub fn text(&self, i: usize) -> (r: Option<String>)
        requires
            i < self@.nodes.len(),
        ensures
            opt_string_view(r) == self@.text(i as int),
    {
        let s = self.nodes[i].start;
        let e = self.nodes[i].end;
        if s <= e && e <= self.source.len() {
            let sub = vstd::slice::slice_subrange(self.source.as_slice(), s, e);
            utf8_string(sub)
        } else {
            None
        }
    }

    /// The children of `i`, in order.
    pub fn children(&self, i: usize) -> (cs: Vec<usize>)
        requires
            self.wf(),
            i < self@.nodes.len(),
        ensures
            index_views(cs@) == self@.children(i as int),
            forall|k: int| 0 <= k < cs@.len() ==> i < #[trigger] cs@[k] < self@.nodes.len(),
    {
        let end = self.end_of(i);
        let mut cs: Vec<usize> = Vec::new();
        let mut j = i + 1;
        while j < end
            invariant
                self.wf(),
                i < j,
                i < self@.nodes.len(),
                end == self@.end(i as int),
                end <= self@.nodes.len(),
                j <= self@.nodes.len(),
                index_views(cs@) + self@.children_from(i as int, j as int) == self@.children(
                    i as int,
                ),
                forall|k: int| 0 <= k < cs@.len() ==> i < #[trigger] cs@[k] < self@.nodes.len(),
            decreases self@.nodes.len() - j,
        {
            let ghost before = index_views(cs@);
            let nj = self.end_of(j);
            cs.push(j);
            assert(index_views(cs@) =~= before.push(j as int));
            assert(self@.children_from(i as int, j as int) =~= seq![j as int]
                + self@.children_from(i as int, nj as int));
            j = nj;
        }
        assert(self@.children_from(i as int, j as int) =~= Seq::<int>::empty());
        assert(index_views(cs@) =~= index_views(cs@) + self@.children_from(i as int, j as int));
        cs
    }

    /// The first child of `i`.
    pub fn first_child(&self, i: usize) -> (r: Option<usize>)
        requires
            self.wf(),
            i < self@.nodes.len(),
        ensures
            opt_index_view(r) == self@.first_child(i as int),
            r matches Some(x) ==> i < x < self@.nodes.len(),
    {
        let cs = self.children(i);
        if cs.len() > 0 {
            Some(cs[0])
        } else {
            None
        }
    }

    /// The source text of node `i`, or the empty text.
    pub fn text_or_empty(&self, i: usize) -> (r: String)
        requires
            i < self@.nodes.len(),
        ensures
            r@ == self@.text_or_empty(i as int),
    {
        match self.text(i) {
            Some(x) => x,
            None => String::new(),
        }
    }

    /// The first of `cs` hanging under field `name`.
    pub fn first_with_field(&self, cs: &Vec<usize>, name: &str) -> (r: Option<usize>)
        requires
            forall|k: int| 0 <= k < cs@.len() ==> #[trigger] cs@[k] < self@.nodes.len(),
        ensures
            opt_index_view(r) == self@.first_with_field(index_views(cs@), name@),
            r matches Some(x) ==> x < self@.nodes.len(),
    {
        let mut k: usize = 0;
        assert(index_views(cs@).skip(0) =~= index_views(cs@));
        while k < cs.len()
            invariant
                k <= cs@.len(),
                forall|m: int| 0 <= m < cs@.len() ==> #[trigger] cs@[m] < self@.nodes.len(),
                self@.first_with_field(index_views(cs@), name@) == self@.first_with_field(
                    index_views(cs@).skip(k as int),
                    name@,
                ),
            decreases cs.len() - k,
        {
            let c = cs[k];
            assert(index_views(cs@).skip(k as int)[0] == c as int);
            let matches = match &self.nodes[c].field {
                Some(f) => str_eq(f.as_str(), name),
                None => false,
            };
            if matches {
                return Some(c);
            }
            assert(index_views(cs@).skip(k as int).drop_first() =~= index_views(cs@).skip(k + 1));
            k = k + 1;
        }
        None
    }

    /// The child of `i` under field `name`.
    pub fn field_child(&self, i: usize, name: &str) -> (r: Option<usize>)
        requires
            self.wf(),
            i < self@.nodes.len(),
        ensures
            opt_index_view(r) == self@.field_child(i as int, name@),
            r matches Some(x) ==> i < x < self@.nodes.len(),
    {
        let cs = self.children(i);
        let r = self.first_with_field(&cs, name);
        proof {
            if r is Some {
                self.lemma_first_with_field_member(cs@, name@);
            }
        }
        r
    }

    proof fn lemma_first_with_field_member(&self, cs: Seq<usize>, name: Seq<char>)
        ensures
            self@.first_with_field(index_views(cs), name) matches Some(x) ==> exists|k: int|
                0 <= k < cs.len() && cs[k] as int == x,
        decreases cs.len(),
    {
        if cs.len() > 0 {
            assert(index_views(cs).drop_first() =~= index_views(cs.drop_first()));
            self.lemma_first_with_field_member(cs.drop_first(), name);
            if let Some(x) = self@.first_with_field(index_views(cs), name) {
                if x != cs[0] as int {
                    let k = choose|k: int| 0 <= k < cs.drop_first().len() && cs.drop_first()[k] as int == x;
                    assert(cs[k + 1] as int == x);
                }
            }
        }
    }

    /// The first of `cs` of kind `kind`.
    pub fn first_of_kind(&self, cs: &Vec<usize>, kind: &str) -> (r: Option<usize>)
        requires
            forall|k: int| 0 <= k < cs@.len() ==> #[trigger] cs@[k] < self@.nodes.len(),
        ensures
            opt_index_view(r) == self@.first_of_kind(index_views(cs@), kind@),
            r matches Some(x) ==> exists|k: int| 0 <= k < cs@.len() && cs@[k] == x,
    {
        let mut k: usize = 0;
        assert(index_views(cs@).skip(0) =~= index_views(cs@));
        while k < cs.len()
            invariant
                k <= cs@.len(),
                forall|m: int| 0 <= m < cs@.len() ==> #[trigger] cs@[m] < self@.nodes.len(),
                self@.first_of_kind(index_views(cs@), kind@) == self@.first_of_kind(
                    index_views(cs@).skip(k as int),
                    kind@,
                ),
            decreases cs.len() - k,
        {
            let c = cs[k];
            assert(index_views(cs@).skip(k as int)[0] == c as int);
            if self.kind_is(c, kind) {
                return Some(c);
            }
            assert(index_views(cs@).skip(k as int).drop_first() =~= index_views(cs@).skip(k + 1));
            k = k + 1;
        }
        None
    }

    /// The first child of `i` of kind `kind`.
    pub fn kind_child(&self, i: usize, kind: &str) -> (r: Option<usize>)
        requires
            self.wf(),
            i < self@.nodes.len(),
        ensures
            opt_index_view(r) == self@.kind_child(i as int, kind@),
            r matches Some(x) ==> i < x < self@.nodes.len(),
    {
        let cs = self.children(i);
        self.first_of_kind(&cs, kind)
    }

    /// The row and byte column of byte position `b`.
    pub fn point(&self, b: usize) -> (r: (usize, usize))
        requires
            self.wf(),
        ensures
            r.0 == self@.row(b as nat),
            r.1 == self@.col(b as nat),
    {
        if b > self.source.len() {
            return (0, 0);
        }
        let mut k: usize = 0;
        let mut rows: usize = 0;
        let mut ls: usize = 0;
        while k < b
            invariant
                b <= self@.source.len(),
                k <= b,
                rows == self@.newlines_before(k as int),
                ls == self@.line_start(k as int),
                rows <= k,
                ls <= k,
            decreases b - k,
        {
            if self.source[k] == 10u8 {
                rows = rows + 1;
                ls = k + 1;
            }
            k = k + 1;
        }
        (rows, b - ls)
    }

    /// The parent of node `i`.
    pub fn parent(&self, i: usize) -> (r: Option<usize>)
        requires
            i < self@.nodes.len(),
        ensures
            opt_index_view(r) == self@.parent(i as int),
            r matches Some(p) ==> p < i,
    {
        let mut j = i;
        while j > 0
            invariant
                j <= i < self@.nodes.len(),
                self@.parent(i as int) == self@.parent_from(i as int, j - 1),
            decreases j,
        {
            if self.nodes[j - 1].depth < self.nodes[i].depth {
                return Some(j - 1);
            }
            j = j - 1;
        }
        None
    }

    /// The previous named sibling of node `i`.
    pub fn prev_named_sibling(&self, i: usize) -> (r: Option<usize>)
        requires
            self.wf(),
            i < self@.nodes.len(),
        ensures
            opt_index_view(r) == self@.prev_named_sibling(i as int),
            r matches Some(x) ==> x < i,
    {
        match self.parent(i) {
            None => None,
            Some(p) => {
                let cs = self.children(p);
                assert(self@.parent(i as int) == Some(p as int));
                assert(self@.prev_named_sibling(i as int) == self@.last_named_before(
                    index_views(cs@),
                    i as int,
                ));
                let mut k = cs.len();
                assert(index_views(cs@).take(k as int) =~= index_views(cs@));
                while k > 0
                    invariant
                        k <= cs@.len(),
                        forall|m: int| 0 <= m < cs@.len() ==> #[trigger] cs@[m] < self@.nodes.len(),
                        self@.prev_named_sibling(i as int) == self@.last_named_before(
                            index_views(cs@),
                            i as int,
                        ),
                        self@.last_named_before(index_views(cs@), i as int)
                            == self@.last_named_before(index_views(cs@).take(k as int), i as int),
                    decreases k,
                {
                    let c = cs[k - 1];
                    assert(index_views(cs@).take(k as int).last() == c as int);
                    if c < i && self.nodes[c].named {
                        assert(self@.nodes[c as int].named);
                        assert(self@.last_named_before(index_views(cs@).take(k as int), i as int)
                            == Some(c as int));
                        return Some(c);
                    }
                    assert(index_views(cs@).take(k as int).drop_last() =~= index_views(cs@).take(
                        k - 1,
                    ));
                    k = k - 1;
                }
                None
            },
        }
    }

    /// The 1-based start line, 1-based end line, start column and end column of node `i`.
    pub fn span(&self, i: usize) -> (r: (usize, usize, usize, usize))
        requires
            self.wf(),
            i < self@.nodes.len(),
        ensures
            r.0 == self@.start_line(i as int),
            r.1 == self@.end_line(i as int),
            r.2 == self@.start_col(i as int),
            r.3 == self@.end_col(i as int),
    {
        let (sr, sc) = self.point(self.nodes[i].start);
        let (er, ec) = self.point(self.nodes[i].end);
        proof {
            self@.lemma_row_bound(self@.nodes[i as int].start);
            self@.lemma_row_bound(self@.nodes[i as int].end);
        }
        (sr + 1, er + 1, sc, ec)
    }
}

impl TreeView {
    pub proof fn lemma_last_named_before_lt(self, cs: Seq<int>, i: int)
        ensures
            self.last_named_before(cs, i) matches Some(x) ==> x < i,
        decreases cs.len(),
    {
        if cs.len() > 0 {
            self.lemma_last_named_before_lt(cs.drop_last(), i);
        }
    }

    pub proof fn lemma_prev_named_sibling_lt(self, i: int)
        ensures
            self.prev_named_sibling(i) matches Some(x) ==> x < i,
    {
        if let Some(p) = self.parent(i) {
            self.lemma_last_named_before_lt(self.children(p), i);
        }
    }

    pub proof fn lemma_row_bound(self, b: nat)
        ensures
            self.row(b) <= self.source.len(),
    {
        self.lemma_newlines_bound(b as int);
    }

    proof fn lemma_newlines_bound(self, b: int)
        ensures
            self.newlines_before(b) <= if b <= 0 || b > self.source.len() {
                0
            } else {
                b
            },
        decreases b,
    {
        if b > 0 && b <= self.source.len() {
            self.lemma_newlines_bound(b - 1);
        }
    }
}

/// The view of an optional string.
pub open spec fn opt_string_view(o: Option<String>) -> Option<Seq<char>> {
    crate::models::opt_view(o)
}

/// Node indices as integers.
pub open spec fn index_views(s: Seq<usize>) -> Seq<int> {
    s.map_values(|x: usize| x as int)
}

/// An optional node index as an integer.
pub open spec fn opt_index_view(o: Option<usize>) -> Option<int> {
    match o {
        Some(x) => Some(x as int),
        None => None,
    }
}

} // verus!
