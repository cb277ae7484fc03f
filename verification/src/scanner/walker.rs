//! What the library makes of a directory walk.
//!
//! The walk itself (which honours `.gitignore` files, skips hidden entries and
//! the directories of [`ignored_dirs`]) is done by the caller; each function
//! here takes the entries that the walk produced, in walk order, an error
//! standing for an entry that could not be read.

use crate::error::CortexError;
use crate::mcp_server::models::{FileEntry, FileType};
use crate::models::{language_of_extension, Language};
use crate::paths::{extension, extension_of, file_name, file_name_str};
use crate::report::{lemma_str_less_irreflexive, lemma_str_less_transitive, str_less};
use crate::text::{
    chars_eq, chars_to_string, join, join_chars, join_strings, split, split_chars, str_eq,
    string_views, to_chars, views,
};
use vstd::prelude::*;

verus! {

/// Directory names that a walk never enters.
pub open spec fn ignored_dir_names() -> Seq<Seq<char>> {
    seq![
        "target"@,
        "node_modules"@,
        ".cortex"@,
        "dist"@,
        "build"@,
        "out"@,
        "vendor"@,
        "__pycache__"@,
        ".venv"@,
        "venv"@,
        ".tox"@,
        ".mypy_cache"@,
        ".pytest_cache"@,
        "coverage"@,
        ".next"@,
        ".nuxt"@,
        ".cache"@,
    ]
}

/// Directory names that a walk never enters (build output, dependencies, caches).
pub fn ignored_dirs() -> (r: Vec<&'static str>)
    ensures
        r@.map_values(|s: &'static str| s@) == ignored_dir_names(),
{
    let r = vec![
        "target",
        "node_modules",
        ".cortex",
        "dist",
        "build",
        "out",
        "vendor",
        "__pycache__",
        ".venv",
        "venv",
        ".tox",
        ".mypy_cache",
        ".pytest_cache",
        "coverage",
        ".next",
        ".nuxt",
        ".cache",
    ];
    assert(r@.map_values(|s: &'static str| s@) =~= ignored_dir_names());
    r
}

/// One entry of a directory walk: its path (the walk root joined with the
/// names below it), its depth below the root, what kind of entry it is (a
/// symbolic link is not followed), and, for what it points to, its size.
#[derive(Debug, Clone)]
pub struct WalkEntry {
    pub path: String,
    pub depth: usize,
    pub is_dir: bool,
    pub is_file: bool,
    pub is_symlink: bool,
    pub size: Option<u64>,
}

/// A source file found by a walk, with its language.
#[derive(Debug)]
pub struct WalkResult {
    pub path: String,
    pub language: Language,
}

// ---------------------------------------------------------------------------
// Path components
// ---------------------------------------------------------------------------

/// The components of the segments `segs` from position `i` on: empty segments
/// and `.` are left out, `..` is a parent component (2), others are normal (3).
pub open spec fn components_from(segs: Seq<Seq<char>>, i: int) -> Seq<(nat, Seq<char>)>
    decreases segs.len() - i,
{
    if i < 0 || i >= segs.len() {
        Seq::empty()
    } else if segs[i].len() == 0 || segs[i] == seq!['.'] {
        components_from(segs, i + 1)
    } else if segs[i] == seq!['.', '.'] {
        seq![(2nat, segs[i])] + components_from(segs, i + 1)
    } else {
        seq![(3nat, segs[i])] + components_from(segs, i + 1)
    }
}

/// The components of a Unix path (`Path::components`): a root (0) for an
/// absolute path, a current-directory component (1) for a path that starts
/// with `.`, then its parent and normal components.
pub open spec fn path_components(p: Seq<char>) -> Seq<(nat, Seq<char>)> {
    let segs = split(p, seq!['/']);
    let absolute = p.len() > 0 && p[0] == '/';
    let head = if absolute {
        seq![(0nat, Seq::<char>::empty())]
    } else if segs.len() > 0 && segs[0] == seq!['.'] {
        seq![(1nat, seq!['.'])]
    } else {
        Seq::empty()
    };
    head + components_from(segs, 0)
}

/// The order of components: by kind, then normal names by their text.
pub open spec fn component_less(a: (nat, Seq<char>), b: (nat, Seq<char>)) -> bool {
    a.0 < b.0 || (a.0 == b.0 && str_less(a.1, b.1))
}

/// The order of paths (`Path::cmp`): component by component.
pub open spec fn components_less(a: Seq<(nat, Seq<char>)>, b: Seq<(nat, Seq<char>)>) -> bool
    decreases a.len(),
{
    if a.len() == 0 {
        b.len() > 0
    } else if b.len() == 0 {
        false
    } else if a[0] == b[0] {
        components_less(a.drop_first(), b.drop_first())
    } else {
        component_less(a[0], b[0])
    }
}

/// The text of a component.
pub open spec fn component_text(c: (nat, Seq<char>)) -> Seq<char> {
    if c.0 == 0 {
        Seq::empty()
    } else {
        c.1
    }
}

/// `p` relative to `root` (`Path::strip_prefix`): when the components of
/// `root` begin those of `p`, the remaining components joined by `/`.
pub open spec fn relative_to(p: Seq<char>, root: Seq<char>) -> Option<Seq<char>> {
    let pc = path_components(p);
    let rc = path_components(root);
    if rc.is_prefix_of(pc) {
        Some(join(pc.skip(rc.len() as int).map_values(|c: (nat, Seq<char>)| component_text(c)), seq!['/']))
    } else {
        None
    }
}

/// The plain-value form of components.
pub open spec fn component_views(v: Seq<(u8, Vec<char>)>) -> Seq<(nat, Seq<char>)> {
    v.map_values(|c: (u8, Vec<char>)| (c.0 as nat, c.1@))
}

/// The components of `p`.
fn components_of(p: &str) -> (r: Vec<(u8, Vec<char>)>)
    ensures
        component_views(r@) == path_components(p@),
{
    let cs = to_chars(p);
    let slash = ['/'];
    assert(slash@ =~= seq!['/']);
    let segs = split_chars(cs.as_slice(), &slash);
    let ghost sv = views(segs@);
    let dot = ['.'];
    let dots = ['.', '.'];
    assert(dot@ =~= seq!['.']);
    assert(dots@ =~= seq!['.', '.']);
    let mut r: Vec<(u8, Vec<char>)> = Vec::new();
    let absolute = cs.len() > 0 && cs[0] == '/';
    if absolute {
        r.push((0u8, Vec::new()));
    } else if segs.len() > 0 && chars_eq(segs[0].as_slice(), &dot) {
        r.push((1u8, to_chars(".")));
        proof {
            reveal_strlit(".");
            assert("."@ =~= seq!['.']);
        }
    }
    let ghost head = component_views(r@);
    assert(head == (if absolute {
        seq![(0nat, Seq::<char>::empty())]
    } else if sv.len() > 0 && sv[0] == seq!['.'] {
        seq![(1nat, seq!['.'])]
    } else {
        Seq::empty()
    })) by {
        if absolute {
            assert(component_views(r@) =~= seq![(0nat, Seq::<char>::empty())]);
        } else if sv.len() > 0 && sv[0] == seq!['.'] {
            assert(component_views(r@) =~= seq![(1nat, seq!['.'])]);
        } else {
            assert(component_views(r@) =~= Seq::<(nat, Seq<char>)>::empty());
        }
    }
    let mut i: usize = 0;
    while i < segs.len()
        invariant
            sv == views(segs@),
            dot@ == seq!['.'],
            dots@ == seq!['.', '.'],
            i <= segs@.len(),
            component_views(r@) + components_from(sv, i as int) == head + components_from(sv, 0),
        decreases segs.len() - i,
    {
        let seg = &segs[i];
        assert(sv[i as int] == seg@);
        let ghost before = component_views(r@);
        if seg.len() == 0 || chars_eq(seg.as_slice(), &dot) {
        } else if chars_eq(seg.as_slice(), &dots) {
            r.push((2u8, copy_chars(seg)));
            assert(component_views(r@) =~= before.push((2nat, sv[i as int])));
            assert(before.push((2nat, sv[i as int])) + components_from(sv, i + 1) =~= before
                + components_from(sv, i as int));
        } else {
            r.push((3u8, copy_chars(seg)));
            assert(component_views(r@) =~= before.push((3nat, sv[i as int])));
            assert(before.push((3nat, sv[i as int])) + components_from(sv, i + 1) =~= before
                + components_from(sv, i as int));
        }
        i = i + 1;
    }
    assert(component_views(r@) =~= head + components_from(sv, 0));
    r
}

fn copy_chars(v: &Vec<char>) -> (r: Vec<char>)
    ensures
        r@ == v@,
{
    crate::text::copy_range(v.as_slice(), 0, v.len())
}

/// Whether two component lists are equal.
fn components_equal(a: &Vec<(u8, Vec<char>)>, b: &Vec<(u8, Vec<char>)>) -> (r: bool)
    ensures
        r == (component_views(a@) == component_views(b@)),
{
    if a.len() != b.len() {
        assert(component_views(a@).len() != component_views(b@).len());
        return false;
    }
    let mut i: usize = 0;
    while i < a.len()
        invariant
            a@.len() == b@.len(),
            i <= a@.len(),
            forall|k: int| 0 <= k < i ==> component_views(a@)[k] == component_views(b@)[k],
        decreases a.len() - i,
    {
        if a[i].0 != b[i].0 || !chars_eq(a[i].1.as_slice(), b[i].1.as_slice()) {
            assert(component_views(a@)[i as int] != component_views(b@)[i as int]);
            return false;
        }
        i = i + 1;
    }
    assert(component_views(a@) =~= component_views(b@));
    true
}

/// Whether `a` comes before `b` in the order of paths.
fn components_before(a: &Vec<(u8, Vec<char>)>, b: &Vec<(u8, Vec<char>)>) -> (r: bool)
    ensures
        r == components_less(component_views(a@), component_views(b@)),
{
    let ghost av = component_views(a@);
    let ghost bv = component_views(b@);
    let mut i: usize = 0;
    assert(av.skip(0) =~= av);
    assert(bv.skip(0) =~= bv);
    loop
        invariant
            av == component_views(a@),
            bv == component_views(b@),
            i <= a@.len(),
            i <= b@.len(),
            components_less(av, bv) == components_less(av.skip(i as int), bv.skip(i as int)),
        decreases a.len() - i,
    {
        if i == a.len() {
            return i < b.len();
        }
        if i == b.len() {
            return false;
        }
        assert(av.skip(i as int)[0] == av[i as int]);
        assert(bv.skip(i as int)[0] == bv[i as int]);
        let same = a[i].0 == b[i].0 && chars_eq(a[i].1.as_slice(), b[i].1.as_slice());
        if !same {
            if a[i].0 != b[i].0 {
                return a[i].0 < b[i].0;
            }
            let s1 = chars_to_string(a[i].1.as_slice());
            let s2 = chars_to_string(b[i].1.as_slice());
            return crate::report::string_less(s1.as_str(), s2.as_str());
        }
        assert(av.skip(i as int).drop_first() =~= av.skip(i + 1));
        assert(bv.skip(i as int).drop_first() =~= bv.skip(i + 1));
        i = i + 1;
    }
}

/// `p` relative to `root`.
fn relative_path(p: &str, root: &str) -> (r: Option<String>)
    ensures
        crate::models::opt_view(r) == relative_to(p@, root@),
{
    let pc = components_of(p);
    let rc = components_of(root);
    let ghost pv = component_views(pc@);
    let ghost rv = component_views(rc@);
    if rc.len() > pc.len() {
        assert(rv.len() > pv.len());
        return None;
    }
    let mut i: usize = 0;
    while i < rc.len()
        invariant
            rv == component_views(rc@),
            pv == component_views(pc@),
            pv == path_components(p@),
            rv == path_components(root@),
            rc@.len() <= pc@.len(),
            i <= rc@.len(),
            forall|k: int| 0 <= k < i ==> rv[k] == pv[k],
        decreases rc.len() - i,
    {
        if rc[i].0 != pc[i].0 || !chars_eq(rc[i].1.as_slice(), pc[i].1.as_slice()) {
            assert(rv[i as int] != pv[i as int]);
            assert(!rv.is_prefix_of(pv)) by {
                if rv.is_prefix_of(pv) {
                    assert(pv.subrange(0, rv.len() as int)[i as int] == pv[i as int]);
                }
            }
            return None;
        }
        i = i + 1;
    }
    assert(rv.is_prefix_of(pv)) by {
        assert(pv.take(rv.len() as int) =~= rv);
    }
    let ghost rest = pv.skip(rv.len() as int).map_values(|c: (nat, Seq<char>)| component_text(c));
    let mut parts: Vec<Vec<char>> = Vec::new();
    let mut j: usize = rc.len();
    while j < pc.len()
        invariant
            pv == component_views(pc@),
            rc@.len() <= j <= pc@.len(),
            rest == pv.skip(rc@.len() as int).map_values(|c: (nat, Seq<char>)| component_text(c)),
            views(parts@) == rest.take(j - rc@.len()),
        decreases pc.len() - j,
    {
        let t: Vec<char> = if pc[j].0 == 0 {
            Vec::new()
        } else {
            copy_chars(&pc[j].1)
        };
        assert(t@ == rest[j - rc@.len()]);
        let ghost before = views(parts@);
        parts.push(t);
        assert(views(parts@) =~= before.push(rest[j - rc@.len()]));
        assert(rest.take(j + 1 - rc@.len()) =~= rest.take(j - rc@.len()).push(rest[j - rc@.len()]));
        j = j + 1;
    }
    assert(rest.take(pc@.len() - rc@.len()) =~= rest);
    let slash = ['/'];
    assert(slash@ =~= seq!['/']);
    let joined = join_chars(&parts, &slash);
    Some(chars_to_string(joined.as_slice()))
}

// ---------------------------------------------------------------------------
// Entries
// ---------------------------------------------------------------------------

/// The plain-value content of a [`FileEntry`].
pub struct FileEntryView {
    pub name: Seq<char>,
    pub path: Seq<char>,
    pub entry_type: FileType,
    pub extension: Option<Seq<char>>,
    pub language: Option<Seq<char>>,
    pub size: Option<u64>,
    pub depth: nat,
}

impl View for FileEntry {
    type V = FileEntryView;

    open spec fn view(&self) -> FileEntryView {
        FileEntryView {
            name: self.name@,
            path: self.path@,
            entry_type: self.entry_type,
            extension: crate::models::opt_view(self.extension),
            language: crate::models::opt_view(self.language),
            size: self.size,
            depth: self.depth as nat,
        }
    }
}

/// The views of a sequence of entries.
pub open spec fn entry_views(s: Seq<FileEntry>) -> Seq<FileEntryView> {
    s.map_values(|e: FileEntry| e@)
}

/// The kind of a walked entry.
pub open spec fn entry_kind(e: WalkEntry) -> FileType {
    if e.is_dir {
        FileType::Directory
    } else if e.is_symlink {
        FileType::Symlink
    } else {
        FileType::File
    }
}

/// The listing entry of a walked entry: its file name, its path relative to
/// `root` (its file name when it does not lie below `root`), its kind and, for
/// a file, its extension, the language of that extension and its size.
pub open spec fn listing_entry(root: Seq<char>, e: WalkEntry) -> FileEntryView {
    let name = match file_name(e.path@) {
        Some(n) => n,
        None => Seq::empty(),
    };
    let ty = entry_kind(e);
    let ext = if ty == FileType::File {
        extension(e.path@)
    } else {
        None
    };
    FileEntryView {
        name,
        path: match relative_to(e.path@, root) {
            Some(r) => r,
            None => name,
        },
        entry_type: ty,
        extension: ext,
        language: match ext {
            Some(x) => match language_of_extension(x) {
                Some(l) => Some(l.name()),
                None => None,
            },
            None => None,
        },
        size: if ty == FileType::File {
            e.size
        } else {
            None
        },
        depth: e.depth as nat,
    }
}

/// The extension of a path, or the empty text.
pub open spec fn extension_or_empty(p: Seq<char>) -> Seq<char> {
    match extension(p) {
        Some(x) => x,
        None => Seq::empty(),
    }
}

/// A file entry that an extension filter leaves out.
pub open spec fn filtered_out(e: WalkEntry, filter: Option<Seq<char>>) -> bool {
    e.is_file && (filter matches Some(x) && extension_or_empty(e.path@) != x)
}

/// `x` inserted into `s` after every entry whose path is not after its own.
pub open spec fn insert_by_path(s: Seq<FileEntryView>, x: FileEntryView) -> Seq<FileEntryView> {
    s.insert(first_after_from(s, x.path, 0), x)
}

/// The first position from `i` on whose path comes after `p`.
pub open spec fn first_after_from(s: Seq<FileEntryView>, p: Seq<char>, i: int) -> int
    decreases s.len() - i,
{
    if i < 0 || i >= s.len() {
        s.len() as int
    } else if str_less(p, s[i].path) {
        i
    } else {
        first_after_from(s, p, i + 1)
    }
}

/// `s` sorted by path, entries with equal paths in their order in `s`.
pub open spec fn sort_by_path(s: Seq<FileEntryView>) -> Seq<FileEntryView>
    decreases s.len(),
{
    if s.len() == 0 {
        Seq::empty()
    } else {
        insert_by_path(sort_by_path(s.drop_last()), s.last())
    }
}

/// The entries that a tree listing keeps from position `i` on, or the first
/// unreadable entry's message.
pub open spec fn tree_selection(
    root: Seq<char>,
    es: Seq<Result<WalkEntry, String>>,
    max_depth: nat,
    filter: Option<Seq<char>>,
    i: int,
) -> Result<Seq<FileEntryView>, Seq<char>>
    decreases es.len() - i,
{
    if i < 0 || i >= es.len() {
        Ok(Seq::empty())
    } else {
        match es[i] {
            Err(m) => Err(m@),
            Ok(e) => match tree_selection(root, es, max_depth, filter, i + 1) {
                Err(m) => Err(m),
                Ok(rest) => Ok(
                    if e.depth > max_depth || filtered_out(e, filter) {
                        rest
                    } else {
                        seq![listing_entry(root, e)] + rest
                    },
                ),
            },
        }
    }
}

/// The name shown for the walk root: its file name, or `.`.
pub open spec fn root_display_name(root: Seq<char>) -> Seq<char> {
    match file_name(root) {
        Some(n) => n,
        None => seq!['.'],
    }
}

/// Sorts entries by path, keeping the order of equal paths.
fn sort_entries(v: Vec<FileEntry>) -> (r: Vec<FileEntry>)
    ensures
        entry_views(r@) == sort_by_path(entry_views(v@)),
{
    let ghost all = entry_views(v@);
    let n = v.len();
    let mut v = v;
    let mut rest: Vec<FileEntry> = Vec::new();
    while v.len() > 0
        invariant
            entry_views(v@) + entry_views(rest@).reverse() == all,
        decreases v.len(),
    {
        let ghost bv = entry_views(v@);
        let ghost br = entry_views(rest@);
        let e = v.pop().unwrap();
        rest.push(e);
        assert(entry_views(v@) =~= bv.drop_last());
        assert(entry_views(rest@) =~= br.push(bv.last()));
        assert(entry_views(rest@).reverse() =~= seq![bv.last()] + br.reverse());
        assert(entry_views(v@) + entry_views(rest@).reverse() =~= bv + br.reverse());
    }
    assert(entry_views(v@) =~= Seq::<FileEntryView>::empty());
    assert(entry_views(rest@).reverse() =~= all);
    let mut r: Vec<FileEntry> = Vec::new();
    let mut i: usize = 0;
    while rest.len() > 0
        invariant
            n == all.len(),
            i + rest@.len() == n,
            entry_views(rest@).reverse() == all.skip(i as int),
            entry_views(r@) == sort_by_path(all.take(i as int)),
        decreases rest.len(),
    {
        let ghost br = entry_views(rest@);
        let e = rest.pop().unwrap();
        assert(br.reverse()[0] == br.last());
        assert(e@ == all[i as int]);
        assert(entry_views(rest@).reverse() =~= br.reverse().drop_first());
        assert(all.skip(i as int).drop_first() =~= all.skip(i + 1));
        let ghost s = entry_views(r@);
        let mut p: usize = 0;
        proof {
            lemma_first_after_from(s, e@.path, 0);
        }
        while p < r.len() && !crate::report::string_less(e.path.as_str(), r[p].path.as_str())
            invariant
                entry_views(r@) == s,
                p <= r@.len(),
                first_after_from(s, e@.path, 0) == first_after_from(s, e@.path, p as int),
            decreases r.len() - p,
        {
            p = p + 1;
        }
        assert(first_after_from(s, e@.path, p as int) == p);
        r.insert(p, e);
        assert(entry_views(r@) =~= s.insert(p as int, all[i as int]));
        assert(all.take(i + 1).drop_last() =~= all.take(i as int));
        assert(all.take(i + 1).last() == all[i as int]);
        i = i + 1;
    }
    assert(all.take(n as int) =~= all);
    r
}

proof fn lemma_first_after_from(s: Seq<FileEntryView>, p: Seq<char>, i: int)
    requires
        0 <= i <= s.len(),
    ensures
        i <= first_after_from(s, p, i) <= s.len(),
    decreases s.len() - i,
{
    if i < s.len() && !str_less(p, s[i].path) {
        lemma_first_after_from(s, p, i + 1);
    }
}

// ---------------------------------------------------------------------------
// Laws of the listings
// ---------------------------------------------------------------------------

/// No entry of `s` has a path before that of an entry ahead of it.
pub open spec fn path_sorted(s: Seq<FileEntryView>) -> bool {
    forall|i: int, j: int| 0 <= i < j < s.len() ==> !str_less(#[trigger] s[j].path, #[trigger] s[i].path)
}

proof fn lemma_first_after_props(s: Seq<FileEntryView>, p: Seq<char>, i: int)
    requires
        0 <= i <= s.len(),
    ensures
        i <= first_after_from(s, p, i) <= s.len(),
        forall|k: int| i <= k < first_after_from(s, p, i) ==> !str_less(p, #[trigger] s[k].path),
        first_after_from(s, p, i) < s.len() ==> str_less(p, s[first_after_from(s, p, i)].path),
    decreases s.len() - i,
{
    if i < s.len() && !str_less(p, s[i].path) {
        lemma_first_after_props(s, p, i + 1);
    }
}

/// Law: sorting by path keeps exactly the entries given and puts them in
/// order of their paths.
pub proof fn lemma_sort_by_path(s: Seq<FileEntryView>)
    ensures
        sort_by_path(s).len() == s.len(),
        sort_by_path(s).to_multiset() == s.to_multiset(),
        path_sorted(sort_by_path(s)),
    decreases s.len(),
{
    broadcast use vstd::seq_lib::group_to_multiset_ensures;

    if s.len() == 0 {
        assert(sort_by_path(s) =~= s);
    } else {
        let d = s.drop_last();
        let x = s.last();
        lemma_sort_by_path(d);
        let q = sort_by_path(d);
        lemma_first_after_props(q, x.path, 0);
        let p = first_after_from(q, x.path, 0);
        let r = q.insert(p, x);
        assert(sort_by_path(s) == r);
        assert(d.push(x) =~= s);
        assert forall|i: int, j: int| 0 <= i < j < r.len() implies !str_less(
            #[trigger] r[j].path,
            #[trigger] r[i].path,
        ) by {
            if j < p {
                assert(r[i] == q[i] && r[j] == q[j]);
            } else if j == p {
                assert(r[i] == q[i]);
            } else if i < p {
                assert(r[i] == q[i] && r[j] == q[j - 1]);
            } else if i == p {
                assert(r[j] == q[j - 1]);
                if str_less(q[j - 1].path, x.path) {
                    lemma_str_less_transitive(q[j - 1].path, x.path, q[p].path);
                    if j - 1 > p {
                        assert(!str_less(q[j - 1].path, q[p].path));
                    } else {
                        lemma_str_less_irreflexive(q[p].path);
                    }
                }
            } else {
                assert(r[i] == q[i - 1] && r[j] == q[j - 1]);
            }
        }
    }
}

/// The walked entries that a tree listing keeps.
pub open spec fn tree_keeps(e: WalkEntry, max_depth: nat, filter: Option<Seq<char>>) -> bool {
    e.depth <= max_depth && !filtered_out(e, filter)
}

/// Entry `j` of the walk is one that a tree listing keeps, and `v` is made of it.
pub open spec fn tree_source(
    root: Seq<char>,
    es: Seq<Result<WalkEntry, String>>,
    j: int,
    max_depth: nat,
    filter: Option<Seq<char>>,
    v: FileEntryView,
) -> bool {
    0 <= j < es.len() && match es[j] {
        Ok(e) => tree_keeps(e, max_depth, filter) && v == listing_entry(root, e),
        Err(_) => false,
    }
}

/// What every listing entry holds: no extension, language or size except
/// for a file.
pub open spec fn entry_shape(v: FileEntryView) -> bool {
    v.entry_type != FileType::File ==> v.extension is None && v.language is None && v.size is None
}

/// `v` is made of an entry of the walk from position `i` on that a tree
/// listing keeps.
pub open spec fn kept_from(
    root: Seq<char>,
    es: Seq<Result<WalkEntry, String>>,
    i: int,
    max_depth: nat,
    filter: Option<Seq<char>>,
    v: FileEntryView,
) -> bool {
    exists|j: int| i <= j && #[trigger] tree_source(root, es, j, max_depth, filter, v)
}

proof fn lemma_tree_selection_members(
    root: Seq<char>,
    es: Seq<Result<WalkEntry, String>>,
    max_depth: nat,
    filter: Option<Seq<char>>,
    i: int,
    sel: Seq<FileEntryView>,
)
    requires
        0 <= i,
        tree_selection(root, es, max_depth, filter, i) == Ok::<Seq<FileEntryView>, Seq<char>>(sel),
    ensures
        forall|k: int| 0 <= k < sel.len() ==> #[trigger] kept_from(root, es, i, max_depth, filter, sel[k]),
    decreases es.len() - i,
{
    if i < es.len() {
        let e = es[i]->Ok_0;
        let rest = tree_selection(root, es, max_depth, filter, i + 1)->Ok_0;
        lemma_tree_selection_members(root, es, max_depth, filter, i + 1, rest);
        if e.depth > max_depth || filtered_out(e, filter) {
            assert(sel == rest);
        } else {
            assert(sel == seq![listing_entry(root, e)] + rest);
        }
        assert forall|k: int| 0 <= k < sel.len() implies #[trigger] kept_from(root, es, i, max_depth, filter, sel[k]) by {
            if e.depth > max_depth || filtered_out(e, filter) {
                assert(sel[k] == rest[k]);
                assert(kept_from(root, es, i + 1, max_depth, filter, rest[k]));
                let j = choose|j: int| i + 1 <= j && #[trigger] tree_source(root, es, j, max_depth, filter, rest[k]);
                assert(tree_source(root, es, j, max_depth, filter, sel[k]));
            } else if k == 0 {
                assert(tree_source(root, es, i, max_depth, filter, sel[0]));
            } else {
                assert(sel[k] == rest[k - 1]);
                assert(kept_from(root, es, i + 1, max_depth, filter, rest[k - 1]));
                let j = choose|j: int| i + 1 <= j && #[trigger] tree_source(root, es, j, max_depth, filter, rest[k - 1]);
                assert(tree_source(root, es, j, max_depth, filter, sel[k]));
            }
        }
    } else {
        assert(sel =~= Seq::<FileEntryView>::empty());
    }
}

/// Law of a tree listing: where the walk could be read, the entries come in
/// order of their paths, are exactly those selected, each made of a walked
/// entry within the depth bound that the extension filter keeps, and only
/// files carry an extension, a language and a size.
pub proof fn lemma_tree_listing(
    root: Seq<char>,
    es: Seq<Result<WalkEntry, String>>,
    max_depth: nat,
    filter: Option<Seq<char>>,
)
    ensures
        tree_selection(root, es, max_depth, filter, 0) matches Ok(sel) ==> {
            let r = sort_by_path(sel);
            &&& path_sorted(r)
            &&& r.to_multiset() == sel.to_multiset()
            &&& forall|k: int|
                0 <= k < r.len() ==> (#[trigger] r[k]).depth <= max_depth && entry_shape(r[k])
                    && exists|j: int| tree_source(root, es, j, max_depth, filter, r[k])
        },
{
    broadcast use vstd::seq_lib::group_to_multiset_ensures;

    if let Ok(sel) = tree_selection(root, es, max_depth, filter, 0) {
        lemma_tree_selection_members(root, es, max_depth, filter, 0, sel);
        lemma_sort_by_path(sel);
        let r = sort_by_path(sel);
        assert forall|k: int| 0 <= k < r.len() implies (#[trigger] r[k]).depth <= max_depth
            && entry_shape(r[k]) && exists|j: int| tree_source(root, es, j, max_depth, filter, r[k]) by {
            assert(r.to_multiset().count(r[k]) > 0);
            assert(sel.contains(r[k]));
            let m = choose|m: int| 0 <= m < sel.len() && sel[m] == r[k];
            assert(kept_from(root, es, 0, max_depth, filter, sel[m]));
            let j = choose|j: int| 0 <= j && #[trigger] tree_source(root, es, j, max_depth, filter, sel[m]);
            assert(tree_source(root, es, j, max_depth, filter, r[k]));
        }
    }
}

/// The walked entries that a file listing keeps: not the root, no directory
/// unless directories are asked for, no file outside the extension filter.
pub open spec fn list_keeps(
    root: Seq<char>,
    e: WalkEntry,
    filter: Option<Seq<char>>,
    include_directories: bool,
) -> bool {
    &&& path_components(e.path@) != path_components(root)
    &&& !(e.is_dir && !include_directories)
    &&& !filtered_out(e, filter)
}

/// Entry `j` of the walk is one that a file listing keeps.
pub open spec fn list_wanted(
    root: Seq<char>,
    es: Seq<Result<WalkEntry, String>>,
    j: int,
    filter: Option<Seq<char>>,
    include_directories: bool,
) -> bool {
    0 <= j < es.len() && match es[j] {
        Ok(e) => list_keeps(root, e, filter, include_directories),
        Err(_) => false,
    }
}

proof fn lemma_list_selection(
    root: Seq<char>,
    es: Seq<Result<WalkEntry, String>>,
    filter: Option<Seq<char>>,
    include_directories: bool,
    limit: nat,
    i: int,
    count: nat,
    sel: Seq<FileEntryView>,
)
    requires
        0 <= i,
        count <= limit,
        list_selection(root, es, filter, include_directories, limit, i, count) == Ok::<
            Seq<FileEntryView>,
            Seq<char>,
        >(sel),
    ensures
        count + sel.len() <= limit,
        forall|k: int|
            #![trigger sel[k]]
            0 <= k < sel.len() ==> exists|j: int|
                i <= j && #[trigger] list_wanted(root, es, j, filter, include_directories) && sel[k]
                    == listing_entry(root, es[j]->Ok_0),
        count + sel.len() < limit ==> forall|j: int|
            i <= j && #[trigger] list_wanted(root, es, j, filter, include_directories) ==> sel.contains(
                listing_entry(root, es[j]->Ok_0),
            ),
    decreases es.len() - i,
{
    if i < es.len() && count < limit {
        let e = es[i]->Ok_0;
        if !list_keeps(root, e, filter, include_directories) {
            lemma_list_selection(root, es, filter, include_directories, limit, i + 1, count, sel);
            assert forall|j: int|
                i <= j && #[trigger] list_wanted(root, es, j, filter, include_directories) implies i + 1
                <= j by {
                if j == i {
                    assert(!list_wanted(root, es, i, filter, include_directories));
                }
            }
        } else {
            let rest = list_selection(root, es, filter, include_directories, limit, i + 1, count + 1)->Ok_0;
            lemma_list_selection(root, es, filter, include_directories, limit, i + 1, count + 1, rest);
            assert(sel == seq![listing_entry(root, e)] + rest);
            assert(list_wanted(root, es, i, filter, include_directories));
            assert forall|k: int| #![trigger sel[k]] 0 <= k < sel.len() implies exists|j: int|
                i <= j && #[trigger] list_wanted(root, es, j, filter, include_directories) && sel[k]
                    == listing_entry(root, es[j]->Ok_0) by {
                if k == 0 {
                    assert(sel[0] == listing_entry(root, es[i]->Ok_0));
                } else {
                    assert(sel[k] == rest[k - 1]);
                }
            }
            if count + sel.len() < limit {
                assert forall|j: int|
                    i <= j && #[trigger] list_wanted(root, es, j, filter, include_directories)
                        implies sel.contains(listing_entry(root, es[j]->Ok_0)) by {
                    if j == i {
                        assert(sel[0] == listing_entry(root, es[j]->Ok_0));
                    } else {
                        let k = choose|k: int|
                            0 <= k < rest.len() && rest[k] == listing_entry(root, es[j]->Ok_0);
                        assert(sel[k + 1] == rest[k]);
                    }
                }
            }
        }
    }
}

/// Law of a file listing: where the walk could be read, it holds at most
/// `limit` entries, in order of their paths, exactly those selected, each
/// made of a walked entry other than the root, a directory only where
/// directories are asked for, a file only where the extension filter keeps
/// it; and where it holds fewer than `limit`, every such entry of the walk is
/// listed.
pub proof fn lemma_file_listing(
    root: Seq<char>,
    es: Seq<Result<WalkEntry, String>>,
    filter: Option<Seq<char>>,
    include_directories: bool,
    limit: nat,
)
    ensures
        list_selection(root, es, filter, include_directories, limit, 0, 0) matches Ok(sel) ==> {
            let r = sort_by_path(sel);
            &&& r.len() <= limit
            &&& path_sorted(r)
            &&& r.to_multiset() == sel.to_multiset()
            &&& forall|k: int|
                0 <= k < r.len() ==> entry_shape(#[trigger] r[k]) && exists|j: int|
                    list_wanted(root, es, j, filter, include_directories) && r[k] == listing_entry(
                        root,
                        es[j]->Ok_0,
                    )
            &&& r.len() < limit ==> forall|j: int|
                #[trigger] list_wanted(root, es, j, filter, include_directories) ==> r.contains(
                    listing_entry(root, es[j]->Ok_0),
                )
        },
{
    broadcast use vstd::seq_lib::group_to_multiset_ensures;

    if let Ok(sel) = list_selection(root, es, filter, include_directories, limit, 0, 0) {
        lemma_list_selection(root, es, filter, include_directories, limit, 0, 0, sel);
        lemma_sort_by_path(sel);
        let r = sort_by_path(sel);
        assert forall|k: int| 0 <= k < r.len() implies entry_shape(#[trigger] r[k]) && exists|j: int|
            list_wanted(root, es, j, filter, include_directories) && r[k] == listing_entry(
                root,
                es[j]->Ok_0,
            ) by {
            assert(r.to_multiset().count(r[k]) > 0);
            assert(sel.contains(r[k]));
            let m = choose|m: int| 0 <= m < sel.len() && sel[m] == r[k];
            let j = choose|j: int|
                0 <= j && #[trigger] list_wanted(root, es, j, filter, include_directories) && sel[m]
                    == listing_entry(root, es[j]->Ok_0);
        }
        if r.len() < limit {
            assert forall|j: int| #[trigger] list_wanted(root, es, j, filter, include_directories)
                implies r.contains(listing_entry(root, es[j]->Ok_0)) by {
                assert(sel.contains(listing_entry(root, es[j]->Ok_0)));
                assert(sel.to_multiset().count(listing_entry(root, es[j]->Ok_0)) > 0);
            }
        }
    }
}

/// The listing entry of `e`.
fn make_entry(root: &str, e: &WalkEntry) -> (r: FileEntry)
    ensures
        r@ == listing_entry(root@, *e),
{
    let name = match file_name_str(e.path.as_str()) {
        Some(n) => n,
        None => String::new(),
    };
    let path = match relative_path(e.path.as_str(), root) {
        Some(rel) => rel,
        None => name.clone(),
    };
    let ty = if e.is_dir {
        FileType::Directory
    } else if e.is_symlink {
        FileType::Symlink
    } else {
        FileType::File
    };
    let is_file_kind = !e.is_dir && !e.is_symlink;
    let ext = if is_file_kind {
        extension_of(e.path.as_str())
    } else {
        None
    };
    let language = match &ext {
        Some(x) => match Language::from_extension(x.as_str()) {
            Some(l) => Some(l.as_str().to_owned()),
            None => None,
        },
        None => None,
    };
    let size = if is_file_kind {
        e.size
    } else {
        None
    };
    FileEntry { name, path, entry_type: ty, extension: ext, language, size, depth: e.depth }
}

/// Whether the extension filter leaves `e` out.
fn is_filtered_out(e: &WalkEntry, filter: Option<&str>) -> (b: bool)
    ensures
        b == filtered_out(
            *e,
            match filter {
                Some(x) => Some(x@),
                None => None,
            },
        ),
{
    if !e.is_file {
        return false;
    }
    match filter {
        None => false,
        Some(x) => {
            let fe = match extension_of(e.path.as_str()) {
                Some(s) => s,
                None => String::new(),
            };
            !str_eq(fe.as_str(), x)
        },
    }
}

/// The source files among the walked entries, with their languages: the
/// files whose extension is one the indexer parses, in walk order; the first
/// unreadable entry makes the whole walk fail.
pub fn walk_directory(entries: Vec<Result<WalkEntry, String>>) -> (r: Result<Vec<WalkResult>, CortexError>)
    ensures
        match r {
            Ok(v) => first_error(entries@, 0) is None && v@.map_values(
                |w: WalkResult| (w.path@, w.language),
            ) == source_files(entries@, 0),
            Err(e) => first_error(entries@, 0) matches Some(m) && (e matches CortexError::Io(s) && s@
                == m),
        },
{
    let mut out: Vec<WalkResult> = Vec::new();
    let mut i: usize = 0;
    while i < entries.len()
        invariant
            i <= entries@.len(),
            first_error(entries@, 0) == first_error(entries@, i as int),
            out@.map_values(|w: WalkResult| (w.path@, w.language)) + source_files(entries@, i as int)
                == source_files(entries@, 0),
        decreases entries.len() - i,
    {
        match &entries[i] {
            Err(m) => {
                return Err(CortexError::Io(m.clone()));
            },
            Ok(e) => {
                let ghost before = out@.map_values(|w: WalkResult| (w.path@, w.language));
                if e.is_file {
                    let ext = match extension_of(e.path.as_str()) {
                        Some(x) => x,
                        None => String::new(),
                    };
                    match Language::from_extension(ext.as_str()) {
                        Some(language) => {
                            out.push(WalkResult { path: e.path.clone(), language });
                            assert(out@.map_values(|w: WalkResult| (w.path@, w.language)) =~= before.push(
                                (e.path@, language),
                            ));
                        },
                        None => {},
                    }
                }
            },
        }
        i = i + 1;
    }
    assert(source_files(entries@, i as int) =~= Seq::<(Seq<char>, Language)>::empty());
    assert(out@.map_values(|w: WalkResult| (w.path@, w.language)) =~= out@.map_values(
        |w: WalkResult| (w.path@, w.language),
    ) + source_files(entries@, i as int));
    Ok(out)
}

/// The message of the first unreadable entry from position `i` on.
pub open spec fn first_error(es: Seq<Result<WalkEntry, String>>, i: int) -> Option<Seq<char>>
    decreases es.len() - i,
{
    if i < 0 || i >= es.len() {
        None
    } else {
        match es[i] {
            Err(m) => Some(m@),
            Ok(_) => first_error(es, i + 1),
        }
    }
}

/// The source files among the entries from position `i` on, ignoring
/// unreadable entries.
pub open spec fn source_files(es: Seq<Result<WalkEntry, String>>, i: int) -> Seq<(Seq<char>, Language)>
    decreases es.len() - i,
{
    if i < 0 || i >= es.len() {
        Seq::empty()
    } else {
        match es[i] {
            Ok(e) => if e.is_file && language_of_extension(extension_or_empty(e.path@)) is Some {
                seq![(e.path@, language_of_extension(extension_or_empty(e.path@))->0)] + source_files(
                    es,
                    i + 1,
                )
            } else {
                source_files(es, i + 1)
            },
            Err(_) => source_files(es, i + 1),
        }
    }
}

/// A structured listing of the walk below `root`: the entries at most
/// `max_depth` (default 3) deep, files outside the extension filter left out,
/// sorted by relative path, together with the name of the root.
pub fn directory_tree_structured(
    root: &str,
    entries: Vec<Result<WalkEntry, String>>,
    max_depth: Option<usize>,
    extension_filter: Option<&str>,
) -> (r: Result<(Vec<FileEntry>, String), CortexError>)
    ensures
        match (
            r,
            tree_selection(
                root@,
                entries@,
                match max_depth {
                    Some(d) => d as nat,
                    None => 3,
                },
                match extension_filter {
                    Some(x) => Some(x@),
                    None => None,
                },
                0,
            ),
        ) {
            (Ok((v, name)), Ok(sel)) => entry_views(v@) == sort_by_path(sel) && name@
                == root_display_name(root@),
            (Err(e), Err(m)) => e matches CortexError::Io(s) && s@ == m,
            _ => false,
        },
{
    let ghost filter = match extension_filter {
        Some(x) => Some(x@),
        None => None::<Seq<char>>,
    };
    let md: usize = match max_depth {
        Some(d) => d,
        None => 3,
    };
    let mut kept: Vec<FileEntry> = Vec::new();
    let mut i: usize = 0;
    while i < entries.len()
        invariant
            i <= entries@.len(),
            md as nat == (match max_depth {
                Some(d) => d as nat,
                None => 3,
            }),
            filter == (match extension_filter {
                Some(x) => Some(x@),
                None => None::<Seq<char>>,
            }),
            forall|k: int| 0 <= k < i ==> #[trigger] entries@[k] is Ok,
            tree_selection(root@, entries@, md as nat, filter, 0) == (match tree_selection(
                root@,
                entries@,
                md as nat,
                filter,
                i as int,
            ) {
                Ok(rest) => Ok(entry_views(kept@) + rest),
                Err(m) => Err(m),
            }),
        decreases entries.len() - i,
    {
        match &entries[i] {
            Err(m) => {
                assert(tree_selection(root@, entries@, md as nat, filter, i as int) == Err::<
                    Seq<FileEntryView>,
                    Seq<char>,
                >(m@));
                return Err(CortexError::Io(m.clone()));
            },
            Ok(e) => {
                let ghost before = entry_views(kept@);
                if !(e.depth > md || is_filtered_out(e, extension_filter)) {
                    let fe = make_entry(root, e);
                    kept.push(fe);
                    assert(entry_views(kept@) =~= before.push(listing_entry(root@, *e)));
                }
                proof {
                    let rest = tree_selection(root@, entries@, md as nat, filter, i + 1);
                    if let Ok(rv) = rest {
                        if !(e.depth > md || filtered_out(*e, filter)) {
                            assert(before.push(listing_entry(root@, *e)) + rv =~= before + (seq![
                                listing_entry(root@, *e),
                            ] + rv));
                        }
                    }
                }
            },
        }
        i = i + 1;
    }
    assert(entry_views(kept@) + Seq::<FileEntryView>::empty() =~= entry_views(kept@));
    let sorted = sort_entries(kept);
    let name = match file_name_str(root) {
        Some(n) => n,
        None => {
            proof {
                reveal_strlit(".");
                assert("."@ =~= seq!['.']);
            }
            ".".to_owned()
        },
    };
    Ok((sorted, name))
}

/// The entries that a file listing keeps from position `i` on, once `count`
/// are kept: it stops at `limit` entries; it leaves out the root itself,
/// directories unless they are asked for, and files outside the filter.
pub open spec fn list_selection(
    root: Seq<char>,
    es: Seq<Result<WalkEntry, String>>,
    filter: Option<Seq<char>>,
    include_directories: bool,
    limit: nat,
    i: int,
    count: nat,
) -> Result<Seq<FileEntryView>, Seq<char>>
    decreases es.len() - i,
{
    if i < 0 || i >= es.len() || count >= limit {
        Ok(Seq::empty())
    } else {
        match es[i] {
            Err(m) => Err(m@),
            Ok(e) => if path_components(e.path@) == path_components(root) || (e.is_dir
                && !include_directories) || filtered_out(e, filter) {
                list_selection(root, es, filter, include_directories, limit, i + 1, count)
            } else {
                match list_selection(root, es, filter, include_directories, limit, i + 1, count + 1) {
                    Err(m) => Err(m),
                    Ok(rest) => Ok(seq![listing_entry(root, e)] + rest),
                }
            },
        }
    }
}

/// A structured list of the walk below `root`: at most `limit` entries, the
/// root itself, directories (unless `include_directories`) and files outside
/// the extension filter left out, sorted by relative path.
pub fn list_files_structured(
    root: &str,
    entries: Vec<Result<WalkEntry, String>>,
    extension_filter: Option<&str>,
    include_directories: bool,
    limit: usize,
) -> (r: Result<Vec<FileEntry>, CortexError>)
    ensures
        match (
            r,
            list_selection(
                root@,
                entries@,
                match extension_filter {
                    Some(x) => Some(x@),
                    None => None,
                },
                include_directories,
                limit as nat,
                0,
                0,
            ),
        ) {
            (Ok(v), Ok(sel)) => entry_views(v@) == sort_by_path(sel),
            (Err(e), Err(m)) => e matches CortexError::Io(s) && s@ == m,
            _ => false,
        },
{
    let ghost filter = match extension_filter {
        Some(x) => Some(x@),
        None => None::<Seq<char>>,
    };
    let rc = components_of(root);
    let mut kept: Vec<FileEntry> = Vec::new();
    let mut i: usize = 0;
    while i < entries.len() && kept.len() < limit
        invariant
            i <= entries@.len(),
            component_views(rc@) == path_components(root@),
            filter == (match extension_filter {
                Some(x) => Some(x@),
                None => None::<Seq<char>>,
            }),
            list_selection(root@, entries@, filter, include_directories, limit as nat, 0, 0) == (
            match list_selection(
                root@,
                entries@,
                filter,
                include_directories,
                limit as nat,
                i as int,
                kept@.len(),
            ) {
                Ok(rest) => Ok(entry_views(kept@) + rest),
                Err(m) => Err(m),
            }),
        decreases entries.len() - i,
    {
        match &entries[i] {
            Err(m) => {
                return Err(CortexError::Io(m.clone()));
            },
            Ok(e) => {
                let ec = components_of(e.path.as_str());
                let skip = components_equal(&ec, &rc) || (e.is_dir && !include_directories)
                    || is_filtered_out(e, extension_filter);
                if !skip {
                    let ghost before = entry_views(kept@);
                    let fe = make_entry(root, e);
                    kept.push(fe);
                    assert(entry_views(kept@) =~= before.push(listing_entry(root@, *e)));
                    proof {
                        let rest = list_selection(
                            root@,
                            entries@,
                            filter,
                            include_directories,
                            limit as nat,
                            i + 1,
                            kept@.len(),
                        );
                        if let Ok(rv) = rest {
                            assert(before.push(listing_entry(root@, *e)) + rv =~= before + (seq![
                                listing_entry(root@, *e),
                            ] + rv));
                        }
                    }
                }
            },
        }
        i = i + 1;
    }
    assert(entry_views(kept@) + Seq::<FileEntryView>::empty() =~= entry_views(kept@));
    Ok(sort_entries(kept))
}


// ---------------------------------------------------------------------------
// ASCII tree
// ---------------------------------------------------------------------------

/// The readable entries of a walk, in walk order.
pub open spec fn readable(es: Seq<Result<WalkEntry, String>>) -> Seq<WalkEntry>
    decreases es.len(),
{
    if es.len() == 0 {
        Seq::empty()
    } else {
        readable(es.drop_last()) + match es.last() {
            Ok(e) => seq![e],
            Err(_) => Seq::empty(),
        }
    }
}

/// The first position from `i` on whose path comes after that of `x`.
pub open spec fn first_path_after_from(s: Seq<WalkEntry>, x: WalkEntry, i: int) -> int
    decreases s.len() - i,
{
    if i < 0 || i >= s.len() {
        s.len() as int
    } else if components_less(path_components(x.path@), path_components(s[i].path@)) {
        i
    } else {
        first_path_after_from(s, x, i + 1)
    }
}

/// `s` sorted by path (`Path::cmp`), entries with equal paths in their order in `s`.
pub open spec fn sort_walk(s: Seq<WalkEntry>) -> Seq<WalkEntry>
    decreases s.len(),
{
    if s.len() == 0 {
        Seq::empty()
    } else {
        let t = sort_walk(s.drop_last());
        t.insert(first_path_after_from(t, s.last(), 0), s.last())
    }
}

/// Entries whose path is not `root`.
pub open spec fn not_root(root: Seq<char>) -> spec_fn(WalkEntry) -> bool {
    |e: WalkEntry| path_components(e.path@) != path_components(root)
}

/// The entries that a tree shows: the readable ones other than the root, sorted by path.
pub open spec fn tree_entries(root: Seq<char>, es: Seq<Result<WalkEntry, String>>) -> Seq<WalkEntry> {
    sort_walk(readable(es).filter(not_root(root)))
}

/// `s` repeated `n` times.
pub open spec fn repeat(s: Seq<char>, n: nat) -> Seq<char>
    decreases n,
{
    if n == 0 {
        Seq::empty()
    } else {
        repeat(s, (n - 1) as nat) + s
    }
}

/// Entry `i` is the last of its siblings: no later entry is as shallow.
pub open spec fn is_last_at(s: Seq<WalkEntry>, i: int) -> bool {
    i == s.len() - 1 || forall|j: int| i < j < s.len() ==> s[j].depth > s[i].depth
}

/// The drawing before an entry's name.
pub open spec fn tree_prefix(depth: nat, last: bool) -> Seq<char> {
    if depth > 0 {
        repeat("│   "@, (depth - 1) as nat) + if last {
            "└── "@
        } else {
            "├── "@
        }
    } else {
        Seq::empty()
    }
}

/// The name shown for an entry: its file name, or its whole path.
pub open spec fn shown_name(e: WalkEntry) -> Seq<char> {
    match file_name(e.path@) {
        Some(n) => n,
        None => e.path@,
    }
}

/// The line of entry `i`; directories end in `/`.
pub open spec fn tree_line(s: Seq<WalkEntry>, i: int) -> Seq<char> {
    tree_prefix(s[i].depth as nat, is_last_at(s, i)) + shown_name(s[i]) + if s[i].is_dir {
        "/"@
    } else {
        Seq::empty()
    }
}

/// The lines of the entries from position `i` on that are not deeper than `max_depth`.
pub open spec fn tree_lines_from(s: Seq<WalkEntry>, max_depth: Option<nat>, i: int) -> Seq<Seq<char>>
    decreases s.len() - i,
{
    if i < 0 || i >= s.len() {
        Seq::empty()
    } else {
        (if max_depth matches Some(m) && s[i].depth > m {
            Seq::empty()
        } else {
            seq![tree_line(s, i)]
        }) + tree_lines_from(s, max_depth, i + 1)
    }
}

/// The whole tree drawing.
pub open spec fn tree_text(root: Seq<char>, es: Seq<Result<WalkEntry, String>>, max_depth: Option<nat>) -> Seq<char> {
    join(seq![root_display_name(root)] + tree_lines_from(tree_entries(root, es), max_depth, 0), seq!['\n'])
}

/// The readable entries, in order.
fn readable_entries(entries: Vec<Result<WalkEntry, String>>) -> (r: Vec<WalkEntry>)
    ensures
        r@ == readable(entries@),
{
    let ghost all = entries@;
    let mut entries = entries;
    let mut rev: Vec<WalkEntry> = Vec::new();
    while entries.len() > 0
        invariant
            entries@.len() <= all.len(),
            entries@ == all.take(entries@.len() as int),
            readable(all) == readable(entries@) + rev@.reverse(),
        decreases entries.len(),
    {
        let ghost before = entries@;
        let ghost before_rev = rev@;
        let x = entries.pop().unwrap();
        assert(entries@ =~= before.drop_last());
        assert(entries@ =~= all.take(entries@.len() as int));
        match x {
            Ok(e) => {
                rev.push(e);
                assert(rev@.reverse() =~= seq![before.last()->Ok_0] + before_rev.reverse());
            },
            Err(_) => {},
        }
        assert(readable(before) == readable(entries@) + match before.last() {
            Ok(e) => seq![e],
            Err(_) => Seq::<WalkEntry>::empty(),
        });
    }
    assert(readable(entries@) =~= Seq::<WalkEntry>::empty());
    assert(rev@.reverse() =~= readable(all));
    let mut r: Vec<WalkEntry> = Vec::new();
    while rev.len() > 0
        invariant
            r@ + rev@.reverse() == readable(all),
        decreases rev.len(),
    {
        let ghost b = rev@;
        let e = rev.pop().unwrap();
        let ghost br = r@;
        r.push(e);
        assert(b.reverse() =~= seq![b.last()] + b.drop_last().reverse());
        assert(r@ + rev@.reverse() =~= br + b.reverse());
    }
    assert(rev@.reverse() =~= Seq::<WalkEntry>::empty());
    assert(r@ =~= r@ + rev@.reverse());
    r
}

/// The entries other than the root.
fn without_root(v: Vec<WalkEntry>, root: &str) -> (r: Vec<WalkEntry>)
    ensures
        r@ == v@.filter(not_root(root@)),
{
    let ghost pred = not_root(root@);
    let rc = components_of(root);
    let ghost all = v@;
    let mut v = v;
    let mut rev: Vec<WalkEntry> = Vec::new();
    let n = v.len();
    while v.len() > 0
        invariant
            pred == not_root(root@),
            component_views(rc@) == path_components(root@),
            v@.len() <= all.len(),
            v@ == all.take(v@.len() as int),
            all.filter(pred) == v@.filter(pred) + rev@.reverse(),
        decreases v.len(),
    {
        let ghost before = v@;
        let ghost before_rev = rev@;
        let e = v.pop().unwrap();
        assert(v@ =~= before.drop_last());
        assert(v@ =~= all.take(v@.len() as int));
        proof {
            reveal(Seq::filter);
        }
        assert(before.last() == e);
        assert(before.drop_last() == v@);
        assert(before.filter(pred) == if pred(e) {
            v@.filter(pred).push(e)
        } else {
            v@.filter(pred)
        });
        let ec = components_of(e.path.as_str());
        if !components_equal(&ec, &rc) {
            assert(pred(e));
            rev.push(e);
            assert(rev@.reverse() =~= seq![before.last()] + before_rev.reverse());
            assert(v@.filter(pred).push(e) + before_rev.reverse() =~= v@.filter(pred) + rev@.reverse());
            assert(all.filter(pred) == v@.filter(pred) + rev@.reverse());
        } else {
            assert(!pred(e));
            assert(all.filter(pred) == v@.filter(pred) + rev@.reverse());
        }
    }
    proof {
        reveal(Seq::filter);
    }
    assert(rev@.reverse() =~= all.filter(pred));
    let mut r: Vec<WalkEntry> = Vec::new();
    while rev.len() > 0
        invariant
            pred == not_root(root@),
            r@ + rev@.reverse() == all.filter(pred),
        decreases rev.len(),
    {
        let ghost b = rev@;
        let e = rev.pop().unwrap();
        let ghost br = r@;
        r.push(e);
        assert(b.reverse() =~= seq![b.last()] + b.drop_last().reverse());
        assert(r@ + rev@.reverse() =~= br + b.reverse());
    }
    assert(r@ =~= r@ + rev@.reverse());
    r
}

proof fn lemma_first_path_after_from(s: Seq<WalkEntry>, x: WalkEntry, i: int)
    requires
        0 <= i <= s.len(),
    ensures
        i <= first_path_after_from(s, x, i) <= s.len(),
    decreases s.len() - i,
{
    if i < s.len() && !components_less(path_components(x.path@), path_components(s[i].path@)) {
        lemma_first_path_after_from(s, x, i + 1);
    }
}

/// Sorts walked entries by path, keeping the order of equal paths.
fn sort_walk_entries(v: Vec<WalkEntry>) -> (r: Vec<WalkEntry>)
    ensures
        r@ == sort_walk(v@),
{
    let ghost all = v@;
    let n = v.len();
    let mut v = v;
    let mut rest: Vec<WalkEntry> = Vec::new();
    while v.len() > 0
        invariant
            v@ + rest@.reverse() == all,
        decreases v.len(),
    {
        let ghost bv = v@;
        let ghost br = rest@;
        let e = v.pop().unwrap();
        rest.push(e);
        assert(rest@.reverse() =~= seq![bv.last()] + br.reverse());
        assert(v@ + rest@.reverse() =~= bv + br.reverse());
    }
    assert(rest@.reverse() =~= all);
    let mut r: Vec<WalkEntry> = Vec::new();
    let mut i: usize = 0;
    while rest.len() > 0
        invariant
            n == all.len(),
            i + rest@.len() == n,
            rest@.reverse() == all.skip(i as int),
            r@ == sort_walk(all.take(i as int)),
        decreases rest.len(),
    {
        let ghost br = rest@;
        let e = rest.pop().unwrap();
        assert(br.reverse()[0] == br.last());
        assert(e == all[i as int]);
        assert(rest@.reverse() =~= br.reverse().drop_first());
        assert(all.skip(i as int).drop_first() =~= all.skip(i + 1));
        let ghost s = r@;
        proof {
            lemma_first_path_after_from(s, e, 0);
        }
        let ec = components_of(e.path.as_str());
        let mut p: usize = 0;
        while p < r.len() && !components_before(&ec, &components_of(r[p].path.as_str()))
            invariant
                r@ == s,
                component_views(ec@) == path_components(e.path@),
                p <= r@.len(),
                first_path_after_from(s, e, 0) == first_path_after_from(s, e, p as int),
            decreases r.len() - p,
        {
            p = p + 1;
        }
        assert(first_path_after_from(s, e, p as int) == p);
        r.insert(p, e);
        assert(all.take(i + 1).drop_last() =~= all.take(i as int));
        assert(all.take(i + 1).last() == all[i as int]);
        i = i + 1;
    }
    assert(all.take(n as int) =~= all);
    r
}

/// `s` repeated `n` times.
fn repeat_str(s: &str, n: usize) -> (r: String)
    ensures
        r@ == repeat(s@, n as nat),
{
    let mut r = String::new();
    let mut k: usize = 0;
    while k < n
        invariant
            k <= n,
            r@ == repeat(s@, k as nat),
        decreases n - k,
    {
        r.append(s);
        k = k + 1;
    }
    r
}

/// Whether entry `i` is the last of its siblings.
fn last_sibling(s: &Vec<WalkEntry>, i: usize) -> (b: bool)
    requires
        i < s@.len(),
    ensures
        b == is_last_at(s@, i as int),
{
    if i == s.len() - 1 {
        return true;
    }
    let mut j = i + 1;
    while j < s.len()
        invariant
            i < j <= s@.len(),
            forall|k: int| i < k < j ==> s@[k].depth > s@[i as int].depth,
        decreases s.len() - j,
    {
        if s[j].depth <= s[i].depth {
            return false;
        }
        j = j + 1;
    }
    true
}

/// An ASCII drawing of the walk below `root`: the root's name, then one line
/// per readable entry (unreadable ones are left out) sorted by path, at most
/// `max_depth` deep when given, indented by depth with box-drawing
/// connectors, directories marked with a trailing `/`.
pub fn directory_tree(
    root: &str,
    entries: Vec<Result<WalkEntry, String>>,
    max_depth: Option<usize>,
) -> (r: Result<String, CortexError>)
    ensures
        r matches Ok(t) && t@ == tree_text(
            root@,
            entries@,
            match max_depth {
                Some(m) => Some(m as nat),
                None => None,
            },
        ),
{
    let ghost md = match max_depth {
        Some(m) => Some(m as nat),
        None => None::<nat>,
    };
    let ghost es = entries@;
    let ok = readable_entries(entries);
    let kept = without_root(ok, root);
    let sorted = sort_walk_entries(kept);
    assert(sorted@ == tree_entries(root@, es));
    let mut lines: Vec<String> = Vec::new();
    let root_name = match file_name_str(root) {
        Some(n) => n,
        None => {
            proof {
                reveal_strlit(".");
                assert("."@ =~= seq!['.']);
            }
            ".".to_owned()
        },
    };
    lines.push(root_name);
    let ghost s = sorted@;
    assert(string_views(lines@) =~= seq![root_display_name(root@)]);
    let mut i: usize = 0;
    while i < sorted.len()
        invariant
            s == sorted@,
            md == (match max_depth {
                Some(m) => Some(m as nat),
                None => None::<nat>,
            }),
            i <= s.len(),
            string_views(lines@) + tree_lines_from(s, md, i as int) == seq![root_display_name(root@)]
                + tree_lines_from(s, md, 0),
        decreases sorted.len() - i,
    {
        let e = &sorted[i];
        let shown = match max_depth {
            Some(m) => e.depth <= m,
            None => true,
        };
        let ghost before = string_views(lines@);
        if shown {
            let mut line = String::new();
            if e.depth > 0 {
                let indent = repeat_str("│   ", e.depth - 1);
                line.append(indent.as_str());
                if last_sibling(&sorted, i) {
                    line.append("└── ");
                } else {
                    line.append("├── ");
                }
            }
            let name = match file_name_str(e.path.as_str()) {
                Some(n) => n,
                None => e.path.clone(),
            };
            line.append(name.as_str());
            if e.is_dir {
                line.append("/");
            }
            assert(line@ =~= tree_line(s, i as int));
            lines.push(line);
            assert(string_views(lines@) =~= before.push(tree_line(s, i as int)));
        }
        assert(tree_lines_from(s, md, i as int) =~= (if md matches Some(m) && s[i as int].depth > m {
            Seq::empty()
        } else {
            seq![tree_line(s, i as int)]
        }) + tree_lines_from(s, md, i + 1));
        i = i + 1;
    }
    assert(tree_lines_from(s, md, i as int) =~= Seq::<Seq<char>>::empty());
    assert(string_views(lines@) =~= seq![root_display_name(root@)] + tree_lines_from(s, md, 0));
    proof {
        reveal_strlit("\n");
        assert("\n"@ =~= seq!['\n']);
    }
    Ok(join_strings(&lines, "\n"))
}

} // verus!
