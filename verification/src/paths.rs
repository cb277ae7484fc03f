//! Unix path arithmetic on strings: joining, file names, extensions and stems.

use crate::text::{chars_eq, chars_to_string, concat, copy_range, split, split_chars, to_chars, views};
use vstd::prelude::*;

verus! {

/// `rel` appended to `base` as `Path::join` does on Unix: an absolute `rel`
/// replaces `base`; otherwise a `/` goes between them unless `base` is empty
/// or already ends with one.
pub open spec fn path_join(base: Seq<char>, rel: Seq<char>) -> Seq<char> {
    if rel.len() > 0 && rel[0] == '/' {
        rel
    } else if base.len() == 0 || base.last() == '/' {
        base + rel
    } else {
        base + seq!['/'] + rel
    }
}

/// The last path segment that is neither empty nor `.`.
pub open spec fn last_part(ps: Seq<Seq<char>>) -> Option<Seq<char>>
    decreases ps.len(),
{
    if ps.len() == 0 {
        None
    } else if ps.last().len() == 0 || ps.last() == seq!['.'] {
        last_part(ps.drop_last())
    } else {
        Some(ps.last())
    }
}

/// The final component of a path (`Path::file_name`): none for a path that
/// ends in `..`, for the root and for the empty path.
pub open spec fn file_name(p: Seq<char>) -> Option<Seq<char>> {
    match last_part(split(p, seq!['/'])) {
        Some(l) => if l == seq!['.', '.'] {
            None
        } else {
            Some(l)
        },
        None => None,
    }
}

/// The position of the last `.` in `s`.
pub open spec fn last_dot(s: Seq<char>) -> Option<int>
    decreases s.len(),
{
    if s.len() == 0 {
        None
    } else if s.last() == '.' {
        Some(s.len() - 1)
    } else {
        last_dot(s.drop_last())
    }
}

/// The extension of a file name: the text after its last `.`, unless that dot starts the name.
pub open spec fn name_extension(name: Seq<char>) -> Option<Seq<char>> {
    match last_dot(name) {
        Some(k) => if k == 0 {
            None
        } else {
            Some(name.skip(k + 1))
        },
        None => None,
    }
}

/// The stem of a file name: the text before its last `.`, unless that dot starts the name.
pub open spec fn name_stem(name: Seq<char>) -> Seq<char> {
    match last_dot(name) {
        Some(k) => if k == 0 {
            name
        } else {
            name.take(k)
        },
        None => name,
    }
}

/// The extension of a path (`Path::extension`).
pub open spec fn extension(p: Seq<char>) -> Option<Seq<char>> {
    match file_name(p) {
        Some(n) => name_extension(n),
        None => None,
    }
}

/// The stem of a path (`Path::file_stem`).
pub open spec fn file_stem(p: Seq<char>) -> Option<Seq<char>> {
    match file_name(p) {
        Some(n) => Some(name_stem(n)),
        None => None,
    }
}

/// `Path::new(base).join(rel)` as a string.
pub fn join_path(base: &str, rel: &str) -> (r: String)
    ensures
        r@ == path_join(base@, rel@),
{
    let b = to_chars(base);
    let rl = to_chars(rel);
    if rl.len() > 0 && rl[0] == '/' {
        return rel.to_owned();
    }
    if b.len() == 0 || b[b.len() - 1] == '/' {
        let mut r = base.to_owned();
        r.append(rel);
        r
    } else {
        let mut r = base.to_owned();
        r.append("/");
        r.append(rel);
        proof {
            reveal_strlit("/");
        }
        r
    }
}

/// The final component of `p`.
pub fn file_name_of(p: &[char]) -> (r: Option<Vec<char>>)
    ensures
        match r {
            Some(v) => file_name(p@) == Some(v@),
            None => file_name(p@) is None,
        },
{
    let slash = ['/'];
    assert(slash@ =~= seq!['/']);
    let ps = split_chars(p, &slash);
    let dot = ['.'];
    let dots = ['.', '.'];
    assert(dot@ =~= seq!['.']);
    assert(dots@ =~= seq!['.', '.']);
    let ghost vs = views(ps@);
    let mut k = ps.len();
    assert(vs.take(k as int) =~= vs);
    while k > 0
        invariant
            k <= ps@.len(),
            vs == views(ps@),
            vs == split(p@, seq!['/']),
            dot@ == seq!['.'],
            dots@ == seq!['.', '.'],
            last_part(vs) == last_part(vs.take(k as int)),
        decreases k,
    {
        let part = &ps[k - 1];
        assert(vs.take(k as int).last() == part@);
        assert(vs.take(k as int).drop_last() =~= vs.take(k - 1));
        if part.len() == 0 || chars_eq(part.as_slice(), &dot) {
            k = k - 1;
        } else {
            if chars_eq(part.as_slice(), &dots) {
                return None;
            }
            return Some(copy_range(part.as_slice(), 0, part.len()));
        }
    }
    None
}

/// The position of the last `.` in `s`.
fn last_dot_of(s: &[char]) -> (r: Option<usize>)
    ensures
        match r {
            Some(k) => last_dot(s@) == Some(k as int) && k < s@.len(),
            None => last_dot(s@) is None,
        },
{
    let mut k = s.len();
    assert(s@.take(k as int) =~= s@);
    while k > 0
        invariant
            k <= s@.len(),
            last_dot(s@) == last_dot(s@.take(k as int)),
        decreases k,
    {
        if s[k - 1] == '.' {
            return Some(k - 1);
        }
        assert(s@.take(k as int).drop_last() =~= s@.take(k - 1));
        k = k - 1;
    }
    None
}

/// The extension of `p` (`Path::extension`).
pub fn extension_of(p: &str) -> (r: Option<String>)
    ensures
        crate::models::opt_view(r) == extension(p@),
{
    let cs = to_chars(p);
    match file_name_of(cs.as_slice()) {
        None => None,
        Some(name) => match last_dot_of(name.as_slice()) {
            None => None,
            Some(k) => if k == 0 {
                None
            } else {
                let ns = name.as_slice();
                let nl = ns.len();
                assert(k < nl);
                let e = copy_range(ns, k + 1, nl);
                assert(e@ =~= name@.skip(k + 1));
                Some(chars_to_string(e.as_slice()))
            },
        },
    }
}

/// The stem of `p` (`Path::file_stem`).
pub fn file_stem_of(p: &str) -> (r: Option<String>)
    ensures
        crate::models::opt_view(r) == file_stem(p@),
{
    let cs = to_chars(p);
    match file_name_of(cs.as_slice()) {
        None => None,
        Some(name) => match last_dot_of(name.as_slice()) {
            Some(k) => if k == 0 {
                Some(chars_to_string(name.as_slice()))
            } else {
                let e = copy_range(name.as_slice(), 0, k);
                assert(e@ =~= name@.take(k as int));
                Some(chars_to_string(e.as_slice()))
            },
            None => Some(chars_to_string(name.as_slice())),
        },
    }
}

/// The final component of `p` as a string (`Path::file_name`).
pub fn file_name_str(p: &str) -> (r: Option<String>)
    ensures
        crate::models::opt_view(r) == file_name(p@),
{
    let cs = to_chars(p);
    match file_name_of(cs.as_slice()) {
        None => None,
        Some(v) => Some(chars_to_string(v.as_slice())),
    }
}

/// The resolved path `p` lies within the directory `root`: it is `root`
/// itself or below it, compared by whole path components (so `/ab` is not
/// within `/a`).
pub open spec fn within_root_path(root: Seq<char>, p: Seq<char>) -> bool {
    &&& root.len() <= p.len()
    &&& p.take(root.len() as int) == root
    &&& (p.len() == root.len() || (root.len() > 0 && root.last() == '/') || p[root.len() as int]
        == '/')
}

/// Whether the resolved path `resolved` lies within `root` (`within_root_path`).
pub fn within_root(root: &str, resolved: &str) -> (b: bool)
    ensures
        b == within_root_path(root@, resolved@),
{
    let r = to_chars(root);
    let p = to_chars(resolved);
    let n = r.len();
    if n > p.len() {
        return false;
    }
    let head = copy_range(p.as_slice(), 0, n);
    assert(head@ =~= p@.take(n as int));
    if !chars_eq(head.as_slice(), r.as_slice()) {
        return false;
    }
    p.len() == n || (n > 0 && r[n - 1] == '/') || p[n] == '/'
}

} // verus!
