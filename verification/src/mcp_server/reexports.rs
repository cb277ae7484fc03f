//! Re-export detection in barrel files: `export * from`, `export { .. } from`
//! in JavaScript and TypeScript, `from .. import ..` in Python.

use crate::mcp_server::models::{re_export_views, ReExportEntry, ReExportView};
use crate::parser::js_parser::{from_path_of, js_from_path};
use crate::parser::opt_seq;
use crate::paths::{extension, extension_of};
use crate::text::{
    before_first, before_first_chars, chars_to_string, copy_range, find, find_first,
    lemma_find_bounds, lemma_occurs_char, lines, lines_chars, rskip_set, rskip_set_chars, split,
    split_chars, starts_with, str_eq, string_views, to_chars, trim, trim_chars, views,
};
use vstd::prelude::*;

verus! {

// ---------------------------------------------------------------------------
// Specifications
// ---------------------------------------------------------------------------

/// The names in `parts`, each trimmed and cut before ` as `, empty ones left out.
pub open spec fn alias_free_names(parts: Seq<Seq<char>>) -> Seq<Seq<char>>
    decreases parts.len(),
{
    if parts.len() == 0 {
        Seq::empty()
    } else {
        let base = trim(before_first(trim(parts.last()), " as "@));
        alias_free_names(parts.drop_last()) + (if base.len() > 0 {
            seq![base]
        } else {
            Seq::empty()
        })
    }
}

/// The parts of `parts` that are not empty once trimmed, trimmed.
pub open spec fn nonempty_trimmed(parts: Seq<Seq<char>>) -> Seq<Seq<char>>
    decreases parts.len(),
{
    if parts.len() == 0 {
        Seq::empty()
    } else {
        let t = trim(parts.last());
        nonempty_trimmed(parts.drop_last()) + (if t.len() > 0 {
            seq![t]
        } else {
            Seq::empty()
        })
    }
}

/// The first `}` of `line` does not come before its first `{`.
pub open spec fn braces_ordered(line: Seq<char>) -> bool {
    match (find(line, seq!['{']), find(line, seq!['}'])) {
        (Some(o), Some(c)) => o < c,
        _ => true,
    }
}

/// The names listed between the first `{` and the first `}` of `line`.
pub open spec fn exported_names(line: Seq<char>) -> Seq<Seq<char>> {
    match (find(line, seq!['{']), find(line, seq!['}'])) {
        (Some(o), Some(c)) => alias_free_names(split(line.subrange(o + 1, c), seq![','])),
        _ => Seq::empty(),
    }
}

/// The re-export that line `n` (counted from 1) of a JavaScript or
/// TypeScript file declares, if any.
pub open spec fn js_re_export(line: Seq<char>, n: int) -> Option<ReExportView> {
    let t = trim(line);
    if "export *"@.is_prefix_of(t) {
        match js_from_path(t) {
            Some(src) => Some(ReExportView { exported_symbols: None, source_path: src, start_line: n }),
            None => None,
        }
    } else if "export {"@.is_prefix_of(t) {
        match js_from_path(t) {
            Some(src) => Some(
                ReExportView {
                    exported_symbols: Some(exported_names(t)),
                    source_path: src,
                    start_line: n,
                },
            ),
            None => None,
        }
    } else {
        None
    }
}

/// The re-exports of the lines `ls` of a JavaScript or TypeScript file.
pub open spec fn js_re_exports(ls: Seq<Seq<char>>) -> Seq<ReExportView>
    decreases ls.len(),
{
    if ls.len() == 0 {
        Seq::empty()
    } else {
        js_re_exports(ls.drop_last()) + opt_seq(js_re_export(ls.last(), ls.len() as int))
    }
}

/// In a trimmed line that starts with `from `, the first ` import ` does not
/// overlap that prefix (it does in `from import ..`, where the module slice
/// would be reversed).
pub open spec fn python_line_ok(line: Seq<char>) -> bool {
    let t = trim(line);
    "from "@.is_prefix_of(t) ==> match find(t, " import "@) {
        Some(k) => k >= 5,
        None => true,
    }
}

/// Every line of `ls` is one that the Python detection can slice.
pub open spec fn python_lines_ok(ls: Seq<Seq<char>>) -> bool {
    forall|i: int| 0 <= i < ls.len() ==> #[trigger] python_line_ok(ls[i])
}

/// The re-export that line `n` of a Python file declares, if any.
pub open spec fn python_re_export(line: Seq<char>, n: int) -> Option<ReExportView> {
    let t = trim(line);
    if !"from "@.is_prefix_of(t) {
        None
    } else {
        match find(t, " import "@) {
            None => None,
            Some(k) => {
                let imported = rskip_set(t.skip(k + 8), seq![';']);
                Some(
                    ReExportView {
                        exported_symbols: if trim(imported) == seq!['*'] {
                            None
                        } else {
                            Some(nonempty_trimmed(split(imported, seq![','])))
                        },
                        source_path: trim(t.subrange(5, k)),
                        start_line: n,
                    },
                )
            },
        }
    }
}

/// The re-exports of the lines `ls` of a Python file.
pub open spec fn python_re_exports(ls: Seq<Seq<char>>) -> Seq<ReExportView>
    decreases ls.len(),
{
    if ls.len() == 0 {
        Seq::empty()
    } else {
        python_re_exports(ls.drop_last()) + opt_seq(python_re_export(ls.last(), ls.len() as int))
    }
}

/// The extension of `file_path` is that of a JavaScript or TypeScript file.
pub open spec fn is_js_ts_extension(e: Seq<char>) -> bool {
    e == "ts"@ || e == "tsx"@ || e == "js"@ || e == "jsx"@
}

/// The re-exports of a file, chosen by its extension.
pub open spec fn re_exports_of(content: Seq<char>, file_path: Seq<char>) -> Seq<ReExportView> {
    match extension(file_path) {
        Some(e) => if is_js_ts_extension(e) {
            js_re_exports(lines(content))
        } else if e == "py"@ {
            python_re_exports(lines(content))
        } else {
            Seq::empty()
        },
        None => Seq::empty(),
    }
}

/// What `detect_re_exports` needs of its inputs: line numbers fit in an
/// `i64`, and a Python file has no line that cannot be sliced.
pub open spec fn re_export_input_ok(content: Seq<char>, file_path: Seq<char>) -> bool {
    &&& lines(content).len() < i64::MAX
    &&& extension(file_path) == Some("py"@) ==> python_lines_ok(lines(content))
}

// ---------------------------------------------------------------------------
// Lemmas
// ---------------------------------------------------------------------------

/// A line that starts with `export {` has its first `{` before its first `}`.
proof fn lemma_export_brace_ordered(t: Seq<char>)
    requires
        "export {"@.is_prefix_of(t),
    ensures
        braces_ordered(t),
        find(t, seq!['{']) == Some(7int),
{
    reveal_strlit("export {");
    let ob = seq!['{'];
    let cb = seq!['}'];
    lemma_find_bounds(t, ob);
    lemma_find_bounds(t, cb);
    assert forall|j: int| 0 <= j < 7 implies !crate::text::occurs_at(t, ob, j) by {
        lemma_occurs_char(t, '{', j);
        assert(t[j] == "export {"@[j]);
    }
    assert forall|j: int| 0 <= j < 8 implies !crate::text::occurs_at(t, cb, j) by {
        lemma_occurs_char(t, '}', j);
        assert(t[j] == "export {"@[j]);
    }
    lemma_occurs_char(t, '{', 7);
    assert(t[7] == "export {"@[7]);
}

/// Law: every re-export found in a JavaScript or TypeScript file names one of
/// its lines (counted from 1), in order of the lines.
pub proof fn lemma_js_re_export_lines(ls: Seq<Seq<char>>)
    ensures
        forall|k: int|
            0 <= k < js_re_exports(ls).len() ==> 1 <= (#[trigger] js_re_exports(ls)[k]).start_line
                <= ls.len(),
        forall|a: int, b: int|
            0 <= a < b < js_re_exports(ls).len() ==> (#[trigger] js_re_exports(ls)[a]).start_line
                < (#[trigger] js_re_exports(ls)[b]).start_line,
    decreases ls.len(),
{
    if ls.len() > 0 {
        let d = ls.drop_last();
        lemma_js_re_export_lines(d);
        let prev = js_re_exports(d);
        let tail = opt_seq(js_re_export(ls.last(), ls.len() as int));
        let all = prev + tail;
        assert forall|k: int| 0 <= k < all.len() implies 1 <= (#[trigger] all[k]).start_line
            <= ls.len() by {
            if k < prev.len() {
                assert(all[k] == prev[k]);
            } else {
                assert(all[k] == tail[k - prev.len()]);
            }
        }
        assert forall|a: int, b: int| 0 <= a < b < all.len() implies (#[trigger] all[a]).start_line
            < (#[trigger] all[b]).start_line by {
            if b < prev.len() {
                assert(all[a] == prev[a] && all[b] == prev[b]);
            } else {
                assert(all[b] == tail[b - prev.len()]);
                if a < prev.len() {
                    assert(all[a] == prev[a]);
                } else {
                    assert(all[a] == tail[a - prev.len()]);
                }
            }
        }
    }
}

/// Law: every re-export found in a Python file names one of its lines
/// (counted from 1), in order of the lines.
pub proof fn lemma_python_re_export_lines(ls: Seq<Seq<char>>)
    ensures
        forall|k: int|
            0 <= k < python_re_exports(ls).len() ==> 1 <= (
            #[trigger] python_re_exports(ls)[k]).start_line <= ls.len(),
        forall|a: int, b: int|
            0 <= a < b < python_re_exports(ls).len() ==> (
            #[trigger] python_re_exports(ls)[a]).start_line < (
            #[trigger] python_re_exports(ls)[b]).start_line,
    decreases ls.len(),
{
    if ls.len() > 0 {
        let d = ls.drop_last();
        lemma_python_re_export_lines(d);
        let prev = python_re_exports(d);
        let tail = opt_seq(python_re_export(ls.last(), ls.len() as int));
        let all = prev + tail;
        assert forall|k: int| 0 <= k < all.len() implies 1 <= (#[trigger] all[k]).start_line
            <= ls.len() by {
            if k < prev.len() {
                assert(all[k] == prev[k]);
            } else {
                assert(all[k] == tail[k - prev.len()]);
            }
        }
        assert forall|a: int, b: int| 0 <= a < b < all.len() implies (#[trigger] all[a]).start_line
            < (#[trigger] all[b]).start_line by {
            if b < prev.len() {
                assert(all[a] == prev[a] && all[b] == prev[b]);
            } else {
                assert(all[b] == tail[b - prev.len()]);
                if a < prev.len() {
                    assert(all[a] == prev[a]);
                } else {
                    assert(all[a] == tail[a - prev.len()]);
                }
            }
        }
    }
}

// ---------------------------------------------------------------------------
// Executable functions
// ---------------------------------------------------------------------------

/// The module path after ` from ` in `line`, trimmed of whitespace and quotes,
/// without trailing semicolons.
pub fn extract_from_path(line: &str) -> (r: Option<String>)
    ensures
        crate::models::opt_view(r) == js_from_path(line@),
{
    let cs = to_chars(line);
    match from_path_of(cs.as_slice()) {
        Some(v) => Some(chars_to_string(v.as_slice())),
        None => None,
    }
}

/// The names of `parts`, each trimmed and cut before ` as `.
fn alias_free_names_of(parts: &Vec<Vec<char>>) -> (r: Vec<String>)
    ensures
        string_views(r@) == alias_free_names(views(parts@)),
{
    let as_pat = [' ', 'a', 's', ' '];
    proof {
        reveal_strlit(" as ");
    }
    assert(as_pat@ =~= " as "@);
    let ghost ps = views(parts@);
    let mut r: Vec<String> = Vec::new();
    let mut k: usize = 0;
    while k < parts.len()
        invariant
            k <= parts.len(),
            ps == views(parts@),
            as_pat@ == " as "@,
            string_views(r@) == alias_free_names(ps.take(k as int)),
        decreases parts.len() - k,
    {
        let name = trim_chars(parts[k].as_slice());
        let b = before_first_chars(name.as_slice(), &as_pat);
        let base = trim_chars(b.as_slice());
        assert(ps.take(k + 1).drop_last() =~= ps.take(k as int));
        assert(ps.take(k + 1).last() == parts@[k as int]@);
        if base.len() > 0 {
            let s = chars_to_string(base.as_slice());
            let ghost before = r@;
            r.push(s);
            assert(string_views(r@) =~= string_views(before).push(base@));
        }
        assert(string_views(r@) =~= alias_free_names(ps.take(k + 1)));
        k = k + 1;
    }
    assert(ps.take(parts.len() as int) =~= ps);
    r
}

/// The parts of `parts` that are not empty once trimmed, trimmed.
fn nonempty_trimmed_of(parts: &Vec<Vec<char>>) -> (r: Vec<String>)
    ensures
        string_views(r@) == nonempty_trimmed(views(parts@)),
{
    let ghost ps = views(parts@);
    let mut r: Vec<String> = Vec::new();
    let mut k: usize = 0;
    while k < parts.len()
        invariant
            k <= parts.len(),
            ps == views(parts@),
            string_views(r@) == nonempty_trimmed(ps.take(k as int)),
        decreases parts.len() - k,
    {
        let t = trim_chars(parts[k].as_slice());
        assert(ps.take(k + 1).drop_last() =~= ps.take(k as int));
        assert(ps.take(k + 1).last() == parts@[k as int]@);
        if t.len() > 0 {
            let s = chars_to_string(t.as_slice());
            let ghost before = r@;
            r.push(s);
            assert(string_views(r@) =~= string_views(before).push(t@));
        }
        assert(string_views(r@) =~= nonempty_trimmed(ps.take(k + 1)));
        k = k + 1;
    }
    assert(ps.take(parts.len() as int) =~= ps);
    r
}

/// The names listed between the first `{` and the first `}` of `cs`.
fn names_in_braces(cs: &[char]) -> (r: Vec<String>)
    requires
        braces_ordered(cs@),
    ensures
        string_views(r@) == exported_names(cs@),
{
    let ob = ['{'];
    let cb = ['}'];
    assert(ob@ =~= seq!['{']);
    assert(cb@ =~= seq!['}']);
    let open = match find_first(cs, &ob) {
        Some(i) => i,
        None => return Vec::new(),
    };
    let close = match find_first(cs, &cb) {
        Some(i) => i,
        None => return Vec::new(),
    };
    proof {
        lemma_find_bounds(cs@, ob@);
        lemma_find_bounds(cs@, cb@);
    }
    let inner = copy_range(cs, open + 1, close);
    let comma = [','];
    assert(comma@ =~= seq![',']);
    let parts = split_chars(inner.as_slice(), &comma);
    alias_free_names_of(&parts)
}

/// The names listed in an export clause: between the first `{` and the first
/// `}` of `line`, separated by commas, each without its `as` alias.
pub fn extract_exported_names(line: &str) -> (r: Vec<String>)
    requires
        braces_ordered(line@),
    ensures
        string_views(r@) == exported_names(line@),
{
    let cs = to_chars(line);
    names_in_braces(cs.as_slice())
}

/// The re-exports (`export * from ..`, `export { .. } from ..`) of a
/// JavaScript or TypeScript file, with their line numbers.
pub fn detect_js_ts_re_exports(content: &str) -> (r: Vec<ReExportEntry>)
    requires
        lines(content@).len() < i64::MAX,
    ensures
        re_export_views(r@) == js_re_exports(lines(content@)),
{
    let cs = to_chars(content);
    let ls = lines_chars(cs.as_slice());
    let ghost lv = views(ls@);
    let star = ['e', 'x', 'p', 'o', 'r', 't', ' ', '*'];
    let brace = ['e', 'x', 'p', 'o', 'r', 't', ' ', '{'];
    proof {
        reveal_strlit("export *");
        reveal_strlit("export {");
    }
    assert(star@ =~= "export *"@);
    assert(brace@ =~= "export {"@);
    let mut r: Vec<ReExportEntry> = Vec::new();
    let mut i: usize = 0;
    while i < ls.len()
        invariant
            i <= ls.len(),
            lv == views(ls@),
            lv.len() < i64::MAX,
            star@ == "export *"@,
            brace@ == "export {"@,
            re_export_views(r@) == js_re_exports(lv.take(i as int)),
        decreases ls.len() - i,
    {
        let t = trim_chars(ls[i].as_slice());
        let n: i64 = (i + 1) as i64;
        assert(lv.take(i + 1).drop_last() =~= lv.take(i as int));
        assert(lv.take(i + 1).last() == ls@[i as int]@);
        let ghost before = r@;
        if starts_with(t.as_slice(), &star) {
            match from_path_of(t.as_slice()) {
                Some(src) => {
                    r.push(
                        ReExportEntry {
                            exported_symbols: None,
                            source_path: chars_to_string(src.as_slice()),
                            start_line: n,
                        },
                    );
                },
                None => {},
            }
        } else if starts_with(t.as_slice(), &brace) {
            match from_path_of(t.as_slice()) {
                Some(src) => {
                    proof {
                        lemma_export_brace_ordered(t@);
                    }
                    let names = names_in_braces(t.as_slice());
                    r.push(
                        ReExportEntry {
                            exported_symbols: Some(names),
                            source_path: chars_to_string(src.as_slice()),
                            start_line: n,
                        },
                    );
                },
                None => {},
            }
        }
        assert(re_export_views(r@) =~= re_export_views(before) + opt_seq(
            js_re_export(lv.take(i + 1).last(), (i + 1) as int),
        ));
        i = i + 1;
    }
    assert(lv.take(ls.len() as int) =~= lv);
    r
}

/// The re-exports (`from .. import ..`) of a Python file, with their line numbers.
pub fn detect_python_re_exports(content: &str) -> (r: Vec<ReExportEntry>)
    requires
        lines(content@).len() < i64::MAX,
        python_lines_ok(lines(content@)),
    ensures
        re_export_views(r@) == python_re_exports(lines(content@)),
{
    let cs = to_chars(content);
    let ls = lines_chars(cs.as_slice());
    let ghost lv = views(ls@);
    let from_pat = ['f', 'r', 'o', 'm', ' '];
    let import_pat = [' ', 'i', 'm', 'p', 'o', 'r', 't', ' '];
    proof {
        reveal_strlit("from ");
        reveal_strlit(" import ");
    }
    assert(from_pat@ =~= "from "@);
    assert(import_pat@ =~= " import "@);
    let semi = [';'];
    let comma = [','];
    assert(semi@ =~= seq![';']);
    assert(comma@ =~= seq![',']);
    let mut r: Vec<ReExportEntry> = Vec::new();
    let mut i: usize = 0;
    while i < ls.len()
        invariant
            i <= ls.len(),
            lv == views(ls@),
            lv.len() < i64::MAX,
            python_lines_ok(lv),
            from_pat@ == "from "@,
            import_pat@ == " import "@,
            semi@ == seq![';'],
            comma@ == seq![','],
            re_export_views(r@) == python_re_exports(lv.take(i as int)),
        decreases ls.len() - i,
    {
        let t = trim_chars(ls[i].as_slice());
        let n: i64 = (i + 1) as i64;
        assert(lv.take(i + 1).drop_last() =~= lv.take(i as int));
        assert(lv.take(i + 1).last() == ls@[i as int]@);
        assert(python_line_ok(lv[i as int]));
        let ghost before = r@;
        if starts_with(t.as_slice(), &from_pat) {
            match find_first(t.as_slice(), &import_pat) {
                Some(k) => {
                    proof {
                        lemma_find_bounds(t@, import_pat@);
                    }
                    assert(import_pat@.len() == 8);
                    let tl = t.len();
                    assert(k + 8 <= tl);
                    let source_raw = copy_range(t.as_slice(), 5, k);
                    let source = trim_chars(source_raw.as_slice());
                    let after = copy_range(t.as_slice(), k + 8, tl);
                    assert(after@ =~= t@.skip(k + 8));
                    let imported = rskip_set_chars(after.as_slice(), &semi);
                    let ti = trim_chars(imported.as_slice());
                    let symbols = if ti.len() == 1 && ti[0] == '*' {
                        assert(ti@ =~= seq!['*']);
                        None
                    } else {
                        assert(ti@ != seq!['*']);
                        let parts = split_chars(imported.as_slice(), &comma);
                        Some(nonempty_trimmed_of(&parts))
                    };
                    r.push(
                        ReExportEntry {
                            exported_symbols: symbols,
                            source_path: chars_to_string(source.as_slice()),
                            start_line: n,
                        },
                    );
                },
                None => {},
            }
        }
        assert(re_export_views(r@) =~= re_export_views(before) + opt_seq(
            python_re_export(lv.take(i + 1).last(), (i + 1) as int),
        ));
        i = i + 1;
    }
    assert(lv.take(ls.len() as int) =~= lv);
    r
}

/// The re-exports of a file: by its extension, those of a JavaScript or
/// TypeScript file, of a Python file, or none.
pub fn detect_re_exports(content: &str, file_path: &str) -> (r: Vec<ReExportEntry>)
    requires
        re_export_input_ok(content@, file_path@),
    ensures
        re_export_views(r@) == re_exports_of(content@, file_path@),
{
    match extension_of(file_path) {
        None => Vec::new(),
        Some(e) => {
            let es = e.as_str();
            if str_eq(es, "ts") || str_eq(es, "tsx") || str_eq(es, "js") || str_eq(es, "jsx") {
                detect_js_ts_re_exports(content)
            } else if str_eq(es, "py") {
                detect_python_re_exports(content)
            } else {
                Vec::new()
            }
        },
    }
}

/// Whether `detect_re_exports` can number and slice the lines of `content`
/// (`re_export_input_ok`).
pub fn re_export_input_in_range(content: &str, file_path: &str) -> (b: bool)
    ensures
        b == re_export_input_ok(content@, file_path@),
{
    let cs = to_chars(content);
    let ls = lines_chars(cs.as_slice());
    let ghost lv = views(ls@);
    if ls.len() as u64 >= 0x7fff_ffff_ffff_ffff {
        return false;
    }
    let is_py = match extension_of(file_path) {
        Some(e) => str_eq(e.as_str(), "py"),
        None => false,
    };
    if !is_py {
        return true;
    }
    let from_pat = ['f', 'r', 'o', 'm', ' '];
    let import_pat = [' ', 'i', 'm', 'p', 'o', 'r', 't', ' '];
    proof {
        reveal_strlit("from ");
        reveal_strlit(" import ");
    }
    assert(from_pat@ =~= "from "@);
    assert(import_pat@ =~= " import "@);
    let mut i: usize = 0;
    while i < ls.len()
        invariant
            i <= ls@.len(),
            lv == views(ls@),
            lv == lines(content@),
            lv.len() < i64::MAX,
            extension(file_path@) == Some("py"@),
            from_pat@ == "from "@,
            import_pat@ == " import "@,
            forall|q: int| 0 <= q < i ==> #[trigger] python_line_ok(lv[q]),
        decreases ls@.len() - i,
    {
        let t = trim_chars(ls[i].as_slice());
        assert(lv[i as int] == ls@[i as int]@);
        if starts_with(t.as_slice(), &from_pat) {
            match find_first(t.as_slice(), &import_pat) {
                Some(k) => {
                    if k < 5 {
                        assert(crate::text::find(t@, " import "@) == Some(k as int));
                        assert(!python_line_ok(lv[i as int]));
                        assert(!python_lines_ok(lv));
                        return false;
                    }
                },
                None => {},
            }
        }
        i = i + 1;
    }
    true
}

} // verus!
