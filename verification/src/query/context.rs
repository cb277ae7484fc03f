//! Choosing one symbol among the index rows that match a name, and cutting
//! the symbol's code out of its file.

use crate::error::CortexError;
use crate::indexer::db::SymbolRow;
use crate::paths::{file_name, file_name_of, file_name_str, path_join};
use crate::text::{
    chars_eq, chars_to_string, copy_range, decimal, decimal_string, ends_with, join, join_chars,
    lemma_join_first, lemma_join_last, lemma_join_part, lines, lines_chars, occurs_at, str_eq,
    to_chars, views,
};
use vstd::prelude::*;

verus! {

/// The code of a symbol together with where it stands.
#[derive(Debug)]
pub struct CodeContext {
    pub symbol_name: String,
    pub kind: String,
    pub file_path: String,
    pub start_line: i64,
    pub end_line: i64,
    pub signature: Option<String>,
    pub code: String,
}

// ---------------------------------------------------------------------------
// Code extraction
// ---------------------------------------------------------------------------

/// The lines `start_line..=end_line` (1-based) of `ls`, clipped to the file.
/// A negative start selects nothing and a negative end reaches the last line,
/// as the 64-bit conversion of the line numbers to indices makes them.
pub open spec fn code_lines(ls: Seq<Seq<char>>, start_line: int, end_line: int) -> Seq<Seq<char>> {
    let start = if start_line <= 0 {
        0
    } else {
        start_line - 1
    };
    let end = if end_line < 0 || end_line > ls.len() {
        ls.len() as int
    } else {
        end_line
    };
    if start_line < 0 || start >= end {
        Seq::empty()
    } else {
        ls.subrange(start, end)
    }
}

/// The code of a symbol whose lines are `start_line..=end_line` in `content`.
pub open spec fn symbol_code(content: Seq<char>, start_line: int, end_line: int) -> Seq<char> {
    join(code_lines(lines(content), start_line, end_line), seq!['\n'])
}

/// For lines `start_line..=end_line` within the file, the code of a symbol is
/// exactly those lines, in order, joined by line feeds: it begins with line
/// `start_line`, ends with line `end_line`, and holds every line between.
pub proof fn lemma_symbol_code_lines(content: Seq<char>, start_line: int, end_line: int)
    requires
        1 <= start_line <= end_line <= lines(content).len(),
    ensures
        symbol_code(content, start_line, end_line) == join(
            lines(content).subrange(start_line - 1, end_line),
            seq!['\n'],
        ),
        lines(content)[start_line - 1].is_prefix_of(symbol_code(content, start_line, end_line)),
        lines(content)[end_line - 1].is_suffix_of(symbol_code(content, start_line, end_line)),
        start_line == end_line ==> symbol_code(content, start_line, end_line) == lines(
            content,
        )[start_line - 1],
{
    let ls = lines(content);
    let part = ls.subrange(start_line - 1, end_line);
    assert(code_lines(ls, start_line, end_line) =~= part);
    lemma_join_first(part, seq!['\n']);
    lemma_join_last(part, seq!['\n']);
    assert(part[0] == ls[start_line - 1]);
    assert(part.last() == ls[end_line - 1]);
}

/// Lines past the end of the file are left out: a symbol whose lines run past
/// the last line has the code of its lines up to the last one. A symbol whose
/// first line comes after its last line, or after the end of the file, has no
/// code.
pub proof fn lemma_symbol_code_clipped(content: Seq<char>, start_line: int, end_line: int)
    ensures
        1 <= start_line <= lines(content).len() <= end_line ==> symbol_code(
            content,
            start_line,
            end_line,
        ) == join(lines(content).subrange(start_line - 1, lines(content).len() as int), seq!['\n']),
        1 <= end_line < start_line || (1 <= start_line && lines(content).len() < start_line)
            ==> symbol_code(content, start_line, end_line) == Seq::<char>::empty(),
{
    let ls = lines(content);
    if 1 <= start_line <= ls.len() <= end_line {
        assert(code_lines(ls, start_line, end_line) =~= ls.subrange(start_line - 1, ls.len() as int));
    }
    if 1 <= end_line < start_line || (1 <= start_line && ls.len() < start_line) {
        assert(code_lines(ls, start_line, end_line) =~= Seq::<Seq<char>>::empty());
    }
}

/// Every line `k` of `start_line..=end_line` within the file occurs in the code
/// of a symbol with those lines; the result is a position where it does.
pub proof fn lemma_symbol_code_holds_line(
    content: Seq<char>,
    start_line: int,
    end_line: int,
    k: int,
) -> (p: int)
    requires
        1 <= start_line <= k <= end_line <= lines(content).len(),
    ensures
        occurs_at(symbol_code(content, start_line, end_line), lines(content)[k - 1], p),
{
    let ls = lines(content);
    let part = ls.subrange(start_line - 1, end_line);
    assert(code_lines(ls, start_line, end_line) =~= part);
    assert(part[k - start_line] == ls[k - 1]);
    lemma_join_part(part, seq!['\n'], k - start_line)
}

/// The code of `symbol` in `content` (the text of its file): its lines joined
/// by line feeds, with the symbol's name, kind, path, lines and signature.
pub fn extract_code(symbol: &SymbolRow, content: &str) -> (c: CodeContext)
    ensures
        c.code@ == symbol_code(content@, symbol.start_line as int, symbol.end_line as int),
        1 <= symbol.start_line <= symbol.end_line <= lines(content@).len() ==> c.code@ == join(
            lines(content@).subrange(symbol.start_line - 1, symbol.end_line as int),
            seq!['\n'],
        ),
        c.symbol_name == symbol.name,
        c.kind == symbol.kind,
        c.file_path == symbol.path,
        c.start_line == symbol.start_line,
        c.end_line == symbol.end_line,
        c.signature == symbol.signature,
{
    let cs = to_chars(content);
    let ls = lines_chars(cs.as_slice());
    let ghost lv = views(ls@);
    let n = ls.len();
    let mut parts: Vec<Vec<char>> = Vec::new();
    let sl = symbol.start_line;
    let el = symbol.end_line;
    if sl >= 0 {
        let start: usize = if sl == 0 {
            0
        } else if (sl - 1) as u64 >= n as u64 {
            n
        } else {
            (sl - 1) as usize
        };
        let end: usize = if el < 0 || el as u64 > n as u64 {
            n
        } else {
            el as usize
        };
        let mut i = start;
        if start < end {
        while i < end
            invariant
                start <= end <= n,
                n == ls@.len(),
                lv == views(ls@),
                start <= i <= end,
                views(parts@) == lv.subrange(start as int, i as int),
            decreases end - i,
        {
            let piece = copy_range(ls[i].as_slice(), 0, ls[i].len());
            assert(piece@ =~= lv[i as int]);
            let ghost before = views(parts@);
            parts.push(piece);
            assert(views(parts@) =~= before.push(lv[i as int]));
            assert(views(parts@) =~= lv.subrange(start as int, i + 1));
            i = i + 1;
        }
        }
        proof {
            if start < end {
                assert(code_lines(lv, sl as int, el as int) =~= lv.subrange(start as int, end as int));
            } else {
                assert(views(parts@) =~= Seq::<Seq<char>>::empty());
            }
        }
    } else {
        assert(views(parts@) =~= Seq::<Seq<char>>::empty());
    }
    let nl = ['\n'];
    assert(nl@ =~= seq!['\n']);
    let code = join_chars(&parts, &nl);
    proof {
        if 1 <= sl <= el <= lines(content@).len() {
            lemma_symbol_code_lines(content@, sl as int, el as int);
        }
    }
    let signature = match &symbol.signature {
        Some(s) => Some(s.clone()),
        None => None,
    };
    CodeContext {
        symbol_name: symbol.name.clone(),
        kind: symbol.kind.clone(),
        file_path: symbol.path.clone(),
        start_line: symbol.start_line,
        end_line: symbol.end_line,
        signature,
        code: chars_to_string(code.as_slice()),
    }
}

// ---------------------------------------------------------------------------
// Symbol selection
// ---------------------------------------------------------------------------

/// File names of barrel (re-export) files.
pub open spec fn is_barrel_name(n: Seq<char>) -> bool {
    n == "index.ts"@ || n == "index.tsx"@ || n == "index.js"@ || n == "index.jsx"@ || n
        == "mod.rs"@ || n == "__init__.py"@
}

/// A path names a barrel file when its file name is one of the barrel names.
pub open spec fn is_barrel_path(p: Seq<char>) -> bool {
    match file_name(p) {
        Some(n) => is_barrel_name(n),
        None => false,
    }
}

/// Whether `path` names a barrel file by naming convention.
pub fn is_barrel_file(path: &str) -> (b: bool)
    ensures
        b == is_barrel_path(path@),
{
    match file_name_str(path) {
        Some(n) => {
            let s = n.as_str();
            str_eq(s, "index.ts") || str_eq(s, "index.tsx") || str_eq(s, "index.js") || str_eq(
                s,
                "index.jsx",
            ) || str_eq(s, "mod.rs") || str_eq(s, "__init__.py")
        },
        None => false,
    }
}

/// How well a row's file matches the requested file `fp`: the same path (4),
/// a path ending in `fp` (3), the same absolute file as `canonical` (2), the
/// same file name (1), or no match (0).
pub open spec fn path_score(r: SymbolRow, fp: Seq<char>, canonical: Option<Seq<char>>) -> int {
    let filename = match file_name(fp) {
        Some(n) => n,
        None => fp,
    };
    if r.path@ == fp {
        4
    } else if fp.is_suffix_of(r.path@) {
        3
    } else if canonical matches Some(c) && path_join(r.project_root@, r.path@) == c {
        2
    } else if file_name(r.path@) == Some(filename) {
        1
    } else {
        0
    }
}

/// The rows of `c` with score `s` and the given barrel-ness.
pub open spec fn score_group(
    c: Seq<SymbolRow>,
    fp: Seq<char>,
    canonical: Option<Seq<char>>,
    s: int,
    barrel: bool,
) -> Seq<SymbolRow> {
    c.filter(|r: SymbolRow| path_score(r, fp, canonical) == s && is_barrel_path(r.path@) == barrel)
}

/// The rows of `c` with a score of at most `s` and above zero, best score
/// first, barrel files first within a score, otherwise in the order of `c`
/// (a stable sort by descending score and barrel-ness, without the rows that
/// do not match at all).
pub open spec fn ranked_from(c: Seq<SymbolRow>, fp: Seq<char>, canonical: Option<Seq<char>>, s: int) -> Seq<
    SymbolRow,
>
    decreases s,
{
    if s <= 0 {
        Seq::empty()
    } else {
        score_group(c, fp, canonical, s, true) + score_group(c, fp, canonical, s, false)
            + ranked_from(c, fp, canonical, s - 1)
    }
}

/// The rows of `c` that match the requested file, ranked.
pub open spec fn ranked_matches(c: Seq<SymbolRow>, fp: Seq<char>, canonical: Option<Seq<char>>) -> Seq<
    SymbolRow,
> {
    ranked_from(c, fp, canonical, 4)
}

/// Rows of kind `k`.
pub open spec fn has_kind(k: Seq<char>) -> spec_fn(SymbolRow) -> bool {
    |r: SymbolRow| r.kind@ == k
}

/// The rows of kind `kind`, or all rows when no kind is given.
pub open spec fn of_kind(rows: Seq<SymbolRow>, kind: Option<Seq<char>>) -> Seq<SymbolRow> {
    match kind {
        Some(k) => rows.filter(has_kind(k)),
        None => rows,
    }
}

/// The rows named exactly `name`.
pub open spec fn named(rows: Seq<SymbolRow>, name: Seq<char>) -> Seq<SymbolRow> {
    rows.filter(name_is(name))
}

/// Rows named exactly `name`.
pub open spec fn name_is(name: Seq<char>) -> spec_fn(SymbolRow) -> bool {
    |r: SymbolRow| r.name@ == name
}

/// Rows outside barrel files.
pub open spec fn outside_barrel() -> spec_fn(SymbolRow) -> bool {
    |r: SymbolRow| !is_barrel_path(r.path@)
}

/// The rows outside barrel files.
pub open spec fn non_barrel(rows: Seq<SymbolRow>) -> Seq<SymbolRow> {
    rows.filter(outside_barrel())
}

/// One line of the list of ambiguous candidates.
pub open spec fn candidate_line(r: SymbolRow) -> Seq<char> {
    "  "@ + r.name@ + " ("@ + r.path@ + ") ["@ + r.kind@ + "]"@
}

/// The candidate lines of `rows`.
pub open spec fn candidate_lines(rows: Seq<SymbolRow>) -> Seq<Seq<char>> {
    rows.map_values(|r: SymbolRow| candidate_line(r))
}

/// The message for a name that several rows carry.
pub open spec fn ambiguous_message(name: Seq<char>, cands: Seq<SymbolRow>) -> Seq<char> {
    let shown = if cands.len() > 5 {
        cands.take(5)
    } else {
        cands
    };
    let remaining: nat = if cands.len() > 5 {
        (cands.len() - 5) as nat
    } else {
        0
    };
    "Multiple symbols named '"@ + name + "' found. Please specify a file path or kind:\n"@ + join(
        candidate_lines(shown),
        seq!['\n'],
    ) + seq!['\n'] + decimal(remaining) + " more matches..."@
}

/// The message for a name that several rows of the requested file carry.
pub open spec fn ambiguous_in_file_message(name: Seq<char>, fp: Seq<char>) -> Seq<char> {
    "Multiple symbols named '"@ + name + "' found in file '"@ + fp
        + "'. Use 'kind' to disambiguate."@
}

/// The row that a lookup selects, or the message of the `SymbolNotFound`
/// error that it reports.
///
/// Without a file: the only row named exactly `name`; otherwise, among the
/// rows named exactly `name` (or all rows when none is), the only one, with
/// an error listing the first five when there are several.  With a file: the
/// rows that match the file, ranked; the only one, or else (preferring rows
/// outside barrel files when there are some) the only one left, or the first
/// named exactly `name`, or an ambiguity error.
pub open spec fn lookup_outcome(
    rows: Seq<SymbolRow>,
    file_path: Option<Seq<char>>,
    canonical: Option<Seq<char>>,
    name: Seq<char>,
    kind: Option<Seq<char>>,
) -> Result<SymbolRow, Seq<char>> {
    let c = of_kind(rows, kind);
    match file_path {
        Some(fp) => {
            let f = ranked_matches(c, fp, canonical);
            if f.len() == 0 {
                Err(name + " in "@ + fp)
            } else if f.len() == 1 {
                Ok(f[0])
            } else {
                let nb = non_barrel(f);
                let f2 = if nb.len() > 0 {
                    nb
                } else {
                    f
                };
                if f2.len() > 1 {
                    let e = named(f2, name);
                    if e.len() > 0 {
                        Ok(e[0])
                    } else {
                        Err(ambiguous_in_file_message(name, fp))
                    }
                } else {
                    Ok(f2[0])
                }
            }
        },
        None => {
            let exact = named(c, name);
            if exact.len() == 1 {
                Ok(exact[0])
            } else {
                let cands = if exact.len() > 0 {
                    exact
                } else {
                    c
                };
                if cands.len() > 1 {
                    Err(ambiguous_message(name, cands))
                } else if cands.len() == 1 {
                    Ok(cands[0])
                } else {
                    Err(name)
                }
            }
        },
    }
}

/// Every element of a filtered sequence is an element of the sequence that
/// satisfies the filter.
pub proof fn lemma_filter_members<A>(s: Seq<A>, pred: spec_fn(A) -> bool)
    ensures
        forall|i: int|
            0 <= i < s.filter(pred).len() ==> s.contains(#[trigger] s.filter(pred)[i]) && pred(
                s.filter(pred)[i],
            ),
    decreases s.len(),
{
    reveal(Seq::filter);
    if s.len() > 0 {
        let d = s.drop_last();
        lemma_filter_members(d, pred);
        let out = s.filter(pred);
        let sub = d.filter(pred);
        assert forall|i: int| 0 <= i < out.len() implies s.contains(#[trigger] out[i]) && pred(
            out[i],
        ) by {
            if pred(s.last()) {
                assert(out == sub.push(s.last()));
                if i < sub.len() {
                    assert(out[i] == sub[i]);
                    let j = choose|j: int| 0 <= j < d.len() && d[j] == sub[i];
                    assert(s[j] == d[j]);
                } else {
                    assert(out[i] == s[s.len() - 1]);
                }
            } else {
                assert(out == sub);
                let j = choose|j: int| 0 <= j < d.len() && d[j] == sub[i];
                assert(s[j] == d[j]);
            }
        }
    }
}

/// `r` can be the answer to a lookup among `rows`: one of them, of the
/// requested kind, and matching the requested file.
pub open spec fn lookup_candidate(
    rows: Seq<SymbolRow>,
    file_path: Option<Seq<char>>,
    canonical: Option<Seq<char>>,
    kind: Option<Seq<char>>,
    r: SymbolRow,
) -> bool {
    &&& rows.contains(r)
    &&& kind matches Some(k) ==> r.kind@ == k
    &&& file_path matches Some(fp) ==> path_score(r, fp, canonical) > 0
}

/// The ranked rows are rows of `c` that match the file with a score of at most `s`.
proof fn lemma_ranked_members(c: Seq<SymbolRow>, fp: Seq<char>, canonical: Option<Seq<char>>, s: int)
    ensures
        forall|i: int|
            0 <= i < ranked_from(c, fp, canonical, s).len() ==> c.contains(
                #[trigger] ranked_from(c, fp, canonical, s)[i],
            ) && 0 < path_score(ranked_from(c, fp, canonical, s)[i], fp, canonical),
    decreases s,
{
    if s > 0 {
        lemma_ranked_members(c, fp, canonical, s - 1);
        let g1 = score_group(c, fp, canonical, s, true);
        let g2 = score_group(c, fp, canonical, s, false);
        let rest = ranked_from(c, fp, canonical, s - 1);
        let p1 = |r: SymbolRow| path_score(r, fp, canonical) == s && is_barrel_path(r.path@) == true;
        let p2 = |r: SymbolRow| path_score(r, fp, canonical) == s && is_barrel_path(r.path@) == false;
        lemma_filter_members(c, p1);
        lemma_filter_members(c, p2);
        let all = g1 + g2 + rest;
        assert forall|i: int| 0 <= i < all.len() implies c.contains(#[trigger] all[i]) && 0
            < path_score(all[i], fp, canonical) by {
            if i < g1.len() {
                assert(all[i] == g1[i]);
                assert(p1(g1[i]));
            } else if i < g1.len() + g2.len() {
                assert(all[i] == g2[i - g1.len()]);
                assert(p2(g2[i - g1.len()]));
            } else {
                assert(all[i] == rest[i - g1.len() - g2.len()]);
            }
        }
    }
}

/// Candidates stay candidates under any filter.
proof fn lemma_filter_candidates(
    rows: Seq<SymbolRow>,
    file_path: Option<Seq<char>>,
    canonical: Option<Seq<char>>,
    kind: Option<Seq<char>>,
    s: Seq<SymbolRow>,
    pred: spec_fn(SymbolRow) -> bool,
)
    requires
        forall|i: int|
            0 <= i < s.len() ==> lookup_candidate(rows, file_path, canonical, kind, #[trigger] s[i]),
    ensures
        forall|i: int|
            0 <= i < s.filter(pred).len() ==> lookup_candidate(
                rows,
                file_path,
                canonical,
                kind,
                #[trigger] s.filter(pred)[i],
            ),
{
    lemma_filter_members(s, pred);
    assert forall|i: int| 0 <= i < s.filter(pred).len() implies lookup_candidate(
        rows,
        file_path,
        canonical,
        kind,
        #[trigger] s.filter(pred)[i],
    ) by {
        let j = choose|j: int| 0 <= j < s.len() && s[j] == s.filter(pred)[i];
        assert(lookup_candidate(rows, file_path, canonical, kind, s[j]));
    }
}

/// The rows of `s` come by descending score for the requested file.
pub open spec fn score_sorted(s: Seq<SymbolRow>, fp: Seq<char>, canonical: Option<Seq<char>>) -> bool {
    forall|i: int, j: int|
        0 <= i < j < s.len() ==> path_score(#[trigger] s[i], fp, canonical) >= path_score(
            #[trigger] s[j],
            fp,
            canonical,
        )
}

proof fn lemma_ranked_from_sorted(c: Seq<SymbolRow>, fp: Seq<char>, canonical: Option<Seq<char>>, s: int)
    ensures
        score_sorted(ranked_from(c, fp, canonical, s), fp, canonical),
        forall|i: int|
            0 <= i < ranked_from(c, fp, canonical, s).len() ==> 1 <= path_score(
                #[trigger] ranked_from(c, fp, canonical, s)[i],
                fp,
                canonical,
            ) <= s,
    decreases s,
{
    if s > 0 {
        lemma_ranked_from_sorted(c, fp, canonical, s - 1);
        let pt = |r: SymbolRow| path_score(r, fp, canonical) == s && is_barrel_path(r.path@) == true;
        let pf = |r: SymbolRow| path_score(r, fp, canonical) == s && is_barrel_path(r.path@) == false;
        lemma_filter_members(c, pt);
        lemma_filter_members(c, pf);
        let a = score_group(c, fp, canonical, s, true);
        let b = score_group(c, fp, canonical, s, false);
        let rest = ranked_from(c, fp, canonical, s - 1);
        assert(a == c.filter(pt));
        assert(b == c.filter(pf));
        let all = a + b + rest;
        assert(ranked_from(c, fp, canonical, s) == all);
        assert forall|i: int| 0 <= i < all.len() implies 1 <= path_score(#[trigger] all[i], fp, canonical)
            <= s && (i < a.len() + b.len() ==> path_score(all[i], fp, canonical) == s) by {
            if i < a.len() {
                assert(all[i] == a[i]);
                assert(pt(a[i]));
            } else if i < a.len() + b.len() {
                assert(all[i] == b[i - a.len()]);
                assert(pf(b[i - a.len()]));
            } else {
                assert(all[i] == rest[i - a.len() - b.len()]);
            }
        }
        assert forall|i: int, j: int| 0 <= i < j < all.len() implies path_score(#[trigger] all[i], fp, canonical)
            >= path_score(#[trigger] all[j], fp, canonical) by {
            if j >= a.len() + b.len() && i >= a.len() + b.len() {
                assert(all[i] == rest[i - a.len() - b.len()]);
                assert(all[j] == rest[j - a.len() - b.len()]);
            }
        }
    }
}

proof fn lemma_filter_sorted(
    s: Seq<SymbolRow>,
    pred: spec_fn(SymbolRow) -> bool,
    fp: Seq<char>,
    canonical: Option<Seq<char>>,
)
    requires
        score_sorted(s, fp, canonical),
    ensures
        score_sorted(s.filter(pred), fp, canonical),
    decreases s.len(),
{
    reveal(Seq::filter);
    if s.len() > 0 {
        let d = s.drop_last();
        assert forall|i: int, j: int| 0 <= i < j < d.len() implies path_score(#[trigger] d[i], fp, canonical)
            >= path_score(#[trigger] d[j], fp, canonical) by {
            assert(d[i] == s[i] && d[j] == s[j]);
        }
        lemma_filter_sorted(d, pred, fp, canonical);
        lemma_filter_members(d, pred);
        let sub = d.filter(pred);
        if pred(s.last()) {
            let out = sub.push(s.last());
            assert(s.filter(pred) == out);
            assert forall|i: int, j: int| 0 <= i < j < out.len() implies path_score(#[trigger] out[i], fp, canonical)
                >= path_score(#[trigger] out[j], fp, canonical) by {
                assert(out[i] == sub[i]);
                if j == out.len() - 1 {
                    let k = choose|k: int| 0 <= k < d.len() && d[k] == sub[i];
                    assert(s[k] == d[k]);
                    assert(out[j] == s[s.len() - 1]);
                } else {
                    assert(out[j] == sub[j]);
                }
            }
        }
    }
}

/// The rows a lookup in the requested file chooses among once several rows
/// match: those outside barrel files when there are some, else all.
pub open spec fn preferred(f: Seq<SymbolRow>) -> Seq<SymbolRow> {
    if non_barrel(f).len() > 0 {
        non_barrel(f)
    } else {
        f
    }
}

/// Law: a lookup in a requested file finds nothing where no row matches the
/// file; answers the only preferred matching row (outside barrel files where
/// there are some) where there is one; and among several answers the
/// preferred row carrying exactly the requested name that matches the file
/// best (same path, then path suffix, then the same absolute file, then the
/// same file name), or nothing where none carries that name.
pub proof fn lemma_lookup_prefers_best_match(
    rows: Seq<SymbolRow>,
    fp: Seq<char>,
    canonical: Option<Seq<char>>,
    name: Seq<char>,
    kind: Option<Seq<char>>,
)
    ensures
        ({
            let f = ranked_matches(of_kind(rows, kind), fp, canonical);
            let out = lookup_outcome(rows, Some(fp), canonical, name, kind);
            &&& f.len() == 0 ==> out is Err
            &&& (f.len() > 0 && preferred(f).len() == 1) ==> out == Ok::<SymbolRow, Seq<char>>(
                preferred(f)[0],
            )
            &&& preferred(f).len() > 1 ==> (out is Err <==> named(preferred(f), name).len() == 0)
            &&& preferred(f).len() > 1 ==> (out matches Ok(r) ==> r.name@ == name)
            &&& out matches Ok(r) ==> {
                &&& preferred(f).contains(r)
                &&& forall|i: int|
                    0 <= i < preferred(f).len() && (#[trigger] preferred(f)[i]).name@ == name
                        ==> path_score(preferred(f)[i], fp, canonical) <= path_score(r, fp, canonical)
            }
        }),
{
    let c = of_kind(rows, kind);
    let f = ranked_matches(c, fp, canonical);
    lemma_ranked_from_sorted(c, fp, canonical, 4);
    lemma_filter_sorted(f, outside_barrel(), fp, canonical);
    lemma_filter_members(f, outside_barrel());
    let p = preferred(f);
    assert(score_sorted(p, fp, canonical));
    if f.len() == 1 {
        assert forall|i: int| 0 <= i < p.len() implies p[i] == f[0] by {
            if non_barrel(f).len() > 0 {
                assert(f.contains(p[i]));
            }
        }
        if lookup_outcome(rows, Some(fp), canonical, name, kind) is Ok {
            assert(p.len() >= 1) by {
                if non_barrel(f).len() == 0 {
                    assert(p == f);
                }
            }
            assert(p[0] == f[0]);
        }
    } else if f.len() > 1 {
        if p.len() > 1 {
            lemma_filter_members(p, name_is(name));
            lemma_filter_sorted(p, name_is(name), fp, canonical);
            let e = named(p, name);
            if e.len() > 0 {
                assert(p.contains(e[0]));
                assert forall|i: int| 0 <= i < p.len() && (#[trigger] p[i]).name@ == name implies path_score(
                    p[i],
                    fp,
                    canonical,
                ) <= path_score(e[0], fp, canonical) by {
                    p.lemma_filter_contains(name_is(name), i);
                    let k = choose|k: int| 0 <= k < e.len() && e[k] == p[i];
                    if k > 0 {
                        assert(path_score(e[0], fp, canonical) >= path_score(e[k], fp, canonical));
                    }
                }
            }
        } else if p.len() == 1 {
            assert(p.contains(p[0]));
        }
    }
}

/// Law: a lookup finds one of the rows it is given, never another; of the
/// requested kind when one is requested, and matching the requested file
/// when one is requested.
pub proof fn lemma_lookup_finds_candidate(
    rows: Seq<SymbolRow>,
    file_path: Option<Seq<char>>,
    canonical: Option<Seq<char>>,
    name: Seq<char>,
    kind: Option<Seq<char>>,
)
    ensures
        lookup_outcome(rows, file_path, canonical, name, kind) matches Ok(r) ==> lookup_candidate(
            rows,
            file_path,
            canonical,
            kind,
            r,
        ),
{
    let c = of_kind(rows, kind);
    let no_file: Option<Seq<char>> = None;
    assert forall|i: int| 0 <= i < c.len() implies lookup_candidate(
        rows,
        no_file,
        canonical,
        kind,
        #[trigger] c[i],
    ) by {
        match kind {
            Some(k) => {
                lemma_filter_members(rows, has_kind(k));
                assert(has_kind(k)(c[i]));
            },
            None => {
                assert(rows[i] == c[i]);
            },
        }
    }
    match file_path {
        Some(fp) => {
            let f = ranked_matches(c, fp, canonical);
            lemma_ranked_members(c, fp, canonical, 4);
            assert forall|i: int| 0 <= i < f.len() implies lookup_candidate(
                rows,
                file_path,
                canonical,
                kind,
                #[trigger] f[i],
            ) by {
                let j = choose|j: int| 0 <= j < c.len() && c[j] == f[i];
                assert(lookup_candidate(rows, no_file, canonical, kind, c[j]));
            }
            let nb = non_barrel(f);
            lemma_filter_candidates(
                rows,
                file_path,
                canonical,
                kind,
                f,
                outside_barrel(),
            );
            let f2 = if nb.len() > 0 {
                nb
            } else {
                f
            };
            lemma_filter_candidates(
                rows,
                file_path,
                canonical,
                kind,
                f2,
                name_is(name),
            );
        },
        None => {
            let exact = named(c, name);
            lemma_filter_candidates(rows, no_file, canonical, kind, c, name_is(name));
        },
    }
}

/// The rows at positions `idx`.
pub open spec fn rows_at(rows: Seq<SymbolRow>, idx: Seq<usize>) -> Seq<SymbolRow> {
    idx.map_values(|k: usize| rows[k as int])
}

/// The positions of `idx` whose flag in `keep` is set, where `keep` holds
/// `pred` of each row.
fn select(
    rows: &Vec<SymbolRow>,
    idx: &Vec<usize>,
    keep: &Vec<bool>,
    Ghost(pred): Ghost<spec_fn(SymbolRow) -> bool>,
) -> (out: Vec<usize>)
    requires
        keep@.len() == rows@.len(),
        forall|k: int| 0 <= k < rows@.len() ==> keep@[k] == pred(rows@[k]),
        forall|j: int| 0 <= j < idx@.len() ==> #[trigger] idx@[j] < rows@.len(),
    ensures
        rows_at(rows@, out@) == rows_at(rows@, idx@).filter(pred),
        forall|j: int| 0 <= j < out@.len() ==> #[trigger] out@[j] < rows@.len(),
{
    let mut out: Vec<usize> = Vec::new();
    let mut i: usize = 0;
    while i < idx.len()
        invariant
            keep@.len() == rows@.len(),
            forall|k: int| 0 <= k < rows@.len() ==> keep@[k] == pred(rows@[k]),
            forall|j: int| 0 <= j < idx@.len() ==> #[trigger] idx@[j] < rows@.len(),
            i <= idx@.len(),
            rows_at(rows@, out@) == rows_at(rows@, idx@.take(i as int)).filter(pred),
            forall|j: int| 0 <= j < out@.len() ==> #[trigger] out@[j] < rows@.len(),
        decreases idx.len() - i,
    {
        let k = idx[i];
        let ghost before = rows_at(rows@, idx@.take(i as int));
        let ghost after = rows_at(rows@, idx@.take(i + 1));
        assert(after.drop_last() =~= before);
        assert(after.last() == rows@[k as int]);
        proof {
            reveal(Seq::filter);
        }
        if keep[k] {
            out.push(k);
            assert(rows_at(rows@, out@) =~= before.filter(pred).push(rows@[k as int]));
        } else {
            assert(rows_at(rows@, out@) =~= before.filter(pred));
        }
        i = i + 1;
    }
    assert(idx@.take(idx@.len() as int) =~= idx@);
    out
}

/// The positions `0..n`.
fn all_positions(n: usize) -> (out: Vec<usize>)
    ensures
        out@.len() == n,
        forall|j: int| 0 <= j < n ==> #[trigger] out@[j] == j,
{
    let mut out: Vec<usize> = Vec::new();
    let mut i: usize = 0;
    while i < n
        invariant
            i <= n,
            out@.len() == i,
            forall|j: int| 0 <= j < i ==> #[trigger] out@[j] == j,
        decreases n - i,
    {
        out.push(i);
        i = i + 1;
    }
    out
}

/// Appends `b` to `a`.
fn append_positions(a: &mut Vec<usize>, b: &Vec<usize>)
    ensures
        final(a)@ == old(a)@ + b@,
{
    let mut i: usize = 0;
    let ghost start = a@;
    while i < b.len()
        invariant
            i <= b@.len(),
            a@ == start + b@.take(i as int),
        decreases b.len() - i,
    {
        a.push(b[i]);
        assert(b@.take(i + 1) =~= b@.take(i as int).push(b@[i as int]));
        i = i + 1;
    }
    assert(b@.take(b@.len() as int) =~= b@);
}

proof fn lemma_rows_at_add(rows: Seq<SymbolRow>, a: Seq<usize>, b: Seq<usize>)
    ensures
        rows_at(rows, a + b) == rows_at(rows, a) + rows_at(rows, b),
{
    assert(rows_at(rows, a + b) =~= rows_at(rows, a) + rows_at(rows, b));
}

/// The score of each row against the requested file.
fn row_scores(rows: &Vec<SymbolRow>, fp: &str, canonical: Option<&str>) -> (out: Vec<u8>)
    ensures
        out@.len() == rows@.len(),
        forall|k: int|
            0 <= k < rows@.len() ==> out@[k] as int == path_score(
                rows@[k],
                fp@,
                match canonical {
                    Some(c) => Some(c@),
                    None => None,
                },
            ),
{
    let ghost canon = match canonical {
        Some(c) => Some(c@),
        None => None::<Seq<char>>,
    };
    let fpc = to_chars(fp);
    let filename: Vec<char> = match file_name_of(fpc.as_slice()) {
        Some(n) => n,
        None => copy_range(fpc.as_slice(), 0, fpc.len()),
    };
    assert(filename@ == (match file_name(fp@) {
        Some(n) => n,
        None => fp@,
    }));
    let mut out: Vec<u8> = Vec::new();
    let mut i: usize = 0;
    while i < rows.len()
        invariant
            i <= rows@.len(),
            out@.len() == i,
            fpc@ == fp@,
            canon == (match canonical {
                Some(c) => Some(c@),
                None => None::<Seq<char>>,
            }),
            filename@ == (match file_name(fp@) {
                Some(n) => n,
                None => fp@,
            }),
            forall|k: int| 0 <= k < i ==> out@[k] as int == path_score(rows@[k], fp@, canon),
        decreases rows.len() - i,
    {
        let r = &rows[i];
        let pc = to_chars(r.path.as_str());
        let s: u8 = if str_eq(r.path.as_str(), fp) {
            4
        } else if ends_with(pc.as_slice(), fpc.as_slice()) {
            3
        } else if match canonical {
            Some(c) => {
                let a = r.absolute_path();
                str_eq(a.as_str(), c)
            },
            None => false,
        } {
            2
        } else if match file_name_of(pc.as_slice()) {
            Some(n) => chars_eq(n.as_slice(), filename.as_slice()),
            None => false,
        } {
            1
        } else {
            0
        };
        out.push(s);
        i = i + 1;
    }
    out
}

/// Whether each row lies in a barrel file.
fn row_barrels(rows: &Vec<SymbolRow>) -> (out: Vec<bool>)
    ensures
        out@.len() == rows@.len(),
        forall|k: int| 0 <= k < rows@.len() ==> out@[k] == is_barrel_path(rows@[k].path@),
{
    let mut out: Vec<bool> = Vec::new();
    let mut i: usize = 0;
    while i < rows.len()
        invariant
            i <= rows@.len(),
            out@.len() == i,
            forall|k: int| 0 <= k < i ==> out@[k] == is_barrel_path(rows@[k].path@),
        decreases rows.len() - i,
    {
        out.push(is_barrel_file(rows[i].path.as_str()));
        i = i + 1;
    }
    out
}

/// Flags for the rows with score `s` and barrel-ness `b`.
fn group_flags(scores: &Vec<u8>, barrels: &Vec<bool>, s: u8, b: bool) -> (out: Vec<bool>)
    requires
        scores@.len() == barrels@.len(),
    ensures
        out@.len() == scores@.len(),
        forall|k: int| 0 <= k < scores@.len() ==> out@[k] == (scores@[k] == s && barrels@[k] == b),
{
    let mut out: Vec<bool> = Vec::new();
    let mut i: usize = 0;
    while i < scores.len()
        invariant
            scores@.len() == barrels@.len(),
            i <= scores@.len(),
            out@.len() == i,
            forall|k: int| 0 <= k < i ==> out@[k] == (scores@[k] == s && barrels@[k] == b),
        decreases scores.len() - i,
    {
        out.push(scores[i] == s && barrels[i] == b);
        i = i + 1;
    }
    out
}

/// Flags for the rows whose text field selected by `by_kind` equals `t`
/// (the kind when `by_kind`, else the name).
fn text_flags(rows: &Vec<SymbolRow>, t: &str, by_kind: bool) -> (out: Vec<bool>)
    ensures
        out@.len() == rows@.len(),
        forall|k: int|
            0 <= k < rows@.len() ==> out@[k] == (if by_kind {
                rows@[k].kind@ == t@
            } else {
                rows@[k].name@ == t@
            }),
{
    let mut out: Vec<bool> = Vec::new();
    let mut i: usize = 0;
    while i < rows.len()
        invariant
            i <= rows@.len(),
            out@.len() == i,
            forall|k: int|
                0 <= k < i ==> out@[k] == (if by_kind {
                    rows@[k].kind@ == t@
                } else {
                    rows@[k].name@ == t@
                }),
        decreases rows.len() - i,
    {
        let b = if by_kind {
            str_eq(rows[i].kind.as_str(), t)
        } else {
            str_eq(rows[i].name.as_str(), t)
        };
        out.push(b);
        i = i + 1;
    }
    out
}

/// The negation of each flag.
fn negated(flags: &Vec<bool>) -> (out: Vec<bool>)
    ensures
        out@.len() == flags@.len(),
        forall|k: int| 0 <= k < flags@.len() ==> out@[k] == !flags@[k],
{
    let mut out: Vec<bool> = Vec::new();
    let mut i: usize = 0;
    while i < flags.len()
        invariant
            i <= flags@.len(),
            out@.len() == i,
            forall|k: int| 0 <= k < i ==> out@[k] == !flags@[k],
        decreases flags.len() - i,
    {
        out.push(!flags[i]);
        i = i + 1;
    }
    out
}

/// The message listing the candidates at `idx`.
fn ambiguous_text(rows: &Vec<SymbolRow>, idx: &Vec<usize>, name: &str) -> (m: String)
    requires
        forall|j: int| 0 <= j < idx@.len() ==> #[trigger] idx@[j] < rows@.len(),
    ensures
        m@ == ambiguous_message(name@, rows_at(rows@, idx@)),
{
    let ghost cands = rows_at(rows@, idx@);
    let shown_n: usize = if idx.len() > 5 {
        5
    } else {
        idx.len()
    };
    let ghost shown = if cands.len() > 5 {
        cands.take(5)
    } else {
        cands
    };
    let mut parts: Vec<String> = Vec::new();
    let mut i: usize = 0;
    while i < shown_n
        invariant
            forall|j: int| 0 <= j < idx@.len() ==> #[trigger] idx@[j] < rows@.len(),
            cands == rows_at(rows@, idx@),
            shown_n <= idx@.len(),
            shown_n == shown.len(),
            shown == cands.take(shown_n as int),
            i <= shown_n,
            crate::text::string_views(parts@) == candidate_lines(shown).take(i as int),
        decreases shown_n - i,
    {
        let r = &rows[idx[i]];
        let mut line = "  ".to_owned();
        line.append(r.name.as_str());
        line.append(" (");
        line.append(r.path.as_str());
        line.append(") [");
        line.append(r.kind.as_str());
        line.append("]");
        assert(line@ == candidate_line(shown[i as int]));
        let ghost before = crate::text::string_views(parts@);
        parts.push(line);
        assert(crate::text::string_views(parts@) =~= before.push(candidate_line(shown[i as int])));
        assert(crate::text::string_views(parts@) =~= candidate_lines(shown).take(i + 1));
        i = i + 1;
    }
    assert(candidate_lines(shown).take(shown_n as int) =~= candidate_lines(shown));
    proof {
        reveal_strlit("\n");
    }
    let list = crate::text::join_strings(&parts, "\n");
    assert("\n"@ =~= seq!['\n']);
    assert(crate::text::string_views(parts@) =~= candidate_lines(shown));
    assert(list@ == join(candidate_lines(shown), seq!['\n']));
    let remaining: usize = if idx.len() > 5 {
        idx.len() - 5
    } else {
        0
    };
    let mut m = "Multiple symbols named '".to_owned();
    m.append(name);
    m.append("' found. Please specify a file path or kind:\n");
    m.append(list.as_str());
    m.append("\n");
    let rem = decimal_string(remaining as u64);
    assert(rem@ == decimal(if cands.len() > 5 {
        (cands.len() - 5) as nat
    } else {
        0
    }));
    m.append(rem.as_str());
    m.append(" more matches...");
    assert(m@ =~= ambiguous_message(name@, cands));
    m
}

/// Takes the row at position `k` out of `rows`.
fn take_row(rows: Vec<SymbolRow>, k: usize) -> (r: SymbolRow)
    requires
        k < rows@.len(),
    ensures
        r == rows@[k as int],
{
    let mut rows = rows;
    rows.remove(k)
}

/// Selects the row that a symbol lookup returns, from the rows whose name
/// matches `symbol_name` as the index found them (`rows`), the requested
/// file (`file_path`) and its canonical absolute form when it has one
/// (`canonical`), and an optional kind.  An error is always `SymbolNotFound`.
pub fn lookup_symbol(
    rows: Vec<SymbolRow>,
    file_path: Option<&str>,
    canonical: Option<&str>,
    symbol_name: &str,
    kind_filter: Option<&str>,
) -> (r: Result<SymbolRow, CortexError>)
    ensures
        match (
            r,
            lookup_outcome(
                rows@,
                match file_path {
                    Some(f) => Some(f@),
                    None => None,
                },
                match canonical {
                    Some(c) => Some(c@),
                    None => None,
                },
                symbol_name@,
                match kind_filter {
                    Some(k) => Some(k@),
                    None => None,
                },
            ),
        ) {
            (Ok(x), Ok(y)) => x == y,
            (Err(e), Err(m)) => e matches CortexError::SymbolNotFound(s) && s@ == m,
            _ => false,
        },
{
    let ghost fpv = match file_path {
        Some(f) => Some(f@),
        None => None::<Seq<char>>,
    };
    let ghost canon = match canonical {
        Some(c) => Some(c@),
        None => None::<Seq<char>>,
    };
    let ghost kv = match kind_filter {
        Some(k) => Some(k@),
        None => None::<Seq<char>>,
    };
    let ghost outcome = lookup_outcome(rows@, fpv, canon, symbol_name@, kv);
    let all = all_positions(rows.len());
    assert(rows_at(rows@, all@) =~= rows@);
    let c_idx = match kind_filter {
        Some(k) => {
            let flags = text_flags(&rows, k, true);
            let out = select(&rows, &all, &flags, Ghost(has_kind(k@)));
            assert(rows_at(rows@, out@) == of_kind(rows@, kv));
            out
        },
        None => all,
    };
    let ghost c = rows_at(rows@, c_idx@);
    assert(c == of_kind(rows@, kv));
    match file_path {
        Some(fp) => {
            let scores = row_scores(&rows, fp, canonical);
            let barrels = row_barrels(&rows);
            let mut f_idx: Vec<usize> = Vec::new();
            let mut s: u8 = 4;
            while s > 0
                invariant
                    s <= 4,
                    scores@.len() == rows@.len(),
                    barrels@.len() == rows@.len(),
                    forall|k: int| 0 <= k < rows@.len() ==> scores@[k] as int == path_score(rows@[k], fp@, canon),
                    forall|k: int| 0 <= k < rows@.len() ==> barrels@[k] == is_barrel_path(rows@[k].path@),
                    forall|j: int| 0 <= j < c_idx@.len() ==> #[trigger] c_idx@[j] < rows@.len(),
                    forall|j: int| 0 <= j < f_idx@.len() ==> #[trigger] f_idx@[j] < rows@.len(),
                    c == rows_at(rows@, c_idx@),
                    rows_at(rows@, f_idx@) + ranked_from(c, fp@, canon, s as int) == ranked_matches(
                        c,
                        fp@,
                        canon,
                    ),
                decreases s,
            {
                let ghost si = s as int;
                let ft = group_flags(&scores, &barrels, s, true);
                let gt = select(
                    &rows,
                    &c_idx,
                    &ft,
                    Ghost(|r: SymbolRow| path_score(r, fp@, canon) == si && is_barrel_path(r.path@) == true),
                );
                let ff = group_flags(&scores, &barrels, s, false);
                let gf = select(
                    &rows,
                    &c_idx,
                    &ff,
                    Ghost(|r: SymbolRow| path_score(r, fp@, canon) == si && is_barrel_path(r.path@) == false),
                );
                let ghost before = rows_at(rows@, f_idx@);
                proof {
                    lemma_rows_at_add(rows@, f_idx@, gt@);
                    lemma_rows_at_add(rows@, f_idx@ + gt@, gf@);
                }
                append_positions(&mut f_idx, &gt);
                append_positions(&mut f_idx, &gf);
                assert(rows_at(rows@, gt@) == score_group(c, fp@, canon, si, true));
                assert(rows_at(rows@, gf@) == score_group(c, fp@, canon, si, false));
                assert(rows_at(rows@, f_idx@) =~= before + score_group(c, fp@, canon, si, true)
                    + score_group(c, fp@, canon, si, false));
                assert(ranked_from(c, fp@, canon, si) =~= score_group(c, fp@, canon, si, true)
                    + score_group(c, fp@, canon, si, false) + ranked_from(c, fp@, canon, si - 1));
                s = s - 1;
            }
            assert(ranked_from(c, fp@, canon, 0) =~= Seq::<SymbolRow>::empty());
            assert(rows_at(rows@, f_idx@) =~= ranked_matches(c, fp@, canon));
            let ghost f = ranked_matches(c, fp@, canon);
            if f_idx.len() == 0 {
                let mut m = symbol_name.to_owned();
                m.append(" in ");
                m.append(fp);
                return Err(CortexError::SymbolNotFound(m));
            }
            if f_idx.len() == 1 {
                let k = f_idx[0];
                return Ok(take_row(rows, k));
            }
            let outside = negated(&barrels);
            let nb_idx = select(&rows, &f_idx, &outside, Ghost(outside_barrel()));
            assert(rows_at(rows@, nb_idx@) == non_barrel(f));
            let f2_idx = if nb_idx.len() > 0 {
                nb_idx
            } else {
                f_idx
            };
            let ghost f2 = rows_at(rows@, f2_idx@);
            if f2_idx.len() > 1 {
                let flags = text_flags(&rows, symbol_name, false);
                let e_idx = select(&rows, &f2_idx, &flags, Ghost(name_is(symbol_name@)));
                assert(rows_at(rows@, e_idx@) == named(f2, symbol_name@));
                if e_idx.len() > 0 {
                    let k = e_idx[0];
                    return Ok(take_row(rows, k));
                }
                let mut m = "Multiple symbols named '".to_owned();
                m.append(symbol_name);
                m.append("' found in file '");
                m.append(fp);
                m.append("'. Use 'kind' to disambiguate.");
                return Err(CortexError::SymbolNotFound(m));
            }
            let k = f2_idx[0];
            Ok(take_row(rows, k))
        },
        None => {
            let flags = text_flags(&rows, symbol_name, false);
            let e_idx = select(&rows, &c_idx, &flags, Ghost(name_is(symbol_name@)));
            assert(rows_at(rows@, e_idx@) == named(c, symbol_name@));
            if e_idx.len() == 1 {
                let k = e_idx[0];
                return Ok(take_row(rows, k));
            }
            let cand_idx = if e_idx.len() > 0 {
                e_idx
            } else {
                c_idx
            };
            if cand_idx.len() > 1 {
                let m = ambiguous_text(&rows, &cand_idx, symbol_name);
                return Err(CortexError::SymbolNotFound(m));
            }
            if cand_idx.len() == 1 {
                let k = cand_idx[0];
                return Ok(take_row(rows, k));
            }
            Err(CortexError::SymbolNotFound(symbol_name.to_owned()))
        },
    }
}

} // verus!
