//! Lines of indexed files that match a pattern.

use crate::report::first_n;
use crate::text::{
    chars_to_string, contains, lines, lines_chars, string_views, to_chars, views,
};
use vstd::prelude::*;
use vstd::string::StringSliceAdditionalSpecFns;
use vstd::utf8::{decode_utf8, encode_utf8, is_char_boundary};

verus! {

broadcast use vstd::utf8::encode_utf8_decode_utf8, vstd::utf8::encode_utf8_valid_utf8;

/// A matching line (or, in multi-line mode, matching text) with its context.
#[derive(Debug, Clone)]
pub struct ContentMatch {
    pub file_path: String,
    pub project_root: String,
    pub line_number: usize,
    pub line_content: String,
    pub context_before: Vec<String>,
    pub context_after: Vec<String>,
}

/// The plain-value content of a [`ContentMatch`].
pub struct MatchView {
    pub file_path: Seq<char>,
    pub project_root: Seq<char>,
    pub line_number: nat,
    pub line_content: Seq<char>,
    pub context_before: Seq<Seq<char>>,
    pub context_after: Seq<Seq<char>>,
}

impl View for ContentMatch {
    type V = MatchView;

    open spec fn view(&self) -> MatchView {
        MatchView {
            file_path: self.file_path@,
            project_root: self.project_root@,
            line_number: self.line_number as nat,
            line_content: self.line_content@,
            context_before: string_views(self.context_before@),
            context_after: string_views(self.context_after@),
        }
    }
}

/// The views of a sequence of matches.
pub open spec fn match_views(s: Seq<ContentMatch>) -> Seq<MatchView> {
    s.map_values(|m: ContentMatch| m@)
}

/// An indexed file to search: its project, its path in the project, and its
/// text when it could be read.
#[derive(Debug, Clone)]
pub struct SearchFile {
    pub project_root: String,
    pub path: String,
    pub content: Option<String>,
}

// ---------------------------------------------------------------------------
// Regular expressions
// ---------------------------------------------------------------------------

#[verifier::external_type_specification]
#[verifier::external_body]
pub struct ExRegex(regex::Regex);

/// Whether `regex::Regex::new` accepts `pattern`.
pub uninterp spec fn regex_parses(pattern: Seq<char>) -> bool;

/// Whether `regex::RegexBuilder` with the given options accepts `pattern`.
pub uninterp spec fn regex_builder_parses(pattern: Seq<char>, multi_line: bool, dot_all: bool) -> bool;

/// `regex::escape` of `text`.
pub uninterp spec fn regex_escaped(text: Seq<char>) -> Seq<char>;

/// Whether the regex `pattern` with the given options matches somewhere in `haystack`.
pub uninterp spec fn regex_is_match(pattern: Seq<char>, multi_line: bool, dot_all: bool, haystack: Seq<char>) -> bool;

/// The successive non-overlapping matches of the regex `pattern` with the
/// given options in `haystack`: their byte ranges and texts.
pub uninterp spec fn regex_find_all(pattern: Seq<char>, multi_line: bool, dot_all: bool, haystack: Seq<char>) -> Seq<
    (nat, nat, Seq<char>),
>;

/// A compiled regular expression together with its source and options.
pub struct CompiledPattern {
    re: regex::Regex,
    source: String,
    multi_line: bool,
    dot_all: bool,
}

impl CompiledPattern {
    /// The source and options of the expression.
    pub closed spec fn spec(&self) -> (Seq<char>, bool, bool) {
        (self.source@, self.multi_line, self.dot_all)
    }
}

/// `regex::Regex::new(pattern)`: the expression with the default options
/// (no multi-line mode, `.` not matching line feeds), or none when the
/// pattern does not parse.
#[verifier::external_body]
fn compile_default(pattern: &str) -> (r: Option<CompiledPattern>)
    ensures
        r is Some <==> regex_parses(pattern@),
        r matches Some(c) ==> c.spec() == (pattern@, false, false),
{
    match regex::Regex::new(pattern) {
        Ok(re) => Some(CompiledPattern { re, source: pattern.to_string(), multi_line: false, dot_all: false }),
        Err(_) => None,
    }
}

/// `regex::RegexBuilder::new(pattern)` in multi-line mode, `.` matching line
/// feeds when `dot_all`, then `build`: the expression, or none when the
/// pattern does not parse.
#[verifier::external_body]
fn compile_multi_line(pattern: &str, dot_all: bool) -> (r: Option<CompiledPattern>)
    ensures
        r is Some <==> regex_builder_parses(pattern@, true, dot_all),
        r matches Some(c) ==> c.spec() == (pattern@, true, dot_all),
{
    match regex::RegexBuilder::new(pattern).multi_line(true).dot_matches_new_line(dot_all).build() {
        Ok(re) => Some(CompiledPattern { re, source: pattern.to_string(), multi_line: true, dot_all }),
        Err(_) => None,
    }
}

/// `regex::escape`: `text` with the regex meta characters escaped.  As its
/// documentation says, the result is a literal: where it compiles with the
/// default options, it matches a haystack exactly when `text` occurs in it.
#[verifier::external_body]
fn escape(text: &str) -> (r: String)
    ensures
        r@ == regex_escaped(text@),
        regex_parses(r@) ==> forall|h: Seq<char>|
            #[trigger] regex_is_match(r@, false, false, h) == contains(h, text@),
{
    regex::escape(text)
}

impl CompiledPattern {
    /// `Regex::is_match`: whether the expression matches somewhere in `haystack`.
    #[verifier::external_body]
    fn is_match(&self, haystack: &str) -> (b: bool)
        ensures
            b == regex_is_match(self.spec().0, self.spec().1, self.spec().2, haystack@),
    {
        self.re.is_match(haystack)
    }

    /// `Regex::find_iter`: the successive non-overlapping matches in
    /// `haystack`, each as its byte range (start not after end, both on
    /// character boundaries of the haystack) and its text.
    #[verifier::external_body]
    fn find_all(&self, haystack: &str) -> (r: Vec<(usize, usize, String)>)
        ensures
            r@.map_values(|m: (usize, usize, String)| (m.0 as nat, m.1 as nat, m.2@)) == regex_find_all(
                self.spec().0,
                self.spec().1,
                self.spec().2,
                haystack@,
            ),
            forall|k: int|
                0 <= k < r@.len() ==> {
                    let m = #[trigger] r@[k];
                    &&& m.0 <= m.1 <= haystack.spec_bytes().len()
                    &&& is_char_boundary(haystack.spec_bytes(), m.0 as int)
                    &&& is_char_boundary(haystack.spec_bytes(), m.1 as int)
                    &&& m.2@ == decode_utf8(haystack.spec_bytes().subrange(m.0 as int, m.1 as int))
                },
    {
        self.re.find_iter(haystack).map(|m| (m.start(), m.end(), m.as_str().to_string())).collect()
    }
}

// ---------------------------------------------------------------------------
// What a search finds
// ---------------------------------------------------------------------------

/// The expression a search uses, as (source, multi-line, dot matches line
/// feeds): the pattern itself; failing that, the escaped pattern, so that an
/// invalid expression is searched as literal text (in multi-line mode without
/// `.` matching line feeds); or none.
pub open spec fn search_pattern(pattern: Seq<char>, multiline: bool) -> Option<(Seq<char>, bool, bool)> {
    let escaped = regex_escaped(pattern);
    if multiline {
        if regex_builder_parses(pattern, true, true) {
            Some((pattern, true, true))
        } else if regex_builder_parses(escaped, true, false) {
            Some((escaped, true, false))
        } else {
            None
        }
    } else {
        if regex_parses(pattern) {
            Some((pattern, false, false))
        } else if regex_parses(escaped) {
            Some((escaped, false, false))
        } else {
            None
        }
    }
}

/// The matches of the lines `ls` of file `f` from line index `i` on, each
/// with up to `ctx` lines of context on either side.
pub open spec fn line_matches_from(
    pat: (Seq<char>, bool, bool),
    f: SearchFile,
    ls: Seq<Seq<char>>,
    ctx: nat,
    i: int,
) -> Seq<MatchView>
    decreases ls.len() - i,
{
    if i < 0 || i >= ls.len() {
        Seq::empty()
    } else {
        (if regex_is_match(pat.0, pat.1, pat.2, ls[i]) {
            seq![
                MatchView {
                    file_path: f.path@,
                    project_root: f.project_root@,
                    line_number: (i + 1) as nat,
                    line_content: ls[i],
                    context_before: ls.subrange(if i >= ctx {
                        i - ctx
                    } else {
                        0
                    }, i),
                    context_after: ls.subrange(
                        i + 1,
                        if i + 1 + ctx <= ls.len() {
                            i + 1 + ctx
                        } else {
                            ls.len() as int
                        },
                    ),
                },
            ]
        } else {
            Seq::empty()
        }) + line_matches_from(pat, f, ls, ctx, i + 1)
    }
}

/// The text before byte `b` of `content`.
pub open spec fn text_before(content: Seq<char>, b: nat) -> Seq<char> {
    decode_utf8(encode_utf8(content).subrange(0, b as int))
}

/// The match view of a multi-line match `m` in file `f`: its first line
/// number, its text, and up to `ctx` lines before its first and after its
/// last line.
pub open spec fn span_match(f: SearchFile, content: Seq<char>, m: (nat, nat, Seq<char>), ctx: nat) -> MatchView {
    let ls = lines(content);
    let start_line = lines(text_before(content, m.0)).len() + 1;
    let end_line = lines(text_before(content, m.1)).len();
    MatchView {
        file_path: f.path@,
        project_root: f.project_root@,
        line_number: start_line as nat,
        line_content: m.2,
        context_before: if start_line > 1 {
            ls.subrange(if start_line >= ctx + 1 {
                start_line - ctx - 1
            } else {
                0
            }, start_line - 1)
        } else {
            Seq::empty()
        },
        context_after: if end_line < ls.len() {
            ls.subrange(end_line as int, if end_line + ctx <= ls.len() {
                (end_line + ctx) as int
            } else {
                ls.len() as int
            })
        } else {
            Seq::empty()
        },
    }
}

/// The matches in one file.
pub open spec fn file_content_matches(pat: (Seq<char>, bool, bool), f: SearchFile, ctx: nat) -> Seq<MatchView> {
    match f.content {
        None => Seq::empty(),
        Some(c) => if pat.1 {
            regex_find_all(pat.0, pat.1, pat.2, c@).map_values(
                |m: (nat, nat, Seq<char>)| span_match(f, c@, m, ctx),
            )
        } else {
            line_matches_from(pat, f, lines(c@), ctx, 0)
        },
    }
}

/// The matches in the files from position `i` on, file by file.
pub open spec fn matches_from(files: Seq<SearchFile>, pat: (Seq<char>, bool, bool), ctx: nat, i: int) -> Seq<
    MatchView,
>
    decreases files.len() - i,
{
    if i < 0 || i >= files.len() {
        Seq::empty()
    } else {
        file_content_matches(pat, files[i], ctx) + matches_from(files, pat, ctx, i + 1)
    }
}

/// What a content search returns: the first `limit` matches (one, for a
/// limit of 0) in the readable files, in order, or nothing when no form of
/// the pattern compiles.
pub open spec fn content_search(
    files: Seq<SearchFile>,
    pattern: Seq<char>,
    limit: nat,
    ctx: nat,
    multiline: bool,
) -> Seq<MatchView> {
    match search_pattern(pattern, multiline) {
        None => Seq::empty(),
        Some(pat) => first_n(matches_from(files, pat, ctx, 0), if limit == 0 {
            1
        } else {
            limit
        }),
    }
}

/// A match lies in one of the files searched: it carries that file's path
/// and project.
pub open spec fn from_files(m: MatchView, files: Seq<SearchFile>) -> bool {
    exists|j: int|
        0 <= j < files.len() && (#[trigger] files[j]).path@ == m.file_path && files[j].project_root@
            == m.project_root
}

proof fn lemma_line_matches_file(
    pat: (Seq<char>, bool, bool),
    f: SearchFile,
    ls: Seq<Seq<char>>,
    ctx: nat,
    i: int,
)
    ensures
        forall|k: int|
            0 <= k < line_matches_from(pat, f, ls, ctx, i).len() ==> (#[trigger] line_matches_from(
                pat,
                f,
                ls,
                ctx,
                i,
            )[k]).file_path == f.path@ && line_matches_from(pat, f, ls, ctx, i)[k].project_root
                == f.project_root@,
    decreases ls.len() - i,
{
    if 0 <= i < ls.len() {
        lemma_line_matches_file(pat, f, ls, ctx, i + 1);
        let here = line_matches_from(pat, f, ls, ctx, i);
        let rest = line_matches_from(pat, f, ls, ctx, i + 1);
        assert forall|k: int| 0 <= k < here.len() implies (#[trigger] here[k]).file_path == f.path@
            && here[k].project_root == f.project_root@ by {
            if regex_is_match(pat.0, pat.1, pat.2, ls[i]) {
                if k > 0 {
                    assert(here[k] == rest[k - 1]);
                }
            } else {
                assert(here[k] == rest[k]);
            }
        }
    }
}

proof fn lemma_matches_from_files(files: Seq<SearchFile>, pat: (Seq<char>, bool, bool), ctx: nat, i: int)
    requires
        0 <= i,
    ensures
        forall|k: int|
            0 <= k < matches_from(files, pat, ctx, i).len() ==> from_files(
                #[trigger] matches_from(files, pat, ctx, i)[k],
                files,
            ),
    decreases files.len() - i,
{
    if i < files.len() {
        lemma_matches_from_files(files, pat, ctx, i + 1);
        let f = files[i];
        let a = file_content_matches(pat, f, ctx);
        let b = matches_from(files, pat, ctx, i + 1);
        assert(matches_from(files, pat, ctx, i) == a + b);
        match f.content {
            Some(c) => {
                if !pat.1 {
                    lemma_line_matches_file(pat, f, lines(c@), ctx, 0);
                }
            },
            None => {},
        }
        assert forall|k: int| 0 <= k < (a + b).len() implies from_files(#[trigger] (a + b)[k], files) by {
            if k < a.len() {
                assert((a + b)[k] == a[k]);
                assert(files[i].path@ == a[k].file_path);
            } else {
                assert((a + b)[k] == b[k - a.len()]);
            }
        }
    }
}

/// Law: every match of a content search lies in one of the files searched,
/// with that file's path and project; so where all files belong to the
/// project `root`, so do all matches.
pub proof fn lemma_content_matches_in_files(
    files: Seq<SearchFile>,
    pattern: Seq<char>,
    limit: nat,
    ctx: nat,
    multiline: bool,
    root: Seq<char>,
)
    ensures
        forall|k: int|
            0 <= k < content_search(files, pattern, limit, ctx, multiline).len() ==> from_files(
                #[trigger] content_search(files, pattern, limit, ctx, multiline)[k],
                files,
            ),
        (forall|j: int| 0 <= j < files.len() ==> (#[trigger] files[j]).project_root@ == root)
            ==> forall|k: int|
            0 <= k < content_search(files, pattern, limit, ctx, multiline).len()
                ==> (#[trigger] content_search(files, pattern, limit, ctx, multiline)[k]).project_root
                == root,
{
    let r = content_search(files, pattern, limit, ctx, multiline);
    match search_pattern(pattern, multiline) {
        None => {},
        Some(pat) => {
            lemma_matches_from_files(files, pat, ctx, 0);
            let all = matches_from(files, pat, ctx, 0);
            assert forall|k: int| 0 <= k < r.len() implies from_files(#[trigger] r[k], files) by {
                assert(r[k] == all[k]);
            }
        },
    }
    if forall|j: int| 0 <= j < files.len() ==> (#[trigger] files[j]).project_root@ == root {
        assert forall|k: int| 0 <= k < r.len() implies (#[trigger] r[k]).project_root == root by {
            assert(from_files(r[k], files));
        }
    }
}

/// Law: a content search never answers more matches than its limit (one
/// match at least is allowed for a limit of zero).
pub proof fn lemma_content_search_limit(
    files: Seq<SearchFile>,
    pattern: Seq<char>,
    limit: nat,
    ctx: nat,
    multiline: bool,
)
    ensures
        content_search(files, pattern, limit, ctx, multiline).len() <= if limit == 0 {
            1
        } else {
            limit
        },
{
}

/// The texts are short enough that line numbers plus the context width fit in a `usize`.
pub open spec fn contexts_fit(files: Seq<SearchFile>, ctx: nat) -> bool {
    forall|k: int|
        0 <= k < files.len() ==> (#[trigger] files[k].content matches Some(c) ==> c@.len() + ctx
            < usize::MAX)
}

/// Whether the texts are short enough for `context_lines` lines of context
/// (`contexts_fit`).
pub fn contexts_in_range(files: &Vec<SearchFile>, context_lines: usize) -> (b: bool)
    ensures
        b == contexts_fit(files@, context_lines as nat),
{
    let mut k: usize = 0;
    while k < files.len()
        invariant
            k <= files@.len(),
            forall|q: int|
                0 <= q < k ==> (#[trigger] files@[q].content matches Some(c) ==> c@.len()
                    + context_lines < usize::MAX),
        decreases files@.len() - k,
    {
        match &files[k].content {
            Some(c) => {
                let n = crate::text::string_chars(c).len();
                if n >= usize::MAX - context_lines {
                    return false;
                }
            },
            None => {},
        }
        k = k + 1;
    }
    true
}

// ---------------------------------------------------------------------------
// Search
// ---------------------------------------------------------------------------

/// The first `a.len()` entries of `a + b` are `a`.
pub proof fn lemma_first_n_of_prefix<T>(a: Seq<T>, b: Seq<T>)
    ensures
        first_n(a + b, a.len()) == a,
{
    assert((a + b).take(a.len() as int) =~= a);
    if b.len() == 0 {
        assert(a + b =~= a);
    }
}

/// Appending to a sequence that reaches `n` does not change its first `n` entries.
pub proof fn lemma_first_n_append<T>(a: Seq<T>, b: Seq<T>, n: nat)
    requires
        a.len() >= n,
    ensures
        first_n(a + b, n) == first_n(a, n),
{
    assert((a + b).take(n as int) =~= a.take(n as int));
    if a.len() == n {
        assert(a.take(n as int) =~= a);
        if b.len() == 0 {
            assert(a + b =~= a);
        }
    }
}

/// Compiles the expression that a search uses.
fn compile_search(pattern: &str, multiline: bool) -> (r: Option<CompiledPattern>)
    ensures
        match (r, search_pattern(pattern@, multiline)) {
            (Some(c), Some(p)) => c.spec() == p,
            (None, None) => true,
            _ => false,
        },
        !multiline && !regex_parses(pattern@) && regex_parses(regex_escaped(pattern@)) ==> forall|
            h: Seq<char>,
        | #[trigger] regex_is_match(regex_escaped(pattern@), false, false, h) == contains(h, pattern@),
{
    if multiline {
        match compile_multi_line(pattern, true) {
            Some(c) => Some(c),
            None => {
                let escaped = escape(pattern);
                compile_multi_line(escaped.as_str(), false)
            },
        }
    } else {
        match compile_default(pattern) {
            Some(c) => Some(c),
            None => {
                let escaped = escape(pattern);
                compile_default(escaped.as_str())
            },
        }
    }
}

/// Copies `ls[lo..hi]` as strings.
fn line_range(ls: &Vec<Vec<char>>, lo: usize, hi: usize) -> (r: Vec<String>)
    requires
        lo <= hi <= ls@.len(),
    ensures
        string_views(r@) == views(ls@).subrange(lo as int, hi as int),
{
    let mut r: Vec<String> = Vec::new();
    let mut k = lo;
    while k < hi
        invariant
            lo <= k <= hi <= ls@.len(),
            string_views(r@) == views(ls@).subrange(lo as int, k as int),
        decreases hi - k,
    {
        let ghost before = string_views(r@);
        r.push(chars_to_string(ls[k].as_slice()));
        assert(string_views(r@) =~= before.push(views(ls@)[k as int]));
        assert(views(ls@).subrange(lo as int, k + 1) =~= views(ls@).subrange(lo as int, k as int).push(
            views(ls@)[k as int],
        ));
        k = k + 1;
    }
    r
}

proof fn lemma_lines_len(s: Seq<char>)
    ensures
        lines(s).len() <= s.len(),
    decreases s.len(),
{
    if s.len() > 0 {
        crate::text::lemma_find_bounds(s, seq!['\n']);
        match crate::text::find(s, seq!['\n']) {
            None => {},
            Some(i) => {
                lemma_lines_len(s.skip(i + 1));
            },
        }
    }
}

/// Appends the single-line matches of file `f` (text `content`).
fn search_lines(
    re: &CompiledPattern,
    f: &SearchFile,
    content: &String,
    ctx: usize,
    cap: usize,
    out: &mut Vec<ContentMatch>,
) -> (stopped: bool)
    requires
        content@.len() + ctx < usize::MAX,
        old(out)@.len() < cap,
        f.content == Some(*content),
    ensures
        match_views(final(out)@) == first_n(
            match_views(old(out)@) + line_matches_from(re.spec(), *f, lines(content@), ctx as nat, 0),
            cap as nat,
        ),
        stopped <==> final(out)@.len() >= cap,
        !stopped ==> match_views(final(out)@) == match_views(old(out)@) + line_matches_from(
            re.spec(),
            *f,
            lines(content@),
            ctx as nat,
            0,
        ),
{
    let cs = to_chars(content.as_str());
    let ls = lines_chars(cs.as_slice());
    let ghost lv = views(ls@);
    proof {
        lemma_lines_len(content@);
    }
    let ghost base = match_views(out@);
    let ghost whole = line_matches_from(re.spec(), *f, lv, ctx as nat, 0);
    let n = ls.len();
    let mut i: usize = 0;
    while i < n
        invariant
            lv == views(ls@),
            lv == lines(content@),
            n == ls@.len(),
            n + ctx < usize::MAX,
            i <= n,
            out@.len() < cap,
            base == match_views(old(out)@),
            whole == line_matches_from(re.spec(), *f, lv, ctx as nat, 0),
            base + whole == match_views(out@) + line_matches_from(re.spec(), *f, lv, ctx as nat, i as int),
        decreases n - i,
    {
        let line = chars_to_string(ls[i].as_slice());
        let ghost rest = line_matches_from(re.spec(), *f, lv, ctx as nat, i + 1);
        if re.is_match(line.as_str()) {
            let lo = if i >= ctx {
                i - ctx
            } else {
                0
            };
            let hi = if i + 1 + ctx <= n {
                i + 1 + ctx
            } else {
                n
            };
            let before = line_range(&ls, lo, i);
            let after = line_range(&ls, i + 1, hi);
            let ghost prev = match_views(out@);
            out.push(
                ContentMatch {
                    file_path: f.path.clone(),
                    project_root: f.project_root.clone(),
                    line_number: i + 1,
                    line_content: line,
                    context_before: before,
                    context_after: after,
                },
            );
            let ghost mv = match_views(out@).last();
            assert(match_views(out@) =~= prev.push(mv));
            assert(line_matches_from(re.spec(), *f, lv, ctx as nat, i as int) =~= seq![mv] + rest);
            assert(match_views(out@) + rest =~= prev + (seq![mv] + rest));
            if out.len() >= cap {
                proof {
                    assert(match_views(out@).len() == cap);
                    assert(base + whole =~= match_views(out@) + rest);
                    lemma_first_n_of_prefix(match_views(out@), rest);
                }
                return true;
            }
        } else {
            assert(line_matches_from(re.spec(), *f, lv, ctx as nat, i as int) =~= rest);
        }
        i = i + 1;
    }
    assert(line_matches_from(re.spec(), *f, lv, ctx as nat, i as int) =~= Seq::<MatchView>::empty());
    assert(base + whole =~= match_views(out@));
    false
}

/// The number of lines before byte `b` of `content`, with the text before it
/// being a prefix of `content`.
fn lines_before(content: &String, b: usize) -> (n: usize)
    requires
        b <= encode_utf8(content@).len(),
        is_char_boundary(encode_utf8(content@), b as int),
    ensures
        n == lines(text_before(content@, b as nat)).len(),
        n <= lines(content@).len(),
{
    let s = content.as_str();
    let (pre, post) = s.split_at(b);
    proof {
        let bytes = encode_utf8(content@);
        vstd::utf8::decode_utf8_split(bytes, b as int);
        assert(decode_utf8(bytes.subrange(0, b as int)) == pre@) by {
            assert(encode_utf8(pre@) =~= bytes.subrange(0, b as int));
        }
        assert(decode_utf8(bytes.subrange(b as int, bytes.len() as int)) == post@) by {
            assert(encode_utf8(post@) =~= bytes.subrange(b as int, bytes.len() as int));
        }
        assert(content@ == pre@ + post@);
        crate::text::lemma_lines_prefix_len(pre@, post@);
    }
    let pc = to_chars(pre);
    let ls = lines_chars(pc.as_slice());
    ls.len()
}

/// Appends the multi-line matches of file `f` (text `content`).
fn search_spans(
    re: &CompiledPattern,
    f: &SearchFile,
    content: &String,
    ctx: usize,
    cap: usize,
    out: &mut Vec<ContentMatch>,
) -> (stopped: bool)
    requires
        content@.len() + ctx < usize::MAX,
        old(out)@.len() < cap,
        f.content == Some(*content),
    ensures
        match_views(final(out)@) == first_n(
            match_views(old(out)@) + regex_find_all(re.spec().0, re.spec().1, re.spec().2, content@).map_values(
                |m: (nat, nat, Seq<char>)| span_match(*f, content@, m, ctx as nat),
            ),
            cap as nat,
        ),
        stopped <==> final(out)@.len() >= cap,
        !stopped ==> match_views(final(out)@) == match_views(old(out)@) + regex_find_all(
            re.spec().0,
            re.spec().1,
            re.spec().2,
            content@,
        ).map_values(|m: (nat, nat, Seq<char>)| span_match(*f, content@, m, ctx as nat)),
{
    let found = re.find_all(content.as_str());
    let ghost spans = regex_find_all(re.spec().0, re.spec().1, re.spec().2, content@).map_values(
        |m: (nat, nat, Seq<char>)| span_match(*f, content@, m, ctx as nat),
    );
    let ghost fv = found@.map_values(|m: (usize, usize, String)| (m.0 as nat, m.1 as nat, m.2@));
    let cs = to_chars(content.as_str());
    let ls = lines_chars(cs.as_slice());
    let ghost lv = views(ls@);
    proof {
        lemma_lines_len(content@);
    }
    let ghost base = match_views(out@);
    let n = ls.len();
    let mut k: usize = 0;
    while k < found.len()
        invariant
            lv == views(ls@),
            lv == lines(content@),
            n == ls@.len(),
            n + ctx < usize::MAX,
            spans.len() == found@.len(),
            spans == fv.map_values(|m: (nat, nat, Seq<char>)| span_match(*f, content@, m, ctx as nat)),
            fv == found@.map_values(|m: (usize, usize, String)| (m.0 as nat, m.1 as nat, m.2@)),
            forall|j: int|
                0 <= j < found@.len() ==> {
                    let m = #[trigger] found@[j];
                    &&& m.0 <= m.1 <= encode_utf8(content@).len()
                    &&& is_char_boundary(encode_utf8(content@), m.0 as int)
                    &&& is_char_boundary(encode_utf8(content@), m.1 as int)
                    &&& m.2@ == decode_utf8(encode_utf8(content@).subrange(m.0 as int, m.1 as int))
                },
            k <= found@.len(),
            out@.len() < cap,
            base == match_views(old(out)@),
            spans == regex_find_all(re.spec().0, re.spec().1, re.spec().2, content@).map_values(
                |m: (nat, nat, Seq<char>)| span_match(*f, content@, m, ctx as nat),
            ),
            match_views(out@) == base + spans.take(k as int),
        decreases found.len() - k,
    {
        let (s, e) = (found[k].0, found[k].1);
        let sl = lines_before(content, s) + 1;
        let el = lines_before(content, e);
        let before: Vec<String> = if sl > 1 {
            let lo = if sl >= ctx + 1 {
                sl - ctx - 1
            } else {
                0
            };
            line_range(&ls, lo, sl - 1)
        } else {
            Vec::new()
        };
        let after: Vec<String> = if el < n {
            let hi = if el + ctx <= n {
                el + ctx
            } else {
                n
            };
            line_range(&ls, el, hi)
        } else {
            Vec::new()
        };
        let ghost prev = match_views(out@);
        out.push(
            ContentMatch {
                file_path: f.path.clone(),
                project_root: f.project_root.clone(),
                line_number: sl,
                line_content: found[k].2.clone(),
                context_before: before,
                context_after: after,
            },
        );
        assert(fv[k as int] == (s as nat, e as nat, found@[k as int].2@));
        assert(spans[k as int] == span_match(*f, content@, fv[k as int], ctx as nat));
        assert(match_views(out@).last() =~= spans[k as int]) by {
            if sl <= 1 {
                assert(string_views(before@) =~= Seq::<Seq<char>>::empty());
            }
            if el >= n {
                assert(string_views(after@) =~= Seq::<Seq<char>>::empty());
            }
        }
        assert(match_views(out@) =~= prev.push(spans[k as int]));
        assert(spans.take(k + 1) =~= spans.take(k as int).push(spans[k as int]));
        if out.len() >= cap {
            proof {
                assert(match_views(out@).len() == cap);
                assert(base + spans =~= match_views(out@) + spans.skip(k + 1));
                lemma_first_n_of_prefix(match_views(out@), spans.skip(k + 1));
            }
            return true;
        }
        k = k + 1;
    }
    assert(spans.take(k as int) =~= spans);
    false
}

/// The matches of `pattern` in the files, in order: at most `limit` of them
/// (one, for a limit of 0).  A line-by-line search lists each matching line
/// with up to `context_lines` lines around it; a multi-line search lists
/// each match with its first line number and the lines around it.  A
/// pattern that does not compile is searched for as literal text (its
/// escaped form); when that does not compile either, nothing is found.
/// Files whose text could not be read are passed over.
pub fn search_content(
    files: &Vec<SearchFile>,
    pattern: &str,
    limit: usize,
    context_lines: usize,
    multiline: bool,
) -> (r: Vec<ContentMatch>)
    requires
        contexts_fit(files@, context_lines as nat),
    ensures
        match_views(r@) == content_search(files@, pattern@, limit as nat, context_lines as nat, multiline),
        !multiline && !regex_parses(pattern@) && regex_parses(regex_escaped(pattern@)) ==> forall|
            h: Seq<char>,
        | #[trigger] regex_is_match(regex_escaped(pattern@), false, false, h) == contains(h, pattern@),
{
    let re = match compile_search(pattern, multiline) {
        Some(re) => re,
        None => {
            return Vec::new();
        },
    };
    let ghost pat = re.spec();
    let cap: usize = if limit == 0 {
        1
    } else {
        limit
    };
    let ghost all = matches_from(files@, pat, context_lines as nat, 0);
    let mut out: Vec<ContentMatch> = Vec::new();
    let mut i: usize = 0;
    while i < files.len()
        invariant
            contexts_fit(files@, context_lines as nat),
            pat == re.spec(),
            pat.1 == multiline,
            search_pattern(pattern@, multiline) == Some(pat),
            !multiline && !regex_parses(pattern@) && regex_parses(regex_escaped(pattern@)) ==> forall|
                h: Seq<char>,
            | #[trigger] regex_is_match(regex_escaped(pattern@), false, false, h) == contains(h, pattern@),
            cap as nat == (if limit == 0 {
                1
            } else {
                limit as nat
            }),
            all == matches_from(files@, pat, context_lines as nat, 0),
            i <= files@.len(),
            out@.len() < cap,
            all == match_views(out@) + matches_from(files@, pat, context_lines as nat, i as int),
        decreases files.len() - i,
    {
        let f = &files[i];
        let ghost prev = match_views(out@);
        let ghost rest = matches_from(files@, pat, context_lines as nat, i + 1);
        match &f.content {
            None => {},
            Some(c) => {
                assert(files@[i as int].content matches Some(cc) && cc@.len() + context_lines < usize::MAX);
                let stopped = if multiline {
                    search_spans(&re, f, c, context_lines, cap, &mut out)
                } else {
                    search_lines(&re, f, c, context_lines, cap, &mut out)
                };
                if stopped {
                    proof {
                        let here = file_content_matches(pat, files@[i as int], context_lines as nat);
                        assert(all =~= (prev + here) + rest);
                        assert(match_views(out@) == first_n(prev + here, cap as nat));
                        assert((prev + here).len() >= cap);
                        lemma_first_n_append(prev + here, rest, cap as nat);
                    }
                    return out;
                }
            },
        }
        assert(all =~= match_views(out@) + matches_from(files@, pat, context_lines as nat, i + 1));
        i = i + 1;
    }
    assert(matches_from(files@, pat, context_lines as nat, i as int) =~= Seq::<MatchView>::empty());
    assert(match_views(out@) =~= all);
    out
}

} // verus!
