//! Rows of the index database and the identifier tokenisation used for search.

use crate::paths::{file_stem, file_stem_of, join_path, path_join};
use crate::text::{chars_to_string, copy_range, join, lowercase, string_views, to_chars, to_lowercase, join_strings};
use vstd::prelude::*;

verus! {

/// A symbol row as read back from the index.
#[derive(Debug, Clone)]
pub struct SymbolRow {
    pub id: i64,
    pub project_root: String,
    pub path: String,
    pub name: String,
    pub kind: String,
    pub start_line: i64,
    pub end_line: i64,
    pub signature: Option<String>,
    pub language: String,
}

impl SymbolRow {
    /// The file of the symbol: its project root joined with its relative path.
    pub fn absolute_path(&self) -> (r: String)
        ensures
            r@ == path_join(self.project_root@, self.path@),
    {
        join_path(self.project_root.as_str(), self.path.as_str())
    }
}

/// An indexed project and its counts.
#[derive(Debug, Clone)]
pub struct ProjectInfo {
    pub project_root: String,
    pub file_count: u32,
    pub symbol_count: u32,
    pub last_indexed: Option<String>,
}

/// An import row as read back from the index.
#[derive(Debug, Clone)]
pub struct ImportRow {
    pub id: i64,
    pub file_id: i64,
    pub imported_symbol: String,
    pub imported_from_path: Option<String>,
    pub import_type: String,
    pub start_line: Option<i64>,
    pub raw_statement: Option<String>,
    pub file_path: String,
    pub project_root: String,
}

/// ASCII lower-case letter.
pub open spec fn is_lower(c: char) -> bool {
    'a' <= c <= 'z'
}

/// ASCII upper-case letter.
pub open spec fn is_upper(c: char) -> bool {
    'A' <= c <= 'Z'
}

/// The tokens found and the start of the pending token after looking at the
/// boundaries before positions `1..k` of `c`.
pub open spec fn ident_state(c: Seq<char>, k: int) -> (Seq<Seq<char>>, int)
    decreases k,
{
    if k <= 1 || k > c.len() {
        (Seq::empty(), 0)
    } else {
        let st = ident_state(c, k - 1);
        let (toks, start) = st;
        let i = k - 1;
        let prev = c[i - 1];
        let curr = c[i];
        if is_lower(prev) && is_upper(curr) {
            // camelCase boundary
            (if start < i {
                toks.push(c.subrange(start, i))
            } else {
                toks
            }, i)
        } else if i + 1 < c.len() && is_upper(prev) && is_upper(curr) && is_lower(c[i + 1]) {
            // a capital after an acronym starts the next word: HTTPServer
            if start < i {
                (toks.push(c.subrange(start, i)), i)
            } else {
                st
            }
        } else if curr == '_' || curr == '.' {
            (if start < i {
                toks.push(c.subrange(start, i))
            } else {
                toks
            }, i + 1)
        } else {
            st
        }
    }
}

/// The words of an identifier: split at lower-to-upper case changes, between
/// an acronym and a capitalised word after it (`HTTPServer` is `HTTP`,
/// `Server`), and at `_` and `.`.
pub open spec fn ident_tokens(c: Seq<char>) -> Seq<Seq<char>> {
    let (toks, start) = ident_state(c, c.len() as int);
    if start < c.len() {
        toks.push(c.skip(start))
    } else {
        toks
    }
}

/// The search tokens of an identifier: its words, lower-cased and separated by spaces.
pub open spec fn identifier_tokens(name: Seq<char>) -> Seq<char> {
    lowercase(join(ident_tokens(name), " "@))
}

/// Splits a camelCase, snake_case or PascalCase identifier into lower-case tokens
/// separated by spaces: `RfqBuyerService` gives `rfq buyer service`.
pub fn split_identifier(name: &str) -> (r: String)
    ensures
        r@ == identifier_tokens(name@),
{
    let c = to_chars(name);
    let n = c.len();
    let mut toks: Vec<String> = Vec::new();
    let mut start: usize = 0;
    let mut i: usize = 1;
    while i < n
        invariant
            c@ == name@,
            n == c@.len(),
            1 <= i,
            i <= n || n == 0,
            start <= i,
            start <= n,
            (string_views(toks@), start as int) == ident_state(c@, i as int),
        decreases n - i,
    {
        let prev = c[i - 1];
        let curr = c[i];
        let ghost before = string_views(toks@);
        if 'a' <= prev && prev <= 'z' && 'A' <= curr && curr <= 'Z' {
            if start < i {
                let piece = copy_range(c.as_slice(), start, i);
                toks.push(chars_to_string(piece.as_slice()));
                assert(string_views(toks@) =~= before.push(c@.subrange(start as int, i as int)));
            }
            start = i;
        } else if i + 1 < n && 'A' <= prev && prev <= 'Z' && 'A' <= curr && curr <= 'Z' && 'a'
            <= c[i + 1] && c[i + 1] <= 'z' {
            if start < i {
                let piece = copy_range(c.as_slice(), start, i);
                toks.push(chars_to_string(piece.as_slice()));
                assert(string_views(toks@) =~= before.push(c@.subrange(start as int, i as int)));
                start = i;
            }
        } else if curr == '_' || curr == '.' {
            if start < i {
                let piece = copy_range(c.as_slice(), start, i);
                toks.push(chars_to_string(piece.as_slice()));
                assert(string_views(toks@) =~= before.push(c@.subrange(start as int, i as int)));
            }
            start = i + 1;
        }
        i = i + 1;
    }
    let ghost st = ident_state(c@, n as int);
    assert(n <= 1 ==> (string_views(toks@), start as int) == st);
    if start < n {
        let piece = copy_range(c.as_slice(), start, n);
        let ghost before = string_views(toks@);
        toks.push(chars_to_string(piece.as_slice()));
        assert(piece@ =~= c@.skip(start as int));
        assert(string_views(toks@) =~= before.push(c@.skip(start as int)));
    }
    let joined = join_strings(&toks, " ");
    to_lowercase(joined.as_str())
}

/// The module name that other files use to import `file_path`: its file stem,
/// or the whole path when it has none.
pub open spec fn module_name_of(file_path: Seq<char>) -> Seq<char> {
    match file_stem(file_path) {
        Some(s) => s,
        None => file_path,
    }
}

/// The module name that other files use to import `file_path`.
pub fn module_name(file_path: &str) -> (r: String)
    ensures
        r@ == module_name_of(file_path@),
{
    match file_stem_of(file_path) {
        Some(s) => s,
        None => file_path.to_owned(),
    }
}

/// A SQL `LIKE` pattern matching any text that contains `s`.
pub fn contains_pattern(s: &str) -> (r: String)
    ensures
        r@ == "%"@ + s@ + "%"@,
{
    let mut r = "%".to_owned();
    r.append(s);
    r.append("%");
    r
}

/// The SQLite connection string for a database path: the path with `sqlite:`
/// in front where it lacks it, opened read-write and created if missing.
pub open spec fn connection_string_of(db_path: Seq<char>) -> Seq<char> {
    if "sqlite:"@.is_prefix_of(db_path) {
        db_path + "?mode=rwc"@
    } else {
        "sqlite:"@ + db_path + "?mode=rwc"@
    }
}

/// The SQLite connection string for a database path.
pub fn connection_string(db_path: &str) -> (r: String)
    ensures
        r@ == connection_string_of(db_path@),
{
    let cs = to_chars(db_path);
    let scheme = ['s', 'q', 'l', 'i', 't', 'e', ':'];
    proof {
        reveal_strlit("sqlite:");
    }
    assert(scheme@ =~= "sqlite:"@);
    if crate::text::starts_with(cs.as_slice(), &scheme) {
        let mut r = db_path.to_owned();
        r.append("?mode=rwc");
        r
    } else {
        let mut r = "sqlite:".to_owned();
        r.append(db_path);
        r.append("?mode=rwc");
        r
    }
}

/// The file of a database path: the path without its leading `sqlite:`
/// schemes (`trim_start_matches("sqlite:")`).
pub fn db_file_path(db_path: &str) -> (r: String)
    ensures
        r@ == crate::text::strip_prefixes(db_path@, "sqlite:"@),
{
    let cs = to_chars(db_path);
    let scheme = ['s', 'q', 'l', 'i', 't', 'e', ':'];
    proof {
        reveal_strlit("sqlite:");
    }
    assert(scheme@ =~= "sqlite:"@);
    let r = crate::text::strip_prefixes_chars(cs.as_slice(), &scheme);
    chars_to_string(r.as_slice())
}

} // verus!
