//! Finding and classifying the references to a symbol among matching lines.

use crate::paths::extension;
use crate::query::content::ContentMatch;
use crate::text::{
    contains, contains_chars, count_matches, count_matches_chars, ends_with, find, find_first,
    lowercase, occurs_at, starts_with, str_eq, to_chars, to_lowercase, trim, trim_chars, trim_end,
    trim_end_chars, trim_start, trim_start_chars,
};
use vstd::prelude::*;

verus! {

/// How a line refers to a symbol.
#[derive(Debug, Clone, Copy, PartialEq, Eq, Structural)]
pub enum ReferenceType {
    Import,
    Call,
    TypeUsage,
    Definition,
    Other,
}

impl ReferenceType {
    /// The name of the reference type in results.
    pub open spec fn name(self) -> Seq<char> {
        match self {
            ReferenceType::Import => "import"@,
            ReferenceType::Call => "call"@,
            ReferenceType::TypeUsage => "type_usage"@,
            ReferenceType::Definition => "definition"@,
            ReferenceType::Other => "other"@,
        }
    }

    /// The name of the reference type in results.
    pub fn as_str(&self) -> (r: &'static str)
        ensures
            r@ == self.name(),
    {
        match self {
            ReferenceType::Import => "import",
            ReferenceType::Call => "call",
            ReferenceType::TypeUsage => "type_usage",
            ReferenceType::Definition => "definition",
            ReferenceType::Other => "other",
        }
    }
}

/// A reference to a symbol: the line where it occurs and how.
#[derive(Debug, Clone)]
pub struct ReferenceMatch {
    pub file_path: String,
    pub project_root: String,
    pub line_number: usize,
    pub line_content: String,
    pub reference_type: ReferenceType,
}

/// The plain-value content of a [`ReferenceMatch`].
pub struct ReferenceView {
    pub file_path: Seq<char>,
    pub project_root: Seq<char>,
    pub line_number: nat,
    pub line_content: Seq<char>,
    pub reference_type: ReferenceType,
}

impl View for ReferenceMatch {
    type V = ReferenceView;

    open spec fn view(&self) -> ReferenceView {
        ReferenceView {
            file_path: self.file_path@,
            project_root: self.project_root@,
            line_number: self.line_number as nat,
            line_content: self.line_content@,
            reference_type: self.reference_type,
        }
    }
}

// ---------------------------------------------------------------------------
// Classification
// ---------------------------------------------------------------------------

/// The keywords that, followed by the symbol's name, make a definition line.
pub open spec fn definition_keywords() -> Seq<Seq<char>> {
    seq![
        "class "@,
        "interface "@,
        "type "@,
        "enum "@,
        "fn "@,
        "function "@,
        "const "@,
        "let "@,
        "var "@,
        "async fn "@,
        "async function "@,
        "export class "@,
        "export interface "@,
        "export type "@,
        "export enum "@,
        "export fn "@,
        "export function "@,
        "pub fn "@,
        "pub struct "@,
        "pub trait "@,
        "pub enum "@,
        "struct "@,
        "trait "@,
        "impl "@,
        "def "@,
    ]
}

/// The texts whose presence in the lower-cased line makes an import line.
pub open spec fn import_keywords() -> Seq<Seq<char>> {
    seq!["import "@, "from "@, "require("@, "use "@, "use\t"@, "include "@]
}

/// Some keyword of `kws` followed by `suffix` occurs in `s`.
pub open spec fn any_occurs(s: Seq<char>, kws: Seq<Seq<char>>, suffix: Seq<char>) -> bool
    decreases kws.len(),
{
    if kws.len() == 0 {
        false
    } else {
        contains(s, kws[0] + suffix) || any_occurs(s, kws.drop_first(), suffix)
    }
}

/// How `line` refers to `name`: a definition (in the defining file, when the
/// trimmed line holds a definition keyword followed by the name), an import
/// (when the lower-cased line holds an import keyword), a call (the name's
/// first occurrence followed, after whitespace, by `(` or `<`), a type usage
/// (that occurrence preceded, before whitespace, by `:`, `implements`,
/// `extends`, `as` or `->`), or another reference.
pub open spec fn reference_kind(line: Seq<char>, name: Seq<char>, is_definition_file: bool) -> ReferenceType {
    if is_definition_file && any_occurs(trim(line), definition_keywords(), name) {
        ReferenceType::Definition
    } else if any_occurs(lowercase(line), import_keywords(), Seq::empty()) {
        ReferenceType::Import
    } else {
        match find(line, name) {
            None => ReferenceType::Other,
            Some(pos) => {
                let after = trim_start(line.skip(pos + name.len()));
                let before = trim_end(line.take(pos));
                if seq!['('].is_prefix_of(after) || seq!['<'].is_prefix_of(after) {
                    ReferenceType::Call
                } else if seq![':'].is_suffix_of(before) || "implements"@.is_suffix_of(before)
                    || "extends"@.is_suffix_of(before) || "as"@.is_suffix_of(before)
                    || "->"@.is_suffix_of(before) {
                    ReferenceType::TypeUsage
                } else {
                    ReferenceType::Other
                }
            },
        }
    }
}

/// Where no keyword of `kws` followed by `suffix` is contained in `s`, none
/// occurs.
proof fn lemma_none_occurs(s: Seq<char>, kws: Seq<Seq<char>>, suffix: Seq<char>)
    requires
        forall|i: int| 0 <= i < kws.len() ==> !contains(s, #[trigger] kws[i] + suffix),
    ensures
        !any_occurs(s, kws, suffix),
    decreases kws.len(),
{
    if kws.len() > 0 {
        assert forall|i: int| 0 <= i < kws.drop_first().len() implies !contains(
            s,
            #[trigger] kws.drop_first()[i] + suffix,
        ) by {
            assert(kws.drop_first()[i] == kws[i + 1]);
        }
        lemma_none_occurs(s, kws.drop_first(), suffix);
    }
}

/// A keyword of `kws` at index `i` followed by `suffix` and contained in `s`
/// makes one occur.
proof fn lemma_some_occurs(s: Seq<char>, kws: Seq<Seq<char>>, suffix: Seq<char>, i: int)
    requires
        0 <= i < kws.len(),
        contains(s, kws[i] + suffix),
    ensures
        any_occurs(s, kws, suffix),
    decreases kws.len(),
{
    if i > 0 {
        assert(kws.drop_first()[i - 1] == kws[i]);
        lemma_some_occurs(s, kws.drop_first(), suffix, i - 1);
    }
}

/// `pos` is where `name` first occurs in `line`.
pub open spec fn first_occurrence(line: Seq<char>, name: Seq<char>, pos: int) -> bool {
    &&& occurs_at(line, name, pos)
    &&& forall|j: int| 0 <= j < pos ==> !occurs_at(line, name, j)
}

/// A line holds no definition of `name` (a definition keyword followed by the
/// name in the trimmed line) where it counts, and no import keyword in its
/// lower-cased form.
pub open spec fn neither_definition_nor_import(line: Seq<char>, name: Seq<char>, is_definition_file: bool) -> bool {
    &&& is_definition_file ==> forall|i: int|
        0 <= i < definition_keywords().len() ==> !contains(trim(line), #[trigger] definition_keywords()[i] + name)
    &&& forall|i: int|
        0 <= i < import_keywords().len() ==> !contains(lowercase(line), #[trigger] import_keywords()[i])
}

/// The first occurrence of the name is what decides a line that is neither a
/// definition nor an import.
proof fn lemma_decided_by_first(line: Seq<char>, name: Seq<char>, is_definition_file: bool, pos: int)
    requires
        neither_definition_nor_import(line, name, is_definition_file),
        first_occurrence(line, name, pos),
    ensures
        !(is_definition_file && any_occurs(trim(line), definition_keywords(), name)),
        !any_occurs(lowercase(line), import_keywords(), Seq::empty()),
        find(line, name) == Some(pos),
{
    if is_definition_file {
        lemma_none_occurs(trim(line), definition_keywords(), name);
    }
    assert forall|i: int| 0 <= i < import_keywords().len() implies !contains(
        lowercase(line),
        #[trigger] import_keywords()[i] + Seq::empty(),
    ) by {
        assert(import_keywords()[i] + Seq::<char>::empty() =~= import_keywords()[i]);
    }
    lemma_none_occurs(lowercase(line), import_keywords(), Seq::empty());
    crate::text::lemma_find_bounds(line, name);
}

/// A line that is neither a definition nor an import, where the text before
/// the first occurrence of the name, without trailing whitespace, ends with
/// `:`, `implements`, `extends`, `as` or `->`, and the name is not followed
/// (after whitespace) by `(` or `<`, uses the name as a type.
pub proof fn lemma_type_usage(line: Seq<char>, name: Seq<char>, is_definition_file: bool, pos: int)
    requires
        neither_definition_nor_import(line, name, is_definition_file),
        first_occurrence(line, name, pos),
        !seq!['('].is_prefix_of(trim_start(line.skip(pos + name.len()))),
        !seq!['<'].is_prefix_of(trim_start(line.skip(pos + name.len()))),
        seq![':'].is_suffix_of(trim_end(line.take(pos))) || "implements"@.is_suffix_of(
            trim_end(line.take(pos)),
        ) || "extends"@.is_suffix_of(trim_end(line.take(pos))) || "as"@.is_suffix_of(
            trim_end(line.take(pos)),
        ) || "->"@.is_suffix_of(trim_end(line.take(pos))),
    ensures
        reference_kind(line, name, is_definition_file) == ReferenceType::TypeUsage,
{
    lemma_decided_by_first(line, name, is_definition_file, pos);
}

/// A line that is neither a definition nor an import, where the first
/// occurrence of the name is followed (after whitespace) by `(` or `<`, calls
/// the name.
pub proof fn lemma_call(line: Seq<char>, name: Seq<char>, is_definition_file: bool, pos: int)
    requires
        neither_definition_nor_import(line, name, is_definition_file),
        first_occurrence(line, name, pos),
        seq!['('].is_prefix_of(trim_start(line.skip(pos + name.len()))) || seq!['<'].is_prefix_of(
            trim_start(line.skip(pos + name.len())),
        ),
    ensures
        reference_kind(line, name, is_definition_file) == ReferenceType::Call,
{
    lemma_decided_by_first(line, name, is_definition_file, pos);
}

/// A line that is neither a definition nor an import is another reference
/// where the name does not occur in it, or where its first occurrence is
/// neither followed by `(` or `<` nor preceded by `:`, `implements`,
/// `extends`, `as` or `->` (whitespace aside).
pub proof fn lemma_other(line: Seq<char>, name: Seq<char>, is_definition_file: bool, pos: int)
    requires
        neither_definition_nor_import(line, name, is_definition_file),
        (forall|j: int| 0 <= j ==> !occurs_at(line, name, j)) || (first_occurrence(line, name, pos)
            && !seq!['('].is_prefix_of(trim_start(line.skip(pos + name.len())))
            && !seq!['<'].is_prefix_of(trim_start(line.skip(pos + name.len())))
            && !seq![':'].is_suffix_of(trim_end(line.take(pos)))
            && !"implements"@.is_suffix_of(trim_end(line.take(pos)))
            && !"extends"@.is_suffix_of(trim_end(line.take(pos)))
            && !"as"@.is_suffix_of(trim_end(line.take(pos)))
            && !"->"@.is_suffix_of(trim_end(line.take(pos)))),
    ensures
        reference_kind(line, name, is_definition_file) == ReferenceType::Other,
{
    if is_definition_file {
        lemma_none_occurs(trim(line), definition_keywords(), name);
    }
    assert forall|i: int| 0 <= i < import_keywords().len() implies !contains(
        lowercase(line),
        #[trigger] import_keywords()[i] + Seq::empty(),
    ) by {
        assert(import_keywords()[i] + Seq::<char>::empty() =~= import_keywords()[i]);
    }
    lemma_none_occurs(lowercase(line), import_keywords(), Seq::empty());
    crate::text::lemma_find_bounds(line, name);
}

/// In the defining file, a trimmed line that holds a definition keyword
/// followed by the name defines it, whatever else the line holds.
pub proof fn lemma_definition(line: Seq<char>, name: Seq<char>, i: int)
    requires
        0 <= i < definition_keywords().len(),
        contains(trim(line), definition_keywords()[i] + name),
    ensures
        reference_kind(line, name, true) == ReferenceType::Definition,
{
    lemma_some_occurs(trim(line), definition_keywords(), name, i);
}

/// A line that is no definition and whose lower-cased form holds an import
/// keyword is an import.
pub proof fn lemma_import(line: Seq<char>, name: Seq<char>, is_definition_file: bool, i: int)
    requires
        is_definition_file ==> forall|k: int|
            0 <= k < definition_keywords().len() ==> !contains(trim(line), #[trigger] definition_keywords()[k] + name),
        0 <= i < import_keywords().len(),
        contains(lowercase(line), import_keywords()[i]),
    ensures
        reference_kind(line, name, is_definition_file) == ReferenceType::Import,
{
    if is_definition_file {
        lemma_none_occurs(trim(line), definition_keywords(), name);
    }
    assert(import_keywords()[i] + Seq::<char>::empty() =~= import_keywords()[i]);
    lemma_some_occurs(lowercase(line), import_keywords(), Seq::empty(), i);
}

/// Whether some keyword of `kws` followed by `suffix` occurs in `s`.
fn any_keyword_occurs(s: &Vec<char>, kws: &Vec<&'static str>, suffix: &str) -> (b: bool)
    ensures
        b == any_occurs(s@, kws@.map_values(|k: &'static str| k@), suffix@),
{
    let ghost all = kws@.map_values(|k: &'static str| k@);
    let mut i: usize = 0;
    assert(all.skip(0) =~= all);
    while i < kws.len()
        invariant
            all == kws@.map_values(|k: &'static str| k@),
            i <= kws@.len(),
            any_occurs(s@, all, suffix@) == any_occurs(s@, all.skip(i as int), suffix@),
        decreases kws.len() - i,
    {
        let mut p = kws[i].to_owned();
        p.append(suffix);
        let pc = to_chars(p.as_str());
        assert(all.skip(i as int)[0] == kws@[i as int]@);
        assert(all.skip(i as int).drop_first() =~= all.skip(i + 1));
        if contains_chars(s.as_slice(), pc.as_slice()) {
            return true;
        }
        i = i + 1;
    }
    assert(all.skip(i as int) =~= Seq::<Seq<char>>::empty());
    false
}

/// Classifies how `line` refers to `symbol_name`; `is_definition_file`
/// tells whether the line lies in the file that defines the symbol.
pub fn classify_reference(line: &str, symbol_name: &str, is_definition_file: bool) -> (r: ReferenceType)
    ensures
        r == reference_kind(line@, symbol_name@, is_definition_file),
{
    let lc = to_chars(line);
    let trimmed = trim_chars(lc.as_slice());
    if is_definition_file {
        let kws: Vec<&'static str> = vec![
            "class ",
            "interface ",
            "type ",
            "enum ",
            "fn ",
            "function ",
            "const ",
            "let ",
            "var ",
            "async fn ",
            "async function ",
            "export class ",
            "export interface ",
            "export type ",
            "export enum ",
            "export fn ",
            "export function ",
            "pub fn ",
            "pub struct ",
            "pub trait ",
            "pub enum ",
            "struct ",
            "trait ",
            "impl ",
            "def ",
        ];
        assert(kws@.map_values(|k: &'static str| k@) =~= definition_keywords());
        if any_keyword_occurs(&trimmed, &kws, symbol_name) {
            return ReferenceType::Definition;
        }
    }
    let lower = to_lowercase(line);
    let low = to_chars(lower.as_str());
    let iks: Vec<&'static str> = vec!["import ", "from ", "require(", "use ", "use\t", "include "];
    assert(iks@.map_values(|k: &'static str| k@) =~= import_keywords());
    proof {
        reveal_strlit("");
        assert(""@ =~= Seq::<char>::empty());
    }
    if any_keyword_occurs(&low, &iks, "") {
        return ReferenceType::Import;
    }
    let nc = to_chars(symbol_name);
    match find_first(lc.as_slice(), nc.as_slice()) {
        None => ReferenceType::Other,
        Some(pos) => {
            proof {
                crate::text::lemma_find_bounds(lc@, nc@);
            }
            let ll = lc.len();
            let nl = nc.len();
            assert(pos + nl <= ll);
            let after_raw = crate::text::copy_range(lc.as_slice(), pos + nl, ll);
            assert(after_raw@ =~= line@.skip(pos + symbol_name@.len()));
            let before_raw = crate::text::copy_range(lc.as_slice(), 0, pos);
            assert(before_raw@ =~= line@.take(pos as int));
            let after = trim_start_chars(after_raw.as_slice());
            let before = trim_end_chars(before_raw.as_slice());
            if starts_with(after.as_slice(), &['(']) || starts_with(after.as_slice(), &['<']) {
                proof {
                    assert(['(']@ =~= seq!['(']);
                    assert(['<']@ =~= seq!['<']);
                }
                return ReferenceType::Call;
            }
            proof {
                assert(['(']@ =~= seq!['(']);
                assert(['<']@ =~= seq!['<']);
            }
            let implements = to_chars("implements");
            let extends = to_chars("extends");
            let as_kw = to_chars("as");
            let arrow = to_chars("->");
            if ends_with(before.as_slice(), &[':']) || ends_with(before.as_slice(), implements.as_slice())
                || ends_with(before.as_slice(), extends.as_slice()) || ends_with(
                before.as_slice(),
                as_kw.as_slice(),
            ) || ends_with(before.as_slice(), arrow.as_slice()) {
                proof {
                    assert([':']@ =~= seq![':']);
                }
                ReferenceType::TypeUsage
            } else {
                proof {
                    assert([':']@ =~= seq![':']);
                }
                ReferenceType::Other
            }
        },
    }
}

// ---------------------------------------------------------------------------
// Finding references
// ---------------------------------------------------------------------------

/// The distinct files of the matches, in order of first appearance.
pub open spec fn files_in_order(ms: Seq<ContentMatch>) -> Seq<Seq<char>>
    decreases ms.len(),
{
    if ms.len() == 0 {
        Seq::empty()
    } else {
        let f = files_in_order(ms.drop_last());
        if f.contains(ms.last().file_path@) {
            f
        } else {
            f.push(ms.last().file_path@)
        }
    }
}

/// The first position from `i` on whose line comes after that of `x`.
pub open spec fn first_line_after_from(s: Seq<ContentMatch>, x: nat, i: int) -> int
    decreases s.len() - i,
{
    if i < 0 || i >= s.len() {
        s.len() as int
    } else if s[i].line_number > x {
        i
    } else {
        first_line_after_from(s, x, i + 1)
    }
}

/// `s` sorted by line number, matches on the same line in their order in `s`.
pub open spec fn sort_by_line(s: Seq<ContentMatch>) -> Seq<ContentMatch>
    decreases s.len(),
{
    if s.len() == 0 {
        Seq::empty()
    } else {
        let t = sort_by_line(s.drop_last());
        t.insert(first_line_after_from(t, s.last().line_number as nat, 0), s.last())
    }
}

/// Matches in file `f`.
pub open spec fn in_file(f: Seq<char>) -> spec_fn(ContentMatch) -> bool {
    |m: ContentMatch| m.file_path@ == f
}

/// The matches of file `f`, by line.
pub open spec fn file_matches(ms: Seq<ContentMatch>, f: Seq<char>) -> Seq<ContentMatch> {
    sort_by_line(ms.filter(in_file(f)))
}

/// The comment style of a file: (`/* */` blocks, Python triple quotes).
pub open spec fn comment_style(f: Seq<char>) -> (bool, bool) {
    if extension(f) == Some("py"@) {
        (false, true)
    } else {
        (true, false)
    }
}

/// Whether the line of a match is skipped as a comment, and the block and
/// triple-quote states after it.
pub open spec fn comment_step(trimmed: Seq<char>, style: (bool, bool), in_block: bool, in_triple: bool) -> (
    bool,
    bool,
    bool,
) {
    let opens = count_matches(trimmed, "/*"@);
    let closes = count_matches(trimmed, "*/"@);
    let b1 = if style.0 && contains(trimmed, "{/*"@) {
        true
    } else {
        in_block
    };
    let b2 = if style.0 && opens > closes && !contains(trimmed, "*/"@) {
        true
    } else {
        b1
    };
    if style.0 && closes > 0 && "*/"@.is_suffix_of(trimmed) {
        (true, false, in_triple)
    } else if style.0 && b2 {
        (true, b2, in_triple)
    } else {
        let triples = count_matches(trimmed, "\"\"\""@) + count_matches(trimmed, "'''"@);
        let t = if style.1 && triples % 2 == 1 {
            !in_triple
        } else {
            in_triple
        };
        if style.1 && t {
            (true, b2, t)
        } else {
            let single = "//"@.is_prefix_of(trimmed) || (seq!['#'].is_prefix_of(trimmed)
                && !"#["@.is_prefix_of(trimmed)) || "*/"@.is_prefix_of(trimmed);
            (single, b2, t)
        }
    }
}

/// The references among the first `n` matches `ms` of one file, with the
/// comment state after them.
pub open spec fn scan_file(
    ms: Seq<ContentMatch>,
    n: int,
    name: Seq<char>,
    is_def: bool,
    style: (bool, bool),
) -> (Seq<ReferenceView>, bool, bool)
    decreases n,
{
    if n <= 0 || n > ms.len() {
        (Seq::empty(), false, false)
    } else {
        let st = scan_file(ms, n - 1, name, is_def, style);
        let m = ms[n - 1];
        let step = comment_step(trim(m.line_content@), style, st.1, st.2);
        if step.0 {
            (st.0, step.1, step.2)
        } else {
            (
                st.0.push(
                    ReferenceView {
                        file_path: m.file_path@,
                        project_root: m.project_root@,
                        line_number: m.line_number as nat,
                        line_content: m.line_content@,
                        reference_type: reference_kind(m.line_content@, name, is_def),
                    },
                ),
                step.1,
                step.2,
            )
        }
    }
}

/// File `f` defines the symbol when it is, or ends with, the given definition file.
pub open spec fn is_definition_file(f: Seq<char>, def: Option<Seq<char>>) -> bool {
    match def {
        Some(d) => f == d || d.is_suffix_of(f),
        None => false,
    }
}

/// The references of the files `fs` from position `i` on, in file order.
pub open spec fn references_from(
    ms: Seq<ContentMatch>,
    fs: Seq<Seq<char>>,
    i: int,
    name: Seq<char>,
    def: Option<Seq<char>>,
) -> Seq<ReferenceView>
    decreases fs.len() - i,
{
    if i < 0 || i >= fs.len() {
        Seq::empty()
    } else {
        let fm = file_matches(ms, fs[i]);
        scan_file(fm, fm.len() as int, name, is_definition_file(fs[i], def), comment_style(fs[i])).0
            + references_from(ms, fs, i + 1, name, def)
    }
}

/// Every reference that the matches hold: file by file in order of first
/// appearance, each file's lines by line number, lines inside comments
/// left out.
pub open spec fn all_references(ms: Seq<ContentMatch>, name: Seq<char>, def: Option<Seq<char>>) -> Seq<
    ReferenceView,
> {
    references_from(ms, files_in_order(ms), 0, name, def)
}

/// Law: a reference search never answers more references than its limit
/// (one at least is allowed for a limit of zero).
pub proof fn lemma_references_limit(
    ms: Seq<ContentMatch>,
    name: Seq<char>,
    def: Option<Seq<char>>,
    limit: nat,
)
    ensures
        crate::report::first_n(all_references(ms, name, def), if limit == 0 {
            1
        } else {
            limit
        }).len() <= if limit == 0 {
            1
        } else {
            limit
        },
{
}

/// The views of a sequence of references.
pub open spec fn reference_views(s: Seq<ReferenceMatch>) -> Seq<ReferenceView> {
    s.map_values(|r: ReferenceMatch| r@)
}

/// The distinct files of the matches, in order of first appearance.
fn distinct_files(ms: &Vec<ContentMatch>) -> (r: Vec<String>)
    ensures
        crate::text::string_views(r@) == files_in_order(ms@),
{
    let mut r: Vec<String> = Vec::new();
    let mut i: usize = 0;
    while i < ms.len()
        invariant
            i <= ms@.len(),
            crate::text::string_views(r@) == files_in_order(ms@.take(i as int)),
        decreases ms.len() - i,
    {
        assert(ms@.take(i + 1).drop_last() =~= ms@.take(i as int));
        let ghost f = crate::text::string_views(r@);
        let mut j: usize = 0;
        let mut found = false;
        while j < r.len()
            invariant
                i < ms@.len(),
                j <= r@.len(),
                f == crate::text::string_views(r@),
                found ==> f.contains(ms@[i as int].file_path@),
                !found ==> forall|k: int| 0 <= k < j ==> f[k] != ms@[i as int].file_path@,
            decreases r.len() - j,
        {
            if !found && str_eq(r[j].as_str(), ms[i].file_path.as_str()) {
                found = true;
                assert(f[j as int] == ms@[i as int].file_path@);
            }
            j = j + 1;
        }
        if !found {
            let ghost before = crate::text::string_views(r@);
            r.push(ms[i].file_path.clone());
            assert(crate::text::string_views(r@) =~= before.push(ms@[i as int].file_path@));
        }
        i = i + 1;
    }
    assert(ms@.take(ms@.len() as int) =~= ms@);
    r
}

/// The matches at positions `idx`.
pub open spec fn matches_at(ms: Seq<ContentMatch>, idx: Seq<usize>) -> Seq<ContentMatch> {
    idx.map_values(|k: usize| ms[k as int])
}

/// The positions of the matches of file `f`, by line.
fn file_positions(ms: &Vec<ContentMatch>, f: &String) -> (r: Vec<usize>)
    ensures
        matches_at(ms@, r@) == file_matches(ms@, f@),
        forall|j: int| 0 <= j < r@.len() ==> #[trigger] r@[j] < ms@.len(),
{
    let ghost pred = in_file(f@);
    let mut sel: Vec<usize> = Vec::new();
    let mut i: usize = 0;
    while i < ms.len()
        invariant
            pred == in_file(f@),
            i <= ms@.len(),
            matches_at(ms@, sel@) == ms@.take(i as int).filter(pred),
            forall|j: int| 0 <= j < sel@.len() ==> #[trigger] sel@[j] < i,
        decreases ms.len() - i,
    {
        proof {
            reveal(Seq::filter);
        }
        assert(ms@.take(i + 1).drop_last() =~= ms@.take(i as int));
        assert(ms@.take(i + 1).last() == ms@[i as int]);
        if str_eq(ms[i].file_path.as_str(), f.as_str()) {
            let ghost before = matches_at(ms@, sel@);
            sel.push(i);
            assert(matches_at(ms@, sel@) =~= before.push(ms@[i as int]));
        }
        i = i + 1;
    }
    assert(ms@.take(ms@.len() as int) =~= ms@);
    let ghost all = matches_at(ms@, sel@);
    let mut r: Vec<usize> = Vec::new();
    let mut k: usize = 0;
    while k < sel.len()
        invariant
            k <= sel@.len(),
            all == matches_at(ms@, sel@),
            forall|j: int| 0 <= j < sel@.len() ==> #[trigger] sel@[j] < ms@.len(),
            forall|j: int| 0 <= j < r@.len() ==> #[trigger] r@[j] < ms@.len(),
            matches_at(ms@, r@) == sort_by_line(all.take(k as int)),
        decreases sel.len() - k,
    {
        let x = sel[k];
        let ghost s = matches_at(ms@, r@);
        proof {
            lemma_first_line_after_from(s, ms@[x as int].line_number as nat, 0);
        }
        let mut p: usize = 0;
        while p < r.len() && ms[r[p]].line_number <= ms[x].line_number
            invariant
                matches_at(ms@, r@) == s,
                x < ms@.len(),
                forall|j: int| 0 <= j < r@.len() ==> #[trigger] r@[j] < ms@.len(),
                p <= r@.len(),
                first_line_after_from(s, ms@[x as int].line_number as nat, 0) == first_line_after_from(
                    s,
                    ms@[x as int].line_number as nat,
                    p as int,
                ),
            decreases r.len() - p,
        {
            p = p + 1;
        }
        r.insert(p, x);
        assert(matches_at(ms@, r@) =~= s.insert(p as int, ms@[x as int]));
        assert(all.take(k + 1).drop_last() =~= all.take(k as int));
        assert(all.take(k + 1).last() == ms@[x as int]);
        k = k + 1;
    }
    assert(all.take(sel@.len() as int) =~= all);
    r
}

proof fn lemma_first_line_after_from(s: Seq<ContentMatch>, x: nat, i: int)
    requires
        0 <= i <= s.len(),
    ensures
        i <= first_line_after_from(s, x, i) <= s.len(),
    decreases s.len() - i,
{
    if i < s.len() && s[i].line_number <= x {
        lemma_first_line_after_from(s, x, i + 1);
    }
}

/// Whether the line of a match is skipped, and the comment states after it.
fn comment_state(trimmed: &Vec<char>, style: (bool, bool), in_block: bool, in_triple: bool) -> (r: (bool, bool, bool))
    ensures
        r == comment_step(trimmed@, style, in_block, in_triple),
{
    let open_c = to_chars("/*");
    let close_c = to_chars("*/");
    let jsx = to_chars("{/*");
    let opens = count_matches_chars(trimmed.as_slice(), open_c.as_slice());
    let closes = count_matches_chars(trimmed.as_slice(), close_c.as_slice());
    let mut b = in_block;
    if style.0 && contains_chars(trimmed.as_slice(), jsx.as_slice()) {
        b = true;
    }
    if style.0 && opens > closes && !contains_chars(trimmed.as_slice(), close_c.as_slice()) {
        b = true;
    }
    if style.0 && closes > 0 && ends_with(trimmed.as_slice(), close_c.as_slice()) {
        return (true, false, in_triple);
    }
    if style.0 && b {
        return (true, b, in_triple);
    }
    let dq = to_chars("\"\"\"");
    let sq = to_chars("'''");
    let n1 = count_matches_chars(trimmed.as_slice(), dq.as_slice());
    let n2 = count_matches_chars(trimmed.as_slice(), sq.as_slice());
    let odd = (n1 % 2 == 1) != (n2 % 2 == 1);
    assert(odd == ((n1 + n2) % 2 == 1)) by (nonlinear_arith)
        requires
            odd == ((n1 % 2 == 1) != (n2 % 2 == 1)),
    ;
    let t = if style.1 && odd {
        !in_triple
    } else {
        in_triple
    };
    if style.1 && t {
        return (true, b, t);
    }
    let slashes = to_chars("//");
    let attr = to_chars("#[");
    let single = starts_with(trimmed.as_slice(), slashes.as_slice()) || (starts_with(
        trimmed.as_slice(),
        &['#'],
    ) && !starts_with(trimmed.as_slice(), attr.as_slice())) || starts_with(
        trimmed.as_slice(),
        close_c.as_slice(),
    );
    proof {
        assert(['#']@ =~= seq!['#']);
    }
    (single, b, t)
}

/// The references to `symbol_name` among the matching lines `matches`:
/// file by file in order of first appearance, each file's lines by line
/// number, lines inside comments left out, each line classified (lines of
/// `file_path`, or of a file ending with it, may be definitions); the list
/// stops once it holds `limit` references (one, for a limit of 0).
pub fn find_references(
    matches: &Vec<ContentMatch>,
    symbol_name: &str,
    file_path: Option<&str>,
    limit: usize,
) -> (r: Vec<ReferenceMatch>)
    ensures
        reference_views(r@) == crate::report::first_n(
            all_references(
                matches@,
                symbol_name@,
                match file_path {
                    Some(f) => Some(f@),
                    None => None,
                },
            ),
            if limit == 0 {
                1
            } else {
                limit as nat
            },
        ),
{
    let ghost def = match file_path {
        Some(f) => Some(f@),
        None => None::<Seq<char>>,
    };
    let ghost cap: nat = if limit == 0 {
        1
    } else {
        limit as nat
    };
    let ghost all = all_references(matches@, symbol_name@, def);
    let files = distinct_files(matches);
    proof {
        reveal_strlit("py");
    }
    let ghost fs = files_in_order(matches@);
    let mut out: Vec<ReferenceMatch> = Vec::new();
    let mut fi: usize = 0;
    assert(all == references_from(matches@, fs, 0, symbol_name@, def));
    while fi < files.len()
        invariant
            def == (match file_path {
                Some(f) => Some(f@),
                None => None::<Seq<char>>,
            }),
            cap == (if limit == 0 {
                1
            } else {
                limit as nat
            }),
            all == all_references(matches@, symbol_name@, def),
            crate::text::string_views(files@) == fs,
            fs == files_in_order(matches@),
            fi <= files@.len(),
            out@.len() < cap,
            reference_views(out@) + references_from(matches@, fs, fi as int, symbol_name@, def) == all,
        decreases files.len() - fi,
    {
        let f = &files[fi];
        assert(fs[fi as int] == f@);
        assert(fs.len() == files@.len());
        let idx = file_positions(matches, f);
        let ghost fm = file_matches(matches@, f@);
        let fc = to_chars(f.as_str());
        let is_def = match file_path {
            Some(d) => {
                let dc = to_chars(d);
                str_eq(f.as_str(), d) || ends_with(fc.as_slice(), dc.as_slice())
            },
            None => false,
        };
        let py = match crate::paths::extension_of(f.as_str()) {
            Some(e) => str_eq(e.as_str(), "py"),
            None => false,
        };
        let style: (bool, bool) = if py {
            (false, true)
        } else {
            (true, false)
        };
        assert(style == comment_style(f@));
        assert(is_def == is_definition_file(f@, def));
        let ghost base = reference_views(out@);
        let mut in_block = false;
        let mut in_triple = false;
        let mut k: usize = 0;
        while k < idx.len()
            invariant
                cap == (if limit == 0 {
                    1
                } else {
                    limit as nat
                }),
                matches_at(matches@, idx@) == fm,
                fm.len() == idx@.len(),
                forall|j: int| 0 <= j < idx@.len() ==> #[trigger] idx@[j] < matches@.len(),
                base + references_from(matches@, fs, fi as int, symbol_name@, def) == all,
                def == (match file_path {
                    Some(f) => Some(f@),
                    None => None::<Seq<char>>,
                }),
                all == all_references(matches@, symbol_name@, def),
                fi < fs.len(),
                fs[fi as int] == f@,
                fm == file_matches(matches@, fs[fi as int]),
                is_def == is_definition_file(fs[fi as int], def),
                style == comment_style(fs[fi as int]),
                k <= idx@.len(),
                out@.len() < cap,
                reference_views(out@) == base + scan_file(fm, k as int, symbol_name@, is_def, style).0,
                in_block == scan_file(fm, k as int, symbol_name@, is_def, style).1,
                in_triple == scan_file(fm, k as int, symbol_name@, is_def, style).2,
            decreases idx.len() - k,
        {
            let m = &matches[idx[k]];
            assert(fm[k as int] == matches@[idx@[k as int] as int]);
            let ghost st = scan_file(fm, k as int, symbol_name@, is_def, style);
            let lc = to_chars(m.line_content.as_str());
            let trimmed = trim_chars(lc.as_slice());
            let step = comment_state(&trimmed, style, in_block, in_triple);
            assert(step == comment_step(trim(fm[k as int].line_content@), style, st.1, st.2));
            in_block = step.1;
            in_triple = step.2;
            if !step.0 {
                let rt = classify_reference(m.line_content.as_str(), symbol_name, is_def);
                let ghost before = reference_views(out@);
                assert(before == base + st.0);
                out.push(
                    ReferenceMatch {
                        file_path: m.file_path.clone(),
                        project_root: m.project_root.clone(),
                        line_number: m.line_number,
                        line_content: m.line_content.clone(),
                        reference_type: rt,
                    },
                );
                assert(reference_views(out@) =~= before.push(reference_views(out@).last()));
                assert(scan_file(fm, k + 1, symbol_name@, is_def, style).0 == st.0.push(
                    reference_views(out@).last(),
                ));
                assert(reference_views(out@) =~= base + scan_file(
                    fm,
                    k + 1,
                    symbol_name@,
                    is_def,
                    style,
                ).0);
                if out.len() >= limit {
                    proof {
                        lemma_first_n_prefix(base, fm, k + 1, symbol_name@, is_def, style, matches@, fs, fi as int, def, cap);
                    }
                    return out;
                }
            }
            k = k + 1;
        }
        assert(fm.len() == idx@.len());
        assert(reference_views(out@) + references_from(matches@, fs, fi + 1, symbol_name@, def)
            =~= base + references_from(matches@, fs, fi as int, symbol_name@, def));
        fi = fi + 1;
    }
    assert(references_from(matches@, fs, fi as int, symbol_name@, def) =~= Seq::<ReferenceView>::empty());
    assert(reference_views(out@) =~= all);
    out
}

/// When the references found so far reach the cap, they are the first `cap`
/// of all references.
proof fn lemma_first_n_prefix(
    base: Seq<ReferenceView>,
    fm: Seq<ContentMatch>,
    k: int,
    name: Seq<char>,
    is_def: bool,
    style: (bool, bool),
    ms: Seq<ContentMatch>,
    fs: Seq<Seq<char>>,
    fi: int,
    def: Option<Seq<char>>,
    cap: nat,
)
    requires
        0 <= fi < fs.len(),
        fm == file_matches(ms, fs[fi]),
        is_def == is_definition_file(fs[fi], def),
        style == comment_style(fs[fi]),
        0 < k <= fm.len(),
        (base + scan_file(fm, k, name, is_def, style).0).len() >= cap,
        (base + scan_file(fm, k - 1, name, is_def, style).0).len() < cap,
    ensures
        crate::report::first_n(base + references_from(ms, fs, fi, name, def), cap) == base
            + scan_file(fm, k, name, is_def, style).0,
{
    lemma_scan_prefix(fm, k, fm.len() as int, name, is_def, style);
    let whole = scan_file(fm, fm.len() as int, name, is_def, style).0;
    let part = scan_file(fm, k, name, is_def, style).0;
    let all = base + references_from(ms, fs, fi, name, def);
    assert(all == base + whole + references_from(ms, fs, fi + 1, name, def));
    lemma_scan_len(fm, k, name, is_def, style);
    assert((base + part).len() == cap) by {
        lemma_scan_step_len(fm, k, name, is_def, style);
    }
    assert(all.take(cap as int) =~= base + part);
}

/// Each step adds at most one reference.
proof fn lemma_scan_step_len(fm: Seq<ContentMatch>, k: int, name: Seq<char>, is_def: bool, style: (bool, bool))
    requires
        0 < k <= fm.len(),
    ensures
        scan_file(fm, k, name, is_def, style).0.len() <= scan_file(fm, k - 1, name, is_def, style).0.len()
            + 1,
{
}

proof fn lemma_scan_len(fm: Seq<ContentMatch>, k: int, name: Seq<char>, is_def: bool, style: (bool, bool))
    requires
        0 <= k <= fm.len(),
    ensures
        scan_file(fm, k, name, is_def, style).0.len() <= k,
    decreases k,
{
    if k > 0 {
        lemma_scan_len(fm, k - 1, name, is_def, style);
    }
}

/// The references after `k` steps begin those after `n` steps.
proof fn lemma_scan_prefix(fm: Seq<ContentMatch>, k: int, n: int, name: Seq<char>, is_def: bool, style: (bool, bool))
    requires
        0 <= k <= n <= fm.len(),
    ensures
        scan_file(fm, k, name, is_def, style).0.is_prefix_of(scan_file(fm, n, name, is_def, style).0),
    decreases n - k,
{
    if k < n {
        lemma_scan_prefix(fm, k, n - 1, name, is_def, style);
        let a = scan_file(fm, k, name, is_def, style).0;
        let b = scan_file(fm, n - 1, name, is_def, style).0;
        let c = scan_file(fm, n, name, is_def, style).0;
        assert(b.is_prefix_of(c));
        assert(a.is_prefix_of(c)) by {
            assert(c.subrange(0, a.len() as int) =~= b.subrange(0, a.len() as int));
        }
    } else {
        assert(scan_file(fm, k, name, is_def, style).0.subrange(0, scan_file(fm, k, name, is_def, style).0.len() as int) =~= scan_file(fm, k, name, is_def, style).0);
    }
}

/// A trimmed line that is a comment by its start: `//`, `*/`, or `#` other
/// than an attribute `#[`.
pub open spec fn comment_line(trimmed: Seq<char>) -> bool {
    "//"@.is_prefix_of(trimmed) || (seq!['#'].is_prefix_of(trimmed) && !"#["@.is_prefix_of(trimmed))
        || "*/"@.is_prefix_of(trimmed)
}

/// A reference answered for the matches `ms` of the symbol `name`: its line
/// is one of the matches, is no comment line, and is classified by its text
/// and by whether its file defines the symbol.
pub open spec fn reference_ok(
    v: ReferenceView,
    ms: Seq<ContentMatch>,
    name: Seq<char>,
    def: Option<Seq<char>>,
) -> bool {
    &&& !comment_line(trim(v.line_content))
    &&& v.reference_type == reference_kind(v.line_content, name, is_definition_file(v.file_path, def))
    &&& exists|k: int|
        0 <= k < ms.len() && (#[trigger] ms[k]).file_path@ == v.file_path && ms[k].project_root@
            == v.project_root && ms[k].line_number == v.line_number && ms[k].line_content@
            == v.line_content
}

proof fn lemma_scan_ok(
    fm: Seq<ContentMatch>,
    n: int,
    name: Seq<char>,
    is_def: bool,
    style: (bool, bool),
    ms: Seq<ContentMatch>,
    def: Option<Seq<char>>,
    f: Seq<char>,
)
    requires
        is_def == is_definition_file(f, def),
        forall|j: int| 0 <= j < fm.len() ==> (#[trigger] fm[j]).file_path@ == f && ms.contains(fm[j]),
    ensures
        forall|k: int|
            0 <= k < scan_file(fm, n, name, is_def, style).0.len() ==> reference_ok(
                #[trigger] scan_file(fm, n, name, is_def, style).0[k],
                ms,
                name,
                def,
            ),
    decreases n,
{
    if 0 < n <= fm.len() {
        lemma_scan_ok(fm, n - 1, name, is_def, style, ms, def, f);
        let st = scan_file(fm, n - 1, name, is_def, style);
        let m = fm[n - 1];
        let step = comment_step(trim(m.line_content@), style, st.1, st.2);
        if !step.0 {
            assert(!comment_line(trim(m.line_content@)));
            let r = scan_file(fm, n, name, is_def, style).0;
            assert forall|k: int| 0 <= k < r.len() implies reference_ok(#[trigger] r[k], ms, name, def) by {
                if k < st.0.len() {
                    assert(r[k] == st.0[k]);
                } else {
                    assert(ms.contains(m));
                    let q = choose|q: int| 0 <= q < ms.len() && ms[q] == m;
                    assert(ms[q].file_path@ == r[k].file_path);
                    assert(ms[q].project_root@ == r[k].project_root);
                }
            }
        }
    }
}

proof fn lemma_sort_by_line_multiset(s: Seq<ContentMatch>)
    ensures
        sort_by_line(s).to_multiset() == s.to_multiset(),
    decreases s.len(),
{
    broadcast use vstd::seq_lib::group_to_multiset_ensures;

    if s.len() > 0 {
        lemma_sort_by_line_multiset(s.drop_last());
        let t = sort_by_line(s.drop_last());
        lemma_first_line_after_from(t, s.last().line_number as nat, 0);
        assert(s.drop_last().push(s.last()) =~= s);
    } else {
        assert(sort_by_line(s) =~= s);
    }
}

proof fn lemma_references_from_ok(
    ms: Seq<ContentMatch>,
    fs: Seq<Seq<char>>,
    i: int,
    name: Seq<char>,
    def: Option<Seq<char>>,
)
    requires
        0 <= i,
    ensures
        forall|k: int|
            0 <= k < references_from(ms, fs, i, name, def).len() ==> reference_ok(
                #[trigger] references_from(ms, fs, i, name, def)[k],
                ms,
                name,
                def,
            ),
    decreases fs.len() - i,
{
    broadcast use vstd::seq_lib::group_to_multiset_ensures;

    if i < fs.len() {
        lemma_references_from_ok(ms, fs, i + 1, name, def);
        let f = fs[i];
        let flt = ms.filter(in_file(f));
        let fm = file_matches(ms, f);
        lemma_sort_by_line_multiset(flt);
        assert forall|j: int| 0 <= j < fm.len() implies (#[trigger] fm[j]).file_path@ == f
            && ms.contains(fm[j]) by {
            assert(fm.to_multiset().count(fm[j]) > 0);
            assert(flt.contains(fm[j]));
            let q = choose|q: int| 0 <= q < flt.len() && flt[q] == fm[j];
            ms.lemma_filter_pred(in_file(f), q);
            ms.lemma_filter_contains_rev(in_file(f), fm[j]);
        }
        lemma_scan_ok(fm, fm.len() as int, name, is_definition_file(f, def), comment_style(f), ms, def, f);
        let a = scan_file(fm, fm.len() as int, name, is_definition_file(f, def), comment_style(f)).0;
        let b = references_from(ms, fs, i + 1, name, def);
        assert(references_from(ms, fs, i, name, def) == a + b);
        assert forall|k: int| 0 <= k < (a + b).len() implies reference_ok(#[trigger] (a + b)[k], ms, name, def) by {
            if k < a.len() {
                assert((a + b)[k] == a[k]);
            } else {
                assert((a + b)[k] == b[k - a.len()]);
            }
        }
    }
}

/// Law: every reference that a search answers is one of the matched lines,
/// is no comment line, and is classified by its text and by whether its file
/// defines the symbol.
pub proof fn lemma_references_classified(
    ms: Seq<ContentMatch>,
    name: Seq<char>,
    def: Option<Seq<char>>,
    limit: nat,
)
    ensures
        forall|k: int|
            0 <= k < crate::report::first_n(all_references(ms, name, def), limit).len()
                ==> reference_ok(
                #[trigger] crate::report::first_n(all_references(ms, name, def), limit)[k],
                ms,
                name,
                def,
            ),
{
    lemma_references_from_ok(ms, files_in_order(ms), 0, name, def);
    let all = all_references(ms, name, def);
    assert forall|k: int| 0 <= k < crate::report::first_n(all, limit).len() implies reference_ok(
        #[trigger] crate::report::first_n(all, limit)[k],
        ms,
        name,
        def,
    ) by {
        assert(crate::report::first_n(all, limit)[k] == all[k]);
    }
}

/// Law: where every match lies in the project `root` (as a content search of
/// that project gives them), so does every reference answered.
pub proof fn lemma_references_in_project(
    ms: Seq<ContentMatch>,
    name: Seq<char>,
    def: Option<Seq<char>>,
    limit: nat,
    root: Seq<char>,
)
    requires
        forall|k: int| 0 <= k < ms.len() ==> (#[trigger] ms[k]).project_root@ == root,
    ensures
        forall|k: int|
            0 <= k < crate::report::first_n(all_references(ms, name, def), limit).len()
                ==> (#[trigger] crate::report::first_n(all_references(ms, name, def), limit)[k]).project_root
                == root,
{
    lemma_references_classified(ms, name, def, limit);
    let r = crate::report::first_n(all_references(ms, name, def), limit);
    assert forall|k: int| 0 <= k < r.len() implies (#[trigger] r[k]).project_root == root by {
        assert(reference_ok(r[k], ms, name, def));
        let q = choose|q: int|
            0 <= q < ms.len() && (#[trigger] ms[q]).file_path@ == r[k].file_path && ms[q].project_root@
                == r[k].project_root && ms[q].line_number == r[k].line_number && ms[q].line_content@
                == r[k].line_content;
    }
}

} // verus!
