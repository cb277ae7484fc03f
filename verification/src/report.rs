//! Task reports and their synthesis: counts of task types, models, files,
//! issues, suggestions and tools over a set of reports, and a narrative summary.

use crate::paths::{join_path, path_join};
use crate::text::{
    decimal, decimal_string, join, join_strings, lemma_join_part, occurs_at, string_views, to_chars,
};
use vstd::prelude::*;

verus! {

/// A report that an agent writes after a task.
#[derive(Debug, Clone)]
pub struct TaskReport {
    pub id: String,
    pub timestamp: String,
    pub project_root: String,
    pub task_type: String,
    pub summary: String,
    pub model: String,
    pub tools_used: Vec<String>,
    pub files_modified: Vec<String>,
    pub issues_found: Vec<String>,
    pub improvement_suggestions: Vec<String>,
    pub metadata: Vec<(String, String)>,
}

/// The first and last timestamp of the reports analysed.
#[derive(Debug, Clone)]
pub struct DateRange {
    pub from: String,
    pub to: String,
}

/// How often a file was modified.
#[derive(Debug, Clone)]
pub struct FileFrequency {
    pub file_path: String,
    pub count: u32,
}

/// How often an issue was reported.
#[derive(Debug, Clone)]
pub struct IssueFrequency {
    pub issue: String,
    pub count: u32,
}

/// How often a suggestion was made.
#[derive(Debug, Clone)]
pub struct SuggestionFrequency {
    pub suggestion: String,
    pub count: u32,
}

/// How often a tool was used.
#[derive(Debug, Clone)]
pub struct ToolUsageEntry {
    pub tool: String,
    pub count: u32,
}

/// What a set of reports adds up to.
#[derive(Debug, Clone)]
pub struct SynthesisResult {
    pub total_reports: usize,
    pub reports_analyzed: usize,
    pub date_range: Option<DateRange>,
    pub task_type_breakdown: Vec<(String, u32)>,
    pub model_breakdown: Vec<(String, u32)>,
    pub frequently_modified_files: Vec<FileFrequency>,
    pub recurring_issues: Vec<IssueFrequency>,
    pub improvement_suggestions: Vec<SuggestionFrequency>,
    pub tools_usage: Vec<ToolUsageEntry>,
    pub summary: String,
}

/// The directory where the reports of a project are kept.
pub open spec fn reports_dir_of(project_root: Seq<char>) -> Seq<char> {
    path_join(path_join(project_root, ".cortex"@), "reports"@)
}

/// The directory where the reports of `project_root` are kept.
pub fn reports_dir(project_root: &str) -> (r: String)
    ensures
        r@ == reports_dir_of(project_root@),
{
    let d = join_path(project_root, ".cortex");
    join_path(d.as_str(), "reports")
}

// ---------------------------------------------------------------------------
// Counting
// ---------------------------------------------------------------------------

/// The concatenation of the sequences `ss`.
pub open spec fn flatten(ss: Seq<Seq<Seq<char>>>) -> Seq<Seq<char>>
    decreases ss.len(),
{
    if ss.len() == 0 {
        Seq::empty()
    } else {
        flatten(ss.drop_last()) + ss.last()
    }
}

/// The first position from `i` on whose key is `k`.
pub open spec fn key_position_from(t: Seq<(Seq<char>, nat)>, k: Seq<char>, i: int) -> Option<int>
    decreases t.len() - i,
{
    if i < 0 || i >= t.len() {
        None
    } else if t[i].0 == k {
        Some(i)
    } else {
        key_position_from(t, k, i + 1)
    }
}

/// The position of key `k` in `t`.
pub open spec fn key_position(t: Seq<(Seq<char>, nat)>, k: Seq<char>) -> Option<int> {
    key_position_from(t, k, 0)
}

/// Each distinct item of `items` with the number of its occurrences, in the
/// order of first occurrence.
pub open spec fn tally(items: Seq<Seq<char>>) -> Seq<(Seq<char>, nat)>
    decreases items.len(),
{
    if items.len() == 0 {
        Seq::empty()
    } else {
        let t = tally(items.drop_last());
        let x = items.last();
        match key_position(t, x) {
            Some(j) => t.update(j, (x, t[j].1 + 1)),
            None => t.push((x, 1)),
        }
    }
}

/// The first position from `i` on whose count is below `c`.
pub open spec fn first_below_from(s: Seq<(Seq<char>, nat)>, c: nat, i: int) -> int
    decreases s.len() - i,
{
    if i < 0 || i >= s.len() {
        s.len() as int
    } else if s[i].1 < c {
        i
    } else {
        first_below_from(s, c, i + 1)
    }
}

/// `x` inserted into `s` after every entry whose count is at least its own.
pub open spec fn insert_by_count(s: Seq<(Seq<char>, nat)>, x: (Seq<char>, nat)) -> Seq<(Seq<char>, nat)> {
    s.insert(first_below_from(s, x.1, 0), x)
}

/// `s` sorted by descending count, entries with equal counts in their order in `s`.
pub open spec fn sort_by_count(s: Seq<(Seq<char>, nat)>) -> Seq<(Seq<char>, nat)>
    decreases s.len(),
{
    if s.len() == 0 {
        Seq::empty()
    } else {
        insert_by_count(sort_by_count(s.drop_last()), s.last())
    }
}

/// At most the first `n` entries of `s`.
pub open spec fn first_n<T>(s: Seq<T>, n: nat) -> Seq<T> {
    if s.len() > n {
        s.take(n as int)
    } else {
        s
    }
}

/// The counted entries as plain values.
pub open spec fn count_views(v: Seq<(String, u32)>) -> Seq<(Seq<char>, nat)> {
    v.map_values(|e: (String, u32)| (e.0@, e.1 as nat))
}

proof fn lemma_key_position_from(t: Seq<(Seq<char>, nat)>, k: Seq<char>, i: int)
    requires
        0 <= i,
    ensures
        key_position_from(t, k, i) matches Some(j) ==> i <= j < t.len() && t[j].0 == k,
    decreases t.len() - i,
{
    if i < t.len() && t[i].0 != k {
        lemma_key_position_from(t, k, i + 1);
    }
}

proof fn lemma_tally_counts(items: Seq<Seq<char>>)
    ensures
        forall|j: int| 0 <= j < tally(items).len() ==> 1 <= #[trigger] tally(items)[j].1 <= items.len(),
        tally(items).len() <= items.len(),
    decreases items.len(),
{
    if items.len() > 0 {
        lemma_tally_counts(items.drop_last());
        lemma_key_position_from(tally(items.drop_last()), items.last(), 0);
    }
}

proof fn lemma_first_below_from(s: Seq<(Seq<char>, nat)>, c: nat, i: int)
    requires
        0 <= i <= s.len(),
    ensures
        i <= first_below_from(s, c, i) <= s.len(),
    decreases s.len() - i,
{
    if i < s.len() && s[i].1 >= c {
        lemma_first_below_from(s, c, i + 1);
    }
}

/// The position of key `k` among the counted entries `r`.
fn find_key(r: &Vec<(String, u32)>, k: &str) -> (p: Option<usize>)
    ensures
        match p {
            Some(j) => key_position(count_views(r@), k@) == Some(j as int) && j < r@.len(),
            None => key_position(count_views(r@), k@) is None,
        },
{
    let ghost t = count_views(r@);
    let mut j: usize = 0;
    while j < r.len()
        invariant
            t == count_views(r@),
            j <= r@.len(),
            key_position(t, k@) == key_position_from(t, k@, j as int),
        decreases r.len() - j,
    {
        if crate::text::str_eq(r[j].0.as_str(), k) {
            return Some(j);
        }
        j = j + 1;
    }
    None
}

/// Each distinct string of `items` with its number of occurrences, in the
/// order of first occurrence.
fn tally_strings(items: &Vec<String>) -> (r: Vec<(String, u32)>)
    requires
        items@.len() <= u32::MAX,
    ensures
        count_views(r@) == tally(string_views(items@)),
{
    let ghost all = string_views(items@);
    let mut r: Vec<(String, u32)> = Vec::new();
    let mut i: usize = 0;
    while i < items.len()
        invariant
            items@.len() <= u32::MAX,
            all == string_views(items@),
            i <= items@.len(),
            count_views(r@) == tally(all.take(i as int)),
        decreases items.len() - i,
    {
        let ghost t = tally(all.take(i as int));
        assert(all.take(i + 1).drop_last() =~= all.take(i as int));
        assert(all.take(i + 1).last() == items@[i as int]@);
        proof {
            lemma_tally_counts(all.take(i as int));
        }
        let x = &items[i];
        let pos = find_key(&r, x.as_str());
        proof {
            lemma_key_position_from(t, x@, 0);
        }
        if let Some(j) = pos {
            let c = r[j].1;
            assert(t[j as int].1 <= i);
            let k = r[j].0.clone();
            r.set(j, (k, c + 1));
            assert(count_views(r@) =~= t.update(j as int, (x@, t[j as int].1 + 1)));
        } else {
            let ghost before = count_views(r@);
            r.push((x.clone(), 1));
            assert(count_views(r@) =~= before.push((x@, 1nat)));
        }
        i = i + 1;
    }
    assert(all.take(items@.len() as int) =~= all);
    r
}

/// `v` sorted by descending count, equal counts keeping their order.
fn sort_counts(v: Vec<(String, u32)>) -> (r: Vec<(String, u32)>)
    ensures
        count_views(r@) == sort_by_count(count_views(v@)),
{
    let ghost all = count_views(v@);
    let mut r: Vec<(String, u32)> = Vec::new();
    let mut v = v;
    let mut rest: Vec<(String, u32)> = Vec::new();
    // Move the entries into `rest` in reverse so that popping yields them in order.
    while v.len() > 0
        invariant
            count_views(v@) + count_views(rest@).reverse() == all,
        decreases v.len(),
    {
        let ghost before_v = count_views(v@);
        let ghost before_r = count_views(rest@);
        let e = v.pop().unwrap();
        rest.push(e);
        assert(count_views(v@) =~= before_v.drop_last());
        assert(count_views(rest@) =~= before_r.push(before_v.last()));
        assert(count_views(rest@).reverse() =~= seq![before_v.last()] + before_r.reverse());
        assert(count_views(v@) + count_views(rest@).reverse() =~= before_v + before_r.reverse());
    }
    assert(count_views(v@) =~= Seq::<(Seq<char>, nat)>::empty());
    assert(count_views(rest@).reverse() =~= all);
    let n = rest.len();
    let mut i: usize = 0;
    while rest.len() > 0
        invariant
            n == all.len(),
            i + rest@.len() == n,
            count_views(rest@).reverse() == all.skip(i as int),
            count_views(r@) == sort_by_count(all.take(i as int)),
        decreases rest.len(),
    {
        let ghost before_rest = count_views(rest@);
        let e = rest.pop().unwrap();
        assert(before_rest.reverse()[0] == before_rest.last());
        assert((e.0@, e.1 as nat) == all[i as int]);
        assert(count_views(rest@).reverse() =~= before_rest.reverse().drop_first());
        assert(all.skip(i as int).drop_first() =~= all.skip(i + 1));
        let ghost s = count_views(r@);
        proof {
            lemma_first_below_from(s, e.1 as nat, 0);
        }
        let mut p: usize = 0;
        while p < r.len() && r[p].1 >= e.1
            invariant
                count_views(r@) == s,
                p <= r@.len(),
                first_below_from(s, e.1 as nat, 0) == first_below_from(s, e.1 as nat, p as int),
            decreases r.len() - p,
        {
            p = p + 1;
        }
        assert(first_below_from(s, e.1 as nat, p as int) == p);
        r.insert(p, e);
        assert(count_views(r@) =~= s.insert(p as int, all[i as int]));
        assert(all.take(i + 1).drop_last() =~= all.take(i as int));
        assert(all.take(i + 1).last() == all[i as int]);
        i = i + 1;
    }
    assert(all.take(n as int) =~= all);
    r
}

/// At most the first `n` entries of `v`.
fn keep_first(v: Vec<(String, u32)>, n: usize) -> (r: Vec<(String, u32)>)
    ensures
        count_views(r@) == first_n(count_views(v@), n as nat),
{
    let mut v = v;
    if v.len() > n {
        let ghost before = v@;
        v.truncate(n);
        assert(count_views(v@) =~= count_views(before).take(n as int));
    }
    v
}

// ---------------------------------------------------------------------------
// Order of timestamps
// ---------------------------------------------------------------------------

/// `a` comes before `b` in the order of strings (by characters, then length).
pub open spec fn str_less(a: Seq<char>, b: Seq<char>) -> bool
    decreases a.len(),
{
    if a.len() == 0 {
        b.len() > 0
    } else if b.len() == 0 {
        false
    } else if a[0] != b[0] {
        (a[0] as u32) < (b[0] as u32)
    } else {
        str_less(a.drop_first(), b.drop_first())
    }
}

/// The least of `s` (the earliest of equal ones).
pub open spec fn least(s: Seq<Seq<char>>) -> Seq<char>
    decreases s.len(),
{
    if s.len() <= 1 {
        s[0]
    } else if str_less(s.last(), least(s.drop_last())) {
        s.last()
    } else {
        least(s.drop_last())
    }
}

/// The greatest of `s` (the latest of equal ones).
pub open spec fn greatest(s: Seq<Seq<char>>) -> Seq<char>
    decreases s.len(),
{
    if s.len() <= 1 {
        s[0]
    } else if str_less(s.last(), greatest(s.drop_last())) {
        greatest(s.drop_last())
    } else {
        s.last()
    }
}

/// Whether `a` comes before `b` in the order of strings.
pub fn string_less(a: &str, b: &str) -> (r: bool)
    ensures
        r == str_less(a@, b@),
{
    let x = to_chars(a);
    let y = to_chars(b);
    let mut i: usize = 0;
    assert(x@.skip(0) =~= x@);
    assert(y@.skip(0) =~= y@);
    while i < x.len() && i < y.len() && x[i] == y[i]
        invariant
            i <= x@.len(),
            i <= y@.len(),
            x@ == a@,
            y@ == b@,
            str_less(a@, b@) == str_less(x@.skip(i as int), y@.skip(i as int)),
        decreases x.len() - i,
    {
        assert(x@.skip(i as int).drop_first() =~= x@.skip(i + 1));
        assert(y@.skip(i as int).drop_first() =~= y@.skip(i + 1));
        i = i + 1;
    }
    if i == x.len() {
        i < y.len()
    } else if i == y.len() {
        false
    } else {
        (x[i] as u32) < (y[i] as u32)
    }
}

// ---------------------------------------------------------------------------
// Synthesis
// ---------------------------------------------------------------------------

/// One field of every report, as plain values.
pub open spec fn timestamps(reports: Seq<TaskReport>) -> Seq<Seq<char>> {
    reports.map_values(|r: TaskReport| r.timestamp@)
}

/// The task types of the reports.
pub open spec fn task_types(reports: Seq<TaskReport>) -> Seq<Seq<char>> {
    reports.map_values(|r: TaskReport| r.task_type@)
}

/// The models of the reports.
pub open spec fn models(reports: Seq<TaskReport>) -> Seq<Seq<char>> {
    reports.map_values(|r: TaskReport| r.model@)
}

/// Every modified file of every report, in order.
pub open spec fn all_files(reports: Seq<TaskReport>) -> Seq<Seq<char>> {
    flatten(reports.map_values(|r: TaskReport| string_views(r.files_modified@)))
}

/// Every issue of every report, in order.
pub open spec fn all_issues(reports: Seq<TaskReport>) -> Seq<Seq<char>> {
    flatten(reports.map_values(|r: TaskReport| string_views(r.issues_found@)))
}

/// Every suggestion of every report, in order.
pub open spec fn all_suggestions(reports: Seq<TaskReport>) -> Seq<Seq<char>> {
    flatten(reports.map_values(|r: TaskReport| string_views(r.improvement_suggestions@)))
}

/// Every tool use of every report, in order.
pub open spec fn all_tools(reports: Seq<TaskReport>) -> Seq<Seq<char>> {
    flatten(reports.map_values(|r: TaskReport| string_views(r.tools_used@)))
}

/// The file frequencies as plain values.
pub open spec fn file_counts(v: Seq<FileFrequency>) -> Seq<(Seq<char>, nat)> {
    v.map_values(|e: FileFrequency| (e.file_path@, e.count as nat))
}

/// The issue frequencies as plain values.
pub open spec fn issue_counts(v: Seq<IssueFrequency>) -> Seq<(Seq<char>, nat)> {
    v.map_values(|e: IssueFrequency| (e.issue@, e.count as nat))
}

/// The suggestion frequencies as plain values.
pub open spec fn suggestion_counts(v: Seq<SuggestionFrequency>) -> Seq<(Seq<char>, nat)> {
    v.map_values(|e: SuggestionFrequency| (e.suggestion@, e.count as nat))
}

/// The tool usages as plain values.
pub open spec fn tool_counts(v: Seq<ToolUsageEntry>) -> Seq<(Seq<char>, nat)> {
    v.map_values(|e: ToolUsageEntry| (e.tool@, e.count as nat))
}

/// `{count} {type}(s)` for each task type.
pub open spec fn type_phrases(t: Seq<(Seq<char>, nat)>) -> Seq<Seq<char>> {
    t.map_values(|e: (Seq<char>, nat)| decimal(e.1) + " "@ + e.0 + "(s)"@)
}

/// `{file} ({count}x)` for each file.
pub open spec fn file_phrases(t: Seq<(Seq<char>, nat)>) -> Seq<Seq<char>> {
    t.map_values(|e: (Seq<char>, nat)| e.0 + " ("@ + decimal(e.1) + "x)"@)
}

/// `"{text}" ({count}x)` for each issue or suggestion.
pub open spec fn quoted_phrases(t: Seq<(Seq<char>, nat)>) -> Seq<Seq<char>> {
    t.map_values(|e: (Seq<char>, nat)| "\""@ + e.0 + "\" ("@ + decimal(e.1) + "x)"@)
}

/// The sentences of the summary.
pub open spec fn summary_sentences(
    total: nat,
    analyzed: nat,
    types: Seq<(Seq<char>, nat)>,
    files: Seq<(Seq<char>, nat)>,
    issues: Seq<(Seq<char>, nat)>,
    suggestions: Seq<(Seq<char>, nat)>,
) -> Seq<Seq<char>> {
    seq!["Analyzed "@ + decimal(analyzed) + " of "@ + decimal(total) + " total reports."@] + (if types.len()
        > 0 {
        seq!["Task types: "@ + join(type_phrases(types), ", "@) + "."@]
    } else {
        Seq::empty()
    }) + (if files.len() > 0 {
        seq!["Most modified files: "@ + join(file_phrases(first_n(files, 3)), ", "@) + "."@]
    } else {
        Seq::empty()
    }) + (if issues.len() > 0 {
        seq!["Recurring issues: "@ + join(quoted_phrases(first_n(issues, 3)), "; "@) + "."@]
    } else {
        Seq::empty()
    }) + (if suggestions.len() > 0 {
        seq!["Top improvement suggestions: "@ + join(quoted_phrases(first_n(suggestions, 3)), "; "@)
            + "."@]
    } else {
        Seq::empty()
    })
}

/// The narrative summary: its sentences joined by spaces.
pub open spec fn summary_text(
    total: nat,
    analyzed: nat,
    types: Seq<(Seq<char>, nat)>,
    files: Seq<(Seq<char>, nat)>,
    issues: Seq<(Seq<char>, nat)>,
    suggestions: Seq<(Seq<char>, nat)>,
) -> Seq<char> {
    join(summary_sentences(total, analyzed, types, files, issues, suggestions), " "@)
}

/// The summary opens with the sentence "Analyzed {analyzed} of {total} total
/// reports.": the number of reports analyzed first, then the number in all,
/// whatever the counts that follow.
pub proof fn lemma_summary_opening(
    total: nat,
    analyzed: nat,
    types: Seq<(Seq<char>, nat)>,
    files: Seq<(Seq<char>, nat)>,
    issues: Seq<(Seq<char>, nat)>,
    suggestions: Seq<(Seq<char>, nat)>,
)
    ensures
        ("Analyzed "@ + decimal(analyzed) + " of "@ + decimal(total) + " total reports."@).is_prefix_of(
            summary_text(total, analyzed, types, files, issues, suggestions),
        ),
{
    crate::text::lemma_join_first(
        summary_sentences(total, analyzed, types, files, issues, suggestions),
        " "@,
    );
}

/// Each section of the summary stands in it when there is something to
/// report: the task types when there are any, the (at most three) most
/// modified files, the (at most three) most recurring issues and improvement
/// suggestions; with none of these the summary is the opening sentence alone.
pub proof fn lemma_summary_sections(
    total: nat,
    analyzed: nat,
    types: Seq<(Seq<char>, nat)>,
    files: Seq<(Seq<char>, nat)>,
    issues: Seq<(Seq<char>, nat)>,
    suggestions: Seq<(Seq<char>, nat)>,
)
    ensures
        types.len() > 0 ==> exists|p: int|
            occurs_at(
                summary_text(total, analyzed, types, files, issues, suggestions),
                "Task types: "@ + join(type_phrases(types), ", "@) + "."@,
                p,
            ),
        files.len() > 0 ==> exists|p: int|
            occurs_at(
                summary_text(total, analyzed, types, files, issues, suggestions),
                "Most modified files: "@ + join(file_phrases(first_n(files, 3)), ", "@) + "."@,
                p,
            ),
        issues.len() > 0 ==> exists|p: int|
            occurs_at(
                summary_text(total, analyzed, types, files, issues, suggestions),
                "Recurring issues: "@ + join(quoted_phrases(first_n(issues, 3)), "; "@) + "."@,
                p,
            ),
        suggestions.len() > 0 ==> exists|p: int|
            occurs_at(
                summary_text(total, analyzed, types, files, issues, suggestions),
                "Top improvement suggestions: "@ + join(quoted_phrases(first_n(suggestions, 3)), "; "@)
                    + "."@,
                p,
            ),
        types.len() == 0 && files.len() == 0 && issues.len() == 0 && suggestions.len() == 0
            ==> summary_text(total, analyzed, types, files, issues, suggestions) == "Analyzed "@
            + decimal(analyzed) + " of "@ + decimal(total) + " total reports."@,
{
    let ss = summary_sentences(total, analyzed, types, files, issues, suggestions);
    let text = summary_text(total, analyzed, types, files, issues, suggestions);
    let s0 = seq!["Analyzed "@ + decimal(analyzed) + " of "@ + decimal(total) + " total reports."@];
    let tt = "Task types: "@ + join(type_phrases(types), ", "@) + "."@;
    let tf = "Most modified files: "@ + join(file_phrases(first_n(files, 3)), ", "@) + "."@;
    let ti = "Recurring issues: "@ + join(quoted_phrases(first_n(issues, 3)), "; "@) + "."@;
    let tg = "Top improvement suggestions: "@ + join(quoted_phrases(first_n(suggestions, 3)), "; "@)
        + "."@;
    let st: Seq<Seq<char>> = if types.len() > 0 { seq![tt] } else { Seq::empty() };
    let sf: Seq<Seq<char>> = if files.len() > 0 { seq![tf] } else { Seq::empty() };
    let si: Seq<Seq<char>> = if issues.len() > 0 { seq![ti] } else { Seq::empty() };
    let sg: Seq<Seq<char>> = if suggestions.len() > 0 { seq![tg] } else { Seq::empty() };
    assert(ss == s0 + st + sf + si + sg);
    assert(text == join(ss, " "@));
    let a = st.len() as int;
    let b = a + sf.len();
    let c = b + si.len();
    if types.len() > 0 {
        assert(ss[1] == tt);
        let p = lemma_join_part(ss, " "@, 1);
        assert(occurs_at(text, tt, p));
    }
    if files.len() > 0 {
        assert(ss[1 + a] == tf);
        let p = lemma_join_part(ss, " "@, 1 + a);
        assert(occurs_at(text, tf, p));
    }
    if issues.len() > 0 {
        assert(ss[1 + b] == ti);
        let p = lemma_join_part(ss, " "@, 1 + b);
        assert(occurs_at(text, ti, p));
    }
    if suggestions.len() > 0 {
        assert(ss[1 + c] == tg);
        let p = lemma_join_part(ss, " "@, 1 + c);
        assert(occurs_at(text, tg, p));
    }
    if types.len() == 0 && files.len() == 0 && issues.len() == 0 && suggestions.len() == 0 {
        assert(ss =~= s0);
    }
}

/// `parts` as strings.
fn phrase_list(parts: &Vec<String>, sep: &str) -> (r: String)
    ensures
        r@ == join(string_views(parts@), sep@),
{
    join_strings(parts, sep)
}

fn type_phrase_strings(t: &Vec<(String, u32)>) -> (r: Vec<String>)
    ensures
        string_views(r@) == type_phrases(count_views(t@)),
{
    let mut r: Vec<String> = Vec::new();
    let mut i: usize = 0;
    while i < t.len()
        invariant
            i <= t@.len(),
            string_views(r@) == type_phrases(count_views(t@)).take(i as int),
        decreases t.len() - i,
    {
        let mut s = decimal_string(t[i].1 as u64);
        s.append(" ");
        s.append(t[i].0.as_str());
        s.append("(s)");
        let ghost before = string_views(r@);
        r.push(s);
        assert(string_views(r@) =~= before.push(type_phrases(count_views(t@))[i as int]));
        assert(type_phrases(count_views(t@)).take(i + 1) =~= type_phrases(count_views(t@)).take(
            i as int,
        ).push(type_phrases(count_views(t@))[i as int]));
        i = i + 1;
    }
    assert(type_phrases(count_views(t@)).take(t@.len() as int) =~= type_phrases(count_views(t@)));
    r
}

fn file_phrase_strings(t: &Vec<FileFrequency>, n: usize) -> (r: Vec<String>)
    ensures
        string_views(r@) == file_phrases(first_n(file_counts(t@), n as nat)),
{
    let m = if t.len() > n {
        n
    } else {
        t.len()
    };
    let ghost f = first_n(file_counts(t@), n as nat);
    let mut r: Vec<String> = Vec::new();
    let mut i: usize = 0;
    while i < m
        invariant
            m <= t@.len(),
            f.len() == m,
            f == first_n(file_counts(t@), n as nat),
            i <= m,
            string_views(r@) == file_phrases(f).take(i as int),
        decreases m - i,
    {
        let mut s = t[i].file_path.clone();
        s.append(" (");
        let c = decimal_string(t[i].count as u64);
        s.append(c.as_str());
        s.append("x)");
        let ghost before = string_views(r@);
        assert(f[i as int] == file_counts(t@)[i as int]);
        r.push(s);
        assert(string_views(r@) =~= before.push(file_phrases(f)[i as int]));
        assert(file_phrases(f).take(i + 1) =~= file_phrases(f).take(i as int).push(
            file_phrases(f)[i as int],
        ));
        i = i + 1;
    }
    assert(file_phrases(f).take(m as int) =~= file_phrases(f));
    r
}

fn quoted_phrase_strings(t: &Vec<(String, u32)>, n: usize) -> (r: Vec<String>)
    ensures
        string_views(r@) == quoted_phrases(first_n(count_views(t@), n as nat)),
{
    let m = if t.len() > n {
        n
    } else {
        t.len()
    };
    let ghost f = first_n(count_views(t@), n as nat);
    let mut r: Vec<String> = Vec::new();
    let mut i: usize = 0;
    while i < m
        invariant
            m <= t@.len(),
            f.len() == m,
            f == first_n(count_views(t@), n as nat),
            i <= m,
            string_views(r@) == quoted_phrases(f).take(i as int),
        decreases m - i,
    {
        let mut s = "\"".to_owned();
        s.append(t[i].0.as_str());
        s.append("\" (");
        let c = decimal_string(t[i].1 as u64);
        s.append(c.as_str());
        s.append("x)");
        let ghost before = string_views(r@);
        assert(f[i as int] == count_views(t@)[i as int]);
        r.push(s);
        assert(string_views(r@) =~= before.push(quoted_phrases(f)[i as int]));
        assert(quoted_phrases(f).take(i + 1) =~= quoted_phrases(f).take(i as int).push(
            quoted_phrases(f)[i as int],
        ));
        i = i + 1;
    }
    assert(quoted_phrases(f).take(m as int) =~= quoted_phrases(f));
    r
}

/// The narrative summary of a synthesis.
pub fn generate_summary(
    total: usize,
    analyzed: usize,
    task_types: &Vec<(String, u32)>,
    top_files: &Vec<FileFrequency>,
    top_issues: &Vec<(String, u32)>,
    top_suggestions: &Vec<(String, u32)>,
) -> (s: String)
    ensures
        s@ == summary_text(
            total as nat,
            analyzed as nat,
            count_views(task_types@),
            file_counts(top_files@),
            count_views(top_issues@),
            count_views(top_suggestions@),
        ),
{
    let ghost sentences = summary_sentences(
        total as nat,
        analyzed as nat,
        count_views(task_types@),
        file_counts(top_files@),
        count_views(top_issues@),
        count_views(top_suggestions@),
    );
    let mut parts: Vec<String> = Vec::new();
    let mut first = "Analyzed ".to_owned();
    let a = decimal_string(analyzed as u64);
    first.append(a.as_str());
    first.append(" of ");
    let t = decimal_string(total as u64);
    first.append(t.as_str());
    first.append(" total reports.");
    parts.push(first);
    let ghost types = count_views(task_types@);
    let ghost files = file_counts(top_files@);
    let ghost issues = count_views(top_issues@);
    let ghost sugg = count_views(top_suggestions@);
    let ghost s0 = seq!["Analyzed "@ + decimal(analyzed as nat) + " of "@ + decimal(total as nat) + " total reports."@];
    let ghost s1 = if types.len() > 0 {
        seq!["Task types: "@ + join(type_phrases(types), ", "@) + "."@]
    } else {
        Seq::empty()
    };
    let ghost s2 = if files.len() > 0 {
        seq!["Most modified files: "@ + join(file_phrases(first_n(files, 3)), ", "@) + "."@]
    } else {
        Seq::empty()
    };
    let ghost s3 = if issues.len() > 0 {
        seq!["Recurring issues: "@ + join(quoted_phrases(first_n(issues, 3)), "; "@) + "."@]
    } else {
        Seq::empty()
    };
    let ghost s4 = if sugg.len() > 0 {
        seq!["Top improvement suggestions: "@ + join(quoted_phrases(first_n(sugg, 3)), "; "@) + "."@]
    } else {
        Seq::empty()
    };
    assert(string_views(parts@) =~= s0);
    if task_types.len() > 0 {
        let ps = type_phrase_strings(task_types);
        let mut s = "Task types: ".to_owned();
        let l = phrase_list(&ps, ", ");
        s.append(l.as_str());
        s.append(".");
        let ghost before = string_views(parts@);
        parts.push(s);
        assert(string_views(parts@) =~= before.push(s@));
    }
    assert(string_views(parts@) =~= s0 + s1);
    if top_files.len() > 0 {
        let ps = file_phrase_strings(top_files, 3);
        let mut s = "Most modified files: ".to_owned();
        let l = phrase_list(&ps, ", ");
        s.append(l.as_str());
        s.append(".");
        let ghost before = string_views(parts@);
        parts.push(s);
        assert(string_views(parts@) =~= before.push(s@));
    }
    assert(string_views(parts@) =~= s0 + s1 + s2);
    if top_issues.len() > 0 {
        let ps = quoted_phrase_strings(top_issues, 3);
        let mut s = "Recurring issues: ".to_owned();
        let l = phrase_list(&ps, "; ");
        s.append(l.as_str());
        s.append(".");
        let ghost before = string_views(parts@);
        parts.push(s);
        assert(string_views(parts@) =~= before.push(s@));
    }
    assert(string_views(parts@) =~= s0 + s1 + s2 + s3);
    if top_suggestions.len() > 0 {
        let ps = quoted_phrase_strings(top_suggestions, 3);
        let mut s = "Top improvement suggestions: ".to_owned();
        let l = phrase_list(&ps, "; ");
        s.append(l.as_str());
        s.append(".");
        let ghost before = string_views(parts@);
        parts.push(s);
        assert(string_views(parts@) =~= before.push(s@));
    }
    assert(string_views(parts@) =~= s0 + s1 + s2 + s3 + s4);
    assert(string_views(parts@) =~= sentences);
    join_strings(&parts, " ")
}

/// Every string of the chosen list of every report, in order.
fn gather(reports: &[TaskReport], which: u8) -> (r: Vec<String>)
    ensures
        string_views(r@) == (if which == 0 {
            all_files(reports@)
        } else if which == 1 {
            all_issues(reports@)
        } else if which == 2 {
            all_suggestions(reports@)
        } else {
            all_tools(reports@)
        }),
{
    let ghost lists = if which == 0 {
        reports@.map_values(|r: TaskReport| string_views(r.files_modified@))
    } else if which == 1 {
        reports@.map_values(|r: TaskReport| string_views(r.issues_found@))
    } else if which == 2 {
        reports@.map_values(|r: TaskReport| string_views(r.improvement_suggestions@))
    } else {
        reports@.map_values(|r: TaskReport| string_views(r.tools_used@))
    };
    let mut r: Vec<String> = Vec::new();
    let mut i: usize = 0;
    while i < reports.len()
        invariant
            i <= reports@.len(),
            lists.len() == reports@.len(),
            lists == (if which == 0 {
                reports@.map_values(|r: TaskReport| string_views(r.files_modified@))
            } else if which == 1 {
                reports@.map_values(|r: TaskReport| string_views(r.issues_found@))
            } else if which == 2 {
                reports@.map_values(|r: TaskReport| string_views(r.improvement_suggestions@))
            } else {
                reports@.map_values(|r: TaskReport| string_views(r.tools_used@))
            }),
            string_views(r@) == flatten(lists.take(i as int)),
        decreases reports.len() - i,
    {
        let list: &Vec<String> = if which == 0 {
            &reports[i].files_modified
        } else if which == 1 {
            &reports[i].issues_found
        } else if which == 2 {
            &reports[i].improvement_suggestions
        } else {
            &reports[i].tools_used
        };
        assert(string_views(list@) == lists[i as int]);
        let ghost before = string_views(r@);
        let mut j: usize = 0;
        while j < list.len()
            invariant
                j <= list@.len(),
                string_views(r@) == before + string_views(list@).take(j as int),
            decreases list.len() - j,
        {
            let ghost prev = string_views(r@);
            r.push(list[j].clone());
            assert(string_views(r@) =~= prev.push(list@[j as int]@));
            assert(string_views(list@).take(j + 1) =~= string_views(list@).take(j as int).push(
                list@[j as int]@,
            ));
            assert(string_views(r@) =~= before + string_views(list@).take(j + 1));
            j = j + 1;
        }
        assert(string_views(list@).take(list@.len() as int) =~= string_views(list@));
        assert(lists.take(i + 1).drop_last() =~= lists.take(i as int));
        assert(lists.take(i + 1).last() == lists[i as int]);
        i = i + 1;
    }
    assert(lists.take(reports@.len() as int) =~= lists);
    r
}

/// One text field of every report.
fn field_of_each(reports: &[TaskReport], which: u8) -> (r: Vec<String>)
    ensures
        string_views(r@) == (if which == 0 {
            task_types(reports@)
        } else if which == 1 {
            models(reports@)
        } else {
            timestamps(reports@)
        }),
{
    let ghost target = if which == 0 {
        task_types(reports@)
    } else if which == 1 {
        models(reports@)
    } else {
        timestamps(reports@)
    };
    let mut r: Vec<String> = Vec::new();
    let mut i: usize = 0;
    while i < reports.len()
        invariant
            i <= reports@.len(),
            target.len() == reports@.len(),
            target == (if which == 0 {
                task_types(reports@)
            } else if which == 1 {
                models(reports@)
            } else {
                timestamps(reports@)
            }),
            string_views(r@) == target.take(i as int),
        decreases reports.len() - i,
    {
        let s = if which == 0 {
            reports[i].task_type.clone()
        } else if which == 1 {
            reports[i].model.clone()
        } else {
            reports[i].timestamp.clone()
        };
        let ghost before = string_views(r@);
        r.push(s);
        assert(string_views(r@) =~= before.push(target[i as int]));
        assert(string_views(r@) =~= target.take(i + 1));
        i = i + 1;
    }
    assert(target.take(reports@.len() as int) =~= target);
    r
}

/// The earliest and latest of non-empty `ts`.
fn date_bounds(ts: &Vec<String>) -> (r: (String, String))
    requires
        ts@.len() > 0,
    ensures
        r.0@ == least(string_views(ts@)),
        r.1@ == greatest(string_views(ts@)),
{
    let ghost all = string_views(ts@);
    let mut lo = ts[0].clone();
    let mut hi = ts[0].clone();
    let mut i: usize = 1;
    while i < ts.len()
        invariant
            all == string_views(ts@),
            1 <= i <= ts@.len(),
            lo@ == least(all.take(i as int)),
            hi@ == greatest(all.take(i as int)),
        decreases ts.len() - i,
    {
        assert(all.take(i + 1).drop_last() =~= all.take(i as int));
        assert(all.take(i + 1).last() == ts@[i as int]@);
        if string_less(ts[i].as_str(), lo.as_str()) {
            lo = ts[i].clone();
        }
        if !string_less(ts[i].as_str(), hi.as_str()) {
            hi = ts[i].clone();
        }
        i = i + 1;
    }
    assert(all.take(ts@.len() as int) =~= all);
    (lo, hi)
}

fn to_file_frequencies(v: Vec<(String, u32)>) -> (r: Vec<FileFrequency>)
    ensures
        file_counts(r@) == count_views(v@),
{
    let mut r: Vec<FileFrequency> = Vec::new();
    let mut v = v;
    let ghost all = count_views(v@);
    let mut i: usize = 0;
    let n = v.len();
    while i < n
        invariant
            n == all.len(),
            all == count_views(v@),
            i <= n,
            file_counts(r@) == all.take(i as int),
        decreases n - i,
    {
        let (p, c) = (v[i].0.clone(), v[i].1);
        let ghost before = file_counts(r@);
        r.push(FileFrequency { file_path: p, count: c });
        assert(file_counts(r@) =~= before.push(all[i as int]));
        assert(file_counts(r@) =~= all.take(i + 1));
        i = i + 1;
    }
    assert(all.take(n as int) =~= all);
    r
}

fn to_issue_frequencies(v: &Vec<(String, u32)>) -> (r: Vec<IssueFrequency>)
    ensures
        issue_counts(r@) == count_views(v@),
{
    let mut r: Vec<IssueFrequency> = Vec::new();
    let mut i: usize = 0;
    while i < v.len()
        invariant
            i <= v@.len(),
            issue_counts(r@) == count_views(v@).take(i as int),
        decreases v.len() - i,
    {
        let ghost before = issue_counts(r@);
        r.push(IssueFrequency { issue: v[i].0.clone(), count: v[i].1 });
        assert(issue_counts(r@) =~= before.push(count_views(v@)[i as int]));
        assert(issue_counts(r@) =~= count_views(v@).take(i + 1));
        i = i + 1;
    }
    assert(count_views(v@).take(v@.len() as int) =~= count_views(v@));
    r
}

fn to_suggestion_frequencies(v: &Vec<(String, u32)>) -> (r: Vec<SuggestionFrequency>)
    ensures
        suggestion_counts(r@) == count_views(v@),
{
    let mut r: Vec<SuggestionFrequency> = Vec::new();
    let mut i: usize = 0;
    while i < v.len()
        invariant
            i <= v@.len(),
            suggestion_counts(r@) == count_views(v@).take(i as int),
        decreases v.len() - i,
    {
        let ghost before = suggestion_counts(r@);
        r.push(SuggestionFrequency { suggestion: v[i].0.clone(), count: v[i].1 });
        assert(suggestion_counts(r@) =~= before.push(count_views(v@)[i as int]));
        assert(suggestion_counts(r@) =~= count_views(v@).take(i + 1));
        i = i + 1;
    }
    assert(count_views(v@).take(v@.len() as int) =~= count_views(v@));
    r
}

fn to_tool_usage(v: &Vec<(String, u32)>) -> (r: Vec<ToolUsageEntry>)
    ensures
        tool_counts(r@) == count_views(v@),
{
    let mut r: Vec<ToolUsageEntry> = Vec::new();
    let mut i: usize = 0;
    while i < v.len()
        invariant
            i <= v@.len(),
            tool_counts(r@) == count_views(v@).take(i as int),
        decreases v.len() - i,
    {
        let ghost before = tool_counts(r@);
        r.push(ToolUsageEntry { tool: v[i].0.clone(), count: v[i].1 });
        assert(tool_counts(r@) =~= before.push(count_views(v@)[i as int]));
        assert(tool_counts(r@) =~= count_views(v@).take(i + 1));
        i = i + 1;
    }
    assert(count_views(v@).take(v@.len() as int) =~= count_views(v@));
    r
}

/// Whether every count of a synthesis of `reports` fits in a `u32`.
pub fn synthesis_in_range(reports: &[TaskReport]) -> (b: bool)
    ensures
        b == (reports@.len() <= u32::MAX && all_files(reports@).len() <= u32::MAX && all_issues(
            reports@,
        ).len() <= u32::MAX && all_suggestions(reports@).len() <= u32::MAX && all_tools(
            reports@,
        ).len() <= u32::MAX),
{
    if reports.len() > 0xffff_ffff {
        return false;
    }
    let files = gather(reports, 0);
    let issues = gather(reports, 1);
    let suggestions = gather(reports, 2);
    let tools = gather(reports, 3);
    proof {
        assert(string_views(files@).len() == files@.len());
        assert(string_views(issues@).len() == issues@.len());
        assert(string_views(suggestions@).len() == suggestions@.len());
        assert(string_views(tools@).len() == tools@.len());
    }
    files.len() <= 0xffff_ffff && issues.len() <= 0xffff_ffff && suggestions.len() <= 0xffff_ffff
        && tools.len() <= 0xffff_ffff
}

/// What the reports add up to, out of `total_count` reports in all: the range
/// of their timestamps, how many there are of each task type and each model
/// (in order of first occurrence), the ten most modified files, the twenty most
/// frequent issues and suggestions, all tools by use (most used first, ties in
/// order of first occurrence), and a narrative summary of these.
pub fn synthesize(reports: &[TaskReport], total_count: usize) -> (r: SynthesisResult)
    requires
        reports@.len() <= u32::MAX,
        all_files(reports@).len() <= u32::MAX,
        all_issues(reports@).len() <= u32::MAX,
        all_suggestions(reports@).len() <= u32::MAX,
        all_tools(reports@).len() <= u32::MAX,
    ensures
        r.total_reports == total_count,
        r.reports_analyzed == reports@.len(),
        match r.date_range {
            Some(d) => reports@.len() > 0 && d.from@ == least(timestamps(reports@)) && d.to@
                == greatest(timestamps(reports@)),
            None => reports@.len() == 0,
        },
        count_views(r.task_type_breakdown@) == tally(task_types(reports@)),
        count_views(r.model_breakdown@) == tally(models(reports@)),
        file_counts(r.frequently_modified_files@) == first_n(
            sort_by_count(tally(all_files(reports@))),
            10,
        ),
        issue_counts(r.recurring_issues@) == first_n(sort_by_count(tally(all_issues(reports@))), 20),
        suggestion_counts(r.improvement_suggestions@) == first_n(
            sort_by_count(tally(all_suggestions(reports@))),
            20,
        ),
        tool_counts(r.tools_usage@) == sort_by_count(tally(all_tools(reports@))),
        r.summary@ == summary_text(
            total_count as nat,
            reports@.len() as nat,
            tally(task_types(reports@)),
            first_n(sort_by_count(tally(all_files(reports@))), 10),
            first_n(sort_by_count(tally(all_issues(reports@))), 20),
            first_n(sort_by_count(tally(all_suggestions(reports@))), 20),
        ),
        ("Analyzed "@ + decimal(reports@.len() as nat) + " of "@ + decimal(total_count as nat)
            + " total reports."@).is_prefix_of(r.summary@),
{
    let date_range = if reports.len() == 0 {
        None
    } else {
        let ts = field_of_each(reports, 2);
        assert(string_views(ts@).len() == ts@.len());
        let (from, to) = date_bounds(&ts);
        Some(DateRange { from, to })
    };
    let types = field_of_each(reports, 0);
    assert(string_views(types@).len() == types@.len());
    let task_type_counts = tally_strings(&types);
    let model_list = field_of_each(reports, 1);
    assert(string_views(model_list@).len() == model_list@.len());
    let model_counts = tally_strings(&model_list);

    let files = gather(reports, 0);
    assert(string_views(files@).len() == files@.len());
    let file_tally = sort_counts(tally_strings(&files));
    let top_files = keep_first(file_tally, 10);
    let frequently_modified_files = to_file_frequencies(top_files);

    let issues = gather(reports, 1);
    assert(string_views(issues@).len() == issues@.len());
    let top_issues = keep_first(sort_counts(tally_strings(&issues)), 20);

    let suggestions = gather(reports, 2);
    assert(string_views(suggestions@).len() == suggestions@.len());
    let top_suggestions = keep_first(sort_counts(tally_strings(&suggestions)), 20);

    let tools = gather(reports, 3);
    assert(string_views(tools@).len() == tools@.len());
    let tool_tally = sort_counts(tally_strings(&tools));

    let summary = generate_summary(
        total_count,
        reports.len(),
        &task_type_counts,
        &frequently_modified_files,
        &top_issues,
        &top_suggestions,
    );
    proof {
        lemma_summary_opening(
            total_count as nat,
            reports@.len() as nat,
            tally(task_types(reports@)),
            first_n(sort_by_count(tally(all_files(reports@))), 10),
            first_n(sort_by_count(tally(all_issues(reports@))), 20),
            first_n(sort_by_count(tally(all_suggestions(reports@))), 20),
        );
    }
    let recurring_issues = to_issue_frequencies(&top_issues);
    let improvement_suggestions = to_suggestion_frequencies(&top_suggestions);
    let tools_usage = to_tool_usage(&tool_tally);
    SynthesisResult {
        total_reports: total_count,
        reports_analyzed: reports.len(),
        date_range,
        task_type_breakdown: task_type_counts,
        model_breakdown: model_counts,
        frequently_modified_files,
        recurring_issues,
        improvement_suggestions,
        tools_usage,
        summary,
    }
}

// ---------------------------------------------------------------------------
// Storage
// ---------------------------------------------------------------------------

/// At most the first `n` characters of `s`.
pub open spec fn first_chars(s: Seq<char>, n: nat) -> Seq<char> {
    if s.len() <= n {
        s
    } else {
        s.take(n as int)
    }
}

/// A report id: the compact time of its creation, a dash, and the first six
/// digits of a random number.
pub open spec fn report_id_of(ts: Seq<char>, random: u32) -> Seq<char> {
    ts + "-"@ + first_chars(decimal(random as nat), 6)
}

/// The report id for the compact time `ts` and the random number `random`.
pub fn report_id(ts: &str, random: u32) -> (r: String)
    ensures
        r@ == report_id_of(ts@, random),
{
    let digits = crate::text::decimal_chars(random as u64);
    let n = if digits.len() <= 6 {
        digits.len()
    } else {
        6
    };
    let head = crate::text::copy_range(digits.as_slice(), 0, n);
    assert(head@ =~= first_chars(decimal(random as nat), 6));
    let mut r = ts.to_owned();
    r.append("-");
    let h = crate::text::chars_to_string(head.as_slice());
    r.append(h.as_str());
    r
}

/// `c` is one of `0`..`9`.
pub open spec fn is_digit_char(c: char) -> bool {
    '0' <= c && c <= '9'
}

/// The characters of `s` in `lo..hi` are all digits.
pub open spec fn digits_in(s: Seq<char>, lo: int, hi: int) -> bool {
    forall|i: int| lo <= i < hi ==> #[trigger] is_digit_char(s[i])
}

/// The first `end` characters of `s` are a year as chrono writes it: at
/// least four digits, and before the last four only digits, the first of
/// which may instead be a sign.
pub open spec fn year_lead(s: Seq<char>, end: int) -> bool {
    &&& end >= 4
    &&& digits_in(s, end - 4, end)
    &&& forall|i: int| 0 <= i < end - 4 ==> #[trigger] is_digit_char(s[i]) || (i == 0 && (s[0] == '+'
        || s[0] == '-'))
}

/// The form of a UTC time written as `%Y%m%d-%H%M%S`: the year (at least
/// four digits, signed outside 0..9999), two digits each of month and day, a
/// dash, and two digits each of hour, minute and second.
pub open spec fn compact_utc_form(s: Seq<char>) -> bool {
    let n = s.len() as int;
    &&& n >= 15
    &&& year_lead(s, n - 11)
    &&& digits_in(s, n - 11, n - 7)
    &&& s[n - 7] == '-'
    &&& digits_in(s, n - 6, n)
}

/// The form of a UTC time in RFC 3339 as chrono writes it, with `f`
/// characters of fraction of a second: the year, `-`, month, `-`, day, `T`,
/// hour, `:`, minute, `:`, second, the fraction (a dot and its digits) where
/// there is one, and the offset `+00:00`.
pub open spec fn rfc3339_utc_with(s: Seq<char>, f: int) -> bool {
    let n = s.len() as int;
    let t = n - 6 - f - 8;
    &&& t - 1 >= 10
    &&& s.subrange(n - 6, n) == "+00:00"@
    &&& year_lead(s, t - 7)
    &&& s[t - 7] == '-'
    &&& digits_in(s, t - 6, t - 4)
    &&& s[t - 4] == '-'
    &&& digits_in(s, t - 3, t - 1)
    &&& s[t - 1] == 'T'
    &&& digits_in(s, t, t + 2)
    &&& s[t + 2] == ':'
    &&& digits_in(s, t + 3, t + 5)
    &&& s[t + 5] == ':'
    &&& digits_in(s, t + 6, t + 8)
    &&& (f > 0 ==> s[t + 8] == '.' && digits_in(s, t + 9, t + 8 + f))
}

/// The form of a UTC time in RFC 3339 as chrono writes it: no fraction of a
/// second, or one of three, six or nine digits.
pub open spec fn rfc3339_utc_form(s: Seq<char>) -> bool {
    exists|f: int| (f == 0 || f == 4 || f == 7 || f == 10) && #[trigger] rfc3339_utc_with(s, f)
}

/// The current UTC time as `YYYYMMDD-HHMMSS` (`chrono::Utc::now().format(..)`).
/// Which time it is depends on the clock; every result has the form chrono
/// documents for these specifiers (`compact_utc_form`).
#[verifier::external_body]
fn utc_now_compact() -> (r: String)
    ensures
        compact_utc_form(r@),
{
    chrono::Utc::now().format("%Y%m%d-%H%M%S").to_string()
}

/// The current UTC time in RFC 3339 form (`chrono::Utc::now().to_rfc3339()`).
/// Which time it is depends on the clock; every result has the form that
/// chrono's RFC 3339 writer gives a UTC time (`rfc3339_utc_form`).
#[verifier::external_body]
fn utc_now_rfc3339() -> (r: String)
    ensures
        rfc3339_utc_form(r@),
{
    chrono::Utc::now().to_rfc3339()
}

/// A random number (`rand::random::<u32>()`); nothing is stated of it.
#[verifier::external_body]
fn random_u32() -> (r: u32) {
    rand::random::<u32>()
}

/// A fresh report id, from the current time (`YYYYMMDD-HHMMSS`) and a
/// random number.
pub fn generate_id() -> (r: String)
    ensures
        exists|ts: Seq<char>, x: u32| compact_utc_form(ts) && r@ == report_id_of(ts, x),
{
    let ts = utc_now_compact();
    let x = random_u32();
    report_id(ts.as_str(), x)
}

/// `report` with its id, time and project filled in, all else kept.
pub open spec fn stamped(
    report: TaskReport,
    id: String,
    timestamp: String,
    project_root: String,
    r: TaskReport,
) -> bool {
    r == TaskReport { id, timestamp, project_root, ..report }
}

/// `report` with its id, time and project filled in, as it is saved.
pub fn stamp_report(report: TaskReport, id: String, timestamp: String, project_root: String) -> (r:
    TaskReport)
    ensures
        stamped(report, id, timestamp, project_root, r),
{
    TaskReport { id, timestamp, project_root, ..report }
}

/// `report` made ready for saving: a fresh id, the current time in RFC 3339
/// form, and the project it belongs to; all else kept.
pub fn prepare_report(report: TaskReport, project_root: &str) -> (r: TaskReport)
    ensures
        exists|ts: Seq<char>, x: u32| compact_utc_form(ts) && r.id@ == report_id_of(ts, x),
        rfc3339_utc_form(r.timestamp@),
        r.project_root@ == project_root@,
        stamped(report, r.id, r.timestamp, r.project_root, r),
{
    let id = generate_id();
    let timestamp = utc_now_rfc3339();
    stamp_report(report, id, timestamp, project_root.to_owned())
}

/// The file name a report is saved under: its id with `.json`.
pub fn report_file_name(id: &str) -> (r: String)
    ensures
        r@ == id@ + ".json"@,
{
    let mut r = id.to_owned();
    r.append(".json");
    r
}

/// A file of the reports directory holds a report when its extension is `json`.
pub fn is_report_file(path: &str) -> (b: bool)
    ensures
        b == (crate::paths::extension(path@) == Some("json"@)),
{
    match crate::paths::extension_of(path) {
        Some(e) => crate::text::str_eq(e.as_str(), "json"),
        None => false,
    }
}

/// `sorted` (newest first) with `x` inserted before the first report older
/// than it, so that reports of equal time keep their order.
pub open spec fn insert_newest(sorted: Seq<TaskReport>, x: TaskReport) -> Seq<TaskReport>
    decreases sorted.len(),
{
    if sorted.len() == 0 {
        seq![x]
    } else if str_less(sorted[0].timestamp@, x.timestamp@) {
        seq![x] + sorted
    } else {
        seq![sorted[0]] + insert_newest(sorted.drop_first(), x)
    }
}

/// The reports sorted newest first by timestamp, equal ones in their order.
pub open spec fn newest_first_all(s: Seq<TaskReport>) -> Seq<TaskReport>
    decreases s.len(),
{
    if s.len() == 0 {
        Seq::empty()
    } else {
        insert_newest(newest_first_all(s.drop_last()), s.last())
    }
}

/// The first `n` of `s`, or all of them.
pub open spec fn at_most<T>(s: Seq<T>, n: nat) -> Seq<T> {
    if s.len() <= n {
        s
    } else {
        s.take(n as int)
    }
}

/// Inserting at the first older report is `insert_newest`.
proof fn lemma_insert_newest(sorted: Seq<TaskReport>, x: TaskReport, pos: int)
    requires
        0 <= pos <= sorted.len(),
        forall|i: int| 0 <= i < pos ==> !str_less(#[trigger] sorted[i].timestamp@, x.timestamp@),
        pos < sorted.len() ==> str_less(sorted[pos].timestamp@, x.timestamp@),
    ensures
        insert_newest(sorted, x) == sorted.insert(pos, x),
    decreases sorted.len(),
{
    if sorted.len() == 0 {
        assert(sorted.insert(pos, x) =~= seq![x]);
    } else if pos == 0 {
        assert(sorted.insert(0, x) =~= seq![x] + sorted);
    } else {
        let d = sorted.drop_first();
        assert forall|i: int| 0 <= i < pos - 1 implies !str_less(
            #[trigger] d[i].timestamp@,
            x.timestamp@,
        ) by {
            assert(d[i] == sorted[i + 1]);
        }
        if pos - 1 < d.len() {
            assert(d[pos - 1] == sorted[pos]);
        }
        lemma_insert_newest(d, x, pos - 1);
        assert(!str_less(sorted[0].timestamp@, x.timestamp@));
        assert(seq![sorted[0]] + d.insert(pos - 1, x) =~= sorted.insert(pos, x));
    }
}

/// No text sorts before itself.
pub proof fn lemma_str_less_irreflexive(a: Seq<char>)
    ensures
        !str_less(a, a),
    decreases a.len(),
{
    if a.len() > 0 {
        lemma_str_less_irreflexive(a.drop_first());
    }
}

/// Sorting before is transitive.
pub proof fn lemma_str_less_transitive(a: Seq<char>, b: Seq<char>, c: Seq<char>)
    requires
        str_less(a, b),
        str_less(b, c),
    ensures
        str_less(a, c),
    decreases a.len(),
{
    if a.len() > 0 && b.len() > 0 && c.len() > 0 && a[0] == b[0] && b[0] == c[0] {
        lemma_str_less_transitive(a.drop_first(), b.drop_first(), c.drop_first());
    }
}

/// The reports are newest first: none is older than one after it.
pub open spec fn newest_sorted(s: Seq<TaskReport>) -> bool {
    forall|i: int, j: int|
        0 <= i < j < s.len() ==> !str_less(#[trigger] s[i].timestamp@, #[trigger] s[j].timestamp@)
}

/// Where `insert_newest` puts `x`: before the first report older than it.
pub open spec fn first_older(sorted: Seq<TaskReport>, x: TaskReport) -> int
    decreases sorted.len(),
{
    if sorted.len() == 0 {
        0
    } else if str_less(sorted[0].timestamp@, x.timestamp@) {
        0
    } else {
        1 + first_older(sorted.drop_first(), x)
    }
}

proof fn lemma_first_older(sorted: Seq<TaskReport>, x: TaskReport)
    ensures
        0 <= first_older(sorted, x) <= sorted.len(),
        forall|i: int|
            0 <= i < first_older(sorted, x) ==> !str_less(
                #[trigger] sorted[i].timestamp@,
                x.timestamp@,
            ),
        first_older(sorted, x) < sorted.len() ==> str_less(
            sorted[first_older(sorted, x)].timestamp@,
            x.timestamp@,
        ),
    decreases sorted.len(),
{
    if sorted.len() > 0 && !str_less(sorted[0].timestamp@, x.timestamp@) {
        let d = sorted.drop_first();
        lemma_first_older(d, x);
        assert forall|i: int| 0 <= i < first_older(sorted, x) implies !str_less(
            #[trigger] sorted[i].timestamp@,
            x.timestamp@,
        ) by {
            if i > 0 {
                assert(sorted[i] == d[i - 1]);
                assert(!str_less(d[i - 1].timestamp@, x.timestamp@));
            }
        }
        if first_older(sorted, x) < sorted.len() {
            assert(sorted[first_older(sorted, x)] == d[first_older(d, x)]);
        }
    }
}

/// One pair of positions of `sorted` with `x` inserted at `p` is in order.
proof fn lemma_inserted_pair(sorted: Seq<TaskReport>, x: TaskReport, p: int, a: int, b: int)
    requires
        newest_sorted(sorted),
        0 <= p <= sorted.len(),
        forall|i: int| 0 <= i < p ==> !str_less(#[trigger] sorted[i].timestamp@, x.timestamp@),
        p < sorted.len() ==> str_less(sorted[p].timestamp@, x.timestamp@),
        0 <= a < b < sorted.len() + 1,
    ensures
        !str_less(sorted.insert(p, x)[a].timestamp@, sorted.insert(p, x)[b].timestamp@),
{
    let r = sorted.insert(p, x);
    if b < p {
        assert(r[a] == sorted[a] && r[b] == sorted[b]);
    } else if b == p {
        assert(r[a] == sorted[a] && r[b] == x);
    } else if a < p {
        assert(r[a] == sorted[a] && r[b] == sorted[b - 1]);
    } else if a == p {
        assert(r[a] == x && r[b] == sorted[b - 1]);
        if str_less(x.timestamp@, sorted[b - 1].timestamp@) {
            lemma_str_less_transitive(sorted[p].timestamp@, x.timestamp@, sorted[b - 1].timestamp@);
            if b - 1 == p {
                lemma_str_less_irreflexive(sorted[p].timestamp@);
            } else {
                assert(!str_less(sorted[p].timestamp@, sorted[b - 1].timestamp@));
            }
        }
    } else {
        assert(r[a] == sorted[a - 1] && r[b] == sorted[b - 1]);
    }
}

/// Inserting a report where `insert_newest` does keeps the list newest first
/// and adds exactly that report.
proof fn lemma_insert_newest_sorted(sorted: Seq<TaskReport>, x: TaskReport)
    requires
        newest_sorted(sorted),
    ensures
        newest_sorted(insert_newest(sorted, x)),
        insert_newest(sorted, x).to_multiset() == sorted.to_multiset().insert(x),
{
    broadcast use vstd::seq_lib::group_to_multiset_ensures;

    lemma_first_older(sorted, x);
    let p = first_older(sorted, x);
    lemma_insert_newest(sorted, x, p);
    let r = sorted.insert(p, x);
    assert forall|a: int, b: int| 0 <= a < b < r.len() implies !str_less(
        #[trigger] r[a].timestamp@,
        #[trigger] r[b].timestamp@,
    ) by {
        lemma_inserted_pair(sorted, x, p, a, b);
    }
}

/// Law: reports sorted newest first come newest first, are exactly the
/// reports given, and are cut to the limit.
pub proof fn lemma_newest_first(s: Seq<TaskReport>, limit: nat)
    ensures
        newest_sorted(at_most(newest_first_all(s), limit)),
        newest_first_all(s).to_multiset() == s.to_multiset(),
        newest_first_all(s).len() == s.len(),
        at_most(newest_first_all(s), limit).len() == if s.len() <= limit {
            s.len()
        } else {
            limit
        },
    decreases s.len(),
{
    broadcast use vstd::seq_lib::group_to_multiset_ensures;

    if s.len() > 0 {
        let d = s.drop_last();
        lemma_newest_first(d, d.len());
        assert(at_most(newest_first_all(d), d.len()) == newest_first_all(d));
        lemma_insert_newest_sorted(newest_first_all(d), s.last());
        lemma_first_older(newest_first_all(d), s.last());
        lemma_insert_newest(
            newest_first_all(d),
            s.last(),
            first_older(newest_first_all(d), s.last()),
        );
        assert(d.push(s.last()) =~= s);
        assert(newest_first_all(s).len() == s.len());
    } else {
        assert(newest_first_all(s) =~= Seq::<TaskReport>::empty());
    }
    let all = newest_first_all(s);
    let r = at_most(all, limit);
    assert forall|i: int, j: int| 0 <= i < j < r.len() implies !str_less(
        #[trigger] r[i].timestamp@,
        #[trigger] r[j].timestamp@,
    ) by {
        assert(r[i] == all[i] && r[j] == all[j]);
    }
}

/// The reports newest first by timestamp (equal ones in their order), at
/// most `limit` of them.
pub fn newest_first(reports: Vec<TaskReport>, limit: usize) -> (r: Vec<TaskReport>)
    ensures
        r@ == at_most(newest_first_all(reports@), limit as nat),
{
    let ghost orig = reports@;
    let n = reports.len();
    let mut reports = reports;
    let mut sorted: Vec<TaskReport> = Vec::new();
    let mut k: usize = 0;
    while k < n
        invariant
            k <= n,
            n == orig.len(),
            reports@ == orig.skip(k as int),
            sorted@ == newest_first_all(orig.take(k as int)),
        decreases n - k,
    {
        let x = reports.remove(0);
        assert(x == orig[k as int]);
        let mut pos: usize = 0;
        while pos < sorted.len() && !string_less(sorted[pos].timestamp.as_str(), x.timestamp.as_str())
            invariant
                pos <= sorted@.len(),
                forall|i: int|
                    0 <= i < pos ==> !str_less(#[trigger] sorted@[i].timestamp@, x.timestamp@),
            decreases sorted@.len() - pos,
        {
            pos = pos + 1;
        }
        proof {
            lemma_insert_newest(sorted@, x, pos as int);
            assert(orig.take(k + 1).drop_last() =~= orig.take(k as int));
        }
        sorted.insert(pos, x);
        assert(reports@ =~= orig.skip(k + 1));
        k = k + 1;
    }
    assert(orig.take(n as int) =~= orig);
    if sorted.len() > limit {
        sorted.truncate(limit);
        assert(sorted@ =~= newest_first_all(orig).take(limit as int));
    }
    sorted
}

// ---------------------------------------------------------------------------
// Laws of the rankings
// ---------------------------------------------------------------------------

/// How often `x` occurs in `items`.
pub open spec fn occurrences(items: Seq<Seq<char>>, x: Seq<char>) -> nat
    decreases items.len(),
{
    if items.len() == 0 {
        0
    } else {
        occurrences(items.drop_last(), x) + if items.last() == x {
            1nat
        } else {
            0nat
        }
    }
}

proof fn lemma_key_position_none(t: Seq<(Seq<char>, nat)>, k: Seq<char>, i: int)
    requires
        0 <= i,
        key_position_from(t, k, i) is None,
    ensures
        forall|j: int| i <= j < t.len() ==> #[trigger] t[j].0 != k,
    decreases t.len() - i,
{
    if i < t.len() {
        lemma_key_position_none(t, k, i + 1);
    }
}

/// Law: the tally of `items` lists each distinct item once, with the number
/// of its occurrences, and lists every item that occurs.
pub proof fn lemma_tally(items: Seq<Seq<char>>)
    ensures
        forall|j: int|
            0 <= j < tally(items).len() ==> #[trigger] tally(items)[j].1 == occurrences(
                items,
                tally(items)[j].0,
            ) && tally(items)[j].1 >= 1,
        forall|i: int, j: int|
            0 <= i < j < tally(items).len() ==> #[trigger] tally(items)[i].0 != #[trigger] tally(
                items,
            )[j].0,
        forall|x: Seq<char>|
            occurrences(items, x) > 0 ==> exists|j: int|
                0 <= j < tally(items).len() && #[trigger] tally(items)[j].0 == x,
    decreases items.len(),
{
    if items.len() > 0 {
        let d = items.drop_last();
        let x = items.last();
        let t = tally(d);
        lemma_tally(d);
        lemma_key_position_from(t, x, 0);
        let r = tally(items);
        match key_position(t, x) {
            Some(p) => {
                assert(r == t.update(p, (x, t[p].1 + 1)));
                assert forall|j: int| 0 <= j < r.len() implies #[trigger] r[j].1 == occurrences(
                    items,
                    r[j].0,
                ) && r[j].1 >= 1 by {
                    if j != p {
                        assert(r[j] == t[j]);
                        assert(t[j].0 != t[p].0);
                    }
                }
                assert forall|y: Seq<char>| occurrences(items, y) > 0 implies exists|j: int|
                    0 <= j < r.len() && #[trigger] r[j].0 == y by {
                    if y == x {
                        assert(r[p].0 == y);
                    } else {
                        assert(occurrences(d, y) == occurrences(items, y));
                        let j = choose|j: int| 0 <= j < t.len() && #[trigger] t[j].0 == y;
                        assert(j != p);
                        assert(r[j].0 == y);
                    }
                }
            },
            None => {
                lemma_key_position_none(t, x, 0);
                assert(r == t.push((x, 1)));
                assert forall|j: int| 0 <= j < r.len() implies #[trigger] r[j].1 == occurrences(
                    items,
                    r[j].0,
                ) && r[j].1 >= 1 by {
                    if j < t.len() {
                        assert(r[j] == t[j]);
                        assert(t[j].0 != x);
                    } else {
                        if occurrences(d, x) > 0 {
                            let q = choose|q: int| 0 <= q < t.len() && #[trigger] t[q].0 == x;
                        }
                    }
                }
                assert forall|y: Seq<char>| occurrences(items, y) > 0 implies exists|j: int|
                    0 <= j < r.len() && #[trigger] r[j].0 == y by {
                    if y == x {
                        assert(r[t.len() as int].0 == y);
                    } else {
                        assert(occurrences(d, y) == occurrences(items, y));
                        let j = choose|j: int| 0 <= j < t.len() && #[trigger] t[j].0 == y;
                        assert(r[j].0 == y);
                    }
                }
            },
        }
    }
}

proof fn lemma_first_below_props(s: Seq<(Seq<char>, nat)>, c: nat, i: int)
    requires
        0 <= i <= s.len(),
    ensures
        i <= first_below_from(s, c, i) <= s.len(),
        forall|k: int| i <= k < first_below_from(s, c, i) ==> #[trigger] s[k].1 >= c,
        first_below_from(s, c, i) < s.len() ==> s[first_below_from(s, c, i)].1 < c,
    decreases s.len() - i,
{
    if i < s.len() && s[i].1 >= c {
        lemma_first_below_props(s, c, i + 1);
    }
}

/// The entries of `s` come by descending count.
pub open spec fn count_sorted(s: Seq<(Seq<char>, nat)>) -> bool {
    forall|i: int, j: int| 0 <= i < j < s.len() ==> #[trigger] s[i].1 >= #[trigger] s[j].1
}

/// Law: sorting by count keeps exactly the entries given and puts them by
/// descending count.
pub proof fn lemma_sort_by_count(s: Seq<(Seq<char>, nat)>)
    ensures
        sort_by_count(s).len() == s.len(),
        sort_by_count(s).to_multiset() == s.to_multiset(),
        count_sorted(sort_by_count(s)),
    decreases s.len(),
{
    broadcast use vstd::seq_lib::group_to_multiset_ensures;

    if s.len() == 0 {
        assert(sort_by_count(s) =~= s);
    } else {
        let d = s.drop_last();
        let x = s.last();
        lemma_sort_by_count(d);
        let q = sort_by_count(d);
        lemma_first_below_props(q, x.1, 0);
        let p = first_below_from(q, x.1, 0);
        let r = q.insert(p, x);
        assert(sort_by_count(s) == r);
        assert(d.push(x) =~= s);
        assert forall|i: int, j: int| 0 <= i < j < r.len() implies #[trigger] r[i].1
            >= #[trigger] r[j].1 by {
            if j < p {
                assert(r[i] == q[i] && r[j] == q[j]);
            } else if j == p {
                assert(r[i] == q[i]);
            } else if i < p {
                assert(r[i] == q[i] && r[j] == q[j - 1]);
            } else if i == p {
                assert(r[j] == q[j - 1]);
                assert(q[p].1 < x.1);
                if j - 1 > p {
                    assert(q[p].1 >= q[j - 1].1);
                }
            } else {
                assert(r[i] == q[i - 1] && r[j] == q[j - 1]);
            }
        }
    }
}

/// The first `n` of the tally of `items` by count list distinct items,
/// each with its number of occurrences, by descending count, items of equal
/// count in the order in which the tally has them (that of their first
/// occurrence); as many as there are distinct items, up to `n`; and any item
/// that occurs but is not listed occurs no more often than the last one
/// listed.
pub open spec fn ranked(items: Seq<Seq<char>>, n: nat) -> bool {
    let t = tally(items);
    let r = first_n(sort_by_count(t), n);
    &&& r.len() == (if t.len() <= n {
        t.len()
    } else {
        n
    })
    &&& forall|i: int|
        0 <= i < r.len() ==> #[trigger] r[i].1 == occurrences(items, r[i].0) && r[i].1 >= 1
    &&& forall|i: int, j: int| 0 <= i < j < r.len() ==> #[trigger] r[i].0 != #[trigger] r[j].0
    &&& count_sorted(r)
    &&& ties_in_order(t, r)
    &&& forall|x: Seq<char>|
        occurrences(items, x) > 0 && (forall|i: int| 0 <= i < r.len() ==> #[trigger] r[i].0 != x)
            ==> r.len() == n && (n > 0 ==> occurrences(items, x) <= r[n - 1].1)
}

/// Each distinct item of `items` is counted once, with the number of its
/// occurrences, and every item that occurs is counted.
pub open spec fn counted(items: Seq<Seq<char>>) -> bool {
    let t = tally(items);
    &&& forall|j: int| 0 <= j < t.len() ==> #[trigger] t[j].1 == occurrences(items, t[j].0) && t[j].1 >= 1
    &&& forall|i: int, j: int| 0 <= i < j < t.len() ==> #[trigger] t[i].0 != #[trigger] t[j].0
    &&& forall|x: Seq<char>| occurrences(items, x) > 0 ==> exists|j: int| 0 <= j < t.len() && #[trigger] t[j].0 == x
}

/// Law: the first `n` of a tally by count are ranked (`ranked`).
pub proof fn lemma_ranking(items: Seq<Seq<char>>, n: nat)
    ensures
        ranked(items, n),
{
    broadcast use vstd::seq_lib::group_to_multiset_ensures;

    let t = tally(items);
    lemma_tally(items);
    lemma_sort_by_count(t);
    let q = sort_by_count(t);
    let r = first_n(q, n);
    assert forall|k: int| 0 <= k < q.len() implies exists|j: int| 0 <= j < t.len() && t[j] == #[trigger] q[k] by {
        assert(q.to_multiset().count(q[k]) > 0);
        assert(t.contains(q[k]));
    }
    assert forall|i: int| 0 <= i < r.len() implies #[trigger] r[i].1 == occurrences(items, r[i].0)
        && r[i].1 >= 1 by {
        assert(r[i] == q[i]);
        let j = choose|j: int| 0 <= j < t.len() && t[j] == q[i];
        assert(t[j].1 == occurrences(items, t[j].0));
    }
    assert forall|i: int, j: int| 0 <= i < j < r.len() implies #[trigger] r[i].0 != #[trigger] r[j].0 by {
        assert(r[i] == q[i] && r[j] == q[j]);
        let a = choose|a: int| 0 <= a < t.len() && t[a] == q[i];
        let b = choose|b: int| 0 <= b < t.len() && t[b] == q[j];
        if q[i].0 == q[j].0 {
            if a == b {
                assert(q[i] == q[j]);
                assert(q.to_multiset().count(q[i]) >= 2) by {
                    let s0 = q.take(j);
                    let s1 = q.skip(j);
                    vstd::seq_lib::lemma_multiset_commutative(s0, s1);
                    assert(q =~= s0 + s1);
                    assert(s0[i] == q[i]);
                    assert(s1[0] == q[i]);
                }
                assert(t.to_multiset().count(t[a]) >= 2);
                assert(t.to_multiset().count(t[a]) == 1) by {
                    lemma_distinct_count(t, a);
                }
            } else if a < b {
                assert(t[a].0 != t[b].0);
            } else {
                assert(t[b].0 != t[a].0);
            }
        }
    }
    lemma_sort_by_count_stable(t);
    assert(ties_in_order(t, r)) by {
        assert forall|i: int, j: int| 0 <= i < j < r.len() && (#[trigger] r[i]).1 == (#[trigger] r[j]).1
            implies exists|a: int, b: int| 0 <= a < b < t.len() && t[a] == r[i] && t[b] == r[j] by {
            assert(r[i] == q[i] && r[j] == q[j]);
        }
    }
    assert(count_sorted(r)) by {
        assert forall|i: int, j: int| 0 <= i < j < r.len() implies #[trigger] r[i].1
            >= #[trigger] r[j].1 by {
            assert(r[i] == q[i] && r[j] == q[j]);
        }
    }
    assert forall|x: Seq<char>|
        occurrences(items, x) > 0 && (forall|i: int| 0 <= i < r.len() ==> #[trigger] r[i].0 != x)
            implies r.len() == n && (n > 0 ==> occurrences(items, x) <= r[n - 1].1) by {
        let j = choose|j: int| 0 <= j < t.len() && #[trigger] t[j].0 == x;
        assert(t.to_multiset().count(t[j]) > 0);
        assert(q.contains(t[j]));
        let k = choose|k: int| 0 <= k < q.len() && q[k] == t[j];
        if k < r.len() {
            assert(r[k] == q[k]);
            assert(r[k].0 == x);
        }
        assert(k >= r.len());
        assert(q.len() > n);
        assert(r == q.take(n as int));
        assert(r.len() == n);
        if n > 0 {
            assert(r[n - 1] == q[n - 1]);
            assert(q[n - 1].1 >= q[k].1);
            assert(q[k].1 == t[j].1);
        }
    }
}

/// An entry of a sequence with distinct keys occurs in it once.
proof fn lemma_distinct_count(t: Seq<(Seq<char>, nat)>, a: int)
    requires
        0 <= a < t.len(),
        forall|i: int, j: int| 0 <= i < j < t.len() ==> #[trigger] t[i].0 != #[trigger] t[j].0,
    ensures
        t.to_multiset().count(t[a]) == 1,
    decreases t.len(),
{
    broadcast use vstd::seq_lib::group_to_multiset_ensures;

    let d = t.drop_last();
    assert(d.push(t.last()) =~= t);
    if a == t.len() - 1 {
        assert(!d.contains(t[a])) by {
            if d.contains(t[a]) {
                let i = choose|i: int| 0 <= i < d.len() && d[i] == t[a];
                assert(t[i] == d[i]);
                assert(t[i].0 != t[a].0);
            }
        }
    } else {
        lemma_distinct_count(d, a);
        assert(d[a] == t[a]);
        assert(t.last() != t[a]) by {
            assert(t[a].0 != t[t.len() - 1].0);
        }
    }
}

/// Law of a synthesis of `reports`: the task-type and model breakdowns count
/// every task type and model exactly; the ten most modified files, the twenty
/// most frequent issues and suggestions, and all tools used are ranked by
/// their number of occurrences over all reports (`ranked`).
pub proof fn lemma_synthesis(reports: Seq<TaskReport>)
    ensures
        counted(task_types(reports)),
        counted(models(reports)),
        ranked(all_files(reports), 10),
        ranked(all_issues(reports), 20),
        ranked(all_suggestions(reports), 20),
        ranked(all_tools(reports), tally(all_tools(reports)).len()),
        first_n(sort_by_count(tally(all_tools(reports))), tally(all_tools(reports)).len())
            == sort_by_count(tally(all_tools(reports))),
{
    lemma_tally(task_types(reports));
    lemma_tally(models(reports));
    lemma_ranking(all_files(reports), 10);
    lemma_ranking(all_issues(reports), 20);
    lemma_ranking(all_suggestions(reports), 20);
    lemma_ranking(all_tools(reports), tally(all_tools(reports)).len());
    lemma_sort_by_count(tally(all_tools(reports)));
}

/// Law: the reports that `newest_first` leaves out beyond the limit are none
/// of them newer than any report it keeps.
pub proof fn lemma_newest_first_keeps_newest(s: Seq<TaskReport>, limit: nat)
    ensures
        forall|i: int, j: int|
            0 <= i < at_most(newest_first_all(s), limit).len() <= j < newest_first_all(s).len()
                ==> !str_less(
                #[trigger] newest_first_all(s)[i].timestamp@,
                #[trigger] newest_first_all(s)[j].timestamp@,
            ),
{
    lemma_newest_first(s, s.len());
    assert(at_most(newest_first_all(s), s.len()) == newest_first_all(s));
}

/// Entries of `q` with equal counts come in the order in which `s` has them.
pub open spec fn ties_in_order(s: Seq<(Seq<char>, nat)>, q: Seq<(Seq<char>, nat)>) -> bool {
    forall|i: int, j: int|
        0 <= i < j < q.len() && (#[trigger] q[i]).1 == (#[trigger] q[j]).1 ==> exists|a: int, b: int|
            0 <= a < b < s.len() && s[a] == q[i] && s[b] == q[j]
}

/// Law: sorting by count keeps entries of equal count in their order.
pub proof fn lemma_sort_by_count_stable(s: Seq<(Seq<char>, nat)>)
    ensures
        ties_in_order(s, sort_by_count(s)),
    decreases s.len(),
{
    broadcast use vstd::seq_lib::group_to_multiset_ensures;

    if s.len() > 0 {
        let d = s.drop_last();
        let x = s.last();
        lemma_sort_by_count_stable(d);
        lemma_sort_by_count(d);
        let q = sort_by_count(d);
        lemma_first_below_props(q, x.1, 0);
        let p = first_below_from(q, x.1, 0);
        let r = q.insert(p, x);
        assert(sort_by_count(s) == r);
        assert forall|i: int, j: int| 0 <= i < j < r.len() && (#[trigger] r[i]).1 == (#[trigger] r[j]).1
            implies exists|a: int, b: int| 0 <= a < b < s.len() && s[a] == r[i] && s[b] == r[j] by {
            if j < p {
                assert(r[i] == q[i] && r[j] == q[j]);
                let (a, b) = choose|a: int, b: int| 0 <= a < b < d.len() && d[a] == q[i] && d[b] == q[j];
                assert(s[a] == d[a] && s[b] == d[b]);
            } else if j == p {
                assert(r[i] == q[i]);
                assert(q.to_multiset().count(q[i]) > 0);
                assert(d.contains(q[i]));
                let a = choose|a: int| 0 <= a < d.len() && d[a] == q[i];
                assert(s[a] == d[a]);
                assert(s[s.len() - 1] == r[j]);
            } else if i < p {
                assert(r[i] == q[i] && r[j] == q[j - 1]);
                let (a, b) = choose|a: int, b: int| 0 <= a < b < d.len() && d[a] == q[i] && d[b] == q[j - 1];
                assert(s[a] == d[a] && s[b] == d[b]);
            } else if i == p {
                assert(r[j] == q[j - 1]);
                assert(q[p].1 < x.1);
                assert(q[p].1 >= q[j - 1].1);
                assert(false);
            } else {
                assert(r[i] == q[i - 1] && r[j] == q[j - 1]);
                let (a, b) = choose|a: int, b: int|
                    0 <= a < b < d.len() && d[a] == q[i - 1] && d[b] == q[j - 1];
                assert(s[a] == d[a] && s[b] == d[b]);
            }
        }
    }
}

proof fn lemma_str_less_total(a: Seq<char>, b: Seq<char>)
    ensures
        a != b ==> str_less(a, b) || str_less(b, a),
    decreases a.len(),
{
    if a.len() > 0 && b.len() > 0 && a[0] == b[0] {
        lemma_str_less_total(a.drop_first(), b.drop_first());
        if a.drop_first() == b.drop_first() {
            assert(a =~= seq![a[0]] + a.drop_first());
            assert(b =~= seq![b[0]] + b.drop_first());
        }
    } else if a.len() > 0 && b.len() > 0 {
        vstd::utf8::char_u32_cast(a[0], a[0] as u32);
        vstd::utf8::char_u32_cast(b[0], b[0] as u32);
    } else if a.len() == 0 && b.len() == 0 {
        assert(a =~= b);
    }
}

proof fn lemma_greatest_least_sorted(s: Seq<Seq<char>>)
    requires
        s.len() > 0,
        forall|i: int, j: int| 0 <= i < j < s.len() ==> !str_less(#[trigger] s[i], #[trigger] s[j]),
    ensures
        greatest(s) == s[0],
        least(s) == s[s.len() - 1],
    decreases s.len(),
{
    if s.len() > 1 {
        let d = s.drop_last();
        assert forall|i: int, j: int| 0 <= i < j < d.len() implies !str_less(#[trigger] d[i], #[trigger] d[j]) by {
            assert(d[i] == s[i] && d[j] == s[j]);
        }
        lemma_greatest_least_sorted(d);
        let last = s[s.len() - 1];
        assert(!str_less(s[0], last));
        lemma_str_less_total(s[0], last);
        assert(!str_less(s[s.len() - 2], last));
        lemma_str_less_total(s[s.len() - 2], last);
        assert(d[0] == s[0]);
        assert(d[d.len() - 1] == s[s.len() - 2]);
    }
}

/// Law: the date range of a synthesis of the reports kept newest first runs
/// from the timestamp of the last (oldest) report kept to that of the first
/// (newest).
pub proof fn lemma_date_range_of_newest_first(s: Seq<TaskReport>, limit: nat)
    ensures
        ({
            let r = at_most(newest_first_all(s), limit);
            r.len() > 0 ==> greatest(timestamps(r)) == r[0].timestamp@ && least(timestamps(r))
                == r[r.len() - 1].timestamp@
        }),
{
    lemma_newest_first(s, limit);
    let r = at_most(newest_first_all(s), limit);
    if r.len() > 0 {
        let t = timestamps(r);
        assert forall|i: int, j: int| 0 <= i < j < t.len() implies !str_less(#[trigger] t[i], #[trigger] t[j]) by {
            assert(t[i] == r[i].timestamp@ && t[j] == r[j].timestamp@);
        }
        lemma_greatest_least_sorted(t);
    }
}

} // verus!
