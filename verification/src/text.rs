//! Verified text utilities over `str`, `String` and character sequences.
//!
//! Every operation here is stated over `Seq<char>` by an open spec function
//! and implemented over `&[char]` / `Vec<char>`, so that the rest of the
//! library can state its contracts in terms of these definitions.

use vstd::prelude::*;
use vstd::string::StringSliceAdditionalSpecFns;

verus! {

broadcast use vstd::utf8::encode_utf8_decode_utf8;

// ---------------------------------------------------------------------------
// Specifications
// ---------------------------------------------------------------------------

/// Unicode `White_Space` (what `char::is_whitespace` tests).
pub open spec fn is_ws(c: char) -> bool {
    let u = c as u32;
    ||| 0x09 <= u <= 0x0D
    ||| u == 0x20
    ||| u == 0x85
    ||| u == 0xA0
    ||| u == 0x1680
    ||| 0x2000 <= u <= 0x200A
    ||| u == 0x2028
    ||| u == 0x2029
    ||| u == 0x202F
    ||| u == 0x205F
    ||| u == 0x3000
}

/// `s` without its leading characters that belong to `set`.
pub open spec fn skip_set(s: Seq<char>, set: Seq<char>) -> Seq<char>
    decreases s.len(),
{
    if s.len() > 0 && set.contains(s[0]) {
        skip_set(s.drop_first(), set)
    } else {
        s
    }
}

/// `s` without its trailing characters that belong to `set`.
pub open spec fn rskip_set(s: Seq<char>, set: Seq<char>) -> Seq<char>
    decreases s.len(),
{
    if s.len() > 0 && set.contains(s.last()) {
        rskip_set(s.drop_last(), set)
    } else {
        s
    }
}

/// `s` without leading whitespace (`str::trim_start`).
pub open spec fn trim_start(s: Seq<char>) -> Seq<char>
    decreases s.len(),
{
    if s.len() > 0 && is_ws(s[0]) {
        trim_start(s.drop_first())
    } else {
        s
    }
}

/// `s` without trailing whitespace (`str::trim_end`).
pub open spec fn trim_end(s: Seq<char>) -> Seq<char>
    decreases s.len(),
{
    if s.len() > 0 && is_ws(s.last()) {
        trim_end(s.drop_last())
    } else {
        s
    }
}

/// `s` without leading and trailing whitespace (`str::trim`).
pub open spec fn trim(s: Seq<char>) -> Seq<char> {
    trim_end(trim_start(s))
}

/// `s` trimmed of characters of `set` on both sides (`str::trim_matches`).
pub open spec fn trim_set(s: Seq<char>, set: Seq<char>) -> Seq<char> {
    rskip_set(skip_set(s, set), set)
}

/// `s` with every leading copy of `p` removed (`str::trim_start_matches`).
pub open spec fn strip_prefixes(s: Seq<char>, p: Seq<char>) -> Seq<char>
    decreases s.len(),
{
    if p.len() > 0 && p.is_prefix_of(s) {
        strip_prefixes(s.skip(p.len() as int), p)
    } else {
        s
    }
}

/// `s` with every trailing copy of `p` removed (`str::trim_end_matches`).
pub open spec fn strip_suffixes(s: Seq<char>, p: Seq<char>) -> Seq<char>
    decreases s.len(),
{
    if p.len() > 0 && p.is_suffix_of(s) {
        strip_suffixes(s.take(s.len() - p.len()), p)
    } else {
        s
    }
}

/// `p` occurs in `s` at position `i`.
pub open spec fn occurs_at(s: Seq<char>, p: Seq<char>, i: int) -> bool {
    0 <= i && i + p.len() <= s.len() && s.subrange(i, i + p.len()) == p
}

/// The first position at or after `i` where `p` occurs in `s`.
pub open spec fn find_from(s: Seq<char>, p: Seq<char>, i: int) -> Option<int>
    decreases s.len() - i,
{
    if i < 0 || i + p.len() > s.len() {
        None
    } else if occurs_at(s, p, i) {
        Some(i)
    } else if i >= s.len() {
        None
    } else {
        find_from(s, p, i + 1)
    }
}

/// The first position where `p` occurs in `s` (`str::find`, in characters).
pub open spec fn find(s: Seq<char>, p: Seq<char>) -> Option<int> {
    find_from(s, p, 0)
}

/// `p` occurs somewhere in `s` (`str::contains`).
pub open spec fn contains(s: Seq<char>, p: Seq<char>) -> bool {
    find(s, p) is Some
}

/// The pieces of `s` between the non-overlapping occurrences of `sep`,
/// from left to right (`str::split`).
pub open spec fn split(s: Seq<char>, sep: Seq<char>) -> Seq<Seq<char>>
    decreases s.len(),
{
    if sep.len() == 0 {
        seq![s]
    } else {
        match find(s, sep) {
            None => seq![s],
            Some(i) => {
                proof {
                    lemma_find_bounds(s, sep);
                }
                seq![s.take(i)] + split(s.skip(i + sep.len()), sep)
            },
        }
    }
}

/// The part of `s` before the first `sep` (`split(sep).next()`).
pub open spec fn before_first(s: Seq<char>, sep: Seq<char>) -> Seq<char> {
    match find(s, sep) {
        None => s,
        Some(i) => s.take(i),
    }
}

/// The part of `s` after the last `sep` (`split(sep).last()`).
pub open spec fn after_last(s: Seq<char>, sep: Seq<char>) -> Seq<char>
    decreases s.len(),
{
    if sep.len() == 0 {
        s
    } else {
        match find(s, sep) {
            None => s,
            Some(i) => {
                proof {
                    lemma_find_bounds(s, sep);
                }
                after_last(s.skip(i + sep.len()), sep)
            },
        }
    }
}

/// The number of non-overlapping occurrences of `p` in `s` (`str::matches(p).count()`).
pub open spec fn count_matches(s: Seq<char>, p: Seq<char>) -> nat
    decreases s.len(),
{
    if p.len() == 0 {
        0
    } else {
        match find(s, p) {
            None => 0,
            Some(i) => {
                proof {
                    lemma_find_bounds(s, p);
                }
                1 + count_matches(s.skip(i + p.len()), p)
            },
        }
    }
}

/// `parts` joined with `sep` between consecutive parts (`[..].join(sep)`).
pub open spec fn join(parts: Seq<Seq<char>>, sep: Seq<char>) -> Seq<char>
    decreases parts.len(),
{
    if parts.len() == 0 {
        Seq::empty()
    } else if parts.len() == 1 {
        parts[0]
    } else {
        join(parts.drop_last(), sep) + sep + parts.last()
    }
}

/// `line` without one trailing carriage return.
pub open spec fn strip_cr(line: Seq<char>) -> Seq<char> {
    if line.len() > 0 && line.last() == '\r' {
        line.drop_last()
    } else {
        line
    }
}

/// The lines of `s` (`str::lines`): split at `\n`, a `\r` right before the
/// `\n` dropped, and no empty last line after a final line ending.
pub open spec fn lines(s: Seq<char>) -> Seq<Seq<char>>
    decreases s.len(),
{
    if s.len() == 0 {
        Seq::empty()
    } else {
        match find(s, seq!['\n']) {
            None => seq![s],
            Some(i) => {
                proof {
                    lemma_find_bounds(s, seq!['\n']);
                }
                seq![strip_cr(s.take(i))] + lines(s.skip(i + 1))
            },
        }
    }
}

/// The whitespace-separated words of `s` (`str::split_whitespace`).
pub open spec fn words(s: Seq<char>) -> Seq<Seq<char>>
    decreases s.len(),
{
    if s.len() == 0 {
        Seq::empty()
    } else {
        let rest = words(s.drop_last());
        let c = s.last();
        if is_ws(c) {
            rest
        } else if s.len() >= 2 && !is_ws(s[s.len() - 2]) {
            rest.drop_last().push(rest.last().push(c))
        } else {
            rest.push(seq![c])
        }
    }
}

/// The decimal digit for `d < 10`.
pub open spec fn digit(d: nat) -> char {
    ((d + 48) as u32) as char
}

/// The decimal representation of `n`.
pub open spec fn decimal(n: nat) -> Seq<char>
    decreases n,
{
    if n < 10 {
        seq![digit(n)]
    } else {
        decimal(n / 10).push(digit(n % 10))
    }
}

/// The decimal representation of a signed integer.
pub open spec fn signed_decimal(n: int) -> Seq<char> {
    if n < 0 {
        seq!['-'] + decimal((-n) as nat)
    } else {
        decimal(n as nat)
    }
}

/// `s` padded on the left with spaces to at least `width` characters (`{:>width}`).
pub open spec fn pad_left(s: Seq<char>, width: nat) -> Seq<char> {
    if s.len() >= width {
        s
    } else {
        Seq::new((width - s.len()) as nat, |i: int| ' ') + s
    }
}

// ---------------------------------------------------------------------------
// Lemmas
// ---------------------------------------------------------------------------

pub proof fn lemma_find_from_bounds(s: Seq<char>, p: Seq<char>, i: int)
    requires
        0 <= i,
    ensures
        find_from(s, p, i) matches Some(k) ==> i <= k && k + p.len() <= s.len() && occurs_at(
            s,
            p,
            k,
        ),
        find_from(s, p, i) matches Some(k) ==> forall|j: int| i <= j < k ==> !occurs_at(s, p, j),
        find_from(s, p, i) is None ==> forall|j: int| i <= j ==> !occurs_at(s, p, j),
    decreases s.len() - i,
{
    if i + p.len() > s.len() {
    } else if occurs_at(s, p, i) {
    } else if i >= s.len() {
        assert(s.subrange(i, i + p.len()) =~= p);
    } else {
        lemma_find_from_bounds(s, p, i + 1);
    }
}

pub proof fn lemma_find_bounds(s: Seq<char>, p: Seq<char>)
    ensures
        find(s, p) matches Some(k) ==> 0 <= k && k + p.len() <= s.len() && occurs_at(s, p, k),
        find(s, p) matches Some(k) ==> forall|j: int| 0 <= j < k ==> !occurs_at(s, p, j),
        find(s, p) is None ==> forall|j: int| 0 <= j ==> !occurs_at(s, p, j),
{
    lemma_find_from_bounds(s, p, 0);
}

/// Joining begins with the first part.
pub proof fn lemma_join_first(parts: Seq<Seq<char>>, sep: Seq<char>)
    requires
        parts.len() >= 1,
    ensures
        parts[0].is_prefix_of(join(parts, sep)),
    decreases parts.len(),
{
    if parts.len() > 1 {
        let d = parts.drop_last();
        lemma_join_first(d, sep);
        let j = join(d, sep);
        assert((j + sep + parts.last()).subrange(0, parts[0].len() as int) =~= j.subrange(
            0,
            parts[0].len() as int,
        ));
    }
}

/// Joining ends with the last part.
pub proof fn lemma_join_last(parts: Seq<Seq<char>>, sep: Seq<char>)
    requires
        parts.len() >= 1,
    ensures
        parts.last().is_suffix_of(join(parts, sep)),
{
    if parts.len() > 1 {
        let j = join(parts.drop_last(), sep) + sep;
        let w = j + parts.last();
        assert(w.subrange(j.len() as int, w.len() as int) =~= parts.last());
    } else {
        assert(parts[0].subrange(0, parts[0].len() as int) =~= parts[0]);
    }
}

/// Every part occurs in the joined text; the result is one of its positions.
pub proof fn lemma_join_part(parts: Seq<Seq<char>>, sep: Seq<char>, i: int) -> (p: int)
    requires
        0 <= i < parts.len(),
    ensures
        occurs_at(join(parts, sep), parts[i], p),
    decreases parts.len(),
{
    if parts.len() == 1 {
        assert(parts[0].subrange(0, parts[0].len() as int) =~= parts[0]);
        0
    } else if i == parts.len() - 1 {
        let j = join(parts.drop_last(), sep) + sep;
        let w = j + parts.last();
        assert(w.subrange(j.len() as int, w.len() as int) =~= parts.last());
        j.len() as int
    } else {
        let d = parts.drop_last();
        let p = lemma_join_part(d, sep, i);
        let j = join(d, sep);
        assert((j + sep + parts.last()).subrange(p, p + parts[i].len()) =~= j.subrange(
            p,
            p + parts[i].len(),
        ));
        p
    }
}


pub proof fn lemma_find_from_skip(s: Seq<char>, p: Seq<char>, pos: int, j: int)
    requires
        0 <= pos <= s.len(),
        0 <= j,
    ensures
        find_from(s.skip(pos), p, j) == (match find_from(s, p, pos + j) {
            Some(k) => Some(k - pos),
            None => None,
        }),
    decreases s.len() - pos - j,
{
    let t = s.skip(pos);
    if j + p.len() > t.len() {
    } else {
        assert(t.subrange(j, j + p.len()) =~= s.subrange(pos + j, pos + j + p.len()));
        if occurs_at(t, p, j) {
        } else if j >= t.len() {
        } else {
            lemma_find_from_skip(s, p, pos, j + 1);
        }
    }
}


/// A single character occurs at `i` exactly when the character there is it.
pub proof fn lemma_occurs_char(s: Seq<char>, c: char, i: int)
    ensures
        occurs_at(s, seq![c], i) <==> (0 <= i < s.len() && s[i] == c),
{
    if 0 <= i < s.len() && s[i] == c {
        assert(s.subrange(i, i + 1) =~= seq![c]);
    }
    if occurs_at(s, seq![c], i) {
        assert(s.subrange(i, i + 1)[0] == s[i]);
    }
}

/// A line feed occurs at `i` exactly when the character there is one.
proof fn lemma_occurs_nl(s: Seq<char>, i: int)
    ensures
        occurs_at(s, seq!['\n'], i) <==> (0 <= i < s.len() && s[i] == '\n'),
{
    lemma_occurs_char(s, '\n', i);
}

/// A non-empty text has at least one line.
pub proof fn lemma_lines_nonempty(s: Seq<char>)
    requires
        s.len() > 0,
    ensures
        lines(s).len() >= 1,
{
}

/// A prefix of a text has no more lines than the text.
pub proof fn lemma_lines_prefix_len(p: Seq<char>, q: Seq<char>)
    ensures
        lines(p).len() <= lines(p + q).len(),
    decreases p.len(),
{
    let nl = seq!['\n'];
    if p.len() > 0 {
        lemma_find_bounds(p, nl);
        lemma_find_bounds(p + q, nl);
        lemma_lines_nonempty(p + q);
        match find(p, nl) {
            None => {},
            Some(i) => {
                lemma_occurs_nl(p, i);
                lemma_occurs_nl(p + q, i);
                assert(occurs_at(p + q, nl, i));
                assert forall|j: int| 0 <= j < i implies !occurs_at(p + q, nl, j) by {
                    lemma_occurs_nl(p, j);
                    lemma_occurs_nl(p + q, j);
                }
                match find(p + q, nl) {
                    None => {},
                    Some(k) => {
                        assert(k == i);
                    },
                }
                assert((p + q).skip(i + 1) =~= p.skip(i + 1) + q);
                lemma_lines_prefix_len(p.skip(i + 1), q);
            },
        }
    }
}

// ---------------------------------------------------------------------------
// Executable operations
// ---------------------------------------------------------------------------

/// Appends `c` to `s` (std `String::push`).
#[verifier::external_body]
pub fn push_char(s: &mut String, c: char)
    ensures
        final(s)@ == old(s)@.push(c),
{
    s.push(c);
}

/// The characters of `s`, in order.
pub fn to_chars(s: &str) -> (v: Vec<char>)
    ensures
        v@ == s@,
{
    let mut v: Vec<char> = Vec::new();
    for c in it: s.chars()
        invariant
            v@ == it.seq().take(it.index() as int),
    {
        v.push(c);
    }
    v
}

/// Equality of two string slices by their characters.
pub fn str_eq(a: &str, b: &str) -> (r: bool)
    ensures
        r == (a@ == b@),
{
    let x = a.as_bytes();
    let y = b.as_bytes();
    if x.len() != y.len() {
        return false;
    }
    let mut i: usize = 0;
    while i < x.len()
        invariant
            x@ == a.spec_bytes(),
            y@ == b.spec_bytes(),
            x.len() == y.len(),
            i <= x.len(),
            forall|k: int| 0 <= k < i ==> x@[k] == y@[k],
        decreases x.len() - i,
    {
        if x[i] != y[i] {
            return false;
        }
        i = i + 1;
    }
    assert(x@ =~= y@);
    assert(vstd::utf8::decode_utf8(x@) == a@);
    true
}

/// Lower-cased text (std `str::to_lowercase`), named by its result.
pub uninterp spec fn lowercase(s: Seq<char>) -> Seq<char>;

/// `c` in lower case where it is an ASCII capital letter; `c` otherwise.
pub open spec fn ascii_lower(c: char) -> char {
    if 'A' <= c && c <= 'Z' {
        ((c as u32) + 32) as char
    } else {
        c
    }
}

/// Every character of `s` is ASCII.
pub open spec fn all_ascii(s: Seq<char>) -> bool {
    forall|i: int| 0 <= i < s.len() ==> (#[trigger] s[i] as u32) < 128
}

/// `str::to_lowercase`: the result is determined by the characters of `s`
/// alone.  On ASCII text it lowers the capital letters `A`..`Z` and keeps every
/// other character, as std documents; the Unicode case tables it applies to
/// other characters are not restated here.
#[verifier::external_body]
pub fn to_lowercase(s: &str) -> (r: String)
    ensures
        r@ == lowercase(s@),
        all_ascii(s@) ==> r@ == s@.map_values(|c: char| ascii_lower(c)),
{
    s.to_lowercase()
}

/// `char::is_whitespace`.
pub fn is_whitespace(c: char) -> (b: bool)
    ensures
        b == is_ws(c),
{
    let u = c as u32;
    (0x09 <= u && u <= 0x0D) || u == 0x20 || u == 0x85 || u == 0xA0 || u == 0x1680 || (0x2000
        <= u && u <= 0x200A) || u == 0x2028 || u == 0x2029 || u == 0x202F || u == 0x205F || u
        == 0x3000
}

/// A `String` holding exactly the characters `v`.
pub fn chars_to_string(v: &[char]) -> (s: String)
    ensures
        s@ == v@,
{
    let mut s = String::new();
    let mut i: usize = 0;
    while i < v.len()
        invariant
            i <= v.len(),
            s@ == v@.take(i as int),
        decreases v.len() - i,
    {
        push_char(&mut s, v[i]);
        assert(v@.take(i as int).push(v@[i as int]) =~= v@.take(i + 1));
        i = i + 1;
    }
    assert(v@.take(v.len() as int) =~= v@);
    s
}

/// The characters of a `String`.
pub fn string_chars(s: &String) -> (v: Vec<char>)
    ensures
        v@ == s@,
{
    to_chars(s.as_str())
}

/// A copy of `s[i..j]`.
pub fn copy_range(s: &[char], i: usize, j: usize) -> (r: Vec<char>)
    requires
        i <= j <= s.len(),
    ensures
        r@ == s@.subrange(i as int, j as int),
{
    let mut r: Vec<char> = Vec::new();
    let mut k = i;
    while k < j
        invariant
            i <= k <= j <= s.len(),
            r@ == s@.subrange(i as int, k as int),
        decreases j - k,
    {
        r.push(s[k]);
        assert(s@.subrange(i as int, k as int).push(s@[k as int]) =~= s@.subrange(
            i as int,
            k + 1,
        ));
        k = k + 1;
    }
    r
}

/// `a` followed by `b`.
pub fn concat(a: &[char], b: &[char]) -> (r: Vec<char>)
    ensures
        r@ == a@ + b@,
{
    let mut r = copy_range(a, 0, a.len());
    let mut k: usize = 0;
    assert(a@.subrange(0, a.len() as int) =~= a@);
    while k < b.len()
        invariant
            k <= b.len(),
            r@ == a@ + b@.take(k as int),
        decreases b.len() - k,
    {
        r.push(b[k]);
        assert(a@ + b@.take(k as int) + seq![b@[k as int]] =~= a@ + b@.take(k + 1));
        k = k + 1;
    }
    assert(b@.take(b.len() as int) =~= b@);
    r
}

/// Appends the characters `b` to `r`.
pub fn extend(r: &mut Vec<char>, b: &[char])
    ensures
        final(r)@ == old(r)@ + b@,
{
    let mut k: usize = 0;
    while k < b.len()
        invariant
            k <= b.len(),
            r@ == old(r)@ + b@.take(k as int),
        decreases b.len() - k,
    {
        r.push(b[k]);
        assert(old(r)@ + b@.take(k as int) + seq![b@[k as int]] =~= old(r)@ + b@.take(k + 1));
        k = k + 1;
    }
    assert(b@.take(b.len() as int) =~= b@);
}

/// Character-sequence equality.
pub fn chars_eq(a: &[char], b: &[char]) -> (r: bool)
    ensures
        r == (a@ == b@),
{
    if a.len() != b.len() {
        return false;
    }
    let mut i: usize = 0;
    while i < a.len()
        invariant
            a.len() == b.len(),
            i <= a.len(),
            forall|k: int| 0 <= k < i ==> a@[k] == b@[k],
        decreases a.len() - i,
    {
        if a[i] != b[i] {
            return false;
        }
        i = i + 1;
    }
    assert(a@ =~= b@);
    true
}

/// `p` occurs in `s` at position `i`.
pub fn matches_at(s: &[char], p: &[char], i: usize) -> (b: bool)
    ensures
        b == occurs_at(s@, p@, i as int),
{
    if i > s.len() || p.len() > s.len() - i {
        return false;
    }
    let mut k: usize = 0;
    while k < p.len()
        invariant
            i + p.len() <= s.len(),
            k <= p.len(),
            forall|m: int| 0 <= m < k ==> s@[i + m] == p@[m],
        decreases p.len() - k,
    {
        if s[i + k] != p[k] {
            assert(s@.subrange(i as int, i + p.len())[k as int] != p@[k as int]);
            return false;
        }
        k = k + 1;
    }
    assert(s@.subrange(i as int, i + p.len()) =~= p@);
    true
}

/// `s` starts with `p`.
pub fn starts_with(s: &[char], p: &[char]) -> (b: bool)
    ensures
        b == p@.is_prefix_of(s@),
{
    let r = matches_at(s, p, 0);
    proof {
        if p@.len() <= s@.len() {
            assert(s@.subrange(0, p@.len() as int) =~= s@.take(p@.len() as int));
        }
    }
    r
}

/// `s` ends with `p`.
pub fn ends_with(s: &[char], p: &[char]) -> (b: bool)
    ensures
        b == p@.is_suffix_of(s@),
{
    if p.len() > s.len() {
        return false;
    }
    matches_at(s, p, s.len() - p.len())
}

/// The first position at or after `start` where `p` occurs in `s`.
pub fn find_at(s: &[char], p: &[char], start: usize) -> (r: Option<usize>)
    ensures
        match r {
            Some(k) => find_from(s@, p@, start as int) == Some(k as int),
            None => find_from(s@, p@, start as int) is None,
        },
{
    let mut i = start;
    while i <= s.len() && p.len() <= s.len() - i
        invariant
            start <= i,
            find_from(s@, p@, start as int) == find_from(s@, p@, i as int),
        decreases s.len() + 1 - i,
    {
        if matches_at(s, p, i) {
            return Some(i);
        }
        if i >= s.len() {
            return None;
        }
        i = i + 1;
    }
    None
}

/// The first position where `p` occurs in `s`.
pub fn find_first(s: &[char], p: &[char]) -> (r: Option<usize>)
    ensures
        match r {
            Some(k) => find(s@, p@) == Some(k as int),
            None => find(s@, p@) is None,
        },
{
    find_at(s, p, 0)
}

/// `p` occurs in `s`.
pub fn contains_chars(s: &[char], p: &[char]) -> (b: bool)
    ensures
        b == contains(s@, p@),
{
    find_first(s, p).is_some()
}

/// `c` is one of the characters of `set`.
pub fn set_has(set: &[char], c: char) -> (b: bool)
    ensures
        b == set@.contains(c),
{
    let mut i: usize = 0;
    while i < set.len()
        invariant
            i <= set.len(),
            forall|k: int| 0 <= k < i ==> set@[k] != c,
        decreases set.len() - i,
    {
        if set[i] == c {
            return true;
        }
        i = i + 1;
    }
    false
}

proof fn lemma_trim_start_skip(s: Seq<char>, i: int)
    requires
        0 <= i < s.len(),
        is_ws(s[i]),
    ensures
        trim_start(s.skip(i)) == trim_start(s.skip(i + 1)),
{
    assert(s.skip(i).drop_first() =~= s.skip(i + 1));
}

/// The position of the first non-whitespace character (or the length).
pub fn skip_ws(s: &[char]) -> (i: usize)
    ensures
        i <= s.len(),
        trim_start(s@) == s@.skip(i as int),
{
    let mut i: usize = 0;
    assert(s@.skip(0) =~= s@);
    while i < s.len() && is_whitespace(s[i])
        invariant
            i <= s.len(),
            trim_start(s@) == trim_start(s@.skip(i as int)),
        decreases s.len() - i,
    {
        proof {
            lemma_trim_start_skip(s@, i as int);
        }
        i = i + 1;
    }
    i
}

/// `s` without leading whitespace.
pub fn trim_start_chars(s: &[char]) -> (r: Vec<char>)
    ensures
        r@ == trim_start(s@),
{
    let i = skip_ws(s);
    assert(s@.subrange(i as int, s.len() as int) =~= s@.skip(i as int));
    copy_range(s, i, s.len())
}

/// The position just after the last non-whitespace character of `s[..hi]` at or after `lo`.
fn rskip_ws(s: &[char], lo: usize, hi: usize) -> (j: usize)
    requires
        lo <= hi <= s.len(),
    ensures
        lo <= j <= hi,
        trim_end(s@.subrange(lo as int, hi as int)) == s@.subrange(lo as int, j as int),
{
    let mut j = hi;
    while j > lo && is_whitespace(s[j - 1])
        invariant
            lo <= j <= hi <= s.len(),
            trim_end(s@.subrange(lo as int, hi as int)) == trim_end(
                s@.subrange(lo as int, j as int),
            ),
        decreases j,
    {
        proof {
            let t = s@.subrange(lo as int, j as int);
            assert(t.drop_last() =~= s@.subrange(lo as int, j - 1));
        }
        j = j - 1;
    }
    j
}

/// `s` without trailing whitespace.
pub fn trim_end_chars(s: &[char]) -> (r: Vec<char>)
    ensures
        r@ == trim_end(s@),
{
    let j = rskip_ws(s, 0, s.len());
    assert(s@.subrange(0, s.len() as int) =~= s@);
    copy_range(s, 0, j)
}

/// `s` without leading and trailing whitespace (`str::trim`).
pub fn trim_chars(s: &[char]) -> (r: Vec<char>)
    ensures
        r@ == trim(s@),
{
    let i = skip_ws(s);
    let j = rskip_ws(s, i, s.len());
    assert(s@.subrange(i as int, s.len() as int) =~= s@.skip(i as int));
    copy_range(s, i, j)
}

/// `s` trimmed of characters of `set` on both sides (`str::trim_matches`).
pub fn trim_set_chars(s: &[char], set: &[char]) -> (r: Vec<char>)
    ensures
        r@ == trim_set(s@, set@),
{
    let mut i: usize = 0;
    assert(s@.skip(0) =~= s@);
    while i < s.len() && set_has(set, s[i])
        invariant
            i <= s.len(),
            skip_set(s@, set@) == skip_set(s@.skip(i as int), set@),
        decreases s.len() - i,
    {
        assert(s@.skip(i as int).drop_first() =~= s@.skip(i + 1));
        i = i + 1;
    }
    let mut j = s.len();
    assert(s@.subrange(i as int, s.len() as int) =~= s@.skip(i as int));
    while j > i && set_has(set, s[j - 1])
        invariant
            i <= j <= s.len(),
            skip_set(s@, set@) == s@.subrange(i as int, s.len() as int),
            rskip_set(s@.subrange(i as int, s.len() as int), set@) == rskip_set(
                s@.subrange(i as int, j as int),
                set@,
            ),
        decreases j,
    {
        assert(s@.subrange(i as int, j as int).drop_last() =~= s@.subrange(i as int, j - 1));
        j = j - 1;
    }
    copy_range(s, i, j)
}

/// `s` without its leading characters from `set` (`str::trim_start_matches` with a character set).
pub fn skip_set_chars(s: &[char], set: &[char]) -> (r: Vec<char>)
    ensures
        r@ == skip_set(s@, set@),
{
    let mut i: usize = 0;
    assert(s@.skip(0) =~= s@);
    while i < s.len() && set_has(set, s[i])
        invariant
            i <= s.len(),
            skip_set(s@, set@) == skip_set(s@.skip(i as int), set@),
        decreases s.len() - i,
    {
        assert(s@.skip(i as int).drop_first() =~= s@.skip(i + 1));
        i = i + 1;
    }
    assert(s@.subrange(i as int, s.len() as int) =~= s@.skip(i as int));
    copy_range(s, i, s.len())
}

/// `s` without its trailing characters from `set` (`str::trim_end_matches` with a character set).
pub fn rskip_set_chars(s: &[char], set: &[char]) -> (r: Vec<char>)
    ensures
        r@ == rskip_set(s@, set@),
{
    let mut j = s.len();
    assert(s@.take(s.len() as int) =~= s@);
    while j > 0 && set_has(set, s[j - 1])
        invariant
            j <= s.len(),
            rskip_set(s@, set@) == rskip_set(s@.take(j as int), set@),
        decreases j,
    {
        assert(s@.take(j as int).drop_last() =~= s@.take(j - 1));
        j = j - 1;
    }
    assert(s@.subrange(0, j as int) =~= s@.take(j as int));
    copy_range(s, 0, j)
}

/// `s` with every leading copy of `p` removed (`str::trim_start_matches`).
pub fn strip_prefixes_chars(s: &[char], p: &[char]) -> (r: Vec<char>)
    ensures
        r@ == strip_prefixes(s@, p@),
{
    let mut i: usize = 0;
    assert(s@.skip(0) =~= s@);
    while p.len() > 0 && matches_at(s, p, i)
        invariant
            i <= s.len(),
            strip_prefixes(s@, p@) == strip_prefixes(s@.skip(i as int), p@),
        decreases s.len() - i,
    {
        proof {
            let t = s@.skip(i as int);
            assert(t.take(p@.len() as int) =~= s@.subrange(i as int, i + p@.len()));
            assert(t.skip(p@.len() as int) =~= s@.skip(i + p@.len()));
        }
        i = i + p.len();
    }
    proof {
        let t = s@.skip(i as int);
        if p@.len() > 0 && p@.is_prefix_of(t) {
            assert(t.take(p@.len() as int) =~= s@.subrange(i as int, i + p@.len()));
        }
    }
    assert(s@.subrange(i as int, s.len() as int) =~= s@.skip(i as int));
    copy_range(s, i, s.len())
}

/// `s` with every trailing copy of `p` removed (`str::trim_end_matches`).
pub fn strip_suffixes_chars(s: &[char], p: &[char]) -> (r: Vec<char>)
    ensures
        r@ == strip_suffixes(s@, p@),
{
    let mut j = s.len();
    assert(s@.take(s.len() as int) =~= s@);
    while p.len() > 0 && p.len() <= j && matches_at(s, p, j - p.len())
        invariant
            j <= s.len(),
            strip_suffixes(s@, p@) == strip_suffixes(s@.take(j as int), p@),
        decreases j,
    {
        proof {
            let t = s@.take(j as int);
            assert(t.skip(j - p@.len()) =~= s@.subrange(j - p@.len(), j as int));
            assert(t.take(j - p@.len()) =~= s@.take(j - p@.len()));
        }
        j = j - p.len();
    }
    proof {
        let t = s@.take(j as int);
        if p@.len() > 0 && p@.is_suffix_of(t) {
            assert(t.skip(j - p@.len()) =~= s@.subrange(j - p@.len(), j as int));
        }
    }
    assert(s@.subrange(0, j as int) =~= s@.take(j as int));
    copy_range(s, 0, j)
}

/// The views of a sequence of character vectors.
pub open spec fn views(v: Seq<Vec<char>>) -> Seq<Seq<char>> {
    v.map_values(|x: Vec<char>| x@)
}

/// The views of a sequence of strings.
pub open spec fn string_views(v: Seq<String>) -> Seq<Seq<char>> {
    v.map_values(|x: String| x@)
}

proof fn lemma_skip_find(s: Seq<char>, sep: Seq<char>, pos: int)
    requires
        0 <= pos <= s.len(),
    ensures
        find(s.skip(pos), sep) == (match find_from(s, sep, pos) {
            Some(k) => Some(k - pos),
            None => None,
        }),
        find_from(s, sep, pos) matches Some(k) ==> pos <= k && k + sep.len() <= s.len(),
{
    lemma_find_from_skip(s, sep, pos, 0);
    lemma_find_from_bounds(s, sep, pos);
}

/// The pieces of `s` between the occurrences of `sep` (`str::split`).
pub fn split_chars(s: &[char], sep: &[char]) -> (r: Vec<Vec<char>>)
    requires
        sep.len() > 0,
    ensures
        views(r@) == split(s@, sep@),
{
    let mut r: Vec<Vec<char>> = Vec::new();
    let mut pos: usize = 0;
    assert(s@.skip(0) =~= s@);
    assert(views(r@) + split(s@.skip(0), sep@) =~= split(s@, sep@));
    loop
        invariant
            sep.len() > 0,
            pos <= s.len(),
            views(r@) + split(s@.skip(pos as int), sep@) == split(s@, sep@),
        decreases s.len() - pos,
    {
        let ghost t = s@.skip(pos as int);
        proof {
            lemma_skip_find(s@, sep@, pos as int);
        }
        match find_at(s, sep, pos) {
            None => {
                let piece = copy_range(s, pos, s.len());
                assert(piece@ =~= t);
                let ghost before = views(r@);
                r.push(piece);
                assert(views(r@) =~= before.push(t));
                assert(views(r@) =~= before + split(t, sep@));
                return r;
            },
            Some(k) => {
                let piece = copy_range(s, pos, k);
                assert(piece@ =~= t.take(k - pos));
                assert(t.skip(k - pos + sep@.len()) =~= s@.skip(k + sep@.len()));
                let ghost before = views(r@);
                r.push(piece);
                assert(views(r@) =~= before.push(t.take(k - pos)));
                assert(split(t, sep@) =~= seq![t.take(k - pos)] + split(
                    s@.skip(k + sep@.len()),
                    sep@,
                ));
                assert(views(r@) + split(s@.skip(k + sep@.len()), sep@) =~= before + split(
                    t,
                    sep@,
                ));
                pos = k + sep.len();
            },
        }
    }
}

/// The part of `s` after the last `sep` (`split(sep).last()`).
pub fn after_last_chars(s: &[char], sep: &[char]) -> (r: Vec<char>)
    requires
        sep.len() > 0,
    ensures
        r@ == after_last(s@, sep@),
{
    let mut pos: usize = 0;
    assert(s@.skip(0) =~= s@);
    loop
        invariant
            sep.len() > 0,
            pos <= s.len(),
            after_last(s@.skip(pos as int), sep@) == after_last(s@, sep@),
        decreases s.len() - pos,
    {
        let ghost t = s@.skip(pos as int);
        proof {
            lemma_skip_find(s@, sep@, pos as int);
        }
        match find_at(s, sep, pos) {
            None => {
                let piece = copy_range(s, pos, s.len());
                assert(piece@ =~= t);
                return piece;
            },
            Some(k) => {
                assert(t.skip(k - pos + sep@.len()) =~= s@.skip(k + sep@.len()));
                pos = k + sep.len();
            },
        }
    }
}

/// The part of `s` before the first `sep` (`split(sep).next()`).
pub fn before_first_chars(s: &[char], sep: &[char]) -> (r: Vec<char>)
    ensures
        r@ == before_first(s@, sep@),
{
    proof {
        lemma_find_bounds(s@, sep@);
    }
    match find_first(s, sep) {
        None => copy_range(s, 0, s.len()),
        Some(k) => copy_range(s, 0, k),
    }
}

/// The number of non-overlapping occurrences of `p` in `s`.
pub fn count_matches_chars(s: &[char], p: &[char]) -> (n: usize)
    ensures
        n == count_matches(s@, p@),
{
    if p.len() == 0 {
        return 0;
    }
    let mut pos: usize = 0;
    let mut n: usize = 0;
    assert(s@.skip(0) =~= s@);
    loop
        invariant
            p.len() > 0,
            pos <= s.len(),
            n <= pos,
            n + count_matches(s@.skip(pos as int), p@) == count_matches(s@, p@),
        decreases s.len() - pos,
    {
        let ghost t = s@.skip(pos as int);
        proof {
            lemma_skip_find(s@, p@, pos as int);
        }
        match find_at(s, p, pos) {
            None => {
                return n;
            },
            Some(k) => {
                assert(t.skip(k - pos + p@.len()) =~= s@.skip(k + p@.len()));
                n = n + 1;
                pos = k + p.len();
            },
        }
    }
}

/// `parts` joined with `sep`.
pub fn join_chars(parts: &Vec<Vec<char>>, sep: &[char]) -> (r: Vec<char>)
    ensures
        r@ == join(views(parts@), sep@),
{
    let mut r: Vec<char> = Vec::new();
    let mut i: usize = 0;
    while i < parts.len()
        invariant
            i <= parts.len(),
            r@ == join(views(parts@).take(i as int), sep@),
        decreases parts.len() - i,
    {
        let ghost before = r@;
        if i > 0 {
            extend(&mut r, sep);
        }
        extend(&mut r, parts[i].as_slice());
        proof {
            let vs = views(parts@);
            assert(vs.take(i + 1).drop_last() =~= vs.take(i as int));
            if i == 0 {
                assert(r@ =~= vs.take(1)[0]);
            }
        }
        i = i + 1;
    }
    assert(views(parts@).take(parts.len() as int) =~= views(parts@));
    r
}

/// `parts` joined with `sep` into a `String`.
pub fn join_strings(parts: &Vec<String>, sep: &str) -> (r: String)
    ensures
        r@ == join(string_views(parts@), sep@),
{
    let mut r = String::new();
    let mut i: usize = 0;
    while i < parts.len()
        invariant
            i <= parts.len(),
            r@ == join(string_views(parts@).take(i as int), sep@),
        decreases parts.len() - i,
    {
        if i > 0 {
            r.append(sep);
        }
        r.append(parts[i].as_str());
        proof {
            let vs = string_views(parts@);
            assert(vs.take(i + 1).drop_last() =~= vs.take(i as int));
            if i == 0 {
                assert(r@ =~= vs.take(1)[0]);
            }
        }
        i = i + 1;
    }
    assert(string_views(parts@).take(parts.len() as int) =~= string_views(parts@));
    r
}

/// The lines of `s` (`str::lines`).
pub fn lines_chars(s: &[char]) -> (r: Vec<Vec<char>>)
    ensures
        views(r@) == lines(s@),
{
    let nl = ['\n'];
    let mut r: Vec<Vec<char>> = Vec::new();
    let mut pos: usize = 0;
    assert(s@.skip(0) =~= s@);
    assert(nl@ =~= seq!['\n']);
    loop
        invariant
            nl@ == seq!['\n'],
            pos <= s.len(),
            views(r@) + lines(s@.skip(pos as int)) == lines(s@),
        decreases s.len() - pos,
    {
        let ghost t = s@.skip(pos as int);
        if pos == s.len() {
            assert(t.len() == 0);
            assert(views(r@) =~= views(r@) + lines(t));
            return r;
        }
        proof {
            lemma_skip_find(s@, nl@, pos as int);
        }
        match find_at(s, &nl, pos) {
            None => {
                let piece = copy_range(s, pos, s.len());
                assert(piece@ =~= t);
                let ghost before = views(r@);
                r.push(piece);
                assert(views(r@) =~= before.push(t));
                assert(lines(t) =~= seq![t]);
                return r;
            },
            Some(k) => {
                let mut end = k;
                if end > pos && s[end - 1] == '\r' {
                    end = end - 1;
                }
                let piece = copy_range(s, pos, end);
                assert(piece@ =~= strip_cr(t.take(k - pos)));
                assert(t.skip(k - pos + 1) =~= s@.skip(k + 1));
                let ghost before = views(r@);
                r.push(piece);
                assert(views(r@) =~= before.push(strip_cr(t.take(k - pos))));
                assert(lines(t) =~= seq![strip_cr(t.take(k - pos))] + lines(s@.skip(k + 1)));
                assert(views(r@) + lines(s@.skip(k + 1)) =~= before + lines(t));
                pos = k + 1;
            },
        }
    }
}

/// The decimal representation of `n`.
pub fn decimal_chars(n: u64) -> (r: Vec<char>)
    ensures
        r@ == decimal(n as nat),
    decreases n,
{
    let d = (48u8 + (n % 10) as u8) as char;
    assert(d == digit((n % 10) as nat));
    if n < 10 {
        let mut r = Vec::new();
        r.push(d);
        assert(r@ =~= seq![digit(n as nat)]);
        r
    } else {
        let mut r = decimal_chars(n / 10);
        r.push(d);
        r
    }
}

/// The decimal representation of `n` as a `String`.
pub fn decimal_string(n: u64) -> (r: String)
    ensures
        r@ == decimal(n as nat),
{
    let v = decimal_chars(n);
    chars_to_string(v.as_slice())
}

/// The decimal representation of a signed `n` as a `String`.
pub fn signed_decimal_string(n: i64) -> (r: String)
    ensures
        r@ == signed_decimal(n as int),
{
    if n < 0 {
        let m: u64 = if n == i64::MIN {
            9223372036854775808u64
        } else {
            (-n) as u64
        };
        let v = decimal_chars(m);
        let mut r = String::new();
        push_char(&mut r, '-');
        let tail = chars_to_string(v.as_slice());
        r.append(tail.as_str());
        assert(r@ =~= seq!['-'] + decimal((-n) as nat));
        r
    } else {
        decimal_string(n as u64)
    }
}

/// `s` padded on the left with spaces to `width` characters.
pub fn pad_left_chars(s: &[char], width: usize) -> (r: Vec<char>)
    ensures
        r@ == pad_left(s@, width as nat),
{
    let mut r: Vec<char> = Vec::new();
    if s.len() < width {
        let mut k: usize = 0;
        while k < width - s.len()
            invariant
                s.len() < width,
                k <= width - s.len(),
                r@ =~= Seq::new(k as nat, |i: int| ' '),
            decreases width - s.len() - k,
        {
            r.push(' ');
            k = k + 1;
        }
    }
    extend(&mut r, s);
    r
}

/// The whitespace-separated words of `s` (`str::split_whitespace`).
pub fn words_chars(s: &[char]) -> (r: Vec<Vec<char>>)
    ensures
        views(r@) == words(s@),
{
    let mut r: Vec<Vec<char>> = Vec::new();
    let mut cur: Vec<char> = Vec::new();
    let mut i: usize = 0;
    while i < s.len()
        invariant
            i <= s.len(),
            (cur@.len() > 0) == (i > 0 && !is_ws(s@[i - 1])),
            words(s@.take(i as int)) == views(r@) + (if cur@.len() > 0 {
                seq![cur@]
            } else {
                Seq::empty()
            }),
        decreases s.len() - i,
    {
        let c = s[i];
        let ghost p = s@.take(i as int);
        assert(s@.take(i + 1).drop_last() =~= p);
        assert(s@.take(i + 1).last() == c);
        let ghost rv = views(r@);
        if is_whitespace(c) {
            if cur.len() > 0 {
                let w = cur;
                r.push(w);
                cur = Vec::new();
                assert(views(r@) =~= rv.push(w@));
            }
            assert(words(s@.take(i + 1)) == words(p));
        } else {
            if i > 0 {
                assert(s@.take(i + 1)[i - 1] == s@[i - 1]);
            }
            let ghost old_cur = cur@;
            cur.push(c);
            proof {
                if old_cur.len() > 0 {
                    assert(words(p) == rv.push(old_cur));
                    assert(words(p).drop_last() =~= rv);
                    assert(words(s@.take(i + 1)) =~= rv.push(old_cur.push(c)));
                } else {
                    assert(words(p) =~= rv);
                    assert(old_cur.push(c) =~= seq![c]);
                }
            }
        }
        i = i + 1;
    }
    assert(s@.take(s.len() as int) =~= s@);
    if cur.len() > 0 {
        let ghost rv = views(r@);
        r.push(cur);
        assert(views(r@) =~= rv.push(r@.last()@));
    } else {
        assert(views(r@) + Seq::<Seq<char>>::empty() =~= views(r@));
    }
    r
}

} // verus!
