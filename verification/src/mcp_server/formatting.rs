//! Presenting a symbol's code: the code itself, a numbered preview, and
//! numbered context lines around it.

use crate::query::context::CodeContext;
use crate::text::{
    chars_to_string, decimal, decimal_chars, extend, join, join_strings, lines, lines_chars,
    pad_left, pad_left_chars, string_chars, string_views, views,
};
use vstd::prelude::*;

verus! {

// ---------------------------------------------------------------------------
// Specifications
// ---------------------------------------------------------------------------

/// `line` behind its number, right-aligned in four columns: `{:>4} | {}`.
pub open spec fn numbered_line(n: int, line: Seq<char>) -> Seq<char> {
    pad_left(decimal(n as nat), 4) + " | "@ + line
}

/// The lines `ls`, numbered from `first` on.
pub open spec fn numbered_from(ls: Seq<Seq<char>>, first: int) -> Seq<Seq<char>> {
    Seq::new(ls.len(), |i: int| numbered_line(first + i, ls[i]))
}

/// `a - b`, or 0 where that is negative (`usize::saturating_sub`).
pub open spec fn sat_sub(a: int, b: int) -> int {
    if a >= b {
        a - b
    } else {
        0
    }
}

/// The smaller of two integers.
pub open spec fn min_of(a: int, b: int) -> int {
    if a <= b {
        a
    } else {
        b
    }
}

/// The first ten lines of `ls`, numbered from `first`, one per line.
pub open spec fn preview_of(ls: Seq<Seq<char>>, first: int) -> Seq<char> {
    join(numbered_from(ls.take(min_of(10, ls.len() as int)), first), "\n"@)
}

/// The bounds `(lo, hi)` of the lines shown before the code, for a symbol
/// that starts on line `start` and `c` lines of context.
pub open spec fn before_bounds(ls: Seq<Seq<char>>, start: int, c: int) -> (int, int) {
    let si = sat_sub(start, 1);
    (sat_sub(si, c), min_of(si, ls.len() as int))
}

/// The numbered lines of the file `ls` shown before a symbol that starts on
/// line `start`: up to `c` lines before it, each with its own line number.
pub open spec fn context_before(ls: Seq<Seq<char>>, start: int, c: int) -> Seq<Seq<char>> {
    let (lo, hi) = before_bounds(ls, start, c);
    if c == 0 || lo >= hi {
        Seq::empty()
    } else {
        numbered_from(ls.subrange(lo, hi), lo + 1)
    }
}

/// The numbered lines of the file `ls` shown after a symbol that ends on
/// line `end`: up to `c` lines after it, each with its own line number.
pub open spec fn context_after(ls: Seq<Seq<char>>, end: int, c: int) -> Seq<Seq<char>> {
    let ei = min_of(end, ls.len() as int);
    if c == 0 {
        Seq::empty()
    } else {
        numbered_from(ls.subrange(ei, min_of(ei + c, ls.len() as int)), ei + 1)
    }
}

/// The numbers of the preview, which count on from the symbol's start line
/// `start` over the first ten lines of its code `ls`, stay within `usize`.
pub open spec fn format_fits(ls: Seq<Seq<char>>, start: int) -> bool {
    start + min_of(10, ls.len() as int) <= usize::MAX + 1
}

// ---------------------------------------------------------------------------
// Executable functions
// ---------------------------------------------------------------------------

/// `line` behind its number.
fn numbered(n: usize, line: &[char]) -> (r: Vec<char>)
    ensures
        r@ == numbered_line(n as int, line@),
{
    let d = decimal_chars(n as u64);
    let mut r = pad_left_chars(d.as_slice(), 4);
    let sep = [' ', '|', ' '];
    proof {
        reveal_strlit(" | ");
    }
    assert(sep@ =~= " | "@);
    let ghost p = r@;
    extend(&mut r, &sep);
    extend(&mut r, line);
    assert(r@ =~= p + " | "@ + line@);
    r
}

/// The lines `ls[lo..hi]`, numbered from `first`.
fn number_lines(ls: &Vec<Vec<char>>, lo: usize, hi: usize, first: usize) -> (r: Vec<String>)
    requires
        lo <= hi <= ls@.len(),
        first + (hi - lo) <= usize::MAX + 1,
    ensures
        string_views(r@) == numbered_from(views(ls@).subrange(lo as int, hi as int), first as int),
{
    let ghost target = numbered_from(views(ls@).subrange(lo as int, hi as int), first as int);
    let mut r: Vec<String> = Vec::new();
    let mut k: usize = lo;
    while k < hi
        invariant
            lo <= k <= hi <= ls@.len(),
            first + (hi - lo) <= usize::MAX + 1,
            target == numbered_from(views(ls@).subrange(lo as int, hi as int), first as int),
            string_views(r@) == target.take(k - lo),
        decreases hi - k,
    {
        let line = numbered(first + (k - lo), ls[k].as_slice());
        let s = chars_to_string(line.as_slice());
        let ghost before = r@;
        assert(views(ls@)[k as int] == ls@[k as int]@);
        assert(target[k - lo] == numbered_line(first + (k - lo), ls@[k as int]@));
        r.push(s);
        assert(string_views(r@) =~= string_views(before).push(s@));
        assert(target.take(k + 1 - lo) =~= target.take(k - lo).push(target[k - lo]));
        assert(string_views(r@) =~= target.take(k + 1 - lo));
        k = k + 1;
    }
    assert(target.take(hi - lo) =~= target);
    r
}

/// The code of `ctx` as its lines joined by line feeds; a preview of its
/// first ten lines, numbered from its start line; and, where `context_lines`
/// is not zero, the numbered lines of its file `file_content` before and
/// after it.
pub fn format_code_with_context(ctx: &CodeContext, file_content: &str, context_lines: usize) -> (r: (
    String,
    String,
    Vec<String>,
    Vec<String>,
))
    requires
        format_fits(lines(ctx.code@), (ctx.start_line as usize) as int),
    ensures
        r.0@ == join(lines(ctx.code@), "\n"@),
        r.1@ == preview_of(lines(ctx.code@), (ctx.start_line as usize) as int),
        string_views(r.2@) == context_before(
            lines(file_content@),
            (ctx.start_line as usize) as int,
            context_lines as int,
        ),
        string_views(r.3@) == context_after(
            lines(file_content@),
            (ctx.end_line as usize) as int,
            context_lines as int,
        ),
{
    let cs = string_chars(&ctx.code);
    let ls = lines_chars(cs.as_slice());
    let ghost lv = views(ls@);
    let nl = ['\n'];
    proof {
        reveal_strlit("\n");
    }
    assert(nl@ =~= "\n"@);
    let code_chars = crate::text::join_chars(&ls, &nl);
    let code = chars_to_string(code_chars.as_slice());
    let start = ctx.start_line as usize;
    let n = ls.len();
    let take = if n < 10 {
        n
    } else {
        10
    };
    let shown = number_lines(&ls, 0, take, start);
    assert(lv.subrange(0, take as int) =~= lv.take(min_of(10, lv.len() as int)));
    let preview = join_strings(&shown, "\n");
    let fcs = crate::text::to_chars(file_content);
    let fl = lines_chars(fcs.as_slice());
    let ghost flv = views(fl@);
    let n = fl.len();
    let (before, after) = if context_lines > 0 {
        let start_idx = if start >= 1 {
            start - 1
        } else {
            0
        };
        let end_raw = ctx.end_line as usize;
        let end_idx = if end_raw < n {
            end_raw
        } else {
            n
        };
        let lo = if start_idx >= context_lines {
            start_idx - context_lines
        } else {
            0
        };
        let hi = if start_idx < n {
            start_idx
        } else {
            n
        };
        let before_lines = if lo < hi {
            number_lines(&fl, lo, hi, lo + 1)
        } else {
            Vec::new()
        };
        let after_hi = if context_lines <= n - end_idx {
            end_idx + context_lines
        } else {
            n
        };
        let after_lines = if end_idx < n {
            number_lines(&fl, end_idx, after_hi, end_idx + 1)
        } else {
            Vec::new()
        };
        (before_lines, after_lines)
    } else {
        (Vec::new(), Vec::new())
    };
    proof {
        if !(context_lines > 0) {
            assert(string_views(before@) =~= Seq::<Seq<char>>::empty());
            assert(string_views(after@) =~= Seq::<Seq<char>>::empty());
        } else {
            let (lo, hi) = before_bounds(flv, start as int, context_lines as int);
            if lo >= hi {
                assert(string_views(before@) =~= Seq::<Seq<char>>::empty());
            }
            if min_of((ctx.end_line as usize) as int, flv.len() as int) >= flv.len() {
                assert(string_views(after@) =~= Seq::<Seq<char>>::empty());
                assert(context_after(flv, (ctx.end_line as usize) as int, context_lines as int)
                    =~= Seq::<Seq<char>>::empty());
            }
        }
    }
    (code, preview, before, after)
}

/// Whether `format_code_with_context` can number the preview of `ctx`
/// (`format_fits`).
pub fn format_in_range(ctx: &CodeContext) -> (b: bool)
    ensures
        b == format_fits(lines(ctx.code@), (ctx.start_line as usize) as int),
{
    let cs = string_chars(&ctx.code);
    let ls = lines_chars(cs.as_slice());
    let n = ls.len();
    let start = ctx.start_line as usize;
    let m: usize = if n < 10 {
        n
    } else {
        10
    };
    m == 0 || start <= usize::MAX - (m - 1)
}

} // verus!
