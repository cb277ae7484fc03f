//! When a project's index is due again: the time of the last indexing read
//! from the database, compared with the modification times of the project.
//!
//! Times are whole nanoseconds relative to the Unix epoch (negative before
//! it); the database's timestamps are read as whole seconds.

use vstd::prelude::*;

verus! {

/// How long a project counts as freshly checked, in nanoseconds.
pub const REINDEX_COOLDOWN_NANOS: u128 = 30_000_000_000;

/// Days from the start of the common era to 1970-01-01.
pub const UNIX_EPOCH_DAYS: u64 = 719163;

// ---------------------------------------------------------------------------
// Day count
// ---------------------------------------------------------------------------

/// The day number of a date of the proleptic Gregorian calendar, counted so
/// that 0001-01-01 is day 1 and 1970-01-01 is day 719163: the years are
/// counted from March, so that January and February belong to the year
/// before and the leap day comes last.
pub open spec fn civil_days(year: nat, month: nat, day: nat) -> int {
    let y: int = if month <= 2 {
        year - 1
    } else {
        year as int
    };
    let m: int = ((month + 9) % 12) as int;
    365 * y + y / 4 - y / 100 + y / 400 + (153 * m + 2) / 5 + day - 306
}

/// The first day of the common era is day 1, and 1970-01-01, the Unix
/// epoch, is day `UNIX_EPOCH_DAYS`.
pub proof fn lemma_civil_days_anchors()
    ensures
        civil_days(1, 1, 1) == 1,
        civil_days(1970, 1, 1) == UNIX_EPOCH_DAYS,
        civil_days(2024, 1, 1) == UNIX_EPOCH_DAYS + 19723,
{
}

// ---------------------------------------------------------------------------
// Timestamps
// ---------------------------------------------------------------------------

/// `c` is one of `0`..`9`.
pub open spec fn is_ascii_digit(c: char) -> bool {
    '0' <= c && c <= '9'
}

/// The value of a run of decimal digits.
pub open spec fn digits_value(d: Seq<char>) -> nat
    decreases d.len(),
{
    if d.len() == 0 {
        0
    } else {
        digits_value(d.drop_last()) * 10 + ((d.last() as int) - 48) as nat
    }
}

/// The pieces of `s` between its non-digit characters
/// (`s.split(|c| !c.is_ascii_digit())`).
pub open spec fn digit_runs(s: Seq<char>) -> Seq<Seq<char>>
    decreases s.len(),
{
    if s.len() == 0 {
        seq![Seq::empty()]
    } else {
        let r = digit_runs(s.drop_last());
        if is_ascii_digit(s.last()) {
            r.update(r.len() - 1, r.last().push(s.last()))
        } else {
            r.push(Seq::empty())
        }
    }
}

/// The values of the pieces that parse as a `u64`: not empty, not too large.
pub open spec fn run_values(runs: Seq<Seq<char>>) -> Seq<nat>
    decreases runs.len(),
{
    if runs.len() == 0 {
        Seq::empty()
    } else {
        let v = run_values(runs.drop_last());
        let p = runs.last();
        if p.len() > 0 && digits_value(p) <= u64::MAX {
            v.push(digits_value(p))
        } else {
            v
        }
    }
}

/// The numbers of a timestamp such as `2024-01-15 10:30:00`.
pub open spec fn timestamp_fields(ts: Seq<char>) -> Seq<nat> {
    run_values(digit_runs(ts))
}

/// Seconds from the start of the common era of the first six fields
/// (year, month, day, hour, minute, second; month and day read as `u8`).
pub open spec fn field_secs(f: Seq<nat>) -> int {
    civil_days(f[0], f[1] % 256, f[2] % 256) * 86400 + f[3] * 3600 + f[4] * 60 + f[5]
}

/// Seconds since the Unix epoch of a database timestamp; 0 (the epoch)
/// where it has fewer than six numbers, or lies before the epoch.
pub open spec fn unix_secs_of(ts: Seq<char>) -> int {
    let f = timestamp_fields(ts);
    if f.len() < 6 {
        0
    } else {
        let s = field_secs(f);
        if s >= UNIX_EPOCH_DAYS * 86400 {
            s - UNIX_EPOCH_DAYS * 86400
        } else {
            0
        }
    }
}

/// The seconds of `ts` fit in a `u64`.
pub open spec fn timestamp_fits(ts: Seq<char>) -> bool {
    unix_secs_of(ts) <= u64::MAX
}

// ---------------------------------------------------------------------------
// Lemmas
// ---------------------------------------------------------------------------

proof fn lemma_digit_runs_nonempty(s: Seq<char>)
    ensures
        digit_runs(s).len() >= 1,
    decreases s.len(),
{
    if s.len() > 0 {
        lemma_digit_runs_nonempty(s.drop_last());
    }
}

// ---------------------------------------------------------------------------
// Executable functions
// ---------------------------------------------------------------------------

/// The day number of a date (`civil_days`): 1970-01-01 is day 719163.
pub fn days_from_ce(year: u64, month: u8, day: u8) -> (r: i128)
    ensures
        r == civil_days(year as nat, month as nat, day as nat),
{
    let y: i128 = if month <= 2 {
        year as i128 - 1
    } else {
        year as i128
    };
    let (q4, q100, q400): (i128, i128, i128) = if y >= 0 {
        (y / 4, y / 100, y / 400)
    } else {
        (-1, -1, -1)
    };
    assert(y == -1 ==> (-1int) / 4 == -1 && (-1int) / 100 == -1 && (-1int) / 400 == -1);
    let m: i128 = (month as i128 + 9) % 12;
    365 * y + q4 - q100 + q400 + (153 * m + 2) / 5 + day as i128 - 306
}

/// The numbers of `ts`: its maximal runs of ASCII digits, each read as a
/// `u64`, leaving out those too large for one.
fn timestamp_numbers(ts: &str) -> (r: Vec<u64>)
    ensures
        r@.len() == timestamp_fields(ts@).len(),
        forall|k: int| 0 <= k < r@.len() ==> r@[k] as nat == #[trigger] timestamp_fields(ts@)[k],
{
    let cs = crate::text::to_chars(ts);
    let ghost s = cs@;
    let mut fields: Vec<u64> = Vec::new();
    let mut cur: Option<u64> = Some(0);
    let mut cur_len: usize = 0;
    let mut i: usize = 0;
    proof {
        assert(s.take(0) =~= Seq::<char>::empty());
    }
    while i < cs.len()
        invariant
            i <= cs.len(),
            s == cs@,
            s == ts@,
            ({
                let runs = digit_runs(s.take(i as int));
                let last = runs.last();
                &&& runs.len() >= 1
                &&& fields@.len() == run_values(runs.drop_last()).len()
                &&& forall|k: int|
                    0 <= k < fields@.len() ==> fields@[k] as nat == #[trigger] run_values(
                        runs.drop_last(),
                    )[k]
                &&& (cur_len > 0) == (last.len() > 0)
                &&& cur_len <= i
                &&& match cur {
                    Some(v) => digits_value(last) <= u64::MAX && v as nat == digits_value(last),
                    None => digits_value(last) > u64::MAX,
                }
            }),
        decreases cs.len() - i,
    {
        let c = cs[i];
        let ghost p = s.take(i as int);
        let ghost runs = digit_runs(p);
        assert(s.take(i + 1).drop_last() =~= p);
        assert(s.take(i + 1).last() == c);
        proof {
            lemma_digit_runs_nonempty(p);
        }
        if '0' <= c && c <= '9' {
            let dv = (c as u32 - 48) as u64;
            let ghost last = runs.last();
            assert(runs.update(runs.len() - 1, last.push(c)).drop_last() =~= runs.drop_last());
            assert(last.push(c).drop_last() =~= last);
            cur = match cur {
                Some(v) => match v.checked_mul(10) {
                    Some(w) => w.checked_add(dv),
                    None => None,
                },
                None => None,
            };
            cur_len = cur_len + 1;
        } else {
            let ghost last = runs.last();
            let ghost before = fields@;
            match cur {
                Some(v) => {
                    if cur_len > 0 {
                        fields.push(v);
                    }
                },
                None => {},
            }
            assert(runs.push(Seq::<char>::empty()).drop_last() =~= runs);
            assert(runs.drop_last().push(last) =~= runs);
            assert(fields@.len() == run_values(runs).len());
            assert forall|k: int| 0 <= k < fields@.len() implies fields@[k] as nat
                == #[trigger] run_values(runs)[k] by {
                if k < before.len() {
                    assert(fields@[k] == before[k]);
                }
            }
            cur = Some(0);
            cur_len = 0;
            assert(Seq::<char>::empty().len() == 0);
        }
        i = i + 1;
    }
    let ghost runs = digit_runs(s);
    assert(s.take(cs.len() as int) =~= s);
    let ghost last = runs.last();
    let ghost before = fields@;
    match cur {
        Some(v) => {
            if cur_len > 0 {
                fields.push(v);
            }
        },
        None => {},
    }
    assert(runs.drop_last().push(last) =~= runs);
    assert forall|k: int| 0 <= k < fields@.len() implies fields@[k] as nat
        == #[trigger] run_values(runs)[k] by {
        if k < before.len() {
            assert(fields@[k] == before[k]);
        }
    }
    fields
}

/// Seconds since the Unix epoch of `ts`, computed without overflow.
fn unix_seconds(ts: &str) -> (r: i128)
    ensures
        r == unix_secs_of(ts@),
{
    let parts = timestamp_numbers(ts);
    if parts.len() < 6 {
        return 0;
    }
    let ghost f = timestamp_fields(ts@);
    assert(parts@[0] as nat == f[0]);
    assert(parts@[1] as nat == f[1]);
    assert(parts@[2] as nat == f[2]);
    assert(parts@[3] as nat == f[3]);
    assert(parts@[4] as nat == f[4]);
    assert(parts@[5] as nat == f[5]);
    let month = (parts[1] % 256) as u8;
    let day = (parts[2] % 256) as u8;
    let days = days_from_ce(parts[0], month, day);
    let secs: i128 = days * 86400 + parts[3] as i128 * 3600 + parts[4] as i128 * 60
        + parts[5] as i128;
    let epoch_secs: i128 = 719163 * 86400;
    if secs >= epoch_secs {
        secs - epoch_secs
    } else {
        0
    }
}

/// Seconds since the Unix epoch of a timestamp as the database writes it
/// (`YYYY-MM-DD HH:MM:SS`): the first six numbers in it read as year, month,
/// day, hour, minute and second of the civil calendar; the epoch where it has
/// fewer numbers or lies before the epoch.
pub fn parse_db_timestamp(ts: &str) -> (secs: u64)
    requires
        timestamp_fits(ts@),
    ensures
        secs == unix_secs_of(ts@),
{
    unix_seconds(ts) as u64
}

/// Whether the seconds of `ts` fit in a `u64` (`timestamp_fits`).
pub fn timestamp_in_range(ts: &str) -> (b: bool)
    ensures
        b == timestamp_fits(ts@),
{
    unix_seconds(ts) <= 0xffff_ffff_ffff_ffffi128
}

/// The project directory itself has not changed since `since`.
pub fn root_unchanged(root_modified: Option<i128>, since: i128) -> (b: bool)
    ensures
        b == (root_modified matches Some(m) && m <= since),
{
    match root_modified {
        Some(m) => m <= since,
        None => false,
    }
}

/// Some file was modified after `since`.
pub fn any_modified_after(files_modified: &Vec<Option<i128>>, since: i128) -> (b: bool)
    ensures
        b == exists|k: int|
            0 <= k < files_modified@.len() && (#[trigger] files_modified@[k] matches Some(t)
                && t > since),
{
    let mut k: usize = 0;
    while k < files_modified.len()
        invariant
            k <= files_modified.len(),
            forall|q: int|
                0 <= q < k ==> !(#[trigger] files_modified@[q] matches Some(t) && t > since),
        decreases files_modified.len() - k,
    {
        match files_modified[k] {
            Some(t) => {
                if t > since {
                    return true;
                }
            },
            None => {},
        }
        k = k + 1;
    }
    false
}

/// Whether a project has changed since it was indexed at `since`: not when
/// its directory is unchanged; otherwise when one of its source files
/// (`None` where they could not be listed, `None` for a file whose time
/// could not be read) was modified after `since`.
pub fn has_stale_files(
    root_modified: Option<i128>,
    files_modified: Option<&Vec<Option<i128>>>,
    since: i128,
) -> (b: bool)
    ensures
        b == (!(root_modified matches Some(m) && m <= since) && match files_modified {
            Some(v) => exists|k: int|
                0 <= k < v@.len() && (#[trigger] v@[k] matches Some(t) && t > since),
            None => false,
        }),
{
    if root_unchanged(root_modified, since) {
        return false;
    }
    match files_modified {
        Some(v) => any_modified_after(v, since),
        None => false,
    }
}

/// A project was checked less than the cool-down ago (`elapsed` nanoseconds,
/// `None` where it never was), so it is not checked again.
pub fn recently_checked(elapsed: Option<u128>) -> (b: bool)
    ensures
        b == (elapsed matches Some(e) && e < REINDEX_COOLDOWN_NANOS),
{
    match elapsed {
        Some(e) => e < REINDEX_COOLDOWN_NANOS,
        None => false,
    }
}

} // verus!
