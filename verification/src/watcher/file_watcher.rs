//! The decisions of the project watcher: which file-system events are let
//! through the debounce interval, and which changed files are indexed again.
//!
//! Times are nanoseconds of a monotonic clock.

use crate::models::{language_of_extension, Language};
use crate::paths::{extension, extension_of};
use vstd::prelude::*;

verus! {

/// What happened to the paths of an event.
#[derive(Debug, Clone, Copy, PartialEq, Eq, Structural)]
pub enum FsEventKind {
    Create,
    Modify,
    Remove,
    Other,
}

/// The watcher's state: when the last event was let through, and the
/// debounce interval.
#[derive(Debug, Clone, Copy)]
pub struct WatchState {
    pub last_event: Option<u128>,
    pub debounce: u128,
}

impl WatchState {
    /// A watcher that has let no event through yet.
    pub fn new(debounce_ms: u64) -> (s: Self)
        ensures
            s.last_event is None,
            s.debounce == debounce_ms as int * 1_000_000,
    {
        WatchState { last_event: None, debounce: debounce_ms as u128 * 1_000_000 }
    }
}

/// An event at `now` comes within the debounce interval of the last one let
/// through (elapsed time counts as zero where the clock reads earlier).
pub open spec fn debounced(last_event: Option<u128>, now: u128, debounce: u128) -> bool {
    match last_event {
        Some(l) => now < l || now - l < debounce,
        None => false,
    }
}

/// The language of the file at `path`, by its extension.
pub open spec fn path_language(path: Seq<char>) -> Option<Language> {
    match extension(path) {
        Some(e) => language_of_extension(e),
        None => None,
    }
}

/// The paths of `paths` in a known language, with their language, in order.
pub open spec fn reindex_targets(paths: Seq<Seq<char>>) -> Seq<(Seq<char>, Language)>
    decreases paths.len(),
{
    if paths.len() == 0 {
        Seq::empty()
    } else {
        reindex_targets(paths.drop_last()) + match path_language(paths.last()) {
            Some(l) => seq![(paths.last(), l)],
            None => Seq::empty(),
        }
    }
}

/// The language of the file at `path`.
fn language_of_path(path: &str) -> (r: Option<Language>)
    ensures
        r == path_language(path@),
{
    match extension_of(path) {
        Some(e) => Language::from_extension(e.as_str()),
        None => None,
    }
}

/// The files to index again after an event of `kind` on `paths` at `now`:
/// none for an event within the debounce interval, which leaves the state
/// unchanged; otherwise the event is let through, and created or modified
/// files in a known language are indexed again, in order.
pub fn on_event(state: &mut WatchState, now: u128, kind: FsEventKind, paths: &Vec<String>) -> (r: Vec<
    (String, Language),
>)
    ensures
        debounced(old(state).last_event, now, old(state).debounce) ==> *final(state) == *old(state)
            && r@.len() == 0,
        !debounced(old(state).last_event, now, old(state).debounce) ==> {
            &&& final(state).last_event == Some(now)
            &&& final(state).debounce == old(state).debounce
            &&& r@.len() == (if kind == FsEventKind::Create || kind == FsEventKind::Modify {
                reindex_targets(crate::text::string_views(paths@)).len()
            } else {
                0
            })
            &&& (kind == FsEventKind::Create || kind == FsEventKind::Modify) ==> forall|k: int|
                0 <= k < r@.len() ==> ((#[trigger] r@[k]).0@, r@[k].1) == reindex_targets(
                    crate::text::string_views(paths@),
                )[k]
        },
{
    let quiet = match state.last_event {
        Some(l) => now < l || now - l < state.debounce,
        None => false,
    };
    if quiet {
        return Vec::new();
    }
    state.last_event = Some(now);
    let mut r: Vec<(String, Language)> = Vec::new();
    if kind == FsEventKind::Create || kind == FsEventKind::Modify {
        let ghost pv = crate::text::string_views(paths@);
        let mut k: usize = 0;
        while k < paths.len()
            invariant
                k <= paths@.len(),
                pv == crate::text::string_views(paths@),
                r@.len() == reindex_targets(pv.take(k as int)).len(),
                forall|q: int|
                    0 <= q < r@.len() ==> ((#[trigger] r@[q]).0@, r@[q].1) == reindex_targets(
                        pv.take(k as int),
                    )[q],
            decreases paths@.len() - k,
        {
            assert(pv.take(k + 1).drop_last() =~= pv.take(k as int));
            assert(pv.take(k + 1).last() == paths@[k as int]@);
            match language_of_path(paths[k].as_str()) {
                Some(lang) => {
                    let p = paths[k].clone();
                    r.push((p, lang));
                },
                None => {},
            }
            k = k + 1;
        }
        assert(pv.take(paths@.len() as int) =~= pv);
    }
    r
}

/// After an event is let through at `t`, each later event within the
/// debounce interval is ignored: it leaves the watcher as it was and indexes
/// nothing, so the watcher still measures from `t`.
pub proof fn lemma_debounce_window(before: WatchState, after: WatchState, t: u128, later: u128)
    requires
        !debounced(before.last_event, t, before.debounce),
        after.last_event == Some(t),
        after.debounce == before.debounce,
        t <= later,
        later - t < before.debounce,
    ensures
        debounced(after.last_event, later, after.debounce),
{
}

} // verus!
