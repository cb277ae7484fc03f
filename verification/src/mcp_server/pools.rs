//! Which database connection pool to close when too many are open: the one
//! of the project used least recently.

use crate::text::str_eq;
use vstd::prelude::*;

verus! {

/// The most connection pools kept open at once.
pub const MAX_POOLS: usize = 10;

/// `key` is the project of one of the open pools.
pub open spec fn pool_open(pools: Seq<String>, key: Seq<char>) -> bool {
    exists|i: int| 0 <= i < pools.len() && (#[trigger] pools[i])@ == key
}

/// Whether `key` is the project of one of the open pools.
fn is_open(pools: &Vec<String>, key: &str) -> (b: bool)
    ensures
        b == pool_open(pools@, key@),
{
    let mut i: usize = 0;
    while i < pools.len()
        invariant
            i <= pools@.len(),
            forall|q: int| 0 <= q < i ==> (#[trigger] pools@[q])@ != key@,
        decreases pools@.len() - i,
    {
        if str_eq(pools[i].as_str(), key) {
            return true;
        }
        i = i + 1;
    }
    false
}

/// The project whose pool is closed before another is opened: none while
/// fewer than the maximum are open; otherwise, among the access times of
/// open pools, one used no later than any other (none where no open pool
/// has an access time).
pub fn pool_to_evict(pools: &Vec<String>, access: &Vec<(String, u128)>) -> (r: Option<String>)
    ensures
        pools@.len() < MAX_POOLS ==> r is None,
        pools@.len() >= MAX_POOLS ==> match r {
            None => forall|j: int|
                0 <= j < access@.len() ==> !pool_open(pools@, (#[trigger] access@[j]).0@),
            Some(k) => exists|j: int|
                0 <= j < access@.len() && (#[trigger] access@[j]).0@ == k@ && pool_open(
                    pools@,
                    k@,
                ) && forall|q: int|
                    0 <= q < access@.len() && pool_open(pools@, (#[trigger] access@[q]).0@)
                        ==> access@[j].1 <= access@[q].1,
        },
{
    if pools.len() < MAX_POOLS {
        return None;
    }
    let mut best: Option<usize> = None;
    let mut i: usize = 0;
    while i < access.len()
        invariant
            i <= access@.len(),
            match best {
                None => forall|j: int|
                    0 <= j < i ==> !pool_open(pools@, (#[trigger] access@[j]).0@),
                Some(b) => b < i && pool_open(pools@, access@[b as int].0@) && forall|q: int|
                    0 <= q < i && pool_open(pools@, (#[trigger] access@[q]).0@) ==> access@[b as int].1
                        <= access@[q].1,
            },
        decreases access@.len() - i,
    {
        if is_open(pools, access[i].0.as_str()) {
            match best {
                None => {
                    best = Some(i);
                },
                Some(b) => {
                    if access[i].1 < access[b].1 {
                        best = Some(i);
                    }
                },
            }
        }
        i = i + 1;
    }
    match best {
        None => None,
        Some(b) => Some(access[b].0.clone()),
    }
}

} // verus!
