//! The name patterns of symbol search.

use crate::indexer::db::contains_pattern;
use crate::text::str_eq;
use vstd::prelude::*;

verus! {

/// The SQL `LIKE` pattern for a name search: the query itself in `exact`
/// mode, a prefix match in `prefix` mode, a substring match otherwise
/// (`contains`, the default).
pub open spec fn like_pattern_of(query: Seq<char>, mode: Seq<char>) -> Seq<char> {
    if mode == "exact"@ {
        query
    } else if mode == "prefix"@ {
        query + "%"@
    } else {
        "%"@ + query + "%"@
    }
}

/// The SQL `LIKE` pattern for a name search in the given mode.
pub fn like_pattern(query: &str, mode: &str) -> (r: String)
    ensures
        r@ == like_pattern_of(query@, mode@),
{
    if str_eq(mode, "exact") {
        query.to_owned()
    } else if str_eq(mode, "prefix") {
        let mut r = query.to_owned();
        r.append("%");
        r
    } else {
        contains_pattern(query)
    }
}

/// The SQL `LIKE` pattern for the paths of files with extension `ext`.
pub fn extension_like_pattern(ext: &str) -> (r: String)
    ensures
        r@ == "%."@ + ext@,
{
    let mut r = "%.".to_owned();
    r.append(ext);
    r
}

} // verus!
