//! The import edges of one file.

use crate::indexer::db::ImportRow;
use crate::text::str_eq;
use vstd::prelude::*;

verus! {

/// What a file imports and what imports it.
pub struct ImportAnalysis {
    pub outgoing: Vec<ImportRow>,
    pub incoming: Vec<ImportRow>,
}

/// Which edges a direction asks for: (`outgoing`, `incoming`).
pub open spec fn direction_wants(direction: Seq<char>) -> (bool, bool) {
    (
        direction == "outgoing"@ || direction == "both"@,
        direction == "incoming"@ || direction == "both"@,
    )
}

/// Which edges `direction` asks for: outgoing for `outgoing` and `both`,
/// incoming for `incoming` and `both`; any other direction asks for none.
pub fn wanted_directions(direction: &str) -> (r: (bool, bool))
    ensures
        r == direction_wants(direction@),
{
    let both = str_eq(direction, "both");
    (str_eq(direction, "outgoing") || both, str_eq(direction, "incoming") || both)
}

} // verus!
