//! The order of a tally, and the sort that establishes it.

use crate::tally::{comes_before, lemma_text_less_connected, text_less, RecordView, VoteTally};
use core::cmp::Ordering;
use itertools::Itertools;
use vstd::prelude::*;

verus! {

/// `<` on string slices, which std defines as the order of their bytes. For
/// UTF-8 that is the order of the characters' numbers, position by
/// position, a proper prefix first.
#[verifier::external_body]
pub(crate) fn text_precedes(a: &str, b: &str) -> (r: bool)
    ensures
        r == text_less(a@, b@),
{
    a < b
}

/// How two entries stand to each other in a tally. Entries compare as equal
/// only if they agree in score, text and identity.
pub fn record_order(a: &VoteTally, b: &VoteTally) -> (r: Ordering)
    ensures
        r is Less <==> comes_before(a@, b@),
        r is Greater <==> comes_before(b@, a@),
{
    proof {
        lemma_text_less_connected(a@.text, b@.text);
    }
    if a.score > b.score {
        Ordering::Less
    } else if a.score < b.score {
        Ordering::Greater
    } else if text_precedes(a.html_displayable_text.as_str(), b.html_displayable_text.as_str()) {
        Ordering::Less
    } else if text_precedes(b.html_displayable_text.as_str(), a.html_displayable_text.as_str()) {
        Ordering::Greater
    } else if a.id < b.id {
        Ordering::Less
    } else if a.id > b.id {
        Ordering::Greater
    } else {
        Ordering::Equal
    }
}

/// The entries as contracts see them.
pub open spec fn views(records: Seq<VoteTally>) -> Seq<RecordView> {
    records.map_values(|r: VoteTally| r@)
}

/// `Itertools::sorted_by` with `record_order`: the same entries, arranged so
/// that none stands after an entry that it comes before. The sort is std's
/// stable `sort_by`, which arranges its items so whenever the comparison is
/// a total order, as `record_order` is.
#[verifier::external_body]
pub(crate) fn sort_records(records: Vec<VoteTally>) -> (sorted: Vec<VoteTally>)
    ensures
        views(sorted@).to_multiset() == views(records@).to_multiset(),
        forall|i: int, j: int|
            0 <= i < j < sorted@.len() ==> !comes_before(
                (#[trigger] sorted@[j])@,
                (#[trigger] sorted@[i])@,
            ),
{
    records.into_iter().sorted_by(|a, b| record_order(a, b)).collect()
}

} // verus!
