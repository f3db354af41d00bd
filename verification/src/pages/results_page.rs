//! The page that shows the tally.

use crate::app::AppMsg;
use crate::tally::FinalVoteTally;
use itertools::Itertools;
use ordinal::Ordinal;
use crate::pages::{nothing, outcome, AppUpdateResponse, EventData, ResponseView};
use crate::server_state::ServerState;
use vstd::prelude::*;

verus! {

/// What can arrive at the results page.
#[derive(Debug, PartialEq)]
pub enum ResultsMsg {
    ResultsUpdated,
}

/// The page of a participant who looks at the results of a room.
pub struct ResultsPage {
    pub room_code: String,
    /// The handle of the room in the registry.
    pub room: usize,
}

/// The character of a decimal digit.
pub open spec fn digit(d: nat) -> char {
    if d == 0 {
        '0'
    } else if d == 1 {
        '1'
    } else if d == 2 {
        '2'
    } else if d == 3 {
        '3'
    } else if d == 4 {
        '4'
    } else if d == 5 {
        '5'
    } else if d == 6 {
        '6'
    } else if d == 7 {
        '7'
    } else if d == 8 {
        '8'
    } else {
        '9'
    }
}

/// A number in decimal digits, without leading zeros.
pub open spec fn decimal(n: nat) -> Seq<char>
    decreases n,
{
    if n < 10 {
        seq![digit(n)]
    } else {
        decimal(n / 10).push(digit(n % 10))
    }
}

/// The ending of an English ordinal number: `st`, `nd`, `rd` or `th`.
pub open spec fn ordinal_suffix(n: nat) -> Seq<char> {
    if n % 10 == 1 && n % 100 != 11 {
        "st"@
    } else if n % 10 == 2 && n % 100 != 12 {
        "nd"@
    } else if n % 10 == 3 && n % 100 != 13 {
        "rd"@
    } else {
        "th"@
    }
}

/// The parts with `sep` between every two of them.
pub open spec fn joined(parts: Seq<Seq<char>>, sep: Seq<char>) -> Seq<char>
    decreases parts.len(),
{
    if parts.len() == 0 {
        Seq::empty()
    } else if parts.len() == 1 {
        parts[0]
    } else {
        joined(parts.drop_last(), sep) + sep + parts.last()
    }
}

/// `usize`'s `to_string`: the number in decimal digits.
#[verifier::external_body]
pub(crate) fn number_text(n: usize) -> (r: String)
    ensures
        r@ == decimal(n as nat),
{
    n.to_string()
}

/// `Ordinal`'s `to_string`: the number in decimal digits, followed by the
/// ending that the crate picks by the last digits of the number.
#[verifier::external_body]
pub(crate) fn ordinal_text(n: usize) -> (r: String)
    ensures
        r@ == decimal(n as nat) + ordinal_suffix(n as nat),
{
    Ordinal(n).to_string()
}

/// `Itertools::join`: the parts, each as it is, with `sep` between every
/// two of them; the empty string where there is no part.
#[verifier::external_body]
pub(crate) fn join_texts(parts: &Vec<String>, sep: &str) -> (r: String)
    ensures
        r@ == joined(parts.deep_view(), sep@),
{
    parts.iter().join(sep)
}

/// The ranks as they are shown: `1st, 2nd, 4th`.
pub open spec fn ranks_text(ranks: Seq<usize>) -> Seq<char> {
    joined(ranks.map_values(|r: usize| decimal(r as nat) + ordinal_suffix(r as nat)), ", "@)
}

/// The line that sums up one entry of the tally: text, ranks, score.
pub open spec fn summary_text(text: Seq<char>, ranks: Seq<usize>, score: usize) -> Seq<char> {
    text + " ("@ + ranks_text(ranks) + ") - "@ + decimal(score as nat)
}

/// The ranks as they are shown.
pub fn get_ranks_text(ranks: &Vec<usize>) -> (text: String)
    ensures
        text@ == ranks_text(ranks@),
{
    let mut parts: Vec<String> = Vec::new();
    let mut i: usize = 0;
    while i < ranks.len()
        invariant
            i <= ranks.len(),
            parts@.len() == i,
            forall|k: int|
                0 <= k < i ==> (#[trigger] parts@[k])@ == decimal(ranks@[k] as nat)
                    + ordinal_suffix(ranks@[k] as nat),
        decreases ranks.len() - i,
    {
        parts.push(ordinal_text(ranks[i]));
        i += 1;
    }
    assert(parts.deep_view() =~= ranks@.map_values(
        |r: usize| decimal(r as nat) + ordinal_suffix(r as nat),
    ));
    join_texts(&parts, ", ")
}

/// The line that sums up one entry of the tally.
pub fn get_summary_text(tally: &FinalVoteTally) -> (text: String)
    ensures
        text@ == summary_text(tally@.text, tally@.ranks, tally@.score),
{
    let ranks = get_ranks_text(&tally.ranks);
    let score = number_text(tally.score);
    tally.html_displayable_text.clone().concat(" (").concat(ranks.as_str()).concat(") - ").concat(
        score.as_str(),
    )
}

/// The score that marks a winner: the score of the first entry of the
/// tally, which no entry exceeds; 0 for an empty tally.
pub fn highest_score(tallies: &Vec<FinalVoteTally>) -> (score: usize)
    ensures
        score == if tallies@.len() == 0 {
            0
        } else {
            tallies@[0]@.score
        },
{
    if tallies.len() == 0 {
        0
    } else {
        tallies[0].score
    }
}

impl ResultsPage {
    /// Handles one message: the session stays on the results page, which
    /// is drawn anew from the room.
    pub fn update(&self, msg: AppMsg, data: EventData, server_shared_state: &mut ServerState) -> (r:
        Result<AppUpdateResponse, String>)
        ensures
            outcome(r) == Ok::<ResponseView, Seq<char>>(nothing()),
            final(server_shared_state)@ == old(server_shared_state)@,
            old(server_shared_state).wf() ==> final(server_shared_state).wf(),
    {
        Ok(AppUpdateResponse::stay())
    }
}

} // verus!
