//! A room coordination engine for group decisions: candidates are vetoed,
//! the survivors are ranked, and a weighted tally names the winner.

use vstd::prelude::*;

pub mod app;
pub mod html;
pub mod ids;
pub mod laws;
pub mod option_map;
pub mod order;
pub mod pages;
pub mod room_state;
pub mod server_state;
pub mod tally;
pub mod text;

verus! {

/// What a room tells its subscribers after a change. The event names the kind
/// of change only; subscribers read the room again for the new state.
#[derive(Clone, Copy, Debug, PartialEq, Eq, Structural)]
pub enum BroadcastMsg {
    UpdatedVetos,
    FinishedVetoing,
    UpdatedVotes,
}

} // verus!
