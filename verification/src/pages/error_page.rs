//! The page of a session that failed. A session never leaves it.

use crate::app::AppMsg;
use crate::pages::{nothing, outcome, AppUpdateResponse, EventData, ResponseView};
use crate::server_state::ServerState;
use vstd::prelude::*;

verus! {

/// The terminal page: it shows what went wrong.
pub struct ErrorPage {
    pub error: String,
}

impl ErrorPage {
    /// The page that shows `error`.
    pub fn new(error: String) -> (page: ErrorPage)
        ensures
            page.error@ == error@,
    {
        ErrorPage { error }
    }

    /// Handles one message: nothing leads away from this page.
    pub fn update(&self, msg: AppMsg, data: EventData, server_shared_state: &mut ServerState) -> (r:
        Result<AppUpdateResponse, String>)
        ensures
            outcome(r) == Ok::<ResponseView, Seq<char>>(nothing()),
            final(server_shared_state)@ == old(server_shared_state)@,
            old(server_shared_state).wf() ==> final(server_shared_state).wf(),
    {
        Ok(AppUpdateResponse::stay())
    }

    /// What the page shows.
    pub fn message(&self) -> (text: String)
        ensures
            text@ == "Encountered an error: "@ + self.error@,
    {
        String::from_str("Encountered an error: ").concat(self.error.as_str())
    }
}

} // verus!
