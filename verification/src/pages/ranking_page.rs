//! The page of the ranking stage.

use crate::app::AppMsg;
use crate::pages::results_page::ResultsPage;
use crate::pages::{
    outcome, results_path, results_uri, AppUpdateResponse, EventData, JsCommand, JsCommandView,
    Page, PageView, ResponseView,
};
use crate::room_state::{RoomAction, RoomView};
use crate::server_state::{applied, ServerState};
use vstd::prelude::*;

verus! {

/// What a participant can do on the ranking page.
#[derive(Debug, PartialEq)]
pub enum RankingMsg {
    SubmitRanking,
    JustViewResults,
}

/// The form by which a ranking is handed in: option identities, one per
/// line, the preferred one first.
#[derive(Debug, Clone)]
pub struct RankingFormSubmit {
    pub ranked_options: String,
}

/// The page of a participant who is ranking in a room.
pub struct RankingPage {
    pub room_code: String,
    /// The handle of the room in the registry.
    pub room: usize,
}

impl RankingPage {
    /// The ranking page of the room with this code and handle.
    pub fn new(room_code: String, room: usize) -> (page: RankingPage)
        ensures
            page.room_code == room_code,
            page.room == room,
    {
        RankingPage { room_code, room }
    }
}

/// What a message asks the ranking page to do to its room: nothing, to
/// take in a ranking, or, where the form cannot be had, to fail.
pub open spec fn ranking_action(msg: AppMsg, data: EventData) -> Result<
    Option<RoomAction>,
    Seq<char>,
> {
    match msg {
        AppMsg::RankingMsg(RankingMsg::SubmitRanking) => match data.spec_ranking_form() {
            Ok(form) => Ok(Some(RoomAction::SubmitRanking(form.ranked_options))),
            Err(reason) => Err(reason),
        },
        _ => Ok(None),
    }
}

/// Whether a message moves the session from the ranking page to the
/// results: a ranking is handed in, or the participant asks for the results
/// without ranking.
pub open spec fn leaves_ranking(msg: AppMsg) -> bool {
    msg == AppMsg::RankingMsg(RankingMsg::SubmitRanking) || msg == AppMsg::RankingMsg(
        RankingMsg::JustViewResults,
    )
}

/// Whether the ranking page of the room `room` can answer a message with
/// `result`, the rooms going from `before` to `after`.
///
/// A ranking is handed to the room, and the response holds the event to
/// publish. Both a ranking and the wish to see the results lead to the
/// results page. Where the form cannot be had, the update fails and nothing
/// changes.
pub open spec fn ranking_updated(
    room_code: Seq<char>,
    room: usize,
    msg: AppMsg,
    data: EventData,
    before: Seq<RoomView>,
    after: Seq<RoomView>,
    result: Result<ResponseView, Seq<char>>,
) -> bool {
    match ranking_action(msg, data) {
        Err(reason) => result == Err::<ResponseView, Seq<char>>(reason) && after == before,
        Ok(action) => result matches Ok(response) && {
            &&& response.next_page == if leaves_ranking(msg) {
                Some(PageView::Results { room_code, room })
            } else {
                None
            }
            &&& response.js_commands == if leaves_ranking(msg) {
                Some(seq![JsCommandView::HistoryPushState(results_path(room_code))])
            } else {
                None
            }
            &&& response.subscribe is None
            &&& match action {
                Some(a) => applied(before, room, a, after, response.broadcast),
                None => response.broadcast is None && after == before,
            }
        },
    }
}

impl RankingPage {
    /// Handles one message. A ranking is handed to the room; the response
    /// holds the event to publish, if the room changed. Both a ranking and
    /// the wish to see the results lead to the results page.
    pub fn update(&self, msg: AppMsg, data: EventData, server_shared_state: &mut ServerState) -> (r:
        Result<AppUpdateResponse, String>)
        requires
            old(server_shared_state).wf(),
        ensures
            final(server_shared_state).wf(),
            ranking_updated(
                self.room_code@,
                self.room,
                msg,
                data,
                old(server_shared_state)@,
                final(server_shared_state)@,
                outcome(r),
            ),
    {
        match msg {
            AppMsg::RankingMsg(RankingMsg::SubmitRanking) => {
                match data.ranking_form() {
                    Ok(form) => {
                        let event = server_shared_state.apply(
                            self.room,
                            RoomAction::SubmitRanking(form.ranked_options),
                        );
                        let mut response = self.get_results_page_response();
                        response.broadcast = event;
                        Ok(response)
                    },
                    Err(reason) => Err(reason),
                }
            },
            AppMsg::RankingMsg(RankingMsg::JustViewResults) => Ok(self.get_results_page_response()),
            _ => Ok(AppUpdateResponse::stay()),
        }
    }

    /// The response that leads to the results page of the same room.
    fn get_results_page_response(&self) -> (response: AppUpdateResponse)
        ensures
            response@.next_page == Some(
                PageView::Results { room_code: self.room_code@, room: self.room },
            ),
            response@.js_commands == Some(
                seq![JsCommandView::HistoryPushState(results_path(self.room_code@))],
            ),
            response@.broadcast is None,
            response@.subscribe is None,
    {
        let mut commands: Vec<JsCommand> = Vec::new();
        commands.push(JsCommand::HistoryPushState(results_uri(self.room_code.as_str())));
        assert(commands@.map_values(|c: JsCommand| c@) =~= seq![
            JsCommandView::HistoryPushState(results_path(self.room_code@)),
        ]);
        AppUpdateResponse {
            next_page: Some(
                Page::Results(ResultsPage { room_code: self.room_code.clone(), room: self.room }),
            ),
            js_commands: Some(commands),
            broadcast: None,
            subscribe: None,
        }
    }
}

} // verus!
