//! The first page: join a room by its code, or create one.

use crate::app::AppMsg;
use crate::pages::veto_page::VetoPage;
use crate::pages::{
    nothing, outcome, room_path, room_uri, AppUpdateResponse, EventData, JsCommand, JsCommandView,
    Page, PageView, ResponseView,
};
use crate::room_state::RoomView;
use crate::server_state::{
    code_search, created, has_code, not_found_message, room_code_draws, voting_page,
    ServerState,
};
use crate::text::ascii_lower;
use vstd::prelude::*;

verus! {

/// What a participant can do on the first page.
#[derive(Debug, PartialEq)]
pub enum RoomChoiceMsg {
    JoinRoom,
    CreateRoom,
}

/// The form by which a room is joined.
#[derive(Debug, Clone)]
pub struct JoinRoomFormSubmit {
    pub room_code: String,
}

/// The form by which a room is created: the options, one per line.
#[derive(Debug, Clone)]
pub struct CreateRoomFormSubmit {
    pub options_text: String,
}

/// The first page. It shows why the last attempt to join or create a room
/// failed, if it did.
pub struct RoomChoicePage {
    pub join_error_msg: Option<String>,
}

/// What the page shows where no room could be created.
pub open spec fn creation_failed_message() -> Seq<char> {
    "No room could be created"@
}

/// The response that stays on the first page, which shows `reason`.
pub open spec fn complaint(reason: Seq<char>) -> ResponseView {
    ResponseView {
        next_page: Some(PageView::RoomChoice { message: Some(reason) }),
        js_commands: None,
        broadcast: None,
        subscribe: None,
    }
}

/// Whether the first page can answer a message with `result`, the rooms
/// going from `before` to `after`.
///
/// To join, the code of the form is looked up in lower case. If a room has
/// it, the response leads to the vetoing page or the ranking page of that
/// room, as its stage has it, and the session subscribes to the room. If
/// none has it, the response leads to a first page that says so.
///
/// To create, codes are drawn (see `room_code_draws`), and a room is made
/// from the options of the form under the first of them that no room has;
/// the response leads to its vetoing page, and the session subscribes to it.
/// Only if every code drawn is taken, no room is made: then nothing changes,
/// and the response leads to a first page that says so.
///
/// Where the form that the message needs cannot be had, the update fails
/// with the reason. Any other message is passed over.
pub open spec fn room_choice_updated(
    msg: AppMsg,
    data: EventData,
    before: Seq<RoomView>,
    after: Seq<RoomView>,
    result: Result<ResponseView, Seq<char>>,
) -> bool {
    match msg {
        AppMsg::RoomChoiceMsg(RoomChoiceMsg::JoinRoom) => {
            &&& after == before
            &&& match data.spec_join_room_form() {
                Err(reason) => result == Err::<ResponseView, Seq<char>>(reason),
                Ok(form) => result matches Ok(response) && {
                    let code = ascii_lower(form.room_code@);
                    if has_code(before, code) {
                        &&& response.subscribe matches Some(handle)
                        &&& handle < before.len()
                        &&& before[handle as int].code == code
                        &&& response.next_page == Some(
                            voting_page(before[handle as int].stage, code, handle),
                        )
                        &&& response.js_commands == Some(
                            seq![JsCommandView::HistoryPushState(room_path(code))],
                        )
                        &&& response.broadcast is None
                    } else {
                        response == complaint(not_found_message(code))
                    }
                },
            }
        },
        AppMsg::RoomChoiceMsg(RoomChoiceMsg::CreateRoom) => {
            match data.spec_create_room_form() {
                Err(reason) => result == Err::<ResponseView, Seq<char>>(reason) && after == before,
                Ok(form) => result matches Ok(response) && exists|draws: Seq<Seq<char>>|
                    #![trigger room_code_draws(draws)]
                    room_code_draws(draws) && {
                        ||| {
                            &&& response.next_page matches Some(
                                PageView::Veto { room_code, room },
                            )
                            &&& code_search(before, draws, Some(room_code))
                            &&& created(before, room_code, form.options_text@, after, room)
                            &&& response.subscribe == Some(room)
                            &&& response.js_commands == Some(
                                seq![JsCommandView::HistoryPushState(room_path(room_code))],
                            )
                            &&& response.broadcast is None
                        }
                        ||| {
                            &&& code_search(before, draws, None)
                            &&& response == complaint(creation_failed_message())
                            &&& after == before
                        }
                    },
            }
        },
        _ => result == Ok::<ResponseView, Seq<char>>(nothing()) && after == before,
    }
}

impl Default for RoomChoicePage {
    /// The first page without a message.
    fn default() -> (page: RoomChoicePage)
        ensures
            page.join_error_msg is None,
    {
        RoomChoicePage { join_error_msg: None }
    }
}

impl RoomChoicePage {
    /// Handles one message: see `room_choice_updated`.
    pub fn update(&self, msg: AppMsg, data: EventData, server_shared_state: &mut ServerState) -> (r:
        Result<AppUpdateResponse, String>)
        requires
            old(server_shared_state).wf(),
        ensures
            final(server_shared_state).wf(),
            room_choice_updated(
                msg,
                data,
                old(server_shared_state)@,
                final(server_shared_state)@,
                outcome(r),
            ),
    {
        match msg {
            AppMsg::RoomChoiceMsg(RoomChoiceMsg::JoinRoom) => {
                match data.join_room_form() {
                    Ok(form) => {
                        match server_shared_state.get_room_voting_page(form.room_code.as_str()) {
                            Ok((page, handle)) => {
                                let ghost code = ascii_lower(form.room_code@);
                                let path = room_uri(page.room_code());
                                assert(has_code(server_shared_state@, code));
                                Ok(Self::enter(page, path, handle))
                            },
                            Err(reason) => Ok(Self::complain(reason)),
                        }
                    },
                    Err(reason) => Err(reason),
                }
            },
            AppMsg::RoomChoiceMsg(RoomChoiceMsg::CreateRoom) => {
                match data.create_room_form() {
                    Ok(form) => {
                        match server_shared_state.create_room(form.options_text) {
                            Ok((room_code, handle)) => {
                                let path = room_uri(room_code.as_str());
                                let page = Page::Veto(VetoPage::new(room_code, handle));
                                Ok(Self::enter(page, path, handle))
                            },
                            Err(_) => Ok(Self::complain("No room could be created".to_owned())),
                        }
                    },
                    Err(reason) => Err(reason),
                }
            },
            _ => Ok(AppUpdateResponse::stay()),
        }
    }

    /// The response that stays on the first page, which shows `reason`.
    fn complain(reason: String) -> (response: AppUpdateResponse)
        ensures
            response@ == complaint(reason@),
    {
        AppUpdateResponse {
            next_page: Some(Page::RoomChoice(RoomChoicePage::new(Some(reason)))),
            js_commands: None,
            broadcast: None,
            subscribe: None,
        }
    }

    /// The response that leads to `page`, shows `path` in the address bar
    /// and subscribes to the room behind `handle`.
    fn enter(page: Page, path: String, handle: usize) -> (response: AppUpdateResponse)
        ensures
            response@.next_page == Some(page@),
            response@.js_commands == Some(seq![JsCommandView::HistoryPushState(path@)]),
            response@.broadcast is None,
            response@.subscribe == Some(handle),
    {
        let mut commands: Vec<JsCommand> = Vec::new();
        commands.push(JsCommand::HistoryPushState(path));
        assert(commands@.map_values(|c: JsCommand| c@) =~= seq![
            JsCommandView::HistoryPushState(path@),
        ]);
        AppUpdateResponse {
            next_page: Some(page),
            js_commands: Some(commands),
            broadcast: None,
            subscribe: Some(handle),
        }
    }

    /// The page with the given message.
    pub fn new(join_error_msg: Option<String>) -> (page: RoomChoicePage)
        ensures
            page.join_error_msg == join_error_msg,
    {
        RoomChoicePage { join_error_msg }
    }
}

} // verus!
