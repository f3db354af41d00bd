//! The page of the vetoing stage.

use crate::app::AppMsg;
use crate::ids::{parse_id, parsed_id};
use crate::pages::ranking_page::RankingPage;
use crate::pages::{
    outcome, AppUpdateResponse, EventData, JsCommand, JsCommandView, Page, PageView, ResponseView,
};
use crate::room_state::{RoomAction, RoomView};
use crate::server_state::{applied, ServerState};
use vstd::prelude::*;

verus! {

/// What can arrive at the vetoing page.
#[derive(Debug, PartialEq)]
pub enum VetoMsg {
    /// Veto the option that this text identifies.
    VetoOption(String),
    VetosUpdated,
    ResetAllVetos,
    FinishVetoing,
    OtherUserFinishedVetoing,
    AddOption,
}

/// The form by which an option is added.
#[derive(Debug, Clone)]
pub struct AddOptionFormSubmit {
    pub option: String,
}

/// The page of a participant who is vetoing in a room.
pub struct VetoPage {
    pub room_code: String,
    /// The handle of the room in the registry.
    pub room: usize,
}

impl VetoPage {
    /// The vetoing page of the room with this code and handle.
    pub fn new(room_code: String, room: usize) -> (page: VetoPage)
        ensures
            page.room_code == room_code,
            page.room == room,
    {
        VetoPage { room_code, room }
    }
}

/// What a message asks the vetoing page to do to its room: nothing, an
/// action, or, where a form is needed and cannot be had, to fail.
pub open spec fn veto_action(msg: AppMsg, data: EventData) -> Result<Option<RoomAction>, Seq<char>> {
    match msg {
        AppMsg::VetoMsg(VetoMsg::VetoOption(text)) => match parsed_id(text@) {
            Some(id) => Ok(Some(RoomAction::VetoOption(id))),
            None => Ok(None),
        },
        AppMsg::VetoMsg(VetoMsg::ResetAllVetos) => Ok(Some(RoomAction::ResetAllVetoes)),
        AppMsg::VetoMsg(VetoMsg::AddOption) => match data.spec_add_option_form() {
            Ok(form) => Ok(Some(RoomAction::AddOption(form.option))),
            Err(reason) => Err(reason),
        },
        AppMsg::VetoMsg(VetoMsg::FinishVetoing) => Ok(Some(RoomAction::FinishVetoing)),
        _ => Ok(None),
    }
}

/// Whether a message moves the session from the vetoing page to the
/// ranking page: the participant ends the vetoing, or someone else did.
pub open spec fn leaves_vetoing(msg: AppMsg) -> bool {
    msg == AppMsg::VetoMsg(VetoMsg::FinishVetoing) || msg == AppMsg::VetoMsg(
        VetoMsg::OtherUserFinishedVetoing,
    )
}

/// The selector of the field in which a new option is entered.
pub open spec fn new_option_input() -> Seq<char> {
    "#newOptionInput"@
}

/// Whether the vetoing page of the room `room` can answer a message with
/// `result`, the rooms going from `before` to `after`.
///
/// The action that the message asks for is carried out on the room, and the
/// response holds the event to publish. The end of the vetoing, whoever
/// brought it about, leads to the ranking page. Where a form is needed and
/// cannot be had, the update fails and nothing changes.
pub open spec fn veto_updated(
    room_code: Seq<char>,
    room: usize,
    msg: AppMsg,
    data: EventData,
    before: Seq<RoomView>,
    after: Seq<RoomView>,
    result: Result<ResponseView, Seq<char>>,
) -> bool {
    match veto_action(msg, data) {
        Err(reason) => result == Err::<ResponseView, Seq<char>>(reason) && after == before,
        Ok(action) => result matches Ok(response) && {
            &&& response.next_page == if leaves_vetoing(msg) {
                Some(PageView::Ranking { room_code, room })
            } else {
                None
            }
            &&& response.js_commands == if msg == AppMsg::VetoMsg(VetoMsg::AddOption) {
                Some(seq![JsCommandView::ClearValue(new_option_input())])
            } else {
                None
            }
            &&& response.subscribe is None
            &&& match action {
                Some(a) => applied(before, room, a, after, response.broadcast),
                None => response.broadcast is None && after == before,
            }
        },
    }
}

impl VetoPage {
    /// Handles one message. A veto, the lifting of all vetoes, a new option
    /// and the end of the vetoing are carried out on the room; the response
    /// holds the event to publish, if the room changed. The end of the
    /// vetoing, whoever brought it about, leads to the ranking page.
    pub fn update(&self, msg: AppMsg, data: EventData, server_shared_state: &mut ServerState) -> (r:
        Result<AppUpdateResponse, String>)
        requires
            old(server_shared_state).wf(),
        ensures
            final(server_shared_state).wf(),
            veto_updated(
                self.room_code@,
                self.room,
                msg,
                data,
                old(server_shared_state)@,
                final(server_shared_state)@,
                outcome(r),
            ),
    {
        let mut response = AppUpdateResponse::stay();
        match msg {
            AppMsg::VetoMsg(VetoMsg::VetoOption(id_to_veto)) => {
                match parse_id(id_to_veto.as_str()) {
                    Some(id) => {
                        response.broadcast = server_shared_state.apply(
                            self.room,
                            RoomAction::VetoOption(id),
                        );
                    },
                    None => {},
                }
            },
            AppMsg::VetoMsg(VetoMsg::ResetAllVetos) => {
                response.broadcast = server_shared_state.apply(
                    self.room,
                    RoomAction::ResetAllVetoes,
                );
            },
            AppMsg::VetoMsg(VetoMsg::AddOption) => {
                match data.add_option_form() {
                    Ok(form) => {
                        response.broadcast = server_shared_state.apply(
                            self.room,
                            RoomAction::AddOption(form.option),
                        );
                        let mut commands: Vec<JsCommand> = Vec::new();
                        commands.push(JsCommand::ClearValue("#newOptionInput".to_owned()));
                        assert(commands@.map_values(|c: JsCommand| c@) =~= seq![
                            JsCommandView::ClearValue(new_option_input()),
                        ]);
                        response.js_commands = Some(commands);
                    },
                    Err(reason) => {
                        return Err(reason);
                    },
                }
            },
            AppMsg::VetoMsg(VetoMsg::FinishVetoing) => {
                response.broadcast = server_shared_state.apply(
                    self.room,
                    RoomAction::FinishVetoing,
                );
                response.next_page = Some(self.get_ranking_page());
            },
            AppMsg::VetoMsg(VetoMsg::OtherUserFinishedVetoing) => {
                response.next_page = Some(self.get_ranking_page());
            },
            _ => {},
        }
        Ok(response)
    }

    /// The ranking page of the same room.
    fn get_ranking_page(&self) -> (page: Page)
        ensures
            page@ == (PageView::Ranking { room_code: self.room_code@, room: self.room }),
    {
        Page::Ranking(RankingPage::new(self.room_code.clone(), self.room))
    }
}

} // verus!
