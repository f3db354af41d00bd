//! The pages of a session, and what an action on a page leads to.

use crate::pages::error_page::ErrorPage;
use crate::pages::ranking_page::{RankingFormSubmit, RankingPage};
use crate::pages::results_page::ResultsPage;
use crate::pages::room_choice_page::{CreateRoomFormSubmit, JoinRoomFormSubmit, RoomChoicePage};
use crate::pages::veto_page::{AddOptionFormSubmit, VetoPage};
use crate::app::AppMsg;
use crate::pages::ranking_page::ranking_updated;
use crate::pages::room_choice_page::room_choice_updated;
use crate::pages::veto_page::veto_updated;
use crate::room_state::RoomView;
use crate::server_state::ServerState;
use crate::BroadcastMsg;
use vstd::prelude::*;

pub mod error_page;
pub mod ranking_page;
pub mod results_page;
pub mod room_choice_page;
pub mod veto_page;

verus! {

/// A command for the participant's browser.
pub enum JsCommand {
    /// Show this path in the address bar.
    HistoryPushState(String),
    /// Empty the input field that this selector names.
    ClearValue(String),
}

/// A browser command as contracts see it.
pub enum JsCommandView {
    HistoryPushState(Seq<char>),
    ClearValue(Seq<char>),
}

impl View for JsCommand {
    type V = JsCommandView;

    open spec fn view(&self) -> JsCommandView {
        match self {
            JsCommand::HistoryPushState(path) => JsCommandView::HistoryPushState(path@),
            JsCommand::ClearValue(selector) => JsCommandView::ClearValue(selector@),
        }
    }
}

/// What came with an event, once it was decoded: nothing, something that
/// is no form, a form that could not be read (with the reason), or one of
/// the forms of the pages.
pub enum EventData {
    Missing,
    NotAForm,
    Malformed(String),
    JoinRoom(JoinRoomFormSubmit),
    CreateRoom(CreateRoomFormSubmit),
    AddOption(AddOptionFormSubmit),
    Ranking(RankingFormSubmit),
}

/// Why no form can be had from `data`, whatever form is wanted. `None`
/// where `data` holds a form.
pub open spec fn form_failure(data: EventData) -> Option<Seq<char>> {
    match data {
        EventData::Missing => Some("Missing event data"@),
        EventData::NotAForm => Some("Event data was not a form"@),
        EventData::Malformed(reason) => Some(reason@),
        _ => None,
    }
}

/// What is reported where `data` holds another form than the wanted one.
pub open spec fn wrong_form() -> Seq<char> {
    "Event data was not the expected form"@
}

impl EventData {
    /// The form to join a room, or why there is none.
    pub open spec fn spec_join_room_form(self) -> Result<JoinRoomFormSubmit, Seq<char>> {
        match self {
            EventData::JoinRoom(form) => Ok(form),
            _ => Err(
                match form_failure(self) {
                    Some(reason) => reason,
                    None => wrong_form(),
                },
            ),
        }
    }

    /// The form to create a room, or why there is none.
    pub open spec fn spec_create_room_form(self) -> Result<CreateRoomFormSubmit, Seq<char>> {
        match self {
            EventData::CreateRoom(form) => Ok(form),
            _ => Err(
                match form_failure(self) {
                    Some(reason) => reason,
                    None => wrong_form(),
                },
            ),
        }
    }

    /// The form to add an option, or why there is none.
    pub open spec fn spec_add_option_form(self) -> Result<AddOptionFormSubmit, Seq<char>> {
        match self {
            EventData::AddOption(form) => Ok(form),
            _ => Err(
                match form_failure(self) {
                    Some(reason) => reason,
                    None => wrong_form(),
                },
            ),
        }
    }

    /// The form to hand in a ranking, or why there is none.
    pub open spec fn spec_ranking_form(self) -> Result<RankingFormSubmit, Seq<char>> {
        match self {
            EventData::Ranking(form) => Ok(form),
            _ => Err(
                match form_failure(self) {
                    Some(reason) => reason,
                    None => wrong_form(),
                },
            ),
        }
    }

    /// Why there is no form of the wanted kind.
    fn failure(self) -> (reason: String)
        ensures
            reason@ == match form_failure(self) {
                Some(reason) => reason,
                None => wrong_form(),
            },
    {
        match self {
            EventData::Missing => "Missing event data".to_owned(),
            EventData::NotAForm => "Event data was not a form".to_owned(),
            EventData::Malformed(reason) => reason,
            _ => "Event data was not the expected form".to_owned(),
        }
    }

    /// The form to join a room, or why there is none.
    pub fn join_room_form(self) -> (r: Result<JoinRoomFormSubmit, String>)
        ensures
            match r {
                Ok(form) => self.spec_join_room_form() == Ok::<JoinRoomFormSubmit, Seq<char>>(form),
                Err(reason) => self.spec_join_room_form() == Err::<JoinRoomFormSubmit, Seq<char>>(
                    reason@,
                ),
            },
    {
        match self {
            EventData::JoinRoom(form) => Ok(form),
            other => Err(other.failure()),
        }
    }

    /// The form to create a room, or why there is none.
    pub fn create_room_form(self) -> (r: Result<CreateRoomFormSubmit, String>)
        ensures
            match r {
                Ok(form) => self.spec_create_room_form() == Ok::<CreateRoomFormSubmit, Seq<char>>(
                    form,
                ),
                Err(reason) => self.spec_create_room_form() == Err::<
                    CreateRoomFormSubmit,
                    Seq<char>,
                >(reason@),
            },
    {
        match self {
            EventData::CreateRoom(form) => Ok(form),
            other => Err(other.failure()),
        }
    }

    /// The form to add an option, or why there is none.
    pub fn add_option_form(self) -> (r: Result<AddOptionFormSubmit, String>)
        ensures
            match r {
                Ok(form) => self.spec_add_option_form() == Ok::<AddOptionFormSubmit, Seq<char>>(
                    form,
                ),
                Err(reason) => self.spec_add_option_form() == Err::<AddOptionFormSubmit, Seq<char>>(
                    reason@,
                ),
            },
    {
        match self {
            EventData::AddOption(form) => Ok(form),
            other => Err(other.failure()),
        }
    }

    /// The form to hand in a ranking, or why there is none.
    pub fn ranking_form(self) -> (r: Result<RankingFormSubmit, String>)
        ensures
            match r {
                Ok(form) => self.spec_ranking_form() == Ok::<RankingFormSubmit, Seq<char>>(form),
                Err(reason) => self.spec_ranking_form() == Err::<RankingFormSubmit, Seq<char>>(
                    reason@,
                ),
            },
    {
        match self {
            EventData::Ranking(form) => Ok(form),
            other => Err(other.failure()),
        }
    }
}

/// The page that a session is on.
pub enum Page {
    RoomChoice(RoomChoicePage),
    Veto(VetoPage),
    Ranking(RankingPage),
    Results(ResultsPage),
    Error(ErrorPage),
}

/// A page as contracts see it.
pub enum PageView {
    RoomChoice { message: Option<Seq<char>> },
    Veto { room_code: Seq<char>, room: usize },
    Ranking { room_code: Seq<char>, room: usize },
    Results { room_code: Seq<char>, room: usize },
    Error { error: Seq<char> },
}

impl View for Page {
    type V = PageView;

    open spec fn view(&self) -> PageView {
        match self {
            Page::RoomChoice(page) => PageView::RoomChoice {
                message: match page.join_error_msg {
                    Some(text) => Some(text@),
                    None => None,
                },
            },
            Page::Veto(page) => PageView::Veto { room_code: page.room_code@, room: page.room },
            Page::Ranking(page) => PageView::Ranking {
                room_code: page.room_code@,
                room: page.room,
            },
            Page::Results(page) => PageView::Results {
                room_code: page.room_code@,
                room: page.room,
            },
            Page::Error(page) => PageView::Error { error: page.error@ },
        }
    }
}

/// Whether the page `page` can answer a message with `result`, the rooms
/// going from `before` to `after`. The results page and the error page
/// answer every message with nothing.
pub open spec fn page_updated(
    page: PageView,
    msg: AppMsg,
    data: EventData,
    before: Seq<RoomView>,
    after: Seq<RoomView>,
    result: Result<ResponseView, Seq<char>>,
) -> bool {
    match page {
        PageView::RoomChoice { .. } => room_choice_updated(msg, data, before, after, result),
        PageView::Veto { room_code, room } => veto_updated(
            room_code,
            room,
            msg,
            data,
            before,
            after,
            result,
        ),
        PageView::Ranking { room_code, room } => ranking_updated(
            room_code,
            room,
            msg,
            data,
            before,
            after,
            result,
        ),
        _ => result == Ok::<ResponseView, Seq<char>>(nothing()) && after == before,
    }
}

impl Page {
    /// Handles one message on whatever page this is.
    pub fn update(&self, msg: AppMsg, data: EventData, server_shared_state: &mut ServerState) -> (r:
        Result<AppUpdateResponse, String>)
        requires
            old(server_shared_state).wf(),
        ensures
            final(server_shared_state).wf(),
            page_updated(
                self@,
                msg,
                data,
                old(server_shared_state)@,
                final(server_shared_state)@,
                outcome(r),
            ),
    {
        match self {
            Page::RoomChoice(page) => page.update(msg, data, server_shared_state),
            Page::Veto(page) => page.update(msg, data, server_shared_state),
            Page::Ranking(page) => page.update(msg, data, server_shared_state),
            Page::Results(page) => page.update(msg, data, server_shared_state),
            Page::Error(page) => page.update(msg, data, server_shared_state),
        }
    }

    /// The code of the room that the page belongs to; empty for a page
    /// without a room.
    pub fn room_code(&self) -> (code: &str)
        ensures
            code@ == match self@ {
                PageView::Veto { room_code, .. } => room_code,
                PageView::Ranking { room_code, .. } => room_code,
                PageView::Results { room_code, .. } => room_code,
                _ => Seq::<char>::empty(),
            },
    {
        match self {
            Page::Veto(page) => page.room_code.as_str(),
            Page::Ranking(page) => page.room_code.as_str(),
            Page::Results(page) => page.room_code.as_str(),
            _ => {
                proof {
                    reveal_strlit("");
                    assert(""@ =~= Seq::<char>::empty());
                }
                ""
            },
        }
    }
}

/// What an action on a page leads to.
pub struct AppUpdateResponse {
    /// The page to go to; `None` to stay.
    pub next_page: Option<Page>,
    /// Commands for the browser.
    pub js_commands: Option<Vec<JsCommand>>,
    /// The event to publish to the subscribers of the page's room.
    pub broadcast: Option<BroadcastMsg>,
    /// The handle of the room to whose events the session subscribes now.
    pub subscribe: Option<usize>,
}

/// A response as contracts see it.
pub struct ResponseView {
    pub next_page: Option<PageView>,
    pub js_commands: Option<Seq<JsCommandView>>,
    pub broadcast: Option<BroadcastMsg>,
    pub subscribe: Option<usize>,
}

impl View for AppUpdateResponse {
    type V = ResponseView;

    open spec fn view(&self) -> ResponseView {
        ResponseView {
            next_page: match self.next_page {
                Some(page) => Some(page@),
                None => None,
            },
            js_commands: match self.js_commands {
                Some(commands) => Some(commands@.map_values(|c: JsCommand| c@)),
                None => None,
            },
            broadcast: self.broadcast,
            subscribe: self.subscribe,
        }
    }
}

impl AppUpdateResponse {
    /// The response that asks for nothing.
    pub fn stay() -> (r: AppUpdateResponse)
        ensures
            r@ == nothing(),
    {
        AppUpdateResponse { next_page: None, js_commands: None, broadcast: None, subscribe: None }
    }
}

/// What an update came to, as contracts see it: a response, or the reason
/// of a failure.
pub open spec fn outcome(r: Result<AppUpdateResponse, String>) -> Result<ResponseView, Seq<char>> {
    match r {
        Ok(response) => Ok(response@),
        Err(reason) => Err(reason@),
    }
}

/// The response that asks for nothing.
pub open spec fn nothing() -> ResponseView {
    ResponseView { next_page: None, js_commands: None, broadcast: None, subscribe: None }
}

/// The path of a room's page.
pub open spec fn room_path(room_code: Seq<char>) -> Seq<char> {
    "/room/"@ + room_code
}

/// The path of a room's results page.
pub open spec fn results_path(room_code: Seq<char>) -> Seq<char> {
    "/room/"@ + room_code + "/results"@
}

/// The path of a room's page.
pub fn room_uri(room_code: &str) -> (path: String)
    ensures
        path@ == room_path(room_code@),
{
    String::from_str("/room/").concat(room_code)
}

/// The path of a room's results page.
pub fn results_uri(room_code: &str) -> (path: String)
    ensures
        path@ == results_path(room_code@),
{
    String::from_str("/room/").concat(room_code).concat("/results")
}

} // verus!
