//! One session: the page that a participant is on, and how it changes.

use crate::pages::error_page::ErrorPage;
use crate::pages::ranking_page::RankingMsg;
use crate::pages::results_page::ResultsMsg;
use crate::pages::room_choice_page::RoomChoiceMsg;
use crate::pages::veto_page::VetoMsg;
use crate::pages::room_choice_page::RoomChoicePage;
use crate::pages::{
    outcome, page_updated, EventData, JsCommand, JsCommandView, Page, PageView, ResponseView,
};
use crate::server_state::ServerState;
use crate::BroadcastMsg;
use vstd::prelude::*;

verus! {

/// What can arrive at a session: an action of the participant, or the news
/// that the room has changed.
#[derive(Debug, PartialEq)]
pub enum AppMsg {
    RoomChoiceMsg(RoomChoiceMsg),
    VetoMsg(VetoMsg),
    RankingMsg(RankingMsg),
    ResultsMsg(ResultsMsg),
    Submit,
    Update,
}

/// A form with a single field `name`.
#[derive(Debug, Clone)]
pub struct FormSubmit {
    pub name: String,
}

/// The message by which a session learns of an event in its room.
pub fn notification(event: BroadcastMsg) -> (msg: AppMsg)
    ensures
        msg == match event {
            BroadcastMsg::UpdatedVetos => AppMsg::VetoMsg(VetoMsg::VetosUpdated),
            BroadcastMsg::FinishedVetoing => AppMsg::VetoMsg(VetoMsg::OtherUserFinishedVetoing),
            BroadcastMsg::UpdatedVotes => AppMsg::ResultsMsg(ResultsMsg::ResultsUpdated),
        },
{
    match event {
        BroadcastMsg::UpdatedVetos => AppMsg::VetoMsg(VetoMsg::VetosUpdated),
        BroadcastMsg::FinishedVetoing => AppMsg::VetoMsg(VetoMsg::OtherUserFinishedVetoing),
        BroadcastMsg::UpdatedVotes => AppMsg::ResultsMsg(ResultsMsg::ResultsUpdated),
    }
}

/// What a session's listener got from the channel of its room: an event,
/// the news that it was too slow and missed events, or the end of the
/// channel.
pub enum Received {
    Event(BroadcastMsg),
    Lagged,
    Closed,
}

/// What the listener does next.
pub enum ListenerStep {
    /// Hand this message to the session, then see `delivery_step`.
    Deliver(AppMsg),
    /// Wait for the next event.
    GoOn,
    /// End.
    Stop,
}

/// What the listener does with what it got. An event is handed on. Missed
/// events cost nothing but a late redraw, since a session reads its room
/// anew on every event: the listener goes on. At the end of the channel it
/// stops.
pub fn listener_step(received: Received) -> (step: ListenerStep)
    ensures
        step == match received {
            Received::Event(event) => ListenerStep::Deliver(
                match event {
                    BroadcastMsg::UpdatedVetos => AppMsg::VetoMsg(VetoMsg::VetosUpdated),
                    BroadcastMsg::FinishedVetoing => AppMsg::VetoMsg(
                        VetoMsg::OtherUserFinishedVetoing,
                    ),
                    BroadcastMsg::UpdatedVotes => AppMsg::ResultsMsg(ResultsMsg::ResultsUpdated),
                },
            ),
            Received::Lagged => ListenerStep::GoOn,
            Received::Closed => ListenerStep::Stop,
        },
{
    match received {
        Received::Event(event) => ListenerStep::Deliver(notification(event)),
        Received::Lagged => ListenerStep::GoOn,
        Received::Closed => ListenerStep::Stop,
    }
}

/// What the listener does after it tried to hand a message to its session:
/// it goes on if the session took it, and stops if the session is gone.
pub fn delivery_step(delivered: bool) -> (step: ListenerStep)
    ensures
        step == if delivered {
            ListenerStep::GoOn
        } else {
            ListenerStep::Stop
        },
{
    if delivered {
        ListenerStep::GoOn
    } else {
        ListenerStep::Stop
    }
}

/// The session of one participant: the page that they are on.
pub struct App {
    pub current_page: Page,
}

impl View for App {
    type V = PageView;

    open spec fn view(&self) -> PageView {
        self.current_page@
    }
}

/// What is left to do after an update: commands for the browser, an event
/// to publish to the room of the page, and a room to subscribe to.
pub struct Updated {
    pub js_commands: Vec<JsCommand>,
    pub broadcast: Option<BroadcastMsg>,
    pub subscribe: Option<usize>,
}

/// What is left to do after an update, as contracts see it.
pub struct UpdatedView {
    pub js_commands: Seq<JsCommandView>,
    pub broadcast: Option<BroadcastMsg>,
    pub subscribe: Option<usize>,
}

impl View for Updated {
    type V = UpdatedView;

    open spec fn view(&self) -> UpdatedView {
        UpdatedView {
            js_commands: self.js_commands@.map_values(|c: JsCommand| c@),
            broadcast: self.broadcast,
            subscribe: self.subscribe,
        }
    }
}

/// The page that a session is on after an update: the page that the
/// response names, the old page where it names none, and the error page
/// where the update failed.
pub open spec fn landing(page: PageView, result: Result<ResponseView, Seq<char>>) -> PageView {
    match result {
        Ok(response) => match response.next_page {
            Some(next) => next,
            None => page,
        },
        Err(reason) => PageView::Error { error: reason },
    }
}

/// What is left to do after an update with this result. Nothing where the
/// update failed.
pub open spec fn effects(result: Result<ResponseView, Seq<char>>) -> UpdatedView {
    match result {
        Ok(response) => UpdatedView {
            js_commands: match response.js_commands {
                Some(commands) => commands,
                None => Seq::empty(),
            },
            broadcast: response.broadcast,
            subscribe: response.subscribe,
        },
        Err(_) => UpdatedView { js_commands: Seq::empty(), broadcast: None, subscribe: None },
    }
}

impl App {
    /// A session on the given page.
    pub fn new(page: Page) -> (app: App)
        ensures
            app.current_page == page,
    {
        App { current_page: page }
    }

    /// A session that starts on the page of a room, where the room was
    /// found, and on the first page with the reason, where it was not. With
    /// the session comes the handle of the room to subscribe to, if any.
    pub fn starting_on_room_page(lookup: Result<(Page, usize), String>) -> (r: (App, Option<usize>))
        ensures
            match lookup {
                Ok((page, handle)) => r.0@ == page@ && r.1 == Some(handle),
                Err(reason) => r.0@ == (PageView::RoomChoice { message: Some(reason@) }) && r.1
                    is None,
            },
    {
        match lookup {
            Ok((page, handle)) => (App::new(page), Some(handle)),
            Err(reason) => (App::new(Page::RoomChoice(RoomChoicePage::new(Some(reason)))), None),
        }
    }

    /// Moves the session to the error page, which is final.
    pub fn fail(&mut self, reason: String)
        ensures
            final(self)@ == (PageView::Error { error: reason@ }),
    {
        self.current_page = Page::Error(ErrorPage::new(reason));
    }

    /// Handles one message: the current page answers it (see
    /// `page_updated`), the session moves to the page that the answer names,
    /// and what is left to do is handed back. A failure moves the session
    /// to the error page.
    pub fn update(&mut self, msg: AppMsg, data: EventData, server_shared_state: &mut ServerState) -> (updated:
        Updated)
        requires
            old(server_shared_state).wf(),
        ensures
            final(server_shared_state).wf(),
            exists|result: Result<ResponseView, Seq<char>>|
                #[trigger] page_updated(
                    old(self)@,
                    msg,
                    data,
                    old(server_shared_state)@,
                    final(server_shared_state)@,
                    result,
                ) && final(self)@ == landing(old(self)@, result) && updated@ == effects(result),
    {
        let ghost page_before = self@;
        let r = self.current_page.update(msg, data, server_shared_state);
        let ghost result = outcome(r);
        match r {
            Ok(response) => {
                assert(result == Ok::<ResponseView, Seq<char>>(response@));
                match response.next_page {
                    Some(page) => {
                        assert(response@.next_page == Some(page@));
                        self.current_page = page;
                    },
                    None => {
                        assert(response@.next_page is None);
                    },
                }
                assert(self@ == landing(page_before, result));
                let js_commands = match response.js_commands {
                    Some(commands) => {
                        assert(response@.js_commands == Some(
                            commands@.map_values(|c: JsCommand| c@),
                        ));
                        commands
                    },
                    None => {
                        assert(response@.js_commands is None);
                        let empty: Vec<JsCommand> = Vec::new();
                        assert(empty@.map_values(|c: JsCommand| c@) =~= Seq::<
                            JsCommandView,
                        >::empty());
                        empty
                    },
                };
                let updated = Updated {
                    js_commands,
                    broadcast: response.broadcast,
                    subscribe: response.subscribe,
                };
                assert(updated@ == effects(result));
                updated
            },
            Err(reason) => {
                self.fail(reason);
                let js_commands: Vec<JsCommand> = Vec::new();
                assert(js_commands@.map_values(|c: JsCommand| c@) =~= Seq::<JsCommandView>::empty());
                Updated { js_commands, broadcast: None, subscribe: None }
            },
        }
    }
}

} // verus!
