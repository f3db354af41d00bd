use uuid::Uuid;
use what_do::app::{
    delivery_step, listener_step, notification, App, AppMsg, FormSubmit, ListenerStep, Received,
};
use what_do::pages::error_page::ErrorPage;
use what_do::pages::ranking_page::{RankingFormSubmit, RankingMsg, RankingPage};
use what_do::pages::results_page::{ResultsMsg, ResultsPage};
use what_do::pages::room_choice_page::{
    CreateRoomFormSubmit, JoinRoomFormSubmit, RoomChoiceMsg, RoomChoicePage,
};
use what_do::pages::veto_page::{AddOptionFormSubmit, VetoMsg, VetoPage};
use what_do::pages::{results_uri, room_uri, AppUpdateResponse, EventData, JsCommand, Page};
use what_do::room_state::VotingStage;
use what_do::server_state::ServerState;
use what_do::BroadcastMsg;

fn registry() -> ServerState {
    let mut state = ServerState::new();
    state.create_room_with_code("aaaa".to_string(), "x\ny".to_string()).unwrap();
    state.create_room_with_code("bbbb".to_string(), "z".to_string()).unwrap();
    state
}

fn pushed(commands: &[JsCommand]) -> Vec<String> {
    commands
        .iter()
        .map(|c| match c {
            JsCommand::HistoryPushState(path) => format!("push {}", path),
            JsCommand::ClearValue(selector) => format!("clear {}", selector),
        })
        .collect()
}

fn join(code: &str) -> EventData {
    EventData::JoinRoom(JoinRoomFormSubmit { room_code: code.to_string() })
}

#[test]
fn joining_an_unknown_room_stays_with_a_message() {
    let mut state = registry();
    let mut app = App::new(Page::RoomChoice(RoomChoicePage::new(None)));
    let updated = app.update(AppMsg::RoomChoiceMsg(RoomChoiceMsg::JoinRoom), join("QQQQ"), &mut state);
    assert!(updated.js_commands.is_empty());
    assert_eq!(updated.broadcast, None);
    assert_eq!(updated.subscribe, None);
    match &app.current_page {
        Page::RoomChoice(page) => {
            assert_eq!(page.join_error_msg, Some("Room \"qqqq\" not found".to_string()))
        }
        _ => panic!("the first page was expected"),
    }
    assert_eq!(state.room_count(), 2);
}

#[test]
fn joining_a_vetoing_room_leads_to_the_vetoing_page() {
    let mut state = registry();
    let mut app = App::new(Page::RoomChoice(RoomChoicePage::new(None)));
    let updated = app.update(AppMsg::RoomChoiceMsg(RoomChoiceMsg::JoinRoom), join("BbBb"), &mut state);
    assert_eq!(pushed(&updated.js_commands), vec!["push /room/bbbb"]);
    assert_eq!(updated.subscribe, Some(1));
    assert_eq!(updated.broadcast, None);
    match &app.current_page {
        Page::Veto(page) => {
            assert_eq!(page.room_code, "bbbb");
            assert_eq!(page.room, 1);
        }
        _ => panic!("the vetoing page was expected"),
    }
}

#[test]
fn joining_a_ranking_room_leads_to_the_ranking_page() {
    let mut state = registry();
    state.apply(0, what_do::room_state::RoomAction::FinishVetoing);
    let mut app = App::new(Page::RoomChoice(RoomChoicePage::new(None)));
    let updated = app.update(AppMsg::RoomChoiceMsg(RoomChoiceMsg::JoinRoom), join("aaaa"), &mut state);
    assert_eq!(pushed(&updated.js_commands), vec!["push /room/aaaa"]);
    assert_eq!(updated.subscribe, Some(0));
    assert!(matches!(&app.current_page, Page::Ranking(page) if page.room_code == "aaaa" && page.room == 0));
}

#[test]
fn creating_a_room_leads_to_its_vetoing_page() {
    let mut state = registry();
    let mut app = App::new(Page::RoomChoice(RoomChoicePage::new(None)));
    let data = EventData::CreateRoom(CreateRoomFormSubmit { options_text: "tea\ncoffee\ntea".to_string() });
    let updated = app.update(AppMsg::RoomChoiceMsg(RoomChoiceMsg::CreateRoom), data, &mut state);
    assert_eq!(state.room_count(), 3);
    assert_eq!(updated.subscribe, Some(2));
    assert_eq!(updated.broadcast, None);
    let code = state.room(2).unwrap().code().to_string();
    assert_eq!(pushed(&updated.js_commands), vec![format!("push /room/{}", code)]);
    assert!(matches!(&app.current_page, Page::Veto(page) if page.room_code == code && page.room == 2));
    let room = state.room(2).unwrap();
    assert!(matches!(room.voting_stage(), VotingStage::Vetoing));
    assert_eq!(room.iter_options().len(), 2);
}

#[test]
fn a_missing_form_leads_to_the_error_page() {
    let mut state = registry();
    let mut app = App::new(Page::RoomChoice(RoomChoicePage::new(None)));
    let updated = app.update(AppMsg::RoomChoiceMsg(RoomChoiceMsg::JoinRoom), EventData::Missing, &mut state);
    assert!(updated.js_commands.is_empty());
    assert_eq!(updated.subscribe, None);
    match &app.current_page {
        Page::Error(page) => {
            assert_eq!(page.error, "Missing event data");
            assert_eq!(page.message(), "Encountered an error: Missing event data");
        }
        _ => panic!("the error page was expected"),
    }
    let after = app.update(AppMsg::RoomChoiceMsg(RoomChoiceMsg::JoinRoom), join("aaaa"), &mut state);
    assert_eq!(after.subscribe, None);
    assert!(matches!(&app.current_page, Page::Error(_)));
}

#[test]
fn forms_that_cannot_be_had_give_their_reason() {
    assert_eq!(EventData::NotAForm.join_room_form().err(), Some("Event data was not a form".to_string()));
    assert_eq!(
        EventData::Malformed("missing field `option`".to_string()).add_option_form().err(),
        Some("missing field `option`".to_string())
    );
    assert_eq!(EventData::Missing.create_room_form().err(), Some("Missing event data".to_string()));
    assert_eq!(join("aaaa").ranking_form().err(), Some("Event data was not the expected form".to_string()));
    assert_eq!(join("aaaa").join_room_form().unwrap().room_code, "aaaa");
    let ranking = EventData::Ranking(RankingFormSubmit { ranked_options: "r".to_string() });
    assert_eq!(ranking.ranking_form().unwrap().ranked_options, "r");
    let add = EventData::AddOption(AddOptionFormSubmit { option: "o".to_string() });
    assert_eq!(add.add_option_form().unwrap().option, "o");
    let create = EventData::CreateRoom(CreateRoomFormSubmit { options_text: "c".to_string() });
    assert_eq!(create.create_room_form().unwrap().options_text, "c");
}

#[test]
fn messages_for_other_pages_are_passed_over() {
    let mut state = registry();
    let mut app = App::new(Page::RoomChoice(RoomChoicePage::new(Some("old".to_string()))));
    let updated = app.update(AppMsg::VetoMsg(VetoMsg::AddOption), EventData::Missing, &mut state);
    assert!(updated.js_commands.is_empty());
    assert!(matches!(&app.current_page, Page::RoomChoice(page) if page.join_error_msg == Some("old".to_string())));
    let mut veto = App::new(Page::Veto(VetoPage::new("aaaa".to_string(), 0)));
    veto.update(AppMsg::RankingMsg(RankingMsg::SubmitRanking), EventData::Missing, &mut state);
    assert!(matches!(&veto.current_page, Page::Veto(_)));
    veto.update(AppMsg::Submit, EventData::Missing, &mut state);
    veto.update(AppMsg::Update, EventData::Missing, &mut state);
    assert!(matches!(&veto.current_page, Page::Veto(_)));
    assert!(matches!(state.room(0).unwrap().voting_stage(), VotingStage::Vetoing));
}

#[test]
fn a_veto_is_carried_out_and_published() {
    let mut state = registry();
    let id = state.room(0).unwrap().iter_options()[1].id;
    let mut app = App::new(Page::Veto(VetoPage::new("aaaa".to_string(), 0)));
    let text = Uuid::from_u128(id).as_simple().to_string();
    let updated = app.update(AppMsg::VetoMsg(VetoMsg::VetoOption(text.clone())), EventData::Missing, &mut state);
    assert_eq!(updated.broadcast, Some(BroadcastMsg::UpdatedVetos));
    assert!(updated.js_commands.is_empty());
    let flags: Vec<bool> = state.room(0).unwrap().iter_options().iter().map(|o| o.vetoed).collect();
    assert_eq!(flags, vec![false, true]);
    let again = app.update(AppMsg::VetoMsg(VetoMsg::VetoOption(text)), EventData::Missing, &mut state);
    assert_eq!(again.broadcast, None);
    let bad = app.update(AppMsg::VetoMsg(VetoMsg::VetoOption("nonsense".to_string())), EventData::Missing, &mut state);
    assert_eq!(bad.broadcast, None);
    assert!(matches!(&app.current_page, Page::Veto(_)));
    let reset = app.update(AppMsg::VetoMsg(VetoMsg::ResetAllVetos), EventData::Missing, &mut state);
    assert_eq!(reset.broadcast, Some(BroadcastMsg::UpdatedVetos));
    let lifted: Vec<bool> = state.room(0).unwrap().iter_options().iter().map(|o| o.vetoed).collect();
    assert_eq!(lifted, vec![false, false]);
    let other: Vec<bool> = state.room(1).unwrap().iter_options().iter().map(|o| o.vetoed).collect();
    assert_eq!(other, vec![false]);
}

#[test]
fn adding_an_option_clears_the_input() {
    let mut state = registry();
    let mut app = App::new(Page::Veto(VetoPage::new("aaaa".to_string(), 0)));
    let data = EventData::AddOption(AddOptionFormSubmit { option: " w ".to_string() });
    let updated = app.update(AppMsg::VetoMsg(VetoMsg::AddOption), data, &mut state);
    assert_eq!(pushed(&updated.js_commands), vec!["clear #newOptionInput"]);
    assert_eq!(updated.broadcast, Some(BroadcastMsg::UpdatedVetos));
    let texts: Vec<String> =
        state.room(0).unwrap().iter_options().iter().map(|o| o.text().to_string()).collect();
    assert_eq!(texts, vec!["x", "y", "w"]);
    let known = EventData::AddOption(AddOptionFormSubmit { option: "x".to_string() });
    let second = app.update(AppMsg::VetoMsg(VetoMsg::AddOption), known, &mut state);
    assert_eq!(pushed(&second.js_commands), vec!["clear #newOptionInput"]);
    assert_eq!(second.broadcast, None);
    let failed = app.update(AppMsg::VetoMsg(VetoMsg::AddOption), EventData::NotAForm, &mut state);
    assert!(failed.js_commands.is_empty());
    assert!(matches!(&app.current_page, Page::Error(page) if page.error == "Event data was not a form"));
}

#[test]
fn finishing_the_vetoing_leads_everyone_to_ranking() {
    let mut state = registry();
    let mut acting = App::new(Page::Veto(VetoPage::new("aaaa".to_string(), 0)));
    let mut other = App::new(Page::Veto(VetoPage::new("aaaa".to_string(), 0)));
    let updated = acting.update(AppMsg::VetoMsg(VetoMsg::FinishVetoing), EventData::Missing, &mut state);
    assert_eq!(updated.broadcast, Some(BroadcastMsg::FinishedVetoing));
    assert!(matches!(&acting.current_page, Page::Ranking(page) if page.room_code == "aaaa" && page.room == 0));
    assert!(matches!(state.room(0).unwrap().voting_stage(), VotingStage::Ranking));
    let msg = notification(updated.broadcast.unwrap());
    assert_eq!(msg, AppMsg::VetoMsg(VetoMsg::OtherUserFinishedVetoing));
    let followed = other.update(msg, EventData::Missing, &mut state);
    assert_eq!(followed.broadcast, None);
    assert!(matches!(&other.current_page, Page::Ranking(page) if page.room_code == "aaaa" && page.room == 0));
    let mut late = App::new(Page::Veto(VetoPage::new("aaaa".to_string(), 0)));
    let second = late.update(AppMsg::VetoMsg(VetoMsg::FinishVetoing), EventData::Missing, &mut state);
    assert_eq!(second.broadcast, None);
    assert!(matches!(&late.current_page, Page::Ranking(_)));
}

#[test]
fn a_ranking_leads_to_the_results() {
    let mut state = registry();
    state.apply(0, what_do::room_state::RoomAction::FinishVetoing);
    let ids: Vec<u128> = state.room(0).unwrap().iter_options().iter().map(|o| o.id).collect();
    let mut app = App::new(Page::Ranking(RankingPage::new("aaaa".to_string(), 0)));
    let text = format!("{}\n{}", Uuid::from_u128(ids[1]).as_simple(), Uuid::from_u128(ids[0]).as_simple());
    let data = EventData::Ranking(RankingFormSubmit { ranked_options: text });
    let updated = app.update(AppMsg::RankingMsg(RankingMsg::SubmitRanking), data, &mut state);
    assert_eq!(updated.broadcast, Some(BroadcastMsg::UpdatedVotes));
    assert_eq!(pushed(&updated.js_commands), vec!["push /room/aaaa/results"]);
    assert!(matches!(&app.current_page, Page::Results(page) if page.room_code == "aaaa" && page.room == 0));
    assert_eq!(state.room(0).unwrap().votes(), &vec![vec![ids[1], ids[0]]]);
    assert_eq!(notification(BroadcastMsg::UpdatedVotes), AppMsg::ResultsMsg(ResultsMsg::ResultsUpdated));
    let stay = app.update(AppMsg::ResultsMsg(ResultsMsg::ResultsUpdated), EventData::Missing, &mut state);
    assert!(stay.js_commands.is_empty());
    assert_eq!(stay.broadcast, None);
    assert!(matches!(&app.current_page, Page::Results(_)));
}

#[test]
fn viewing_the_results_hands_in_no_ballot() {
    let mut state = registry();
    state.apply(0, what_do::room_state::RoomAction::FinishVetoing);
    let mut app = App::new(Page::Ranking(RankingPage::new("aaaa".to_string(), 0)));
    let updated = app.update(AppMsg::RankingMsg(RankingMsg::JustViewResults), EventData::Missing, &mut state);
    assert_eq!(updated.broadcast, None);
    assert_eq!(pushed(&updated.js_commands), vec!["push /room/aaaa/results"]);
    assert!(matches!(&app.current_page, Page::Results(_)));
    assert!(state.room(0).unwrap().votes().is_empty());
    let mut failing = App::new(Page::Ranking(RankingPage::new("aaaa".to_string(), 0)));
    failing.update(AppMsg::RankingMsg(RankingMsg::SubmitRanking), EventData::Missing, &mut state);
    assert!(matches!(&failing.current_page, Page::Error(page) if page.error == "Missing event data"));
    assert!(state.room(0).unwrap().votes().is_empty());
}

#[test]
fn notifications_become_messages() {
    assert_eq!(notification(BroadcastMsg::UpdatedVetos), AppMsg::VetoMsg(VetoMsg::VetosUpdated));
    assert_eq!(
        notification(BroadcastMsg::FinishedVetoing),
        AppMsg::VetoMsg(VetoMsg::OtherUserFinishedVetoing)
    );
    assert_eq!(notification(BroadcastMsg::UpdatedVotes), AppMsg::ResultsMsg(ResultsMsg::ResultsUpdated));
}

#[test]
fn a_session_starts_on_the_page_of_its_room() {
    let state = registry();
    let (app, subscribe) = App::starting_on_room_page(state.get_room_voting_page("aaaa"));
    assert_eq!(subscribe, Some(0));
    assert!(matches!(&app.current_page, Page::Veto(page) if page.room_code == "aaaa"));
    let (lost, none) = App::starting_on_room_page(state.get_room_results_page("nnnn"));
    assert_eq!(none, None);
    assert!(matches!(&lost.current_page, Page::RoomChoice(page) if page.join_error_msg == Some("Room \"nnnn\" not found".to_string())));
    let (results, handle) = App::starting_on_room_page(state.get_room_results_page("BBBB"));
    assert_eq!(handle, Some(1));
    assert!(matches!(&results.current_page, Page::Results(page) if page.room_code == "bbbb" && page.room == 1));
}

#[test]
fn fail_moves_to_the_error_page() {
    let mut app = App::new(Page::Results(ResultsPage { room_code: "aaaa".to_string(), room: 0 }));
    app.fail("channel closed".to_string());
    assert!(matches!(&app.current_page, Page::Error(page) if page.error == "channel closed"));
    let page = ErrorPage::new("x".to_string());
    assert_eq!(page.error, "x");
}

#[test]
fn page_update_answers_without_moving() {
    let mut state = registry();
    let page = Page::Veto(VetoPage::new("aaaa".to_string(), 0));
    let response: AppUpdateResponse =
        page.update(AppMsg::VetoMsg(VetoMsg::FinishVetoing), EventData::Missing, &mut state).unwrap();
    assert!(matches!(response.next_page, Some(Page::Ranking(_))));
    assert_eq!(response.broadcast, Some(BroadcastMsg::FinishedVetoing));
    assert_eq!(response.subscribe, None);
    assert!(response.js_commands.is_none());
    assert_eq!(page.room_code(), "aaaa");
    assert_eq!(Page::RoomChoice(RoomChoicePage::new(None)).room_code(), "");
    let stay = AppUpdateResponse::stay();
    assert!(stay.next_page.is_none() && stay.js_commands.is_none());
}

#[test]
fn paths_name_the_room() {
    assert_eq!(room_uri("abcd"), "/room/abcd");
    assert_eq!(results_uri("abcd"), "/room/abcd/results");
    let form = FormSubmit { name: "n".to_string() };
    assert_eq!(form.name, "n");
}

#[test]
fn the_listener_goes_on_after_missed_events() {
    assert!(matches!(listener_step(Received::Lagged), ListenerStep::GoOn));
    assert!(matches!(listener_step(Received::Closed), ListenerStep::Stop));
    match listener_step(Received::Event(BroadcastMsg::UpdatedVotes)) {
        ListenerStep::Deliver(msg) => assert_eq!(msg, AppMsg::ResultsMsg(ResultsMsg::ResultsUpdated)),
        _ => panic!("a message to deliver was expected"),
    }
    match listener_step(Received::Event(BroadcastMsg::FinishedVetoing)) {
        ListenerStep::Deliver(msg) => {
            assert_eq!(msg, AppMsg::VetoMsg(VetoMsg::OtherUserFinishedVetoing))
        }
        _ => panic!("a message to deliver was expected"),
    }
    match listener_step(Received::Event(BroadcastMsg::UpdatedVetos)) {
        ListenerStep::Deliver(msg) => assert_eq!(msg, AppMsg::VetoMsg(VetoMsg::VetosUpdated)),
        _ => panic!("a message to deliver was expected"),
    }
}

#[test]
fn the_listener_stops_when_the_session_is_gone() {
    assert!(matches!(delivery_step(true), ListenerStep::GoOn));
    assert!(matches!(delivery_step(false), ListenerStep::Stop));
}

#[test]
fn the_first_page_starts_without_a_message() {
    let page = RoomChoicePage::default();
    assert_eq!(page.join_error_msg, None);
}

#[test]
fn creating_a_room_in_an_empty_registry_succeeds() {
    for _ in 0..50 {
        let mut state = ServerState::new();
        let mut app = App::new(Page::RoomChoice(RoomChoicePage::default()));
        let data = EventData::CreateRoom(CreateRoomFormSubmit { options_text: "x".to_string() });
        let updated = app.update(AppMsg::RoomChoiceMsg(RoomChoiceMsg::CreateRoom), data, &mut state);
        assert_eq!(state.room_count(), 1);
        assert_eq!(updated.subscribe, Some(0));
        assert!(matches!(&app.current_page, Page::Veto(page) if page.room == 0));
    }
}
