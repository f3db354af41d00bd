use what_do::pages::Page;
use what_do::room_state::{RoomAction, VotingStage};
use what_do::server_state::{random_room_code, ServerState, MAX_ROOM_CODE_ATTEMPTS, ROOM_CODE_LENGTH};
use what_do::BroadcastMsg;

fn is_code(code: &str) -> bool {
    code.chars().count() == 4 && code.chars().all(|c| ('a'..='z').contains(&c))
}

#[test]
fn random_room_codes_have_four_small_letters() {
    for _ in 0..200 {
        let code = random_room_code();
        assert!(is_code(&code));
    }
    assert_eq!(ROOM_CODE_LENGTH, 4);
    assert_eq!(MAX_ROOM_CODE_ATTEMPTS, 100);
}

#[test]
fn new_registry_is_empty() {
    let state = ServerState::new();
    assert_eq!(state.room_count(), 0);
    assert_eq!(state.find("abcd"), None);
    assert!(state.room(0).is_none());
}

#[test]
fn create_room_adds_a_vetoing_room() {
    let mut state = ServerState::new();
    let (code, handle) = state.create_room("a\nb\na".to_string()).unwrap();
    assert!(is_code(&code));
    assert_eq!(handle, 0);
    assert_eq!(state.room_count(), 1);
    let room = state.room(handle).unwrap();
    assert_eq!(room.code(), code);
    assert!(matches!(room.voting_stage(), VotingStage::Vetoing));
    let texts: Vec<String> = room.iter_options().iter().map(|o| o.text().to_string()).collect();
    assert_eq!(texts, vec!["a", "b"]);
    assert!(room.votes().is_empty());
}

#[test]
fn created_rooms_have_different_codes() {
    let mut state = ServerState::new();
    let mut codes: Vec<String> = Vec::new();
    for i in 0..300 {
        let (code, handle) = state.create_room(format!("option {}", i)).unwrap();
        assert_eq!(handle, i);
        assert!(!codes.contains(&code));
        assert_eq!(state.find(&code), Some(handle));
        codes.push(code);
    }
    assert_eq!(state.room_count(), 300);
    for (i, code) in codes.iter().enumerate() {
        assert_eq!(state.room(i).unwrap().code(), code);
    }
}

#[test]
fn create_room_with_code_refuses_a_taken_code() {
    let mut state = ServerState::new();
    assert_eq!(state.create_room_with_code("abcd".to_string(), "x".to_string()), Ok(0));
    assert_eq!(state.create_room_with_code("abcd".to_string(), "y".to_string()), Err(()));
    assert_eq!(state.room_count(), 1);
    let texts: Vec<String> =
        state.room(0).unwrap().iter_options().iter().map(|o| o.text().to_string()).collect();
    assert_eq!(texts, vec!["x"]);
    assert_eq!(state.create_room_with_code("abce".to_string(), "y".to_string()), Ok(1));
}

#[test]
fn create_room_with_code_refuses_codes_of_another_form() {
    let mut state = ServerState::new();
    assert_eq!(state.create_room_with_code("".to_string(), "x".to_string()), Err(()));
    assert_eq!(state.create_room_with_code("abc".to_string(), "x".to_string()), Err(()));
    assert_eq!(state.create_room_with_code("abcde".to_string(), "x".to_string()), Err(()));
    assert_eq!(state.create_room_with_code("ABCD".to_string(), "x".to_string()), Err(()));
    assert_eq!(state.create_room_with_code("ab1d".to_string(), "x".to_string()), Err(()));
    assert_eq!(state.create_room_with_code("abc ".to_string(), "x".to_string()), Err(()));
    assert_eq!(state.room_count(), 0);
    assert!(ServerState::check_room_code("wxyz"));
    assert!(!ServerState::check_room_code("wxyZ"));
    assert!(!ServerState::check_room_code("äbcd"));
}

#[test]
fn find_looks_the_code_up_in_lower_case() {
    let mut state = ServerState::new();
    state.create_room_with_code("abcd".to_string(), "x".to_string()).unwrap();
    state.create_room_with_code("wxyz".to_string(), "y".to_string()).unwrap();
    assert_eq!(state.find("abcd"), Some(0));
    assert_eq!(state.find("ABCD"), Some(0));
    assert_eq!(state.find("WxYz"), Some(1));
    assert_eq!(state.find("abce"), None);
    assert_eq!(state.find(""), None);
    assert_eq!(state.find_exact(&"ABCD".to_string()), None);
    assert_eq!(state.find_exact(&"abcd".to_string()), Some(0));
    assert!(state.is_taken(&"wxyz".to_string()));
    assert!(!state.is_taken(&"WXYZ".to_string()));
}

#[test]
fn first_free_code_skips_taken_codes() {
    let mut state = ServerState::new();
    state.create_room_with_code("aaaa".to_string(), "x".to_string()).unwrap();
    state.create_room_with_code("bbbb".to_string(), "x".to_string()).unwrap();
    let candidates = vec!["bbbb".to_string(), "aaaa".to_string(), "cccc".to_string(), "dddd".to_string()];
    assert_eq!(state.first_free_code(&candidates), Ok("cccc".to_string()));
    assert_eq!(state.first_free_code(&vec!["zzzz".to_string()]), Ok("zzzz".to_string()));
    assert_eq!(state.first_free_code(&Vec::new()), Err(()));
}

#[test]
fn first_free_code_gives_up_after_the_attempt_budget() {
    let mut state = ServerState::new();
    state.create_room_with_code("aaaa".to_string(), "x".to_string()).unwrap();
    let mut candidates: Vec<String> = (0..100).map(|_| "aaaa".to_string()).collect();
    assert_eq!(state.first_free_code(&candidates), Err(()));
    candidates.push("bbbb".to_string());
    assert_eq!(state.first_free_code(&candidates), Err(()));
    candidates[99] = "cccc".to_string();
    assert_eq!(state.first_free_code(&candidates), Ok("cccc".to_string()));
}

#[test]
fn valid_room_code_is_free() {
    let mut state = ServerState::new();
    for _ in 0..50 {
        let code = state.get_valid_room_code().unwrap();
        assert!(is_code(&code));
        assert!(!state.is_taken(&code));
        state.create_room_with_code(code, "x".to_string()).unwrap();
    }
}

#[test]
fn apply_changes_the_room_behind_the_handle_only() {
    let mut state = ServerState::new();
    state.create_room_with_code("aaaa".to_string(), "x".to_string()).unwrap();
    state.create_room_with_code("bbbb".to_string(), "y".to_string()).unwrap();
    assert_eq!(state.apply(1, RoomAction::AddOption("z".to_string())), Some(BroadcastMsg::UpdatedVetos));
    assert_eq!(state.apply(1, RoomAction::FinishVetoing), Some(BroadcastMsg::FinishedVetoing));
    assert_eq!(state.room(0).unwrap().iter_options().len(), 1);
    assert!(matches!(state.room(0).unwrap().voting_stage(), VotingStage::Vetoing));
    assert_eq!(state.room(1).unwrap().iter_options().len(), 2);
    assert!(matches!(state.room(1).unwrap().voting_stage(), VotingStage::Ranking));
    assert_eq!(state.apply(2, RoomAction::FinishVetoing), None);
    assert_eq!(state.room_count(), 2);
}

#[test]
fn voting_page_follows_the_stage_of_the_room() {
    let mut state = ServerState::new();
    state.create_room_with_code("aaaa".to_string(), "x".to_string()).unwrap();
    state.create_room_with_code("bbbb".to_string(), "y".to_string()).unwrap();
    state.apply(1, RoomAction::FinishVetoing);
    match state.get_room_voting_page("AAAA") {
        Ok((Page::Veto(page), handle)) => {
            assert_eq!(page.room_code, "aaaa");
            assert_eq!(page.room, 0);
            assert_eq!(handle, 0);
        }
        _ => panic!("the vetoing page was expected"),
    }
    match state.get_room_voting_page("bbbb") {
        Ok((Page::Ranking(page), handle)) => {
            assert_eq!(page.room_code, "bbbb");
            assert_eq!(page.room, 1);
            assert_eq!(handle, 1);
        }
        _ => panic!("the ranking page was expected"),
    }
    match state.get_room_voting_page("CcCc") {
        Err(reason) => assert_eq!(reason, "Room \"cccc\" not found"),
        Ok(_) => panic!("no room was expected"),
    }
}

#[test]
fn results_page_is_found_by_code() {
    let mut state = ServerState::new();
    state.create_room_with_code("aaaa".to_string(), "x".to_string()).unwrap();
    match state.get_room_results_page("Aaaa") {
        Ok((Page::Results(page), handle)) => {
            assert_eq!(page.room_code, "aaaa");
            assert_eq!(page.room, 0);
            assert_eq!(handle, 0);
        }
        _ => panic!("the results page was expected"),
    }
    match state.get_room_results_page("zzzz") {
        Err(reason) => assert_eq!(reason, "Room \"zzzz\" not found"),
        Ok(_) => panic!("no room was expected"),
    }
}

#[test]
fn an_empty_registry_always_has_a_free_code() {
    for _ in 0..100 {
        let state = ServerState::default();
        assert_eq!(state.room_count(), 0);
        let code = state.get_valid_room_code().unwrap();
        assert!(is_code(&code));
        let mut fresh = ServerState::new();
        let (made, handle) = fresh.create_room("x".to_string()).unwrap();
        assert!(is_code(&made));
        assert_eq!(handle, 0);
    }
}

#[test]
fn code_key_numbers_the_codes() {
    assert_eq!(what_do::server_state::code_key("aaaa"), Some(0));
    assert_eq!(what_do::server_state::code_key("aaab"), Some(1));
    assert_eq!(what_do::server_state::code_key("aaba"), Some(26));
    assert_eq!(what_do::server_state::code_key("baaa"), Some(26 * 26 * 26));
    assert_eq!(what_do::server_state::code_key("zzzz"), Some(26 * 26 * 26 * 26 - 1));
    assert_eq!(what_do::server_state::code_key("zzz"), None);
    assert_eq!(what_do::server_state::code_key("zzzzz"), None);
    assert_eq!(what_do::server_state::code_key("zzzZ"), None);
    assert_eq!(what_do::server_state::code_key("zz{z"), None);
    assert_eq!(what_do::server_state::code_key("`aaa"), None);
}

#[test]
fn many_rooms_are_found_by_their_codes() {
    let mut state = ServerState::new();
    let letters: Vec<char> = ('a'..='z').collect();
    let mut made = 0;
    for a in letters.iter() {
        for b in letters.iter() {
            let code: String = vec![*a, *b, 'q', 'x'].into_iter().collect();
            assert_eq!(state.create_room_with_code(code, "x".to_string()), Ok(made));
            made += 1;
        }
    }
    assert_eq!(state.room_count(), 676);
    assert_eq!(state.find("AAQX"), Some(0));
    assert_eq!(state.find("zzqx"), Some(675));
    assert_eq!(state.find("bcqx"), Some(28));
    assert_eq!(state.find("bcqy"), None);
    assert_eq!(state.room(28).unwrap().code(), "bcqx");
}
