use what_do::room_state::{Option as RoomOption, RoomAction, RoomState, VotingStage};
use what_do::BroadcastMsg;

fn texts(room: &RoomState) -> Vec<String> {
    room.iter_options().iter().map(|o| o.text().to_string()).collect()
}

fn flags(room: &RoomState) -> Vec<bool> {
    room.iter_options().iter().map(|o| o.vetoed).collect()
}

fn ids(room: &RoomState) -> Vec<u128> {
    room.iter_options().iter().map(|o| o.id).collect()
}

#[test]
fn parse_options_keeps_first_occurrences() {
    let room = RoomState::new("abcd".to_string(), "a\na\n\n b \n".to_string());
    let options = room.iter_options();
    assert_eq!(options.len(), 2);
    assert_eq!(options[0].text(), "a");
    assert_eq!(options[1].text(), "b");
    assert!(!options[0].vetoed);
    assert!(!options[1].vetoed);
    assert_ne!(options[0].id, options[1].id);
    assert!(matches!(room.voting_stage(), VotingStage::Vetoing));
    assert_eq!(room.code(), "abcd");
    assert!(room.votes().is_empty());
}

#[test]
fn parse_options_compares_trimmed_lines() {
    let room = RoomState::new("abcd".to_string(), "tea\n  tea  \ncoffee\n\t\ntea".to_string());
    assert_eq!(texts(&room), vec!["tea", "coffee"]);
}

#[test]
fn parse_options_of_empty_text_gives_no_option() {
    let room = RoomState::new("abcd".to_string(), "".to_string());
    assert!(room.iter_options().is_empty());
    let blank = RoomState::new("abcd".to_string(), " \n\n  \n".to_string());
    assert!(blank.iter_options().is_empty());
}

#[test]
fn parse_options_is_case_sensitive() {
    let room = RoomState::new("abcd".to_string(), "Tea\ntea".to_string());
    assert_eq!(texts(&room), vec!["Tea", "tea"]);
}

#[test]
fn option_ids_are_distinct() {
    let list: Vec<String> = (0..200).map(|i| format!("option {}", i)).collect();
    let room = RoomState::new("abcd".to_string(), list.join("\n"));
    let mut seen = ids(&room);
    assert_eq!(seen.len(), 200);
    seen.sort();
    seen.dedup();
    assert_eq!(seen.len(), 200);
}

#[test]
fn add_option_appends_the_trimmed_text() {
    let mut room = RoomState::new("abcd".to_string(), "a".to_string());
    let event = room.add_option("  b ".to_string());
    assert_eq!(event, Some(BroadcastMsg::UpdatedVetos));
    assert_eq!(texts(&room), vec!["a", "b"]);
    assert_eq!(flags(&room), vec![false, false]);
    let all = ids(&room);
    assert_ne!(all[0], all[1]);
}

#[test]
fn add_option_passes_over_empty_and_known_texts() {
    let mut room = RoomState::new("abcd".to_string(), "a\nb".to_string());
    let before = ids(&room);
    assert_eq!(room.add_option("".to_string()), None);
    assert_eq!(room.add_option("   ".to_string()), None);
    assert_eq!(room.add_option("a".to_string()), None);
    assert_eq!(room.add_option(" b\t".to_string()), None);
    assert_eq!(texts(&room), vec!["a", "b"]);
    assert_eq!(ids(&room), before);
}

#[test]
fn veto_marks_the_option() {
    let mut room = RoomState::new("abcd".to_string(), "a\nb\nc".to_string());
    let all = ids(&room);
    assert_eq!(room.veto(all[1]), Some(BroadcastMsg::UpdatedVetos));
    assert_eq!(flags(&room), vec![false, true, false]);
    assert_eq!(ids(&room), all);
    assert_eq!(texts(&room), vec!["a", "b", "c"]);
}

#[test]
fn veto_twice_changes_nothing_the_second_time() {
    let mut room = RoomState::new("abcd".to_string(), "a\nb".to_string());
    let all = ids(&room);
    assert_eq!(room.veto(all[0]), Some(BroadcastMsg::UpdatedVetos));
    assert_eq!(room.veto(all[0]), None);
    assert_eq!(flags(&room), vec![true, false]);
    assert_eq!(ids(&room), all);
}

#[test]
fn veto_of_unknown_id_changes_nothing() {
    let mut room = RoomState::new("abcd".to_string(), "a\nb".to_string());
    let all = ids(&room);
    let mut unknown: u128 = 7;
    while all.contains(&unknown) {
        unknown += 1;
    }
    assert_eq!(room.veto(unknown), None);
    assert_eq!(flags(&room), vec![false, false]);
    assert_eq!(ids(&room), all);
}

#[test]
fn reset_all_vetos_lifts_every_veto() {
    let mut room = RoomState::new("abcd".to_string(), "a\nb\nc".to_string());
    let all = ids(&room);
    room.veto(all[0]);
    room.veto(all[2]);
    assert_eq!(room.reset_all_vetos(), Some(BroadcastMsg::UpdatedVetos));
    assert_eq!(flags(&room), vec![false, false, false]);
    assert_eq!(room.reset_all_vetos(), None);
    assert_eq!(texts(&room), vec!["a", "b", "c"]);
    assert_eq!(ids(&room), all);
}

#[test]
fn finish_vetoing_publishes_once() {
    let mut room = RoomState::new("abcd".to_string(), "a".to_string());
    assert_eq!(room.finish_vetoing(), Some(BroadcastMsg::FinishedVetoing));
    assert!(matches!(room.voting_stage(), VotingStage::Ranking));
    assert_eq!(room.finish_vetoing(), None);
    assert!(matches!(room.voting_stage(), VotingStage::Ranking));
}

#[test]
fn vetoing_actions_are_passed_over_while_ranking() {
    let mut room = RoomState::new("abcd".to_string(), "a\nb".to_string());
    let all = ids(&room);
    room.veto(all[0]);
    room.finish_vetoing();
    assert_eq!(room.add_option("c".to_string()), None);
    assert_eq!(room.veto(all[1]), None);
    assert_eq!(room.reset_all_vetos(), None);
    assert_eq!(texts(&room), vec!["a", "b"]);
    assert_eq!(flags(&room), vec![true, false]);
    assert!(matches!(room.voting_stage(), VotingStage::Ranking));
}

#[test]
fn vetoes_in_any_order_are_all_kept() {
    let list: Vec<String> = (0..50).map(|i| format!("option {}", i)).collect();
    let mut forward = RoomState::new("abcd".to_string(), list.join("\n"));
    let all = ids(&forward);
    for id in all.iter() {
        assert_eq!(forward.veto(*id), Some(BroadcastMsg::UpdatedVetos));
    }
    assert!(flags(&forward).iter().all(|v| *v));
    let mut backward = RoomState::new("abcd".to_string(), list.join("\n"));
    let other = ids(&backward);
    for id in other.iter().rev() {
        backward.veto(*id);
    }
    assert!(flags(&backward).iter().all(|v| *v));
}

#[test]
fn apply_carries_out_the_action() {
    let mut room = RoomState::new("abcd".to_string(), "a".to_string());
    assert_eq!(
        room.apply(RoomAction::AddOption("b".to_string())),
        Some(BroadcastMsg::UpdatedVetos)
    );
    let all = ids(&room);
    assert_eq!(room.apply(RoomAction::VetoOption(all[0])), Some(BroadcastMsg::UpdatedVetos));
    assert_eq!(flags(&room), vec![true, false]);
    assert_eq!(room.apply(RoomAction::ResetAllVetoes), Some(BroadcastMsg::UpdatedVetos));
    assert_eq!(flags(&room), vec![false, false]);
    assert_eq!(room.apply(RoomAction::SubmitRanking("".to_string())), None);
    assert_eq!(room.apply(RoomAction::FinishVetoing), Some(BroadcastMsg::FinishedVetoing));
    assert_eq!(room.apply(RoomAction::SubmitRanking("".to_string())), Some(BroadcastMsg::UpdatedVotes));
    assert_eq!(room.votes().len(), 1);
}

#[test]
fn has_text_and_has_id_find_options() {
    let room = RoomState::new("abcd".to_string(), "a\nb".to_string());
    assert!(room.has_text("a"));
    assert!(!room.has_text("A"));
    assert!(!room.has_text(" a"));
    let all = ids(&room);
    assert!(room.has_id(all[0]));
    assert!(room.has_id(all[1]));
}

#[test]
fn option_new_is_not_vetoed() {
    let option = RoomOption::new("tea".to_string());
    assert_eq!(option.text(), "tea");
    assert!(!option.vetoed);
    let with_id = RoomOption::with_id("tea".to_string(), 42);
    assert_eq!(with_id.id, 42);
    assert!(!with_id.vetoed);
}

#[test]
fn option_html_text_is_escaped() {
    let option = RoomOption::with_id("<b>Tom & Jerry</b>".to_string(), 1);
    assert_eq!(option.get_html_text(), "&lt;b&gt;Tom&#32;&amp;&#32;Jerry&lt;&#47;b&gt;");
    assert_eq!(option.text(), "<b>Tom & Jerry</b>");
}

#[test]
fn snapshot_copies_the_room_as_it_is() {
    let mut room = RoomState::new("abcd".to_string(), "a\nb".to_string());
    let all = ids(&room);
    room.veto(all[0]);
    let copy = room.snapshot();
    assert!(matches!(copy.stage, VotingStage::Vetoing));
    assert!(copy.ballots.is_empty());
    let seen: Vec<(u128, String, bool)> =
        copy.options.iter().map(|o| (o.id, o.text.clone(), o.vetoed)).collect();
    assert_eq!(seen, vec![(all[0], "a".to_string(), true), (all[1], "b".to_string(), false)]);
    room.finish_vetoing();
    room.contribute_votes("".to_string());
    assert!(copy.ballots.is_empty());
    let later = room.snapshot();
    assert!(matches!(later.stage, VotingStage::Ranking));
    assert_eq!(later.ballots, vec![vec![all[1]]]);
}

#[test]
fn html_text_replaces_fourteen_characters() {
    let table = [
        ('<', "&lt;"),
        ('>', "&gt;"),
        ('"', "&quot;"),
        ('\'', "&apos;"),
        ('`', "&grave;"),
        ('/', "&#47;"),
        ('&', "&amp;"),
        ('=', "&#61;"),
        (' ', "&#32;"),
        ('\t', "&#9;"),
        ('\n', "&#10;"),
        ('\u{c}', "&#12;"),
        ('\r', "&#13;"),
        ('\0', "&#65533;"),
    ];
    for code in 0..=0x10FFFFu32 {
        if let Some(c) = char::from_u32(code) {
            let shown = RoomOption::with_id(c.to_string(), 1).get_html_text();
            match table.iter().find(|(from, _)| *from == c) {
                Some((_, entity)) => assert_eq!(shown, *entity),
                None => assert_eq!(shown, c.to_string()),
            }
        }
    }
    let mixed = RoomOption::with_id("a=b`c\0".to_string(), 1).get_html_text();
    assert_eq!(mixed, "a&#61;b&grave;c&#65533;");
    assert_eq!(RoomOption::with_id("".to_string(), 1).get_html_text(), "");
}
