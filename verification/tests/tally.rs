use std::cmp::Ordering;
use uuid::Uuid;
use what_do::order::record_order;
use what_do::pages::results_page::{get_ranks_text, get_summary_text, highest_score};
use what_do::room_state::{FinalVoteTally, RoomState};
use what_do::tally::{count_votes, longest_ballot, VoteTally};

fn option_ids(room: &RoomState) -> Vec<u128> {
    room.iter_options().iter().map(|o| o.id).collect()
}

fn ballot(ids: &[u128]) -> String {
    let lines: Vec<String> = ids.iter().map(|id| Uuid::from_u128(*id).as_simple().to_string()).collect();
    lines.join("\n")
}

fn room_with_ballots(list: &str, ballots: &[Vec<usize>]) -> RoomState {
    let mut room = RoomState::new("abcd".to_string(), list.to_string());
    let ids = option_ids(&room);
    room.finish_vetoing();
    for b in ballots {
        let picked: Vec<u128> = b.iter().map(|i| ids[*i]).collect();
        room.contribute_votes(ballot(&picked));
    }
    room
}

fn entry(t: &FinalVoteTally) -> (String, usize, Vec<usize>) {
    (t.html_displayable_text.clone(), t.score, t.ranks.clone())
}

#[test]
fn tally_weights_places_by_the_longest_ballot() {
    let room = room_with_ballots("A\nB", &[vec![0, 1], vec![1, 0], vec![0]]);
    let tallies = room.tally_votes();
    assert_eq!(tallies.len(), 2);
    assert_eq!(entry(&tallies[0]), ("A".to_string(), 5, vec![1, 1, 2]));
    assert_eq!(entry(&tallies[1]), ("B".to_string(), 3, vec![1, 2]));
    assert_eq!(highest_score(&tallies), 5);
    let winners: Vec<&FinalVoteTally> = tallies.iter().filter(|t| t.score == 5).collect();
    assert_eq!(winners.len(), 1);
    assert_eq!(winners[0].html_displayable_text, "A");
}

#[test]
fn tally_without_ballots_is_empty() {
    let room = room_with_ballots("A\nB", &[]);
    let tallies = room.tally_votes();
    assert!(tallies.is_empty());
    assert_eq!(highest_score(&tallies), 0);
    let vetoing = RoomState::new("abcd".to_string(), "A".to_string());
    assert!(vetoing.tally_votes().is_empty());
}

#[test]
fn tally_leaves_out_options_that_no_ballot_names() {
    let room = room_with_ballots("A\nB\nC", &[vec![2], vec![2, 0]]);
    let tallies = room.tally_votes();
    assert_eq!(tallies.len(), 2);
    assert_eq!(entry(&tallies[0]), ("C".to_string(), 4, vec![1, 1]));
    assert_eq!(entry(&tallies[1]), ("A".to_string(), 1, vec![2]));
}

#[test]
fn equal_scores_are_ordered_by_text() {
    let room = room_with_ballots("pear\napple\nfig", &[vec![0], vec![1], vec![2]]);
    let tallies = room.tally_votes();
    let names: Vec<String> = tallies.iter().map(|t| t.html_displayable_text.clone()).collect();
    assert_eq!(names, vec!["apple", "fig", "pear"]);
    assert!(tallies.iter().all(|t| t.score == 1));
    assert_eq!(highest_score(&tallies), 1);
}

#[test]
fn tally_does_not_depend_on_the_order_of_submission() {
    let first = room_with_ballots("pear\napple\nfig", &[vec![0, 1], vec![1, 0], vec![2]]);
    let second = room_with_ballots("pear\napple\nfig", &[vec![2], vec![1, 0], vec![0, 1]]);
    let third = room_with_ballots("fig\napple\npear", &[vec![1, 2], vec![0], vec![2, 1]]);
    let a: Vec<(String, usize, Vec<usize>)> = first.tally_votes().iter().map(entry).collect();
    let b: Vec<(String, usize, Vec<usize>)> = second.tally_votes().iter().map(entry).collect();
    let c: Vec<(String, usize, Vec<usize>)> = third.tally_votes().iter().map(entry).collect();
    assert_eq!(
        a,
        vec![
            ("apple".to_string(), 3, vec![1, 2]),
            ("pear".to_string(), 3, vec![1, 2]),
            ("fig".to_string(), 2, vec![1]),
        ]
    );
    assert_eq!(a, b);
    assert_eq!(a, c);
    for _ in 0..20 {
        let again: Vec<(String, usize, Vec<usize>)> = first.tally_votes().iter().map(entry).collect();
        assert_eq!(again, a);
    }
}

#[test]
fn tally_counts_every_place_of_a_repeated_option() {
    let room = room_with_ballots("A\nB", &[vec![0, 1, 0]]);
    let tallies = room.tally_votes();
    assert_eq!(entry(&tallies[0]), ("A".to_string(), 4, vec![1, 3]));
    assert_eq!(entry(&tallies[1]), ("B".to_string(), 2, vec![2]));
}

#[test]
fn tally_shows_escaped_texts() {
    let room = room_with_ballots("<i>x</i>", &[vec![0]]);
    let tallies = room.tally_votes();
    assert_eq!(tallies[0].html_displayable_text, "&lt;i&gt;x&lt;&#47;i&gt;");
}

#[test]
fn count_votes_gives_score_and_ranks_of_every_named_option() {
    let ballots: Vec<Vec<u128>> = vec![vec![1, 2, 3], vec![3, 1], vec![], vec![2]];
    assert_eq!(longest_ballot(&ballots), 3);
    let mut counts: Vec<(u128, usize, Vec<usize>)> =
        count_votes(&ballots).into_iter().map(|c| (c.id, c.score, c.ranks)).collect();
    counts.sort();
    assert_eq!(counts, vec![(1, 5, vec![1, 2]), (2, 5, vec![1, 2]), (3, 4, vec![1, 3])]);
    assert_eq!(longest_ballot(&Vec::new()), 0);
    assert!(count_votes(&Vec::new()).is_empty());
    assert!(count_votes(&vec![Vec::new(), Vec::new()]).is_empty());
}

#[test]
fn count_votes_counts_repeated_places() {
    let ballots: Vec<Vec<u128>> = vec![vec![7, 7, 9, 7], vec![9]];
    let mut counts: Vec<(u128, usize, Vec<usize>)> =
        count_votes(&ballots).into_iter().map(|c| (c.id, c.score, c.ranks)).collect();
    counts.sort();
    assert_eq!(counts, vec![(7, 8, vec![1, 2, 4]), (9, 6, vec![1, 3])]);
}

#[test]
fn count_votes_keeps_ranks_in_ascending_order() {
    let ballots: Vec<Vec<u128>> = vec![vec![1, 2, 3, 4], vec![4, 3, 2, 1], vec![2, 4], vec![4]];
    let counts = count_votes(&ballots);
    assert_eq!(counts.len(), 4);
    for count in counts.iter() {
        let mut sorted = count.ranks.clone();
        sorted.sort();
        assert_eq!(count.ranks, sorted);
    }
    let four = counts.iter().find(|c| c.id == 4).unwrap();
    assert_eq!(four.ranks, vec![1, 1, 2, 4]);
    assert_eq!(four.score, 1 + 4 + 3 + 4);
}

fn record(id: u128, text: &str, score: usize) -> VoteTally {
    VoteTally { id, html_displayable_text: text.to_string(), score, ranks: Vec::new() }
}

#[test]
fn record_order_puts_score_before_text_before_id() {
    assert_eq!(record_order(&record(1, "b", 5), &record(2, "a", 3)), Ordering::Less);
    assert_eq!(record_order(&record(1, "a", 3), &record(2, "b", 5)), Ordering::Greater);
    assert_eq!(record_order(&record(1, "a", 3), &record(2, "b", 3)), Ordering::Less);
    assert_eq!(record_order(&record(1, "b", 3), &record(2, "a", 3)), Ordering::Greater);
    assert_eq!(record_order(&record(1, "a", 3), &record(2, "ab", 3)), Ordering::Less);
    assert_eq!(record_order(&record(1, "B", 3), &record(2, "a", 3)), Ordering::Less);
    assert_eq!(record_order(&record(1, "a", 3), &record(2, "a", 3)), Ordering::Less);
    assert_eq!(record_order(&record(2, "a", 3), &record(1, "a", 3)), Ordering::Greater);
    assert_eq!(record_order(&record(1, "a", 3), &record(1, "a", 3)), Ordering::Equal);
}

#[test]
fn into_final_keeps_the_entry() {
    let made = VoteTally { id: 3, html_displayable_text: "x".to_string(), score: 4, ranks: vec![1, 2] };
    let reported = made.into_final();
    assert_eq!(entry(&reported), ("x".to_string(), 4, vec![1, 2]));
}

#[test]
fn ranks_text_uses_english_ordinals() {
    assert_eq!(get_ranks_text(&vec![1, 2, 3, 4]), "1st, 2nd, 3rd, 4th");
    assert_eq!(get_ranks_text(&vec![11, 12, 13]), "11th, 12th, 13th");
    assert_eq!(get_ranks_text(&vec![21, 22, 23, 101, 111, 112, 113]), "21st, 22nd, 23rd, 101st, 111th, 112th, 113th");
    assert_eq!(get_ranks_text(&vec![10]), "10th");
    assert_eq!(get_ranks_text(&Vec::new()), "");
}

#[test]
fn summary_text_names_text_ranks_and_score() {
    let tally = FinalVoteTally { html_displayable_text: "A".to_string(), score: 5, ranks: vec![1, 1, 2] };
    assert_eq!(get_summary_text(&tally), "A (1st, 1st, 2nd) - 5");
    let none = FinalVoteTally { html_displayable_text: "".to_string(), score: 0, ranks: Vec::new() };
    assert_eq!(get_summary_text(&none), " () - 0");
    let big = FinalVoteTally { html_displayable_text: "x".to_string(), score: 120, ranks: vec![3] };
    assert_eq!(get_summary_text(&big), "x (3rd) - 120");
}
