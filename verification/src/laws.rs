//! What holds of rooms and tallies whatever their state.

use crate::ids::OptionId;
use crate::room_state::{RoomAction, RoomView, VotingStage};
use crate::room_state::invalid_vote_text;
use crate::server_state::{
    code_search, created, has_code, is_code_letter, is_room_code, room_code_draws, rooms_inv,
};
use crate::tally::RecordView;
use crate::text::{ascii_lower, lower_char};
use crate::tally::{
    comes_before, lemma_comes_before_connected, lemma_comes_before_transitive, text_less,
    TallyView,
};
use crate::BroadcastMsg;
use vstd::prelude::*;

verus! {

/// A second veto on the same option changes nothing.
pub proof fn law_veto_is_idempotent(room: RoomView, id: OptionId)
    ensures
        room.vetoing(id).vetoing(id) == room.vetoing(id),
{
    assert(room.vetoing(id).vetoing(id).options =~= room.vetoing(id).options);
}

/// A veto on an identity that names no option changes nothing.
pub proof fn law_veto_on_unknown_id(room: RoomView, id: OptionId)
    requires
        !room.has_id(id),
    ensures
        room.vetoing(id) == room,
{
    assert(room.vetoing(id).options =~= room.options);
}

/// A veto on an option that is vetoed already changes nothing.
pub proof fn law_veto_on_vetoed_option(room: RoomView, id: OptionId)
    requires
        forall|i: int|
            0 <= i < room.options.len() && (#[trigger] room.options[i]).id == id
                ==> room.options[i].vetoed,
    ensures
        room.vetoing(id) == room,
{
    assert(room.vetoing(id).options =~= room.options);
}

/// While a room is vetoing, a veto leaves the named option vetoed, and no
/// veto is lost by it: what was vetoed before is vetoed after.
pub proof fn law_veto_sticks(room: RoomView, id: OptionId, i: int)
    requires
        room.stage == VotingStage::Vetoing,
        0 <= i < room.options.len(),
    ensures
        room.vetoing(id).options.len() == room.options.len(),
        room.options[i].id == id ==> room.vetoing(id).options[i].vetoed,
        room.options[i].vetoed ==> room.vetoing(id).options[i].vetoed,
{
}

/// Two vetoes lead to the same room in either order.
pub proof fn law_vetoes_commute(room: RoomView, a: OptionId, b: OptionId)
    ensures
        room.vetoing(a).vetoing(b) == room.vetoing(b).vetoing(a),
{
    assert(room.vetoing(a).vetoing(b).options =~= room.vetoing(b).vetoing(a).options);
}

/// No action leads back from ranking to vetoing.
pub proof fn law_stage_never_goes_back(
    room: RoomView,
    action: RoomAction,
    after: RoomView,
    event: Option<BroadcastMsg>,
)
    requires
        room.step(action, after, event),
        room.stage == VotingStage::Ranking,
    ensures
        after.stage == VotingStage::Ranking,
{
}

/// Once a room is ranking, adding an option, a veto, the lifting of vetoes
/// and the end of vetoing change nothing, and nothing is published.
pub proof fn law_vetoing_actions_end_with_vetoing(
    room: RoomView,
    action: RoomAction,
    after: RoomView,
    event: Option<BroadcastMsg>,
)
    requires
        room.step(action, after, event),
        room.stage == VotingStage::Ranking,
        !(action is SubmitRanking),
    ensures
        after == room,
        event is None,
{
}

/// The end of vetoing is published once: whatever the room was, a second
/// end of vetoing changes nothing and publishes nothing.
pub proof fn law_finish_vetoing_publishes_once(
    room: RoomView,
    first: RoomView,
    first_event: Option<BroadcastMsg>,
    second: RoomView,
    second_event: Option<BroadcastMsg>,
)
    requires
        room.step(RoomAction::FinishVetoing, first, first_event),
        first.step(RoomAction::FinishVetoing, second, second_event),
    ensures
        first.stage == VotingStage::Ranking,
        first_event is Some <==> room.stage == VotingStage::Vetoing,
        second == first,
        second_event is None,
{
}

/// Every action leaves a consistent room consistent.
pub proof fn law_steps_keep_rooms_consistent(
    room: RoomView,
    action: RoomAction,
    after: RoomView,
    event: Option<BroadcastMsg>,
)
    requires
        room.inv(),
        room.step(action, after, event),
    ensures
        after.inv(),
        after.code == room.code,
{
    match action {
        RoomAction::AddOption(text) => {
            if room.accepts(text@) {
                crate::text::lemma_trimmed_is_fixed(text@);
                let id = choose|id: OptionId|
                    !room.has_id(id) && after == #[trigger] room.with_option(
                        id,
                        crate::text::trimmed(text@),
                    );
                assert forall|b: int, k: int|
                    0 <= b < after.ballots.len() && 0 <= k < after.ballots[b].len() implies after.has_id(
                    #[trigger] after.ballots[b][k],
                ) by {
                    let wanted = after.ballots[b][k];
                    assert(room.has_id(room.ballots[b][k]));
                    let i = choose|i: int|
                        0 <= i < room.options.len() && (#[trigger] room.options[i]).id == wanted;
                    assert(after.options[i].id == wanted);
                }
                assert forall|i: int, j: int| 0 <= i < j < after.options.len() implies (
                #[trigger] after.options[i]).id != (#[trigger] after.options[j]).id by {
                    if j < room.options.len() {
                        assert(room.options[i].id != room.options[j].id);
                    } else {
                        assert(room.options[i].id != id);
                    }
                }
                assert forall|i: int, j: int| 0 <= i < j < after.options.len() implies (
                #[trigger] after.options[i]).text != (#[trigger] after.options[j]).text by {
                    if j < room.options.len() {
                        assert(room.options[i].text != room.options[j].text);
                    } else {
                        assert(room.options[i].text != crate::text::trimmed(text@));
                    }
                }
                assert forall|i: int| 0 <= i < after.options.len() implies (
                #[trigger] after.options[i]).text.len() > 0 && crate::text::trimmed(
                    after.options[i].text,
                ) == after.options[i].text by {
                    if i < room.options.len() {
                        assert(room.options[i].text.len() > 0);
                    }
                }
            }
        },
        RoomAction::VetoOption(_) | RoomAction::ResetAllVetoes => {
            lemma_flags_keep_inv(room, after);
        },
        RoomAction::FinishVetoing => {
            assert forall|b: int, k: int|
                0 <= b < after.ballots.len() && 0 <= k < after.ballots[b].len() implies after.has_id(
                #[trigger] after.ballots[b][k],
            ) by {
                let wanted = after.ballots[b][k];
                assert(room.has_id(room.ballots[b][k]));
                let i = choose|i: int|
                    0 <= i < room.options.len() && (#[trigger] room.options[i]).id == wanted;
                assert(after.options[i].id == wanted);
            }
        },
        RoomAction::SubmitRanking(text) => {
            if room.stage == VotingStage::Ranking {
                let ballot = room.ballot_of(text@);
                assert forall|b: int, k: int|
                    0 <= b < after.ballots.len() && 0 <= k < after.ballots[b].len() implies after.has_id(
                    #[trigger] after.ballots[b][k],
                ) by {
                    let wanted = after.ballots[b][k];
                    if b < room.ballots.len() {
                        assert(room.has_id(room.ballots[b][k]));
                    } else {
                        crate::room_state::RoomState::lemma_ballot_names_options(room, text@, k);
                        assert(wanted == ballot[k]);
                    }
                    let i = choose|i: int|
                        0 <= i < room.options.len() && (#[trigger] room.options[i]).id == wanted;
                    assert(after.options[i].id == wanted);
                }
            }
        },
    }
}

/// A room stays consistent when only veto flags change.
pub proof fn lemma_flags_keep_inv(before: RoomView, after: RoomView)
    requires
        before.inv(),
        after.code == before.code,
        after.stage == before.stage,
        after.ballots == before.ballots,
        after.options.len() == before.options.len(),
        forall|i: int|
            0 <= i < before.options.len() ==> (#[trigger] after.options[i]).id
                == before.options[i].id && after.options[i].text == before.options[i].text,
    ensures
        after.inv(),
{
    assert forall|b: int, k: int|
        0 <= b < after.ballots.len() && 0 <= k < after.ballots[b].len() implies after.has_id(
        #[trigger] after.ballots[b][k],
    ) by {
        let wanted = after.ballots[b][k];
        assert(before.has_id(before.ballots[b][k]));
        let i = choose|i: int|
            0 <= i < before.options.len() && (#[trigger] before.options[i]).id == wanted;
        assert(after.options[i].id == wanted);
    }
    assert forall|i: int, j: int| 0 <= i < j < after.options.len() implies (
    #[trigger] after.options[i]).id != (#[trigger] after.options[j]).id by {
        assert(before.options[i].id != before.options[j].id);
    }
    assert forall|i: int, j: int| 0 <= i < j < after.options.len() implies (
    #[trigger] after.options[i]).text != (#[trigger] after.options[j]).text by {
        assert(before.options[i].text != before.options[j].text);
    }
    assert forall|i: int| 0 <= i < after.options.len() implies (
    #[trigger] after.options[i]).text.len() > 0 && crate::text::trimmed(after.options[i].text)
        == after.options[i].text by {
        assert(before.options[i].text.len() > 0);
    }
}

/// In a consistent registry no two rooms share a code, and a room that is
/// created gets a code that no room had before.
pub proof fn law_room_codes_are_unique(
    before: Seq<RoomView>,
    code: Seq<char>,
    list: Seq<char>,
    after: Seq<RoomView>,
    handle: usize,
    i: int,
)
    requires
        rooms_inv(before),
        created(before, code, list, after, handle),
        0 <= i < before.len(),
    ensures
        after[handle as int].code == code,
        after[i] == before[i],
        after[i].code != after[handle as int].code,
{
    assert(after.take(handle as int)[i] == after[i]);
    assert(before[i].code != code);
}

/// A room is found under its own code: codes are in lower case, which is
/// how they are looked up.
pub proof fn law_room_is_found_by_its_code(rooms: Seq<RoomView>, i: int)
    requires
        rooms_inv(rooms),
        0 <= i < rooms.len(),
    ensures
        ascii_lower(rooms[i].code) == rooms[i].code,
        has_code(rooms, ascii_lower(rooms[i].code)),
{
    let code = rooms[i].code;
    assert(is_room_code(code));
    assert forall|k: int| 0 <= k < code.len() implies lower_char(#[trigger] code[k]) == code[k] by {
        assert(is_code_letter(code[k]));
    }
    assert(ascii_lower(code) =~= code);
}

/// The order of a tally is a strict total order on entries with different
/// identities: no entry comes before itself, of two entries with different
/// identities exactly one comes before the other, and coming before is
/// transitive.
pub proof fn law_tally_order_is_total(a: RecordView, b: RecordView, c: RecordView)
    ensures
        !comes_before(a, a),
        !(comes_before(a, b) && comes_before(b, a)),
        a.id != b.id ==> comes_before(a, b) || comes_before(b, a),
        comes_before(a, b) && comes_before(b, c) ==> comes_before(a, c),
{
    lemma_comes_before_connected(a, a);
    lemma_comes_before_connected(a, b);
    if comes_before(a, b) && comes_before(b, c) {
        lemma_comes_before_transitive(a, b, c);
    }
}

/// A search for a free code fails only where every code drawn is taken,
/// which takes a room; and what it finds is a code of the proper form that
/// no room has.
pub proof fn law_code_search(rooms: Seq<RoomView>, draws: Seq<Seq<char>>, found: Option<Seq<char>>)
    requires
        room_code_draws(draws),
        code_search(rooms, draws, found),
    ensures
        found is None ==> rooms.len() > 0 && forall|k: int|
            0 <= k < draws.len() ==> has_code(rooms, #[trigger] draws[k]),
        found matches Some(code) ==> is_room_code(code) && !has_code(rooms, code),
        rooms.len() == 0 ==> found == Some(draws[0]),
{
    if found is None {
        assert(has_code(rooms, draws[0]));
    }
    if rooms.len() == 0 {
        assert(!has_code(rooms, draws[0]));
        let code = found->Some_0;
        let k = choose|k: int|
            0 <= k < draws.len() && k < crate::server_state::MAX_ROOM_CODE_ATTEMPTS && code
                == #[trigger] draws[k] && !has_code(rooms, code) && forall|j: int|
                0 <= j < k ==> has_code(rooms, #[trigger] draws[j]);
        if k > 0 {
            assert(has_code(rooms, draws[0]));
        }
    }
}

/// A ballot entry that names no option shows as the fixed text in the
/// tally; its score and ranks are counted as those of any other entry.
pub proof fn law_unknown_entry_shows_fixed_text(room: RoomView, id: OptionId)
    requires
        !room.has_id(id),
    ensures
        room.record_of(id).text == invalid_vote_text(),
        room.record_of(id).score == crate::tally::capped(crate::tally::score(room.ballots, id)),
        room.record_of(id).ranks == crate::tally::sorted_ranks(room.ballots, id),
{
}

/// In a tally the higher score stands first, and of two entries with the
/// same score the one with the lesser text.
pub proof fn law_tally_order(room: RoomView, ids: Seq<OptionId>, out: Seq<TallyView>, k: int, l: int)
    requires
        room.is_tally(ids, out),
        0 <= k < l < out.len(),
    ensures
        out[k].score >= out[l].score,
        out[k].score == out[l].score ==> !text_less(out[l].text, out[k].text),
        out.len() > 0 ==> out[0].score >= out[l].score,
{
    let a = room.record_of(ids[k]);
    let b = room.record_of(ids[l]);
    assert(comes_before(a, b));
    assert(out[k] == a.entry());
    assert(out[l] == b.entry());
    crate::tally::lemma_text_less_connected(a.text, b.text);
    if k > 0 {
        assert(comes_before(room.record_of(ids[0]), b));
        assert(out[0] == room.record_of(ids[0]).entry());
    }
}

/// The order in which the ballots were handed in does not show in the
/// tally: the same ballots in another order give the same tally.
pub proof fn law_tally_ignores_submission_order(
    room: RoomView,
    other: RoomView,
    ids: Seq<OptionId>,
    out: Seq<TallyView>,
)
    requires
        other.options == room.options,
        other.ballots.to_multiset() == room.ballots.to_multiset(),
        room.is_tally(ids, out),
    ensures
        other.is_tally(ids, out),
{
    assert forall|id: OptionId| other.record_of(id) == room.record_of(id) by {
        crate::tally::lemma_longest_ignores_order(room.ballots, other.ballots);
        crate::tally::lemma_points_ignore_order(
            room.ballots,
            other.ballots,
            id,
            crate::tally::longest(room.ballots) as int,
        );
        crate::tally::lemma_ranks_ignore_order(room.ballots, other.ballots, id);
        assert(other.has_id(id) == room.has_id(id));
        assert(other.display_text(id) == room.display_text(id));
    }
    assert forall|id: OptionId| ids.contains(id) <==> crate::tally::appears(
        other.ballots,
        id,
    ) by {
        if crate::tally::appears(other.ballots, id) {
            crate::tally::lemma_appears_ignores_order(other.ballots, room.ballots, id);
        }
        if crate::tally::appears(room.ballots, id) {
            crate::tally::lemma_appears_ignores_order(room.ballots, other.ballots, id);
        }
    }
    assert forall|k: int, l: int| 0 <= k < l < ids.len() implies comes_before(
        other.record_of(#[trigger] ids[k]),
        other.record_of(#[trigger] ids[l]),
    ) by {
        assert(comes_before(room.record_of(ids[k]), room.record_of(ids[l])));
    }
}

/// A room has one tally only: the entries and their order are fixed by the
/// options and the ballots.
pub proof fn law_tally_is_unique(
    room: RoomView,
    ids1: Seq<OptionId>,
    out1: Seq<TallyView>,
    ids2: Seq<OptionId>,
    out2: Seq<TallyView>,
)
    requires
        room.is_tally(ids1, out1),
        room.is_tally(ids2, out2),
    ensures
        ids1 == ids2,
        out1 == out2,
{
    lemma_same_listing(room, ids1, ids2);
    assert(out1 =~= out2);
}

/// Two lists of the same identities, each without repetition and in the
/// order of a tally, are the same list.
proof fn lemma_same_listing(room: RoomView, ids1: Seq<OptionId>, ids2: Seq<OptionId>)
    requires
        ids1.no_duplicates(),
        ids2.no_duplicates(),
        forall|id: OptionId| ids1.contains(id) <==> ids2.contains(id),
        forall|k: int, l: int|
            0 <= k < l < ids1.len() ==> comes_before(
                room.record_of(#[trigger] ids1[k]),
                room.record_of(#[trigger] ids1[l]),
            ),
        forall|k: int, l: int|
            0 <= k < l < ids2.len() ==> comes_before(
                room.record_of(#[trigger] ids2[k]),
                room.record_of(#[trigger] ids2[l]),
            ),
    ensures
        ids1 =~= ids2,
    decreases ids1.len(),
{
    if ids1.len() == 0 {
        if ids2.len() > 0 {
            assert(ids2.contains(ids2[0]));
        }
    } else if ids2.len() == 0 {
        assert(ids1.contains(ids1[0]));
    } else {
        let first = ids1[0];
        assert(ids1.contains(first));
        let j = choose|j: int| 0 <= j < ids2.len() && ids2[j] == first;
        if j > 0 {
            let other = ids2[0];
            assert(ids2.contains(other));
            let i = choose|i: int| 0 <= i < ids1.len() && ids1[i] == other;
            assert(i != 0);
            assert(comes_before(room.record_of(ids1[0]), room.record_of(ids1[i])));
            assert(comes_before(room.record_of(ids2[0]), room.record_of(ids2[j])));
            lemma_comes_before_connected(room.record_of(first), room.record_of(other));
        }
        let rest1 = ids1.drop_first();
        let rest2 = ids2.drop_first();
        assert forall|id: OptionId| rest1.contains(id) <==> rest2.contains(id) by {
            if rest1.contains(id) {
                let i = choose|i: int| 0 <= i < rest1.len() && rest1[i] == id;
                assert(ids1[i + 1] == id);
                assert(ids1.contains(id));
                let m = choose|m: int| 0 <= m < ids2.len() && ids2[m] == id;
                assert(m != 0);
                assert(rest2[m - 1] == id);
            }
            if rest2.contains(id) {
                let i = choose|i: int| 0 <= i < rest2.len() && rest2[i] == id;
                assert(ids2[i + 1] == id);
                assert(ids2.contains(id));
                let m = choose|m: int| 0 <= m < ids1.len() && ids1[m] == id;
                assert(m != 0);
                assert(rest1[m - 1] == id);
            }
        }
        assert forall|k: int, l: int| 0 <= k < l < rest1.len() implies comes_before(
            room.record_of(#[trigger] rest1[k]),
            room.record_of(#[trigger] rest1[l]),
        ) by {
            assert(comes_before(room.record_of(ids1[k + 1]), room.record_of(ids1[l + 1])));
        }
        assert forall|k: int, l: int| 0 <= k < l < rest2.len() implies comes_before(
            room.record_of(#[trigger] rest2[k]),
            room.record_of(#[trigger] rest2[l]),
        ) by {
            assert(comes_before(room.record_of(ids2[k + 1]), room.record_of(ids2[l + 1])));
        }
        lemma_same_listing(room, rest1, rest2);
        assert(ids1 =~= seq![first] + rest1);
        assert(ids2 =~= seq![first] + rest2);
    }
}

} // verus!
