//! One room: its options, its voting stage and its ballots.

use crate::html::{clean_text, escaped};
use crate::ids::{parse_id, parsed_id, random_id, OptionId};
use crate::option_map::{
    entries, has_key, map_contains, map_get, map_get_mut, map_insert, map_keys, map_len,
    map_values, new_map,
};
use crate::order::{sort_records, views};
use crate::tally::{
    appears, ballot_views, capped, comes_before, count_votes, lemma_comes_before_connected, score,
    sorted_ranks, tally_views, RecordView, TallyView, VoteTally,
};
use crate::text::{lines, option_texts, parse_option_texts, split_lines, trimmed};
use crate::BroadcastMsg;
use linked_hash_map::LinkedHashMap;
use vstd::prelude::*;
use vstd::set_lib::{lemma_int_range, lemma_len_subset, set_int_range};

pub use crate::tally::FinalVoteTally;

verus! {

/// The phase a room is in. A room starts in `Vetoing` and moves to `Ranking`
/// once; it never goes back.
#[derive(Clone, Copy, Debug, PartialEq, Eq, Structural)]
pub enum VotingStage {
    Vetoing,
    Ranking,
}

/// One candidate of a room. Its identity is `id`, not its text.
pub struct Option {
    pub text: String,
    pub vetoed: bool,
    pub id: OptionId,
}

/// An option as contracts see it.
pub struct OptionView {
    pub id: OptionId,
    pub text: Seq<char>,
    pub vetoed: bool,
}

impl View for Option {
    type V = OptionView;

    open spec fn view(&self) -> OptionView {
        OptionView { id: self.id, text: self.text@, vetoed: self.vetoed }
    }
}

impl Option {
    /// An option with the given text and identity, not vetoed.
    pub fn with_id(text: String, id: OptionId) -> (r: Option)
        ensures
            r@ == (OptionView { id, text: text@, vetoed: false }),
    {
        Option { text, vetoed: false, id }
    }

    /// An option with the given text and a random identity, not vetoed.
    pub fn new(text: String) -> (r: Option)
        ensures
            r@.text == text@,
            !r@.vetoed,
    {
        Option { text, vetoed: false, id: random_id() }
    }

    /// The text, made safe for display in a page.
    pub fn get_html_text(&self) -> (r: String)
        ensures
            r@ == escaped(self@.text),
    {
        clean_text(self.text.as_str())
    }

    /// The text as it was entered.
    pub fn text(&self) -> (r: &str)
        ensures
            r@ == self@.text,
    {
        self.text.as_str()
    }
}

/// Whether a text can be an option: it is not empty.
pub fn valid_option(option: &str) -> (valid: bool)
    ensures
        valid == (option@.len() > 0),
{
    !option.is_empty()
}

/// The identities that the lines of `text` denote, in order. A line that
/// denotes none is passed over.
pub open spec fn listed_ids(text: Seq<char>) -> Seq<OptionId> {
    lines(text).filter_map(|l: Seq<char>| parsed_id(l))
}

/// Reads a ballot text: one identity per line.
pub fn parse_votes(votes_text: &str) -> (ids: Vec<OptionId>)
    ensures
        ids@ == listed_ids(votes_text@),
{
    let pieces = split_lines(votes_text);
    let ghost all = lines(votes_text@);
    let ghost f = |l: Seq<char>| parsed_id(l);
    let mut ids: Vec<OptionId> = Vec::new();
    let mut i: usize = 0;
    assert(all.take(0) =~= Seq::<Seq<char>>::empty());
    while i < pieces.len()
        invariant
            i <= pieces.len(),
            pieces.deep_view() == all,
            f == |l: Seq<char>| parsed_id(l),
            ids@ == all.take(i as int).filter_map(f),
        decreases pieces.len() - i,
    {
        proof {
            all.lemma_filter_map_take_succ(f, i as int);
            assert(pieces[i as int]@ == all[i as int]);
        }
        match parse_id(pieces[i].as_str()) {
            Some(id) => {
                ids.push(id);
                assert(ids@ =~= all.take(i as int).filter_map(f) + seq![id]);
            },
            None => {
                assert(ids@ =~= all.take(i as int).filter_map(f) + Seq::<OptionId>::empty());
            },
        }
        i += 1;
    }
    assert(all.take(pieces.len() as int) =~= all);
    ids
}

/// What is shown for a ballot entry that names no option.
pub open spec fn invalid_vote_text() -> Seq<char> {
    "INVALID VOTE"@
}

/// What a participant can do to a room.
pub enum RoomAction {
    AddOption(String),
    VetoOption(OptionId),
    ResetAllVetoes,
    FinishVetoing,
    SubmitRanking(String),
}

/// What a room held at one moment: a copy to draw a page from. It does not
/// follow the room; after an event the room is to be read again.
pub struct RoomSnapshot {
    pub options: Vec<Option>,
    pub stage: VotingStage,
    pub ballots: Vec<Vec<OptionId>>,
}

/// A room as contracts see it.
pub struct RoomView {
    pub code: Seq<char>,
    pub options: Seq<OptionView>,
    pub stage: VotingStage,
    pub ballots: Seq<Seq<OptionId>>,
}

impl RoomView {
    /// Whether some option has this identity.
    pub open spec fn has_id(self, id: OptionId) -> bool {
        exists|i: int| 0 <= i < self.options.len() && (#[trigger] self.options[i]).id == id
    }

    /// Whether some option has this text.
    pub open spec fn has_text(self, text: Seq<char>) -> bool {
        exists|i: int| 0 <= i < self.options.len() && (#[trigger] self.options[i]).text == text
    }

    /// The room with one more option at the end, not vetoed.
    pub open spec fn with_option(self, id: OptionId, text: Seq<char>) -> RoomView {
        RoomView { options: self.options.push(OptionView { id, text, vetoed: false }), ..self }
    }

    /// Whether the room takes `text` as a new option: only while vetoing,
    /// and only a text that is not empty after trimming and not there yet.
    pub open spec fn accepts(self, text: Seq<char>) -> bool {
        &&& self.stage == VotingStage::Vetoing
        &&& trimmed(text).len() > 0
        &&& !self.has_text(trimmed(text))
    }

    /// The room after a veto on `id`: while vetoing, the option with that
    /// identity is vetoed; at any other time, and for an unknown identity,
    /// nothing changes.
    pub open spec fn vetoing(self, id: OptionId) -> RoomView {
        if self.stage == VotingStage::Vetoing {
            RoomView {
                options: self.options.map_values(
                    |o: OptionView|
                        if o.id == id {
                            OptionView { vetoed: true, ..o }
                        } else {
                            o
                        },
                ),
                ..self
            }
        } else {
            self
        }
    }

    /// The room after all vetoes were lifted, which happens only while
    /// vetoing.
    pub open spec fn without_vetoes(self) -> RoomView {
        if self.stage == VotingStage::Vetoing {
            RoomView {
                options: self.options.map_values(|o: OptionView| OptionView { vetoed: false, ..o }),
                ..self
            }
        } else {
            self
        }
    }

    /// The room in the ranking stage.
    pub open spec fn ranking(self) -> RoomView {
        RoomView { stage: VotingStage::Ranking, ..self }
    }

    /// The option with this identity. Only meaningful where there is one.
    pub open spec fn option_of(self, id: OptionId) -> OptionView {
        self.options[choose|i: int|
            0 <= i < self.options.len() && (#[trigger] self.options[i]).id == id]
    }

    /// What is shown for the identity `id`: the escaped text of the option
    /// that it names, or a fixed text where it names none.
    pub open spec fn display_text(self, id: OptionId) -> Seq<char> {
        if self.has_id(id) {
            escaped(self.option_of(id).text)
        } else {
            invalid_vote_text()
        }
    }

    /// Whether `action` can lead from this room to the room `after` with
    /// the event `event` to publish. Everything is fixed by the room and the
    /// action but the identity of an added option, which is fresh.
    pub open spec fn step(
        self,
        action: RoomAction,
        after: RoomView,
        event: core::option::Option<BroadcastMsg>,
    ) -> bool {
        match action {
            RoomAction::AddOption(text) => if self.accepts(text@) {
                &&& event == Some(BroadcastMsg::UpdatedVetos)
                &&& exists|id: OptionId|
                    !self.has_id(id) && after == #[trigger] self.with_option(id, trimmed(text@))
            } else {
                event.is_none() && after == self
            },
            RoomAction::VetoOption(id) => {
                &&& after == self.vetoing(id)
                &&& event == if after == self {
                    None
                } else {
                    Some(BroadcastMsg::UpdatedVetos)
                }
            },
            RoomAction::ResetAllVetoes => {
                &&& after == self.without_vetoes()
                &&& event == if after == self {
                    None
                } else {
                    Some(BroadcastMsg::UpdatedVetos)
                }
            },
            RoomAction::FinishVetoing => {
                &&& after == self.ranking()
                &&& event == if self.stage == VotingStage::Vetoing {
                    Some(BroadcastMsg::FinishedVetoing)
                } else {
                    None
                }
            },
            RoomAction::SubmitRanking(text) => {
                &&& after == self.with_ballot(text@)
                &&& event == if self.stage == VotingStage::Ranking {
                    Some(BroadcastMsg::UpdatedVotes)
                } else {
                    None
                }
            },
        }
    }

    /// Whether this is a room as it is made from a code and a list of
    /// options: in the vetoing stage, without ballots, with one option for
    /// every text of the list, in order, none of them vetoed.
    pub open spec fn is_new(self, code: Seq<char>, list: Seq<char>) -> bool {
        &&& self.code == code
        &&& self.stage == VotingStage::Vetoing
        &&& self.ballots.len() == 0
        &&& self.options.len() == option_texts(list).len()
        &&& forall|i: int|
            0 <= i < self.options.len() ==> (#[trigger] self.options[i]).text == option_texts(
                list,
            )[i] && !self.options[i].vetoed
    }

    /// The tally entry of the option `id`, with the option.
    pub open spec fn record_of(self, id: OptionId) -> RecordView {
        RecordView {
            id,
            text: self.display_text(id),
            score: capped(score(self.ballots, id)),
            ranks: sorted_ranks(self.ballots, id),
        }
    }

    /// Whether `out` is the tally of the room, its entries standing for the
    /// options `ids` in this order: there is one entry for every identity
    /// that a ballot names, and the entries are in the order of a tally (see
    /// `comes_before`).
    pub open spec fn is_tally(self, ids: Seq<OptionId>, out: Seq<TallyView>) -> bool {
        &&& ids.no_duplicates()
        &&& forall|id: OptionId| ids.contains(id) <==> appears(self.ballots, id)
        &&& out.len() == ids.len()
        &&& forall|k: int| 0 <= k < ids.len() ==> #[trigger] out[k] == self.record_of(ids[k]).entry()
        &&& forall|k: int, l: int|
            0 <= k < l < ids.len() ==> comes_before(
                self.record_of(#[trigger] ids[k]),
                self.record_of(#[trigger] ids[l]),
            )
    }

    /// The identities of the options that are not vetoed, in the order of
    /// the options.
    pub open spec fn eligible(self) -> Seq<OptionId> {
        self.options.filter_map(
            |o: OptionView|
                if o.vetoed {
                    None
                } else {
                    Some(o.id)
                },
        )
    }

    /// Those of `ids` that name an option of the room, in the same order.
    pub open spec fn known(self, ids: Seq<OptionId>) -> Seq<OptionId> {
        ids.filter(|id: OptionId| self.has_id(id))
    }

    /// The ballot that a ballot text stands for. An empty text stands for
    /// the options that are not vetoed, in their order. Any other text
    /// lists identities, of which those that name no option are dropped.
    pub open spec fn ballot_of(self, text: Seq<char>) -> Seq<OptionId> {
        if text.len() == 0 {
            self.eligible()
        } else {
            self.known(listed_ids(text))
        }
    }

    /// The room after a ballot text was handed in: while ranking, its ballot
    /// is the last one; at any other time nothing changes.
    pub open spec fn with_ballot(self, text: Seq<char>) -> RoomView {
        if self.stage == VotingStage::Ranking {
            RoomView { ballots: self.ballots.push(self.ballot_of(text)), ..self }
        } else {
            self
        }
    }

    /// No two options share an identity.
    pub open spec fn distinct_ids(self) -> bool {
        forall|i: int, j: int|
            0 <= i < j < self.options.len() ==> (#[trigger] self.options[i]).id != (
            #[trigger] self.options[j]).id
    }

    /// What holds of every room: identities and texts are unique, every text
    /// is trimmed and not empty, there are no ballots before ranking starts,
    /// and every ballot entry names an option of the room.
    pub open spec fn inv(self) -> bool {
        &&& self.distinct_ids()
        &&& forall|i: int, j: int|
            0 <= i < j < self.options.len() ==> (#[trigger] self.options[i]).text != (
            #[trigger] self.options[j]).text
        &&& forall|i: int|
            0 <= i < self.options.len() ==> (#[trigger] self.options[i]).text.len() > 0
                && trimmed(self.options[i].text) == self.options[i].text
        &&& self.stage == VotingStage::Vetoing ==> self.ballots.len() == 0
        &&& forall|b: int, k: int|
            0 <= b < self.ballots.len() && 0 <= k < self.ballots[b].len() ==> self.has_id(
                #[trigger] self.ballots[b][k],
            )
    }
}

/// If every number below `n` is a key of `s`, then `s` has at least `n`
/// entries.
proof fn lemma_keys_fill(s: Seq<(OptionId, OptionView)>, n: nat)
    requires
        n <= u128::MAX,
        forall|k: int| 0 <= k < n ==> has_key(s, #[trigger] (k as OptionId)),
    ensures
        n <= s.len(),
{
    let keys = s.map_values(|e: (OptionId, OptionView)| e.0 as int);
    keys.lemma_cardinality_of_set();
    broadcast use vstd::seq_lib::seq_to_set_is_finite;

    assert forall|k: int| set_int_range(0, n as int).contains(k) implies keys.to_set().contains(
        k,
    ) by {
        assert(has_key(s, k as OptionId));
        let i = choose|i: int| 0 <= i < s.len() && (#[trigger] s[i]).0 == k as OptionId;
        assert(keys[i] == k);
        assert(keys.contains(k));
    }
    lemma_int_range(0, n as int);
    lemma_len_subset(set_int_range(0, n as int), keys.to_set());
}

/// An identity that no entry of `map` has: a random one, or, should that
/// one be taken, the least one that is free.
fn unused_id(map: &LinkedHashMap<OptionId, Option>) -> (id: OptionId)
    ensures
        !has_key(entries(*map), id),
{
    let first = random_id();
    if !map_contains(map, first) {
        return first;
    }
    let n: usize = map_len(map);
    let mut candidate: OptionId = 0;
    while map_contains(map, candidate)
        invariant
            n == entries(*map).len(),
            candidate <= n,
            forall|k: int| 0 <= k < candidate ==> has_key(entries(*map), #[trigger] (k as OptionId)),
        decreases n - candidate,
    {
        proof {
            assert forall|k: int| 0 <= k < candidate + 1 implies has_key(
                entries(*map),
                #[trigger] (k as OptionId),
            ) by {}
            lemma_keys_fill(entries(*map), (candidate + 1) as nat);
        }
        candidate += 1;
    }
    candidate
}

/// One room. Its options keep the order in which they were added.
pub struct RoomState {
    code: String,
    options: LinkedHashMap<OptionId, Option>,
    voting_stage: VotingStage,
    votes: Vec<Vec<OptionId>>,
}

impl View for RoomState {
    type V = RoomView;

    closed spec fn view(&self) -> RoomView {
        RoomView {
            code: self.code@,
            options: entries(self.options).map_values(|e: (OptionId, OptionView)| e.1),
            stage: self.voting_stage,
            ballots: self.votes@.map_values(|b: Vec<OptionId>| b@),
        }
    }
}

impl RoomState {
    /// Every option is stored under its own identity.
    pub closed spec fn keyed(&self) -> bool {
        forall|i: int|
            0 <= i < entries(self.options).len() ==> (#[trigger] entries(self.options)[i]).0
                == entries(self.options)[i].1.id
    }

    /// An option can be found by its identity: options are stored under
    /// their identities, which differ. This is the part of `wf` that reading
    /// the room needs; it says nothing of the ballots.
    pub open spec fn indexed(&self) -> bool {
        self.keyed() && self@.distinct_ids()
    }

    /// The room is consistent: see `RoomView::inv`.
    pub open spec fn wf(&self) -> bool {
        self.keyed() && self@.inv()
    }

    /// A room in the vetoing stage without ballots, with the options that
    /// `original_input_text` lists, one per line.
    pub fn new(code: String, original_input_text: String) -> (room: RoomState)
        ensures
            room.wf(),
            room@.is_new(code@, original_input_text@),
    {
        let texts = parse_option_texts(original_input_text.as_str());
        let ghost wanted = option_texts(original_input_text@);
        proof {
            crate::text::lemma_first_occurrences(crate::text::kept_lines(original_input_text@));
            crate::text::lemma_kept_of_trimmed(crate::text::lines(original_input_text@));
        }
        let mut room = RoomState {
            code,
            options: new_map(),
            voting_stage: VotingStage::Vetoing,
            votes: Vec::new(),
        };
        assert(room@.options =~= Seq::<OptionView>::empty());
        assert(room@.ballots =~= Seq::<Seq<OptionId>>::empty());
        let mut i: usize = 0;
        while i < texts.len()
            invariant
                i <= texts.len(),
                texts.deep_view() == wanted,
                wanted.no_duplicates(),
                forall|k: int|
                    0 <= k < wanted.len() ==> crate::text::kept_lines(
                        original_input_text@,
                    ).contains(#[trigger] wanted[k]),
                forall|k: int|
                    0 <= k < crate::text::kept_lines(original_input_text@).len() ==> (
                    #[trigger] crate::text::kept_lines(original_input_text@)[k]).len() > 0
                        && trimmed(crate::text::kept_lines(original_input_text@)[k])
                        == crate::text::kept_lines(original_input_text@)[k],
                room.wf(),
                room@.code == code@,
                room@.stage == VotingStage::Vetoing,
                room@.ballots.len() == 0,
                room@.options.len() == i,
                forall|k: int|
                    0 <= k < i ==> (#[trigger] room@.options[k]).text == wanted[k]
                        && !room@.options[k].vetoed,
            decreases texts.len() - i,
        {
            let text = texts[i].clone();
            proof {
                assert(text@ == wanted[i as int]);
                assert(crate::text::kept_lines(original_input_text@).contains(wanted[i as int]));
                if room@.has_text(text@) {
                    let k = choose|k: int|
                        0 <= k < room@.options.len() && (#[trigger] room@.options[k]).text
                            == text@;
                    assert(wanted[k] == wanted[i as int]);
                }
            }
            room.push_option(text);
            i += 1;
        }
        room
    }

    /// Appends an option with a fresh identity.
    fn push_option(&mut self, text: String)
        requires
            old(self).wf(),
            text@.len() > 0,
            trimmed(text@) == text@,
            !old(self)@.has_text(text@),
        ensures
            final(self).wf(),
            exists|id: OptionId|
                !old(self)@.has_id(id) && final(self)@ == old(self)@.with_option(id, text@),
    {
        let id = unused_id(&self.options);
        let ghost before = entries(self.options);
        let ghost old_view = self@;
        let option = Option::with_id(text, id);
        proof {
            if old_view.has_id(id) {
                let i = choose|i: int|
                    0 <= i < old_view.options.len() && (#[trigger] old_view.options[i]).id == id;
                assert(before[i].0 == id);
            }
        }
        map_insert(&mut self.options, id, option);
        proof {
            let after = entries(self.options);
            assert(self@.options =~= old_view.options.push(option@));
            assert(self@ == old_view.with_option(id, text@));
            assert forall|b: int, k: int|
                0 <= b < self@.ballots.len() && 0 <= k < self@.ballots[b].len() implies self@.has_id(
                #[trigger] self@.ballots[b][k],
            ) by {
                let wanted = self@.ballots[b][k];
                assert(old_view.has_id(old_view.ballots[b][k]));
                let i = choose|i: int|
                    0 <= i < old_view.options.len() && (#[trigger] old_view.options[i]).id
                        == wanted;
                assert(self@.options[i].id == wanted);
            }
        }
    }

    /// Adds an option with the trimmed text, if the room accepts it (see
    /// `RoomView::accepts`); otherwise nothing changes. The result is the
    /// event to publish, if the room changed.
    pub fn add_option(&mut self, option: String) -> (event: core::option::Option<BroadcastMsg>)
        requires
            old(self).wf(),
        ensures
            final(self).wf(),
            old(self)@.accepts(option@) ==> event == Some(BroadcastMsg::UpdatedVetos) && exists|
                id: OptionId,
            |
                !old(self)@.has_id(id) && final(self)@ == old(self)@.with_option(
                    id,
                    trimmed(option@),
                ),
            !old(self)@.accepts(option@) ==> event.is_none() && final(self)@ == old(self)@,
    {
        if self.voting_stage != VotingStage::Vetoing {
            return None;
        }
        let text = crate::text::trim(option.as_str());
        if !valid_option(text.as_str()) || self.has_text(text.as_str()) {
            return None;
        }
        proof {
            crate::text::lemma_trimmed_is_fixed(option@);
        }
        self.push_option(text);
        Some(BroadcastMsg::UpdatedVetos)
    }

    /// Vetoes the option `id`. Outside the vetoing stage, for an unknown
    /// identity and for an option that is vetoed already, nothing changes.
    /// The result is the event to publish, if the room changed.
    pub fn veto(&mut self, id: OptionId) -> (event: core::option::Option<BroadcastMsg>)
        requires
            old(self).wf(),
        ensures
            final(self).wf(),
            final(self)@ == old(self)@.vetoing(id),
            event == if final(self)@ == old(self)@ {
                None
            } else {
                Some(BroadcastMsg::UpdatedVetos)
            },
    {
        if self.voting_stage != VotingStage::Vetoing {
            return None;
        }
        let ghost old_view = self@;
        let ghost before = entries(self.options);
        let mut changed = false;
        let ghost mut was: core::option::Option<OptionView> = None;
        let ghost mut now: core::option::Option<OptionView> = None;
        match map_get_mut(&mut self.options, id) {
            Some(option) => {
                proof {
                    was = Some(option@);
                }
                if !option.vetoed {
                    option.vetoed = true;
                    changed = true;
                }
                proof {
                    now = Some(option@);
                }
            },
            None => {},
        }
        proof {
            let after = entries(self.options);
            if was is Some {
                let i = choose|i: int|
                    0 <= i < before.len() && #[trigger] before[i] == (id, was.unwrap()) && after
                        == before.update(i, (id, now.unwrap()));
                assert forall|k: int| 0 <= k < before.len() implies (#[trigger] after[k]).1 == (
                if before[k].1.id == id {
                    OptionView { vetoed: true, ..before[k].1 }
                } else {
                    before[k].1
                }) by {
                    assert(old_view.options[k] == before[k].1);
                    assert(old_view.options[i] == before[i].1);
                    assert(before[k].0 == before[k].1.id);
                    assert(before[i].0 == before[i].1.id);
                    if k != i && before[k].1.id == id {
                        if k < i {
                            assert(old_view.options[k].id != old_view.options[i].id);
                        } else {
                            assert(old_view.options[i].id != old_view.options[k].id);
                        }
                    }
                }
                assert(self@.options =~= old_view.vetoing(id).options);
                if changed {
                    assert(self@.options[i] != old_view.options[i]);
                }
                assert forall|k: int| 0 <= k < after.len() implies (#[trigger] after[k]).0
                    == after[k].1.id by {
                    assert(before[k].0 == before[k].1.id);
                }
            } else {
                assert(after == before);
                assert forall|k: int| 0 <= k < before.len() implies (#[trigger] before[k]).1.id
                    != id by {
                    assert(before[k].0 == before[k].1.id);
                }
                assert(self@.options =~= old_view.vetoing(id).options);
            }
            assert(self@ == old_view.vetoing(id));
            if !changed {
                assert(self@.options =~= old_view.options);
            }
            crate::laws::lemma_flags_keep_inv(old_view, self@);
        }
        if changed {
            Some(BroadcastMsg::UpdatedVetos)
        } else {
            None
        }
    }

    /// Lifts every veto. Outside the vetoing stage nothing changes. The
    /// result is the event to publish, if the room changed.
    pub fn reset_all_vetos(&mut self) -> (event: core::option::Option<BroadcastMsg>)
        requires
            old(self).wf(),
        ensures
            final(self).wf(),
            final(self)@ == old(self)@.without_vetoes(),
            event == if final(self)@ == old(self)@ {
                None
            } else {
                Some(BroadcastMsg::UpdatedVetos)
            },
    {
        if self.voting_stage != VotingStage::Vetoing {
            return None;
        }
        let ghost old_view = self@;
        let ghost before = entries(self.options);
        let keys = map_keys(&self.options);
        let mut changed = false;
        let mut i: usize = 0;
        proof {
            assert forall|k: int, l: int| 0 <= k < l < before.len() implies (
            #[trigger] before[k]).0 != (#[trigger] before[l]).0 by {
                assert(old_view.options[k].id != old_view.options[l].id);
            }
        }
        while i < keys.len()
            invariant
                i <= keys.len(),
                keys@.len() == before.len(),
                forall|k: int| 0 <= k < keys@.len() ==> keys@[k] == (#[trigger] before[k]).0,
                forall|k: int| 0 <= k < before.len() ==> (#[trigger] before[k]).0 == before[k].1.id,
                forall|k: int, l: int|
                    0 <= k < l < before.len() ==> (#[trigger] before[k]).0 != (
                    #[trigger] before[l]).0,
                entries(self.options).len() == before.len(),
                forall|k: int|
                    0 <= k < i ==> #[trigger] entries(self.options)[k] == (
                        before[k].0,
                        OptionView { vetoed: false, ..before[k].1 },
                    ),
                forall|k: int|
                    i <= k < before.len() ==> #[trigger] entries(self.options)[k] == before[k],
                changed == exists|k: int| 0 <= k < i && (#[trigger] before[k]).1.vetoed,
                self.code == old(self).code,
                self.votes == old(self).votes,
                self.voting_stage == old(self).voting_stage,
            decreases keys.len() - i,
        {
            let ghost current = entries(self.options);
            let ghost mut was: core::option::Option<OptionView> = None;
            let ghost mut now: core::option::Option<OptionView> = None;
            let mut vetoed = false;
            match map_get_mut(&mut self.options, keys[i]) {
                Some(option) => {
                    proof {
                        was = Some(option@);
                    }
                    vetoed = option.vetoed;
                    option.vetoed = false;
                    proof {
                        now = Some(option@);
                    }
                },
                None => {},
            }
            proof {
                let after = entries(self.options);
                assert(current[i as int].0 == keys@[i as int]);
                assert(has_key(current, keys@[i as int]));
                assert(was is Some);
                let j = choose|j: int|
                    0 <= j < current.len() && #[trigger] current[j] == (
                        keys@[i as int],
                        was.unwrap(),
                    ) && after == current.update(j, (keys@[i as int], now.unwrap()));
                if j < i {
                    assert(before[j].0 != before[i as int].0);
                } else if j > i {
                    assert(before[i as int].0 != before[j].0);
                }
                assert(j == i);
                assert(vetoed == before[i as int].1.vetoed);
            }
            if vetoed {
                changed = true;
            }
            i += 1;
        }
        proof {
            let after = entries(self.options);
            assert(self@.options =~= old_view.without_vetoes().options);
            assert(self@ == old_view.without_vetoes());
            if changed {
                let k = choose|k: int| 0 <= k < before.len() && (#[trigger] before[k]).1.vetoed;
                assert(old_view.options[k].vetoed);
                assert(!self@.options[k].vetoed);
            } else {
                assert forall|k: int| 0 <= k < before.len() implies !(#[trigger] before[k]).1.vetoed by {}
                assert(self@.options =~= old_view.options);
            }
            crate::laws::lemma_flags_keep_inv(old_view, self@);
        }
        if changed {
            Some(BroadcastMsg::UpdatedVetos)
        } else {
            None
        }
    }

    /// Ends the vetoing stage. The result is the event to publish: there is
    /// one the first time, and none afterwards, when nothing changes.
    pub fn finish_vetoing(&mut self) -> (event: core::option::Option<BroadcastMsg>)
        requires
            old(self).wf(),
        ensures
            final(self).wf(),
            final(self)@ == old(self)@.ranking(),
            event == if old(self)@.stage == VotingStage::Vetoing {
                Some(BroadcastMsg::FinishedVetoing)
            } else {
                None
            },
    {
        if self.voting_stage == VotingStage::Vetoing {
            self.voting_stage = VotingStage::Ranking;
            Some(BroadcastMsg::FinishedVetoing)
        } else {
            None
        }
    }

    /// Whether an option has this identity.
    pub fn has_id(&self, id: OptionId) -> (found: bool)
        requires
            self.keyed(),
        ensures
            found == self@.has_id(id),
    {
        let found = map_contains(&self.options, id);
        proof {
            let e = entries(self.options);
            if found {
                let i = choose|i: int| 0 <= i < e.len() && (#[trigger] e[i]).0 == id;
                assert(self@.options[i].id == id);
            }
            if self@.has_id(id) {
                let i = choose|i: int|
                    0 <= i < self@.options.len() && (#[trigger] self@.options[i]).id == id;
                assert(e[i].0 == id);
            }
        }
        found
    }

    /// The options that are not vetoed, by identity, in their order.
    pub fn get_votes_matching_insertion_order(&self) -> (ids: Vec<OptionId>)
        ensures
            ids@ == self@.eligible(),
    {
        let values = map_values(&self.options);
        let ghost all = self@.options;
        let ghost f = |o: OptionView|
            if o.vetoed {
                None
            } else {
                Some(o.id)
            };
        let mut ids: Vec<OptionId> = Vec::new();
        let mut i: usize = 0;
        assert(all.take(0) =~= Seq::<OptionView>::empty());
        while i < values.len()
            invariant
                i <= values.len(),
                values@.len() == all.len(),
                forall|k: int| 0 <= k < values@.len() ==> (#[trigger] values@[k])@ == all[k],
                f == |o: OptionView|
                    if o.vetoed {
                        None
                    } else {
                        Some(o.id)
                    },
                ids@ == all.take(i as int).filter_map(f),
            decreases values.len() - i,
        {
            proof {
                all.lemma_filter_map_take_succ(f, i as int);
                assert(values@[i as int]@ == all[i as int]);
            }
            if !values[i].vetoed {
                ids.push(values[i].id);
                assert(ids@ =~= all.take(i as int).filter_map(f) + seq![values@[i as int].id]);
            } else {
                assert(ids@ =~= all.take(i as int).filter_map(f) + Seq::<OptionId>::empty());
            }
            i += 1;
        }
        assert(all.take(values.len() as int) =~= all);
        ids
    }

    /// Those of `ids` that name an option of the room.
    fn keep_known(&self, ids: Vec<OptionId>) -> (kept: Vec<OptionId>)
        requires
            self.keyed(),
        ensures
            kept@ == self@.known(ids@),
    {
        let ghost p = |id: OptionId| self@.has_id(id);
        let mut kept: Vec<OptionId> = Vec::new();
        let mut i: usize = 0;
        assert(ids@.take(0) =~= Seq::<OptionId>::empty());
        proof {
            ids@.take(0).lemma_filter_len(p);
        }
        while i < ids.len()
            invariant
                i <= ids.len(),
                self.keyed(),
                p == |id: OptionId| self@.has_id(id),
                kept@ == ids@.take(i as int).filter(p),
            decreases ids.len() - i,
        {
            proof {
                assert(ids@.take(i + 1) =~= ids@.take(i as int).push(ids@[i as int]));
                ids@.take(i as int).lemma_filter_push(ids@[i as int], p);
            }
            if self.has_id(ids[i]) {
                kept.push(ids[i]);
            }
            i += 1;
        }
        assert(ids@.take(ids.len() as int) =~= ids@);
        kept
    }

    /// Takes in one ballot, which happens only while ranking; at any other
    /// time nothing changes. See `RoomView::ballot_of` for what a text
    /// stands for. The result is the event to publish, if the room changed.
    pub fn contribute_votes(&mut self, votes_text: String) -> (event: core::option::Option<
        BroadcastMsg,
    >)
        requires
            old(self).wf(),
        ensures
            final(self).wf(),
            final(self)@ == old(self)@.with_ballot(votes_text@),
            event == if old(self)@.stage == VotingStage::Ranking {
                Some(BroadcastMsg::UpdatedVotes)
            } else {
                None
            },
    {
        if self.voting_stage != VotingStage::Ranking {
            return None;
        }
        let ghost old_view = self@;
        let votes = if !votes_text.as_str().is_empty() {
            self.keep_known(parse_votes(votes_text.as_str()))
        } else {
            self.get_votes_matching_insertion_order()
        };
        proof {
            assert(votes@ == old_view.ballot_of(votes_text@));
            assert forall|k: int| 0 <= k < votes@.len() implies old_view.has_id(
                #[trigger] votes@[k],
            ) by {
                Self::lemma_ballot_names_options(old_view, votes_text@, k);
            }
        }
        let ghost ballot = votes@;
        self.votes.push(votes);
        proof {
            assert(self@.ballots =~= old_view.ballots.push(ballot));
            assert(self@ == old_view.with_ballot(votes_text@));
            assert forall|b: int, k: int|
                0 <= b < self@.ballots.len() && 0 <= k < self@.ballots[b].len() implies self@.has_id(
                #[trigger] self@.ballots[b][k],
            ) by {
                let wanted = self@.ballots[b][k];
                if b < old_view.ballots.len() {
                    assert(old_view.has_id(old_view.ballots[b][k]));
                } else {
                    assert(old_view.has_id(ballot[k]));
                }
                let i = choose|i: int|
                    0 <= i < old_view.options.len() && (#[trigger] old_view.options[i]).id
                        == wanted;
                assert(self@.options[i].id == wanted);
            }
        }
        Some(BroadcastMsg::UpdatedVotes)
    }

    /// Every entry of a ballot names an option of the room.
    pub proof fn lemma_ballot_names_options(room: RoomView, text: Seq<char>, k: int)
        requires
            0 <= k < room.ballot_of(text).len(),
        ensures
            room.has_id(room.ballot_of(text)[k]),
    {
        broadcast use vstd::seq_lib::group_filter_ensures;

        if text.len() == 0 {
            let f = |o: OptionView|
                if o.vetoed {
                    None
                } else {
                    Some(o.id)
                };
            let id = room.eligible()[k];
            assert(room.options.filter_map(f).contains(id));
            room.options.lemma_filter_map_contains(f, id);
            let o = choose|o: OptionView| #[trigger] room.options.contains(o) && f(o) == Some(id);
            let i = choose|i: int| 0 <= i < room.options.len() && room.options[i] == o;
            assert(room.options[i].id == id);
        } else {
            let p = |id: OptionId| room.has_id(id);
            listed_ids(text).lemma_filter_pred(p, k);
        }
    }

    /// What is shown for the identity `id`.
    pub fn get_option_html_displayable_text(&self, id: OptionId) -> (text: String)
        requires
            self.indexed(),
        ensures
            text@ == self@.display_text(id),
    {
        match map_get(&self.options, id) {
            Some(option) => {
                proof {
                    let e = entries(self.options);
                    let i = choose|i: int| 0 <= i < e.len() && #[trigger] e[i] == (id, option@);
                    assert(self@.options[i].id == id);
                    let j = choose|j: int|
                        0 <= j < self@.options.len() && (#[trigger] self@.options[j]).id == id;
                    if i < j {
                        assert(self@.options[i].id != self@.options[j].id);
                    } else if j < i {
                        assert(self@.options[j].id != self@.options[i].id);
                    }
                }
                option.get_html_text()
            },
            None => {
                proof {
                    let e = entries(self.options);
                    if self@.has_id(id) {
                        let i = choose|i: int|
                            0 <= i < self@.options.len() && (#[trigger] self@.options[i]).id == id;
                        assert(e[i].0 == id);
                    }
                }
                "INVALID VOTE".to_owned()
            },
        }
    }

    /// The ballots, every entry as it is shown.
    pub fn iter_html_displayable_votes(&self) -> (shown: Vec<Vec<String>>)
        requires
            self.indexed(),
        ensures
            shown@.len() == self@.ballots.len(),
            forall|b: int|
                0 <= b < shown@.len() ==> (#[trigger] shown@[b])@.len() == self@.ballots[b].len(),
            forall|b: int, k: int|
                0 <= b < shown@.len() && 0 <= k < shown@[b]@.len() ==> (
                #[trigger] shown@[b]@[k])@ == self@.display_text(self@.ballots[b][k]),
    {
        let mut shown: Vec<Vec<String>> = Vec::new();
        let mut b: usize = 0;
        while b < self.votes.len()
            invariant
                self.indexed(),
                b <= self.votes.len(),
                shown@.len() == b,
                forall|c: int|
                    0 <= c < b ==> (#[trigger] shown@[c])@.len() == self@.ballots[c].len(),
                forall|c: int, k: int|
                    0 <= c < b && 0 <= k < shown@[c]@.len() ==> (#[trigger] shown@[c]@[k])@
                        == self@.display_text(self@.ballots[c][k]),
            decreases self.votes.len() - b,
        {
            let ballot = &self.votes[b];
            assert(self@.ballots[b as int] == ballot@);
            let mut row: Vec<String> = Vec::new();
            let mut k: usize = 0;
            while k < ballot.len()
                invariant
                    self.indexed(),
                    k <= ballot.len(),
                    row@.len() == k,
                    forall|l: int|
                        0 <= l < k ==> (#[trigger] row@[l])@ == self@.display_text(ballot@[l]),
                decreases ballot.len() - k,
            {
                row.push(self.get_option_html_displayable_text(ballot[k]));
                k += 1;
            }
            shown.push(row);
            b += 1;
        }
        shown
    }

    /// The tally of the ballots handed in so far: one entry for every option
    /// that a ballot names, the highest score first.
    pub fn tally_votes(&self) -> (tallies: Vec<FinalVoteTally>)
        requires
            self.indexed(),
        ensures
            exists|ids: Seq<OptionId>| #[trigger] self@.is_tally(ids, tally_views(tallies@)),
    {
        let records = self.tally_records();
        let sorted = sort_records(records);
        let ghost room = self@;
        let ghost listed = views(records@);
        let ghost arranged = views(sorted@);
        let ghost ids = arranged.map_values(|r: RecordView| r.id);
        proof {
            broadcast use vstd::seq_lib::to_multiset_contains;

            assert(listed.no_duplicates()) by {
                assert forall|i: int, j: int|
                    0 <= i < listed.len() && 0 <= j < listed.len() && i != j implies listed[i]
                    != listed[j] by {
                    assert(records@[i]@.id != records@[j]@.id);
                }
            }
            listed.lemma_multiset_has_no_duplicates();
            arranged.lemma_multiset_has_no_duplicates_conv();
            vstd::seq_lib::to_multiset_len(listed);
            vstd::seq_lib::to_multiset_len(arranged);
            assert forall|k: int| 0 <= k < arranged.len() implies #[trigger] arranged[k]
                == room.record_of(arranged[k].id) && appears(room.ballots, arranged[k].id) by {
                assert(arranged.contains(arranged[k]));
                assert(listed.to_multiset().count(arranged[k]) > 0);
                assert(listed.contains(arranged[k]));
                let i = choose|i: int| 0 <= i < listed.len() && listed[i] == arranged[k];
                assert(records@[i]@ == room.record_of(records@[i]@.id));
            }
            assert forall|id: OptionId| ids.contains(id) <==> appears(room.ballots, id) by {
                if ids.contains(id) {
                    let k = choose|k: int| 0 <= k < ids.len() && ids[k] == id;
                    assert(appears(room.ballots, arranged[k].id));
                }
                if appears(room.ballots, id) {
                    let i = choose|i: int| 0 <= i < records@.len() && (#[trigger] records@[i])@.id
                        == id;
                    assert(listed[i] == room.record_of(id));
                    assert(listed.contains(listed[i]));
                    assert(arranged.to_multiset().count(listed[i]) > 0);
                    assert(arranged.contains(listed[i]));
                    let k = choose|k: int| 0 <= k < arranged.len() && arranged[k] == listed[i];
                    assert(ids[k] == id);
                }
            }
            assert forall|k: int, l: int| 0 <= k < l < ids.len() implies ids[k] != ids[l]
                && comes_before(
                room.record_of(#[trigger] ids[k]),
                room.record_of(#[trigger] ids[l]),
            ) by {
                assert(arranged[k] == room.record_of(arranged[k].id));
                assert(arranged[l] == room.record_of(arranged[l].id));
                assert(arranged[k] != arranged[l]);
                assert(!comes_before(sorted@[l]@, sorted@[k]@));
                lemma_comes_before_connected(arranged[k], arranged[l]);
            }
        }
        let mut tallies: Vec<FinalVoteTally> = Vec::new();
        let mut i: usize = 0;
        while i < sorted.len()
            invariant
                i <= sorted.len(),
                tallies@.len() == i,
                forall|k: int| 0 <= k < i ==> (#[trigger] tallies@[k])@ == sorted@[k]@.entry(),
            decreases sorted.len() - i,
        {
            let record = &sorted[i];
            let ranks = record.ranks.clone();
            assert(ranks@ =~= record.ranks@);
            tallies.push(
                FinalVoteTally {
                    html_displayable_text: record.html_displayable_text.clone(),
                    score: record.score,
                    ranks,
                },
            );
            i += 1;
        }
        proof {
            let out = tally_views(tallies@);
            assert forall|k: int| 0 <= k < ids.len() implies #[trigger] out[k] == room.record_of(
                ids[k],
            ).entry() by {
                assert(arranged[k] == room.record_of(arranged[k].id));
            }
            assert(room.is_tally(ids, out));
        }
        tallies
    }

    /// One tally entry for every option that a ballot names, in the order
    /// in which the ballots first name them.
    fn tally_records(&self) -> (records: Vec<VoteTally>)
        requires
            self.indexed(),
        ensures
            forall|i: int, j: int|
                0 <= i < j < records@.len() ==> (#[trigger] records@[i])@.id != (
                #[trigger] records@[j])@.id,
            forall|i: int|
                0 <= i < records@.len() ==> (#[trigger] records@[i])@ == self@.record_of(
                    records@[i]@.id,
                ) && appears(self@.ballots, records@[i]@.id),
            forall|id: OptionId|
                appears(self@.ballots, id) ==> exists|i: int|
                    0 <= i < records@.len() && (#[trigger] records@[i])@.id == id,
    {
        let mut counts = count_votes(&self.votes);
        let ghost all = counts@;
        let mut records: Vec<VoteTally> = Vec::new();
        proof {
            assert(ballot_views(self.votes@) == self@.ballots);
        }
        while counts.len() > 0
            invariant
                self.indexed(),
                counts@.len() + records@.len() == all.len(),
                counts@ == all.take(counts@.len() as int),
                forall|k: int|
                    0 <= k < records@.len() ==> (#[trigger] records@[k])@ == self@.record_of(
                        all[all.len() - 1 - k].id,
                    ),
                forall|j: int|
                    0 <= j < all.len() ==> (#[trigger] all[j]).score == capped(
                        score(self@.ballots, all[j].id),
                    ) && all[j].ranks@ == sorted_ranks(self@.ballots, all[j].id),
            decreases counts.len(),
        {
            let ghost place = counts@.len() - 1;
            let count = counts.pop().unwrap();
            assert(count == all[place]);
            let text = self.get_option_html_displayable_text(count.id);
            records.push(
                VoteTally {
                    id: count.id,
                    html_displayable_text: text,
                    score: count.score,
                    ranks: count.ranks,
                },
            );
        }
        proof {
            assert forall|k: int| 0 <= k < records@.len() implies (#[trigger] records@[k])@.id
                == all[all.len() - 1 - k].id by {}
            assert forall|id: OptionId| appears(self@.ballots, id) implies exists|i: int|
                0 <= i < records@.len() && (#[trigger] records@[i])@.id == id by {
                assert(appears(ballot_views(self.votes@), id));
                let j = choose|j: int| 0 <= j < all.len() && (#[trigger] all[j]).id == id;
                assert(records@[all.len() - 1 - j]@.id == id);
            }
            assert forall|i: int| 0 <= i < records@.len() implies appears(
                self@.ballots,
                (#[trigger] records@[i])@.id,
            ) by {
                let j = all.len() - 1 - i;
                assert(all[j].id == records@[i]@.id);
                assert(appears(ballot_views(self.votes@), all[j].id));
            }
            assert forall|i: int, j: int| 0 <= i < j < records@.len() implies (
            #[trigger] records@[i])@.id != (#[trigger] records@[j])@.id by {
                assert(all[all.len() - 1 - j].id != all[all.len() - 1 - i].id);
            }
        }
        records
    }

    /// A copy of the options, the stage and the ballots as they are now.
    pub fn snapshot(&self) -> (copy: RoomSnapshot)
        ensures
            copy.options@.map_values(|o: Option| o@) == self@.options,
            copy.stage == self@.stage,
            copy.ballots@.map_values(|b: Vec<OptionId>| b@) == self@.ballots,
    {
        let values = map_values(&self.options);
        let mut options: Vec<Option> = Vec::new();
        let mut i: usize = 0;
        while i < values.len()
            invariant
                i <= values.len(),
                options@.len() == i,
                forall|k: int| 0 <= k < i ==> (#[trigger] options@[k])@ == values@[k]@,
            decreases values.len() - i,
        {
            let option = values[i];
            options.push(Option { text: option.text.clone(), vetoed: option.vetoed, id: option.id });
            i += 1;
        }
        let mut ballots: Vec<Vec<OptionId>> = Vec::new();
        let mut b: usize = 0;
        while b < self.votes.len()
            invariant
                b <= self.votes.len(),
                ballots@.len() == b,
                forall|c: int| 0 <= c < b ==> (#[trigger] ballots@[c])@ == self.votes@[c]@,
            decreases self.votes.len() - b,
        {
            let ballot = self.votes[b].clone();
            assert(ballot@ =~= self.votes@[b as int]@);
            ballots.push(ballot);
            b += 1;
        }
        assert(options@.map_values(|o: Option| o@) =~= self@.options);
        assert(ballots@.map_values(|b: Vec<OptionId>| b@) =~= self@.ballots);
        RoomSnapshot { options, stage: self.voting_stage, ballots }
    }

    /// The ballots in the order in which they were handed in.
    pub fn votes(&self) -> (votes: &Vec<Vec<OptionId>>)
        ensures
            votes@.map_values(|b: Vec<OptionId>| b@) == self@.ballots,
    {
        &self.votes
    }

    /// The options in the order in which they were added.
    pub fn iter_options(&self) -> (options: Vec<&Option>)
        ensures
            options@.len() == self@.options.len(),
            forall|i: int| 0 <= i < options@.len() ==> (#[trigger] options@[i])@ == self@.options[i],
    {
        map_values(&self.options)
    }

    /// Whether some option has exactly this text.
    pub fn has_text(&self, text: &str) -> (found: bool)
        ensures
            found == self@.has_text(text@),
    {
        let values = map_values(&self.options);
        let wanted = text.to_owned();
        let mut i: usize = 0;
        while i < values.len()
            invariant
                i <= values.len(),
                wanted@ == text@,
                values@.len() == self@.options.len(),
                forall|k: int| 0 <= k < values@.len() ==> values@[k]@ == #[trigger] self@.options[k],
                forall|k: int| 0 <= k < i ==> (#[trigger] self@.options[k]).text != text@,
            decreases values.len() - i,
        {
            if values[i].text == wanted {
                assert(self@.options[i as int].text == text@);
                return true;
            }
            i += 1;
        }
        false
    }

    /// Whether the code of the room is `code`.
    pub fn has_code(&self, code: &String) -> (same: bool)
        ensures
            same == (self@.code == code@),
    {
        self.code == *code
    }

    /// Carries out one action. The result is the event to publish, if the
    /// room changed.
    pub fn apply(&mut self, action: RoomAction) -> (event: core::option::Option<BroadcastMsg>)
        requires
            old(self).wf(),
        ensures
            final(self).wf(),
            final(self)@.code == old(self)@.code,
            old(self)@.step(action, final(self)@, event),
    {
        match action {
            RoomAction::AddOption(text) => self.add_option(text),
            RoomAction::VetoOption(id) => self.veto(id),
            RoomAction::ResetAllVetoes => self.reset_all_vetos(),
            RoomAction::FinishVetoing => self.finish_vetoing(),
            RoomAction::SubmitRanking(text) => self.contribute_votes(text),
        }
    }

    /// The stage the room is in.
    pub fn voting_stage(&self) -> (stage: VotingStage)
        ensures
            stage == self@.stage,
    {
        self.voting_stage
    }

    /// The code of the room.
    pub fn code(&self) -> (code: &str)
        ensures
            code@ == self@.code,
    {
        self.code.as_str()
    }
}

} // verus!
