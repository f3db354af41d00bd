//! The weighted tally of a room's ballots.
//!
//! With `L` the length of the longest ballot, the option in place `i`
//! (counted from 0) of a ballot earns `L - i` points from it and is ranked
//! `i + 1` by it.

use crate::ids::OptionId;
use std::collections::HashMap;
use vstd::prelude::*;
use vstd::relations::{sorted_by, total_ordering};
use vstd::seq_lib::lemma_sorted_unique;

verus! {

/// What the tally says of one option.
pub struct FinalVoteTally {
    pub html_displayable_text: String,
    pub score: usize,
    pub ranks: Vec<usize>,
}

/// A tally entry as contracts see it.
pub struct TallyView {
    pub text: Seq<char>,
    pub score: usize,
    pub ranks: Seq<usize>,
}

impl View for FinalVoteTally {
    type V = TallyView;

    open spec fn view(&self) -> TallyView {
        TallyView { text: self.html_displayable_text@, score: self.score, ranks: self.ranks@ }
    }
}

/// The entries of a tally as contracts see them.
pub open spec fn tally_views(tallies: Seq<FinalVoteTally>) -> Seq<TallyView> {
    tallies.map_values(|t: FinalVoteTally| t@)
}

/// A tally entry while the tally is made: it still knows its option.
pub struct VoteTally {
    pub id: OptionId,
    pub html_displayable_text: String,
    pub score: usize,
    pub ranks: Vec<usize>,
}

/// A tally entry in the making, as contracts see it.
pub struct RecordView {
    pub id: OptionId,
    pub text: Seq<char>,
    pub score: usize,
    pub ranks: Seq<usize>,
}

impl RecordView {
    /// The entry without its option.
    pub open spec fn entry(self) -> TallyView {
        TallyView { text: self.text, score: self.score, ranks: self.ranks }
    }
}

impl View for VoteTally {
    type V = RecordView;

    open spec fn view(&self) -> RecordView {
        RecordView {
            id: self.id,
            text: self.html_displayable_text@,
            score: self.score,
            ranks: self.ranks@,
        }
    }
}

impl VoteTally {
    /// The entry as it is reported.
    pub fn into_final(self) -> (r: FinalVoteTally)
        ensures
            r@ == self@.entry(),
    {
        FinalVoteTally {
            html_displayable_text: self.html_displayable_text,
            score: self.score,
            ranks: self.ranks,
        }
    }
}

/// Whether `a` stands before `b` in the order of texts: character by
/// character, by the number of the character, a proper prefix first.
pub open spec fn text_less(a: Seq<char>, b: Seq<char>) -> bool
    decreases a.len(),
{
    if b.len() == 0 {
        false
    } else if a.len() == 0 {
        true
    } else if a[0] != b[0] {
        (a[0] as int) < (b[0] as int)
    } else {
        text_less(a.drop_first(), b.drop_first())
    }
}

/// Whether the entry `a` stands before the entry `b` in a tally: the higher
/// score first; among equal scores the lesser text first; among equal texts
/// the lesser identity first.
pub open spec fn comes_before(a: RecordView, b: RecordView) -> bool {
    ||| a.score > b.score
    ||| a.score == b.score && text_less(a.text, b.text)
    ||| a.score == b.score && a.text == b.text && a.id < b.id
}

/// Of two different texts exactly one stands before the other; no text
/// stands before itself.
pub proof fn lemma_text_less_connected(a: Seq<char>, b: Seq<char>)
    ensures
        a == b ==> !text_less(a, b),
        a != b ==> (text_less(a, b) <==> !text_less(b, a)),
    decreases a.len(),
{
    if a.len() > 0 && b.len() > 0 {
        if a[0] == b[0] {
            lemma_text_less_connected(a.drop_first(), b.drop_first());
            if a.drop_first() == b.drop_first() {
                assert(a =~= seq![a[0]] + a.drop_first());
                assert(b =~= seq![b[0]] + b.drop_first());
            }
        } else {
            assert((a[0] as int) != (b[0] as int));
        }
    } else if a.len() == 0 && b.len() == 0 {
        assert(a =~= b);
    }
}

/// The order of texts is transitive.
pub proof fn lemma_text_less_transitive(a: Seq<char>, b: Seq<char>, c: Seq<char>)
    requires
        text_less(a, b),
        text_less(b, c),
    ensures
        text_less(a, c),
    decreases a.len(),
{
    if a.len() > 0 {
        if a[0] == b[0] && b[0] == c[0] {
            lemma_text_less_transitive(a.drop_first(), b.drop_first(), c.drop_first());
        }
    }
}

/// The length of the longest ballot; 0 where there is none.
pub open spec fn longest(ballots: Seq<Seq<OptionId>>) -> nat
    decreases ballots.len(),
{
    if ballots.len() == 0 {
        0
    } else {
        let before = longest(ballots.drop_last());
        if ballots.last().len() > before {
            ballots.last().len()
        } else {
            before
        }
    }
}

/// The points that one ballot gives to `id`, where the first place is worth
/// `top` points and every further place one point less.
pub open spec fn ballot_points(ballot: Seq<OptionId>, id: OptionId, top: int) -> int
    decreases ballot.len(),
{
    if ballot.len() == 0 {
        0
    } else {
        ballot_points(ballot.drop_last(), id, top) + if ballot.last() == id {
            top - (ballot.len() - 1)
        } else {
            0
        }
    }
}

/// The points that the ballots give to `id`, the first place being worth
/// `top` points.
pub open spec fn points(ballots: Seq<Seq<OptionId>>, id: OptionId, top: int) -> int
    decreases ballots.len(),
{
    if ballots.len() == 0 {
        0
    } else {
        points(ballots.drop_last(), id, top) + ballot_points(ballots.last(), id, top)
    }
}

/// The score of `id`: its points, the first place being worth as many
/// points as the longest ballot has places.
pub open spec fn score(ballots: Seq<Seq<OptionId>>, id: OptionId) -> int {
    points(ballots, id, longest(ballots) as int)
}

/// A score as a machine number can hold it: scores beyond the largest
/// `usize` are reported as the largest `usize`.
pub open spec fn capped(n: int) -> usize {
    if n > usize::MAX {
        usize::MAX
    } else if n < 0 {
        0
    } else {
        n as usize
    }
}

/// The ranks that one ballot gives to `id`, in the order of its places.
pub open spec fn ballot_ranks(ballot: Seq<OptionId>, id: OptionId) -> Seq<usize>
    decreases ballot.len(),
{
    if ballot.len() == 0 {
        Seq::empty()
    } else if ballot.last() == id {
        ballot_ranks(ballot.drop_last(), id).push(ballot.len() as usize)
    } else {
        ballot_ranks(ballot.drop_last(), id)
    }
}

/// The ranks that the ballots give to `id`, ballot by ballot.
pub open spec fn rank_list(ballots: Seq<Seq<OptionId>>, id: OptionId) -> Seq<usize>
    decreases ballots.len(),
{
    if ballots.len() == 0 {
        Seq::empty()
    } else {
        rank_list(ballots.drop_last(), id) + ballot_ranks(ballots.last(), id)
    }
}

/// The ranks that the ballots give to `id`, in ascending order.
pub open spec fn sorted_ranks(ballots: Seq<Seq<OptionId>>, id: OptionId) -> Seq<usize> {
    rank_list(ballots, id).sort_by(|a: usize, b: usize| a <= b)
}

/// Whether some ballot names `id`.
pub open spec fn appears(ballots: Seq<Seq<OptionId>>, id: OptionId) -> bool {
    exists|b: int, k: int|
        0 <= b < ballots.len() && 0 <= k < ballots[b].len() && #[trigger] ballots[b][k] == id
}

/// No ballot is longer than `longest` says.
pub proof fn lemma_longest_bounds(ballots: Seq<Seq<OptionId>>, b: int)
    requires
        0 <= b < ballots.len(),
    ensures
        ballots[b].len() <= longest(ballots),
    decreases ballots.len(),
{
    if b < ballots.len() - 1 {
        lemma_longest_bounds(ballots.drop_last(), b);
    }
}

/// Taking one ballot out takes its points out.
pub proof fn lemma_points_remove(ballots: Seq<Seq<OptionId>>, i: int, id: OptionId, top: int)
    requires
        0 <= i < ballots.len(),
    ensures
        points(ballots, id, top) == points(ballots.remove(i), id, top) + ballot_points(
            ballots[i],
            id,
            top,
        ),
    decreases ballots.len(),
{
    if i == ballots.len() - 1 {
        assert(ballots.remove(i) =~= ballots.drop_last());
    } else {
        lemma_points_remove(ballots.drop_last(), i, id, top);
        assert(ballots.remove(i).drop_last() =~= ballots.drop_last().remove(i));
        assert(ballots.remove(i).last() == ballots.last());
    }
}

/// The same ballots in another order give the same points.
pub proof fn lemma_points_ignore_order(
    a: Seq<Seq<OptionId>>,
    b: Seq<Seq<OptionId>>,
    id: OptionId,
    top: int,
)
    requires
        a.to_multiset() == b.to_multiset(),
    ensures
        points(a, id, top) == points(b, id, top),
    decreases a.len(),
{
    vstd::seq_lib::to_multiset_len(a);
    vstd::seq_lib::to_multiset_len(b);
    if a.len() > 0 {
        let x = a.last();
        let j = lemma_find_last(a, b);
        lemma_points_ignore_order(a.drop_last(), b.remove(j), id, top);
        lemma_points_remove(b, j, id, top);
    }
}

/// Where two lists hold the same ballots, the last ballot of the first is
/// at some place of the second, and without it the lists still hold the
/// same ballots.
pub proof fn lemma_find_last(a: Seq<Seq<OptionId>>, b: Seq<Seq<OptionId>>) -> (j: int)
    requires
        a.len() > 0,
        a.to_multiset() == b.to_multiset(),
    ensures
        0 <= j < b.len(),
        b[j] == a.last(),
        a.drop_last().to_multiset() == b.remove(j).to_multiset(),
{
    let x = a.last();
    assert(a.contains(x)) by {
        assert(a[a.len() - 1] == x);
    }
    vstd::seq_lib::to_multiset_contains(a, x);
    vstd::seq_lib::to_multiset_contains(b, x);
    let j = choose|j: int| 0 <= j < b.len() && b[j] == x;
    vstd::seq_lib::to_multiset_remove(a, a.len() - 1);
    vstd::seq_lib::to_multiset_remove(b, j);
    assert(a.remove(a.len() - 1) =~= a.drop_last());
    j
}

/// Taking one ballot out leaves the longest of the others, or a shorter
/// one.
pub proof fn lemma_longest_remove(ballots: Seq<Seq<OptionId>>, i: int)
    requires
        0 <= i < ballots.len(),
    ensures
        longest(ballots) == if ballots[i].len() > longest(ballots.remove(i)) {
            ballots[i].len()
        } else {
            longest(ballots.remove(i))
        },
    decreases ballots.len(),
{
    if i == ballots.len() - 1 {
        assert(ballots.remove(i) =~= ballots.drop_last());
    } else {
        lemma_longest_remove(ballots.drop_last(), i);
        assert(ballots.remove(i).drop_last() =~= ballots.drop_last().remove(i));
        assert(ballots.remove(i).last() == ballots.last());
    }
}

/// The same ballots in another order have the same longest ballot.
pub proof fn lemma_longest_ignores_order(a: Seq<Seq<OptionId>>, b: Seq<Seq<OptionId>>)
    requires
        a.to_multiset() == b.to_multiset(),
    ensures
        longest(a) == longest(b),
    decreases a.len(),
{
    vstd::seq_lib::to_multiset_len(a);
    vstd::seq_lib::to_multiset_len(b);
    if a.len() > 0 {
        let j = lemma_find_last(a, b);
        lemma_longest_ignores_order(a.drop_last(), b.remove(j));
        lemma_longest_remove(b, j);
    }
}

/// Taking one ballot out takes its ranks out.
pub proof fn lemma_ranks_remove(ballots: Seq<Seq<OptionId>>, i: int, id: OptionId)
    requires
        0 <= i < ballots.len(),
    ensures
        rank_list(ballots, id).to_multiset() == rank_list(ballots.remove(i), id).to_multiset().add(
            ballot_ranks(ballots[i], id).to_multiset(),
        ),
    decreases ballots.len(),
{
    broadcast use vstd::seq_lib::lemma_multiset_commutative;

    if i == ballots.len() - 1 {
        assert(ballots.remove(i) =~= ballots.drop_last());
    } else {
        lemma_ranks_remove(ballots.drop_last(), i, id);
        assert(ballots.remove(i).drop_last() =~= ballots.drop_last().remove(i));
        assert(ballots.remove(i).last() == ballots.last());
        let rest = rank_list(ballots.drop_last().remove(i), id).to_multiset();
        let mine = ballot_ranks(ballots[i], id).to_multiset();
        let tail = ballot_ranks(ballots.last(), id).to_multiset();
        assert(rest.add(mine).add(tail) =~= rest.add(tail).add(mine));
    }
}

/// The same ballots in another order give the same ranks.
pub proof fn lemma_ranks_ignore_order(a: Seq<Seq<OptionId>>, b: Seq<Seq<OptionId>>, id: OptionId)
    requires
        a.to_multiset() == b.to_multiset(),
    ensures
        rank_list(a, id).to_multiset() == rank_list(b, id).to_multiset(),
        sorted_ranks(a, id) == sorted_ranks(b, id),
    decreases a.len(),
{
    broadcast use vstd::seq_lib::lemma_multiset_commutative;

    vstd::seq_lib::to_multiset_len(a);
    vstd::seq_lib::to_multiset_len(b);
    if a.len() > 0 {
        let j = lemma_find_last(a, b);
        lemma_ranks_ignore_order(a.drop_last(), b.remove(j), id);
        lemma_ranks_remove(b, j, id);
    } else {
        assert(b.len() == 0);
    }
    let leq = |x: usize, y: usize| x <= y;
    lemma_usize_order_total();
    rank_list(a, id).lemma_sort_by_ensures(leq);
    rank_list(b, id).lemma_sort_by_ensures(leq);
    lemma_sorted_unique(rank_list(a, id).sort_by(leq), rank_list(b, id).sort_by(leq), leq);
}

/// The same ballots in another order name the same options.
pub proof fn lemma_appears_ignores_order(a: Seq<Seq<OptionId>>, b: Seq<Seq<OptionId>>, id: OptionId)
    requires
        a.to_multiset() == b.to_multiset(),
        appears(a, id),
    ensures
        appears(b, id),
{
    let (i, k) = choose|i: int, k: int|
        0 <= i < a.len() && 0 <= k < a[i].len() && #[trigger] a[i][k] == id;
    assert(a.contains(a[i]));
    vstd::seq_lib::to_multiset_contains(a, a[i]);
    vstd::seq_lib::to_multiset_contains(b, a[i]);
    let j = choose|j: int| 0 <= j < b.len() && b[j] == a[i];
    assert(b[j][k] == id);
}

/// The order of machine numbers is a total order.
pub proof fn lemma_usize_order_total()
    ensures
        total_ordering(|a: usize, b: usize| a <= b),
{
}

/// The length of the longest of the ballots.
pub fn longest_ballot(ballots: &Vec<Vec<OptionId>>) -> (top: usize)
    ensures
        top == longest(ballots@.map_values(|b: Vec<OptionId>| b@)),
{
    let ghost all = ballots@.map_values(|b: Vec<OptionId>| b@);
    let mut top: usize = 0;
    let mut i: usize = 0;
    assert(all.take(0) =~= Seq::<Seq<OptionId>>::empty());
    while i < ballots.len()
        invariant
            i <= ballots.len(),
            all == ballots@.map_values(|b: Vec<OptionId>| b@),
            top == longest(all.take(i as int)),
        decreases ballots.len() - i,
    {
        assert(all.take(i + 1).drop_last() =~= all.take(i as int));
        assert(all.take(i + 1).last() == ballots@[i as int]@);
        if ballots[i].len() > top {
            top = ballots[i].len();
        }
        i += 1;
    }
    assert(all.take(ballots.len() as int) =~= all);
    top
}

/// Of two entries with different identities, one comes before the other.
pub proof fn lemma_comes_before_connected(a: RecordView, b: RecordView)
    ensures
        !(comes_before(a, b) && comes_before(b, a)),
        a.id != b.id ==> comes_before(a, b) || comes_before(b, a),
{
    lemma_text_less_connected(a.text, b.text);
}

/// Coming before is transitive.
pub proof fn lemma_comes_before_transitive(a: RecordView, b: RecordView, c: RecordView)
    requires
        comes_before(a, b),
        comes_before(b, c),
    ensures
        comes_before(a, c),
{
    lemma_text_less_connected(a.text, b.text);
    lemma_text_less_connected(b.text, c.text);
    if text_less(a.text, b.text) && text_less(b.text, c.text) {
        lemma_text_less_transitive(a.text, b.text, c.text);
    }
}

/// Puts `rank` into the ascending list `ranks`, at its place.
fn insert_rank(ranks: &mut Vec<usize>, rank: usize)
    requires
        sorted_by(old(ranks)@, |a: usize, b: usize| a <= b),
    ensures
        sorted_by(final(ranks)@, |a: usize, b: usize| a <= b),
        final(ranks)@.to_multiset() == old(ranks)@.to_multiset().insert(rank),
{
    let mut p: usize = ranks.len();
    while p > 0 && ranks[p - 1] > rank
        invariant
            p <= ranks.len(),
            ranks@ == old(ranks)@,
            forall|k: int| p <= k < ranks.len() ==> ranks@[k] > rank,
        decreases p,
    {
        p -= 1;
    }
    proof {
        vstd::seq_lib::to_multiset_insert(ranks@, p as int, rank);
        let leq = |a: usize, b: usize| a <= b;
        let after = ranks@.insert(p as int, rank);
        assert forall|i: int, j: int| 0 <= i < j < after.len() implies #[trigger] leq(
            after[i],
            after[j],
        ) by {
            let a = if i < p { i } else { i - 1 };
            let b = if j < p { j } else { j - 1 };
            if i != p && j != p {
                assert(leq(ranks@[a], ranks@[b]));
            } else if i == p {
                assert(ranks@[b] > rank);
            } else {
                if p > 0 {
                    assert(a <= p - 1);
                    if a < p - 1 {
                        assert(leq(ranks@[a], ranks@[p - 1]));
                    }
                }
            }
        }
    }
    ranks.insert(p, rank);
}

/// The ballots as contracts see them.
pub open spec fn ballot_views(ballots: Seq<Vec<OptionId>>) -> Seq<Seq<OptionId>> {
    ballots.map_values(|b: Vec<OptionId>| b@)
}

/// What the ballots give to one option.
pub struct VoteCount {
    pub id: OptionId,
    pub score: usize,
    pub ranks: Vec<usize>,
}

/// Whether `count` holds what the ballots `seen` give to its option, the
/// first place being worth `top` points.
pub open spec fn counts_right(count: VoteCount, seen: Seq<Seq<OptionId>>, top: int) -> bool {
    &&& count.score == capped(points(seen, count.id, top))
    &&& sorted_by(count.ranks@, |a: usize, b: usize| a <= b)
    &&& count.ranks@.to_multiset() == rank_list(seen, count.id).to_multiset()
}

/// Whether `counts` holds one right count for every option that the
/// ballots `seen` name, and `index` finds it.
pub open spec fn tallied(
    counts: Seq<VoteCount>,
    index: Map<OptionId, usize>,
    seen: Seq<Seq<OptionId>>,
    top: int,
) -> bool {
    &&& forall|id: OptionId| #[trigger] index.contains_key(id) <==> appears(seen, id)
    &&& forall|id: OptionId| #[trigger]
        index.contains_key(id) ==> index[id] < counts.len() && counts[index[id] as int].id == id
    &&& forall|j: int|
        0 <= j < counts.len() ==> index.contains_key((#[trigger] counts[j]).id)
            && index[counts[j].id] == j
    &&& forall|j: int| 0 <= j < counts.len() ==> counts_right(#[trigger] counts[j], seen, top)
}

/// Counts the ballots in one pass: for every option that a ballot names,
/// once, its score and its ranks in ascending order.
pub fn count_votes(ballots: &Vec<Vec<OptionId>>) -> (counts: Vec<VoteCount>)
    ensures
        forall|i: int, j: int|
            0 <= i < j < counts@.len() ==> (#[trigger] counts@[i]).id != (#[trigger] counts@[j]).id,
        forall|id: OptionId| #[trigger]
            appears(ballot_views(ballots@), id) <==> exists|j: int|
                0 <= j < counts@.len() && (#[trigger] counts@[j]).id == id,
        forall|j: int|
            0 <= j < counts@.len() ==> (#[trigger] counts@[j]).score == capped(
                score(ballot_views(ballots@), counts@[j].id),
            ) && counts@[j].ranks@ == sorted_ranks(ballot_views(ballots@), counts@[j].id),
{
    broadcast use vstd::std_specs::hash::group_hash_axioms;

    let top = longest_ballot(ballots);
    let ghost all = ballots@.map_values(|b: Vec<OptionId>| b@);
    let mut counts: Vec<VoteCount> = Vec::new();
    let mut index: HashMap<OptionId, usize> = HashMap::new();
    let mut b: usize = 0;
    proof {
        assert(all.take(0) =~= Seq::<Seq<OptionId>>::empty());
        assert forall|c: int| 0 <= c < all.len() implies (#[trigger] all[c]).len() <= top by {
            lemma_longest_bounds(all, c);
        }
    }
    while b < ballots.len()
        invariant
            b <= ballots.len(),
            all == ballots@.map_values(|b: Vec<OptionId>| b@),
            forall|c: int| 0 <= c < all.len() ==> (#[trigger] all[c]).len() <= top,
            tallied(counts@, index@, all.take(b as int), top as int),
        decreases ballots.len() - b,
    {
        let ballot = &ballots[b];
        proof {
            assert(all[b as int] == ballot@);
            assert forall|id: OptionId|
                appears(counted(all, b as int, 0), id) == appears(all.take(b as int), id)
                    && points(counted(all, b as int, 0), id, top as int) == points(
                    all.take(b as int),
                    id,
                    top as int,
                ) && rank_list(counted(all, b as int, 0), id) == rank_list(
                    all.take(b as int),
                    id,
                ) by {
                lemma_counted_start(all, b as int, id, top as int);
            }
            assert(tallied(counts@, index@, counted(all, b as int, 0), top as int));
        }
        let mut k: usize = 0;
        while k < ballot.len()
            invariant
                k <= ballot.len(),
                b < ballots.len(),
                all == ballots@.map_values(|b: Vec<OptionId>| b@),
                all[b as int] == ballot@,
                ballot@.len() <= top,
                forall|c: int| 0 <= c < all.len() ==> (#[trigger] all[c]).len() <= top,
                tallied(counts@, index@, counted(all, b as int, k as int), top as int),
            decreases ballot.len() - k,
        {
            let id = ballot[k];
            let ghost seen = counted(all, b as int, k as int);
            let ghost next = counted(all, b as int, k + 1);
            let ghost counts_before = counts@;
            let ghost index_before = index@;
            proof {
                assert forall|other: OptionId|
                    points(next, other, top as int) == points(seen, other, top as int) + if id
                        == other {
                        top - k
                    } else {
                        0
                    } && rank_list(next, other) == if id == other {
                        rank_list(seen, other).push((k + 1) as usize)
                    } else {
                        rank_list(seen, other)
                    } && (appears(next, other) <==> appears(seen, other) || id == other) by {
                    lemma_counted_next(all, b as int, k as int, other, top as int);
                }
            }
            match index.get(&id) {
                Some(place) => {
                    let j = *place;
                    proof {
                        assert forall|c: int| 0 <= c < seen.len() implies (#[trigger] seen[c]).len()
                            <= top by {
                            if c < b {
                                assert(all[c].len() <= top);
                            }
                        }
                        lemma_points_nonnegative(seen, id, top as int);
                        assert(counts_right(counts_before[j as int], seen, top as int));
                    }
                    counts[j].score = counts[j].score.saturating_add(top - k);
                    insert_rank(&mut counts[j].ranks, k + 1);
                    proof {
                        vstd::seq_lib::to_multiset_build(rank_list(seen, id), (k + 1) as usize);
                        assert(counts_right(counts@[j as int], next, top as int));
                        assert forall|i: int| 0 <= i < counts@.len() implies counts_right(
                            #[trigger] counts@[i],
                            next,
                            top as int,
                        ) by {
                            if i != j {
                                assert(counts@[i] == counts_before[i]);
                                assert(counts_right(counts_before[i], seen, top as int));
                                assert(counts_before[i].id != id);
                            }
                        }
                    }
                },
                None => {
                    proof {
                        lemma_unnamed(seen, id, top as int);
                    }
                    let mut ranks: Vec<usize> = Vec::new();
                    ranks.push(k + 1);
                    let place = counts.len();
                    counts.push(VoteCount { id, score: top - k, ranks });
                    index.insert(id, place);
                    proof {
                        assert(rank_list(next, id) =~= seq![(k + 1) as usize]);
                        assert(counts@[place as int].ranks@ =~= seq![(k + 1) as usize]);
                        assert(counts_right(counts@[place as int], next, top as int));
                        assert forall|i: int| 0 <= i < counts@.len() implies counts_right(
                            #[trigger] counts@[i],
                            next,
                            top as int,
                        ) by {
                            if i != place {
                                assert(counts@[i] == counts_before[i]);
                                assert(counts_right(counts_before[i], seen, top as int));
                                assert(index_before.contains_key(counts_before[i].id));
                            }
                        }
                        assert forall|i: int| 0 <= i < counts@.len() implies index@.contains_key(
                            (#[trigger] counts@[i]).id,
                        ) && index@[counts@[i].id] == i by {
                            if i != place {
                                assert(counts@[i] == counts_before[i]);
                                assert(index_before.contains_key(counts_before[i].id));
                            }
                        }
                    }
                },
            }
            proof {
                assert(tallied(counts@, index@, next, top as int));
            }
            k += 1;
        }
        proof {
            assert(ballot@.take(ballot.len() as int) =~= ballot@);
            assert(counted(all, b as int, ballot.len() as int) =~= all.take(b + 1));
        }
        b += 1;
    }
    proof {
        assert(all.take(ballots.len() as int) =~= all);
        let leq = |a: usize, b: usize| a <= b;
        lemma_usize_order_total();
        assert forall|j: int| 0 <= j < counts@.len() implies (#[trigger] counts@[j]).ranks@
            == sorted_ranks(all, counts@[j].id) by {
            assert(counts_right(counts@[j], all, top as int));
            rank_list(all, counts@[j].id).lemma_sort_by_ensures(leq);
            lemma_sorted_unique(
                counts@[j].ranks@,
                rank_list(all, counts@[j].id).sort_by(leq),
                leq,
            );
        }
        assert forall|j: int| 0 <= j < counts@.len() implies (#[trigger] counts@[j]).score
            == capped(score(all, counts@[j].id)) by {
            assert(counts_right(counts@[j], all, top as int));
        }
        assert forall|i: int, j: int| 0 <= i < j < counts@.len() implies (
        #[trigger] counts@[i]).id != (#[trigger] counts@[j]).id by {
            assert(index@[counts@[i].id] == i);
            assert(index@[counts@[j].id] == j);
        }
        assert(all == ballot_views(ballots@));
        assert forall|id: OptionId| #[trigger] appears(all, id) <==> exists|j: int|
            0 <= j < counts@.len() && (#[trigger] counts@[j]).id == id by {
            if appears(all, id) {
                assert(index@.contains_key(id));
                assert(counts@[index@[id] as int].id == id);
            }
            if exists|j: int| 0 <= j < counts@.len() && (#[trigger] counts@[j]).id == id {
                let j = choose|j: int| 0 <= j < counts@.len() && (#[trigger] counts@[j]).id == id;
                assert(index@.contains_key(counts@[j].id));
            }
        }
    }
    counts
}

/// The ballots as far as they are counted when the count stands at place
/// `k` of ballot `b`: the ballots before `b`, and of ballot `b` the places
/// before `k`.
pub open spec fn counted(ballots: Seq<Seq<OptionId>>, b: int, k: int) -> Seq<Seq<OptionId>> {
    ballots.take(b).push(ballots[b].take(k))
}

/// One more ballot names what the others name, and what it holds.
pub proof fn lemma_appears_push(ballots: Seq<Seq<OptionId>>, ballot: Seq<OptionId>, id: OptionId)
    ensures
        appears(ballots.push(ballot), id) <==> appears(ballots, id) || ballot.contains(id),
{
    let more = ballots.push(ballot);
    if appears(ballots, id) {
        let (b, k) = choose|b: int, k: int|
            0 <= b < ballots.len() && 0 <= k < ballots[b].len() && #[trigger] ballots[b][k] == id;
        assert(more[b][k] == id);
    }
    if ballot.contains(id) {
        let k = choose|k: int| 0 <= k < ballot.len() && ballot[k] == id;
        assert(more[ballots.len() as int][k] == id);
    }
    if appears(more, id) {
        let (b, k) = choose|b: int, k: int|
            0 <= b < more.len() && 0 <= k < more[b].len() && #[trigger] more[b][k] == id;
        if b < ballots.len() {
            assert(ballots[b][k] == id);
        } else {
            assert(ballot[k] == id);
        }
    }
}

/// What counting one more place adds: its points and its rank for the
/// option at that place, and nothing for any other.
pub proof fn lemma_counted_next(
    ballots: Seq<Seq<OptionId>>,
    b: int,
    k: int,
    id: OptionId,
    top: int,
)
    requires
        0 <= b < ballots.len(),
        0 <= k < ballots[b].len(),
    ensures
        points(counted(ballots, b, k + 1), id, top) == points(counted(ballots, b, k), id, top) + if ballots[b][k]
            == id {
            top - k
        } else {
            0
        },
        rank_list(counted(ballots, b, k + 1), id) == if ballots[b][k] == id {
            rank_list(counted(ballots, b, k), id).push((k + 1) as usize)
        } else {
            rank_list(counted(ballots, b, k), id)
        },
        appears(counted(ballots, b, k + 1), id) <==> appears(counted(ballots, b, k), id)
            || ballots[b][k] == id,
{
    let before = ballots.take(b);
    let short = ballots[b].take(k);
    let long = ballots[b].take(k + 1);
    assert(counted(ballots, b, k).drop_last() =~= before);
    assert(counted(ballots, b, k + 1).drop_last() =~= before);
    assert(long.drop_last() =~= short);
    assert(long.last() == ballots[b][k]);
    lemma_appears_push(before, short, id);
    lemma_appears_push(before, long, id);
    if long.contains(id) {
        let i = choose|i: int| 0 <= i < long.len() && long[i] == id;
        if i < k {
            assert(short[i] == id);
        }
    }
    if short.contains(id) {
        let i = choose|i: int| 0 <= i < short.len() && short[i] == id;
        assert(long[i] == id);
    }
    if ballots[b][k] == id {
        assert(long[k] == id);
        assert(rank_list(before, id) + ballot_ranks(short, id).push((k + 1) as usize) =~= (
        rank_list(before, id) + ballot_ranks(short, id)).push((k + 1) as usize));
    }
}

/// Before the first place of a ballot is counted, the count is that of the
/// ballots before it.
pub proof fn lemma_counted_start(ballots: Seq<Seq<OptionId>>, b: int, id: OptionId, top: int)
    requires
        0 <= b < ballots.len(),
    ensures
        points(counted(ballots, b, 0), id, top) == points(ballots.take(b), id, top),
        rank_list(counted(ballots, b, 0), id) == rank_list(ballots.take(b), id),
        appears(counted(ballots, b, 0), id) <==> appears(ballots.take(b), id),
{
    let before = ballots.take(b);
    let none = ballots[b].take(0);
    assert(counted(ballots, b, 0).drop_last() =~= before);
    assert(none =~= Seq::<OptionId>::empty());
    lemma_appears_push(before, none, id);
    assert(rank_list(before, id) + ballot_ranks(none, id) =~= rank_list(before, id));
}

/// An option that no ballot names has no points and no ranks.
pub proof fn lemma_unnamed(ballots: Seq<Seq<OptionId>>, id: OptionId, top: int)
    requires
        !appears(ballots, id),
    ensures
        points(ballots, id, top) == 0,
        rank_list(ballots, id) == Seq::<usize>::empty(),
    decreases ballots.len(),
{
    if ballots.len() > 0 {
        let before = ballots.drop_last();
        assert(before.push(ballots.last()) =~= ballots);
        lemma_appears_push(before, ballots.last(), id);
        lemma_unnamed(before, id, top);
        lemma_unnamed_in_ballot(ballots.last(), id, top);
        assert(rank_list(before, id) + ballot_ranks(ballots.last(), id) =~= Seq::<usize>::empty());
    }
}

/// A ballot gives no points and no ranks to an option that it does not
/// name.
pub proof fn lemma_unnamed_in_ballot(ballot: Seq<OptionId>, id: OptionId, top: int)
    requires
        !ballot.contains(id),
    ensures
        ballot_points(ballot, id, top) == 0,
        ballot_ranks(ballot, id) == Seq::<usize>::empty(),
    decreases ballot.len(),
{
    if ballot.len() > 0 {
        assert(ballot[ballot.len() - 1] != id);
        assert forall|i: int| 0 <= i < ballot.drop_last().len() implies ballot.drop_last()[i]
            != id by {
            assert(ballot[i] != id);
        }
        lemma_unnamed_in_ballot(ballot.drop_last(), id, top);
    }
}

/// Points are never negative where the first place is worth at least as
/// many points as any ballot has places.
pub proof fn lemma_points_nonnegative(ballots: Seq<Seq<OptionId>>, id: OptionId, top: int)
    requires
        forall|b: int| 0 <= b < ballots.len() ==> (#[trigger] ballots[b]).len() <= top,
    ensures
        points(ballots, id, top) >= 0,
    decreases ballots.len(),
{
    if ballots.len() > 0 {
        assert forall|b: int| 0 <= b < ballots.drop_last().len() implies (
        #[trigger] ballots.drop_last()[b]).len() <= top by {
            assert(ballots[b].len() <= top);
        }
        lemma_points_nonnegative(ballots.drop_last(), id, top);
        lemma_ballot_points_nonnegative(ballots.last(), id, top);
    }
}

/// A ballot gives no negative points where the first place is worth at
/// least as many points as the ballot has places.
pub proof fn lemma_ballot_points_nonnegative(ballot: Seq<OptionId>, id: OptionId, top: int)
    requires
        ballot.len() <= top,
    ensures
        ballot_points(ballot, id, top) >= 0,
    decreases ballot.len(),
{
    if ballot.len() > 0 {
        lemma_ballot_points_nonnegative(ballot.drop_last(), id, top);
    }
}

} // verus!
