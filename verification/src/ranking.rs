//! The leaderboard: the records of a snapshot ordered by rating.

use crate::model::{Score, ScoreView, Scores};
use crate::order::{
    index_ints, is_stable_order, key_ints, lemma_stable_order, lemma_stable_order_unique,
    order_desc, slot, stable_order,
};
use crate::queue::is_rearrangement;
use vstd::prelude::*;
use vstd::seq_lib::{to_multiset_build, to_multiset_insert};

verus! {

/// The ratings of the items, in their order.
pub open spec fn ratings(items: Seq<ScoreView>) -> Seq<int> {
    items.map_values(|item: ScoreView| item.score)
}

/// The items at the places that `order` lists.
pub open spec fn picked<T>(items: Seq<T>, order: Seq<int>) -> Seq<T> {
    order.map_values(|i: int| items[i])
}

/// The items by descending rating, those of equal rating in their input order.
pub open spec fn ranked(items: Seq<ScoreView>) -> Seq<ScoreView> {
    picked(items, stable_order(ratings(items)))
}

/// Picking by a stable order rearranges the items: none is lost or added.
pub proof fn lemma_picked_rearranges<T>(items: Seq<T>, keys: Seq<int>)
    requires
        items.len() == keys.len(),
    ensures
        picked(items, stable_order(keys)).len() == items.len(),
        is_rearrangement(picked(items, stable_order(keys)), items),
    decreases keys.len(),
{
    if keys.len() == 0 {
        assert(picked(items, stable_order(keys)) =~= items);
    } else {
        let front_items = items.drop_last();
        let front = keys.drop_last();
        let rest = stable_order(front);
        let at = slot(keys, rest, keys.last());
        lemma_picked_rearranges(front_items, front);
        lemma_stable_order(front);
        crate::order::lemma_slot(keys, rest, keys.last());
        assert(picked(items, rest) =~= picked(front_items, rest));
        assert(picked(items, stable_order(keys)) =~= picked(items, rest).insert(at, items.last()));
        to_multiset_insert(picked(items, rest), at, items.last());
        assert(items =~= front_items.push(items.last()));
        to_multiset_build(front_items, items.last());
    }
}

/// What a ranking is: it holds the items of the snapshot, each as often, by
/// descending rating, and of two items of equal rating the one that came
/// first in the snapshot comes first.
pub proof fn lemma_ranked(items: Seq<ScoreView>)
    ensures
        ranked(items).len() == items.len(),
        is_rearrangement(ranked(items), items),
        forall|a: int, b: int|
            0 <= a < b < items.len() ==> (#[trigger] ranked(items)[a]).score >= (
            #[trigger] ranked(items)[b]).score,
        forall|a: int, b: int|
            #![trigger stable_order(ratings(items))[a], stable_order(ratings(items))[b]]
            0 <= a < b < items.len() && ranked(items)[a].score == ranked(items)[b].score
                ==> stable_order(ratings(items))[a] < stable_order(ratings(items))[b],
        forall|a: int|
            0 <= a < items.len() ==> #[trigger] ranked(items)[a] == items[stable_order(
                ratings(items),
            )[a]],
{
    lemma_stable_order(ratings(items));
    lemma_picked_rearranges(items, ratings(items));
}

/// There is one ranking only: whatever lists the items of a snapshot in a
/// stable descending order of their ratings is the ranking of that snapshot.
pub proof fn lemma_ranking_unique(items: Seq<ScoreView>, order: Seq<int>)
    requires
        is_stable_order(ratings(items), order),
    ensures
        picked(items, order) == ranked(items),
{
    lemma_stable_order_unique(ratings(items), order);
}

/// Ranking a ranking changes nothing.
pub proof fn lemma_ranked_idempotent(items: Seq<ScoreView>)
    ensures
        ranked(ranked(items)) == ranked(items),
{
    let out = ranked(items);
    lemma_ranked(items);
    let keys = ratings(out);
    let same = Seq::new(out.len(), |i: int| i);
    assert(is_stable_order(keys, same)) by {
        assert forall|i: int| 0 <= i < keys.len() implies #[trigger] same.contains(i) by {
            assert(same[i] == i);
        }
    }
    lemma_stable_order_unique(keys, same);
}

/// The leaderboard of a snapshot: its records by descending rating, records
/// of equal rating in the order of the snapshot.
pub fn rank(items: &Vec<Score>) -> (ranking: Vec<Score>)
    ensures
        ranking.deep_view() == ranked(items.deep_view()),
{
    let mut keys: Vec<i32> = Vec::new();
    let mut i: usize = 0;
    while i < items.len()
        invariant
            i <= items.len(),
            keys.len() == i,
            key_ints(keys@) == ratings(items.deep_view()).take(i as int),
        decreases items.len() - i,
    {
        keys.push(items[i].score);
        i += 1;
    }
    assert(ratings(items.deep_view()).take(i as int) =~= ratings(items.deep_view()));
    let order = order_desc(&keys);
    proof {
        lemma_stable_order(key_ints(keys@));
    }
    let mut ranking: Vec<Score> = Vec::new();
    let mut a: usize = 0;
    while a < order.len()
        invariant
            a <= order.len(),
            order.len() == items.len(),
            ranking.len() == a,
            index_ints(order@) == stable_order(ratings(items.deep_view())),
            is_stable_order(ratings(items.deep_view()), index_ints(order@)),
            ranking.deep_view() == ranked(items.deep_view()).take(a as int),
        decreases order.len() - a,
    {
        assert(index_ints(order@)[a as int] == order[a as int]);
        ranking.push(items[order[a]].clone());
        a += 1;
    }
    ranking
}

impl Scores {
    /// The snapshot as a leaderboard.
    pub fn ranked(&self) -> (ranking: Scores)
        ensures
            ranking@ == ranked(self@),
    {
        Scores { scores: rank(&self.scores) }
    }
}

} // verus!
