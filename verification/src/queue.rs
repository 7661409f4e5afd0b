//! The match queue: a shuffle bag that hands out the next pair to compare.
//!
//! The queue is drawn from its end. When it runs empty it is refilled with a
//! fresh random arrangement of all items. When a single entry is left over,
//! that entry stays at the front and a fresh arrangement is put behind it, so
//! that the leftover is drawn in the last pair of the new cycle.

use crate::model::{Score, ScoreView};
use rand::seq::SliceRandom;
use vstd::prelude::*;
use vstd::seq_lib::lemma_multiset_commutative;

verus! {

/// The queue as the next draw finds it: refilled from `fresh` where fewer
/// than two entries were left.
pub open spec fn refilled<T>(queue: Seq<T>, fresh: Seq<T>) -> Seq<T> {
    if queue.len() == 0 {
        fresh
    } else if queue.len() == 1 {
        queue + fresh
    } else {
        queue
    }
}

/// The pair that a draw hands out: the last entry, then the one before it.
pub open spec fn drawn_pair<T>(queue: Seq<T>) -> (T, T) {
    (queue[queue.len() - 1], queue[queue.len() - 2])
}

/// The queue after a draw.
pub open spec fn after_draw<T>(queue: Seq<T>) -> Seq<T> {
    queue.take(queue.len() - 2)
}

/// Whether `a` holds the entries of `b`, each as often, in any order.
pub open spec fn is_rearrangement<T>(a: Seq<T>, b: Seq<T>) -> bool {
    a.to_multiset() == b.to_multiset()
}

/// One step of the queue: from `before`, with `fresh` at hand for a refill,
/// to `after` and the pair drawn.
pub open spec fn is_next<T>(before: Seq<T>, fresh: Seq<T>, after: Seq<T>, pair: (T, T)) -> bool {
    let queue = refilled(before, fresh);
    &&& queue.len() >= 2
    &&& after == after_draw(queue)
    &&& pair == drawn_pair(queue)
}

/// The draw order left for the current cycle.
#[derive(Debug)]
pub struct MatchQueue {
    pending: Vec<Score>,
}

impl View for MatchQueue {
    type V = Seq<ScoreView>;

    closed spec fn view(&self) -> Seq<ScoreView> {
        self.pending.deep_view()
    }
}

/// Rearranges the records at random, by `rand::seq::SliceRandom::shuffle` with
/// the generator of `rand::thread_rng`. The shuffle works by swapping entries
/// in place, so the records afterwards are those before, in some order; which
/// order is left open.
#[verifier::external_body]
fn shuffle(records: &mut Vec<Score>)
    ensures
        final(records).deep_view().to_multiset() == old(records).deep_view().to_multiset(),
{
    records.shuffle(&mut rand::thread_rng());
}

/// A copy of the records.
pub fn copy_records(records: &Vec<Score>) -> (copy: Vec<Score>)
    ensures
        copy.deep_view() == records.deep_view(),
{
    let mut copy: Vec<Score> = Vec::new();
    let mut i: usize = 0;
    while i < records.len()
        invariant
            i <= records.len(),
            copy.len() == i,
            copy.deep_view() == records.deep_view().take(i as int),
        decreases records.len() - i,
    {
        let record = records[i].clone();
        copy.push(record);
        i += 1;
    }
    copy
}

impl MatchQueue {
    /// An empty queue: the first draw starts a cycle.
    pub fn new() -> (queue: MatchQueue)
        ensures
            queue@ == Seq::<ScoreView>::empty(),
    {
        let queue = MatchQueue { pending: Vec::new() };
        queue
    }

    /// How many entries wait to be drawn.
    pub fn len(&self) -> (n: usize)
        ensures
            n == self@.len(),
    {
        self.pending.len()
    }

    /// The entries that wait to be drawn; the last is drawn first.
    pub fn pending(&self) -> (entries: &Vec<Score>)
        ensures
            entries.deep_view() == self@,
    {
        &self.pending
    }

    /// Whether nothing waits to be drawn.
    pub fn is_empty(&self) -> (empty: bool)
        ensures
            empty == (self@.len() == 0),
    {
        self.pending.len() == 0
    }

    /// Forgets the current cycle, as when the collection changes or a new
    /// session starts.
    pub fn clear(&mut self)
        ensures
            final(self)@ == Seq::<ScoreView>::empty(),
    {
        self.pending.clear();
    }

    /// Takes the last two entries off the queue.
    fn draw(&mut self) -> (pair: (Score, Score))
        requires
            old(self)@.len() >= 2,
        ensures
            final(self)@ == after_draw(old(self)@),
            (pair.0@, pair.1@) == drawn_pair(old(self)@),
    {
        let first = self.pending.pop().unwrap();
        let second = self.pending.pop().unwrap();
        (first, second)
    }

    /// Draws the next pair, refilling the queue from `fresh` where fewer than
    /// two entries are left.
    pub fn next_from(&mut self, fresh: Vec<Score>) -> (pair: (Score, Score))
        requires
            fresh.len() >= 2,
        ensures
            is_next(old(self)@, fresh.deep_view(), final(self)@, (pair.0@, pair.1@)),
    {
        let mut fresh = fresh;
        let ghost arrangement = fresh.deep_view();
        if self.pending.len() < 2 {
            self.pending.append(&mut fresh);
        }
        assert(self@ =~= refilled(old(self)@, arrangement));
        self.draw()
    }

    /// Draws the next pair of items to compare. Where fewer than two entries
    /// are left the queue is first refilled with a random arrangement of
    /// `items`.
    pub fn next(&mut self, items: &Vec<Score>) -> (pair: (Score, Score))
        requires
            items.len() >= 2,
        ensures
            exists|fresh: Seq<ScoreView>|
                is_rearrangement(fresh, items.deep_view()) && #[trigger] is_next(
                    old(self)@,
                    fresh,
                    final(self)@,
                    (pair.0@, pair.1@),
                ),
    {
        if self.pending.len() < 2 {
            let mut fresh = copy_records(items);
            shuffle(&mut fresh);
            proof {
                fresh.deep_view().to_multiset_ensures();
                items.deep_view().to_multiset_ensures();
            }
            let pair = self.next_from(fresh);
            pair
        } else {
            let pair = self.draw();
            assert(is_next(old(self)@, items.deep_view(), self@, (pair.0@, pair.1@)));
            pair
        }
    }
}

/// The entries that `n` draws in a row hand out, in the order drawn, where no
/// refill comes between them.
pub open spec fn drawn<T>(queue: Seq<T>, n: nat) -> Seq<T>
    decreases n,
{
    if n == 0 {
        Seq::empty()
    } else {
        seq![drawn_pair(queue).0, drawn_pair(queue).1] + drawn(after_draw(queue), (n - 1) as nat)
    }
}

/// The queue after `n` draws in a row.
pub open spec fn after_draws<T>(queue: Seq<T>, n: nat) -> Seq<T>
    decreases n,
{
    if n == 0 {
        queue
    } else {
        after_draws(after_draw(queue), (n - 1) as nat)
    }
}

/// Whether no two of the items share an id.
pub open spec fn distinct_ids(items: Seq<ScoreView>) -> bool {
    forall|i: int, j: int| 0 <= i < j < items.len() ==> items[i].id != items[j].id
}

/// `n` draws in a row take the last `2n` entries and leave the others in place.
pub proof fn lemma_after_draws<T>(queue: Seq<T>, n: nat)
    requires
        2 * n <= queue.len(),
    ensures
        after_draws(queue, n) == queue.take(queue.len() - 2 * n),
        drawn(queue, n).len() == 2 * n,
        is_rearrangement(drawn(queue, n), queue.skip(queue.len() - 2 * n)),
    decreases n,
{
    if n == 0 {
        assert(queue.skip(queue.len() as int) =~= drawn(queue, 0));
    } else {
        let rest = after_draw(queue);
        let pair = seq![drawn_pair(queue).0, drawn_pair(queue).1];
        let tail = seq![drawn_pair(queue).1, drawn_pair(queue).0];
        let m = (n - 1) as nat;
        lemma_after_draws(rest, m);
        assert(queue.skip(queue.len() - 2 * n) =~= rest.skip(rest.len() - 2 * m) + tail);
        assert(pair =~= seq![drawn_pair(queue).0] + seq![drawn_pair(queue).1]);
        assert(tail =~= seq![drawn_pair(queue).1] + seq![drawn_pair(queue).0]);
        vstd::seq_lib::lemma_seq_union_to_multiset_commutative(
            seq![drawn_pair(queue).0],
            seq![drawn_pair(queue).1],
        );
        lemma_multiset_commutative(pair, drawn(rest, m));
        lemma_multiset_commutative(rest.skip(rest.len() - 2 * m), tail);
        assert(pair.to_multiset().add(drawn(rest, m).to_multiset()) =~= rest.skip(
            rest.len() - 2 * m,
        ).to_multiset().add(tail.to_multiset()));
    }
}

/// Over one full cycle of an even number of items every item is drawn exactly
/// once. Starting from an empty queue, whatever arrangement the refill puts
/// in, `n` draws hand out the `2n` items, each as often as the item set holds
/// it, with no refill on the way, and leave the queue empty.
pub proof fn lemma_full_cycle<T>(items: Seq<T>, fresh: Seq<T>, n: nat)
    requires
        is_rearrangement(fresh, items),
        items.len() == 2 * n,
    ensures
        is_rearrangement(drawn(refilled(Seq::empty(), fresh), n), items),
        after_draws(refilled(Seq::empty(), fresh), n) == Seq::<T>::empty(),
        forall|k: nat| k < n ==> (#[trigger] after_draws(refilled(Seq::empty(), fresh), k)).len() >= 2,
{
    fresh.to_multiset_ensures();
    items.to_multiset_ensures();
    lemma_after_draws(fresh, n);
    assert(fresh.skip(0) =~= fresh);
    assert forall|k: nat| k < n implies (#[trigger] after_draws(fresh, k)).len() >= 2 by {
        lemma_after_draws(fresh, k);
    }
}

/// The carry-over. With one entry left over and a fresh arrangement of at
/// least two items put behind it, the pair drawn next is made of the last two
/// entries of the new arrangement, and the leftover stays at the front of the
/// queue through every draw that leaves two entries or more. For an odd
/// number of items the cycle then ends with the queue holding the leftover
/// and the first entry of the arrangement, which are drawn together.
pub proof fn lemma_carry_over<T>(leftover: T, fresh: Seq<T>, n: nat)
    requires
        fresh.len() >= 2,
        2 * n < fresh.len() + 1,
    ensures
        refilled(seq![leftover], fresh) == seq![leftover] + fresh,
        drawn_pair(refilled(seq![leftover], fresh)) == (
            fresh[fresh.len() - 1],
            fresh[fresh.len() - 2],
        ),
        after_draws(refilled(seq![leftover], fresh), n)[0] == leftover,
        fresh.len() == 2 * n + 1 ==> after_draws(refilled(seq![leftover], fresh), n) == seq![
            leftover,
            fresh[0],
        ] && drawn_pair(after_draws(refilled(seq![leftover], fresh), n)) == (fresh[0], leftover),
{
    let queue = seq![leftover] + fresh;
    lemma_after_draws(queue, n);
}

/// Rearranging items with distinct ids leaves the ids distinct.
pub proof fn lemma_rearrangement_distinct_ids(items: Seq<ScoreView>, fresh: Seq<ScoreView>)
    requires
        distinct_ids(items),
        is_rearrangement(fresh, items),
    ensures
        distinct_ids(fresh),
{
    items.to_multiset_ensures();
    fresh.to_multiset_ensures();
    items.lemma_multiset_has_no_duplicates();
    fresh.lemma_multiset_has_no_duplicates_conv();
    assert forall|i: int, j: int| 0 <= i < j < fresh.len() implies fresh[i].id != fresh[j].id by {
        assert(items.to_multiset().count(fresh[i]) > 0 && items.to_multiset().count(fresh[j]) > 0);
    }
}

/// Over one full cycle of an even number of items with distinct ids, every id
/// is drawn exactly once: the entries drawn have distinct ids, and every item
/// is among them.
pub proof fn lemma_full_cycle_ids(items: Seq<ScoreView>, fresh: Seq<ScoreView>, n: nat)
    requires
        distinct_ids(items),
        is_rearrangement(fresh, items),
        items.len() == 2 * n,
    ensures
        drawn(refilled(Seq::empty(), fresh), n).len() == items.len(),
        distinct_ids(drawn(refilled(Seq::empty(), fresh), n)),
        forall|i: int|
            0 <= i < items.len() ==> drawn(refilled(Seq::empty(), fresh), n).contains(
                #[trigger] items[i],
            ),
{
    let all = drawn(refilled(Seq::empty(), fresh), n);
    fresh.to_multiset_ensures();
    items.to_multiset_ensures();
    lemma_full_cycle(items, fresh, n);
    lemma_rearrangement_distinct_ids(items, all);
    all.to_multiset_ensures();
    assert forall|i: int| 0 <= i < items.len() implies all.contains(#[trigger] items[i]) by {
        assert(items.to_multiset().count(items[i]) > 0);
    }
}

/// No self-match within a cycle: where the items have distinct ids, the two
/// entries that a draw takes from one arrangement of them are different items.
pub proof fn lemma_no_self_match(items: Seq<ScoreView>, fresh: Seq<ScoreView>, n: nat)
    requires
        distinct_ids(items),
        is_rearrangement(fresh, items),
        2 * n + 2 <= fresh.len(),
    ensures
        drawn_pair(after_draws(fresh, n)).0.id != drawn_pair(after_draws(fresh, n)).1.id,
{
    lemma_rearrangement_distinct_ids(items, fresh);
    lemma_after_draws(fresh, n);
}

} // verus!
