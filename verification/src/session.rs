//! A comparison session: one owner ranking the items of one collection.
//!
//! The session keeps the snapshot of rating records it was started from, the
//! match queue and the consistency token of its owner's scope. It decides;
//! reading and writing the store is the caller's part.

use crate::error::EngineError;
use crate::model::{Playlist, PlaylistView, Score, ScoreView};
use crate::queue::{is_next, is_rearrangement, MatchQueue};
use crate::ranking::{rank, ranked};
use crate::rating::{
    apply_outcome, find, lemma_position, lost, position, recordable, resolve, won,
};
use crate::standings::{group_average, group_standings, GroupKey, Standing};
use crate::store::{decided, settle, threaded, Decision, Reply, StoreContext};
use vstd::prelude::*;

verus! {

/// Whether the record is one of the collection: it has the collection's owner
/// and its track is listed there.
pub open spec fn belongs(record: ScoreView, collection: PlaylistView) -> bool {
    record.user_id == collection.user_id && collection.tracks.contains(record.track_id)
}

/// The records that belong to the collection, in their order.
pub open spec fn selected(records: Seq<ScoreView>, collection: PlaylistView) -> Seq<ScoreView>
    decreases records.len(),
{
    if records.len() == 0 {
        Seq::empty()
    } else if belongs(records.last(), collection) {
        selected(records.drop_last(), collection).push(records.last())
    } else {
        selected(records.drop_last(), collection)
    }
}

/// Every selected record belongs to the collection, and there are no more of
/// them than records.
pub proof fn lemma_selected(records: Seq<ScoreView>, collection: PlaylistView)
    ensures
        selected(records, collection).len() <= records.len(),
        forall|i: int|
            0 <= i < selected(records, collection).len() ==> belongs(
                #[trigger] selected(records, collection)[i],
                collection,
            ),
    decreases records.len(),
{
    if records.len() > 0 {
        lemma_selected(records.drop_last(), collection);
    }
}

/// The records with the one that `record` replaces exchanged for it: the
/// first of the same owner and id, if it is a record of the same track.
/// Without such a record nothing changes.
pub open spec fn replaced(records: Seq<ScoreView>, record: ScoreView) -> Seq<ScoreView> {
    match position(records, record.user_id, record.id) {
        Some(i) => if records[i].track_id == record.track_id {
            records.update(i, record)
        } else {
            records
        },
        None => records,
    }
}

/// Whether the two snapshots list the same items: as many, with the same ids
/// in the same order.
pub open spec fn same_items(one: Seq<ScoreView>, other: Seq<ScoreView>) -> bool {
    &&& one.len() == other.len()
    &&& forall|i: int| 0 <= i < one.len() ==> (#[trigger] one[i]).id == other[i].id
}

/// Whether the two snapshots list the same items.
fn lists_same_items(one: &Vec<Score>, other: &Vec<Score>) -> (same: bool)
    ensures
        same == same_items(one.deep_view(), other.deep_view()),
{
    if one.len() != other.len() {
        return false;
    }
    let mut i: usize = 0;
    while i < one.len()
        invariant
            i <= one.len(),
            one.len() == other.len(),
            forall|j: int| 0 <= j < i ==> (#[trigger] one.deep_view()[j]).id == other.deep_view()[j].id,
        decreases one.len() - i,
    {
        if one[i].id != other[i].id {
            assert(one.deep_view()[i as int].id != other.deep_view()[i as int].id);
            return false;
        }
        i += 1;
    }
    true
}

/// Whether one of the texts is `text`.
fn lists(texts: &Vec<String>, text: &String) -> (found: bool)
    ensures
        found == texts.deep_view().contains(text@),
{
    let mut i: usize = 0;
    while i < texts.len()
        invariant
            i <= texts.len(),
            forall|j: int| 0 <= j < i ==> texts[j]@ != text@,
        decreases texts.len() - i,
    {
        if texts[i] == *text {
            assert(texts.deep_view()[i as int] == text@);
            return true;
        }
        i += 1;
    }
    false
}

/// Accepts a looked-up collection for `owner`: it must exist and be theirs.
pub fn open_collection(owner: &str, found: Option<Playlist>) -> (res: Result<Playlist, EngineError>)
    ensures
        match found {
            Some(collection) => if collection@.user_id == owner@ {
                res matches Ok(opened) && opened@ == collection@
            } else {
                res == Err::<Playlist, EngineError>(EngineError::NotFound)
            },
            None => res == Err::<Playlist, EngineError>(EngineError::NotFound),
        },
{
    match found {
        Some(collection) => {
            if collection.user_id == owner.to_owned() {
                Ok(collection)
            } else {
                Err(EngineError::NotFound)
            }
        },
        None => Err(EngineError::NotFound),
    }
}

/// The records that belong to the collection, in their order.
pub fn select_items(records: &Vec<Score>, collection: &Playlist) -> (items: Vec<Score>)
    ensures
        items.deep_view() == selected(records.deep_view(), collection@),
{
    let mut items: Vec<Score> = Vec::new();
    let mut i: usize = 0;
    while i < records.len()
        invariant
            i <= records.len(),
            items.deep_view() == selected(records.deep_view().take(i as int), collection@),
        decreases records.len() - i,
    {
        let ghost seen = records.deep_view().take(i as int);
        let ghost next = records.deep_view().take(i + 1);
        assert(next.drop_last() =~= seen);
        if records[i].user_id == collection.user_id && lists(&collection.tracks, &records[i].track_id) {
            items.push(records[i].clone());
        }
        i += 1;
    }
    assert(records.deep_view().take(i as int) =~= records.deep_view());
    items
}

/// Mathematical view of a [`Session`].
pub struct SessionView {
    pub collection: PlaylistView,
    pub items: Seq<ScoreView>,
    pub queue: Seq<ScoreView>,
    pub token: Option<Seq<char>>,
}

/// One owner's comparison session on one collection.
#[derive(Debug)]
pub struct Session {
    collection: Playlist,
    items: Vec<Score>,
    queue: MatchQueue,
    context: StoreContext,
}

impl View for Session {
    type V = SessionView;

    closed spec fn view(&self) -> SessionView {
        SessionView {
            collection: self.collection@,
            items: self.items.deep_view(),
            queue: self.queue@,
            token: self.context@,
        }
    }
}

impl SessionView {
    /// The owner of the session: the owner of its collection.
    pub open spec fn owner(self) -> Seq<char> {
        self.collection.user_id
    }

    /// A session has at least two items to compare, all of its collection.
    pub open spec fn wf(self) -> bool {
        &&& self.items.len() >= 2
        &&& forall|i: int|
            0 <= i < self.items.len() ==> belongs(#[trigger] self.items[i], self.collection)
    }
}

impl Session {
    /// Starts a session on `collection` from the rating records read for it.
    /// Records that do not belong to the collection are left out. With fewer
    /// than two items there is nothing to compare, and no session.
    pub fn start(collection: &Playlist, records: &Vec<Score>, token: Option<String>) -> (res: Result<
        Session,
        EngineError,
    >)
        ensures
            match res {
                Ok(session) => {
                    &&& session@.wf()
                    &&& session@ == (SessionView {
                        collection: collection@,
                        items: selected(records.deep_view(), collection@),
                        queue: Seq::empty(),
                        token: match token {
                            Some(text) => Some(text@),
                            None => None,
                        },
                    })
                },
                Err(error) => {
                    &&& error == EngineError::TooFewItems
                    &&& selected(records.deep_view(), collection@).len() < 2
                },
            },
    {
        let items = select_items(records, collection);
        if items.len() < 2 {
            return Err(EngineError::TooFewItems);
        }
        proof {
            lemma_selected(records.deep_view(), collection@);
        }
        Ok(
            Session {
                collection: collection.clone(),
                items,
                queue: MatchQueue::new(),
                context: StoreContext::resume(token),
            },
        )
    }

    /// Starts a session for `owner` on the collection that was looked up for
    /// them: `NotFound` where there is none or it is someone else's,
    /// `TooFewItems` where fewer than two of the records belong to it.
    pub fn open(owner: &str, found: Option<Playlist>, records: &Vec<Score>, token: Option<String>) -> (res:
        Result<Session, EngineError>)
        ensures
            match found {
                Some(collection) => if collection@.user_id != owner@ {
                    res matches Err(error) && error == EngineError::NotFound
                } else if selected(records.deep_view(), collection@).len() < 2 {
                    res matches Err(error) && error == EngineError::TooFewItems
                } else {
                    &&& res matches Ok(session)
                    &&& session@.wf()
                    &&& session@ == (SessionView {
                        collection: collection@,
                        items: selected(records.deep_view(), collection@),
                        queue: Seq::empty(),
                        token: match token {
                            Some(text) => Some(text@),
                            None => None,
                        },
                    })
                },
                None => res matches Err(error) && error == EngineError::NotFound,
            },
    {
        match open_collection(owner, found) {
            Ok(collection) => Session::start(&collection, records, token),
            Err(error) => Err(error),
        }
    }

    /// The owner of the session.
    pub fn owner(&self) -> (owner: &str)
        ensures
            owner@ == self@.owner(),
    {
        self.collection.user_id.as_str()
    }

    /// The collection of the session.
    pub fn collection(&self) -> (collection: &Playlist)
        ensures
            collection@ == self@.collection,
    {
        &self.collection
    }

    /// Takes a new snapshot from the rating records read for the collection,
    /// together with the token that the read returned. The queue stays as it
    /// is if the snapshot lists the same items as before; if the collection
    /// has changed, the queue starts over. Where the records hold fewer than
    /// two items of the collection, the session is left as it was.
    pub fn refresh(&mut self, records: &Vec<Score>, returned: Option<String>) -> (res: Result<
        (),
        EngineError,
    >)
        requires
            old(self)@.wf(),
        ensures
            final(self)@.wf(),
            selected(records.deep_view(), old(self)@.collection).len() >= 2 ==> res.is_ok()
                && final(self)@ == (SessionView {
                items: selected(records.deep_view(), old(self)@.collection),
                queue: if same_items(
                    old(self)@.items,
                    selected(records.deep_view(), old(self)@.collection),
                ) {
                    old(self)@.queue
                } else {
                    Seq::empty()
                },
                token: threaded(
                    old(self)@.token,
                    match returned {
                        Some(text) => Some(text@),
                        None => None,
                    },
                ),
                ..old(self)@
            }),
            selected(records.deep_view(), old(self)@.collection).len() < 2 ==> res == Err::<
                (),
                EngineError,
            >(EngineError::TooFewItems) && final(self)@ == old(self)@,
    {
        let items = select_items(records, &self.collection);
        if items.len() < 2 {
            return Err(EngineError::TooFewItems);
        }
        proof {
            lemma_selected(records.deep_view(), self.collection@);
        }
        if !lists_same_items(&self.items, &items) {
            self.queue.clear();
        }
        self.items = items;
        self.context.observe(returned);
        Ok(())
    }

    /// The snapshot of rating records.
    pub fn items(&self) -> (items: &Vec<Score>)
        ensures
            items.deep_view() == self@.items,
    {
        &self.items
    }

    /// The token that the next call to the store must carry, if there is one.
    pub fn token(&self) -> (token: Option<String>)
        ensures
            match token {
                Some(text) => self@.token == Some(text@),
                None => self@.token.is_none(),
            },
    {
        self.context.token()
    }

    /// How many entries of the current cycle wait to be drawn.
    pub fn queued(&self) -> (n: usize)
        ensures
            n == self@.queue.len(),
    {
        self.queue.len()
    }

    /// The next pair of items to compare.
    pub fn next_pair(&mut self) -> (pair: (Score, Score))
        requires
            old(self)@.wf(),
        ensures
            final(self)@ == (SessionView { queue: final(self)@.queue, ..old(self)@ }),
            exists|fresh: Seq<ScoreView>|
                is_rearrangement(fresh, old(self)@.items) && #[trigger] is_next(
                    old(self)@.queue,
                    fresh,
                    final(self)@.queue,
                    (pair.0@, pair.1@),
                ),
    {
        let ghost before = self.queue@;
        let pair = self.queue.next(&self.items);
        proof {
            let fresh = choose|fresh: Seq<ScoreView>|
                is_rearrangement(fresh, self.items.deep_view()) && #[trigger] is_next(
                    before,
                    fresh,
                    self.queue@,
                    (pair.0@, pair.1@),
                );
            assert(is_next(old(self)@.queue, fresh, self@.queue, (pair.0@, pair.1@)));
        }
        pair
    }

    /// The leaderboard of the snapshot.
    pub fn ranking(&self) -> (ranking: Vec<Score>)
        ensures
            ranking.deep_view() == ranked(self@.items),
    {
        rank(&self.items)
    }

    /// The standings of the snapshot by `key`.
    pub fn standings(&self, key: GroupKey) -> (standings: Vec<Standing>)
        ensures
            standings.deep_view() == group_standings(self@.items, key),
    {
        group_average(&self.items, key)
    }

    /// Tests whether [`Session::propose`] can be called with these ids.
    pub fn can_propose(&self, winner_id: &str, loser_id: &str) -> (ok: bool)
        ensures
            ok == recordable(self@.items, self@.owner(), winner_id@, loser_id@),
    {
        crate::rating::can_record(&self.items, self.collection.user_id.as_str(), winner_id, loser_id)
    }

    /// The two records as they would stand after `winner_id` beat `loser_id`.
    /// The snapshot is left as it is: the outcome counts once both records are
    /// written, see [`Session::conclude`]. Fails with `NotFound` where either
    /// id names no item of the session, or both name the same.
    pub fn propose(&self, winner_id: &str, loser_id: &str) -> (res: Result<(Score, Score), EngineError>)
        requires
            recordable(self@.items, self@.owner(), winner_id@, loser_id@),
        ensures
            match resolve(self@.items, self@.owner(), winner_id@, loser_id@) {
                Some((w, l)) => {
                    &&& res matches Ok(pair)
                    &&& pair.0@ == won(self@.items[w], self@.items[l])
                    &&& pair.1@ == lost(self@.items[w], self@.items[l])
                },
                None => res == Err::<(Score, Score), EngineError>(EngineError::NotFound),
            },
    {
        proof {
            lemma_position(self.items.deep_view(), self.collection@.user_id, winner_id@);
            lemma_position(self.items.deep_view(), self.collection@.user_id, loser_id@);
        }
        match (
            find(&self.items, self.collection.user_id.as_str(), winner_id),
            find(&self.items, self.collection.user_id.as_str(), loser_id),
        ) {
            (Some(w), Some(l)) => {
                if w == l {
                    return Err(EngineError::NotFound);
                }
                Ok(apply_outcome(&self.items[w], &self.items[l]))
            },
            _ => Err(EngineError::NotFound),
        }
    }

    /// Puts `record` in the place of the item it replaces.
    fn replace(&mut self, record: Score)
        requires
            old(self)@.wf(),
        ensures
            final(self)@.wf(),
            final(self)@ == (SessionView {
                items: replaced(old(self)@.items, record@),
                ..old(self)@
            }),
    {
        proof {
            lemma_position(self.items.deep_view(), record@.user_id, record@.id);
        }
        let ghost before = self.items.deep_view();
        match find(&self.items, record.user_id.as_str(), record.id.as_str()) {
            Some(i) => {
                if self.items[i].track_id == record.track_id {
                    self.items.set(i, record);
                    assert(self.items.deep_view() =~= before.update(i as int, record@));
                }
            },
            None => {},
        }
    }

    /// Concludes an outcome once both writes have been awaited. Where both
    /// went through, the two records replace their items in the snapshot and
    /// the session carries on with the token returned last. Otherwise the
    /// session is left as it was, and the decision says whether to write again
    /// or how the outcome failed.
    pub fn conclude(
        &mut self,
        winner: Score,
        loser: Score,
        winner_reply: Reply,
        loser_reply: Reply,
        retried: bool,
    ) -> (decision: Decision)
        requires
            old(self)@.wf(),
        ensures
            decision == decided(winner_reply.is_done(), loser_reply.is_done(), retried),
            final(self)@.wf(),
            match (winner_reply, loser_reply) {
                (Reply::Done(first), Reply::Done(second)) => final(self)@ == (SessionView {
                    items: replaced(replaced(old(self)@.items, winner@), loser@),
                    token: Some(second@),
                    ..old(self)@
                }),
                _ => final(self)@ == old(self)@,
            },
    {
        let decision = settle(&winner_reply, &loser_reply, retried);
        match (winner_reply, loser_reply) {
            (Reply::Done(first), Reply::Done(second)) => {
                self.replace(winner);
                self.replace(loser);
                self.context.observe(Some(first));
                self.context.observe(Some(second));
            },
            _ => {},
        }
        decision
    }

    /// Takes note of the token that a read returned.
    pub fn observe(&mut self, returned: Option<String>)
        ensures
            final(self)@ == (SessionView {
                token: threaded(
                    old(self)@.token,
                    match returned {
                        Some(text) => Some(text@),
                        None => None,
                    },
                ),
                ..old(self)@
            }),
    {
        self.context.observe(returned);
    }

    /// Forgets the current cycle: the next draw starts a new one.
    pub fn reset_queue(&mut self)
        ensures
            final(self)@ == (SessionView { queue: Seq::empty(), ..old(self)@ }),
    {
        self.queue.clear();
    }
}

} // verus!
