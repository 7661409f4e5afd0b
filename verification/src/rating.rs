//! Applying the outcome of one match to the two rating records.

use crate::elo::{elo_points, lemma_elo_points, lemma_elo_points_zero, points_for_gap};
use crate::error::EngineError;
use crate::model::{Score, ScoreView};
use vstd::prelude::*;

verus! {

/// The winner's record after the match.
pub open spec fn won(winner: ScoreView, loser: ScoreView) -> ScoreView {
    ScoreView {
        score: winner.score + elo_points(loser.score - winner.score),
        wins: winner.wins + 1,
        ..winner
    }
}

/// The loser's record after the match.
pub open spec fn lost(winner: ScoreView, loser: ScoreView) -> ScoreView {
    ScoreView {
        score: loser.score - elo_points(loser.score - winner.score),
        losses: loser.losses + 1,
        ..loser
    }
}

/// Whether both updated records still fit their 32-bit fields.
pub open spec fn outcome_fits(winner: ScoreView, loser: ScoreView) -> bool {
    &&& won(winner, loser).score <= i32::MAX
    &&& lost(winner, loser).score >= i32::MIN
    &&& winner.wins < i32::MAX
    &&& loser.losses < i32::MAX
}

/// Both counters go up by one, the sum of the two ratings stays, and the
/// winner's lead over the loser never shrinks: it grows unless the winner was
/// already 597 or more ahead, where the exchange truncates to nothing.
pub proof fn lemma_outcome(winner: ScoreView, loser: ScoreView)
    ensures
        won(winner, loser).wins == winner.wins + 1,
        lost(winner, loser).losses == loser.losses + 1,
        won(winner, loser).losses == winner.losses,
        lost(winner, loser).wins == loser.wins,
        won(winner, loser).score + lost(winner, loser).score == winner.score + loser.score,
        won(winner, loser).score - lost(winner, loser).score >= winner.score - loser.score,
        winner.score - loser.score < 597 <==> won(winner, loser).score - lost(winner, loser).score
            > winner.score - loser.score,
        winner.wf() && loser.wf() ==> won(winner, loser).wf() && lost(winner, loser).wf(),
{
    lemma_elo_points(loser.score - winner.score);
    lemma_elo_points_zero(loser.score - winner.score);
}

/// Tests whether [`apply_outcome`] can be called on the two records.
pub fn fits(winner: &Score, loser: &Score) -> (ok: bool)
    ensures
        ok == outcome_fits(winner@, loser@),
{
    let points = points_for_gap(loser.score as i64 - winner.score as i64) as i64;
    winner.score as i64 + points <= i32::MAX as i64 && loser.score as i64 - points
        >= i32::MIN as i64 && winner.wins < i32::MAX && loser.losses < i32::MAX
}

/// The two records as they stand after `winner` beat `loser`.
pub fn apply_outcome(winner: &Score, loser: &Score) -> (updated: (Score, Score))
    requires
        outcome_fits(winner@, loser@),
    ensures
        updated.0@ == won(winner@, loser@),
        updated.1@ == lost(winner@, loser@),
{
    let points = points_for_gap(loser.score as i64 - winner.score as i64);
    let mut up = winner.clone();
    let mut down = loser.clone();
    up.score = up.score + points;
    up.wins = up.wins + 1;
    down.score = down.score - points;
    down.losses = down.losses + 1;
    (up, down)
}

/// Whether the record is the one that `owner` holds under `id`.
pub open spec fn is_record_of(record: ScoreView, owner: Seq<char>, id: Seq<char>) -> bool {
    record.user_id == owner && record.id == id
}

/// Index of the first record of `owner` with the given `id`, if there is one.
pub open spec fn position(records: Seq<ScoreView>, owner: Seq<char>, id: Seq<char>) -> Option<int>
    decreases records.len(),
{
    if records.len() == 0 {
        None
    } else {
        match position(records.drop_last(), owner, id) {
            Some(i) => Some(i),
            None => if is_record_of(records.last(), owner, id) {
                Some(records.len() - 1)
            } else {
                None
            },
        }
    }
}

/// What `position` finds: the first match, or that there is none.
pub proof fn lemma_position(records: Seq<ScoreView>, owner: Seq<char>, id: Seq<char>)
    ensures
        match position(records, owner, id) {
            Some(i) => {
                &&& 0 <= i < records.len()
                &&& is_record_of(records[i], owner, id)
                &&& forall|j: int| 0 <= j < i ==> !is_record_of(#[trigger] records[j], owner, id)
            },
            None => forall|j: int|
                0 <= j < records.len() ==> !is_record_of(#[trigger] records[j], owner, id),
        },
    decreases records.len(),
{
    if records.len() > 0 {
        let front = records.drop_last();
        lemma_position(front, owner, id);
        assert forall|j: int| 0 <= j < front.len() implies front[j] == records[j] by {}
        match position(front, owner, id) {
            Some(i) => {
            },
            None => {
            },
        }
    }
}

/// Finds the first record of `owner` with the given `id`.
pub fn find(records: &Vec<Score>, owner: &str, id: &str) -> (found: Option<usize>)
    ensures
        match found {
            Some(i) => position(records.deep_view(), owner@, id@) == Some(i as int),
            None => position(records.deep_view(), owner@, id@).is_none(),
        },
{
    let owner_text = owner.to_owned();
    let id_text = id.to_owned();
    let mut i: usize = 0;
    while i < records.len()
        invariant
            i <= records.len(),
            owner_text@ == owner@,
            id_text@ == id@,
            position(records.deep_view().take(i as int), owner@, id@).is_none(),
        decreases records.len() - i,
    {
        proof {
            let next = records.deep_view().take(i + 1);
            assert(next.drop_last() == records.deep_view().take(i as int));
        }
        if records[i].user_id == owner_text && records[i].id == id_text {
            proof {
                lemma_position_extends(records.deep_view(), i + 1, owner@, id@);
            }
            return Some(i);
        }
        i += 1;
    }
    proof {
        assert(records.deep_view().take(i as int) == records.deep_view());
    }
    None
}

/// The places of the winner's and the loser's record, where both ids name
/// records of `owner` and the two records differ.
pub open spec fn resolve(
    records: Seq<ScoreView>,
    owner: Seq<char>,
    winner_id: Seq<char>,
    loser_id: Seq<char>,
) -> Option<(int, int)> {
    match (position(records, owner, winner_id), position(records, owner, loser_id)) {
        (Some(w), Some(l)) => if w != l {
            Some((w, l))
        } else {
            None
        },
        _ => None,
    }
}

/// The records after the outcome, for resolved places `w` and `l`.
pub open spec fn recorded(records: Seq<ScoreView>, w: int, l: int) -> Seq<ScoreView> {
    records.update(w, won(records[w], records[l])).update(l, lost(records[w], records[l]))
}

/// Whether [`record_outcome`] can be called: the outcome, if the ids resolve,
/// fits the 32-bit fields.
pub open spec fn recordable(
    records: Seq<ScoreView>,
    owner: Seq<char>,
    winner_id: Seq<char>,
    loser_id: Seq<char>,
) -> bool {
    match resolve(records, owner, winner_id, loser_id) {
        Some((w, l)) => outcome_fits(records[w], records[l]),
        None => true,
    }
}

/// Tests whether [`record_outcome`] can be called.
pub fn can_record(records: &Vec<Score>, owner: &str, winner_id: &str, loser_id: &str) -> (ok: bool)
    ensures
        ok == recordable(records.deep_view(), owner@, winner_id@, loser_id@),
{
    proof {
        lemma_position(records.deep_view(), owner@, winner_id@);
        lemma_position(records.deep_view(), owner@, loser_id@);
    }
    match (find(records, owner, winner_id), find(records, owner, loser_id)) {
        (Some(w), Some(l)) => w == l || fits(&records[w], &records[l]),
        _ => true,
    }
}

/// Applies the outcome of a match to the records of `owner`: the winner's and
/// the loser's record are replaced by their updated versions, which are also
/// returned. Where either id names no record of `owner`, or both name the same
/// one, nothing is changed and the call fails with `NotFound`.
pub fn record_outcome(records: &mut Vec<Score>, owner: &str, winner_id: &str, loser_id: &str) -> (res:
    Result<(Score, Score), EngineError>)
    requires
        recordable(old(records).deep_view(), owner@, winner_id@, loser_id@),
    ensures
        match resolve(old(records).deep_view(), owner@, winner_id@, loser_id@) {
            Some((w, l)) => {
                &&& res matches Ok(pair)
                &&& pair.0@ == won(old(records)[w]@, old(records)[l]@)
                &&& pair.1@ == lost(old(records)[w]@, old(records)[l]@)
                &&& final(records).deep_view() == recorded(old(records).deep_view(), w, l)
            },
            None => {
                &&& res == Err::<(Score, Score), EngineError>(EngineError::NotFound)
                &&& final(records).deep_view() == old(records).deep_view()
            },
        },
{
    proof {
        lemma_position(records.deep_view(), owner@, winner_id@);
        lemma_position(records.deep_view(), owner@, loser_id@);
    }
    match (find(records, owner, winner_id), find(records, owner, loser_id)) {
        (Some(w), Some(l)) => {
            if w == l {
                return Err(EngineError::NotFound);
            }
            let (up, down) = apply_outcome(&records[w], &records[l]);
            records.set(w, up.clone());
            records.set(l, down.clone());
            Ok((up, down))
        },
        _ => Err(EngineError::NotFound),
    }
}

/// A match within a prefix is the match within the whole.
proof fn lemma_position_extends(records: Seq<ScoreView>, n: int, owner: Seq<char>, id: Seq<char>)
    requires
        0 <= n <= records.len(),
        position(records.take(n), owner, id).is_some(),
    ensures
        position(records, owner, id) == position(records.take(n), owner, id),
    decreases records.len() - n,
{
    if n < records.len() {
        assert(records.take(n + 1).drop_last() == records.take(n));
        lemma_position_extends(records, n + 1, owner, id);
    } else {
        assert(records.take(n) == records);
    }
}

} // verus!
