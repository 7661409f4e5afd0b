//! The discipline of talking to the record store.
//!
//! The store is eventually consistent. A caller sees its own writes only if
//! every call carries the session token that the store returned last. The two
//! writes of an outcome go to different records and may run side by side, but
//! the outcome counts only when both are through.

use crate::error::EngineError;
use vstd::prelude::*;

verus! {

/// The consistency token of one owner's scope, as the store returned it last.
#[derive(Debug)]
pub struct StoreContext {
    token: Option<String>,
}

impl View for StoreContext {
    type V = Option<Seq<char>>;

    closed spec fn view(&self) -> Option<Seq<char>> {
        match self.token {
            Some(token) => Some(token@),
            None => None,
        }
    }
}

/// The token to carry after a call that returned `returned`: the new one if
/// the store sent one, else the one held.
pub open spec fn threaded(held: Option<Seq<char>>, returned: Option<Seq<char>>) -> Option<Seq<char>> {
    match returned {
        Some(token) => Some(token),
        None => held,
    }
}

impl StoreContext {
    /// The context before the first call: there is no token yet.
    pub fn new() -> (context: StoreContext)
        ensures
            context@.is_none(),
    {
        StoreContext { token: None }
    }

    /// A context that carries on from a token obtained earlier.
    pub fn resume(token: Option<String>) -> (context: StoreContext)
        ensures
            context@ == match token {
                Some(text) => Some(text@),
                None => None,
            },
    {
        StoreContext { token }
    }

    /// The token that the next call must carry, if there is one.
    pub fn token(&self) -> (token: Option<String>)
        ensures
            match token {
                Some(text) => self@ == Some(text@),
                None => self@.is_none(),
            },
    {
        match &self.token {
            Some(text) => Some(text.clone()),
            None => None,
        }
    }

    /// Takes note of the token that a call returned.
    pub fn observe(&mut self, returned: Option<String>)
        ensures
            final(self)@ == threaded(
                old(self)@,
                match returned {
                    Some(text) => Some(text@),
                    None => None,
                },
            ),
    {
        if let Some(text) = returned {
            self.token = Some(text);
        }
    }
}

/// How a call to the store ended: with the token it returned, or in failure.
#[derive(Debug, PartialEq, Eq)]
pub enum Reply {
    /// The call went through and returned this session token.
    Done(String),
    /// The call failed, timed out or was cancelled.
    Failed,
}

impl Reply {
    /// Whether the call went through.
    pub open spec fn is_done(self) -> bool {
        self is Done
    }
}

/// What to do once both writes of an outcome have been awaited.
#[derive(Clone, Copy, Debug, PartialEq, Eq, Structural)]
pub enum Decision {
    /// Both records are written: the outcome stands.
    Commit,
    /// Neither record is written and this was the first attempt: issue both
    /// writes once more, with the same token.
    Retry,
    /// The outcome has failed, for the reason given.
    Fail(EngineError),
}

/// What is decided on two awaited writes.
pub open spec fn decided(winner_done: bool, loser_done: bool, retried: bool) -> Decision {
    if winner_done && loser_done {
        Decision::Commit
    } else if winner_done || loser_done {
        Decision::Fail(EngineError::PartialUpdateFailure)
    } else if retried {
        Decision::Fail(EngineError::StoreError)
    } else {
        Decision::Retry
    }
}

/// Decides on an outcome from the replies to its two writes. `retried` says
/// whether this was already the second attempt.
pub fn settle(winner: &Reply, loser: &Reply, retried: bool) -> (decision: Decision)
    ensures
        decision == decided(winner.is_done(), loser.is_done(), retried),
{
    match (winner, loser) {
        (Reply::Done(_), Reply::Done(_)) => Decision::Commit,
        (Reply::Failed, Reply::Failed) => if retried {
            Decision::Fail(EngineError::StoreError)
        } else {
            Decision::Retry
        },
        _ => Decision::Fail(EngineError::PartialUpdateFailure),
    }
}

/// Decides on a failed read: it is tried once more, then it is an error.
pub fn after_failed_read(retried: bool) -> (decision: Decision)
    ensures
        decision == if retried {
            Decision::Fail(EngineError::StoreError)
        } else {
            Decision::Retry
        },
{
    if retried {
        Decision::Fail(EngineError::StoreError)
    } else {
        Decision::Retry
    }
}

/// How the creation of a record ended.
#[derive(Clone, Copy, Debug, PartialEq, Eq, Structural)]
pub enum Created {
    /// The record was created, or replaced where that was asked for.
    Done,
    /// A record with this id is there already.
    Conflict,
    /// The call failed.
    Failed,
}

/// Whether a creation has left the record in the store: a record that was
/// there before is as good as one created now.
pub fn present(reply: Created) -> (res: Result<(), EngineError>)
    ensures
        res == match reply {
            Created::Failed => Err::<(), EngineError>(EngineError::StoreError),
            _ => Ok::<(), EngineError>(()),
        },
{
    match reply {
        Created::Failed => Err(EngineError::StoreError),
        _ => Ok(()),
    }
}

/// The user whose data every import resets.
pub const DEMO_USER: &'static str = "demo";

/// Whether an import for `user_id` replaces the rating records that are
/// there: only for the demo user.
pub fn resets_on_import(user_id: &str) -> (resets: bool)
    ensures
        resets == (user_id@ == DEMO_USER@),
{
    crate::text::same_text(user_id, DEMO_USER)
}

/// A partial write is never committed and never retried: whatever the
/// attempt, one write through and one failed is a failure of its own kind.
pub proof fn lemma_no_partial_commit(winner_done: bool, loser_done: bool, retried: bool)
    ensures
        decided(winner_done, loser_done, retried) == Decision::Commit <==> winner_done && loser_done,
        winner_done != loser_done ==> decided(winner_done, loser_done, retried) == Decision::Fail(
            EngineError::PartialUpdateFailure,
        ),
        decided(winner_done, loser_done, retried) == Decision::Retry ==> !winner_done && !loser_done
            && !retried,
{
}

} // verus!
