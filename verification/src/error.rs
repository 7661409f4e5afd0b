//! What can go wrong while a session runs.

use vstd::prelude::*;

verus! {

/// The ways an operation of the engine fails.
#[derive(Clone, Copy, Debug, PartialEq, Eq, Structural)]
pub enum EngineError {
    /// An owner, a collection or a rating record is missing.
    NotFound,
    /// The collection holds fewer than two items to compare.
    TooFewItems,
    /// The store could not be read or written.
    StoreError,
    /// One of the two writes of an outcome failed after the other succeeded.
    PartialUpdateFailure,
}

impl EngineError {
    /// A short text for the caller to show.
    pub fn message(&self) -> (text: &'static str)
        ensures
            text@ == self.message_text(),
    {
        match self {
            EngineError::NotFound => "not found",
            EngineError::TooFewItems => "Playlist has less than 2 songs",
            EngineError::StoreError => "the store could not be reached",
            EngineError::PartialUpdateFailure => "only one of the two ratings was written",
        }
    }

    pub open spec fn message_text(self) -> Seq<char> {
        match self {
            EngineError::NotFound => "not found"@,
            EngineError::TooFewItems => "Playlist has less than 2 songs"@,
            EngineError::StoreError => "the store could not be reached"@,
            EngineError::PartialUpdateFailure => "only one of the two ratings was written"@,
        }
    }
}

} // verus!
