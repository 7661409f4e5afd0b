//! Pairwise song ranking: an Elo-style rating exchange, a shuffle-bag match
//! queue, leaderboards and group standings, and the bookkeeping of a
//! comparison session that talks to an eventually consistent record store.
//!
//! The library decides and computes; reading and writing the store, fetching
//! from the music catalog and drawing pages is left to its caller.

pub mod catalog;
pub mod elo;
pub mod error;
pub mod link;
pub mod model;
pub mod order;
pub mod query;
pub mod queue;
pub mod ranking;
pub mod rating;
pub mod request;
pub mod route;
pub mod session;
pub mod standings;
pub mod store;
pub mod text;

pub use crate::error::EngineError;
pub use crate::model::{Playlist, Playlists, Score, Scores};
pub use crate::queue::MatchQueue;
pub use crate::session::Session;
