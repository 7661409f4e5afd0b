//! Rating records and collections, with their mathematical views.

use vstd::prelude::*;

verus! {

/// Rating every record starts with.
pub const INITIAL_RATING: i32 = 1500;

/// Mathematical view of a [`Score`].
pub struct ScoreView {
    pub id: Seq<char>,
    pub track_id: Seq<char>,
    pub track: Seq<char>,
    pub album: Seq<char>,
    pub artists: Seq<Seq<char>>,
    pub user_id: Seq<char>,
    pub score: int,
    pub wins: int,
    pub losses: int,
}

/// One rating record: the standing of one track for one user.
#[derive(Debug, PartialEq, Eq)]
pub struct Score {
    pub id: String,
    pub track_id: String,
    pub track: String,
    pub album: String,
    pub artists: Vec<String>,
    pub user_id: String,
    pub score: i32,
    pub wins: i32,
    pub losses: i32,
}

impl View for Score {
    type V = ScoreView;

    open spec fn view(&self) -> ScoreView {
        ScoreView {
            id: self.id@,
            track_id: self.track_id@,
            track: self.track@,
            album: self.album@,
            artists: self.artists.deep_view(),
            user_id: self.user_id@,
            score: self.score as int,
            wins: self.wins as int,
            losses: self.losses as int,
        }
    }
}

impl DeepView for Score {
    type V = ScoreView;

    open spec fn deep_view(&self) -> ScoreView {
        self@
    }
}

impl ScoreView {
    /// The counters are never negative.
    pub open spec fn wf(self) -> bool {
        self.wins >= 0 && self.losses >= 0
    }

    /// A record as it is created at import: initial rating, no matches yet.
    pub open spec fn is_fresh(self) -> bool {
        self.score == INITIAL_RATING && self.wins == 0 && self.losses == 0
    }
}

impl Clone for Score {
    fn clone(&self) -> (res: Self)
        ensures
            res@ == self@,
    {
        let artists = self.artists.clone();
        Score {
            id: self.id.clone(),
            track_id: self.track_id.clone(),
            track: self.track.clone(),
            album: self.album.clone(),
            artists,
            user_id: self.user_id.clone(),
            score: self.score,
            wins: self.wins,
            losses: self.losses,
        }
    }
}

impl Score {
    /// The record created when a track is imported for `user_id`.
    pub fn new(
        id: String,
        track_id: String,
        track: String,
        album: String,
        artists: Vec<String>,
        user_id: String,
    ) -> (res: Score)
        ensures
            res@ == (ScoreView {
                id: id@,
                track_id: track_id@,
                track: track@,
                album: album@,
                artists: artists.deep_view(),
                user_id: user_id@,
                score: INITIAL_RATING as int,
                wins: 0,
                losses: 0,
            }),
            res@.is_fresh(),
            res@.wf(),
    {
        Score { id, track_id, track, album, artists, user_id, score: INITIAL_RATING, wins: 0, losses: 0 }
    }

    /// The key of the partition that holds the record: its owner.
    pub fn partition_key(&self) -> (key: &str)
        ensures
            key@ == self@.user_id,
    {
        self.user_id.as_str()
    }
}

/// A snapshot of rating records.
#[derive(Debug, PartialEq, Eq)]
pub struct Scores {
    pub scores: Vec<Score>,
}

impl View for Scores {
    type V = Seq<ScoreView>;

    open spec fn view(&self) -> Seq<ScoreView> {
        self.scores.deep_view()
    }
}

/// Mathematical view of a [`Playlist`].
pub struct PlaylistView {
    pub id: Seq<char>,
    pub playlist_id: Seq<char>,
    pub name: Seq<char>,
    pub user_id: Seq<char>,
    pub tracks: Seq<Seq<char>>,
}

/// A collection: the tracks that one user ranks against each other.
#[derive(Debug, PartialEq, Eq)]
pub struct Playlist {
    pub id: String,
    pub playlist_id: String,
    pub name: String,
    pub user_id: String,
    pub tracks: Vec<String>,
}

impl View for Playlist {
    type V = PlaylistView;

    open spec fn view(&self) -> PlaylistView {
        PlaylistView {
            id: self.id@,
            playlist_id: self.playlist_id@,
            name: self.name@,
            user_id: self.user_id@,
            tracks: self.tracks.deep_view(),
        }
    }
}

impl DeepView for Playlist {
    type V = PlaylistView;

    open spec fn deep_view(&self) -> PlaylistView {
        self@
    }
}

impl Clone for Playlist {
    fn clone(&self) -> (res: Self)
        ensures
            res@ == self@,
    {
        let tracks = self.tracks.clone();
        Playlist {
            id: self.id.clone(),
            playlist_id: self.playlist_id.clone(),
            name: self.name.clone(),
            user_id: self.user_id.clone(),
            tracks,
        }
    }
}

impl Playlist {
    /// The key of the partition that holds the collection: its owner.
    pub fn partition_key(&self) -> (key: &str)
        ensures
            key@ == self@.user_id,
    {
        self.user_id.as_str()
    }
}

/// The collections of one user.
#[derive(Debug, PartialEq, Eq)]
pub struct Playlists {
    pub items: Vec<Playlist>,
}

impl View for Playlists {
    type V = Seq<PlaylistView>;

    open spec fn view(&self) -> Seq<PlaylistView> {
        self.items.deep_view()
    }
}

} // verus!
