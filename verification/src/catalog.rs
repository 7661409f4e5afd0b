//! What the music catalog delivers, and how it becomes collections and rating
//! records on import.

use crate::model::{Score, ScoreView, INITIAL_RATING};
use crate::model::{Playlist as Collection, PlaylistView as CollectionView};
use uuid::Uuid;
use vstd::prelude::*;

verus! {

/// A playlist as the catalog describes it.
#[derive(Debug, PartialEq, Eq)]
pub struct Playlist {
    pub name: String,
}

/// One page of the tracks of a playlist.
#[derive(Debug, PartialEq, Eq)]
pub struct PlaylistItems {
    pub items: Vec<Item>,
}

/// One entry of a playlist.
#[derive(Debug, PartialEq, Eq)]
pub struct Item {
    pub track: Track,
}

/// A track of the catalog.
#[derive(Debug, PartialEq, Eq)]
pub struct Track {
    pub id: String,
    pub name: String,
    pub album: Album,
    pub artists: Vec<Artist>,
    pub preview_url: Option<String>,
}

/// The album of a track.
#[derive(Debug, PartialEq, Eq)]
pub struct Album {
    pub name: String,
}

/// An artist of a track.
#[derive(Debug, PartialEq, Eq)]
pub struct Artist {
    pub name: String,
}

/// A user of the catalog.
#[derive(Debug, PartialEq, Eq)]
pub struct User {
    pub id: String,
}

/// Mathematical view of a [`Track`].
pub struct TrackView {
    pub id: Seq<char>,
    pub name: Seq<char>,
    pub album: Seq<char>,
    pub artists: Seq<Seq<char>>,
    pub preview_url: Option<Seq<char>>,
}

impl View for Artist {
    type V = Seq<char>;

    open spec fn view(&self) -> Seq<char> {
        self.name@
    }
}

impl DeepView for Artist {
    type V = Seq<char>;

    open spec fn deep_view(&self) -> Seq<char> {
        self.name@
    }
}

impl View for Track {
    type V = TrackView;

    open spec fn view(&self) -> TrackView {
        TrackView {
            id: self.id@,
            name: self.name@,
            album: self.album.name@,
            artists: self.artists.deep_view(),
            preview_url: match self.preview_url {
                Some(url) => Some(url@),
                None => None,
            },
        }
    }
}

impl View for Item {
    type V = TrackView;

    open spec fn view(&self) -> TrackView {
        self.track@
    }
}

impl DeepView for Item {
    type V = TrackView;

    open spec fn deep_view(&self) -> TrackView {
        self.track@
    }
}

impl View for PlaylistItems {
    type V = Seq<TrackView>;

    open spec fn view(&self) -> Seq<TrackView> {
        self.items.deep_view()
    }
}

/// The rating record that a track starts with.
pub open spec fn fresh_record(
    track: TrackView,
    id: Seq<char>,
    album: Seq<char>,
    user_id: Seq<char>,
) -> ScoreView {
    ScoreView {
        id,
        track_id: track.id,
        track: track.name,
        album,
        artists: track.artists,
        user_id,
        score: INITIAL_RATING as int,
        wins: 0,
        losses: 0,
    }
}

/// The rating records that the tracks of a playlist start with: each under
/// the id of its track.
pub open spec fn playlist_records(tracks: Seq<TrackView>, user_id: Seq<char>) -> Seq<ScoreView> {
    tracks.map_values(|track: TrackView| fresh_record(track, track.id, track.album, user_id))
}

/// The ids of the tracks, in their order.
pub open spec fn track_ids(tracks: Seq<TrackView>) -> Seq<Seq<char>> {
    tracks.map_values(|track: TrackView| track.id)
}

/// A new random identifier in its hyphenated form, by `uuid::Uuid::new_v4` and
/// `to_hyphenated`. That form is 36 characters long; which identifier it is,
/// is up to chance.
#[verifier::external_body]
fn fresh_id() -> (id: String)
    ensures
        id@.len() == 36,
{
    Uuid::new_v4().to_hyphenated().to_string()
}

impl Track {
    /// The names of the artists of the track.
    pub fn artist_names(&self) -> (names: Vec<String>)
        ensures
            names.deep_view() == self@.artists,
    {
        let mut names: Vec<String> = Vec::new();
        let mut i: usize = 0;
        while i < self.artists.len()
            invariant
                i <= self.artists.len(),
                names.len() == i,
                forall|j: int| 0 <= j < i ==> names[j]@ == self.artists[j]@,
            decreases self.artists.len() - i,
        {
            names.push(self.artists[i].name.clone());
            i += 1;
        }
        names
    }

    /// The rating record that the track starts with for `user_id`, filed
    /// under `id` and `album`.
    pub fn initial_score(&self, id: String, album: &str, user_id: &str) -> (record: Score)
        ensures
            record@ == fresh_record(self@, id@, album@, user_id@),
            record@.is_fresh(),
    {
        Score::new(
            id,
            self.id.clone(),
            self.name.clone(),
            album.to_owned(),
            self.artist_names(),
            user_id.to_owned(),
        )
    }
}

/// Adds a page of tracks to an import: their ids to the collection and their
/// initial rating records to `scores`.
pub fn import_page(collection: &mut Collection, scores: &mut Vec<Score>, page: &PlaylistItems)
    ensures
        final(collection)@ == (CollectionView {
            tracks: old(collection)@.tracks + track_ids(page@),
            ..old(collection)@
        }),
        final(scores).deep_view() == old(scores).deep_view() + playlist_records(
            page@,
            old(collection)@.user_id,
        ),
{
    let ghost tracks = collection.tracks.deep_view();
    let ghost records = scores.deep_view();
    let ghost owner = collection@.user_id;
    let mut i: usize = 0;
    while i < page.items.len()
        invariant
            i <= page.items.len(),
            collection@ == (CollectionView {
                tracks: tracks + track_ids(page@).take(i as int),
                ..old(collection)@
            }),
            owner == old(collection)@.user_id,
            scores.deep_view() == records + playlist_records(page@, owner).take(i as int),
        decreases page.items.len() - i,
    {
        let ghost listed = collection.tracks.deep_view();
        let ghost kept = scores.deep_view();
        let track = &page.items[i].track;
        collection.tracks.push(track.id.clone());
        scores.push(
            track.initial_score(
                track.id.clone(),
                track.album.name.as_str(),
                collection.user_id.as_str(),
            ),
        );
        i += 1;
        assert(collection.tracks.deep_view() =~= tracks + track_ids(page@).take(i as int)) by {
            assert(collection.tracks.deep_view() =~= listed.push(track@.id));
        }
        assert(scores.deep_view() =~= records + playlist_records(page@, owner).take(i as int)) by {
            assert(scores.deep_view() =~= kept.push(
                fresh_record(track@, track@.id, track@.album, owner),
            ));
        }
    }
    assert(track_ids(page@).take(i as int) =~= track_ids(page@));
}

/// Imports a playlist of the catalog for `user_id`: the collection, filed
/// under the playlist's own id, and the initial rating records of the tracks
/// on its first page.
pub fn import_playlist(playlist_id: &str, user_id: &str, playlist: &Playlist, page: &PlaylistItems) -> (imported:
    (Collection, Vec<Score>))
    ensures
        imported.0@ == (CollectionView {
            id: playlist_id@,
            playlist_id: playlist_id@,
            name: playlist.name@,
            user_id: user_id@,
            tracks: track_ids(page@),
        }),
        imported.1.deep_view() == playlist_records(page@, user_id@),
{
    let mut collection = Collection {
        id: playlist_id.to_owned(),
        playlist_id: playlist_id.to_owned(),
        name: playlist.name.clone(),
        user_id: user_id.to_owned(),
        tracks: Vec::new(),
    };
    let mut scores: Vec<Score> = Vec::new();
    import_page(&mut collection, &mut scores, page);
    (collection, scores)
}

/// Imports an album of the catalog for `user_id`: a collection and the
/// initial rating records of its tracks, each under a new random id.
pub fn import_album(album_id: &str, user_id: &str, album: &Album, tracks: &PlaylistItems) -> (imported:
    (Collection, Vec<Score>))
    ensures
        imported.0@ == (CollectionView {
            id: imported.0@.id,
            playlist_id: album_id@,
            name: album.name@,
            user_id: user_id@,
            tracks: track_ids(tracks@),
        }),
        imported.0@.id.len() == 36,
        imported.1.len() == tracks@.len(),
        forall|i: int|
            0 <= i < tracks@.len() ==> (#[trigger] imported.1[i])@ == fresh_record(
                tracks@[i],
                imported.1[i]@.id,
                album.name@,
                user_id@,
            ) && imported.1[i]@.id.len() == 36,
{
    let mut listed: Vec<String> = Vec::new();
    let mut scores: Vec<Score> = Vec::new();
    let mut i: usize = 0;
    while i < tracks.items.len()
        invariant
            i <= tracks.items.len(),
            listed.len() == i,
            scores.len() == i,
            forall|j: int| 0 <= j < i ==> (#[trigger] listed[j])@ == tracks@[j].id,
            forall|j: int|
                0 <= j < i ==> (#[trigger] scores[j])@ == fresh_record(
                    tracks@[j],
                    scores[j]@.id,
                    album.name@,
                    user_id@,
                ) && scores[j]@.id.len() == 36,
        decreases tracks.items.len() - i,
    {
        let track = &tracks.items[i].track;
        listed.push(track.id.clone());
        scores.push(track.initial_score(fresh_id(), album.name.as_str(), user_id));
        i += 1;
    }
    assert(listed.deep_view() =~= track_ids(tracks@));
    let collection = Collection {
        id: fresh_id(),
        playlist_id: album_id.to_owned(),
        name: album.name.clone(),
        user_id: user_id.to_owned(),
        tracks: listed,
    };
    (collection, scores)
}

} // verus!
