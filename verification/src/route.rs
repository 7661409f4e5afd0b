//! Which operation a request under `/api/` asks for.

use crate::text::{lemma_first_at, same_text, split_at_first, split_once};
use vstd::prelude::*;
use vstd::string::StrSliceExecFns;

verus! {

/// The method of a request, as far as the routes tell methods apart.
#[derive(Clone, Copy, Debug, PartialEq, Eq, Structural)]
pub enum Method {
    Get,
    Post,
    Delete,
    Options,
    Other,
}

/// The operation that a request asks for.
#[derive(Debug, PartialEq, Eq)]
pub enum Endpoint {
    /// Confirm a login that has already been checked.
    Login,
    /// List the collections of the user.
    Playlists,
    /// Import the playlist with this catalog id.
    ImportPlaylist(String),
    /// Delete the collection with this id.
    DeletePlaylist(String),
    /// List the rating records of the collection with this id.
    PlaylistScores(String),
    /// Record the outcome that the query names.
    Outcome,
    /// List all rating records of the user.
    Scores,
    /// List the playlists that the catalog holds for the user.
    CatalogPlaylists,
    /// Carry out the action that the query names.
    Action,
    /// Nothing that this user may ask for in this way.
    MethodNotAllowed,
}

/// Mathematical view of an [`Endpoint`].
pub enum EndpointView {
    Login,
    Playlists,
    ImportPlaylist(Seq<char>),
    DeletePlaylist(Seq<char>),
    PlaylistScores(Seq<char>),
    Outcome,
    Scores,
    CatalogPlaylists,
    Action,
    MethodNotAllowed,
}

impl View for Endpoint {
    type V = EndpointView;

    open spec fn view(&self) -> EndpointView {
        match self {
            Endpoint::Login => EndpointView::Login,
            Endpoint::Playlists => EndpointView::Playlists,
            Endpoint::ImportPlaylist(id) => EndpointView::ImportPlaylist(id@),
            Endpoint::DeletePlaylist(id) => EndpointView::DeletePlaylist(id@),
            Endpoint::PlaylistScores(id) => EndpointView::PlaylistScores(id@),
            Endpoint::Outcome => EndpointView::Outcome,
            Endpoint::Scores => EndpointView::Scores,
            Endpoint::CatalogPlaylists => EndpointView::CatalogPlaylists,
            Endpoint::Action => EndpointView::Action,
            Endpoint::MethodNotAllowed => EndpointView::MethodNotAllowed,
        }
    }
}

/// The part of a path behind `/api/`, if it starts so.
pub open spec fn api_part(path: Seq<char>) -> Option<Seq<char>> {
    if path.len() >= 5 && path.take(5) == "/api/"@ {
        Some(path.skip(5))
    } else {
        None
    }
}

/// The pieces of a path between its slashes.
pub open spec fn segments_of(path: Seq<char>) -> Seq<Seq<char>>
    decreases path.len(),
{
    match split_at_first(path, '/') {
        Some((head, tail)) => if tail.len() < path.len() {
            seq![head] + segments_of(tail)
        } else {
            seq![path]
        },
        None => seq![path],
    }
}

/// The operation asked for with `method` on the path of these segments. A
/// demo user may only look and record outcomes.
pub open spec fn endpoint_of(method: Method, segments: Seq<Seq<char>>, demo: bool) -> EndpointView {
    if segments.len() == 1 {
        if segments[0] == "playlists"@ && method == Method::Get {
            EndpointView::Playlists
        } else if segments[0] == "elo"@ && method == Method::Post {
            EndpointView::Outcome
        } else if segments[0] == "scores"@ && method == Method::Get {
            EndpointView::Scores
        } else if segments[0] == "login"@ && method == Method::Post && !demo {
            EndpointView::Login
        } else if segments[0] == ""@ && method == Method::Post && !demo {
            EndpointView::Action
        } else {
            EndpointView::MethodNotAllowed
        }
    } else if segments.len() == 2 {
        if segments[0] == "playlists"@ && method == Method::Post && !demo {
            EndpointView::ImportPlaylist(segments[1])
        } else if segments[0] == "playlists"@ && method == Method::Delete && !demo {
            EndpointView::DeletePlaylist(segments[1])
        } else if segments[0] == "spotify"@ && segments[1] == "playlists"@ && method == Method::Get
            && !demo {
            EndpointView::CatalogPlaylists
        } else {
            EndpointView::MethodNotAllowed
        }
    } else if segments.len() == 3 {
        if segments[0] == "playlists"@ && segments[2] == "scores"@ && method == Method::Get {
            EndpointView::PlaylistScores(segments[1])
        } else {
            EndpointView::MethodNotAllowed
        }
    } else {
        EndpointView::MethodNotAllowed
    }
}

/// The part of the path behind `/api/`, if it starts so.
pub fn api_path<'a>(path: &'a str) -> (rest: Option<&'a str>)
    ensures
        match rest {
            Some(rest) => api_part(path@) == Some(rest@),
            None => api_part(path@).is_none(),
        },
{
    let n = path.unicode_len();
    if n >= 5 && same_text(path.substring_char(0, 5), "/api/") {
        Some(path.substring_char(5, n))
    } else {
        None
    }
}

/// The pieces of a path between its slashes.
pub fn segments<'a>(path: &'a str) -> (pieces: Vec<&'a str>)
    ensures
        pieces.deep_view() == segments_of(path@),
{
    let mut pieces: Vec<&'a str> = Vec::new();
    let mut rest = path;
    loop
        invariant_except_break
            pieces.deep_view() + segments_of(rest@) == segments_of(path@),
        ensures
            pieces.deep_view() == segments_of(path@),
        decreases rest@.len(),
    {
        proof {
            lemma_first_at(rest@, '/', 0);
        }
        match split_once(rest, '/') {
            Some((head, tail)) => {
                pieces.push(head);
                rest = tail;
            },
            None => {
                pieces.push(rest);
                break ;
            },
        }
    }
    pieces
}

/// Decides which operation a request asks for, from its method and the part
/// of its path behind `/api/`.
pub fn resolve(method: Method, path: &str, demo: bool) -> (endpoint: Endpoint)
    ensures
        endpoint@ == endpoint_of(method, segments_of(path@), demo),
{
    let pieces = segments(path);
    proof {
        assert forall|i: int| 0 <= i < pieces.len() implies pieces.deep_view()[i] == pieces[i]@ by {}
    }
    if pieces.len() == 1 {
        if same_text(pieces[0], "playlists") && method == Method::Get {
            Endpoint::Playlists
        } else if same_text(pieces[0], "elo") && method == Method::Post {
            Endpoint::Outcome
        } else if same_text(pieces[0], "scores") && method == Method::Get {
            Endpoint::Scores
        } else if same_text(pieces[0], "login") && method == Method::Post && !demo {
            Endpoint::Login
        } else if same_text(pieces[0], "") && method == Method::Post && !demo {
            Endpoint::Action
        } else {
            Endpoint::MethodNotAllowed
        }
    } else if pieces.len() == 2 {
        if same_text(pieces[0], "playlists") && method == Method::Post && !demo {
            Endpoint::ImportPlaylist(pieces[1].to_owned())
        } else if same_text(pieces[0], "playlists") && method == Method::Delete && !demo {
            Endpoint::DeletePlaylist(pieces[1].to_owned())
        } else if same_text(pieces[0], "spotify") && same_text(pieces[1], "playlists") && method
            == Method::Get && !demo {
            Endpoint::CatalogPlaylists
        } else {
            Endpoint::MethodNotAllowed
        }
    } else if pieces.len() == 3 {
        if same_text(pieces[0], "playlists") && same_text(pieces[2], "scores") && method
            == Method::Get {
            Endpoint::PlaylistScores(pieces[1].to_owned())
        } else {
            Endpoint::MethodNotAllowed
        }
    } else {
        Endpoint::MethodNotAllowed
    }
}

} // verus!
