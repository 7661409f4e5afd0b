//! What a caller asks for, read from the text of a request.

use crate::store::DEMO_USER;
use crate::text::{lemma_first_at, same_text, split_at_first, split_once};
use vstd::prelude::*;
use vstd::string::StringExecFns;

verus! {

/// An import asked for.
#[derive(Debug, PartialEq, Eq)]
pub enum Import {
    /// The playlist with this catalog id.
    Playlist(String),
    /// The album with this catalog id.
    Album(String),
}

/// Mathematical view of an [`Import`].
pub enum ImportView {
    Playlist(Seq<char>),
    Album(Seq<char>),
}

impl View for Import {
    type V = ImportView;

    open spec fn view(&self) -> ImportView {
        match self {
            Import::Playlist(id) => ImportView::Playlist(id@),
            Import::Album(id) => ImportView::Album(id@),
        }
    }
}

/// The winner's and the loser's id in an outcome query: the text before and
/// after the first `&`.
pub open spec fn outcome_of(query: Seq<char>) -> Option<(Seq<char>, Seq<char>)> {
    split_at_first(query, '&')
}

/// The import that an action query asks for. The query has two fields with
/// `&` between them; the first is `action=import`, the second gives the kind
/// and, after its first `=`, the id.
pub open spec fn import_of(query: Seq<char>) -> Option<ImportView> {
    match split_at_first(query, '&') {
        Some((action, target)) => match split_at_first(target, '=') {
            Some((kind, id)) => if action != "action=import"@ || split_at_first(target, '&').is_some() {
                None
            } else if kind == "playlist"@ {
                Some(ImportView::Playlist(id))
            } else if kind == "album"@ {
                Some(ImportView::Album(id))
            } else {
                None
            },
            None => None,
        },
        None => None,
    }
}

/// The credentials in an authorization header: what follows the first space.
pub open spec fn credentials_of(header: Seq<char>) -> Option<Seq<char>> {
    match split_at_first(header, ' ') {
        Some((_, credentials)) => Some(credentials),
        None => None,
    }
}

/// Who asks, as far as the authorization header tells.
#[derive(Debug, PartialEq, Eq)]
pub enum Access {
    /// The request carries no authorization header.
    Missing,
    /// The header holds no space, and so no credentials.
    Malformed,
    /// The demo user asks.
    Demo,
    /// Someone asks who logged in with this code.
    Code(String),
}

/// Mathematical view of an [`Access`].
pub enum AccessView {
    Missing,
    Malformed,
    Demo,
    Code(Seq<char>),
}

impl View for Access {
    type V = AccessView;

    open spec fn view(&self) -> AccessView {
        match self {
            Access::Missing => AccessView::Missing,
            Access::Malformed => AccessView::Malformed,
            Access::Demo => AccessView::Demo,
            Access::Code(code) => AccessView::Code(code@),
        }
    }
}

/// Who asks, by the authorization header of the request.
pub open spec fn access_of(header: Option<Seq<char>>) -> AccessView {
    match header {
        None => AccessView::Missing,
        Some(text) => match credentials_of(text) {
            None => AccessView::Malformed,
            Some(code) => if code == DEMO_USER@ {
                AccessView::Demo
            } else {
                AccessView::Code(code)
            },
        },
    }
}

/// Tells who asks from the authorization header of the request, if it has one.
pub fn access(header: Option<&str>) -> (who: Access)
    ensures
        who@ == access_of(
            match header {
                Some(text) => Some(text@),
                None => None,
            },
        ),
{
    match header {
        None => Access::Missing,
        Some(text) => match credentials(text) {
            None => Access::Malformed,
            Some(code) => if same_text(code.as_str(), DEMO_USER) {
                Access::Demo
            } else {
                Access::Code(code)
            },
        },
    }
}

/// Reads the winner's and the loser's id from an outcome query.
pub fn parse_outcome(query: Option<&str>) -> (ids: Option<(String, String)>)
    ensures
        match ids {
            Some((winner, loser)) => query matches Some(text) && outcome_of(text@) == Some(
                (winner@, loser@),
            ),
            None => match query {
                Some(text) => outcome_of(text@).is_none(),
                None => true,
            },
        },
{
    match query {
        Some(text) => match split_once(text, '&') {
            Some((winner, loser)) => Some((winner.to_owned(), loser.to_owned())),
            None => None,
        },
        None => None,
    }
}

/// Reads the import that an action query asks for.
pub fn parse_action(query: Option<&str>) -> (import: Option<Import>)
    ensures
        match import {
            Some(import) => query matches Some(text) && import_of(text@) == Some(import@),
            None => match query {
                Some(text) => import_of(text@).is_none(),
                None => true,
            },
        },
{
    let text = match query {
        Some(text) => text,
        None => {
            return None;
        },
    };
    let (action, target) = match split_once(text, '&') {
        Some(fields) => fields,
        None => {
            return None;
        },
    };
    let (kind, id) = match split_once(target, '=') {
        Some(parts) => parts,
        None => {
            return None;
        },
    };
    if !same_text(action, "action=import") || split_once(target, '&').is_some() {
        None
    } else if same_text(kind, "playlist") {
        Some(Import::Playlist(id.to_owned()))
    } else if same_text(kind, "album") {
        Some(Import::Album(id.to_owned()))
    } else {
        None
    }
}

/// Reads the credentials from an authorization header.
pub fn credentials(header: &str) -> (found: Option<String>)
    ensures
        match found {
            Some(text) => credentials_of(header@) == Some(text@),
            None => credentials_of(header@).is_none(),
        },
{
    match split_once(header, ' ') {
        Some((_, rest)) => Some(rest.to_owned()),
        None => None,
    }
}

/// The query that reports that `winner_id` beat `loser_id`.
pub open spec fn outcome_query_of(winner_id: Seq<char>, loser_id: Seq<char>) -> Seq<char> {
    winner_id + "&"@ + loser_id
}

/// The request that reports that `winner_id` beat `loser_id`.
pub fn outcome_request(winner_id: &str, loser_id: &str) -> (request: String)
    ensures
        request@ == "/api/elo?"@ + outcome_query_of(winner_id@, loser_id@),
{
    "/api/elo?".to_owned().concat(winner_id).concat("&").concat(loser_id)
}

/// An outcome query is read back as it was written, as long as the winner's
/// id holds no `&`.
pub proof fn lemma_outcome_round_trip(winner_id: Seq<char>, loser_id: Seq<char>)
    requires
        !winner_id.contains('&'),
    ensures
        outcome_of(outcome_query_of(winner_id, loser_id)) == Some((winner_id, loser_id)),
{
    reveal_strlit("&");
    let query = outcome_query_of(winner_id, loser_id);
    lemma_first_at(query, '&', 0);
    assert(query[winner_id.len() as int] == '&');
}

/// An action query that names an import is read back as that import: for a
/// playlist or an album whose id holds no `&`.
pub proof fn lemma_import_round_trip(id: Seq<char>)
    requires
        !id.contains('&'),
    ensures
        import_of("action=import&playlist="@ + id) == Some(ImportView::Playlist(id)),
        import_of("action=import&album="@ + id) == Some(ImportView::Album(id)),
{
    reveal_strlit("action=import&playlist=");
    reveal_strlit("action=import&album=");
    reveal_strlit("action=import");
    reveal_strlit("playlist=");
    reveal_strlit("album=");
    reveal_strlit("playlist");
    reveal_strlit("album");
    let action = "action=import"@;
    assert("action=import&playlist="@ + id =~= action + seq!['&'] + ("playlist="@ + id));
    assert("action=import&album="@ + id =~= action + seq!['&'] + ("album="@ + id));
    assert("playlist="@ + id =~= "playlist"@ + seq!['='] + id);
    assert("album="@ + id =~= "album"@ + seq!['='] + id);
    lemma_field("action=import&playlist="@ + id, action, "playlist="@ + id);
    lemma_field("action=import&album="@ + id, action, "album="@ + id);
    lemma_target("playlist="@ + id, "playlist"@, id);
    lemma_target("album="@ + id, "album"@, id);
}

/// A query of two fields splits into them at its `&`.
proof fn lemma_field(query: Seq<char>, action: Seq<char>, target: Seq<char>)
    requires
        query == action + seq!['&'] + target,
        !action.contains('&'),
    ensures
        split_at_first(query, '&') == Some((action, target)),
{
    lemma_first_at(query, '&', 0);
    assert(query[action.len() as int] == '&');
}

/// A field splits into kind and id at its first `=`, and holds no `&` if its
/// parts hold none.
proof fn lemma_target(target: Seq<char>, kind: Seq<char>, id: Seq<char>)
    requires
        target == kind + seq!['='] + id,
        !kind.contains('='),
        !kind.contains('&'),
        !id.contains('&'),
    ensures
        split_at_first(target, '=') == Some((kind, id)),
        split_at_first(target, '&').is_none(),
{
    lemma_first_at(target, '=', 0);
    assert(target[kind.len() as int] == '=');
    lemma_first_at(target, '&', 0);
}

/// An outcome query that reads as a pair puts the two ids back together with
/// a `&` between them, and the winner's id holds no `&`.
pub proof fn lemma_outcome_of(query: Seq<char>)
    ensures
        match outcome_of(query) {
            Some((winner, loser)) => query == winner + seq!['&'] + loser && !winner.contains('&'),
            None => !query.contains('&'),
        },
{
    lemma_first_at(query, '&', 0);
    match outcome_of(query) {
        Some((winner, loser)) => {
        },
        None => {},
    }
}

} // verus!
