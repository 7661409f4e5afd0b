//! Links to the catalog that a user pastes to import something.

use regex::Regex;
use vstd::prelude::*;
use vstd::string::StringExecFns;

verus! {

/// The pattern of a link to a playlist; its group is the playlist's id.
pub const PLAYLIST_LINK: &'static str = "https://open.spotify.com/playlist/([[:alnum:]]*)";

/// The pattern of a link to an album; its group is the album's id.
pub const ALBUM_LINK: &'static str = "https://open.spotify.com/album/([[:alnum:]]*)";

/// What the first group of the leftmost match of the regular expression
/// `pattern` in `text` holds; nothing where the pattern is no regular
/// expression, nowhere matches, or has no group that took part.
pub uninterp spec fn first_capture(pattern: Seq<char>, text: Seq<char>) -> Option<Seq<char>>;

/// The characters of an optional text.
pub open spec fn text_of(text: Option<String>) -> Option<Seq<char>> {
    match text {
        Some(text) => Some(text@),
        None => None,
    }
}

/// Compiles `pattern` with `regex::Regex::new`, takes the first item of
/// `Regex::captures_iter` on `text`, which is the leftmost match, and from it
/// `Captures::get(1)`, the first group. The result is a function of the two
/// texts alone.
#[verifier::external_body]
fn capture(pattern: &str, text: &str) -> (found: Option<String>)
    ensures
        text_of(found) == first_capture(pattern@, text@),
{
    match Regex::new(pattern) {
        Ok(re) => re.captures_iter(text).next().and_then(|c| c.get(1).map(|m| m.as_str().to_owned())),
        Err(_) => None,
    }
}

/// The request that imports what the captures name: the playlist if a
/// playlist link was found, else the album if an album link was found, else
/// the input as it stands.
pub open spec fn import_target_of(
    input: Seq<char>,
    playlist: Option<Seq<char>>,
    album: Option<Seq<char>>,
) -> Seq<char> {
    match playlist {
        Some(id) => "/api/?action=import&playlist="@ + id,
        None => match album {
            Some(id) => "/api/?action=import&album="@ + id,
            None => input,
        },
    }
}

/// The request that imports what was found in `input`, given the ids that the
/// two link patterns captured.
pub fn import_target_from(input: &str, playlist: Option<String>, album: Option<String>) -> (target:
    String)
    ensures
        target@ == import_target_of(input@, text_of(playlist), text_of(album)),
{
    match playlist {
        Some(id) => "/api/?action=import&playlist=".to_owned().concat(id.as_str()),
        None => match album {
            Some(id) => "/api/?action=import&album=".to_owned().concat(id.as_str()),
            None => input.to_owned(),
        },
    }
}

/// The request that imports what the user pasted: a link to a playlist, a
/// link to an album, or the address of a request itself.
pub fn import_target(input: &str) -> (target: String)
    ensures
        target@ == import_target_of(
            input@,
            first_capture(PLAYLIST_LINK@, input@),
            first_capture(ALBUM_LINK@, input@),
        ),
{
    let playlist = capture(PLAYLIST_LINK, input);
    let album = capture(ALBUM_LINK, input);
    import_target_from(input, playlist, album)
}

} // verus!
