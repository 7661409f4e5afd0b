use songsort::catalog::{import_album, import_page, import_playlist, Album, Artist, Item, PlaylistItems, Track, User};
use songsort::link::{import_target, import_target_from};
use songsort::model::{Playlists, Score};
use songsort::query::{auth_query, owner_query, records_query, tracks_query};
use songsort::request::{access, credentials, outcome_request, parse_action, parse_outcome, Access, Import};
use songsort::route::{api_path, resolve, segments, Endpoint, Method};
use songsort::store::{present, resets_on_import, Created, DEMO_USER};
use songsort::error::EngineError;
use songsort::text::{same_text, split_once};

fn track(id: &str, name: &str, album: &str, artists: &[&str]) -> Item {
    Item {
        track: Track {
            id: id.to_string(),
            name: name.to_string(),
            album: Album { name: album.to_string() },
            artists: artists.iter().map(|a| Artist { name: a.to_string() }).collect(),
            preview_url: None,
        },
    }
}

fn page() -> PlaylistItems {
    PlaylistItems {
        items: vec![track("t1", "One", "First", &["A", "B"]), track("t2", "Two", "Second", &[])],
    }
}

#[test]
fn a_playlist_is_imported_under_its_own_ids() {
    let playlist = songsort::catalog::Playlist { name: String::from("Mix") };
    let (collection, scores) = import_playlist("list7", "u", &playlist, &page());
    assert_eq!(collection.id, "list7");
    assert_eq!(collection.playlist_id, "list7");
    assert_eq!(collection.name, "Mix");
    assert_eq!(collection.user_id, "u");
    assert_eq!(collection.tracks, vec!["t1", "t2"]);
    assert_eq!(
        scores,
        vec![
            Score {
                id: String::from("t1"),
                track_id: String::from("t1"),
                track: String::from("One"),
                album: String::from("First"),
                artists: vec![String::from("A"), String::from("B")],
                user_id: String::from("u"),
                score: 1500,
                wins: 0,
                losses: 0,
            },
            Score {
                id: String::from("t2"),
                track_id: String::from("t2"),
                track: String::from("Two"),
                album: String::from("Second"),
                artists: vec![],
                user_id: String::from("u"),
                score: 1500,
                wins: 0,
                losses: 0,
            },
        ]
    );
}

#[test]
fn further_pages_are_added_behind_the_first() {
    let playlist = songsort::catalog::Playlist { name: String::from("Mix") };
    let (mut collection, mut scores) = import_playlist("list7", "u", &playlist, &page());
    let more = PlaylistItems { items: vec![track("t3", "Three", "Third", &["C"])] };
    import_page(&mut collection, &mut scores, &more);
    import_page(&mut collection, &mut scores, &PlaylistItems { items: vec![] });
    assert_eq!(collection.tracks, vec!["t1", "t2", "t3"]);
    assert_eq!(collection.name, "Mix");
    assert_eq!(scores.len(), 3);
    assert_eq!(scores[2].id, "t3");
    assert_eq!(scores[2].album, "Third");
    assert_eq!(scores[2].user_id, "u");
    assert_eq!((scores[2].score, scores[2].wins, scores[2].losses), (1500, 0, 0));
    assert_eq!(page().items[0].track.artist_names(), vec!["A", "B"]);
}

#[test]
fn an_album_is_imported_under_new_ids() {
    let album = Album { name: String::from("Long Play") };
    let (collection, scores) = import_album("a3", "u", &album, &page());
    assert_eq!(collection.playlist_id, "a3");
    assert_eq!(collection.name, "Long Play");
    assert_eq!(collection.user_id, "u");
    assert_eq!(collection.tracks, vec!["t1", "t2"]);
    assert_eq!(collection.id.chars().count(), 36);
    assert_eq!(scores.len(), 2);
    for (record, item) in scores.iter().zip(page().items.iter()) {
        assert_eq!(record.id.chars().count(), 36);
        assert_eq!(record.track_id, item.track.id);
        assert_eq!(record.track, item.track.name);
        assert_eq!(record.album, "Long Play");
        assert_eq!(record.artists, item.track.artist_names());
        assert_eq!(record.user_id, "u");
        assert_eq!((record.score, record.wins, record.losses), (1500, 0, 0));
    }
    assert_ne!(scores[0].id, scores[1].id);
    assert_ne!(scores[0].id, collection.id);
    let (again, _) = import_album("a3", "u", &album, &page());
    assert_ne!(again.id, collection.id);
}

#[test]
fn catalog_values_compare_by_their_fields() {
    assert_eq!(User { id: String::from("u") }, User { id: String::from("u") });
    assert_eq!(Playlists { items: vec![] }, Playlists { items: vec![] });
    assert_eq!(page(), page());
}

#[test]
fn an_outcome_query_splits_at_the_first_ampersand() {
    assert_eq!(parse_outcome(Some("a&b")), Some((String::from("a"), String::from("b"))));
    assert_eq!(parse_outcome(Some("a&b&c")), Some((String::from("a"), String::from("b&c"))));
    assert_eq!(parse_outcome(Some("&")), Some((String::new(), String::new())));
    assert_eq!(parse_outcome(Some("ab")), None);
    assert_eq!(parse_outcome(Some("")), None);
    assert_eq!(parse_outcome(None), None);
    assert_eq!(parse_outcome(Some("ä&ö")), Some((String::from("ä"), String::from("ö"))));
}

#[test]
fn an_action_query_names_an_import() {
    assert_eq!(
        parse_action(Some("action=import&playlist=37i9dQ")),
        Some(Import::Playlist(String::from("37i9dQ")))
    );
    assert_eq!(parse_action(Some("action=import&album=x=y")), Some(Import::Album(String::from("x=y"))));
    assert_eq!(parse_action(Some("action=import&playlist=")), Some(Import::Playlist(String::new())));
    for query in [
        "",
        "action=import",
        "action=import&playlist",
        "action=import&track=1",
        "action=export&playlist=1",
        "action=import&playlist=1&x=2",
        "playlist=1&action=import",
        "action=import=1&playlist=1",
        "&action=import&playlist=1",
    ] {
        assert_eq!(parse_action(Some(query)), None, "{}", query);
    }
    assert_eq!(parse_action(None), None);
}

#[test]
fn credentials_follow_the_first_space() {
    assert_eq!(credentials("Basic demo"), Some(String::from("demo")));
    assert_eq!(credentials("Basic a b"), Some(String::from("a b")));
    assert_eq!(credentials("Basic "), Some(String::new()));
    assert_eq!(credentials("Basic"), None);
    assert_eq!(credentials(""), None);
}

#[test]
fn the_authorization_header_tells_who_asks() {
    assert_eq!(access(None), Access::Missing);
    assert_eq!(access(Some("Basic")), Access::Malformed);
    assert_eq!(access(Some("")), Access::Malformed);
    assert_eq!(access(Some("Basic demo")), Access::Demo);
    assert_eq!(access(Some("anything demo")), Access::Demo);
    assert_eq!(access(Some("Basic AQB3x")), Access::Code(String::from("AQB3x")));
    assert_eq!(access(Some("Basic demo ")), Access::Code(String::from("demo ")));
    assert_eq!(access(Some("Basic ")), Access::Code(String::new()));
}

#[test]
fn text_is_split_and_compared_by_characters() {
    assert_eq!(split_once("key=value=more", '='), Some(("key", "value=more")));
    assert_eq!(split_once("=", '='), Some(("", "")));
    assert_eq!(split_once("none", '='), None);
    assert_eq!(split_once("é=ü", '='), Some(("é", "ü")));
    assert!(same_text("abc", "abc"));
    assert!(!same_text("abc", "abd"));
    assert!(!same_text("abc", "ab"));
}

#[test]
fn a_pasted_link_becomes_an_import_request() {
    assert_eq!(
        import_target("https://open.spotify.com/playlist/37i9dQZF1DX49jUV2NfGku?si=379bbc586c78450a"),
        "/api/?action=import&playlist=37i9dQZF1DX49jUV2NfGku"
    );
    assert_eq!(
        import_target("see https://open.spotify.com/album/4aawyAB9vmqN3uQ7FjRGTy now"),
        "/api/?action=import&album=4aawyAB9vmqN3uQ7FjRGTy"
    );
    assert_eq!(import_target("https://open.spotify.com/playlist/"), "/api/?action=import&playlist=");
    assert_eq!(import_target("/api/playlists/5"), "/api/playlists/5");
    assert_eq!(import_target(""), "");
    assert_eq!(
        import_target("https://open.spotify.com/album/a1 https://open.spotify.com/playlist/list1"),
        "/api/?action=import&playlist=list1"
    );
    assert_eq!(
        import_target("https://openxspotifyxcom/playlist/abc-def"),
        "/api/?action=import&playlist=abc"
    );
}

#[test]
fn the_import_request_follows_from_the_captures() {
    let id = || Some(String::from("id"));
    assert_eq!(import_target_from("in", id(), id()), "/api/?action=import&playlist=id");
    assert_eq!(import_target_from("in", id(), None), "/api/?action=import&playlist=id");
    assert_eq!(import_target_from("in", None, id()), "/api/?action=import&album=id");
    assert_eq!(import_target_from("in", None, None), "in");
    assert_eq!(
        parse_action(import_target_from("in", id(), None).strip_prefix("/api/?")),
        Some(Import::Playlist(String::from("id")))
    );
    assert_eq!(
        parse_action(import_target_from("in", None, id()).strip_prefix("/api/?")),
        Some(Import::Album(String::from("id")))
    );
}

#[test]
fn queries_are_spelled_as_the_store_expects() {
    assert_eq!(owner_query("demo"), "SELECT * FROM c WHERE c.user_id = \"demo\"");
    assert_eq!(auth_query("code"), "SELECT * FROM c WHERE c.auth = \"code\"");
    assert_eq!(
        tracks_query("demo", &vec![String::from("a"), String::from("b")]),
        "SELECT * FROM c WHERE c.user_id = \"demo\" AND c.track_id IN (\"a\",\"b\")"
    );
    assert_eq!(
        tracks_query("demo", &vec![String::from("a")]),
        "SELECT * FROM c WHERE c.user_id = \"demo\" AND c.track_id IN (\"a\")"
    );
    assert_eq!(
        tracks_query("demo", &vec![]),
        "SELECT * FROM c WHERE c.user_id = \"demo\" AND c.track_id IN ()"
    );
    assert_eq!(
        records_query("u", &vec![String::from("w"), String::from("l")]),
        "SELECT * FROM c WHERE c.user_id = \"u\" AND c.id IN (\"w\",\"l\")"
    );
}

#[test]
fn an_outcome_request_reads_back_as_it_was_written() {
    assert_eq!(outcome_request("w1", "l2"), "/api/elo?w1&l2");
    let request = outcome_request("winner", "los&er");
    assert_eq!(
        parse_outcome(request.strip_prefix("/api/elo?")),
        Some((String::from("winner"), String::from("los&er")))
    );
}

#[test]
fn paths_are_cut_at_their_slashes() {
    assert_eq!(api_path("/api/playlists/7"), Some("playlists/7"));
    assert_eq!(api_path("/api/"), Some(""));
    assert_eq!(api_path("/api"), None);
    assert_eq!(api_path("/index.html"), None);
    assert_eq!(api_path(""), None);
    assert_eq!(segments("playlists/7/scores"), vec!["playlists", "7", "scores"]);
    assert_eq!(segments(""), vec![""]);
    assert_eq!(segments("a/"), vec!["a", ""]);
    assert_eq!(segments("/"), vec!["", ""]);
    assert_eq!(segments("elo"), vec!["elo"]);
}

#[test]
fn requests_resolve_to_their_endpoints() {
    for demo in [false, true] {
        assert_eq!(resolve(Method::Get, "playlists", demo), Endpoint::Playlists);
        assert_eq!(resolve(Method::Post, "elo", demo), Endpoint::Outcome);
        assert_eq!(resolve(Method::Get, "scores", demo), Endpoint::Scores);
        assert_eq!(
            resolve(Method::Get, "playlists/list1/scores", demo),
            Endpoint::PlaylistScores(String::from("list1"))
        );
        for (method, path) in [
            (Method::Post, "playlists"),
            (Method::Get, "elo"),
            (Method::Delete, "scores"),
            (Method::Get, "login"),
            (Method::Get, ""),
            (Method::Get, "playlists/list1"),
            (Method::Post, "playlists/list1/scores"),
            (Method::Get, "playlists/list1/score"),
            (Method::Get, "lists/list1/scores"),
            (Method::Get, "playlists/list1/scores/"),
            (Method::Post, "spotify/playlists"),
            (Method::Other, "playlists"),
            (Method::Options, "playlists"),
        ] {
            assert_eq!(resolve(method, path, demo), Endpoint::MethodNotAllowed, "{}", path);
        }
    }
    assert_eq!(resolve(Method::Post, "login", false), Endpoint::Login);
    assert_eq!(resolve(Method::Post, "", false), Endpoint::Action);
    assert_eq!(resolve(Method::Post, "playlists/list1", false), Endpoint::ImportPlaylist(String::from("list1")));
    assert_eq!(resolve(Method::Delete, "playlists/list1", false), Endpoint::DeletePlaylist(String::from("list1")));
    assert_eq!(resolve(Method::Get, "spotify/playlists", false), Endpoint::CatalogPlaylists);
    for (method, path) in [
        (Method::Post, "login"),
        (Method::Post, ""),
        (Method::Post, "playlists/list1"),
        (Method::Delete, "playlists/list1"),
        (Method::Get, "spotify/playlists"),
    ] {
        assert_eq!(resolve(method, path, true), Endpoint::MethodNotAllowed, "{}", path);
    }
}

#[test]
fn a_record_that_is_there_already_counts_as_created() {
    assert_eq!(present(Created::Done), Ok(()));
    assert_eq!(present(Created::Conflict), Ok(()));
    assert_eq!(present(Created::Failed), Err(EngineError::StoreError));
    assert!(resets_on_import("demo"));
    assert!(!resets_on_import("Demo"));
    assert!(!resets_on_import(""));
    assert_eq!(DEMO_USER, "demo");
}
