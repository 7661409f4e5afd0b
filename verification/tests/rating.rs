use songsort::elo::points_for_gap;
use songsort::error::EngineError;
use songsort::model::Score;
use songsort::rating::{apply_outcome, can_record, find, fits, record_outcome};

fn record(id: &str, user: &str, rating: i32) -> Score {
    let mut record = Score::new(
        id.to_string(),
        id.to_string(),
        format!("track {}", id),
        String::from("album"),
        vec![String::from("artist")],
        user.to_string(),
    );
    record.score = rating;
    record
}

fn float_points(gap: i32) -> (i32, i32) {
    let expected_win = 1. / (1. + 10f64.powf(gap as f64 / 400.));
    let expected_lose = 1. / (1. + 10f64.powf(-gap as f64 / 400.));
    ((32. * (1. - expected_win)) as i32, (32. * expected_lose) as i32)
}

#[test]
fn equal_ratings_exchange_sixteen_points() {
    let mut records = vec![record("1", "u", 1500), record("2", "u", 1500)];
    let (winner, loser) = record_outcome(&mut records, "u", "1", "2").unwrap();
    assert_eq!((winner.score, winner.wins, winner.losses), (1516, 1, 0));
    assert_eq!((loser.score, loser.wins, loser.losses), (1484, 0, 1));
    assert_eq!(records[0], winner);
    assert_eq!(records[1], loser);
    assert_eq!(winner.id, "1");
    assert_eq!(loser.id, "2");
}

#[test]
fn a_missing_loser_is_not_found_and_changes_nothing() {
    let mut records = vec![record("1", "u", 1500), record("2", "u", 1400)];
    let before = vec![record("1", "u", 1500), record("2", "u", 1400)];
    assert_eq!(record_outcome(&mut records, "u", "1", "9"), Err(EngineError::NotFound));
    assert_eq!(records, before);
    assert_eq!(record_outcome(&mut records, "u", "9", "1"), Err(EngineError::NotFound));
    assert_eq!(records, before);
}

#[test]
fn outcome_against_oneself_is_not_found() {
    let mut records = vec![record("1", "u", 1500), record("2", "u", 1400)];
    assert_eq!(record_outcome(&mut records, "u", "1", "1"), Err(EngineError::NotFound));
    assert_eq!(records[0].wins, 0);
    assert_eq!(records[0].losses, 0);
}

#[test]
fn records_of_another_owner_do_not_resolve() {
    let mut records = vec![record("1", "u", 1500), record("2", "v", 1500)];
    assert_eq!(record_outcome(&mut records, "u", "1", "2"), Err(EngineError::NotFound));
    assert_eq!(find(&records, "v", "2"), Some(1));
    assert_eq!(find(&records, "u", "2"), None);
    assert_eq!(find(&records, "u", "1"), Some(0));
}

#[test]
fn find_takes_the_first_of_equal_ids() {
    let records = vec![record("a", "u", 1), record("b", "u", 2), record("b", "u", 3)];
    assert_eq!(find(&records, "u", "b"), Some(1));
    assert_eq!(find(&Vec::new(), "u", "b"), None);
}

#[test]
fn points_are_those_of_the_formula_in_floating_point() {
    for gap in -6000..=6000 {
        let points = points_for_gap(gap as i64);
        assert_eq!((points, points), float_points(gap), "gap {}", gap);
    }
}

#[test]
fn points_change_at_the_thresholds() {
    let table = [
        (-597, 0), (-596, 1), (-471, 1), (-470, 2), (-22, 14), (-21, 15), (-1, 15), (0, 16),
        (21, 16), (22, 17), (43, 17), (44, 18), (65, 18), (66, 19), (88, 19), (89, 20),
        (112, 20), (113, 21), (136, 21), (137, 22), (162, 22), (163, 23), (190, 23), (191, 24),
        (221, 24), (222, 25), (254, 25), (255, 26), (292, 26), (293, 27), (338, 27), (339, 28),
        (394, 28), (395, 29), (470, 29), (471, 30), (596, 30), (597, 31),
    ];
    for (gap, points) in table {
        assert_eq!(points_for_gap(gap), points, "gap {}", gap);
    }
}

#[test]
fn points_at_the_ends_of_the_range() {
    assert_eq!(points_for_gap(i64::MIN), 0);
    assert_eq!(points_for_gap(-4294967295), 0);
    assert_eq!(points_for_gap(4294967295), 31);
    assert_eq!(points_for_gap(i64::MAX), 31);
}

#[test]
fn truncation_is_toward_zero_not_rounding() {
    // 32 * (1 - 1 / (1 + 10^(100/400))) = 20.48..., and at gap 200 it is 24.31...
    assert_eq!(points_for_gap(100), 20);
    assert_eq!(points_for_gap(200), 24);
    // 32 * (1 - 1 / (1 + 10^(-100/400))) = 11.51..., which rounds to 12
    assert_eq!(points_for_gap(-100), 11);
}

#[test]
fn the_exchange_is_zero_sum_and_widens_the_lead() {
    for (w, l) in [(1500, 1500), (1200, 1800), (1700, 1200), (-40, 12), (2000, 1404)] {
        let winner = record("w", "u", w);
        let loser = record("l", "u", l);
        let (up, down) = apply_outcome(&winner, &loser);
        assert_eq!(up.score + down.score, w + l);
        assert!(up.score - down.score > w - l);
        assert_eq!((up.wins, up.losses), (1, 0));
        assert_eq!((down.wins, down.losses), (0, 1));
        assert_eq!(up.score - w, points_for_gap((l - w) as i64));
    }
}

#[test]
fn a_lead_of_597_or_more_moves_no_points() {
    let winner = record("w", "u", 2097);
    let loser = record("l", "u", 1500);
    let (up, down) = apply_outcome(&winner, &loser);
    assert_eq!((up.score, down.score), (2097, 1500));
    assert_eq!((up.wins, down.losses), (1, 1));
    let winner = record("w", "u", 2096);
    let (up, down) = apply_outcome(&winner, &loser);
    assert_eq!((up.score, down.score), (2097, 1499));
}

#[test]
fn apply_outcome_keeps_everything_but_rating_and_counters() {
    let mut winner = record("w", "u", 1500);
    winner.wins = 7;
    winner.losses = 3;
    let mut loser = record("l", "u", 1600);
    loser.wins = 2;
    loser.losses = 5;
    let (up, down) = apply_outcome(&winner, &loser);
    assert_eq!(up, Score { score: 1520, wins: 8, ..winner.clone() });
    assert_eq!(down, Score { score: 1580, losses: 6, ..loser.clone() });
}

#[test]
fn fits_tells_when_the_fields_would_overflow() {
    assert!(fits(&record("w", "u", 1500), &record("l", "u", 1500)));
    assert!(!fits(&record("w", "u", i32::MAX), &record("l", "u", i32::MAX)));
    assert!(fits(&record("w", "u", i32::MAX - 16), &record("l", "u", i32::MAX - 16)));
    assert!(!fits(&record("w", "u", i32::MAX - 15), &record("l", "u", i32::MAX - 15)));
    assert!(!fits(&record("w", "u", i32::MIN), &record("l", "u", i32::MIN)));
    assert!(fits(&record("w", "u", i32::MAX), &record("l", "u", i32::MIN)));
    assert!(fits(&record("w", "u", i32::MIN), &record("l", "u", i32::MAX)));
    let mut veteran = record("w", "u", 1500);
    veteran.wins = i32::MAX;
    assert!(!fits(&veteran, &record("l", "u", 1500)));
    assert!(fits(&record("l", "u", 1500), &veteran));
    let mut records = vec![veteran, record("l", "u", 1500)];
    assert!(!can_record(&records, "u", "w", "l"));
    assert!(can_record(&records, "u", "l", "w"));
    assert!(can_record(&records, "u", "w", "w"));
    assert!(can_record(&records, "u", "w", "nobody"));
    records[0].wins = 0;
    assert!(can_record(&records, "u", "w", "l"));
}

#[test]
fn a_new_record_starts_at_1500() {
    let fresh = Score::new(
        String::from("id"),
        String::from("track id"),
        String::from("name"),
        String::from("album"),
        vec![String::from("a"), String::from("b")],
        String::from("owner"),
    );
    assert_eq!((fresh.score, fresh.wins, fresh.losses), (1500, 0, 0));
    assert_eq!(fresh.partition_key(), "owner");
    assert_eq!(fresh.clone(), fresh);
    assert_eq!(fresh.artists, vec!["a", "b"]);
    assert_eq!(songsort::model::INITIAL_RATING, 1500);
}
