use songsort::model::{Score, Scores};
use songsort::order::order_desc;
use songsort::ranking::rank;
use songsort::standings::{group_average, join, label, GroupKey, Standing};

fn entry(id: &str, album: &str, artists: &[&str], rating: i32) -> Score {
    let mut record = Score::new(
        id.to_string(),
        id.to_string(),
        id.to_string(),
        album.to_string(),
        artists.iter().map(|a| a.to_string()).collect(),
        String::from("u"),
    );
    record.score = rating;
    record
}

fn names(records: &[Score]) -> Vec<&str> {
    records.iter().map(|r| r.id.as_str()).collect()
}

fn standing(label: &str, mean: i32) -> Standing {
    Standing { label: label.to_string(), mean }
}

#[test]
fn the_order_is_descending_and_stable() {
    assert_eq!(order_desc(&vec![10, 30, 20, 30, 10]), vec![1, 3, 2, 0, 4]);
    assert_eq!(order_desc(&vec![]), Vec::<usize>::new());
    assert_eq!(order_desc(&vec![5]), vec![0]);
    assert_eq!(order_desc(&vec![1, 1, 1]), vec![0, 1, 2]);
    assert_eq!(order_desc(&vec![1, 2, 3]), vec![2, 1, 0]);
    assert_eq!(order_desc(&vec![i32::MIN, i32::MAX, 0, i32::MIN]), vec![1, 2, 0, 3]);
}

#[test]
fn the_ranking_is_by_descending_rating_with_ties_in_input_order() {
    let snapshot = vec![
        entry("a", "x", &[], 1500),
        entry("b", "x", &[], 1516),
        entry("c", "x", &[], 1484),
        entry("d", "x", &[], 1516),
        entry("e", "x", &[], 1500),
    ];
    let ranking = rank(&snapshot);
    assert_eq!(names(&ranking), vec!["b", "d", "a", "e", "c"]);
    assert_eq!(names(&snapshot), vec!["a", "b", "c", "d", "e"]);
    for (place, record) in ranking.iter().enumerate() {
        assert!(snapshot.contains(record));
        if place > 0 {
            assert!(ranking[place - 1].score >= record.score);
        }
    }
}

#[test]
fn ranking_twice_gives_the_same_and_ranking_a_ranking_changes_nothing() {
    let snapshot = vec![
        entry("a", "x", &[], -5),
        entry("b", "x", &[], 7),
        entry("c", "x", &[], 7),
        entry("d", "x", &[], i32::MIN),
        entry("e", "x", &[], i32::MAX),
    ];
    let once = rank(&snapshot);
    assert_eq!(rank(&snapshot), once);
    assert_eq!(rank(&once), once);
    assert_eq!(names(&once), vec!["e", "b", "c", "a", "d"]);
    let scores = Scores { scores: snapshot };
    assert_eq!(scores.ranked().scores, once);
    assert_eq!(scores.ranked(), scores.ranked());
}

#[test]
fn ranking_nothing_gives_nothing() {
    assert_eq!(rank(&Vec::new()), Vec::new());
    let one = vec![entry("a", "x", &[], 3)];
    assert_eq!(rank(&one), one);
}

#[test]
fn artists_are_joined_by_comma_and_space() {
    assert_eq!(join(&vec![]), "");
    assert_eq!(join(&vec![String::from("A")]), "A");
    assert_eq!(join(&vec![String::from("A"), String::from("B"), String::from("C")]), "A, B, C");
    assert_eq!(join(&vec![String::new(), String::new()]), ", ");
    let record = entry("a", "The Album", &["X", "Y"], 1);
    assert_eq!(label(&record, GroupKey::Artists), "X, Y");
    assert_eq!(label(&record, GroupKey::Album), "The Album");
}

#[test]
fn standings_give_the_mean_of_each_group_by_descending_mean() {
    let snapshot = vec![
        entry("a", "red", &["X"], 1500),
        entry("b", "blue", &["Y"], 1600),
        entry("c", "red", &["X", "Y"], 1531),
        entry("d", "green", &["Y"], 1400),
        entry("e", "blue", &["X"], 1601),
    ];
    assert_eq!(
        group_average(&snapshot, GroupKey::Album),
        vec![standing("blue", 1600), standing("red", 1515), standing("green", 1400)]
    );
    assert_eq!(
        group_average(&snapshot, GroupKey::Artists),
        vec![standing("X", 1550), standing("X, Y", 1531), standing("Y", 1500)]
    );
}

#[test]
fn groups_of_equal_mean_stay_in_first_seen_order() {
    let snapshot = vec![
        entry("a", "late", &[], 10),
        entry("b", "early", &[], 30),
        entry("c", "mid", &[], 20),
        entry("d", "late", &[], 30),
        entry("e", "other", &[], 20),
        entry("f", "early", &[], 10),
    ];
    assert_eq!(
        group_average(&snapshot, GroupKey::Album),
        vec![standing("late", 20), standing("early", 20), standing("mid", 20), standing("other", 20)]
    );
}

#[test]
fn the_mean_is_truncated_toward_zero() {
    let snapshot = vec![
        entry("a", "down", &[], -3),
        entry("b", "down", &[], -4),
        entry("c", "up", &[], 3),
        entry("d", "up", &[], 4),
        entry("e", "mixed", &[], -1),
        entry("f", "mixed", &[], 0),
    ];
    assert_eq!(
        group_average(&snapshot, GroupKey::Album),
        vec![standing("up", 3), standing("mixed", 0), standing("down", -3)]
    );
}

#[test]
fn the_mean_of_extreme_ratings_does_not_overflow() {
    let mut snapshot = Vec::new();
    for i in 0..10 {
        snapshot.push(entry(&i.to_string(), "high", &[], i32::MAX));
        snapshot.push(entry(&i.to_string(), "low", &[], i32::MIN));
    }
    snapshot.push(entry("x", "high", &[], i32::MAX - 11));
    assert_eq!(
        group_average(&snapshot, GroupKey::Album),
        vec![standing("high", i32::MAX - 1), standing("low", i32::MIN)]
    );
}

#[test]
fn standings_of_nothing_are_empty_and_standings_are_repeatable() {
    assert_eq!(group_average(&Vec::new(), GroupKey::Album), Vec::new());
    let scores = Scores {
        scores: vec![entry("a", "x", &["P"], 1), entry("b", "y", &["P"], 2), entry("c", "x", &["Q"], 9)],
    };
    let first = scores.standings(GroupKey::Artists);
    assert_eq!(first, vec![standing("Q", 9), standing("P", 1)]);
    assert_eq!(scores.standings(GroupKey::Artists), first);
    assert_eq!(scores.standings(GroupKey::Album), vec![standing("x", 5), standing("y", 2)]);
}
