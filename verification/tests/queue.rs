use songsort::model::Score;
use songsort::queue::{copy_records, MatchQueue};

fn item(id: &str) -> Score {
    Score::new(
        id.to_string(),
        id.to_string(),
        id.to_string(),
        String::new(),
        Vec::new(),
        String::from("u"),
    )
}

fn items(n: usize) -> Vec<Score> {
    (0..n).map(|i| item(&i.to_string())).collect()
}

fn ids(records: &[Score]) -> Vec<String> {
    records.iter().map(|r| r.id.clone()).collect()
}

fn sorted(mut ids: Vec<String>) -> Vec<String> {
    ids.sort();
    ids
}

#[test]
fn an_empty_queue_is_refilled_and_drawn_from_the_end() {
    let mut queue = MatchQueue::new();
    assert!(queue.is_empty());
    let (a, b) = queue.next_from(vec![item("x"), item("y"), item("z"), item("w")]);
    assert_eq!((a.id.as_str(), b.id.as_str()), ("w", "z"));
    assert_eq!(ids(queue.pending()), vec!["x", "y"]);
    assert_eq!(queue.len(), 2);
}

#[test]
fn two_or_more_entries_are_drawn_without_a_refill() {
    let mut queue = MatchQueue::new();
    queue.next_from(vec![item("a"), item("b"), item("c"), item("d"), item("e")]);
    let (first, second) = queue.next_from(vec![item("p"), item("q")]);
    assert_eq!((first.id.as_str(), second.id.as_str()), ("c", "b"));
    assert_eq!(ids(queue.pending()), vec!["a"]);
    let before = ids(queue.pending());
    let mut same = MatchQueue::new();
    same.next_from(vec![item("a"), item("b"), item("c"), item("d")]);
    let all = items(6);
    let (first, second) = same.next(&all);
    assert_eq!((first.id.as_str(), second.id.as_str()), ("b", "a"));
    assert!(same.is_empty());
    assert_eq!(before, vec!["a"]);
}

#[test]
fn three_items_carry_the_leftover_over() {
    let all = vec![item("A"), item("B"), item("C")];
    let mut queue = MatchQueue::new();
    let (a, b) = queue.next_from(vec![item("C"), item("A"), item("B")]);
    assert_eq!((a.id.as_str(), b.id.as_str()), ("B", "A"));
    assert_eq!(ids(queue.pending()), vec!["C"]);
    let (a, b) = queue.next_from(vec![item("B"), item("A"), item("C")]);
    assert_eq!((a.id.as_str(), b.id.as_str()), ("C", "A"));
    // the leftover is still there, at the front, behind it the rest of the new cycle
    assert_eq!(ids(queue.pending()), vec!["C", "B"]);
    let (a, b) = queue.next_from(copy_records(&all));
    assert_eq!((a.id.as_str(), b.id.as_str()), ("B", "C"));
    assert!(queue.is_empty());
}

#[test]
fn three_items_with_random_refills() {
    let all = vec![item("A"), item("B"), item("C")];
    for _ in 0..200 {
        let mut queue = MatchQueue::new();
        let (a, b) = queue.next(&all);
        assert_ne!(a.id, b.id);
        assert_eq!(queue.len(), 1);
        let leftover = queue.pending()[0].clone();
        assert_eq!(sorted(vec![a.id, b.id, leftover.id.clone()]), vec!["A", "B", "C"]);
        let (c, d) = queue.next(&all);
        assert_ne!(c.id, d.id);
        assert_eq!(queue.len(), 2);
        assert_eq!(queue.pending()[0], leftover);
        let third = queue.pending()[1].clone();
        assert_eq!(sorted(vec![c.id, d.id, third.id.clone()]), vec!["A", "B", "C"]);
        let (e, f) = queue.next(&all);
        assert_eq!(e, third);
        assert_eq!(f, leftover);
        assert!(queue.is_empty());
    }
}

#[test]
fn a_full_cycle_of_an_even_number_draws_every_item_once() {
    for n in [2usize, 4, 10, 64] {
        let all = items(n);
        let mut queue = MatchQueue::new();
        for _cycle in 0..3 {
            let mut seen = Vec::new();
            for _ in 0..n / 2 {
                let (a, b) = queue.next(&all);
                assert_ne!(a.id, b.id);
                seen.push(a.id);
                seen.push(b.id);
            }
            assert!(queue.is_empty());
            assert_eq!(sorted(seen), sorted(ids(&all)));
        }
    }
}

#[test]
fn an_odd_cycle_leaves_one_item_that_is_drawn_last_in_the_next() {
    let n = 7;
    let all = items(n);
    let mut queue = MatchQueue::new();
    let mut seen = Vec::new();
    for _ in 0..n / 2 {
        let (a, b) = queue.next(&all);
        seen.push(a.id);
        seen.push(b.id);
    }
    assert_eq!(queue.len(), 1);
    let leftover = queue.pending()[0].clone();
    seen.push(leftover.id.clone());
    assert_eq!(sorted(seen), sorted(ids(&all)));
    let mut seen = Vec::new();
    for _ in 0..n / 2 {
        let (a, b) = queue.next(&all);
        assert_ne!(a.id, b.id);
        assert_eq!(queue.pending()[0], leftover);
        seen.push(a.id);
        seen.push(b.id);
    }
    assert_eq!(queue.len(), 2);
    let first_of_cycle = queue.pending()[1].clone();
    seen.push(first_of_cycle.id.clone());
    assert_eq!(sorted(seen), sorted(ids(&all)));
    let (a, b) = queue.next(&all);
    assert_eq!(a, first_of_cycle);
    assert_eq!(b, leftover);
    assert!(queue.is_empty());
}

#[test]
fn a_refill_is_shuffled() {
    let all = items(60);
    let mut orders = Vec::new();
    for _ in 0..4 {
        let mut queue = MatchQueue::new();
        let (a, b) = queue.next(&all);
        let mut order = ids(queue.pending());
        order.push(b.id);
        order.push(a.id);
        assert_eq!(sorted(order.clone()), sorted(ids(&all)));
        orders.push(order);
    }
    assert!(orders.iter().any(|order| *order != ids(&all)));
    assert!(orders.iter().any(|order| *order != orders[0]));
}

#[test]
fn clearing_the_queue_starts_a_new_cycle() {
    let mut queue = MatchQueue::new();
    queue.next_from(items(6));
    assert_eq!(queue.len(), 4);
    queue.clear();
    assert!(queue.is_empty());
    assert_eq!(queue.len(), 0);
    let (a, b) = queue.next_from(vec![item("m"), item("n")]);
    assert_eq!((a.id.as_str(), b.id.as_str()), ("n", "m"));
}

#[test]
fn copies_are_equal_to_their_records() {
    let all = items(5);
    assert_eq!(copy_records(&all), all);
    assert_eq!(copy_records(&Vec::new()), Vec::new());
}
