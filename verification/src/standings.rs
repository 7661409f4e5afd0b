//! Group standings: the mean rating of the records that share a label, such
//! as an album or a line-up of artists.

use crate::model::{Score, ScoreView, Scores};
use crate::order::{
    index_ints, is_stable_order, key_ints, lemma_stable_order, order_desc, stable_order,
};
use crate::queue::is_rearrangement;
use crate::ranking::{lemma_picked_rearranges, picked};
use vstd::prelude::*;
use vstd::string::StringExecFns;

verus! {

/// The attribute by which records are grouped.
#[derive(Clone, Copy, Debug, PartialEq, Eq, Structural)]
pub enum GroupKey {
    /// The artists of the track, joined by a comma and a space.
    Artists,
    /// The album of the track.
    Album,
}

/// Mathematical view of a [`Standing`].
pub struct StandingView {
    pub label: Seq<char>,
    pub mean: int,
}

/// A group and the mean rating of its records.
#[derive(Debug, PartialEq, Eq)]
pub struct Standing {
    pub label: String,
    pub mean: i32,
}

impl View for Standing {
    type V = StandingView;

    open spec fn view(&self) -> StandingView {
        StandingView { label: self.label@, mean: self.mean as int }
    }
}

impl DeepView for Standing {
    type V = StandingView;

    open spec fn deep_view(&self) -> StandingView {
        self@
    }
}

/// The parts with `", "` between them.
pub open spec fn joined(parts: Seq<Seq<char>>) -> Seq<char>
    decreases parts.len(),
{
    if parts.len() == 0 {
        Seq::empty()
    } else if parts.len() == 1 {
        parts[0]
    } else {
        joined(parts.drop_last()) + ", "@ + parts.last()
    }
}

/// The label under which `key` files a record.
pub open spec fn label_of(item: ScoreView, key: GroupKey) -> Seq<char> {
    match key {
        GroupKey::Artists => joined(item.artists),
        GroupKey::Album => item.album,
    }
}

/// The labels of the items, each once, in the order in which they first occur.
pub open spec fn group_labels(items: Seq<ScoreView>, key: GroupKey) -> Seq<Seq<char>>
    decreases items.len(),
{
    if items.len() == 0 {
        Seq::empty()
    } else {
        let labels = group_labels(items.drop_last(), key);
        let label = label_of(items.last(), key);
        if labels.contains(label) {
            labels
        } else {
            labels.push(label)
        }
    }
}

/// The sum of the ratings of the items filed under `label`.
pub open spec fn group_sum(items: Seq<ScoreView>, key: GroupKey, label: Seq<char>) -> int
    decreases items.len(),
{
    if items.len() == 0 {
        0
    } else if label_of(items.last(), key) == label {
        group_sum(items.drop_last(), key, label) + items.last().score
    } else {
        group_sum(items.drop_last(), key, label)
    }
}

/// The number of items filed under `label`.
pub open spec fn group_size(items: Seq<ScoreView>, key: GroupKey, label: Seq<char>) -> int
    decreases items.len(),
{
    if items.len() == 0 {
        0
    } else if label_of(items.last(), key) == label {
        group_size(items.drop_last(), key, label) + 1
    } else {
        group_size(items.drop_last(), key, label)
    }
}

/// `sum / n` with the fraction cut off, toward zero.
pub open spec fn truncated(sum: int, n: int) -> int {
    if sum >= 0 {
        sum / n
    } else {
        -((-sum) / n)
    }
}

/// The mean rating of the items filed under `label`, truncated.
pub open spec fn group_mean(items: Seq<ScoreView>, key: GroupKey, label: Seq<char>) -> int {
    truncated(group_sum(items, key, label), group_size(items, key, label))
}

/// The groups in first-seen order, each with its mean.
pub open spec fn group_means(items: Seq<ScoreView>, key: GroupKey) -> Seq<StandingView> {
    group_labels(items, key).map_values(
        |label: Seq<char>| StandingView { label, mean: group_mean(items, key, label) },
    )
}

/// The means of the standings, in their order.
pub open spec fn means_of(standings: Seq<StandingView>) -> Seq<int> {
    standings.map_values(|standing: StandingView| standing.mean)
}

/// The groups by descending mean, groups of equal mean in first-seen order.
pub open spec fn group_standings(items: Seq<ScoreView>, key: GroupKey) -> Seq<StandingView> {
    picked(group_means(items, key), stable_order(means_of(group_means(items, key))))
}

/// Joins the parts with `", "`.
pub fn join(parts: &Vec<String>) -> (text: String)
    ensures
        text@ == joined(parts.deep_view()),
{
    let mut text = String::new();
    let mut i: usize = 0;
    while i < parts.len()
        invariant
            i <= parts.len(),
            text@ == joined(parts.deep_view().take(i as int)),
        decreases parts.len() - i,
    {
        let ghost next = parts.deep_view().take(i + 1);
        assert(next.drop_last() =~= parts.deep_view().take(i as int));
        if i > 0 {
            text.append(", ");
        }
        text.append(parts[i].as_str());
        i += 1;
    }
    assert(parts.deep_view().take(i as int) =~= parts.deep_view());
    text
}

/// The label under which `key` files the record.
pub fn label(item: &Score, key: GroupKey) -> (text: String)
    ensures
        text@ == label_of(item@, key),
{
    match key {
        GroupKey::Artists => join(&item.artists),
        GroupKey::Album => item.album.clone(),
    }
}

/// The labels of the groups are pairwise different, and each is the label of
/// at least one item.
pub proof fn lemma_group_labels(items: Seq<ScoreView>, key: GroupKey)
    ensures
        group_labels(items, key).no_duplicates(),
        forall|g: int|
            0 <= g < group_labels(items, key).len() ==> group_size(
                items,
                key,
                #[trigger] group_labels(items, key)[g],
            ) >= 1,
        forall|i: int|
            0 <= i < items.len() ==> group_labels(items, key).contains(
                label_of(#[trigger] items[i], key),
            ),
    decreases items.len(),
{
    if items.len() > 0 {
        let front = items.drop_last();
        let labels = group_labels(front, key);
        let label = label_of(items.last(), key);
        lemma_group_labels(front, key);
        lemma_group_size(front, key, label);
        let all = group_labels(items, key);
        assert forall|i: int| 0 <= i < items.len() implies all.contains(
            label_of(#[trigger] items[i], key),
        ) by {
            if i < front.len() {
                let g = choose|g: int| 0 <= g < labels.len() && labels[g] == label_of(front[i], key);
                assert(all[g] == labels[g]);
            } else if labels.contains(label) {
            } else {
                assert(all[labels.len() as int] == label);
            }
        }
    }
}

/// A group holds no more items than there are.
pub proof fn lemma_group_size(items: Seq<ScoreView>, key: GroupKey, label: Seq<char>)
    ensures
        0 <= group_size(items, key, label) <= items.len(),
    decreases items.len(),
{
    if items.len() > 0 {
        lemma_group_size(items.drop_last(), key, label);
    }
}

/// The sum of a group of 32-bit ratings lies between the smallest and the
/// largest such rating, each taken as often as the group has items.
pub proof fn lemma_group_sum_bounds(items: Seq<ScoreView>, key: GroupKey, label: Seq<char>)
    requires
        forall|i: int| 0 <= i < items.len() ==> i32::MIN <= (#[trigger] items[i]).score <= i32::MAX,
    ensures
        i32::MIN * group_size(items, key, label) <= group_sum(items, key, label) <= i32::MAX
            * group_size(items, key, label),
    decreases items.len(),
{
    if items.len() > 0 {
        let front = items.drop_last();
        assert forall|i: int| 0 <= i < front.len() implies i32::MIN <= (#[trigger] front[i]).score
            <= i32::MAX by {}
        lemma_group_sum_bounds(front, key, label);
    }
}

/// The truncated mean of ratings lies between the smallest and the largest of
/// them.
proof fn lemma_truncated_bounds(sum: int, n: int, low: int, high: int)
    requires
        n >= 1,
        low <= 0 <= high,
        low * n <= sum <= high * n,
    ensures
        low <= truncated(sum, n) <= high,
{
    if sum >= 0 {
        assert(0 <= sum / n <= high) by (nonlinear_arith)
            requires
                n >= 1,
                0 <= sum <= high * n,
        ;
    } else {
        assert((-low) * n == -(low * n)) by (nonlinear_arith);
        assert(0 <= (-sum) / n <= -low) by (nonlinear_arith)
            requires
                n >= 1,
                0 <= -sum <= (-low) * n,
        ;
    }
}

/// The place of `label` among `labels`, if it is there.
fn find_label(labels: &Vec<String>, label: &String) -> (found: Option<usize>)
    ensures
        match found {
            Some(g) => g < labels.len() && labels[g as int]@ == label@,
            None => !labels.deep_view().contains(label@),
        },
{
    let mut g: usize = 0;
    while g < labels.len()
        invariant
            g <= labels.len(),
            forall|h: int| 0 <= h < g ==> labels[h]@ != label@,
        decreases labels.len() - g,
    {
        if labels[g] == *label {
            return Some(g);
        }
        g += 1;
    }
    assert forall|h: int| 0 <= h < labels.deep_view().len() implies labels.deep_view()[h]
        != label@ by {}
    None
}

/// `sum / n` with the fraction cut off, toward zero.
fn truncate_mean(sum: i128, n: usize) -> (mean: i32)
    requires
        n >= 1,
        i32::MIN * n <= sum <= i32::MAX * n,
    ensures
        mean == truncated(sum as int, n as int),
{
    proof {
        lemma_truncated_bounds(sum as int, n as int, i32::MIN as int, i32::MAX as int);
    }
    if sum >= 0 {
        ((sum as u128) / (n as u128)) as i32
    } else {
        let whole = ((-sum) as u128) / (n as u128);
        -(whole as i64) as i32
    }
}

/// A label that is not among the group labels files no item.
proof fn lemma_absent_group(items: Seq<ScoreView>, key: GroupKey, label: Seq<char>)
    requires
        !group_labels(items, key).contains(label),
    ensures
        group_sum(items, key, label) == 0,
        group_size(items, key, label) == 0,
    decreases items.len(),
{
    if items.len() > 0 {
        let front = items.drop_last();
        let labels = group_labels(front, key);
        let all = group_labels(items, key);
        if labels.contains(label) {
            let g = choose|g: int| 0 <= g < labels.len() && labels[g] == label;
            assert(all[g] == label);
        }
        if label_of(items.last(), key) == label {
            if !labels.contains(label) {
                assert(all[labels.len() as int] == label);
            }
        }
        lemma_absent_group(front, key, label);
    }
}

/// The standings of a snapshot by `key`: each group once with the truncated
/// mean of its ratings, by descending mean, groups of equal mean in the order
/// in which they first occur in the snapshot.
pub fn group_average(items: &Vec<Score>, key: GroupKey) -> (standings: Vec<Standing>)
    ensures
        standings.deep_view() == group_standings(items.deep_view(), key),
{
    let ghost all = items.deep_view();
    let mut labels: Vec<String> = Vec::new();
    let mut sums: Vec<i128> = Vec::new();
    let mut sizes: Vec<usize> = Vec::new();
    let mut i: usize = 0;
    while i < items.len()
        invariant
            i <= items.len(),
            all == items.deep_view(),
            labels.len() == sums.len(),
            labels.len() == sizes.len(),
            labels.deep_view() == group_labels(all.take(i as int), key),
            forall|g: int|
                0 <= g < labels.len() ==> #[trigger] sums[g] == group_sum(
                    all.take(i as int),
                    key,
                    labels[g]@,
                ),
            forall|g: int|
                0 <= g < labels.len() ==> #[trigger] sizes[g] == group_size(
                    all.take(i as int),
                    key,
                    labels[g]@,
                ),
        decreases items.len() - i,
    {
        let ghost seen = all.take(i as int);
        let ghost next = all.take(i + 1);
        let ghost known = labels.deep_view();
        let text = label(&items[i], key);
        proof {
            assert(next.drop_last() =~= seen);
            lemma_group_labels(seen, key);
            lemma_group_size(seen, key, text@);
            lemma_group_sum_bounds(seen, key, text@);
            assert forall|h: int| 0 <= h < labels.len() implies known[h] == labels[h]@ by {}
        }
        match find_label(&labels, &text) {
            Some(g) => {
                let sum = sums[g] + items[i].score as i128;
                let size = sizes[g] + 1;
                sums.set(g, sum);
                sizes.set(g, size);
                assert forall|h: int| 0 <= h < labels.len() implies #[trigger] sums[h] == group_sum(
                    next,
                    key,
                    labels[h]@,
                ) by {
                    if h != g {
                        assert(known[h] != known[g as int]);
                    }
                }
                assert forall|h: int| 0 <= h < labels.len() implies #[trigger] sizes[h]
                    == group_size(next, key, labels[h]@) by {
                    if h != g {
                        assert(known[h] != known[g as int]);
                    }
                }
            },
            None => {
                proof {
                    lemma_absent_group(seen, key, text@);
                }
                labels.push(text);
                sums.push(items[i].score as i128);
                sizes.push(1);
                assert forall|h: int| 0 <= h < labels.len() implies #[trigger] sums[h] == group_sum(
                    next,
                    key,
                    labels[h]@,
                ) by {
                    if h < known.len() {
                        assert(known.contains(known[h]));
                    }
                }
                assert forall|h: int| 0 <= h < labels.len() implies #[trigger] sizes[h]
                    == group_size(next, key, labels[h]@) by {
                    if h < known.len() {
                        assert(known.contains(known[h]));
                    }
                }
            },
        }
        i += 1;
    }
    assert(all.take(i as int) =~= all);
    let ghost groups = group_means(all, key);
    let mut means: Vec<i32> = Vec::new();
    let mut g: usize = 0;
    proof {
        lemma_group_labels(all, key);
    }
    while g < labels.len()
        invariant
            g <= labels.len(),
            means.len() == g,
            labels.len() == sums.len(),
            labels.len() == sizes.len(),
            groups == group_means(all, key),
            labels.deep_view() == group_labels(all, key),
            forall|j: int| 0 <= j < all.len() ==> i32::MIN <= (#[trigger] all[j]).score <= i32::MAX,
            forall|h: int|
                0 <= h < labels.len() ==> #[trigger] sums[h] == group_sum(all, key, labels[h]@),
            forall|h: int|
                0 <= h < labels.len() ==> #[trigger] sizes[h] == group_size(all, key, labels[h]@),
            forall|h: int|
                0 <= h < labels.len() ==> group_size(all, key, #[trigger] group_labels(all, key)[h])
                    >= 1,
            forall|h: int| 0 <= h < g ==> #[trigger] means[h] == groups[h].mean,
        decreases labels.len() - g,
    {
        proof {
            assert(group_size(all, key, group_labels(all, key)[g as int]) >= 1);
            lemma_group_sum_bounds(all, key, labels[g as int]@);
        }
        let mean = truncate_mean(sums[g], sizes[g]);
        means.push(mean);
        g += 1;
    }
    assert(key_ints(means@) =~= means_of(groups));
    let order = order_desc(&means);
    proof {
        lemma_stable_order(means_of(groups));
    }
    let mut standings: Vec<Standing> = Vec::new();
    let mut a: usize = 0;
    while a < order.len()
        invariant
            a <= order.len(),
            order.len() == labels.len(),
            means.len() == labels.len(),
            standings.len() == a,
            groups == group_means(all, key),
            groups.len() == labels.len(),
            labels.deep_view() == group_labels(all, key),
            forall|h: int| 0 <= h < means.len() ==> #[trigger] means[h] == groups[h].mean,
            index_ints(order@) == stable_order(means_of(groups)),
            is_stable_order(means_of(groups), index_ints(order@)),
            standings.deep_view() == group_standings(all, key).take(a as int),
        decreases order.len() - a,
    {
        let at = order[a];
        assert(index_ints(order@)[a as int] == at);
        standings.push(Standing { label: labels[at].clone(), mean: means[at] });
        a += 1;
    }
    standings
}

/// What standings are: each group of the snapshot once, by descending mean,
/// and of two groups of equal mean the one that was seen first comes first.
pub proof fn lemma_group_standings(items: Seq<ScoreView>, key: GroupKey)
    ensures
        group_standings(items, key).len() == group_labels(items, key).len(),
        is_rearrangement(group_standings(items, key), group_means(items, key)),
        forall|a: int, b: int|
            0 <= a < b < group_standings(items, key).len() ==> (#[trigger] group_standings(
                items,
                key,
            )[a]).mean >= (#[trigger] group_standings(items, key)[b]).mean,
        forall|a: int, b: int|
            #![trigger stable_order(means_of(group_means(items, key)))[a], stable_order(means_of(group_means(items, key)))[b]]
            0 <= a < b < group_standings(items, key).len() && group_standings(items, key)[a].mean
                == group_standings(items, key)[b].mean ==> stable_order(
                means_of(group_means(items, key)),
            )[a] < stable_order(means_of(group_means(items, key)))[b],
        forall|a: int|
            0 <= a < group_standings(items, key).len() ==> #[trigger] group_standings(items, key)[a]
                == group_means(items, key)[stable_order(means_of(group_means(items, key)))[a]],
{
    let groups = group_means(items, key);
    let keys = means_of(groups);
    let order = stable_order(keys);
    lemma_stable_order(keys);
    lemma_picked_rearranges(groups, keys);
}

/// There is one list of standings only: whatever lists the groups of a
/// snapshot in a stable descending order of their means is its standings.
pub proof fn lemma_group_standings_unique(items: Seq<ScoreView>, key: GroupKey, order: Seq<int>)
    requires
        is_stable_order(means_of(group_means(items, key)), order),
    ensures
        picked(group_means(items, key), order) == group_standings(items, key),
{
    crate::order::lemma_stable_order_unique(means_of(group_means(items, key)), order);
}

impl Scores {
    /// The standings of the snapshot by `key`.
    pub fn standings(&self, key: GroupKey) -> (standings: Vec<Standing>)
        ensures
            standings.deep_view() == group_standings(self@, key),
    {
        group_average(&self.scores, key)
    }
}

} // verus!
