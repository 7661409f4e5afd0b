//! Stable descending order: the one arrangement of the indices of a list of
//! keys in which larger keys come first and equal keys keep their input order.

use vstd::prelude::*;

verus! {

/// Whether index `i` comes before index `j`: by the larger key, and for equal
/// keys by the smaller index.
pub open spec fn precedes(keys: Seq<int>, i: int, j: int) -> bool {
    keys[i] > keys[j] || (keys[i] == keys[j] && i < j)
}

/// Whether `order` lists every index of `keys` once, each before all those
/// that it precedes.
pub open spec fn is_stable_order(keys: Seq<int>, order: Seq<int>) -> bool {
    &&& order.len() == keys.len()
    &&& forall|a: int| 0 <= a < order.len() ==> 0 <= #[trigger] order[a] < keys.len()
    &&& forall|a: int, b: int|
        0 <= a < b < order.len() ==> precedes(keys, #[trigger] order[a], #[trigger] order[b])
    &&& forall|i: int| 0 <= i < keys.len() ==> #[trigger] order.contains(i)
}

/// How many leading entries of `order` have a key of at least `key`.
pub open spec fn slot(keys: Seq<int>, order: Seq<int>, key: int) -> int
    decreases order.len(),
{
    if order.len() == 0 || keys[order[0]] < key {
        0
    } else {
        1 + slot(keys, order.drop_first(), key)
    }
}

/// The stable descending order of the indices of `keys`: each index in turn
/// goes behind the entries whose key is at least its own.
pub open spec fn stable_order(keys: Seq<int>) -> Seq<int>
    decreases keys.len(),
{
    if keys.len() == 0 {
        Seq::empty()
    } else {
        let rest = stable_order(keys.drop_last());
        rest.insert(slot(keys, rest, keys.last()), keys.len() - 1)
    }
}

/// The keys as mathematical integers.
pub open spec fn key_ints(keys: Seq<i32>) -> Seq<int> {
    keys.map_values(|k: i32| k as int)
}

/// The indices as mathematical integers.
pub open spec fn index_ints(order: Seq<usize>) -> Seq<int> {
    order.map_values(|i: usize| i as int)
}

/// Where the scan for the slot stands after `pos` entries.
proof fn lemma_slot_scan(keys: Seq<int>, order: Seq<int>, key: int, pos: int)
    requires
        0 <= pos <= order.len(),
        forall|a: int| 0 <= a < pos ==> keys[#[trigger] order[a]] >= key,
    ensures
        slot(keys, order, key) == pos + slot(keys, order.skip(pos), key),
    decreases pos,
{
    if pos == 0 {
        assert(order.skip(0) =~= order);
    } else {
        lemma_slot_scan(keys, order, key, pos - 1);
        let tail = order.skip(pos - 1);
        assert(tail.drop_first() =~= order.skip(pos));
    }
}

/// What the slot is: all entries before it have a key of at least `key`, and
/// the entry at it, if there is one, has a smaller key.
pub proof fn lemma_slot(keys: Seq<int>, order: Seq<int>, key: int)
    ensures
        0 <= slot(keys, order, key) <= order.len(),
        forall|a: int| 0 <= a < slot(keys, order, key) ==> keys[#[trigger] order[a]] >= key,
        slot(keys, order, key) < order.len() ==> keys[order[slot(keys, order, key)]] < key,
    decreases order.len(),
{
    if order.len() > 0 && keys[order[0]] >= key {
        let tail = order.drop_first();
        lemma_slot(keys, tail, key);
        assert forall|a: int| 0 <= a < slot(keys, order, key) implies keys[#[trigger] order[a]]
            >= key by {
            if a > 0 {
                assert(order[a] == tail[a - 1]);
            }
        }
    }
}

/// The stable order is a stable order: it lists every index once, larger keys
/// first, equal keys in their input order.
pub proof fn lemma_stable_order(keys: Seq<int>)
    ensures
        is_stable_order(keys, stable_order(keys)),
    decreases keys.len(),
{
    let order = stable_order(keys);
    if keys.len() > 0 {
        let front = keys.drop_last();
        let rest = stable_order(front);
        let last = keys.len() - 1;
        let at = slot(keys, rest, keys.last());
        lemma_stable_order(front);
        lemma_slot(keys, rest, keys.last());
        assert forall|a: int| 0 <= a < rest.len() implies keys[#[trigger] rest[a]] == front[rest[a]] by {}
        assert forall|i: int| 0 <= i < keys.len() implies #[trigger] order.contains(i) by {
            if i == last {
                assert(order[at] == i);
            } else {
                assert(rest.contains(i));
                let a = choose|a: int| 0 <= a < rest.len() && rest[a] == i;
                if a < at {
                    assert(order[a] == i);
                } else {
                    assert(order[a + 1] == i);
                }
            }
        }
    }
}

/// Only one arrangement is a stable order.
pub proof fn lemma_stable_order_unique(keys: Seq<int>, order: Seq<int>)
    requires
        is_stable_order(keys, order),
    ensures
        order == stable_order(keys),
{
    let other = stable_order(keys);
    lemma_stable_order(keys);
    assert forall|k: int| 0 <= k < order.len() implies order[k] == other[k] by {
        lemma_same_up_to(keys, order, other, k);
    }
}

/// Two stable orders agree at `k`, given that they agree before it.
proof fn lemma_same_up_to(keys: Seq<int>, one: Seq<int>, other: Seq<int>, k: int)
    requires
        is_stable_order(keys, one),
        is_stable_order(keys, other),
        0 <= k < keys.len(),
    ensures
        one[k] == other[k],
    decreases k,
{
    assert forall|a: int| 0 <= a < k implies one[a] == other[a] by {
        lemma_same_up_to(keys, one, other, a);
    }
    lemma_not_earlier(keys, one, other, k);
    lemma_not_earlier(keys, other, one, k);
}

/// Where two stable orders agree before `k`, what one has at `k` the other
/// has at `k` or later.
proof fn lemma_not_earlier(keys: Seq<int>, one: Seq<int>, other: Seq<int>, k: int)
    requires
        is_stable_order(keys, one),
        is_stable_order(keys, other),
        0 <= k < keys.len(),
        forall|a: int| 0 <= a < k ==> one[a] == other[a],
    ensures
        one[k] == other[k] || precedes(keys, other[k], one[k]),
{
    assert(other.contains(one[k]));
}

/// Computes the stable descending order of the indices of `keys`.
pub fn order_desc(keys: &Vec<i32>) -> (order: Vec<usize>)
    ensures
        index_ints(order@) == stable_order(key_ints(keys@)),
{
    let mut order: Vec<usize> = Vec::new();
    let mut i: usize = 0;
    while i < keys.len()
        invariant
            i <= keys.len(),
            order.len() == i,
            index_ints(order@) == stable_order(key_ints(keys@).take(i as int)),
        decreases keys.len() - i,
    {
        let ghost all = key_ints(keys@);
        let ghost seen = all.take(i + 1);
        let ghost rest = index_ints(order@);
        proof {
            assert(seen.drop_last() =~= all.take(i as int));
            lemma_stable_order(all.take(i as int));
            assert forall|a: int| 0 <= a < order.len() implies #[trigger] order[a] < i by {
                assert(rest[a] == order[a]);
            }
        }
        let key = keys[i];
        let mut pos: usize = 0;
        while pos < order.len() && keys[order[pos]] >= key
            invariant
                pos <= order.len(),
                i < keys.len(),
                key == keys[i as int],
                all == key_ints(keys@),
                seen == all.take(i + 1),
                rest == index_ints(order@),
                forall|a: int| 0 <= a < order.len() ==> #[trigger] order[a] < i,
                forall|a: int| 0 <= a < pos ==> seen[#[trigger] rest[a]] >= key,
            decreases order.len() - pos,
        {
            pos += 1;
        }
        proof {
            lemma_slot_scan(seen, rest, key as int, pos as int);
        }
        order.insert(pos, i);
        i += 1;
    }
    assert(key_ints(keys@).take(i as int) =~= key_ints(keys@));
    order
}

} // verus!
