//! Association lists as maps: what a run of key and value pairs holds when
//! each key stands for its last value.

use vstd::prelude::*;

verus! {

/// The map that a run of pairs gives: each key with the value of its last
/// pair.
pub open spec fn pairs_map<K, V>(pairs: Seq<(K, V)>) -> Map<K, V>
    decreases pairs.len(),
{
    if pairs.len() == 0 {
        Map::empty()
    } else {
        pairs_map(pairs.drop_last()).insert(pairs.last().0, pairs.last().1)
    }
}

/// Whether no key stands in two pairs.
pub open spec fn distinct_keys<K, V>(pairs: Seq<(K, V)>) -> bool {
    forall|i: int, j: int|
        0 <= i < j < pairs.len() ==> (#[trigger] pairs[i]).0 != (#[trigger] pairs[j]).0
}

/// Whether some pair has the key `key`.
pub open spec fn has_key<K, V>(pairs: Seq<(K, V)>, key: K) -> bool {
    exists|i: int| 0 <= i < pairs.len() && (#[trigger] pairs[i]).0 == key
}

/// The keys of the map are the keys of the pairs.
pub proof fn lemma_pairs_map_keys<K, V>(pairs: Seq<(K, V)>, key: K)
    ensures
        pairs_map(pairs).dom().finite(),
        pairs_map(pairs).contains_key(key) <==> has_key(pairs, key),
    decreases pairs.len(),
{
    if pairs.len() > 0 {
        let before = pairs.drop_last();
        lemma_pairs_map_keys(before, key);
        if has_key(before, key) {
            let i = choose|i: int| 0 <= i < before.len() && (#[trigger] before[i]).0 == key;
            assert(pairs[i].0 == key);
        }
        if has_key(pairs, key) {
            let i = choose|i: int| 0 <= i < pairs.len() && (#[trigger] pairs[i]).0 == key;
            if i < before.len() {
                assert(before[i].0 == key);
            }
        }
        if pairs.last().0 == key {
            assert(pairs[pairs.len() - 1].0 == key);
        }
    }
}

/// Where no key stands twice, the map has as many keys as there are pairs,
/// and every pair's key has that pair's value.
pub proof fn lemma_pairs_map_distinct<K, V>(pairs: Seq<(K, V)>)
    requires
        distinct_keys(pairs),
    ensures
        pairs_map(pairs).dom().finite(),
        pairs_map(pairs).dom().len() == pairs.len(),
        forall|i: int|
            0 <= i < pairs.len() ==> pairs_map(pairs).contains_key((#[trigger] pairs[i]).0)
                && pairs_map(pairs)[pairs[i].0] == pairs[i].1,
    decreases pairs.len(),
{
    if pairs.len() > 0 {
        let before = pairs.drop_last();
        let last = pairs.last();
        assert forall|i: int, j: int| 0 <= i < j < before.len() implies (#[trigger] before[i]).0
            != (#[trigger] before[j]).0 by {
            assert(before[i] == pairs[i] && before[j] == pairs[j]);
        }
        lemma_pairs_map_distinct(before);
        lemma_pairs_map_keys(before, last.0);
        if has_key(before, last.0) {
            let i = choose|i: int| 0 <= i < before.len() && (#[trigger] before[i]).0 == last.0;
            assert(pairs[i].0 == pairs[pairs.len() - 1].0);
        }
        assert forall|i: int| 0 <= i < pairs.len() implies pairs_map(pairs).contains_key(
            (#[trigger] pairs[i]).0,
        ) && pairs_map(pairs)[pairs[i].0] == pairs[i].1 by {
            if i < before.len() {
                assert(before[i] == pairs[i]);
                assert(pairs[i].0 != pairs[pairs.len() - 1].0);
            }
        }
    }
}

/// One more pair gives its key its value.
pub proof fn lemma_pairs_map_push<K, V>(pairs: Seq<(K, V)>, key: K, value: V)
    ensures
        pairs_map(pairs.push((key, value))) == pairs_map(pairs).insert(key, value),
{
    assert(pairs.push((key, value)).drop_last() =~= pairs);
}

/// Where no key stands twice, a new value in the pair of a key gives the
/// key that value.
pub proof fn lemma_pairs_map_update<K, V>(pairs: Seq<(K, V)>, i: int, value: V)
    requires
        distinct_keys(pairs),
        0 <= i < pairs.len(),
    ensures
        pairs_map(pairs.update(i, (pairs[i].0, value))) == pairs_map(pairs).insert(
            pairs[i].0,
            value,
        ),
        distinct_keys(pairs.update(i, (pairs[i].0, value))),
    decreases pairs.len(),
{
    let key = pairs[i].0;
    let changed = pairs.update(i, (key, value));
    let before = pairs.drop_last();
    let last = pairs.last();
    assert forall|a: int, b: int| 0 <= a < b < changed.len() implies (#[trigger] changed[a]).0 != (
    #[trigger] changed[b]).0 by {
        assert(changed[a].0 == pairs[a].0 && changed[b].0 == pairs[b].0);
    }
    if i == pairs.len() - 1 {
        assert(changed.drop_last() =~= before);
        assert(pairs_map(before).insert(key, last.1).insert(key, value) =~= pairs_map(
            before,
        ).insert(key, value));
    } else {
        assert forall|a: int, b: int| 0 <= a < b < before.len() implies (#[trigger] before[a]).0
            != (#[trigger] before[b]).0 by {
            assert(before[a] == pairs[a] && before[b] == pairs[b]);
        }
        assert(before[i] == pairs[i]);
        lemma_pairs_map_update(before, i, value);
        assert(changed.drop_last() =~= before.update(i, (key, value)));
        assert(changed.last() == last);
        assert(pairs[i].0 != pairs[pairs.len() - 1].0);
        assert(pairs_map(before).insert(key, value).insert(last.0, last.1) =~= pairs_map(
            before,
        ).insert(last.0, last.1).insert(key, value));
    }
}

} // verus!
