//! Association lists of name-keyed entries, read as finite maps.
//!
//! The registry stores its name hierarchies as vectors of entries. This
//! module gives such a list its mathematical reading — the [`Map`] from keys
//! to values — together with the lemmas that connect positional reasoning
//! about the list (what a linear scan sees) with map reasoning (what the
//! contracts say).

use vstd::prelude::*;

verus! {

/// The map denoted by an association list: a later entry with a key wins
/// over an earlier one. The lists of this crate never hold two entries with
/// one key (see [`keys_unique`]), so every entry is visible in the map.
pub open spec fn assoc_map<V>(entries: Seq<(Seq<char>, V)>) -> Map<Seq<char>, V>
    decreases entries.len(),
{
    if entries.len() == 0 {
        Map::empty()
    } else {
        assoc_map(entries.drop_last()).insert(entries.last().0, entries.last().1)
    }
}

/// No two entries of the list share a key.
pub open spec fn keys_unique<V>(entries: Seq<(Seq<char>, V)>) -> bool {
    forall|i: int, j: int| 0 <= i < j < entries.len() ==> entries[i].0 != entries[j].0
}

/// The denoted map holds a key exactly when some entry carries it.
pub proof fn lemma_assoc_map_contains<V>(entries: Seq<(Seq<char>, V)>, key: Seq<char>)
    ensures
        assoc_map(entries).contains_key(key) <==> exists|i: int|
            0 <= i < entries.len() && entries[i].0 == key,
    decreases entries.len(),
{
    if entries.len() > 0 {
        lemma_assoc_map_contains(entries.drop_last(), key);
        if entries.last().0 == key {
            assert(entries[entries.len() - 1].0 == key);
        } else {
            if assoc_map(entries).contains_key(key) {
                let i = choose|i: int|
                    0 <= i < entries.drop_last().len() && entries.drop_last()[i].0 == key;
                assert(entries[i].0 == key);
            }
            if exists|i: int| 0 <= i < entries.len() && entries[i].0 == key {
                let i = choose|i: int| 0 <= i < entries.len() && entries[i].0 == key;
                assert(i < entries.len() - 1);
                assert(entries.drop_last()[i].0 == key);
            }
        }
    }
}

/// With unique keys, the entry at index `i` is what the map returns for its
/// key.
pub proof fn lemma_assoc_map_index<V>(entries: Seq<(Seq<char>, V)>, i: int)
    requires
        keys_unique(entries),
        0 <= i < entries.len(),
    ensures
        assoc_map(entries).contains_key(entries[i].0),
        assoc_map(entries)[entries[i].0] == entries[i].1,
    decreases entries.len(),
{
    if i < entries.len() - 1 {
        assert(entries[i].0 != entries.last().0);
        assert(keys_unique(entries.drop_last())) by {
            assert(forall|p: int, q: int|
                0 <= p < q < entries.drop_last().len() ==> entries.drop_last()[p]
                    == entries[p] && entries.drop_last()[q] == entries[q]);
        }
        lemma_assoc_map_index(entries.drop_last(), i);
        assert(entries.drop_last()[i] == entries[i]);
    }
}

/// With unique keys the denoted map has exactly one member per entry.
pub proof fn lemma_assoc_map_len<V>(entries: Seq<(Seq<char>, V)>)
    requires
        keys_unique(entries),
    ensures
        assoc_map(entries).dom().finite(),
        assoc_map(entries).dom().len() == entries.len(),
    decreases entries.len(),
{
    if entries.len() > 0 {
        assert(keys_unique(entries.drop_last())) by {
            assert(forall|p: int, q: int|
                0 <= p < q < entries.drop_last().len() ==> entries.drop_last()[p]
                    == entries[p] && entries.drop_last()[q] == entries[q]);
        }
        lemma_assoc_map_len(entries.drop_last());
        lemma_assoc_map_contains(entries.drop_last(), entries.last().0);
        assert(forall|i: int|
            0 <= i < entries.drop_last().len() ==> entries.drop_last()[i] == entries[i]);
        assert(!assoc_map(entries.drop_last()).contains_key(entries.last().0));
    }
}

/// Appending an entry inserts its key.
pub proof fn lemma_assoc_map_push<V>(entries: Seq<(Seq<char>, V)>, key: Seq<char>, value: V)
    ensures
        assoc_map(entries.push((key, value))) == assoc_map(entries).insert(key, value),
{
    assert(entries.push((key, value)).drop_last() =~= entries);
    assert(entries.push((key, value)).last() == (key, value));
}

/// With unique keys, dropping the entry at index `i` removes exactly its key
/// from the map.
pub proof fn lemma_assoc_map_remove<V>(entries: Seq<(Seq<char>, V)>, i: int)
    requires
        keys_unique(entries),
        0 <= i < entries.len(),
    ensures
        assoc_map(entries.remove(i)) =~= assoc_map(entries).remove(entries[i].0),
{
    let shorter = entries.remove(i);
    assert(forall|j: int| 0 <= j < i ==> shorter[j] == entries[j]);
    assert(forall|j: int| i <= j < shorter.len() ==> shorter[j] == entries[j + 1]);
    assert(keys_unique(shorter));
    assert forall|k: Seq<char>| #[trigger] assoc_map(shorter).contains_key(k) implies assoc_map(
        entries,
    ).remove(entries[i].0).contains_key(k) && assoc_map(shorter)[k] == assoc_map(entries)[k] by {
        lemma_assoc_map_contains(shorter, k);
        let j = choose|j: int| 0 <= j < shorter.len() && shorter[j].0 == k;
        let j_orig: int = if j < i {
            j
        } else {
            j + 1
        };
        assert(entries[j_orig].0 == k);
        assert(k != entries[i].0);
        lemma_assoc_map_index(shorter, j);
        lemma_assoc_map_index(entries, j_orig);
    }
    assert forall|k: Seq<char>| #[trigger] assoc_map(entries).remove(
        entries[i].0,
    ).contains_key(k) implies assoc_map(shorter).contains_key(k) by {
        lemma_assoc_map_contains(entries, k);
        let j = choose|j: int| 0 <= j < entries.len() && entries[j].0 == k;
        assert(j != i);
        let j_short: int = if j < i {
            j
        } else {
            j - 1
        };
        assert(shorter[j_short].0 == k);
        lemma_assoc_map_contains(shorter, k);
    }
}

/// With unique keys, replacing the value at index `i` updates exactly its
/// key.
pub proof fn lemma_assoc_map_update<V>(entries: Seq<(Seq<char>, V)>, i: int, value: V)
    requires
        keys_unique(entries),
        0 <= i < entries.len(),
    ensures
        assoc_map(entries.update(i, (entries[i].0, value))) =~= assoc_map(entries).insert(
            entries[i].0,
            value,
        ),
{
    let updated = entries.update(i, (entries[i].0, value));
    assert(forall|j: int| 0 <= j < entries.len() && j != i ==> updated[j] == entries[j]);
    assert(keys_unique(updated));
    lemma_assoc_map_index(updated, i);
    assert forall|k: Seq<char>| #[trigger] assoc_map(updated).contains_key(k) implies assoc_map(
        entries,
    ).insert(entries[i].0, value).contains_key(k) && assoc_map(updated)[k] == assoc_map(
        entries,
    ).insert(entries[i].0, value)[k] by {
        lemma_assoc_map_contains(updated, k);
        let j = choose|j: int| 0 <= j < updated.len() && updated[j].0 == k;
        lemma_assoc_map_index(updated, j);
        if j != i {
            assert(entries[j].0 == k);
            lemma_assoc_map_index(entries, j);
        }
        lemma_assoc_map_contains(entries, k);
    }
    assert forall|k: Seq<char>| #[trigger] assoc_map(entries).insert(
        entries[i].0,
        value,
    ).contains_key(k) implies assoc_map(updated).contains_key(k) by {
        if k == entries[i].0 {
        } else {
            lemma_assoc_map_contains(entries, k);
            let j = choose|j: int| 0 <= j < entries.len() && entries[j].0 == k;
            assert(updated[j].0 == k);
            lemma_assoc_map_contains(updated, k);
        }
    }
}

} // verus!
