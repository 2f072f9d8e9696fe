use vstd::prelude::*;

verus! {

broadcast use vstd::array::group_array_axioms;

/// The map that a sequence of key/value entries denotes: later entries win,
/// though the ledger keeps its keys unique so the question never arises.
pub open spec fn assoc_map<K, V>(entries: Seq<(K, V)>) -> Map<K, V>
    decreases entries.len(),
{
    if entries.len() == 0 {
        Map::empty()
    } else {
        assoc_map(entries.drop_last()).insert(entries.last().0, entries.last().1)
    }
}

/// No key occurs twice.
pub open spec fn unique_keys<K, V>(entries: Seq<(K, V)>) -> bool {
    forall|i: int, j: int| 0 <= i < j < entries.len() ==> entries[i].0 != entries[j].0
}

/// A key is in the map exactly when some entry carries it.
pub proof fn lemma_assoc_contains<K, V>(entries: Seq<(K, V)>, key: K)
    ensures
        assoc_map(entries).contains_key(key) <==> (exists|i: int|
            0 <= i < entries.len() && entries[i].0 == key),
    decreases entries.len(),
{
    if entries.len() > 0 {
        lemma_assoc_contains(entries.drop_last(), key);
        if entries.last().0 == key {
            assert(entries[entries.len() - 1].0 == key);
        } else if assoc_map(entries).contains_key(key) {
            let i = choose|i: int|
                0 <= i < entries.drop_last().len() && entries.drop_last()[i].0 == key;
            assert(entries[i].0 == key);
        } else if exists|i: int| 0 <= i < entries.len() && entries[i].0 == key {
            let i = choose|i: int| 0 <= i < entries.len() && entries[i].0 == key;
            assert(entries.drop_last()[i].0 == key);
        }
    }
}

/// With unique keys, the entry at any index gives the map's value for its key.
pub proof fn lemma_assoc_index<K, V>(entries: Seq<(K, V)>, i: int)
    requires
        unique_keys(entries),
        0 <= i < entries.len(),
    ensures
        assoc_map(entries).contains_key(entries[i].0),
        assoc_map(entries)[entries[i].0] == entries[i].1,
    decreases entries.len(),
{
    if i < entries.len() - 1 {
        lemma_assoc_index(entries.drop_last(), i);
        assert(entries.drop_last()[i] == entries[i]);
    }
}

/// Overwriting the value at one index, keeping its key, inserts into the map.
pub proof fn lemma_assoc_update<K, V>(entries: Seq<(K, V)>, i: int, value: V)
    requires
        unique_keys(entries),
        0 <= i < entries.len(),
    ensures
        assoc_map(entries.update(i, (entries[i].0, value))) =~= assoc_map(entries).insert(
            entries[i].0,
            value,
        ),
        unique_keys(entries.update(i, (entries[i].0, value))),
    decreases entries.len(),
{
    let updated = entries.update(i, (entries[i].0, value));
    assert forall|x: int, y: int| 0 <= x < y < updated.len() implies updated[x].0
        != updated[y].0 by {
        assert(entries[x].0 != entries[y].0);
    }
    if i == entries.len() - 1 {
        assert(updated.drop_last() =~= entries.drop_last());
    } else {
        lemma_assoc_update(entries.drop_last(), i, value);
        assert(updated.drop_last() =~= entries.drop_last().update(i, (entries[i].0, value)));
        assert(entries.drop_last()[i] == entries[i]);
        assert(updated.last() == entries.last());
    }
}

/// Appending an entry inserts into the map; a fresh key keeps the keys unique.
pub proof fn lemma_assoc_push<K, V>(entries: Seq<(K, V)>, key: K, value: V)
    requires
        forall|i: int| 0 <= i < entries.len() ==> entries[i].0 != key,
        unique_keys(entries),
    ensures
        assoc_map(entries.push((key, value))) =~= assoc_map(entries).insert(key, value),
        unique_keys(entries.push((key, value))),
{
    let pushed = entries.push((key, value));
    assert(pushed.drop_last() =~= entries);
    assert forall|x: int, y: int| 0 <= x < y < pushed.len() implies pushed[x].0 != pushed[y].0 by {
        if y < entries.len() {
            assert(entries[x].0 != entries[y].0);
        }
    }
}

/// Removing the entry at one index removes its key from the map.
pub proof fn lemma_assoc_remove<K, V>(entries: Seq<(K, V)>, i: int)
    requires
        unique_keys(entries),
        0 <= i < entries.len(),
    ensures
        assoc_map(entries.remove(i)) =~= assoc_map(entries).remove(entries[i].0),
        unique_keys(entries.remove(i)),
    decreases entries.len(),
{
    let removed = entries.remove(i);
    assert forall|x: int, y: int| 0 <= x < y < removed.len() implies removed[x].0
        != removed[y].0 by {
        let xo: int = if x < i {
            x
        } else {
            x + 1
        };
        let yo: int = if y < i {
            y
        } else {
            y + 1
        };
        assert(entries[xo].0 != entries[yo].0);
    }
    if i == entries.len() - 1 {
        assert(removed =~= entries.drop_last());
        lemma_assoc_contains(entries.drop_last(), entries[i].0);
        assert(forall|j: int|
            0 <= j < entries.drop_last().len() ==> entries.drop_last()[j] == entries[j]);
        assert(!assoc_map(entries.drop_last()).contains_key(entries[i].0));
    } else {
        lemma_assoc_remove(entries.drop_last(), i);
        assert(removed.drop_last() =~= entries.drop_last().remove(i));
        assert(removed.last() == entries.last());
        assert(entries.drop_last()[i] == entries[i]);
    }
}

/// Byte-wise equality of two 32-byte identifiers.
pub fn bytes_eq(a: &[u8; 32], b: &[u8; 32]) -> (r: bool)
    ensures
        r <==> (*a == *b),
{
    let mut i: usize = 0;
    while i < 32
        invariant
            0 <= i <= 32,
            forall|j: int| 0 <= j < i ==> a@[j] == b@[j],
        decreases 32 - i,
    {
        if a[i] != b[i] {
            assert(a@[i as int] != b@[i as int]);
            return false;
        }
        i += 1;
    }
    proof {
        assert(*a =~= *b);
    }
    true
}

/// The index of the entry holding a 32-byte key, if there is one.
pub fn find_key<V>(entries: &Vec<([u8; 32], V)>, key: &[u8; 32]) -> (r: Option<usize>)
    ensures
        (match r {
            Some(i) => i < entries@.len() && entries@[i as int].0 == *key,
            None => forall|j: int| 0 <= j < entries@.len() ==> entries@[j].0 != *key,
        }),
{
    let mut i: usize = 0;
    while i < entries.len()
        invariant
            0 <= i <= entries@.len(),
            forall|j: int| 0 <= j < i ==> entries@[j].0 != *key,
        decreases entries@.len() - i,
    {
        if bytes_eq(&entries[i].0, key) {
            return Some(i);
        }
        i += 1;
    }
    None
}

/// The index of the entry holding a pair of 32-byte keys, if there is one.
pub fn find_pair_key<V>(
    entries: &Vec<(([u8; 32], [u8; 32]), V)>,
    first: &[u8; 32],
    second: &[u8; 32],
) -> (r: Option<usize>)
    ensures
        (match r {
            Some(i) => i < entries@.len() && entries@[i as int].0 == (*first, *second),
            None => forall|j: int| 0 <= j < entries@.len() ==> entries@[j].0 != (*first, *second),
        }),
{
    let mut i: usize = 0;
    while i < entries.len()
        invariant
            0 <= i <= entries@.len(),
            forall|j: int| 0 <= j < i ==> entries@[j].0 != (*first, *second),
        decreases entries@.len() - i,
    {
        if bytes_eq(&entries[i].0.0, first) && bytes_eq(&entries[i].0.1, second) {
            return Some(i);
        }
        i += 1;
    }
    None
}

} // verus!
