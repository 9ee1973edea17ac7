//! The sum of the numbers of a map.

use vstd::prelude::*;

verus! {

/// The sum of the numbers of a finite map.
pub open spec fn total<K>(map: Map<K, nat>) -> nat
    decreases map.dom().len(),
    when map.dom().finite()
{
    if map.dom().len() == 0 {
        0
    } else {
        let key = map.dom().choose();
        map[key] + total(map.remove(key))
    }
}

/// The number of any key can be split off.
pub proof fn lemma_total_splits<K>(map: Map<K, nat>, key: K)
    requires
        map.dom().finite(),
        map.contains_key(key),
    ensures
        total(map) == map[key] + total(map.remove(key)),
    decreases map.dom().len(),
{
    let first = map.dom().choose();
    if first != key {
        lemma_total_splits(map.remove(first), key);
        lemma_total_splits(map.remove(key), first);
        assert(map.remove(first).remove(key) =~= map.remove(key).remove(first));
    }
}

/// What a number that is put into a map, or replaced in it, makes of the sum.
pub proof fn lemma_total_after_insert<K>(map: Map<K, nat>, key: K, value: nat)
    requires
        map.dom().finite(),
    ensures
        total(map.insert(key, value)) == total(map) + value - if map.contains_key(key) {
            map[key] as int
        } else {
            0
        },
{
    lemma_total_splits(map.insert(key, value), key);
    assert(map.insert(key, value).remove(key) =~= map.remove(key));
    if map.contains_key(key) {
        lemma_total_splits(map, key);
    } else {
        assert(map.remove(key) =~= map);
    }
}

/// Nothing sums up to zero, and one number to itself.
pub proof fn lemma_total_of_one<K>(key: K, value: nat)
    ensures
        total(Map::<K, nat>::empty()) == 0,
        total(Map::<K, nat>::empty().insert(key, value)) == value,
{
    lemma_total_after_insert(Map::<K, nat>::empty(), key, value);
}

} // verus!
