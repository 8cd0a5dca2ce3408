//! A string-keyed association list and its map abstraction, shared by
//! the session store and the account directory.

use vstd::prelude::*;

verus! {

/// The map that an association list denotes; a later entry for the
/// same key would win, so holders keep keys distinct.
pub open spec fn map_of<V: View>(entries: Seq<(String, V)>) -> Map<Seq<char>, V::V>
    decreases entries.len(),
{
    if entries.len() == 0 {
        Map::empty()
    } else {
        map_of(entries.drop_last()).insert(entries.last().0@, entries.last().1@)
    }
}

/// No two entries share a key.
pub open spec fn keys_distinct<V: View>(entries: Seq<(String, V)>) -> bool {
    forall|i: int, j: int|
        0 <= i < j < entries.len() ==> (#[trigger] entries[i]).0@ != (#[trigger] entries[j]).0@
}

pub proof fn lemma_map_of_get<V: View>(entries: Seq<(String, V)>, i: int)
    requires
        keys_distinct(entries),
        0 <= i < entries.len(),
    ensures
        map_of(entries).contains_key(entries[i].0@),
        map_of(entries)[entries[i].0@] == entries[i].1@,
    decreases entries.len(),
{
    if i == entries.len() - 1 {
    } else {
        assert(entries.drop_last()[i] == entries[i]);
        lemma_map_of_get(entries.drop_last(), i);
        assert(entries[i].0@ != entries.last().0@);
    }
}

pub proof fn lemma_map_of_absent<V: View>(entries: Seq<(String, V)>, k: Seq<char>)
    requires
        forall|i: int| 0 <= i < entries.len() ==> (#[trigger] entries[i]).0@ != k,
    ensures
        !map_of(entries).contains_key(k),
    decreases entries.len(),
{
    if entries.len() > 0 {
        assert(forall|i: int|
            0 <= i < entries.drop_last().len() ==> (#[trigger] entries.drop_last()[i])
                == entries[i]);
        lemma_map_of_absent(entries.drop_last(), k);
    }
}

pub proof fn lemma_map_of_remove<V: View>(entries: Seq<(String, V)>, i: int)
    requires
        keys_distinct(entries),
        0 <= i < entries.len(),
    ensures
        map_of(entries.remove(i)) == map_of(entries).remove(entries[i].0@),
    decreases entries.len(),
{
    let k = entries[i].0@;
    if i == entries.len() - 1 {
        assert(entries.remove(i) =~= entries.drop_last());
        assert(forall|j: int|
            0 <= j < entries.drop_last().len() ==> (#[trigger] entries.drop_last()[j]).0@ != k);
        lemma_map_of_absent(entries.drop_last(), k);
        assert(map_of(entries.drop_last()) =~= map_of(entries.drop_last()).insert(
            k,
            entries.last().1@,
        ).remove(k));
    } else {
        let shorter = entries.drop_last();
        assert(shorter[i] == entries[i]);
        lemma_map_of_remove(shorter, i);
        assert(entries.remove(i).drop_last() =~= shorter.remove(i));
        assert(entries.remove(i).last() == entries.last());
        assert(k != entries.last().0@);
        assert(map_of(shorter).remove(k).insert(entries.last().0@, entries.last().1@)
            =~= map_of(shorter).insert(entries.last().0@, entries.last().1@).remove(k));
    }
}

/// A key found at an index of the list is a key of the map.
pub proof fn lemma_map_of_contains_index<V: View>(entries: Seq<(String, V)>, k: Seq<char>) -> (i:
    int)
    requires
        map_of(entries).contains_key(k),
    ensures
        0 <= i < entries.len(),
        entries[i].0@ == k,
    decreases entries.len(),
{
    if entries.len() == 0 {
        0
    } else if entries.last().0@ == k {
        entries.len() - 1
    } else {
        let i = lemma_map_of_contains_index(entries.drop_last(), k);
        assert(entries.drop_last()[i] == entries[i]);
        i
    }
}

} // verus!
