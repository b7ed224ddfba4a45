//! A name-keyed collection with insertion order kept and keys unique.
//!
//! It stands where the remote document holds a JSON object: parameters of the
//! root, parameters of a group, parameter groups, and the tracked conditions
//! of a propagation run. Contracts speak of two views: the entry sequence,
//! and the map it denotes (`map_of`).
use crate::strings::str_eq;
use vstd::pervasive::VecAdditionalExecFns;
use vstd::prelude::*;

verus! {

/// The map denoted by an entry sequence; a later entry would win, though a
/// well-formed sequence never repeats a key.
pub open spec fn map_of<V>(entries: Seq<(String, V)>) -> Map<Seq<char>, V>
    decreases entries.len(),
{
    if entries.len() == 0 {
        Map::empty()
    } else {
        map_of(entries.drop_last()).insert(entries.last().0@, entries.last().1)
    }
}

/// No key occurs twice.
pub open spec fn distinct_keys<V>(entries: Seq<(String, V)>) -> bool {
    forall|i: int, j: int| 0 <= i < j < entries.len() ==> entries[i].0@ != entries[j].0@
}

/// First index holding the key, if any.
pub open spec fn find_key<V>(entries: Seq<(String, V)>, key: Seq<char>) -> Option<int>
    decreases entries.len(),
{
    if entries.len() == 0 {
        None
    } else if entries[0].0@ == key {
        Some(0int)
    } else {
        match find_key(entries.skip(1), key) {
            None => None,
            Some(i) => Some(i + 1),
        }
    }
}

pub proof fn lemma_find_key<V>(entries: Seq<(String, V)>, key: Seq<char>)
    ensures
        match find_key(entries, key) {
            Some(i) => 0 <= i < entries.len() && entries[i].0@ == key && (forall|j: int|
                0 <= j < i ==> entries[j].0@ != key),
            None => forall|j: int| 0 <= j < entries.len() ==> entries[j].0@ != key,
        },
    decreases entries.len(),
{
    if entries.len() > 0 && entries[0].0@ != key {
        lemma_find_key(entries.skip(1), key);
        assert(forall|j: int| 0 <= j < entries.len() - 1 ==> entries.skip(1)[j] == entries[j + 1]);
        match find_key(entries.skip(1), key) {
            Some(i) => {
                assert(entries[i + 1] == entries.skip(1)[i]);
                assert forall|j: int| 0 <= j < i + 1 implies entries[j].0@ != key by {
                    if j > 0 {
                        assert(entries[j] == entries.skip(1)[j - 1]);
                    }
                }
            },
            None => {
                assert forall|j: int| 0 <= j < entries.len() implies entries[j].0@ != key by {
                    if j > 0 {
                        assert(entries[j] == entries.skip(1)[j - 1]);
                    }
                }
            },
        }
    }
}

pub proof fn lemma_find_key_is<V>(entries: Seq<(String, V)>, key: Seq<char>, i: int)
    requires
        0 <= i < entries.len(),
        entries[i].0@ == key,
        forall|j: int| 0 <= j < i ==> entries[j].0@ != key,
    ensures
        find_key(entries, key) == Some(i),
{
    lemma_find_key(entries, key);
    match find_key(entries, key) {
        Some(k) => {
            if k < i {
                assert(entries[k].0@ != key);
            }
            if i < k {
                assert(entries[i].0@ != key);
            }
        },
        None => {
            assert(entries[i].0@ != key);
        },
    }
}

/// The denoted map holds a key exactly when some entry holds it.
pub proof fn lemma_map_of_contains<V>(entries: Seq<(String, V)>, key: Seq<char>)
    ensures
        map_of(entries).contains_key(key) <==> exists|i: int|
            0 <= i < entries.len() && entries[i].0@ == key,
    decreases entries.len(),
{
    if entries.len() > 0 {
        lemma_map_of_contains(entries.drop_last(), key);
        if entries.last().0@ == key {
            assert(entries[entries.len() - 1].0@ == key);
        } else if map_of(entries).contains_key(key) {
            let i = choose|i: int|
                0 <= i < entries.len() - 1 && entries.drop_last()[i].0@ == key;
            assert(entries[i].0@ == key);
        } else {
            if exists|i: int| 0 <= i < entries.len() && entries[i].0@ == key {
                let i = choose|i: int| 0 <= i < entries.len() && entries[i].0@ == key;
                assert(i < entries.len() - 1);
                assert(entries.drop_last()[i].0@ == key);
            }
        }
    }
}

/// With distinct keys, the denoted map sends each entry's key to its value.
pub proof fn lemma_map_of_get<V>(entries: Seq<(String, V)>, i: int)
    requires
        distinct_keys(entries),
        0 <= i < entries.len(),
    ensures
        map_of(entries).contains_key(entries[i].0@),
        map_of(entries)[entries[i].0@] == entries[i].1,
    decreases entries.len(),
{
    if i == entries.len() - 1 {
    } else {
        lemma_map_of_get(entries.drop_last(), i);
        assert(entries.drop_last()[i] == entries[i]);
        assert(entries.last().0@ != entries[i].0@);
    }
}

/// A key no entry holds is not in the denoted map.
pub proof fn lemma_map_of_absent<V>(entries: Seq<(String, V)>, key: Seq<char>)
    requires
        forall|j: int| 0 <= j < entries.len() ==> entries[j].0@ != key,
    ensures
        !map_of(entries).contains_key(key),
{
    lemma_map_of_contains(entries, key);
}

/// Appending a fresh entry inserts its pair into the denoted map.
pub proof fn lemma_map_of_push<V>(entries: Seq<(String, V)>, name: String, value: V)
    ensures
        map_of(entries.push((name, value))) == map_of(entries).insert(name@, value),
{
    assert(entries.push((name, value)).drop_last() =~= entries);
}

/// Replacing the entry at a key's index updates the denoted map at that key,
/// provided the new entry keeps the key.
pub proof fn lemma_map_of_update<V>(entries: Seq<(String, V)>, i: int, name: String, value: V)
    requires
        distinct_keys(entries),
        0 <= i < entries.len(),
        name@ == entries[i].0@,
    ensures
        map_of(entries.update(i, (name, value))) =~= map_of(entries).insert(name@, value),
        distinct_keys(entries.update(i, (name, value))),
    decreases entries.len(),
{
    let updated = entries.update(i, (name, value));
    assert forall|a: int, b: int| 0 <= a < b < updated.len() implies updated[a].0@
        != updated[b].0@ by {
        assert(entries[a].0@ != entries[b].0@);
    }
    if i == entries.len() - 1 {
        assert(updated.drop_last() =~= entries.drop_last());
        assert(updated.last() == (name, value));
    } else {
        assert(updated.drop_last() =~= entries.drop_last().update(i, (name, value)));
        assert(updated.last() == entries.last());
        assert(distinct_keys(entries.drop_last())) by {
            assert(forall|a: int, b: int|
                0 <= a < b < entries.len() - 1 ==> entries.drop_last()[a].0@
                    != entries.drop_last()[b].0@);
        }
        lemma_map_of_update(entries.drop_last(), i, name, value);
        assert(entries.last().0@ != name@);
    }
}

/// Removing a key's entry removes that key from the denoted map.
pub proof fn lemma_map_of_remove<V>(entries: Seq<(String, V)>, i: int)
    requires
        distinct_keys(entries),
        0 <= i < entries.len(),
    ensures
        map_of(entries.remove(i)) =~= map_of(entries).remove(entries[i].0@),
        distinct_keys(entries.remove(i)),
    decreases entries.len(),
{
    let removed = entries.remove(i);
    assert forall|a: int, b: int| 0 <= a < b < removed.len() implies removed[a].0@
        != removed[b].0@ by {
        let oa = if a < i {
            a
        } else {
            a + 1
        };
        let ob = if b < i {
            b
        } else {
            b + 1
        };
        assert(removed[a] == entries[oa]);
        assert(removed[b] == entries[ob]);
    }
    if i == entries.len() - 1 {
        assert(removed =~= entries.drop_last());
        lemma_map_of_absent_last(entries);
    } else {
        assert(removed.drop_last() =~= entries.drop_last().remove(i));
        assert(removed.last() == entries.last());
        assert(distinct_keys(entries.drop_last())) by {
            assert(forall|a: int, b: int|
                0 <= a < b < entries.len() - 1 ==> entries.drop_last()[a].0@
                    != entries.drop_last()[b].0@);
        }
        lemma_map_of_remove(entries.drop_last(), i);
        assert(entries.last().0@ != entries[i].0@);
    }
}

/// With distinct keys, the last key is absent from the map of the rest.
proof fn lemma_map_of_absent_last<V>(entries: Seq<(String, V)>)
    requires
        distinct_keys(entries),
        entries.len() > 0,
    ensures
        !map_of(entries.drop_last()).contains_key(entries.last().0@),
{
    assert(forall|j: int|
        0 <= j < entries.len() - 1 ==> entries.drop_last()[j].0@ != entries.last().0@);
    lemma_map_of_absent(entries.drop_last(), entries.last().0@);
}


/// Inserting a fresh-keyed entry at any position inserts its pair into the
/// denoted map.
pub proof fn lemma_map_of_insert_at<V>(entries: Seq<(String, V)>, i: int, name: String, value: V)
    requires
        distinct_keys(entries),
        0 <= i <= entries.len(),
        forall|j: int| 0 <= j < entries.len() ==> entries[j].0@ != name@,
    ensures
        map_of(entries.insert(i, (name, value))) =~= map_of(entries).insert(name@, value),
        distinct_keys(entries.insert(i, (name, value))),
    decreases entries.len(),
{
    let inserted = entries.insert(i, (name, value));
    assert forall|a: int, b: int| 0 <= a < b < inserted.len() implies inserted[a].0@
        != inserted[b].0@ by {
        let oa = if a < i {
            a
        } else {
            a - 1
        };
        let ob = if b < i {
            b
        } else {
            b - 1
        };
        if a == i {
            assert(inserted[a] == (name, value));
            assert(inserted[b] == entries[ob]);
        } else if b == i {
            assert(inserted[b] == (name, value));
            assert(inserted[a] == entries[oa]);
        } else {
            assert(inserted[a] == entries[oa]);
            assert(inserted[b] == entries[ob]);
        }
    }
    if i == entries.len() {
        assert(inserted =~= entries.push((name, value)));
        lemma_map_of_push(entries, name, value);
    } else {
        assert(inserted.drop_last() =~= entries.drop_last().insert(i, (name, value)));
        assert(inserted.last() == entries.last());
        assert(distinct_keys(entries.drop_last())) by {
            assert(forall|a: int, b: int|
                0 <= a < b < entries.len() - 1 ==> entries.drop_last()[a].0@
                    != entries.drop_last()[b].0@);
        }
        assert(forall|j: int|
            0 <= j < entries.len() - 1 ==> entries.drop_last()[j].0@ != name@);
        lemma_map_of_insert_at(entries.drop_last(), i, name, value);
        assert(entries.last().0@ != name@);
    }
}

/// A name-keyed collection of values with unique keys.
#[derive(Debug, Clone, PartialEq)]
pub struct EntryMap<V> {
    entries: Vec<(String, V)>,
}

impl<V> EntryMap<V> {
    /// The entries, oldest first.
    pub closed spec fn entry_seq(self) -> Seq<(String, V)> {
        self.entries@
    }

    /// The map the entries denote.
    pub open spec fn as_map(self) -> Map<Seq<char>, V> {
        map_of(self.entry_seq())
    }

    /// Keys never repeat.
    pub open spec fn wf(self) -> bool {
        distinct_keys(self.entry_seq())
    }

    pub open spec fn spec_contains(self, key: Seq<char>) -> bool {
        self.as_map().contains_key(key)
    }

    pub fn new() -> (r: EntryMap<V>)
        ensures
            r.entry_seq() == Seq::<(String, V)>::empty(),
            r.wf(),
            r.as_map() == Map::<Seq<char>, V>::empty(),
    {
        EntryMap { entries: Vec::new() }
    }

    pub fn len(&self) -> (r: usize)
        ensures
            r == self.entry_seq().len(),
    {
        self.entries.len()
    }

    pub fn is_empty(&self) -> (r: bool)
        ensures
            r == (self.entry_seq().len() == 0),
    {
        self.entries.len() == 0
    }

    /// The entry at a position, for iteration.
    pub fn entry_at(&self, i: usize) -> (r: &(String, V))
        requires
            i < self.entry_seq().len(),
        ensures
            *r == self.entry_seq()[i as int],
    {
        &self.entries[i]
    }

    /// First position holding the key.
    pub fn find_index(&self, name: &str) -> (r: Option<usize>)
        ensures
            match r {
                Some(i) => find_key(self.entry_seq(), name@) == Some(i as int) && i
                    < self.entry_seq().len() && self.entry_seq()[i as int].0@ == name@,
                None => find_key(self.entry_seq(), name@) is None,
            },
{
        let ghost entries = self.entries@;
        let mut i: usize = 0;
        while i < self.entries.len()
            invariant
                i <= entries.len(),
                entries == self.entries@,
                forall|j: int| 0 <= j < i ==> entries[j].0@ != name@,
            decreases entries.len() - i,
        {
            if str_eq(self.entries[i].0.as_str(), name) {
                proof {
                    lemma_find_key_is(entries, name@, i as int);
                }
                return Some(i);
            }
            i = i + 1;
        }
        proof {
            lemma_find_key(entries, name@);
            if let Some(k) = find_key(entries, name@) {
                assert(entries[k].0@ != name@);
            }
        }
        None
    }

    pub fn contains_key(&self, name: &str) -> (r: bool)
        ensures
            r == self.spec_contains(name@),
    {
        proof {
            lemma_map_of_contains(self.entry_seq(), name@);
            lemma_find_key(self.entry_seq(), name@);
        }
        self.find_index(name).is_some()
    }

    pub fn get(&self, name: &str) -> (r: Option<&V>)
        requires
            self.wf(),
        ensures
            match r {
                Some(v) => self.spec_contains(name@) && *v == self.as_map()[name@],
                None => !self.spec_contains(name@),
            },
    {
        proof {
            lemma_map_of_contains(self.entry_seq(), name@);
            lemma_find_key(self.entry_seq(), name@);
        }
        match self.find_index(name) {
            None => None,
            Some(i) => {
                proof {
                    lemma_map_of_get(self.entry_seq(), i as int);
                }
                Some(&self.entries[i].1)
            },
        }
    }

    /// Inserts or replaces: an existing key keeps its position, a fresh key
    /// goes to the end.
    pub fn insert(&mut self, name: String, value: V)
        requires
            old(self).wf(),
        ensures
            final(self).wf(),
            final(self).as_map() == old(self).as_map().insert(name@, value),
            match find_key(old(self).entry_seq(), name@) {
                Some(i) => final(self).entry_seq() == old(self).entry_seq().update(
                    i,
                    (name, value),
                ),
                None => final(self).entry_seq() == old(self).entry_seq().push((name, value)),
            },
    {
        match self.find_index(name.as_str()) {
            Some(i) => {
                proof {
                    lemma_map_of_update(self.entry_seq(), i as int, name, value);
                }
                self.entries.set(i, (name, value));
            },
            None => {
                proof {
                    lemma_find_key(self.entry_seq(), name@);
                    lemma_map_of_push(self.entry_seq(), name, value);
                    assert(distinct_keys(self.entry_seq().push((name, value))));
                }
                self.entries.push((name, value));
            },
        }
    }

    /// Removes the key's entry, handing its value back.
    pub fn remove(&mut self, name: &str) -> (r: Option<V>)
        requires
            old(self).wf(),
        ensures
            final(self).wf(),
            final(self).as_map() == old(self).as_map().remove(name@),
            match find_key(old(self).entry_seq(), name@) {
                Some(i) => r == Some(old(self).entry_seq()[i].1) && final(self).entry_seq()
                    == old(self).entry_seq().remove(i),
                None => r is None && final(self).entry_seq() == old(self).entry_seq(),
            },
    {
        match self.find_index(name) {
            Some(i) => {
                proof {
                    lemma_map_of_remove(self.entry_seq(), i as int);
                }
                let (_, value) = self.entries.remove(i);
                Some(value)
            },
            None => {
                proof {
                    lemma_find_key(self.entry_seq(), name@);
                    lemma_map_of_absent(self.entry_seq(), name@);
                    assert(self.as_map() =~= self.as_map().remove(name@));
                }
                None
            },
        }
    }


    /// Takes the entry at a position out, closing the gap.
    pub fn remove_at(&mut self, i: usize) -> (r: (String, V))
        requires
            old(self).wf(),
            i < old(self).entry_seq().len(),
        ensures
            final(self).wf(),
            r == old(self).entry_seq()[i as int],
            final(self).entry_seq() == old(self).entry_seq().remove(i as int),
            final(self).as_map() == old(self).as_map().remove(
                old(self).entry_seq()[i as int].0@,
            ),
    {
        proof {
            lemma_map_of_remove(self.entry_seq(), i as int);
        }
        self.entries.remove(i)
    }

    /// Puts a fresh-keyed entry in at a position, shifting the rest.
    pub fn insert_at(&mut self, i: usize, name: String, value: V)
        requires
            old(self).wf(),
            i <= old(self).entry_seq().len(),
            !old(self).spec_contains(name@),
        ensures
            final(self).wf(),
            final(self).entry_seq() == old(self).entry_seq().insert(i as int, (name, value)),
            final(self).as_map() == old(self).as_map().insert(name@, value),
    {
        proof {
            lemma_map_of_contains(self.entry_seq(), name@);
            lemma_map_of_insert_at(self.entry_seq(), i as int, name, value);
        }
        self.entries.insert(i, (name, value));
    }

    /// Replaces the value at a position, keeping its key.
    pub fn set_value_at(&mut self, i: usize, value: V)
        requires
            old(self).wf(),
            i < old(self).entry_seq().len(),
        ensures
            final(self).wf(),
            final(self).entry_seq() == old(self).entry_seq().update(
                i as int,
                (old(self).entry_seq()[i as int].0, value),
            ),
            final(self).as_map() == old(self).as_map().insert(
                old(self).entry_seq()[i as int].0@,
                value,
            ),
    {
        let name = self.entries[i].0.clone();
        proof {
            lemma_map_of_update(self.entry_seq(), i as int, name, value);
        }
        self.entries.set(i, (name, value));
    }
}

} // verus!
