//! A map from strings to values, kept in insertion order.

use vstd::prelude::*;

use crate::text::same;

verus! {

/// A map with string keys. A key occurs once; a key keeps its place when its value is replaced.
#[derive(Debug)]
pub struct StringMap<V> {
    entries: Vec<(String, V)>,
}

/// The map that entries stand for.
pub open spec fn entries_map<V>(entries: Seq<(String, V)>) -> Map<Seq<char>, V>
    decreases entries.len(),
{
    if entries.len() == 0 {
        Map::empty()
    } else {
        entries_map(entries.drop_last()).insert(entries.last().0@, entries.last().1)
    }
}

/// Whether no two entries have the same key.
pub open spec fn distinct_keys<V>(entries: Seq<(String, V)>) -> bool {
    forall|i: int, j: int|
        0 <= i < j < entries.len() ==> #[trigger] entries[i].0@ != #[trigger] entries[j].0@
}

/// Whether an entry has a key.
pub open spec fn has_key<V>(entries: Seq<(String, V)>, key: Seq<char>) -> bool {
    exists|i: int| 0 <= i < entries.len() && #[trigger] entries[i].0@ == key
}

/// Entries with the value of a key set: the key keeps its place, and a new one comes last.
pub open spec fn with_entry<V>(entries: Seq<(String, V)>, key: String, value: V) -> Seq<
    (String, V),
> {
    if has_key(entries, key@) {
        Seq::new(
            entries.len(),
            |i: int|
                if entries[i].0@ == key@ {
                    (entries[i].0, value)
                } else {
                    entries[i]
                },
        )
    } else {
        entries.push((key, value))
    }
}

/// Whether entries are others without the one of a key; the rest keep their order.
pub open spec fn is_without<V>(
    after: Seq<(String, V)>,
    before: Seq<(String, V)>,
    key: Seq<char>,
) -> bool {
    if has_key(before, key) {
        exists|i: int|
            0 <= i < before.len() && #[trigger] before[i].0@ == key && after == before.remove(i)
    } else {
        after == before
    }
}

proof fn fewer_are_distinct<V>(entries: Seq<(String, V)>, i: int)
    requires
        distinct_keys(entries),
        0 <= i < entries.len(),
    ensures
        distinct_keys(entries.remove(i)),
        distinct_keys(entries.drop_last()),
{
    let e = entries.remove(i);
    assert forall|a: int, b: int| 0 <= a < b < e.len() implies #[trigger] e[a].0@
        != #[trigger] e[b].0@ by {
        let a2 = if a < i { a } else { a + 1 };
        let b2 = if b < i { b } else { b + 1 };
        assert(entries[a2].0@ != entries[b2].0@);
        assert(e[a] == entries[a2]);
        assert(e[b] == entries[b2]);
    }
    let front = entries.drop_last();
    assert forall|a: int, b: int| 0 <= a < b < front.len() implies #[trigger] front[a].0@
        != #[trigger] front[b].0@ by {
        assert(entries[a].0@ != entries[b].0@);
    }
}

/// An entry is found under its key.
pub proof fn lookup_at<V>(entries: Seq<(String, V)>, i: int)
    requires
        distinct_keys(entries),
        0 <= i < entries.len(),
    ensures
        entries_map(entries).dom().contains(entries[i].0@),
        entries_map(entries)[entries[i].0@] == entries[i].1,
    decreases entries.len(),
{
    if i < entries.len() - 1 {
        assert(entries.drop_last()[i] == entries[i]);
        assert(entries[i].0@ != entries[entries.len() - 1].0@);
        fewer_are_distinct(entries, i);
        lookup_at(entries.drop_last(), i);
    }
}

/// A key that no entry has is not in the map.
pub proof fn lookup_absent<V>(entries: Seq<(String, V)>, key: Seq<char>)
    requires
        forall|i: int| 0 <= i < entries.len() ==> #[trigger] entries[i].0@ != key,
    ensures
        !entries_map(entries).dom().contains(key),
    decreases entries.len(),
{
    if entries.len() > 0 {
        assert forall|i: int| 0 <= i < entries.drop_last().len() implies
            #[trigger] entries.drop_last()[i].0@ != key by {
            assert(entries[i].0@ != key);
        }
        assert(entries[entries.len() - 1].0@ != key);
        lookup_absent(entries.drop_last(), key);
    }
}

proof fn lookup_update<V>(entries: Seq<(String, V)>, i: int, value: V)
    requires
        distinct_keys(entries),
        0 <= i < entries.len(),
    ensures
        entries_map(entries.update(i, (entries[i].0, value))) == entries_map(entries).insert(
            entries[i].0@,
            value,
        ),
    decreases entries.len(),
{
    let e = entries.update(i, (entries[i].0, value));
    if i == entries.len() - 1 {
        assert(e.drop_last() =~= entries.drop_last());
        assert(entries_map(e) =~= entries_map(entries).insert(entries[i].0@, value));
    } else {
        fewer_are_distinct(entries, i);
        lookup_update(entries.drop_last(), i, value);
        assert(entries.drop_last()[i] == entries[i]);
        assert(e.drop_last() =~= entries.drop_last().update(i, (entries[i].0, value)));
        assert(entries[i].0@ != entries[entries.len() - 1].0@);
        assert(entries_map(e) =~= entries_map(entries).insert(entries[i].0@, value));
    }
}

/// Removing an entry removes its key from the map.
pub proof fn lookup_remove<V>(entries: Seq<(String, V)>, i: int)
    requires
        distinct_keys(entries),
        0 <= i < entries.len(),
    ensures
        entries_map(entries.remove(i)) == entries_map(entries).remove(entries[i].0@),
    decreases entries.len(),
{
    let e = entries.remove(i);
    if i == entries.len() - 1 {
        assert(e =~= entries.drop_last());
        assert forall|j: int| 0 <= j < e.len() implies #[trigger] e[j].0@ != entries[i].0@ by {
            assert(e[j] == entries[j]);
        }
        lookup_absent(e, entries[i].0@);
        assert(entries_map(e) =~= entries_map(entries).remove(entries[i].0@));
    } else {
        fewer_are_distinct(entries, i);
        lookup_remove(entries.drop_last(), i);
        assert(entries.drop_last()[i] == entries[i]);
        assert(e.drop_last() =~= entries.drop_last().remove(i));
        assert(e.last() == entries.last());
        assert(entries[i].0@ != entries[entries.len() - 1].0@);
        assert(entries_map(e) =~= entries_map(entries).remove(entries[i].0@));
    }
}

/// A key of the map is the key of an entry.
pub proof fn key_has_entry<V>(entries: Seq<(String, V)>, key: Seq<char>)
    requires
        entries_map(entries).dom().contains(key),
    ensures
        exists|i: int| 0 <= i < entries.len() && #[trigger] entries[i].0@ == key,
{
    if forall|i: int| 0 <= i < entries.len() ==> #[trigger] entries[i].0@ != key {
        lookup_absent(entries, key);
    }
}

/// The keys of the map are finite in number, and no more than there are entries.
pub proof fn keys_are_finite<V>(entries: Seq<(String, V)>)
    ensures
        entries_map(entries).dom().finite(),
        entries_map(entries).dom().len() <= entries.len(),
    decreases entries.len(),
{
    if entries.len() > 0 {
        keys_are_finite(entries.drop_last());
    }
}

impl<V> View for StringMap<V> {
    type V = Map<Seq<char>, V>;

    closed spec fn view(&self) -> Map<Seq<char>, V> {
        entries_map(self.entries@)
    }
}

impl<V> StringMap<V> {
    #[verifier::type_invariant]
    spec fn wf(self) -> bool {
        distinct_keys(self.entries@)
    }

    /// The keys with their values, in insertion order.
    pub closed spec fn list(self) -> Seq<(String, V)> {
        self.entries@
    }

    /// The entries of the map stand for it.
    pub proof fn list_is_the_map(self)
        ensures
            self@ == entries_map(self.list()),
    {
    }

    /// An empty map.
    pub fn new() -> (r: Self)
        ensures
            r@ == Map::<Seq<char>, V>::empty(),
            r.list().len() == 0,
    {
        StringMap { entries: Vec::new() }
    }

    fn position(&self, key: &str) -> (r: Option<usize>)
        ensures
            match r {
                Some(i) => i < self.entries@.len() && self.entries@[i as int].0@ == key@,
                None => !self@.dom().contains(key@) && forall|i: int|
                    0 <= i < self.entries@.len() ==> #[trigger] self.entries@[i].0@ != key@,
            },
    {
        let mut i: usize = 0;
        while i < self.entries.len()
            invariant
                i <= self.entries.len(),
                forall|j: int| 0 <= j < i ==> #[trigger] self.entries@[j].0@ != key@,
            decreases self.entries.len() - i,
        {
            if same(self.entries[i].0.as_str(), key) {
                return Some(i);
            }
            i += 1;
        }
        proof {
            lookup_absent(self.entries@, key@);
        }
        None
    }

    /// The value of a key.
    pub fn get(&self, key: &str) -> (r: Option<&V>)
        ensures
            match r {
                Some(v) => self@.dom().contains(key@) && *v == self@[key@],
                None => !self@.dom().contains(key@),
            },
    {
        proof {
            use_type_invariant(self);
        }
        match self.position(key) {
            Some(i) => {
                proof {
                    lookup_at(self.entries@, i as int);
                }
                Some(&self.entries[i].1)
            },
            None => None,
        }
    }

    /// Whether the map has a key.
    pub fn contains_key(&self, key: &str) -> (r: bool)
        ensures
            r == self@.dom().contains(key@),
    {
        self.get(key).is_some()
    }

    /// Sets the value of a key.
    pub fn insert(&mut self, key: String, value: V)
        ensures
            final(self)@ == old(self)@.insert(key@, value),
            final(self).list() == with_entry(old(self).list(), key, value),
    {
        proof {
            use_type_invariant(&*self);
        }
        let at = self.position(key.as_str());
        let mut entries: Vec<(String, V)> = Vec::new();
        std::mem::swap(&mut entries, &mut self.entries);
        let ghost before = entries@;
        match at {
            Some(i) => {
                proof {
                    lookup_update(before, i as int, value);
                }
                let removed = entries.remove(i);
                entries.insert(i, (removed.0, value));
                assert(entries@ =~= before.update(i as int, (before[i as int].0, value)));
                assert(entries@ =~= with_entry(before, key, value));
            },
            None => {
                entries.push((key, value));
                assert(entries@.drop_last() =~= before);
            },
        }
        self.entries = entries;
    }

    /// Removes a key and returns its value.
    pub fn remove(&mut self, key: &str) -> (r: Option<V>)
        ensures
            final(self)@ == old(self)@.remove(key@),
            match r {
                Some(v) => old(self)@.dom().contains(key@) && v == old(self)@[key@],
                None => !old(self)@.dom().contains(key@),
            },
            is_without(final(self).list(), old(self).list(), key@),
    {
        proof {
            use_type_invariant(&*self);
        }
        let at = self.position(key);
        let mut entries: Vec<(String, V)> = Vec::new();
        std::mem::swap(&mut entries, &mut self.entries);
        let ghost before = entries@;
        let r = match at {
            Some(i) => {
                proof {
                    lookup_remove(before, i as int);
                    lookup_at(before, i as int);
                    fewer_are_distinct(before, i as int);
                }
                let removed = entries.remove(i);
                Some(removed.1)
            },
            None => {
                assert(entries_map(before).remove(key@) =~= entries_map(before));
                None
            },
        };
        self.entries = entries;
        r
    }

    /// Whether the map has no keys.
    pub fn is_empty(&self) -> (r: bool)
        ensures
            r == (self@ == Map::<Seq<char>, V>::empty()),
    {
        proof {
            use_type_invariant(self);
            if self.entries@.len() > 0 {
                lookup_at(self.entries@, 0);
            }
        }
        self.entries.len() == 0
    }

    /// The number of keys.
    pub fn len(&self) -> (r: usize)
        ensures
            r == self.list().len(),
            distinct_keys(self.list()),
            self@ == entries_map(self.list()),
    {
        proof {
            use_type_invariant(self);
        }
        self.entries.len()
    }

    /// The entry at a position.
    pub fn entry(&self, i: usize) -> (r: (&String, &V))
        requires
            i < self.list().len(),
        ensures
            *r.0 == self.list()[i as int].0,
            *r.1 == self.list()[i as int].1,
            self@.dom().contains(r.0@),
            self@[r.0@] == *r.1,
    {
        proof {
            use_type_invariant(self);
            lookup_at(self.entries@, i as int);
        }
        (&self.entries[i].0, &self.entries[i].1)
    }
}

} // verus!
