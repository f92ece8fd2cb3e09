//! A map from strings to values, kept in the order of its keys.

use vstd::prelude::*;

use crate::text::{comes_before, same};

verus! {

/// A map with string keys, walked in ascending order of its keys.
#[derive(Debug)]
pub struct SortedMap<V> {
    entries: Vec<(String, V)>,
}

/// Whether the keys of entries ascend strictly.
pub open spec fn ascending_keys<V>(entries: Seq<(String, V)>) -> bool {
    forall|i: int, j: int|
        0 <= i < j < entries.len() ==> crate::text::less(
            #[trigger] entries[i].0@,
            #[trigger] entries[j].0@,
        )
}

/// Whether texts are the members of a set, in ascending order.
pub open spec fn are_sorted_keys(keys: Seq<Seq<char>>, set: Set<Seq<char>>) -> bool {
    &&& forall|i: int, j: int|
        0 <= i < j < keys.len() ==> crate::text::less(#[trigger] keys[i], #[trigger] keys[j])
    &&& forall|k: Seq<char>| #[trigger] set.contains(k) <==> keys.contains(k)
}

/// Ascending keys are distinct.
pub proof fn ascending_is_distinct<V>(entries: Seq<(String, V)>)
    requires
        ascending_keys(entries),
    ensures
        crate::string_map::distinct_keys(entries),
{
    assert forall|i: int, j: int| 0 <= i < j < entries.len() implies #[trigger] entries[i].0@
        != #[trigger] entries[j].0@ by {
        crate::text::less_irreflexive(entries[i].0@);
    }
}

/// There is one way to list a map in ascending order of its keys.
pub proof fn ascending_lists_are_determined<V>(a: Seq<(String, V)>, b: Seq<(String, V)>)
    requires
        ascending_keys(a),
        ascending_keys(b),
        crate::string_map::entries_map(a) == crate::string_map::entries_map(b),
    ensures
        a.len() == b.len(),
        forall|i: int|
            0 <= i < a.len() ==> (#[trigger] a[i]).0@ == b[i].0@ && a[i].1 == b[i].1,
{
    let before = |x: (String, V), y: (String, V)| crate::text::less(x.0@, y.0@);
    let alike = |x: (String, V), y: (String, V)| x.0@ == y.0@ && x.1 == y.1;
    ascending_is_distinct(a);
    ascending_is_distinct(b);
    assert forall|x: (String, V)| !#[trigger] before(x, x) by {
        crate::text::less_irreflexive(x.0@);
    }
    assert forall|x: (String, V), y: (String, V), z: (String, V)| #[trigger]
        before(x, y) && #[trigger] before(y, z) implies before(x, z) by {
        crate::text::less_transitive(x.0@, y.0@, z.0@);
    }
    assert forall|i: int, j: int| 0 <= i < j < a.len() implies before(
        #[trigger] a[i],
        #[trigger] a[j],
    ) by {
        assert(crate::text::less(a[i].0@, a[j].0@));
    }
    assert forall|i: int, j: int| 0 <= i < j < b.len() implies before(
        #[trigger] b[i],
        #[trigger] b[j],
    ) by {
        assert(crate::text::less(b[i].0@, b[j].0@));
    }
    assert forall|i: int| 0 <= i < a.len() implies #[trigger] crate::rearranging::has_like(
        b,
        a[i],
        alike,
    ) by {
        crate::string_map::lookup_at(a, i);
        crate::string_map::key_has_entry(b, a[i].0@);
        let j = choose|j: int| 0 <= j < b.len() && #[trigger] b[j].0@ == a[i].0@;
        crate::string_map::lookup_at(b, j);
        assert(alike(a[i], b[j]));
    }
    assert forall|j: int| 0 <= j < b.len() implies #[trigger] crate::rearranging::is_like_one(
        a,
        b[j],
        alike,
    ) by {
        crate::string_map::lookup_at(b, j);
        crate::string_map::key_has_entry(a, b[j].0@);
        let i = choose|i: int| 0 <= i < a.len() && #[trigger] a[i].0@ == b[j].0@;
        crate::string_map::lookup_at(a, i);
        assert(alike(a[i], b[j]));
    }
    crate::rearranging::ascending_lists_are_alike(a, b, before, alike);
    assert forall|i: int| 0 <= i < a.len() implies (#[trigger] a[i]).0@ == b[i].0@ && a[i].1
        == b[i].1 by {
        assert(alike(a[i], b[i]));
    }
}

proof fn map_of_insert<V>(entries: Seq<(String, V)>, at: int, e: (String, V))
    requires
        0 <= at <= entries.len(),
        crate::string_map::distinct_keys(entries.insert(at, e)),
    ensures
        crate::string_map::entries_map(entries.insert(at, e))
            == crate::string_map::entries_map(entries).insert(e.0@, e.1),
    decreases entries.len(),
{
    let after = entries.insert(at, e);
    if at == entries.len() {
        assert(after.drop_last() =~= entries);
    } else {
        assert(after.drop_last() =~= entries.drop_last().insert(at, e));
        assert(after.last() == entries.last());
        assert forall|i: int, j: int| 0 <= i < j < after.drop_last().len() implies
            #[trigger] after.drop_last()[i].0@ != #[trigger] after.drop_last()[j].0@ by {
            assert(after[i].0@ != after[j].0@);
        }
        map_of_insert(entries.drop_last(), at, e);
        assert(after[at] == e);
        assert(after[at].0@ != after[after.len() - 1].0@);
        assert(crate::string_map::entries_map(after) =~= crate::string_map::entries_map(
            entries,
        ).insert(e.0@, e.1));
    }
}

impl<V> View for SortedMap<V> {
    type V = Map<Seq<char>, V>;

    closed spec fn view(&self) -> Map<Seq<char>, V> {
        crate::string_map::entries_map(self.entries@)
    }
}

impl<V> SortedMap<V> {
    #[verifier::type_invariant]
    spec fn wf(self) -> bool {
        ascending_keys(self.entries@)
    }

    /// The keys with their values, in ascending order of the keys.
    pub closed spec fn list(self) -> Seq<(String, V)> {
        self.entries@
    }

    /// The entries of the map stand for it.
    pub proof fn list_is_the_map(self)
        ensures
            self@ == crate::string_map::entries_map(self.list()),
    {
    }

    /// An empty map.
    pub fn new() -> (r: Self)
        ensures
            r@ == Map::<Seq<char>, V>::empty(),
            r.list().len() == 0,
    {
        SortedMap { entries: Vec::new() }
    }

    /// The number of keys that come before the given one.
    fn rank(&self, key: &str) -> (r: usize)
        ensures
            r <= self.entries@.len(),
            forall|i: int| 0 <= i < r ==> crate::text::less(#[trigger] self.entries@[i].0@, key@),
            r < self.entries@.len() ==> !crate::text::less(self.entries@[r as int].0@, key@),
    {
        let mut i: usize = 0;
        while i < self.entries.len() && comes_before(self.entries[i].0.as_str(), key)
            invariant
                i <= self.entries.len(),
                forall|j: int|
                    0 <= j < i ==> crate::text::less(#[trigger] self.entries@[j].0@, key@),
            decreases self.entries.len() - i,
        {
            i += 1;
        }
        i
    }

    proof fn absent_from_rank(self, key: Seq<char>, r: int)
        requires
            ascending_keys(self.entries@),
            0 <= r <= self.entries@.len(),
            forall|i: int| 0 <= i < r ==> crate::text::less(#[trigger] self.entries@[i].0@, key),
            r < self.entries@.len() ==> crate::text::less(key, self.entries@[r].0@),
        ensures
            !self@.dom().contains(key),
            forall|i: int|
                r <= i < self.entries@.len() ==> crate::text::less(
                    key,
                    #[trigger] self.entries@[i].0@,
                ),
    {
        assert forall|i: int| r <= i < self.entries@.len() implies crate::text::less(
            key,
            #[trigger] self.entries@[i].0@,
        ) by {
            if r < i {
                crate::text::less_transitive(key, self.entries@[r].0@, self.entries@[i].0@);
            }
        }
        assert forall|i: int| 0 <= i < self.entries@.len() implies #[trigger] self.entries@[i].0@
            != key by {
            crate::text::less_irreflexive(key);
            if i < r {
                assert(crate::text::less(self.entries@[i].0@, key));
            } else {
                assert(crate::text::less(key, self.entries@[i].0@));
            }
        }
        crate::string_map::lookup_absent(self.entries@, key);
    }

    /// The value of a key.
    pub fn get(&self, key: &str) -> (r: Option<&V>)
        ensures
            match r {
                Some(v) => self@.dom().contains(key@) && *v == self@[key@],
                None => !self@.dom().contains(key@),
            },
    {
        proof {
            use_type_invariant(self);
            ascending_is_distinct(self.entries@);
        }
        let i: usize = self.rank(key);
        if i < self.entries.len() && same(self.entries[i].0.as_str(), key) {
            proof {
                crate::string_map::lookup_at(self.entries@, i as int);
            }
            Some(&self.entries[i].1)
        } else {
            proof {
                if i < self.entries@.len() {
                    crate::text::less_total(self.entries@[i as int].0@, key@);
                }
                self.absent_from_rank(key@, i as int);
            }
            None
        }
    }

    /// Whether the map has a key.
    pub fn contains_key(&self, key: &str) -> (r: bool)
        ensures
            r == self@.dom().contains(key@),
    {
        self.get(key).is_some()
    }

    /// Removes a key and returns its value.
    pub fn remove(&mut self, key: &str) -> (r: Option<V>)
        ensures
            final(self)@ == old(self)@.remove(key@),
            match r {
                Some(v) => old(self)@.dom().contains(key@) && v == old(self)@[key@],
                None => !old(self)@.dom().contains(key@),
            },
    {
        proof {
            use_type_invariant(&*self);
            ascending_is_distinct(self.entries@);
        }
        let i: usize = self.rank(key);
        let found: bool = i < self.entries.len() && same(self.entries[i].0.as_str(), key);
        let ghost before = self.entries@;
        proof {
            if found {
                crate::string_map::lookup_at(before, i as int);
                crate::string_map::lookup_remove(before, i as int);
            } else {
                if i < before.len() {
                    crate::text::less_total(before[i as int].0@, key@);
                }
                self.absent_from_rank(key@, i as int);
                assert(self@.remove(key@) =~= self@);
            }
        }
        if found {
            let mut entries: Vec<(String, V)> = Vec::new();
            std::mem::swap(&mut entries, &mut self.entries);
            let removed = entries.remove(i);
            assert(ascending_keys(entries@)) by {
                assert forall|a: int, b: int| 0 <= a < b < entries@.len() implies crate::text::less(
                    #[trigger] entries@[a].0@,
                    #[trigger] entries@[b].0@,
                ) by {
                    let a2 = if a < i { a } else { a + 1 };
                    let b2 = if b < i { b } else { b + 1 };
                    assert(entries@[a] == before[a2]);
                    assert(entries@[b] == before[b2]);
                }
            }
            self.entries = entries;
            Some(removed.1)
        } else {
            None
        }
    }

    /// Sets the value of a key.
    pub fn insert(&mut self, key: String, value: V)
        ensures
            final(self)@ == old(self)@.insert(key@, value),
    {
        let ghost start = self@;
        let _ = self.remove(key.as_str());
        proof {
            use_type_invariant(&*self);
            ascending_is_distinct(self.entries@);
        }
        let i: usize = self.rank(key.as_str());
        let ghost before = self.entries@;
        proof {
            if i < before.len() {
                crate::text::less_total(before[i as int].0@, key@);
                if before[i as int].0@ == key@ {
                    crate::string_map::lookup_at(before, i as int);
                }
            }
            self.absent_from_rank(key@, i as int);
        }
        let ghost middle = self@;
        let mut entries: Vec<(String, V)> = Vec::new();
        std::mem::swap(&mut entries, &mut self.entries);
        let ghost e = (key, value);
        entries.insert(i, (key, value));
        assert(ascending_keys(entries@)) by {
            assert forall|a: int, b: int| 0 <= a < b < entries@.len() implies crate::text::less(
                #[trigger] entries@[a].0@,
                #[trigger] entries@[b].0@,
            ) by {
                if a < i {
                    assert(entries@[a] == before[a]);
                } else if a > i {
                    assert(entries@[a] == before[a - 1]);
                }
                if b < i {
                    assert(entries@[b] == before[b]);
                } else if b > i {
                    assert(entries@[b] == before[b - 1]);
                }
            }
        }
        proof {
            ascending_is_distinct(entries@);
            map_of_insert(before, i as int, e);
            assert(start.remove(key@).insert(key@, value) =~= start.insert(key@, value));
        }
        self.entries = entries;
    }

    /// The keys, in ascending order.
    pub fn keys(&self) -> (r: Vec<String>)
        ensures
            are_sorted_keys(crate::text::texts(r@), self@.dom()),
    {
        proof {
            use_type_invariant(self);
            ascending_is_distinct(self.entries@);
        }
        let mut out: Vec<String> = Vec::new();
        let mut i: usize = 0;
        while i < self.entries.len()
            invariant
                i <= self.entries.len(),
                out@.len() == i,
                forall|j: int| 0 <= j < i ==> (#[trigger] out@[j])@ == self.entries@[j].0@,
            decreases self.entries.len() - i,
        {
            out.push(self.entries[i].0.clone());
            i += 1;
        }
        proof {
            let keys = crate::text::texts(out@);
            assert forall|k: Seq<char>| #[trigger] self@.dom().contains(k) <==> keys.contains(
                k,
            ) by {
                if self@.dom().contains(k) {
                    crate::string_map::key_has_entry(self.entries@, k);
                    let i = choose|i: int|
                        0 <= i < self.entries@.len() && #[trigger] self.entries@[i].0@ == k;
                    assert(keys[i] == k);
                }
                if keys.contains(k) {
                    let i = keys.index_of(k);
                    crate::string_map::lookup_at(self.entries@, i);
                }
            }
            assert forall|i: int, j: int| 0 <= i < j < keys.len() implies crate::text::less(
                #[trigger] keys[i],
                #[trigger] keys[j],
            ) by {
                assert(crate::text::less(self.entries@[i].0@, self.entries@[j].0@));
            }
        }
        out
    }

    /// The number of keys.
    pub fn len(&self) -> (r: usize)
        ensures
            r == self.list().len(),
            ascending_keys(self.list()),
            self@ == crate::string_map::entries_map(self.list()),
    {
        proof {
            use_type_invariant(self);
        }
        self.entries.len()
    }

    /// The entry at a position.
    pub fn entry(&self, i: usize) -> (r: (&String, &V))
        requires
            i < self.list().len(),
        ensures
            *r.0 == self.list()[i as int].0,
            *r.1 == self.list()[i as int].1,
            self@.dom().contains(r.0@),
            self@[r.0@] == *r.1,
    {
        proof {
            use_type_invariant(self);
            ascending_is_distinct(self.entries@);
            crate::string_map::lookup_at(self.entries@, i as int);
        }
        (&self.entries[i].0, &self.entries[i].1)
    }

    /// The values, in ascending order of their keys.
    pub fn into_values(self) -> (r: Vec<V>)
        ensures
            r@ == Seq::new(self.list().len(), |i: int| self.list()[i].1),
            ascending_keys(self.list()),
            self@ == crate::string_map::entries_map(self.list()),
    {
        proof {
            use_type_invariant(&self);
        }
        let mut entries = self.entries;
        let ghost all = entries@;
        let mut out: Vec<V> = Vec::new();
        while entries.len() > 0
            invariant
                out@.len() + entries@.len() == all.len(),
                entries@ == all.skip(out@.len() as int),
                forall|i: int| 0 <= i < out@.len() ==> out@[i] == all[i].1,
            decreases entries.len(),
        {
            let e = entries.remove(0);
            assert(e == all[out@.len() as int]);
            out.push(e.1);
        }
        out
    }
}

} // verus!
