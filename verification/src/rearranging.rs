//! Lists that hold the same things in another order.

use vstd::prelude::*;

verus! {

/// Whether a list names each of the numbers below a bound once.
pub open spec fn is_rearrangement(places: Seq<int>, n: nat) -> bool {
    &&& places.len() == n
    &&& places.no_duplicates()
    &&& forall|i: int| 0 <= i < n ==> 0 <= #[trigger] places[i] < n
}

/// Whether a list is another one in a given order, up to what counts as alike.
pub open spec fn is_placed<T>(
    a: Seq<T>,
    b: Seq<T>,
    alike: spec_fn(T, T) -> bool,
    places: Seq<int>,
) -> bool {
    &&& is_rearrangement(places, a.len())
    &&& b.len() == a.len()
    &&& forall|i: int| 0 <= i < b.len() ==> alike(a[places[i]], #[trigger] b[i])
}

/// Whether a list is another one in some order, up to what counts as alike.
pub open spec fn is_rearranged<T>(
    a: Seq<T>,
    b: Seq<T>,
    alike: spec_fn(T, T) -> bool,
) -> bool {
    exists|places: Seq<int>| is_placed(a, b, alike, places)
}

/// A rearrangement names every number below its bound.
pub proof fn every_place_is_taken(places: Seq<int>, n: nat, k: int)
    requires
        is_rearrangement(places, n),
        0 <= k < n,
    ensures
        places.contains(k),
{
    let taken = places.to_set();
    let all = vstd::set_lib::set_int_range(0, n as int);
    places.unique_seq_to_set();
    vstd::set_lib::lemma_int_range(0, n as int);
    vstd::seq_lib::seq_to_set_is_finite(places);
    assert(taken.subset_of(all)) by {
        assert forall|x: int| taken.contains(x) implies all.contains(x) by {
            let i = places.index_of(x);
            assert(places[i] == x);
        }
    }
    vstd::set_lib::lemma_subset_equality(taken, all);
    assert(all.contains(k));
}

/// What is a list in another order has that list as itself in another order.
pub proof fn rearranging_is_symmetric<T>(a: Seq<T>, b: Seq<T>, alike: spec_fn(T, T) -> bool)
    requires
        is_rearranged(a, b, alike),
        forall|x: T, y: T| #[trigger] alike(x, y) ==> alike(y, x),
    ensures
        is_rearranged(b, a, alike),
{
    let places = choose|places: Seq<int>| is_placed(a, b, alike, places);
    let n = a.len();
    let back = Seq::new(n, |k: int| places.index_of(k));
    assert forall|k: int| 0 <= k < n implies 0 <= #[trigger] back[k] < n && places[back[k]] == k by {
        every_place_is_taken(places, n, k);
    }
    assert(back.no_duplicates()) by {
        assert forall|i: int, j: int| 0 <= i < n && 0 <= j < n && i != j implies back[i]
            != back[j] by {
            assert(places[back[i]] == i);
            assert(places[back[j]] == j);
        }
    }
    assert forall|k: int| 0 <= k < n implies alike(b[back[k]], #[trigger] a[k]) by {
        assert(places[back[k]] == k);
        assert(alike(a[places[back[k]]], b[back[k]]));
    }
    assert(is_placed(b, a, alike, back));
}

/// Whether a list holds something that a thing is alike to.
pub open spec fn has_like<T>(list: Seq<T>, x: T, alike: spec_fn(T, T) -> bool) -> bool {
    exists|j: int| 0 <= j < list.len() && alike(x, #[trigger] list[j])
}

/// Whether a list holds something that is alike to a thing.
pub open spec fn is_like_one<T>(list: Seq<T>, y: T, alike: spec_fn(T, T) -> bool) -> bool {
    exists|i: int| 0 <= i < list.len() && alike(#[trigger] list[i], y)
}

/// Everything in a list has its like in a rearranged one, and the other way round.
pub proof fn rearranged_have_each_other<T>(a: Seq<T>, b: Seq<T>, alike: spec_fn(T, T) -> bool)
    requires
        is_rearranged(a, b, alike),
    ensures
        a.len() == b.len(),
        forall|i: int| 0 <= i < a.len() ==> #[trigger] has_like(b, a[i], alike),
        forall|j: int| 0 <= j < b.len() ==> #[trigger] is_like_one(a, b[j], alike),
{
    let places = choose|places: Seq<int>| is_placed(a, b, alike, places);
    assert forall|i: int| 0 <= i < a.len() implies #[trigger] has_like(b, a[i], alike) by {
        every_place_is_taken(places, a.len(), i);
        let j = places.index_of(i);
        assert(alike(a[places[j]], b[j]));
    }
    assert forall|j: int| 0 <= j < b.len() implies #[trigger] is_like_one(a, b[j], alike) by {
        assert(alike(a[places[j]], b[j]));
    }
}

/// Whether each thing in a list comes before all later ones.
pub open spec fn ascends<T>(s: Seq<T>, before: spec_fn(T, T) -> bool) -> bool {
    forall|i: int, j: int| 0 <= i < j < s.len() ==> before(#[trigger] s[i], #[trigger] s[j])
}

/// Two ascending lists that have each other's things have them in the same places.
pub proof fn ascending_lists_are_alike<T>(
    a: Seq<T>,
    b: Seq<T>,
    before: spec_fn(T, T) -> bool,
    alike: spec_fn(T, T) -> bool,
)
    requires
        ascends(a, before),
        ascends(b, before),
        forall|x: T| !#[trigger] before(x, x),
        forall|x: T, y: T, z: T| #[trigger]
            before(x, y) && #[trigger] before(y, z) ==> before(x, z),
        forall|x: T, x2: T, y: T, y2: T| #[trigger]
            alike(x, x2) && #[trigger] alike(y, y2) ==> before(x, y) == before(x2, y2),
        forall|i: int| 0 <= i < a.len() ==> #[trigger] has_like(b, a[i], alike),
        forall|j: int| 0 <= j < b.len() ==> #[trigger] is_like_one(a, b[j], alike),
    ensures
        a.len() == b.len(),
        forall|i: int| 0 <= i < a.len() ==> alike(#[trigger] a[i], b[i]),
    decreases a.len(),
{
    if a.len() == 0 {
        if b.len() > 0 {
            assert(is_like_one(a, b[0], alike));
        }
    } else {
        let n = a.len() - 1;
        assert(has_like(b, a[n], alike));
        let k = choose|k: int| 0 <= k < b.len() && alike(a[n], #[trigger] b[k]);
        let m = b.len() - 1;
        assert(is_like_one(a, b[m], alike));
        let l = choose|l: int| 0 <= l < a.len() && alike(#[trigger] a[l], b[m]);
        if k < m {
            assert(before(b[k], b[m]));
            assert(before(a[n], a[l]));
            if l < n {
                assert(before(a[l], a[n]));
                assert(before(a[n], a[n]));
            }
        }
        assert(alike(a[n], b[m]));
        let x = a.drop_last();
        let y = b.drop_last();
        assert forall|i: int, j: int| 0 <= i < j < x.len() implies before(
            #[trigger] x[i],
            #[trigger] x[j],
        ) by {
            assert(before(a[i], a[j]));
        }
        assert forall|i: int, j: int| 0 <= i < j < y.len() implies before(
            #[trigger] y[i],
            #[trigger] y[j],
        ) by {
            assert(before(b[i], b[j]));
        }
        assert forall|i: int| 0 <= i < x.len() implies #[trigger] has_like(y, x[i], alike) by {
            assert(has_like(b, a[i], alike));
            let j = choose|j: int| 0 <= j < b.len() && alike(a[i], #[trigger] b[j]);
            if j == m {
                assert(before(a[i], a[n]));
                assert(before(b[m], b[m]));
            }
            assert(y[j] == b[j]);
        }
        assert forall|j: int| 0 <= j < y.len() implies #[trigger] is_like_one(x, y[j], alike) by {
            assert(is_like_one(a, b[j], alike));
            let i = choose|i: int| 0 <= i < a.len() && alike(#[trigger] a[i], b[j]);
            if i == n {
                assert(before(b[j], b[m]));
                assert(before(a[n], a[n]));
            }
            assert(x[i] == a[i]);
        }
        ascending_lists_are_alike(x, y, before, alike);
        assert forall|i: int| 0 <= i < a.len() implies alike(#[trigger] a[i], b[i]) by {
            if i < n {
                assert(alike(x[i], y[i]));
            }
        }
    }
}

} // verus!
