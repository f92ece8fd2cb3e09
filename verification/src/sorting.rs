//! Lists of texts in order.

use vstd::prelude::*;

use crate::text::comes_before;

verus! {

/// Whether no text comes before an earlier one.
pub open spec fn is_in_order(s: Seq<Seq<char>>) -> bool {
    forall|i: int, j: int|
        0 <= i < j < s.len() ==> !crate::text::less(#[trigger] s[j], #[trigger] s[i])
}

/// Whether a list holds the same texts as another, in order.
pub open spec fn is_sorted_copy(s: Seq<Seq<char>>, of: Seq<Seq<char>>) -> bool {
    is_in_order(s) && s.to_multiset() == of.to_multiset()
}

proof fn not_less_is_transitive(a: Seq<char>, b: Seq<char>, c: Seq<char>)
    requires
        !crate::text::less(b, a),
        !crate::text::less(c, b),
    ensures
        !crate::text::less(c, a),
{
    crate::text::less_total(a, b);
    crate::text::less_total(b, c);
    if crate::text::less(c, a) {
        if a != b {
            crate::text::less_transitive(c, a, b);
        }
    }
}

fn enter(v: &mut Vec<String>, x: String)
    requires
        is_in_order(crate::text::texts(old(v)@)),
    ensures
        is_in_order(crate::text::texts(final(v)@)),
        crate::text::texts(final(v)@).to_multiset() == crate::text::texts(
            old(v)@,
        ).to_multiset().insert(x@),
{
    let ghost before = crate::text::texts(v@);
    let ghost added = x@;
    let mut at: usize = v.len();
    while at > 0 && comes_before(x.as_str(), v[at - 1].as_str())
        invariant
            at <= v.len(),
            before == crate::text::texts(v@),
            added == x@,
            forall|i: int| at <= i < before.len() ==> crate::text::less(added, #[trigger] before[i]),
        decreases at,
    {
        assert(before[at - 1] == v@[at - 1]@);
        at -= 1;
    }
    v.insert(at, x);
    let ghost now = crate::text::texts(v@);
    assert(now =~= before.insert(at as int, added));
    proof {
        broadcast use vstd::seq_lib::to_multiset_insert;

        assert forall|i: int, j: int| 0 <= i < j < now.len() implies !crate::text::less(
            #[trigger] now[j],
            #[trigger] now[i],
        ) by {
            if i == at {
                assert(now[j] == before[j - 1]);
                assert(crate::text::less(added, before[j - 1]));
                if crate::text::less(before[j - 1], added) {
                    crate::text::less_transitive(added, before[j - 1], added);
                    crate::text::less_irreflexive(added);
                }
            } else if j == at {
                assert(now[i] == before[i]);
                assert(!crate::text::less(added, before[at - 1]));
                if i < at - 1 {
                    assert(!crate::text::less(before[at - 1], before[i]));
                    not_less_is_transitive(before[i], before[at - 1], added);
                }
            } else {
                let a = if i < at {
                    i
                } else {
                    i - 1
                };
                let b = if j < at {
                    j
                } else {
                    j - 1
                };
                assert(now[i] == before[a]);
                assert(now[j] == before[b]);
                assert(!crate::text::less(before[b], before[a]));
            }
        }
    }
}

/// The same texts in ascending order.
pub fn sort_texts(v: &Vec<String>) -> (r: Vec<String>)
    ensures
        is_sorted_copy(crate::text::texts(r@), crate::text::texts(v@)),
{
    let ghost all = crate::text::texts(v@);
    let mut out: Vec<String> = Vec::new();
    let mut i: usize = 0;
    assert(crate::text::texts(out@) =~= all.take(0));
    while i < v.len()
        invariant
            i <= v.len(),
            all == crate::text::texts(v@),
            is_in_order(crate::text::texts(out@)),
            crate::text::texts(out@).to_multiset() == all.take(i as int).to_multiset(),
        decreases v.len() - i,
    {
        assert(all.take(i + 1) =~= all.take(i as int).push(v@[i as int]@));
        enter(&mut out, v[i].clone());
        proof {
            broadcast use vstd::seq_lib::group_to_multiset_ensures;

        }
        i += 1;
    }
    assert(all.take(i as int) =~= all);
    out
}

} // verus!
