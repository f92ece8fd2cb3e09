//! Lists in groups of limited size.

use vstd::prelude::*;

verus! {

/// A list in groups of a size, in order; the last one may be smaller.
pub open spec fn batches<T>(s: Seq<T>, size: int) -> Seq<Seq<T>>
    decreases s.len(),
{
    if s.len() == 0 {
        Seq::empty()
    } else if s.len() <= size || size <= 0 {
        seq![s]
    } else {
        seq![s.take(size)] + batches(s.skip(size), size)
    }
}

/// Groups put one after another.
pub open spec fn flattened<T>(groups: Seq<Seq<T>>) -> Seq<T>
    decreases groups.len(),
{
    if groups.len() == 0 {
        Seq::empty()
    } else {
        groups[0] + flattened(groups.skip(1))
    }
}

/// The groups hold everything once and in order, and none of them is empty or too long.
pub proof fn batches_hold_everything<T>(s: Seq<T>, size: int)
    requires
        size > 0,
    ensures
        flattened(batches(s, size)) == s,
        forall|i: int|
            0 <= i < batches(s, size).len() ==> 0 < (#[trigger] batches(s, size)[i]).len() <= size,
    decreases s.len(),
{
    let groups = batches(s, size);
    if s.len() == 0 {
    } else if s.len() <= size {
        assert(groups.skip(1) =~= Seq::<Seq<T>>::empty());
        assert(flattened(groups.skip(1)) =~= Seq::<T>::empty());
        assert(flattened(groups) =~= s);
    } else {
        let rest = s.skip(size);
        batches_hold_everything(rest, size);
        assert(groups.skip(1) =~= batches(rest, size));
        assert(flattened(groups) =~= s);
        assert forall|i: int| 0 <= i < groups.len() implies 0 < (#[trigger] groups[i]).len()
            <= size by {
            if i > 0 {
                assert(groups[i] == batches(rest, size)[i - 1]);
            }
        }
    }
}

/// The texts of groups of strings.
pub open spec fn group_texts(v: Seq<Vec<String>>) -> Seq<Seq<Seq<char>>> {
    Seq::new(v.len(), |i: int| crate::text::texts(v[i]@))
}

/// Puts strings in groups of a size.
pub fn batch(v: &Vec<String>, size: usize) -> (r: Vec<Vec<String>>)
    requires
        size > 0,
    ensures
        group_texts(r@) == batches(crate::text::texts(v@), size as int),
{
    let ghost all = crate::text::texts(v@);
    let mut out: Vec<Vec<String>> = Vec::new();
    let mut start: usize = 0;
    assert(all.skip(0) =~= all);
    assert(group_texts(out@) + batches(all, size as int) =~= batches(all, size as int));
    while start < v.len()
        invariant
            start <= v.len(),
            size > 0,
            all == crate::text::texts(v@),
            group_texts(out@) + batches(all.skip(start as int), size as int) == batches(
                all,
                size as int,
            ),
        decreases v.len() - start,
    {
        let ghost rest = all.skip(start as int);
        let ghost before = group_texts(out@);
        let mut group: Vec<String> = Vec::new();
        let mut i: usize = start;
        while i < v.len() && i - start < size
            invariant
                start <= i <= v.len(),
                i - start <= size,
                group@.len() == i - start,
                forall|j: int| 0 <= j < group@.len() ==> (#[trigger] group@[j])@ == v@[start + j]@,
            decreases v.len() - i,
        {
            group.push(v[i].clone());
            i += 1;
        }
        let ghost n = group@.len() as int;
        assert(crate::text::texts(group@) =~= rest.take(n));
        let ghost made = crate::text::texts(group@);
        out.push(group);
        assert(group_texts(out@) =~= before.push(made));
        assert(all.skip(i as int) =~= rest.skip(n));
        proof {
            if rest.len() <= size {
                assert(rest.take(n) =~= rest);
                assert(rest.skip(n) =~= Seq::<Seq<char>>::empty());
                assert(batches(rest.skip(n), size as int) =~= Seq::<Seq<Seq<char>>>::empty());
            }
        }
        assert(batches(rest, size as int) =~= seq![made] + batches(rest.skip(n), size as int));
        assert(group_texts(out@) + batches(rest.skip(n), size as int) =~= before + batches(
            rest,
            size as int,
        ));
        start = i;
    }
    assert(all.skip(start as int) =~= Seq::<Seq<char>>::empty());
    assert(group_texts(out@) =~= batches(all, size as int));
    out
}

/// Everything is in one of the groups.
pub proof fn everything_is_in_a_group<T>(s: Seq<T>, size: int, i: int) -> (g: int)
    requires
        size > 0,
        0 <= i < s.len(),
    ensures
        0 <= g < batches(s, size).len(),
        batches(s, size)[g].contains(s[i]),
    decreases s.len(),
{
    let groups = batches(s, size);
    if s.len() <= size {
        assert(groups[0] == s);
        0
    } else if i < size {
        assert(groups[0] == s.take(size));
        assert(s.take(size)[i] == s[i]);
        0
    } else {
        let rest = s.skip(size);
        assert(rest[i - size] == s[i]);
        let g = everything_is_in_a_group(rest, size, i - size);
        assert(groups[g + 1] == batches(rest, size)[g]);
        g + 1
    }
}

} // verus!
