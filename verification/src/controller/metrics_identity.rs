//! Names of the instances that metrics come from.

use vstd::prelude::*;

use crate::sorted_map::SortedMap;
use crate::text::{chars, comes_before, same, trim};

verus! {

/// Whether [`char::is_alphanumeric`] counts a character beyond ASCII as a letter or a digit.
pub uninterp spec fn alphanumeric(c: char) -> bool;

/// Whether a character is a letter or a digit of ASCII.
pub open spec fn ascii_alphanumeric(c: char) -> bool {
    'a' <= c <= 'z' || 'A' <= c <= 'Z' || '0' <= c <= '9'
}

/// Calls [`char::is_alphanumeric`]. Of ASCII it counts the letters and the digits; of any other
/// character nothing is claimed but that the result depends on the character alone.
#[verifier::external_body]
fn is_alphanumeric(c: char) -> (r: bool)
    ensures
        c as u32 <= 0x7f ==> r == ascii_alphanumeric(c),
        c as u32 > 0x7f ==> r == alphanumeric(c),
{
    c.is_alphanumeric()
}

/// Whether a character is a letter or a digit.
pub open spec fn is_letter_or_digit(c: char) -> bool {
    if c as u32 <= 0x7f {
        ascii_alphanumeric(c)
    } else {
        alphanumeric(c)
    }
}

/// A text in which everything but letters and digits is written as `_`.
pub open spec fn sanitized(s: Seq<char>) -> Seq<char> {
    Seq::new(
        s.len(),
        |i: int|
            if is_letter_or_digit(s[i]) {
                s[i]
            } else {
                '_'
            },
    )
}

/// Writes everything but letters and digits as `_`.
pub fn sanitize_label_value(s: &str) -> (r: String)
    ensures
        r@ == sanitized(s@),
{
    let x = chars(s);
    let mut out = String::new();
    let mut i: usize = 0;
    while i < x.len()
        invariant
            i <= x.len(),
            x@ == s@,
            out@ == sanitized(s@).take(i as int),
        decreases x.len() - i,
    {
        let c = if is_alphanumeric(x[i]) {
            x[i]
        } else {
            '_'
        };
        out.push(c);
        assert(sanitized(s@).take(i + 1) =~= sanitized(s@).take(i as int).push(c));
        i += 1;
    }
    assert(sanitized(s@).take(i as int) =~= sanitized(s@));
    out
}

/// Whether a label belongs to what identifies every instance.
pub open spec fn is_base_label(label: Seq<char>) -> bool {
    ||| label == "__name__"@
    ||| label == "instance"@
    ||| label == "job"@
    ||| label == "mode"@
    ||| label == "stream_id"@
    ||| label == "agent_node_id"@
    ||| label == "agent_source_ip"@
    ||| label == "agent_source_port"@
    ||| label == "agent_source_instance"@
}

/// Whether a label belongs to what identifies every instance.
pub fn is_identity_base_label(label: &str) -> (r: bool)
    ensures
        r == is_base_label(label@),
{
    same(label, "__name__") || same(label, "instance") || same(label, "job") || same(label, "mode")
        || same(label, "stream_id") || same(label, "agent_node_id") || same(
        label,
        "agent_source_ip",
    ) || same(label, "agent_source_port") || same(label, "agent_source_instance")
}

/// A label with its value, sanitized.
pub type Label = (Seq<char>, Seq<char>);

/// Whether a label comes before another: by name, then by value.
pub open spec fn label_less(a: Label, b: Label) -> bool {
    crate::text::less(a.0, b.0) || (a.0 == b.0 && crate::text::less(a.1, b.1))
}

/// Labels in order, with a label entered at its place.
pub open spec fn entered(labels: Seq<Label>, x: Label) -> Seq<Label>
    decreases labels.len(),
{
    if labels.len() == 0 || !label_less(x, labels.last()) {
        labels.push(x)
    } else {
        entered(labels.drop_last(), x).push(labels.last())
    }
}

/// Labels in order.
pub open spec fn in_order(labels: Seq<Label>) -> Seq<Label>
    decreases labels.len(),
{
    if labels.len() == 0 {
        Seq::empty()
    } else {
        entered(in_order(labels.drop_last()), labels.last())
    }
}

/// Whether no label comes before an earlier one.
pub open spec fn ascends(labels: Seq<Label>) -> bool {
    forall|i: int, j: int|
        0 <= i < j < labels.len() ==> !label_less(#[trigger] labels[j], #[trigger] labels[i])
}

proof fn label_order(a: Label, b: Label, c: Label)
    ensures
        !label_less(a, a),
        label_less(a, b) && label_less(b, c) ==> label_less(a, c),
        a != b ==> label_less(a, b) || label_less(b, a),
        label_less(a, b) ==> !label_less(b, a),
{
    crate::text::less_irreflexive(a.0);
    crate::text::less_irreflexive(a.1);
    crate::text::less_total(a.0, b.0);
    crate::text::less_total(a.1, b.1);
    if label_less(a, b) && label_less(b, c) {
        if crate::text::less(a.0, b.0) && crate::text::less(b.0, c.0) {
            crate::text::less_transitive(a.0, b.0, c.0);
        }
        if a.0 == b.0 && b.0 == c.0 && crate::text::less(a.1, b.1) && crate::text::less(b.1, c.1) {
            crate::text::less_transitive(a.1, b.1, c.1);
        }
    }
    if label_less(a, b) && label_less(b, a) {
        if crate::text::less(a.0, b.0) && crate::text::less(b.0, a.0) {
            crate::text::less_transitive(a.0, b.0, a.0);
        }
        if crate::text::less(a.1, b.1) && crate::text::less(b.1, a.1) {
            crate::text::less_transitive(a.1, b.1, a.1);
        }
        crate::text::less_irreflexive(b.0);
    }
}

proof fn entering(labels: Seq<Label>, x: Label)
    ensures
        ascends(labels) ==> ascends(entered(labels, x)),
        entered(labels, x).to_multiset() == labels.to_multiset().insert(x),
        forall|i: int|
            0 <= i < entered(labels, x).len() ==> #[trigger] entered(labels, x)[i] == x
                || labels.contains(entered(labels, x)[i]),
    decreases labels.len(),
{
    broadcast use vstd::seq_lib::group_to_multiset_ensures;

    if labels.len() == 0 || !label_less(x, labels.last()) {
        let now = labels.push(x);
        if ascends(labels) {
            assert forall|i: int, j: int| 0 <= i < j < now.len() implies !label_less(
                #[trigger] now[j],
                #[trigger] now[i],
            ) by {
                if j == labels.len() {
                    let last = labels[labels.len() - 1];
                    assert(!label_less(x, last));
                    if i < labels.len() - 1 {
                        assert(!label_less(last, labels[i]));
                    }
                    if label_less(x, labels[i]) {
                        label_order(x, labels[i], last);
                        label_order(labels[i], last, x);
                        label_order(x, last, labels[i]);
                    }
                }
            }
        }
        assert forall|i: int| 0 <= i < now.len() implies #[trigger] now[i] == x || labels.contains(
            now[i],
        ) by {
            if i < labels.len() {
                assert(labels[i] == now[i]);
            }
        }
    } else {
        let front = labels.drop_last();
        entering(front, x);
        let made = entered(front, x);
        let now = made.push(labels.last());
        assert(labels =~= front.push(labels.last()));
        assert(labels.to_multiset() =~= front.to_multiset().insert(labels.last()));
        assert(now.to_multiset() =~= labels.to_multiset().insert(x));
        assert forall|i: int| 0 <= i < now.len() implies #[trigger] now[i] == x || labels.contains(
            now[i],
        ) by {
            if i < made.len() {
                assert(now[i] == made[i]);
                if made[i] != x {
                    let k = front.index_of(made[i]);
                    assert(labels[k] == made[i]);
                }
            } else {
                assert(labels[labels.len() - 1] == now[i]);
            }
        }
        if ascends(labels) {
            assert forall|i: int, j: int| 0 <= i < j < front.len() implies !label_less(
                #[trigger] front[j],
                #[trigger] front[i],
            ) by {
                assert(!label_less(labels[j], labels[i]));
            }
            assert forall|i: int, j: int| 0 <= i < j < now.len() implies !label_less(
                #[trigger] now[j],
                #[trigger] now[i],
            ) by {
                if j < made.len() {
                    assert(!label_less(made[j], made[i]));
                } else {
                    assert(now[i] == made[i]);
                    if made[i] == x {
                        label_order(x, labels.last(), x);
                    } else {
                        let k = front.index_of(made[i]);
                        assert(labels[k] == made[i]);
                        assert(!label_less(labels[labels.len() - 1], labels[k]));
                    }
                }
            }
        }
    }
}

/// Ordering labels keeps every one of them and puts none before an earlier one.
pub proof fn ordering_keeps_labels(labels: Seq<Label>)
    ensures
        ascends(in_order(labels)),
        in_order(labels).to_multiset() == labels.to_multiset(),
    decreases labels.len(),
{
    broadcast use vstd::seq_lib::group_to_multiset_ensures;

    if labels.len() > 0 {
        ordering_keeps_labels(labels.drop_last());
        entering(in_order(labels.drop_last()), labels.last());
        assert(labels =~= labels.drop_last().push(labels.last()));
    }
}

/// The order of labels does not depend on the order in which they are given.
pub proof fn order_is_determined(a: Seq<Label>, b: Seq<Label>)
    requires
        a.to_multiset() == b.to_multiset(),
    ensures
        in_order(a) == in_order(b),
{
    ordering_keeps_labels(a);
    ordering_keeps_labels(b);
    let not_after = |x: Label, y: Label| !label_less(y, x);
    assert forall|x: Label| #[trigger] not_after(x, x) by {
        label_order(x, x, x);
    }
    assert forall|x: Label, y: Label|
        #[trigger] not_after(x, y) && #[trigger] not_after(y, x) implies x == y by {
        label_order(x, y, x);
    }
    assert forall|x: Label, y: Label, z: Label|
        #[trigger] not_after(x, y) && #[trigger] not_after(y, z) implies not_after(x, z) by {
        label_order(z, x, y);
        label_order(x, y, z);
        label_order(y, z, x);
        label_order(z, y, x);
        label_order(y, x, z);
        label_order(x, z, y);
    }
    assert forall|x: Label, y: Label| #[trigger] not_after(x, y) || #[trigger] not_after(y, x) by {
        label_order(x, y, x);
    }
    assert(vstd::relations::total_ordering(not_after));
    assert(vstd::relations::sorted_by(in_order(a), not_after));
    assert(vstd::relations::sorted_by(in_order(b), not_after));
    vstd::seq_lib::lemma_sorted_unique(in_order(a), in_order(b), not_after);
}

/// The labels that are not part of what identifies every instance.
pub open spec fn extra_labels(labels: Seq<(String, String)>) -> Seq<Label>
    decreases labels.len(),
{
    if labels.len() == 0 {
        Seq::empty()
    } else {
        let before = extra_labels(labels.drop_last());
        let (key, value) = (labels.last().0@, labels.last().1@);
        if is_base_label(key) {
            before
        } else {
            before.push((sanitized(key), sanitized(value)))
        }
    }
}

/// Labels as the end of a name.
pub open spec fn suffix_of(labels: Seq<Label>) -> Seq<char>
    decreases labels.len(),
{
    if labels.len() == 0 {
        Seq::empty()
    } else {
        suffix_of(labels.drop_last()) + "__"@ + labels.last().0 + "_"@ + labels.last().1
    }
}

/// The end of a name that the additional labels make.
pub open spec fn extra_suffix(labels: Seq<(String, String)>) -> Seq<char> {
    suffix_of(in_order(extra_labels(labels)))
}

/// What a label adds to the additional ones.
spec fn extra_part(label: (String, String)) -> vstd::multiset::Multiset<Label> {
    if is_base_label(label.0@) {
        vstd::multiset::Multiset::empty()
    } else {
        vstd::multiset::Multiset::singleton((sanitized(label.0@), sanitized(label.1@)))
    }
}

proof fn extra_labels_without(labels: Seq<(String, String)>, k: int)
    requires
        0 <= k < labels.len(),
    ensures
        extra_labels(labels).to_multiset() == extra_labels(labels.remove(k)).to_multiset().add(
            extra_part(labels[k]),
        ),
    decreases labels.len(),
{
    broadcast use vstd::seq_lib::group_to_multiset_ensures;

    let front = labels.drop_last();
    let last = labels.last();
    let before = extra_labels(front);
    let x = (sanitized(last.0@), sanitized(last.1@));
    assert(extra_labels(labels).to_multiset() =~= before.to_multiset().add(extra_part(last)));
    if k == labels.len() - 1 {
        assert(labels.remove(k) =~= front);
    } else {
        extra_labels_without(front, k);
        let rest = labels.remove(k);
        assert(rest.drop_last() =~= front.remove(k));
        assert(rest.last() == last);
        let fewer = extra_labels(front.remove(k));
        assert(extra_labels(rest).to_multiset() =~= fewer.to_multiset().add(extra_part(last)));
        assert(extra_labels(labels).to_multiset() =~= extra_labels(rest).to_multiset().add(
            extra_part(labels[k]),
        ));
    }
}

proof fn extra_labels_of_the_same(a: Seq<(String, String)>, b: Seq<(String, String)>)
    requires
        a.to_multiset() == b.to_multiset(),
    ensures
        extra_labels(a).to_multiset() == extra_labels(b).to_multiset(),
    decreases a.len(),
{
    broadcast use vstd::seq_lib::group_to_multiset_ensures;

    assert(a.to_multiset().len() == a.len());
    assert(b.to_multiset().len() == b.len());
    if a.len() > 0 {
        let x = a.last();
        let n = a.len() - 1;
        assert(a[n] == x);
        assert(a.contains(x));
        assert(b.to_multiset().count(x) > 0);
        assert(b.contains(x));
        let k = b.index_of(x);
        assert(a.remove(n) =~= a.drop_last());
        assert(a.remove(n).to_multiset() =~= a.to_multiset().remove(x));
        assert(b.remove(k).to_multiset() =~= b.to_multiset().remove(x));
        extra_labels_without(a, n);
        extra_labels_without(b, k);
        extra_labels_of_the_same(a.remove(n), b.remove(k));
    }
}

proof fn base_labels_add_nothing(labels: Seq<(String, String)>, base: Seq<(String, String)>)
    requires
        forall|i: int| 0 <= i < base.len() ==> is_base_label(#[trigger] base[i].0@),
    ensures
        extra_labels(labels + base) == extra_labels(labels),
    decreases base.len(),
{
    let all = labels + base;
    if base.len() == 0 {
        assert(all =~= labels);
    } else {
        assert(all.drop_last() =~= labels + base.drop_last());
        assert(all.last() == base[base.len() - 1]);
        base_labels_add_nothing(labels, base.drop_last());
    }
}

/// Labels that identify every instance leave the end of a name as it is, and so does the order in
/// which labels are given.
pub proof fn base_labels_and_order_do_not_matter(
    labels: Seq<(String, String)>,
    base: Seq<(String, String)>,
    given: Seq<(String, String)>,
)
    requires
        forall|i: int| 0 <= i < base.len() ==> is_base_label(#[trigger] base[i].0@),
        given.to_multiset() == (labels + base).to_multiset(),
    ensures
        extra_suffix(given) == extra_suffix(labels),
{
    base_labels_add_nothing(labels, base);
    extra_labels_of_the_same(given, labels + base);
    order_is_determined(extra_labels(given), extra_labels(labels));
}

proof fn extra_labels_alike(a: Seq<(String, String)>, b: Seq<(String, String)>)
    requires
        a.len() == b.len(),
        forall|i: int|
            0 <= i < a.len() ==> (#[trigger] a[i]).0@ == b[i].0@ && a[i].1 == b[i].1,
    ensures
        extra_labels(a) == extra_labels(b),
    decreases a.len(),
{
    if a.len() > 0 {
        let x = a.drop_last();
        let y = b.drop_last();
        assert forall|i: int| 0 <= i < x.len() implies (#[trigger] x[i]).0@ == y[i].0@ && x[i].1
            == y[i].1 by {
            assert(a[i].0@ == b[i].0@);
        }
        extra_labels_alike(x, y);
        assert(a[a.len() - 1].0@ == b[b.len() - 1].0@);
    }
}

/// The end of a name depends on what the labels say alone, not on how the map of them was made.
pub proof fn labels_decide_the_suffix(a: SortedMap<String>, b: SortedMap<String>)
    requires
        crate::sorted_map::ascending_keys(a.list()),
        crate::sorted_map::ascending_keys(b.list()),
        a@ == b@,
    ensures
        extra_suffix(a.list()) == extra_suffix(b.list()),
{
    a.list_is_the_map();
    b.list_is_the_map();
    crate::sorted_map::ascending_lists_are_determined(a.list(), b.list());
    extra_labels_alike(a.list(), b.list());
}

/// The part of a name that says what an instance does.
pub open spec fn mode_suffix(mode: Seq<char>, stream: Option<Seq<char>>) -> Seq<char> {
    match stream {
        Some(id) => sanitized(mode) + "_sid_"@ + sanitized(id),
        None => sanitized(mode),
    }
}

/// The name of an instance.
pub open spec fn identity_of(
    prefix: Seq<char>,
    instance: Seq<char>,
    mode: Seq<char>,
    stream: Option<Seq<char>>,
    extra: Seq<char>,
) -> Seq<char> {
    prefix + "__"@ + sanitized(instance) + "_"@ + mode_suffix(mode, stream) + extra
}

/// What labels say of strings.
pub open spec fn label_views(v: Seq<(String, String)>) -> Seq<Label> {
    Seq::new(v.len(), |i: int| (v[i].0@, v[i].1@))
}

fn comes_first(a: &(String, String), b: &(String, String)) -> (r: bool)
    ensures
        r == label_less((a.0@, a.1@), (b.0@, b.1@)),
{
    comes_before(a.0.as_str(), b.0.as_str()) || (same(a.0.as_str(), b.0.as_str()) && comes_before(
        a.1.as_str(),
        b.1.as_str(),
    ))
}

proof fn place_of(labels: Seq<Label>, x: Label, at: int)
    requires
        0 <= at <= labels.len(),
        forall|i: int| at <= i < labels.len() ==> label_less(x, #[trigger] labels[i]),
        at > 0 ==> !label_less(x, labels[at - 1]),
    ensures
        entered(labels, x) == labels.insert(at, x),
    decreases labels.len(),
{
    if at == labels.len() {
        assert(labels.insert(at, x) =~= labels.push(x));
    } else {
        let front = labels.drop_last();
        assert forall|i: int| at <= i < front.len() implies label_less(x, #[trigger] front[i]) by {
            assert(label_less(x, labels[i]));
        }
        assert(label_less(x, labels[labels.len() - 1]));
        place_of(front, x, at);
        assert(labels.insert(at, x) =~= front.insert(at, x).push(labels.last()));
    }
}

fn enter_label(v: &mut Vec<(String, String)>, x: (String, String))
    ensures
        label_views(final(v)@) == entered(label_views(old(v)@), (x.0@, x.1@)),
{
    let ghost before = label_views(v@);
    let ghost added = (x.0@, x.1@);
    let mut at: usize = v.len();
    while at > 0 && comes_first(&x, &v[at - 1])
        invariant
            at <= v.len(),
            before == label_views(v@),
            added == (x.0@, x.1@),
            forall|i: int| at <= i < before.len() ==> label_less(added, #[trigger] before[i]),
        decreases at,
    {
        assert(before[at - 1] == (v@[at - 1].0@, v@[at - 1].1@));
        at -= 1;
    }
    proof {
        if at > 0 {
            assert(before[at - 1] == (v@[at - 1].0@, v@[at - 1].1@));
        }
        place_of(before, added, at as int);
    }
    v.insert(at, x);
    assert(label_views(v@) =~= before.insert(at as int, added));
}

/// The end of a name that the additional labels make, whatever their order.
pub fn identity_extra_label_suffix(labels: &SortedMap<String>) -> (r: String)
    ensures
        r@ == extra_suffix(labels.list()),
{
    let ghost all = labels.list();
    let mut extra: Vec<(String, String)> = Vec::new();
    let mut i: usize = 0;
    assert(all.take(0) =~= Seq::<(String, String)>::empty());
    assert(label_views(extra@) =~= Seq::<Label>::empty());
    while i < labels.len()
        invariant
            i <= all.len(),
            all == labels.list(),
            label_views(extra@) == in_order(extra_labels(all.take(i as int))),
        decreases all.len() - i,
    {
        assert(all.take(i + 1).drop_last() =~= all.take(i as int));
        let (key, value) = labels.entry(i);
        if !is_identity_base_label(key.as_str()) {
            let ghost earlier = extra_labels(all.take(i as int));
            let label = (
                sanitize_label_value(key.as_str()),
                sanitize_label_value(value.as_str()),
            );
            let ghost x = (label.0@, label.1@);
            assert(earlier.push(x).drop_last() =~= earlier);
            enter_label(&mut extra, label);
        }
        i += 1;
    }
    assert(all.take(i as int) =~= all);
    let ghost sorted = label_views(extra@);
    let mut suffix = String::new();
    let mut k: usize = 0;
    assert(sorted.take(0) =~= Seq::<Label>::empty());
    while k < extra.len()
        invariant
            k <= extra.len(),
            sorted == label_views(extra@),
            suffix@ == suffix_of(sorted.take(k as int)),
        decreases extra.len() - k,
    {
        assert(sorted.take(k + 1).drop_last() =~= sorted.take(k as int));
        assert(sorted.take(k + 1).last() == (extra@[k as int].0@, extra@[k as int].1@));
        suffix.append("__");
        suffix.append(extra[k].0.as_str());
        suffix.append("_");
        suffix.append(extra[k].1.as_str());
        k += 1;
    }
    assert(sorted.take(k as int) =~= sorted);
    suffix
}

/// The part of a name that says what an instance does.
pub fn identity_mode_suffix(mode: &str, stream_id: Option<&str>) -> (r: String)
    ensures
        r@ == mode_suffix(mode@, crate::text::opt_str(stream_id)),
{
    match stream_id {
        Some(id) => sanitize_label_value(mode).concat("_sid_").concat(
            sanitize_label_value(id).as_str(),
        ),
        None => sanitize_label_value(mode),
    }
}

/// The name of an instance.
pub fn build_metric_identity(
    prefix: &str,
    instance: &str,
    mode: &str,
    stream_id: Option<&str>,
    extra_label_suffix: &str,
) -> (r: String)
    ensures
        r@ == identity_of(
            prefix@,
            instance@,
            mode@,
            crate::text::opt_str(stream_id),
            extra_label_suffix@,
        ),
{
    prefix.to_owned().concat("__").concat(sanitize_label_value(instance).as_str()).concat(
        "_",
    ).concat(identity_mode_suffix(mode, stream_id).as_str()).concat(extra_label_suffix)
}

/// The value of a label.
pub open spec fn label_value(labels: Map<Seq<char>, String>, key: Seq<char>) -> Option<Seq<char>> {
    if labels.dom().contains(key) {
        Some(labels[key]@)
    } else {
        None
    }
}

/// A value, or `unknown`.
pub open spec fn or_unknown(v: Option<Seq<char>>) -> Seq<char> {
    match v {
        Some(v) => v,
        None => "unknown"@,
    }
}

/// The name of an instance that was asked for samples.
pub open spec fn prometheus_identity(labels: SortedMap<String>) -> Seq<char> {
    identity_of(
        "prom"@,
        or_unknown(label_value(labels@, "instance"@)),
        or_unknown(label_value(labels@, "mode"@)),
        label_value(labels@, "stream_id"@),
        extra_suffix(labels.list()),
    )
}

fn find<'a>(labels: &'a SortedMap<String>, key: &str) -> (r: Option<&'a str>)
    ensures
        crate::text::opt_str(r) == label_value(labels@, key@),
{
    match labels.get(key) {
        Some(v) => Some(v.as_str()),
        None => None,
    }
}

fn find_or_unknown<'a>(labels: &'a SortedMap<String>, key: &str) -> (r: &'a str)
    ensures
        r@ == or_unknown(label_value(labels@, key@)),
{
    match find(labels, key) {
        Some(v) => v,
        None => "unknown",
    }
}

/// The name of an instance that was asked for samples.
pub fn prometheus_identity_from_metric(labels: &SortedMap<String>) -> (r: String)
    ensures
        r@ == prometheus_identity(*labels),
{
    build_metric_identity(
        "prom",
        find_or_unknown(labels, "instance"),
        find_or_unknown(labels, "mode"),
        find(labels, "stream_id"),
        identity_extra_label_suffix(labels).as_str(),
    )
}

/// The instance that an agent has read samples from: that of the labels, else that of the
/// target.
pub open spec fn agent_instance(
    source_instance: Seq<char>,
    labels: Map<Seq<char>, String>,
) -> Seq<char> {
    match crate::surroundings::unless_blank(
        crate::surroundings::either(
            label_value(labels, "agent_source_instance"@),
            label_value(labels, "instance"@),
        ),
    ) {
        Some(i) => i,
        None => if crate::text::trimmed(source_instance).len() > 0 {
            source_instance
        } else {
            "unknown"@
        },
    }
}

/// The name of an instance that an agent has read samples from.
pub open spec fn agent_identity(source_instance: Seq<char>, labels: SortedMap<String>) -> Seq<
    char,
> {
    identity_of(
        "agent"@,
        agent_instance(source_instance, labels@),
        or_unknown(label_value(labels@, "mode"@)),
        label_value(labels@, "stream_id"@),
        extra_suffix(labels.list()),
    )
}

/// The name of an instance that an agent has read samples from.
pub fn agent_identity_from_parts(source_instance: &str, labels: &SortedMap<String>) -> (r: String)
    ensures
        r@ == agent_identity(source_instance@, *labels),
{
    let named = match find(labels, "agent_source_instance") {
        Some(v) => Some(v),
        None => find(labels, "instance"),
    };
    let own = if trim(source_instance).is_empty() {
        "unknown"
    } else {
        source_instance
    };
    let instance = match named {
        Some(v) => if trim(v).is_empty() {
            own
        } else {
            v
        },
        None => own,
    };
    build_metric_identity(
        "agent",
        instance,
        find_or_unknown(labels, "mode"),
        find(labels, "stream_id"),
        identity_extra_label_suffix(labels).as_str(),
    )
}

/// A label is cleaned character by character: letters and digits stay, anything else becomes an
/// underscore.
pub proof fn letters_and_digits_are_kept(s: Seq<char>, i: int)
    requires
        0 <= i < s.len(),
    ensures
        sanitized(s).len() == s.len(),
        'a' <= s[i] <= 'z' || 'A' <= s[i] <= 'Z' || '0' <= s[i] <= '9' ==> sanitized(s)[i] == s[i],
        s[i] == '.' || s[i] == ':' || s[i] == '-' || s[i] == '/' || s[i] == ' ' || s[i] == '_'
            ==> sanitized(s)[i] == '_',
{
}

/// An identity begins with its kind and its instance; the mode and the stream come behind, and the
/// further labels at the end.
pub proof fn identities_name_their_source(
    prefix: Seq<char>,
    instance: Seq<char>,
    mode: Seq<char>,
    stream: Option<Seq<char>>,
    extra: Seq<char>,
)
    ensures
        ({
            let id = identity_of(prefix, instance, mode, stream, extra);
            &&& crate::text::begins(
                id,
                prefix + "__"@ + sanitized(instance) + "_"@ + sanitized(mode),
            )
            &&& stream is None ==> id == prefix + "__"@ + sanitized(instance) + "_"@ + sanitized(
                mode,
            ) + extra
            &&& stream matches Some(s) ==> id == prefix + "__"@ + sanitized(instance) + "_"@
                + sanitized(mode) + ("_sid_"@ + sanitized(s)) + extra
        }),
{
    let id = identity_of(prefix, instance, mode, stream, extra);
    let head = prefix + "__"@ + sanitized(instance) + "_"@;
    assert(id.subrange(0, (head + sanitized(mode)).len() as int) =~= head + sanitized(mode));
    if let Some(s) = stream {
        assert(head + (sanitized(mode) + "_sid_"@ + sanitized(s)) =~= head + sanitized(mode) + (
        "_sid_"@ + sanitized(s)));
    }
}

proof fn labels_are_in_the_suffix(labels: Seq<Label>, i: int)
    requires
        0 <= i < labels.len(),
    ensures
        crate::text::holds(suffix_of(labels), "__"@ + labels[i].0 + "_"@ + labels[i].1),
    decreases labels.len(),
{
    let front = labels.drop_last();
    let t = "__"@ + labels[i].0 + "_"@ + labels[i].1;
    let last = "__"@ + labels.last().0 + "_"@ + labels.last().1;
    assert(suffix_of(labels) =~= suffix_of(front) + last);
    if i < front.len() {
        assert(front[i] == labels[i]);
        labels_are_in_the_suffix(front, i);
        crate::text::holds_in_a_part(suffix_of(front), last, t);
    } else {
        crate::text::holds_its_end(suffix_of(front), last);
    }
}

proof fn further_labels_are_listed(labels: Seq<(String, String)>, k: int)
    requires
        0 <= k < labels.len(),
        !is_base_label(labels[k].0@),
    ensures
        extra_labels(labels).contains((sanitized(labels[k].0@), sanitized(labels[k].1@))),
    decreases labels.len(),
{
    let front = labels.drop_last();
    let before = extra_labels(front);
    let all = extra_labels(labels);
    let e = (sanitized(labels[k].0@), sanitized(labels[k].1@));
    if k < front.len() {
        assert(front[k] == labels[k]);
        further_labels_are_listed(front, k);
        let m = choose|m: int| 0 <= m < before.len() && before[m] == e;
        assert(all[m] == e);
    } else {
        assert(all[all.len() - 1] == e);
    }
}

/// Every label that is not one of the usual ones is part of the identity, by its name and its
/// value.
pub proof fn further_labels_are_part_of_the_identity(labels: Seq<(String, String)>, k: int)
    requires
        0 <= k < labels.len(),
        !is_base_label(labels[k].0@),
    ensures
        crate::text::holds(
            extra_suffix(labels),
            "__"@ + sanitized(labels[k].0@) + "_"@ + sanitized(labels[k].1@),
        ),
{
    let e = (sanitized(labels[k].0@), sanitized(labels[k].1@));
    let extra = extra_labels(labels);
    further_labels_are_listed(labels, k);
    ordering_keeps_labels(extra);
    extra.to_multiset_ensures();
    in_order(extra).to_multiset_ensures();
    assert(extra.to_multiset().count(e) > 0);
    assert(in_order(extra).contains(e));
    let m = choose|m: int| 0 <= m < in_order(extra).len() && in_order(extra)[m] == e;
    labels_are_in_the_suffix(in_order(extra), m);
}

/// What an agent sends is known by the source that it names, else by the instance, else by where it
/// came from.
pub proof fn agents_are_known_by_the_source_they_name(
    source: Seq<char>,
    labels: Map<Seq<char>, String>,
)
    ensures
        labels.dom().contains("agent_source_instance"@) && crate::text::trimmed(
            labels["agent_source_instance"@]@,
        ).len() > 0 ==> agent_instance(source, labels) == labels["agent_source_instance"@]@,
        !labels.dom().contains("agent_source_instance"@) && labels.dom().contains("instance"@)
            && crate::text::trimmed(labels["instance"@]@).len() > 0 ==> agent_instance(
            source,
            labels,
        ) == labels["instance"@]@,
        !labels.dom().contains("agent_source_instance"@) && !labels.dom().contains("instance"@)
            && crate::text::trimmed(source).len() > 0 ==> agent_instance(source, labels) == source,
        !labels.dom().contains("agent_source_instance"@) && !labels.dom().contains("instance"@)
            && crate::text::trimmed(source).len() == 0 ==> agent_instance(source, labels)
            == "unknown"@,
{
}

/// The two kinds of identity differ in how they begin; both go by the instance and the mode that
/// their labels give.
pub proof fn identities_go_by_their_labels(source: Seq<char>, labels: SortedMap<String>)
    requires
        labels@.dom().contains("instance"@),
        labels@.dom().contains("mode"@),
        !labels@.dom().contains("agent_source_instance"@),
        crate::text::trimmed(labels@["instance"@]@).len() > 0,
    ensures
        crate::text::begins(
            prometheus_identity(labels),
            "prom"@ + "__"@ + sanitized(labels@["instance"@]@) + "_"@ + sanitized(
                labels@["mode"@]@,
            ),
        ),
        crate::text::begins(
            agent_identity(source, labels),
            "agent"@ + "__"@ + sanitized(labels@["instance"@]@) + "_"@ + sanitized(
                labels@["mode"@]@,
            ),
        ),
{
    let i = labels@["instance"@]@;
    let m = labels@["mode"@]@;
    let stream = label_value(labels@, "stream_id"@);
    identities_name_their_source("prom"@, i, m, stream, extra_suffix(labels.list()));
    identities_name_their_source("agent"@, i, m, stream, extra_suffix(labels.list()));
}

/// The labels that are in every sample do not count for the identity; all others do.
pub proof fn usual_labels_do_not_count(label: Seq<char>)
    ensures
        is_base_label(label) <==> label == "__name__"@ || label == "instance"@ || label == "job"@
            || label == "mode"@ || label == "stream_id"@ || label == "agent_node_id"@ || label
            == "agent_source_ip"@ || label == "agent_source_port"@ || label
            == "agent_source_instance"@,
{
}

} // verus!
