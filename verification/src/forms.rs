//! The names and values of queries and forms.

use vstd::prelude::*;

use crate::text::{find_text, split};

verus! {

/// The texts of pairs.
pub open spec fn pair_texts(v: Seq<(String, String)>) -> Seq<(Seq<char>, Seq<char>)> {
    Seq::new(v.len(), |i: int| (v[i].0@, v[i].1@))
}

/// The pairs among texts `key=value`; those without `=` are left out.
pub open spec fn pairs_in(texts: Seq<Seq<char>>) -> Seq<(Seq<char>, Seq<char>)>
    decreases texts.len(),
{
    if texts.len() == 0 {
        Seq::empty()
    } else {
        let before = pairs_in(texts.drop_last());
        match crate::text::find_from(texts.last(), "="@, 0) {
            Some(i) => before.push((texts.last().take(i), texts.last().skip(i + 1))),
            None => before,
        }
    }
}

/// The pairs of a query `key=value&...`.
pub fn query_pairs(options: &str) -> (r: Vec<(String, String)>)
    ensures
        pair_texts(r@) == pairs_in(crate::text::pieces(options@, '&')),
{
    let parts = split(options, '&');
    let ghost all = crate::text::texts(parts@);
    let mut out: Vec<(String, String)> = Vec::new();
    assert(pair_texts(out@) =~= pairs_in(all.take(0)));
    let mut i: usize = 0;
    while i < parts.len()
        invariant
            i <= parts.len(),
            all == crate::text::texts(parts@),
            pair_texts(out@) == pairs_in(all.take(i as int)),
        decreases parts.len() - i,
    {
        let part = parts[i].as_str();
        assert(all.take(i + 1).drop_last() =~= all.take(i as int));
        assert(all.take(i + 1).last() == part@);
        let ghost before = pair_texts(out@);
        let at: Option<usize> = find_text(part, "=", 0);
        if let Some(at) = at {
            proof {
                reveal_strlit("=");
                crate::text::find_from_is_first(part@, "="@, 0);
            }
            let n: usize = part.unicode_len();
            let key = part.substring_char(0, at);
            let value = part.substring_char(at + 1, n);
            assert(key@ =~= part@.take(at as int));
            assert(value@ =~= part@.skip(at + 1));
            out.push((key.to_owned(), value.to_owned()));
            assert(pair_texts(out@) =~= before.push((key@, value@)));
        }
        i += 1;
    }
    assert(all.take(i as int) =~= all);
    out
}

/// Whether a text is one entry of a form: there is something in it, and no `&`.
pub open spec fn is_entry(s: Seq<char>) -> bool {
    s.len() > 0 && !crate::text::has_char(s, '&')
}

/// Whether a text holds nothing that a form writes in another way.
pub open spec fn is_plain(s: Seq<char>) -> bool {
    !crate::text::has_char(s, '%') && !crate::text::has_char(s, '+')
}

/// What stands before the first `=` of a text, and what stands behind it.
pub open spec fn plain_pair(s: Seq<char>) -> (Seq<char>, Seq<char>) {
    match crate::text::find_from(s, "="@, 0) {
        Some(i) => (s.take(i), s.skip(i + 1)),
        None => (s, Seq::empty()),
    }
}

/// The names and values of a form.
pub uninterp spec fn form_pairs_of(s: Seq<char>) -> Seq<(Seq<char>, Seq<char>)>;

/// `url::form_urlencoded::parse`, on the bytes of a text: the names and values of a form in the
/// syntax `application/x-www-form-urlencoded`, in order. A single entry gives one pair; where
/// nothing in it is encoded, the pair is what stands before and behind the first `=`.
#[verifier::external_body]
pub(crate) fn form_pairs(s: &str) -> (r: Vec<(String, String)>)
    ensures
        pair_texts(r@) == form_pairs_of(s@),
        is_entry(s@) ==> r@.len() == 1,
        is_entry(s@) && is_plain(s@) ==> pair_texts(r@)[0] == plain_pair(s@),
{
    url::form_urlencoded::parse(s.as_bytes()).into_owned().collect()
}

/// A text is split at its first equals sign into a key and a value; one without an equals sign is
/// left out.
pub proof fn pairs_are_split_at_the_equals_sign(
    texts: Seq<Seq<char>>,
    key: Seq<char>,
    value: Seq<char>,
)
    requires
        !crate::text::has_char(key, '='),
    ensures
        pairs_in(texts.push(key + "="@ + value)) == pairs_in(texts).push((key, value)),
        pairs_in(texts.push(key)) == pairs_in(texts),
{
    let s = key + "="@ + value;
    reveal_strlit("=");
    assert(texts.push(s).drop_last() =~= texts);
    assert(texts.push(key).drop_last() =~= texts);
    crate::text::find_from_is_first(s, "="@, 0);
    crate::text::find_from_is_first(key, "="@, 0);
    assert(s.subrange(key.len() as int, key.len() as int + 1) =~= "="@);
    assert(crate::text::occurs_at(s, "="@, key.len() as int));
    let k = crate::text::find_from(s, "="@, 0)->0;
    if k < key.len() {
        assert(s.subrange(k, k + 1)[0] == '=');
        assert(key[k] == '=');
    }
    assert(s.take(k) =~= key);
    assert(s.skip(k + 1) =~= value);
    if let Some(m) = crate::text::find_from(key, "="@, 0) {
        assert(key.subrange(m, m + 1)[0] == '=');
        assert(key[m] == '=');
    }
}

} // verus!
