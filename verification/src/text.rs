//! Text helpers: decimal numerals, splitting, trimming, and the order of strings.

use vstd::prelude::*;

verus! {

/// `String::push` appends the given character to the end of the string.
pub assume_specification[ String::push ](s: &mut String, c: char)
    ensures
        final(s)@ == old(s)@.push(c),
;

/// The texts held by a sequence of strings.
pub open spec fn texts(v: Seq<String>) -> Seq<Seq<char>> {
    Seq::new(v.len(), |i: int| v[i]@)
}

/// The text held by an optional string.
pub open spec fn opt_text(o: Option<String>) -> Option<Seq<char>> {
    match o {
        Some(s) => Some(s@),
        None => None,
    }
}

/// The text of an optional string slice.
pub open spec fn opt_str(o: Option<&str>) -> Option<Seq<char>> {
    match o {
        Some(s) => Some(s@),
        None => None,
    }
}

/// An optional string slice as a string.
pub fn own(o: Option<&str>) -> (r: Option<String>)
    ensures
        opt_text(r) == opt_str(o),
{
    match o {
        Some(s) => Some(s.to_owned()),
        None => None,
    }
}

/// The decimal digit of a number below ten.
pub open spec fn digit_char(d: int) -> char {
    (d + 48) as char
}

/// The decimal numeral of a natural number, without leading zeros.
pub open spec fn dec(n: nat) -> Seq<char>
    decreases n,
{
    if n < 10 {
        seq![digit_char(n as int)]
    } else {
        dec(n / 10).push(digit_char((n % 10) as int))
    }
}

/// The characters of a string, in order.
pub fn chars(s: &str) -> (r: Vec<char>)
    ensures
        r@ == s@,
{
    let mut out: Vec<char> = Vec::new();
    for c in it: s.chars()
        invariant
            it.seq() == s@,
            out@ == s@.take(it.index() as int),
    {
        assert(s@.take(it.index() as int).push(c) =~= s@.take(it.index() + 1));
        out.push(c);
    }
    assert(s@.take(s@.len() as int) =~= s@);
    out
}

fn digit(d: u8) -> (c: char)
    requires
        d < 10,
    ensures
        c == digit_char(d as int),
{
    (d + 48) as char
}

/// Writes a number of up to 128 bits in decimal.
pub fn u128_text(n: u128) -> (r: String)
    ensures
        r@ == dec(n as nat),
    decreases n,
{
    let mut s = if n < 10 {
        String::new()
    } else {
        u128_text(n / 10)
    };
    s.push(digit((n % 10) as u8));
    assert(s@ =~= dec(n as nat));
    s
}

/// Writes a number in decimal.
pub fn u64_text(n: u64) -> (r: String)
    ensures
        r@ == dec(n as nat),
{
    u128_text(n as u128)
}

/// A time of whole seconds as durations are shown; no time is shown in the smallest unit.
pub open spec fn seconds_shown(n: nat) -> Seq<char> {
    if n == 0 {
        "0ns"@
    } else {
        dec(n) + "s"@
    }
}

/// A time of whole seconds as durations are shown.
pub fn seconds_text(n: u64) -> (r: String)
    ensures
        r@ == seconds_shown(n as nat),
{
    if n == 0 {
        "0ns".to_owned()
    } else {
        u64_text(n).concat("s")
    }
}

/// Whether two strings hold the same text.
pub fn same(a: &str, b: &str) -> (r: bool)
    ensures
        r == (a@ == b@),
{
    a.to_owned() == b.to_owned()
}

/// The order of strings: character by character, a proper prefix coming first.
pub open spec fn less(a: Seq<char>, b: Seq<char>) -> bool
    decreases a.len(),
{
    if b.len() == 0 {
        false
    } else if a.len() == 0 {
        true
    } else if a[0] != b[0] {
        a[0] < b[0]
    } else {
        less(a.drop_first(), b.drop_first())
    }
}

/// No text comes before itself.
pub proof fn less_irreflexive(a: Seq<char>)
    ensures
        !less(a, a),
    decreases a.len(),
{
    if a.len() > 0 {
        less_irreflexive(a.drop_first());
    }
}

/// The order of texts is transitive.
pub proof fn less_transitive(a: Seq<char>, b: Seq<char>, c: Seq<char>)
    requires
        less(a, b),
        less(b, c),
    ensures
        less(a, c),
    decreases a.len(),
{
    if a.len() > 0 && a[0] == b[0] && b[0] == c[0] {
        less_transitive(a.drop_first(), b.drop_first(), c.drop_first());
    }
}

/// Of two different texts one comes before the other.
pub proof fn less_total(a: Seq<char>, b: Seq<char>)
    ensures
        less(a, b) || less(b, a) || a == b,
    decreases a.len(),
{
    if a.len() > 0 && b.len() > 0 && a[0] == b[0] {
        less_total(a.drop_first(), b.drop_first());
        if a.drop_first() == b.drop_first() {
            assert(a =~= seq![a[0]] + a.drop_first());
            assert(b =~= seq![b[0]] + b.drop_first());
        }
    } else if a.len() == 0 && b.len() == 0 {
        assert(a =~= b);
    }
}

/// Whether the first string comes before the second one.
pub fn comes_before(a: &str, b: &str) -> (r: bool)
    ensures
        r == less(a@, b@),
{
    let x = chars(a);
    let y = chars(b);
    let mut i: usize = 0;
    assert(x@.skip(0) =~= x@);
    assert(y@.skip(0) =~= y@);
    while i < x.len() && i < y.len() && x[i] == y[i]
        invariant
            i <= x.len(),
            i <= y.len(),
            less(x@, y@) == less(x@.skip(i as int), y@.skip(i as int)),
        decreases x.len() - i,
    {
        assert(x@.skip(i as int).drop_first() =~= x@.skip(i + 1));
        assert(y@.skip(i as int).drop_first() =~= y@.skip(i + 1));
        i += 1;
    }
    if i >= y.len() {
        false
    } else if i >= x.len() {
        true
    } else {
        x[i] < y[i]
    }
}

/// Whether `pat` stands in `s` at position `i`.
pub open spec fn occurs_at(s: Seq<char>, pat: Seq<char>, i: int) -> bool {
    0 <= i && i + pat.len() <= s.len() && s.subrange(i, i + pat.len()) == pat
}

/// The first position from `i` on at which `pat` stands in `s`.
pub open spec fn find_from(s: Seq<char>, pat: Seq<char>, i: int) -> Option<int>
    decreases s.len() + 1 - i,
{
    if i < 0 || i > s.len() {
        None
    } else if occurs_at(s, pat, i) {
        Some(i)
    } else {
        find_from(s, pat, i + 1)
    }
}

/// What `find_from` returns is the least position at which the pattern stands.
pub proof fn find_from_is_first(s: Seq<char>, pat: Seq<char>, i: int)
    requires
        0 <= i,
    ensures
        match find_from(s, pat, i) {
            Some(k) => i <= k && occurs_at(s, pat, k) && (forall|j: int|
                i <= j < k ==> !#[trigger] occurs_at(s, pat, j)),
            None => forall|j: int| i <= j ==> !#[trigger] occurs_at(s, pat, j),
        },
    decreases s.len() + 1 - i,
{
    if i <= s.len() && !occurs_at(s, pat, i) {
        find_from_is_first(s, pat, i + 1);
    }
}

fn occurs(s: &Vec<char>, pat: &Vec<char>, i: usize) -> (r: bool)
    ensures
        r == occurs_at(s@, pat@, i as int),
{
    if i > s.len() || s.len() - i < pat.len() {
        return false;
    }
    let mut k: usize = 0;
    while k < pat.len()
        invariant
            i + pat.len() <= s.len(),
            k <= pat.len(),
            forall|j: int| 0 <= j < k ==> s[i + j] == pat[j],
        decreases pat.len() - k,
    {
        if s[i + k] != pat[k] {
            assert(s@.subrange(i as int, i + pat.len())[k as int] != pat@[k as int]);
            return false;
        }
        k += 1;
    }
    assert(s@.subrange(i as int, i + pat.len()) =~= pat@);
    true
}

/// Finds the first occurrence of a pattern at or after a position, counted in characters.
pub fn find_text(s: &str, pat: &str, from: usize) -> (r: Option<usize>)
    ensures
        match r {
            Some(k) => find_from(s@, pat@, from as int) == Some(k as int),
            None => find_from(s@, pat@, from as int) is None,
        },
{
    let x = chars(s);
    let p = chars(pat);
    let mut i: usize = from;
    while i <= x.len()
        invariant
            x@ == s@,
            p@ == pat@,
            find_from(s@, pat@, from as int) == find_from(s@, pat@, i as int),
        decreases x.len() + 1 - i,
    {
        if occurs(&x, &p, i) {
            return Some(i);
        }
        if i == x.len() {
            assert(find_from(s@, pat@, i + 1) is None);
            return None;
        }
        i += 1;
    }
    None
}

/// Whether a text begins with a prefix.
pub open spec fn begins(s: Seq<char>, prefix: Seq<char>) -> bool {
    occurs_at(s, prefix, 0)
}

/// Whether a text ends with a suffix.
pub open spec fn ends(s: Seq<char>, suffix: Seq<char>) -> bool {
    occurs_at(s, suffix, s.len() - suffix.len())
}

/// Whether a string begins with a prefix.
pub fn begins_with(s: &str, prefix: &str) -> (r: bool)
    ensures
        r == begins(s@, prefix@),
{
    occurs(&chars(s), &chars(prefix), 0)
}

/// Whether a string ends with a suffix.
pub fn ends_with(s: &str, suffix: &str) -> (r: bool)
    ensures
        r == ends(s@, suffix@),
{
    let x = chars(s);
    let p = chars(suffix);
    if p.len() > x.len() {
        return false;
    }
    occurs(&x, &p, x.len() - p.len())
}

/// The text without a suffix that it ends with.
pub fn without_suffix<'a>(s: &'a str, suffix: &str) -> (r: Option<&'a str>)
    ensures
        match r {
            Some(t) => ends(s@, suffix@) && t@ == s@.take(s@.len() - suffix@.len()),
            None => !ends(s@, suffix@),
        },
{
    if ends_with(s, suffix) {
        let n: usize = s.unicode_len() - suffix.unicode_len();
        Some(s.substring_char(0, n))
    } else {
        None
    }
}

/// The text without a prefix that it begins with.
pub fn without_prefix<'a>(s: &'a str, prefix: &str) -> (r: Option<&'a str>)
    ensures
        match r {
            Some(t) => begins(s@, prefix@) && t@ == s@.skip(prefix@.len() as int),
            None => !begins(s@, prefix@),
        },
{
    if begins_with(s, prefix) {
        let n: usize = s.unicode_len();
        Some(s.substring_char(prefix.unicode_len(), n))
    } else {
        None
    }
}

/// The decimal numeral of an integer, with a minus sign in front of a negative one.
pub open spec fn dec_int(n: int) -> Seq<char> {
    if n < 0 {
        "-"@ + dec((-n) as nat)
    } else {
        dec(n as nat)
    }
}

/// Writes an integer in decimal.
pub fn i64_text(n: i64) -> (r: String)
    ensures
        r@ == dec_int(n as int),
{
    if n < 0 {
        let magnitude: u64 = (-(n + 1)) as u64 + 1;
        "-".to_owned().concat(u64_text(magnitude).as_str())
    } else {
        u64_text(n as u64)
    }
}

/// Texts put one after another with a separator between them.
pub open spec fn joined(parts: Seq<Seq<char>>, sep: Seq<char>) -> Seq<char>
    decreases parts.len(),
{
    if parts.len() == 0 {
        Seq::empty()
    } else if parts.len() == 1 {
        parts[0]
    } else {
        joined(parts.drop_last(), sep) + sep + parts.last()
    }
}

/// Puts strings one after another with a separator between them.
pub fn join(parts: &Vec<String>, sep: &str) -> (r: String)
    ensures
        r@ == joined(texts(parts@), sep@),
{
    let mut out = String::new();
    let mut i: usize = 0;
    while i < parts.len()
        invariant
            i <= parts.len(),
            out@ == joined(texts(parts@.take(i as int)), sep@),
        decreases parts.len() - i,
    {
        let ghost before = texts(parts@.take(i as int));
        let ghost after = texts(parts@.take(i + 1));
        assert(after.drop_last() =~= before);
        assert(after.last() == parts@[i as int]@);
        if i > 0 {
            out.append(sep);
            out.append(parts[i].as_str());
        } else {
            out = parts[i].clone();
        }
        i += 1;
    }
    assert(parts@.take(parts@.len() as int) =~= parts@);
    out
}

/// The quoted and escaped form that the `Debug` output of a string has.
pub uninterp spec fn debug_of_text(s: Seq<char>) -> Seq<char>;

/// The `Debug` output of a `str`: `format!` with `{:?}` quotes and escapes the text, and the
/// result depends on that text alone.
#[verifier::external_body]
pub(crate) fn debug_text(s: &str) -> (r: String)
    ensures
        r@ == debug_of_text(s@),
{
    format!("{:?}", s)
}

/// The quoted forms of texts in square brackets, separated by a comma and a space.
pub open spec fn debug_list(v: Seq<Seq<char>>) -> Seq<char> {
    "["@ + joined(Seq::new(v.len(), |i: int| debug_of_text(v[i])), ", "@) + "]"@
}

/// Writes strings as a bracketed list of quoted forms.
pub fn debug_texts(v: &Vec<String>) -> (r: String)
    ensures
        r@ == debug_list(texts(v@)),
{
    let mut quoted: Vec<String> = Vec::new();
    let mut i: usize = 0;
    while i < v.len()
        invariant
            i <= v.len(),
            quoted@.len() == i,
            forall|j: int| 0 <= j < i ==> #[trigger] quoted@[j]@ == debug_of_text(v@[j]@),
        decreases v.len() - i,
    {
        quoted.push(debug_text(v[i].as_str()));
        i += 1;
    }
    assert(texts(quoted@) =~= Seq::new(
        texts(v@).len(),
        |j: int| debug_of_text(texts(v@)[j]),
    ));
    "[".to_owned().concat(join(&quoted, ", ").as_str()).concat("]")
}

/// Whether a character occurs in a text.
pub open spec fn has_char(s: Seq<char>, c: char) -> bool {
    exists|i: int| 0 <= i < s.len() && #[trigger] s[i] == c
}

/// Whether `parts` are the pieces of `s` between the occurrences of a separator.
pub open spec fn is_split(s: Seq<char>, sep: char, parts: Seq<Seq<char>>) -> bool {
    &&& parts.len() > 0
    &&& joined(parts, seq![sep]) == s
    &&& forall|i: int| 0 <= i < parts.len() ==> !has_char(#[trigger] parts[i], sep)
}

proof fn last_piece(s: Seq<char>, sep: char, parts: Seq<Seq<char>>)
    requires
        is_split(s, sep, parts),
    ensures
        parts.last().len() <= s.len(),
        s.skip(s.len() - parts.last().len()) == parts.last(),
        parts.len() == 1 <==> !has_char(s, sep),
        parts.len() > 1 ==> {
            let k = s.len() - parts.last().len() - 1;
            &&& 0 <= k
            &&& s[k] == sep
            &&& s.take(k) == joined(parts.drop_last(), seq![sep])
            &&& is_split(s.take(k), sep, parts.drop_last())
        },
{
    if parts.len() == 1 {
        assert(s.skip(0) =~= parts[0]);
    } else {
        let front = joined(parts.drop_last(), seq![sep]);
        let k = front.len() as int;
        assert(s == front + seq![sep] + parts.last());
        assert(s.skip(s.len() - parts.last().len()) =~= parts.last());
        assert(s[k] == sep);
        assert(s.take(k) =~= front);
        assert forall|i: int| 0 <= i < parts.drop_last().len() implies !has_char(
            #[trigger] parts.drop_last()[i],
            sep,
        ) by {
            assert(!has_char(parts[i], sep));
        }
    }
}

/// The pieces of a text are determined by the text and the separator.
pub proof fn split_is_unique(s: Seq<char>, sep: char, a: Seq<Seq<char>>, b: Seq<Seq<char>>)
    requires
        is_split(s, sep, a),
        is_split(s, sep, b),
    ensures
        a == b,
    decreases a.len(),
{
    last_piece(s, sep, a);
    last_piece(s, sep, b);
    if a.len() == 1 {
        assert(a =~= b);
    } else {
        let ka = s.len() - a.last().len() - 1;
        let kb = s.len() - b.last().len() - 1;
        assert(!has_char(a[a.len() - 1], sep));
        assert(!has_char(b[b.len() - 1], sep));
        if ka < kb {
            assert(a.last()[kb - ka - 1] == s[kb]);
        }
        if kb < ka {
            assert(b.last()[ka - kb - 1] == s[ka]);
        }
        split_is_unique(s.take(ka), sep, a.drop_last(), b.drop_last());
        assert(a =~= a.drop_last().push(a.last()));
        assert(b =~= b.drop_last().push(b.last()));
    }
}

/// The pieces of a text between the occurrences of a separator.
pub open spec fn pieces(s: Seq<char>, sep: char) -> Seq<Seq<char>> {
    choose|parts: Seq<Seq<char>>| is_split(s, sep, parts)
}

/// Splits a string at every occurrence of a separator.
pub fn split(s: &str, sep: char) -> (r: Vec<String>)
    ensures
        is_split(s@, sep, texts(r@)),
        texts(r@) == pieces(s@, sep),
{
    let x = chars(s);
    let mut parts: Vec<String> = Vec::new();
    let mut piece = String::new();
    let mut i: usize = 0;
    assert(texts(parts@).push(piece@) =~= seq![Seq::<char>::empty()]);
    assert(x@.take(0) =~= Seq::<char>::empty());
    while i < x.len()
        invariant
            i <= x.len(),
            is_split(x@.take(i as int), sep, texts(parts@).push(piece@)),
        decreases x.len() - i,
    {
        let ghost was = texts(parts@).push(piece@);
        let ghost front = parts@;
        let ghost open = piece@;
        assert(was.drop_last() =~= texts(front));
        assert(was.last() == open);
        assert(!has_char(was[was.len() - 1], sep));
        assert(x@.take(i + 1) =~= x@.take(i as int).push(x@[i as int]));
        if x[i] == sep {
            parts.push(piece);
            piece = String::new();
            let ghost now = texts(parts@).push(piece@);
            assert(now.drop_last() =~= was);
            assert(x@.take(i + 1) =~= x@.take(i as int) + seq![sep] + Seq::<char>::empty());
            assert forall|j: int| 0 <= j < now.len() implies !has_char(#[trigger] now[j], sep) by {
                if j < was.len() {
                    assert(now[j] == was[j]);
                }
            }
        } else {
            piece.push(x[i]);
            let ghost now = texts(parts@).push(piece@);
            assert(now.drop_last() =~= was.drop_last());
            proof {
                if now.len() == 1 {
                    assert(now[0] =~= x@.take(i + 1));
                } else {
                    let lead = joined(was.drop_last(), seq![sep]) + seq![sep];
                    assert(lead + open.push(x@[i as int]) =~= (lead + open).push(x@[i as int]));
                }
            }
            assert forall|j: int| 0 <= j < now.len() implies !has_char(#[trigger] now[j], sep) by {
                if j < now.len() - 1 {
                    assert(now[j] == was[j]);
                } else if has_char(now[j], sep) {
                    let m = choose|m: int| 0 <= m < now[j].len() && #[trigger] now[j][m] == sep;
                    assert(open[m] == sep);
                }
            }
        }
        i += 1;
    }
    assert(x@.take(i as int) =~= x@);
    let ghost was = texts(parts@).push(piece@);
    parts.push(piece);
    assert(texts(parts@) =~= was);
    proof {
        split_is_unique(s@, sep, texts(parts@), pieces(s@, sep));
    }
    parts
}

/// Whether a character is white space.
pub open spec fn is_white(c: char) -> bool {
    ||| 0x9 <= c as u32 <= 0xd
    ||| c as u32 == 0x20
    ||| c as u32 == 0x85
    ||| c as u32 == 0xa0
    ||| c as u32 == 0x1680
    ||| 0x2000 <= c as u32 <= 0x200a
    ||| c as u32 == 0x2028
    ||| c as u32 == 0x2029
    ||| c as u32 == 0x202f
    ||| c as u32 == 0x205f
    ||| c as u32 == 0x3000
}

/// Whether a character is white space.
pub fn is_whitespace(c: char) -> (r: bool)
    ensures
        r == is_white(c),
{
    let n: u32 = c as u32;
    (0x9 <= n && n <= 0xd) || n == 0x20 || n == 0x85 || n == 0xa0 || n == 0x1680 || (0x2000 <= n && n
        <= 0x200a) || n == 0x2028 || n == 0x2029 || n == 0x202f || n == 0x205f || n == 0x3000
}

/// A text without the white space at its beginning.
pub open spec fn trim_front(s: Seq<char>) -> Seq<char>
    decreases s.len(),
{
    if s.len() > 0 && is_white(s[0]) {
        trim_front(s.drop_first())
    } else {
        s
    }
}

/// A text without the white space at its end.
pub open spec fn trim_back(s: Seq<char>) -> Seq<char>
    decreases s.len(),
{
    if s.len() > 0 && is_white(s.last()) {
        trim_back(s.drop_last())
    } else {
        s
    }
}

/// A text without the white space at its beginning and end.
pub open spec fn trimmed(s: Seq<char>) -> Seq<char> {
    trim_back(trim_front(s))
}

/// The string without the white space at its beginning and end.
pub fn trim<'a>(s: &'a str) -> (r: &'a str)
    ensures
        r@ == trimmed(s@),
{
    let x = chars(s);
    let mut a: usize = 0;
    assert(x@.skip(0) =~= x@);
    while a < x.len() && is_whitespace(x[a])
        invariant
            a <= x.len(),
            trim_front(x@) == trim_front(x@.skip(a as int)),
        decreases x.len() - a,
    {
        assert(x@.skip(a as int).drop_first() =~= x@.skip(a + 1));
        a += 1;
    }
    let mut b: usize = x.len();
    assert(x@.subrange(a as int, b as int) =~= x@.skip(a as int));
    while b > a && is_whitespace(x[b - 1])
        invariant
            a <= b <= x.len(),
            trim_back(x@.skip(a as int)) == trim_back(x@.subrange(a as int, b as int)),
        decreases b,
    {
        assert(x@.subrange(a as int, b as int).drop_last() =~= x@.subrange(a as int, b - 1));
        b -= 1;
    }
    s.substring_char(a, b)
}

/// The lowercase form of a text.
pub uninterp spec fn lowercase_of(s: Seq<char>) -> Seq<char>;

/// `str::to_lowercase`: the lowercase equivalent of the text, by the Unicode tables.
#[verifier::external_body]
pub(crate) fn lowercase(s: &str) -> (r: String)
    ensures
        r@ == lowercase_of(s@),
{
    s.to_lowercase()
}

/// Whether one of some strings holds a text.
pub fn contains_text(list: &Vec<String>, s: &str) -> (r: bool)
    ensures
        r == texts(list@).contains(s@),
{
    let ghost all = texts(list@);
    let mut i: usize = 0;
    while i < list.len()
        invariant
            i <= list.len(),
            all == texts(list@),
            forall|j: int| 0 <= j < i ==> #[trigger] all[j] != s@,
        decreases list.len() - i,
    {
        if same(list[i].as_str(), s) {
            assert(all[i as int] == s@);
            return true;
        }
        i += 1;
    }
    false
}

/// The lowercase form of an ASCII letter; any other character as it is.
pub open spec fn ascii_lower(c: char) -> char {
    if 'A' <= c <= 'Z' {
        (c as u32 + 32) as char
    } else {
        c
    }
}

/// A text with its ASCII letters in lowercase.
pub open spec fn ascii_lowered(s: Seq<char>) -> Seq<char> {
    Seq::new(s.len(), |i: int| ascii_lower(s[i]))
}

/// The lowercase form of an ASCII letter; any other character as it is.
pub fn lower_char(c: char) -> (r: char)
    ensures
        r == ascii_lower(c),
{
    if 'A' <= c && c <= 'Z' {
        (c as u8 + 32) as char
    } else {
        c
    }
}

/// The string with its ASCII letters in lowercase.
pub fn to_ascii_lower(s: &str) -> (r: String)
    ensures
        r@ == ascii_lowered(s@),
{
    let x = chars(s);
    let mut out = String::new();
    let mut i: usize = 0;
    while i < x.len()
        invariant
            i <= x.len(),
            out@ == ascii_lowered(x@.take(i as int)),
        decreases x.len() - i,
    {
        out.push(lower_char(x[i]));
        assert(ascii_lowered(x@.take(i + 1)) =~= ascii_lowered(x@.take(i as int)).push(
            ascii_lower(x@[i as int]),
        ));
        i += 1;
    }
    assert(x@.take(i as int) =~= x@);
    out
}

/// Whether two texts are the same but for the case of ASCII letters.
pub open spec fn same_ignoring_case(a: Seq<char>, b: Seq<char>) -> bool {
    ascii_lowered(a) == ascii_lowered(b)
}

/// Whether two strings are the same but for the case of ASCII letters.
pub fn eq_ignore_case(a: &str, b: &str) -> (r: bool)
    ensures
        r == same_ignoring_case(a@, b@),
{
    same(to_ascii_lower(a).as_str(), to_ascii_lower(b).as_str())
}

/// Whether a text stands somewhere in another.
pub open spec fn holds(s: Seq<char>, t: Seq<char>) -> bool {
    exists|i: int| #[trigger] occurs_at(s, t, i)
}

/// A text holds what it is put together of.
pub proof fn holds_its_middle(a: Seq<char>, t: Seq<char>, b: Seq<char>)
    ensures
        holds(a + t + b, t),
{
    let s = a + t + b;
    assert(s.subrange(a.len() as int, a.len() + t.len() as int) =~= t);
    assert(occurs_at(s, t, a.len() as int));
}

/// A longer text holds what its parts hold.
pub proof fn holds_in_a_part(a: Seq<char>, b: Seq<char>, t: Seq<char>)
    requires
        holds(a, t) || holds(b, t),
    ensures
        holds(a + b, t),
{
    if holds(a, t) {
        let i = choose|i: int| #[trigger] occurs_at(a, t, i);
        assert((a + b).subrange(i, i + t.len()) =~= a.subrange(i, i + t.len()));
        assert(occurs_at(a + b, t, i));
    } else {
        let i = choose|i: int| #[trigger] occurs_at(b, t, i);
        assert((a + b).subrange(a.len() + i, a.len() + i + t.len()) =~= b.subrange(
            i,
            i + t.len(),
        ));
        assert(occurs_at(a + b, t, a.len() + i));
    }
}

/// Texts can be put together in groups.
pub proof fn grouped_together(a: Seq<char>, b: Seq<char>, c: Seq<char>)
    ensures
        (a + b) + c == a + (b + c),
{
    assert((a + b) + c =~= a + (b + c));
}

/// A text holds its end.
pub proof fn holds_its_end(a: Seq<char>, t: Seq<char>)
    ensures
        holds(a + t, t),
{
    holds_its_middle(a, t, Seq::empty());
    assert(a + t + Seq::<char>::empty() =~= a + t);
}

/// Whether one text comes directly behind another one in a list.
pub open spec fn follows(list: Seq<Seq<char>>, first: Seq<char>, second: Seq<char>) -> bool {
    exists|i: int| 0 <= i < list.len() - 1 && #[trigger] list[i] == first && list[i + 1] == second
}

/// A text that is joined from parts holds each of them.
pub proof fn joined_holds_its_parts(parts: Seq<Seq<char>>, sep: Seq<char>, i: int)
    requires
        0 <= i < parts.len(),
    ensures
        holds(joined(parts, sep), parts[i]),
    decreases parts.len(),
{
    if parts.len() == 1 {
        holds_its_end(Seq::empty(), parts[0]);
        assert(Seq::<char>::empty() + parts[0] =~= parts[0]);
    } else {
        let front = parts.drop_last();
        if i < front.len() {
            assert(front[i] == parts[i]);
            joined_holds_its_parts(front, sep, i);
            holds_in_a_part(joined(front, sep), sep, parts[i]);
            holds_in_a_part(joined(front, sep) + sep, parts.last(), parts[i]);
        } else {
            holds_its_end(joined(front, sep) + sep, parts.last());
        }
    }
}

/// Joining one more part adds it behind a separator.
pub proof fn joining_goes_on(parts: Seq<Seq<char>>, more: Seq<char>, sep: Seq<char>)
    requires
        parts.len() > 0,
    ensures
        joined(parts.push(more), sep) == joined(parts, sep) + sep + more,
{
    assert(parts.push(more).drop_last() =~= parts);
}

proof fn front_is_trimmed(s: Seq<char>) -> (n: int)
    ensures
        0 <= n <= s.len(),
        trim_front(s) == s.skip(n),
        forall|k: int| 0 <= k < n ==> is_white(#[trigger] s[k]),
        n < s.len() ==> !is_white(s[n]),
    decreases s.len(),
{
    if s.len() > 0 && is_white(s[0]) {
        let m = front_is_trimmed(s.drop_first());
        assert(s.drop_first().skip(m) =~= s.skip(m + 1));
        assert forall|k: int| 0 <= k < m + 1 implies is_white(#[trigger] s[k]) by {
            if k > 0 {
                assert(s.drop_first()[k - 1] == s[k]);
            }
        }
        m + 1
    } else {
        assert(s.skip(0) =~= s);
        0
    }
}

proof fn back_is_trimmed(s: Seq<char>) -> (n: int)
    ensures
        0 <= n <= s.len(),
        trim_back(s) == s.take(n),
        forall|k: int| n <= k < s.len() ==> is_white(#[trigger] s[k]),
        n > 0 ==> !is_white(s[n - 1]),
    decreases s.len(),
{
    if s.len() > 0 && is_white(s.last()) {
        let m = back_is_trimmed(s.drop_last());
        assert(s.drop_last().take(m) =~= s.take(m));
        assert forall|k: int| m <= k < s.len() implies is_white(#[trigger] s[k]) by {
            if k < s.len() - 1 {
                assert(s.drop_last()[k] == s[k]);
            }
        }
        m
    } else {
        assert(s.take(s.len() as int) =~= s);
        s.len() as int
    }
}

/// Trimming takes away the white space at both ends and nothing else.
pub proof fn trimming_takes_white_space_alone(s: Seq<char>)
    ensures
        exists|i: int, j: int|
            0 <= i <= j <= s.len() && trimmed(s) == #[trigger] s.subrange(i, j) && (forall|k: int|
                (0 <= k < i || j <= k < s.len()) ==> is_white(#[trigger] s[k])),
        trimmed(s).len() > 0 ==> !is_white(trimmed(s)[0]) && !is_white(trimmed(s).last()),
        trimmed(s).len() == 0 <==> forall|k: int| 0 <= k < s.len() ==> is_white(#[trigger] s[k]),
{
    let i = front_is_trimmed(s);
    let front = s.skip(i);
    let n = back_is_trimmed(front);
    let j = i + n;
    assert(front.take(n) =~= s.subrange(i, j));
    assert forall|k: int| (0 <= k < i || j <= k < s.len()) implies is_white(#[trigger] s[k]) by {
        if k >= j {
            assert(front[k - i] == s[k]);
        }
    }
    if n > 0 {
        assert(s.subrange(i, j)[0] == s[i]);
        assert(s.subrange(i, j).last() == front[n - 1]);
        assert(!is_white(s[i]));
    }
    assert(trimmed(s) == s.subrange(i, j));
}

/// Two texts are the same but for the case of their letters where they are as long as each other
/// and each character is the same, or the small form of the other.
pub proof fn case_alone_is_ignored(a: Seq<char>, b: Seq<char>)
    ensures
        same_ignoring_case(a, b) <==> a.len() == b.len() && forall|i: int|
            0 <= i < a.len() ==> #[trigger] a[i] == b[i] || ('A' <= a[i] <= 'Z' && b[i] as u32
                == a[i] as u32 + 32) || ('A' <= b[i] <= 'Z' && a[i] as u32 == b[i] as u32 + 32),
{
    let (x, y) = (ascii_lowered(a), ascii_lowered(b));
    if same_ignoring_case(a, b) {
        assert(x.len() == a.len() && y.len() == b.len());
        assert forall|i: int| 0 <= i < a.len() implies #[trigger] a[i] == b[i] || ('A' <= a[i]
            <= 'Z' && b[i] as u32 == a[i] as u32 + 32) || ('A' <= b[i] <= 'Z' && a[i] as u32
            == b[i] as u32 + 32) by {
            assert(x[i] == y[i]);
            assert(x[i] == ascii_lower(a[i]) && y[i] == ascii_lower(b[i]));
        }
    }
    if a.len() == b.len() && forall|i: int|
        0 <= i < a.len() ==> #[trigger] a[i] == b[i] || ('A' <= a[i] <= 'Z' && b[i] as u32
            == a[i] as u32 + 32) || ('A' <= b[i] <= 'Z' && a[i] as u32 == b[i] as u32 + 32) {
        assert forall|i: int| 0 <= i < x.len() implies x[i] == y[i] by {
            assert(a[i] == b[i] || ('A' <= a[i] <= 'Z' && b[i] as u32 == a[i] as u32 + 32) || (
            'A' <= b[i] <= 'Z' && a[i] as u32 == b[i] as u32 + 32));
        }
        assert(x =~= y);
    }
}

/// What stands between two texts is determined by the whole.
pub proof fn middles_are_determined(h: Seq<char>, a: Seq<char>, b: Seq<char>, t: Seq<char>)
    requires
        h + a + t == h + b + t,
    ensures
        a == b,
{
    let x = h + a + t;
    let y = h + b + t;
    assert(x.len() == h.len() + a.len() + t.len());
    assert(y.len() == h.len() + b.len() + t.len());
    assert(x.subrange(h.len() as int, h.len() + a.len() as int) =~= a);
    assert(y.subrange(h.len() as int, h.len() + b.len() as int) =~= b);
}

/// A character is determined by its number.
pub proof fn characters_are_their_numbers(a: char, b: char)
    requires
        a as u32 == b as u32,
    ensures
        a == b,
{
}

/// A negative number is written with a minus sign, any other one without.
pub proof fn negative_numbers_have_a_minus_sign(n: int)
    ensures
        n >= 0 ==> dec_int(n) == dec(n as nat),
        n < 0 ==> dec_int(n) == "-"@ + dec((-n) as nat),
{
}

/// A time is written in seconds, but for none at all.
pub proof fn times_are_written_in_seconds(n: nat)
    ensures
        n > 0 ==> seconds_shown(n) == dec(n) + "s"@,
        seconds_shown(0) == "0ns"@,
{
}

/// A numeral grows by a digit for each further place.
pub proof fn numerals_grow_by_a_digit(n: nat, d: int)
    requires
        n > 0,
        0 <= d < 10,
    ensures
        dec((10 * n + d) as nat) == dec(n).push((d + '0' as int) as char),
{
    assert((10 * n + d) / 10 == n);
    assert((10 * n + d) % 10 == d);
}

} // verus!
