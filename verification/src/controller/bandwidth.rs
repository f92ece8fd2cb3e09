//! Bandwidths as `tc` writes them.

use vstd::prelude::*;

use crate::controller::structs::{Action, ExperimentFile};
use crate::text::{chars, is_whitespace, same};

verus! {

/// The bandwidth of a link of an emulated network, in Mbit/s, where nothing asks for more.
pub const BASE_LINK_BANDWIDTH_MBIT: u32 = 1000;

/// The lowercase form of a character beyond ASCII.
pub uninterp spec fn lowercase_of_char(c: char) -> Seq<char>;

/// `char::to_lowercase`: the lowercase mapping of the character, by the Unicode tables, as one
/// or more characters. Of ASCII, the letters are mapped and nothing else is.
#[verifier::external_body]
fn lowercase_char(c: char) -> (r: String)
    ensures
        c as u32 <= 0x7f ==> r@ == seq![crate::text::ascii_lower(c)],
        c as u32 > 0x7f ==> r@ == lowercase_of_char(c),
{
    c.to_lowercase().to_string()
}

/// The lowercase form of a character.
pub open spec fn lowered_char(c: char) -> Seq<char> {
    if c as u32 <= 0x7f {
        seq![crate::text::ascii_lower(c)]
    } else {
        lowercase_of_char(c)
    }
}

/// A text in lowercase, without white space.
pub open spec fn condensed(s: Seq<char>) -> Seq<char>
    decreases s.len(),
{
    if s.len() == 0 {
        Seq::empty()
    } else if crate::text::is_white(s.last()) {
        condensed(s.drop_last())
    } else {
        condensed(s.drop_last()) + lowered_char(s.last())
    }
}

/// A text in lowercase, without white space.
pub fn condense(s: &str) -> (r: String)
    ensures
        r@ == condensed(s@),
{
    let x = chars(s);
    let mut out = String::new();
    let mut i: usize = 0;
    while i < x.len()
        invariant
            i <= x.len(),
            out@ == condensed(x@.take(i as int)),
        decreases x.len() - i,
    {
        assert(x@.take(i + 1).drop_last() =~= x@.take(i as int));
        if !is_whitespace(x[i]) {
            out.append(lowercase_char(x[i]).as_str());
        }
        i += 1;
    }
    assert(x@.take(i as int) =~= s@);
    out
}

/// White space in a bandwidth does not count.
pub proof fn white_space_does_not_count(s: Seq<char>, i: int)
    requires
        0 <= i < s.len(),
        crate::text::is_white(s[i]),
    ensures
        bandwidth_parts(condensed(s.remove(i))) == bandwidth_parts(condensed(s)),
{
    condensing_drops_white_space(s, i);
}

proof fn condensing_drops_white_space(s: Seq<char>, i: int)
    requires
        0 <= i < s.len(),
        crate::text::is_white(s[i]),
    ensures
        condensed(s.remove(i)) == condensed(s),
    decreases s.len(),
{
    if i == s.len() - 1 {
        assert(s.remove(i) =~= s.drop_last());
    } else {
        condensing_drops_white_space(s.drop_last(), i);
        assert(s.remove(i).drop_last() =~= s.drop_last().remove(i));
    }
}

/// Whether a character can stand in a number with a fraction.
pub open spec fn is_number_char(c: char) -> bool {
    '0' <= c <= '9' || c == '.'
}

/// The length of the longest prefix that consists of digits and points.
pub open spec fn number_length(s: Seq<char>) -> int
    decreases s.len(),
{
    if s.len() > 0 && is_number_char(s[0]) {
        1 + number_length(s.skip(1))
    } else {
        0
    }
}

/// How many points a text has.
pub open spec fn points(s: Seq<char>) -> int
    decreases s.len(),
{
    if s.len() == 0 {
        0
    } else {
        points(s.drop_last()) + (if s.last() == '.' {
            1int
        } else {
            0
        })
    }
}

/// Whether digits and points are a number: with a digit, and at most one point.
pub open spec fn is_number(s: Seq<char>) -> bool {
    points(s) <= 1 && points(s) < s.len()
}

/// The ratio of a unit of bandwidth to one Mbit/s.
pub open spec fn unit_ratio(unit: Seq<char>) -> Option<(int, int)> {
    if unit == "bit"@ || unit == "bps"@ {
        Some((1, 1_000_000))
    } else if unit == "kbit"@ || unit == "kbps"@ {
        Some((1, 1000))
    } else if unit == "mbit"@ || unit == "mbps"@ {
        Some((1, 1))
    } else if unit == "gbit"@ || unit == "gbps"@ {
        Some((1000, 1))
    } else if unit == "tbit"@ || unit == "tbps"@ {
        Some((1_000_000, 1))
    } else {
        None
    }
}

/// A number of units, each of which is a ratio of one Mbit/s.
#[derive(Debug)]
pub struct Bandwidth {
    pub number: String,
    pub numerator: u32,
    pub denominator: u32,
}

fn ratio_of(unit: &str) -> (r: Option<(u32, u32)>)
    ensures
        match r {
            Some(x) => unit_ratio(unit@) == Some((x.0 as int, x.1 as int)),
            None => unit_ratio(unit@) is None,
        },
{
    if same(unit, "bit") || same(unit, "bps") {
        Some((1, 1_000_000))
    } else if same(unit, "kbit") || same(unit, "kbps") {
        Some((1, 1000))
    } else if same(unit, "mbit") || same(unit, "mbps") {
        Some((1, 1))
    } else if same(unit, "gbit") || same(unit, "gbps") {
        Some((1000, 1))
    } else if same(unit, "tbit") || same(unit, "tbps") {
        Some((1_000_000, 1))
    } else {
        None
    }
}

fn number_end(x: &Vec<char>) -> (r: (usize, usize))
    ensures
        r.0 <= x@.len(),
        r.0 == number_length(x@),
        r.1 == points(x@.take(r.0 as int)),
{
    let mut i: usize = 0;
    let mut n: usize = 0;
    assert(x@.skip(0) =~= x@);
    while i < x.len() && (('0' <= x[i] && x[i] <= '9') || x[i] == '.')
        invariant
            i <= x.len(),
            n <= i,
            n == points(x@.take(i as int)),
            number_length(x@) == i + number_length(x@.skip(i as int)),
        decreases x.len() - i,
    {
        assert(x@.take(i + 1).drop_last() =~= x@.take(i as int));
        assert(x@.skip(i as int).skip(1) =~= x@.skip(i + 1));
        if x[i] == '.' {
            n += 1;
        }
        i += 1;
    }
    (i, n)
}

/// The parts of a condensed bandwidth: a number and a known unit.
pub open spec fn bandwidth_parts(s: Seq<char>) -> Option<(Seq<char>, (int, int))> {
    let number = s.take(number_length(s));
    match unit_ratio(s.skip(number_length(s))) {
        Some(ratio) => if is_number(number) {
            Some((number, ratio))
        } else {
            None
        },
        None => None,
    }
}

/// The parts of a condensed bandwidth.
pub fn split_bandwidth(s: &str) -> (r: Option<Bandwidth>)
    ensures
        match r {
            Some(b) => bandwidth_parts(s@) == Some(
                (b.number@, (b.numerator as int, b.denominator as int)),
            ),
            None => bandwidth_parts(s@) is None,
        },
{
    let x = chars(s);
    let (end, n) = number_end(&x);
    let number = s.substring_char(0, end);
    let unit = s.substring_char(end, x.len());
    assert(number@ =~= s@.take(end as int));
    assert(unit@ =~= s@.skip(end as int));
    match ratio_of(unit) {
        Some((numerator, denominator)) => if n <= 1 && n < end {
            Some(Bandwidth { number: number.to_owned(), numerator, denominator })
        } else {
            None
        },
        None => None,
    }
}

/// The number and the unit of a bandwidth, whatever its case and white space.
pub fn parse_bandwidth(raw: &str) -> (r: Option<Bandwidth>)
    ensures
        match r {
            Some(b) => bandwidth_parts(condensed(raw@)) == Some(
                (b.number@, (b.numerator as int, b.denominator as int)),
            ),
            None => bandwidth_parts(condensed(raw@)) is None,
        },
{
    let s = condense(raw);
    split_bandwidth(s.as_str())
}

/// The bandwidths that actions ask for, in their order; what is no bandwidth is passed over.
pub open spec fn asked_parts(actions: Seq<Action>) -> Seq<(Seq<char>, (int, int))>
    decreases actions.len(),
{
    if actions.len() == 0 {
        Seq::empty()
    } else {
        let before = asked_parts(actions.drop_last());
        match actions.last().bandwidth {
            Some(raw) => match bandwidth_parts(condensed(raw@)) {
                Some(parts) => before.push(parts),
                None => before,
            },
            None => before,
        }
    }
}

/// What bandwidths say.
pub open spec fn bandwidth_views(v: Seq<Bandwidth>) -> Seq<(Seq<char>, (int, int))> {
    Seq::new(v.len(), |i: int| (v[i].number@, (v[i].numerator as int, v[i].denominator as int)))
}

/// The bandwidths that the actions of an experiment ask for.
pub fn asked_bandwidths(experiment: &ExperimentFile) -> (r: Vec<Bandwidth>)
    ensures
        bandwidth_views(r@) == (match experiment.actions {
            Some(actions) => asked_parts(actions@),
            None => Seq::empty(),
        }),
{
    let mut out: Vec<Bandwidth> = Vec::new();
    if let Some(actions) = &experiment.actions {
        let mut i: usize = 0;
        assert(bandwidth_views(out@) =~= asked_parts(actions@.take(0)));
        while i < actions.len()
            invariant
                i <= actions.len(),
                bandwidth_views(out@) == asked_parts(actions@.take(i as int)),
            decreases actions.len() - i,
        {
            assert(actions@.take(i + 1).drop_last() =~= actions@.take(i as int));
            let ghost before = bandwidth_views(out@);
            if let Some(raw) = &actions[i].bandwidth {
                if let Some(b) = parse_bandwidth(raw.as_str()) {
                    out.push(b);
                    assert(bandwidth_views(out@) =~= before.push(
                        (b.number@, (b.numerator as int, b.denominator as int)),
                    ));
                }
            }
            i += 1;
        }
        assert(actions@.take(i as int) =~= actions@);
    }
    assert(experiment.actions is None ==> bandwidth_views(out@) =~= Seq::empty());
    out
}

proof fn condensing_keeps(s: Seq<char>)
    requires
        forall|i: int| 0 <= i < s.len() ==> '0' <= (#[trigger] s[i]) <= '9' || 'a' <= s[i] <= 'z',
    ensures
        condensed(s) == s,
    decreases s.len(),
{
    if s.len() > 0 {
        let front = s.drop_last();
        assert forall|i: int| 0 <= i < front.len() implies '0' <= (#[trigger] front[i]) <= '9'
            || 'a' <= front[i] <= 'z' by {
            assert(front[i] == s[i]);
        }
        condensing_keeps(front);
        let last = s[s.len() - 1];
        assert(lowered_char(last) =~= seq![last]);
        assert(front + seq![last] =~= s);
    }
}

proof fn digits_are_a_number(s: Seq<char>, rest: Seq<char>)
    requires
        forall|i: int| 0 <= i < s.len() ==> crate::numerals::is_digit(#[trigger] s[i]),
        rest.len() > 0,
        !is_number_char(rest[0]),
    ensures
        number_length(s + rest) == s.len(),
        points(s) == 0,
    decreases s.len(),
{
    if s.len() == 0 {
        assert(s + rest =~= rest);
    } else {
        let tail = s.skip(1);
        assert forall|i: int| 0 <= i < tail.len() implies crate::numerals::is_digit(
            #[trigger] tail[i],
        ) by {
            assert(tail[i] == s[i + 1]);
        }
        digits_are_a_number(tail, rest);
        assert((s + rest).skip(1) =~= tail + rest);
        assert(crate::numerals::is_digit(s[0]));
        no_points(s);
    }
}

proof fn no_points(s: Seq<char>)
    requires
        forall|i: int| 0 <= i < s.len() ==> crate::numerals::is_digit(#[trigger] s[i]),
    ensures
        points(s) == 0,
    decreases s.len(),
{
    if s.len() > 0 {
        let front = s.drop_last();
        assert forall|i: int| 0 <= i < front.len() implies crate::numerals::is_digit(
            #[trigger] front[i],
        ) by {
            assert(front[i] == s[i]);
        }
        assert(crate::numerals::is_digit(s[s.len() - 1]));
        no_points(front);
    }
}

proof fn numbers_with_units(n: nat, unit: Seq<char>)
    requires
        unit.len() > 0,
        forall|i: int| 0 <= i < unit.len() ==> 'a' <= (#[trigger] unit[i]) <= 'z',
        unit_ratio(unit) is Some,
    ensures
        bandwidth_parts(condensed(crate::text::dec(n) + unit)) == Some(
            (crate::text::dec(n), unit_ratio(unit)->0),
        ),
{
    let digits = crate::text::dec(n);
    let s = digits + unit;
    crate::numerals::reading_a_numeral(n);
    assert forall|i: int| 0 <= i < s.len() implies '0' <= (#[trigger] s[i]) <= '9' || 'a' <= s[i]
        <= 'z' by {
        if i < digits.len() {
            assert(crate::numerals::is_digit(digits[i]));
        } else {
            assert(s[i] == unit[i - digits.len()]);
        }
    }
    condensing_keeps(s);
    assert('a' <= unit[0] <= 'z');
    digits_are_a_number(digits, unit);
    assert(s.take(digits.len() as int) =~= digits);
    assert(s.skip(digits.len() as int) =~= unit);
}

/// A number of megabits a second, as `tc` writes it, is read as that number.
pub proof fn megabits_are_read_back(n: nat)
    ensures
        bandwidth_parts(condensed(crate::text::dec(n) + "mbit"@)) == Some(
            (crate::text::dec(n), (1int, 1int)),
        ),
{
    reveal_strlit("mbit");
    units_are_spelled();
    numbers_with_units(n, "mbit"@);
}

proof fn units_are_spelled()
    ensures
        unit_ratio("mbit"@) == Some((1int, 1int)),
        unit_ratio("bit"@) == Some((1int, 1_000_000int)),
        unit_ratio("kbit"@) == Some((1int, 1000int)),
        unit_ratio("gbit"@) == Some((1000int, 1int)),
        unit_ratio("tbit"@) == Some((1_000_000int, 1int)),
{
    reveal_strlit("bit");
    reveal_strlit("bps");
    reveal_strlit("kbit");
    reveal_strlit("kbps");
    reveal_strlit("mbit");
    reveal_strlit("mbps");
    reveal_strlit("gbit");
    reveal_strlit("gbps");
    reveal_strlit("tbit");
    reveal_strlit("tbps");
    assert("bit"@.len() == 3);
    assert("bps"@[1] == 'p');
    assert("kbit"@[0] == 'k');
    assert("kbps"@[2] == 'p');
    assert("mbit"@[0] == 'm');
    assert("mbps"@[2] == 'p');
    assert("gbit"@[0] == 'g');
    assert("gbps"@[2] == 'p');
    assert("tbit"@[0] == 't');
    assert("kbit"@[2] == 'i');
    assert("mbit"@[2] == 'i');
    assert("gbit"@[2] == 'i');
    assert("tbit"@[2] == 'i');
}

/// Each unit is a thousand times the one before it: bit, kbit, mbit, gbit, tbit.
pub proof fn units_grow_by_a_thousand(n: nat)
    ensures
        bandwidth_parts(condensed(crate::text::dec(n) + "bit"@)) == Some(
            (crate::text::dec(n), (1int, 1_000_000int)),
        ),
        bandwidth_parts(condensed(crate::text::dec(n) + "kbit"@)) == Some(
            (crate::text::dec(n), (1int, 1000int)),
        ),
        bandwidth_parts(condensed(crate::text::dec(n) + "mbit"@)) == Some(
            (crate::text::dec(n), (1int, 1int)),
        ),
        bandwidth_parts(condensed(crate::text::dec(n) + "gbit"@)) == Some(
            (crate::text::dec(n), (1000int, 1int)),
        ),
        bandwidth_parts(condensed(crate::text::dec(n) + "tbit"@)) == Some(
            (crate::text::dec(n), (1_000_000int, 1int)),
        ),
{
    reveal_strlit("bit");
    reveal_strlit("kbit");
    reveal_strlit("mbit");
    reveal_strlit("gbit");
    reveal_strlit("tbit");
    units_are_spelled();
    numbers_with_units(n, "bit"@);
    numbers_with_units(n, "kbit"@);
    numbers_with_units(n, "mbit"@);
    numbers_with_units(n, "gbit"@);
    numbers_with_units(n, "tbit"@);
}

proof fn points_are_counted(s: Seq<char>, i: int, j: int)
    requires
        0 <= i < s.len(),
        s[i] == '.',
    ensures
        points(s) >= 1,
        i < j < s.len() && s[j] == '.' ==> points(s) >= 2,
    decreases s.len(),
{
    let front = s.drop_last();
    points_are_not_negative(front);
    if i < front.len() {
        assert(front[i] == s[i]);
        points_are_counted(front, i, j);
        if i < j < front.len() {
            assert(front[j] == s[j]);
        }
    }
}

proof fn points_are_not_negative(s: Seq<char>)
    ensures
        0 <= points(s) <= s.len(),
    decreases s.len(),
{
    if s.len() > 0 {
        points_are_not_negative(s.drop_last());
    }
}

/// A rate is none where its number has two points, or has no digit at all.
pub proof fn numbers_have_one_point_at_most(s: Seq<char>, i: int, j: int)
    requires
        0 <= i < j < number_length(s),
        number_length(s) <= s.len(),
        s[i] == '.',
        s[j] == '.',
    ensures
        bandwidth_parts(s) is None,
{
    let number = s.take(number_length(s));
    assert(number[i] == '.' && number[j] == '.');
    points_are_counted(number, i, j);
}

/// A point alone is no number.
pub proof fn numbers_have_a_digit(s: Seq<char>)
    requires
        number_length(s) <= s.len(),
        number_length(s) == 0 || (number_length(s) == 1 && s[0] == '.'),
    ensures
        bandwidth_parts(s) is None,
{
    let number = s.take(number_length(s));
    points_are_not_negative(number);
    if number_length(s) == 1 {
        assert(number[0] == '.');
        points_are_counted(number, 0, 0);
    }
}

} // verus!
