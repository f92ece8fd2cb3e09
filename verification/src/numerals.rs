//! Reading decimal numerals.

use vstd::prelude::*;

use crate::text::chars;

verus! {

/// Whether a character is a decimal digit.
pub open spec fn is_digit(c: char) -> bool {
    '0' <= c <= '9'
}

/// The number that a text of decimal digits stands for.
pub open spec fn digits_value(s: Seq<char>) -> Option<nat>
    decreases s.len(),
{
    if s.len() == 0 || !is_digit(s.last()) {
        None
    } else {
        let d = (s.last() as u32 - 48) as nat;
        if s.len() == 1 {
            Some(d)
        } else {
            match digits_value(s.drop_last()) {
                Some(n) => Some((n * 10 + d) as nat),
                None => None,
            }
        }
    }
}

/// The number that a numeral stands for; a plus sign may stand in front of the digits.
pub open spec fn unsigned_value(s: Seq<char>) -> Option<nat> {
    if s.len() > 0 && s[0] == '+' {
        digits_value(s.skip(1))
    } else {
        digits_value(s)
    }
}

/// The number that a numeral stands for, unless it exceeds a limit.
pub open spec fn unsigned_upto(s: Seq<char>, limit: nat) -> Option<nat> {
    match unsigned_value(s) {
        Some(n) if n <= limit => Some(n),
        _ => None,
    }
}

/// A text that stands for a number has nothing but digits in it.
pub proof fn numerals_are_digits(s: Seq<char>, i: int)
    requires
        digits_value(s) is Some,
        0 <= i < s.len(),
    ensures
        is_digit(s[i]),
    decreases s.len(),
{
    if i < s.len() - 1 {
        numerals_are_digits(s.drop_last(), i);
    }
}

/// Reading the decimal numeral of a number gives the number.
pub proof fn reading_a_numeral(n: nat)
    ensures
        digits_value(crate::text::dec(n)) == Some(n),
        crate::text::dec(n).len() > 0,
        forall|i: int|
            0 <= i < crate::text::dec(n).len() ==> is_digit(#[trigger] crate::text::dec(n)[i]),
    decreases n,
{
    let s = crate::text::dec(n);
    if n >= 10 {
        reading_a_numeral(n / 10);
        assert(s.drop_last() =~= crate::text::dec(n / 10));
        assert forall|i: int| 0 <= i < s.len() implies is_digit(#[trigger] s[i]) by {
            if i < s.len() - 1 {
                assert(s[i] == crate::text::dec(n / 10)[i]);
            }
        }
    }
}

/// Different numbers have different numerals.
pub proof fn numerals_are_distinct(m: nat, n: nat)
    requires
        crate::text::dec(m) == crate::text::dec(n),
    ensures
        m == n,
{
    reading_a_numeral(m);
    reading_a_numeral(n);
}

proof fn value_of_prefix(s: Seq<char>, i: int)
    requires
        0 < i <= s.len(),
        digits_value(s) is Some,
    ensures
        digits_value(s.take(i)) is Some,
        digits_value(s.take(i))->0 <= digits_value(s)->0,
    decreases s.len(),
{
    if i == s.len() {
        assert(s.take(i) =~= s);
    } else {
        value_of_prefix(s.drop_last(), i);
        assert(s.drop_last().take(i) =~= s.take(i));
    }
}

fn read_digits(x: &Vec<char>, from: usize) -> (r: Option<u64>)
    requires
        from <= x@.len(),
    ensures
        match r {
            Some(n) => digits_value(x@.skip(from as int)) == Some(n as nat),
            None => digits_value(x@.skip(from as int)) is None || digits_value(
                x@.skip(from as int),
            )->0 > u64::MAX,
        },
{
    if from == x.len() {
        return None;
    }
    let ghost s = x@.skip(from as int);
    let mut n: u64 = 0;
    let mut i: usize = from;
    while i < x.len()
        invariant
            from <= i <= x.len(),
            s == x@.skip(from as int),
            i == from ==> n == 0,
            i > from ==> digits_value(s.take(i - from)) == Some(n as nat),
        decreases x.len() - i,
    {
        let c = x[i];
        assert(s.take(i + 1 - from).drop_last() =~= s.take(i - from));
        assert(s.take(i + 1 - from).last() == c);
        proof {
            if digits_value(s) is Some {
                value_of_prefix(s, i + 1 - from);
            }
        }
        if c < '0' || c > '9' {
            return None;
        }
        let d: u64 = (c as u32 - 48) as u64;
        if n > (u64::MAX - d) / 10 {
            assert(i > from);
            assert(digits_value(s.take(i + 1 - from))->0 == n * 10 + d);
            assert(n * 10 + d > u64::MAX);
            return None;
        }
        n = n * 10 + d;
        i += 1;
    }
    assert(s.take(i - from) =~= s);
    Some(n)
}

/// Reads an unsigned number of at most 64 bits.
pub fn parse_u64(s: &str) -> (r: Option<u64>)
    ensures
        match r {
            Some(n) => unsigned_upto(s@, u64::MAX as nat) == Some(n as nat),
            None => unsigned_upto(s@, u64::MAX as nat) is None,
        },
{
    let x = chars(s);
    assert(x@.skip(0) =~= x@);
    if x.len() > 0 && x[0] == '+' {
        read_digits(&x, 1)
    } else {
        read_digits(&x, 0)
    }
}

/// Reads an unsigned number of at most 16 bits.
pub fn parse_u16(s: &str) -> (r: Option<u16>)
    ensures
        match r {
            Some(n) => unsigned_upto(s@, u16::MAX as nat) == Some(n as nat),
            None => unsigned_upto(s@, u16::MAX as nat) is None,
        },
{
    let n: Option<u64> = parse_u64(s);
    match n {
        Some(n) if n <= 65535 => Some(n as u16),
        _ => None,
    }
}

/// Reads an unsigned number of at most 32 bits.
pub fn parse_u32(s: &str) -> (r: Option<u32>)
    ensures
        match r {
            Some(n) => unsigned_upto(s@, u32::MAX as nat) == Some(n as nat),
            None => unsigned_upto(s@, u32::MAX as nat) is None,
        },
{
    let n: Option<u64> = parse_u64(s);
    match n {
        Some(n) if n <= 4294967295 => Some(n as u32),
        _ => None,
    }
}

/// Reads an unsigned number of the size of an address.
pub fn parse_usize(s: &str) -> (r: Option<usize>)
    ensures
        match r {
            Some(n) => unsigned_upto(s@, usize::MAX as nat) == Some(n as nat),
            None => unsigned_upto(s@, usize::MAX as nat) is None,
        },
{
    let n: Option<u64> = parse_u64(s);
    match n {
        Some(n) if n <= usize::MAX as u64 => Some(n as usize),
        _ => None,
    }
}

} // verus!
