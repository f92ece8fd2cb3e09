//! IPv4 addresses in dotted decimal notation.

use vstd::prelude::*;

use crate::numerals::parse_u64;
use crate::text::{same, split, u64_text};

verus! {

/// The four bytes of an address.
pub type Octets = (u8, u8, u8, u8);

/// An address in dotted decimal notation.
pub open spec fn dotted(o: Octets) -> Seq<char> {
    crate::text::dec(o.0 as nat) + "."@ + crate::text::dec(o.1 as nat) + "."@ + crate::text::dec(
        o.2 as nat,
    ) + "."@ + crate::text::dec(o.3 as nat)
}

/// The number that the bytes of an address form.
pub open spec fn address_number(o: Octets) -> nat {
    (o.0 * 0x1000000 + o.1 * 0x10000 + o.2 * 0x100 + o.3) as nat
}

proof fn numeral_has_no_dot(n: nat)
    ensures
        !crate::text::has_char(crate::text::dec(n), '.'),
{
    crate::numerals::reading_a_numeral(n);
    assert forall|i: int| 0 <= i < crate::text::dec(n).len() implies #[trigger] crate::text::dec(
        n,
    )[i] != '.' by {
        assert(crate::numerals::is_digit(crate::text::dec(n)[i]));
    }
}

/// The four numerals of an address.
pub open spec fn numerals(o: Octets) -> Seq<Seq<char>> {
    seq![
        crate::text::dec(o.0 as nat),
        crate::text::dec(o.1 as nat),
        crate::text::dec(o.2 as nat),
        crate::text::dec(o.3 as nat),
    ]
}

/// The pieces of a dotted address between its dots are its four numerals.
pub proof fn dotted_splits(o: Octets)
    ensures
        crate::text::is_split(dotted(o), '.', numerals(o)),
{
    let parts = numerals(o);
    reveal_strlit(".");
    assert("."@ =~= seq!['.']);
    numeral_has_no_dot(o.0 as nat);
    numeral_has_no_dot(o.1 as nat);
    numeral_has_no_dot(o.2 as nat);
    numeral_has_no_dot(o.3 as nat);
    let three = parts.drop_last();
    let two = three.drop_last();
    let one = two.drop_last();
    assert(one.len() == 1 && one[0] == parts[0]);
    assert(crate::text::joined(one, seq!['.']) == parts[0]);
    assert(crate::text::joined(two, seq!['.']) == parts[0] + seq!['.'] + parts[1]);
    assert(crate::text::joined(three, seq!['.']) == parts[0] + seq!['.'] + parts[1] + seq!['.']
        + parts[2]);
    assert(crate::text::joined(parts, seq!['.']) == dotted(o));
}

/// Two addresses with the same notation are the same.
pub proof fn dotted_is_injective(a: Octets, b: Octets)
    requires
        dotted(a) == dotted(b),
    ensures
        a == b,
{
    dotted_splits(a);
    dotted_splits(b);
    crate::text::split_is_unique(dotted(a), '.', numerals(a), numerals(b));
    assert(numerals(a)[0] == numerals(b)[0]);
    assert(numerals(a)[1] == numerals(b)[1]);
    assert(numerals(a)[2] == numerals(b)[2]);
    assert(numerals(a)[3] == numerals(b)[3]);
    crate::numerals::numerals_are_distinct(a.0 as nat, b.0 as nat);
    crate::numerals::numerals_are_distinct(a.1 as nat, b.1 as nat);
    crate::numerals::numerals_are_distinct(a.2 as nat, b.2 as nat);
    crate::numerals::numerals_are_distinct(a.3 as nat, b.3 as nat);
}

fn parse_octet(s: &str) -> (r: Option<u8>)
    ensures
        match r {
            Some(n) => s@ == crate::text::dec(n as nat),
            None => forall|n: u8| s@ != #[trigger] crate::text::dec(n as nat),
        },
{
    proof {
        assert forall|n: u8| s@ == #[trigger] crate::text::dec(n as nat) implies
            crate::numerals::unsigned_upto(s@, u64::MAX as nat) == Some(n as nat) by {
            crate::numerals::reading_a_numeral(n as nat);
            assert(crate::numerals::is_digit(s@[0]));
        }
    }
    let n: Option<u64> = parse_u64(s);
    match n {
        Some(n) if n <= 255 && same(u64_text(n).as_str(), s) => Some(n as u8),
        _ => None,
    }
}

/// Reads an address in dotted decimal notation.
pub fn parse_ipv4(s: &str) -> (r: Option<Octets>)
    ensures
        match r {
            Some(o) => s@ == dotted(o),
            None => forall|o: Octets| s@ != #[trigger] dotted(o),
        },
{
    let parts = split(s, '.');
    let ghost pieces = crate::text::texts(parts@);
    proof {
        assert forall|o: Octets| s@ == #[trigger] dotted(o) implies pieces == numerals(o) by {
            dotted_splits(o);
            crate::text::split_is_unique(s@, '.', pieces, numerals(o));
        }
    }
    if parts.len() != 4 {
        return None;
    }
    assert(pieces[0] == parts@[0]@ && pieces[1] == parts@[1]@ && pieces[2] == parts@[2]@
        && pieces[3] == parts@[3]@);
    let a: Option<u8> = parse_octet(parts[0].as_str());
    let b: Option<u8> = parse_octet(parts[1].as_str());
    let c: Option<u8> = parse_octet(parts[2].as_str());
    let d: Option<u8> = parse_octet(parts[3].as_str());
    match (a, b, c, d) {
        (Some(a), Some(b), Some(c), Some(d)) => {
            proof {
                dotted_splits((a, b, c, d));
                assert(pieces =~= numerals((a, b, c, d)));
            }
            Some((a, b, c, d))
        },
        _ => {
            assert forall|o: Octets| s@ != #[trigger] dotted(o) by {
                if s@ == dotted(o) {
                    assert(pieces == numerals(o));
                    assert(parts@[0]@ == crate::text::dec(o.0 as nat));
                    assert(parts@[1]@ == crate::text::dec(o.1 as nat));
                    assert(parts@[2]@ == crate::text::dec(o.2 as nat));
                    assert(parts@[3]@ == crate::text::dec(o.3 as nat));
                }
            }
            None
        },
    }
}

/// Writes an address in dotted decimal notation.
pub fn ipv4_text(o: Octets) -> (r: String)
    ensures
        r@ == dotted(o),
{
    u64_text(o.0 as u64).concat(".").concat(u64_text(o.1 as u64).as_str()).concat(".").concat(
        u64_text(o.2 as u64).as_str(),
    ).concat(".").concat(u64_text(o.3 as u64).as_str())
}

} // verus!
