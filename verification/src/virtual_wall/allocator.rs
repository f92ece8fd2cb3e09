//! Addresses of the hosts in an IPv4 subnet.

use vstd::prelude::*;

use crate::ipv4::{ipv4_text, parse_ipv4, Octets};
use crate::numerals::parse_u16;
use crate::text::{find_text, u64_text};
use crate::virtual_wall::error::VirtualWallError;

verus! {

/// Gives out the addresses of a subnet, one per ordinal.
#[derive(Debug, Clone, Copy)]
pub struct Ipv4Allocator {
    pub net: u32,
    pub prefix: u8,
    pub host_start: u32,
    pub host_max: u32,
}

/// The part of a CIDR text before the slash.
pub open spec fn cidr_address(cidr: Seq<char>) -> Seq<char> {
    cidr.take(crate::text::find_from(cidr, "/"@, 0)->0)
}

/// The prefix length that a CIDR text gives.
pub open spec fn cidr_prefix(cidr: Seq<char>) -> Option<nat> {
    crate::numerals::unsigned_upto(
        cidr.skip(crate::text::find_from(cidr, "/"@, 0)->0 + "/"@.len()),
        255,
    )
}

/// Whether a text is an IPv4 address in dotted notation.
pub open spec fn is_ipv4(s: Seq<char>) -> bool {
    exists|o: Octets| s == #[trigger] crate::ipv4::dotted(o)
}

/// What is wrong with a CIDR text.
pub open spec fn cidr_fault(cidr: Seq<char>) -> Option<Seq<char>> {
    if crate::text::find_from(cidr, "/"@, 0) is None {
        Some("Invalid CIDR '"@ + cidr + "'"@)
    } else if cidr_prefix(cidr) is None {
        Some("Invalid CIDR prefix in '"@ + cidr + "'"@)
    } else if cidr_prefix(cidr)->0 > 32 {
        Some(
            "Invalid CIDR prefix "@ + crate::text::dec(cidr_prefix(cidr)->0) + " in '"@ + cidr
                + "'"@,
        )
    } else if !is_ipv4(cidr_address(cidr)) {
        Some("Invalid IPv4 address in '"@ + cidr + "'"@)
    } else {
        None
    }
}

/// The number of addresses of a subnet with a prefix length.
pub open spec fn block_size(prefix: nat) -> nat {
    vstd::arithmetic::power2::pow2((32 - prefix) as nat)
}

/// The number of the address of a CIDR text.
pub open spec fn cidr_number(cidr: Seq<char>) -> nat {
    let o = choose|o: Octets| cidr_address(cidr) == #[trigger] crate::ipv4::dotted(o);
    crate::ipv4::address_number(o)
}

/// The first address of the subnet of a CIDR text, as a number.
pub open spec fn cidr_network(cidr: Seq<char>) -> int {
    cidr_number(cidr) - cidr_number(cidr) % block_size(cidr_prefix(cidr)->0)
}

/// What is wrong with a subnet that host addresses are to be taken from.
pub open spec fn subnet_fault(cidr: Seq<char>, host_start: u32) -> Option<Seq<char>> {
    if cidr_fault(cidr) is Some {
        cidr_fault(cidr)
    } else {
        let prefix = cidr_prefix(cidr)->0;
        if prefix > 30 {
            Some(
                "IPv4 subnet '"@ + cidr + "' is too small for host allocation (prefix "@
                    + crate::text::dec(prefix) + "); use <= /30"@,
            )
        } else if prefix == 0 || host_start >= block_size(prefix) - 1 {
            Some(
                "IPv4 subnet '"@ + cidr + "' host_start="@ + crate::text::dec(host_start as nat)
                    + " leaves no usable addresses"@,
            )
        } else {
            None
        }
    }
}

/// The numbers of the first two hosts of a subnet and of its gateway; none where it is no subnet
/// or has no room for two hosts. The gateway is the last host where there are more than two, and
/// the first one otherwise.
pub open spec fn host_pair(cidr: Seq<char>) -> Option<(int, int, int)> {
    if cidr_fault(cidr) is Some || cidr_prefix(cidr)->0 > 31 {
        None
    } else {
        let prefix = cidr_prefix(cidr)->0;
        let net = cidr_network(cidr);
        let first = if prefix == 31 {
            net
        } else {
            net + 1
        };
        let gateway = if prefix >= 30 {
            first
        } else {
            net + block_size(prefix) - 2
        };
        Some((first, first + 1, gateway))
    }
}

/// The address with a number, in a subnet with a prefix length.
pub open spec fn host_text(n: int, prefix: nat) -> Seq<char> {
    crate::ipv4::dotted(octets_of(n)) + "/"@ + crate::text::dec(prefix)
}

/// The bytes of the address with a number.
pub open spec fn octets_of(n: int) -> Octets {
    (
        (n / 0x1000000 % 256) as u8,
        (n / 0x10000 % 256) as u8,
        (n / 0x100 % 256) as u8,
        (n % 256) as u8,
    )
}

/// Taking the bytes of an address number and putting them together gives the number.
pub proof fn octets_of_number(n: int)
    requires
        0 <= n < 0x100000000,
    ensures
        crate::ipv4::address_number(octets_of(n)) == n,
{
}

impl Ipv4Allocator {
    /// Whether the allocator stands for a subnet with room for hosts.
    pub open spec fn wf(self) -> bool {
        &&& 1 <= self.prefix <= 30
        &&& self.host_max == block_size(self.prefix as nat)
        &&& self.net + self.host_max <= 0x100000000
        &&& self.host_start < self.host_max - 1
    }

    /// Whether the subnet has no address for an ordinal.
    pub open spec fn exhausted(self, ordinal: u32) -> bool {
        self.host_start + ordinal >= self.host_max - 1
    }

    /// The message for an ordinal without an address.
    pub open spec fn exhausted_text(self, ordinal: u32) -> Seq<char> {
        "IPv4 subnet allocation exhausted (prefix /"@ + crate::text::dec(self.prefix as nat)
            + "); host_start="@ + crate::text::dec(self.host_start as nat) + ", ordinal="@
            + crate::text::dec(ordinal as nat)
    }

    /// The address for an ordinal, as a number.
    pub open spec fn address(self, ordinal: u32) -> int {
        self.net + self.host_start + ordinal
    }
}

proof fn pow2_positive(n: nat)
    ensures
        vstd::arithmetic::power2::pow2(n) > 0,
{
    vstd::arithmetic::power2::lemma_pow2_pos(n);
}

proof fn block_divides(prefix: nat)
    requires
        prefix <= 32,
    ensures
        block_size(prefix) > 0,
        0x100000000int % block_size(prefix) as int == 0,
        block_size(prefix) <= 0x100000000,
        prefix >= 1 ==> block_size(prefix) <= 0x80000000,
        prefix <= 30 ==> block_size(prefix) >= 4,
        prefix <= 29 ==> block_size(prefix) >= 8,
        prefix == 31 ==> block_size(prefix) == 2,
{
    pow2_positive((32 - prefix) as nat);
    pow2_positive(prefix);
    vstd::arithmetic::power2::lemma_pow2_adds(prefix, (32 - prefix) as nat);
    vstd::arithmetic::power2::lemma2_to64();
    assert(vstd::arithmetic::power2::pow2(32) == 0x100000000);
    let b = block_size(prefix) as int;
    let p = vstd::arithmetic::power2::pow2(prefix) as int;
    assert(p * b == 0x100000000);
    assert((p * b) % b == 0) by (nonlinear_arith)
        requires
            b > 0,
    ;
    assert(b <= p * b) by (nonlinear_arith)
        requires
            b > 0,
            p > 0,
    ;
    if prefix >= 1 {
        if prefix > 1 {
            vstd::arithmetic::power2::lemma_pow2_strictly_increases((32 - prefix) as nat, 31);
        }
    }
    if prefix <= 30 {
        if prefix < 30 {
            vstd::arithmetic::power2::lemma_pow2_strictly_increases(2, (32 - prefix) as nat);
        }
    }
    if prefix < 29 {
        vstd::arithmetic::power2::lemma_pow2_strictly_increases(3, (32 - prefix) as nat);
    }
}

proof fn block_fits(n: int, size: int)
    requires
        0 <= n < 0x100000000,
        0 < size,
        0x100000000int % size == 0,
    ensures
        0 <= n - n % size,
        n - n % size + size <= 0x100000000,
{
    let q = n / size;
    let m = 0x100000000int / size;
    assert(n == size * q + n % size && 0 <= n % size < size) by (nonlinear_arith)
        requires
            0 < size,
            q == n / size,
    ;
    assert(0x100000000 == size * m) by (nonlinear_arith)
        requires
            0 < size,
            m == 0x100000000int / size,
            0x100000000int % size == 0,
    ;
    assert(q < m) by (nonlinear_arith)
        requires
            size * q <= n,
            n < 0x100000000,
            0x100000000 == size * m,
            0 < size,
    ;
    assert(size * q + size <= size * m) by (nonlinear_arith)
        requires
            q < m,
            0 < size,
    ;
    assert(0 <= size * q) by (nonlinear_arith)
        requires
            0 <= n,
            q == n / size,
            0 < size,
    ;
}

fn size_of_block(prefix: u8) -> (r: u64)
    requires
        prefix <= 32,
    ensures
        r == block_size(prefix as nat),
{
    let mut size: u64 = 1;
    let mut bits: u8 = 0;
    proof {
        vstd::arithmetic::power2::lemma2_to64();
    }
    while bits < 32 - prefix
        invariant
            prefix <= 32,
            bits <= 32 - prefix,
            size == vstd::arithmetic::power2::pow2(bits as nat),
            size <= 0x100000000,
        decreases 32 - prefix - bits,
    {
        proof {
            vstd::arithmetic::power2::lemma_pow2_unfold((bits + 1) as nat);
            vstd::arithmetic::power2::lemma2_to64();
            if bits + 1 < 32 {
                vstd::arithmetic::power2::lemma_pow2_strictly_increases((bits + 1) as nat, 32);
            }
        }
        size = size * 2;
        bits = bits + 1;
    }
    size
}

fn octets_with(n: u32) -> (r: Octets)
    ensures
        r == octets_of(n as int),
{
    (
        (n / 0x1000000 % 256) as u8,
        (n / 0x10000 % 256) as u8,
        (n / 0x100 % 256) as u8,
        (n % 256) as u8,
    )
}

/// The first two hosts of a subnet with its prefix length, and its gateway.
pub fn first_hosts(cidr: &str) -> (r: Option<(String, String, String)>)
    ensures
        match host_pair(cidr@) {
            Some((a, b, gw)) => {
                &&& r matches Some(t)
                &&& t.0@ == host_text(a, cidr_prefix(cidr@)->0)
                &&& t.1@ == host_text(b, cidr_prefix(cidr@)->0)
                &&& t.2@ == crate::ipv4::dotted(octets_of(gw))
            },
            None => r is None,
        },
{
    let (net, prefix) = match Ipv4Allocator::parse_cidr(cidr) {
        Ok(v) => v,
        Err(_) => {
            return None;
        },
    };
    if prefix > 31 {
        return None;
    }
    proof {
        block_divides(prefix as nat);
    }
    let first: u32 = if prefix == 31 {
        net
    } else {
        net + 1
    };
    let gateway: u32 = if prefix >= 30 {
        first
    } else {
        let size: u64 = size_of_block(prefix);
        (net as u64 + size - 2) as u32
    };
    let tail = "/".to_owned().concat(u64_text(prefix as u64).as_str());
    let a = ipv4_text(octets_with(first)).concat(tail.as_str());
    let b = ipv4_text(octets_with(first + 1)).concat(tail.as_str());
    assert(a@ =~= host_text(first as int, prefix as nat));
    assert(b@ =~= host_text(first + 1, prefix as nat));
    Some((a, b, ipv4_text(octets_with(gateway))))
}

/// The first two hosts of a subnet are two different addresses inside it, and so is the gateway
/// inside it.
pub proof fn first_hosts_are_in_the_subnet(cidr: Seq<char>)
    requires
        host_pair(cidr) is Some,
    ensures
        ({
            let (a, b, gw) = host_pair(cidr)->0;
            let net = cidr_network(cidr);
            let end = net + block_size(cidr_prefix(cidr)->0);
            &&& 0 <= net <= a < end <= 0x100000000
            &&& net <= b < end
            &&& net <= gw < end
            &&& octets_of(a) != octets_of(b)
            &&& host_text(a, cidr_prefix(cidr)->0) != host_text(b, cidr_prefix(cidr)->0)
        }),
{
    let (a, b, gw) = host_pair(cidr)->0;
    let prefix = cidr_prefix(cidr)->0;
    block_divides(prefix);
    block_fits(cidr_number(cidr) as int, block_size(prefix) as int);
    octets_of_number(a);
    octets_of_number(b);
    let tail = "/"@ + crate::text::dec(prefix);
    let x = crate::ipv4::dotted(octets_of(a));
    let y = crate::ipv4::dotted(octets_of(b));
    if host_text(a, prefix) == host_text(b, prefix) {
        assert(host_text(a, prefix) =~= x + tail);
        assert(host_text(b, prefix) =~= y + tail);
        assert(x =~= (x + tail).take((x + tail).len() - tail.len()));
        assert(y =~= (y + tail).take((y + tail).len() - tail.len()));
        crate::ipv4::dotted_is_injective(octets_of(a), octets_of(b));
    }
}

proof fn slash_is_the_last(cidr: Seq<char>)
    requires
        cidr_prefix(cidr) is Some,
        crate::text::find_from(cidr, "/"@, 0) is Some,
        crate::text::ends(cidr, ".0/24"@),
    ensures
        crate::text::find_from(cidr, "/"@, 0) == Some(cidr.len() - 3),
        cidr_prefix(cidr) == Some(24nat),
        cidr_address(cidr) == cidr.take(cidr.len() - 5) + ".0"@,
{
    reveal_strlit("/");
    reveal_strlit(".0/24");
    reveal_strlit(".0");
    let n = cidr.len() as int;
    let tail = cidr.subrange(n - 5, n);
    assert(tail == ".0/24"@);
    assert(tail[0] == cidr[n - 5] && tail[1] == cidr[n - 4] && tail[2] == cidr[n - 3] && tail[3]
        == cidr[n - 2] && tail[4] == cidr[n - 1]);
    crate::text::find_from_is_first(cidr, "/"@, 0);
    let k = crate::text::find_from(cidr, "/"@, 0)->0;
    assert(cidr.subrange(n - 3, n - 2) =~= "/"@);
    assert(crate::text::occurs_at(cidr, "/"@, n - 3));
    assert(k <= n - 3);
    let rest = cidr.skip(k + 1);
    assert(cidr.skip(k + "/"@.len()) == rest);
    if k < n - 3 {
        let at = n - 3 - (k + 1);
        assert(rest[at] == '/');
        if rest[0] == '+' {
            crate::numerals::numerals_are_digits(rest.skip(1), at - 1);
        } else {
            crate::numerals::numerals_are_digits(rest, at);
        }
    }
    assert(rest =~= seq!['2', '4']);
    assert(rest.drop_last() =~= seq!['2']);
    reveal_with_fuel(crate::numerals::digits_value, 3);
    assert(crate::numerals::digits_value(seq!['2']) == Some(2nat));
    assert(cidr.take(n - 3) =~= cidr.take(n - 5) + ".0"@);
}

proof fn last_octet_is_zero(o: Octets, head: Seq<char>)
    requires
        crate::ipv4::dotted(o) == head + ".0"@,
    ensures
        o.3 == 0,
        forall|d: u8| #[trigger] crate::ipv4::dotted((o.0, o.1, o.2, d)) == head + "."@
            + crate::text::dec(d as nat),
{
    reveal_strlit(".0");
    reveal_strlit(".");
    let last = crate::text::dec(o.3 as nat);
    let front = crate::text::dec(o.0 as nat) + "."@ + crate::text::dec(o.1 as nat) + "."@
        + crate::text::dec(o.2 as nat);
    let whole = crate::ipv4::dotted(o);
    crate::numerals::reading_a_numeral(o.3 as nat);
    assert(whole == front + "."@ + last);
    let n = whole.len() as int;
    assert(whole[n - 2] == '.' && whole[n - 1] == '0');
    if last.len() > 1 {
        assert(whole[n - 2] == last[last.len() - 2]);
        assert(crate::numerals::is_digit(last[last.len() - 2]));
    }
    assert(last[0] == whole[n - 1]);
    assert(last =~= seq!['0']);
    assert(crate::text::dec(0) =~= seq!['0']);
    crate::numerals::numerals_are_distinct(o.3 as nat, 0);
    assert(front =~= whole.take(n - 2));
    assert(head =~= whole.take(n - 2));
    assert forall|d: u8| #[trigger] crate::ipv4::dotted((o.0, o.1, o.2, d)) == head + "."@
        + crate::text::dec(d as nat) by {}
}

proof fn octets_after(o: Octets, d: u8)
    requires
        o.3 == 0,
    ensures
        octets_of(crate::ipv4::address_number(o) + d) == (o.0, o.1, o.2, d),
        crate::ipv4::address_number(o) % 256 == 0,
{
    let n = crate::ipv4::address_number(o) + d;
    assert(n % 256 == d);
    assert(n / 0x100 == o.0 * 0x10000 + o.1 * 0x100 + o.2);
    assert(n / 0x10000 == o.0 * 0x100 + o.1);
    assert(n / 0x1000000 == o.0);
}

proof fn short_numerals()
    ensures
        crate::text::dec(1) == seq!['1'],
        crate::text::dec(2) == seq!['2'],
        crate::text::dec(24) == seq!['2', '4'],
        crate::text::dec(254) == seq!['2', '5', '4'],
{
    reveal_with_fuel(crate::text::dec, 4);
    assert(crate::text::dec(1) =~= seq!['1']);
    assert(crate::text::dec(2) =~= seq!['2']);
    assert(crate::text::dec(24) =~= seq!['2', '4']);
    assert(crate::text::dec(25) =~= seq!['2', '5']);
    assert(crate::text::dec(254) =~= seq!['2', '5', '4']);
}

/// In a subnet that is written `x.0/24` the first two hosts are `x.1` and `x.2`, and the gateway
/// is `x.254`.
pub proof fn first_hosts_of_a_class(cidr: Seq<char>)
    requires
        host_pair(cidr) is Some,
        crate::text::ends(cidr, ".0/24"@),
    ensures
        ({
            let (a, b, gw) = host_pair(cidr)->0;
            let head = cidr.take(cidr.len() - ".0/24"@.len());
            &&& cidr_prefix(cidr) == Some(24nat)
            &&& host_text(a, 24) == head + ".1/24"@
            &&& host_text(b, 24) == head + ".2/24"@
            &&& crate::ipv4::dotted(octets_of(gw)) == head + ".254"@
        }),
{
    slash_is_the_last(cidr);
    reveal_strlit(".0/24");
    reveal_strlit(".1/24");
    reveal_strlit(".2/24");
    reveal_strlit(".254");
    reveal_strlit("/");
    reveal_strlit(".");
    let head = cidr.take(cidr.len() - 5);
    let o = choose|o: Octets| cidr_address(cidr) == #[trigger] crate::ipv4::dotted(o);
    last_octet_is_zero(o, head);
    assert(block_size(24) == 256) by {
        vstd::arithmetic::power2::lemma2_to64();
    }
    octets_after(o, 1);
    octets_after(o, 2);
    octets_after(o, 254);
    short_numerals();
    let net = cidr_network(cidr);
    assert(cidr_number(cidr) == crate::ipv4::address_number(o));
    assert(net == crate::ipv4::address_number(o));
    assert(crate::ipv4::dotted(octets_of(net + 1)) == head + "."@ + seq!['1']);
    assert(crate::ipv4::dotted(octets_of(net + 2)) == head + "."@ + seq!['2']);
    assert(crate::ipv4::dotted(octets_of(net + 254)) == head + "."@ + seq!['2', '5', '4']);
    assert(host_text(net + 1, 24) =~= head + ".1/24"@);
    assert(host_text(net + 2, 24) =~= head + ".2/24"@);
    assert(crate::ipv4::dotted(octets_of(net + 254)) =~= head + ".254"@);
}

impl Ipv4Allocator {
    /// Reads a CIDR text as the first address of its subnet and its prefix length.
    pub fn parse_cidr(cidr: &str) -> (r: Result<(u32, u8), VirtualWallError>)
        ensures
            match r {
                Ok(v) => {
                    &&& cidr_fault(cidr@) is None
                    &&& v.0 == cidr_network(cidr@)
                    &&& cidr_prefix(cidr@) == Some(v.1 as nat)
                    &&& v.1 <= 32
                    &&& v.0 + block_size(v.1 as nat) <= 0x100000000
                },
                Err(VirtualWallError::Configuration(m)) => cidr_fault(cidr@) == Some(m@),
                Err(_) => false,
            },
    {
        proof {
            reveal_strlit("/");
            crate::text::find_from_is_first(cidr@, "/"@, 0);
        }
        let at: Option<usize> = find_text(cidr, "/", 0);
        match at {
            None => Err(
                VirtualWallError::Configuration(
                    "Invalid CIDR '".to_owned().concat(cidr).concat("'"),
                ),
            ),
            Some(k) => {
                let ip_str = cidr.substring_char(0, k);
                let n: usize = cidr.unicode_len();
                let prefix_str = cidr.substring_char(k + 1, n);
                assert(ip_str@ =~= cidr_address(cidr@));
                assert(prefix_str@ =~= cidr@.skip(k + "/"@.len()));
                let parsed: Option<u16> = parse_u16(prefix_str);
                let prefix: u16 = match parsed {
                    Some(p) if p <= 255 => p,
                    _ => {
                        return Err(
                            VirtualWallError::Configuration(
                                "Invalid CIDR prefix in '".to_owned().concat(cidr).concat("'"),
                            ),
                        );
                    },
                };
                if prefix > 32 {
                    return Err(
                        VirtualWallError::Configuration(
                            "Invalid CIDR prefix ".to_owned().concat(
                                u64_text(prefix as u64).as_str(),
                            ).concat(" in '").concat(cidr).concat("'"),
                        ),
                    );
                }
                match parse_ipv4(ip_str) {
                    None => Err(
                        VirtualWallError::Configuration(
                            "Invalid IPv4 address in '".to_owned().concat(cidr).concat("'"),
                        ),
                    ),
                    Some(o) => {
                        let number: u32 = o.0 as u32 * 0x1000000 + o.1 as u32 * 0x10000 + o.2 as u32
                            * 0x100 + o.3 as u32;
                        let size: u64 = size_of_block(prefix as u8);
                        proof {
                            let c = choose|c: Octets|
                                cidr_address(cidr@) == #[trigger] crate::ipv4::dotted(c);
                            assert(cidr_address(cidr@) == crate::ipv4::dotted(o));
                            crate::ipv4::dotted_is_injective(c, o);
                            assert(number == cidr_number(cidr@));
                            block_divides(prefix as nat);
                            block_fits(number as int, size as int);
                        }
                        let net: u64 = number as u64 - number as u64 % size;
                        Ok((net as u32, prefix as u8))
                    },
                }
            },
        }
    }

    /// Accepts a well-formed CIDR text.
    pub fn validate_cidr(cidr: &str) -> (r: Result<(), VirtualWallError>)
        ensures
            match r {
                Ok(_) => cidr_fault(cidr@) is None,
                Err(VirtualWallError::Configuration(m)) => cidr_fault(cidr@) == Some(m@),
                Err(_) => false,
            },
    {
        match Self::parse_cidr(cidr) {
            Ok(_) => Ok(()),
            Err(e) => Err(e),
        }
    }

    /// An allocator for a subnet whose first host has the given offset.
    pub fn new(cidr: &str, host_start: u32) -> (r: Result<Self, VirtualWallError>)
        ensures
            match r {
                Ok(a) => {
                    &&& subnet_fault(cidr@, host_start) is None
                    &&& a.wf()
                    &&& a.net == cidr_network(cidr@)
                    &&& a.prefix == cidr_prefix(cidr@)->0
                    &&& a.host_start == host_start
                },
                Err(VirtualWallError::Configuration(m)) => subnet_fault(cidr@, host_start) == Some(
                    m@,
                ),
                Err(_) => false,
            },
    {
        let (net, prefix) = match Self::parse_cidr(cidr) {
            Ok(v) => v,
            Err(e) => {
                return Err(e);
            },
        };
        if prefix > 30 {
            return Err(
                VirtualWallError::Configuration(
                    "IPv4 subnet '".to_owned().concat(cidr).concat(
                        "' is too small for host allocation (prefix ",
                    ).concat(u64_text(prefix as u64).as_str()).concat("); use <= /30"),
                ),
            );
        }
        let size: u64 = size_of_block(prefix);
        proof {
            block_divides(prefix as nat);
        }
        if prefix == 0 || host_start as u64 >= size - 1 {
            return Err(
                VirtualWallError::Configuration(
                    "IPv4 subnet '".to_owned().concat(cidr).concat("' host_start=").concat(
                        u64_text(host_start as u64).as_str(),
                    ).concat(" leaves no usable addresses"),
                ),
            );
        }
        Ok(Ipv4Allocator { net, prefix, host_start, host_max: size as u32 })
    }

    /// The address for an ordinal, counted from the first host.
    pub fn allocate(&self, ordinal: u32) -> (r: Result<Octets, VirtualWallError>)
        requires
            self.wf(),
        ensures
            match r {
                Ok(o) => !self.exhausted(ordinal) && o == octets_of(self.address(ordinal)),
                Err(VirtualWallError::Configuration(m)) => self.exhausted(ordinal) && m@
                    == self.exhausted_text(ordinal),
                Err(_) => false,
            },
    {
        let offset: u32 = self.host_start.saturating_add(ordinal);
        if offset >= self.host_max.saturating_sub(1) {
            return Err(
                VirtualWallError::Configuration(
                    "IPv4 subnet allocation exhausted (prefix /".to_owned().concat(
                        u64_text(self.prefix as u64).as_str(),
                    ).concat("); host_start=").concat(
                        u64_text(self.host_start as u64).as_str(),
                    ).concat(", ordinal=").concat(u64_text(ordinal as u64).as_str()),
                ),
            );
        }
        let n: u32 = self.net + offset;
        Ok(octets_with(n))
    }
}

/// Different ordinals get different addresses, and every address lies inside the subnet, before
/// its last address.
pub proof fn addresses_are_distinct(a: Ipv4Allocator, i: u32, j: u32)
    requires
        a.wf(),
        !a.exhausted(i),
        !a.exhausted(j),
        i != j,
    ensures
        octets_of(a.address(i)) != octets_of(a.address(j)),
        a.net <= a.address(i) < a.net + a.host_max - 1,
{
    octets_of_number(a.address(i));
    octets_of_number(a.address(j));
}

/// A subnet without faults has room for hosts below the end of the address space.
pub proof fn usable_subnet(cidr: Seq<char>, host_start: u32)
    requires
        subnet_fault(cidr, host_start) is None,
    ensures
        ({
            let prefix = cidr_prefix(cidr)->0;
            &&& 1 <= prefix <= 30
            &&& 0 <= cidr_network(cidr)
            &&& cidr_network(cidr) + block_size(prefix) <= 0x100000000
            &&& block_size(prefix) <= 0x80000000
            &&& host_start < block_size(prefix) - 1
        }),
{
    let prefix = cidr_prefix(cidr)->0;
    block_divides(prefix);
    block_fits(cidr_number(cidr) as int, block_size(prefix) as int);
}

/// Each bit of a prefix halves the block, down to a single address.
pub proof fn blocks_halve_with_every_bit(prefix: nat)
    requires
        prefix < 32,
    ensures
        block_size(32) == 1,
        block_size(prefix) == 2 * block_size(prefix + 1),
{
    vstd::arithmetic::power2::lemma2_to64();
    vstd::arithmetic::power2::lemma_pow2_unfold((32 - prefix) as nat);
}

proof fn octet_text_has_no_slash(o: Octets, i: int)
    requires
        0 <= i < crate::ipv4::dotted(o).len(),
    ensures
        crate::ipv4::dotted(o)[i] != '/',
{
    reveal_strlit(".");
    crate::numerals::reading_a_numeral(o.0 as nat);
    crate::numerals::reading_a_numeral(o.1 as nat);
    crate::numerals::reading_a_numeral(o.2 as nat);
    crate::numerals::reading_a_numeral(o.3 as nat);
}

/// A subnet that is written as an address and a prefix length is read as just these: it has no
/// fault, and the network holds the address, starts at a multiple of its size, and is as large as
/// the prefix says.
pub proof fn subnets_are_read_as_written(o: Octets, prefix: nat)
    requires
        prefix <= 32,
    ensures
        ({
            let cidr = crate::ipv4::dotted(o) + "/"@ + crate::text::dec(prefix);
            &&& cidr_fault(cidr) is None
            &&& cidr_prefix(cidr) == Some(prefix)
            &&& cidr_number(cidr) == crate::ipv4::address_number(o)
            &&& cidr_network(cidr) <= crate::ipv4::address_number(o) < cidr_network(cidr)
                + block_size(prefix)
            &&& cidr_network(cidr) % (block_size(prefix) as int) == 0
        }),
{
    let head = crate::ipv4::dotted(o);
    let tail = crate::text::dec(prefix);
    let cidr = head + "/"@ + tail;
    reveal_strlit("/");
    assert forall|i: int| 0 <= i < head.len() implies #[trigger] head[i] != '/' by {
        octet_text_has_no_slash(o, i);
    }
    crate::text::find_from_is_first(cidr, "/"@, 0);
    assert(cidr.subrange(head.len() as int, (head.len() + 1) as int) =~= "/"@);
    assert(crate::text::occurs_at(cidr, "/"@, head.len() as int));
    let at = crate::text::find_from(cidr, "/"@, 0)->0;
    if at < head.len() {
        assert(cidr.subrange(at, at + 1)[0] == head[at]);
    }
    assert(at == head.len());
    assert(cidr.take(at) =~= head);
    assert(cidr.skip(at + 1) =~= tail);
    crate::numerals::reading_a_numeral(prefix);
    assert(cidr_prefix(cidr) == Some(prefix));
    assert(is_ipv4(cidr_address(cidr)));
    let chosen = choose|x: Octets| cidr_address(cidr) == #[trigger] crate::ipv4::dotted(x);
    crate::ipv4::dotted_is_injective(o, chosen);
    pow2_positive((32 - prefix) as nat);
    let n = cidr_number(cidr) as int;
    let size = block_size(prefix) as int;
    assert((n - n % size) % size == 0 && 0 <= n % size < size) by (nonlinear_arith)
        requires
            size > 0,
            n >= 0,
    {
        vstd::arithmetic::div_mod::lemma_fundamental_div_mod(n, size);
        vstd::arithmetic::div_mod::lemma_mod_multiples_basic(n / size, size);
        assert(n - n % size == (n / size) * size) by (nonlinear_arith)
            requires
                n == size * (n / size) + n % size,
        ;
    }
}

/// The first two hosts of a subnet come right behind the address of the network, and the gateway
/// is the last host; a subnet of two addresses has no others to give.
pub proof fn hosts_come_behind_the_network(cidr: Seq<char>)
    requires
        host_pair(cidr) is Some,
    ensures
        ({
            let (a, b, gw) = host_pair(cidr)->0;
            let net = cidr_network(cidr);
            let size = block_size(cidr_prefix(cidr)->0);
            &&& b == a + 1
            &&& cidr_prefix(cidr)->0 <= 30 ==> a == net + 1
            &&& cidr_prefix(cidr)->0 <= 29 ==> gw == net + size - 2
            &&& cidr_prefix(cidr)->0 == 31 ==> a == net && size == 2
        }),
{
    vstd::arithmetic::power2::lemma2_to64();
}

/// Addresses are given out from the first host on, one after the other, and never the last address
/// of the subnet or one behind it.
pub proof fn addresses_are_given_out_in_order(a: Ipv4Allocator, ordinal: u32)
    requires
        a.wf(),
    ensures
        a.address(0) == a.net + a.host_start,
        ordinal < u32::MAX ==> a.address((ordinal + 1) as u32) == a.address(ordinal) + 1,
        a.exhausted(ordinal) <==> a.address(ordinal) >= a.net + block_size(a.prefix as nat) - 1,
{
}

/// A subnet is written as an address, a slash and a length; a length that does not fit into a byte
/// is none.
pub proof fn subnets_have_an_address_and_a_length(address: Seq<char>, n: nat)
    requires
        !crate::text::has_char(address, '/'),
    ensures
        ({
            let cidr = address + "/"@ + crate::text::dec(n);
            &&& cidr_address(cidr) == address
            &&& n <= 255 ==> cidr_prefix(cidr) == Some(n)
            &&& n > 255 ==> cidr_prefix(cidr) is None
        }),
{
    let tail = crate::text::dec(n);
    let cidr = address + "/"@ + tail;
    reveal_strlit("/");
    crate::text::find_from_is_first(cidr, "/"@, 0);
    assert(cidr.subrange(address.len() as int, address.len() as int + 1) =~= "/"@);
    assert(crate::text::occurs_at(cidr, "/"@, address.len() as int));
    let k = crate::text::find_from(cidr, "/"@, 0)->0;
    if k < address.len() {
        assert(cidr.subrange(k, k + 1)[0] == '/');
        assert(address[k] == '/');
    }
    assert(cidr.take(k) =~= address);
    assert(cidr.skip(k + 1) =~= tail);
    crate::numerals::reading_a_numeral(n);
    assert(crate::numerals::is_digit(tail[0]));
}

/// A subnet has two hosts where it is written properly and its length leaves room for them.
pub proof fn small_subnets_have_no_two_hosts(cidr: Seq<char>)
    ensures
        host_pair(cidr) is Some <==> cidr_fault(cidr) is None && cidr_prefix(cidr)->0 <= 31,
        host_pair(cidr) matches Some(p) ==> (cidr_prefix(cidr)->0 == 30 ==> p.2 == p.0),
{
}

/// A subnet is sound where it has a slash, a length up to thirty-two and an address.
pub proof fn sound_subnets_are_accepted(cidr: Seq<char>)
    ensures
        cidr_fault(cidr) is None <==> crate::text::find_from(cidr, "/"@, 0) is Some && (
        cidr_prefix(cidr) matches Some(n) && n <= 32) && (exists|o: Octets|
            cidr_address(cidr) == #[trigger] crate::ipv4::dotted(o)),
{
}

/// Hosts are given out of a subnet where it has room behind its first host for one at least.
pub proof fn roomy_subnets_give_out_hosts(cidr: Seq<char>, host_start: u32)
    ensures
        subnet_fault(cidr, host_start) is None <==> cidr_fault(cidr) is None && 1
            <= cidr_prefix(cidr)->0 <= 30 && host_start + 1 < block_size(cidr_prefix(cidr)->0),
{
}

} // verus!
