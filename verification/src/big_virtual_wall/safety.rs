//! Checks that keep an overlay away from the management network.

use vstd::prelude::*;

use crate::big_virtual_wall::overlay::{OverlayHost, OverlaySpec};
use crate::big_virtual_wall::planner::placed_on;
use crate::ipv4::parse_ipv4;
use crate::string_map::StringMap;
use crate::text::{comes_before, lowercase, same, u64_text};
use crate::virtual_wall::error::VirtualWallError;

verus! {

/// Whether a setting switches something on, given its text and the lowercase form of it.
pub fn is_switched_on(value: &str, lowered: &str) -> (r: bool)
    ensures
        r == (value@ == "1"@ || lowered@ == "true"@),
{
    same(value, "1") || same(lowered, "true")
}

/// Whether a setting is present and is `1` or `true` in any case.
pub open spec fn switched_on(value: Option<Seq<char>>) -> bool {
    match value {
        Some(v) => v == "1"@ || crate::text::lowercase_of(v) == "true"@,
        None => false,
    }
}

/// Whether an optional setting switches something on.
pub fn parse_bool(value: Option<&String>) -> (r: bool)
    ensures
        r == switched_on(
            match value {
                Some(v) => Some(v@),
                None => None,
            },
        ),
{
    match value {
        Some(v) => is_switched_on(v.as_str(), lowercase(v.as_str()).as_str()),
        None => false,
    }
}

/// Whether a text is an address of the management network, 10.2.0.0/16.
pub open spec fn mgmt_like(ip: Seq<char>) -> bool {
    exists|o: crate::ipv4::Octets| ip == #[trigger] crate::ipv4::dotted(o) && o.0 == 10 && o.1 == 2
}

fn is_mgmt_like(ip: &str) -> (r: bool)
    ensures
        r == mgmt_like(ip@),
{
    match parse_ipv4(ip) {
        Some(o) => {
            proof {
                assert forall|p: crate::ipv4::Octets| ip@ == #[trigger] crate::ipv4::dotted(
                    p,
                ) implies p == o by {
                    crate::ipv4::dotted_is_injective(p, o);
                }
                assert(ip@ == crate::ipv4::dotted(o));
            }
            o.0 == 10 && o.1 == 2
        },
        None => false,
    }
}

/// Whether a node is placed on a host.
pub open spec fn holds_node(spec: OverlaySpec, host: Seq<char>) -> bool {
    exists|i: int|
        0 <= i < spec.nodes@.len() && crate::big_virtual_wall::planner::placement(
            #[trigger] spec.nodes@[i],
        ) == host
}

/// Whether a host ends a tunnel.
pub open spec fn ends_tunnel(spec: OverlaySpec, host: Seq<char>) -> bool {
    exists|i: int|
        0 <= i < spec.tunnels@.len() && ((#[trigger] spec.tunnels@[i]).local_host@ == host
            || spec.tunnels@[i].remote_host@ == host)
}

/// Whether an overlay needs a host: it is declared, a node is placed on it, or it ends a tunnel.
pub open spec fn is_required(spec: OverlaySpec, host: Seq<char>) -> bool {
    ||| crate::big_virtual_wall::overlay::has_host(spec.hosts@, host)
    ||| holds_node(spec, host)
    ||| ends_tunnel(spec, host)
}

/// The first host of a name.
pub open spec fn first_host_named(hosts: Seq<OverlayHost>, name: Seq<char>) -> Option<OverlayHost>
    decreases hosts.len(),
{
    if hosts.len() == 0 {
        None
    } else if hosts[0].name@ == name {
        Some(hosts[0])
    } else {
        first_host_named(hosts.drop_first(), name)
    }
}

/// The underlay that a host would bind VXLAN to; empty when there is none.
pub open spec fn bound_underlay(
    spec: OverlaySpec,
    underlay: Map<Seq<char>, String>,
    host: Seq<char>,
) -> Seq<char> {
    let mapped = if underlay.dom().contains(host) {
        underlay[host]@
    } else {
        Seq::empty()
    };
    match first_host_named(spec.hosts@, host) {
        Some(h) => match h.underlay {
            Some(own) => own@,
            None => mapped,
        },
        None => mapped,
    }
}

/// What is wrong with the underlay of a host.
pub open spec fn host_fault(
    spec: OverlaySpec,
    underlay: Map<Seq<char>, String>,
    allow_mgmt: bool,
    host: Seq<char>,
) -> Option<Seq<char>> {
    let resolved = bound_underlay(spec, underlay, host);
    if resolved.len() == 0 {
        Some("Host "@ + host + " missing underlay interface/ip for VXLAN binding"@)
    } else if !allow_mgmt && mgmt_like(resolved) {
        Some(
            "Host "@ + host + " underlay "@ + resolved
                + " looks like a management address; refuse to bind VXLAN there (set BIGVW_ALLOW_MGMT_UNDERLAY=1 to override)"@,
        )
    } else {
        None
    }
}

/// What is wrong with the VLANs that the links need; ids end at 4094.
pub open spec fn vlan_fault(spec: OverlaySpec) -> Option<Seq<char>> {
    let count = spec.links@.len();
    if count == 0 {
        None
    } else if spec.vlan_start + count > 4094 {
        Some(
            "VLAN range exceeded (start="@ + crate::text::dec(spec.vlan_start as nat) + " + "@
                + crate::text::dec(count) + " links > 4094)"@,
        )
    } else if crate::big_virtual_wall::overlay::vlan_pool_exceeded(spec) {
        Some(
            "VLAN pool too small: "@ + crate::text::dec(count) + " links exceed pool count "@
                + crate::text::dec(spec.vlan_pool->0.count->0 as nat),
        )
    } else {
        None
    }
}

/// Whether a required host is faulty and no required host before it is.
pub open spec fn is_first_fault(
    spec: OverlaySpec,
    underlay: Map<Seq<char>, String>,
    allow_mgmt: bool,
    host: Seq<char>,
) -> bool {
    &&& is_required(spec, host)
    &&& host_fault(spec, underlay, allow_mgmt, host) is Some
    &&& forall|other: Seq<char>| #[trigger]
        is_required(spec, other) && crate::text::less(other, host) ==> host_fault(
            spec,
            underlay,
            allow_mgmt,
            other,
        ) is None
}

/// Whether every required host has a usable underlay.
pub open spec fn hosts_are_safe(
    spec: OverlaySpec,
    underlay: Map<Seq<char>, String>,
    allow_mgmt: bool,
) -> bool {
    forall|host: Seq<char>| #[trigger]
        is_required(spec, host) ==> host_fault(spec, underlay, allow_mgmt, host) is None
}

/// Whether an error reports the first faulty host by name or, where the hosts are safe, what is
/// wrong with the VLANs.
pub open spec fn is_safety_error(
    spec: OverlaySpec,
    underlay: Map<Seq<char>, String>,
    allow_mgmt: bool,
    e: VirtualWallError,
) -> bool {
    e matches VirtualWallError::Configuration(m) && {
        ||| exists|host: Seq<char>| #[trigger]
            is_first_fault(spec, underlay, allow_mgmt, host) && host_fault(
                spec,
                underlay,
                allow_mgmt,
                host,
            ) == Some(m@)
        ||| hosts_are_safe(spec, underlay, allow_mgmt) && vlan_fault(spec) == Some(m@)
    }
}

fn find_first_host<'a>(hosts: &'a Vec<OverlayHost>, name: &str) -> (r: Option<&'a OverlayHost>)
    ensures
        match r {
            Some(h) => first_host_named(hosts@, name@) == Some(*h),
            None => first_host_named(hosts@, name@) is None,
        },
{
    let mut i: usize = 0;
    assert(hosts@.skip(0) =~= hosts@);
    while i < hosts.len()
        invariant
            i <= hosts.len(),
            first_host_named(hosts@, name@) == first_host_named(hosts@.skip(i as int), name@),
        decreases hosts.len() - i,
    {
        assert(hosts@.skip(i as int).drop_first() =~= hosts@.skip(i + 1));
        if same(hosts[i].name.as_str(), name) {
            return Some(&hosts[i]);
        }
        i += 1;
    }
    None
}

fn find_underlay(spec: &OverlaySpec, underlay: &StringMap<String>, host: &str) -> (r: String)
    ensures
        r@ == bound_underlay(*spec, underlay@, host@),
{
    if let Some(h) = find_first_host(&spec.hosts, host) {
        if let Some(own) = &h.underlay {
            return own.clone();
        }
    }
    match underlay.get(host) {
        Some(mapped) => mapped.clone(),
        None => String::new(),
    }
}

fn find_fault(
    spec: &OverlaySpec,
    underlay: &StringMap<String>,
    allow_mgmt: bool,
    host: &str,
) -> (r: Option<String>)
    ensures
        crate::text::opt_text(r) == host_fault(*spec, underlay@, allow_mgmt, host@),
{
    let resolved = find_underlay(spec, underlay, host);
    if resolved.as_str().is_empty() {
        Some(
            "Host ".to_owned().concat(host).concat(
                " missing underlay interface/ip for VXLAN binding",
            ),
        )
    } else if !allow_mgmt && is_mgmt_like(resolved.as_str()) {
        Some(
            "Host ".to_owned().concat(host).concat(" underlay ").concat(resolved.as_str()).concat(
                " looks like a management address; refuse to bind VXLAN there (set BIGVW_ALLOW_MGMT_UNDERLAY=1 to override)",
            ),
        )
    } else {
        None
    }
}

fn required_hosts(spec: &OverlaySpec) -> (r: Vec<String>)
    ensures
        forall|h: Seq<char>| #[trigger]
            is_required(*spec, h) <==> crate::text::texts(r@).contains(h),
{
    let mut names: Vec<String> = Vec::new();
    let mut i: usize = 0;
    while i < spec.hosts.len()
        invariant
            i <= spec.hosts.len(),
            names@.len() == i,
            forall|j: int| 0 <= j < i ==> #[trigger] names@[j]@ == spec.hosts@[j].name@,
        decreases spec.hosts.len() - i,
    {
        names.push(spec.hosts[i].name.clone());
        i += 1;
    }
    let ghost a = spec.hosts@.len() as int;
    i = 0;
    while i < spec.nodes.len()
        invariant
            i <= spec.nodes.len(),
            a == spec.hosts@.len(),
            names@.len() == a + i,
            forall|j: int| 0 <= j < a ==> #[trigger] names@[j]@ == spec.hosts@[j].name@,
            forall|j: int|
                a <= j < a + i ==> #[trigger] names@[j]@
                    == crate::big_virtual_wall::planner::placement(spec.nodes@[j - a]),
        decreases spec.nodes.len() - i,
    {
        names.push(placed_on(&spec.nodes[i]));
        i += 1;
    }
    let ghost b = a + spec.nodes@.len();
    i = 0;
    while i < spec.tunnels.len()
        invariant
            i <= spec.tunnels.len(),
            a == spec.hosts@.len(),
            b == a + spec.nodes@.len(),
            names@.len() == b + 2 * i,
            forall|j: int| 0 <= j < a ==> #[trigger] names@[j]@ == spec.hosts@[j].name@,
            forall|j: int|
                a <= j < b ==> #[trigger] names@[j]@
                    == crate::big_virtual_wall::planner::placement(spec.nodes@[j - a]),
            forall|j: int|
                b <= j < b + 2 * i ==> #[trigger] names@[j]@ == if (j - b) % 2 == 0 {
                    spec.tunnels@[(j - b) / 2].local_host@
                } else {
                    spec.tunnels@[(j - b) / 2].remote_host@
                },
        decreases spec.tunnels.len() - i,
    {
        names.push(spec.tunnels[i].local_host.clone());
        names.push(spec.tunnels[i].remote_host.clone());
        i += 1;
    }
    proof {
        let all = crate::text::texts(names@);
        assert forall|h: Seq<char>| #[trigger] is_required(*spec, h) <==> all.contains(h) by {
            if all.contains(h) {
                let j = all.index_of(h);
                assert(names@[j]@ == h);
                if j < a {
                    assert(spec.hosts@[j].name@ == h);
                } else if j < b {
                    assert(crate::big_virtual_wall::planner::placement(spec.nodes@[j - a]) == h);
                } else {
                    let t = spec.tunnels@[(j - b) / 2];
                    assert(t.local_host@ == h || t.remote_host@ == h);
                    assert(ends_tunnel(*spec, h));
                }
            }
            if is_required(*spec, h) {
                if crate::big_virtual_wall::overlay::has_host(spec.hosts@, h) {
                    let i = choose|i: int|
                        0 <= i < spec.hosts@.len() && #[trigger] spec.hosts@[i].name@ == h;
                    assert(all[i] == names@[i]@);
                } else if holds_node(*spec, h) {
                    let i = choose|i: int|
                        0 <= i < spec.nodes@.len() && crate::big_virtual_wall::planner::placement(
                            #[trigger] spec.nodes@[i],
                        ) == h;
                    assert(all[a + i] == names@[a + i]@);
                } else {
                    let i = choose|i: int|
                        0 <= i < spec.tunnels@.len() && ((
                        #[trigger] spec.tunnels@[i]).local_host@ == h
                            || spec.tunnels@[i].remote_host@ == h);
                    assert(all[b + 2 * i] == names@[b + 2 * i]@);
                    assert(all[b + 2 * i + 1] == names@[b + 2 * i + 1]@);
                    assert((2 * i + 1) % 2 == 1 && (2 * i + 1) / 2 == i);
                }
            }
        }
    }
    names
}

/// Accepts an overlay whose hosts all have an underlay outside the management network, unless
/// that is allowed, and whose links fit into the VLAN range and pool. The fault that is reported
/// is that of the first host by name.
pub fn validate_safety(spec: &OverlaySpec, underlay: &StringMap<String>, allow_mgmt: bool) -> (r:
    Result<(), VirtualWallError>)
    ensures
        match r {
            Ok(_) => hosts_are_safe(*spec, underlay@, allow_mgmt) && vlan_fault(*spec) is None,
            Err(e) => is_safety_error(*spec, underlay@, allow_mgmt, e),
        },
{
    let names = required_hosts(spec);
    let ghost all = crate::text::texts(names@);
    let mut worst: Option<(String, String)> = None;
    let mut i: usize = 0;
    while i < names.len()
        invariant
            i <= names.len(),
            all == crate::text::texts(names@),
            match worst {
                None => forall|j: int|
                    0 <= j < i ==> host_fault(
                        *spec,
                        underlay@,
                        allow_mgmt,
                        #[trigger] all[j],
                    ) is None,
                Some(w) => {
                    &&& all.contains(w.0@)
                    &&& host_fault(*spec, underlay@, allow_mgmt, w.0@) == Some(w.1@)
                    &&& forall|j: int|
                        0 <= j < i && crate::text::less(#[trigger] all[j], w.0@) ==> host_fault(
                            *spec,
                            underlay@,
                            allow_mgmt,
                            all[j],
                        ) is None
                },
            },
        decreases names.len() - i,
    {
        let name = names[i].as_str();
        assert(all[i as int] == name@);
        let fault = find_fault(spec, underlay, allow_mgmt, name);
        if let Some(message) = fault {
            let replace = match &worst {
                None => true,
                Some(w) => comes_before(name, w.0.as_str()),
            };
            if replace {
                proof {
                    crate::text::less_irreflexive(name@);
                    assert forall|j: int|
                        0 <= j < i + 1 && crate::text::less(#[trigger] all[j], name@) implies
                        host_fault(*spec, underlay@, allow_mgmt, all[j]) is None by {
                        if let Some(w) = worst {
                            crate::text::less_transitive(all[j], name@, w.0@);
                        }
                    }
                }
                worst = Some((name.to_owned(), message));
            }
        }
        i += 1;
    }
    if let Some((host, message)) = worst {
        proof {
            assert forall|other: Seq<char>| #[trigger]
                is_required(*spec, other) && crate::text::less(other, host@) implies host_fault(
                *spec,
                underlay@,
                allow_mgmt,
                other,
            ) is None by {
                let j = all.index_of(other);
                assert(all[j] == other);
            }
            assert(is_first_fault(*spec, underlay@, allow_mgmt, host@));
        }
        return Err(VirtualWallError::Configuration(message));
    }
    assert forall|host: Seq<char>| #[trigger] is_required(*spec, host) implies host_fault(
        *spec,
        underlay@,
        allow_mgmt,
        host,
    ) is None by {
        let j = all.index_of(host);
        assert(all[j] == host);
    }
    let count: usize = spec.links.len();
    if count > 0 {
        let last: usize = (spec.vlan_start as usize).saturating_add(count);
        if last > 4094 {
            return Err(
                VirtualWallError::Configuration(
                    "VLAN range exceeded (start=".to_owned().concat(
                        u64_text(spec.vlan_start as u64).as_str(),
                    ).concat(" + ").concat(u64_text(count as u64).as_str()).concat(
                        " links > 4094)",
                    ),
                ),
            );
        }
        if let Some(pool) = &spec.vlan_pool {
            if let Some(max) = pool.count {
                if count > max as usize {
                    return Err(
                        VirtualWallError::Configuration(
                            "VLAN pool too small: ".to_owned().concat(
                                u64_text(count as u64).as_str(),
                            ).concat(" links exceed pool count ").concat(
                                u64_text(max as u64).as_str(),
                            ),
                        ),
                    );
                }
            }
        }
    }
    Ok(())
}

/// A host is bound to its own underlay where it declares one, else to the one that is known for it.
pub proof fn own_underlays_are_bound(
    spec: OverlaySpec,
    underlay: Map<Seq<char>, String>,
    k: int,
)
    requires
        0 <= k < spec.hosts@.len(),
        forall|i: int|
            0 <= i < k ==> (#[trigger] spec.hosts@[i]).name@ != spec.hosts@[k].name@,
    ensures
        ({
            let host = spec.hosts@[k];
            &&& host.underlay is Some ==> bound_underlay(spec, underlay, host.name@)
                == host.underlay->0@
            &&& host.underlay is None && underlay.dom().contains(host.name@) ==> bound_underlay(
                spec,
                underlay,
                host.name@,
            ) == underlay[host.name@]@
        }),
{
    the_first_host_counts(spec.hosts@, k);
}

proof fn the_first_host_counts(hosts: Seq<OverlayHost>, k: int)
    requires
        0 <= k < hosts.len(),
        forall|i: int| 0 <= i < k ==> (#[trigger] hosts[i]).name@ != hosts[k].name@,
    ensures
        first_host_named(hosts, hosts[k].name@) == Some(hosts[k]),
    decreases hosts.len(),
{
    if k > 0 {
        assert(hosts[0].name@ != hosts[k].name@);
        let rest = hosts.drop_first();
        assert(rest[k - 1] == hosts[k]);
        assert forall|i: int| 0 <= i < k - 1 implies (#[trigger] rest[i]).name@
            != rest[k - 1].name@ by {
            assert(rest[i] == hosts[i + 1]);
        }
        the_first_host_counts(rest, k - 1);
    }
}

/// In a safe overlay every host that is declared, holds a node or ends a tunnel is bound to
/// something, and not to a management address unless that is allowed.
pub proof fn safe_hosts_are_bound(
    spec: OverlaySpec,
    underlay: Map<Seq<char>, String>,
    allow_mgmt: bool,
    host: Seq<char>,
    c: u8,
    d: u8,
)
    requires
        hosts_are_safe(spec, underlay, allow_mgmt),
        (exists|i: int| 0 <= i < spec.hosts@.len() && #[trigger] spec.hosts@[i].name@ == host)
            || (exists|i: int|
            0 <= i < spec.nodes@.len() && (#[trigger] spec.nodes@[i]).host@ == host && host
                != "auto"@) || (exists|i: int|
            0 <= i < spec.tunnels@.len() && ((#[trigger] spec.tunnels@[i]).local_host@ == host
                || spec.tunnels@[i].remote_host@ == host)),
    ensures
        bound_underlay(spec, underlay, host).len() > 0,
        !allow_mgmt ==> bound_underlay(spec, underlay, host) != crate::ipv4::dotted((10, 2, c, d)),
{
    if exists|i: int|
        0 <= i < spec.nodes@.len() && (#[trigger] spec.nodes@[i]).host@ == host && host
            != "auto"@ {
        let i = choose|i: int|
            0 <= i < spec.nodes@.len() && (#[trigger] spec.nodes@[i]).host@ == host && host
                != "auto"@;
        assert(crate::big_virtual_wall::planner::placement(spec.nodes@[i]) == host);
    }
    assert(is_required(spec, host));
    let o: crate::ipv4::Octets = (10, 2, c, d);
    if bound_underlay(spec, underlay, host) == crate::ipv4::dotted(o) {
        assert(mgmt_like(bound_underlay(spec, underlay, host)));
    }
}

/// An overlay with links has room for its VLANs where they stay below the greatest number and
/// within the pool.
pub proof fn vlans_have_room(spec: OverlaySpec)
    ensures
        vlan_fault(spec) is None <==> spec.links@.len() == 0 || (spec.vlan_start
            + spec.links@.len() <= 4094 && (spec.vlan_pool matches Some(pool) ==> (
        pool.count matches Some(max) ==> spec.links@.len() <= max))),
{
}

/// An address of the management network is one that begins with ten and two.
pub proof fn management_addresses_begin_with_ten_and_two(o: crate::ipv4::Octets)
    ensures
        mgmt_like(crate::ipv4::dotted(o)) <==> o.0 == 10 && o.1 == 2,
{
    if mgmt_like(crate::ipv4::dotted(o)) {
        let p = choose|p: crate::ipv4::Octets|
            crate::ipv4::dotted(o) == #[trigger] crate::ipv4::dotted(p) && p.0 == 10 && p.1 == 2;
        crate::ipv4::dotted_is_injective(o, p);
    }
}

/// A switch is on where it reads one or true, in capitals or not, and off everywhere else.
pub proof fn switches_are_off_unless_set(v: Seq<char>)
    ensures
        switched_on(None) == false,
        switched_on(Some("1"@)),
        switched_on(Some(v)) <==> v == "1"@ || crate::text::lowercase_of(v) == "true"@,
{
}

/// What is refused is refused for a host that is needed and unsafe, or for its VLANs.
pub proof fn only_unsafe_overlays_are_refused(
    spec: OverlaySpec,
    underlay: Map<Seq<char>, String>,
    allow_mgmt: bool,
    e: VirtualWallError,
)
    requires
        is_safety_error(spec, underlay, allow_mgmt, e),
    ensures
        !hosts_are_safe(spec, underlay, allow_mgmt) || vlan_fault(spec) is Some,
{
}

} // verus!
