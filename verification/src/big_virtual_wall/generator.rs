//! Shell scripts that set up and tear down the overlay on each host.

use std::collections::HashMap;

use vstd::prelude::*;

use crate::big_virtual_wall::overlay::{NodeInterface, OverlayNode, OverlaySpec};
use crate::big_virtual_wall::planner::{
    placed_on, HostPlan, PlanResult, VlanLink, VlanView, VxlanDevice,
};
use crate::text::{comes_before, find_text, same, u64_text, without_suffix};
use crate::virtual_wall::allocator::first_hosts;

verus! {

broadcast use vstd::std_specs::hash::group_hash_axioms;

/// The parent interfaces of VLANs, if any are given.
pub open spec fn bindings_of(bindings: Option<&HashMap<u16, String>>) -> Map<u16, String> {
    match bindings {
        Some(m) => m@,
        None => Map::empty(),
    }
}

/// The commands that create a VXLAN device.
pub open spec fn vxlan_text(vx: VxlanDevice) -> Seq<char> {
    "\n# VXLAN to "@ + vx.peer@ + " on dev "@ + vx.name@ + "\nif ip link show "@ + vx.name@
        + " >/dev/null 2>&1; then\n  ip link set "@ + vx.name@ + " down || true\n  ip link del "@
        + vx.name@ + " || true\nfi\nip link add "@ + vx.name@ + " type vxlan id "@
        + crate::text::dec(vx.vni as nat) + " local "@ + vx.local_underlay@ + " remote "@
        + vx.remote_underlay@ + " dstport 4789 || true\nip link set "@ + vx.name@
        + " master $BR\nip link set "@ + vx.name@ + " up\n"@
}

/// The interface that carries a VLAN: the bound one, else the VXLAN device.
pub open spec fn vlan_parent(vl: VlanLink, bindings: Map<u16, String>) -> Seq<char> {
    if bindings.dom().contains(vl.vlan_id) {
        bindings[vl.vlan_id]@
    } else {
        vl.vxlan_dev@
    }
}

/// The name of the subinterface of a VLAN.
pub open spec fn subinterface(parent: Seq<char>, vlan_id: u16) -> Seq<char> {
    parent + "."@ + crate::text::dec(vlan_id as nat)
}

/// The name of the bridge of a VLAN.
pub open spec fn vlan_bridge(vlan_id: u16) -> Seq<char> {
    "br-vw-"@ + crate::text::dec(vlan_id as nat)
}

/// The delay that an impairment asks for.
pub open spec fn delay_text(latency_ms: Option<u32>) -> Seq<char> {
    match latency_ms {
        Some(latency) => " delay "@ + crate::text::dec(latency as nat) + "ms"@,
        None => Seq::empty(),
    }
}

/// The loss that an impairment asks for.
pub open spec fn loss_text(loss_pct: Option<String>) -> Seq<char> {
    match loss_pct {
        Some(loss) => " loss "@ + loss@ + "%"@,
        None => Seq::empty(),
    }
}

/// The traffic control commands of an impairment on a subinterface.
pub open spec fn impairment_text(
    sub: Seq<char>,
    imp: crate::big_virtual_wall::overlay::Impairment,
) -> Seq<char> {
    let head = "tc qdisc del dev "@ + sub + " root 2>/dev/null || true\ntc qdisc add dev "@ + sub
        + " root handle 1: htb default 1\n"@;
    let class = match imp.rate_mbps {
        Some(rate) => "tc class add dev "@ + sub + " parent 1: classid 1:1 htb rate "@
            + crate::text::dec(rate as nat) + "mbit ceil "@ + crate::text::dec(rate as nat)
            + "mbit\n"@,
        None => Seq::empty(),
    };
    let netem = if imp.latency_ms is Some || imp.loss_pct is Some {
        "tc qdisc add dev "@ + sub + " parent 1:1 handle 10: netem"@ + delay_text(imp.latency_ms)
            + loss_text(imp.loss_pct) + "\n"@
    } else {
        Seq::empty()
    };
    head + class + netem
}

/// The commands that create the subinterface and the bridge of a VLAN.
pub open spec fn vlan_text(vl: VlanLink, bindings: Map<u16, String>) -> Seq<char> {
    let parent = vlan_parent(vl, bindings);
    let vid = crate::text::dec(vl.vlan_id as nat);
    let sub = subinterface(parent, vl.vlan_id);
    let br = vlan_bridge(vl.vlan_id);
    let body = "\n# VLAN "@ + vid + " on "@ + parent + "\nif ip link show "@ + sub
        + " >/dev/null 2>&1; then\n  ip link set "@ + sub + " down || true\n  ip link del "@ + sub
        + " || true\nfi\nip link add link "@ + parent + " name "@ + sub + " type vlan id "@ + vid
        + "\nip link add name "@ + br + " type bridge 2>/dev/null || true\nip link set "@ + br
        + " up\nip link set "@ + sub + " master "@ + br + "\nip link set "@ + sub + " up\n"@;
    match vl.impairment {
        Some(imp) => body + impairment_text(sub, imp),
        None => body,
    }
}

/// The commands for VXLAN devices, one after another.
pub open spec fn vxlan_section(devices: Seq<VxlanDevice>) -> Seq<char>
    decreases devices.len(),
{
    if devices.len() == 0 {
        Seq::empty()
    } else {
        vxlan_section(devices.drop_last()) + vxlan_text(devices.last())
    }
}

/// The commands for VLANs, one after another.
pub open spec fn vlan_section(links: Seq<VlanLink>, bindings: Map<u16, String>) -> Seq<char>
    decreases links.len(),
{
    if links.len() == 0 {
        Seq::empty()
    } else {
        vlan_section(links.drop_last(), bindings) + vlan_text(links.last(), bindings)
    }
}

/// The setup script of a host.
pub open spec fn setup_script(hp: HostPlan, bindings: Map<u16, String>) -> Seq<char> {
    "#!/usr/bin/env bash\nset -euo pipefail\n\nBR="@ + hp.bridge@ + "\n\necho \"[host:"@ + hp.host@
        + "] setting up bridge $BR\"\nip link add $BR type bridge 2>/dev/null || true\nip link set $BR up\n"@
        + vxlan_section(hp.vxlan_devices@) + vlan_section(hp.vlan_links@, bindings)
}

fn render_vxlan(out: &mut String, vx: &VxlanDevice)
    ensures
        final(out)@ == old(out)@ + vxlan_text(*vx),
{
    let vni = u64_text(vx.vni as u64);
    let name = vx.name.as_str();
    let text = "\n# VXLAN to ".to_owned().concat(vx.peer.as_str()).concat(" on dev ").concat(
        name,
    ).concat("\nif ip link show ").concat(name).concat(
        " >/dev/null 2>&1; then\n  ip link set ",
    ).concat(name).concat(" down || true\n  ip link del ").concat(name).concat(
        " || true\nfi\nip link add ",
    ).concat(name).concat(" type vxlan id ").concat(vni.as_str()).concat(" local ").concat(
        vx.local_underlay.as_str(),
    ).concat(" remote ").concat(vx.remote_underlay.as_str()).concat(
        " dstport 4789 || true\nip link set ",
    ).concat(name).concat(" master $BR\nip link set ").concat(name).concat(" up\n");
    out.append(text.as_str());
}

fn parent_of(vl: &VlanLink, bindings: Option<&HashMap<u16, String>>) -> (r: String)
    ensures
        r@ == vlan_parent(*vl, bindings_of(bindings)),
{
    if let Some(m) = bindings {
        if let Some(bound) = m.get(&vl.vlan_id) {
            return bound.clone();
        }
    }
    vl.vxlan_dev.clone()
}

fn sub_name(parent: &str, vlan_id: u16) -> (r: String)
    ensures
        r@ == subinterface(parent@, vlan_id),
{
    parent.to_owned().concat(".").concat(u64_text(vlan_id as u64).as_str())
}

fn bridge_name(vlan_id: u16) -> (r: String)
    ensures
        r@ == vlan_bridge(vlan_id),
{
    "br-vw-".to_owned().concat(u64_text(vlan_id as u64).as_str())
}

fn render_impairment(sub: &str, imp: &crate::big_virtual_wall::overlay::Impairment) -> (r: String)
    ensures
        r@ == impairment_text(sub@, *imp),
{
    let head = "tc qdisc del dev ".to_owned().concat(sub).concat(
        " root 2>/dev/null || true\ntc qdisc add dev ",
    ).concat(sub).concat(" root handle 1: htb default 1\n");
    let class = match imp.rate_mbps {
        Some(rate) => {
            let rate = u64_text(rate as u64);
            "tc class add dev ".to_owned().concat(sub).concat(
                " parent 1: classid 1:1 htb rate ",
            ).concat(rate.as_str()).concat("mbit ceil ").concat(rate.as_str()).concat("mbit\n")
        },
        None => String::new(),
    };
    let netem = if imp.latency_ms.is_some() || imp.loss_pct.is_some() {
        let delay = match imp.latency_ms {
            Some(latency) => " delay ".to_owned().concat(
                u64_text(latency as u64).as_str(),
            ).concat("ms"),
            None => String::new(),
        };
        let loss = match &imp.loss_pct {
            Some(loss) => " loss ".to_owned().concat(loss.as_str()).concat("%"),
            None => String::new(),
        };
        "tc qdisc add dev ".to_owned().concat(sub).concat(" parent 1:1 handle 10: netem").concat(
            delay.as_str(),
        ).concat(loss.as_str()).concat("\n")
    } else {
        String::new()
    };
    head.concat(class.as_str()).concat(netem.as_str())
}

fn render_vlan(out: &mut String, vl: &VlanLink, bindings: Option<&HashMap<u16, String>>)
    ensures
        final(out)@ == old(out)@ + vlan_text(*vl, bindings_of(bindings)),
{
    let parent_name = parent_of(vl, bindings);
    let parent = parent_name.as_str();
    let vid_text = u64_text(vl.vlan_id as u64);
    let vid = vid_text.as_str();
    let sub_text = sub_name(parent, vl.vlan_id);
    let sub = sub_text.as_str();
    let br_text = bridge_name(vl.vlan_id);
    let br = br_text.as_str();
    let body = "\n# VLAN ".to_owned().concat(vid).concat(" on ").concat(parent).concat(
        "\nif ip link show ",
    ).concat(sub).concat(" >/dev/null 2>&1; then\n  ip link set ").concat(sub).concat(
        " down || true\n  ip link del ",
    ).concat(sub).concat(" || true\nfi\nip link add link ").concat(parent).concat(" name ").concat(
        sub,
    ).concat(" type vlan id ").concat(vid).concat("\nip link add name ").concat(br).concat(
        " type bridge 2>/dev/null || true\nip link set ",
    ).concat(br).concat(" up\nip link set ").concat(sub).concat(" master ").concat(br).concat(
        "\nip link set ",
    ).concat(sub).concat(" up\n");
    let text = match &vl.impairment {
        Some(imp) => body.concat(render_impairment(sub, imp).as_str()),
        None => body,
    };
    out.append(text.as_str());
}

/// The script of each host that sets up its bridge, VXLAN devices, VLAN subinterfaces and
/// impairments.
pub fn generate_host_scripts(
    plan: &PlanResult,
    vlan_bindings: Option<&HashMap<u16, String>>,
) -> (r: Vec<(String, String)>)
    ensures
        r@.len() == plan.host_plans@.len(),
        forall|i: int|
            #![trigger r@[i]]
            0 <= i < r@.len() ==> r@[i].0@ == plan.host_plans@[i].host@ && r@[i].1@
                == setup_script(plan.host_plans@[i], bindings_of(vlan_bindings)),
{
    let mut scripts: Vec<(String, String)> = Vec::new();
    let mut i: usize = 0;
    while i < plan.host_plans.len()
        invariant
            i <= plan.host_plans.len(),
            scripts@.len() == i,
            forall|j: int|
                #![trigger scripts@[j]]
                0 <= j < i ==> scripts@[j].0@ == plan.host_plans@[j].host@ && scripts@[j].1@
                    == setup_script(plan.host_plans@[j], bindings_of(vlan_bindings)),
        decreases plan.host_plans.len() - i,
    {
        let hp = &plan.host_plans[i];
        let head = "#!/usr/bin/env bash\nset -euo pipefail\n\nBR=".to_owned().concat(
            hp.bridge.as_str(),
        ).concat("\n\necho \"[host:").concat(hp.host.as_str()).concat(
            "] setting up bridge $BR\"\nip link add $BR type bridge 2>/dev/null || true\nip link set $BR up\n",
        );
        let mut devices = String::new();
        let mut d: usize = 0;
        while d < hp.vxlan_devices.len()
            invariant
                d <= hp.vxlan_devices.len(),
                devices@ == vxlan_section(hp.vxlan_devices@.take(d as int)),
            decreases hp.vxlan_devices.len() - d,
        {
            assert(hp.vxlan_devices@.take(d + 1).drop_last() =~= hp.vxlan_devices@.take(d as int));
            render_vxlan(&mut devices, &hp.vxlan_devices[d]);
            d += 1;
        }
        assert(hp.vxlan_devices@.take(d as int) =~= hp.vxlan_devices@);
        let mut links = String::new();
        let mut k: usize = 0;
        while k < hp.vlan_links.len()
            invariant
                k <= hp.vlan_links.len(),
                links@ == vlan_section(hp.vlan_links@.take(k as int), bindings_of(vlan_bindings)),
            decreases hp.vlan_links.len() - k,
        {
            assert(hp.vlan_links@.take(k + 1).drop_last() =~= hp.vlan_links@.take(k as int));
            render_vlan(&mut links, &hp.vlan_links[k], vlan_bindings);
            k += 1;
        }
        assert(hp.vlan_links@.take(k as int) =~= hp.vlan_links@);
        let script = head.concat(devices.as_str()).concat(links.as_str());
        scripts.push((hp.host.clone(), script));
        i += 1;
    }
    scripts
}

/// The links of all plans, host after host.
pub open spec fn all_links(plans: Seq<HostPlan>) -> Seq<VlanView>
    decreases plans.len(),
{
    if plans.len() == 0 {
        Seq::empty()
    } else {
        all_links(plans.drop_last()) + plans.last()@.vlan_links
    }
}

/// Whether two entries stand for the same link.
pub open spec fn same_link(a: VlanView, b: VlanView) -> bool {
    a.vlan_id == b.vlan_id && a.src == b.src && a.dst == b.dst
}

/// Whether a link stands earlier in the list already.
pub open spec fn repeated(links: Seq<VlanView>, i: int) -> bool {
    exists|j: int| 0 <= j < i && same_link(#[trigger] links[j], links[i])
}

/// The two addresses and the gateway of a VLAN. A subnet of the form `x.0/24` gives `x.1`, `x.2`
/// and `x.254`, any other subnet with room for two hosts gives its first two. A VLAN without such
/// a subnet gets a /30 whose third byte depends on its id.
pub open spec fn vlan_addresses(subnets: Map<u16, String>, vlan_id: u16) -> (
    Seq<char>,
    Seq<char>,
    Seq<char>,
) {
    if subnets.dom().contains(vlan_id) && crate::text::ends(subnets[vlan_id]@, ".0/24"@) {
        let subnet = subnets[vlan_id]@;
        let prefix = subnet.take(subnet.len() - ".0/24"@.len());
        (prefix + ".1/24"@, prefix + ".2/24"@, prefix + ".254"@)
    } else if subnets.dom().contains(vlan_id) && crate::virtual_wall::allocator::host_pair(
        subnets[vlan_id]@,
    ) is Some {
        let (a, b, gw) = crate::virtual_wall::allocator::host_pair(subnets[vlan_id]@)->0;
        let length = crate::virtual_wall::allocator::cidr_prefix(subnets[vlan_id]@)->0;
        (
            crate::virtual_wall::allocator::host_text(a, length),
            crate::virtual_wall::allocator::host_text(b, length),
            crate::ipv4::dotted(crate::virtual_wall::allocator::octets_of(gw)),
        )
    } else {
        let idx = crate::text::dec((50 + vlan_id % 200) as nat);
        ("192.168."@ + idx + ".1/30"@, "192.168."@ + idx + ".2/30"@, "192.168."@ + idx + ".1"@)
    }
}

/// An address with its gateway appended, once for each end that it belongs to.
pub open spec fn with_gateways(
    addr: Seq<char>,
    gw: Seq<char>,
    is_src: bool,
    is_dst: bool,
) -> Seq<char> {
    let once = if is_src {
        addr + "|gw:"@ + gw
    } else {
        addr
    };
    if is_dst {
        once + "|gw:"@ + gw
    } else {
        once
    }
}

/// The address of an end after the first `n` links: that of its first link, followed by the
/// gateways of all its links. Repeated links do not count.
pub open spec fn end_address(
    links: Seq<VlanView>,
    subnets: Map<u16, String>,
    end: (Seq<char>, Seq<char>),
    n: nat,
) -> Option<Seq<char>>
    decreases n,
{
    if n == 0 {
        None
    } else {
        let before = end_address(links, subnets, end, (n - 1) as nat);
        let link = links[n - 1];
        if repeated(links, n - 1) || (end != link.src && end != link.dst) {
            before
        } else {
            let (a1, a2, gw) = vlan_addresses(subnets, link.vlan_id);
            let addr = match before {
                Some(addr) => addr,
                None => if end == link.src {
                    a1
                } else {
                    a2
                },
            };
            Some(with_gateways(addr, gw, end == link.src, end == link.dst))
        }
    }
}

/// The VLAN of the last of the first `n` links that has the given end.
pub open spec fn end_vlan(links: Seq<VlanView>, end: (Seq<char>, Seq<char>), n: nat) -> Option<u16>
    decreases n,
{
    if n == 0 {
        None
    } else if end == links[n - 1].src || end == links[n - 1].dst {
        Some(links[n - 1].vlan_id)
    } else {
        end_vlan(links, end, (n - 1) as nat)
    }
}

/// An interface to create: its name, its address and its MTU.
#[verifier::ext_equal]
pub struct InterfaceView {
    pub name: Seq<char>,
    pub addr: Option<Seq<char>>,
    pub mtu: Option<u32>,
}

/// An interface of a virtual node that a runtime script creates.
pub struct RuntimeInterface {
    pub name: String,
    pub addr: Option<String>,
    pub mtu: Option<u32>,
}

impl View for RuntimeInterface {
    type V = InterfaceView;

    open spec fn view(&self) -> InterfaceView {
        InterfaceView {
            name: self.name@,
            addr: crate::text::opt_text(self.addr),
            mtu: self.mtu,
        }
    }
}

/// The interfaces that the declaration of a node names.
pub open spec fn declared_interfaces(interfaces: Seq<NodeInterface>) -> Seq<InterfaceView> {
    Seq::new(
        interfaces.len(),
        |i: int|
            InterfaceView { name: interfaces[i].name@, addr: None, mtu: interfaces[i].mtu },
    )
}

/// The interface of an end of a link; linked ends have an address and the default MTU.
pub open spec fn linked_interface(
    links: Seq<VlanView>,
    subnets: Map<u16, String>,
    end: (Seq<char>, Seq<char>),
) -> InterfaceView {
    let addr = end_address(links, subnets, end, links.len());
    InterfaceView {
        name: end.1,
        addr,
        mtu: if addr is Some {
            Some(1450u32)
        } else {
            None
        },
    }
}

/// The interfaces of a node that the first `n` links of the overlay name.
pub open spec fn linked_interfaces(
    spec: OverlaySpec,
    links: Seq<VlanView>,
    subnets: Map<u16, String>,
    node: Seq<char>,
    n: nat,
) -> Seq<InterfaceView>
    decreases n,
{
    if n == 0 {
        Seq::empty()
    } else {
        let link = spec.links@[n - 1];
        let before = linked_interfaces(spec, links, subnets, node, (n - 1) as nat);
        let first = if link.src.node@ == node {
            before.push(linked_interface(links, subnets, (link.src.node@, link.src.intf@)))
        } else {
            before
        };
        if link.dst.node@ == node {
            first.push(linked_interface(links, subnets, (link.dst.node@, link.dst.intf@)))
        } else {
            first
        }
    }
}

/// The number of leading interfaces whose names come before the given one.
pub open spec fn name_rank(sorted: Seq<InterfaceView>, name: Seq<char>) -> nat
    decreases sorted.len(),
{
    if sorted.len() > 0 && crate::text::less(sorted[0].name, name) {
        1 + name_rank(sorted.drop_first(), name)
    } else {
        0
    }
}

/// Whether an interface has a name.
pub open spec fn has_interface(list: Seq<InterfaceView>, name: Seq<char>) -> bool {
    exists|i: int| 0 <= i < list.len() && #[trigger] list[i].name == name
}

/// An interface with the address and the MTU of another one where it has none.
pub open spec fn filled(x: InterfaceView, e: InterfaceView) -> InterfaceView {
    InterfaceView {
        name: x.name,
        addr: crate::surroundings::either(x.addr, e.addr),
        mtu: crate::surroundings::either(x.mtu, e.mtu),
    }
}

/// An interface put in its place; where one of its name is there, that one is filled.
pub open spec fn placed(sorted: Seq<InterfaceView>, e: InterfaceView) -> Seq<InterfaceView> {
    if has_interface(sorted, e.name) {
        Seq::new(
            sorted.len(),
            |i: int|
                if sorted[i].name == e.name {
                    filled(sorted[i], e)
                } else {
                    sorted[i]
                },
        )
    } else {
        sorted.insert(name_rank(sorted, e.name) as int, e)
    }
}

/// Interfaces in ascending order of their names, those of one name as one: with the first address
/// and the first MTU that one of them has.
pub open spec fn sorted_by_name(list: Seq<InterfaceView>) -> Seq<InterfaceView>
    decreases list.len(),
{
    if list.len() == 0 {
        Seq::empty()
    } else {
        placed(sorted_by_name(list.drop_last()), list.last())
    }
}

/// The interfaces that a node gets. What its declaration gives counts, and what a declared
/// interface leaves open comes from the link that it is an end of.
pub open spec fn node_interfaces(
    spec: OverlaySpec,
    links: Seq<VlanView>,
    subnets: Map<u16, String>,
    node: OverlayNode,
) -> Seq<InterfaceView> {
    sorted_by_name(
        declared_interfaces(node.interfaces@) + linked_interfaces(
            spec,
            links,
            subnets,
            node.name@,
            spec.links@.len(),
        ),
    )
}

/// The command that gives an interface an address.
pub open spec fn assign_text(ns: Seq<char>, ns_if: Seq<char>, ip: Seq<char>) -> Seq<char> {
    "ip netns exec "@ + ns + " ip addr add "@ + ip + " dev "@ + ns_if + "\n"@
}

/// The commands that give an interface its address and the default route of its namespace.
pub open spec fn address_text(ns: Seq<char>, ns_if: Seq<char>, addr: Seq<char>) -> Seq<char> {
    match crate::text::find_from(addr, "|gw:"@, 0) {
        None => assign_text(ns, ns_if, addr),
        Some(k) => {
            let rest = addr.skip(k + "|gw:"@.len());
            let gw = match crate::text::find_from(rest, "|gw:"@, 0) {
                None => rest,
                Some(m) => rest.take(m),
            };
            assign_text(ns, ns_if, addr.take(k)) + "ip netns exec "@ + ns + " ip route add default via "@ + gw
                + "\n"@
        },
    }
}

/// The commands that create an interface of a node and attach it to its bridge.
pub open spec fn interface_text(
    links: Seq<VlanView>,
    node: Seq<char>,
    intf: InterfaceView,
) -> Seq<char> {
    let ns = "ns-"@ + node;
    let host_if = "veth-"@ + node + "-"@ + intf.name;
    let ns_if = node + "-"@ + intf.name;
    let create = "ip link del "@ + host_if + " 2>/dev/null || true\nip link add "@ + host_if
        + " type veth peer name "@ + ns_if + "\nip link set "@ + ns_if + " netns "@ + ns
        + "\nip netns exec "@ + ns + " ip link set "@ + ns_if + " up\nip link set "@ + host_if
        + " up\nip link set "@ + host_if + " master "@;
    let master = match end_vlan(links, (node, intf.name), links.len()) {
        Some(vlan_id) => vlan_bridge(vlan_id),
        None => "$BR"@,
    };
    let mtu = match intf.mtu {
        Some(mtu) => "ip netns exec "@ + ns + " ip link set "@ + ns_if + " mtu "@
            + crate::text::dec(mtu as nat) + "\n"@,
        None => Seq::empty(),
    };
    let addr = match intf.addr {
        Some(addr) => address_text(ns, ns_if, addr),
        None => Seq::empty(),
    };
    create + master + "\n"@ + mtu + addr
}

/// The commands for interfaces, one after another.
pub open spec fn interfaces_section(
    links: Seq<VlanView>,
    node: Seq<char>,
    list: Seq<InterfaceView>,
) -> Seq<char>
    decreases list.len(),
{
    if list.len() == 0 {
        Seq::empty()
    } else {
        interfaces_section(links, node, list.drop_last()) + interface_text(links, node, list.last())
    }
}

/// The commands that create a node as a network namespace with its interfaces.
pub open spec fn node_text(
    spec: OverlaySpec,
    links: Seq<VlanView>,
    subnets: Map<u16, String>,
    node: OverlayNode,
) -> Seq<char> {
    "ip netns add ns-"@ + node.name@ + " 2>/dev/null || true\nip netns exec ns-"@ + node.name@
        + " ip link set lo up\n"@ + interfaces_section(
        links,
        node.name@,
        node_interfaces(spec, links, subnets, node),
    )
}

/// The commands for those of the first `n` nodes that are placed on a host.
pub open spec fn nodes_section(
    spec: OverlaySpec,
    links: Seq<VlanView>,
    subnets: Map<u16, String>,
    host: Seq<char>,
    n: nat,
) -> Seq<char>
    decreases n,
{
    if n == 0 {
        Seq::empty()
    } else {
        let before = nodes_section(spec, links, subnets, host, (n - 1) as nat);
        if crate::big_virtual_wall::planner::placement(spec.nodes@[n - 1]) == host {
            before + node_text(spec, links, subnets, spec.nodes@[n - 1])
        } else {
            before
        }
    }
}

/// The subnets that the VLAN pool of an overlay gives.
pub open spec fn pool_subnets(spec: OverlaySpec) -> Map<u16, String> {
    match spec.vlan_pool {
        Some(pool) => pool.subnets@,
        None => Map::empty(),
    }
}

/// The script that creates the virtual nodes of a host.
pub open spec fn runtime_script(
    plans: Seq<HostPlan>,
    spec: OverlaySpec,
    hp: HostPlan,
) -> Seq<char> {
    "#!/usr/bin/env bash\nset -euo pipefail\n\nBR="@ + hp.bridge@ + "\n\necho \"[host:"@ + hp.host@
        + "] creating virtual namespaces and veths\"\n\nip link set $BR up || true\n"@
        + nodes_section(
        spec,
        all_links(plans),
        pool_subnets(spec),
        hp.host@,
        spec.nodes@.len(),
    )
}

/// What links say.
pub open spec fn link_views(links: Seq<&VlanLink>) -> Seq<VlanView> {
    Seq::new(links.len(), |i: int| links[i]@)
}

fn collect_links(plan: &PlanResult) -> (r: Vec<&VlanLink>)
    ensures
        link_views(r@) == all_links(plan.host_plans@),
{
    let mut out: Vec<&VlanLink> = Vec::new();
    let mut i: usize = 0;
    assert(link_views(out@) =~= all_links(plan.host_plans@.take(0)));
    while i < plan.host_plans.len()
        invariant
            i <= plan.host_plans.len(),
            link_views(out@) == all_links(plan.host_plans@.take(i as int)),
        decreases plan.host_plans.len() - i,
    {
        let hp = &plan.host_plans[i];
        let ghost before = link_views(out@);
        let mut k: usize = 0;
        assert(before + hp@.vlan_links.take(0) =~= before);
        while k < hp.vlan_links.len()
            invariant
                k <= hp.vlan_links.len(),
                link_views(out@) == before + hp@.vlan_links.take(k as int),
            decreases hp.vlan_links.len() - k,
        {
            let ghost was = out@;
            out.push(&hp.vlan_links[k]);
            assert(link_views(out@) =~= link_views(was).push(hp.vlan_links@[k as int]@));
            assert(before + hp@.vlan_links.take(k + 1) =~= (before + hp@.vlan_links.take(
                k as int,
            )).push(hp@.vlan_links[k as int]));
            k += 1;
        }
        assert(hp@.vlan_links.take(k as int) =~= hp@.vlan_links);
        assert(plan.host_plans@.take(i + 1).drop_last() =~= plan.host_plans@.take(i as int));
        i += 1;
    }
    assert(plan.host_plans@.take(i as int) =~= plan.host_plans@);
    out
}

fn is_end(node: &str, intf: &str, vl: &VlanLink, which: usize) -> (r: bool)
    requires
        which < 2,
    ensures
        r == ((node@, intf@) == if which == 0 {
            vl@.src
        } else {
            vl@.dst
        }),
{
    same(node, vl.endpoints[which].node.as_str()) && same(intf, vl.endpoints[which].intf.as_str())
}

fn is_same_link(a: &VlanLink, b: &VlanLink) -> (r: bool)
    ensures
        r == same_link(a@, b@),
{
    a.vlan_id == b.vlan_id && is_end(
        a.endpoints[0].node.as_str(),
        a.endpoints[0].intf.as_str(),
        b,
        0,
    ) && is_end(a.endpoints[1].node.as_str(), a.endpoints[1].intf.as_str(), b, 1)
}

fn is_repeated(links: &Vec<&VlanLink>, i: usize) -> (r: bool)
    requires
        i < links@.len(),
    ensures
        r == repeated(link_views(links@), i as int),
{
    let ghost views = link_views(links@);
    let mut j: usize = 0;
    while j < i
        invariant
            j <= i < links@.len(),
            views == link_views(links@),
            forall|k: int| 0 <= k < j ==> !same_link(#[trigger] views[k], views[i as int]),
        decreases i - j,
    {
        if is_same_link(links[j], links[i]) {
            assert(same_link(views[j as int], views[i as int]));
            return true;
        }
        j += 1;
    }
    false
}

fn addresses_of(subnets: Option<&HashMap<u16, String>>, vlan_id: u16) -> (r: (
    String,
    String,
    String,
))
    ensures
        (r.0@, r.1@, r.2@) == vlan_addresses(bindings_of(subnets), vlan_id),
{
    if let Some(m) = subnets {
        if let Some(subnet) = m.get(&vlan_id) {
            if let Some(prefix) = without_suffix(subnet.as_str(), ".0/24") {
                return (
                    prefix.to_owned().concat(".1/24"),
                    prefix.to_owned().concat(".2/24"),
                    prefix.to_owned().concat(".254"),
                );
            }
            if let Some(hosts) = first_hosts(subnet.as_str()) {
                return hosts;
            }
        }
    }
    let idx_text = u64_text((50 + vlan_id % 200) as u64);
    let idx = idx_text.as_str();
    (
        "192.168.".to_owned().concat(idx).concat(".1/30"),
        "192.168.".to_owned().concat(idx).concat(".2/30"),
        "192.168.".to_owned().concat(idx).concat(".1"),
    )
}

fn address_of_end(
    links: &Vec<&VlanLink>,
    subnets: Option<&HashMap<u16, String>>,
    node: &str,
    intf: &str,
) -> (r: Option<String>)
    ensures
        crate::text::opt_text(r) == end_address(
            link_views(links@),
            bindings_of(subnets),
            (node@, intf@),
            links@.len(),
        ),
{
    let mut found: Option<String> = None;
    let mut i: usize = 0;
    while i < links.len()
        invariant
            i <= links.len(),
            crate::text::opt_text(found) == end_address(
                link_views(links@),
                bindings_of(subnets),
                (node@, intf@),
                i as nat,
            ),
        decreases links.len() - i,
    {
        let link = links[i];
        let is_src = is_end(node, intf, link, 0);
        let is_dst = is_end(node, intf, link, 1);
        if (is_src || is_dst) && !is_repeated(links, i) {
            let (a1, a2, gw) = addresses_of(subnets, link.vlan_id);
            let mut addr = match found {
                Some(addr) => addr,
                None => if is_src {
                    a1
                } else {
                    a2
                },
            };
            if is_src {
                addr = addr.concat("|gw:").concat(gw.as_str());
            }
            if is_dst {
                addr = addr.concat("|gw:").concat(gw.as_str());
            }
            found = Some(addr);
        }
        i += 1;
    }
    found
}

fn vlan_of_end(links: &Vec<&VlanLink>, node: &str, intf: &str) -> (r: Option<u16>)
    ensures
        r == end_vlan(link_views(links@), (node@, intf@), links@.len()),
{
    let mut i: usize = links.len();
    while i > 0
        invariant
            i <= links.len(),
            end_vlan(link_views(links@), (node@, intf@), links@.len()) == end_vlan(
                link_views(links@),
                (node@, intf@),
                i as nat,
            ),
        decreases i,
    {
        i -= 1;
        let link = links[i];
        if is_end(node, intf, link, 0) || is_end(node, intf, link, 1) {
            return Some(link.vlan_id);
        }
    }
    None
}

/// What interfaces say.
pub open spec fn interface_views(list: Seq<RuntimeInterface>) -> Seq<InterfaceView> {
    Seq::new(list.len(), |i: int| list[i]@)
}

proof fn rank_is_first(sorted: Seq<InterfaceView>, name: Seq<char>, r: int)
    requires
        0 <= r <= sorted.len(),
        forall|i: int| 0 <= i < r ==> crate::text::less(#[trigger] sorted[i].name, name),
        r < sorted.len() ==> !crate::text::less(sorted[r].name, name),
    ensures
        name_rank(sorted, name) == r,
    decreases sorted.len(),
{
    if r > 0 {
        assert(crate::text::less(sorted[0].name, name));
        let rest = sorted.drop_first();
        assert forall|i: int| 0 <= i < r - 1 implies crate::text::less(
            #[trigger] rest[i].name,
            name,
        ) by {
            assert(rest[i] == sorted[i + 1]);
        }
        rank_is_first(rest, name, r - 1);
    }
}

fn fill(x: &RuntimeInterface, e: &RuntimeInterface) -> (r: RuntimeInterface)
    ensures
        r@ == filled(x@, e@),
{
    let addr = match &x.addr {
        Some(a) => Some(a.clone()),
        None => match &e.addr {
            Some(a) => Some(a.clone()),
            None => None,
        },
    };
    let mtu: Option<u32> = match x.mtu {
        Some(n) => Some(n),
        None => e.mtu,
    };
    RuntimeInterface { name: x.name.clone(), addr, mtu }
}

fn fill_namesakes(list: &mut Vec<RuntimeInterface>, e: &RuntimeInterface) -> (r: bool)
    ensures
        r == has_interface(interface_views(old(list)@), e@.name),
        r ==> interface_views(final(list)@) == placed(interface_views(old(list)@), e@),
        !r ==> interface_views(final(list)@) == interface_views(old(list)@),
{
    let ghost views = interface_views(list@);
    let ghost name = e@.name;
    let mut found = false;
    let mut i: usize = 0;
    while i < list.len()
        invariant
            i <= list@.len(),
            list@.len() == views.len(),
            name == e@.name,
            forall|j: int|
                0 <= j < i ==> (#[trigger] list@[j])@ == if views[j].name == name {
                    filled(views[j], e@)
                } else {
                    views[j]
                },
            forall|j: int| i <= j < list@.len() ==> (#[trigger] list@[j])@ == views[j],
            found ==> has_interface(views, name),
            !found ==> forall|j: int| 0 <= j < i ==> #[trigger] views[j].name != name,
        decreases list.len() - i,
    {
        assert(list@[i as int]@ == views[i as int]);
        if same(list[i].name.as_str(), e.name.as_str()) {
            assert(views[i as int].name == name);
            let merged = fill(&list[i], e);
            list.set(i, merged);
            found = true;
        }
        i += 1;
    }
    proof {
        let after = interface_views(list@);
        if found {
            assert(after =~= placed(views, e@));
        } else {
            assert(!has_interface(views, name));
            assert(after =~= views);
        }
    }
    found
}

fn place(list: &mut Vec<RuntimeInterface>, e: RuntimeInterface)
    ensures
        interface_views(final(list)@) == placed(interface_views(old(list)@), e@),
{
    let ghost views = interface_views(list@);
    if fill_namesakes(list, &e) {
        return ;
    }
    let mut at: usize = 0;
    while at < list.len() && comes_before(list[at].name.as_str(), e.name.as_str())
        invariant
            at <= list.len(),
            views == interface_views(list@),
            forall|j: int| 0 <= j < at ==> crate::text::less(#[trigger] views[j].name, e.name@),
        decreases list.len() - at,
    {
        at += 1;
    }
    proof {
        rank_is_first(views, e.name@, at as int);
    }
    let ghost x = e@;
    list.insert(at, e);
    assert(interface_views(list@) =~= views.insert(at as int, x));
}

fn collect_interfaces(
    spec: &OverlaySpec,
    links: &Vec<&VlanLink>,
    subnets: Option<&HashMap<u16, String>>,
    node: &OverlayNode,
) -> (r: Vec<RuntimeInterface>)
    ensures
        interface_views(r@) == node_interfaces(
            *spec,
            link_views(links@),
            bindings_of(subnets),
            *node,
        ),
{
    let ghost declared = declared_interfaces(node.interfaces@);
    let mut list: Vec<RuntimeInterface> = Vec::new();
    let mut i: usize = 0;
    assert(interface_views(list@) =~= sorted_by_name(declared.take(0)));
    while i < node.interfaces.len()
        invariant
            i <= node.interfaces.len(),
            declared == declared_interfaces(node.interfaces@),
            interface_views(list@) == sorted_by_name(declared.take(i as int)),
        decreases node.interfaces.len() - i,
    {
        let intf = &node.interfaces[i];
        assert(declared.take(i + 1).drop_last() =~= declared.take(i as int));
        place(
            &mut list,
            RuntimeInterface { name: intf.name.clone(), addr: None, mtu: intf.mtu },
        );
        i += 1;
    }
    let ghost views = link_views(links@);
    let ghost map = bindings_of(subnets);
    assert(declared.take(i as int) =~= declared + linked_interfaces(
        *spec,
        views,
        map,
        node.name@,
        0,
    ));
    let mut k: usize = 0;
    while k < spec.links.len()
        invariant
            k <= spec.links.len(),
            views == link_views(links@),
            map == bindings_of(subnets),
            interface_views(list@) == sorted_by_name(
                declared + linked_interfaces(*spec, views, map, node.name@, k as nat),
            ),
        decreases spec.links.len() - k,
    {
        let link = &spec.links[k];
        let ghost mut done = linked_interfaces(*spec, views, map, node.name@, k as nat);
        if same(link.src.node.as_str(), node.name.as_str()) {
            let addr = address_of_end(links, subnets, link.src.node.as_str(), link.src.intf.as_str());
            let mtu: Option<u32> = if addr.is_some() {
                Some(1450)
            } else {
                None
            };
            let ghost e = linked_interface(views, map, (link.src.node@, link.src.intf@));
            assert((declared + done.push(e)).drop_last() =~= declared + done);
            place(&mut list, RuntimeInterface { name: link.src.intf.clone(), addr, mtu });
            assert((declared + done.push(e)).last() == e);
            proof {
                done = done.push(e);
            }
            assert(interface_views(list@) == sorted_by_name(declared + done));
        }
        if same(link.dst.node.as_str(), node.name.as_str()) {
            let addr = address_of_end(links, subnets, link.dst.node.as_str(), link.dst.intf.as_str());
            let mtu: Option<u32> = if addr.is_some() {
                Some(1450)
            } else {
                None
            };
            let ghost e = linked_interface(views, map, (link.dst.node@, link.dst.intf@));
            assert((declared + done.push(e)).drop_last() =~= declared + done);
            place(&mut list, RuntimeInterface { name: link.dst.intf.clone(), addr, mtu });
            assert((declared + done.push(e)).last() == e);
            proof {
                done = done.push(e);
            }
            assert(interface_views(list@) == sorted_by_name(declared + done));
        }
        assert(done == linked_interfaces(*spec, views, map, node.name@, (k + 1) as nat));
        k += 1;
    }
    list
}

fn render_address(ns: &str, ns_if: &str, addr: &str) -> (r: String)
    ensures
        r@ == address_text(ns@, ns_if@, addr@),
{
    proof {
        reveal_strlit("|gw:");
        crate::text::find_from_is_first(addr@, "|gw:"@, 0);
    }
    let found: Option<usize> = find_text(addr, "|gw:", 0);
    match found {
        None => "ip netns exec ".to_owned().concat(ns).concat(" ip addr add ").concat(addr).concat(
            " dev ",
        ).concat(ns_if).concat("\n"),
        Some(k) => {
            let ip = addr.substring_char(0, k);
            let n: usize = addr.unicode_len();
            let rest = addr.substring_char(k + 4, n);
            assert(rest@ =~= addr@.skip(k + "|gw:"@.len()));
            assert(ip@ =~= addr@.take(k as int));
            proof {
                crate::text::find_from_is_first(rest@, "|gw:"@, 0);
            }
            let again: Option<usize> = find_text(rest, "|gw:", 0);
            let gw = match again {
                None => rest,
                Some(m) => rest.substring_char(0, m),
            };
            "ip netns exec ".to_owned().concat(ns).concat(" ip addr add ").concat(ip).concat(
                " dev ",
            ).concat(ns_if).concat("\n").concat("ip netns exec ").concat(ns).concat(
                " ip route add default via ",
            ).concat(gw).concat("\n")
        },
    }
}

fn render_interface(links: &Vec<&VlanLink>, node: &str, intf: &RuntimeInterface) -> (r: String)
    ensures
        r@ == interface_text(link_views(links@), node@, intf@),
{
    let ns_text = "ns-".to_owned().concat(node);
    let ns = ns_text.as_str();
    let host_text = "veth-".to_owned().concat(node).concat("-").concat(intf.name.as_str());
    let host_if = host_text.as_str();
    let ns_if_text = node.to_owned().concat("-").concat(intf.name.as_str());
    let ns_if = ns_if_text.as_str();
    let create = "ip link del ".to_owned().concat(host_if).concat(
        " 2>/dev/null || true\nip link add ",
    ).concat(host_if).concat(" type veth peer name ").concat(ns_if).concat(
        "\nip link set ",
    ).concat(ns_if).concat(" netns ").concat(ns).concat("\nip netns exec ").concat(ns).concat(
        " ip link set ",
    ).concat(ns_if).concat(" up\nip link set ").concat(host_if).concat(
        " up\nip link set ",
    ).concat(host_if).concat(" master ");
    let vlan: Option<u16> = vlan_of_end(links, node, intf.name.as_str());
    let master = match vlan {
        Some(vlan_id) => bridge_name(vlan_id),
        None => "$BR".to_owned(),
    };
    let mtu = match intf.mtu {
        Some(mtu) => "ip netns exec ".to_owned().concat(ns).concat(" ip link set ").concat(
            ns_if,
        ).concat(" mtu ").concat(u64_text(mtu as u64).as_str()).concat("\n"),
        None => String::new(),
    };
    let addr = match &intf.addr {
        Some(addr) => render_address(ns, ns_if, addr.as_str()),
        None => String::new(),
    };
    create.concat(master.as_str()).concat("\n").concat(mtu.as_str()).concat(addr.as_str())
}

fn render_node(
    spec: &OverlaySpec,
    links: &Vec<&VlanLink>,
    subnets: Option<&HashMap<u16, String>>,
    node: &OverlayNode,
) -> (r: String)
    ensures
        r@ == node_text(*spec, link_views(links@), bindings_of(subnets), *node),
{
    let interfaces = collect_interfaces(spec, links, subnets, node);
    let ghost all = interface_views(interfaces@);
    let mut section = String::new();
    let mut i: usize = 0;
    while i < interfaces.len()
        invariant
            i <= interfaces.len(),
            all == interface_views(interfaces@),
            section@ == interfaces_section(link_views(links@), node.name@, all.take(i as int)),
        decreases interfaces.len() - i,
    {
        assert(all.take(i + 1).drop_last() =~= all.take(i as int));
        section.append(render_interface(links, node.name.as_str(), &interfaces[i]).as_str());
        i += 1;
    }
    assert(all.take(i as int) =~= all);
    "ip netns add ns-".to_owned().concat(node.name.as_str()).concat(
        " 2>/dev/null || true\nip netns exec ns-",
    ).concat(node.name.as_str()).concat(" ip link set lo up\n").concat(section.as_str())
}

/// The script of each host that creates its virtual nodes as network namespaces and attaches
/// their interfaces to the bridges. Linked interfaces get the addresses of their VLANs.
pub fn generate_host_runtime_scripts(plan: &PlanResult, spec: &OverlaySpec) -> (r: Vec<
    (String, String),
>)
    ensures
        r@.len() == plan.host_plans@.len(),
        forall|i: int|
            #![trigger r@[i]]
            0 <= i < r@.len() ==> r@[i].0@ == plan.host_plans@[i].host@ && r@[i].1@
                == runtime_script(plan.host_plans@, *spec, plan.host_plans@[i]),
{
    let links = collect_links(plan);
    let subnets: Option<&HashMap<u16, String>> = match &spec.vlan_pool {
        Some(pool) => Some(&pool.subnets),
        None => None,
    };
    assert(bindings_of(subnets) == pool_subnets(*spec));
    let mut scripts: Vec<(String, String)> = Vec::new();
    let mut i: usize = 0;
    while i < plan.host_plans.len()
        invariant
            i <= plan.host_plans.len(),
            scripts@.len() == i,
            link_views(links@) == all_links(plan.host_plans@),
            bindings_of(subnets) == pool_subnets(*spec),
            forall|j: int|
                #![trigger scripts@[j]]
                0 <= j < i ==> scripts@[j].0@ == plan.host_plans@[j].host@ && scripts@[j].1@
                    == runtime_script(plan.host_plans@, *spec, plan.host_plans@[j]),
        decreases plan.host_plans.len() - i,
    {
        let hp = &plan.host_plans[i];
        let head = "#!/usr/bin/env bash\nset -euo pipefail\n\nBR=".to_owned().concat(
            hp.bridge.as_str(),
        ).concat("\n\necho \"[host:").concat(hp.host.as_str()).concat(
            "] creating virtual namespaces and veths\"\n\nip link set $BR up || true\n",
        );
        let mut section = String::new();
        let mut k: usize = 0;
        while k < spec.nodes.len()
            invariant
                k <= spec.nodes.len(),
                link_views(links@) == all_links(plan.host_plans@),
                bindings_of(subnets) == pool_subnets(*spec),
                section@ == nodes_section(
                    *spec,
                    all_links(plan.host_plans@),
                    pool_subnets(*spec),
                    hp.host@,
                    k as nat,
                ),
            decreases spec.nodes.len() - k,
        {
            let node = &spec.nodes[k];
            if same(placed_on(node).as_str(), hp.host.as_str()) {
                section.append(render_node(spec, &links, subnets, node).as_str());
            }
            k += 1;
        }
        let script = head.concat(section.as_str());
        scripts.push((hp.host.clone(), script));
        i += 1;
    }
    scripts
}

/// The commands that remove what carries a VLAN.
pub open spec fn vlan_cleanup_text(vl: VlanLink) -> Seq<char> {
    let sub = subinterface(vl.vxlan_dev@, vl.vlan_id);
    let br = vlan_bridge(vl.vlan_id);
    "tc qdisc del dev "@ + sub + " root 2>/dev/null || true\nip link del "@ + sub
        + " 2>/dev/null || true\nip link set "@ + br + " down 2>/dev/null || true\nip link del "@
        + br
        + " 2>/dev/null || true\nfor v in $(ip -o link show | awk -F': ' '/veth-"@
        + crate::text::dec(vl.vlan_id as nat) + "/"@ + vl.vxlan_dev@
        + "/ {print $2}' | tr -d ':'); do ip link del $v 2>/dev/null || true; done\n"@
}

/// The commands that remove a VXLAN device.
pub open spec fn vxlan_cleanup_text(vx: VxlanDevice) -> Seq<char> {
    "ip link set "@ + vx.name@ + " down 2>/dev/null || true\nip link del "@ + vx.name@
        + " 2>/dev/null || true\n"@
}

/// The removal of VLANs, one after another.
pub open spec fn vlan_cleanup_section(links: Seq<VlanLink>) -> Seq<char>
    decreases links.len(),
{
    if links.len() == 0 {
        Seq::empty()
    } else {
        vlan_cleanup_section(links.drop_last()) + vlan_cleanup_text(links.last())
    }
}

/// The removal of VXLAN devices, one after another.
pub open spec fn vxlan_cleanup_section(devices: Seq<VxlanDevice>) -> Seq<char>
    decreases devices.len(),
{
    if devices.len() == 0 {
        Seq::empty()
    } else {
        vxlan_cleanup_section(devices.drop_last()) + vxlan_cleanup_text(devices.last())
    }
}

/// The script that removes the overlay from a host.
pub open spec fn cleanup_script(hp: HostPlan) -> Seq<char> {
    "#!/usr/bin/env bash\nset -euo pipefail\n\necho \"[host:"@ + hp.host@
        + "] cleaning VLANs and VXLAN devices\"\n"@ + vlan_cleanup_section(hp.vlan_links@)
        + vxlan_cleanup_section(hp.vxlan_devices@)
}

/// The script of each host that removes what its setup script created.
pub fn generate_host_cleanup_scripts(plan: &PlanResult) -> (r: Vec<(String, String)>)
    ensures
        r@.len() == plan.host_plans@.len(),
        forall|i: int|
            #![trigger r@[i]]
            0 <= i < r@.len() ==> r@[i].0@ == plan.host_plans@[i].host@ && r@[i].1@
                == cleanup_script(plan.host_plans@[i]),
{
    let mut scripts: Vec<(String, String)> = Vec::new();
    let mut i: usize = 0;
    while i < plan.host_plans.len()
        invariant
            i <= plan.host_plans.len(),
            scripts@.len() == i,
            forall|j: int|
                #![trigger scripts@[j]]
                0 <= j < i ==> scripts@[j].0@ == plan.host_plans@[j].host@ && scripts@[j].1@
                    == cleanup_script(plan.host_plans@[j]),
        decreases plan.host_plans.len() - i,
    {
        let hp = &plan.host_plans[i];
        let head = "#!/usr/bin/env bash\nset -euo pipefail\n\necho \"[host:".to_owned().concat(
            hp.host.as_str(),
        ).concat("] cleaning VLANs and VXLAN devices\"\n");
        let mut links = String::new();
        let mut k: usize = 0;
        while k < hp.vlan_links.len()
            invariant
                k <= hp.vlan_links.len(),
                links@ == vlan_cleanup_section(hp.vlan_links@.take(k as int)),
            decreases hp.vlan_links.len() - k,
        {
            assert(hp.vlan_links@.take(k + 1).drop_last() =~= hp.vlan_links@.take(k as int));
            let vl = &hp.vlan_links[k];
            let sub_text = sub_name(vl.vxlan_dev.as_str(), vl.vlan_id);
            let sub = sub_text.as_str();
            let br_text = bridge_name(vl.vlan_id);
            let br = br_text.as_str();
            let text = "tc qdisc del dev ".to_owned().concat(sub).concat(
                " root 2>/dev/null || true\nip link del ",
            ).concat(sub).concat(" 2>/dev/null || true\nip link set ").concat(br).concat(
                " down 2>/dev/null || true\nip link del ",
            ).concat(br).concat(
                " 2>/dev/null || true\nfor v in $(ip -o link show | awk -F': ' '/veth-",
            ).concat(u64_text(vl.vlan_id as u64).as_str()).concat("/").concat(
                vl.vxlan_dev.as_str(),
            ).concat(
                "/ {print $2}' | tr -d ':'); do ip link del $v 2>/dev/null || true; done\n",
            );
            links.append(text.as_str());
            k += 1;
        }
        assert(hp.vlan_links@.take(k as int) =~= hp.vlan_links@);
        let mut devices = String::new();
        let mut d: usize = 0;
        while d < hp.vxlan_devices.len()
            invariant
                d <= hp.vxlan_devices.len(),
                devices@ == vxlan_cleanup_section(hp.vxlan_devices@.take(d as int)),
            decreases hp.vxlan_devices.len() - d,
        {
            assert(hp.vxlan_devices@.take(d + 1).drop_last() =~= hp.vxlan_devices@.take(d as int));
            let name = hp.vxlan_devices[d].name.as_str();
            let text = "ip link set ".to_owned().concat(name).concat(
                " down 2>/dev/null || true\nip link del ",
            ).concat(name).concat(" 2>/dev/null || true\n");
            devices.append(text.as_str());
            d += 1;
        }
        assert(hp.vxlan_devices@.take(d as int) =~= hp.vxlan_devices@);
        let script = head.concat(links.as_str()).concat(devices.as_str());
        scripts.push((hp.host.clone(), script));
        i += 1;
    }
    scripts
}

/// Whether the names of interfaces ascend strictly.
pub open spec fn ascending_names(list: Seq<InterfaceView>) -> bool {
    forall|i: int, j: int|
        0 <= i < j < list.len() ==> crate::text::less(
            #[trigger] list[i].name,
            #[trigger] list[j].name,
        )
}

proof fn rank_bounds(sorted: Seq<InterfaceView>, name: Seq<char>)
    ensures
        name_rank(sorted, name) <= sorted.len(),
        forall|i: int|
            0 <= i < name_rank(sorted, name) ==> crate::text::less(#[trigger] sorted[i].name, name),
        name_rank(sorted, name) < sorted.len() ==> !crate::text::less(
            sorted[name_rank(sorted, name) as int].name,
            name,
        ),
    decreases sorted.len(),
{
    if sorted.len() > 0 && crate::text::less(sorted[0].name, name) {
        let rest = sorted.drop_first();
        rank_bounds(rest, name);
        assert forall|i: int| 0 <= i < name_rank(sorted, name) implies crate::text::less(
            #[trigger] sorted[i].name,
            name,
        ) by {
            if i > 0 {
                assert(rest[i - 1] == sorted[i]);
            }
        }
    }
}

proof fn placing_keeps_order(sorted: Seq<InterfaceView>, e: InterfaceView)
    requires
        ascending_names(sorted),
    ensures
        ascending_names(placed(sorted, e)),
{
    if !has_interface(sorted, e.name) {
        let r = name_rank(sorted, e.name) as int;
        rank_bounds(sorted, e.name);
        let after = placed(sorted, e);
        assert forall|j: int| r <= j < sorted.len() implies crate::text::less(
            e.name,
            #[trigger] sorted[j].name,
        ) by {
            crate::text::less_total(sorted[r].name, e.name);
            if j > r {
                crate::text::less_transitive(e.name, sorted[r].name, sorted[j].name);
            }
        }
        assert forall|i: int, j: int| 0 <= i < j < after.len() implies crate::text::less(
            #[trigger] after[i].name,
            #[trigger] after[j].name,
        ) by {
            let a = if i < r { i } else { i - 1 };
            let b = if j < r { j } else { j - 1 };
            if i != r {
                assert(after[i] == sorted[a]);
            }
            if j != r {
                assert(after[j] == sorted[b]);
            }
        }
    }
}

/// The interfaces of a node come in strictly ascending order of their names.
pub proof fn sorted_interfaces_ascend(list: Seq<InterfaceView>)
    ensures
        ascending_names(sorted_by_name(list)),
    decreases list.len(),
{
    if list.len() > 0 {
        sorted_interfaces_ascend(list.drop_last());
        placing_keeps_order(sorted_by_name(list.drop_last()), list.last());
    }
}

/// The first address that an interface of a name has.
pub open spec fn first_address(list: Seq<InterfaceView>, name: Seq<char>) -> Option<Seq<char>>
    decreases list.len(),
{
    if list.len() == 0 {
        None
    } else {
        crate::surroundings::either(
            first_address(list.drop_last(), name),
            if list.last().name == name {
                list.last().addr
            } else {
                None
            },
        )
    }
}

/// The first MTU that an interface of a name has.
pub open spec fn first_mtu(list: Seq<InterfaceView>, name: Seq<char>) -> Option<u32>
    decreases list.len(),
{
    if list.len() == 0 {
        None
    } else {
        crate::surroundings::either(
            first_mtu(list.drop_last(), name),
            if list.last().name == name {
                list.last().mtu
            } else {
                None
            },
        )
    }
}

proof fn nameless_lists_give_nothing(list: Seq<InterfaceView>, name: Seq<char>)
    requires
        !has_interface(list, name),
    ensures
        first_address(list, name) is None,
        first_mtu(list, name) is None,
    decreases list.len(),
{
    if list.len() > 0 {
        let shorter = list.drop_last();
        assert(list[list.len() - 1].name != name);
        assert forall|i: int| 0 <= i < shorter.len() implies #[trigger] shorter[i].name != name by {
            assert(list[i].name != name);
        }
        nameless_lists_give_nothing(shorter, name);
    }
}

/// Every name stands once among the interfaces of a node, with the first address and the first
/// MTU that are given for it.
pub proof fn interfaces_are_merged_by_name(list: Seq<InterfaceView>, name: Seq<char>)
    ensures
        has_interface(sorted_by_name(list), name) <==> has_interface(list, name),
        forall|k: int|
            0 <= k < sorted_by_name(list).len() ==> {
                let x = #[trigger] sorted_by_name(list)[k];
                x.addr == first_address(list, x.name) && x.mtu == first_mtu(list, x.name)
            },
    decreases list.len(),
{
    if list.len() > 0 {
        let shorter = list.drop_last();
        let last = list.last();
        let before = sorted_by_name(shorter);
        let after = sorted_by_name(list);
        interfaces_are_merged_by_name(shorter, name);
        interfaces_are_merged_by_name(shorter, last.name);
        rank_bounds(before, last.name);
        let r = name_rank(before, last.name) as int;
        if !has_interface(before, last.name) {
            nameless_lists_give_nothing(shorter, last.name);
            assert(after[r] == last);
        }
        assert forall|k: int| 0 <= k < after.len() implies ({
            let x = #[trigger] after[k];
            x.addr == first_address(list, x.name) && x.mtu == first_mtu(list, x.name)
        }) by {
            if has_interface(before, last.name) {
                let old_one = before[k];
            } else if k < r {
                assert(after[k] == before[k]);
                assert(before[k].name != last.name);
            } else if k > r {
                assert(after[k] == before[k - 1]);
                assert(before[k - 1].name != last.name);
            }
        }
        if has_interface(list, name) {
            let i = choose|i: int| 0 <= i < list.len() && #[trigger] list[i].name == name;
            if i < shorter.len() {
                assert(shorter[i].name == name);
                let k = choose|k: int| 0 <= k < before.len() && #[trigger] before[k].name == name;
                if has_interface(before, last.name) || k < r {
                    assert(after[k].name == name);
                } else {
                    assert(after[k + 1].name == name);
                }
            } else if has_interface(before, last.name) {
                let k = choose|k: int|
                    0 <= k < before.len() && #[trigger] before[k].name == last.name;
                assert(after[k].name == name);
            }
        }
        if has_interface(after, name) {
            let k = choose|k: int| 0 <= k < after.len() && #[trigger] after[k].name == name;
            if !has_interface(before, last.name) && k == r {
                assert(list[list.len() - 1].name == name);
            } else {
                let m = if has_interface(before, last.name) || k < r {
                    k
                } else {
                    k - 1
                };
                assert(before[m].name == name);
                let i = choose|i: int|
                    0 <= i < shorter.len() && #[trigger] shorter[i].name == name;
                assert(list[i].name == name);
            }
        }
    }
}

/// Whether one of the first `n` links of the overlay ends at an interface of a node.
pub open spec fn is_linked_end(
    spec: OverlaySpec,
    node: Seq<char>,
    intf: Seq<char>,
    n: nat,
) -> bool
    decreases n,
{
    n > 0 && ({
        let link = spec.links@[n - 1];
        ||| is_linked_end(spec, node, intf, (n - 1) as nat)
        ||| link.src.node@ == node && link.src.intf@ == intf
        ||| link.dst.node@ == node && link.dst.intf@ == intf
    })
}

proof fn declared_interfaces_have_no_address(interfaces: Seq<NodeInterface>, name: Seq<char>)
    ensures
        first_address(declared_interfaces(interfaces), name) is None,
    decreases interfaces.len(),
{
    if interfaces.len() > 0 {
        let shorter = interfaces.drop_last();
        declared_interfaces_have_no_address(shorter, name);
        assert(declared_interfaces(interfaces).drop_last() =~= declared_interfaces(shorter));
    }
}

proof fn pushing_an_interface(list: Seq<InterfaceView>, e: InterfaceView, name: Seq<char>)
    ensures
        first_address(list.push(e), name) == crate::surroundings::either(
            first_address(list, name),
            if e.name == name {
                e.addr
            } else {
                None
            },
        ),
        first_mtu(list.push(e), name) == crate::surroundings::either(
            first_mtu(list, name),
            if e.name == name {
                e.mtu
            } else {
                None
            },
        ),
{
    assert(list.push(e).drop_last() =~= list);
}

proof fn links_give_addresses(
    spec: OverlaySpec,
    links: Seq<VlanView>,
    subnets: Map<u16, String>,
    node: OverlayNode,
    intf: Seq<char>,
    n: nat,
)
    requires
        n <= spec.links@.len(),
    ensures
        ({
            let declared = declared_interfaces(node.interfaces@);
            let all = declared + linked_interfaces(spec, links, subnets, node.name@, n);
            let linked = linked_interface(links, subnets, (node.name@, intf));
            &&& first_address(all, intf) == if is_linked_end(spec, node.name@, intf, n) {
                linked.addr
            } else {
                None
            }
            &&& first_mtu(all, intf) == crate::surroundings::either(
                first_mtu(declared, intf),
                if is_linked_end(spec, node.name@, intf, n) {
                    linked.mtu
                } else {
                    None
                },
            )
        }),
    decreases n,
{
    let declared = declared_interfaces(node.interfaces@);
    if n == 0 {
        declared_interfaces_have_no_address(node.interfaces@, intf);
        assert(declared + Seq::<InterfaceView>::empty() =~= declared);
    } else {
        links_give_addresses(spec, links, subnets, node, intf, (n - 1) as nat);
        let link = spec.links@[n - 1];
        let before = linked_interfaces(spec, links, subnets, node.name@, (n - 1) as nat);
        let src = linked_interface(links, subnets, (link.src.node@, link.src.intf@));
        let dst = linked_interface(links, subnets, (link.dst.node@, link.dst.intf@));
        let first = if link.src.node@ == node.name@ {
            before.push(src)
        } else {
            before
        };
        pushing_an_interface(declared + before, src, intf);
        pushing_an_interface(declared + first, dst, intf);
        assert(declared + before.push(src) =~= (declared + before).push(src));
        assert(declared + first.push(dst) =~= (declared + first).push(dst));
    }
}

/// An interface of a node has an address if a link ends there that was planned, whether the node
/// declares the interface or not: that of its first such link. Its MTU is the declared one, else
/// the default one of linked interfaces.
pub proof fn linked_interfaces_have_addresses(
    spec: OverlaySpec,
    links: Seq<VlanView>,
    subnets: Map<u16, String>,
    node: OverlayNode,
    k: int,
)
    requires
        0 <= k < node_interfaces(spec, links, subnets, node).len(),
    ensures
        ({
            let x = node_interfaces(spec, links, subnets, node)[k];
            let linked = linked_interface(links, subnets, (node.name@, x.name));
            let is_end = is_linked_end(spec, node.name@, x.name, spec.links@.len());
            &&& x.addr == if is_end {
                linked.addr
            } else {
                None
            }
            &&& x.mtu == crate::surroundings::either(
                first_mtu(declared_interfaces(node.interfaces@), x.name),
                if is_end {
                    linked.mtu
                } else {
                    None
                },
            )
        }),
{
    let x = node_interfaces(spec, links, subnets, node)[k];
    let all = declared_interfaces(node.interfaces@) + linked_interfaces(
        spec,
        links,
        subnets,
        node.name@,
        spec.links@.len(),
    );
    interfaces_are_merged_by_name(all, x.name);
    assert(sorted_by_name(all)[k] == x);
    links_give_addresses(spec, links, subnets, node, x.name, spec.links@.len());
}

/// A subnet that is given for a VLAN and has room for two hosts is used: the VLAN gets two
/// different addresses of it, each with its prefix length.
pub proof fn given_subnets_are_used(subnets: Map<u16, String>, vlan_id: u16)
    requires
        subnets.dom().contains(vlan_id),
        crate::virtual_wall::allocator::host_pair(subnets[vlan_id]@) is Some,
    ensures
        ({
            let cidr = subnets[vlan_id]@;
            let (a, b, gw) = crate::virtual_wall::allocator::host_pair(cidr)->0;
            let length = crate::virtual_wall::allocator::cidr_prefix(cidr)->0;
            let net = crate::virtual_wall::allocator::cidr_network(cidr);
            let end = net + crate::virtual_wall::allocator::block_size(length);
            let given = vlan_addresses(subnets, vlan_id);
            &&& given.0 == crate::virtual_wall::allocator::host_text(a, length)
            &&& given.1 == crate::virtual_wall::allocator::host_text(b, length)
            &&& given.2 == crate::ipv4::dotted(crate::virtual_wall::allocator::octets_of(gw))
            &&& given.0 != given.1
            &&& net <= a < end
            &&& net <= b < end
            &&& net <= gw < end
        }),
{
    let cidr = subnets[vlan_id]@;
    crate::virtual_wall::allocator::first_hosts_are_in_the_subnet(cidr);
    if crate::text::ends(cidr, ".0/24"@) {
        crate::virtual_wall::allocator::first_hosts_of_a_class(cidr);
    }
}

proof fn device_is_made(vx: VxlanDevice)
    ensures
        crate::text::holds(vxlan_text(vx), "\nip link add "@ + vx.name@ + " type vxlan id "@ + crate::text::dec(vx.vni as nat) + " local "@ + vx.local_underlay@ + " remote "@ + vx.remote_underlay@ + " dstport 4789"@),
{
    reveal_strlit("\nip link add ");
    reveal_strlit(" dstport 4789");
    reveal_strlit(" dstport 4789 || true\nip link set ");
    reveal_strlit(" || true\nfi");
    reveal_strlit(" || true\nfi\nip link add ");
    reveal_strlit(" || true\nip link set ");
    let s0 = "\n# VXLAN to "@;
    let s1 = s0 + vx.peer@;
    let s2 = s1 + " on dev "@;
    let s3 = s2 + vx.name@;
    let s4 = s3 + "\nif ip link show "@;
    let s5 = s4 + vx.name@;
    let s6 = s5 + " >/dev/null 2>&1; then\n  ip link set "@;
    let s7 = s6 + vx.name@;
    let s8 = s7 + " down || true\n  ip link del "@;
    let s9 = s8 + vx.name@;
    assert(" || true\nfi\nip link add "@ =~= " || true\nfi"@ + "\nip link add "@);
    crate::text::grouped_together(s9, " || true\nfi"@, "\nip link add "@);
    let a = s9 + " || true\nfi"@;
    let t10 = "\nip link add "@;
    crate::text::grouped_together(a, t10, vx.name@);
    let t11 = t10 + vx.name@;
    crate::text::grouped_together(a, t11, " type vxlan id "@);
    let t12 = t11 + " type vxlan id "@;
    crate::text::grouped_together(a, t12, crate::text::dec(vx.vni as nat));
    let t13 = t12 + crate::text::dec(vx.vni as nat);
    crate::text::grouped_together(a, t13, " local "@);
    let t14 = t13 + " local "@;
    crate::text::grouped_together(a, t14, vx.local_underlay@);
    let t15 = t14 + vx.local_underlay@;
    crate::text::grouped_together(a, t15, " remote "@);
    let t16 = t15 + " remote "@;
    crate::text::grouped_together(a, t16, vx.remote_underlay@);
    let t17 = t16 + vx.remote_underlay@;
    assert(" dstport 4789 || true\nip link set "@ =~= " dstport 4789"@ + " || true\nip link set "@);
    crate::text::grouped_together(a + t17, " dstport 4789"@, " || true\nip link set "@);
    crate::text::grouped_together(a, t17, " dstport 4789"@);
    let t18 = t17 + " dstport 4789"@;
    crate::text::holds_its_middle(a, t18, " || true\nip link set "@);
    let w18 = "\n# VXLAN to "@ + vx.peer@ + " on dev "@ + vx.name@ + "\nif ip link show "@ + vx.name@ + " >/dev/null 2>&1; then\n  ip link set "@ + vx.name@ + " down || true\n  ip link del "@ + vx.name@ + " || true\nfi\nip link add "@ + vx.name@ + " type vxlan id "@ + crate::text::dec(vx.vni as nat) + " local "@ + vx.local_underlay@ + " remote "@ + vx.remote_underlay@ + " dstport 4789 || true\nip link set "@;
    assert(crate::text::holds(w18, t18));
    crate::text::holds_in_a_part(w18, vx.name@, t18);
    let w19 = w18 + vx.name@;
    crate::text::holds_in_a_part(w19, " master $BR\nip link set "@, t18);
    let w20 = w19 + " master $BR\nip link set "@;
    crate::text::holds_in_a_part(w20, vx.name@, t18);
    let w21 = w20 + vx.name@;
    crate::text::holds_in_a_part(w21, " up\n"@, t18);
    let w22 = w21 + " up\n"@;
}

proof fn device_is_joined(vx: VxlanDevice)
    ensures
        crate::text::holds(vxlan_text(vx), "\nip link set "@ + vx.name@ + " master $BR\n"@),
{
    reveal_strlit("\nip link set ");
    reveal_strlit(" dstport 4789 || true");
    reveal_strlit(" dstport 4789 || true\nip link set ");
    reveal_strlit(" master $BR\n");
    reveal_strlit(" master $BR\nip link set ");
    reveal_strlit("ip link set ");
    let s0 = "\n# VXLAN to "@;
    let s1 = s0 + vx.peer@;
    let s2 = s1 + " on dev "@;
    let s3 = s2 + vx.name@;
    let s4 = s3 + "\nif ip link show "@;
    let s5 = s4 + vx.name@;
    let s6 = s5 + " >/dev/null 2>&1; then\n  ip link set "@;
    let s7 = s6 + vx.name@;
    let s8 = s7 + " down || true\n  ip link del "@;
    let s9 = s8 + vx.name@;
    let s10 = s9 + " || true\nfi\nip link add "@;
    let s11 = s10 + vx.name@;
    let s12 = s11 + " type vxlan id "@;
    let s13 = s12 + crate::text::dec(vx.vni as nat);
    let s14 = s13 + " local "@;
    let s15 = s14 + vx.local_underlay@;
    let s16 = s15 + " remote "@;
    let s17 = s16 + vx.remote_underlay@;
    assert(" dstport 4789 || true\nip link set "@ =~= " dstport 4789 || true"@ + "\nip link set "@);
    crate::text::grouped_together(s17, " dstport 4789 || true"@, "\nip link set "@);
    let a = s17 + " dstport 4789 || true"@;
    let t18 = "\nip link set "@;
    crate::text::grouped_together(a, t18, vx.name@);
    let t19 = t18 + vx.name@;
    assert(" master $BR\nip link set "@ =~= " master $BR\n"@ + "ip link set "@);
    crate::text::grouped_together(a + t19, " master $BR\n"@, "ip link set "@);
    crate::text::grouped_together(a, t19, " master $BR\n"@);
    let t20 = t19 + " master $BR\n"@;
    crate::text::holds_its_middle(a, t20, "ip link set "@);
    let w20 = "\n# VXLAN to "@ + vx.peer@ + " on dev "@ + vx.name@ + "\nif ip link show "@ + vx.name@ + " >/dev/null 2>&1; then\n  ip link set "@ + vx.name@ + " down || true\n  ip link del "@ + vx.name@ + " || true\nfi\nip link add "@ + vx.name@ + " type vxlan id "@ + crate::text::dec(vx.vni as nat) + " local "@ + vx.local_underlay@ + " remote "@ + vx.remote_underlay@ + " dstport 4789 || true\nip link set "@ + vx.name@ + " master $BR\nip link set "@;
    assert(crate::text::holds(w20, t20));
    crate::text::holds_in_a_part(w20, vx.name@, t20);
    let w21 = w20 + vx.name@;
    crate::text::holds_in_a_part(w21, " up\n"@, t20);
    let w22 = w21 + " up\n"@;
}

proof fn device_is_up(vx: VxlanDevice)
    ensures
        crate::text::holds(vxlan_text(vx), "\nip link set "@ + vx.name@ + " up\n"@),
{
    reveal_strlit("\nip link set ");
    reveal_strlit(" master $BR");
    reveal_strlit(" master $BR\nip link set ");
    let s0 = "\n# VXLAN to "@;
    let s1 = s0 + vx.peer@;
    let s2 = s1 + " on dev "@;
    let s3 = s2 + vx.name@;
    let s4 = s3 + "\nif ip link show "@;
    let s5 = s4 + vx.name@;
    let s6 = s5 + " >/dev/null 2>&1; then\n  ip link set "@;
    let s7 = s6 + vx.name@;
    let s8 = s7 + " down || true\n  ip link del "@;
    let s9 = s8 + vx.name@;
    let s10 = s9 + " || true\nfi\nip link add "@;
    let s11 = s10 + vx.name@;
    let s12 = s11 + " type vxlan id "@;
    let s13 = s12 + crate::text::dec(vx.vni as nat);
    let s14 = s13 + " local "@;
    let s15 = s14 + vx.local_underlay@;
    let s16 = s15 + " remote "@;
    let s17 = s16 + vx.remote_underlay@;
    let s18 = s17 + " dstport 4789 || true\nip link set "@;
    let s19 = s18 + vx.name@;
    assert(" master $BR\nip link set "@ =~= " master $BR"@ + "\nip link set "@);
    crate::text::grouped_together(s19, " master $BR"@, "\nip link set "@);
    let a = s19 + " master $BR"@;
    let t20 = "\nip link set "@;
    crate::text::grouped_together(a, t20, vx.name@);
    let t21 = t20 + vx.name@;
    crate::text::grouped_together(a, t21, " up\n"@);
    let t22 = t21 + " up\n"@;
    crate::text::holds_its_end(a, t22);
    let w22 = "\n# VXLAN to "@ + vx.peer@ + " on dev "@ + vx.name@ + "\nif ip link show "@ + vx.name@ + " >/dev/null 2>&1; then\n  ip link set "@ + vx.name@ + " down || true\n  ip link del "@ + vx.name@ + " || true\nfi\nip link add "@ + vx.name@ + " type vxlan id "@ + crate::text::dec(vx.vni as nat) + " local "@ + vx.local_underlay@ + " remote "@ + vx.remote_underlay@ + " dstport 4789 || true\nip link set "@ + vx.name@ + " master $BR\nip link set "@ + vx.name@ + " up\n"@;
    assert(crate::text::holds(w22, t22));
}

proof fn vlan_is_made(vl: VlanLink, bindings: Map<u16, String>, parent: Seq<char>)
    requires
        parent == vlan_parent(vl, bindings),
    ensures
        crate::text::holds(vlan_text(vl, bindings), "\nip link add link "@ + parent + " name "@ + subinterface(parent, vl.vlan_id) + " type vlan id "@ + crate::text::dec(vl.vlan_id as nat) + "\n"@),
{
    reveal_strlit("\n");
    reveal_strlit("\nip link add link ");
    reveal_strlit("\nip link add name ");
    reveal_strlit(" || true\nfi");
    reveal_strlit(" || true\nfi\nip link add link ");
    reveal_strlit("ip link add name ");
    let s0 = "\n# VLAN "@;
    let s1 = s0 + crate::text::dec(vl.vlan_id as nat);
    let s2 = s1 + " on "@;
    let s3 = s2 + parent;
    let s4 = s3 + "\nif ip link show "@;
    let s5 = s4 + subinterface(parent, vl.vlan_id);
    let s6 = s5 + " >/dev/null 2>&1; then\n  ip link set "@;
    let s7 = s6 + subinterface(parent, vl.vlan_id);
    let s8 = s7 + " down || true\n  ip link del "@;
    let s9 = s8 + subinterface(parent, vl.vlan_id);
    assert(" || true\nfi\nip link add link "@ =~= " || true\nfi"@ + "\nip link add link "@);
    crate::text::grouped_together(s9, " || true\nfi"@, "\nip link add link "@);
    let a = s9 + " || true\nfi"@;
    let t10 = "\nip link add link "@;
    crate::text::grouped_together(a, t10, parent);
    let t11 = t10 + parent;
    crate::text::grouped_together(a, t11, " name "@);
    let t12 = t11 + " name "@;
    crate::text::grouped_together(a, t12, subinterface(parent, vl.vlan_id));
    let t13 = t12 + subinterface(parent, vl.vlan_id);
    crate::text::grouped_together(a, t13, " type vlan id "@);
    let t14 = t13 + " type vlan id "@;
    crate::text::grouped_together(a, t14, crate::text::dec(vl.vlan_id as nat));
    let t15 = t14 + crate::text::dec(vl.vlan_id as nat);
    assert("\nip link add name "@ =~= "\n"@ + "ip link add name "@);
    crate::text::grouped_together(a + t15, "\n"@, "ip link add name "@);
    crate::text::grouped_together(a, t15, "\n"@);
    let t16 = t15 + "\n"@;
    crate::text::holds_its_middle(a, t16, "ip link add name "@);
    let w16 = "\n# VLAN "@ + crate::text::dec(vl.vlan_id as nat) + " on "@ + parent + "\nif ip link show "@ + subinterface(parent, vl.vlan_id) + " >/dev/null 2>&1; then\n  ip link set "@ + subinterface(parent, vl.vlan_id) + " down || true\n  ip link del "@ + subinterface(parent, vl.vlan_id) + " || true\nfi\nip link add link "@ + parent + " name "@ + subinterface(parent, vl.vlan_id) + " type vlan id "@ + crate::text::dec(vl.vlan_id as nat) + "\nip link add name "@;
    assert(crate::text::holds(w16, t16));
    crate::text::holds_in_a_part(w16, vlan_bridge(vl.vlan_id), t16);
    let w17 = w16 + vlan_bridge(vl.vlan_id);
    crate::text::holds_in_a_part(w17, " type bridge 2>/dev/null || true\nip link set "@, t16);
    let w18 = w17 + " type bridge 2>/dev/null || true\nip link set "@;
    crate::text::holds_in_a_part(w18, vlan_bridge(vl.vlan_id), t16);
    let w19 = w18 + vlan_bridge(vl.vlan_id);
    crate::text::holds_in_a_part(w19, " up\nip link set "@, t16);
    let w20 = w19 + " up\nip link set "@;
    crate::text::holds_in_a_part(w20, subinterface(parent, vl.vlan_id), t16);
    let w21 = w20 + subinterface(parent, vl.vlan_id);
    crate::text::holds_in_a_part(w21, " master "@, t16);
    let w22 = w21 + " master "@;
    crate::text::holds_in_a_part(w22, vlan_bridge(vl.vlan_id), t16);
    let w23 = w22 + vlan_bridge(vl.vlan_id);
    crate::text::holds_in_a_part(w23, "\nip link set "@, t16);
    let w24 = w23 + "\nip link set "@;
    crate::text::holds_in_a_part(w24, subinterface(parent, vl.vlan_id), t16);
    let w25 = w24 + subinterface(parent, vl.vlan_id);
    crate::text::holds_in_a_part(w25, " up\n"@, t16);
    let w26 = w25 + " up\n"@;
    if let Some(imp) = vl.impairment {
        crate::text::holds_in_a_part(
            w26,
            impairment_text(subinterface(parent, vl.vlan_id), imp),
            t16,
        );
    }
}

proof fn vlan_bridge_is_made(vl: VlanLink, bindings: Map<u16, String>, parent: Seq<char>)
    requires
        parent == vlan_parent(vl, bindings),
    ensures
        crate::text::holds(vlan_text(vl, bindings), "\nip link add name "@ + vlan_bridge(vl.vlan_id) + " type bridge 2>/dev/null || true\n"@),
{
    reveal_strlit("\nip link add name ");
    reveal_strlit(" type bridge 2>/dev/null || true\n");
    reveal_strlit(" type bridge 2>/dev/null || true\nip link set ");
    reveal_strlit("ip link set ");
    let s0 = "\n# VLAN "@;
    let s1 = s0 + crate::text::dec(vl.vlan_id as nat);
    let s2 = s1 + " on "@;
    let s3 = s2 + parent;
    let s4 = s3 + "\nif ip link show "@;
    let s5 = s4 + subinterface(parent, vl.vlan_id);
    let s6 = s5 + " >/dev/null 2>&1; then\n  ip link set "@;
    let s7 = s6 + subinterface(parent, vl.vlan_id);
    let s8 = s7 + " down || true\n  ip link del "@;
    let s9 = s8 + subinterface(parent, vl.vlan_id);
    let s10 = s9 + " || true\nfi\nip link add link "@;
    let s11 = s10 + parent;
    let s12 = s11 + " name "@;
    let s13 = s12 + subinterface(parent, vl.vlan_id);
    let s14 = s13 + " type vlan id "@;
    let s15 = s14 + crate::text::dec(vl.vlan_id as nat);
    let t16 = "\nip link add name "@;
    crate::text::grouped_together(s15, t16, vlan_bridge(vl.vlan_id));
    let t17 = t16 + vlan_bridge(vl.vlan_id);
    assert(" type bridge 2>/dev/null || true\nip link set "@ =~= " type bridge 2>/dev/null || true\n"@ + "ip link set "@);
    crate::text::grouped_together(s15 + t17, " type bridge 2>/dev/null || true\n"@, "ip link set "@);
    crate::text::grouped_together(s15, t17, " type bridge 2>/dev/null || true\n"@);
    let t18 = t17 + " type bridge 2>/dev/null || true\n"@;
    crate::text::holds_its_middle(s15, t18, "ip link set "@);
    let w18 = "\n# VLAN "@ + crate::text::dec(vl.vlan_id as nat) + " on "@ + parent + "\nif ip link show "@ + subinterface(parent, vl.vlan_id) + " >/dev/null 2>&1; then\n  ip link set "@ + subinterface(parent, vl.vlan_id) + " down || true\n  ip link del "@ + subinterface(parent, vl.vlan_id) + " || true\nfi\nip link add link "@ + parent + " name "@ + subinterface(parent, vl.vlan_id) + " type vlan id "@ + crate::text::dec(vl.vlan_id as nat) + "\nip link add name "@ + vlan_bridge(vl.vlan_id) + " type bridge 2>/dev/null || true\nip link set "@;
    assert(crate::text::holds(w18, t18));
    crate::text::holds_in_a_part(w18, vlan_bridge(vl.vlan_id), t18);
    let w19 = w18 + vlan_bridge(vl.vlan_id);
    crate::text::holds_in_a_part(w19, " up\nip link set "@, t18);
    let w20 = w19 + " up\nip link set "@;
    crate::text::holds_in_a_part(w20, subinterface(parent, vl.vlan_id), t18);
    let w21 = w20 + subinterface(parent, vl.vlan_id);
    crate::text::holds_in_a_part(w21, " master "@, t18);
    let w22 = w21 + " master "@;
    crate::text::holds_in_a_part(w22, vlan_bridge(vl.vlan_id), t18);
    let w23 = w22 + vlan_bridge(vl.vlan_id);
    crate::text::holds_in_a_part(w23, "\nip link set "@, t18);
    let w24 = w23 + "\nip link set "@;
    crate::text::holds_in_a_part(w24, subinterface(parent, vl.vlan_id), t18);
    let w25 = w24 + subinterface(parent, vl.vlan_id);
    crate::text::holds_in_a_part(w25, " up\n"@, t18);
    let w26 = w25 + " up\n"@;
    if let Some(imp) = vl.impairment {
        crate::text::holds_in_a_part(
            w26,
            impairment_text(subinterface(parent, vl.vlan_id), imp),
            t18,
        );
    }
}

proof fn vlan_is_joined(vl: VlanLink, bindings: Map<u16, String>, parent: Seq<char>)
    requires
        parent == vlan_parent(vl, bindings),
    ensures
        crate::text::holds(vlan_text(vl, bindings), "\nip link set "@ + subinterface(parent, vl.vlan_id) + " master "@ + vlan_bridge(vl.vlan_id) + "\n"@),
{
    reveal_strlit("\n");
    reveal_strlit("\nip link set ");
    reveal_strlit(" up");
    reveal_strlit(" up\nip link set ");
    reveal_strlit("ip link set ");
    let s0 = "\n# VLAN "@;
    let s1 = s0 + crate::text::dec(vl.vlan_id as nat);
    let s2 = s1 + " on "@;
    let s3 = s2 + parent;
    let s4 = s3 + "\nif ip link show "@;
    let s5 = s4 + subinterface(parent, vl.vlan_id);
    let s6 = s5 + " >/dev/null 2>&1; then\n  ip link set "@;
    let s7 = s6 + subinterface(parent, vl.vlan_id);
    let s8 = s7 + " down || true\n  ip link del "@;
    let s9 = s8 + subinterface(parent, vl.vlan_id);
    let s10 = s9 + " || true\nfi\nip link add link "@;
    let s11 = s10 + parent;
    let s12 = s11 + " name "@;
    let s13 = s12 + subinterface(parent, vl.vlan_id);
    let s14 = s13 + " type vlan id "@;
    let s15 = s14 + crate::text::dec(vl.vlan_id as nat);
    let s16 = s15 + "\nip link add name "@;
    let s17 = s16 + vlan_bridge(vl.vlan_id);
    let s18 = s17 + " type bridge 2>/dev/null || true\nip link set "@;
    let s19 = s18 + vlan_bridge(vl.vlan_id);
    assert(" up\nip link set "@ =~= " up"@ + "\nip link set "@);
    crate::text::grouped_together(s19, " up"@, "\nip link set "@);
    let a = s19 + " up"@;
    let t20 = "\nip link set "@;
    crate::text::grouped_together(a, t20, subinterface(parent, vl.vlan_id));
    let t21 = t20 + subinterface(parent, vl.vlan_id);
    crate::text::grouped_together(a, t21, " master "@);
    let t22 = t21 + " master "@;
    crate::text::grouped_together(a, t22, vlan_bridge(vl.vlan_id));
    let t23 = t22 + vlan_bridge(vl.vlan_id);
    assert("\nip link set "@ =~= "\n"@ + "ip link set "@);
    crate::text::grouped_together(a + t23, "\n"@, "ip link set "@);
    crate::text::grouped_together(a, t23, "\n"@);
    let t24 = t23 + "\n"@;
    crate::text::holds_its_middle(a, t24, "ip link set "@);
    let w24 = "\n# VLAN "@ + crate::text::dec(vl.vlan_id as nat) + " on "@ + parent + "\nif ip link show "@ + subinterface(parent, vl.vlan_id) + " >/dev/null 2>&1; then\n  ip link set "@ + subinterface(parent, vl.vlan_id) + " down || true\n  ip link del "@ + subinterface(parent, vl.vlan_id) + " || true\nfi\nip link add link "@ + parent + " name "@ + subinterface(parent, vl.vlan_id) + " type vlan id "@ + crate::text::dec(vl.vlan_id as nat) + "\nip link add name "@ + vlan_bridge(vl.vlan_id) + " type bridge 2>/dev/null || true\nip link set "@ + vlan_bridge(vl.vlan_id) + " up\nip link set "@ + subinterface(parent, vl.vlan_id) + " master "@ + vlan_bridge(vl.vlan_id) + "\nip link set "@;
    assert(crate::text::holds(w24, t24));
    crate::text::holds_in_a_part(w24, subinterface(parent, vl.vlan_id), t24);
    let w25 = w24 + subinterface(parent, vl.vlan_id);
    crate::text::holds_in_a_part(w25, " up\n"@, t24);
    let w26 = w25 + " up\n"@;
    if let Some(imp) = vl.impairment {
        crate::text::holds_in_a_part(
            w26,
            impairment_text(subinterface(parent, vl.vlan_id), imp),
            t24,
        );
    }
}

proof fn vlan_is_up(vl: VlanLink, bindings: Map<u16, String>, parent: Seq<char>)
    requires
        parent == vlan_parent(vl, bindings),
    ensures
        crate::text::holds(vlan_text(vl, bindings), "\nip link set "@ + subinterface(parent, vl.vlan_id) + " up\n"@),
{
    reveal_strlit("\nip link set ");
    let s0 = "\n# VLAN "@;
    let s1 = s0 + crate::text::dec(vl.vlan_id as nat);
    let s2 = s1 + " on "@;
    let s3 = s2 + parent;
    let s4 = s3 + "\nif ip link show "@;
    let s5 = s4 + subinterface(parent, vl.vlan_id);
    let s6 = s5 + " >/dev/null 2>&1; then\n  ip link set "@;
    let s7 = s6 + subinterface(parent, vl.vlan_id);
    let s8 = s7 + " down || true\n  ip link del "@;
    let s9 = s8 + subinterface(parent, vl.vlan_id);
    let s10 = s9 + " || true\nfi\nip link add link "@;
    let s11 = s10 + parent;
    let s12 = s11 + " name "@;
    let s13 = s12 + subinterface(parent, vl.vlan_id);
    let s14 = s13 + " type vlan id "@;
    let s15 = s14 + crate::text::dec(vl.vlan_id as nat);
    let s16 = s15 + "\nip link add name "@;
    let s17 = s16 + vlan_bridge(vl.vlan_id);
    let s18 = s17 + " type bridge 2>/dev/null || true\nip link set "@;
    let s19 = s18 + vlan_bridge(vl.vlan_id);
    let s20 = s19 + " up\nip link set "@;
    let s21 = s20 + subinterface(parent, vl.vlan_id);
    let s22 = s21 + " master "@;
    let s23 = s22 + vlan_bridge(vl.vlan_id);
    let t24 = "\nip link set "@;
    crate::text::grouped_together(s23, t24, subinterface(parent, vl.vlan_id));
    let t25 = t24 + subinterface(parent, vl.vlan_id);
    crate::text::grouped_together(s23, t25, " up\n"@);
    let t26 = t25 + " up\n"@;
    crate::text::holds_its_end(s23, t26);
    let w26 = "\n# VLAN "@ + crate::text::dec(vl.vlan_id as nat) + " on "@ + parent + "\nif ip link show "@ + subinterface(parent, vl.vlan_id) + " >/dev/null 2>&1; then\n  ip link set "@ + subinterface(parent, vl.vlan_id) + " down || true\n  ip link del "@ + subinterface(parent, vl.vlan_id) + " || true\nfi\nip link add link "@ + parent + " name "@ + subinterface(parent, vl.vlan_id) + " type vlan id "@ + crate::text::dec(vl.vlan_id as nat) + "\nip link add name "@ + vlan_bridge(vl.vlan_id) + " type bridge 2>/dev/null || true\nip link set "@ + vlan_bridge(vl.vlan_id) + " up\nip link set "@ + subinterface(parent, vl.vlan_id) + " master "@ + vlan_bridge(vl.vlan_id) + "\nip link set "@ + subinterface(parent, vl.vlan_id) + " up\n"@;
    assert(crate::text::holds(w26, t26));
    if let Some(imp) = vl.impairment {
        crate::text::holds_in_a_part(
            w26,
            impairment_text(subinterface(parent, vl.vlan_id), imp),
            t26,
        );
    }
}

proof fn rate_is_limited(sub: Seq<char>, imp: crate::big_virtual_wall::overlay::Impairment, rate: u32)
    requires
        imp.rate_mbps == Some(rate),
    ensures
        crate::text::holds(
            impairment_text(sub, imp),
            "tc class add dev "@ + sub + " parent 1: classid 1:1 htb rate "@ + (crate::text::dec(
                rate as nat,
            ) + "mbit"@) + " ceil "@ + (crate::text::dec(rate as nat) + "mbit"@) + "\n"@,
        ),
{
    let n = crate::text::dec(rate as nat);
    let head = "tc qdisc del dev "@ + sub + " root 2>/dev/null || true\ntc qdisc add dev "@ + sub
        + " root handle 1: htb default 1\n"@;
    let begin = "tc class add dev "@ + sub + " parent 1: classid 1:1 htb rate "@;
    let class = begin + n + "mbit ceil "@ + n + "mbit\n"@;
    let line = begin + (n + "mbit"@) + " ceil "@ + (n + "mbit"@) + "\n"@;
    reveal_strlit("mbit ceil ");
    reveal_strlit("mbit");
    reveal_strlit(" ceil ");
    reveal_strlit("mbit\n");
    reveal_strlit("\n");
    assert("mbit ceil "@ =~= "mbit"@ + " ceil "@);
    assert("mbit\n"@ =~= "mbit"@ + "\n"@);
    crate::text::grouped_together(begin, n, "mbit"@);
    crate::text::grouped_together(begin + n, "mbit"@, " ceil "@);
    let middle = begin + (n + "mbit"@) + " ceil "@;
    crate::text::grouped_together(middle, n, "mbit"@);
    crate::text::grouped_together(middle + n, "mbit"@, "\n"@);
    assert(class == line);
    crate::text::holds_its_end(head, class);
    let netem = if imp.latency_ms is Some || imp.loss_pct is Some {
        "tc qdisc add dev "@ + sub + " parent 1:1 handle 10: netem"@ + delay_text(imp.latency_ms)
            + loss_text(imp.loss_pct) + "\n"@
    } else {
        Seq::empty()
    };
    crate::text::holds_in_a_part(head + class, netem, line);
}

proof fn delay_and_loss_are_set(
    sub: Seq<char>,
    imp: crate::big_virtual_wall::overlay::Impairment,
    delay: Seq<char>,
    loss: Seq<char>,
)
    requires
        imp.latency_ms is Some || imp.loss_pct is Some,
        delay == match imp.latency_ms {
            Some(ms) => " delay "@ + crate::text::dec(ms as nat) + "ms"@,
            None => Seq::empty(),
        },
        loss == match imp.loss_pct {
            Some(pct) => " loss "@ + pct@ + "%"@,
            None => Seq::empty(),
        },
    ensures
        crate::text::holds(
            impairment_text(sub, imp),
            "tc qdisc add dev "@ + sub + " parent 1:1 handle 10: netem"@ + delay + loss + "\n"@,
        ),
{
    let head = "tc qdisc del dev "@ + sub + " root 2>/dev/null || true\ntc qdisc add dev "@ + sub
        + " root handle 1: htb default 1\n"@;
    let class = match imp.rate_mbps {
        Some(rate) => "tc class add dev "@ + sub + " parent 1: classid 1:1 htb rate "@
            + crate::text::dec(rate as nat) + "mbit ceil "@ + crate::text::dec(rate as nat)
            + "mbit\n"@,
        None => Seq::empty(),
    };
    crate::text::holds_its_end(
        head + class,
        "tc qdisc add dev "@ + sub + " parent 1:1 handle 10: netem"@ + delay + loss + "\n"@,
    );
}

proof fn section_holds_the_device(devices: Seq<VxlanDevice>, d: int, t: Seq<char>)
    requires
        0 <= d < devices.len(),
        crate::text::holds(vxlan_text(devices[d]), t),
    ensures
        crate::text::holds(vxlan_section(devices), t),
    decreases devices.len(),
{
    let front = devices.drop_last();
    if d < front.len() {
        assert(front[d] == devices[d]);
        section_holds_the_device(front, d, t);
    }
    crate::text::holds_in_a_part(vxlan_section(front), vxlan_text(devices.last()), t);
}

proof fn section_holds_the_vlan(
    links: Seq<VlanLink>,
    bindings: Map<u16, String>,
    l: int,
    t: Seq<char>,
)
    requires
        0 <= l < links.len(),
        crate::text::holds(vlan_text(links[l], bindings), t),
    ensures
        crate::text::holds(vlan_section(links, bindings), t),
    decreases links.len(),
{
    let front = links.drop_last();
    if l < front.len() {
        assert(front[l] == links[l]);
        section_holds_the_vlan(front, bindings, l, t);
    }
    crate::text::holds_in_a_part(
        vlan_section(front, bindings),
        vlan_text(links.last(), bindings),
        t,
    );
}

proof fn setup_holds(hp: HostPlan, bindings: Map<u16, String>, t: Seq<char>)
    requires
        crate::text::holds(vxlan_section(hp.vxlan_devices@), t) || crate::text::holds(
            vlan_section(hp.vlan_links@, bindings),
            t,
        ),
    ensures
        crate::text::holds(setup_script(hp, bindings), t),
{
    let head = "#!/usr/bin/env bash\nset -euo pipefail\n\nBR="@ + hp.bridge@
        + "\n\necho \"[host:"@ + hp.host@
        + "] setting up bridge $BR\"\nip link add $BR type bridge 2>/dev/null || true\nip link set $BR up\n"@;
    if crate::text::holds(vxlan_section(hp.vxlan_devices@), t) {
        crate::text::holds_in_a_part(head, vxlan_section(hp.vxlan_devices@), t);
    }
    crate::text::holds_in_a_part(
        head + vxlan_section(hp.vxlan_devices@),
        vlan_section(hp.vlan_links@, bindings),
        t,
    );
}

/// The setup of a host makes each device of its plan: a VXLAN of its network between its own
/// address and that of the peer, on the bridge of the host, switched on.
pub proof fn setup_makes_the_devices(hp: HostPlan, bindings: Map<u16, String>, d: int)
    requires
        0 <= d < hp.vxlan_devices@.len(),
    ensures
        ({
            let vx = hp.vxlan_devices@[d];
            let script = setup_script(hp, bindings);
            &&& crate::text::holds(
                script,
                "\nip link add "@ + vx.name@ + " type vxlan id "@ + crate::text::dec(
                    vx.vni as nat,
                ) + " local "@ + vx.local_underlay@ + " remote "@ + vx.remote_underlay@
                    + " dstport 4789"@,
            )
            &&& crate::text::holds(script, "\nip link set "@ + vx.name@ + " master $BR\n"@)
            &&& crate::text::holds(script, "\nip link set "@ + vx.name@ + " up\n"@)
        }),
{
    let vx = hp.vxlan_devices@[d];
    let made = "\nip link add "@ + vx.name@ + " type vxlan id "@ + crate::text::dec(vx.vni as nat)
        + " local "@ + vx.local_underlay@ + " remote "@ + vx.remote_underlay@ + " dstport 4789"@;
    let joined = "\nip link set "@ + vx.name@ + " master $BR\n"@;
    let up = "\nip link set "@ + vx.name@ + " up\n"@;
    device_is_made(vx);
    device_is_joined(vx);
    device_is_up(vx);
    section_holds_the_device(hp.vxlan_devices@, d, made);
    section_holds_the_device(hp.vxlan_devices@, d, joined);
    section_holds_the_device(hp.vxlan_devices@, d, up);
    setup_holds(hp, bindings, made);
    setup_holds(hp, bindings, joined);
    setup_holds(hp, bindings, up);
}

/// The setup of a host makes the VLAN of each link of its plan, on the interface that the VLAN is
/// bound to or else on the device of the link, and puts it on a bridge of its own, switched on.
pub proof fn setup_makes_the_vlans(
    hp: HostPlan,
    bindings: Map<u16, String>,
    l: int,
    parent: Seq<char>,
)
    requires
        0 <= l < hp.vlan_links@.len(),
        bindings.dom().contains(hp.vlan_links@[l].vlan_id) ==> parent
            == bindings[hp.vlan_links@[l].vlan_id]@,
        !bindings.dom().contains(hp.vlan_links@[l].vlan_id) ==> parent
            == hp.vlan_links@[l].vxlan_dev@,
    ensures
        ({
            let id = crate::text::dec(hp.vlan_links@[l].vlan_id as nat);
            let sub = parent + "."@ + id;
            let bridge = "br-vw-"@ + id;
            let script = setup_script(hp, bindings);
            &&& crate::text::holds(
                script,
                "\nip link add link "@ + parent + " name "@ + sub + " type vlan id "@ + id
                    + "\n"@,
            )
            &&& crate::text::holds(
                script,
                "\nip link add name "@ + bridge + " type bridge 2>/dev/null || true\n"@,
            )
            &&& crate::text::holds(
                script,
                "\nip link set "@ + sub + " master "@ + bridge + "\n"@,
            )
            &&& crate::text::holds(script, "\nip link set "@ + sub + " up\n"@)
        }),
{
    let vl = hp.vlan_links@[l];
    let id = crate::text::dec(vl.vlan_id as nat);
    let sub = subinterface(parent, vl.vlan_id);
    let bridge = vlan_bridge(vl.vlan_id);
    let made = "\nip link add link "@ + parent + " name "@ + sub + " type vlan id "@ + id + "\n"@;
    let bridged = "\nip link add name "@ + bridge + " type bridge 2>/dev/null || true\n"@;
    let joined = "\nip link set "@ + sub + " master "@ + bridge + "\n"@;
    let up = "\nip link set "@ + sub + " up\n"@;
    vlan_is_made(vl, bindings, parent);
    vlan_bridge_is_made(vl, bindings, parent);
    vlan_is_joined(vl, bindings, parent);
    vlan_is_up(vl, bindings, parent);
    section_holds_the_vlan(hp.vlan_links@, bindings, l, made);
    section_holds_the_vlan(hp.vlan_links@, bindings, l, bridged);
    section_holds_the_vlan(hp.vlan_links@, bindings, l, joined);
    section_holds_the_vlan(hp.vlan_links@, bindings, l, up);
    setup_holds(hp, bindings, made);
    setup_holds(hp, bindings, bridged);
    setup_holds(hp, bindings, joined);
    setup_holds(hp, bindings, up);
}

proof fn impairment_is_in_the_script(
    hp: HostPlan,
    bindings: Map<u16, String>,
    l: int,
    parent: Seq<char>,
    imp: crate::big_virtual_wall::overlay::Impairment,
    t: Seq<char>,
)
    requires
        0 <= l < hp.vlan_links@.len(),
        parent == vlan_parent(hp.vlan_links@[l], bindings),
        hp.vlan_links@[l].impairment == Some(imp),
        crate::text::holds(
            impairment_text(subinterface(parent, hp.vlan_links@[l].vlan_id), imp),
            t,
        ),
    ensures
        crate::text::holds(setup_script(hp, bindings), t),
{
    let vl = hp.vlan_links@[l];
    let body = "\n# VLAN "@ + crate::text::dec(vl.vlan_id as nat) + " on "@ + parent + "\nif ip link show "@ + subinterface(parent, vl.vlan_id) + " >/dev/null 2>&1; then\n  ip link set "@ + subinterface(parent, vl.vlan_id) + " down || true\n  ip link del "@ + subinterface(parent, vl.vlan_id) + " || true\nfi\nip link add link "@ + parent + " name "@ + subinterface(parent, vl.vlan_id) + " type vlan id "@ + crate::text::dec(vl.vlan_id as nat) + "\nip link add name "@ + vlan_bridge(vl.vlan_id) + " type bridge 2>/dev/null || true\nip link set "@ + vlan_bridge(vl.vlan_id) + " up\nip link set "@ + subinterface(parent, vl.vlan_id) + " master "@ + vlan_bridge(vl.vlan_id) + "\nip link set "@ + subinterface(parent, vl.vlan_id) + " up\n"@;
    crate::text::holds_in_a_part(
        body,
        impairment_text(subinterface(parent, vl.vlan_id), imp),
        t,
    );
    section_holds_the_vlan(hp.vlan_links@, bindings, l, t);
    setup_holds(hp, bindings, t);
}

/// A link with a rate is limited to it: the class of its interface has a rate and a ceiling that,
/// read as bandwidths, are that many megabits a second.
pub proof fn setup_limits_links_to_their_rate(
    hp: HostPlan,
    bindings: Map<u16, String>,
    l: int,
    parent: Seq<char>,
    imp: crate::big_virtual_wall::overlay::Impairment,
    rate: u32,
) -> (limit: Seq<char>)
    requires
        0 <= l < hp.vlan_links@.len(),
        bindings.dom().contains(hp.vlan_links@[l].vlan_id) ==> parent
            == bindings[hp.vlan_links@[l].vlan_id]@,
        !bindings.dom().contains(hp.vlan_links@[l].vlan_id) ==> parent
            == hp.vlan_links@[l].vxlan_dev@,
        hp.vlan_links@[l].impairment == Some(imp),
        imp.rate_mbps == Some(rate),
    ensures
        crate::controller::bandwidth::bandwidth_parts(
            crate::controller::bandwidth::condensed(limit),
        ) == Some((crate::text::dec(rate as nat), (1int, 1int))),
        crate::text::holds(
            setup_script(hp, bindings),
            "tc class add dev "@ + (parent + "."@ + crate::text::dec(
                hp.vlan_links@[l].vlan_id as nat,
            )) + " parent 1: classid 1:1 htb rate "@ + limit + " ceil "@ + limit + "\n"@,
        ),
{
    let vl = hp.vlan_links@[l];
    let limit = crate::text::dec(rate as nat) + "mbit"@;
    let sub = subinterface(parent, vl.vlan_id);
    rate_is_limited(sub, imp, rate);
    impairment_is_in_the_script(
        hp,
        bindings,
        l,
        parent,
        imp,
        "tc class add dev "@ + sub + " parent 1: classid 1:1 htb rate "@ + limit + " ceil "@
            + limit + "\n"@,
    );
    crate::controller::bandwidth::megabits_are_read_back(rate as nat);
    limit
}

/// A link with a latency is delayed by that many milliseconds, and one with a loss loses that many
/// percent of its packets.
pub proof fn setup_delays_links_and_drops_packets(
    hp: HostPlan,
    bindings: Map<u16, String>,
    l: int,
    parent: Seq<char>,
    imp: crate::big_virtual_wall::overlay::Impairment,
    delay: Seq<char>,
    loss: Seq<char>,
)
    requires
        0 <= l < hp.vlan_links@.len(),
        bindings.dom().contains(hp.vlan_links@[l].vlan_id) ==> parent
            == bindings[hp.vlan_links@[l].vlan_id]@,
        !bindings.dom().contains(hp.vlan_links@[l].vlan_id) ==> parent
            == hp.vlan_links@[l].vxlan_dev@,
        hp.vlan_links@[l].impairment == Some(imp),
        imp.latency_ms is Some || imp.loss_pct is Some,
        delay == match imp.latency_ms {
            Some(ms) => " delay "@ + crate::text::dec(ms as nat) + "ms"@,
            None => Seq::empty(),
        },
        loss == match imp.loss_pct {
            Some(pct) => " loss "@ + pct@ + "%"@,
            None => Seq::empty(),
        },
    ensures
        crate::text::holds(
            setup_script(hp, bindings),
            "tc qdisc add dev "@ + (parent + "."@ + crate::text::dec(
                hp.vlan_links@[l].vlan_id as nat,
            )) + " parent 1:1 handle 10: netem"@ + delay + loss + "\n"@,
        ),
{
    let vl = hp.vlan_links@[l];
    let sub = subinterface(parent, vl.vlan_id);
    delay_and_loss_are_set(sub, imp, delay, loss);
    impairment_is_in_the_script(
        hp,
        bindings,
        l,
        parent,
        imp,
        "tc qdisc add dev "@ + sub + " parent 1:1 handle 10: netem"@ + delay + loss + "\n"@,
    );
}

/// The bridge that an interface is put on.
spec fn master_of(links: Seq<VlanView>, node: Seq<char>, intf: InterfaceView) -> Seq<char> {
    match end_vlan(links, (node, intf.name), links.len()) {
        Some(vlan_id) => vlan_bridge(vlan_id),
        None => "$BR"@,
    }
}

/// The commands that set the MTU of an interface.
spec fn mtu_lines(node: Seq<char>, intf: InterfaceView) -> Seq<char> {
    match intf.mtu {
        Some(mtu) => "ip netns exec "@ + ("ns-"@ + node) + " ip link set "@ + (node + "-"@
            + intf.name) + " mtu "@ + crate::text::dec(mtu as nat) + "\n"@,
        None => Seq::empty(),
    }
}

/// The commands that give an interface its address.
spec fn address_lines(node: Seq<char>, intf: InterfaceView) -> Seq<char> {
    match intf.addr {
        Some(addr) => address_text("ns-"@ + node, node + "-"@ + intf.name, addr),
        None => Seq::empty(),
    }
}

proof fn pair_is_made(links: Seq<VlanView>, node: Seq<char>, intf: InterfaceView)
    ensures
        crate::text::holds(interface_text(links, node, intf), "\nip link add "@ + ("veth-"@ + node + "-"@ + intf.name) + " type veth peer name "@ + (node + "-"@ + intf.name) + "\n"@),
{
    reveal_strlit("\n");
    reveal_strlit("\nip link add ");
    reveal_strlit("\nip link set ");
    reveal_strlit(" 2>/dev/null || true");
    reveal_strlit(" 2>/dev/null || true\nip link add ");
    reveal_strlit("ip link set ");
    let s0 = "ip link del "@;
    let s1 = s0 + ("veth-"@ + node + "-"@ + intf.name);
    assert(" 2>/dev/null || true\nip link add "@ =~= " 2>/dev/null || true"@ + "\nip link add "@);
    crate::text::grouped_together(s1, " 2>/dev/null || true"@, "\nip link add "@);
    let a = s1 + " 2>/dev/null || true"@;
    let t2 = "\nip link add "@;
    crate::text::grouped_together(a, t2, ("veth-"@ + node + "-"@ + intf.name));
    let t3 = t2 + ("veth-"@ + node + "-"@ + intf.name);
    crate::text::grouped_together(a, t3, " type veth peer name "@);
    let t4 = t3 + " type veth peer name "@;
    crate::text::grouped_together(a, t4, (node + "-"@ + intf.name));
    let t5 = t4 + (node + "-"@ + intf.name);
    assert("\nip link set "@ =~= "\n"@ + "ip link set "@);
    crate::text::grouped_together(a + t5, "\n"@, "ip link set "@);
    crate::text::grouped_together(a, t5, "\n"@);
    let t6 = t5 + "\n"@;
    crate::text::holds_its_middle(a, t6, "ip link set "@);
    let w6 = "ip link del "@ + ("veth-"@ + node + "-"@ + intf.name) + " 2>/dev/null || true\nip link add "@ + ("veth-"@ + node + "-"@ + intf.name) + " type veth peer name "@ + (node + "-"@ + intf.name) + "\nip link set "@;
    assert(crate::text::holds(w6, t6));
    crate::text::holds_in_a_part(w6, (node + "-"@ + intf.name), t6);
    let w7 = w6 + (node + "-"@ + intf.name);
    crate::text::holds_in_a_part(w7, " netns "@, t6);
    let w8 = w7 + " netns "@;
    crate::text::holds_in_a_part(w8, ("ns-"@ + node), t6);
    let w9 = w8 + ("ns-"@ + node);
    crate::text::holds_in_a_part(w9, "\nip netns exec "@, t6);
    let w10 = w9 + "\nip netns exec "@;
    crate::text::holds_in_a_part(w10, ("ns-"@ + node), t6);
    let w11 = w10 + ("ns-"@ + node);
    crate::text::holds_in_a_part(w11, " ip link set "@, t6);
    let w12 = w11 + " ip link set "@;
    crate::text::holds_in_a_part(w12, (node + "-"@ + intf.name), t6);
    let w13 = w12 + (node + "-"@ + intf.name);
    crate::text::holds_in_a_part(w13, " up\nip link set "@, t6);
    let w14 = w13 + " up\nip link set "@;
    crate::text::holds_in_a_part(w14, ("veth-"@ + node + "-"@ + intf.name), t6);
    let w15 = w14 + ("veth-"@ + node + "-"@ + intf.name);
    crate::text::holds_in_a_part(w15, " up\nip link set "@, t6);
    let w16 = w15 + " up\nip link set "@;
    crate::text::holds_in_a_part(w16, ("veth-"@ + node + "-"@ + intf.name), t6);
    let w17 = w16 + ("veth-"@ + node + "-"@ + intf.name);
    crate::text::holds_in_a_part(w17, " master "@, t6);
    let w18 = w17 + " master "@;
    crate::text::holds_in_a_part(w18, master_of(links, node, intf), t6);
    let w19 = w18 + master_of(links, node, intf);
    crate::text::holds_in_a_part(w19, "\n"@, t6);
    let w20 = w19 + "\n"@;
    crate::text::holds_in_a_part(w20, mtu_lines(node, intf), t6);
    let w21 = w20 + mtu_lines(node, intf);
    crate::text::holds_in_a_part(w21, address_lines(node, intf), t6);
    let w22 = w21 + address_lines(node, intf);
}

proof fn end_is_moved(links: Seq<VlanView>, node: Seq<char>, intf: InterfaceView)
    ensures
        crate::text::holds(interface_text(links, node, intf), "\nip link set "@ + (node + "-"@ + intf.name) + " netns "@ + ("ns-"@ + node) + "\n"@),
{
    reveal_strlit("\n");
    reveal_strlit("\nip link set ");
    reveal_strlit("\nip netns exec ");
    reveal_strlit("ip netns exec ");
    let s0 = "ip link del "@;
    let s1 = s0 + ("veth-"@ + node + "-"@ + intf.name);
    let s2 = s1 + " 2>/dev/null || true\nip link add "@;
    let s3 = s2 + ("veth-"@ + node + "-"@ + intf.name);
    let s4 = s3 + " type veth peer name "@;
    let s5 = s4 + (node + "-"@ + intf.name);
    let t6 = "\nip link set "@;
    crate::text::grouped_together(s5, t6, (node + "-"@ + intf.name));
    let t7 = t6 + (node + "-"@ + intf.name);
    crate::text::grouped_together(s5, t7, " netns "@);
    let t8 = t7 + " netns "@;
    crate::text::grouped_together(s5, t8, ("ns-"@ + node));
    let t9 = t8 + ("ns-"@ + node);
    assert("\nip netns exec "@ =~= "\n"@ + "ip netns exec "@);
    crate::text::grouped_together(s5 + t9, "\n"@, "ip netns exec "@);
    crate::text::grouped_together(s5, t9, "\n"@);
    let t10 = t9 + "\n"@;
    crate::text::holds_its_middle(s5, t10, "ip netns exec "@);
    let w10 = "ip link del "@ + ("veth-"@ + node + "-"@ + intf.name) + " 2>/dev/null || true\nip link add "@ + ("veth-"@ + node + "-"@ + intf.name) + " type veth peer name "@ + (node + "-"@ + intf.name) + "\nip link set "@ + (node + "-"@ + intf.name) + " netns "@ + ("ns-"@ + node) + "\nip netns exec "@;
    assert(crate::text::holds(w10, t10));
    crate::text::holds_in_a_part(w10, ("ns-"@ + node), t10);
    let w11 = w10 + ("ns-"@ + node);
    crate::text::holds_in_a_part(w11, " ip link set "@, t10);
    let w12 = w11 + " ip link set "@;
    crate::text::holds_in_a_part(w12, (node + "-"@ + intf.name), t10);
    let w13 = w12 + (node + "-"@ + intf.name);
    crate::text::holds_in_a_part(w13, " up\nip link set "@, t10);
    let w14 = w13 + " up\nip link set "@;
    crate::text::holds_in_a_part(w14, ("veth-"@ + node + "-"@ + intf.name), t10);
    let w15 = w14 + ("veth-"@ + node + "-"@ + intf.name);
    crate::text::holds_in_a_part(w15, " up\nip link set "@, t10);
    let w16 = w15 + " up\nip link set "@;
    crate::text::holds_in_a_part(w16, ("veth-"@ + node + "-"@ + intf.name), t10);
    let w17 = w16 + ("veth-"@ + node + "-"@ + intf.name);
    crate::text::holds_in_a_part(w17, " master "@, t10);
    let w18 = w17 + " master "@;
    crate::text::holds_in_a_part(w18, master_of(links, node, intf), t10);
    let w19 = w18 + master_of(links, node, intf);
    crate::text::holds_in_a_part(w19, "\n"@, t10);
    let w20 = w19 + "\n"@;
    crate::text::holds_in_a_part(w20, mtu_lines(node, intf), t10);
    let w21 = w20 + mtu_lines(node, intf);
    crate::text::holds_in_a_part(w21, address_lines(node, intf), t10);
    let w22 = w21 + address_lines(node, intf);
}

proof fn end_is_up(links: Seq<VlanView>, node: Seq<char>, intf: InterfaceView)
    ensures
        crate::text::holds(interface_text(links, node, intf), "\nip netns exec "@ + ("ns-"@ + node) + " ip link set "@ + (node + "-"@ + intf.name) + " up\n"@),
{
    reveal_strlit("\nip netns exec ");
    reveal_strlit(" up\n");
    reveal_strlit(" up\nip link set ");
    reveal_strlit("ip link set ");
    let s0 = "ip link del "@;
    let s1 = s0 + ("veth-"@ + node + "-"@ + intf.name);
    let s2 = s1 + " 2>/dev/null || true\nip link add "@;
    let s3 = s2 + ("veth-"@ + node + "-"@ + intf.name);
    let s4 = s3 + " type veth peer name "@;
    let s5 = s4 + (node + "-"@ + intf.name);
    let s6 = s5 + "\nip link set "@;
    let s7 = s6 + (node + "-"@ + intf.name);
    let s8 = s7 + " netns "@;
    let s9 = s8 + ("ns-"@ + node);
    let t10 = "\nip netns exec "@;
    crate::text::grouped_together(s9, t10, ("ns-"@ + node));
    let t11 = t10 + ("ns-"@ + node);
    crate::text::grouped_together(s9, t11, " ip link set "@);
    let t12 = t11 + " ip link set "@;
    crate::text::grouped_together(s9, t12, (node + "-"@ + intf.name));
    let t13 = t12 + (node + "-"@ + intf.name);
    assert(" up\nip link set "@ =~= " up\n"@ + "ip link set "@);
    crate::text::grouped_together(s9 + t13, " up\n"@, "ip link set "@);
    crate::text::grouped_together(s9, t13, " up\n"@);
    let t14 = t13 + " up\n"@;
    crate::text::holds_its_middle(s9, t14, "ip link set "@);
    let w14 = "ip link del "@ + ("veth-"@ + node + "-"@ + intf.name) + " 2>/dev/null || true\nip link add "@ + ("veth-"@ + node + "-"@ + intf.name) + " type veth peer name "@ + (node + "-"@ + intf.name) + "\nip link set "@ + (node + "-"@ + intf.name) + " netns "@ + ("ns-"@ + node) + "\nip netns exec "@ + ("ns-"@ + node) + " ip link set "@ + (node + "-"@ + intf.name) + " up\nip link set "@;
    assert(crate::text::holds(w14, t14));
    crate::text::holds_in_a_part(w14, ("veth-"@ + node + "-"@ + intf.name), t14);
    let w15 = w14 + ("veth-"@ + node + "-"@ + intf.name);
    crate::text::holds_in_a_part(w15, " up\nip link set "@, t14);
    let w16 = w15 + " up\nip link set "@;
    crate::text::holds_in_a_part(w16, ("veth-"@ + node + "-"@ + intf.name), t14);
    let w17 = w16 + ("veth-"@ + node + "-"@ + intf.name);
    crate::text::holds_in_a_part(w17, " master "@, t14);
    let w18 = w17 + " master "@;
    crate::text::holds_in_a_part(w18, master_of(links, node, intf), t14);
    let w19 = w18 + master_of(links, node, intf);
    crate::text::holds_in_a_part(w19, "\n"@, t14);
    let w20 = w19 + "\n"@;
    crate::text::holds_in_a_part(w20, mtu_lines(node, intf), t14);
    let w21 = w20 + mtu_lines(node, intf);
    crate::text::holds_in_a_part(w21, address_lines(node, intf), t14);
    let w22 = w21 + address_lines(node, intf);
}

proof fn pair_is_up(links: Seq<VlanView>, node: Seq<char>, intf: InterfaceView)
    ensures
        crate::text::holds(interface_text(links, node, intf), "\nip link set "@ + ("veth-"@ + node + "-"@ + intf.name) + " up\n"@),
{
    reveal_strlit("\nip link set ");
    reveal_strlit(" up");
    reveal_strlit(" up\n");
    reveal_strlit(" up\nip link set ");
    reveal_strlit("ip link set ");
    let s0 = "ip link del "@;
    let s1 = s0 + ("veth-"@ + node + "-"@ + intf.name);
    let s2 = s1 + " 2>/dev/null || true\nip link add "@;
    let s3 = s2 + ("veth-"@ + node + "-"@ + intf.name);
    let s4 = s3 + " type veth peer name "@;
    let s5 = s4 + (node + "-"@ + intf.name);
    let s6 = s5 + "\nip link set "@;
    let s7 = s6 + (node + "-"@ + intf.name);
    let s8 = s7 + " netns "@;
    let s9 = s8 + ("ns-"@ + node);
    let s10 = s9 + "\nip netns exec "@;
    let s11 = s10 + ("ns-"@ + node);
    let s12 = s11 + " ip link set "@;
    let s13 = s12 + (node + "-"@ + intf.name);
    assert(" up\nip link set "@ =~= " up"@ + "\nip link set "@);
    crate::text::grouped_together(s13, " up"@, "\nip link set "@);
    let a = s13 + " up"@;
    let t14 = "\nip link set "@;
    crate::text::grouped_together(a, t14, ("veth-"@ + node + "-"@ + intf.name));
    let t15 = t14 + ("veth-"@ + node + "-"@ + intf.name);
    assert(" up\nip link set "@ =~= " up\n"@ + "ip link set "@);
    crate::text::grouped_together(a + t15, " up\n"@, "ip link set "@);
    crate::text::grouped_together(a, t15, " up\n"@);
    let t16 = t15 + " up\n"@;
    crate::text::holds_its_middle(a, t16, "ip link set "@);
    let w16 = "ip link del "@ + ("veth-"@ + node + "-"@ + intf.name) + " 2>/dev/null || true\nip link add "@ + ("veth-"@ + node + "-"@ + intf.name) + " type veth peer name "@ + (node + "-"@ + intf.name) + "\nip link set "@ + (node + "-"@ + intf.name) + " netns "@ + ("ns-"@ + node) + "\nip netns exec "@ + ("ns-"@ + node) + " ip link set "@ + (node + "-"@ + intf.name) + " up\nip link set "@ + ("veth-"@ + node + "-"@ + intf.name) + " up\nip link set "@;
    assert(crate::text::holds(w16, t16));
    crate::text::holds_in_a_part(w16, ("veth-"@ + node + "-"@ + intf.name), t16);
    let w17 = w16 + ("veth-"@ + node + "-"@ + intf.name);
    crate::text::holds_in_a_part(w17, " master "@, t16);
    let w18 = w17 + " master "@;
    crate::text::holds_in_a_part(w18, master_of(links, node, intf), t16);
    let w19 = w18 + master_of(links, node, intf);
    crate::text::holds_in_a_part(w19, "\n"@, t16);
    let w20 = w19 + "\n"@;
    crate::text::holds_in_a_part(w20, mtu_lines(node, intf), t16);
    let w21 = w20 + mtu_lines(node, intf);
    crate::text::holds_in_a_part(w21, address_lines(node, intf), t16);
    let w22 = w21 + address_lines(node, intf);
}

proof fn pair_is_joined(links: Seq<VlanView>, node: Seq<char>, intf: InterfaceView)
    ensures
        crate::text::holds(interface_text(links, node, intf), "\nip link set "@ + ("veth-"@ + node + "-"@ + intf.name) + " master "@ + master_of(links, node, intf) + "\n"@),
{
    reveal_strlit("\nip link set ");
    reveal_strlit(" up");
    reveal_strlit(" up\nip link set ");
    let s0 = "ip link del "@;
    let s1 = s0 + ("veth-"@ + node + "-"@ + intf.name);
    let s2 = s1 + " 2>/dev/null || true\nip link add "@;
    let s3 = s2 + ("veth-"@ + node + "-"@ + intf.name);
    let s4 = s3 + " type veth peer name "@;
    let s5 = s4 + (node + "-"@ + intf.name);
    let s6 = s5 + "\nip link set "@;
    let s7 = s6 + (node + "-"@ + intf.name);
    let s8 = s7 + " netns "@;
    let s9 = s8 + ("ns-"@ + node);
    let s10 = s9 + "\nip netns exec "@;
    let s11 = s10 + ("ns-"@ + node);
    let s12 = s11 + " ip link set "@;
    let s13 = s12 + (node + "-"@ + intf.name);
    let s14 = s13 + " up\nip link set "@;
    let s15 = s14 + ("veth-"@ + node + "-"@ + intf.name);
    assert(" up\nip link set "@ =~= " up"@ + "\nip link set "@);
    crate::text::grouped_together(s15, " up"@, "\nip link set "@);
    let a = s15 + " up"@;
    let t16 = "\nip link set "@;
    crate::text::grouped_together(a, t16, ("veth-"@ + node + "-"@ + intf.name));
    let t17 = t16 + ("veth-"@ + node + "-"@ + intf.name);
    crate::text::grouped_together(a, t17, " master "@);
    let t18 = t17 + " master "@;
    crate::text::grouped_together(a, t18, master_of(links, node, intf));
    let t19 = t18 + master_of(links, node, intf);
    crate::text::grouped_together(a, t19, "\n"@);
    let t20 = t19 + "\n"@;
    crate::text::holds_its_end(a, t20);
    let w20 = "ip link del "@ + ("veth-"@ + node + "-"@ + intf.name) + " 2>/dev/null || true\nip link add "@ + ("veth-"@ + node + "-"@ + intf.name) + " type veth peer name "@ + (node + "-"@ + intf.name) + "\nip link set "@ + (node + "-"@ + intf.name) + " netns "@ + ("ns-"@ + node) + "\nip netns exec "@ + ("ns-"@ + node) + " ip link set "@ + (node + "-"@ + intf.name) + " up\nip link set "@ + ("veth-"@ + node + "-"@ + intf.name) + " up\nip link set "@ + ("veth-"@ + node + "-"@ + intf.name) + " master "@ + master_of(links, node, intf) + "\n"@;
    assert(crate::text::holds(w20, t20));
    crate::text::holds_in_a_part(w20, mtu_lines(node, intf), t20);
    let w21 = w20 + mtu_lines(node, intf);
    crate::text::holds_in_a_part(w21, address_lines(node, intf), t20);
    let w22 = w21 + address_lines(node, intf);
}

proof fn mtu_is_set(links: Seq<VlanView>, node: Seq<char>, intf: InterfaceView)
    ensures
        crate::text::holds(interface_text(links, node, intf), mtu_lines(node, intf)),
{
    let s0 = "ip link del "@;
    let s1 = s0 + ("veth-"@ + node + "-"@ + intf.name);
    let s2 = s1 + " 2>/dev/null || true\nip link add "@;
    let s3 = s2 + ("veth-"@ + node + "-"@ + intf.name);
    let s4 = s3 + " type veth peer name "@;
    let s5 = s4 + (node + "-"@ + intf.name);
    let s6 = s5 + "\nip link set "@;
    let s7 = s6 + (node + "-"@ + intf.name);
    let s8 = s7 + " netns "@;
    let s9 = s8 + ("ns-"@ + node);
    let s10 = s9 + "\nip netns exec "@;
    let s11 = s10 + ("ns-"@ + node);
    let s12 = s11 + " ip link set "@;
    let s13 = s12 + (node + "-"@ + intf.name);
    let s14 = s13 + " up\nip link set "@;
    let s15 = s14 + ("veth-"@ + node + "-"@ + intf.name);
    let s16 = s15 + " up\nip link set "@;
    let s17 = s16 + ("veth-"@ + node + "-"@ + intf.name);
    let s18 = s17 + " master "@;
    let s19 = s18 + master_of(links, node, intf);
    let s20 = s19 + "\n"@;
    let t21 = mtu_lines(node, intf);
    crate::text::holds_its_end(s20, t21);
    let w21 = s20 + mtu_lines(node, intf);
    assert(crate::text::holds(w21, t21));
    crate::text::holds_in_a_part(w21, address_lines(node, intf), t21);
    let w22 = w21 + address_lines(node, intf);
}

proof fn address_is_set(links: Seq<VlanView>, node: Seq<char>, intf: InterfaceView)
    ensures
        crate::text::holds(interface_text(links, node, intf), address_lines(node, intf)),
{
    let s0 = "ip link del "@;
    let s1 = s0 + ("veth-"@ + node + "-"@ + intf.name);
    let s2 = s1 + " 2>/dev/null || true\nip link add "@;
    let s3 = s2 + ("veth-"@ + node + "-"@ + intf.name);
    let s4 = s3 + " type veth peer name "@;
    let s5 = s4 + (node + "-"@ + intf.name);
    let s6 = s5 + "\nip link set "@;
    let s7 = s6 + (node + "-"@ + intf.name);
    let s8 = s7 + " netns "@;
    let s9 = s8 + ("ns-"@ + node);
    let s10 = s9 + "\nip netns exec "@;
    let s11 = s10 + ("ns-"@ + node);
    let s12 = s11 + " ip link set "@;
    let s13 = s12 + (node + "-"@ + intf.name);
    let s14 = s13 + " up\nip link set "@;
    let s15 = s14 + ("veth-"@ + node + "-"@ + intf.name);
    let s16 = s15 + " up\nip link set "@;
    let s17 = s16 + ("veth-"@ + node + "-"@ + intf.name);
    let s18 = s17 + " master "@;
    let s19 = s18 + master_of(links, node, intf);
    let s20 = s19 + "\n"@;
    let s21 = s20 + mtu_lines(node, intf);
    let t22 = address_lines(node, intf);
    crate::text::holds_its_end(s21, t22);
    let w22 = s21 + address_lines(node, intf);
    assert(crate::text::holds(w22, t22));
}

proof fn node_is_made(
    spec: OverlaySpec,
    links: Seq<VlanView>,
    subnets: Map<u16, String>,
    node: OverlayNode,
)
    ensures
        crate::text::holds(node_text(spec, links, subnets, node), "ip netns add ns-"@ + node.name@ + " 2>/dev/null || true\n"@),
{
    reveal_strlit(" 2>/dev/null || true\n");
    reveal_strlit(" 2>/dev/null || true\nip netns exec ns-");
    reveal_strlit("ip netns add ns-");
    reveal_strlit("ip netns exec ns-");
    let t0 = "ip netns add ns-"@;
    let t1 = t0 + node.name@;
    assert(" 2>/dev/null || true\nip netns exec ns-"@ =~= " 2>/dev/null || true\n"@ + "ip netns exec ns-"@);
    crate::text::grouped_together(t1, " 2>/dev/null || true\n"@, "ip netns exec ns-"@);
    let t2 = t1 + " 2>/dev/null || true\n"@;
    crate::text::holds_its_end(Seq::empty(), t2);
    assert(Seq::<char>::empty() + t2 =~= t2);
    crate::text::holds_in_a_part(t2, "ip netns exec ns-"@, t2);
    let w2 = "ip netns add ns-"@ + node.name@ + " 2>/dev/null || true\nip netns exec ns-"@;
    assert(crate::text::holds(w2, t2));
    crate::text::holds_in_a_part(w2, node.name@, t2);
    let w3 = w2 + node.name@;
    crate::text::holds_in_a_part(w3, " ip link set lo up\n"@, t2);
    let w4 = w3 + " ip link set lo up\n"@;
    crate::text::holds_in_a_part(w4, interfaces_section(links, node.name@, node_interfaces(spec, links, subnets, node)), t2);
    let w5 = w4 + interfaces_section(links, node.name@, node_interfaces(spec, links, subnets, node));
}

proof fn node_is_up(
    spec: OverlaySpec,
    links: Seq<VlanView>,
    subnets: Map<u16, String>,
    node: OverlayNode,
)
    ensures
        crate::text::holds(node_text(spec, links, subnets, node), "\nip netns exec ns-"@ + node.name@ + " ip link set lo up\n"@),
{
    reveal_strlit("\nip netns exec ns-");
    reveal_strlit(" 2>/dev/null || true");
    reveal_strlit(" 2>/dev/null || true\nip netns exec ns-");
    let s0 = "ip netns add ns-"@;
    let s1 = s0 + node.name@;
    assert(" 2>/dev/null || true\nip netns exec ns-"@ =~= " 2>/dev/null || true"@ + "\nip netns exec ns-"@);
    crate::text::grouped_together(s1, " 2>/dev/null || true"@, "\nip netns exec ns-"@);
    let a = s1 + " 2>/dev/null || true"@;
    let t2 = "\nip netns exec ns-"@;
    crate::text::grouped_together(a, t2, node.name@);
    let t3 = t2 + node.name@;
    crate::text::grouped_together(a, t3, " ip link set lo up\n"@);
    let t4 = t3 + " ip link set lo up\n"@;
    crate::text::holds_its_end(a, t4);
    let w4 = "ip netns add ns-"@ + node.name@ + " 2>/dev/null || true\nip netns exec ns-"@ + node.name@ + " ip link set lo up\n"@;
    assert(crate::text::holds(w4, t4));
    crate::text::holds_in_a_part(w4, interfaces_section(links, node.name@, node_interfaces(spec, links, subnets, node)), t4);
    let w5 = w4 + interfaces_section(links, node.name@, node_interfaces(spec, links, subnets, node));
}

proof fn vlan_is_deleted(vl: VlanLink)
    ensures
        crate::text::holds(vlan_cleanup_text(vl), "\nip link del "@ + subinterface(vl.vxlan_dev@, vl.vlan_id) + " 2>/dev/null || true\n"@),
{
    reveal_strlit("\nip link del ");
    reveal_strlit(" 2>/dev/null || true\n");
    reveal_strlit(" 2>/dev/null || true\nip link set ");
    reveal_strlit(" root 2>/dev/null || true");
    reveal_strlit(" root 2>/dev/null || true\nip link del ");
    reveal_strlit("ip link set ");
    let s0 = "tc qdisc del dev "@;
    let s1 = s0 + subinterface(vl.vxlan_dev@, vl.vlan_id);
    assert(" root 2>/dev/null || true\nip link del "@ =~= " root 2>/dev/null || true"@ + "\nip link del "@);
    crate::text::grouped_together(s1, " root 2>/dev/null || true"@, "\nip link del "@);
    let a = s1 + " root 2>/dev/null || true"@;
    let t2 = "\nip link del "@;
    crate::text::grouped_together(a, t2, subinterface(vl.vxlan_dev@, vl.vlan_id));
    let t3 = t2 + subinterface(vl.vxlan_dev@, vl.vlan_id);
    assert(" 2>/dev/null || true\nip link set "@ =~= " 2>/dev/null || true\n"@ + "ip link set "@);
    crate::text::grouped_together(a + t3, " 2>/dev/null || true\n"@, "ip link set "@);
    crate::text::grouped_together(a, t3, " 2>/dev/null || true\n"@);
    let t4 = t3 + " 2>/dev/null || true\n"@;
    crate::text::holds_its_middle(a, t4, "ip link set "@);
    let w4 = "tc qdisc del dev "@ + subinterface(vl.vxlan_dev@, vl.vlan_id) + " root 2>/dev/null || true\nip link del "@ + subinterface(vl.vxlan_dev@, vl.vlan_id) + " 2>/dev/null || true\nip link set "@;
    assert(crate::text::holds(w4, t4));
    crate::text::holds_in_a_part(w4, vlan_bridge(vl.vlan_id), t4);
    let w5 = w4 + vlan_bridge(vl.vlan_id);
    crate::text::holds_in_a_part(w5, " down 2>/dev/null || true\nip link del "@, t4);
    let w6 = w5 + " down 2>/dev/null || true\nip link del "@;
    crate::text::holds_in_a_part(w6, vlan_bridge(vl.vlan_id), t4);
    let w7 = w6 + vlan_bridge(vl.vlan_id);
    crate::text::holds_in_a_part(w7, " 2>/dev/null || true\nfor v in $(ip -o link show | awk -F': ' '/veth-"@, t4);
    let w8 = w7 + " 2>/dev/null || true\nfor v in $(ip -o link show | awk -F': ' '/veth-"@;
    crate::text::holds_in_a_part(w8, crate::text::dec(vl.vlan_id as nat), t4);
    let w9 = w8 + crate::text::dec(vl.vlan_id as nat);
    crate::text::holds_in_a_part(w9, "/"@, t4);
    let w10 = w9 + "/"@;
    crate::text::holds_in_a_part(w10, vl.vxlan_dev@, t4);
    let w11 = w10 + vl.vxlan_dev@;
    crate::text::holds_in_a_part(w11, "/ {print $2}' | tr -d ':'); do ip link del $v 2>/dev/null || true; done\n"@, t4);
    let w12 = w11 + "/ {print $2}' | tr -d ':'); do ip link del $v 2>/dev/null || true; done\n"@;
}

proof fn bridge_is_deleted(vl: VlanLink)
    ensures
        crate::text::holds(vlan_cleanup_text(vl), "\nip link del "@ + vlan_bridge(vl.vlan_id) + " 2>/dev/null || true\n"@),
{
    reveal_strlit("\nip link del ");
    reveal_strlit(" 2>/dev/null || true\n");
    reveal_strlit(" 2>/dev/null || true\nfor v in $(ip -o link show | awk -F': ' '/veth-");
    reveal_strlit(" down 2>/dev/null || true");
    reveal_strlit(" down 2>/dev/null || true\nip link del ");
    reveal_strlit("for v in $(ip -o link show | awk -F': ' '/veth-");
    let s0 = "tc qdisc del dev "@;
    let s1 = s0 + subinterface(vl.vxlan_dev@, vl.vlan_id);
    let s2 = s1 + " root 2>/dev/null || true\nip link del "@;
    let s3 = s2 + subinterface(vl.vxlan_dev@, vl.vlan_id);
    let s4 = s3 + " 2>/dev/null || true\nip link set "@;
    let s5 = s4 + vlan_bridge(vl.vlan_id);
    assert(" down 2>/dev/null || true\nip link del "@ =~= " down 2>/dev/null || true"@ + "\nip link del "@);
    crate::text::grouped_together(s5, " down 2>/dev/null || true"@, "\nip link del "@);
    let a = s5 + " down 2>/dev/null || true"@;
    let t6 = "\nip link del "@;
    crate::text::grouped_together(a, t6, vlan_bridge(vl.vlan_id));
    let t7 = t6 + vlan_bridge(vl.vlan_id);
    assert(" 2>/dev/null || true\nfor v in $(ip -o link show | awk -F': ' '/veth-"@ =~= " 2>/dev/null || true\n"@ + "for v in $(ip -o link show | awk -F': ' '/veth-"@);
    crate::text::grouped_together(a + t7, " 2>/dev/null || true\n"@, "for v in $(ip -o link show | awk -F': ' '/veth-"@);
    crate::text::grouped_together(a, t7, " 2>/dev/null || true\n"@);
    let t8 = t7 + " 2>/dev/null || true\n"@;
    crate::text::holds_its_middle(a, t8, "for v in $(ip -o link show | awk -F': ' '/veth-"@);
    let w8 = "tc qdisc del dev "@ + subinterface(vl.vxlan_dev@, vl.vlan_id) + " root 2>/dev/null || true\nip link del "@ + subinterface(vl.vxlan_dev@, vl.vlan_id) + " 2>/dev/null || true\nip link set "@ + vlan_bridge(vl.vlan_id) + " down 2>/dev/null || true\nip link del "@ + vlan_bridge(vl.vlan_id) + " 2>/dev/null || true\nfor v in $(ip -o link show | awk -F': ' '/veth-"@;
    assert(crate::text::holds(w8, t8));
    crate::text::holds_in_a_part(w8, crate::text::dec(vl.vlan_id as nat), t8);
    let w9 = w8 + crate::text::dec(vl.vlan_id as nat);
    crate::text::holds_in_a_part(w9, "/"@, t8);
    let w10 = w9 + "/"@;
    crate::text::holds_in_a_part(w10, vl.vxlan_dev@, t8);
    let w11 = w10 + vl.vxlan_dev@;
    crate::text::holds_in_a_part(w11, "/ {print $2}' | tr -d ':'); do ip link del $v 2>/dev/null || true; done\n"@, t8);
    let w12 = w11 + "/ {print $2}' | tr -d ':'); do ip link del $v 2>/dev/null || true; done\n"@;
}

proof fn device_is_deleted(vx: VxlanDevice)
    ensures
        crate::text::holds(vxlan_cleanup_text(vx), "\nip link del "@ + vx.name@ + " 2>/dev/null || true\n"@),
{
    reveal_strlit("\nip link del ");
    reveal_strlit(" down 2>/dev/null || true");
    reveal_strlit(" down 2>/dev/null || true\nip link del ");
    let s0 = "ip link set "@;
    let s1 = s0 + vx.name@;
    assert(" down 2>/dev/null || true\nip link del "@ =~= " down 2>/dev/null || true"@ + "\nip link del "@);
    crate::text::grouped_together(s1, " down 2>/dev/null || true"@, "\nip link del "@);
    let a = s1 + " down 2>/dev/null || true"@;
    let t2 = "\nip link del "@;
    crate::text::grouped_together(a, t2, vx.name@);
    let t3 = t2 + vx.name@;
    crate::text::grouped_together(a, t3, " 2>/dev/null || true\n"@);
    let t4 = t3 + " 2>/dev/null || true\n"@;
    crate::text::holds_its_end(a, t4);
    let w4 = "ip link set "@ + vx.name@ + " down 2>/dev/null || true\nip link del "@ + vx.name@ + " 2>/dev/null || true\n"@;
    assert(crate::text::holds(w4, t4));
}

proof fn interfaces_hold(
    links: Seq<VlanView>,
    node: Seq<char>,
    list: Seq<InterfaceView>,
    x: int,
    t: Seq<char>,
)
    requires
        0 <= x < list.len(),
        crate::text::holds(interface_text(links, node, list[x]), t),
    ensures
        crate::text::holds(interfaces_section(links, node, list), t),
    decreases list.len(),
{
    let front = list.drop_last();
    if x < front.len() {
        assert(front[x] == list[x]);
        interfaces_hold(links, node, front, x, t);
    }
    crate::text::holds_in_a_part(
        interfaces_section(links, node, front),
        interface_text(links, node, list.last()),
        t,
    );
}

proof fn nodes_hold(
    spec: OverlaySpec,
    links: Seq<VlanView>,
    subnets: Map<u16, String>,
    host: Seq<char>,
    n: nat,
    k: int,
    t: Seq<char>,
)
    requires
        0 <= k < n <= spec.nodes@.len(),
        crate::big_virtual_wall::planner::placement(spec.nodes@[k]) == host,
        crate::text::holds(node_text(spec, links, subnets, spec.nodes@[k]), t),
    ensures
        crate::text::holds(nodes_section(spec, links, subnets, host, n), t),
    decreases n,
{
    if k < n - 1 {
        nodes_hold(spec, links, subnets, host, (n - 1) as nat, k, t);
    }
    if crate::big_virtual_wall::planner::placement(spec.nodes@[n - 1]) == host {
        crate::text::holds_in_a_part(
            nodes_section(spec, links, subnets, host, (n - 1) as nat),
            node_text(spec, links, subnets, spec.nodes@[n - 1]),
            t,
        );
    }
}

proof fn runtime_holds(
    plans: Seq<HostPlan>,
    spec: OverlaySpec,
    hp: HostPlan,
    k: int,
    t: Seq<char>,
)
    requires
        0 <= k < spec.nodes@.len(),
        crate::big_virtual_wall::planner::placement(spec.nodes@[k]) == hp.host@,
        crate::text::holds(
            node_text(spec, all_links(plans), pool_subnets(spec), spec.nodes@[k]),
            t,
        ),
    ensures
        crate::text::holds(runtime_script(plans, spec, hp), t),
{
    nodes_hold(
        spec,
        all_links(plans),
        pool_subnets(spec),
        hp.host@,
        spec.nodes@.len(),
        k,
        t,
    );
    crate::text::holds_in_a_part(
        "#!/usr/bin/env bash\nset -euo pipefail\n\nBR="@ + hp.bridge@ + "\n\necho \"[host:"@
            + hp.host@
            + "] creating virtual namespaces and veths\"\n\nip link set $BR up || true\n"@,
        nodes_section(
            spec,
            all_links(plans),
            pool_subnets(spec),
            hp.host@,
            spec.nodes@.len(),
        ),
        t,
    );
}

proof fn runtime_holds_interface(
    plans: Seq<HostPlan>,
    spec: OverlaySpec,
    hp: HostPlan,
    k: int,
    x: int,
    t: Seq<char>,
)
    requires
        0 <= k < spec.nodes@.len(),
        crate::big_virtual_wall::planner::placement(spec.nodes@[k]) == hp.host@,
        0 <= x < node_interfaces(
            spec,
            all_links(plans),
            pool_subnets(spec),
            spec.nodes@[k],
        ).len(),
        crate::text::holds(
            interface_text(
                all_links(plans),
                spec.nodes@[k].name@,
                node_interfaces(spec, all_links(plans), pool_subnets(spec), spec.nodes@[k])[x],
            ),
            t,
        ),
    ensures
        crate::text::holds(runtime_script(plans, spec, hp), t),
{
    let node = spec.nodes@[k];
    let links = all_links(plans);
    let list = node_interfaces(spec, links, pool_subnets(spec), node);
    interfaces_hold(links, node.name@, list, x, t);
    crate::text::holds_in_a_part(
        "ip netns add ns-"@ + node.name@ + " 2>/dev/null || true\nip netns exec ns-"@
            + node.name@ + " ip link set lo up\n"@,
        interfaces_section(links, node.name@, list),
        t,
    );
    runtime_holds(plans, spec, hp, k, t);
}

/// Whether a node is on a host: the one that it names, or that of its own name where it leaves the
/// choice open.
pub open spec fn is_on(node: OverlayNode, host: Seq<char>) -> bool {
    if node.host@ == "auto"@ {
        node.name@ == host
    } else {
        node.host@ == host
    }
}

/// The script of a host makes every node that is on it, as a namespace of its name.
pub proof fn runtime_makes_the_nodes(
    plans: Seq<HostPlan>,
    spec: OverlaySpec,
    hp: HostPlan,
    k: int,
)
    requires
        0 <= k < spec.nodes@.len(),
        is_on(spec.nodes@[k], hp.host@),
    ensures
        crate::text::holds(
            runtime_script(plans, spec, hp),
            "ip netns add ns-"@ + spec.nodes@[k].name@ + " 2>/dev/null || true\n"@,
        ),
        crate::text::holds(
            runtime_script(plans, spec, hp),
            "\nip netns exec ns-"@ + spec.nodes@[k].name@ + " ip link set lo up\n"@,
        ),
{
    let node = spec.nodes@[k];
    node_is_made(spec, all_links(plans), pool_subnets(spec), node);
    node_is_up(spec, all_links(plans), pool_subnets(spec), node);
    runtime_holds(
        plans,
        spec,
        hp,
        k,
        "ip netns add ns-"@ + node.name@ + " 2>/dev/null || true\n"@,
    );
    runtime_holds(
        plans,
        spec,
        hp,
        k,
        "\nip netns exec ns-"@ + node.name@ + " ip link set lo up\n"@,
    );
}

/// The script of a host makes every interface of the nodes on it: a pair of which one end is in
/// the namespace of the node and the other on a bridge, both switched on; and it sets the MTU and
/// the address that the interface has.
pub proof fn runtime_makes_the_interfaces(
    plans: Seq<HostPlan>,
    spec: OverlaySpec,
    hp: HostPlan,
    k: int,
    x: int,
    bridge: Seq<char>,
)
    requires
        0 <= k < spec.nodes@.len(),
        is_on(spec.nodes@[k], hp.host@),
        0 <= x < node_interfaces(
            spec,
            all_links(plans),
            pool_subnets(spec),
            spec.nodes@[k],
        ).len(),
        bridge == match end_vlan(
            all_links(plans),
            (
                spec.nodes@[k].name@,
                node_interfaces(
                    spec,
                    all_links(plans),
                    pool_subnets(spec),
                    spec.nodes@[k],
                )[x].name,
            ),
            all_links(plans).len(),
        ) {
            Some(id) => "br-vw-"@ + crate::text::dec(id as nat),
            None => "$BR"@,
        },
    ensures
        ({
            let script = runtime_script(plans, spec, hp);
            let node = spec.nodes@[k].name@;
            let intf = node_interfaces(
                spec,
                all_links(plans),
                pool_subnets(spec),
                spec.nodes@[k],
            )[x];
            let outer = "veth-"@ + node + "-"@ + intf.name;
            let inner = node + "-"@ + intf.name;
            let ns = "ns-"@ + node;
            &&& crate::text::holds(
                script,
                "\nip link add "@ + outer + " type veth peer name "@ + inner + "\n"@,
            )
            &&& crate::text::holds(script, "\nip link set "@ + inner + " netns "@ + ns + "\n"@)
            &&& crate::text::holds(
                script,
                "\nip netns exec "@ + ns + " ip link set "@ + inner + " up\n"@,
            )
            &&& crate::text::holds(script, "\nip link set "@ + outer + " up\n"@)
            &&& crate::text::holds(
                script,
                "\nip link set "@ + outer + " master "@ + bridge + "\n"@,
            )
            &&& intf.mtu is Some ==> crate::text::holds(
                script,
                "ip netns exec "@ + ns + " ip link set "@ + inner + " mtu "@ + crate::text::dec(
                    intf.mtu->0 as nat,
                ) + "\n"@,
            )
            &&& intf.addr is Some ==> crate::text::holds(
                script,
                address_text(ns, inner, intf.addr->0),
            )
        }),
{
    let links = all_links(plans);
    let node = spec.nodes@[k].name@;
    let intf = node_interfaces(spec, links, pool_subnets(spec), spec.nodes@[k])[x];
    let outer = "veth-"@ + node + "-"@ + intf.name;
    let inner = node + "-"@ + intf.name;
    let ns = "ns-"@ + node;
    pair_is_made(links, node, intf);
    end_is_moved(links, node, intf);
    end_is_up(links, node, intf);
    pair_is_up(links, node, intf);
    pair_is_joined(links, node, intf);
    mtu_is_set(links, node, intf);
    address_is_set(links, node, intf);
    runtime_holds_interface(
        plans,
        spec,
        hp,
        k,
        x,
        "\nip link add "@ + outer + " type veth peer name "@ + inner + "\n"@,
    );
    runtime_holds_interface(
        plans,
        spec,
        hp,
        k,
        x,
        "\nip link set "@ + inner + " netns "@ + ns + "\n"@,
    );
    runtime_holds_interface(
        plans,
        spec,
        hp,
        k,
        x,
        "\nip netns exec "@ + ns + " ip link set "@ + inner + " up\n"@,
    );
    runtime_holds_interface(plans, spec, hp, k, x, "\nip link set "@ + outer + " up\n"@);
    runtime_holds_interface(
        plans,
        spec,
        hp,
        k,
        x,
        "\nip link set "@ + outer + " master "@ + bridge + "\n"@,
    );
    runtime_holds_interface(plans, spec, hp, k, x, mtu_lines(node, intf));
    runtime_holds_interface(plans, spec, hp, k, x, address_lines(node, intf));
}

proof fn cleanup_holds_vlan(links: Seq<VlanLink>, l: int, t: Seq<char>)
    requires
        0 <= l < links.len(),
        crate::text::holds(vlan_cleanup_text(links[l]), t),
    ensures
        crate::text::holds(vlan_cleanup_section(links), t),
    decreases links.len(),
{
    let front = links.drop_last();
    if l < front.len() {
        assert(front[l] == links[l]);
        cleanup_holds_vlan(front, l, t);
    }
    crate::text::holds_in_a_part(vlan_cleanup_section(front), vlan_cleanup_text(links.last()), t);
}

proof fn cleanup_holds_device(devices: Seq<VxlanDevice>, d: int, t: Seq<char>)
    requires
        0 <= d < devices.len(),
        crate::text::holds(vxlan_cleanup_text(devices[d]), t),
    ensures
        crate::text::holds(vxlan_cleanup_section(devices), t),
    decreases devices.len(),
{
    let front = devices.drop_last();
    if d < front.len() {
        assert(front[d] == devices[d]);
        cleanup_holds_device(front, d, t);
    }
    crate::text::holds_in_a_part(
        vxlan_cleanup_section(front),
        vxlan_cleanup_text(devices.last()),
        t,
    );
}

/// The cleanup of a host deletes what its setup made for each link of its plan: the VLAN on the
/// device of the link and the bridge of the VLAN.
pub proof fn cleanup_deletes_the_vlans(hp: HostPlan, l: int)
    requires
        0 <= l < hp.vlan_links@.len(),
    ensures
        ({
            let id = crate::text::dec(hp.vlan_links@[l].vlan_id as nat);
            let sub = hp.vlan_links@[l].vxlan_dev@ + "."@ + id;
            let script = cleanup_script(hp);
            &&& crate::text::holds(script, "\nip link del "@ + sub + " 2>/dev/null || true\n"@)
            &&& crate::text::holds(
                script,
                "\nip link del "@ + ("br-vw-"@ + id) + " 2>/dev/null || true\n"@,
            )
        }),
{
    let vl = hp.vlan_links@[l];
    let a = "\nip link del "@ + subinterface(vl.vxlan_dev@, vl.vlan_id)
        + " 2>/dev/null || true\n"@;
    let b = "\nip link del "@ + vlan_bridge(vl.vlan_id) + " 2>/dev/null || true\n"@;
    let head = "#!/usr/bin/env bash\nset -euo pipefail\n\necho \"[host:"@ + hp.host@
        + "] cleaning VLANs and VXLAN devices\"\n"@;
    let vlans = vlan_cleanup_section(hp.vlan_links@);
    let devices = vxlan_cleanup_section(hp.vxlan_devices@);
    vlan_is_deleted(vl);
    bridge_is_deleted(vl);
    cleanup_holds_vlan(hp.vlan_links@, l, a);
    cleanup_holds_vlan(hp.vlan_links@, l, b);
    crate::text::holds_in_a_part(head, vlans, a);
    crate::text::holds_in_a_part(head, vlans, b);
    crate::text::holds_in_a_part(head + vlans, devices, a);
    crate::text::holds_in_a_part(head + vlans, devices, b);
}

/// The cleanup of a host deletes each device of its plan.
pub proof fn cleanup_deletes_the_devices(hp: HostPlan, d: int)
    requires
        0 <= d < hp.vxlan_devices@.len(),
    ensures
        crate::text::holds(
            cleanup_script(hp),
            "\nip link del "@ + hp.vxlan_devices@[d].name@ + " 2>/dev/null || true\n"@,
        ),
{
    let t = "\nip link del "@ + hp.vxlan_devices@[d].name@ + " 2>/dev/null || true\n"@;
    device_is_deleted(hp.vxlan_devices@[d]);
    cleanup_holds_device(hp.vxlan_devices@, d, t);
    crate::text::holds_in_a_part(
        "#!/usr/bin/env bash\nset -euo pipefail\n\necho \"[host:"@ + hp.host@
            + "] cleaning VLANs and VXLAN devices\"\n"@ + vlan_cleanup_section(hp.vlan_links@),
        vxlan_cleanup_section(hp.vxlan_devices@),
        t,
    );
}

/// An interface is on the VLAN of the last link that ends there.
pub proof fn ends_are_on_the_vlan_of_their_link(
    links: Seq<VlanView>,
    end: (Seq<char>, Seq<char>),
    j: int,
    n: nat,
)
    requires
        0 <= j < n <= links.len(),
        links[j].src == end || links[j].dst == end,
        forall|i: int| j < i < n ==> (#[trigger] links[i]).src != end && links[i].dst != end,
    ensures
        end_vlan(links, end, n) == Some(links[j].vlan_id),
    decreases n,
{
    if j < n - 1 {
        assert(links[n - 1].src != end);
        ends_are_on_the_vlan_of_their_link(links, end, j, (n - 1) as nat);
    }
}

/// Where no link ends, there is no VLAN and no address.
pub proof fn other_interfaces_have_no_vlan(
    links: Seq<VlanView>,
    subnets: Map<u16, String>,
    end: (Seq<char>, Seq<char>),
    n: nat,
)
    requires
        n <= links.len(),
        forall|i: int| 0 <= i < n ==> (#[trigger] links[i]).src != end && links[i].dst != end,
    ensures
        end_vlan(links, end, n) is None,
        end_address(links, subnets, end, n) is None,
    decreases n,
{
    if n > 0 {
        assert(links[n - 1].src != end);
        other_interfaces_have_no_vlan(links, subnets, end, (n - 1) as nat);
    }
}

/// The two ends of a link get the two addresses of its VLAN, one each, with the gateway of the
/// VLAN.
pub proof fn ends_share_the_addresses_of_their_vlan(
    links: Seq<VlanView>,
    subnets: Map<u16, String>,
    end: (Seq<char>, Seq<char>),
    j: int,
    n: nat,
)
    requires
        0 <= j < n <= links.len(),
        links[j].src == end || links[j].dst == end,
        links[j].src != links[j].dst,
        forall|i: int|
            0 <= i < n && i != j ==> ((#[trigger] links[i]).src != end && links[i].dst != end)
                || (i > j && links[i].vlan_id == links[j].vlan_id && links[i].src == links[j].src
                && links[i].dst == links[j].dst),
    ensures
        ({
            let (first, second, gw) = vlan_addresses(subnets, links[j].vlan_id);
            &&& links[j].src == end ==> end_address(links, subnets, end, n) == Some(
                first + "|gw:"@ + gw,
            )
            &&& links[j].dst == end ==> end_address(links, subnets, end, n) == Some(
                second + "|gw:"@ + gw,
            )
        }),
    decreases n,
{
    if j < n - 1 {
        ends_share_the_addresses_of_their_vlan(links, subnets, end, j, (n - 1) as nat);
        if links[n - 1].src == end || links[n - 1].dst == end {
            assert(same_link(links[j], links[n - 1]));
        }
    } else {
        assert forall|i: int| 0 <= i < n - 1 implies (#[trigger] links[i]).src != end
            && links[i].dst != end by {}
        other_interfaces_have_no_vlan(links, subnets, end, (n - 1) as nat);
        if repeated(links, n - 1) {
            let i = choose|i: int| 0 <= i < n - 1 && same_link(#[trigger] links[i], links[n - 1]);
            assert(links[i].src != end);
        }
    }
}

/// An address that comes with a gateway is set on the interface, and the gateway becomes the
/// default route of the node.
pub proof fn addresses_come_with_a_route(
    ns: Seq<char>,
    inner: Seq<char>,
    addr: Seq<char>,
    gw: Seq<char>,
)
    requires
        !crate::text::has_char(addr, '|'),
        !crate::text::has_char(gw, '|'),
    ensures
        address_text(ns, inner, addr + "|gw:"@ + gw) == "ip netns exec "@ + ns + " ip addr add "@
            + addr + " dev "@ + inner + "\n"@ + "ip netns exec "@ + ns
            + " ip route add default via "@ + gw + "\n"@,
{
    let whole = addr + "|gw:"@ + gw;
    reveal_strlit("|gw:");
    crate::text::find_from_is_first(whole, "|gw:"@, 0);
    crate::text::find_from_is_first(gw, "|gw:"@, 0);
    assert(whole.subrange(addr.len() as int, addr.len() as int + 4) =~= "|gw:"@);
    assert(crate::text::occurs_at(whole, "|gw:"@, addr.len() as int));
    let k = crate::text::find_from(whole, "|gw:"@, 0)->0;
    if k < addr.len() {
        assert(whole.subrange(k, k + 4)[0] == '|');
        assert(addr[k] == '|');
    }
    assert(whole.take(k) =~= addr);
    assert(whole.skip(k + 4) =~= gw);
    if let Some(m) = crate::text::find_from(gw, "|gw:"@, 0) {
        assert(gw.subrange(m, m + 4)[0] == '|');
        assert(gw[m] == '|');
    }
}

/// A VLAN without a given subnet has two addresses of a network of its own, of which the first is
/// the gateway; VLANs whose numbers are less than two hundred apart have different ones.
pub proof fn vlans_have_their_own_addresses(subnets: Map<u16, String>, a: u16, b: u16)
    requires
        !subnets.dom().contains(a),
        !subnets.dom().contains(b),
        a < b < a + 200,
    ensures
        exists|x: nat|
            50 <= x < 250 && vlan_addresses(subnets, a) == (
                "192.168."@ + #[trigger] crate::text::dec(x) + ".1/30"@,
                "192.168."@ + crate::text::dec(x) + ".2/30"@,
                "192.168."@ + crate::text::dec(x) + ".1"@,
            ),
        vlan_addresses(subnets, a).0 != vlan_addresses(subnets, b).0,
        vlan_addresses(subnets, a).1 != vlan_addresses(subnets, b).1,
{
    let x = (50 + a % 200) as nat;
    let y = (50 + b % 200) as nat;
    assert(x != y);
    let dx = crate::text::dec(x);
    let dy = crate::text::dec(y);
    crate::numerals::reading_a_numeral(x);
    crate::numerals::reading_a_numeral(y);
    let h = "192.168."@;
    if vlan_addresses(subnets, a).0 == vlan_addresses(subnets, b).0 {
        crate::text::middles_are_determined(h, dx, dy, ".1/30"@);
    }
    if vlan_addresses(subnets, a).1 == vlan_addresses(subnets, b).1 {
        crate::text::middles_are_determined(h, dx, dy, ".2/30"@);
    }
}

/// A node has the interfaces that it declares and those that links end at, and no others.
pub proof fn nodes_have_their_interfaces(
    spec: OverlaySpec,
    links: Seq<VlanView>,
    subnets: Map<u16, String>,
    node: OverlayNode,
    name: Seq<char>,
)
    ensures
        has_interface(node_interfaces(spec, links, subnets, node), name) <==> (exists|i: int|
            0 <= i < node.interfaces@.len() && (#[trigger] node.interfaces@[i]).name@ == name) || (
        exists|i: int|
            0 <= i < spec.links@.len() && is_end_of(
                #[trigger] spec.links@[i],
                node.name@,
                name,
            )),
{
    let declared = declared_interfaces(node.interfaces@);
    let linked = linked_interfaces(spec, links, subnets, node.name@, spec.links@.len());
    let all = declared + linked;
    interfaces_are_merged_by_name(all, name);
    ends_are_listed(spec, links, subnets, node.name@, name, spec.links@.len());
    if has_interface(all, name) {
        let i = choose|i: int| 0 <= i < all.len() && #[trigger] all[i].name == name;
        if i < declared.len() {
            assert(node.interfaces@[i].name@ == name);
        } else {
            assert(linked[i - declared.len()].name == name);
        }
    }
    if exists|i: int|
        0 <= i < node.interfaces@.len() && (#[trigger] node.interfaces@[i]).name@ == name {
        let i = choose|i: int|
            0 <= i < node.interfaces@.len() && (#[trigger] node.interfaces@[i]).name@ == name;
        assert(all[i].name == name);
    }
    if has_interface(linked, name) {
        let i = choose|i: int| 0 <= i < linked.len() && #[trigger] linked[i].name == name;
        assert(all[declared.len() + i].name == name);
    }
}

/// Whether a link ends at an interface of a node.
pub open spec fn is_end_of(
    link: crate::big_virtual_wall::overlay::OverlayLink,
    node: Seq<char>,
    name: Seq<char>,
) -> bool {
    ||| link.src.node@ == node && link.src.intf@ == name
    ||| link.dst.node@ == node && link.dst.intf@ == name
}

proof fn ends_are_listed(
    spec: OverlaySpec,
    links: Seq<VlanView>,
    subnets: Map<u16, String>,
    node: Seq<char>,
    name: Seq<char>,
    n: nat,
)
    requires
        n <= spec.links@.len(),
    ensures
        has_interface(linked_interfaces(spec, links, subnets, node, n), name) <==> exists|i: int|
            0 <= i < n && is_end_of(#[trigger] spec.links@[i], node, name),
    decreases n,
{
    if n > 0 {
        let before = linked_interfaces(spec, links, subnets, node, (n - 1) as nat);
        let after = linked_interfaces(spec, links, subnets, node, n);
        let link = spec.links@[n - 1];
        ends_are_listed(spec, links, subnets, node, name, (n - 1) as nat);
        if has_interface(before, name) {
            let i = choose|i: int| 0 <= i < before.len() && #[trigger] before[i].name == name;
            assert(after[i] == before[i]);
            let j = choose|j: int|
                0 <= j < n - 1 && is_end_of(#[trigger] spec.links@[j], node, name);
            assert(is_end_of(spec.links@[j], node, name));
        }
        if link.src.node@ == node {
            assert(after[before.len() as int].name == link.src.intf@);
        }
        if link.dst.node@ == node {
            assert(after[after.len() - 1].name == link.dst.intf@);
        }
        if has_interface(after, name) {
            let i = choose|i: int| 0 <= i < after.len() && #[trigger] after[i].name == name;
            if i < before.len() {
                assert(before[i].name == name);
            } else {
                assert(is_end_of(spec.links@[n - 1], node, name));
            }
        }
    }
}

/// A VLAN with a subnet of two hundred and fifty-six addresses has the first two of them, and the
/// last host as its gateway.
pub proof fn usual_subnets_are_used(subnets: Map<u16, String>, vlan: u16, prefix: Seq<char>)
    requires
        subnets.dom().contains(vlan),
        subnets[vlan]@ == prefix + ".0/24"@,
    ensures
        vlan_addresses(subnets, vlan) == (
            prefix + ".1/24"@,
            prefix + ".2/24"@,
            prefix + ".254"@,
        ),
{
    let s = subnets[vlan]@;
    let tail = ".0/24"@;
    assert(s.subrange(s.len() - tail.len(), s.len() as int) =~= tail);
    assert(s.take(s.len() - tail.len()) =~= prefix);
}

/// A VLAN with another subnet has the first two hosts of that, with its length.
pub proof fn other_subnets_are_used(subnets: Map<u16, String>, vlan: u16)
    requires
        subnets.dom().contains(vlan),
        !crate::text::ends(subnets[vlan]@, ".0/24"@),
        crate::virtual_wall::allocator::host_pair(subnets[vlan]@) is Some,
    ensures
        ({
            let cidr = subnets[vlan]@;
            let (a, b, gw) = crate::virtual_wall::allocator::host_pair(cidr)->0;
            let length = "/"@ + crate::text::dec(
                crate::virtual_wall::allocator::cidr_prefix(cidr)->0,
            );
            let (first, second, gateway) = vlan_addresses(subnets, vlan);
            &&& first == crate::ipv4::dotted(crate::virtual_wall::allocator::octets_of(a)) + length
            &&& second == crate::ipv4::dotted(crate::virtual_wall::allocator::octets_of(b)) + length
            &&& gateway == crate::ipv4::dotted(crate::virtual_wall::allocator::octets_of(gw))
        }),
{
    let cidr = subnets[vlan]@;
    let (a, b, gw) = crate::virtual_wall::allocator::host_pair(cidr)->0;
    let n = crate::text::dec(crate::virtual_wall::allocator::cidr_prefix(cidr)->0);
    crate::text::grouped_together(
        crate::ipv4::dotted(crate::virtual_wall::allocator::octets_of(a)),
        "/"@,
        n,
    );
    crate::text::grouped_together(
        crate::ipv4::dotted(crate::virtual_wall::allocator::octets_of(b)),
        "/"@,
        n,
    );
}

/// An interface at the end of a link has the address of that end, and the MTU of the tunnels with
/// it.
pub proof fn linked_interfaces_have_the_mtu_of_tunnels(
    links: Seq<VlanView>,
    subnets: Map<u16, String>,
    end: (Seq<char>, Seq<char>),
)
    ensures
        ({
            let intf = linked_interface(links, subnets, end);
            &&& intf.name == end.1
            &&& intf.addr == end_address(links, subnets, end, links.len())
            &&& intf.addr is Some ==> intf.mtu == Some(1450u32)
            &&& intf.addr is None ==> intf.mtu is None
        }),
{
}

/// Every end of a link at a node is among its interfaces, as the links say.
pub proof fn ends_of_links_are_interfaces(
    spec: OverlaySpec,
    links: Seq<VlanView>,
    subnets: Map<u16, String>,
    node: Seq<char>,
    n: nat,
    i: int,
)
    requires
        0 <= i < n <= spec.links@.len(),
    ensures
        spec.links@[i].src.node@ == node ==> linked_interfaces(
            spec,
            links,
            subnets,
            node,
            n,
        ).contains(linked_interface(links, subnets, (node, spec.links@[i].src.intf@))),
        spec.links@[i].dst.node@ == node ==> linked_interfaces(
            spec,
            links,
            subnets,
            node,
            n,
        ).contains(linked_interface(links, subnets, (node, spec.links@[i].dst.intf@))),
    decreases n,
{
    let before = linked_interfaces(spec, links, subnets, node, (n - 1) as nat);
    let all = linked_interfaces(spec, links, subnets, node, n);
    let a = linked_interface(links, subnets, (node, spec.links@[i].src.intf@));
    let b = linked_interface(links, subnets, (node, spec.links@[i].dst.intf@));
    if i < n - 1 {
        ends_of_links_are_interfaces(spec, links, subnets, node, (n - 1) as nat, i);
        if before.contains(a) {
            let k = choose|k: int| 0 <= k < before.len() && before[k] == a;
            assert(all[k] == a);
        }
        if before.contains(b) {
            let k = choose|k: int| 0 <= k < before.len() && before[k] == b;
            assert(all[k] == b);
        }
    } else {
        if spec.links@[i].src.node@ == node {
            assert(all[before.len() as int] == a);
        }
        if spec.links@[i].dst.node@ == node {
            assert(all[all.len() - 1] == b);
        }
    }
}

/// Interfaces that are declared keep their MTU and have no address of their own.
pub proof fn declared_interfaces_keep_their_mtu(interfaces: Seq<NodeInterface>, i: int)
    requires
        0 <= i < interfaces.len(),
    ensures
        declared_interfaces(interfaces).len() == interfaces.len(),
        declared_interfaces(interfaces)[i].name == interfaces[i].name@,
        declared_interfaces(interfaces)[i].mtu == interfaces[i].mtu,
        declared_interfaces(interfaces)[i].addr is None,
{
}

} // verus!
