//! Planning: VLANs for the links between hosts, and what each host has to set up.

use vstd::prelude::*;

use crate::big_virtual_wall::overlay::{
    default_bridge, default_vxlan_dev, Endpoint, Impairment, OverlayHost, OverlayLink, OverlayNode,
    OverlaySpec, OverlayTunnel,
};
use crate::sorted_map::SortedMap;
use crate::string_map::StringMap;
use crate::text::same;

verus! {

/// What one host sets up.
#[derive(Debug, Clone)]
pub struct HostPlan {
    pub host: String,
    pub bridge: String,
    pub vxlan_devices: Vec<VxlanDevice>,
    pub vlan_links: Vec<VlanLink>,
}

/// A VXLAN device towards a peer host.
#[derive(Debug, Clone)]
pub struct VxlanDevice {
    pub name: String,
    pub vni: u32,
    pub local_underlay: String,
    pub remote_underlay: String,
    pub peer: String,
}

/// A link that crosses hosts, carried by a VLAN on a VXLAN device.
#[derive(Debug, Clone)]
pub struct VlanLink {
    pub vlan_id: u16,
    pub vxlan_dev: String,
    pub endpoints: [Endpoint; 2],
    pub impairment: Option<Impairment>,
}

/// The plans of all hosts, in ascending order of their names.
#[derive(Debug, Clone)]
pub struct PlanResult {
    pub host_plans: Vec<HostPlan>,
}

/// What a [`VxlanDevice`] says.
#[verifier::ext_equal]
pub struct VxlanView {
    pub name: Seq<char>,
    pub vni: u32,
    pub local_underlay: Seq<char>,
    pub remote_underlay: Seq<char>,
    pub peer: Seq<char>,
}

/// What a [`VlanLink`] says; an end is a node with an interface.
#[verifier::ext_equal]
pub struct VlanView {
    pub vlan_id: u16,
    pub vxlan_dev: Seq<char>,
    pub src: (Seq<char>, Seq<char>),
    pub dst: (Seq<char>, Seq<char>),
    pub impairment: Option<Impairment>,
}

/// What a [`HostPlan`] says.
#[verifier::ext_equal]
pub struct HostPlanView {
    pub host: Seq<char>,
    pub bridge: Seq<char>,
    pub vxlan_devices: Seq<VxlanView>,
    pub vlan_links: Seq<VlanView>,
}

impl View for VxlanDevice {
    type V = VxlanView;

    open spec fn view(&self) -> VxlanView {
        VxlanView {
            name: self.name@,
            vni: self.vni,
            local_underlay: self.local_underlay@,
            remote_underlay: self.remote_underlay@,
            peer: self.peer@,
        }
    }
}

impl View for VlanLink {
    type V = VlanView;

    open spec fn view(&self) -> VlanView {
        VlanView {
            vlan_id: self.vlan_id,
            vxlan_dev: self.vxlan_dev@,
            src: (self.endpoints@[0].node@, self.endpoints@[0].intf@),
            dst: (self.endpoints@[1].node@, self.endpoints@[1].intf@),
            impairment: self.impairment,
        }
    }
}

impl View for HostPlan {
    type V = HostPlanView;

    open spec fn view(&self) -> HostPlanView {
        HostPlanView {
            host: self.host@,
            bridge: self.bridge@,
            vxlan_devices: Seq::new(
                self.vxlan_devices@.len(),
                |i: int| self.vxlan_devices@[i]@,
            ),
            vlan_links: Seq::new(self.vlan_links@.len(), |i: int| self.vlan_links@[i]@),
        }
    }
}

/// The last host of a name.
pub open spec fn host_named(hosts: Seq<OverlayHost>, name: Seq<char>) -> Option<OverlayHost>
    decreases hosts.len(),
{
    if hosts.len() == 0 {
        None
    } else if hosts.last().name@ == name {
        Some(hosts.last())
    } else {
        host_named(hosts.drop_last(), name)
    }
}

/// The last node of a name.
pub open spec fn node_named(nodes: Seq<OverlayNode>, name: Seq<char>) -> Option<OverlayNode>
    decreases nodes.len(),
{
    if nodes.len() == 0 {
        None
    } else if nodes.last().name@ == name {
        Some(nodes.last())
    } else {
        node_named(nodes.drop_last(), name)
    }
}

/// The last tunnel from one host to another.
pub open spec fn tunnel_between(
    tunnels: Seq<OverlayTunnel>,
    local: Seq<char>,
    remote: Seq<char>,
) -> Option<OverlayTunnel>
    decreases tunnels.len(),
{
    if tunnels.len() == 0 {
        None
    } else if tunnels.last().local_host@ == local && tunnels.last().remote_host@ == remote {
        Some(tunnels.last())
    } else {
        tunnel_between(tunnels.drop_last(), local, remote)
    }
}

/// The host that a node is placed on.
pub open spec fn placement(node: OverlayNode) -> Seq<char> {
    if node.host@ == "auto"@ {
        node.name@
    } else {
        node.host@
    }
}

/// The host of the node of a name; empty when there is no such node.
pub open spec fn host_of(spec: OverlaySpec, node: Seq<char>) -> Seq<char> {
    match node_named(spec.nodes@, node) {
        Some(n) => placement(n),
        None => Seq::empty(),
    }
}

/// How many of the first `n` links have no VLAN of their own.
pub open spec fn unassigned(links: Seq<OverlayLink>, n: nat) -> nat
    decreases n,
{
    if n == 0 {
        0
    } else {
        unassigned(links, (n - 1) as nat) + if links[n - 1].vlan_id is None {
            1nat
        } else {
            0
        }
    }
}

/// Whether the assigned VLAN ids, and the one after them, can be represented.
pub open spec fn vlan_ids_fit(spec: OverlaySpec) -> bool {
    spec.vlan_start + unassigned(spec.links@, spec.links@.len()) <= u16::MAX
}

/// The VLAN of a link: its own, or the next one from the start of the range.
pub open spec fn vlan_of(spec: OverlaySpec, i: int) -> u16 {
    match spec.links@[i].vlan_id {
        Some(id) => id,
        None => (spec.vlan_start + unassigned(spec.links@, i as nat)) as u16,
    }
}

/// The host of the source of a link.
pub open spec fn src_host(spec: OverlaySpec, i: int) -> Seq<char> {
    host_of(spec, spec.links@[i].src.node@)
}

/// The host of the destination of a link.
pub open spec fn dst_host(spec: OverlaySpec, i: int) -> Seq<char> {
    host_of(spec, spec.links@[i].dst.node@)
}

/// The underlay of a host: its own, else the mapped one, else none.
pub open spec fn underlay_of(
    spec: OverlaySpec,
    underlay: Map<Seq<char>, String>,
    host: Seq<char>,
) -> Seq<char> {
    let mapped = if underlay.dom().contains(host) {
        underlay[host]@
    } else {
        Seq::empty()
    };
    match host_named(spec.hosts@, host) {
        Some(h) => match h.underlay {
            Some(own) => own@,
            None => mapped,
        },
        None => mapped,
    }
}

/// The device of a declared tunnel, as seen from the host that it is declared for.
pub open spec fn tunnel_device(t: OverlayTunnel) -> VxlanView {
    VxlanView {
        name: t.dev@,
        vni: t.vni,
        local_underlay: t.local_underlay@,
        remote_underlay: t.remote_underlay@,
        peer: t.remote_host@,
    }
}

/// The device that carries a link, as seen from the host of its source. A tunnel that is declared
/// for the host of the destination is turned around: every host binds its own underlay.
pub open spec fn carrier(
    spec: OverlaySpec,
    underlay: Map<Seq<char>, String>,
    i: int,
) -> VxlanView {
    let a = src_host(spec, i);
    let b = dst_host(spec, i);
    match tunnel_between(spec.tunnels@, a, b) {
        Some(t) => VxlanView { peer: b, ..tunnel_device(t) },
        None => match tunnel_between(spec.tunnels@, b, a) {
            Some(t) => reversed(tunnel_device(t), b),
            None => VxlanView {
                name: "vxlan-vw"@,
                vni: 2000,
                local_underlay: underlay_of(spec, underlay, a),
                remote_underlay: underlay_of(spec, underlay, b),
                peer: b,
            },
        },
    }
}

/// The same device as seen from the other end.
pub open spec fn reversed(d: VxlanView, peer: Seq<char>) -> VxlanView {
    VxlanView {
        local_underlay: d.remote_underlay,
        remote_underlay: d.local_underlay,
        peer,
        ..d
    }
}

/// A link as it stands in the plans of its two hosts.
pub open spec fn planned_link(
    spec: OverlaySpec,
    underlay: Map<Seq<char>, String>,
    i: int,
) -> VlanView {
    let link = spec.links@[i];
    VlanView {
        vlan_id: vlan_of(spec, i),
        vxlan_dev: carrier(spec, underlay, i).name,
        src: (link.src.node@, link.src.intf@),
        dst: (link.dst.node@, link.dst.intf@),
        impairment: link.impairment,
    }
}

/// The plan of a host before any link.
pub open spec fn bare_plan(spec: OverlaySpec, host: Seq<char>) -> HostPlanView {
    HostPlanView {
        host,
        bridge: match host_named(spec.hosts@, host) {
            Some(h) => h.bridge@,
            None => "br-vw"@,
        },
        vxlan_devices: Seq::empty(),
        vlan_links: Seq::empty(),
    }
}

/// Whether one of the devices has a name.
pub open spec fn has_device(devices: Seq<VxlanView>, name: Seq<char>) -> bool {
    exists|i: int| 0 <= i < devices.len() && #[trigger] devices[i].name == name
}

/// A plan with a link added, and its device unless one of that name is there.
pub open spec fn with_link(p: HostPlanView, device: VxlanView, link: VlanView) -> HostPlanView {
    HostPlanView {
        vxlan_devices: if has_device(p.vxlan_devices, device.name) {
            p.vxlan_devices
        } else {
            p.vxlan_devices.push(device)
        },
        vlan_links: p.vlan_links.push(link),
        ..p
    }
}

/// The plans after a link was added to the plan of a host.
pub open spec fn recorded(
    spec: OverlaySpec,
    plans: Map<Seq<char>, HostPlanView>,
    host: Seq<char>,
    device: VxlanView,
    link: VlanView,
) -> Map<Seq<char>, HostPlanView> {
    let plan = if plans.dom().contains(host) {
        plans[host]
    } else {
        bare_plan(spec, host)
    };
    plans.insert(host, with_link(plan, device, link))
}

/// The plans, by host, after the first `n` links.
pub open spec fn plans_after(
    spec: OverlaySpec,
    underlay: Map<Seq<char>, String>,
    n: nat,
) -> Map<Seq<char>, HostPlanView>
    decreases n,
{
    if n == 0 {
        Map::new(
            |h: Seq<char>| crate::big_virtual_wall::overlay::has_host(spec.hosts@, h),
            |h: Seq<char>| bare_plan(spec, h),
        )
    } else {
        let before = plans_after(spec, underlay, (n - 1) as nat);
        let a = src_host(spec, n - 1);
        let b = dst_host(spec, n - 1);
        if a == b {
            before
        } else {
            let device = carrier(spec, underlay, n - 1);
            let link = planned_link(spec, underlay, n - 1);
            recorded(
                spec,
                recorded(spec, before, a, device, link),
                b,
                reversed(device, a),
                link,
            )
        }
    }
}

/// Whether plans list a map of plans in ascending order of the hosts.
pub open spec fn lists_plans(
    plans: Seq<HostPlan>,
    expected: Map<Seq<char>, HostPlanView>,
) -> bool {
    &&& forall|i: int, j: int|
        0 <= i < j < plans.len() ==> crate::text::less(
            #[trigger] plans[i].host@,
            #[trigger] plans[j].host@,
        )
    &&& forall|i: int|
        0 <= i < plans.len() ==> expected.dom().contains(#[trigger] plans[i].host@)
            && expected[plans[i].host@] == plans[i]@
    &&& forall|h: Seq<char>|
        #[trigger] expected.dom().contains(h) ==> exists|i: int|
            0 <= i < plans.len() && #[trigger] plans[i].host@ == h
}

/// What the values of a map of plans say.
pub open spec fn plan_views(m: Map<Seq<char>, HostPlan>) -> Map<Seq<char>, HostPlanView> {
    Map::new(|h: Seq<char>| m.dom().contains(h), |h: Seq<char>| m[h]@)
}

/// A host is planned under its own name.
pub proof fn plan_names_its_host(
    spec: OverlaySpec,
    underlay: Map<Seq<char>, String>,
    n: nat,
    host: Seq<char>,
)
    requires
        plans_after(spec, underlay, n).dom().contains(host),
    ensures
        plans_after(spec, underlay, n)[host].host == host,
    decreases n,
{
    if n > 0 {
        let before = plans_after(spec, underlay, (n - 1) as nat);
        if before.dom().contains(host) {
            plan_names_its_host(spec, underlay, (n - 1) as nat, host);
        }
    }
}

fn find_host<'a>(hosts: &'a Vec<OverlayHost>, name: &str) -> (r: Option<&'a OverlayHost>)
    ensures
        match r {
            Some(h) => host_named(hosts@, name@) == Some(*h),
            None => host_named(hosts@, name@) is None,
        },
{
    let mut i: usize = hosts.len();
    assert(hosts@.take(hosts@.len() as int) =~= hosts@);
    while i > 0
        invariant
            i <= hosts.len(),
            host_named(hosts@, name@) == host_named(hosts@.take(i as int), name@),
        decreases i,
    {
        i -= 1;
        assert(hosts@.take(i + 1).drop_last() =~= hosts@.take(i as int));
        if same(hosts[i].name.as_str(), name) {
            return Some(&hosts[i]);
        }
    }
    None
}

fn find_node<'a>(nodes: &'a Vec<OverlayNode>, name: &str) -> (r: Option<&'a OverlayNode>)
    ensures
        match r {
            Some(n) => node_named(nodes@, name@) == Some(*n),
            None => node_named(nodes@, name@) is None,
        },
{
    let mut i: usize = nodes.len();
    assert(nodes@.take(nodes@.len() as int) =~= nodes@);
    while i > 0
        invariant
            i <= nodes.len(),
            node_named(nodes@, name@) == node_named(nodes@.take(i as int), name@),
        decreases i,
    {
        i -= 1;
        assert(nodes@.take(i + 1).drop_last() =~= nodes@.take(i as int));
        if same(nodes[i].name.as_str(), name) {
            return Some(&nodes[i]);
        }
    }
    None
}

fn find_tunnel<'a>(tunnels: &'a Vec<OverlayTunnel>, local: &str, remote: &str) -> (r: Option<
    &'a OverlayTunnel,
>)
    ensures
        match r {
            Some(t) => tunnel_between(tunnels@, local@, remote@) == Some(*t),
            None => tunnel_between(tunnels@, local@, remote@) is None,
        },
{
    let mut i: usize = tunnels.len();
    assert(tunnels@.take(tunnels@.len() as int) =~= tunnels@);
    while i > 0
        invariant
            i <= tunnels.len(),
            tunnel_between(tunnels@, local@, remote@) == tunnel_between(
                tunnels@.take(i as int),
                local@,
                remote@,
            ),
        decreases i,
    {
        i -= 1;
        assert(tunnels@.take(i + 1).drop_last() =~= tunnels@.take(i as int));
        if same(tunnels[i].local_host.as_str(), local) && same(
            tunnels[i].remote_host.as_str(),
            remote,
        ) {
            return Some(&tunnels[i]);
        }
    }
    None
}

/// The host that a node is placed on.
pub fn placed_on(node: &OverlayNode) -> (r: String)
    ensures
        r@ == placement(*node),
{
    if same(node.host.as_str(), "auto") {
        node.name.clone()
    } else {
        node.host.clone()
    }
}

fn host_of_node(spec: &OverlaySpec, node: &str) -> (r: String)
    ensures
        r@ == host_of(*spec, node@),
{
    match find_node(&spec.nodes, node) {
        Some(n) => placed_on(n),
        None => String::new(),
    }
}

/// The underlay of a host: its own, else the mapped one, else an empty string.
pub fn resolve_underlay(spec: &OverlaySpec, underlay: &StringMap<String>, host: &str) -> (r: String)
    ensures
        r@ == underlay_of(*spec, underlay@, host@),
{
    if let Some(h) = find_host(&spec.hosts, host) {
        if let Some(own) = &h.underlay {
            return own.clone();
        }
    }
    match underlay.get(host) {
        Some(mapped) => mapped.clone(),
        None => String::new(),
    }
}

fn new_plan(spec: &OverlaySpec, host: &str) -> (r: HostPlan)
    ensures
        r@ == bare_plan(*spec, host@),
{
    let bridge = match find_host(&spec.hosts, host) {
        Some(h) => h.bridge.clone(),
        None => default_bridge(),
    };
    let r = HostPlan {
        host: host.to_owned(),
        bridge,
        vxlan_devices: Vec::new(),
        vlan_links: Vec::new(),
    };
    assert(r@ =~= bare_plan(*spec, host@));
    r
}

fn names_device(devices: &Vec<VxlanDevice>, name: &str) -> (r: bool)
    ensures
        r == has_device(Seq::new(devices@.len(), |i: int| devices@[i]@), name@),
{
    let ghost views = Seq::new(devices@.len(), |i: int| devices@[i]@);
    let mut i: usize = 0;
    while i < devices.len()
        invariant
            i <= devices.len(),
            views == Seq::new(devices@.len(), |i: int| devices@[i]@),
            forall|j: int| 0 <= j < i ==> #[trigger] views[j].name != name@,
        decreases devices.len() - i,
    {
        if same(devices[i].name.as_str(), name) {
            assert(views[i as int].name == name@);
            return true;
        }
        i += 1;
    }
    false
}

fn record(
    spec: &OverlaySpec,
    plans: &mut SortedMap<HostPlan>,
    host: &str,
    device: VxlanDevice,
    link: VlanLink,
)
    ensures
        plan_views(final(plans)@) == recorded(*spec, plan_views(old(plans)@), host@, device@, link@),
{
    let ghost before = plans@;
    let mut plan = match plans.remove(host) {
        Some(plan) => plan,
        None => new_plan(spec, host),
    };
    let ghost start = plan@;
    assert(start == if plan_views(before).dom().contains(host@) {
        plan_views(before)[host@]
    } else {
        bare_plan(*spec, host@)
    });
    if !names_device(&plan.vxlan_devices, device.name.as_str()) {
        plan.vxlan_devices.push(device);
    }
    plan.vlan_links.push(link);
    assert(plan@ =~= with_link(start, device@, link@));
    plans.insert(host.to_owned(), plan);
    assert(plan_views(plans@) =~= recorded(*spec, plan_views(before), host@, device@, link@));
}

fn copy_impairment(impairment: &Option<Impairment>) -> (r: Option<Impairment>)
    ensures
        r == *impairment,
{
    match impairment {
        Some(i) => Some(i.clone()),
        None => None,
    }
}

fn make_link(link: &OverlayLink, vlan_id: u16, dev: &str) -> (r: VlanLink)
    ensures
        r@ == (VlanView {
            vlan_id,
            vxlan_dev: dev@,
            src: (link.src.node@, link.src.intf@),
            dst: (link.dst.node@, link.dst.intf@),
            impairment: link.impairment,
        }),
{
    VlanLink {
        vlan_id,
        vxlan_dev: dev.to_owned(),
        endpoints: [link.src.clone(), link.dst.clone()],
        impairment: copy_impairment(&link.impairment),
    }
}

fn make_carrier(spec: &OverlaySpec, underlay: &StringMap<String>, i: usize, a: &str, b: &str) -> (r:
    VxlanDevice)
    requires
        i < spec.links@.len(),
        a@ == src_host(*spec, i as int),
        b@ == dst_host(*spec, i as int),
    ensures
        r@ == carrier(*spec, underlay@, i as int),
{
    match find_tunnel(&spec.tunnels, a, b) {
        Some(t) => VxlanDevice {
            name: t.dev.clone(),
            vni: t.vni,
            local_underlay: t.local_underlay.clone(),
            remote_underlay: t.remote_underlay.clone(),
            peer: b.to_owned(),
        },
        None => match find_tunnel(&spec.tunnels, b, a) {
            Some(t) => VxlanDevice {
                name: t.dev.clone(),
                vni: t.vni,
                local_underlay: t.remote_underlay.clone(),
                remote_underlay: t.local_underlay.clone(),
                peer: b.to_owned(),
            },
            None => VxlanDevice {
                name: default_vxlan_dev(),
                vni: 2000,
                local_underlay: resolve_underlay(spec, underlay, a),
                remote_underlay: resolve_underlay(spec, underlay, b),
                peer: b.to_owned(),
            },
        },
    }
}

fn turn_around(d: &VxlanDevice, peer: &str) -> (r: VxlanDevice)
    ensures
        r@ == reversed(d@, peer@),
{
    VxlanDevice {
        name: d.name.clone(),
        vni: d.vni,
        local_underlay: d.remote_underlay.clone(),
        remote_underlay: d.local_underlay.clone(),
        peer: peer.to_owned(),
    }
}

proof fn unassigned_grows(links: Seq<OverlayLink>, m: nat, n: nat)
    requires
        m <= n,
    ensures
        unassigned(links, m) <= unassigned(links, n),
    decreases n,
{
    if m < n {
        unassigned_grows(links, m, (n - 1) as nat);
    }
}

/// Plans an overlay whose hosts name their own underlays.
pub fn plan_overlay(spec: &OverlaySpec) -> (r: PlanResult)
    requires
        vlan_ids_fit(*spec),
    ensures
        lists_plans(r.host_plans@, plans_after(*spec, Map::empty(), spec.links@.len())),
{
    plan_overlay_with_underlay(spec, &StringMap::new())
}

/// Assigns VLANs to the links and groups those that cross hosts by host. Every declared host has
/// a plan, with or without links.
pub fn plan_overlay_with_underlay(spec: &OverlaySpec, underlay: &StringMap<String>) -> (r:
    PlanResult)
    requires
        vlan_ids_fit(*spec),
    ensures
        lists_plans(r.host_plans@, plans_after(*spec, underlay@, spec.links@.len())),
{
    let mut plans: SortedMap<HostPlan> = SortedMap::new();
    let mut i: usize = 0;
    while i < spec.hosts.len()
        invariant
            i <= spec.hosts.len(),
            plan_views(plans@) == Map::new(
                |h: Seq<char>|
                    crate::big_virtual_wall::overlay::has_host(spec.hosts@.take(i as int), h),
                |h: Seq<char>| bare_plan(*spec, h),
            ),
        decreases spec.hosts.len() - i,
    {
        let name = spec.hosts[i].name.as_str();
        let ghost before = plans@;
        plans.insert(name.to_owned(), new_plan(spec, name));
        proof {
            let now = spec.hosts@.take(i + 1);
            let was = spec.hosts@.take(i as int);
            assert forall|h: Seq<char>|
                crate::big_virtual_wall::overlay::has_host(now, h) == (h == name@
                    || crate::big_virtual_wall::overlay::has_host(was, h)) by {
                assert(now[i as int].name@ == name@);
                if crate::big_virtual_wall::overlay::has_host(was, h) {
                    let k = choose|k: int| 0 <= k < was.len() && #[trigger] was[k].name@ == h;
                    assert(now[k].name@ == h);
                }
                if crate::big_virtual_wall::overlay::has_host(now, h) && h != name@ {
                    let k = choose|k: int| 0 <= k < now.len() && #[trigger] now[k].name@ == h;
                    assert(was[k].name@ == h);
                }
            }
            assert(plan_views(plans@) =~= plan_views(before).insert(
                name@,
                bare_plan(*spec, name@),
            ));
            assert(plan_views(plans@) =~= Map::new(
                |h: Seq<char>| crate::big_virtual_wall::overlay::has_host(now, h),
                |h: Seq<char>| bare_plan(*spec, h),
            ));
        }
        i += 1;
    }
    assert(spec.hosts@.take(spec.hosts@.len() as int) =~= spec.hosts@);
    assert(plan_views(plans@) =~= plans_after(*spec, underlay@, 0));

    let mut next_vlan: u16 = spec.vlan_start;
    let mut k: usize = 0;
    while k < spec.links.len()
        invariant
            k <= spec.links.len(),
            vlan_ids_fit(*spec),
            next_vlan == spec.vlan_start + unassigned(spec.links@, k as nat),
            plan_views(plans@) == plans_after(*spec, underlay@, k as nat),
        decreases spec.links.len() - k,
    {
        let link = &spec.links[k];
        let a = host_of_node(spec, link.src.node.as_str());
        let b = host_of_node(spec, link.dst.node.as_str());
        proof {
            unassigned_grows(spec.links@, (k + 1) as nat, spec.links@.len());
        }
        let vlan_id: u16 = match link.vlan_id {
            Some(id) => id,
            None => {
                let id: u16 = next_vlan;
                next_vlan = next_vlan + 1;
                id
            },
        };
        if !same(a.as_str(), b.as_str()) {
            let device = make_carrier(spec, underlay, k, a.as_str(), b.as_str());
            let back = turn_around(&device, a.as_str());
            let here = make_link(link, vlan_id, device.name.as_str());
            let there = make_link(link, vlan_id, device.name.as_str());
            record(spec, &mut plans, a.as_str(), device, here);
            record(spec, &mut plans, b.as_str(), back, there);
        }
        k += 1;
    }
    let ghost all = plans@;
    let ghost expected = plans_after(*spec, underlay@, spec.links@.len());
    let ghost entries = plans.list();
    let host_plans = plans.into_values();
    proof {
        crate::sorted_map::ascending_is_distinct(entries);
        assert forall|i: int| 0 <= i < host_plans@.len() implies expected.dom().contains(
            #[trigger] host_plans@[i].host@,
        ) && expected[host_plans@[i].host@] == host_plans@[i]@ && host_plans@[i].host@
            == entries[i].0@ by {
            crate::string_map::lookup_at(entries, i);
            assert(plan_views(all).dom().contains(entries[i].0@));
            plan_names_its_host(*spec, underlay@, spec.links@.len(), entries[i].0@);
            assert(plan_views(all)[entries[i].0@] == host_plans@[i]@);
        }
        assert forall|h: Seq<char>| #[trigger] expected.dom().contains(h) implies exists|i: int|
            0 <= i < host_plans@.len() && #[trigger] host_plans@[i].host@ == h by {
            assert(plan_views(all).dom().contains(h));
            if forall|i: int| 0 <= i < entries.len() ==> #[trigger] entries[i].0@ != h {
                crate::string_map::lookup_absent(entries, h);
            }
            let i = choose|i: int| 0 <= i < entries.len() && #[trigger] entries[i].0@ == h;
            assert(host_plans@[i].host@ == h);
        }
        assert forall|i: int, j: int| 0 <= i < j < host_plans@.len() implies crate::text::less(
            #[trigger] host_plans@[i].host@,
            #[trigger] host_plans@[j].host@,
        ) by {
            assert(host_plans@[i].host@ == entries[i].0@);
            assert(host_plans@[j].host@ == entries[j].0@);
        }
    }
    PlanResult { host_plans }
}

/// Whether a link crosses hosts and has an end on the given one.
pub open spec fn touches(spec: OverlaySpec, i: int, host: Seq<char>) -> bool {
    &&& src_host(spec, i) != dst_host(spec, i)
    &&& host == src_host(spec, i) || host == dst_host(spec, i)
}

/// Those of the first `n` links that cross hosts and have an end on the given one.
pub open spec fn host_links(
    spec: OverlaySpec,
    underlay: Map<Seq<char>, String>,
    host: Seq<char>,
    n: nat,
) -> Seq<VlanView>
    decreases n,
{
    if n == 0 {
        Seq::empty()
    } else {
        let before = host_links(spec, underlay, host, (n - 1) as nat);
        if touches(spec, n - 1, host) {
            before.push(planned_link(spec, underlay, n - 1))
        } else {
            before
        }
    }
}

/// The devices that carry those links, each name once, as seen from the host.
pub open spec fn host_devices(
    spec: OverlaySpec,
    underlay: Map<Seq<char>, String>,
    host: Seq<char>,
    n: nat,
) -> Seq<VxlanView>
    decreases n,
{
    if n == 0 {
        Seq::empty()
    } else {
        let before = host_devices(spec, underlay, host, (n - 1) as nat);
        let device = carrier(spec, underlay, n - 1);
        if touches(spec, n - 1, host) && !has_device(before, device.name) {
            before.push(
                if host == src_host(spec, n - 1) {
                    device
                } else {
                    reversed(device, src_host(spec, n - 1))
                },
            )
        } else {
            before
        }
    }
}

/// The plan of a host holds exactly the links that cross hosts and have an end there, with their
/// devices. A host is planned if it is declared or has such a link.
pub proof fn plan_of_host(
    spec: OverlaySpec,
    underlay: Map<Seq<char>, String>,
    n: nat,
    host: Seq<char>,
)
    ensures
        plans_after(spec, underlay, n).dom().contains(host) <==> (
        crate::big_virtual_wall::overlay::has_host(spec.hosts@, host) || exists|i: int|
            0 <= i < n && #[trigger] touches(spec, i, host)),
        plans_after(spec, underlay, n).dom().contains(host) ==> plans_after(
            spec,
            underlay,
            n,
        )[host] == (HostPlanView {
            vxlan_devices: host_devices(spec, underlay, host, n),
            vlan_links: host_links(spec, underlay, host, n),
            ..bare_plan(spec, host)
        }),
        !plans_after(spec, underlay, n).dom().contains(host) ==> host_devices(
            spec,
            underlay,
            host,
            n,
        ).len() == 0 && host_links(spec, underlay, host, n).len() == 0,
    decreases n,
{
    if n > 0 {
        plan_of_host(spec, underlay, (n - 1) as nat, host);
        let before = plans_after(spec, underlay, (n - 1) as nat);
        let now = plans_after(spec, underlay, n);
        if touches(spec, n - 1, host) {
            let start = if before.dom().contains(host) {
                before[host]
            } else {
                bare_plan(spec, host)
            };
            assert(start =~= HostPlanView {
                vxlan_devices: host_devices(spec, underlay, host, (n - 1) as nat),
                vlan_links: host_links(spec, underlay, host, (n - 1) as nat),
                ..bare_plan(spec, host)
            });
        } else {
            assert(now.dom().contains(host) == before.dom().contains(host));
            assert(forall|i: int| 0 <= i < n && #[trigger] touches(spec, i, host) ==> i < n - 1);
        }
    }
}

proof fn host_links_hold(
    spec: OverlaySpec,
    underlay: Map<Seq<char>, String>,
    host: Seq<char>,
    n: nat,
    i: int,
)
    requires
        0 <= i < n,
        touches(spec, i, host),
    ensures
        host_links(spec, underlay, host, n).contains(planned_link(spec, underlay, i)),
    decreases n,
{
    let before = host_links(spec, underlay, host, (n - 1) as nat);
    let now = host_links(spec, underlay, host, n);
    if i == n - 1 {
        assert(now.last() == planned_link(spec, underlay, i));
    } else {
        host_links_hold(spec, underlay, host, (n - 1) as nat, i);
        let k = before.index_of(planned_link(spec, underlay, i));
        assert(now[k] == before[k]);
    }
}

/// A link that crosses hosts stands in the plans of both, with the same VLAN and device name.
pub proof fn crossing_link_is_on_both_hosts(
    spec: OverlaySpec,
    underlay: Map<Seq<char>, String>,
    i: int,
)
    requires
        0 <= i < spec.links@.len(),
        src_host(spec, i) != dst_host(spec, i),
    ensures
        ({
            let plans = plans_after(spec, underlay, spec.links@.len());
            let link = planned_link(spec, underlay, i);
            &&& plans.dom().contains(src_host(spec, i))
            &&& plans.dom().contains(dst_host(spec, i))
            &&& plans[src_host(spec, i)].vlan_links.contains(link)
            &&& plans[dst_host(spec, i)].vlan_links.contains(link)
        }),
{
    let n = spec.links@.len();
    assert(touches(spec, i, src_host(spec, i)));
    assert(touches(spec, i, dst_host(spec, i)));
    plan_of_host(spec, underlay, n, src_host(spec, i));
    plan_of_host(spec, underlay, n, dst_host(spec, i));
    host_links_hold(spec, underlay, src_host(spec, i), n, i);
    host_links_hold(spec, underlay, dst_host(spec, i), n, i);
}

/// Links that get their VLANs from the range get different ones.
pub proof fn assigned_vlans_differ(spec: OverlaySpec, i: int, j: int)
    requires
        vlan_ids_fit(spec),
        0 <= i < j < spec.links@.len(),
        spec.links@[i].vlan_id is None,
        spec.links@[j].vlan_id is None,
    ensures
        vlan_of(spec, i) < vlan_of(spec, j),
{
    unassigned_grows(spec.links@, (i + 1) as nat, j as nat);
    unassigned_grows(spec.links@, j as nat, spec.links@.len());
}

/// A node is on the host that its last declaration names, or on a host of its own name where it
/// leaves the choice open.
pub proof fn nodes_are_on_their_hosts(spec: OverlaySpec, k: int)
    requires
        0 <= k < spec.nodes@.len(),
        forall|j: int|
            k < j < spec.nodes@.len() ==> (#[trigger] spec.nodes@[j]).name@
                != spec.nodes@[k].name@,
    ensures
        spec.nodes@[k].host@ != "auto"@ ==> host_of(spec, spec.nodes@[k].name@)
            == spec.nodes@[k].host@,
        spec.nodes@[k].host@ == "auto"@ ==> host_of(spec, spec.nodes@[k].name@)
            == spec.nodes@[k].name@,
{
    last_node_counts(spec.nodes@, k);
}

proof fn last_node_counts(nodes: Seq<OverlayNode>, k: int)
    requires
        0 <= k < nodes.len(),
        forall|j: int| k < j < nodes.len() ==> (#[trigger] nodes[j]).name@ != nodes[k].name@,
    ensures
        node_named(nodes, nodes[k].name@) == Some(nodes[k]),
    decreases nodes.len(),
{
    if k < nodes.len() - 1 {
        let front = nodes.drop_last();
        assert(nodes[nodes.len() - 1].name@ != nodes[k].name@);
        assert(front[k] == nodes[k]);
        assert forall|j: int| k < j < front.len() implies (#[trigger] front[j]).name@
            != front[k].name@ by {
            assert(nodes[j].name@ != nodes[k].name@);
        }
        last_node_counts(front, k);
    }
}

/// Whether the plan of a host carries a link with a VLAN.
pub open spec fn carries(
    plans: Seq<HostPlan>,
    host: Seq<char>,
    link: OverlayLink,
    vlan_id: u16,
) -> bool {
    exists|p: int, l: int|
        0 <= p < plans.len() && 0 <= l < plans[p].vlan_links@.len() && plans[p].host@ == host && ({
            let entry = #[trigger] plans[p].vlan_links@[l];
            &&& entry.vlan_id == vlan_id
            &&& entry.endpoints@[0].node@ == link.src.node@
            &&& entry.endpoints@[0].intf@ == link.src.intf@
            &&& entry.endpoints@[1].node@ == link.dst.node@
            &&& entry.endpoints@[1].intf@ == link.dst.intf@
            &&& entry.impairment == link.impairment
        })
}

proof fn planned_links_are_listed(
    spec: OverlaySpec,
    underlay: Map<Seq<char>, String>,
    plans: Seq<HostPlan>,
    i: int,
    host: Seq<char>,
)
    requires
        lists_plans(plans, plans_after(spec, underlay, spec.links@.len())),
        0 <= i < spec.links@.len(),
        src_host(spec, i) != dst_host(spec, i),
        host == src_host(spec, i) || host == dst_host(spec, i),
    ensures
        carries(plans, host, spec.links@[i], planned_link(spec, underlay, i).vlan_id),
{
    let expected = plans_after(spec, underlay, spec.links@.len());
    let link = planned_link(spec, underlay, i);
    crossing_link_is_on_both_hosts(spec, underlay, i);
    assert(expected.dom().contains(host));
    let p = choose|p: int| 0 <= p < plans.len() && #[trigger] plans[p].host@ == host;
    assert(expected[plans[p].host@] == plans[p]@);
    let views = plans[p]@.vlan_links;
    let l = views.index_of(link);
    assert(views[l] == plans[p].vlan_links@[l]@);
    let entry = plans[p].vlan_links@[l];
    assert(entry@ == link);
    assert(entry.vlan_id == link.vlan_id);
}

/// A link between two hosts that gives its own VLAN has exactly that one in the plans of both, with
/// the ends and the impairment that it gives.
pub proof fn given_vlans_are_kept(
    spec: OverlaySpec,
    underlay: Map<Seq<char>, String>,
    plans: Seq<HostPlan>,
    i: int,
    id: u16,
)
    requires
        lists_plans(plans, plans_after(spec, underlay, spec.links@.len())),
        0 <= i < spec.links@.len(),
        spec.links@[i].vlan_id == Some(id),
        host_of(spec, spec.links@[i].src.node@) != host_of(spec, spec.links@[i].dst.node@),
    ensures
        carries(plans, host_of(spec, spec.links@[i].src.node@), spec.links@[i], id),
        carries(plans, host_of(spec, spec.links@[i].dst.node@), spec.links@[i], id),
{
    planned_links_are_listed(spec, underlay, plans, i, src_host(spec, i));
    planned_links_are_listed(spec, underlay, plans, i, dst_host(spec, i));
}

/// A link between two hosts that gives no VLAN is in the plans of both with the same one, which is
/// not before the first that may be assigned.
pub proof fn both_hosts_agree_on_a_vlan(
    spec: OverlaySpec,
    underlay: Map<Seq<char>, String>,
    plans: Seq<HostPlan>,
    i: int,
) -> (id: u16)
    requires
        vlan_ids_fit(spec),
        lists_plans(plans, plans_after(spec, underlay, spec.links@.len())),
        0 <= i < spec.links@.len(),
        spec.links@[i].vlan_id is None,
        host_of(spec, spec.links@[i].src.node@) != host_of(spec, spec.links@[i].dst.node@),
    ensures
        spec.vlan_start <= id,
        (forall|j: int| 0 <= j < i ==> (#[trigger] spec.links@[j]).vlan_id is Some) ==> id
            == spec.vlan_start,
        carries(plans, host_of(spec, spec.links@[i].src.node@), spec.links@[i], id),
        carries(plans, host_of(spec, spec.links@[i].dst.node@), spec.links@[i], id),
{
    planned_links_are_listed(spec, underlay, plans, i, src_host(spec, i));
    planned_links_are_listed(spec, underlay, plans, i, dst_host(spec, i));
    unassigned_grows(spec.links@, i as nat, spec.links@.len());
    if forall|j: int| 0 <= j < i ==> (#[trigger] spec.links@[j]).vlan_id is Some {
        none_unassigned(spec.links@, i as nat);
    }
    planned_link(spec, underlay, i).vlan_id
}

proof fn none_unassigned(links: Seq<OverlayLink>, n: nat)
    requires
        n <= links.len(),
        forall|j: int| 0 <= j < n ==> (#[trigger] links[j]).vlan_id is Some,
    ensures
        unassigned(links, n) == 0,
    decreases n,
{
    if n > 0 {
        assert(links[n - 1].vlan_id is Some);
        none_unassigned(links, (n - 1) as nat);
    }
}

/// VLANs are assigned one after the other: the next link without one gets the next.
pub proof fn vlans_are_assigned_one_after_the_other(spec: OverlaySpec, i: int, j: int)
    requires
        vlan_ids_fit(spec),
        0 <= i < j < spec.links@.len(),
        spec.links@[i].vlan_id is None,
        spec.links@[j].vlan_id is None,
        forall|k: int| i < k < j ==> (#[trigger] spec.links@[k]).vlan_id is Some,
    ensures
        vlan_of(spec, j) == vlan_of(spec, i) + 1,
{
    same_count(spec.links@, (i + 1) as nat, j as nat);
    unassigned_grows(spec.links@, j as nat, spec.links@.len());
    unassigned_grows(spec.links@, i as nat, spec.links@.len());
    assert(unassigned(spec.links@, (i + 1) as nat) == unassigned(spec.links@, i as nat) + 1);
    unassigned_grows(spec.links@, (j + 1) as nat, spec.links@.len());
    assert(unassigned(spec.links@, (j + 1) as nat) == unassigned(spec.links@, j as nat) + 1);
}

proof fn same_count(links: Seq<OverlayLink>, m: nat, n: nat)
    requires
        m <= n <= links.len(),
        forall|k: int| m <= k < n ==> (#[trigger] links[k]).vlan_id is Some,
    ensures
        unassigned(links, n) == unassigned(links, m),
    decreases n,
{
    if m < n {
        assert(links[n - 1].vlan_id is Some);
        same_count(links, m, (n - 1) as nat);
    }
}

/// A link within one host is in no plan: whatever a plan carries is a link that leaves its host.
pub proof fn plans_carry_links_that_leave_the_host(
    spec: OverlaySpec,
    underlay: Map<Seq<char>, String>,
    plans: Seq<HostPlan>,
    p: int,
    l: int,
)
    requires
        lists_plans(plans, plans_after(spec, underlay, spec.links@.len())),
        0 <= p < plans.len(),
        0 <= l < plans[p].vlan_links@.len(),
    ensures
        exists|i: int|
            0 <= i < spec.links@.len() && ({
                let link = #[trigger] spec.links@[i];
                let entry = plans[p].vlan_links@[l];
                let a = host_of(spec, link.src.node@);
                let b = host_of(spec, link.dst.node@);
                &&& a != b
                &&& plans[p].host@ == a || plans[p].host@ == b
                &&& entry.endpoints@[0].node@ == link.src.node@
                &&& entry.endpoints@[0].intf@ == link.src.intf@
                &&& entry.endpoints@[1].node@ == link.dst.node@
                &&& entry.endpoints@[1].intf@ == link.dst.intf@
                &&& entry.impairment == link.impairment
            }),
{
    let n = spec.links@.len();
    let expected = plans_after(spec, underlay, n);
    let host = plans[p].host@;
    assert(expected.dom().contains(host));
    assert(expected[host] == plans[p]@);
    plan_of_host(spec, underlay, n, host);
    let views = plans[p]@.vlan_links;
    assert(views[l] == plans[p].vlan_links@[l]@);
    listed_links_touch_the_host(spec, underlay, host, n, l);
    let i = choose|i: int|
        0 <= i < n && #[trigger] touches(spec, i, host) && views[l] == planned_link(
            spec,
            underlay,
            i,
        );
    let link = spec.links@[i];
    assert(plans[p].vlan_links@[l]@ == planned_link(spec, underlay, i));
}

proof fn listed_links_touch_the_host(
    spec: OverlaySpec,
    underlay: Map<Seq<char>, String>,
    host: Seq<char>,
    n: nat,
    l: int,
)
    requires
        n <= spec.links@.len(),
        0 <= l < host_links(spec, underlay, host, n).len(),
    ensures
        exists|i: int|
            0 <= i < n && #[trigger] touches(spec, i, host) && host_links(
                spec,
                underlay,
                host,
                n,
            )[l] == planned_link(spec, underlay, i),
    decreases n,
{
    let before = host_links(spec, underlay, host, (n - 1) as nat);
    if l < before.len() {
        listed_links_touch_the_host(spec, underlay, host, (n - 1) as nat, l);
        let i = choose|i: int|
            0 <= i < n - 1 && #[trigger] touches(spec, i, host) && before[l] == planned_link(
                spec,
                underlay,
                i,
            );
        assert(touches(spec, i, host));
    } else {
        assert(touches(spec, n - 1, host));
    }
}

/// Every declared host has a plan with its own bridge, linked or not; where a host is declared
/// twice, the last declaration counts.
pub proof fn declared_hosts_have_plans(
    spec: OverlaySpec,
    underlay: Map<Seq<char>, String>,
    plans: Seq<HostPlan>,
    k: int,
)
    requires
        lists_plans(plans, plans_after(spec, underlay, spec.links@.len())),
        0 <= k < spec.hosts@.len(),
        forall|j: int|
            k < j < spec.hosts@.len() ==> (#[trigger] spec.hosts@[j]).name@
                != spec.hosts@[k].name@,
    ensures
        exists|p: int|
            0 <= p < plans.len() && (#[trigger] plans[p]).host@ == spec.hosts@[k].name@
                && plans[p].bridge@ == spec.hosts@[k].bridge@,
{
    let n = spec.links@.len();
    let host = spec.hosts@[k].name@;
    plan_of_host(spec, underlay, n, host);
    last_host_counts(spec.hosts@, k);
    assert(crate::big_virtual_wall::overlay::has_host(spec.hosts@, host));
    let expected = plans_after(spec, underlay, n);
    assert(expected.dom().contains(host));
    let p = choose|p: int| 0 <= p < plans.len() && #[trigger] plans[p].host@ == host;
    assert(expected[plans[p].host@] == plans[p]@);
}

proof fn last_host_counts(hosts: Seq<OverlayHost>, k: int)
    requires
        0 <= k < hosts.len(),
        forall|j: int| k < j < hosts.len() ==> (#[trigger] hosts[j]).name@ != hosts[k].name@,
    ensures
        host_named(hosts, hosts[k].name@) == Some(hosts[k]),
    decreases hosts.len(),
{
    if k < hosts.len() - 1 {
        let front = hosts.drop_last();
        assert(hosts[hosts.len() - 1].name@ != hosts[k].name@);
        assert(front[k] == hosts[k]);
        assert forall|j: int| k < j < front.len() implies (#[trigger] front[j]).name@
            != front[k].name@ by {
            assert(hosts[j].name@ != hosts[k].name@);
        }
        last_host_counts(front, k);
    }
}

/// A host is reached at the underlay that its declaration gives, else at the one that is known of
/// it.
pub proof fn own_underlays_go_first(
    spec: OverlaySpec,
    underlay: Map<Seq<char>, String>,
    k: int,
)
    requires
        0 <= k < spec.hosts@.len(),
        forall|j: int|
            k < j < spec.hosts@.len() ==> (#[trigger] spec.hosts@[j]).name@
                != spec.hosts@[k].name@,
    ensures
        ({
            let h = spec.hosts@[k];
            &&& h.underlay is Some ==> underlay_of(spec, underlay, h.name@) == h.underlay->0@
            &&& h.underlay is None && underlay.dom().contains(h.name@) ==> underlay_of(
                spec,
                underlay,
                h.name@,
            ) == underlay[h.name@]@
        }),
{
    last_host_counts(spec.hosts@, k);
}

proof fn last_tunnel_counts(tunnels: Seq<OverlayTunnel>, k: int)
    requires
        0 <= k < tunnels.len(),
        forall|j: int|
            k < j < tunnels.len() ==> !((#[trigger] tunnels[j]).local_host@
                == tunnels[k].local_host@ && tunnels[j].remote_host@ == tunnels[k].remote_host@),
    ensures
        tunnel_between(tunnels, tunnels[k].local_host@, tunnels[k].remote_host@) == Some(
            tunnels[k],
        ),
    decreases tunnels.len(),
{
    if k < tunnels.len() - 1 {
        let front = tunnels.drop_last();
        let last = tunnels[tunnels.len() - 1];
        assert(!(last.local_host@ == tunnels[k].local_host@ && last.remote_host@
            == tunnels[k].remote_host@));
        assert(front[k] == tunnels[k]);
        assert forall|j: int| k < j < front.len() implies !((#[trigger] front[j]).local_host@
            == front[k].local_host@ && front[j].remote_host@ == front[k].remote_host@) by {
            assert(front[j] == tunnels[j]);
        }
        last_tunnel_counts(front, k);
    }
}

proof fn no_tunnel_declared(tunnels: Seq<OverlayTunnel>, local: Seq<char>, remote: Seq<char>)
    requires
        forall|j: int|
            0 <= j < tunnels.len() ==> !((#[trigger] tunnels[j]).local_host@ == local
                && tunnels[j].remote_host@ == remote),
    ensures
        tunnel_between(tunnels, local, remote) is None,
    decreases tunnels.len(),
{
    if tunnels.len() > 0 {
        let front = tunnels.drop_last();
        let last = tunnels[tunnels.len() - 1];
        assert(!(last.local_host@ == local && last.remote_host@ == remote));
        assert forall|j: int| 0 <= j < front.len() implies !((#[trigger] front[j]).local_host@
            == local && front[j].remote_host@ == remote) by {
            assert(front[j] == tunnels[j]);
        }
        no_tunnel_declared(front, local, remote);
    }
}

/// A tunnel that is declared between the hosts of a link carries it: with its device and network
/// on both, and each host bound to its own address, whichever of the two declares it.
pub proof fn tunnels_bind_each_host_to_its_own_address(
    spec: OverlaySpec,
    underlay: Map<Seq<char>, String>,
    i: int,
    k: int,
)
    requires
        0 <= i < spec.links@.len(),
        0 <= k < spec.tunnels@.len(),
        forall|j: int|
            k < j < spec.tunnels@.len() ==> !((#[trigger] spec.tunnels@[j]).local_host@
                == spec.tunnels@[k].local_host@ && spec.tunnels@[j].remote_host@
                == spec.tunnels@[k].remote_host@),
    ensures
        ({
            let t = spec.tunnels@[k];
            let a = host_of(spec, spec.links@[i].src.node@);
            let b = host_of(spec, spec.links@[i].dst.node@);
            let on_src = carrier(spec, underlay, i);
            let on_dst = reversed(on_src, a);
            &&& t.local_host@ == a && t.remote_host@ == b ==> {
                &&& on_src.name == t.dev@ && on_dst.name == t.dev@
                &&& on_src.vni == t.vni && on_dst.vni == t.vni
                &&& on_src.local_underlay == t.local_underlay@
                &&& on_src.remote_underlay == t.remote_underlay@
                &&& on_dst.local_underlay == t.remote_underlay@
                &&& on_dst.remote_underlay == t.local_underlay@
                &&& on_src.peer == b && on_dst.peer == a
            }
            &&& t.local_host@ == b && t.remote_host@ == a && (forall|j: int|
                0 <= j < spec.tunnels@.len() ==> !((#[trigger] spec.tunnels@[j]).local_host@ == a
                    && spec.tunnels@[j].remote_host@ == b)) ==> {
                &&& on_src.name == t.dev@ && on_dst.name == t.dev@
                &&& on_src.vni == t.vni && on_dst.vni == t.vni
                &&& on_src.local_underlay == t.remote_underlay@
                &&& on_src.remote_underlay == t.local_underlay@
                &&& on_dst.local_underlay == t.local_underlay@
                &&& on_dst.remote_underlay == t.remote_underlay@
                &&& on_src.peer == b && on_dst.peer == a
            }
        }),
{
    let a = host_of(spec, spec.links@[i].src.node@);
    let b = host_of(spec, spec.links@[i].dst.node@);
    last_tunnel_counts(spec.tunnels@, k);
    if forall|j: int|
        0 <= j < spec.tunnels@.len() ==> !((#[trigger] spec.tunnels@[j]).local_host@ == a
            && spec.tunnels@[j].remote_host@ == b) {
        no_tunnel_declared(spec.tunnels@, a, b);
    }
}

/// A link between hosts without a tunnel goes over a device between their underlays, the same for
/// both hosts, each bound to its own.
pub proof fn links_without_tunnels_join_the_underlays(
    spec: OverlaySpec,
    underlay: Map<Seq<char>, String>,
    i: int,
)
    requires
        0 <= i < spec.links@.len(),
        spec.tunnels@.len() == 0,
    ensures
        ({
            let a = host_of(spec, spec.links@[i].src.node@);
            let b = host_of(spec, spec.links@[i].dst.node@);
            let on_src = carrier(spec, underlay, i);
            let on_dst = reversed(on_src, a);
            &&& on_src.local_underlay == underlay_of(spec, underlay, a)
            &&& on_src.remote_underlay == underlay_of(spec, underlay, b)
            &&& on_dst.local_underlay == underlay_of(spec, underlay, b)
            &&& on_dst.remote_underlay == underlay_of(spec, underlay, a)
            &&& on_src.name == "vxlan-vw"@ && on_dst.name == "vxlan-vw"@
            &&& on_src.vni == 2000 && on_dst.vni == 2000
            &&& on_src.peer == b && on_dst.peer == a
        }),
{
}

/// The plans of both hosts of a link have a device of the name that carries it there.
pub proof fn links_have_their_device(
    spec: OverlaySpec,
    underlay: Map<Seq<char>, String>,
    i: int,
    host: Seq<char>,
)
    requires
        0 <= i < spec.links@.len(),
        touches(spec, i, host),
    ensures
        has_device(
            host_devices(spec, underlay, host, spec.links@.len()),
            planned_link(spec, underlay, i).vxlan_dev,
        ),
        forall|d: int, e: int|
            0 <= d < e < host_devices(spec, underlay, host, spec.links@.len()).len()
                ==> (#[trigger] host_devices(spec, underlay, host, spec.links@.len())[d]).name != (
            #[trigger] host_devices(spec, underlay, host, spec.links@.len())[e]).name,
{
    device_is_there(spec, underlay, i, host, spec.links@.len());
    devices_differ(spec, underlay, host, spec.links@.len());
}

proof fn device_is_there(
    spec: OverlaySpec,
    underlay: Map<Seq<char>, String>,
    i: int,
    host: Seq<char>,
    n: nat,
)
    requires
        0 <= i < n <= spec.links@.len(),
        touches(spec, i, host),
    ensures
        has_device(
            host_devices(spec, underlay, host, n),
            planned_link(spec, underlay, i).vxlan_dev,
        ),
    decreases n,
{
    let name = planned_link(spec, underlay, i).vxlan_dev;
    let before = host_devices(spec, underlay, host, (n - 1) as nat);
    let after = host_devices(spec, underlay, host, n);
    if i == n - 1 {
        if !has_device(before, name) {
            assert(after[after.len() - 1].name == name);
        }
    } else {
        device_is_there(spec, underlay, i, host, (n - 1) as nat);
        let d = choose|d: int| 0 <= d < before.len() && #[trigger] before[d].name == name;
        assert(after[d].name == name);
    }
}

proof fn devices_differ(
    spec: OverlaySpec,
    underlay: Map<Seq<char>, String>,
    host: Seq<char>,
    n: nat,
)
    requires
        n <= spec.links@.len(),
    ensures
        forall|d: int, e: int|
            0 <= d < e < host_devices(spec, underlay, host, n).len() ==> (#[trigger] host_devices(
                spec,
                underlay,
                host,
                n,
            )[d]).name != (#[trigger] host_devices(spec, underlay, host, n)[e]).name,
    decreases n,
{
    if n > 0 {
        devices_differ(spec, underlay, host, (n - 1) as nat);
        let before = host_devices(spec, underlay, host, (n - 1) as nat);
        let after = host_devices(spec, underlay, host, n);
        assert forall|d: int, e: int| 0 <= d < e < after.len() implies (#[trigger] after[d]).name
            != (#[trigger] after[e]).name by {
            assert(after[d] == before[d]);
            if e < before.len() {
                assert(after[e] == before[e]);
            } else {
                assert(before[d].name != carrier(spec, underlay, n - 1).name);
            }
        }
    }
}

/// The plan of a host that is not declared has the default bridge.
pub proof fn undeclared_hosts_have_the_default_bridge(
    spec: OverlaySpec,
    underlay: Map<Seq<char>, String>,
    n: nat,
    host: Seq<char>,
)
    requires
        n <= spec.links@.len(),
        plans_after(spec, underlay, n).dom().contains(host),
        forall|i: int| 0 <= i < spec.hosts@.len() ==> (#[trigger] spec.hosts@[i]).name@ != host,
    ensures
        plans_after(spec, underlay, n)[host].bridge == "br-vw"@,
        plans_after(spec, underlay, n)[host].host == host,
    decreases n,
{
    undeclared_hosts_are_not_found(spec.hosts@, host);
    if n > 0 {
        let before = plans_after(spec, underlay, (n - 1) as nat);
        if before.dom().contains(host) {
            undeclared_hosts_have_the_default_bridge(spec, underlay, (n - 1) as nat, host);
        }
    }
}

proof fn undeclared_hosts_are_not_found(hosts: Seq<OverlayHost>, name: Seq<char>)
    requires
        forall|i: int| 0 <= i < hosts.len() ==> (#[trigger] hosts[i]).name@ != name,
    ensures
        host_named(hosts, name) is None,
    decreases hosts.len(),
{
    if hosts.len() > 0 {
        assert(hosts[hosts.len() - 1].name@ != name);
        let front = hosts.drop_last();
        assert forall|i: int| 0 <= i < front.len() implies (#[trigger] front[i]).name@ != name by {
            assert(front[i] == hosts[i]);
        }
        undeclared_hosts_are_not_found(front, name);
    }
}

} // verus!
