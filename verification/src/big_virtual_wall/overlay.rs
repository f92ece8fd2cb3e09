//! The overlay specification: hosts, virtual nodes, links and tunnels.

use std::collections::HashMap;

use vstd::prelude::*;

use crate::text::{debug_texts, same, u64_text};
use crate::virtual_wall::error::VirtualWallError;

verus! {

/// What an overlay consists of.
#[derive(Debug, Clone)]
pub struct OverlaySpec {
    pub hosts: Vec<OverlayHost>,
    pub nodes: Vec<OverlayNode>,
    pub links: Vec<OverlayLink>,
    pub tunnels: Vec<OverlayTunnel>,
    pub host_pool: Option<HostPool>,
    pub virtual_pool: Option<VirtualPool>,
    pub vlan_pool: Option<VlanPool>,
    /// Parent interface on the hosts for a VLAN, by VLAN id.
    pub vlan_bindings: Option<HashMap<u16, String>>,
    /// First VLAN id that is given to links without one.
    pub vlan_start: u16,
}

/// A bare-metal host.
#[derive(Debug, Clone)]
pub struct OverlayHost {
    pub name: String,
    /// Management address; may be left out when the inventory comes from elsewhere.
    pub mgmt_addr: Option<String>,
    /// Interface or address that VXLAN binds to.
    pub underlay: Option<String>,
    /// Bridge that the switches attach to.
    pub bridge: String,
}

/// A virtual node and the host that it is placed on; `auto` places it on the host of its name.
#[derive(Debug, Clone)]
pub struct OverlayNode {
    pub name: String,
    pub host: String,
    pub interfaces: Vec<NodeInterface>,
}

/// An interface of a virtual node.
#[derive(Debug, Clone)]
pub struct NodeInterface {
    pub name: String,
    pub mtu: Option<u32>,
}

/// A link between two virtual nodes.
#[derive(Debug, Clone)]
pub struct OverlayLink {
    pub src: Endpoint,
    pub dst: Endpoint,
    pub impairment: Option<Impairment>,
    /// VLAN of the link; assigned when absent.
    pub vlan_id: Option<u16>,
}

/// One end of a link.
#[derive(Debug)]
pub struct Endpoint {
    pub node: String,
    pub intf: String,
}

/// Delay, loss and rate that are imposed on a link.
#[derive(Debug)]
pub struct Impairment {
    pub latency_ms: Option<u32>,
    /// Loss in percent, in decimal notation.
    pub loss_pct: Option<String>,
    pub rate_mbps: Option<u32>,
}

/// Hosts that are numbered from one.
#[derive(Debug, Clone)]
pub struct HostPool {
    pub count: Option<usize>,
    pub prefix: String,
}

/// Virtual nodes that are numbered per host.
#[derive(Debug, Clone)]
pub struct VirtualPool {
    pub per_host: Option<usize>,
    pub prefix: String,
    pub start_index: usize,
}

/// VLANs that can be assigned to links.
#[derive(Debug, Clone)]
pub struct VlanPool {
    pub start: u16,
    pub count: Option<u16>,
    /// Subnet of a VLAN, by VLAN id.
    pub subnets: HashMap<u16, String>,
}

/// A VXLAN tunnel between two hosts.
#[derive(Debug, Clone)]
pub struct OverlayTunnel {
    pub local_host: String,
    pub remote_host: String,
    pub local_underlay: String,
    pub remote_underlay: String,
    pub vni: u32,
    pub dev: String,
}

/// Names that an overlay uses without declaring them.
#[derive(Debug, Clone)]
pub struct OverlayValidation {
    pub missing_hosts: Vec<String>,
    pub missing_nodes: Vec<String>,
}

impl Clone for Endpoint {
    fn clone(&self) -> (r: Self)
        ensures
            r == *self,
    {
        Endpoint { node: self.node.clone(), intf: self.intf.clone() }
    }
}

impl Clone for Impairment {
    fn clone(&self) -> (r: Self)
        ensures
            r == *self,
    {
        Impairment {
            latency_ms: self.latency_ms,
            loss_pct: match &self.loss_pct {
                Some(loss) => Some(loss.clone()),
                None => None,
            },
            rate_mbps: self.rate_mbps,
        }
    }
}

impl Default for Impairment {
    fn default() -> (r: Self)
        ensures
            r.latency_ms is None,
            r.loss_pct is None,
            r.rate_mbps is None,
    {
        Impairment { latency_ms: None, loss_pct: None, rate_mbps: None }
    }
}

/// Whether a host of that name is declared.
pub open spec fn has_host(hosts: Seq<OverlayHost>, name: Seq<char>) -> bool {
    exists|i: int| 0 <= i < hosts.len() && #[trigger] hosts[i].name@ == name
}

/// Whether a node of that name is declared.
pub open spec fn has_node(nodes: Seq<OverlayNode>, name: Seq<char>) -> bool {
    exists|i: int| 0 <= i < nodes.len() && #[trigger] nodes[i].name@ == name
}

/// The hosts that the first `n` nodes are placed on and that are not declared. Placement is not
/// restricted when no host is declared, nor for nodes with automatic placement.
pub open spec fn missing_hosts(spec: OverlaySpec, n: nat) -> Seq<Seq<char>>
    decreases n,
{
    if n == 0 {
        Seq::empty()
    } else {
        let host = spec.nodes@[n - 1].host@;
        let before = missing_hosts(spec, (n - 1) as nat);
        if spec.hosts@.len() > 0 && host != "auto"@ && !has_host(spec.hosts@, host) {
            before.push(host)
        } else {
            before
        }
    }
}

/// A name, unless a node of that name is declared.
pub open spec fn missing_name(spec: OverlaySpec, name: Seq<char>) -> Seq<Seq<char>> {
    if has_node(spec.nodes@, name) {
        Seq::empty()
    } else {
        seq![name]
    }
}

/// The nodes that the ends of the first `n` links name and that are not declared.
pub open spec fn missing_nodes(spec: OverlaySpec, n: nat) -> Seq<Seq<char>>
    decreases n,
{
    if n == 0 {
        Seq::empty()
    } else {
        let link = spec.links@[n - 1];
        missing_nodes(spec, (n - 1) as nat) + missing_name(spec, link.src.node@) + missing_name(
            spec,
            link.dst.node@,
        )
    }
}

/// Whether every host and node that an overlay uses is declared.
pub open spec fn is_consistent(spec: OverlaySpec) -> bool {
    &&& missing_hosts(spec, spec.nodes@.len()).len() == 0
    &&& missing_nodes(spec, spec.links@.len()).len() == 0
}

/// The name of the host with a number in a pool.
pub open spec fn pool_host_name(pool: HostPool, number: nat) -> Seq<char> {
    pool.prefix@ + crate::text::dec(number)
}

/// The name of the virtual node with a number on a host.
pub open spec fn pool_node_name(pool: VirtualPool, host: Seq<char>, number: nat) -> Seq<char> {
    pool.prefix@ + "-"@ + host + "-"@ + crate::text::dec(number)
}

/// The names of the nodes that a pool gives the first `n` hosts, each with its host.
pub open spec fn pool_nodes(
    pool: VirtualPool,
    per_host: nat,
    hosts: Seq<OverlayHost>,
    n: nat,
) -> Seq<(Seq<char>, Seq<char>)>
    decreases n,
{
    if n == 0 {
        Seq::empty()
    } else {
        let host = hosts[n - 1].name@;
        pool_nodes(pool, per_host, hosts, (n - 1) as nat) + Seq::new(
            per_host,
            |k: int| (pool_node_name(pool, host, (pool.start_index + k) as nat), host),
        )
    }
}

/// The names of nodes, each with the host that it is placed on.
pub open spec fn placements(nodes: Seq<OverlayNode>) -> Seq<(Seq<char>, Seq<char>)> {
    Seq::new(nodes.len(), |i: int| (nodes[i].name@, nodes[i].host@))
}

/// The number of hosts that the host pool adds.
pub open spec fn pooled_host_count(spec: OverlaySpec) -> nat {
    match spec.host_pool {
        Some(pool) if spec.hosts@.len() == 0 => match pool.count {
            Some(count) => count as nat,
            None => 0,
        },
        _ => 0,
    }
}

/// The number of nodes that the virtual pool adds to each host.
pub open spec fn pooled_nodes_per_host(spec: OverlaySpec) -> nat {
    match spec.virtual_pool {
        Some(pool) if spec.nodes@.len() == 0 => match pool.per_host {
            Some(count) => count as nat,
            None => 0,
        },
        _ => 0,
    }
}

/// Whether the numbers of the pooled nodes can be represented.
pub open spec fn numbering_fits(spec: OverlaySpec) -> bool {
    (spec.hosts@.len() > 0 || pooled_host_count(spec) > 0) && pooled_nodes_per_host(spec) > 0
        ==> spec.virtual_pool->0.start_index + pooled_nodes_per_host(spec) - 1 <= usize::MAX
}

/// Whether the VLAN pool has a limit that the links exceed.
pub open spec fn vlan_pool_exceeded(spec: OverlaySpec) -> bool {
    match spec.vlan_pool {
        Some(pool) => match pool.count {
            Some(max) => spec.links@.len() > max,
            None => false,
        },
        None => false,
    }
}

/// Whether expanding the pools of `before` gives `after`.
pub open spec fn is_expansion(before: OverlaySpec, after: OverlaySpec) -> bool {
    &&& if pooled_host_count(before) == 0 {
        after.hosts@ == before.hosts@
    } else {
        &&& after.hosts@.len() == pooled_host_count(before)
        &&& forall|i: int| #![trigger after.hosts@[i]] 0 <= i < after.hosts@.len() ==> {
            &&& after.hosts@[i].name@ == pool_host_name(before.host_pool->0, (i + 1) as nat)
            &&& after.hosts@[i].mgmt_addr is None
            &&& after.hosts@[i].underlay is None
            &&& after.hosts@[i].bridge@ == "br-vw"@
        }
    }
    &&& if pooled_nodes_per_host(before) == 0 {
        after.nodes@ == before.nodes@
    } else {
        &&& placements(after.nodes@) == pool_nodes(
            before.virtual_pool->0,
            pooled_nodes_per_host(before),
            after.hosts@,
            after.hosts@.len(),
        )
        &&& forall|i: int|
            0 <= i < after.nodes@.len() ==> #[trigger] after.nodes@[i].interfaces@.len() == 0
    }
    &&& after.vlan_start == match before.vlan_pool {
        Some(pool) => pool.start,
        None => before.vlan_start,
    }
    &&& after.links == before.links
    &&& after.tunnels == before.tunnels
    &&& after.host_pool == before.host_pool
    &&& after.virtual_pool == before.virtual_pool
    &&& after.vlan_pool == before.vlan_pool
    &&& after.vlan_bindings == before.vlan_bindings
}

fn declares_host(hosts: &Vec<OverlayHost>, name: &str) -> (r: bool)
    ensures
        r == has_host(hosts@, name@),
{
    let mut i: usize = 0;
    while i < hosts.len()
        invariant
            i <= hosts.len(),
            forall|j: int| 0 <= j < i ==> #[trigger] hosts@[j].name@ != name@,
        decreases hosts.len() - i,
    {
        if same(hosts[i].name.as_str(), name) {
            assert(hosts@[i as int].name@ == name@);
            return true;
        }
        i += 1;
    }
    false
}

fn declares_node(nodes: &Vec<OverlayNode>, name: &str) -> (r: bool)
    ensures
        r == has_node(nodes@, name@),
{
    let mut i: usize = 0;
    while i < nodes.len()
        invariant
            i <= nodes.len(),
            forall|j: int| 0 <= j < i ==> #[trigger] nodes@[j].name@ != name@,
        decreases nodes.len() - i,
    {
        if same(nodes[i].name.as_str(), name) {
            assert(nodes@[i as int].name@ == name@);
            return true;
        }
        i += 1;
    }
    false
}

impl OverlaySpec {
    /// The hosts and nodes that the overlay uses without declaring them.
    pub fn missing(&self) -> (r: OverlayValidation)
        ensures
            crate::text::texts(r.missing_hosts@) == missing_hosts(*self, self.nodes@.len()),
            crate::text::texts(r.missing_nodes@) == missing_nodes(*self, self.links@.len()),
    {
        let mut hosts: Vec<String> = Vec::new();
        let mut i: usize = 0;
        while i < self.nodes.len()
            invariant
                i <= self.nodes.len(),
                crate::text::texts(hosts@) == missing_hosts(*self, i as nat),
            decreases self.nodes.len() - i,
        {
            let node = &self.nodes[i];
            if self.hosts.len() > 0 && !same(node.host.as_str(), "auto") && !declares_host(
                &self.hosts,
                node.host.as_str(),
            ) {
                let ghost before = hosts@;
                hosts.push(node.host.clone());
                assert(crate::text::texts(hosts@) =~= crate::text::texts(before).push(node.host@));
            }
            i += 1;
        }
        let mut nodes: Vec<String> = Vec::new();
        i = 0;
        while i < self.links.len()
            invariant
                i <= self.links.len(),
                crate::text::texts(nodes@) == missing_nodes(*self, i as nat),
            decreases self.links.len() - i,
        {
            let link = &self.links[i];
            let ghost before = nodes@;
            if !declares_node(&self.nodes, link.src.node.as_str()) {
                nodes.push(link.src.node.clone());
            }
            if !declares_node(&self.nodes, link.dst.node.as_str()) {
                nodes.push(link.dst.node.clone());
            }
            assert(crate::text::texts(nodes@) =~= crate::text::texts(before) + missing_name(
                *self,
                link.src.node@,
            ) + missing_name(*self, link.dst.node@));
            i += 1;
        }
        OverlayValidation { missing_hosts: hosts, missing_nodes: nodes }
    }

    /// Accepts an overlay whose links and placements use declared names only.
    pub fn validate(&self) -> (r: Result<(), VirtualWallError>)
        ensures
            match r {
                Ok(_) => is_consistent(*self),
                Err(VirtualWallError::Configuration(m)) => !is_consistent(*self) && m@
                    == "Overlay validation failed: missing_hosts="@ + crate::text::debug_list(
                    missing_hosts(*self, self.nodes@.len()),
                ) + " missing_nodes="@ + crate::text::debug_list(
                    missing_nodes(*self, self.links@.len()),
                ),
                Err(_) => false,
            },
    {
        let missing = self.missing();
        assert(crate::text::texts(missing.missing_hosts@).len() == missing.missing_hosts@.len());
        assert(crate::text::texts(missing.missing_nodes@).len() == missing.missing_nodes@.len());
        if missing.missing_hosts.len() > 0 || missing.missing_nodes.len() > 0 {
            let message = "Overlay validation failed: missing_hosts=".to_owned().concat(
                debug_texts(&missing.missing_hosts).as_str(),
            ).concat(" missing_nodes=").concat(debug_texts(&missing.missing_nodes).as_str());
            return Err(VirtualWallError::Configuration(message));
        }
        Ok(())
    }

    fn expand_hosts(&mut self)
        ensures
            final(self).nodes == old(self).nodes,
            final(self).links == old(self).links,
            final(self).tunnels == old(self).tunnels,
            final(self).host_pool == old(self).host_pool,
            final(self).virtual_pool == old(self).virtual_pool,
            final(self).vlan_pool == old(self).vlan_pool,
            final(self).vlan_bindings == old(self).vlan_bindings,
            final(self).vlan_start == old(self).vlan_start,
            if pooled_host_count(*old(self)) == 0 {
                final(self).hosts@ == old(self).hosts@
            } else {
                &&& final(self).hosts@.len() == pooled_host_count(*old(self))
                &&& forall|i: int|
                    #![trigger final(self).hosts@[i]]
                    0 <= i < final(self).hosts@.len() ==> {
                        &&& final(self).hosts@[i].name@ == pool_host_name(
                            old(self).host_pool->0,
                            (i + 1) as nat,
                        )
                        &&& final(self).hosts@[i].mgmt_addr is None
                        &&& final(self).hosts@[i].underlay is None
                        &&& final(self).hosts@[i].bridge@ == "br-vw"@
                    }
            },
    {
        if self.hosts.len() == 0 {
            let mut made: Vec<OverlayHost> = Vec::new();
            if let Some(pool) = &self.host_pool {
                if let Some(count) = pool.count {
                    let mut i: usize = 0;
                    while i < count
                        invariant
                            i <= count,
                            made@.len() == i,
                            forall|j: int|
                                #![trigger made@[j]]
                                0 <= j < i ==> {
                                    &&& made@[j].name@ == pool_host_name(*pool, (j + 1) as nat)
                                    &&& made@[j].mgmt_addr is None
                                    &&& made@[j].underlay is None
                                    &&& made@[j].bridge@ == "br-vw"@
                                },
                        decreases count - i,
                    {
                        i += 1;
                        let name = pool.prefix.clone().concat(u64_text(i as u64).as_str());
                        made.push(
                            OverlayHost {
                                name,
                                mgmt_addr: None,
                                underlay: None,
                                bridge: default_bridge(),
                            },
                        );
                    }
                }
            }
            self.hosts = made;
        }
    }

    fn expand_nodes(&mut self)
        requires
            old(self).hosts@.len() > 0 && pooled_nodes_per_host(*old(self)) > 0
                ==> old(self).virtual_pool->0.start_index + pooled_nodes_per_host(*old(self)) - 1
                <= usize::MAX,
        ensures
            final(self).hosts == old(self).hosts,
            final(self).links == old(self).links,
            final(self).tunnels == old(self).tunnels,
            final(self).host_pool == old(self).host_pool,
            final(self).virtual_pool == old(self).virtual_pool,
            final(self).vlan_pool == old(self).vlan_pool,
            final(self).vlan_bindings == old(self).vlan_bindings,
            final(self).vlan_start == old(self).vlan_start,
            if pooled_nodes_per_host(*old(self)) == 0 {
                final(self).nodes@ == old(self).nodes@
            } else {
                &&& placements(final(self).nodes@) == pool_nodes(
                    old(self).virtual_pool->0,
                    pooled_nodes_per_host(*old(self)),
                    old(self).hosts@,
                    old(self).hosts@.len(),
                )
                &&& forall|i: int|
                    0 <= i < final(self).nodes@.len()
                        ==> #[trigger] final(self).nodes@[i].interfaces@.len() == 0
            },
    {
        if self.nodes.len() == 0 {
            let mut made: Vec<OverlayNode> = Vec::new();
            if let Some(pool) = &self.virtual_pool {
                if let Some(per_host) = pool.per_host {
                    let mut h: usize = 0;
                    assert(placements(made@) =~= pool_nodes(
                        *pool,
                        per_host as nat,
                        self.hosts@,
                        0,
                    ));
                    while h < self.hosts.len()
                        invariant
                            h <= self.hosts.len(),
                            self.hosts@.len() > 0 && per_host > 0 ==> pool.start_index + per_host - 1
                                <= usize::MAX,
                            placements(made@) == pool_nodes(
                                *pool,
                                per_host as nat,
                                self.hosts@,
                                h as nat,
                            ),
                            forall|i: int|
                                0 <= i < made@.len() ==> #[trigger] made@[i].interfaces@.len() == 0,
                            per_host == 0 ==> made@.len() == 0,
                        decreases self.hosts.len() - h,
                    {
                        let host = &self.hosts[h];
                        let ghost before = placements(made@);
                        let ghost row = Seq::new(
                            per_host as nat,
                            |k: int|
                                (
                                    pool_node_name(
                                        *pool,
                                        host.name@,
                                        (pool.start_index + k) as nat,
                                    ),
                                    host.name@,
                                ),
                        );
                        let mut k: usize = 0;
                        assert(before + row.take(0) =~= before);
                        while k < per_host
                            invariant
                                k <= per_host,
                                h < self.hosts@.len(),
                                self.hosts@.len() > 0 && per_host > 0 ==> pool.start_index + per_host - 1
                                <= usize::MAX,
                                placements(made@) == before + row.take(k as int),
                                row == Seq::new(
                                    per_host as nat,
                                    |k: int|
                                        (
                                            pool_node_name(
                                                *pool,
                                                host.name@,
                                                (pool.start_index + k) as nat,
                                            ),
                                            host.name@,
                                        ),
                                ),
                                forall|i: int|
                                    0 <= i < made@.len() ==> #[trigger] made@[i].interfaces@.len()
                                        == 0,
                                per_host == 0 ==> made@.len() == 0,
                            decreases per_host - k,
                        {
                            let number: usize = pool.start_index + k;
                            let name = pool.prefix.clone().concat("-").concat(
                                host.name.as_str(),
                            ).concat("-").concat(u64_text(number as u64).as_str());
                            let ghost old_made = made@;
                            made.push(
                                OverlayNode {
                                    name,
                                    host: host.name.clone(),
                                    interfaces: Vec::new(),
                                },
                            );
                            assert(placements(made@) =~= placements(old_made).push(
                                row[k as int],
                            ));
                            assert(before + row.take(k + 1) =~= (before + row.take(k as int)).push(
                                row[k as int],
                            ));
                            k += 1;
                        }
                        assert(row.take(per_host as int) =~= row);
                        h += 1;
                    }
                }
            }
            assert(pooled_nodes_per_host(*self) == 0 ==> made@ =~= self.nodes@);
            self.nodes = made;
        }
    }

    /// Turns pools into hosts and nodes and takes the first VLAN id from the VLAN pool. The
    /// pools of hosts and nodes count only where no host and no node is declared.
    pub fn expand_dynamic(&mut self) -> (r: Result<(), VirtualWallError>)
        requires
            numbering_fits(*old(self)),
        ensures
            is_expansion(*old(self), *final(self)),
            match r {
                Ok(_) => !vlan_pool_exceeded(*old(self)),
                Err(VirtualWallError::Configuration(m)) => vlan_pool_exceeded(*old(self)) && m@
                    == "VLAN pool too small: "@ + crate::text::dec(
                    old(self).links@.len(),
                ) + " links requested but pool count is "@ + crate::text::dec(
                    old(self).vlan_pool->0.count->0 as nat,
                ),
                Err(_) => false,
            },
    {
        self.expand_hosts();
        self.expand_nodes();
        let mut start: u16 = self.vlan_start;
        let mut failure: Option<String> = None;
        if let Some(pool) = &self.vlan_pool {
            start = pool.start;
            if let Some(max) = pool.count {
                let links: usize = self.links.len();
                if links > max as usize {
                    failure = Some(
                        "VLAN pool too small: ".to_owned().concat(
                            u64_text(links as u64).as_str(),
                        ).concat(" links requested but pool count is ").concat(
                            u64_text(max as u64).as_str(),
                        ),
                    );
                }
            }
        }
        self.vlan_start = start;
        match failure {
            Some(message) => Err(VirtualWallError::Configuration(message)),
            None => Ok(()),
        }
    }
}

/// The bridge of a host that names none.
pub fn default_bridge() -> (r: String)
    ensures
        r@ == "br-vw"@,
{
    "br-vw".to_owned()
}

/// The VXLAN device of a tunnel that names none.
pub fn default_vxlan_dev() -> (r: String)
    ensures
        r@ == "vxlan-vw"@,
{
    "vxlan-vw".to_owned()
}

/// The first VLAN id of an overlay that names none.
pub fn default_vlan_start() -> (r: u16)
    ensures
        r == 200,
{
    200
}

/// The name prefix of a host pool that names none.
pub fn default_host_prefix() -> (r: String)
    ensures
        r@ == "vw-node-"@,
{
    "vw-node-".to_owned()
}

/// The name prefix of a virtual pool that names none.
pub fn default_virtual_prefix() -> (r: String)
    ensures
        r@ == "vn"@,
{
    "vn".to_owned()
}

/// The first number of a virtual pool that names none.
pub fn default_virtual_start() -> (r: usize)
    ensures
        r == 1,
{
    1
}

/// A host is missing where a node is placed on it by name and it is not among the hosts that are
/// declared.
pub proof fn undeclared_hosts_are_missing(spec: OverlaySpec, n: nat, host: Seq<char>)
    requires
        n <= spec.nodes@.len(),
    ensures
        missing_hosts(spec, n).contains(host) <==> spec.hosts@.len() > 0 && host != "auto"@ && (
        forall|j: int| 0 <= j < spec.hosts@.len() ==> (#[trigger] spec.hosts@[j]).name@ != host)
            && (exists|i: int| 0 <= i < n && (#[trigger] spec.nodes@[i]).host@ == host),
    decreases n,
{
    if n > 0 {
        let before = missing_hosts(spec, (n - 1) as nat);
        let after = missing_hosts(spec, n);
        undeclared_hosts_are_missing(spec, (n - 1) as nat, host);
        if before.contains(host) {
            let k = choose|k: int| 0 <= k < before.len() && before[k] == host;
            assert(after[k] == host);
        }
        if after.contains(host) {
            let k = choose|k: int| 0 <= k < after.len() && after[k] == host;
            if k < before.len() {
                assert(before[k] == host);
                assert(before.contains(host));
            } else {
                assert(spec.nodes@[n - 1].host@ == host);
            }
        }
        if spec.nodes@[n - 1].host@ == host && after.len() > before.len() {
            assert(after[after.len() - 1] == host);
        }
    }
}

/// A node is missing where a link ends at it and no node has that name.
pub proof fn undeclared_nodes_are_missing(spec: OverlaySpec, n: nat, name: Seq<char>)
    requires
        n <= spec.links@.len(),
    ensures
        missing_nodes(spec, n).contains(name) <==> (forall|j: int|
            0 <= j < spec.nodes@.len() ==> (#[trigger] spec.nodes@[j]).name@ != name) && (exists|
            i: int,
        |
            0 <= i < n && ((#[trigger] spec.links@[i]).src.node@ == name
                || spec.links@[i].dst.node@ == name)),
    decreases n,
{
    if n > 0 {
        let link = spec.links@[n - 1];
        let before = missing_nodes(spec, (n - 1) as nat);
        let a = missing_name(spec, link.src.node@);
        let b = missing_name(spec, link.dst.node@);
        let after = before + a + b;
        undeclared_nodes_are_missing(spec, (n - 1) as nat, name);
        if before.contains(name) {
            let k = choose|k: int| 0 <= k < before.len() && before[k] == name;
            assert(after[k] == name);
        }
        if after.contains(name) {
            let k = choose|k: int| 0 <= k < after.len() && after[k] == name;
            if k < before.len() {
                assert(before[k] == name);
                assert(before.contains(name));
            } else {
                assert(spec.links@[n - 1].src.node@ == name || spec.links@[n - 1].dst.node@
                    == name);
            }
        }
        if !has_node(spec.nodes@, name) {
            if link.src.node@ == name {
                assert(after[before.len() as int] == name);
            }
            if link.dst.node@ == name {
                assert(after[after.len() - 1] == name);
            }
        }
    }
}

/// An overlay is consistent where every node that names a host has it declared, unless no host is
/// declared at all, and every link ends at nodes that are declared.
pub proof fn consistent_overlays_are_complete(spec: OverlaySpec)
    ensures
        is_consistent(spec) <==> (spec.hosts@.len() > 0 ==> forall|i: int|
            0 <= i < spec.nodes@.len() ==> (#[trigger] spec.nodes@[i]).host@ == "auto"@
                || has_host(spec.hosts@, spec.nodes@[i].host@)) && (forall|i: int|
            0 <= i < spec.links@.len() ==> has_node(
                spec.nodes@,
                (#[trigger] spec.links@[i]).src.node@,
            ) && has_node(spec.nodes@, spec.links@[i].dst.node@)),
{
    let hosts = missing_hosts(spec, spec.nodes@.len());
    let nodes = missing_nodes(spec, spec.links@.len());
    if is_consistent(spec) {
        if spec.hosts@.len() > 0 {
            assert forall|i: int| 0 <= i < spec.nodes@.len() implies (
            #[trigger] spec.nodes@[i]).host@ == "auto"@ || has_host(
                spec.hosts@,
                spec.nodes@[i].host@,
            ) by {
                undeclared_hosts_are_missing(spec, spec.nodes@.len(), spec.nodes@[i].host@);
            }
        }
        assert forall|i: int| 0 <= i < spec.links@.len() implies has_node(
            spec.nodes@,
            (#[trigger] spec.links@[i]).src.node@,
        ) && has_node(spec.nodes@, spec.links@[i].dst.node@) by {
            undeclared_nodes_are_missing(spec, spec.links@.len(), spec.links@[i].src.node@);
            undeclared_nodes_are_missing(spec, spec.links@.len(), spec.links@[i].dst.node@);
        }
    } else {
        if hosts.len() > 0 {
            assert(hosts.contains(hosts[0]));
            undeclared_hosts_are_missing(spec, spec.nodes@.len(), hosts[0]);
        } else {
            assert(nodes.contains(nodes[0]));
            undeclared_nodes_are_missing(spec, spec.links@.len(), nodes[0]);
        }
    }
}

proof fn pool_nodes_are_on_every_host(
    pool: VirtualPool,
    per_host: nat,
    hosts: Seq<OverlayHost>,
    n: nat,
    i: int,
    k: int,
)
    requires
        0 <= i < n <= hosts.len(),
        0 <= k < per_host,
    ensures
        pool_nodes(pool, per_host, hosts, n).contains(
            (
                pool.prefix@ + "-"@ + hosts[i].name@ + "-"@ + crate::text::dec(
                    (pool.start_index + k) as nat,
                ),
                hosts[i].name@,
            ),
        ),
    decreases n,
{
    let before = pool_nodes(pool, per_host, hosts, (n - 1) as nat);
    let all = pool_nodes(pool, per_host, hosts, n);
    let name = pool.prefix@ + "-"@ + hosts[i].name@ + "-"@ + crate::text::dec(
        (pool.start_index + k) as nat,
    );
    if i < n - 1 {
        pool_nodes_are_on_every_host(pool, per_host, hosts, (n - 1) as nat, i, k);
        let m = choose|m: int|
            0 <= m < before.len() && before[m] == (name, hosts[i].name@);
        assert(all[m] == before[m]);
    } else {
        assert(all[before.len() + k] == (name, hosts[i].name@));
    }
}

/// A pool puts as many nodes as it is asked for on every host, numbered from its first index on.
pub proof fn pools_fill_every_host(
    before: OverlaySpec,
    after: OverlaySpec,
    pool: VirtualPool,
    per_host: usize,
    i: int,
    k: int,
)
    requires
        is_expansion(before, after),
        before.nodes@.len() == 0,
        before.virtual_pool == Some(pool),
        pool.per_host == Some(per_host),
        0 <= i < after.hosts@.len(),
        0 <= k < per_host,
    ensures
        exists|m: int|
            0 <= m < after.nodes@.len() && (#[trigger] after.nodes@[m]).host@
                == after.hosts@[i].name@ && after.nodes@[m].name@ == pool.prefix@ + "-"@
                + after.hosts@[i].name@ + "-"@ + crate::text::dec((pool.start_index + k) as nat),
{
    pool_nodes_are_on_every_host(
        pool,
        per_host as nat,
        after.hosts@,
        after.hosts@.len(),
        i,
        k,
    );
    let list = placements(after.nodes@);
    let e = (
        pool.prefix@ + "-"@ + after.hosts@[i].name@ + "-"@ + crate::text::dec(
            (pool.start_index + k) as nat,
        ),
        after.hosts@[i].name@,
    );
    let m = choose|m: int| 0 <= m < list.len() && list[m] == e;
    assert(after.nodes@[m].host@ == e.1);
}

/// A pool of hosts makes as many as it is asked for, numbered from one on; hosts, nodes and links
/// that are declared stay as they are.
pub proof fn declared_parts_are_kept(before: OverlaySpec, after: OverlaySpec)
    requires
        is_expansion(before, after),
    ensures
        before.hosts@.len() > 0 ==> after.hosts@ == before.hosts@,
        before.nodes@.len() > 0 ==> after.nodes@ == before.nodes@,
        after.links == before.links,
        after.tunnels == before.tunnels,
        before.vlan_pool is Some ==> after.vlan_start == before.vlan_pool->0.start,
        before.vlan_pool is None ==> after.vlan_start == before.vlan_start,
        before.hosts@.len() == 0 && before.host_pool is Some && before.host_pool->0.count is Some
            && before.host_pool->0.count->0 > 0 ==> {
            &&& after.hosts@.len() == before.host_pool->0.count->0
            &&& forall|i: int|
                0 <= i < after.hosts@.len() ==> (#[trigger] after.hosts@[i]).name@
                    == before.host_pool->0.prefix@ + crate::text::dec((i + 1) as nat)
        },
{
}

} // verus!
