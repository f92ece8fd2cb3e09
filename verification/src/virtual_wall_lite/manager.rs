//! Access to the nodes of an existing experiment.

use vstd::prelude::*;

use crate::quoting::quote;
use crate::string_map::StringMap;
use crate::surroundings::{copy_opt, first_of, join_path, opt_path_nonempty};
use crate::text::{find_text, join, same, to_ascii_lower, trim, u64_text};
use crate::virtual_wall_lite::config::{JumpProxy, VirtualWallConfig};
use crate::virtual_wall_lite::error::VirtualWallError;
use crate::virtual_wall_lite::rspec::{
    RspecInterface, RspecIp, RspecLink, RspecLogin, RspecNode, RspecTopology,
};
use crate::virtual_wall_lite::ssh::{LocalIdentities, SshOptions, SshTarget};
use crate::virtual_wall_lite::start_options::StartOptions;
use crate::virtual_wall_lite::state::{ResourceRecordLite, SshLoginLite, VirtualWallStateLite};
use crate::virtual_wall_lite::tunnels::{TunnelInfo, TunnelRequest};

verus! {

/// An interface of a node.
#[derive(Debug)]
pub struct NodeInterface {
    pub id: String,
    pub ips: Vec<RspecIp>,
}

/// A node that can be logged in on.
#[derive(Debug)]
pub struct Node {
    /// The name that the node is known by.
    pub id: String,
    /// The name of the node in the manifest.
    pub rspec_client_id: Option<String>,
    /// Where to log in.
    pub ssh: SshTarget,
    /// The interfaces, as the manifest has them.
    pub interfaces: Vec<NodeInterface>,
}

/// What a [`NodeInterface`] says.
#[verifier::ext_equal]
pub struct NodeInterfaceView {
    pub id: Seq<char>,
    pub ips: Seq<crate::virtual_wall_lite::rspec::IpView>,
}

impl View for NodeInterface {
    type V = NodeInterfaceView;

    open spec fn view(&self) -> NodeInterfaceView {
        NodeInterfaceView {
            id: self.id@,
            ips: Seq::new(self.ips@.len(), |i: int| self.ips@[i]@),
        }
    }
}

/// What an [`SshTarget`] says.
#[verifier::ext_equal]
pub struct TargetView {
    pub host: Seq<char>,
    pub port: u16,
    pub username: Option<Seq<char>>,
    pub jump_proxy: Option<crate::virtual_wall_lite::config::JumpProxyView>,
}

/// What an optional jump proxy says.
pub open spec fn proxy_text(p: Option<JumpProxy>) -> Option<
    crate::virtual_wall_lite::config::JumpProxyView,
> {
    match p {
        Some(p) => Some(p@),
        None => None,
    }
}

/// What a login target says.
pub open spec fn target_view(t: SshTarget) -> TargetView {
    TargetView {
        host: t.host@,
        port: t.port,
        username: crate::text::opt_text(t.username),
        jump_proxy: proxy_text(t.jump_proxy),
    }
}

/// What a [`Node`] says.
#[verifier::ext_equal]
pub struct KnownNode {
    pub id: Seq<char>,
    pub rspec_client_id: Option<Seq<char>>,
    pub ssh: TargetView,
    pub interfaces: Seq<NodeInterfaceView>,
}

impl View for Node {
    type V = KnownNode;

    open spec fn view(&self) -> KnownNode {
        KnownNode {
            id: self.id@,
            rspec_client_id: crate::text::opt_text(self.rspec_client_id),
            ssh: target_view(self.ssh),
            interfaces: Seq::new(self.interfaces@.len(), |i: int| self.interfaces@[i]@),
        }
    }
}

/// The nodes by name, and the names by the names in the manifest.
#[verifier::ext_equal]
pub struct Inventory {
    pub nodes: Map<Seq<char>, KnownNode>,
    pub names: Map<Seq<char>, Seq<char>>,
}

/// No nodes.
pub open spec fn no_nodes() -> Inventory {
    Inventory { nodes: Map::empty(), names: Map::empty() }
}

/// What the values of a map of nodes say.
pub open spec fn known(m: Map<Seq<char>, Node>) -> Map<Seq<char>, KnownNode> {
    m.map_values(|n: Node| n@)
}

/// The texts of a map of strings.
pub open spec fn names_of(m: Map<Seq<char>, String>) -> Map<Seq<char>, Seq<char>> {
    m.map_values(|s: String| s@)
}

/// The last node of a manifest that is logged in on at a host.
pub open spec fn node_at_host(nodes: Seq<RspecNode>, host: Seq<char>) -> Option<RspecNode>
    decreases nodes.len(),
{
    if nodes.len() == 0 {
        None
    } else {
        match nodes.last().login {
            Some(l) if crate::text::ascii_lowered(l.host@) == host => Some(nodes.last()),
            _ => node_at_host(nodes.drop_last(), host),
        }
    }
}

/// The interfaces of a node of a manifest.
pub open spec fn interfaces_of(n: RspecNode) -> Seq<NodeInterfaceView> {
    Seq::new(
        n.interfaces@.len(),
        |i: int|
            NodeInterfaceView {
                id: n.interfaces@[i].client_id@,
                ips: Seq::new(
                    n.interfaces@[i].ips@.len(),
                    |j: int| n.interfaces@[i].ips@[j]@,
                ),
            },
    )
}

/// The login of a recorded resource: the first one.
pub open spec fn login_of(r: ResourceRecordLite) -> Option<SshLoginLite> {
    match r.metadata {
        Some(m) if m.ssh_logins@.len() > 0 => Some(m.ssh_logins@[0]),
        _ => None,
    }
}

/// A node that the state file has recorded.
pub open spec fn recorded_node(
    c: VirtualWallConfig,
    nodes: Seq<RspecNode>,
    name: Seq<char>,
    login: SshLoginLite,
) -> KnownNode {
    let found = node_at_host(nodes, crate::text::ascii_lowered(login.host@));
    KnownNode {
        id: name,
        rspec_client_id: match found {
            Some(n) => Some(n.client_id@),
            None => None,
        },
        ssh: TargetView {
            host: login.host@,
            port: login.port,
            username: crate::surroundings::either(
                crate::text::opt_text(login.username),
                crate::text::opt_text(c.ssh_username),
            ),
            jump_proxy: crate::surroundings::either(
                proxy_text(login.jump_proxy),
                proxy_text(c.jump_proxy),
            ),
        },
        interfaces: match found {
            Some(n) => interfaces_of(n),
            None => Seq::empty(),
        },
    }
}

/// The inventory with a recorded resource. One without a login or without a name is left out.
pub open spec fn with_resource(
    inventory: Inventory,
    c: VirtualWallConfig,
    nodes: Seq<RspecNode>,
    r: ResourceRecordLite,
) -> Inventory {
    let name = crate::text::trimmed(r.name@);
    match login_of(r) {
        Some(login) if name.len() > 0 => {
            let node = recorded_node(c, nodes, name, login);
            Inventory {
                nodes: inventory.nodes.insert(name, node),
                names: match node.rspec_client_id {
                    Some(cid) => inventory.names.insert(cid, name),
                    None => inventory.names,
                },
            }
        },
        _ => inventory,
    }
}

/// The inventory of recorded resources.
pub open spec fn recorded_inventory(
    c: VirtualWallConfig,
    nodes: Seq<RspecNode>,
    resources: Seq<ResourceRecordLite>,
) -> Inventory
    decreases resources.len(),
{
    if resources.len() == 0 {
        no_nodes()
    } else {
        with_resource(
            recorded_inventory(c, nodes, resources.drop_last()),
            c,
            nodes,
            resources.last(),
        )
    }
}

/// A node of the manifest that can be logged in on.
pub open spec fn listed_node(c: VirtualWallConfig, n: RspecNode, login: RspecLogin) -> KnownNode {
    KnownNode {
        id: n.client_id@,
        rspec_client_id: Some(n.client_id@),
        ssh: TargetView {
            host: login.host@,
            port: login.port,
            username: crate::surroundings::either(
                crate::text::opt_text(login.username),
                crate::text::opt_text(c.ssh_username),
            ),
            jump_proxy: proxy_text(c.jump_proxy),
        },
        interfaces: interfaces_of(n),
    }
}

/// The inventory of the nodes of a manifest. A node without a login is left out.
pub open spec fn listed_inventory(c: VirtualWallConfig, nodes: Seq<RspecNode>) -> Inventory
    decreases nodes.len(),
{
    if nodes.len() == 0 {
        no_nodes()
    } else {
        let before = listed_inventory(c, nodes.drop_last());
        let n = nodes.last();
        match n.login {
            Some(login) => Inventory {
                nodes: before.nodes.insert(n.client_id@, listed_node(c, n, login)),
                names: before.names.insert(n.client_id@, n.client_id@),
            },
            None => before,
        }
    }
}

/// The inventory of an experiment: what the state file has recorded, or the nodes of the
/// manifest where that is nothing.
pub open spec fn inventory_of(
    c: VirtualWallConfig,
    nodes: Seq<RspecNode>,
    state: Option<VirtualWallStateLite>,
) -> Inventory {
    match state {
        Some(s) => {
            let recorded = recorded_inventory(c, nodes, s.resources@);
            if recorded.nodes != Map::<Seq<char>, KnownNode>::empty() {
                recorded
            } else {
                listed_inventory(c, nodes)
            }
        },
        None => listed_inventory(c, nodes),
    }
}

proof fn nothing_recorded(
    c: VirtualWallConfig,
    nodes: Seq<RspecNode>,
    resources: Seq<ResourceRecordLite>,
)
    ensures
        recorded_inventory(c, nodes, resources).nodes == Map::<Seq<char>, KnownNode>::empty()
            ==> recorded_inventory(c, nodes, resources) == no_nodes(),
    decreases resources.len(),
{
    if resources.len() > 0 {
        let before = recorded_inventory(c, nodes, resources.drop_last());
        nothing_recorded(c, nodes, resources.drop_last());
        let now = recorded_inventory(c, nodes, resources);
        let name = crate::text::trimmed(resources.last().name@);
        if now.nodes == Map::<Seq<char>, KnownNode>::empty() {
            match login_of(resources.last()) {
                Some(login) if name.len() > 0 => {
                    assert(now.nodes.dom().contains(name));
                },
                _ => {},
            }
        }
    }
}

/// Every name of the manifest stands for a node of the inventory.
pub proof fn names_lead_to_nodes(
    c: VirtualWallConfig,
    nodes: Seq<RspecNode>,
    state: Option<VirtualWallStateLite>,
    cid: Seq<char>,
)
    requires
        inventory_of(c, nodes, state).names.dom().contains(cid),
    ensures
        inventory_of(c, nodes, state).nodes.dom().contains(
            inventory_of(c, nodes, state).names[cid],
        ),
{
    match state {
        Some(s) => {
            recorded_names_lead_to_nodes(c, nodes, s.resources@, cid);
            listed_names_lead_to_nodes(c, nodes, cid);
        },
        None => {
            listed_names_lead_to_nodes(c, nodes, cid);
        },
    }
}

proof fn recorded_names_lead_to_nodes(
    c: VirtualWallConfig,
    nodes: Seq<RspecNode>,
    resources: Seq<ResourceRecordLite>,
    cid: Seq<char>,
)
    ensures
        recorded_inventory(c, nodes, resources).names.dom().contains(cid)
            ==> recorded_inventory(c, nodes, resources).nodes.dom().contains(
            recorded_inventory(c, nodes, resources).names[cid],
        ),
    decreases resources.len(),
{
    if resources.len() > 0 {
        recorded_names_lead_to_nodes(c, nodes, resources.drop_last(), cid);
    }
}

proof fn listed_names_lead_to_nodes(c: VirtualWallConfig, nodes: Seq<RspecNode>, cid: Seq<char>)
    ensures
        listed_inventory(c, nodes).names.dom().contains(cid) ==> listed_inventory(
            c,
            nodes,
        ).nodes.dom().contains(listed_inventory(c, nodes).names[cid]),
    decreases nodes.len(),
{
    if nodes.len() > 0 {
        listed_names_lead_to_nodes(c, nodes.drop_last(), cid);
    }
}

fn find_at_host<'a>(nodes: &'a Vec<RspecNode>, host: &str) -> (r: Option<&'a RspecNode>)
    ensures
        match r {
            Some(n) => node_at_host(nodes@, host@) == Some(*n),
            None => node_at_host(nodes@, host@) is None,
        },
{
    let mut i: usize = nodes.len();
    assert(nodes@.take(i as int) =~= nodes@);
    while i > 0
        invariant
            i <= nodes.len(),
            node_at_host(nodes@, host@) == node_at_host(nodes@.take(i as int), host@),
        decreases i,
    {
        assert(nodes@.take(i as int).drop_last() =~= nodes@.take(i - 1));
        assert(nodes@.take(i as int).last() == nodes@[i - 1]);
        let n = &nodes[i - 1];
        if let Some(login) = &n.login {
            if same(to_ascii_lower(login.host.as_str()).as_str(), host) {
                return Some(n);
            }
        }
        i -= 1;
    }
    None
}

fn copy_ips(ips: &Vec<RspecIp>) -> (r: Vec<RspecIp>)
    ensures
        r@.len() == ips@.len(),
        forall|i: int| 0 <= i < r@.len() ==> (#[trigger] r@[i])@ == ips@[i]@,
{
    let mut out: Vec<RspecIp> = Vec::new();
    let mut i: usize = 0;
    while i < ips.len()
        invariant
            i <= ips.len(),
            out@.len() == i,
            forall|j: int| 0 <= j < i ==> (#[trigger] out@[j])@ == ips@[j]@,
        decreases ips.len() - i,
    {
        out.push(
            RspecIp {
                address: ips[i].address.clone(),
                netmask: copy_opt(&ips[i].netmask),
                ip_type: copy_opt(&ips[i].ip_type),
            },
        );
        i += 1;
    }
    out
}

fn node_interfaces(n: &RspecNode) -> (r: Vec<NodeInterface>)
    ensures
        Seq::new(r@.len(), |i: int| r@[i]@) == interfaces_of(*n),
{
    let ifaces: &Vec<RspecInterface> = &n.interfaces;
    let mut out: Vec<NodeInterface> = Vec::new();
    let mut i: usize = 0;
    while i < ifaces.len()
        invariant
            i <= ifaces.len(),
            ifaces == &n.interfaces,
            out@.len() == i,
            forall|j: int| 0 <= j < i ==> (#[trigger] out@[j])@ == interfaces_of(*n)[j],
        decreases ifaces.len() - i,
    {
        let made = NodeInterface {
            id: ifaces[i].client_id.clone(),
            ips: copy_ips(&ifaces[i].ips),
        };
        assert(made@ =~= interfaces_of(*n)[i as int]);
        out.push(made);
        i += 1;
    }
    assert(Seq::new(out@.len(), |i: int| out@[i]@) =~= interfaces_of(*n));
    out
}

fn copy_proxy(p: &Option<JumpProxy>) -> (r: Option<JumpProxy>)
    ensures
        r == *p,
{
    match p {
        Some(p) => Some(p.clone()),
        None => None,
    }
}

fn enter(nodes: &mut StringMap<Node>, node: Node)
    ensures
        known(final(nodes)@) == known(old(nodes)@).insert(node@.id, node@),
{
    let ghost before = nodes@;
    let ghost n = node;
    nodes.insert(node.id.clone(), node);
    assert(known(nodes@) =~= known(before).insert(n@.id, n@));
}

fn alias(names: &mut StringMap<String>, cid: String, name: String)
    ensures
        names_of(final(names)@) == names_of(old(names)@).insert(cid@, name@),
{
    let ghost before = names@;
    let ghost (c, n) = (cid@, name@);
    names.insert(cid, name);
    assert(names_of(names@) =~= names_of(before).insert(c, n));
}

fn enter_resource(
    config: &VirtualWallConfig,
    rspec: &Vec<RspecNode>,
    r: &ResourceRecordLite,
    nodes: &mut StringMap<Node>,
    names: &mut StringMap<String>,
)
    ensures
        ({
            let after = with_resource(
                Inventory { nodes: known(old(nodes)@), names: names_of(old(names)@) },
                *config,
                rspec@,
                *r,
            );
            &&& known(final(nodes)@) == after.nodes
            &&& names_of(final(names)@) == after.names
        }),
{
    let meta = match &r.metadata {
        Some(m) => m,
        None => {
            return ;
        },
    };
    if meta.ssh_logins.len() == 0 {
        return ;
    }
    let login = &meta.ssh_logins[0];
    let name = trim(r.name.as_str());
    if name.is_empty() {
        return ;
    }
    let found = find_at_host(rspec, to_ascii_lower(login.host.as_str()).as_str());
    let (cid, interfaces) = match found {
        Some(n) => (Some(n.client_id.clone()), node_interfaces(n)),
        None => (None, Vec::new()),
    };
    if let Some(cid) = &cid {
        alias(names, cid.clone(), name.to_owned());
    }
    let node = Node {
        id: name.to_owned(),
        rspec_client_id: cid,
        ssh: SshTarget {
            host: login.host.clone(),
            port: login.port,
            username: first_of(copy_opt(&login.username), copy_opt(&config.ssh_username)),
            jump_proxy: match copy_proxy(&login.jump_proxy) {
                Some(p) => Some(p),
                None => copy_proxy(&config.jump_proxy),
            },
        },
        interfaces,
    };
    assert(node@ =~= recorded_node(*config, rspec@, name@, *login));
    enter(nodes, node);
}

/// The nodes of an experiment by name, and their names by the names in the manifest.
pub fn build_nodes(
    config: &VirtualWallConfig,
    rspec: &RspecTopology,
    state: &Option<VirtualWallStateLite>,
) -> (r: Result<(StringMap<Node>, StringMap<String>), VirtualWallError>)
    ensures
        ({
            let inventory = inventory_of(*config, rspec.nodes@, *state);
            match r {
                Ok((nodes, names)) => {
                    &&& known(nodes@) == inventory.nodes
                    &&& names_of(names@) == inventory.names
                    &&& inventory.nodes != Map::<Seq<char>, KnownNode>::empty()
                },
                Err(VirtualWallError::State(m)) => {
                    &&& inventory.nodes == Map::<Seq<char>, KnownNode>::empty()
                    &&& m@ == "No nodes with login info found in state.json or rspec"@
                },
                Err(_) => false,
            }
        }),
{
    let mut nodes: StringMap<Node> = StringMap::new();
    let mut names: StringMap<String> = StringMap::new();
    assert(known(nodes@) =~= Map::<Seq<char>, KnownNode>::empty());
    assert(names_of(names@) =~= Map::<Seq<char>, Seq<char>>::empty());
    if let Some(state) = state {
        let mut i: usize = 0;
        let ghost all = state.resources@;
        assert(all.take(0) =~= Seq::<ResourceRecordLite>::empty());
        while i < state.resources.len()
            invariant
                i <= state.resources.len(),
                all == state.resources@,
                known(nodes@) == recorded_inventory(
                    *config,
                    rspec.nodes@,
                    all.take(i as int),
                ).nodes,
                names_of(names@) == recorded_inventory(
                    *config,
                    rspec.nodes@,
                    all.take(i as int),
                ).names,
            decreases state.resources.len() - i,
        {
            assert(all.take(i + 1).drop_last() =~= all.take(i as int));
            assert(all.take(i + 1).last() == all[i as int]);
            enter_resource(config, &rspec.nodes, &state.resources[i], &mut nodes, &mut names);
            i += 1;
        }
        assert(all.take(i as int) =~= all);
        proof {
            nothing_recorded(*config, rspec.nodes@, all);
            emptiness(nodes@);
        }
        if !nodes.is_empty() {
            return Ok((nodes, names));
        }
        assert(known(nodes@) =~= Map::<Seq<char>, KnownNode>::empty());
    }
    let mut i: usize = 0;
    let ghost all = rspec.nodes@;
    assert(all.take(0) =~= Seq::<RspecNode>::empty());
    while i < rspec.nodes.len()
        invariant
            i <= rspec.nodes.len(),
            all == rspec.nodes@,
            known(nodes@) == listed_inventory(*config, all.take(i as int)).nodes,
            names_of(names@) == listed_inventory(*config, all.take(i as int)).names,
        decreases rspec.nodes.len() - i,
    {
        assert(all.take(i + 1).drop_last() =~= all.take(i as int));
        assert(all.take(i + 1).last() == all[i as int]);
        let n = &rspec.nodes[i];
        if let Some(login) = &n.login {
            alias(&mut names, n.client_id.clone(), n.client_id.clone());
            let node = Node {
                id: n.client_id.clone(),
                rspec_client_id: Some(n.client_id.clone()),
                ssh: SshTarget {
                    host: login.host.clone(),
                    port: login.port,
                    username: first_of(copy_opt(&login.username), copy_opt(&config.ssh_username)),
                    jump_proxy: copy_proxy(&config.jump_proxy),
                },
                interfaces: node_interfaces(n),
            };
            assert(node@ =~= listed_node(*config, *n, *login));
            enter(&mut nodes, node);
        }
        i += 1;
    }
    assert(all.take(i as int) =~= all);
    proof {
        emptiness(nodes@);
    }
    if nodes.is_empty() {
        return Err(
            VirtualWallError::State(
                "No nodes with login info found in state.json or rspec".to_owned(),
            ),
        );
    }
    Ok((nodes, names))
}

proof fn emptiness(m: Map<Seq<char>, Node>)
    ensures
        m == Map::<Seq<char>, Node>::empty() <==> known(m) == Map::<Seq<char>, KnownNode>::empty(),
{
    if m == Map::<Seq<char>, Node>::empty() {
        assert(known(m) =~= Map::<Seq<char>, KnownNode>::empty());
    }
    if known(m) == Map::<Seq<char>, KnownNode>::empty() {
        assert(m.dom() =~= known(m).dom());
        assert(m =~= Map::<Seq<char>, Node>::empty());
    }
}

/// The text before the first colon.
pub open spec fn before_colon(s: Seq<char>) -> Seq<char> {
    match crate::text::find_from(s, ":"@, 0) {
        Some(i) => s.take(i),
        None => s,
    }
}

fn node_part<'a>(s: &'a str) -> (r: &'a str)
    ensures
        r@ == before_colon(s@),
{
    let at: Option<usize> = find_text(s, ":", 0);
    match at {
        Some(at) => {
            proof {
                reveal_strlit(":");
                crate::text::find_from_is_first(s@, ":"@, 0);
            }
            s.substring_char(0, at)
        },
        None => s,
    }
}

/// The first address of an interface.
pub open spec fn first_address(i: NodeInterfaceView) -> Seq<char> {
    if i.ips.len() > 0 {
        i.ips[0].address
    } else {
        "N/A"@
    }
}

/// The first address of the first interface with an identifier.
pub open spec fn address_of(interfaces: Seq<NodeInterfaceView>, id: Seq<char>) -> Seq<char>
    decreases interfaces.len(),
{
    if interfaces.len() == 0 {
        "N/A"@
    } else if interfaces[0].id == id {
        first_address(interfaces[0])
    } else {
        address_of(interfaces.skip(1), id)
    }
}

/// The first address of an interface of a node; `N/A` where there is none.
pub fn first_ip_for_iface<'a>(node: &'a Node, iface_id: &str) -> (r: &'a str)
    ensures
        r@ == address_of(node@.interfaces, iface_id@),
{
    let mut i: usize = 0;
    let ghost all = node@.interfaces;
    assert(all.skip(0) =~= all);
    while i < node.interfaces.len()
        invariant
            i <= node.interfaces.len(),
            all == node@.interfaces,
            address_of(all, iface_id@) == address_of(all.skip(i as int), iface_id@),
        decreases node.interfaces.len() - i,
    {
        assert(all.skip(i as int)[0] == node.interfaces@[i as int]@);
        assert(all.skip(i as int).skip(1) =~= all.skip(i + 1));
        let interface = &node.interfaces[i];
        if same(interface.id.as_str(), iface_id) {
            if interface.ips.len() > 0 {
                return interface.ips[0].address.as_str();
            }
            return "N/A";
        }
        i += 1;
    }
    "N/A"
}

/// An end of a link.
pub struct EndpointView {
    pub node: Seq<char>,
    pub interface: Seq<char>,
    pub ip: Seq<char>,
}

/// The name of the node that an interface of the manifest belongs to.
pub open spec fn name_for(inventory: Inventory, cid: Seq<char>) -> Seq<char> {
    if inventory.names.dom().contains(cid) {
        inventory.names[cid]
    } else {
        cid
    }
}

/// The end of a link at an interface of the manifest, where its node is known.
pub open spec fn endpoint_at(inventory: Inventory, reference: Seq<char>) -> Option<EndpointView> {
    let cid = crate::text::trimmed(before_colon(reference));
    let name = name_for(inventory, cid);
    if cid.len() > 0 && inventory.nodes.dom().contains(name) {
        Some(
            EndpointView {
                node: name,
                interface: reference,
                ip: address_of(inventory.nodes[name].interfaces, reference),
            },
        )
    } else {
        None
    }
}

/// The ends of a link.
pub open spec fn endpoints_at(inventory: Inventory, references: Seq<Seq<char>>) -> Seq<EndpointView>
    decreases references.len(),
{
    if references.len() == 0 {
        Seq::empty()
    } else {
        let before = endpoints_at(inventory, references.drop_last());
        match endpoint_at(inventory, references.last()) {
            Some(e) => before.push(e),
            None => before,
        }
    }
}

/// A connection between two nodes.
#[derive(Debug)]
pub struct LinkEntry {
    pub intf1: String,
    pub intf2: String,
    pub ip1: String,
    pub ip2: String,
    pub node1: String,
    pub node2: String,
    pub status: String,
    pub link_id: String,
    pub vlantag: Option<String>,
}

/// What a [`LinkEntry`] says.
#[verifier::ext_equal]
pub struct LinkEntryView {
    pub intf1: Seq<char>,
    pub intf2: Seq<char>,
    pub ip1: Seq<char>,
    pub ip2: Seq<char>,
    pub node1: Seq<char>,
    pub node2: Seq<char>,
    pub status: Seq<char>,
    pub link_id: Seq<char>,
    pub vlantag: Option<Seq<char>>,
}

impl View for LinkEntry {
    type V = LinkEntryView;

    open spec fn view(&self) -> LinkEntryView {
        LinkEntryView {
            intf1: self.intf1@,
            intf2: self.intf2@,
            ip1: self.ip1@,
            ip2: self.ip2@,
            node1: self.node1@,
            node2: self.node2@,
            status: self.status@,
            link_id: self.link_id@,
            vlantag: crate::text::opt_text(self.vlantag),
        }
    }
}

/// What link entries say.
pub open spec fn link_views(v: Seq<LinkEntry>) -> Seq<LinkEntryView> {
    Seq::new(v.len(), |i: int| v[i]@)
}

/// The connection between two ends of a link; it is up where both have an address.
pub open spec fn connection(
    link: crate::virtual_wall_lite::rspec::LinkView,
    a: EndpointView,
    b: EndpointView,
) -> LinkEntryView {
    LinkEntryView {
        intf1: a.interface,
        intf2: b.interface,
        ip1: a.ip,
        ip2: b.ip,
        node1: a.node,
        node2: b.node,
        status: if a.ip != "N/A"@ && b.ip != "N/A"@ {
            "up"@
        } else {
            "unknown"@
        },
        link_id: link.client_id,
        vlantag: link.vlantag,
    }
}

/// The connections of a link: from its first end to each of the others.
pub open spec fn star(
    inventory: Inventory,
    link: crate::virtual_wall_lite::rspec::LinkView,
) -> Seq<LinkEntryView> {
    let ends = endpoints_at(inventory, link.interface_refs);
    if ends.len() < 2 {
        Seq::empty()
    } else {
        Seq::new((ends.len() - 1) as nat, |i: int| connection(link, ends[0], ends[i + 1]))
    }
}

/// The connections of links.
pub open spec fn stars(
    inventory: Inventory,
    links: Seq<crate::virtual_wall_lite::rspec::LinkView>,
) -> Seq<LinkEntryView>
    decreases links.len(),
{
    if links.len() == 0 {
        Seq::empty()
    } else {
        stars(inventory, links.drop_last()) + star(inventory, links.last())
    }
}

/// A node or a link in a picture of the experiment.
#[derive(Debug)]
pub struct VisualNode {
    pub id: String,
    pub kind: String,
    pub color: String,
}

/// A line in a picture of the experiment.
#[derive(Debug)]
pub struct VisualEdge {
    pub src: String,
    pub dst: String,
    pub color: String,
}

/// What a [`VisualNode`] says.
#[verifier::ext_equal]
pub struct VisualNodeView {
    pub id: Seq<char>,
    pub kind: Seq<char>,
    pub color: Seq<char>,
}

/// What a [`VisualEdge`] says.
#[verifier::ext_equal]
pub struct VisualEdgeView {
    pub src: Seq<char>,
    pub dst: Seq<char>,
    pub color: Seq<char>,
}

impl View for VisualNode {
    type V = VisualNodeView;

    open spec fn view(&self) -> VisualNodeView {
        VisualNodeView { id: self.id@, kind: self.kind@, color: self.color@ }
    }
}

impl View for VisualEdge {
    type V = VisualEdgeView;

    open spec fn view(&self) -> VisualEdgeView {
        VisualEdgeView { src: self.src@, dst: self.dst@, color: self.color@ }
    }
}

/// How a node is drawn.
pub open spec fn drawn_node(id: Seq<char>) -> VisualNodeView {
    VisualNodeView { id, kind: "node"@, color: "#2563eb"@ }
}

/// How a link is drawn.
pub open spec fn drawn_switch(link: Seq<char>) -> VisualNodeView {
    VisualNodeView { id: "sw:"@ + link, kind: "switch"@, color: "#6b7280"@ }
}

/// The lines from the nodes of a link to the link.
pub open spec fn drawn_edges(
    names: Map<Seq<char>, Seq<char>>,
    link: Seq<char>,
    references: Seq<Seq<char>>,
) -> Seq<VisualEdgeView>
    decreases references.len(),
{
    if references.len() == 0 {
        Seq::empty()
    } else {
        let before = drawn_edges(names, link, references.drop_last());
        let cid = before_colon(references.last());
        if names.dom().contains(cid) {
            before.push(
                VisualEdgeView { src: names[cid], dst: "sw:"@ + link, color: "#94a3b8"@ },
            )
        } else {
            before
        }
    }
}

/// The lines of links.
pub open spec fn all_edges(
    names: Map<Seq<char>, Seq<char>>,
    links: Seq<crate::virtual_wall_lite::rspec::LinkView>,
) -> Seq<VisualEdgeView>
    decreases links.len(),
{
    if links.len() == 0 {
        Seq::empty()
    } else {
        all_edges(names, links.drop_last()) + drawn_edges(
            names,
            links.last().client_id,
            links.last().interface_refs,
        )
    }
}

/// A picture of an experiment.
#[derive(Debug)]
pub struct Picture {
    pub nodes: Vec<VisualNode>,
    pub edges: Vec<VisualEdge>,
}

/// A summary of an experiment.
#[derive(Debug)]
pub struct StartSummary {
    pub experiment_name: String,
    pub experiment_id: Option<String>,
    pub resources: Vec<String>,
}

/// Access to an existing experiment.
#[derive(Debug)]
pub struct VirtualWallManager {
    pub config: VirtualWallConfig,
    pub ssh: SshOptions,
    pub nodes: StringMap<Node>,
    pub rspec_map: StringMap<String>,
    pub links: Vec<RspecLink>,
    pub state: Option<VirtualWallStateLite>,
}

/// What the links of a manifest say.
pub open spec fn rspec_links(v: Seq<RspecLink>) -> Seq<crate::virtual_wall_lite::rspec::LinkView> {
    Seq::new(v.len(), |i: int| v[i]@)
}

/// The nodes and names that a manager knows.
pub open spec fn inventory_in(m: VirtualWallManager) -> Inventory {
    Inventory { nodes: known(m.nodes@), names: names_of(m.rspec_map@) }
}

/// The names of the nodes that a manager knows, as it lists them.
pub open spec fn listed_names(m: VirtualWallManager) -> Seq<Seq<char>> {
    Seq::new(m.nodes.list().len(), |i: int| m.nodes.list()[i].0@)
}

/// Whether SSH options are those of a configuration.
pub open spec fn are_options_of(o: SshOptions, c: VirtualWallConfig) -> bool {
    &&& o.ssh_binary@ == c.ssh_binary@
    &&& crate::text::opt_text(o.default_username) == crate::text::opt_text(c.ssh_username)
    &&& crate::text::opt_text(o.default_private_key) == crate::text::opt_text(c.ssh_private_key)
    &&& crate::text::opt_text(o.default_proxy_private_key) == crate::text::opt_text(
        c.ssh_proxy_private_key,
    )
    &&& o.forward_agent == c.ssh_forward_agent
    &&& o.forward_x11 == c.ssh_forward_x11
    &&& o.server_alive_interval == c.ssh_server_alive_interval
    &&& o.use_jump_proxy == c.use_jump_proxy
    &&& o.default_jump_proxy == c.jump_proxy
    &&& o.known_hosts@ == c.known_hosts@
    &&& o.host_key_checking == c.host_key_checking
    &&& o.connect_timeout == c.connect_timeout
    &&& o.control_dir@ == crate::surroundings::joined_path(c.state_dir@, "c"@)
    &&& o.control_persist == 900
}

/// The node that a name stands for: the node of that name, else the one with that name in the
/// manifest.
pub open spec fn resolved_name(inventory: Inventory, key: Seq<char>) -> Option<Seq<char>> {
    if inventory.nodes.dom().contains(key) {
        Some(key)
    } else if inventory.names.dom().contains(key) && inventory.nodes.dom().contains(
        inventory.names[key],
    ) {
        Some(inventory.names[key])
    } else {
        None
    }
}

/// The error that a name leads to.
pub open spec fn resolve_fault(m: VirtualWallManager, node: Seq<char>) -> Option<Seq<char>> {
    let key = crate::text::trimmed(node);
    if key.len() == 0 {
        Some("Missing node"@)
    } else if resolved_name(inventory_in(m), key) is None {
        Some(
            "Unknown node '"@ + key + "'. Available: "@ + crate::text::joined(
                listed_names(m),
                ", "@,
            ),
        )
    } else {
        None
    }
}

/// The command line that a terminal runs.
pub open spec fn terminal_line(
    m: VirtualWallManager,
    target: SshTarget,
    local: LocalIdentities,
) -> Seq<char> {
    let args = crate::virtual_wall_lite::ssh::base_args_of(m.ssh, target, None, None, local);
    crate::quoting::quoted(m.config.ssh_binary@) + " "@ + crate::text::joined(
        Seq::new(args.len(), |i: int| crate::quoting::quoted(args[i])),
        " "@,
    ) + " "@ + crate::quoting::quoted(
        crate::virtual_wall_lite::ssh::login_of(m.ssh, target, None),
    )
}

/// The user that is kept with a tunnel to a target: the one that is asked for, as it is written.
/// Where none is asked for and one is configured, it is the target's, else the configured one.
pub open spec fn tunnel_user(
    m: VirtualWallManager,
    target: SshTarget,
    request: TunnelRequest,
) -> Option<Seq<char>> {
    match (request.username, m.config.ssh_username) {
        (Some(user), _) => Some(user@),
        (None, Some(configured)) => crate::surroundings::either(
            crate::surroundings::unless_blank(crate::text::opt_text(target.username)),
            Some(configured@),
        ),
        (None, None) => None,
    }
}

/// Writes a text as one word of a shell command.
pub fn shell_quote(s: &str) -> (r: String)
    ensures
        r@ == crate::quoting::quoted(s@),
{
    quote(s)
}

impl VirtualWallManager {
    /// The SSH options of a configuration.
    pub fn ssh_options(config: &VirtualWallConfig) -> (r: SshOptions)
        ensures
            are_options_of(r, *config),
    {
        SshOptions {
            ssh_binary: config.ssh_binary.clone(),
            default_username: copy_opt(&config.ssh_username),
            default_private_key: copy_opt(&config.ssh_private_key),
            default_proxy_private_key: copy_opt(&config.ssh_proxy_private_key),
            forward_agent: config.ssh_forward_agent,
            forward_x11: config.ssh_forward_x11,
            server_alive_interval: config.ssh_server_alive_interval,
            use_jump_proxy: config.use_jump_proxy,
            default_jump_proxy: copy_proxy(&config.jump_proxy),
            known_hosts: config.known_hosts.clone(),
            host_key_checking: config.host_key_checking,
            connect_timeout: config.connect_timeout,
            control_dir: join_path(config.state_dir.as_str(), "c"),
            control_persist: 900,
        }
    }

    /// Access to the experiment of a manifest, with what the state file has recorded.
    pub fn from_config(
        config: VirtualWallConfig,
        rspec: RspecTopology,
        state: Option<VirtualWallStateLite>,
    ) -> (r: Result<Self, VirtualWallError>)
        ensures
            ({
                let inventory = inventory_of(config, rspec.nodes@, state);
                match r {
                    Ok(m) => {
                        &&& m.config == config
                        &&& are_options_of(m.ssh, config)
                        &&& inventory_in(m) == inventory
                        &&& inventory.nodes != Map::<Seq<char>, KnownNode>::empty()
                        &&& m.links == rspec.links
                        &&& m.state == state
                    },
                    Err(VirtualWallError::State(m)) => {
                        &&& inventory.nodes == Map::<Seq<char>, KnownNode>::empty()
                        &&& m@ == "No nodes with login info found in state.json or rspec"@
                    },
                    Err(_) => false,
                }
            }),
    {
        let ssh = Self::ssh_options(&config);
        match build_nodes(&config, &rspec, &state) {
            Ok((nodes, rspec_map)) => Ok(
                VirtualWallManager { config, ssh, nodes, rspec_map, links: rspec.links, state },
            ),
            Err(e) => Err(e),
        }
    }

    fn names(&self) -> (r: Vec<String>)
        ensures
            crate::text::texts(r@) == listed_names(*self),
    {
        let mut out: Vec<String> = Vec::new();
        let mut i: usize = 0;
        while i < self.nodes.len()
            invariant
                i <= self.nodes.list().len(),
                out@.len() == i,
                forall|j: int| 0 <= j < i ==> (#[trigger] out@[j])@ == self.nodes.list()[j].0@,
            decreases self.nodes.list().len() - i,
        {
            out.push(self.nodes.entry(i).0.clone());
            i += 1;
        }
        assert(crate::text::texts(out@) =~= listed_names(*self));
        out
    }

    /// A summary of the experiment. Nothing is started, whatever the options: the experiment
    /// exists.
    pub fn start_from_options(&self, _options: StartOptions) -> (r: StartSummary)
        ensures
            r.experiment_name@ == match self.state {
                Some(s) => match s.experiment_name {
                    Some(n) => n@,
                    None => "existing"@,
                },
                None => "existing"@,
            },
            crate::text::opt_text(r.experiment_id) == match self.state {
                Some(s) => crate::text::opt_text(s.experiment_id),
                None => None,
            },
            crate::text::texts(r.resources@) == listed_names(*self),
    {
        let (name, id) = match &self.state {
            Some(s) => (copy_opt(&s.experiment_name), copy_opt(&s.experiment_id)),
            None => (None, None),
        };
        StartSummary {
            experiment_name: match name {
                Some(n) => n,
                None => "existing".to_owned(),
            },
            experiment_id: id,
            resources: self.names(),
        }
    }

    /// The node that a name stands for.
    pub fn resolve_node(&self, node: &str) -> (r: Result<&Node, VirtualWallError>)
        ensures
            match resolve_fault(*self, node@) {
                Some(fault) => r matches Err(VirtualWallError::State(m)) && m@ == fault,
                None => r matches Ok(n) && n@ == inventory_in(*self).nodes[resolved_name(
                    inventory_in(*self),
                    crate::text::trimmed(node@),
                )->0],
            },
    {
        let key = trim(node);
        if key.is_empty() {
            return Err(VirtualWallError::State("Missing node".to_owned()));
        }
        if let Some(n) = self.nodes.get(key) {
            return Ok(n);
        }
        if let Some(name) = self.rspec_map.get(key) {
            if let Some(n) = self.nodes.get(name.as_str()) {
                return Ok(n);
            }
        }
        let available = join(&self.names(), ", ");
        Err(
            VirtualWallError::State(
                "Unknown node '".to_owned().concat(key).concat("'. Available: ").concat(
                    available.as_str(),
                ),
            ),
        )
    }

    fn endpoint(&self, reference: &str) -> (r: Option<(String, String, String)>)
        ensures
            endpoint_at(inventory_in(*self), reference@) == match r {
                Some((node, interface, ip)) => Some(
                    EndpointView { node: node@, interface: interface@, ip: ip@ },
                ),
                None => None,
            },
    {
        let cid = trim(node_part(reference));
        if cid.is_empty() {
            return None;
        }
        let name = match self.rspec_map.get(cid) {
            Some(n) => n.as_str(),
            None => cid,
        };
        match self.nodes.get(name) {
            Some(node) => {
                let ip = first_ip_for_iface(node, reference).to_owned();
                Some((name.to_owned(), reference.to_owned(), ip))
            },
            None => None,
        }
    }

    fn endpoints(&self, link: &RspecLink) -> (r: Vec<(String, String, String)>)
        ensures
            Seq::new(
                r@.len(),
                |i: int| EndpointView { node: r@[i].0@, interface: r@[i].1@, ip: r@[i].2@ },
            ) == endpoints_at(inventory_in(*self), link@.interface_refs),
    {
        let refs = &link.interface_refs;
        let ghost all = link@.interface_refs;
        let mut out: Vec<(String, String, String)> = Vec::new();
        let mut i: usize = 0;
        assert(all.take(0) =~= Seq::<Seq<char>>::empty());
        assert(ends(out@) =~= Seq::<EndpointView>::empty());
        while i < refs.len()
            invariant
                i <= refs.len(),
                all == crate::text::texts(refs@),
                ends(out@) == endpoints_at(inventory_in(*self), all.take(i as int)),
            decreases refs.len() - i,
        {
            assert(all.take(i + 1).drop_last() =~= all.take(i as int));
            assert(all.take(i + 1).last() == refs@[i as int]@);
            let ghost before = ends(out@);
            if let Some(e) = self.endpoint(refs[i].as_str()) {
                let ghost v = EndpointView { node: e.0@, interface: e.1@, ip: e.2@ };
                out.push(e);
                assert(ends(out@) =~= before.push(v));
            }
            i += 1;
        }
        assert(all.take(i as int) =~= all);
        out
    }

    fn star_of(&self, link: &RspecLink) -> (r: Vec<LinkEntry>)
        ensures
            link_views(r@) == star(inventory_in(*self), link@),
    {
        let ends = self.endpoints(link);
        let ghost all = endpoints_at(inventory_in(*self), link@.interface_refs);
        let mut out: Vec<LinkEntry> = Vec::new();
        if ends.len() < 2 {
            assert(link_views(out@) =~= star(inventory_in(*self), link@));
            return out;
        }
        let root = &ends[0];
        assert(all[0] == EndpointView { node: root.0@, interface: root.1@, ip: root.2@ });
        let mut i: usize = 1;
        while i < ends.len()
            invariant
                1 <= i <= ends.len(),
                ends.len() == all.len(),
                *root == ends@[0],
                all == endpoints_at(inventory_in(*self), link@.interface_refs),
                forall|j: int|
                    0 <= j < ends.len() ==> (#[trigger] all[j]) == (EndpointView {
                        node: ends@[j].0@,
                        interface: ends@[j].1@,
                        ip: ends@[j].2@,
                    }),
                out@.len() == i - 1,
                forall|j: int|
                    0 <= j < out@.len() ==> (#[trigger] out@[j])@ == connection(
                        link@,
                        all[0],
                        all[j + 1],
                    ),
            decreases ends.len() - i,
        {
            let other = &ends[i];
            let up = !same(root.2.as_str(), "N/A") && !same(other.2.as_str(), "N/A");
            let entry = LinkEntry {
                intf1: root.1.clone(),
                intf2: other.1.clone(),
                ip1: root.2.clone(),
                ip2: other.2.clone(),
                node1: root.0.clone(),
                node2: other.0.clone(),
                status: if up {
                    "up".to_owned()
                } else {
                    "unknown".to_owned()
                },
                link_id: link.client_id.clone(),
                vlantag: copy_opt(&link.vlantag),
            };
            assert(all[i as int] == EndpointView {
                node: other.0@,
                interface: other.1@,
                ip: other.2@,
            });
            assert(entry@ =~= connection(link@, all[0], all[i as int]));
            out.push(entry);
            i += 1;
        }
        assert(link_views(out@) =~= star(inventory_in(*self), link@));
        out
    }

    /// The connections between nodes. A link with many members connects its first member with
    /// each of the others.
    pub fn links(&self) -> (r: Vec<LinkEntry>)
        ensures
            link_views(r@) == stars(inventory_in(*self), rspec_links(self.links@)),
    {
        let mut out: Vec<LinkEntry> = Vec::new();
        let ghost all = rspec_links(self.links@);
        let mut i: usize = 0;
        assert(all.take(0) =~= Seq::<crate::virtual_wall_lite::rspec::LinkView>::empty());
        assert(link_views(out@) =~= Seq::<LinkEntryView>::empty());
        while i < self.links.len()
            invariant
                i <= self.links.len(),
                all == rspec_links(self.links@),
                link_views(out@) == stars(inventory_in(*self), all.take(i as int)),
            decreases self.links.len() - i,
        {
            assert(all.take(i + 1).drop_last() =~= all.take(i as int));
            assert(all.take(i + 1).last() == self.links@[i as int]@);
            let ghost before = link_views(out@);
            let mut more = self.star_of(&self.links[i]);
            let ghost added = link_views(more@);
            out.append(&mut more);
            assert(link_views(out@) =~= before + added);
            i += 1;
        }
        assert(all.take(i as int) =~= all);
        out
    }

    fn edges_of(&self, link: &RspecLink) -> (r: Vec<VisualEdge>)
        ensures
            edge_views(r@) == drawn_edges(
                names_of(self.rspec_map@),
                link@.client_id,
                link@.interface_refs,
            ),
    {
        let refs = &link.interface_refs;
        let ghost all = link@.interface_refs;
        let mut out: Vec<VisualEdge> = Vec::new();
        let mut i: usize = 0;
        assert(all.take(0) =~= Seq::<Seq<char>>::empty());
        assert(edge_views(out@) =~= Seq::<VisualEdgeView>::empty());
        while i < refs.len()
            invariant
                i <= refs.len(),
                all == crate::text::texts(refs@),
                edge_views(out@) == drawn_edges(
                    names_of(self.rspec_map@),
                    link@.client_id,
                    all.take(i as int),
                ),
            decreases refs.len() - i,
        {
            assert(all.take(i + 1).drop_last() =~= all.take(i as int));
            assert(all.take(i + 1).last() == refs@[i as int]@);
            let ghost before = edge_views(out@);
            if let Some(name) = self.rspec_map.get(node_part(refs[i].as_str())) {
                let edge = VisualEdge {
                    src: name.clone(),
                    dst: "sw:".to_owned().concat(link.client_id.as_str()),
                    color: "#94a3b8".to_owned(),
                };
                let ghost v = edge@;
                out.push(edge);
                assert(edge_views(out@) =~= before.push(v));
            }
            i += 1;
        }
        assert(all.take(i as int) =~= all);
        out
    }

    /// A picture of the experiment: its nodes, and a switch for each of its links.
    pub fn visualize(&self) -> (r: Picture)
        ensures
            node_views(r.nodes@) == Seq::new(
                listed_names(*self).len(),
                |i: int| drawn_node(self.nodes.list()[i].1@.id),
            ) + Seq::new(self.links@.len(), |i: int| drawn_switch(self.links@[i].client_id@)),
            edge_views(r.edges@) == all_edges(
                names_of(self.rspec_map@),
                rspec_links(self.links@),
            ),
    {
        let mut nodes: Vec<VisualNode> = Vec::new();
        let mut i: usize = 0;
        while i < self.nodes.len()
            invariant
                i <= self.nodes.list().len(),
                nodes@.len() == i,
                forall|j: int|
                    0 <= j < i ==> (#[trigger] nodes@[j])@ == drawn_node(
                        self.nodes.list()[j].1@.id,
                    ),
            decreases self.nodes.list().len() - i,
        {
            nodes.push(
                VisualNode {
                    id: self.nodes.entry(i).1.id.clone(),
                    kind: "node".to_owned(),
                    color: "#2563eb".to_owned(),
                },
            );
            i += 1;
        }
        let ghost drawn = Seq::new(
            listed_names(*self).len(),
            |i: int| drawn_node(self.nodes.list()[i].1@.id),
        );
        assert(node_views(nodes@) =~= drawn);
        let ghost switches = Seq::new(
            self.links@.len(),
            |i: int| drawn_switch(self.links@[i].client_id@),
        );
        let mut edges: Vec<VisualEdge> = Vec::new();
        let ghost all = rspec_links(self.links@);
        let mut k: usize = 0;
        assert(all.take(0) =~= Seq::<crate::virtual_wall_lite::rspec::LinkView>::empty());
        assert(drawn + switches.take(0) =~= drawn);
        assert(edge_views(edges@) =~= Seq::<VisualEdgeView>::empty());
        while k < self.links.len()
            invariant
                k <= self.links.len(),
                all == rspec_links(self.links@),
                switches == Seq::new(
                    self.links@.len(),
                    |i: int| drawn_switch(self.links@[i].client_id@),
                ),
                node_views(nodes@) == drawn + switches.take(k as int),
                edge_views(edges@) == all_edges(
                    names_of(self.rspec_map@),
                    all.take(k as int),
                ),
            decreases self.links.len() - k,
        {
            assert(all.take(k + 1).drop_last() =~= all.take(k as int));
            assert(all.take(k + 1).last() == self.links@[k as int]@);
            let ghost nodes_before = node_views(nodes@);
            let ghost edges_before = edge_views(edges@);
            let switch = VisualNode {
                id: "sw:".to_owned().concat(self.links[k].client_id.as_str()),
                kind: "switch".to_owned(),
                color: "#6b7280".to_owned(),
            };
            let ghost v = switch@;
            nodes.push(switch);
            assert(node_views(nodes@) =~= nodes_before.push(v));
            assert(nodes_before.push(v) =~= drawn + switches.take(k + 1));
            let mut more = self.edges_of(&self.links[k]);
            let ghost added = edge_views(more@);
            edges.append(&mut more);
            assert(edge_views(edges@) =~= edges_before + added);
            k += 1;
        }
        assert(all.take(k as int) =~= all);
        assert(switches.take(k as int) =~= switches);
        Picture { nodes, edges }
    }

    /// The command line that a terminal on a node runs.
    pub fn terminal_command(&self, node: &str, local: &LocalIdentities) -> (r: Result<
        String,
        VirtualWallError,
    >)
        ensures
            match resolve_fault(*self, node@) {
                Some(fault) => r matches Err(VirtualWallError::State(m)) && m@ == fault,
                None => exists|target: SshTarget|
                    {
                        &&& target_view(target) == inventory_in(*self).nodes[resolved_name(
                            inventory_in(*self),
                            crate::text::trimmed(node@),
                        )->0].ssh
                        &&& r matches Ok(line)
                        &&& line@ == #[trigger] terminal_line(*self, target, *local)
                    },
            },
    {
        let n = match self.resolve_node(node) {
            Ok(n) => n,
            Err(e) => {
                return Err(e);
            },
        };
        let args = self.ssh.base_args(&n.ssh, None, None, local);
        let mut quoted: Vec<String> = Vec::new();
        let mut i: usize = 0;
        while i < args.len()
            invariant
                i <= args.len(),
                quoted@.len() == i,
                forall|j: int|
                    0 <= j < i ==> (#[trigger] quoted@[j])@ == crate::quoting::quoted(args@[j]@),
            decreases args.len() - i,
        {
            quoted.push(shell_quote(args[i].as_str()));
            i += 1;
        }
        let ghost expected = crate::virtual_wall_lite::ssh::base_args_of(
            self.ssh,
            n.ssh,
            None,
            None,
            *local,
        );
        assert(crate::text::texts(quoted@) =~= Seq::new(
            expected.len(),
            |i: int| crate::quoting::quoted(expected[i]),
        ));
        let dest = self.ssh.login(&n.ssh, None);
        let line = shell_quote(self.config.ssh_binary.as_str()).concat(" ").concat(
            join(&quoted, " ").as_str(),
        ).concat(" ").concat(shell_quote(dest.as_str()).as_str());
        assert(line@ == terminal_line(*self, n.ssh, *local));
        Ok(line)
    }

    /// The user that is kept with a tunnel to a target.
    pub fn tunnel_username(&self, target: &SshTarget, request: &TunnelRequest) -> (r: Option<
        String,
    >)
        ensures
            crate::text::opt_text(r) == tunnel_user(*self, *target, *request),
    {
        if let Some(user) = &request.username {
            return Some(user.clone());
        }
        match &self.config.ssh_username {
            Some(configured) => first_of(
                opt_path_nonempty(&target.username),
                Some(configured.clone()),
            ),
            None => None,
        }
    }

    /// What is known of a tunnel that was opened for a request.
    pub fn opened_tunnel(
        &self,
        id: &str,
        node_id: &str,
        target: &SshTarget,
        request: &TunnelRequest,
        pid: Option<u32>,
    ) -> (r: TunnelInfo)
        ensures
            r@ == (crate::virtual_wall_lite::tunnels::TunnelInfoView {
                id: id@,
                node: node_id@,
                direction: request.direction,
                listen: request.listen@,
                target: request.target@,
                username: tunnel_user(*self, *target, *request),
                pid,
            }),
            crate::virtual_wall_lite::registry::serves(
                r@,
                node_id@,
                tunnel_user(*self, *target, *request),
                request@,
            ),
    {
        TunnelInfo {
            id: id.to_owned(),
            node: node_id.to_owned(),
            direction: request.direction,
            listen: request.listen.clone(),
            target: request.target.clone(),
            username: self.tunnel_username(target, request),
            pid,
        }
    }

    /// How long a command may take: the given time, else the configured one.
    pub fn exec_timeout(&self, timeout: Option<u64>) -> (r: u64)
        ensures
            r == match timeout {
                Some(t) => t,
                None => self.config.command_timeout,
            },
    {
        match timeout {
            Some(t) => t,
            None => self.config.command_timeout,
        }
    }
}

/// The ends in a list of names, interfaces and addresses.
pub open spec fn ends(v: Seq<(String, String, String)>) -> Seq<EndpointView> {
    Seq::new(
        v.len(),
        |i: int| EndpointView { node: v[i].0@, interface: v[i].1@, ip: v[i].2@ },
    )
}

/// What edges say.
pub open spec fn edge_views(v: Seq<VisualEdge>) -> Seq<VisualEdgeView> {
    Seq::new(v.len(), |i: int| v[i]@)
}

/// What nodes in a picture say.
pub open spec fn node_views(v: Seq<VisualNode>) -> Seq<VisualNodeView> {
    Seq::new(v.len(), |i: int| v[i]@)
}

/// The reply to a request for a terminal.
pub fn terminal_reply(launched: bool, line: String) -> (r: String)
    ensures
        r@ == if launched {
            "Launched terminal with: "@ + line@
        } else {
            line@
        },
{
    if launched {
        "Launched terminal with: ".to_owned().concat(line.as_str())
    } else {
        line
    }
}

/// The error of a tunnel whose process has ended at once.
pub fn early_exit_error(code: Option<i32>, stderr: &str) -> (r: VirtualWallError)
    ensures
        r matches VirtualWallError::TunnelSpawn(m) && m@ == "ssh tunnel exited immediately (code="@
            + crate::text::dec_int(crate::virtual_wall_lite::ssh::status_of(code)) + "): "@
            + stderr@,
{
    let status: i64 = match code {
        Some(c) => c as i64,
        None => -1,
    };
    VirtualWallError::TunnelSpawn(
        "ssh tunnel exited immediately (code=".to_owned().concat(
            crate::text::i64_text(status).as_str(),
        ).concat("): ").concat(stderr),
    )
}

/// The arguments that ping a host once; none where the host is blank.
pub open spec fn ping_arguments(host: Seq<char>, timeout: u64) -> Option<Seq<Seq<char>>> {
    if crate::text::trimmed(host).len() == 0 {
        None
    } else {
        Some(
            seq![
                "-c"@,
                "1"@,
                "-W"@,
                crate::text::dec(crate::virtual_wall_lite::ssh::one_at_least(timeout)),
                crate::text::trimmed(host),
            ],
        )
    }
}

/// The arguments that ping a host once; none where the host is blank.
pub fn ping_once(host: &str, timeout: u64) -> (r: Option<Vec<String>>)
    ensures
        match r {
            Some(args) => ping_arguments(host@, timeout) == Some(crate::text::texts(args@)),
            None => ping_arguments(host@, timeout) is None,
        },
{
    let host = trim(host);
    if host.is_empty() {
        return None;
    }
    let wait: u64 = if timeout < 1 {
        1
    } else {
        timeout
    };
    let mut args: Vec<String> = Vec::new();
    args.push("-c".to_owned());
    args.push("1".to_owned());
    args.push("-W".to_owned());
    args.push(u64_text(wait));
    args.push(host.to_owned());
    assert(crate::text::texts(args@) =~= seq![
        "-c"@,
        "1"@,
        "-W"@,
        crate::text::dec(crate::virtual_wall_lite::ssh::one_at_least(timeout)),
        host@,
    ]);
    Some(args)
}

/// A resource that can be logged in to becomes a node of its name: its host and port are those of
/// its first login, its user and its proxy too where the login has them, else those of the
/// configuration. The other nodes stay as they are.
pub proof fn resources_become_nodes(
    inventory: Inventory,
    c: VirtualWallConfig,
    nodes: Seq<RspecNode>,
    r: ResourceRecordLite,
    name: Seq<char>,
    login: SshLoginLite,
)
    requires
        crate::text::trimmed(r.name@) == name,
        name.len() > 0,
        r.metadata is Some && r.metadata->0.ssh_logins@.len() > 0,
        r.metadata->0.ssh_logins@[0] == login,
    ensures
        ({
            let after = with_resource(inventory, c, nodes, r).nodes;
            &&& after.dom().contains(name)
            &&& after[name].id == name
            &&& after[name].ssh.host == login.host@
            &&& after[name].ssh.port == login.port
            &&& login.username is Some ==> after[name].ssh.username == Some(login.username->0@)
            &&& login.username is None ==> after[name].ssh.username == crate::text::opt_text(
                c.ssh_username,
            )
            &&& login.jump_proxy is Some ==> after[name].ssh.jump_proxy == Some(
                login.jump_proxy->0@,
            )
            &&& login.jump_proxy is None && c.jump_proxy is Some ==> after[name].ssh.jump_proxy
                == Some(c.jump_proxy->0@)
            &&& forall|other: Seq<char>|
                other != name && #[trigger] inventory.nodes.dom().contains(other)
                    ==> after.dom().contains(other) && after[other] == inventory.nodes[other]
        }),
{
}

/// Every resource that can be logged in to is a node of the inventory, as the last resource of its
/// name says.
pub proof fn recorded_resources_are_nodes(
    c: VirtualWallConfig,
    nodes: Seq<RspecNode>,
    resources: Seq<ResourceRecordLite>,
    k: int,
    name: Seq<char>,
    login: SshLoginLite,
)
    requires
        0 <= k < resources.len(),
        crate::text::trimmed(resources[k].name@) == name,
        name.len() > 0,
        resources[k].metadata is Some && resources[k].metadata->0.ssh_logins@.len() > 0,
        resources[k].metadata->0.ssh_logins@[0] == login,
        forall|i: int|
            k < i < resources.len() ==> crate::text::trimmed((#[trigger] resources[i]).name@)
                != name,
    ensures
        recorded_inventory(c, nodes, resources).nodes.dom().contains(name),
        recorded_inventory(c, nodes, resources).nodes[name].ssh.host == login.host@,
        recorded_inventory(c, nodes, resources).nodes[name].ssh.port == login.port,
    decreases resources.len(),
{
    let front = resources.drop_last();
    if k < front.len() {
        assert(front[k] == resources[k]);
        assert forall|i: int| k < i < front.len() implies crate::text::trimmed(
            (#[trigger] front[i]).name@,
        ) != name by {
            assert(front[i] == resources[i]);
        }
        recorded_resources_are_nodes(c, nodes, front, k, name, login);
        assert(crate::text::trimmed(resources[resources.len() - 1].name@) != name);
    }
}

/// What was recorded goes before the manifest: where a resource of the state can be logged in to,
/// the nodes are those of the state; without a state they are those of the manifest.
pub proof fn recorded_resources_go_before_the_manifest(
    c: VirtualWallConfig,
    nodes: Seq<RspecNode>,
    state: VirtualWallStateLite,
    k: int,
    name: Seq<char>,
    login: SshLoginLite,
)
    requires
        0 <= k < state.resources@.len(),
        crate::text::trimmed(state.resources@[k].name@) == name,
        name.len() > 0,
        state.resources@[k].metadata is Some
            && state.resources@[k].metadata->0.ssh_logins@.len() > 0,
        state.resources@[k].metadata->0.ssh_logins@[0] == login,
        forall|i: int|
            k < i < state.resources@.len() ==> crate::text::trimmed(
                (#[trigger] state.resources@[i]).name@,
            ) != name,
    ensures
        inventory_of(c, nodes, Some(state)).nodes.dom().contains(name),
        inventory_of(c, nodes, Some(state)).nodes[name].ssh.host == login.host@,
        inventory_of(c, nodes, Some(state)).nodes[name].ssh.port == login.port,
{
    recorded_resources_are_nodes(c, nodes, state.resources@, k, name, login);
    let recorded = recorded_inventory(c, nodes, state.resources@);
    assert(recorded.nodes.dom().contains(name));
    assert(recorded.nodes != Map::<Seq<char>, KnownNode>::empty());
}

/// Every node of the manifest that has a login is listed under its own name, with the host, the
/// port and the user of that login.
pub proof fn nodes_of_the_manifest_are_listed(
    c: VirtualWallConfig,
    nodes: Seq<RspecNode>,
    k: int,
    login: RspecLogin,
)
    requires
        0 <= k < nodes.len(),
        nodes[k].login == Some(login),
        forall|i: int|
            k < i < nodes.len() ==> (#[trigger] nodes[i]).client_id@ != nodes[k].client_id@,
    ensures
        ({
            let listed = inventory_of(c, nodes, None);
            let name = nodes[k].client_id@;
            &&& listed.nodes.dom().contains(name)
            &&& listed.names.dom().contains(name) && listed.names[name] == name
            &&& listed.nodes[name].ssh.host == login.host@
            &&& listed.nodes[name].ssh.port == login.port
            &&& login.username is Some ==> listed.nodes[name].ssh.username == Some(
                login.username->0@,
            )
            &&& login.username is None ==> listed.nodes[name].ssh.username
                == crate::text::opt_text(c.ssh_username)
            &&& listed.nodes[name].interfaces.len() == nodes[k].interfaces@.len()
            &&& forall|j: int|
                0 <= j < nodes[k].interfaces@.len()
                    ==> (#[trigger] listed.nodes[name].interfaces[j]).id
                    == nodes[k].interfaces@[j].client_id@
        }),
    decreases nodes.len(),
{
    let front = nodes.drop_last();
    if k < front.len() {
        assert(front[k] == nodes[k]);
        assert forall|i: int| k < i < front.len() implies (#[trigger] front[i]).client_id@
            != front[k].client_id@ by {
            assert(front[i] == nodes[i]);
        }
        nodes_of_the_manifest_are_listed(c, front, k, login);
        assert(nodes[nodes.len() - 1].client_id@ != nodes[k].client_id@);
    }
}

/// A node of the manifest is recognised by the host of its login, in capitals or not.
pub proof fn nodes_are_recognised_by_their_host(nodes: Seq<RspecNode>, host: Seq<char>)
    ensures
        node_at_host(nodes, host) matches Some(n) ==> nodes.contains(n) && n.login is Some
            && crate::text::ascii_lowered(n.login->0.host@) == host,
        node_at_host(nodes, host) is None ==> forall|i: int|
            0 <= i < nodes.len() ==> ((#[trigger] nodes[i]).login matches Some(l) ==>
                crate::text::ascii_lowered(l.host@) != host),
    decreases nodes.len(),
{
    if nodes.len() > 0 {
        let front = nodes.drop_last();
        nodes_are_recognised_by_their_host(front, host);
        match node_at_host(nodes, host) {
            Some(n) => {
                if front.contains(n) {
                    let i = choose|i: int| 0 <= i < front.len() && front[i] == n;
                    assert(nodes[i] == n);
                } else {
                    assert(nodes[nodes.len() - 1] == n);
                }
            },
            None => {
                assert forall|i: int| 0 <= i < nodes.len() implies ((
                #[trigger] nodes[i]).login matches Some(l) ==> crate::text::ascii_lowered(l.host@)
                    != host) by {
                    if i < front.len() {
                        assert(front[i] == nodes[i]);
                    }
                }
            },
        }
    }
}

/// An interface has the first of its addresses.
pub proof fn interfaces_have_their_first_address(
    interfaces: Seq<NodeInterfaceView>,
    id: Seq<char>,
    k: int,
)
    requires
        0 <= k < interfaces.len(),
        interfaces[k].id == id,
        forall|i: int| 0 <= i < k ==> (#[trigger] interfaces[i]).id != id,
    ensures
        interfaces[k].ips.len() > 0 ==> address_of(interfaces, id) == interfaces[k].ips[0].address,
        interfaces[k].ips.len() == 0 ==> address_of(interfaces, id) == "N/A"@,
    decreases interfaces.len(),
{
    if k > 0 {
        assert(interfaces[0].id != id);
        let rest = interfaces.skip(1);
        assert(rest[k - 1] == interfaces[k]);
        assert forall|i: int| 0 <= i < k - 1 implies (#[trigger] rest[i]).id != id by {
            assert(rest[i] == interfaces[i + 1]);
        }
        interfaces_have_their_first_address(rest, id, k - 1);
    }
}

/// An end of a link is found by the name of the node before the colon; its interface is named in
/// full.
pub proof fn ends_are_found_by_their_node(inventory: Inventory, cid: Seq<char>, rest: Seq<char>)
    requires
        cid.len() > 0,
        crate::text::trimmed(cid) == cid,
        !crate::text::has_char(cid, ':'),
    ensures
        ({
            let reference = cid + ":"@ + rest;
            let found = endpoint_at(inventory, reference);
            &&& inventory.names.dom().contains(cid) && inventory.nodes.dom().contains(
                inventory.names[cid],
            ) ==> (found matches Some(e) && e.node == inventory.names[cid] && e.interface
                == reference && e.ip == address_of(
                inventory.nodes[inventory.names[cid]].interfaces,
                reference,
            ))
            &&& !inventory.names.dom().contains(cid) && inventory.nodes.dom().contains(cid) ==> (
            found matches Some(e) && e.node == cid && e.interface == reference)
            &&& !inventory.names.dom().contains(cid) && !inventory.nodes.dom().contains(cid)
                ==> found is None
        }),
{
    let s = cid + ":"@ + rest;
    reveal_strlit(":");
    crate::text::find_from_is_first(s, ":"@, 0);
    assert(s.subrange(cid.len() as int, cid.len() as int + 1) =~= ":"@);
    assert(crate::text::occurs_at(s, ":"@, cid.len() as int));
    let k = crate::text::find_from(s, ":"@, 0)->0;
    if k < cid.len() {
        assert(s.subrange(k, k + 1)[0] == ':');
        assert(cid[k] == ':');
    }
    assert(s.take(k) =~= cid);
}

/// A link of several ends is shown as a star: its first end is joined with each of the others. A
/// line is up where both of its ends have an address.
pub proof fn links_are_shown_as_stars(
    inventory: Inventory,
    link: crate::virtual_wall_lite::rspec::LinkView,
    i: int,
)
    requires
        0 < i < endpoints_at(inventory, link.interface_refs).len(),
    ensures
        ({
            let ends = endpoints_at(inventory, link.interface_refs);
            let lines = star(inventory, link);
            &&& lines.len() == ends.len() - 1
            &&& lines[i - 1].node1 == ends[0].node && lines[i - 1].node2 == ends[i].node
            &&& lines[i - 1].intf1 == ends[0].interface && lines[i - 1].intf2 == ends[i].interface
            &&& lines[i - 1].ip1 == ends[0].ip && lines[i - 1].ip2 == ends[i].ip
            &&& lines[i - 1].link_id == link.client_id && lines[i - 1].vlantag == link.vlantag
            &&& ends[0].ip != "N/A"@ && ends[i].ip != "N/A"@ ==> lines[i - 1].status == "up"@
            &&& ends[0].ip == "N/A"@ || ends[i].ip == "N/A"@ ==> lines[i - 1].status == "unknown"@
        }),
{
}

/// Every end of a link that is known is one of its ends, in the order in which they are named.
pub proof fn known_ends_are_listed(
    inventory: Inventory,
    references: Seq<Seq<char>>,
    more: Seq<char>,
)
    ensures
        endpoint_at(inventory, more) matches Some(e) ==> endpoints_at(
            inventory,
            references.push(more),
        ) == endpoints_at(inventory, references).push(e),
        endpoint_at(inventory, more) is None ==> endpoints_at(inventory, references.push(more))
            == endpoints_at(inventory, references),
{
    assert(references.push(more).drop_last() =~= references);
}

/// Every line of every link is shown.
pub proof fn every_line_is_shown(
    inventory: Inventory,
    links: Seq<crate::virtual_wall_lite::rspec::LinkView>,
    i: int,
    j: int,
)
    requires
        0 <= i < links.len(),
        0 <= j < star(inventory, links[i]).len(),
    ensures
        stars(inventory, links).contains(star(inventory, links[i])[j]),
    decreases links.len(),
{
    let front = links.drop_last();
    let e = star(inventory, links[i])[j];
    let all = stars(inventory, links);
    if i < front.len() {
        assert(front[i] == links[i]);
        every_line_is_shown(inventory, front, i, j);
        let k = choose|k: int|
            0 <= k < stars(inventory, front).len() && stars(inventory, front)[k] == e;
        assert(all[k] == e);
    } else {
        assert(all[stars(inventory, front).len() + j] == e);
    }
}

/// Every interface of a known node that a link names is drawn with a line to the switch of the
/// link.
pub proof fn named_interfaces_are_drawn(
    names: Map<Seq<char>, Seq<char>>,
    link: Seq<char>,
    references: Seq<Seq<char>>,
    i: int,
)
    requires
        0 <= i < references.len(),
        names.dom().contains(before_colon(references[i])),
    ensures
        exists|k: int|
            0 <= k < drawn_edges(names, link, references).len() && (#[trigger] drawn_edges(
                names,
                link,
                references,
            )[k]).src == names[before_colon(references[i])] && drawn_edges(
                names,
                link,
                references,
            )[k].dst == "sw:"@ + link,
    decreases references.len(),
{
    let front = references.drop_last();
    let before = drawn_edges(names, link, front);
    let all = drawn_edges(names, link, references);
    if i < front.len() {
        assert(front[i] == references[i]);
        named_interfaces_are_drawn(names, link, front, i);
        let k = choose|k: int|
            0 <= k < before.len() && (#[trigger] before[k]).src == names[before_colon(
                references[i],
            )] && before[k].dst == "sw:"@ + link;
        assert(all[k] == before[k]);
    } else {
        assert(all[all.len() - 1].src == names[before_colon(references[i])]);
    }
}

/// A node is found by its own name first, then by the name that the manifest has for it.
pub proof fn nodes_are_found_by_either_name(inventory: Inventory, key: Seq<char>)
    ensures
        inventory.nodes.dom().contains(key) ==> resolved_name(inventory, key) == Some(key),
        !inventory.nodes.dom().contains(key) && inventory.names.dom().contains(key)
            && inventory.nodes.dom().contains(inventory.names[key]) ==> resolved_name(
            inventory,
            key,
        ) == Some(inventory.names[key]),
        resolved_name(inventory, key) matches Some(n) ==> inventory.nodes.dom().contains(n),
        !inventory.nodes.dom().contains(key) && !inventory.names.dom().contains(key)
            ==> resolved_name(inventory, key) is None,
{
}

/// The user of a tunnel is the one that the request names; without one it is that of the node, and
/// that of the configuration only where the node has none.
pub proof fn tunnels_have_the_user_that_is_asked_for(
    m: VirtualWallManager,
    target: SshTarget,
    request: TunnelRequest,
)
    ensures
        request.username is Some ==> tunnel_user(m, target, request) == Some(
            request.username->0@,
        ),
        request.username is None && m.config.ssh_username is Some && target.username is None
            ==> tunnel_user(m, target, request) == Some(m.config.ssh_username->0@),
        request.username is None && m.config.ssh_username is Some && target.username is Some
            && crate::text::trimmed(target.username->0@).len() > 0 ==> tunnel_user(
            m,
            target,
            request,
        ) == Some(target.username->0@),
        request.username is None && m.config.ssh_username is None ==> tunnel_user(
            m,
            target,
            request,
        ) is None,
{
}

/// What a connection is made with by default is what the configuration says.
pub proof fn options_are_those_of_the_configuration(o: SshOptions, c: VirtualWallConfig)
    requires
        are_options_of(o, c),
    ensures
        o.ssh_binary@ == c.ssh_binary@,
        crate::text::opt_text(o.default_username) == crate::text::opt_text(c.ssh_username),
        crate::text::opt_text(o.default_private_key) == crate::text::opt_text(c.ssh_private_key),
        crate::text::opt_text(o.default_proxy_private_key) == crate::text::opt_text(
            c.ssh_proxy_private_key,
        ),
        o.forward_agent == c.ssh_forward_agent && o.forward_x11 == c.ssh_forward_x11,
        o.use_jump_proxy == c.use_jump_proxy && o.default_jump_proxy == c.jump_proxy,
        o.connect_timeout == c.connect_timeout,
        o.server_alive_interval == c.ssh_server_alive_interval,
        o.known_hosts@ == c.known_hosts@ && o.host_key_checking == c.host_key_checking,
{
}

/// A terminal runs the configured program with the login on the node behind all its arguments.
pub proof fn terminals_log_in_to_the_node(
    m: VirtualWallManager,
    target: SshTarget,
    local: LocalIdentities,
)
    ensures
        crate::text::begins(
            terminal_line(m, target, local),
            crate::quoting::quoted(m.config.ssh_binary@),
        ),
        crate::text::ends(
            terminal_line(m, target, local),
            crate::quoting::quoted(crate::virtual_wall_lite::ssh::login_of(m.ssh, target, None)),
        ),
{
    let line = terminal_line(m, target, local);
    let head = crate::quoting::quoted(m.config.ssh_binary@);
    let tail = crate::quoting::quoted(
        crate::virtual_wall_lite::ssh::login_of(m.ssh, target, None),
    );
    assert(line.subrange(0, head.len() as int) =~= head);
    assert(line.subrange(line.len() - tail.len(), line.len() as int) =~= tail);
}

/// A ping is sent once to the host, and waits as long as it is given, but a second at least; a
/// blank host is not pinged.
pub proof fn hosts_are_pinged_once(host: Seq<char>, timeout: u64)
    ensures
        ping_arguments(host, timeout) is None <==> crate::text::trimmed(host).len() == 0,
        ping_arguments(host, timeout) matches Some(args) ==> args.last() == crate::text::trimmed(
            host,
        ) && crate::text::follows(args, "-c"@, "1"@) && (timeout >= 1 ==> crate::text::follows(
            args,
            "-W"@,
            crate::text::dec(timeout as nat),
        )),
{
    if let Some(args) = ping_arguments(host, timeout) {
        assert(args[0] == "-c"@ && args[1] == "1"@);
        assert(args[2] == "-W"@);
    }
}

/// The node of a reference is what comes before its first colon, or all of it without one.
pub proof fn nodes_come_before_the_colon(cid: Seq<char>, rest: Seq<char>)
    requires
        !crate::text::has_char(cid, ':'),
    ensures
        before_colon(cid + ":"@ + rest) == cid,
        before_colon(cid) == cid,
{
    let s = cid + ":"@ + rest;
    reveal_strlit(":");
    crate::text::find_from_is_first(s, ":"@, 0);
    crate::text::find_from_is_first(cid, ":"@, 0);
    assert(s.subrange(cid.len() as int, cid.len() as int + 1) =~= ":"@);
    assert(crate::text::occurs_at(s, ":"@, cid.len() as int));
    let k = crate::text::find_from(s, ":"@, 0)->0;
    if k < cid.len() {
        assert(s.subrange(k, k + 1)[0] == ':');
        assert(cid[k] == ':');
    }
    assert(s.take(k) =~= cid);
    if let Some(m) = crate::text::find_from(cid, ":"@, 0) {
        assert(cid.subrange(m, m + 1)[0] == ':');
        assert(cid[m] == ':');
    }
}

/// A node is refused where its name is blank or leads to none that is known, and only there.
pub proof fn unknown_nodes_are_refused(m: VirtualWallManager, node: Seq<char>)
    ensures
        ({
            let key = crate::text::trimmed(node);
            let names = names_of(m.rspec_map@);
            resolve_fault(m, node) is None <==> key.len() > 0 && (known(m.nodes@).dom().contains(key)
                || (names.dom().contains(key) && known(m.nodes@).dom().contains(names[key])))
        }),
{
}

/// Nodes and switches are drawn under their own names.
pub proof fn switches_are_named_after_their_link(id: Seq<char>)
    ensures
        drawn_node(id).id == id && drawn_node(id).kind == "node"@,
        drawn_switch(id).id == "sw:"@ + id && drawn_switch(id).kind == "switch"@,
{
}

} // verus!
