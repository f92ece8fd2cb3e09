//! Topologies: fabrics, nodes attached to them, and the resource request that follows.

use vstd::prelude::*;

use crate::ipv4::ipv4_text;
use crate::sorted_map::SortedMap;
use crate::text::{comes_before, contains_text, same, trim, u128_text, u64_text};
use crate::virtual_wall::allocator::Ipv4Allocator;
use crate::virtual_wall::error::VirtualWallError;
use crate::virtual_wall::resource_spec::{
    copy_impairments, LinkDefinition, LinkImpairment, NetworkInterface, ResourceDefinition,
    ResourceSpec,
};

verus! {

/// Which nodes and fabrics exist and how the nodes attach to the fabrics. The control interface
/// of a node belongs to the testbed and is not described here.
pub struct TopologySpec {
    pub site_id: Option<String>,
    pub image: Option<String>,
    pub flavor: Option<String>,
    pub cloud_init: Option<String>,
    /// Prefix of the names of the requested resources.
    pub resource_prefix: Option<String>,
    pub port_id_scheme: PortIdScheme,
    /// Limit on the experiment interfaces of a node.
    pub max_experiment_nics_per_node: usize,
    pub fabrics: Vec<FabricSpec>,
    pub roles: Vec<RoleSpec>,
    pub nodes: Vec<NodeSpec>,
    pub hierarchy: Option<HierarchySpec>,
}

/// How ports are named: a prefix followed by a number.
#[derive(Debug, Clone)]
pub struct PortIdScheme {
    pub prefix: String,
    pub start_index: u16,
}

/// A fabric, a layer-two segment that nodes attach to.
#[derive(Debug)]
pub struct FabricSpec {
    pub name: String,
    pub network_id: Option<String>,
    pub link_type: String,
    pub share_lan_name: Option<String>,
    /// Subnet that addresses are taken from.
    pub ipv4_subnet: Option<String>,
    /// Offset of the first host address in the subnet.
    pub host_start: u32,
    pub impairment: Vec<LinkImpairment>,
    /// Position among the fabrics; those without one come last.
    pub order: Option<u32>,
}

/// Fabrics that the nodes of a role attach to.
#[derive(Debug)]
pub struct RoleSpec {
    pub name: String,
    pub fabrics: Vec<String>,
}

/// A node.
pub struct NodeSpec {
    pub name: String,
    pub role: String,
    /// Fabrics of this node; those of its role when empty.
    pub fabrics: Vec<String>,
    /// Explicit addresses, by fabric.
    pub addresses: SortedMap<Vec<String>>,
    pub site_id: Option<String>,
    pub image: Option<String>,
    pub flavor: Option<String>,
    pub cloud_init: Option<String>,
}

/// A logical hierarchy of nodes, kept for orchestration: children with their parent.
#[derive(Debug)]
pub struct HierarchySpec {
    pub parents: Vec<(String, Vec<String>)>,
}

/// A resource request together with the mapping that it was made from.
#[derive(Debug)]
pub struct GeneratedTopology {
    pub spec: ResourceSpec,
    pub state: TopologyState,
}

/// How nodes, fabrics and interfaces belong together.
#[derive(Debug)]
pub struct TopologyState {
    pub fabrics: Vec<FabricState>,
    pub nodes: Vec<NodeState>,
    pub hierarchy: Option<HierarchySpec>,
}

/// A fabric as it was requested.
#[derive(Debug)]
pub struct FabricState {
    pub name: String,
    pub network_id: String,
    pub link_type: String,
    pub share_lan_name: Option<String>,
    pub ipv4_subnet: Option<String>,
    pub impairment: Vec<LinkImpairment>,
    pub order: Option<u32>,
}

/// A node as it was requested.
#[derive(Debug)]
pub struct NodeState {
    pub name: String,
    pub role: String,
    /// The attachments in the order of the fabrics.
    pub attachments: Vec<AttachmentState>,
}

/// An interface of a node in a fabric.
#[derive(Debug)]
pub struct AttachmentState {
    pub fabric: String,
    pub network_id: String,
    pub port_id: String,
    pub addresses: Vec<String>,
}

impl Default for PortIdScheme {
    fn default() -> (r: Self)
        ensures
            r.prefix@ == "if"@,
            r.start_index == 0,
    {
        PortIdScheme { prefix: default_port_prefix(), start_index: 0 }
    }
}

/// The prefix of port names where none is given.
pub fn default_port_prefix() -> (r: String)
    ensures
        r@ == "if"@,
{
    "if".to_owned()
}

/// The limit on experiment interfaces where none is given.
pub fn default_max_experiment_nics_per_node() -> (r: usize)
    ensures
        r == 4,
{
    4
}

/// The type of a fabric where none is given.
pub fn default_link_type() -> (r: String)
    ensures
        r@ == "lan"@,
{
    "lan".to_owned()
}

/// The offset of the first host address where none is given.
pub fn default_host_start() -> (r: u32)
    ensures
        r == 10,
{
    10
}

/// The role of a name; a later declaration replaces an earlier one.
pub open spec fn role_named(roles: Seq<RoleSpec>, name: Seq<char>) -> Option<RoleSpec>
    decreases roles.len(),
{
    if roles.len() == 0 {
        None
    } else if roles.last().name@ == name {
        Some(roles.last())
    } else {
        role_named(roles.drop_last(), name)
    }
}

/// The fabric of a name.
pub open spec fn fabric_named(fabrics: Seq<FabricSpec>, name: Seq<char>) -> Option<FabricSpec>
    decreases fabrics.len(),
{
    if fabrics.len() == 0 {
        None
    } else if fabrics.last().name@ == name {
        Some(fabrics.last())
    } else {
        fabric_named(fabrics.drop_last(), name)
    }
}

/// The fabrics that a node attaches to: its own, else those of its role.
pub open spec fn attached(node: NodeSpec, roles: Seq<RoleSpec>) -> Option<Seq<Seq<char>>> {
    if node.fabrics@.len() > 0 {
        Some(crate::text::texts(node.fabrics@))
    } else {
        match role_named(roles, node.role@) {
            Some(role) => Some(crate::text::texts(role.fabrics@)),
            None => None,
        }
    }
}

/// The message for a node whose role is not declared.
pub open spec fn unknown_role_text(node: NodeSpec) -> Seq<char> {
    "Node '"@ + node.name@ + "' references unknown role '"@ + node.role@
        + "', and provides no explicit fabrics"@
}

/// The position of a fabric; fabrics without one come last.
pub open spec fn order_of(order: Option<u32>) -> u32 {
    match order {
        Some(o) => o,
        None => u32::MAX,
    }
}

/// The position of the fabric of a name.
pub open spec fn order_of_name(fabrics: Seq<FabricSpec>, name: Seq<char>) -> u32 {
    match fabric_named(fabrics, name) {
        Some(f) => order_of(f.order),
        None => u32::MAX,
    }
}

/// Whether one pair of position and name comes before another.
pub open spec fn ranks_before(ao: u32, a: Seq<char>, bo: u32, b: Seq<char>) -> bool {
    ao < bo || (ao == bo && crate::text::less(a, b))
}

/// The number of leading fabrics that come before the given one.
pub open spec fn fabric_rank(sorted: Seq<FabricSpec>, f: FabricSpec) -> nat
    decreases sorted.len(),
{
    if sorted.len() > 0 && ranks_before(
        order_of(sorted[0].order),
        sorted[0].name@,
        order_of(f.order),
        f.name@,
    ) {
        1 + fabric_rank(sorted.drop_first(), f)
    } else {
        0
    }
}

/// Fabrics by position and then by name.
pub open spec fn ordered_fabrics(fabrics: Seq<FabricSpec>) -> Seq<FabricSpec>
    decreases fabrics.len(),
{
    if fabrics.len() == 0 {
        Seq::empty()
    } else {
        let before = ordered_fabrics(fabrics.drop_last());
        before.insert(fabric_rank(before, fabrics.last()) as int, fabrics.last())
    }
}

/// The number of leading nodes whose names come before the given one.
pub open spec fn node_rank(sorted: Seq<NodeSpec>, name: Seq<char>) -> nat
    decreases sorted.len(),
{
    if sorted.len() > 0 && crate::text::less(sorted[0].name@, name) {
        1 + node_rank(sorted.drop_first(), name)
    } else {
        0
    }
}

/// Nodes by name.
pub open spec fn ordered_nodes(nodes: Seq<NodeSpec>) -> Seq<NodeSpec>
    decreases nodes.len(),
{
    if nodes.len() == 0 {
        Seq::empty()
    } else {
        let before = ordered_nodes(nodes.drop_last());
        before.insert(node_rank(before, nodes.last().name@) as int, nodes.last())
    }
}

/// The number of leading names that come before the given one in the order of the fabrics.
pub open spec fn name_rank(sorted: Seq<Seq<char>>, fabrics: Seq<FabricSpec>, name: Seq<char>) -> nat
    decreases sorted.len(),
{
    if sorted.len() > 0 && ranks_before(
        order_of_name(fabrics, sorted[0]),
        sorted[0],
        order_of_name(fabrics, name),
        name,
    ) {
        1 + name_rank(sorted.drop_first(), fabrics, name)
    } else {
        0
    }
}

/// Fabric names by position and then by name, each once.
pub open spec fn ordered_names(names: Seq<Seq<char>>, fabrics: Seq<FabricSpec>) -> Seq<Seq<char>>
    decreases names.len(),
{
    if names.len() == 0 {
        Seq::empty()
    } else {
        let before = ordered_names(names.drop_last(), fabrics);
        if before.contains(names.last()) {
            before
        } else {
            before.insert(name_rank(before, fabrics, names.last()) as int, names.last())
        }
    }
}

/// The names of the fabrics that a node attaches to, in the order of its ports.
pub open spec fn port_fabrics(spec: TopologySpec, node: NodeSpec) -> Seq<Seq<char>> {
    ordered_names(attached(node, spec.roles@)->0, spec.fabrics@)
}

/// How many of the first `i` nodes attach to a fabric.
pub open spec fn ordinal(
    nodes: Seq<NodeSpec>,
    roles: Seq<RoleSpec>,
    fabric: Seq<char>,
    i: nat,
) -> nat
    decreases i,
{
    if i == 0 {
        0
    } else {
        ordinal(nodes, roles, fabric, (i - 1) as nat) + if attached(
            nodes[i - 1],
            roles,
        )->0.contains(fabric) {
            1nat
        } else {
            0
        }
    }
}

/// The ordinal of a node in a fabric, counted in 32 bits.
pub open spec fn ordinal32(spec: TopologySpec, i: int, fabric: Seq<char>) -> u32 {
    (ordinal(ordered_nodes(spec.nodes@), spec.roles@, fabric, i as nat) % 0x100000000) as u32
}

/// Whether a fabric is declared twice among the first `i + 1`.
pub open spec fn fabric_repeats(fabrics: Seq<FabricSpec>, i: int) -> bool {
    exists|j: int| 0 <= j < i && #[trigger] fabrics[j].name@ == fabrics[i].name@
}

/// Whether a node is declared twice among the first `i + 1`.
pub open spec fn node_repeats(nodes: Seq<NodeSpec>, i: int) -> bool {
    exists|j: int| 0 <= j < i && #[trigger] nodes[j].name@ == nodes[i].name@
}

/// Whether a role is declared twice among the first `i + 1`.
pub open spec fn role_repeats(roles: Seq<RoleSpec>, i: int) -> bool {
    exists|j: int| 0 <= j < i && #[trigger] roles[j].name@ == roles[i].name@
}

/// The first fault among the fabrics from `i` on: a repeated name or a bad subnet.
pub open spec fn fabrics_fault(fabrics: Seq<FabricSpec>, i: int) -> Option<Seq<char>>
    decreases fabrics.len() - i,
{
    if i < 0 || i >= fabrics.len() {
        None
    } else if fabric_repeats(fabrics, i) {
        Some("Duplicate fabric name '"@ + fabrics[i].name@ + "'"@)
    } else if fabrics[i].ipv4_subnet is Some && crate::virtual_wall::allocator::cidr_fault(
        fabrics[i].ipv4_subnet->0@,
    ) is Some {
        crate::virtual_wall::allocator::cidr_fault(fabrics[i].ipv4_subnet->0@)
    } else {
        fabrics_fault(fabrics, i + 1)
    }
}

/// The first repeated node name from `i` on.
pub open spec fn nodes_fault(nodes: Seq<NodeSpec>, i: int) -> Option<Seq<char>>
    decreases nodes.len() - i,
{
    if i < 0 || i >= nodes.len() {
        None
    } else if node_repeats(nodes, i) {
        Some("Duplicate node name '"@ + nodes[i].name@ + "'"@)
    } else {
        nodes_fault(nodes, i + 1)
    }
}

/// The first repeated role name from `i` on.
pub open spec fn roles_fault(roles: Seq<RoleSpec>, i: int) -> Option<Seq<char>>
    decreases roles.len() - i,
{
    if i < 0 || i >= roles.len() {
        None
    } else if role_repeats(roles, i) {
        Some("Duplicate role name '"@ + roles[i].name@ + "'"@)
    } else {
        roles_fault(roles, i + 1)
    }
}

/// The least of some names that no fabric has.
pub open spec fn least_unknown(names: Seq<Seq<char>>, fabrics: Seq<FabricSpec>) -> Option<Seq<char>>
    decreases names.len(),
{
    if names.len() == 0 {
        None
    } else {
        let before = least_unknown(names.drop_last(), fabrics);
        let name = names.last();
        if fabric_named(fabrics, name) is Some {
            before
        } else {
            match before {
                Some(least) => if crate::text::less(name, least) {
                    Some(name)
                } else {
                    Some(least)
                },
                None => Some(name),
            }
        }
    }
}

/// The first fault among the attachments of the nodes from `i` on.
pub open spec fn attachments_fault(spec: TopologySpec, i: int) -> Option<Seq<char>>
    decreases spec.nodes@.len() - i,
{
    if i < 0 || i >= spec.nodes@.len() {
        None
    } else {
        let node = spec.nodes@[i];
        match attached(node, spec.roles@) {
            None => Some(unknown_role_text(node)),
            Some(names) => match least_unknown(names, spec.fabrics@) {
                Some(name) => Some(
                    "Node '"@ + node.name@ + "' references unknown fabric '"@ + name + "'"@,
                ),
                None => attachments_fault(spec, i + 1),
            },
        }
    }
}

/// What is wrong with a topology as it stands.
pub open spec fn topology_fault(spec: TopologySpec) -> Option<Seq<char>> {
    if spec.fabrics@.len() == 0 {
        Some("TopologySpec requires at least one fabric"@)
    } else if spec.nodes@.len() == 0 {
        Some("TopologySpec requires at least one node"@)
    } else if fabrics_fault(spec.fabrics@, 0) is Some {
        fabrics_fault(spec.fabrics@, 0)
    } else if nodes_fault(spec.nodes@, 0) is Some {
        nodes_fault(spec.nodes@, 0)
    } else if roles_fault(spec.roles@, 0) is Some {
        roles_fault(spec.roles@, 0)
    } else {
        attachments_fault(spec, 0)
    }
}

fn find_role<'a>(roles: &'a Vec<RoleSpec>, name: &str) -> (r: Option<&'a RoleSpec>)
    ensures
        match r {
            Some(x) => role_named(roles@, name@) == Some(*x),
            None => role_named(roles@, name@) is None,
        },
{
    let mut i: usize = roles.len();
    assert(roles@.take(roles@.len() as int) =~= roles@);
    while i > 0
        invariant
            i <= roles.len(),
            role_named(roles@, name@) == role_named(roles@.take(i as int), name@),
        decreases i,
    {
        i -= 1;
        assert(roles@.take(i + 1).drop_last() =~= roles@.take(i as int));
        if same(roles[i].name.as_str(), name) {
            return Some(&roles[i]);
        }
    }
    None
}

fn find_fabric<'a>(fabrics: &'a Vec<FabricSpec>, name: &str) -> (r: Option<&'a FabricSpec>)
    ensures
        match r {
            Some(x) => fabric_named(fabrics@, name@) == Some(*x),
            None => fabric_named(fabrics@, name@) is None,
        },
{
    let mut i: usize = fabrics.len();
    assert(fabrics@.take(fabrics@.len() as int) =~= fabrics@);
    while i > 0
        invariant
            i <= fabrics.len(),
            fabric_named(fabrics@, name@) == fabric_named(fabrics@.take(i as int), name@),
        decreases i,
    {
        i -= 1;
        assert(fabrics@.take(i + 1).drop_last() =~= fabrics@.take(i as int));
        if same(fabrics[i].name.as_str(), name) {
            return Some(&fabrics[i]);
        }
    }
    None
}

/// The fabrics that a node attaches to: its own, else those of its role.
pub fn effective_fabrics<'a>(node: &'a NodeSpec, roles: &'a Vec<RoleSpec>) -> (r: Result<
    &'a Vec<String>,
    VirtualWallError,
>)
    ensures
        match r {
            Ok(names) => attached(*node, roles@) == Some(crate::text::texts(names@)),
            Err(VirtualWallError::Configuration(m)) => attached(*node, roles@) is None && m@
                == unknown_role_text(*node),
            Err(_) => false,
        },
{
    if node.fabrics.len() > 0 {
        return Ok(&node.fabrics);
    }
    match find_role(roles, node.role.as_str()) {
        Some(role) => Ok(&role.fabrics),
        None => Err(
            VirtualWallError::Configuration(
                "Node '".to_owned().concat(node.name.as_str()).concat(
                    "' references unknown role '",
                ).concat(node.role.as_str()).concat("', and provides no explicit fabrics"),
            ),
        ),
    }
}

fn check_fabrics(fabrics: &Vec<FabricSpec>) -> (r: Result<(), VirtualWallError>)
    ensures
        match r {
            Ok(_) => fabrics_fault(fabrics@, 0) is None,
            Err(VirtualWallError::Configuration(m)) => fabrics_fault(fabrics@, 0) == Some(m@),
            Err(_) => false,
        },
{
    let mut i: usize = 0;
    while i < fabrics.len()
        invariant
            i <= fabrics.len(),
            fabrics_fault(fabrics@, 0) == fabrics_fault(fabrics@, i as int),
        decreases fabrics.len() - i,
    {
        let f = &fabrics[i];
        let mut j: usize = 0;
        while j < i
            invariant
                j <= i < fabrics.len(),
                *f == fabrics@[i as int],
                fabrics_fault(fabrics@, 0) == fabrics_fault(fabrics@, i as int),
                forall|k: int| 0 <= k < j ==> #[trigger] fabrics@[k].name@ != f.name@,
            decreases i - j,
        {
            if same(fabrics[j].name.as_str(), f.name.as_str()) {
                assert(fabrics@[j as int].name@ == f.name@);
                assert(fabric_repeats(fabrics@, i as int));
                return Err(
                    VirtualWallError::Configuration(
                        "Duplicate fabric name '".to_owned().concat(f.name.as_str()).concat("'"),
                    ),
                );
            }
            j += 1;
        }
        assert(!fabric_repeats(fabrics@, i as int));
        if let Some(cidr) = &f.ipv4_subnet {
            match Ipv4Allocator::validate_cidr(cidr.as_str()) {
                Ok(_) => {},
                Err(e) => {
                    return Err(e);
                },
            }
        }
        i += 1;
    }
    Ok(())
}

fn check_nodes(nodes: &Vec<NodeSpec>) -> (r: Result<(), VirtualWallError>)
    ensures
        match r {
            Ok(_) => nodes_fault(nodes@, 0) is None,
            Err(VirtualWallError::Configuration(m)) => nodes_fault(nodes@, 0) == Some(m@),
            Err(_) => false,
        },
{
    let mut i: usize = 0;
    while i < nodes.len()
        invariant
            i <= nodes.len(),
            nodes_fault(nodes@, 0) == nodes_fault(nodes@, i as int),
        decreases nodes.len() - i,
    {
        let mut j: usize = 0;
        while j < i
            invariant
                j <= i < nodes.len(),
                nodes_fault(nodes@, 0) == nodes_fault(nodes@, i as int),
                forall|k: int| 0 <= k < j ==> #[trigger] nodes@[k].name@ != nodes@[i as int].name@,
            decreases i - j,
        {
            if same(nodes[j].name.as_str(), nodes[i].name.as_str()) {
                assert(nodes@[j as int].name@ == nodes@[i as int].name@);
                assert(node_repeats(nodes@, i as int));
                return Err(
                    VirtualWallError::Configuration(
                        "Duplicate node name '".to_owned().concat(nodes[i].name.as_str()).concat(
                            "'",
                        ),
                    ),
                );
            }
            j += 1;
        }
        assert(!node_repeats(nodes@, i as int));
        i += 1;
    }
    Ok(())
}

fn check_roles(roles: &Vec<RoleSpec>) -> (r: Result<(), VirtualWallError>)
    ensures
        match r {
            Ok(_) => roles_fault(roles@, 0) is None,
            Err(VirtualWallError::Configuration(m)) => roles_fault(roles@, 0) == Some(m@),
            Err(_) => false,
        },
{
    let mut i: usize = 0;
    while i < roles.len()
        invariant
            i <= roles.len(),
            roles_fault(roles@, 0) == roles_fault(roles@, i as int),
        decreases roles.len() - i,
    {
        let mut j: usize = 0;
        while j < i
            invariant
                j <= i < roles.len(),
                roles_fault(roles@, 0) == roles_fault(roles@, i as int),
                forall|k: int| 0 <= k < j ==> #[trigger] roles@[k].name@ != roles@[i as int].name@,
            decreases i - j,
        {
            if same(roles[j].name.as_str(), roles[i].name.as_str()) {
                assert(roles@[j as int].name@ == roles@[i as int].name@);
                assert(role_repeats(roles@, i as int));
                return Err(
                    VirtualWallError::Configuration(
                        "Duplicate role name '".to_owned().concat(roles[i].name.as_str()).concat(
                            "'",
                        ),
                    ),
                );
            }
            j += 1;
        }
        assert(!role_repeats(roles@, i as int));
        i += 1;
    }
    Ok(())
}

fn find_least_unknown(names: &Vec<String>, fabrics: &Vec<FabricSpec>) -> (r: Option<String>)
    ensures
        crate::text::opt_text(r) == least_unknown(crate::text::texts(names@), fabrics@),
{
    let ghost all = crate::text::texts(names@);
    let mut least: Option<String> = None;
    let mut i: usize = 0;
    while i < names.len()
        invariant
            i <= names.len(),
            all == crate::text::texts(names@),
            crate::text::opt_text(least) == least_unknown(all.take(i as int), fabrics@),
        decreases names.len() - i,
    {
        assert(all.take(i + 1).drop_last() =~= all.take(i as int));
        let name = names[i].as_str();
        if find_fabric(fabrics, name).is_none() {
            let replace = match &least {
                Some(l) => comes_before(name, l.as_str()),
                None => true,
            };
            if replace {
                least = Some(name.to_owned());
            }
        }
        i += 1;
    }
    assert(all.take(i as int) =~= all);
    least
}

/// Accepts a topology whose names are unique, whose subnets are well-formed, and whose nodes use
/// declared roles and fabrics only.
pub fn validate_topology(spec: &TopologySpec) -> (r: Result<(), VirtualWallError>)
    ensures
        match r {
            Ok(_) => topology_fault(*spec) is None,
            Err(VirtualWallError::Configuration(m)) => topology_fault(*spec) == Some(m@),
            Err(_) => false,
        },
{
    if spec.fabrics.len() == 0 {
        return Err(
            VirtualWallError::Configuration("TopologySpec requires at least one fabric".to_owned()),
        );
    }
    if spec.nodes.len() == 0 {
        return Err(
            VirtualWallError::Configuration("TopologySpec requires at least one node".to_owned()),
        );
    }
    match check_fabrics(&spec.fabrics) {
        Ok(_) => {},
        Err(e) => {
            return Err(e);
        },
    }
    match check_nodes(&spec.nodes) {
        Ok(_) => {},
        Err(e) => {
            return Err(e);
        },
    }
    match check_roles(&spec.roles) {
        Ok(_) => {},
        Err(e) => {
            return Err(e);
        },
    }
    let mut i: usize = 0;
    while i < spec.nodes.len()
        invariant
            i <= spec.nodes.len(),
            attachments_fault(*spec, 0) == attachments_fault(*spec, i as int),
            spec.fabrics@.len() > 0,
            spec.nodes@.len() > 0,
            fabrics_fault(spec.fabrics@, 0) is None,
            nodes_fault(spec.nodes@, 0) is None,
            roles_fault(spec.roles@, 0) is None,
        decreases spec.nodes.len() - i,
    {
        let node = &spec.nodes[i];
        match effective_fabrics(node, &spec.roles) {
            Err(e) => {
                return Err(e);
            },
            Ok(names) => {
                if let Some(name) = find_least_unknown(names, &spec.fabrics) {
                    return Err(
                        VirtualWallError::Configuration(
                            "Node '".to_owned().concat(node.name.as_str()).concat(
                                "' references unknown fabric '",
                            ).concat(name.as_str()).concat("'"),
                        ),
                    );
                }
            },
        }
        i += 1;
    }
    Ok(())
}

/// What an [`AttachmentState`] says.
#[verifier::ext_equal]
pub struct AttachmentView {
    pub fabric: Seq<char>,
    pub network_id: Seq<char>,
    pub port_id: Seq<char>,
    pub addresses: Seq<Seq<char>>,
}

/// What a [`NodeState`] says.
#[verifier::ext_equal]
pub struct NodeView {
    pub name: Seq<char>,
    pub role: Seq<char>,
    pub attachments: Seq<AttachmentView>,
}

/// What a [`FabricState`] says.
#[verifier::ext_equal]
pub struct FabricView {
    pub name: Seq<char>,
    pub network_id: Seq<char>,
    pub link_type: Seq<char>,
    pub share_lan_name: Option<Seq<char>>,
    pub ipv4_subnet: Option<Seq<char>>,
    pub impairment: Seq<LinkImpairment>,
    pub order: Option<u32>,
}

impl View for AttachmentState {
    type V = AttachmentView;

    open spec fn view(&self) -> AttachmentView {
        AttachmentView {
            fabric: self.fabric@,
            network_id: self.network_id@,
            port_id: self.port_id@,
            addresses: crate::text::texts(self.addresses@),
        }
    }
}

impl View for NodeState {
    type V = NodeView;

    open spec fn view(&self) -> NodeView {
        NodeView {
            name: self.name@,
            role: self.role@,
            attachments: Seq::new(self.attachments@.len(), |i: int| self.attachments@[i]@),
        }
    }
}

impl View for FabricState {
    type V = FabricView;

    open spec fn view(&self) -> FabricView {
        FabricView {
            name: self.name@,
            network_id: self.network_id@,
            link_type: self.link_type@,
            share_lan_name: crate::text::opt_text(self.share_lan_name),
            ipv4_subnet: crate::text::opt_text(self.ipv4_subnet),
            impairment: self.impairment@,
            order: self.order,
        }
    }
}

impl View for HierarchySpec {
    type V = Seq<(Seq<char>, Seq<Seq<char>>)>;

    open spec fn view(&self) -> Seq<(Seq<char>, Seq<Seq<char>>)> {
        Seq::new(
            self.parents@.len(),
            |i: int| (self.parents@[i].0@, crate::text::texts(self.parents@[i].1@)),
        )
    }
}

/// The network that a fabric stands for: its own id, else its name.
pub open spec fn network_of(f: FabricSpec) -> Seq<char> {
    match f.network_id {
        Some(id) => id@,
        None => f.name@,
    }
}

/// The request for the LAN of a fabric.
pub open spec fn fabric_link(f: FabricSpec) -> crate::virtual_wall::resource_spec::LinkView {
    crate::virtual_wall::resource_spec::LinkView {
        friendly_name: f.name@,
        network_id: network_of(f),
        link_type: Some(f.link_type@),
        share_lan_name: crate::text::opt_text(f.share_lan_name),
        impairment: f.impairment@,
    }
}

/// The record of a fabric.
pub open spec fn fabric_record(f: FabricSpec) -> FabricView {
    FabricView {
        name: f.name@,
        network_id: network_of(f),
        link_type: f.link_type@,
        share_lan_name: crate::text::opt_text(f.share_lan_name),
        ipv4_subnet: crate::text::opt_text(f.ipv4_subnet),
        impairment: f.impairment@,
        order: f.order,
    }
}

/// The first fault among the subnets of the fabrics from `i` on.
pub open spec fn subnets_fault(fabrics: Seq<FabricSpec>, i: int) -> Option<Seq<char>>
    decreases fabrics.len() - i,
{
    if i < 0 || i >= fabrics.len() {
        None
    } else if fabrics[i].ipv4_subnet is Some && crate::virtual_wall::allocator::subnet_fault(
        fabrics[i].ipv4_subnet->0@,
        fabrics[i].host_start,
    ) is Some {
        crate::virtual_wall::allocator::subnet_fault(
            fabrics[i].ipv4_subnet->0@,
            fabrics[i].host_start,
        )
    } else {
        subnets_fault(fabrics, i + 1)
    }
}

/// The allocator of the subnet of a fabric.
pub open spec fn fabric_allocator(f: FabricSpec) -> Ipv4Allocator {
    let cidr = f.ipv4_subnet->0@;
    let prefix = crate::virtual_wall::allocator::cidr_prefix(cidr)->0;
    Ipv4Allocator {
        net: crate::virtual_wall::allocator::cidr_network(cidr) as u32,
        prefix: prefix as u8,
        host_start: f.host_start,
        host_max: crate::virtual_wall::allocator::block_size(prefix) as u32,
    }
}

/// The addresses that a node declares for a fabric.
pub open spec fn declared_addresses(node: NodeSpec, fabric: Seq<char>) -> Seq<Seq<char>> {
    if node.addresses@.dom().contains(fabric) {
        crate::text::texts(node.addresses@[fabric]@)
    } else {
        Seq::empty()
    }
}

/// Whether the address of a node in a fabric comes from the subnet of the fabric.
pub open spec fn is_allocated(spec: TopologySpec, node: NodeSpec, fabric: Seq<char>) -> bool {
    declared_addresses(node, fabric).len() == 0 && fabric_named(
        spec.fabrics@,
        fabric,
    )->0.ipv4_subnet is Some
}

/// The addresses of the `i`th node by name in a fabric: those that it declares, else one from
/// the subnet of the fabric, else none.
pub open spec fn port_addresses(spec: TopologySpec, i: int, fabric: Seq<char>) -> Seq<Seq<char>> {
    let node = ordered_nodes(spec.nodes@)[i];
    if is_allocated(spec, node, fabric) {
        let a = fabric_allocator(fabric_named(spec.fabrics@, fabric)->0);
        seq![
            crate::ipv4::dotted(
                crate::virtual_wall::allocator::octets_of(
                    a.address(ordinal32(spec, i, fabric)),
                ),
            ) + "/"@ + crate::text::dec(a.prefix as nat),
        ]
    } else {
        declared_addresses(node, fabric)
    }
}

/// The name of the port with an index.
pub open spec fn port_name(scheme: PortIdScheme, k: int) -> Seq<char> {
    scheme.prefix@ + crate::text::dec((scheme.start_index + k) as nat)
}

/// The `k`th attachment of the `i`th node by name.
pub open spec fn attachment(spec: TopologySpec, i: int, k: int) -> AttachmentView {
    let fabric = port_fabrics(spec, ordered_nodes(spec.nodes@)[i])[k];
    AttachmentView {
        fabric,
        network_id: network_of(fabric_named(spec.fabrics@, fabric)->0),
        port_id: port_name(spec.port_id_scheme, k),
        addresses: port_addresses(spec, i, fabric),
    }
}

/// The interface that is requested for an attachment.
pub open spec fn attachment_interface(
    a: AttachmentView,
) -> crate::virtual_wall::resource_spec::NetworkInterfaceView {
    crate::virtual_wall::resource_spec::NetworkInterfaceView {
        port_id: Some(a.port_id),
        network_id: a.network_id,
        addresses: a.addresses,
    }
}

/// The record of the `i`th node by name.
pub open spec fn node_record(spec: TopologySpec, i: int) -> NodeView {
    let node = ordered_nodes(spec.nodes@)[i];
    NodeView {
        name: node.name@,
        role: node.role@,
        attachments: Seq::new(port_fabrics(spec, node).len(), |k: int| attachment(spec, i, k)),
    }
}

/// A value of a node, else the common one.
pub open spec fn own_or_common(own: Option<String>, common: Option<String>) -> Option<Seq<char>> {
    match own {
        Some(v) => Some(v@),
        None => crate::text::opt_text(common),
    }
}

/// The name of the resource that is requested for a node.
pub open spec fn resource_name(spec: TopologySpec, node: NodeSpec) -> Seq<char> {
    match spec.resource_prefix {
        Some(prefix) => prefix@ + node.name@,
        None => Seq::empty() + node.name@,
    }
}

/// The request for the `i`th node by name.
pub open spec fn node_resource(
    spec: TopologySpec,
    i: int,
) -> crate::virtual_wall::resource_spec::ResourceView {
    let node = ordered_nodes(spec.nodes@)[i];
    crate::virtual_wall::resource_spec::ResourceView {
        friendly_name: resource_name(spec, node),
        site_id: own_or_common(node.site_id, spec.site_id),
        disk_image: own_or_common(node.image, spec.image),
        flavor: own_or_common(node.flavor, spec.flavor),
        userdata_file: own_or_common(node.cloud_init, spec.cloud_init),
        network_interfaces: Seq::new(
            port_fabrics(spec, node).len(),
            |k: int| attachment_interface(attachment(spec, i, k)),
        ),
    }
}

/// Whether a value is given but holds nothing than white space.
pub open spec fn is_blank(v: Option<Seq<char>>) -> bool {
    match v {
        Some(s) => crate::text::trimmed(s).len() == 0,
        None => false,
    }
}

/// The message for a resource with a blank value.
pub open spec fn blank_text(name: Seq<char>, what: Seq<char>) -> Seq<char> {
    "TopologySpec generated resource '"@ + name + "' without "@ + what
}

/// The first fault among the addresses of a node, from its `k`th port on.
pub open spec fn ports_fault(spec: TopologySpec, i: int, k: int) -> Option<Seq<char>>
    decreases port_fabrics(spec, ordered_nodes(spec.nodes@)[i]).len() - k,
{
    let node = ordered_nodes(spec.nodes@)[i];
    let names = port_fabrics(spec, node);
    if k < 0 || k >= names.len() {
        None
    } else {
        let a = fabric_allocator(fabric_named(spec.fabrics@, names[k])->0);
        let n = ordinal32(spec, i, names[k]);
        if is_allocated(spec, node, names[k]) && a.exhausted(n) {
            Some(a.exhausted_text(n))
        } else {
            ports_fault(spec, i, k + 1)
        }
    }
}

/// What is wrong with the `i`th node by name.
pub open spec fn node_fault(spec: TopologySpec, i: int) -> Option<Seq<char>> {
    let node = ordered_nodes(spec.nodes@)[i];
    let count = port_fabrics(spec, node).len();
    let name = resource_name(spec, node);
    if count > spec.max_experiment_nics_per_node {
        Some(
            "Node '"@ + node.name@ + "' attaches to "@ + crate::text::dec(count)
                + " experiment fabrics, exceeding max_experiment_nics_per_node="@
                + crate::text::dec(spec.max_experiment_nics_per_node as nat),
        )
    } else if ports_fault(spec, i, 0) is Some {
        ports_fault(spec, i, 0)
    } else if is_blank(own_or_common(node.site_id, spec.site_id)) {
        Some(blank_text(name, "infra_id/site_id; set `site_id` on topology or node"@))
    } else if is_blank(own_or_common(node.image, spec.image)) {
        Some(blank_text(name, "disk_image; set `image` on topology or node"@))
    } else if is_blank(own_or_common(node.flavor, spec.flavor)) {
        Some(blank_text(name, "flavor; set `flavor` on topology or node"@))
    } else {
        None
    }
}

/// The first fault among the nodes by name, from `i` on.
pub open spec fn first_node_fault(spec: TopologySpec, i: int) -> Option<Seq<char>>
    decreases ordered_nodes(spec.nodes@).len() - i,
{
    if i < 0 || i >= ordered_nodes(spec.nodes@).len() {
        None
    } else if node_fault(spec, i) is Some {
        node_fault(spec, i)
    } else {
        first_node_fault(spec, i + 1)
    }
}

/// Why no resource request can be made from a topology.
pub open spec fn generation_fault(spec: TopologySpec) -> Option<Seq<char>> {
    if topology_fault(spec) is Some {
        topology_fault(spec)
    } else if subnets_fault(ordered_fabrics(spec.fabrics@), 0) is Some {
        subnets_fault(ordered_fabrics(spec.fabrics@), 0)
    } else {
        first_node_fault(spec, 0)
    }
}

/// Whether a generated topology is the one that belongs to a specification.
pub open spec fn is_generated(spec: TopologySpec, g: GeneratedTopology) -> bool {
    let nodes = ordered_nodes(spec.nodes@);
    let fabrics = ordered_fabrics(spec.fabrics@);
    &&& g.spec@.resources == Seq::new(nodes.len(), |i: int| node_resource(spec, i))
    &&& g.spec@.links == Seq::new(fabrics.len(), |i: int| fabric_link(fabrics[i]))
    &&& g.state.fabrics@.len() == fabrics.len()
    &&& forall|i: int|
        0 <= i < fabrics.len() ==> #[trigger] g.state.fabrics@[i]@ == fabric_record(fabrics[i])
    &&& g.state.nodes@.len() == nodes.len()
    &&& forall|i: int|
        0 <= i < nodes.len() ==> #[trigger] g.state.nodes@[i]@ == node_record(spec, i)
    &&& match spec.hierarchy {
        Some(h) => g.state.hierarchy is Some && g.state.hierarchy->0@ == h@,
        None => g.state.hierarchy is None,
    }
}

/// The values behind references.
pub open spec fn behind<T>(refs: Seq<&T>) -> Seq<T> {
    Seq::new(refs.len(), |i: int| *refs[i])
}

proof fn fabric_rank_is(sorted: Seq<FabricSpec>, f: FabricSpec, r: int)
    requires
        0 <= r <= sorted.len(),
        forall|i: int|
            0 <= i < r ==> ranks_before(
                order_of((#[trigger] sorted[i]).order),
                sorted[i].name@,
                order_of(f.order),
                f.name@,
            ),
        r < sorted.len() ==> !ranks_before(
            order_of(sorted[r].order),
            sorted[r].name@,
            order_of(f.order),
            f.name@,
        ),
    ensures
        fabric_rank(sorted, f) == r,
    decreases sorted.len(),
{
    if r > 0 {
        let rest = sorted.drop_first();
        assert(ranks_before(
            order_of(sorted[0].order),
            sorted[0].name@,
            order_of(f.order),
            f.name@,
        ));
        assert forall|i: int| 0 <= i < r - 1 implies ranks_before(
            order_of((#[trigger] rest[i]).order),
            rest[i].name@,
            order_of(f.order),
            f.name@,
        ) by {
            assert(rest[i] == sorted[i + 1]);
        }
        fabric_rank_is(rest, f, r - 1);
    }
}

proof fn node_rank_is(sorted: Seq<NodeSpec>, name: Seq<char>, r: int)
    requires
        0 <= r <= sorted.len(),
        forall|i: int| 0 <= i < r ==> crate::text::less((#[trigger] sorted[i]).name@, name),
        r < sorted.len() ==> !crate::text::less(sorted[r].name@, name),
    ensures
        node_rank(sorted, name) == r,
    decreases sorted.len(),
{
    if r > 0 {
        let rest = sorted.drop_first();
        assert(crate::text::less(sorted[0].name@, name));
        assert forall|i: int| 0 <= i < r - 1 implies crate::text::less(
            (#[trigger] rest[i]).name@,
            name,
        ) by {
            assert(rest[i] == sorted[i + 1]);
        }
        node_rank_is(rest, name, r - 1);
    }
}

proof fn name_rank_is(sorted: Seq<Seq<char>>, fabrics: Seq<FabricSpec>, name: Seq<char>, r: int)
    requires
        0 <= r <= sorted.len(),
        forall|i: int|
            0 <= i < r ==> ranks_before(
                order_of_name(fabrics, #[trigger] sorted[i]),
                sorted[i],
                order_of_name(fabrics, name),
                name,
            ),
        r < sorted.len() ==> !ranks_before(
            order_of_name(fabrics, sorted[r]),
            sorted[r],
            order_of_name(fabrics, name),
            name,
        ),
    ensures
        name_rank(sorted, fabrics, name) == r,
    decreases sorted.len(),
{
    if r > 0 {
        let rest = sorted.drop_first();
        assert(ranks_before(
            order_of_name(fabrics, sorted[0]),
            sorted[0],
            order_of_name(fabrics, name),
            name,
        ));
        assert forall|i: int| 0 <= i < r - 1 implies ranks_before(
            order_of_name(fabrics, #[trigger] rest[i]),
            rest[i],
            order_of_name(fabrics, name),
            name,
        ) by {
            assert(rest[i] == sorted[i + 1]);
        }
        name_rank_is(rest, fabrics, name, r - 1);
    }
}

fn order_value(order: Option<u32>) -> (r: u32)
    ensures
        r == order_of(order),
{
    match order {
        Some(o) => o,
        None => u32::MAX,
    }
}

fn is_ranked_before(ao: u32, a: &str, bo: u32, b: &str) -> (r: bool)
    ensures
        r == ranks_before(ao, a@, bo, b@),
{
    ao < bo || (ao == bo && comes_before(a, b))
}

fn sort_fabrics(fabrics: &Vec<FabricSpec>) -> (r: Vec<&FabricSpec>)
    ensures
        behind(r@) == ordered_fabrics(fabrics@),
{
    let mut out: Vec<&FabricSpec> = Vec::new();
    let mut i: usize = 0;
    assert(behind(out@) =~= ordered_fabrics(fabrics@.take(0)));
    while i < fabrics.len()
        invariant
            i <= fabrics.len(),
            behind(out@) == ordered_fabrics(fabrics@.take(i as int)),
        decreases fabrics.len() - i,
    {
        let f = &fabrics[i];
        let ghost sorted = behind(out@);
        let mut at: usize = 0;
        while at < out.len() && is_ranked_before(
            order_value(out[at].order),
            out[at].name.as_str(),
            order_value(f.order),
            f.name.as_str(),
        )
            invariant
                at <= out.len(),
                sorted == behind(out@),
                forall|j: int|
                    0 <= j < at ==> ranks_before(
                        order_of((#[trigger] sorted[j]).order),
                        sorted[j].name@,
                        order_of(f.order),
                        f.name@,
                    ),
            decreases out.len() - at,
        {
            at += 1;
        }
        proof {
            fabric_rank_is(sorted, *f, at as int);
            assert(fabrics@.take(i + 1).drop_last() =~= fabrics@.take(i as int));
        }
        out.insert(at, f);
        assert(behind(out@) =~= sorted.insert(at as int, *f));
        i += 1;
    }
    assert(fabrics@.take(i as int) =~= fabrics@);
    out
}

fn sort_nodes(nodes: &Vec<NodeSpec>) -> (r: Vec<&NodeSpec>)
    ensures
        behind(r@) == ordered_nodes(nodes@),
{
    let mut out: Vec<&NodeSpec> = Vec::new();
    let mut i: usize = 0;
    assert(behind(out@) =~= ordered_nodes(nodes@.take(0)));
    while i < nodes.len()
        invariant
            i <= nodes.len(),
            behind(out@) == ordered_nodes(nodes@.take(i as int)),
        decreases nodes.len() - i,
    {
        let n = &nodes[i];
        let ghost sorted = behind(out@);
        let mut at: usize = 0;
        while at < out.len() && comes_before(out[at].name.as_str(), n.name.as_str())
            invariant
                at <= out.len(),
                sorted == behind(out@),
                forall|j: int|
                    0 <= j < at ==> crate::text::less((#[trigger] sorted[j]).name@, n.name@),
            decreases out.len() - at,
        {
            at += 1;
        }
        proof {
            node_rank_is(sorted, n.name@, at as int);
            assert(nodes@.take(i + 1).drop_last() =~= nodes@.take(i as int));
        }
        out.insert(at, n);
        assert(behind(out@) =~= sorted.insert(at as int, *n));
        i += 1;
    }
    assert(nodes@.take(i as int) =~= nodes@);
    out
}

fn order_by_name(fabrics: &Vec<FabricSpec>, name: &str) -> (r: u32)
    ensures
        r == order_of_name(fabrics@, name@),
{
    match find_fabric(fabrics, name) {
        Some(f) => order_value(f.order),
        None => u32::MAX,
    }
}

fn sort_names(names: &Vec<String>, fabrics: &Vec<FabricSpec>) -> (r: Vec<String>)
    ensures
        crate::text::texts(r@) == ordered_names(crate::text::texts(names@), fabrics@),
{
    let ghost all = crate::text::texts(names@);
    let mut out: Vec<String> = Vec::new();
    let mut i: usize = 0;
    assert(crate::text::texts(out@) =~= ordered_names(all.take(0), fabrics@));
    while i < names.len()
        invariant
            i <= names.len(),
            all == crate::text::texts(names@),
            crate::text::texts(out@) == ordered_names(all.take(i as int), fabrics@),
        decreases names.len() - i,
    {
        let name = names[i].as_str();
        let ghost sorted = crate::text::texts(out@);
        assert(all.take(i + 1).drop_last() =~= all.take(i as int));
        if !contains_text(&out, name) {
            let order: u32 = order_by_name(fabrics, name);
            let mut at: usize = 0;
            while at < out.len() && is_ranked_before(
                order_by_name(fabrics, out[at].as_str()),
                out[at].as_str(),
                order,
                name,
            )
                invariant
                    at <= out.len(),
                    sorted == crate::text::texts(out@),
                    order == order_of_name(fabrics@, name@),
                    forall|j: int|
                        0 <= j < at ==> ranks_before(
                            order_of_name(fabrics@, #[trigger] sorted[j]),
                            sorted[j],
                            order_of_name(fabrics@, name@),
                            name@,
                        ),
                decreases out.len() - at,
            {
                at += 1;
            }
            proof {
                name_rank_is(sorted, fabrics@, name@, at as int);
            }
            out.insert(at, name.to_owned());
            assert(crate::text::texts(out@) =~= sorted.insert(at as int, name@));
        }
        i += 1;
    }
    assert(all.take(i as int) =~= all);
    out
}

/// Sorting keeps exactly the fabrics that there are.
pub proof fn ordered_fabrics_are_the_fabrics(fabrics: Seq<FabricSpec>, f: FabricSpec)
    ensures
        ordered_fabrics(fabrics).contains(f) <==> fabrics.contains(f),
        ordered_fabrics(fabrics).len() == fabrics.len(),
    decreases fabrics.len(),
{
    if fabrics.len() > 0 {
        let before = ordered_fabrics(fabrics.drop_last());
        let last = fabrics.last();
        ordered_fabrics_are_the_fabrics(fabrics.drop_last(), f);
        fabric_rank_bound(before, last);
        let r = fabric_rank(before, last) as int;
        let after = before.insert(r, last);
        assert(after[r] == last);
        if before.contains(f) {
            let k = before.index_of(f);
            assert(after[if k < r { k } else { k + 1 }] == f);
        }
        if after.contains(f) {
            let k = after.index_of(f);
            if k < r {
                assert(before[k] == f);
            } else if k > r {
                assert(before[k - 1] == f);
            }
        }
        if fabrics.drop_last().contains(f) {
            let k = fabrics.drop_last().index_of(f);
            assert(fabrics[k] == f);
        }
        if fabrics.contains(f) {
            let k = fabrics.index_of(f);
            if k < fabrics.len() - 1 {
                assert(fabrics.drop_last()[k] == f);
            }
        }
    }
}

proof fn fabric_rank_bound(sorted: Seq<FabricSpec>, f: FabricSpec)
    ensures
        fabric_rank(sorted, f) <= sorted.len(),
    decreases sorted.len(),
{
    if sorted.len() > 0 {
        fabric_rank_bound(sorted.drop_first(), f);
    }
}

proof fn node_rank_bound(sorted: Seq<NodeSpec>, name: Seq<char>)
    ensures
        node_rank(sorted, name) <= sorted.len(),
    decreases sorted.len(),
{
    if sorted.len() > 0 {
        node_rank_bound(sorted.drop_first(), name);
    }
}

proof fn name_rank_bound(sorted: Seq<Seq<char>>, fabrics: Seq<FabricSpec>, name: Seq<char>)
    ensures
        name_rank(sorted, fabrics, name) <= sorted.len(),
    decreases sorted.len(),
{
    if sorted.len() > 0 {
        name_rank_bound(sorted.drop_first(), fabrics, name);
    }
}

/// Sorting keeps exactly the nodes that there are.
pub proof fn ordered_nodes_are_the_nodes(nodes: Seq<NodeSpec>, n: NodeSpec)
    ensures
        ordered_nodes(nodes).contains(n) <==> nodes.contains(n),
        ordered_nodes(nodes).len() == nodes.len(),
    decreases nodes.len(),
{
    if nodes.len() > 0 {
        let before = ordered_nodes(nodes.drop_last());
        let last = nodes.last();
        ordered_nodes_are_the_nodes(nodes.drop_last(), n);
        node_rank_bound(before, last.name@);
        let r = node_rank(before, last.name@) as int;
        let after = before.insert(r, last);
        assert(after[r] == last);
        if before.contains(n) {
            let k = before.index_of(n);
            assert(after[if k < r { k } else { k + 1 }] == n);
        }
        if after.contains(n) {
            let k = after.index_of(n);
            if k < r {
                assert(before[k] == n);
            } else if k > r {
                assert(before[k - 1] == n);
            }
        }
        if nodes.drop_last().contains(n) {
            let k = nodes.drop_last().index_of(n);
            assert(nodes[k] == n);
        }
        if nodes.contains(n) {
            let k = nodes.index_of(n);
            if k < nodes.len() - 1 {
                assert(nodes.drop_last()[k] == n);
            }
        }
    }
}

/// A node has a port in exactly the fabrics that it attaches to.
pub proof fn ordered_names_are_the_names(
    names: Seq<Seq<char>>,
    fabrics: Seq<FabricSpec>,
    name: Seq<char>,
)
    ensures
        ordered_names(names, fabrics).contains(name) <==> names.contains(name),
    decreases names.len(),
{
    if names.len() > 0 {
        let before = ordered_names(names.drop_last(), fabrics);
        let last = names.last();
        ordered_names_are_the_names(names.drop_last(), fabrics, name);
        name_rank_bound(before, fabrics, last);
        let r = name_rank(before, fabrics, last) as int;
        if !before.contains(last) {
            let after = before.insert(r, last);
            assert(after[r] == last);
            if before.contains(name) {
                let k = before.index_of(name);
                assert(after[if k < r { k } else { k + 1 }] == name);
            }
            if after.contains(name) {
                let k = after.index_of(name);
                if k < r {
                    assert(before[k] == name);
                } else if k > r {
                    assert(before[k - 1] == name);
                }
            }
        }
        if names.drop_last().contains(name) {
            let k = names.drop_last().index_of(name);
            assert(names[k] == name);
        }
        if names.contains(name) {
            let k = names.index_of(name);
            if k < names.len() - 1 {
                assert(names.drop_last()[k] == name);
            } else {
                assert(name == last);
            }
        }
    }
}

proof fn attachments_are_known(spec: TopologySpec, i: int, j: int)
    requires
        attachments_fault(spec, i) is None,
        0 <= i <= j < spec.nodes@.len(),
    ensures
        attached(spec.nodes@[j], spec.roles@) is Some,
        least_unknown(attached(spec.nodes@[j], spec.roles@)->0, spec.fabrics@) is None,
    decreases j - i,
{
    if i < j {
        attachments_are_known(spec, i + 1, j);
    }
}

proof fn no_unknown_name(names: Seq<Seq<char>>, fabrics: Seq<FabricSpec>, name: Seq<char>)
    requires
        least_unknown(names, fabrics) is None,
        names.contains(name),
    ensures
        fabric_named(fabrics, name) is Some,
    decreases names.len(),
{
    let k = names.index_of(name);
    if k < names.len() - 1 {
        assert(names.drop_last()[k] == name);
        no_unknown_name(names.drop_last(), fabrics, name);
    }
}

proof fn named_fabric_is_declared(fabrics: Seq<FabricSpec>, name: Seq<char>)
    requires
        fabric_named(fabrics, name) is Some,
    ensures
        fabrics.contains(fabric_named(fabrics, name)->0),
        fabric_named(fabrics, name)->0.name@ == name,
    decreases fabrics.len(),
{
    if fabrics.last().name@ == name {
        assert(fabrics[fabrics.len() - 1] == fabric_named(fabrics, name)->0);
    } else {
        named_fabric_is_declared(fabrics.drop_last(), name);
        let k = fabrics.drop_last().index_of(fabric_named(fabrics, name)->0);
        assert(fabrics[k] == fabric_named(fabrics, name)->0);
    }
}

proof fn subnets_are_usable(fabrics: Seq<FabricSpec>, i: int, j: int)
    requires
        subnets_fault(fabrics, i) is None,
        0 <= i <= j < fabrics.len(),
    ensures
        fabrics[j].ipv4_subnet is Some ==> crate::virtual_wall::allocator::subnet_fault(
            fabrics[j].ipv4_subnet->0@,
            fabrics[j].host_start,
        ) is None,
    decreases j - i,
{
    if i < j {
        subnets_are_usable(fabrics, i + 1, j);
    }
}

/// What is known of every node of a topology without faults.
proof fn node_is_known(spec: TopologySpec, i: int)
    requires
        topology_fault(spec) is None,
        0 <= i < ordered_nodes(spec.nodes@).len(),
    ensures
        attached(ordered_nodes(spec.nodes@)[i], spec.roles@) is Some,
        least_unknown(
            attached(ordered_nodes(spec.nodes@)[i], spec.roles@)->0,
            spec.fabrics@,
        ) is None,
{
    let node = ordered_nodes(spec.nodes@)[i];
    ordered_nodes_are_the_nodes(spec.nodes@, node);
    assert(ordered_nodes(spec.nodes@).contains(node));
    let j = spec.nodes@.index_of(node);
    attachments_are_known(spec, 0, j);
}

/// What is known of every port of a topology without faults.
proof fn port_is_known(spec: TopologySpec, i: int, k: int)
    requires
        topology_fault(spec) is None,
        subnets_fault(ordered_fabrics(spec.fabrics@), 0) is None,
        0 <= i < ordered_nodes(spec.nodes@).len(),
        0 <= k < port_fabrics(spec, ordered_nodes(spec.nodes@)[i]).len(),
    ensures
        ({
            let name = port_fabrics(spec, ordered_nodes(spec.nodes@)[i])[k];
            let f = fabric_named(spec.fabrics@, name);
            &&& f is Some
            &&& f->0.ipv4_subnet is Some ==> crate::virtual_wall::allocator::subnet_fault(
                f->0.ipv4_subnet->0@,
                f->0.host_start,
            ) is None
        }),
{
    let node = ordered_nodes(spec.nodes@)[i];
    node_is_known(spec, i);
    let names = attached(node, spec.roles@)->0;
    let name = port_fabrics(spec, node)[k];
    assert(port_fabrics(spec, node).contains(name));
    ordered_names_are_the_names(names, spec.fabrics@, name);
    no_unknown_name(names, spec.fabrics@, name);
    named_fabric_is_declared(spec.fabrics@, name);
    let f = fabric_named(spec.fabrics@, name)->0;
    ordered_fabrics_are_the_fabrics(spec.fabrics@, f);
    let j = ordered_fabrics(spec.fabrics@).index_of(f);
    subnets_are_usable(ordered_fabrics(spec.fabrics@), 0, j);
}

fn check_subnets(fabrics: &Vec<&FabricSpec>) -> (r: Result<(), VirtualWallError>)
    ensures
        match r {
            Ok(_) => subnets_fault(behind(fabrics@), 0) is None,
            Err(VirtualWallError::Configuration(m)) => subnets_fault(behind(fabrics@), 0) == Some(
                m@,
            ),
            Err(_) => false,
        },
{
    let mut i: usize = 0;
    while i < fabrics.len()
        invariant
            i <= fabrics.len(),
            subnets_fault(behind(fabrics@), 0) == subnets_fault(behind(fabrics@), i as int),
        decreases fabrics.len() - i,
    {
        let f = fabrics[i];
        assert(behind(fabrics@)[i as int] == *f);
        if let Some(cidr) = &f.ipv4_subnet {
            match Ipv4Allocator::new(cidr.as_str(), f.host_start) {
                Ok(_) => {},
                Err(e) => {
                    return Err(e);
                },
            }
        }
        i += 1;
    }
    Ok(())
}

fn count_before(spec: &TopologySpec, nodes: &Vec<&NodeSpec>, fabric: &str, i: usize) -> (r: u32)
    requires
        topology_fault(*spec) is None,
        behind(nodes@) == ordered_nodes(spec.nodes@),
        i < nodes@.len(),
    ensures
        r == ordinal32(*spec, i as int, fabric@),
{
    let mut n: usize = 0;
    let mut j: usize = 0;
    while j < i
        invariant
            j <= i < nodes@.len(),
            topology_fault(*spec) is None,
            behind(nodes@) == ordered_nodes(spec.nodes@),
            n <= j,
            n == ordinal(ordered_nodes(spec.nodes@), spec.roles@, fabric@, j as nat),
        decreases i - j,
    {
        proof {
            node_is_known(*spec, j as int);
            assert(behind(nodes@)[j as int] == *nodes@[j as int]);
        }
        if let Ok(names) = effective_fabrics(nodes[j], &spec.roles) {
            if contains_text(names, fabric) {
                n += 1;
            }
        }
        j += 1;
    }
    (n as u64 % 0x100000000) as u32
}

fn copy_texts(v: &Vec<String>) -> (r: Vec<String>)
    ensures
        crate::text::texts(r@) == crate::text::texts(v@),
{
    let mut out: Vec<String> = Vec::new();
    let mut i: usize = 0;
    while i < v.len()
        invariant
            i <= v.len(),
            out@.len() == i,
            forall|j: int| 0 <= j < i ==> #[trigger] out@[j]@ == v@[j]@,
        decreases v.len() - i,
    {
        out.push(v[i].clone());
        i += 1;
    }
    assert(crate::text::texts(out@) =~= crate::text::texts(v@));
    out
}

fn network_text(f: &FabricSpec) -> (r: String)
    ensures
        r@ == network_of(*f),
{
    match &f.network_id {
        Some(id) => id.clone(),
        None => f.name.clone(),
    }
}

fn make_attachment(
    spec: &TopologySpec,
    nodes: &Vec<&NodeSpec>,
    i: usize,
    names: &Vec<String>,
    k: usize,
) -> (r: Result<AttachmentState, VirtualWallError>)
    requires
        topology_fault(*spec) is None,
        subnets_fault(ordered_fabrics(spec.fabrics@), 0) is None,
        behind(nodes@) == ordered_nodes(spec.nodes@),
        i < nodes@.len(),
        crate::text::texts(names@) == port_fabrics(*spec, *nodes@[i as int]),
        k < names@.len(),
    ensures
        match r {
            Ok(a) => ports_fault(*spec, i as int, k as int) == ports_fault(
                *spec,
                i as int,
                k + 1,
            ) && a@ == attachment(*spec, i as int, k as int),
            Err(VirtualWallError::Configuration(m)) => ports_fault(*spec, i as int, k as int)
                == Some(m@),
            Err(_) => false,
        },
{
    let node = nodes[i];
    let name = names[k].as_str();
    proof {
        assert(behind(nodes@)[i as int] == *node);
        assert(crate::text::texts(names@)[k as int] == name@);
        port_is_known(*spec, i as int, k as int);
    }
    let port_id = spec.port_id_scheme.prefix.clone().concat(
        u128_text(spec.port_id_scheme.start_index as u128 + k as u128).as_str(),
    );
    let mut network_id = String::new();
    let mut addresses: Vec<String> = match node.addresses.get(name) {
        Some(list) => copy_texts(list),
        None => Vec::new(),
    };
    assert(crate::text::texts(addresses@) =~= declared_addresses(*node, name@));
    if let Some(f) = find_fabric(&spec.fabrics, name) {
        network_id = network_text(f);
        if addresses.len() == 0 {
            if let Some(cidr) = &f.ipv4_subnet {
                if let Ok(a) = Ipv4Allocator::new(cidr.as_str(), f.host_start) {
                    assert(a == fabric_allocator(*f));
                    let n: u32 = count_before(spec, nodes, name, i);
                    match a.allocate(n) {
                        Err(e) => {
                            return Err(e);
                        },
                        Ok(o) => {
                            addresses.push(
                                ipv4_text(o).concat("/").concat(u64_text(a.prefix as u64).as_str()),
                            );
                        },
                    }
                }
            }
        }
    }
    let r = AttachmentState { fabric: name.to_owned(), network_id, port_id, addresses };
    assert(r@ =~= attachment(*spec, i as int, k as int)) by {
        assert(crate::text::texts(r.addresses@) =~= port_addresses(*spec, i as int, name@));
    }
    Ok(r)
}

fn pick(own: &Option<String>, common: &Option<String>) -> (r: Option<String>)
    ensures
        crate::text::opt_text(r) == own_or_common(*own, *common),
{
    match own {
        Some(v) => Some(v.clone()),
        None => match common {
            Some(v) => Some(v.clone()),
            None => None,
        },
    }
}

fn blank(v: &Option<String>) -> (r: bool)
    ensures
        r == is_blank(crate::text::opt_text(*v)),
{
    match v {
        Some(s) => trim(s.as_str()).is_empty(),
        None => false,
    }
}

fn blank_error(name: &str, what: &str) -> (r: VirtualWallError)
    ensures
        r matches VirtualWallError::Configuration(m) && m@ == blank_text(name@, what@),
{
    VirtualWallError::Configuration(
        "TopologySpec generated resource '".to_owned().concat(name).concat("' without ").concat(
            what,
        ),
    )
}

fn make_node(spec: &TopologySpec, nodes: &Vec<&NodeSpec>, i: usize) -> (r: Result<
    (ResourceDefinition, NodeState),
    VirtualWallError,
>)
    requires
        topology_fault(*spec) is None,
        subnets_fault(ordered_fabrics(spec.fabrics@), 0) is None,
        behind(nodes@) == ordered_nodes(spec.nodes@),
        i < nodes@.len(),
    ensures
        match r {
            Ok(v) => node_fault(*spec, i as int) is None && v.0@ == node_resource(*spec, i as int)
                && v.1@ == node_record(*spec, i as int),
            Err(VirtualWallError::Configuration(m)) => node_fault(*spec, i as int) == Some(m@),
            Err(_) => false,
        },
{
    let node = nodes[i];
    proof {
        assert(behind(nodes@)[i as int] == *node);
        node_is_known(*spec, i as int);
    }
    let names = match effective_fabrics(node, &spec.roles) {
        Ok(list) => sort_names(list, &spec.fabrics),
        Err(_) => Vec::new(),
    };
    assert(crate::text::texts(names@) == port_fabrics(*spec, *node));
    assert(crate::text::texts(names@).len() == names@.len());
    if names.len() > spec.max_experiment_nics_per_node {
        return Err(
            VirtualWallError::Configuration(
                "Node '".to_owned().concat(node.name.as_str()).concat("' attaches to ").concat(
                    u128_text(names.len() as u128).as_str(),
                ).concat(
                    " experiment fabrics, exceeding max_experiment_nics_per_node=",
                ).concat(u128_text(spec.max_experiment_nics_per_node as u128).as_str()),
            ),
        );
    }
    let mut interfaces: Vec<NetworkInterface> = Vec::new();
    let mut attachments: Vec<AttachmentState> = Vec::new();
    let mut k: usize = 0;
    while k < names.len()
        invariant
            k <= names.len(),
            topology_fault(*spec) is None,
            subnets_fault(ordered_fabrics(spec.fabrics@), 0) is None,
            behind(nodes@) == ordered_nodes(spec.nodes@),
            i < nodes@.len(),
            *node == *nodes@[i as int],
            ordered_nodes(spec.nodes@)[i as int] == *node,
            crate::text::texts(names@) == port_fabrics(*spec, *node),
            names@.len() == port_fabrics(*spec, *node).len(),
            names@.len() <= spec.max_experiment_nics_per_node,
            ports_fault(*spec, i as int, 0) == ports_fault(*spec, i as int, k as int),
            interfaces@.len() == k,
            attachments@.len() == k,
            forall|j: int|
                0 <= j < k ==> #[trigger] attachments@[j]@ == attachment(*spec, i as int, j),
            forall|j: int|
                0 <= j < k ==> #[trigger] interfaces@[j]@ == attachment_interface(
                    attachment(*spec, i as int, j),
                ),
        decreases names.len() - k,
    {
        match make_attachment(spec, nodes, i, &names, k) {
            Err(e) => {
                return Err(e);
            },
            Ok(a) => {
                let interface = NetworkInterface {
                    port_id: Some(a.port_id.clone()),
                    network_id: a.network_id.clone(),
                    addresses: copy_texts(&a.addresses),
                };
                assert(interface@ =~= attachment_interface(a@));
                interfaces.push(interface);
                attachments.push(a);
            },
        }
        k += 1;
    }
    let friendly_name = match &spec.resource_prefix {
        Some(prefix) => prefix.clone().concat(node.name.as_str()),
        None => String::new().concat(node.name.as_str()),
    };
    let definition = ResourceDefinition {
        friendly_name,
        site_id: pick(&node.site_id, &spec.site_id),
        disk_image: pick(&node.image, &spec.image),
        flavor: pick(&node.flavor, &spec.flavor),
        userdata_file: pick(&node.cloud_init, &spec.cloud_init),
        network_interfaces: interfaces,
    };
    if blank(&definition.site_id) {
        return Err(
            blank_error(
                definition.friendly_name.as_str(),
                "infra_id/site_id; set `site_id` on topology or node",
            ),
        );
    }
    if blank(&definition.disk_image) {
        return Err(
            blank_error(
                definition.friendly_name.as_str(),
                "disk_image; set `image` on topology or node",
            ),
        );
    }
    if blank(&definition.flavor) {
        return Err(
            blank_error(
                definition.friendly_name.as_str(),
                "flavor; set `flavor` on topology or node",
            ),
        );
    }
    let record = NodeState { name: node.name.clone(), role: node.role.clone(), attachments };
    assert(record@ =~= node_record(*spec, i as int));
    assert(definition@ =~= node_resource(*spec, i as int));
    Ok((definition, record))
}

fn copy_text(o: &Option<String>) -> (r: Option<String>)
    ensures
        crate::text::opt_text(r) == crate::text::opt_text(*o),
{
    match o {
        Some(s) => Some(s.clone()),
        None => None,
    }
}

fn copy_hierarchy(h: &HierarchySpec) -> (r: HierarchySpec)
    ensures
        r@ == h@,
{
    let mut parents: Vec<(String, Vec<String>)> = Vec::new();
    let mut i: usize = 0;
    while i < h.parents.len()
        invariant
            i <= h.parents.len(),
            parents@.len() == i,
            forall|j: int|
                #![trigger parents@[j]]
                0 <= j < i ==> parents@[j].0@ == h.parents@[j].0@ && crate::text::texts(
                    parents@[j].1@,
                ) == crate::text::texts(h.parents@[j].1@),
        decreases h.parents.len() - i,
    {
        parents.push((h.parents[i].0.clone(), copy_texts(&h.parents[i].1)));
        i += 1;
    }
    let r = HierarchySpec { parents };
    assert(r@ =~= h@);
    r
}

/// Makes the resource request of a topology. Fabrics are ordered by position and then by name,
/// nodes by name; ports follow the order of the fabrics, and addresses that of the nodes.
pub fn generate(spec: &TopologySpec) -> (r: Result<GeneratedTopology, VirtualWallError>)
    ensures
        match r {
            Ok(g) => generation_fault(*spec) is None && is_generated(*spec, g),
            Err(VirtualWallError::Configuration(m)) => generation_fault(*spec) == Some(m@),
            Err(_) => false,
        },
{
    match validate_topology(spec) {
        Ok(_) => {},
        Err(e) => {
            return Err(e);
        },
    }
    let fabrics = sort_fabrics(&spec.fabrics);
    match check_subnets(&fabrics) {
        Ok(_) => {},
        Err(e) => {
            return Err(e);
        },
    }
    let nodes = sort_nodes(&spec.nodes);
    let mut resources: Vec<ResourceDefinition> = Vec::new();
    let mut node_states: Vec<NodeState> = Vec::new();
    let mut i: usize = 0;
    while i < nodes.len()
        invariant
            i <= nodes.len(),
            topology_fault(*spec) is None,
            subnets_fault(ordered_fabrics(spec.fabrics@), 0) is None,
            behind(nodes@) == ordered_nodes(spec.nodes@),
            nodes@.len() == ordered_nodes(spec.nodes@).len(),
            first_node_fault(*spec, 0) == first_node_fault(*spec, i as int),
            resources@.len() == i,
            node_states@.len() == i,
            forall|j: int| 0 <= j < i ==> #[trigger] resources@[j]@ == node_resource(*spec, j),
            forall|j: int| 0 <= j < i ==> #[trigger] node_states@[j]@ == node_record(*spec, j),
        decreases nodes.len() - i,
    {
        match make_node(spec, &nodes, i) {
            Err(e) => {
                return Err(e);
            },
            Ok(v) => {
                resources.push(v.0);
                node_states.push(v.1);
            },
        }
        i += 1;
    }
    let mut links: Vec<LinkDefinition> = Vec::new();
    let mut fabric_states: Vec<FabricState> = Vec::new();
    let ghost sorted = ordered_fabrics(spec.fabrics@);
    let mut k: usize = 0;
    while k < fabrics.len()
        invariant
            k <= fabrics.len(),
            behind(fabrics@) == sorted,
            links@.len() == k,
            fabric_states@.len() == k,
            forall|j: int| 0 <= j < k ==> #[trigger] links@[j]@ == fabric_link(sorted[j]),
            forall|j: int| 0 <= j < k ==> #[trigger] fabric_states@[j]@ == fabric_record(sorted[j]),
        decreases fabrics.len() - k,
    {
        let f = fabrics[k];
        assert(behind(fabrics@)[k as int] == *f);
        let link = LinkDefinition {
            friendly_name: f.name.clone(),
            network_id: network_text(f),
            link_type: Some(f.link_type.clone()),
            share_lan_name: copy_text(&f.share_lan_name),
            impairment: copy_impairments(&f.impairment),
        };
        assert(link@ =~= fabric_link(*f));
        links.push(link);
        let state = FabricState {
            name: f.name.clone(),
            network_id: network_text(f),
            link_type: f.link_type.clone(),
            share_lan_name: copy_text(&f.share_lan_name),
            ipv4_subnet: copy_text(&f.ipv4_subnet),
            impairment: copy_impairments(&f.impairment),
            order: f.order,
        };
        assert(state@ =~= fabric_record(*f));
        fabric_states.push(state);
        k += 1;
    }
    let hierarchy = match &spec.hierarchy {
        Some(h) => Some(copy_hierarchy(h)),
        None => None,
    };
    let g = GeneratedTopology {
        spec: ResourceSpec { resources, links },
        state: TopologyState { fabrics: fabric_states, nodes: node_states, hierarchy },
    };
    assert(g.spec@.resources =~= Seq::new(
        ordered_nodes(spec.nodes@).len(),
        |i: int| node_resource(*spec, i),
    ));
    assert(g.spec@.links =~= Seq::new(sorted.len(), |i: int| fabric_link(sorted[i])));
    Ok(g)
}

proof fn node_rank_splits(sorted: Seq<NodeSpec>, name: Seq<char>)
    ensures
        node_rank(sorted, name) <= sorted.len(),
        forall|i: int|
            0 <= i < node_rank(sorted, name) ==> crate::text::less(
                (#[trigger] sorted[i]).name@,
                name,
            ),
        node_rank(sorted, name) < sorted.len() ==> !crate::text::less(
            sorted[node_rank(sorted, name) as int].name@,
            name,
        ),
    decreases sorted.len(),
{
    if sorted.len() > 0 && crate::text::less(sorted[0].name@, name) {
        let rest = sorted.drop_first();
        node_rank_splits(rest, name);
        assert forall|i: int| 0 <= i < node_rank(sorted, name) implies crate::text::less(
            (#[trigger] sorted[i]).name@,
            name,
        ) by {
            if i > 0 {
                assert(rest[i - 1] == sorted[i]);
            }
        }
    }
}

/// Nodes come by name: no node stands before one with a lesser name.
pub proof fn nodes_come_by_name(nodes: Seq<NodeSpec>, i: int, j: int)
    requires
        0 <= i < j < ordered_nodes(nodes).len(),
    ensures
        !crate::text::less(ordered_nodes(nodes)[j].name@, ordered_nodes(nodes)[i].name@),
    decreases nodes.len(),
{
    if nodes.len() > 0 {
        let before = ordered_nodes(nodes.drop_last());
        let last = nodes.last();
        node_rank_splits(before, last.name@);
        let r = node_rank(before, last.name@) as int;
        let after = before.insert(r, last);
        crate::text::less_irreflexive(last.name@);
        if i < r && j < r {
            nodes_come_by_name(nodes.drop_last(), i, j);
        } else if i < r && j > r {
            nodes_come_by_name(nodes.drop_last(), i, j - 1);
        } else if i > r {
            nodes_come_by_name(nodes.drop_last(), i - 1, j - 1);
        } else if i == r {
            assert(after[i] == last);
            assert(after[j] == before[j - 1]);
            if j - 1 > r {
                nodes_come_by_name(nodes.drop_last(), r, j - 1);
            }
            if crate::text::less(before[j - 1].name@, last.name@) {
                crate::text::less_total(before[r].name@, last.name@);
                if crate::text::less(last.name@, before[r].name@) {
                    crate::text::less_transitive(
                        before[j - 1].name@,
                        last.name@,
                        before[r].name@,
                    );
                }
            }
        } else {
            assert(j == r);
            assert(after[j] == last);
            assert(after[i] == before[i]);
            assert(crate::text::less(before[i].name@, last.name@));
            if crate::text::less(last.name@, before[i].name@) {
                crate::text::less_transitive(last.name@, before[i].name@, last.name@);
            }
        }
    }
}

proof fn fabric_rank_splits(sorted: Seq<FabricSpec>, f: FabricSpec)
    ensures
        fabric_rank(sorted, f) <= sorted.len(),
        forall|i: int|
            0 <= i < fabric_rank(sorted, f) ==> ranks_before(
                order_of((#[trigger] sorted[i]).order),
                sorted[i].name@,
                order_of(f.order),
                f.name@,
            ),
        fabric_rank(sorted, f) < sorted.len() ==> !ranks_before(
            order_of(sorted[fabric_rank(sorted, f) as int].order),
            sorted[fabric_rank(sorted, f) as int].name@,
            order_of(f.order),
            f.name@,
        ),
    decreases sorted.len(),
{
    if sorted.len() > 0 && ranks_before(
        order_of(sorted[0].order),
        sorted[0].name@,
        order_of(f.order),
        f.name@,
    ) {
        let rest = sorted.drop_first();
        fabric_rank_splits(rest, f);
        assert forall|i: int| 0 <= i < fabric_rank(sorted, f) implies ranks_before(
            order_of((#[trigger] sorted[i]).order),
            sorted[i].name@,
            order_of(f.order),
            f.name@,
        ) by {
            if i > 0 {
                assert(rest[i - 1] == sorted[i]);
            }
        }
    }
}

/// Whether one fabric comes before another.
pub open spec fn fabric_before(a: FabricSpec, b: FabricSpec) -> bool {
    ranks_before(order_of(a.order), a.name@, order_of(b.order), b.name@)
}

proof fn fabric_before_is_an_order(a: FabricSpec, b: FabricSpec, c: FabricSpec)
    ensures
        !fabric_before(a, a),
        fabric_before(a, b) && fabric_before(b, c) ==> fabric_before(a, c),
        !fabric_before(a, b) && !fabric_before(b, a) ==> order_of(a.order) == order_of(b.order)
            && a.name@ == b.name@,
{
    crate::text::less_irreflexive(a.name@);
    crate::text::less_total(a.name@, b.name@);
    if crate::text::less(a.name@, b.name@) && crate::text::less(b.name@, c.name@) {
        crate::text::less_transitive(a.name@, b.name@, c.name@);
    }
}

/// Fabrics come by position and then by name.
pub proof fn fabrics_come_in_order(fabrics: Seq<FabricSpec>, i: int, j: int)
    requires
        0 <= i < j < ordered_fabrics(fabrics).len(),
    ensures
        !fabric_before(ordered_fabrics(fabrics)[j], ordered_fabrics(fabrics)[i]),
    decreases fabrics.len(),
{
    if fabrics.len() > 0 {
        let before = ordered_fabrics(fabrics.drop_last());
        let last = fabrics.last();
        fabric_rank_splits(before, last);
        let r = fabric_rank(before, last) as int;
        let after = before.insert(r, last);
        if i < r && j < r {
            fabrics_come_in_order(fabrics.drop_last(), i, j);
        } else if i < r && j > r {
            fabrics_come_in_order(fabrics.drop_last(), i, j - 1);
        } else if i > r {
            fabrics_come_in_order(fabrics.drop_last(), i - 1, j - 1);
        } else if i == r {
            assert(after[i] == last);
            assert(after[j] == before[j - 1]);
            assert(!fabric_before(before[r], last));
            if j - 1 > r {
                fabrics_come_in_order(fabrics.drop_last(), r, j - 1);
            }
            fabric_before_is_an_order(before[j - 1], last, before[r]);
            fabric_before_is_an_order(last, before[r], last);
        } else {
            assert(j == r);
            assert(after[j] == last);
            assert(after[i] == before[i]);
            assert(fabric_before(before[i], last));
            fabric_before_is_an_order(last, before[i], last);
        }
    }
}

proof fn ordinal_grows(
    nodes: Seq<NodeSpec>,
    roles: Seq<RoleSpec>,
    fabric: Seq<char>,
    i: nat,
    j: nat,
)
    requires
        i <= j,
    ensures
        ordinal(nodes, roles, fabric, i) <= ordinal(nodes, roles, fabric, j),
        ordinal(nodes, roles, fabric, j) <= j,
    decreases j,
{
    if i < j {
        ordinal_grows(nodes, roles, fabric, i, (j - 1) as nat);
    } else if j > 0 {
        ordinal_grows(nodes, roles, fabric, (j - 1) as nat, (j - 1) as nat);
    }
}

proof fn ports_have_addresses(spec: TopologySpec, i: int, from: int, k: int)
    requires
        ports_fault(spec, i, from) is None,
        0 <= from <= k < port_fabrics(spec, ordered_nodes(spec.nodes@)[i]).len(),
    ensures
        ({
            let name = port_fabrics(spec, ordered_nodes(spec.nodes@)[i])[k];
            is_allocated(spec, ordered_nodes(spec.nodes@)[i], name) ==> !fabric_allocator(
                fabric_named(spec.fabrics@, name)->0,
            ).exhausted(ordinal32(spec, i, name))
        }),
    decreases k - from,
{
    if from < k {
        ports_have_addresses(spec, i, from + 1, k);
    }
}

proof fn nodes_are_faultless(spec: TopologySpec, i: int, j: int)
    requires
        first_node_fault(spec, i) is None,
        0 <= i <= j < ordered_nodes(spec.nodes@).len(),
    ensures
        node_fault(spec, j) is None,
    decreases j - i,
{
    if i < j {
        nodes_are_faultless(spec, i + 1, j);
    }
}

/// Two nodes whose addresses come from the subnet of the same fabric get different ones, in a
/// topology for which a request can be made and whose nodes can be counted in 32 bits.
pub proof fn fabric_addresses_differ(spec: TopologySpec, i: int, j: int, fabric: Seq<char>)
    requires
        generation_fault(spec) is None,
        0 <= i < j < ordered_nodes(spec.nodes@).len() <= 0x100000000,
        port_fabrics(spec, ordered_nodes(spec.nodes@)[i]).contains(fabric),
        port_fabrics(spec, ordered_nodes(spec.nodes@)[j]).contains(fabric),
        is_allocated(spec, ordered_nodes(spec.nodes@)[i], fabric),
        is_allocated(spec, ordered_nodes(spec.nodes@)[j], fabric),
    ensures
        port_addresses(spec, i, fabric) != port_addresses(spec, j, fabric),
{
    let nodes = ordered_nodes(spec.nodes@);
    let roles = spec.roles@;
    let ki = port_fabrics(spec, nodes[i]).index_of(fabric);
    let kj = port_fabrics(spec, nodes[j]).index_of(fabric);
    nodes_are_faultless(spec, 0, i);
    nodes_are_faultless(spec, 0, j);
    ports_have_addresses(spec, i, 0, ki);
    ports_have_addresses(spec, j, 0, kj);
    port_is_known(spec, i, ki);
    node_is_known(spec, i);
    ordered_names_are_the_names(attached(nodes[i], roles)->0, spec.fabrics@, fabric);
    ordinal_grows(nodes, roles, fabric, (i + 1) as nat, j as nat);
    ordinal_grows(nodes, roles, fabric, i as nat, i as nat);
    let f = fabric_named(spec.fabrics@, fabric)->0;
    let a = fabric_allocator(f);
    crate::virtual_wall::allocator::usable_subnet(f.ipv4_subnet->0@, f.host_start);
    let m = ordinal32(spec, i, fabric);
    let n = ordinal32(spec, j, fabric);
    assert(m == ordinal(nodes, roles, fabric, i as nat));
    assert(n == ordinal(nodes, roles, fabric, j as nat));
    crate::virtual_wall::allocator::addresses_are_distinct(a, m, n);
    let x = crate::virtual_wall::allocator::octets_of(a.address(m));
    let y = crate::virtual_wall::allocator::octets_of(a.address(n));
    let tail = "/"@ + crate::text::dec(a.prefix as nat);
    if port_addresses(spec, i, fabric) == port_addresses(spec, j, fabric) {
        let p = port_addresses(spec, i, fabric)[0];
        let q = port_addresses(spec, j, fabric)[0];
        assert(p =~= crate::ipv4::dotted(x) + tail);
        assert(q =~= crate::ipv4::dotted(y) + tail);
        assert(crate::ipv4::dotted(x) =~= p.take(p.len() - tail.len()));
        assert(crate::ipv4::dotted(y) =~= q.take(q.len() - tail.len()));
        crate::ipv4::dotted_is_injective(x, y);
    }
}

/// In a topology for which a request can be made, no node gets more interfaces than a node may
/// have.
pub proof fn nodes_keep_to_the_interface_limit(spec: TopologySpec, i: int)
    requires
        generation_fault(spec) is None,
        0 <= i < ordered_nodes(spec.nodes@).len(),
    ensures
        node_resource(spec, i).network_interfaces.len() <= spec.max_experiment_nics_per_node,
{
    nodes_are_faultless(spec, 0, i);
}

proof fn ordered_nodes_ascend(nodes: Seq<NodeSpec>, i: int, j: int)
    requires
        forall|k: int, l: int|
            0 <= k < l < nodes.len() ==> (#[trigger] nodes[k]).name@ != (#[trigger] nodes[l]).name@,
        0 <= i < j < ordered_nodes(nodes).len(),
    ensures
        crate::text::less(ordered_nodes(nodes)[i].name@, ordered_nodes(nodes)[j].name@),
    decreases nodes.len(),
{
    if nodes.len() > 0 {
        let front = nodes.drop_last();
        let before = ordered_nodes(front);
        let last = nodes.last();
        node_rank_splits(before, last.name@);
        let r = node_rank(before, last.name@) as int;
        let after = before.insert(r, last);
        assert forall|k: int, l: int| 0 <= k < l < front.len() implies (#[trigger] front[k]).name@
            != (#[trigger] front[l]).name@ by {
            assert(front[k] == nodes[k] && front[l] == nodes[l]);
        }
        if i < r && j < r {
            ordered_nodes_ascend(front, i, j);
        } else if i < r && j > r {
            ordered_nodes_ascend(front, i, j - 1);
        } else if i > r {
            ordered_nodes_ascend(front, i - 1, j - 1);
        } else if i == r {
            assert(after[i] == last);
            assert(after[j] == before[j - 1]);
            assert(before.contains(before[r]));
            ordered_nodes_are_the_nodes(front, before[r]);
            let k = front.index_of(before[r]);
            assert(nodes[k] == before[r] && nodes[nodes.len() - 1] == last);
            crate::text::less_total(before[r].name@, last.name@);
            if j - 1 > r {
                ordered_nodes_ascend(front, r, j - 1);
                crate::text::less_transitive(last.name@, before[r].name@, before[j - 1].name@);
            }
        } else {
            assert(after[j] == last);
            assert(after[i] == before[i]);
        }
    }
}

/// Whether two lists hold the same names, in whatever order and how often.
pub open spec fn same_names(a: Seq<Seq<char>>, b: Seq<Seq<char>>) -> bool {
    forall|name: Seq<char>| #[trigger] a.contains(name) <==> b.contains(name)
}

/// Whether two nodes are the same but for the order of their fabrics.
pub open spec fn node_alike(a: NodeSpec, b: NodeSpec) -> bool {
    &&& b == (NodeSpec { fabrics: b.fabrics, ..a })
    &&& same_names(crate::text::texts(a.fabrics@), crate::text::texts(b.fabrics@))
}

/// Whether two roles are the same but for the order of their fabrics.
pub open spec fn role_alike(a: RoleSpec, b: RoleSpec) -> bool {
    &&& b.name == a.name
    &&& same_names(crate::text::texts(a.fabrics@), crate::text::texts(b.fabrics@))
}

/// When fabrics count as alike.
pub open spec fn fabrics_alike() -> spec_fn(FabricSpec, FabricSpec) -> bool {
    |a: FabricSpec, b: FabricSpec| a == b
}

/// When roles count as alike.
pub open spec fn roles_alike() -> spec_fn(RoleSpec, RoleSpec) -> bool {
    |a: RoleSpec, b: RoleSpec| role_alike(a, b)
}

/// When nodes count as alike.
pub open spec fn nodes_alike() -> spec_fn(NodeSpec, NodeSpec) -> bool {
    |a: NodeSpec, b: NodeSpec| node_alike(a, b)
}

/// Whether two topologies are the same but for the order in which fabrics, roles and nodes, and
/// the fabrics of a role and of a node, are declared.
pub open spec fn declares_the_same(one: TopologySpec, other: TopologySpec) -> bool {
    &&& other == (TopologySpec {
        fabrics: other.fabrics,
        roles: other.roles,
        nodes: other.nodes,
        ..one
    })
    &&& crate::rearranging::is_rearranged(
        one.fabrics@,
        other.fabrics@,
        fabrics_alike(),
    )
    &&& crate::rearranging::is_rearranged(
        one.roles@,
        other.roles@,
        roles_alike(),
    )
    &&& crate::rearranging::is_rearranged(
        one.nodes@,
        other.nodes@,
        nodes_alike(),
    )
}

/// Whether no two fabrics have the same name.
spec fn own_fabric_names(fabrics: Seq<FabricSpec>) -> bool {
    forall|i: int, j: int|
        0 <= i < j < fabrics.len() ==> (#[trigger] fabrics[i]).name@ != (
        #[trigger] fabrics[j]).name@
}

/// Whether no two roles have the same name.
spec fn own_role_names(roles: Seq<RoleSpec>) -> bool {
    forall|i: int, j: int|
        0 <= i < j < roles.len() ==> (#[trigger] roles[i]).name@ != (#[trigger] roles[j]).name@
}

/// Whether no two nodes have the same name.
spec fn own_node_names(nodes: Seq<NodeSpec>) -> bool {
    forall|i: int, j: int|
        0 <= i < j < nodes.len() ==> (#[trigger] nodes[i]).name@ != (#[trigger] nodes[j]).name@
}

/// Whether the subnet of a fabric, where it has one, can be read.
spec fn has_readable_subnet(f: FabricSpec) -> bool {
    f.ipv4_subnet is Some ==> crate::virtual_wall::allocator::cidr_fault(
        f.ipv4_subnet->0@,
    ) is None
}

proof fn faultless_fabrics(fabrics: Seq<FabricSpec>, from: int)
    requires
        0 <= from <= fabrics.len(),
    ensures
        fabrics_fault(fabrics, from) is None <==> forall|j: int|
            from <= j < fabrics.len() ==> !#[trigger] fabric_repeats(fabrics, j)
                && has_readable_subnet(fabrics[j]),
    decreases fabrics.len() - from,
{
    if from < fabrics.len() {
        faultless_fabrics(fabrics, from + 1);
        if fabrics_fault(fabrics, from) is None {
            assert forall|j: int| from <= j < fabrics.len() implies !#[trigger] fabric_repeats(
                fabrics,
                j,
            ) && has_readable_subnet(fabrics[j]) by {
                if j > from {
                    assert(!fabric_repeats(fabrics, j));
                }
            }
        }
        if forall|j: int|
            from <= j < fabrics.len() ==> !#[trigger] fabric_repeats(fabrics, j)
                && has_readable_subnet(fabrics[j]) {
            assert(!fabric_repeats(fabrics, from));
        }
    }
}

proof fn faultless_roles(roles: Seq<RoleSpec>, from: int)
    requires
        0 <= from <= roles.len(),
    ensures
        roles_fault(roles, from) is None <==> forall|j: int|
            from <= j < roles.len() ==> !#[trigger] role_repeats(roles, j),
    decreases roles.len() - from,
{
    if from < roles.len() {
        faultless_roles(roles, from + 1);
        if roles_fault(roles, from) is None {
            assert forall|j: int| from <= j < roles.len() implies !#[trigger] role_repeats(
                roles,
                j,
            ) by {
                if j > from {
                    assert(!role_repeats(roles, j));
                }
            }
        }
        if forall|j: int| from <= j < roles.len() ==> !#[trigger] role_repeats(roles, j) {
            assert(!role_repeats(roles, from));
        }
    }
}

proof fn faultless_nodes(nodes: Seq<NodeSpec>, from: int)
    requires
        0 <= from <= nodes.len(),
    ensures
        nodes_fault(nodes, from) is None <==> forall|j: int|
            from <= j < nodes.len() ==> !#[trigger] node_repeats(nodes, j),
    decreases nodes.len() - from,
{
    if from < nodes.len() {
        faultless_nodes(nodes, from + 1);
        if nodes_fault(nodes, from) is None {
            assert forall|j: int| from <= j < nodes.len() implies !#[trigger] node_repeats(
                nodes,
                j,
            ) by {
                if j > from {
                    assert(!node_repeats(nodes, j));
                }
            }
        }
        if forall|j: int| from <= j < nodes.len() ==> !#[trigger] node_repeats(nodes, j) {
            assert(!node_repeats(nodes, from));
        }
    }
}

/// Fabrics without a fault have their own names and readable subnets, and the other way round.
proof fn fabrics_without_fault(fabrics: Seq<FabricSpec>)
    ensures
        fabrics_fault(fabrics, 0) is None <==> own_fabric_names(fabrics) && forall|j: int|
            0 <= j < fabrics.len() ==> has_readable_subnet(#[trigger] fabrics[j]),
{
    faultless_fabrics(fabrics, 0);
    if fabrics_fault(fabrics, 0) is None {
        assert forall|i: int, j: int| 0 <= i < j < fabrics.len() implies (
        #[trigger] fabrics[i]).name@ != (#[trigger] fabrics[j]).name@ by {
            assert(!fabric_repeats(fabrics, j));
        }
        assert forall|j: int| 0 <= j < fabrics.len() implies has_readable_subnet(
            #[trigger] fabrics[j],
        ) by {
            assert(!fabric_repeats(fabrics, j));
        }
    }
}

proof fn roles_without_fault(roles: Seq<RoleSpec>)
    ensures
        roles_fault(roles, 0) is None <==> own_role_names(roles),
{
    faultless_roles(roles, 0);
    if roles_fault(roles, 0) is None {
        assert forall|i: int, j: int| 0 <= i < j < roles.len() implies (#[trigger] roles[i]).name@
            != (#[trigger] roles[j]).name@ by {
            assert(!role_repeats(roles, j));
        }
    }
}

proof fn nodes_without_fault(nodes: Seq<NodeSpec>)
    ensures
        nodes_fault(nodes, 0) is None <==> own_node_names(nodes),
{
    faultless_nodes(nodes, 0);
    if nodes_fault(nodes, 0) is None {
        assert forall|i: int, j: int| 0 <= i < j < nodes.len() implies (#[trigger] nodes[i]).name@
            != (#[trigger] nodes[j]).name@ by {
            assert(!node_repeats(nodes, j));
        }
    }
}

/// The fabric of a name is the one that is declared under it.
proof fn declared_fabric_is_named(fabrics: Seq<FabricSpec>, k: int)
    requires
        own_fabric_names(fabrics),
        0 <= k < fabrics.len(),
    ensures
        fabric_named(fabrics, fabrics[k].name@) == Some(fabrics[k]),
    decreases fabrics.len(),
{
    if k < fabrics.len() - 1 {
        let front = fabrics.drop_last();
        assert(fabrics[fabrics.len() - 1] == fabrics.last());
        assert(own_fabric_names(front)) by {
            assert forall|i: int, j: int| 0 <= i < j < front.len() implies (
            #[trigger] front[i]).name@ != (#[trigger] front[j]).name@ by {
                assert(front[i] == fabrics[i] && front[j] == fabrics[j]);
            }
        }
        assert(front[k] == fabrics[k]);
        declared_fabric_is_named(front, k);
    }
}

proof fn declared_role_is_named(roles: Seq<RoleSpec>, k: int)
    requires
        own_role_names(roles),
        0 <= k < roles.len(),
    ensures
        role_named(roles, roles[k].name@) == Some(roles[k]),
    decreases roles.len(),
{
    if k < roles.len() - 1 {
        let front = roles.drop_last();
        assert(roles[roles.len() - 1] == roles.last());
        assert(own_role_names(front)) by {
            assert forall|i: int, j: int| 0 <= i < j < front.len() implies (
            #[trigger] front[i]).name@ != (#[trigger] front[j]).name@ by {
                assert(front[i] == roles[i] && front[j] == roles[j]);
            }
        }
        assert(front[k] == roles[k]);
        declared_role_is_named(front, k);
    }
}

proof fn named_role_is_declared(roles: Seq<RoleSpec>, name: Seq<char>)
    ensures
        match role_named(roles, name) {
            Some(role) => role.name@ == name && exists|k: int|
                0 <= k < roles.len() && #[trigger] roles[k] == role,
            None => forall|k: int| 0 <= k < roles.len() ==> (#[trigger] roles[k]).name@ != name,
        },
    decreases roles.len(),
{
    if roles.len() > 0 {
        let front = roles.drop_last();
        named_role_is_declared(front, name);
        assert(roles[roles.len() - 1] == roles.last());
        if roles.last().name@ != name {
            match role_named(roles, name) {
                Some(role) => {
                    let k = choose|k: int| 0 <= k < front.len() && #[trigger] front[k] == role;
                    assert(roles[k] == role);
                },
                None => {
                    assert forall|k: int| 0 <= k < roles.len() implies (#[trigger] roles[k]).name@
                        != name by {
                        if k < front.len() {
                            assert(front[k].name@ != name);
                        }
                    }
                },
            }
        }
    }
}

proof fn ordered_fabrics_ascend(fabrics: Seq<FabricSpec>, i: int, j: int)
    requires
        own_fabric_names(fabrics),
        0 <= i < j < ordered_fabrics(fabrics).len(),
    ensures
        fabric_before(ordered_fabrics(fabrics)[i], ordered_fabrics(fabrics)[j]),
    decreases fabrics.len(),
{
    if fabrics.len() > 0 {
        let front = fabrics.drop_last();
        let before = ordered_fabrics(front);
        let last = fabrics.last();
        fabric_rank_splits(before, last);
        let r = fabric_rank(before, last) as int;
        let after = before.insert(r, last);
        assert(own_fabric_names(front)) by {
            assert forall|k: int, l: int| 0 <= k < l < front.len() implies (
            #[trigger] front[k]).name@ != (#[trigger] front[l]).name@ by {
                assert(front[k] == fabrics[k] && front[l] == fabrics[l]);
            }
        }
        if i < r && j < r {
            ordered_fabrics_ascend(front, i, j);
        } else if i < r && j > r {
            ordered_fabrics_ascend(front, i, j - 1);
        } else if i > r {
            ordered_fabrics_ascend(front, i - 1, j - 1);
        } else if i == r {
            assert(after[i] == last);
            assert(after[j] == before[j - 1]);
            assert(before.contains(before[r]));
            ordered_fabrics_are_the_fabrics(front, before[r]);
            let k = front.index_of(before[r]);
            assert(fabrics[k] == before[r] && fabrics[fabrics.len() - 1] == last);
            fabric_before_is_an_order(last, before[r], before[j - 1]);
            if j - 1 > r {
                ordered_fabrics_ascend(front, r, j - 1);
            }
        } else {
            assert(after[j] == last);
            assert(after[i] == before[i]);
        }
    }
}

/// Fabrics in another order have the same faults, or none, and are found and ordered alike.
proof fn rearranged_fabrics(one: Seq<FabricSpec>, other: Seq<FabricSpec>)
    requires
        crate::rearranging::is_rearranged(one, other, fabrics_alike()),
        fabrics_fault(one, 0) is None,
    ensures
        fabrics_fault(other, 0) is None,
        ordered_fabrics(one) == ordered_fabrics(other),
        forall|name: Seq<char>| #[trigger]
            fabric_named(one, name) == fabric_named(other, name),
{
    let alike = fabrics_alike();
    let places = choose|places: Seq<int>|
        crate::rearranging::is_placed(one, other, alike, places);
    fabrics_without_fault(one);
    fabrics_without_fault(other);
    crate::rearranging::rearranged_have_each_other(one, other, alike);
    assert forall|i: int, j: int| 0 <= i < j < other.len() implies (#[trigger] other[i]).name@ != (
    #[trigger] other[j]).name@ by {
        assert(alike(one[places[i]], other[i]));
        assert(alike(one[places[j]], other[j]));
        assert(places[i] != places[j]);
    }
    assert forall|j: int| 0 <= j < other.len() implies has_readable_subnet(
        #[trigger] other[j],
    ) by {
        assert(alike(one[places[j]], other[j]));
    }
    assert forall|name: Seq<char>| #[trigger]
        fabric_named(one, name) == fabric_named(other, name) by {
        if fabric_named(one, name) is Some {
            named_fabric_is_declared(one, name);
            let i = one.index_of(fabric_named(one, name)->0);
            assert(crate::rearranging::has_like(other, one[i], alike));
            let j = choose|j: int| 0 <= j < other.len() && alike(one[i], #[trigger] other[j]);
            declared_fabric_is_named(other, j);
        } else if fabric_named(other, name) is Some {
            named_fabric_is_declared(other, name);
            let j = other.index_of(fabric_named(other, name)->0);
            assert(crate::rearranging::is_like_one(one, other[j], alike));
            let i = choose|i: int| 0 <= i < one.len() && alike(#[trigger] one[i], other[j]);
            declared_fabric_is_named(one, i);
        }
    }
    let x = ordered_fabrics(one);
    let y = ordered_fabrics(other);
    let before = |a: FabricSpec, b: FabricSpec| fabric_before(a, b);
    assert forall|i: int, j: int| 0 <= i < j < x.len() implies before(
        #[trigger] x[i],
        #[trigger] x[j],
    ) by {
        ordered_fabrics_ascend(one, i, j);
    }
    assert forall|i: int, j: int| 0 <= i < j < y.len() implies before(
        #[trigger] y[i],
        #[trigger] y[j],
    ) by {
        ordered_fabrics_ascend(other, i, j);
    }
    assert forall|a: FabricSpec| !#[trigger] before(a, a) by {
        fabric_before_is_an_order(a, a, a);
    }
    assert forall|a: FabricSpec, b: FabricSpec, c: FabricSpec| #[trigger]
        before(a, b) && #[trigger] before(b, c) implies before(a, c) by {
        fabric_before_is_an_order(a, b, c);
    }
    assert forall|i: int| 0 <= i < x.len() implies #[trigger] crate::rearranging::has_like(
        y,
        x[i],
        alike,
    ) by {
        let f = x[i];
        ordered_fabrics_are_the_fabrics(one, f);
        let k = one.index_of(f);
        assert(crate::rearranging::has_like(other, one[k], alike));
        let j = choose|j: int| 0 <= j < other.len() && alike(one[k], #[trigger] other[j]);
        assert(other.contains(f));
        ordered_fabrics_are_the_fabrics(other, f);
        let m = y.index_of(f);
        assert(alike(x[i], y[m]));
    }
    assert forall|j: int| 0 <= j < y.len() implies #[trigger] crate::rearranging::is_like_one(
        x,
        y[j],
        alike,
    ) by {
        let f = y[j];
        ordered_fabrics_are_the_fabrics(other, f);
        let k = other.index_of(f);
        assert(crate::rearranging::is_like_one(one, other[k], alike));
        let i = choose|i: int| 0 <= i < one.len() && alike(#[trigger] one[i], other[k]);
        assert(one.contains(f));
        ordered_fabrics_are_the_fabrics(one, f);
        let m = x.index_of(f);
        assert(alike(x[m], y[j]));
    }
    crate::rearranging::ascending_lists_are_alike(x, y, before, alike);
    assert(x =~= y) by {
        assert forall|i: int| 0 <= i < x.len() implies x[i] == y[i] by {
            assert(alike(x[i], y[i]));
        }
    }
}

/// Roles in another order are found alike.
proof fn rearranged_roles(one: Seq<RoleSpec>, other: Seq<RoleSpec>)
    requires
        crate::rearranging::is_rearranged(one, other, roles_alike()),
        roles_fault(one, 0) is None,
    ensures
        roles_fault(other, 0) is None,
        forall|name: Seq<char>|
            #![trigger role_named(one, name)]
            #![trigger role_named(other, name)]
            match role_named(one, name) {
                Some(role) => role_named(other, name) is Some && role_alike(
                    role,
                    role_named(other, name)->0,
                ),
                None => role_named(other, name) is None,
            },
{
    let alike = roles_alike();
    let places = choose|places: Seq<int>|
        crate::rearranging::is_placed(one, other, alike, places);
    roles_without_fault(one);
    roles_without_fault(other);
    crate::rearranging::rearranged_have_each_other(one, other, alike);
    assert forall|i: int, j: int| 0 <= i < j < other.len() implies (#[trigger] other[i]).name@ != (
    #[trigger] other[j]).name@ by {
        assert(alike(one[places[i]], other[i]));
        assert(alike(one[places[j]], other[j]));
        assert(places[i] != places[j]);
    }
    assert forall|name: Seq<char>|
        #![trigger role_named(one, name)]
        #![trigger role_named(other, name)]
        match role_named(one, name) {
            Some(role) => role_named(other, name) is Some && role_alike(
                role,
                role_named(other, name)->0,
            ),
            None => role_named(other, name) is None,
        } by {
        named_role_is_declared(one, name);
        named_role_is_declared(other, name);
        match role_named(one, name) {
            Some(role) => {
                let i = choose|i: int| 0 <= i < one.len() && #[trigger] one[i] == role;
                assert(crate::rearranging::has_like(other, one[i], alike));
                let j = choose|j: int| 0 <= j < other.len() && alike(one[i], #[trigger] other[j]);
                declared_role_is_named(other, j);
            },
            None => {
                if role_named(other, name) is Some {
                    let role = role_named(other, name)->0;
                    let j = choose|j: int| 0 <= j < other.len() && #[trigger] other[j] == role;
                    assert(crate::rearranging::is_like_one(one, other[j], alike));
                    let i = choose|i: int| 0 <= i < one.len() && alike(#[trigger] one[i], other[j]);
                    assert(one[i].name@ == name);
                }
            },
        }
    }
}

/// Nodes in another order are ordered alike.
proof fn rearranged_nodes(one: Seq<NodeSpec>, other: Seq<NodeSpec>)
    requires
        crate::rearranging::is_rearranged(one, other, nodes_alike()),
        nodes_fault(one, 0) is None,
    ensures
        nodes_fault(other, 0) is None,
        ordered_nodes(one).len() == ordered_nodes(other).len(),
        forall|i: int|
            0 <= i < ordered_nodes(one).len() ==> node_alike(
                #[trigger] ordered_nodes(one)[i],
                ordered_nodes(other)[i],
            ),
{
    let alike = nodes_alike();
    let places = choose|places: Seq<int>|
        crate::rearranging::is_placed(one, other, alike, places);
    nodes_without_fault(one);
    nodes_without_fault(other);
    crate::rearranging::rearranged_have_each_other(one, other, alike);
    assert forall|i: int, j: int| 0 <= i < j < other.len() implies (#[trigger] other[i]).name@ != (
    #[trigger] other[j]).name@ by {
        assert(alike(one[places[i]], other[i]));
        assert(alike(one[places[j]], other[j]));
        assert(places[i] != places[j]);
    }
    let x = ordered_nodes(one);
    let y = ordered_nodes(other);
    let before = |a: NodeSpec, b: NodeSpec| crate::text::less(a.name@, b.name@);
    assert forall|i: int, j: int| 0 <= i < j < x.len() implies before(
        #[trigger] x[i],
        #[trigger] x[j],
    ) by {
        ordered_nodes_ascend(one, i, j);
    }
    assert forall|i: int, j: int| 0 <= i < j < y.len() implies before(
        #[trigger] y[i],
        #[trigger] y[j],
    ) by {
        ordered_nodes_ascend(other, i, j);
    }
    assert forall|a: NodeSpec| !#[trigger] before(a, a) by {
        crate::text::less_irreflexive(a.name@);
    }
    assert forall|a: NodeSpec, b: NodeSpec, c: NodeSpec| #[trigger]
        before(a, b) && #[trigger] before(b, c) implies before(a, c) by {
        crate::text::less_transitive(a.name@, b.name@, c.name@);
    }
    assert forall|i: int| 0 <= i < x.len() implies #[trigger] crate::rearranging::has_like(
        y,
        x[i],
        alike,
    ) by {
        let n = x[i];
        assert(x.contains(n));
        ordered_nodes_are_the_nodes(one, n);
        let k = one.index_of(n);
        assert(crate::rearranging::has_like(other, one[k], alike));
        let j = choose|j: int| 0 <= j < other.len() && alike(one[k], #[trigger] other[j]);
        assert(other.contains(other[j]));
        ordered_nodes_are_the_nodes(other, other[j]);
        let m = y.index_of(other[j]);
        assert(alike(x[i], y[m]));
    }
    assert forall|j: int| 0 <= j < y.len() implies #[trigger] crate::rearranging::is_like_one(
        x,
        y[j],
        alike,
    ) by {
        let n = y[j];
        assert(y.contains(n));
        ordered_nodes_are_the_nodes(other, n);
        let k = other.index_of(n);
        assert(crate::rearranging::is_like_one(one, other[k], alike));
        let i = choose|i: int| 0 <= i < one.len() && alike(#[trigger] one[i], other[k]);
        assert(one.contains(one[i]));
        ordered_nodes_are_the_nodes(one, one[i]);
        let m = x.index_of(one[i]);
        assert(alike(x[m], y[j]));
    }
    crate::rearranging::ascending_lists_are_alike(x, y, before, alike);
    assert forall|i: int| 0 <= i < x.len() implies node_alike(#[trigger] x[i], y[i]) by {
        assert(alike(x[i], y[i]));
    }
}

/// Whether one name comes before another in the order of the fabrics.
spec fn name_before(fabrics: Seq<FabricSpec>, a: Seq<char>, b: Seq<char>) -> bool {
    ranks_before(order_of_name(fabrics, a), a, order_of_name(fabrics, b), b)
}

proof fn name_before_is_an_order(
    fabrics: Seq<FabricSpec>,
    a: Seq<char>,
    b: Seq<char>,
    c: Seq<char>,
)
    ensures
        !name_before(fabrics, a, a),
        name_before(fabrics, a, b) && name_before(fabrics, b, c) ==> name_before(fabrics, a, c),
        !name_before(fabrics, a, b) && !name_before(fabrics, b, a) ==> a == b,
{
    crate::text::less_irreflexive(a);
    crate::text::less_total(a, b);
    if crate::text::less(a, b) && crate::text::less(b, c) {
        crate::text::less_transitive(a, b, c);
    }
}

proof fn name_rank_splits(sorted: Seq<Seq<char>>, fabrics: Seq<FabricSpec>, name: Seq<char>)
    ensures
        name_rank(sorted, fabrics, name) <= sorted.len(),
        forall|i: int|
            0 <= i < name_rank(sorted, fabrics, name) ==> name_before(
                fabrics,
                #[trigger] sorted[i],
                name,
            ),
        name_rank(sorted, fabrics, name) < sorted.len() ==> !name_before(
            fabrics,
            sorted[name_rank(sorted, fabrics, name) as int],
            name,
        ),
    decreases sorted.len(),
{
    if sorted.len() > 0 && name_before(fabrics, sorted[0], name) {
        let rest = sorted.drop_first();
        name_rank_splits(rest, fabrics, name);
        assert forall|i: int| 0 <= i < name_rank(sorted, fabrics, name) implies name_before(
            fabrics,
            #[trigger] sorted[i],
            name,
        ) by {
            if i > 0 {
                assert(rest[i - 1] == sorted[i]);
            }
        }
    }
}

proof fn ordered_names_ascend(names: Seq<Seq<char>>, fabrics: Seq<FabricSpec>, i: int, j: int)
    requires
        0 <= i < j < ordered_names(names, fabrics).len(),
    ensures
        name_before(fabrics, ordered_names(names, fabrics)[i], ordered_names(names, fabrics)[j]),
    decreases names.len(),
{
    if names.len() > 0 {
        let front = names.drop_last();
        let before = ordered_names(front, fabrics);
        let last = names.last();
        if before.contains(last) {
            ordered_names_ascend(front, fabrics, i, j);
        } else {
            name_rank_splits(before, fabrics, last);
            let r = name_rank(before, fabrics, last) as int;
            let after = before.insert(r, last);
            if i < r && j < r {
                ordered_names_ascend(front, fabrics, i, j);
            } else if i < r && j > r {
                ordered_names_ascend(front, fabrics, i, j - 1);
            } else if i > r {
                ordered_names_ascend(front, fabrics, i - 1, j - 1);
            } else if i == r {
                assert(after[i] == last);
                assert(after[j] == before[j - 1]);
                assert(before.contains(before[r]));
                name_before_is_an_order(fabrics, last, before[r], before[j - 1]);
                if j - 1 > r {
                    ordered_names_ascend(front, fabrics, r, j - 1);
                }
            } else {
                assert(after[j] == last);
                assert(after[i] == before[i]);
            }
        }
    }
}

/// The order of ports does not depend on the order in which fabrics are named or declared.
proof fn names_are_ordered_alike(
    a: Seq<Seq<char>>,
    b: Seq<Seq<char>>,
    one: Seq<FabricSpec>,
    other: Seq<FabricSpec>,
)
    requires
        same_names(a, b),
        forall|name: Seq<char>| #[trigger]
            fabric_named(one, name) == fabric_named(other, name),
    ensures
        ordered_names(a, one) == ordered_names(b, other),
{
    let x = ordered_names(a, one);
    let y = ordered_names(b, other);
    let before = |m: Seq<char>, n: Seq<char>| name_before(one, m, n);
    let alike = |m: Seq<char>, n: Seq<char>| m == n;
    assert forall|i: int, j: int| 0 <= i < j < x.len() implies before(
        #[trigger] x[i],
        #[trigger] x[j],
    ) by {
        ordered_names_ascend(a, one, i, j);
    }
    assert forall|i: int, j: int| 0 <= i < j < y.len() implies before(
        #[trigger] y[i],
        #[trigger] y[j],
    ) by {
        ordered_names_ascend(b, other, i, j);
        assert(fabric_named(one, y[i]) == fabric_named(other, y[i]));
        assert(fabric_named(one, y[j]) == fabric_named(other, y[j]));
    }
    assert forall|m: Seq<char>| !#[trigger] before(m, m) by {
        name_before_is_an_order(one, m, m, m);
    }
    assert forall|m: Seq<char>, n: Seq<char>, o: Seq<char>| #[trigger]
        before(m, n) && #[trigger] before(n, o) implies before(m, o) by {
        name_before_is_an_order(one, m, n, o);
    }
    assert forall|i: int| 0 <= i < x.len() implies #[trigger] crate::rearranging::has_like(
        y,
        x[i],
        alike,
    ) by {
        assert(x.contains(x[i]));
        ordered_names_are_the_names(a, one, x[i]);
        ordered_names_are_the_names(b, other, x[i]);
        assert(a.contains(x[i]) <==> b.contains(x[i]));
        let k = y.index_of(x[i]);
        assert(alike(x[i], y[k]));
    }
    assert forall|j: int| 0 <= j < y.len() implies #[trigger] crate::rearranging::is_like_one(
        x,
        y[j],
        alike,
    ) by {
        assert(y.contains(y[j]));
        ordered_names_are_the_names(a, one, y[j]);
        ordered_names_are_the_names(b, other, y[j]);
        assert(a.contains(y[j]) <==> b.contains(y[j]));
        let k = x.index_of(y[j]);
        assert(alike(x[k], y[j]));
    }
    crate::rearranging::ascending_lists_are_alike(x, y, before, alike);
    assert(x =~= y) by {
        assert forall|i: int| 0 <= i < x.len() implies x[i] == y[i] by {
            assert(alike(x[i], y[i]));
        }
    }
}

/// What two topologies have in common that declare the same, as far as nodes and ports go.
spec fn agree(one: TopologySpec, other: TopologySpec) -> bool {
    let x = ordered_nodes(one.nodes@);
    let y = ordered_nodes(other.nodes@);
    &&& other == (TopologySpec {
        fabrics: other.fabrics,
        roles: other.roles,
        nodes: other.nodes,
        ..one
    })
    &&& x.len() == y.len()
    &&& forall|i: int| 0 <= i < x.len() ==> node_alike(#[trigger] x[i], y[i])
    &&& forall|name: Seq<char>| #[trigger]
        fabric_named(one.fabrics@, name) == fabric_named(other.fabrics@, name)
    &&& forall|name: Seq<char>|
        #![trigger role_named(one.roles@, name)]
        #![trigger role_named(other.roles@, name)]
        match role_named(one.roles@, name) {
            Some(role) => role_named(other.roles@, name) is Some && role_alike(
                role,
                role_named(other.roles@, name)->0,
            ),
            None => role_named(other.roles@, name) is None,
        }
}

/// Nodes that are alike attach to the same fabrics.
proof fn attached_alike(one: TopologySpec, other: TopologySpec, a: NodeSpec, b: NodeSpec)
    requires
        agree(one, other),
        node_alike(a, b),
    ensures
        match attached(a, one.roles@) {
            Some(names) => attached(b, other.roles@) is Some && same_names(
                names,
                attached(b, other.roles@)->0,
            ),
            None => attached(b, other.roles@) is None,
        },
{
    let x = crate::text::texts(a.fabrics@);
    let y = crate::text::texts(b.fabrics@);
    if x.len() > 0 {
        assert(x.contains(x[0]));
        assert(y.contains(x[0]));
    }
    if y.len() > 0 {
        assert(y.contains(y[0]));
        assert(x.contains(y[0]));
    }
    assert(role_named(one.roles@, a.role@) == role_named(one.roles@, b.role@));
}

proof fn ports_alike(one: TopologySpec, other: TopologySpec, i: int)
    requires
        agree(one, other),
        0 <= i < ordered_nodes(one.nodes@).len(),
    ensures
        port_fabrics(one, ordered_nodes(one.nodes@)[i]) == port_fabrics(
            other,
            ordered_nodes(other.nodes@)[i],
        ),
{
    let a = ordered_nodes(one.nodes@)[i];
    let b = ordered_nodes(other.nodes@)[i];
    attached_alike(one, other, a, b);
    names_are_ordered_alike(
        attached(a, one.roles@)->0,
        attached(b, other.roles@)->0,
        one.fabrics@,
        other.fabrics@,
    );
}

proof fn ordinals_alike(one: TopologySpec, other: TopologySpec, fabric: Seq<char>, i: nat)
    requires
        agree(one, other),
        i <= ordered_nodes(one.nodes@).len(),
    ensures
        ordinal(ordered_nodes(one.nodes@), one.roles@, fabric, i) == ordinal(
            ordered_nodes(other.nodes@),
            other.roles@,
            fabric,
            i,
        ),
    decreases i,
{
    if i > 0 {
        ordinals_alike(one, other, fabric, (i - 1) as nat);
        let a = ordered_nodes(one.nodes@)[i - 1];
        let b = ordered_nodes(other.nodes@)[i - 1];
        attached_alike(one, other, a, b);
        let x = attached(a, one.roles@)->0;
        let y = attached(b, other.roles@)->0;
        assert(x.contains(fabric) <==> y.contains(fabric));
    }
}

proof fn attachments_alike(one: TopologySpec, other: TopologySpec, i: int, k: int)
    requires
        agree(one, other),
        0 <= i < ordered_nodes(one.nodes@).len(),
    ensures
        attachment(one, i, k) == attachment(other, i, k),
{
    let fabric = port_fabrics(one, ordered_nodes(one.nodes@)[i])[k];
    ports_alike(one, other, i);
    ordinals_alike(one, other, fabric, i as nat);
    assert(node_alike(ordered_nodes(one.nodes@)[i], ordered_nodes(other.nodes@)[i]));
    assert(fabric_named(one.fabrics@, fabric) == fabric_named(other.fabrics@, fabric));
}

proof fn records_alike(one: TopologySpec, other: TopologySpec, i: int)
    requires
        agree(one, other),
        0 <= i < ordered_nodes(one.nodes@).len(),
    ensures
        node_record(one, i) == node_record(other, i),
        node_resource(one, i) == node_resource(other, i),
{
    ports_alike(one, other, i);
    assert(node_alike(ordered_nodes(one.nodes@)[i], ordered_nodes(other.nodes@)[i]));
    assert forall|k: int| #[trigger] attachment(one, i, k) == attachment(other, i, k) by {
        attachments_alike(one, other, i, k);
    }
    assert(node_record(one, i).attachments =~= node_record(other, i).attachments);
    assert(node_resource(one, i).network_interfaces =~= node_resource(
        other,
        i,
    ).network_interfaces);
}

proof fn port_faults_alike(one: TopologySpec, other: TopologySpec, i: int, k: int)
    requires
        agree(one, other),
        0 <= i < ordered_nodes(one.nodes@).len(),
        0 <= k,
    ensures
        ports_fault(one, i, k) == ports_fault(other, i, k),
    decreases port_fabrics(one, ordered_nodes(one.nodes@)[i]).len() - k,
{
    ports_alike(one, other, i);
    let names = port_fabrics(one, ordered_nodes(one.nodes@)[i]);
    if k < names.len() {
        port_faults_alike(one, other, i, k + 1);
        ordinals_alike(one, other, names[k], i as nat);
        assert(node_alike(ordered_nodes(one.nodes@)[i], ordered_nodes(other.nodes@)[i]));
        assert(fabric_named(one.fabrics@, names[k]) == fabric_named(other.fabrics@, names[k]));
    }
}

proof fn node_faults_alike(one: TopologySpec, other: TopologySpec, i: int)
    requires
        agree(one, other),
        0 <= i,
    ensures
        first_node_fault(one, i) == first_node_fault(other, i),
    decreases ordered_nodes(one.nodes@).len() - i,
{
    if i < ordered_nodes(one.nodes@).len() {
        node_faults_alike(one, other, i + 1);
        port_faults_alike(one, other, i, 0);
        ports_alike(one, other, i);
        assert(node_alike(ordered_nodes(one.nodes@)[i], ordered_nodes(other.nodes@)[i]));
    }
}

proof fn known_names(names: Seq<Seq<char>>, fabrics: Seq<FabricSpec>)
    requires
        forall|name: Seq<char>| #[trigger]
            names.contains(name) ==> fabric_named(fabrics, name) is Some,
    ensures
        least_unknown(names, fabrics) is None,
    decreases names.len(),
{
    if names.len() > 0 {
        let front = names.drop_last();
        assert forall|name: Seq<char>| #[trigger] front.contains(name) implies fabric_named(
            fabrics,
            name,
        ) is Some by {
            let k = front.index_of(name);
            assert(names[k] == name);
            assert(names.contains(name));
        }
        known_names(front, fabrics);
        assert(names.contains(names[names.len() - 1]));
    }
}

proof fn attachments_without_fault(spec: TopologySpec, from: int)
    requires
        0 <= from,
        forall|j: int|
            0 <= j < spec.nodes@.len() ==> attached(
                #[trigger] spec.nodes@[j],
                spec.roles@,
            ) is Some && least_unknown(
                attached(spec.nodes@[j], spec.roles@)->0,
                spec.fabrics@,
            ) is None,
    ensures
        attachments_fault(spec, from) is None,
    decreases spec.nodes@.len() - from,
{
    if from < spec.nodes@.len() {
        attachments_without_fault(spec, from + 1);
        assert(attached(spec.nodes@[from], spec.roles@) is Some);
    }
}

/// What topologies agree on that declare the same, where one has no fault.
proof fn the_same_declarations_agree(one: TopologySpec, other: TopologySpec)
    requires
        declares_the_same(one, other),
        topology_fault(one) is None,
    ensures
        agree(one, other),
        topology_fault(other) is None,
        ordered_fabrics(one.fabrics@) == ordered_fabrics(other.fabrics@),
{
    rearranged_fabrics(one.fabrics@, other.fabrics@);
    rearranged_roles(one.roles@, other.roles@);
    rearranged_nodes(one.nodes@, other.nodes@);
    let alike = nodes_alike();
    crate::rearranging::rearranged_have_each_other(one.nodes@, other.nodes@, alike);
    crate::rearranging::rearranged_have_each_other(one.fabrics@, other.fabrics@, fabrics_alike());
    assert forall|j: int| 0 <= j < other.nodes@.len() implies attached(
        #[trigger] other.nodes@[j],
        other.roles@,
    ) is Some && least_unknown(
        attached(other.nodes@[j], other.roles@)->0,
        other.fabrics@,
    ) is None by {
        let b = other.nodes@[j];
        assert(crate::rearranging::is_like_one(one.nodes@, b, alike));
        let i = choose|i: int| 0 <= i < one.nodes@.len() && alike(#[trigger] one.nodes@[i], b);
        let a = one.nodes@[i];
        attachments_are_known(one, 0, i);
        attached_alike(one, other, a, b);
        let x = attached(a, one.roles@)->0;
        let y = attached(b, other.roles@)->0;
        assert forall|name: Seq<char>| #[trigger] y.contains(name) implies fabric_named(
            other.fabrics@,
            name,
        ) is Some by {
            assert(x.contains(name));
            no_unknown_name(x, one.fabrics@, name);
            assert(fabric_named(one.fabrics@, name) == fabric_named(other.fabrics@, name));
        }
        known_names(y, other.fabrics@);
    }
    attachments_without_fault(other, 0);
}

/// Topologies that declare the same do so both ways.
pub proof fn declaring_the_same_is_symmetric(one: TopologySpec, other: TopologySpec)
    requires
        declares_the_same(one, other),
    ensures
        declares_the_same(other, one),
{
    crate::rearranging::rearranging_is_symmetric(one.fabrics@, other.fabrics@, fabrics_alike());
    crate::rearranging::rearranging_is_symmetric(one.roles@, other.roles@, roles_alike());
    assert forall|a: NodeSpec, b: NodeSpec| #[trigger] nodes_alike()(a, b) implies nodes_alike()(
        b,
        a,
    ) by {}
    crate::rearranging::rearranging_is_symmetric(one.nodes@, other.nodes@, nodes_alike());
}

/// The order of declarations does not matter: topologies that differ in the order of fabrics,
/// roles and nodes, and of the fabrics of roles and nodes, alone can be generated both or neither,
/// and what is generated is the same: resources, links, fabrics, and nodes with their ports and
/// addresses.
pub proof fn declaration_order_does_not_matter(
    one: TopologySpec,
    other: TopologySpec,
    g: GeneratedTopology,
)
    requires
        declares_the_same(one, other),
    ensures
        generation_fault(one) is None <==> generation_fault(other) is None,
        generation_fault(one) is None ==> is_generated(one, g) == is_generated(other, g),
{
    if generation_fault(one) is None {
        the_same_declarations_agree(one, other);
        node_faults_alike(one, other, 0);
        let count = ordered_nodes(one.nodes@).len();
        assert forall|i: int| 0 <= i < count implies #[trigger] node_record(one, i) == node_record(
            other,
            i,
        ) by {
            records_alike(one, other, i);
        }
        assert forall|i: int| 0 <= i < count implies #[trigger] node_resource(one, i)
            == node_resource(other, i) by {
            records_alike(one, other, i);
        }
        assert(Seq::new(count, |i: int| node_resource(one, i)) =~= Seq::new(
            count,
            |i: int| node_resource(other, i),
        ));
    } else if generation_fault(other) is None {
        declaring_the_same_is_symmetric(one, other);
        the_same_declarations_agree(other, one);
        node_faults_alike(other, one, 0);
    }
}

/// A node has exactly the addresses that it declares for a fabric, whatever subnet the fabric has.
pub proof fn declared_addresses_are_kept(spec: TopologySpec, i: int, k: int)
    requires
        0 <= i < ordered_nodes(spec.nodes@).len(),
        0 <= k < node_record(spec, i).attachments.len(),
    ensures
        ({
            let node = ordered_nodes(spec.nodes@)[i];
            let port = node_record(spec, i).attachments[k];
            let requested = node_resource(spec, i).network_interfaces[k];
            &&& node.addresses@.dom().contains(port.fabric)
                && node.addresses@[port.fabric]@.len() > 0 ==> port.addresses
                == crate::text::texts(node.addresses@[port.fabric]@) && requested.addresses
                == crate::text::texts(node.addresses@[port.fabric]@)
            &&& requested.addresses == port.addresses
        }),
{
}

/// A node that declares no address for a fabric with a subnet gets one: the first node by name
/// that takes part in the fabric gets the first address that may be given out, the next one the
/// next, each with the length of the subnet. Without a subnet it gets none.
pub proof fn missing_addresses_are_given_out_in_order(spec: TopologySpec, i: int, k: int)
    requires
        generation_fault(spec) is None,
        0 <= i < ordered_nodes(spec.nodes@).len(),
        0 <= k < node_record(spec, i).attachments.len(),
        spec.nodes@.len() < 0x1_0000_0000,
    ensures
        ({
            let node = ordered_nodes(spec.nodes@)[i];
            let port = node_record(spec, i).attachments[k];
            let f = fabric_named(spec.fabrics@, port.fabric)->0;
            let none_declared = !node.addresses@.dom().contains(port.fabric)
                || node.addresses@[port.fabric]@.len() == 0;
            let before = ordinal(ordered_nodes(spec.nodes@), spec.roles@, port.fabric, i as nat);
            &&& none_declared && f.ipv4_subnet is None ==> port.addresses.len() == 0
            &&& none_declared && f.ipv4_subnet is Some ==> {
                let cidr = f.ipv4_subnet->0@;
                let length = crate::virtual_wall::allocator::cidr_prefix(cidr)->0;
                let number = crate::virtual_wall::allocator::cidr_network(cidr) + f.host_start
                    + before;
                &&& port.addresses.len() == 1
                &&& port.addresses[0] == crate::virtual_wall::allocator::host_text(
                    number,
                    length,
                )
                &&& number < crate::virtual_wall::allocator::cidr_network(cidr)
                    + crate::virtual_wall::allocator::block_size(length)
            }
        }),
{
    let nodes = ordered_nodes(spec.nodes@);
    let roles = spec.roles@;
    let fabric = port_fabrics(spec, nodes[i])[k];
    let f = fabric_named(spec.fabrics@, fabric)->0;
    ordered_nodes_are_the_nodes(spec.nodes@, nodes[i]);
    nodes_are_faultless(spec, 0, i);
    ports_have_addresses(spec, i, 0, k);
    port_is_known(spec, i, k);
    ordinal_bound(nodes, roles, fabric, i as nat);
    if is_allocated(spec, nodes[i], fabric) {
        crate::virtual_wall::allocator::usable_subnet(f.ipv4_subnet->0@, f.host_start);
        let n = ordinal32(spec, i, fabric);
        assert(n == ordinal(nodes, roles, fabric, i as nat));
        let a = fabric_allocator(f);
        assert(!a.exhausted(n));
        assert(a.address(n) == crate::virtual_wall::allocator::cidr_network(f.ipv4_subnet->0@)
            + f.host_start + n);
    }
}

proof fn ordinal_bound(nodes: Seq<NodeSpec>, roles: Seq<RoleSpec>, fabric: Seq<char>, i: nat)
    ensures
        ordinal(nodes, roles, fabric, i) <= i,
    decreases i,
{
    if i > 0 {
        ordinal_bound(nodes, roles, fabric, (i - 1) as nat);
    }
}

/// The place of a node in a fabric counts the nodes before it that take part in the fabric, and no
/// others.
pub proof fn places_count_the_nodes_that_take_part(
    nodes: Seq<NodeSpec>,
    roles: Seq<RoleSpec>,
    fabric: Seq<char>,
    i: nat,
)
    requires
        attached(nodes[i as int], roles) is Some,
    ensures
        ordinal(nodes, roles, fabric, 0) == 0,
        attached(nodes[i as int], roles)->0.contains(fabric) ==> ordinal(
            nodes,
            roles,
            fabric,
            i + 1,
        ) == ordinal(nodes, roles, fabric, i) + 1,
        !attached(nodes[i as int], roles)->0.contains(fabric) ==> ordinal(
            nodes,
            roles,
            fabric,
            i + 1,
        ) == ordinal(nodes, roles, fabric, i),
{
}

/// A node takes part in the fabrics that it names itself; where it names none, in those of its
/// role.
pub proof fn nodes_take_part_in_their_fabrics(node: NodeSpec, roles: Seq<RoleSpec>, k: int)
    ensures
        node.fabrics@.len() > 0 ==> attached(node, roles) == Some(
            crate::text::texts(node.fabrics@),
        ),
        node.fabrics@.len() == 0 && 0 <= k < roles.len() && roles[k].name@ == node.role@ && (forall|
            j: int,
        |
            k < j < roles.len() ==> (#[trigger] roles[j]).name@ != node.role@) ==> attached(
            node,
            roles,
        ) == Some(crate::text::texts(roles[k].fabrics@)),
        node.fabrics@.len() == 0 && (forall|j: int|
            0 <= j < roles.len() ==> (#[trigger] roles[j]).name@ != node.role@) ==> attached(
            node,
            roles,
        ) is None,
{
    named_role_is_declared(roles, node.role@);
    if 0 <= k < roles.len() && roles[k].name@ == node.role@ && (forall|j: int|
        k < j < roles.len() ==> (#[trigger] roles[j]).name@ != node.role@) {
        last_role_is_named(roles, k);
    }
}

proof fn last_role_is_named(roles: Seq<RoleSpec>, k: int)
    requires
        0 <= k < roles.len(),
        forall|j: int| k < j < roles.len() ==> (#[trigger] roles[j]).name@ != roles[k].name@,
    ensures
        role_named(roles, roles[k].name@) == Some(roles[k]),
    decreases roles.len(),
{
    if k < roles.len() - 1 {
        let front = roles.drop_last();
        assert(roles[roles.len() - 1].name@ != roles[k].name@);
        assert(front[k] == roles[k]);
        assert forall|j: int| k < j < front.len() implies (#[trigger] front[j]).name@
            != front[k].name@ by {
            assert(roles[j].name@ != roles[k].name@);
        }
        last_role_is_named(front, k);
    }
}

/// The ports of a node are one for each fabric that it takes part in, in the order of the
/// fabrics: by position, then by name.
pub proof fn ports_come_in_the_order_of_the_fabrics(spec: TopologySpec, i: int, k: int, l: int)
    requires
        topology_fault(spec) is None,
        0 <= i < ordered_nodes(spec.nodes@).len(),
        0 <= k < l < node_record(spec, i).attachments.len(),
    ensures
        ({
            let a = node_record(spec, i).attachments[k].fabric;
            let b = node_record(spec, i).attachments[l].fabric;
            let f = fabric_named(spec.fabrics@, a)->0;
            let g = fabric_named(spec.fabrics@, b)->0;
            &&& a != b
            &&& f.order is Some && g.order is Some && f.order->0 != g.order->0 ==> f.order->0
                < g.order->0
            &&& f.order == g.order ==> crate::text::less(a, b)
            &&& f.order is None && g.order is Some ==> g.order->0 == u32::MAX
        }),
{
    let node = ordered_nodes(spec.nodes@)[i];
    let names = attached(node, spec.roles@)->0;
    ordered_names_ascend(names, spec.fabrics@, k, l);
    node_is_known(spec, i);
    let a = ordered_names(names, spec.fabrics@)[k];
    let b = ordered_names(names, spec.fabrics@)[l];
    name_before_is_an_order(spec.fabrics@, a, b, a);
    ordered_names_are_the_names(names, spec.fabrics@, a);
    ordered_names_are_the_names(names, spec.fabrics@, b);
    assert(ordered_names(names, spec.fabrics@).contains(a));
    assert(ordered_names(names, spec.fabrics@).contains(b));
    no_unknown_name(names, spec.fabrics@, a);
    no_unknown_name(names, spec.fabrics@, b);
}

/// The fabric of a name is the last that is declared under it, and its network is the one that it
/// gives, else one of its name.
pub proof fn fabrics_are_found_by_name(fabrics: Seq<FabricSpec>, k: int)
    requires
        0 <= k < fabrics.len(),
        forall|j: int| k < j < fabrics.len() ==> (#[trigger] fabrics[j]).name@ != fabrics[k].name@,
    ensures
        fabric_named(fabrics, fabrics[k].name@) == Some(fabrics[k]),
        fabrics[k].network_id is Some ==> network_of(fabrics[k]) == fabrics[k].network_id->0@,
        fabrics[k].network_id is None ==> network_of(fabrics[k]) == fabrics[k].name@,
    decreases fabrics.len(),
{
    if k < fabrics.len() - 1 {
        let front = fabrics.drop_last();
        assert(fabrics[fabrics.len() - 1].name@ != fabrics[k].name@);
        assert(front[k] == fabrics[k]);
        assert forall|j: int| k < j < front.len() implies (#[trigger] front[j]).name@
            != front[k].name@ by {
            assert(fabrics[j].name@ != fabrics[k].name@);
        }
        fabrics_are_found_by_name(front, k);
    }
}

/// What is requested for a node: a resource of its name with the prefix of the topology, in the
/// place and of the kind that the node gives, else the topology; and a port for each attachment,
/// numbered from the first, on the network of the fabric.
pub proof fn requests_say_what_the_node_needs(spec: TopologySpec, i: int)
    requires
        0 <= i < ordered_nodes(spec.nodes@).len(),
    ensures
        ({
            let node = ordered_nodes(spec.nodes@)[i];
            let r = node_resource(spec, i);
            let state = node_record(spec, i);
            &&& state.name == node.name@
            &&& state.role == node.role@
            &&& match spec.resource_prefix {
                Some(prefix) => r.friendly_name == prefix@ + node.name@,
                None => r.friendly_name == node.name@,
            }
            &&& node.site_id is Some ==> r.site_id == Some(node.site_id->0@)
            &&& node.site_id is None && spec.site_id is Some ==> r.site_id == Some(
                spec.site_id->0@,
            )
            &&& node.image is Some ==> r.disk_image == Some(node.image->0@)
            &&& node.image is None && spec.image is Some ==> r.disk_image == Some(spec.image->0@)
            &&& node.flavor is Some ==> r.flavor == Some(node.flavor->0@)
            &&& node.flavor is None && spec.flavor is Some ==> r.flavor == Some(spec.flavor->0@)
            &&& node.cloud_init is Some ==> r.userdata_file == Some(node.cloud_init->0@)
            &&& node.cloud_init is None && spec.cloud_init is Some ==> r.userdata_file == Some(
                spec.cloud_init->0@,
            )
            &&& r.network_interfaces.len() == state.attachments.len()
            &&& forall|k: int|
                0 <= k < state.attachments.len() ==> {
                    let port = #[trigger] state.attachments[k];
                    let f = fabric_named(spec.fabrics@, port.fabric)->0;
                    &&& port.port_id == spec.port_id_scheme.prefix@ + crate::text::dec(
                        (spec.port_id_scheme.start_index + k) as nat,
                    )
                    &&& r.network_interfaces[k].port_id == Some(port.port_id)
                    &&& r.network_interfaces[k].network_id == port.network_id
                    &&& port.network_id == network_of(f)
                }
        }),
{
    let node = ordered_nodes(spec.nodes@)[i];
    assert(Seq::<char>::empty() + node.name@ =~= node.name@);
}

/// What is generated holds every fabric: as a link on its network, of its kind, under its name and
/// with its impairments, and as a record that says the same.
pub proof fn generated_topologies_hold_every_fabric(
    spec: TopologySpec,
    g: GeneratedTopology,
    f: FabricSpec,
)
    requires
        is_generated(spec, g),
        spec.fabrics@.contains(f),
    ensures
        g.spec@.links.len() == spec.fabrics@.len(),
        g.state.fabrics@.len() == spec.fabrics@.len(),
        exists|i: int|
            0 <= i < g.spec@.links.len() && ({
                let link = #[trigger] g.spec@.links[i];
                let record = g.state.fabrics@[i]@;
                &&& link.friendly_name == f.name@ && record.name == f.name@
                &&& match f.network_id {
                    Some(id) => link.network_id == id@ && record.network_id == id@,
                    None => link.network_id == f.name@ && record.network_id == f.name@,
                }
                &&& link.link_type == Some(f.link_type@) && record.link_type == f.link_type@
                &&& link.impairment == f.impairment@ && record.impairment == f.impairment@
                &&& match f.share_lan_name {
                    Some(lan) => link.share_lan_name == Some(lan@) && record.share_lan_name
                        == Some(lan@),
                    None => link.share_lan_name is None && record.share_lan_name is None,
                }
                &&& match f.ipv4_subnet {
                    Some(subnet) => record.ipv4_subnet == Some(subnet@),
                    None => record.ipv4_subnet is None,
                }
                &&& record.order == f.order
            }),
{
    let fabrics = ordered_fabrics(spec.fabrics@);
    ordered_fabrics_are_the_fabrics(spec.fabrics@, f);
    let i = fabrics.index_of(f);
    assert(g.state.fabrics@[i]@ == fabric_record(fabrics[i]));
    assert(g.spec@.links[i] == fabric_link(f));
}

/// What is generated holds every node, with a port for each fabric that it attaches to and no
/// other; the addresses that it declares for a fabric are those of its port there.
pub proof fn generated_topologies_hold_every_node(
    spec: TopologySpec,
    g: GeneratedTopology,
    n: NodeSpec,
)
    requires
        is_generated(spec, g),
        spec.nodes@.contains(n),
    ensures
        g.spec@.resources.len() == spec.nodes@.len(),
        g.state.nodes@.len() == spec.nodes@.len(),
        exists|i: int|
            0 <= i < g.spec@.resources.len() && ({
                let r = #[trigger] g.spec@.resources[i];
                let record = g.state.nodes@[i]@;
                &&& record.name == n.name@ && record.role == n.role@
                &&& r.friendly_name == match spec.resource_prefix {
                    Some(prefix) => prefix@ + n.name@,
                    None => n.name@,
                }
                &&& r.network_interfaces.len() == record.attachments.len()
                &&& forall|k: int|
                    0 <= k < record.attachments.len() ==> {
                        let port = #[trigger] record.attachments[k];
                        &&& attached(n, spec.roles@)->0.contains(port.fabric)
                        &&& r.network_interfaces[k].addresses == port.addresses
                        &&& n.addresses@.dom().contains(port.fabric)
                            && n.addresses@[port.fabric]@.len() > 0 ==> port.addresses
                            == crate::text::texts(n.addresses@[port.fabric]@)
                    }
                &&& forall|name: Seq<char>| #[trigger]
                    attached(n, spec.roles@)->0.contains(name) ==> exists|k: int|
                        0 <= k < record.attachments.len() && (
                        #[trigger] record.attachments[k]).fabric == name
            }),
{
    let nodes = ordered_nodes(spec.nodes@);
    ordered_nodes_are_the_nodes(spec.nodes@, n);
    let i = nodes.index_of(n);
    let names = attached(n, spec.roles@)->0;
    let ports = port_fabrics(spec, n);
    assert(g.state.nodes@[i]@ == node_record(spec, i));
    assert(g.spec@.resources[i] == node_resource(spec, i));
    requests_say_what_the_node_needs(spec, i);
    let record = g.state.nodes@[i]@;
    assert forall|k: int| 0 <= k < record.attachments.len() implies ({
        let port = #[trigger] record.attachments[k];
        &&& names.contains(port.fabric)
        &&& g.spec@.resources[i].network_interfaces[k].addresses == port.addresses
        &&& n.addresses@.dom().contains(port.fabric) && n.addresses@[port.fabric]@.len() > 0
            ==> port.addresses == crate::text::texts(n.addresses@[port.fabric]@)
    }) by {
        declared_addresses_are_kept(spec, i, k);
        assert(ports.contains(ports[k]));
        ordered_names_are_the_names(names, spec.fabrics@, ports[k]);
    }
    assert forall|name: Seq<char>| #[trigger] names.contains(name) implies exists|k: int|
        0 <= k < record.attachments.len() && (#[trigger] record.attachments[k]).fabric == name by {
        ordered_names_are_the_names(names, spec.fabrics@, name);
        let k = ports.index_of(name);
        assert(record.attachments[k].fabric == name);
    }
}

/// A topology is accepted as it stands exactly where there is a fabric and a node, every name stands
/// once, every subnet can be read, and every node attaches to declared fabrics.
pub proof fn sound_topologies_are_accepted(spec: TopologySpec)
    ensures
        topology_fault(spec) is None <==> {
            &&& spec.fabrics@.len() > 0
            &&& spec.nodes@.len() > 0
            &&& forall|i: int, j: int|
                0 <= i < j < spec.fabrics@.len() ==> (#[trigger] spec.fabrics@[i]).name@ != (
                #[trigger] spec.fabrics@[j]).name@
            &&& forall|i: int, j: int|
                0 <= i < j < spec.nodes@.len() ==> (#[trigger] spec.nodes@[i]).name@ != (
                #[trigger] spec.nodes@[j]).name@
            &&& forall|i: int, j: int|
                0 <= i < j < spec.roles@.len() ==> (#[trigger] spec.roles@[i]).name@ != (
                #[trigger] spec.roles@[j]).name@
            &&& forall|i: int|
                0 <= i < spec.fabrics@.len() && (#[trigger] spec.fabrics@[i]).ipv4_subnet is Some
                    ==> crate::virtual_wall::allocator::cidr_fault(
                    spec.fabrics@[i].ipv4_subnet->0@,
                ) is None
            &&& forall|i: int|
                0 <= i < spec.nodes@.len() ==> attaches_to_declared_fabrics(
                    #[trigger] spec.nodes@[i],
                    spec,
                )
        },
{
    fabrics_without_fault(spec.fabrics@);
    nodes_without_fault(spec.nodes@);
    roles_without_fault(spec.roles@);
    if topology_fault(spec) is None {
        assert forall|i: int| 0 <= i < spec.fabrics@.len() && (
        #[trigger] spec.fabrics@[i]).ipv4_subnet is Some implies
            crate::virtual_wall::allocator::cidr_fault(spec.fabrics@[i].ipv4_subnet->0@) is None by {
            assert(has_readable_subnet(spec.fabrics@[i]));
        }
        assert forall|i: int| 0 <= i < spec.nodes@.len() implies attaches_to_declared_fabrics(
            #[trigger] spec.nodes@[i],
            spec,
        ) by {
            attachments_are_known(spec, 0, i);
            let names = attached(spec.nodes@[i], spec.roles@)->0;
            assert forall|name: Seq<char>| #[trigger] names.contains(name) implies exists|k: int|
                0 <= k < spec.fabrics@.len() && (#[trigger] spec.fabrics@[k]).name@ == name by {
                no_unknown_name(names, spec.fabrics@, name);
                named_fabric_is_declared(spec.fabrics@, name);
                let f = fabric_named(spec.fabrics@, name)->0;
                let k = spec.fabrics@.index_of(f);
                assert(spec.fabrics@[k].name@ == name);
            }
        }
    }
    if spec.fabrics@.len() > 0 && spec.nodes@.len() > 0 && own_fabric_names(spec.fabrics@)
        && own_node_names(spec.nodes@) && own_role_names(spec.roles@) && (forall|i: int|
        0 <= i < spec.fabrics@.len() && (#[trigger] spec.fabrics@[i]).ipv4_subnet is Some
            ==> crate::virtual_wall::allocator::cidr_fault(
            spec.fabrics@[i].ipv4_subnet->0@,
        ) is None) && (forall|i: int|
        0 <= i < spec.nodes@.len() ==> attaches_to_declared_fabrics(
            #[trigger] spec.nodes@[i],
            spec,
        )) {
        assert forall|j: int| 0 <= j < spec.nodes@.len() implies attached(
            #[trigger] spec.nodes@[j],
            spec.roles@,
        ) is Some && least_unknown(
            attached(spec.nodes@[j], spec.roles@)->0,
            spec.fabrics@,
        ) is None by {
            assert(attaches_to_declared_fabrics(spec.nodes@[j], spec));
            let names = attached(spec.nodes@[j], spec.roles@)->0;
            assert forall|name: Seq<char>| #[trigger] names.contains(name) implies fabric_named(
                spec.fabrics@,
                name,
            ) is Some by {
                let k = choose|k: int|
                    0 <= k < spec.fabrics@.len() && (#[trigger] spec.fabrics@[k]).name@ == name;
                declared_fabric_is_named(spec.fabrics@, k);
            }
            known_names(names, spec.fabrics@);
        }
        attachments_without_fault(spec, 0);
        assert forall|j: int| 0 <= j < spec.fabrics@.len() implies has_readable_subnet(
            #[trigger] spec.fabrics@[j],
        ) by {}
    }
}

/// Whether a node attaches to declared fabrics.
pub open spec fn attaches_to_declared_fabrics(node: NodeSpec, spec: TopologySpec) -> bool {
    &&& attached(node, spec.roles@) is Some
    &&& forall|name: Seq<char>| #[trigger]
        attached(node, spec.roles@)->0.contains(name) ==> exists|k: int|
            0 <= k < spec.fabrics@.len() && (#[trigger] spec.fabrics@[k]).name@ == name
}

/// A value is blank where it holds nothing but white space.
pub proof fn white_space_alone_is_blank(s: Seq<char>)
    ensures
        is_blank(Some(s)) <==> forall|i: int|
            0 <= i < s.len() ==> crate::text::is_white(#[trigger] s[i]),
{
    crate::text::trimming_takes_white_space_alone(s);
}

} // verus!
