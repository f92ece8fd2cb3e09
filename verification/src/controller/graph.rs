//! The network graph of an experiment and the shortest paths through it.

use vstd::prelude::*;

use crate::string_map::StringMap;
use crate::text::{eq_ignore_case, same};

verus! {

/// A node with its interfaces and its neighbors; a neighbor comes with the index of the link.
pub struct Node {
    pub name: String,
    pub node_type: String,
    pub interfaces: StringMap<Vec<String>>,
    pub neighbors: Vec<(String, usize)>,
}

/// A link between two nodes.
#[derive(Debug)]
pub struct Link {
    pub intf1: String,
    pub intf2: String,
    pub ip1: String,
    pub ip2: String,
    pub node1: String,
    pub node2: String,
    pub status: String,
}

/// A link as it is passed on a path.
#[derive(Debug, Clone)]
pub struct Segment {
    pub from: String,
    pub to: String,
    pub from_interface: String,
    pub to_interface: String,
    pub from_ip: String,
    pub to_ip: String,
    pub status: String,
}

/// A graph of nodes and links.
pub struct Graph {
    pub nodes: StringMap<Node>,
    pub links: Vec<Link>,
}

/// What a [`Node`] says.
#[verifier::ext_equal]
pub struct NodeView {
    pub name: Seq<char>,
    pub node_type: Seq<char>,
    pub interfaces: Map<Seq<char>, Seq<Seq<char>>>,
    pub neighbors: Seq<(Seq<char>, int)>,
}

/// What a [`Segment`] says.
#[verifier::ext_equal]
pub struct SegmentView {
    pub from: Seq<char>,
    pub to: Seq<char>,
    pub from_interface: Seq<char>,
    pub to_interface: Seq<char>,
    pub from_ip: Seq<char>,
    pub to_ip: Seq<char>,
    pub status: Seq<char>,
}

/// What a [`Graph`] says.
#[verifier::ext_equal]
pub struct GraphView {
    pub nodes: Map<Seq<char>, NodeView>,
    pub links: Seq<Link>,
}

impl View for Node {
    type V = NodeView;

    open spec fn view(&self) -> NodeView {
        NodeView {
            name: self.name@,
            node_type: self.node_type@,
            interfaces: Map::new(
                |i: Seq<char>| self.interfaces@.dom().contains(i),
                |i: Seq<char>| crate::text::texts(self.interfaces@[i]@),
            ),
            neighbors: Seq::new(
                self.neighbors@.len(),
                |i: int| (self.neighbors@[i].0@, self.neighbors@[i].1 as int),
            ),
        }
    }
}

impl View for Segment {
    type V = SegmentView;

    open spec fn view(&self) -> SegmentView {
        SegmentView {
            from: self.from@,
            to: self.to@,
            from_interface: self.from_interface@,
            to_interface: self.to_interface@,
            from_ip: self.from_ip@,
            to_ip: self.to_ip@,
            status: self.status@,
        }
    }
}

/// What a map of nodes says.
pub open spec fn node_views(nodes: Map<Seq<char>, Node>) -> Map<Seq<char>, NodeView> {
    Map::new(|n: Seq<char>| nodes.dom().contains(n), |n: Seq<char>| nodes[n]@)
}

impl View for Graph {
    type V = GraphView;

    open spec fn view(&self) -> GraphView {
        GraphView { nodes: node_views(self.nodes@), links: self.links@ }
    }
}

impl Clone for Link {
    fn clone(&self) -> (r: Self)
        ensures
            r == *self,
    {
        Link {
            intf1: self.intf1.clone(),
            intf2: self.intf2.clone(),
            ip1: self.ip1.clone(),
            ip2: self.ip2.clone(),
            node1: self.node1.clone(),
            node2: self.node2.clone(),
            status: self.status.clone(),
        }
    }
}

/// Whether a text stands for an absent address.
pub open spec fn not_available(ip: Seq<char>) -> bool {
    crate::text::same_ignoring_case(ip, "N/A"@)
}

/// A node without interfaces and neighbors.
pub open spec fn bare_node(name: Seq<char>, node_type: Seq<char>) -> NodeView {
    NodeView { name, node_type, interfaces: Map::empty(), neighbors: Seq::empty() }
}

/// A node with an address added to an interface, unless it stands for an absent one.
pub open spec fn with_address(n: NodeView, iface: Seq<char>, ip: Seq<char>) -> NodeView {
    if not_available(ip) {
        n
    } else {
        let before = if n.interfaces.dom().contains(iface) {
            n.interfaces[iface]
        } else {
            Seq::empty()
        };
        NodeView { interfaces: n.interfaces.insert(iface, before.push(ip)), ..n }
    }
}

/// A node with a neighbor added.
pub open spec fn with_neighbor(n: NodeView, name: Seq<char>, link: int) -> NodeView {
    NodeView { neighbors: n.neighbors.push((name, link)), ..n }
}

/// The node of a name, or a new one of the given type.
pub open spec fn node_or_new(
    nodes: Map<Seq<char>, NodeView>,
    name: Seq<char>,
    node_type: Seq<char>,
) -> NodeView {
    if nodes.dom().contains(name) {
        nodes[name]
    } else {
        bare_node(name, node_type)
    }
}

/// The nodes after an end of a link was attached.
pub open spec fn with_end(
    nodes: Map<Seq<char>, NodeView>,
    name: Seq<char>,
    iface: Seq<char>,
    ip: Seq<char>,
) -> Map<Seq<char>, NodeView> {
    nodes.insert(name, with_address(node_or_new(nodes, name, "Unknown"@), iface, ip))
}

/// The graph after a link was added.
pub open spec fn link_added(g: GraphView, link: Link) -> GraphView {
    let index = g.links.len() as int;
    let ends = with_end(
        with_end(g.nodes, link.node1@, link.intf1@, link.ip1@),
        link.node2@,
        link.intf2@,
        link.ip2@,
    );
    let first = ends.insert(
        link.node1@,
        with_neighbor(ends[link.node1@], link.node2@, index),
    );
    let second = first.insert(
        link.node2@,
        with_neighbor(first[link.node2@], link.node1@, index),
    );
    GraphView { nodes: second, links: g.links.push(link) }
}

/// Whether a link joins two nodes.
pub open spec fn joins(link: Link, a: Seq<char>, b: Seq<char>) -> bool {
    (link.node1@ == a && link.node2@ == b) || (link.node1@ == b && link.node2@ == a)
}

/// Whether every node stands under its name and every neighbor is a node that the link leads to.
pub open spec fn is_linked(g: GraphView) -> bool {
    &&& forall|n: Seq<char>| #[trigger] g.nodes.dom().contains(n) ==> g.nodes[n].name == n
    &&& forall|n: Seq<char>, k: int|
        #![trigger g.nodes[n].neighbors[k]]
        g.nodes.dom().contains(n) && 0 <= k < g.nodes[n].neighbors.len() ==> {
            let nb = g.nodes[n].neighbors[k];
            &&& 0 <= nb.1 < g.links.len()
            &&& g.nodes.dom().contains(nb.0)
            &&& joins(g.links[nb.1], n, nb.0)
        }
}

/// Whether a node has another as its neighbor by the link of an index.
pub open spec fn has_neighbor(g: GraphView, n: Seq<char>, other: Seq<char>, link: int) -> bool {
    g.nodes.dom().contains(n) && g.nodes[n].neighbors.contains((other, link))
}

/// Whether every link makes its ends neighbors of each other.
pub open spec fn lists_links(g: GraphView) -> bool {
    forall|i: int|
        #![trigger g.links[i]]
        0 <= i < g.links.len() ==> has_neighbor(g, g.links[i].node1@, g.links[i].node2@, i)
            && has_neighbor(g, g.links[i].node2@, g.links[i].node1@, i)
}

/// The `k`th neighbor of a node.
pub open spec fn neighbor(g: GraphView, at: Seq<char>, k: int) -> Option<(Seq<char>, int)> {
    if g.nodes.dom().contains(at) && 0 <= k < g.nodes[at].neighbors.len() {
        Some(g.nodes[at].neighbors[k])
    } else {
        None
    }
}

/// The name of the `k`th neighbor of a node.
pub open spec fn neighbor_name(g: GraphView, at: Seq<char>, k: int) -> Seq<char> {
    g.nodes[at].neighbors[k].0
}

/// The node that is reached from a start by taking, at each node, the neighbor of the given
/// number.
pub open spec fn reached(g: GraphView, start: Seq<char>, route: Seq<int>) -> Option<Seq<char>>
    decreases route.len(),
{
    if route.len() == 0 {
        Some(start)
    } else {
        match reached(g, start, route.drop_last()) {
            Some(at) => match neighbor(g, at, route.last()) {
                Some(nb) => Some(nb.0),
                None => None,
            },
            None => None,
        }
    }
}

/// The nodes along a route.
pub open spec fn route_nodes(g: GraphView, start: Seq<char>, route: Seq<int>) -> Seq<Seq<char>>
    decreases route.len(),
{
    if route.len() == 0 {
        seq![start]
    } else {
        route_nodes(g, start, route.drop_last()).push(reached(g, start, route)->0)
    }
}

/// A link as it is passed from one node to another.
pub open spec fn passage(link: Link, from: Seq<char>, to: Seq<char>) -> SegmentView {
    if link.node1@ == from && link.node2@ == to {
        SegmentView {
            from,
            to,
            from_interface: link.intf1@,
            to_interface: link.intf2@,
            from_ip: link.ip1@,
            to_ip: link.ip2@,
            status: link.status@,
        }
    } else {
        SegmentView {
            from,
            to,
            from_interface: link.intf2@,
            to_interface: link.intf1@,
            from_ip: link.ip2@,
            to_ip: link.ip1@,
            status: link.status@,
        }
    }
}

/// The links along a route.
pub open spec fn route_segments(g: GraphView, start: Seq<char>, route: Seq<int>) -> Seq<SegmentView>
    decreases route.len(),
{
    if route.len() == 0 {
        Seq::empty()
    } else {
        let at = reached(g, start, route.drop_last())->0;
        let nb = neighbor(g, at, route.last())->0;
        route_segments(g, start, route.drop_last()).push(passage(g.links[nb.1], at, nb.0))
    }
}

/// Whether a route comes before another: it is shorter, or of the same length and smaller at the
/// first difference.
pub open spec fn precedes(a: Seq<int>, b: Seq<int>) -> bool {
    a.len() < b.len() || (a.len() == b.len() && exists|i: int|
        0 <= i < a.len() && #[trigger] a[i] < b[i] && a.take(i) == b.take(i))
}

/// Whether a route comes before another or is the same.
pub open spec fn at_most(a: Seq<int>, b: Seq<int>) -> bool {
    a == b || precedes(a, b)
}

/// Whether a route leads from a start to an end and comes before all others that do.
pub open spec fn is_best_route(
    g: GraphView,
    start: Seq<char>,
    end: Seq<char>,
    route: Seq<int>,
) -> bool {
    &&& reached(g, start, route) == Some(end)
    &&& forall|other: Seq<int>| #[trigger]
        reached(g, start, other) == Some(end) ==> at_most(route, other)
}

/// Whether an end can be reached from a start.
pub open spec fn is_reachable(g: GraphView, start: Seq<char>, end: Seq<char>) -> bool {
    exists|route: Seq<int>| #[trigger] reached(g, start, route) == Some(end)
}

proof fn precedes_transitive(a: Seq<int>, b: Seq<int>, c: Seq<int>)
    requires
        at_most(a, b),
        at_most(b, c),
    ensures
        at_most(a, c),
        precedes(a, b) || precedes(b, c) ==> precedes(a, c),
{
    if precedes(a, b) && precedes(b, c) && a.len() == c.len() {
        let i = choose|i: int|
            0 <= i < a.len() && #[trigger] a[i] < b[i] && a.take(i) == b.take(i);
        let j = choose|j: int|
            0 <= j < b.len() && #[trigger] b[j] < c[j] && b.take(j) == c.take(j);
        let m = if i < j { i } else { j };
        assert(a.take(m) =~= c.take(m)) by {
            assert(a.take(m) =~= a.take(i).take(m));
            assert(b.take(m) =~= b.take(i).take(m));
            assert(b.take(m) =~= b.take(j).take(m));
            assert(c.take(m) =~= c.take(j).take(m));
        }
        if i < j {
            assert(b[i] == b.take(j)[i]);
            assert(c[i] == c.take(j)[i]);
        } else if j < i {
            assert(a[j] == a.take(i)[j]);
            assert(b[j] == b.take(i)[j]);
        }
        assert(a[m] < c[m]);
    }
}

proof fn precedes_irreflexive(a: Seq<int>)
    ensures
        !precedes(a, a),
{
}

/// Extending routes keeps their order, and the number of the last step decides between
/// extensions of the same route.
proof fn extended_routes(a: Seq<int>, b: Seq<int>, x: int, y: int)
    requires
        at_most(a, b),
        a == b ==> x <= y,
    ensures
        at_most(a.push(x), b.push(y)),
        precedes(a, b) || x < y ==> precedes(a.push(x), b.push(y)),
{
    let ax = a.push(x);
    let by = b.push(y);
    if a == b {
        if x < y {
            assert(ax.take(a.len() as int) =~= by.take(a.len() as int));
            assert(ax[a.len() as int] < by[a.len() as int]);
        }
    } else if a.len() == b.len() {
        let i = choose|i: int|
            0 <= i < a.len() && #[trigger] a[i] < b[i] && a.take(i) == b.take(i);
        assert(ax.take(i) =~= a.take(i));
        assert(by.take(i) =~= b.take(i));
        assert(ax[i] < by[i]);
    }
}

/// There is at most one best route between two nodes.
pub proof fn best_route_is_unique(
    g: GraphView,
    start: Seq<char>,
    end: Seq<char>,
    a: Seq<int>,
    b: Seq<int>,
)
    requires
        is_best_route(g, start, end, a),
        is_best_route(g, start, end, b),
    ensures
        a == b,
{
    if a != b {
        precedes_transitive(a, b, a);
        precedes_irreflexive(a);
    }
}

impl Node {
    /// A node without interfaces and neighbors.
    pub fn new(name: &str, node_type: &str) -> (r: Self)
        ensures
            r@ == bare_node(name@, node_type@),
    {
        let r = Node {
            name: name.to_owned(),
            node_type: node_type.to_owned(),
            interfaces: StringMap::new(),
            neighbors: Vec::new(),
        };
        assert(r@ =~= bare_node(name@, node_type@));
        r
    }

    /// Adds an address to an interface; `N/A` stands for no address.
    pub fn add_interface(&mut self, iface: &str, ip: &str)
        ensures
            final(self)@ == with_address(old(self)@, iface@, ip@),
    {
        if eq_ignore_case(ip, "N/A") {
            return ;
        }
        let ghost before = *self;
        let mut ips = match self.interfaces.remove(iface) {
            Some(ips) => ips,
            None => Vec::new(),
        };
        let ghost was = crate::text::texts(ips@);
        assert(was =~= if before@.interfaces.dom().contains(iface@) {
            before@.interfaces[iface@]
        } else {
            Seq::empty()
        });
        ips.push(ip.to_owned());
        assert(crate::text::texts(ips@) =~= was.push(ip@));
        self.interfaces.insert(iface.to_owned(), ips);
        assert(self@ =~= with_address(before@, iface@, ip@));
    }
}

impl Graph {
    /// An empty graph.
    pub fn new() -> (r: Self)
        ensures
            r@.nodes == Map::<Seq<char>, NodeView>::empty(),
            r@.links == Seq::<Link>::empty(),
            is_linked(r@),
            lists_links(r@),
    {
        let r = Graph { nodes: StringMap::new(), links: Vec::new() };
        assert(r@.nodes =~= Map::<Seq<char>, NodeView>::empty());
        r
    }

    fn take_node(&mut self, name: &str, node_type: &str) -> (r: Node)
        ensures
            r@ == node_or_new(old(self)@.nodes, name@, node_type@),
            final(self).nodes@ == old(self).nodes@.remove(name@),
            final(self).links == old(self).links,
    {
        match self.nodes.remove(name) {
            Some(node) => node,
            None => Node::new(name, node_type),
        }
    }

    fn put_node(&mut self, name: &str, node: Node)
        ensures
            final(self)@.nodes == old(self)@.nodes.insert(name@, node@),
            final(self).links == old(self).links,
    {
        let ghost before = self@.nodes;
        self.nodes.insert(name.to_owned(), node);
        assert(self@.nodes =~= before.insert(name@, node@));
    }

    /// Adds a node unless there is one of that name.
    pub fn add_node(&mut self, name: &str, node_type: &str)
        ensures
            final(self)@.nodes == old(self)@.nodes.insert(
                name@,
                node_or_new(old(self)@.nodes, name@, node_type@),
            ),
            final(self)@.links == old(self)@.links,
            is_linked(old(self)@) ==> is_linked(final(self)@),
            lists_links(old(self)@) ==> lists_links(final(self)@),
    {
        let ghost before = self@;
        let node = self.take_node(name, node_type);
        let ghost middle = self@.nodes;
        self.put_node(name, node);
        assert(middle.insert(name@, node@) =~= before.nodes.insert(name@, node@));
        proof {
            if lists_links(before) {
                assert forall|i: int| #![trigger self@.links[i]] 0 <= i < self@.links.len() implies {
                    let l = self@.links[i];
                    has_neighbor(self@, l.node1@, l.node2@, i) && has_neighbor(
                        self@,
                        l.node2@,
                        l.node1@,
                        i,
                    )
                } by {
                    assert(before.links[i] == self@.links[i]);
                }
            }
        }
    }

    fn attach_end(&mut self, name: &str, iface: &str, ip: &str)
        ensures
            final(self)@.nodes == with_end(old(self)@.nodes, name@, iface@, ip@),
            final(self).links == old(self).links,
    {
        let ghost before = self@;
        let mut node = self.take_node(name, "Unknown");
        let ghost middle = self@.nodes;
        node.add_interface(iface, ip);
        self.put_node(name, node);
        assert(middle.insert(name@, node@) =~= before.nodes.insert(name@, node@));
    }

    fn attach_neighbor(&mut self, name: &str, neighbor_name: &str, link: usize)
        requires
            old(self)@.nodes.dom().contains(name@),
        ensures
            final(self)@.nodes == old(self)@.nodes.insert(
                name@,
                with_neighbor(old(self)@.nodes[name@], neighbor_name@, link as int),
            ),
            final(self).links == old(self).links,
    {
        let ghost before = self@;
        let mut node = self.take_node(name, "Unknown");
        let ghost middle = self@.nodes;
        let ghost was = node@;
        node.neighbors.push((neighbor_name.to_owned(), link));
        assert(node@ =~= with_neighbor(was, neighbor_name@, link as int));
        self.put_node(name, node);
        assert(middle.insert(name@, node@) =~= before.nodes.insert(name@, node@));
    }

    /// Adds a link, with its ends as nodes where they are missing. The ends become neighbors.
    pub fn add_link(&mut self, link: Link)
        ensures
            final(self)@ == link_added(old(self)@, link),
            is_linked(old(self)@) ==> is_linked(final(self)@),
            lists_links(old(self)@) ==> lists_links(final(self)@),
    {
        let ghost before = self@;
        let index: usize = self.links.len();
        self.attach_end(link.node1.as_str(), link.intf1.as_str(), link.ip1.as_str());
        self.attach_end(link.node2.as_str(), link.intf2.as_str(), link.ip2.as_str());
        self.attach_neighbor(link.node1.as_str(), link.node2.as_str(), index);
        self.attach_neighbor(link.node2.as_str(), link.node1.as_str(), index);
        self.links.push(link);
        assert(self@ =~= link_added(before, link));
        proof {
            if is_linked(before) {
                linking_keeps_links(before, link);
            }
            if lists_links(before) {
                linking_lists_links(before, link);
            }
        }
    }
}

/// Adding a link to a graph whose neighbors are linked gives such a graph.
pub proof fn linking_keeps_links(g: GraphView, link: Link)
    requires
        is_linked(g),
    ensures
        is_linked(link_added(g, link)),
{
    let after = link_added(g, link);
    let a = link.node1@;
    let b = link.node2@;
    let index = g.links.len() as int;
    assert forall|n: Seq<char>, k: int|
        #![trigger after.nodes[n].neighbors[k]]
        after.nodes.dom().contains(n) && 0 <= k < after.nodes[n].neighbors.len() implies {
        let nb = after.nodes[n].neighbors[k];
        &&& 0 <= nb.1 < after.links.len()
        &&& after.nodes.dom().contains(nb.0)
        &&& joins(after.links[nb.1], n, nb.0)
    } by {
        let old_neighbors = if g.nodes.dom().contains(n) {
            g.nodes[n].neighbors
        } else {
            Seq::empty()
        };
        let grown = if n == a {
            old_neighbors.push((b, index))
        } else {
            old_neighbors
        };
        let full = if n == b {
            grown.push((a, index))
        } else {
            grown
        };
        assert(after.nodes[n].neighbors == full);
        if k < old_neighbors.len() {
            assert(full[k] == old_neighbors[k]);
            assert(g.nodes[n].neighbors[k] == full[k]);
            let nb = full[k];
            assert(after.links[nb.1] == g.links[nb.1]);
        } else {
            assert(after.links[index] == link);
        }
    }
}

/// A neighbor stays one when a link is added.
proof fn neighbors_stay(g: GraphView, link: Link, n: Seq<char>, other: Seq<char>, i: int)
    requires
        has_neighbor(g, n, other, i),
    ensures
        has_neighbor(link_added(g, link), n, other, i),
{
    let after = link_added(g, link);
    let before = g.nodes[n].neighbors;
    let k = choose|k: int| 0 <= k < before.len() && before[k] == (other, i);
    assert(after.nodes[n].neighbors[k] == (other, i));
}

/// Adding a link to a graph whose links make neighbors gives such a graph.
pub proof fn linking_lists_links(g: GraphView, link: Link)
    requires
        lists_links(g),
    ensures
        lists_links(link_added(g, link)),
{
    let after = link_added(g, link);
    let index = g.links.len() as int;
    assert forall|i: int| #![trigger after.links[i]] 0 <= i < after.links.len() implies {
        let l = after.links[i];
        has_neighbor(after, l.node1@, l.node2@, i) && has_neighbor(after, l.node2@, l.node1@, i)
    } by {
        let l = after.links[i];
        if i < index {
            assert(l == g.links[i]);
            neighbors_stay(g, link, l.node1@, l.node2@, i);
            neighbors_stay(g, link, l.node2@, l.node1@, i);
        } else {
            let first = after.nodes[link.node1@].neighbors;
            let second = after.nodes[link.node2@].neighbors;
            if link.node1@ == link.node2@ {
                assert(first[first.len() - 1] == (link.node1@, index));
            } else {
                assert(first[first.len() - 1] == (link.node2@, index));
                assert(second[second.len() - 1] == (link.node1@, index));
            }
        }
    }
}

/// Whether a node was found on a route that is no later than the given one.
pub open spec fn is_found(
    order: Seq<Seq<char>>,
    routes: Seq<Seq<int>>,
    name: Seq<char>,
    bound: Seq<int>,
) -> bool {
    exists|j: int| 0 <= j < order.len() && #[trigger] order[j] == name && at_most(routes[j], bound)
}

/// Whether nodes were found in the order of their routes, each once.
pub open spec fn is_search(
    g: GraphView,
    start: Seq<char>,
    order: Seq<Seq<char>>,
    routes: Seq<Seq<int>>,
) -> bool {
    &&& order.len() == routes.len()
    &&& order.len() > 0
    &&& routes[0] == Seq::<int>::empty()
    &&& order[0] == start
    &&& forall|j: int|
        0 <= j < order.len() ==> reached(g, start, #[trigger] routes[j]) == Some(order[j])
    &&& forall|i: int, j: int|
        0 <= i < j < order.len() ==> precedes(#[trigger] routes[i], #[trigger] routes[j])
    &&& order.no_duplicates()
    &&& forall|j: int| 0 <= j < order.len() ==> g.nodes.dom().contains(#[trigger] order[j])
}

/// Whether the neighbors of the nodes before `head`, and the first `k` of the node at `head`,
/// were found.
pub open spec fn is_explored(
    g: GraphView,
    order: Seq<Seq<char>>,
    routes: Seq<Seq<int>>,
    head: int,
    k: int,
) -> bool {
    forall|p: int, m: int|
        #![trigger routes[p].push(m)]
        0 <= p < order.len() && (p < head || (p == head && m < k)) && neighbor(
            g,
            order[p],
            m,
        ) is Some ==> is_found(order, routes, neighbor_name(g, order[p], m), routes[p].push(m))
}

/// Whether every found node but the first was found from a node before `head`, or from the node
/// at `head` as one of its first `k` neighbors.
pub open spec fn is_derived(
    routes: Seq<Seq<int>>,
    parents: Seq<usize>,
    via: Seq<usize>,
    head: int,
    k: int,
) -> bool {
    &&& parents.len() == routes.len()
    &&& via.len() == routes.len()
    &&& forall|j: int|
        #![trigger parents[j]]
        1 <= j < routes.len() ==> {
            &&& parents[j] < j
            &&& parents[j] < head || (parents[j] == head && via[j] < k)
            &&& routes[j] == routes[parents[j] as int].push(via[j] as int)
        }
}

proof fn frontier(
    g: GraphView,
    start: Seq<char>,
    order: Seq<Seq<char>>,
    routes: Seq<Seq<int>>,
    head: int,
    route: Seq<int>,
)
    requires
        is_search(g, start, order, routes),
        0 <= head <= order.len(),
        is_explored(g, order, routes, head, 0),
        reached(g, start, route) is Some,
    ensures
        is_found(order, routes, reached(g, start, route)->0, route) || (head < order.len()
            && at_most(routes[head], route)),
    decreases route.len(),
{
    if route.len() == 0 {
        assert(route =~= Seq::<int>::empty());
        assert(order[0] == start);
        assert(is_found(order, routes, start, route));
    } else {
        let shorter = route.drop_last();
        let m = route.last();
        assert(shorter.push(m) =~= route);
        let at = reached(g, start, shorter)->0;
        frontier(g, start, order, routes, head, shorter);
        if head < order.len() && at_most(routes[head], shorter) {
            precedes_transitive(routes[head], shorter, route);
        } else {
            let p = choose|p: int|
                0 <= p < order.len() && #[trigger] order[p] == at && at_most(routes[p], shorter);
            if p < head {
                let bound = routes[p].push(m);
                let name = neighbor_name(g, at, m);
                assert(is_found(order, routes, name, bound));
                let j = choose|j: int|
                    0 <= j < order.len() && #[trigger] order[j] == name && at_most(
                        routes[j],
                        bound,
                    );
                extended_routes(routes[p], shorter, m, m);
                precedes_transitive(routes[j], bound, route);
                assert(is_found(order, routes, name, route));
            } else {
                if head < p {
                    assert(precedes(routes[head], routes[p]));
                }
                precedes_transitive(routes[head], routes[p], shorter);
                precedes_transitive(routes[head], shorter, route);
            }
        }
    }
}

proof fn found_grows(
    order: Seq<Seq<char>>,
    routes: Seq<Seq<int>>,
    name: Seq<char>,
    route: Seq<int>,
    x: Seq<char>,
    bound: Seq<int>,
)
    requires
        is_found(order, routes, x, bound),
        order.len() == routes.len(),
    ensures
        is_found(order.push(name), routes.push(route), x, bound),
{
    let j = choose|j: int|
        0 <= j < order.len() && #[trigger] order[j] == x && at_most(routes[j], bound);
    assert(order.push(name)[j] == x);
    assert(routes.push(route)[j] == routes[j]);
}

proof fn search_is_bounded(g: GraphView, start: Seq<char>, order: Seq<Seq<char>>, routes: Seq<Seq<int>>)
    requires
        is_search(g, start, order, routes),
        g.nodes.dom().finite(),
    ensures
        order.len() <= g.nodes.dom().len(),
{
    order.unique_seq_to_set();
    assert(order.to_set().subset_of(g.nodes.dom())) by {
        assert forall|n: Seq<char>| order.to_set().contains(n) implies g.nodes.dom().contains(n) by {
            let j = order.index_of(n);
            assert(order[j] == n);
        }
    }
    vstd::set_lib::lemma_len_subset(order.to_set(), g.nodes.dom());
}

fn make_segment(link: &Link, from: &str, to: &str) -> (r: Segment)
    ensures
        r@ == passage(*link, from@, to@),
{
    if same(link.node1.as_str(), from) && same(link.node2.as_str(), to) {
        Segment {
            from: from.to_owned(),
            to: to.to_owned(),
            from_interface: link.intf1.clone(),
            to_interface: link.intf2.clone(),
            from_ip: link.ip1.clone(),
            to_ip: link.ip2.clone(),
            status: link.status.clone(),
        }
    } else {
        Segment {
            from: from.to_owned(),
            to: to.to_owned(),
            from_interface: link.intf2.clone(),
            to_interface: link.intf1.clone(),
            from_ip: link.ip2.clone(),
            to_ip: link.ip1.clone(),
            status: link.status.clone(),
        }
    }
}

/// What segments say.
pub open spec fn segment_views(v: Seq<Segment>) -> Seq<SegmentView> {
    Seq::new(v.len(), |i: int| v[i]@)
}

/// Whether nodes and segments are those along the best route between two nodes.
pub open spec fn is_best_path(
    g: GraphView,
    start: Seq<char>,
    end: Seq<char>,
    nodes: Seq<Seq<char>>,
    segments: Seq<SegmentView>,
) -> bool {
    exists|route: Seq<int>| #[trigger]
        is_best_route(g, start, end, route) && nodes == route_nodes(g, start, route) && segments
            == route_segments(g, start, route)
}

impl Graph {
    proof fn nodes_are_finite(self)
        ensures
            self@.nodes.dom().finite(),
            self@.nodes.dom().len() <= self.nodes.list().len(),
    {
        self.nodes.list_is_the_map();
        crate::string_map::keys_are_finite(self.nodes.list());
        assert(self@.nodes.dom() =~= self.nodes@.dom());
    }

    /// The path from one node to another with the fewest links; among those the one whose steps
    /// take the earlier neighbors. The start is a node of the graph unless it is the end, too.
    pub fn shortest_path(&self, start: &str, end: &str) -> (r: Option<(Vec<String>, Vec<Segment>)>)
        requires
            is_linked(self@),
            self@.nodes.dom().contains(start@) || start@ == end@,
        ensures
            match r {
                Some(p) => is_best_path(
                    self@,
                    start@,
                    end@,
                    crate::text::texts(p.0@),
                    segment_views(p.1@),
                ),
                None => !is_reachable(self@, start@, end@),
            },
            r is Some <==> is_reachable(self@, start@, end@),
            start@ == end@ ==> (r matches Some(p) && crate::text::texts(p.0@) == seq![start@]
                && p.1@.len() == 0),
    {
        let ghost g = self@;
        if same(start, end) {
            let mut nodes: Vec<String> = Vec::new();
            nodes.push(end.to_owned());
            let segments: Vec<Segment> = Vec::new();
            proof {
                let empty = Seq::<int>::empty();
                assert forall|other: Seq<int>| #[trigger]
                    reached(g, start@, other) == Some(end@) implies at_most(empty, other) by {
                    if other.len() == 0 {
                        assert(other =~= empty);
                    }
                }
                assert(is_best_route(g, start@, end@, empty));
                assert(crate::text::texts(nodes@) =~= route_nodes(g, start@, empty));
                assert(segment_views(segments@) =~= route_segments(g, start@, empty));
            }
            return Some((nodes, segments));
        }
        let mut found: Vec<String> = Vec::new();
        let mut parents: Vec<usize> = Vec::new();
        let mut via: Vec<usize> = Vec::new();
        let mut links: Vec<usize> = Vec::new();
        let ghost mut routes: Seq<Seq<int>> = seq![Seq::empty()];
        found.push(start.to_owned());
        parents.push(0);
        via.push(0);
        links.push(0);
        assert(crate::text::texts(found@) =~= seq![start@]);
        let mut head: usize = 0;
        while head < found.len()
            invariant
                head <= found.len(),
                g == self@,
                is_linked(g),
                start@ != end@,
                is_search(g, start@, crate::text::texts(found@), routes),
                is_explored(g, crate::text::texts(found@), routes, head as int, 0),
                is_derived(routes, parents@, via@, head as int, 0),
                found@.len() == routes.len(),
                links@.len() == routes.len(),
                forall|j: int|
                    #![trigger links@[j]]
                    1 <= j < routes.len() ==> {
                        let at = found@[parents@[j] as int]@;
                        neighbor(g, at, via@[j] as int) == Some((found@[j]@, links@[j] as int))
                    },
                forall|j: int| 0 <= j < head ==> #[trigger] found@[j]@ != end@,
            decreases self.nodes.list().len() - head,
        {
            let ghost order = crate::text::texts(found@);
            proof {
                self.nodes_are_finite();
                search_is_bounded(g, start@, order, routes);
                assert(order[head as int] == found@[head as int]@);
            }
            if same(found[head].as_str(), end) {
                proof {
                    assert(routes[head as int] == routes[head as int]);
                    assert(reached(g, start@, routes[head as int]) == Some(end@));
                    assert forall|other: Seq<int>| #[trigger]
                        reached(g, start@, other) == Some(end@) implies at_most(
                        routes[head as int],
                        other,
                    ) by {
                        frontier(g, start@, order, routes, head as int, other);
                        if !at_most(routes[head as int], other) {
                            let j = choose|j: int|
                                0 <= j < order.len() && #[trigger] order[j] == end@ && at_most(
                                    routes[j],
                                    other,
                                );
                            assert(order[j] == order[head as int]);
                            assert(j == head);
                        }
                    }
                    assert(is_best_route(g, start@, end@, routes[head as int]));
                }
                return Some(self.trace(start, &found, &parents, &via, &links, head, Ghost(routes)));
            }
            let current = found[head].clone();
            if let Some(node) = self.nodes.get(current.as_str()) {
                let mut k: usize = 0;
                assert(g.nodes[current@] == node@);
                while k < node.neighbors.len()
                    invariant
                        head < found.len(),
                        k <= node.neighbors.len(),
                        g == self@,
                        is_linked(g),
                        g.nodes.dom().contains(current@),
                        g.nodes[current@] == node@,
                        current@ == found@[head as int]@,
                        current@ != end@,
                        is_search(g, start@, crate::text::texts(found@), routes),
                        is_explored(g, crate::text::texts(found@), routes, head as int, k as int),
                        is_derived(routes, parents@, via@, head as int, k as int),
                        found@.len() == routes.len(),
                        links@.len() == routes.len(),
                        forall|j: int|
                            #![trigger links@[j]]
                            1 <= j < routes.len() ==> {
                                let at = found@[parents@[j] as int]@;
                                neighbor(g, at, via@[j] as int) == Some(
                                    (found@[j]@, links@[j] as int),
                                )
                            },
                        forall|j: int| 0 <= j < head ==> #[trigger] found@[j]@ != end@,
                    decreases node.neighbors.len() - k,
                {
                    let name = node.neighbors[k].0.as_str();
                    let ghost order = crate::text::texts(found@);
                    let ghost old_routes = routes;
                    let ghost here = routes[head as int];
                    let ghost bound = here.push(k as int);
                    assert(order[head as int] == current@);
                    assert(node@.neighbors[k as int] == (name@, node.neighbors@[k as int].1 as int));
                    assert(g.nodes[current@].neighbors[k as int] == node@.neighbors[k as int]);
                    assert(neighbor(g, current@, k as int) == Some(
                        (name@, node.neighbors@[k as int].1 as int),
                    ));
                    let known = crate::text::contains_text(&found, name);
                    if !known {
                        proof {
                            assert(bound.drop_last() =~= here);
                            assert(reached(g, start@, bound) == Some(name@));
                            assert forall|j: int| 0 <= j < routes.len() implies precedes(
                                #[trigger] routes[j],
                                bound,
                            ) by {
                                if j > 0 {
                                    let p = parents@[j] as int;
                                    if p < head {
                                        assert(precedes(routes[p], routes[head as int]));
                                    }
                                    extended_routes(
                                        routes[p],
                                        here,
                                        via@[j] as int,
                                        k as int,
                                    );
                                }
                            }
                        }
                        let link: usize = node.neighbors[k].1;
                        found.push(name.to_owned());
                        parents.push(head);
                        via.push(k);
                        links.push(link);
                        proof {
                            routes = routes.push(bound);
                            let now = crate::text::texts(found@);
                            assert(now =~= order.push(name@));
                            assert(now.no_duplicates()) by {
                                assert forall|i: int, j: int|
                                    0 <= i < now.len() && 0 <= j < now.len() && i != j implies now[i]
                                    != now[j] by {
                                    if i < order.len() {
                                        assert(now[i] == order[i]);
                                        assert(order.contains(order[i]));
                                    }
                                    if j < order.len() {
                                        assert(now[j] == order[j]);
                                        assert(order.contains(order[j]));
                                    }
                                }
                            }
                            assert forall|j: int| 0 <= j < now.len() implies reached(
                                g,
                                start@,
                                #[trigger] routes[j],
                            ) == Some(now[j]) by {
                                if j < order.len() {
                                    assert(routes[j] == old_routes[j]);
                                }
                            }
                            assert forall|i: int, j: int| 0 <= i < j < now.len() implies precedes(
                                #[trigger] routes[i],
                                #[trigger] routes[j],
                            ) by {
                                assert(routes[i] == old_routes[i]);
                                if j < order.len() {
                                    assert(routes[j] == old_routes[j]);
                                }
                            }
                            assert forall|j: int| 0 <= j < now.len() implies g.nodes.dom().contains(
                                #[trigger] now[j],
                            ) by {
                                if j < order.len() {
                                    assert(now[j] == order[j]);
                                }
                            }
                            assert(is_search(g, start@, now, routes));
                            assert forall|p: int, m: int|
                                #![trigger routes[p].push(m)]
                                0 <= p < now.len() && (p < head || (p == head && m < k + 1))
                                    && neighbor(g, now[p], m) is Some implies is_found(
                                now,
                                routes,
                                neighbor_name(g, now[p], m),
                                routes[p].push(m),
                            ) by {
                                assert(routes[p] == old_routes[p]);
                                assert(now[p] == order[p]);
                                if p == head && m == k {
                                    assert(now[order.len() as int] == name@);
                                    assert(routes[order.len() as int] == bound);
                                } else {
                                    let b = old_routes[p].push(m);
                                    assert(is_found(
                                        order,
                                        old_routes,
                                        neighbor_name(g, order[p], m),
                                        b,
                                    ));
                                    found_grows(
                                        order,
                                        old_routes,
                                        name@,
                                        bound,
                                        neighbor_name(g, order[p], m),
                                        b,
                                    );
                                }
                            }
                            assert(is_derived(routes, parents@, via@, head as int, k + 1));
                        }
                    } else {
                        proof {
                            let j = order.index_of(name@);
                            assert(order[j] == name@);
                            assert(at_most(routes[j], bound)) by {
                                if j > 0 {
                                    let p = parents@[j] as int;
                                    if p < head {
                                        assert(precedes(routes[p], routes[head as int]));
                                    }
                                    extended_routes(routes[p], here, via@[j] as int, k as int);
                                }
                            }
                            assert(is_found(order, routes, name@, bound));
                        }
                    }
                    k += 1;
                }
                proof {
                    let now = crate::text::texts(found@);
                    assert(now[head as int] == current@);
                    assert forall|p: int, m: int|
                        #![trigger routes[p].push(m)]
                        0 <= p < now.len() && (p < head + 1 || (p == head + 1 && m < 0))
                            && neighbor(g, now[p], m) is Some implies is_found(
                        now,
                        routes,
                        neighbor_name(g, now[p], m),
                        routes[p].push(m),
                    ) by {
                        if p == head {
                            assert(m < node@.neighbors.len());
                        }
                    }
                }
            }
            head += 1;
        }
        proof {
            let order = crate::text::texts(found@);
            assert forall|route: Seq<int>| #[trigger]
                reached(g, start@, route) != Some(end@) by {
                if reached(g, start@, route) == Some(end@) {
                    frontier(g, start@, order, routes, head as int, route);
                    let j = choose|j: int|
                        0 <= j < order.len() && #[trigger] order[j] == end@ && at_most(
                            routes[j],
                            route,
                        );
                    assert(found@[j]@ == end@);
                }
            }
        }
        None
    }

    /// The nodes and segments of the route to the found node at a position.
    fn trace(
        &self,
        start: &str,
        found: &Vec<String>,
        parents: &Vec<usize>,
        via: &Vec<usize>,
        links: &Vec<usize>,
        position: usize,
        Ghost(routes): Ghost<Seq<Seq<int>>>,
    ) -> (r: (Vec<String>, Vec<Segment>))
        requires
            is_linked(self@),
            is_search(self@, start@, crate::text::texts(found@), routes),
            is_derived(routes, parents@, via@, position as int, 0),
            found@.len() == routes.len(),
            links@.len() == routes.len(),
            position < found@.len(),
            forall|j: int|
                #![trigger links@[j]]
                1 <= j < routes.len() ==> {
                    let at = found@[parents@[j] as int]@;
                    neighbor(self@, at, via@[j] as int) == Some((found@[j]@, links@[j] as int))
                },
        ensures
            crate::text::texts(r.0@) == route_nodes(self@, start@, routes[position as int]),
            segment_views(r.1@) == route_segments(self@, start@, routes[position as int]),
    {
        let ghost g = self@;
        let ghost order = crate::text::texts(found@);
        let ghost full = routes[position as int];
        let mut nodes: Vec<String> = Vec::new();
        let mut segments: Vec<Segment> = Vec::new();
        let mut at: usize = position;
        assert(crate::text::texts(nodes@) =~= Seq::<Seq<char>>::empty());
        assert(segment_views(segments@) =~= Seq::<SegmentView>::empty());
        assert(route_nodes(g, start@, full) =~= route_nodes(g, start@, full)
            + crate::text::texts(nodes@));
        assert(route_segments(g, start@, full) =~= route_segments(g, start@, full) + segment_views(
            segments@,
        ));
        while at != 0
            invariant
                at <= position < found@.len(),
                g == self@,
                order == crate::text::texts(found@),
                is_linked(g),
                is_search(g, start@, order, routes),
                is_derived(routes, parents@, via@, position as int, 0),
                found@.len() == routes.len(),
                links@.len() == routes.len(),
                forall|j: int|
                    #![trigger links@[j]]
                    1 <= j < routes.len() ==> {
                        let at = found@[parents@[j] as int]@;
                        neighbor(g, at, via@[j] as int) == Some((found@[j]@, links@[j] as int))
                    },
                full == routes[position as int],
                route_nodes(g, start@, full) == route_nodes(g, start@, routes[at as int])
                    + crate::text::texts(nodes@),
                route_segments(g, start@, full) == route_segments(g, start@, routes[at as int])
                    + segment_views(segments@),
            decreases at,
        {
            let from: usize = parents[at];
            let link: usize = links[at];
            let ghost here = routes[at as int];
            let ghost before = routes[from as int];
            let ghost old_nodes = crate::text::texts(nodes@);
            let ghost old_segments = segment_views(segments@);
            proof {
                assert(here.drop_last() =~= before);
                assert(reached(g, start@, before) == Some(order[from as int]));
                assert(reached(g, start@, here) == Some(order[at as int]));
                let nb = neighbor(g, order[from as int], via@[at as int] as int)->0;
                assert(nb == (found@[at as int]@, link as int));
                assert(g.nodes[order[from as int]].neighbors[via@[at as int] as int] == nb);
            }
            segments.insert(
                0,
                make_segment(&self.links[link], found[from].as_str(), found[at].as_str()),
            );
            nodes.insert(0, found[at].clone());
            proof {
                let seg = passage(g.links[link as int], order[from as int], order[at as int]);
                assert(segment_views(segments@) =~= seq![seg] + old_segments);
                assert(crate::text::texts(nodes@) =~= seq![order[at as int]] + old_nodes);
                assert(route_nodes(g, start@, here) + old_nodes =~= route_nodes(g, start@, before)
                    + crate::text::texts(nodes@));
                assert(route_segments(g, start@, here) + old_segments =~= route_segments(
                    g,
                    start@,
                    before,
                ) + segment_views(segments@));
            }
            at = from;
        }
        let ghost old_nodes = crate::text::texts(nodes@);
        nodes.insert(0, start.to_owned());
        proof {
            assert(crate::text::texts(nodes@) =~= seq![start@] + old_nodes);
            assert(route_segments(g, start@, routes[0]) + segment_views(segments@)
                =~= segment_views(segments@));
        }
        (nodes, segments)
    }
}

/// The best route has the fewest links of all routes between its ends.
pub proof fn best_route_is_shortest(
    g: GraphView,
    start: Seq<char>,
    end: Seq<char>,
    best: Seq<int>,
    other: Seq<int>,
)
    requires
        is_best_route(g, start, end, best),
        reached(g, start, other) == Some(end),
    ensures
        best.len() <= other.len(),
{
}

/// A route visits one node more than it has links, and each link leads from one node to the next.
pub proof fn route_is_connected(g: GraphView, start: Seq<char>, route: Seq<int>)
    requires
        reached(g, start, route) is Some,
    ensures
        route_nodes(g, start, route).len() == route.len() + 1,
        route_segments(g, start, route).len() == route.len(),
        route_nodes(g, start, route)[0] == start,
        route_nodes(g, start, route).last() == reached(g, start, route)->0,
        forall|i: int|
            #![trigger route_segments(g, start, route)[i]]
            0 <= i < route.len() ==> route_segments(g, start, route)[i].from == route_nodes(
                g,
                start,
                route,
            )[i] && route_segments(g, start, route)[i].to == route_nodes(g, start, route)[i + 1],
    decreases route.len(),
{
    if route.len() > 0 {
        let shorter = route.drop_last();
        route_is_connected(g, start, shorter);
        let nodes = route_nodes(g, start, route);
        let segments = route_segments(g, start, route);
        assert forall|i: int| #![trigger segments[i]] 0 <= i < route.len() implies segments[i].from
            == nodes[i] && segments[i].to == nodes[i + 1] by {
            if i < shorter.len() {
                assert(segments[i] == route_segments(g, start, shorter)[i]);
                assert(nodes[i] == route_nodes(g, start, shorter)[i]);
                assert(nodes[i + 1] == route_nodes(g, start, shorter)[i + 1]);
            } else {
                assert(nodes[i] == route_nodes(g, start, shorter).last());
            }
        }
    }
}

/// The best route between two nodes.
pub open spec fn best_route(g: GraphView, start: Seq<char>, end: Seq<char>) -> Seq<int> {
    choose|route: Seq<int>| #[trigger] is_best_route(g, start, end, route)
}

/// The address by which the best route enters its end.
pub open spec fn entry_ip(g: GraphView, start: Seq<char>, end: Seq<char>) -> Seq<char> {
    route_segments(g, start, best_route(g, start, end)).last().to_ip
}

/// Whether a node other than the start can be reached and has an address there.
pub open spec fn has_entry_ip(g: GraphView, start: Seq<char>, n: Seq<char>) -> bool {
    &&& g.nodes.dom().contains(n)
    &&& n != start
    &&& is_reachable(g, start, n)
    &&& !not_available(entry_ip(g, start, n))
}

/// The interfaces by which the best route enters and leaves each of its nodes.
pub open spec fn hops(g: GraphView, start: Seq<char>, end: Seq<char>) -> Seq<
    (Option<Seq<char>>, Option<Seq<char>>),
> {
    let route = best_route(g, start, end);
    let segments = route_segments(g, start, route);
    Seq::new(
        (route.len() + 1) as nat,
        |i: int|
            (
                if i == 0 {
                    None
                } else {
                    Some(segments[i - 1].to_interface)
                },
                if i == route.len() {
                    None
                } else {
                    Some(segments[i].from_interface)
                },
            ),
    )
}

/// What pairs of optional strings say.
pub open spec fn hop_views(v: Seq<(Option<String>, Option<String>)>) -> Seq<
    (Option<Seq<char>>, Option<Seq<char>>),
> {
    Seq::new(v.len(), |i: int| (crate::text::opt_text(v[i].0), crate::text::opt_text(v[i].1)))
}

/// The best path is the one along the best route.
pub proof fn best_path_is_the_best_route(
    g: GraphView,
    start: Seq<char>,
    end: Seq<char>,
    nodes: Seq<Seq<char>>,
    segments: Seq<SegmentView>,
)
    requires
        is_best_path(g, start, end, nodes, segments),
    ensures
        is_best_route(g, start, end, best_route(g, start, end)),
        nodes == route_nodes(g, start, best_route(g, start, end)),
        segments == route_segments(g, start, best_route(g, start, end)),
        is_reachable(g, start, end),
{
    let route = choose|route: Seq<int>| #[trigger]
        is_best_route(g, start, end, route) && nodes == route_nodes(g, start, route) && segments
            == route_segments(g, start, route);
    best_route_is_unique(g, start, end, route, best_route(g, start, end));
}

impl Graph {
    /// The address by which each node is entered from the start; nodes that cannot be reached or
    /// have no address there are left out.
    pub fn ip_mapping_from(&self, start: &str) -> (r: StringMap<String>)
        requires
            is_linked(self@),
            self@.nodes.dom().contains(start@) || self@.nodes.dom().is_empty(),
        ensures
            forall|n: Seq<char>| #[trigger]
                r@.dom().contains(n) <==> has_entry_ip(self@, start@, n),
            forall|n: Seq<char>| #[trigger]
                r@.dom().contains(n) ==> r@[n]@ == entry_ip(self@, start@, n),
    {
        let ghost g = self@;
        let ghost entries = self.nodes.list();
        proof {
            self.nodes.list_is_the_map();
        }
        let mut map: StringMap<String> = StringMap::new();
        let mut i: usize = 0;
        while i < self.nodes.len()
            invariant
                i <= entries.len(),
                entries == self.nodes.list(),
                self.nodes@ == crate::string_map::entries_map(entries),
                g == self@,
                is_linked(g),
                g.nodes.dom().contains(start@) || g.nodes.dom().is_empty(),
                forall|n: Seq<char>| #[trigger]
                    map@.dom().contains(n) ==> has_entry_ip(g, start@, n) && map@[n]@ == entry_ip(
                        g,
                        start@,
                        n,
                    ),
                forall|j: int|
                    0 <= j < i && has_entry_ip(g, start@, #[trigger] entries[j].0@)
                        ==> map@.dom().contains(entries[j].0@),
            decreases entries.len() - i,
        {
            let name = self.nodes.entry(i).0;
            assert(g.nodes.dom().contains(name@));
            if !same(name.as_str(), start) {
                if let Some((nodes, segments)) = self.shortest_path(start, name.as_str()) {
                    let ghost views = segment_views(segments@);
                    proof {
                        best_path_is_the_best_route(
                            g,
                            start@,
                            name@,
                            crate::text::texts(nodes@),
                            views,
                        );
                        route_is_connected(g, start@, best_route(g, start@, name@));
                    }
                    let last: usize = segments.len() - 1;
                    assert(views.last() == segments@[last as int]@);
                    if !eq_ignore_case(segments[last].to_ip.as_str(), "N/A") {
                        map.insert(name.clone(), segments[last].to_ip.clone());
                    }
                }
            }
            i += 1;
        }
        assert forall|n: Seq<char>| #[trigger] map@.dom().contains(n) <==> has_entry_ip(
            g,
            start@,
            n,
        ) by {
            if has_entry_ip(g, start@, n) {
                crate::string_map::key_has_entry(entries, n);
                let j = choose|j: int| 0 <= j < entries.len() && #[trigger] entries[j].0@ == n;
                assert(entries[j].0@ == n);
            }
        }
        map
    }

    fn path_hops(&self, segments: &Vec<Segment>) -> (r: Vec<(Option<String>, Option<String>)>)
        requires
            segments@.len() < usize::MAX,
        ensures
            r@.len() == segments@.len() + 1,
            forall|i: int|
                #![trigger r@[i]]
                0 <= i < r@.len() ==> crate::text::opt_text(r@[i].0) == (if i == 0 {
                    None
                } else {
                    Some(segments@[i - 1]@.to_interface)
                }) && crate::text::opt_text(r@[i].1) == (if i == segments@.len() {
                    None
                } else {
                    Some(segments@[i]@.from_interface)
                }),
    {
        let mut out: Vec<(Option<String>, Option<String>)> = Vec::new();
        let mut i: usize = 0;
        while i <= segments.len()
            invariant
                i <= segments@.len() + 1,
                segments@.len() < usize::MAX,
                out@.len() == i,
                forall|j: int|
                    #![trigger out@[j]]
                    0 <= j < i ==> crate::text::opt_text(out@[j].0) == (if j == 0 {
                        None
                    } else {
                        Some(segments@[j - 1]@.to_interface)
                    }) && crate::text::opt_text(out@[j].1) == (if j == segments@.len() {
                        None
                    } else {
                        Some(segments@[j]@.from_interface)
                    }),
            decreases segments.len() + 1 - i,
        {
            let enter = if i == 0 {
                None
            } else {
                Some(segments[i - 1].to_interface.clone())
            };
            let leave = if i == segments.len() {
                None
            } else {
                Some(segments[i].from_interface.clone())
            };
            out.push((enter, leave));
            i += 1;
        }
        out
    }

    /// For every node that can be reached, the interfaces by which the nodes along the path are
    /// entered and left. The start is not entered and the end is not left.
    pub fn interface_hops_from(&self, start: &str) -> (r: StringMap<
        Vec<(Option<String>, Option<String>)>,
    >)
        requires
            is_linked(self@),
            self@.nodes.dom().contains(start@) || self@.nodes.dom().is_empty(),
        ensures
            forall|n: Seq<char>| #[trigger]
                r@.dom().contains(n) <==> self@.nodes.dom().contains(n) && n != start@
                    && is_reachable(self@, start@, n),
            forall|n: Seq<char>| #[trigger]
                r@.dom().contains(n) ==> hop_views(r@[n]@) == hops(self@, start@, n),
    {
        let ghost g = self@;
        let ghost entries = self.nodes.list();
        proof {
            self.nodes.list_is_the_map();
        }
        let mut map: StringMap<Vec<(Option<String>, Option<String>)>> = StringMap::new();
        let mut i: usize = 0;
        while i < self.nodes.len()
            invariant
                i <= entries.len(),
                entries == self.nodes.list(),
                self.nodes@ == crate::string_map::entries_map(entries),
                g == self@,
                is_linked(g),
                g.nodes.dom().contains(start@) || g.nodes.dom().is_empty(),
                forall|n: Seq<char>| #[trigger]
                    map@.dom().contains(n) ==> g.nodes.dom().contains(n) && n != start@
                        && is_reachable(g, start@, n) && hop_views(map@[n]@) == hops(g, start@, n),
                forall|j: int|
                    0 <= j < i && entries[j].0@ != start@ && is_reachable(
                        g,
                        start@,
                        #[trigger] entries[j].0@,
                    ) ==> map@.dom().contains(entries[j].0@),
            decreases entries.len() - i,
        {
            let name = self.nodes.entry(i).0;
            assert(g.nodes.dom().contains(name@));
            if !same(name.as_str(), start) {
                if let Some((nodes, segments)) = self.shortest_path(start, name.as_str()) {
                    let ghost views = segment_views(segments@);
                    proof {
                        best_path_is_the_best_route(
                            g,
                            start@,
                            name@,
                            crate::text::texts(nodes@),
                            views,
                        );
                        route_is_connected(g, start@, best_route(g, start@, name@));
                        assert(crate::text::texts(nodes@).len() == nodes@.len());
                        assert(views.len() == segments@.len());
                    }
                    let count: usize = nodes.len();
                    let list = self.path_hops(&segments);
                    assert(hop_views(list@) =~= hops(g, start@, name@)) by {
                        assert forall|k: int| 0 <= k < list@.len() implies hop_views(list@)[k]
                            == hops(g, start@, name@)[k] by {
                            assert(list@[k] == list@[k]);
                            if k > 0 {
                                assert(views[k - 1] == segments@[k - 1]@);
                            }
                            if k < segments@.len() {
                                assert(views[k] == segments@[k]@);
                            }
                        }
                    }
                    map.insert(name.clone(), list);
                }
            }
            i += 1;
        }
        assert forall|n: Seq<char>| #[trigger] map@.dom().contains(n) <==> g.nodes.dom().contains(n)
            && n != start@ && is_reachable(g, start@, n) by {
            if g.nodes.dom().contains(n) && n != start@ && is_reachable(g, start@, n) {
                crate::string_map::key_has_entry(entries, n);
                let j = choose|j: int| 0 <= j < entries.len() && #[trigger] entries[j].0@ == n;
                assert(entries[j].0@ == n);
            }
        }
        map
    }
}

/// The best route from a node to itself has no links.
pub proof fn best_route_to_itself(g: GraphView, start: Seq<char>, route: Seq<int>)
    requires
        is_best_route(g, start, start, route),
    ensures
        route.len() == 0,
{
    let empty = Seq::<int>::empty();
    assert(reached(g, start, empty) == Some(start));
}

/// The best path from a node to itself is the node, without a link.
pub proof fn best_path_to_itself(
    g: GraphView,
    start: Seq<char>,
    nodes: Seq<Seq<char>>,
    segments: Seq<SegmentView>,
)
    requires
        is_best_path(g, start, start, nodes, segments),
    ensures
        nodes == seq![start],
        segments == Seq::<SegmentView>::empty(),
{
    let route = choose|route: Seq<int>| #[trigger]
        is_best_route(g, start, start, route) && nodes == route_nodes(g, start, route)
            && segments == route_segments(g, start, route);
    best_route_to_itself(g, start, route);
}

/// Whether a link joins two nodes of a graph.
pub open spec fn adjacent(g: GraphView, a: Seq<char>, b: Seq<char>) -> bool {
    exists|i: int| 0 <= i < g.links.len() && joins(#[trigger] g.links[i], a, b)
}

/// Whether nodes lead from a start to an end, each joined to the next by a link.
pub open spec fn is_walk(
    g: GraphView,
    start: Seq<char>,
    end: Seq<char>,
    nodes: Seq<Seq<char>>,
) -> bool {
    &&& nodes.len() > 0
    &&& nodes[0] == start
    &&& nodes.last() == end
    &&& forall|i: int|
        #![trigger nodes[i]]
        0 <= i < nodes.len() - 1 ==> adjacent(g, nodes[i], nodes[i + 1])
}

/// The nodes along a route are a walk.
pub proof fn route_is_a_walk(g: GraphView, start: Seq<char>, route: Seq<int>)
    requires
        is_linked(g),
        reached(g, start, route) is Some,
    ensures
        is_walk(g, start, reached(g, start, route)->0, route_nodes(g, start, route)),
        route_nodes(g, start, route).len() == route.len() + 1,
    decreases route.len(),
{
    if route.len() > 0 {
        let shorter = route.drop_last();
        route_is_a_walk(g, start, shorter);
        let nodes = route_nodes(g, start, route);
        let before = route_nodes(g, start, shorter);
        let at = reached(g, start, shorter)->0;
        let nb = g.nodes[at].neighbors[route.last()];
        assert(joins(g.links[nb.1], at, nb.0));
        assert(adjacent(g, at, nb.0));
        assert forall|i: int| #![trigger nodes[i]] 0 <= i < nodes.len() - 1 implies adjacent(
            g,
            nodes[i],
            nodes[i + 1],
        ) by {
            assert(nodes[i] == before[i]);
            if i < before.len() - 1 {
                assert(nodes[i + 1] == before[i + 1]);
            }
        }
    }
}

/// A walk is along some route.
pub proof fn walk_has_a_route(
    g: GraphView,
    start: Seq<char>,
    end: Seq<char>,
    nodes: Seq<Seq<char>>,
) -> (route: Seq<int>)
    requires
        lists_links(g),
        is_walk(g, start, end, nodes),
    ensures
        reached(g, start, route) == Some(end),
        route.len() + 1 == nodes.len(),
    decreases nodes.len(),
{
    if nodes.len() == 1 {
        Seq::empty()
    } else {
        let before = nodes.drop_last();
        let at = before.last();
        assert forall|i: int| #![trigger before[i]] 0 <= i < before.len() - 1 implies adjacent(
            g,
            before[i],
            before[i + 1],
        ) by {
            assert(before[i] == nodes[i]);
        }
        let shorter = walk_has_a_route(g, start, at, before);
        assert(nodes[nodes.len() - 2] == at);
        assert(adjacent(g, at, end));
        let i = choose|i: int| 0 <= i < g.links.len() && joins(#[trigger] g.links[i], at, end);
        assert(has_neighbor(g, at, end, i));
        let near = g.nodes[at].neighbors;
        let k = choose|k: int| 0 <= k < near.len() && near[k] == (end, i);
        let route = shorter.push(k);
        assert(route.drop_last() =~= shorter);
        route
    }
}

/// An end can be reached from a start if and only if links lead there. So there is no shortest
/// path exactly where there is no walk.
pub proof fn reachable_along_links(g: GraphView, start: Seq<char>, end: Seq<char>)
    requires
        is_linked(g),
        lists_links(g),
    ensures
        is_reachable(g, start, end) <==> exists|nodes: Seq<Seq<char>>|
            is_walk(g, start, end, nodes),
{
    if is_reachable(g, start, end) {
        let route = choose|route: Seq<int>| #[trigger] reached(g, start, route) == Some(end);
        route_is_a_walk(g, start, route);
    }
    if exists|nodes: Seq<Seq<char>>| is_walk(g, start, end, nodes) {
        let nodes = choose|nodes: Seq<Seq<char>>| is_walk(g, start, end, nodes);
        let route = walk_has_a_route(g, start, end, nodes);
        assert(reached(g, start, route) == Some(end));
    }
}

/// No walk between two nodes visits fewer nodes than the best path.
pub proof fn best_path_is_a_shortest_walk(
    g: GraphView,
    start: Seq<char>,
    end: Seq<char>,
    nodes: Seq<Seq<char>>,
    segments: Seq<SegmentView>,
    other: Seq<Seq<char>>,
)
    requires
        is_linked(g),
        lists_links(g),
        is_best_path(g, start, end, nodes, segments),
        is_walk(g, start, end, other),
    ensures
        is_walk(g, start, end, nodes),
        nodes.len() <= other.len(),
{
    best_path_is_the_best_route(g, start, end, nodes, segments);
    let best = best_route(g, start, end);
    route_is_a_walk(g, start, best);
    let route = walk_has_a_route(g, start, end, other);
    best_route_is_shortest(g, start, end, best, route);
}

/// A walk backwards is a walk.
pub proof fn walks_can_be_reversed(
    g: GraphView,
    start: Seq<char>,
    end: Seq<char>,
    nodes: Seq<Seq<char>>,
)
    requires
        is_walk(g, start, end, nodes),
    ensures
        is_walk(g, end, start, nodes.reverse()),
{
    let back = nodes.reverse();
    let n = nodes.len();
    assert forall|i: int| #![trigger back[i]] 0 <= i < back.len() - 1 implies adjacent(
        g,
        back[i],
        back[i + 1],
    ) by {
        let from = nodes[n - 2 - i];
        assert(back[i + 1] == from);
        assert(back[i] == nodes[n - 2 - i + 1]);
        let l = choose|l: int| 0 <= l < g.links.len() && joins(#[trigger] g.links[l], from, back[i]);
        assert(joins(g.links[l], back[i], from));
    }
}

/// Where an end can be reached from a start, the start can be reached from the end.
pub proof fn reachability_is_symmetric(g: GraphView, start: Seq<char>, end: Seq<char>)
    requires
        is_linked(g),
        lists_links(g),
    ensures
        is_reachable(g, start, end) == is_reachable(g, end, start),
{
    reachable_along_links(g, start, end);
    reachable_along_links(g, end, start);
    if is_reachable(g, start, end) {
        let nodes = choose|nodes: Seq<Seq<char>>| is_walk(g, start, end, nodes);
        walks_can_be_reversed(g, start, end, nodes);
    }
    if is_reachable(g, end, start) {
        let nodes = choose|nodes: Seq<Seq<char>>| is_walk(g, end, start, nodes);
        walks_can_be_reversed(g, end, start, nodes);
    }
}

/// The hops to an end are those of the best path: one for each node, the first not entered, the
/// last not left, and each link left and entered by its own interfaces.
pub proof fn hops_follow_the_best_path(
    g: GraphView,
    start: Seq<char>,
    end: Seq<char>,
    nodes: Seq<Seq<char>>,
    segments: Seq<SegmentView>,
)
    requires
        is_best_path(g, start, end, nodes, segments),
    ensures
        hops(g, start, end).len() == nodes.len(),
        nodes.len() == segments.len() + 1,
        hops(g, start, end)[0].0 is None,
        hops(g, start, end).last().1 is None,
        forall|i: int|
            #![trigger segments[i]]
            0 <= i < segments.len() ==> hops(g, start, end)[i].1 == Some(
                segments[i].from_interface,
            ) && hops(g, start, end)[i + 1].0 == Some(segments[i].to_interface),
{
    best_path_is_the_best_route(g, start, end, nodes, segments);
    route_is_connected(g, start, best_route(g, start, end));
}

/// A link is passed from one end to the other: the segment has the interfaces and addresses of the
/// node that is left and of the one that is reached, whichever way the link is written down.
pub proof fn links_can_be_passed_both_ways(link: Link)
    requires
        link.node1@ != link.node2@,
    ensures
        passage(link, link.node1@, link.node2@) == (SegmentView {
            from: link.node1@,
            to: link.node2@,
            from_interface: link.intf1@,
            to_interface: link.intf2@,
            from_ip: link.ip1@,
            to_ip: link.ip2@,
            status: link.status@,
        }),
        passage(link, link.node2@, link.node1@) == (SegmentView {
            from: link.node2@,
            to: link.node1@,
            from_interface: link.intf2@,
            to_interface: link.intf1@,
            from_ip: link.ip2@,
            to_ip: link.ip1@,
            status: link.status@,
        }),
{
}

/// An address is not available where it reads `N/A`, in capitals or not.
pub proof fn unavailable_addresses_are_recognised(ip: Seq<char>)
    ensures
        not_available(ip) <==> ip.len() == 3 && (ip[0] == 'N' || ip[0] == 'n') && ip[1] == '/' && (
        ip[2] == 'A' || ip[2] == 'a'),
{
    reveal_strlit("N/A");
    crate::text::case_alone_is_ignored(ip, "N/A"@);
    if not_available(ip) {
        assert(ip[0] == "N/A"@[0] || ip[0] as u32 == 'N' as u32 + 32);
        assert(ip[1] == "N/A"@[1]);
        assert(ip[2] == "N/A"@[2] || ip[2] as u32 == 'A' as u32 + 32);
        assert(ip.len() == 3);
        if ip[0] as u32 == 'n' as u32 {
            crate::text::characters_are_their_numbers(ip[0], 'n');
        }
        if ip[2] as u32 == 'a' as u32 {
            crate::text::characters_are_their_numbers(ip[2], 'a');
        }
    }
    if ip.len() == 3 && (ip[0] == 'N' || ip[0] == 'n') && ip[1] == '/' && (ip[2] == 'A' || ip[2]
        == 'a') {
        let b = "N/A"@;
        assert forall|i: int| 0 <= i < ip.len() implies #[trigger] ip[i] == b[i] || ('A' <= ip[i]
            <= 'Z' && b[i] as u32 == ip[i] as u32 + 32) || ('A' <= b[i] <= 'Z' && ip[i] as u32
            == b[i] as u32 + 32) by {
            assert(i == 0 || i == 1 || i == 2);
        }
        assert(not_available(ip));
    }
}

/// Adding a link makes its two nodes neighbours of each other over that link, and leaves the other
/// nodes as they are.
pub proof fn links_are_added_at_both_ends(g: GraphView, link: Link)
    requires
        link.node1@ != link.node2@,
    ensures
        ({
            let after = link_added(g, link);
            let i = g.links.len() as int;
            &&& after.links == g.links.push(link)
            &&& forall|n: Seq<char>| #[trigger]
                after.nodes.dom().contains(n) <==> g.nodes.dom().contains(n) || n == link.node1@
                    || n == link.node2@
            &&& forall|n: Seq<char>| #[trigger]
                g.nodes.dom().contains(n) && n != link.node1@ && n != link.node2@
                    ==> after.nodes[n] == g.nodes[n]
            &&& after.nodes[link.node1@].neighbors.last() == (link.node2@, i)
            &&& after.nodes[link.node2@].neighbors.last() == (link.node1@, i)
            &&& g.nodes.dom().contains(link.node1@) ==> after.nodes[link.node1@].neighbors
                == g.nodes[link.node1@].neighbors.push((link.node2@, i))
                && after.nodes[link.node1@].node_type == g.nodes[link.node1@].node_type
            &&& g.nodes.dom().contains(link.node2@) ==> after.nodes[link.node2@].neighbors
                == g.nodes[link.node2@].neighbors.push((link.node1@, i))
                && after.nodes[link.node2@].node_type == g.nodes[link.node2@].node_type
        }),
{
}

/// Adding a link gives each of its interfaces the address at that end, unless it is not available,
/// and leaves the other interfaces of the two nodes as they are.
pub proof fn ends_get_their_own_addresses(g: GraphView, link: Link)
    requires
        link.node1@ != link.node2@,
    ensures
        ({
            let after = link_added(g, link);
            let a = after.nodes[link.node1@].interfaces;
            let b = after.nodes[link.node2@].interfaces;
            &&& !not_available(link.ip1@) ==> a.dom().contains(link.intf1@)
                && a[link.intf1@].last() == link.ip1@
            &&& !not_available(link.ip2@) ==> b.dom().contains(link.intf2@)
                && b[link.intf2@].last() == link.ip2@
            &&& not_available(link.ip1@) && g.nodes.dom().contains(link.node1@) ==> a
                == g.nodes[link.node1@].interfaces
            &&& not_available(link.ip2@) && g.nodes.dom().contains(link.node2@) ==> b
                == g.nodes[link.node2@].interfaces
            &&& forall|n: Seq<char>|
                g.nodes.dom().contains(link.node1@) && n != link.intf1@
                    && #[trigger] g.nodes[link.node1@].interfaces.dom().contains(n)
                    ==> a.dom().contains(n) && a[n] == g.nodes[link.node1@].interfaces[n]
            &&& forall|n: Seq<char>|
                g.nodes.dom().contains(link.node2@) && n != link.intf2@
                    && #[trigger] g.nodes[link.node2@].interfaces.dom().contains(n)
                    ==> b.dom().contains(n) && b[n] == g.nodes[link.node2@].interfaces[n]
        }),
{
}

/// The address by which a node is entered is its own end of the last link on the way to it.
pub proof fn nodes_are_entered_at_their_own_address(
    g: GraphView,
    start: Seq<char>,
    end: Seq<char>,
    nodes: Seq<Seq<char>>,
    segments: Seq<SegmentView>,
)
    requires
        is_linked(g),
        start != end,
        is_best_path(g, start, end, nodes, segments),
    ensures
        segments.last().to == end,
        entry_ip(g, start, end) == segments.last().to_ip,
        exists|i: int|
            0 <= i < g.links.len() && ({
                let link = #[trigger] g.links[i];
                ||| link.node2@ == end && entry_ip(g, start, end) == link.ip2@
                    && segments.last().to_interface == link.intf2@
                ||| link.node1@ == end && entry_ip(g, start, end) == link.ip1@
                    && segments.last().to_interface == link.intf1@
            }),
{
    best_path_is_the_best_route(g, start, end, nodes, segments);
    let route = best_route(g, start, end);
    let at = reached(g, start, route.drop_last())->0;
    let nb = neighbor(g, at, route.last())->0;
    assert(route.len() > 0);
    assert(nb.0 == end);
    assert(g.nodes[at].neighbors[route.last()] == nb);
    assert(joins(g.links[nb.1], at, end));
    assert(segments.last() == passage(g.links[nb.1], at, end));
    let link = g.links[nb.1];
    assert(0 <= nb.1 < g.links.len());
}

/// Of two shortest ways, the one is taken that first turns to an earlier neighbour.
pub proof fn earlier_neighbors_are_preferred(
    g: GraphView,
    start: Seq<char>,
    end: Seq<char>,
    best: Seq<int>,
    other: Seq<int>,
)
    requires
        is_best_route(g, start, end, best),
        reached(g, start, other) == Some(end),
        other.len() == best.len(),
        other != best,
    ensures
        exists|i: int|
            0 <= i < best.len() && #[trigger] best[i] < other[i] && best.take(i) == other.take(i),
{
}

} // verus!
