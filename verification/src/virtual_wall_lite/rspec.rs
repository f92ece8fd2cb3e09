//! Manifest RSpecs: the nodes, logins, interfaces and links of an experiment.

use std::borrow::Cow;

use quick_xml::events::attributes::{Attribute, Attributes};
use quick_xml::events::Event;
use quick_xml::Reader;
use vstd::prelude::*;

use crate::numerals::parse_u16;
use crate::text::{chars, contains_text, same, trim};
use crate::virtual_wall_lite::error::VirtualWallError;

verus! {

/// What a manifest says of an experiment.
#[derive(Debug)]
pub struct RspecTopology {
    pub nodes: Vec<RspecNode>,
    pub links: Vec<RspecLink>,
}

/// A node.
#[derive(Debug)]
pub struct RspecNode {
    pub client_id: String,
    pub login: Option<RspecLogin>,
    pub interfaces: Vec<RspecInterface>,
}

/// Where to log in to a node.
#[derive(Debug)]
pub struct RspecLogin {
    pub host: String,
    pub port: u16,
    pub username: Option<String>,
}

/// An interface of a node.
#[derive(Debug)]
pub struct RspecInterface {
    pub client_id: String,
    pub component_id: Option<String>,
    pub ips: Vec<RspecIp>,
}

/// An address of an interface.
#[derive(Debug)]
pub struct RspecIp {
    pub address: String,
    pub netmask: Option<String>,
    pub ip_type: Option<String>,
}

/// A link and the interfaces that belong to it.
#[derive(Debug)]
pub struct RspecLink {
    pub client_id: String,
    pub vlantag: Option<String>,
    pub interface_refs: Vec<String>,
}

/// A tag: its name and its attributes. The value of an attribute is absent where its escape
/// sequences cannot be resolved.
#[derive(Debug)]
pub struct RspecTag {
    pub name: String,
    pub attributes: Vec<(String, Option<String>)>,
}

/// A step through a manifest.
#[derive(Debug)]
pub enum RspecEvent {
    /// A start tag.
    Open(RspecTag),
    /// A tag without content.
    Leaf(RspecTag),
    /// The name of an end tag.
    Close(String),
    /// Anything else.
    Other,
}

/// What an [`RspecLogin`] says.
#[verifier::ext_equal]
pub struct LoginView {
    pub host: Seq<char>,
    pub port: u16,
    pub username: Option<Seq<char>>,
}

/// What an [`RspecIp`] says.
#[verifier::ext_equal]
pub struct IpView {
    pub address: Seq<char>,
    pub netmask: Option<Seq<char>>,
    pub ip_type: Option<Seq<char>>,
}

/// What an [`RspecInterface`] says.
#[verifier::ext_equal]
pub struct InterfaceView {
    pub client_id: Seq<char>,
    pub component_id: Option<Seq<char>>,
    pub ips: Seq<IpView>,
}

/// What an [`RspecNode`] says.
#[verifier::ext_equal]
pub struct NodeView {
    pub client_id: Seq<char>,
    pub login: Option<LoginView>,
    pub interfaces: Seq<InterfaceView>,
}

/// What an [`RspecLink`] says.
#[verifier::ext_equal]
pub struct LinkView {
    pub client_id: Seq<char>,
    pub vlantag: Option<Seq<char>>,
    pub interface_refs: Seq<Seq<char>>,
}

/// What an [`RspecTag`] says.
#[verifier::ext_equal]
pub struct TagView {
    pub name: Seq<char>,
    pub attributes: Seq<(Seq<char>, Option<Seq<char>>)>,
}

/// What an [`RspecEvent`] says.
#[verifier::ext_equal]
pub enum EventView {
    Open(TagView),
    Leaf(TagView),
    Close(Seq<char>),
    Other,
}

impl View for RspecLogin {
    type V = LoginView;

    open spec fn view(&self) -> LoginView {
        LoginView {
            host: self.host@,
            port: self.port,
            username: crate::text::opt_text(self.username),
        }
    }
}

impl View for RspecIp {
    type V = IpView;

    open spec fn view(&self) -> IpView {
        IpView {
            address: self.address@,
            netmask: crate::text::opt_text(self.netmask),
            ip_type: crate::text::opt_text(self.ip_type),
        }
    }
}

impl View for RspecInterface {
    type V = InterfaceView;

    open spec fn view(&self) -> InterfaceView {
        InterfaceView {
            client_id: self.client_id@,
            component_id: crate::text::opt_text(self.component_id),
            ips: Seq::new(self.ips@.len(), |i: int| self.ips@[i]@),
        }
    }
}

impl View for RspecNode {
    type V = NodeView;

    open spec fn view(&self) -> NodeView {
        NodeView {
            client_id: self.client_id@,
            login: match self.login {
                Some(l) => Some(l@),
                None => None,
            },
            interfaces: Seq::new(self.interfaces@.len(), |i: int| self.interfaces@[i]@),
        }
    }
}

impl View for RspecLink {
    type V = LinkView;

    open spec fn view(&self) -> LinkView {
        LinkView {
            client_id: self.client_id@,
            vlantag: crate::text::opt_text(self.vlantag),
            interface_refs: crate::text::texts(self.interface_refs@),
        }
    }
}

impl View for RspecTag {
    type V = TagView;

    open spec fn view(&self) -> TagView {
        TagView {
            name: self.name@,
            attributes: Seq::new(
                self.attributes@.len(),
                |i: int|
                    (self.attributes@[i].0@, crate::text::opt_text(self.attributes@[i].1)),
            ),
        }
    }
}

impl View for RspecEvent {
    type V = EventView;

    open spec fn view(&self) -> EventView {
        match self {
            RspecEvent::Open(tag) => EventView::Open(tag@),
            RspecEvent::Leaf(tag) => EventView::Leaf(tag@),
            RspecEvent::Close(name) => EventView::Close(name@),
            RspecEvent::Other => EventView::Other,
        }
    }
}

/// What a sequence of events says.
pub open spec fn event_views(events: Seq<RspecEvent>) -> Seq<EventView> {
    Seq::new(events.len(), |i: int| events[i]@)
}

/// The part of a name behind its last colon.
pub open spec fn local_part(name: Seq<char>) -> Seq<char>
    decreases name.len(),
{
    if name.len() == 0 {
        name
    } else if name.last() == ':' {
        Seq::empty()
    } else {
        local_part(name.drop_last()).push(name.last())
    }
}

/// The value of the first attribute of a name that can be read, from the `i`th on: its text
/// without surrounding white space, unless that is empty.
pub open spec fn attribute_from(tag: TagView, key: Seq<char>, i: int) -> Option<Seq<char>>
    decreases tag.attributes.len() - i,
{
    if i < 0 || i >= tag.attributes.len() {
        None
    } else if tag.attributes[i].0 == key && tag.attributes[i].1 is Some {
        let value = crate::text::trimmed(tag.attributes[i].1->0);
        if value.len() == 0 {
            None
        } else {
            Some(value)
        }
    } else {
        attribute_from(tag, key, i + 1)
    }
}

/// The value of an attribute.
pub open spec fn attribute(tag: TagView, key: Seq<char>) -> Option<Seq<char>> {
    attribute_from(tag, key, 0)
}

/// How far a manifest has been read: what is complete, and what is still open.
#[verifier::ext_equal]
pub struct ProgressView {
    pub nodes: Seq<NodeView>,
    pub links: Seq<LinkView>,
    pub node: Option<NodeView>,
    pub interface: Option<InterfaceView>,
    pub link: Option<LinkView>,
}

/// The beginning of a manifest.
pub open spec fn nothing_read() -> ProgressView {
    ProgressView {
        nodes: Seq::empty(),
        links: Seq::empty(),
        node: None,
        interface: None,
        link: None,
    }
}

/// The effect of an `ip`: an address for the open interface.
pub open spec fn with_ip(p: ProgressView, tag: TagView) -> ProgressView {
    match (p.interface, attribute(tag, "address"@)) {
        (Some(interface), Some(address)) => ProgressView {
            interface: Some(
                InterfaceView {
                    ips: interface.ips.push(
                        IpView {
                            address,
                            netmask: attribute(tag, "netmask"@),
                            ip_type: attribute(tag, "type"@),
                        },
                    ),
                    ..interface
                },
            ),
            ..p
        },
        _ => p,
    }
}

/// The port of a login; 22 where none can be read.
pub open spec fn login_port(tag: TagView) -> u16 {
    match attribute(tag, "port"@) {
        Some(text) => match crate::numerals::unsigned_upto(text, u16::MAX as nat) {
            Some(n) => n as u16,
            None => 22,
        },
        None => 22,
    }
}

/// The effect of a `login`: where to log in to the open node.
pub open spec fn with_login(p: ProgressView, tag: TagView) -> ProgressView {
    match (p.node, attribute(tag, "hostname"@)) {
        (Some(node), Some(host)) => ProgressView {
            node: Some(
                NodeView {
                    login: Some(
                        LoginView {
                            host,
                            port: login_port(tag),
                            username: attribute(tag, "username"@),
                        },
                    ),
                    ..node
                },
            ),
            ..p
        },
        _ => p,
    }
}

/// The effect of an `interface_ref`: a member of the open link.
pub open spec fn with_member(p: ProgressView, tag: TagView) -> ProgressView {
    match (p.link, attribute(tag, "client_id"@)) {
        (Some(link), Some(id)) => ProgressView {
            link: Some(LinkView { interface_refs: link.interface_refs.push(id), ..link }),
            ..p
        },
        _ => p,
    }
}

/// The effect of a tag without content.
pub open spec fn after_leaf(p: ProgressView, tag: TagView) -> ProgressView {
    let name = local_part(tag.name);
    if name == "ip"@ {
        with_ip(p, tag)
    } else if name == "login"@ {
        with_login(p, tag)
    } else if name == "interface_ref"@ {
        with_member(p, tag)
    } else {
        p
    }
}

/// The effect of a start tag, or the message of what it lacks.
pub open spec fn after_open(p: ProgressView, tag: TagView) -> Result<ProgressView, Seq<char>> {
    let name = local_part(tag.name);
    let id = attribute(tag, "client_id"@);
    if name == "node"@ {
        match id {
            Some(client_id) => Ok(
                ProgressView {
                    node: Some(NodeView { client_id, login: None, interfaces: Seq::empty() }),
                    ..p
                },
            ),
            None => Err("node missing client_id"@),
        }
    } else if name == "interface"@ {
        Ok(
            if p.node is Some && id is Some {
                ProgressView {
                    interface: Some(
                        InterfaceView {
                            client_id: id->0,
                            component_id: attribute(tag, "component_id"@),
                            ips: Seq::empty(),
                        },
                    ),
                    ..p
                }
            } else {
                p
            },
        )
    } else if name == "link"@ {
        match id {
            Some(client_id) => Ok(
                ProgressView {
                    link: Some(
                        LinkView {
                            client_id,
                            vlantag: attribute(tag, "vlantag"@),
                            interface_refs: Seq::empty(),
                        },
                    ),
                    ..p
                },
            ),
            None => Err("link missing client_id"@),
        }
    } else {
        Ok(after_leaf(p, tag))
    }
}

/// The effect of an end tag: what was open is complete.
pub open spec fn after_close(p: ProgressView, name: Seq<char>) -> ProgressView {
    let name = local_part(name);
    if name == "interface"@ {
        ProgressView {
            node: match (p.node, p.interface) {
                (Some(node), Some(interface)) => Some(
                    NodeView { interfaces: node.interfaces.push(interface), ..node },
                ),
                _ => p.node,
            },
            interface: None,
            ..p
        }
    } else if name == "node"@ {
        match p.node {
            Some(node) => ProgressView { nodes: p.nodes.push(node), node: None, ..p },
            None => p,
        }
    } else if name == "link"@ {
        match p.link {
            Some(link) => ProgressView { links: p.links.push(link), link: None, ..p },
            None => p,
        }
    } else {
        p
    }
}

/// The effect of an event.
pub open spec fn after_event(p: ProgressView, e: EventView) -> Result<ProgressView, Seq<char>> {
    match e {
        EventView::Open(tag) => after_open(p, tag),
        EventView::Leaf(tag) => Ok(after_leaf(p, tag)),
        EventView::Close(name) => Ok(after_close(p, name)),
        EventView::Other => Ok(p),
    }
}

/// The effect of events, or the message of the first one that lacks something.
pub open spec fn after_events(events: Seq<EventView>) -> Result<ProgressView, Seq<char>>
    decreases events.len(),
{
    if events.len() == 0 {
        Ok(nothing_read())
    } else {
        match after_events(events.drop_last()) {
            Ok(p) => after_event(p, events.last()),
            Err(m) => Err(m),
        }
    }
}

/// Texts without those that occur earlier in the sequence.
pub open spec fn without_repeats(list: Seq<Seq<char>>) -> Seq<Seq<char>>
    decreases list.len(),
{
    if list.len() == 0 {
        Seq::empty()
    } else {
        let before = without_repeats(list.drop_last());
        if before.contains(list.last()) {
            before
        } else {
            before.push(list.last())
        }
    }
}

/// A link has the interfaces that it refers to, each of them once.
pub proof fn interfaces_stand_once(list: Seq<Seq<char>>)
    ensures
        without_repeats(list).no_duplicates(),
        forall|x: Seq<char>| #[trigger] without_repeats(list).contains(x) <==> list.contains(x),
    decreases list.len(),
{
    if list.len() > 0 {
        let front = list.drop_last();
        let before = without_repeats(front);
        interfaces_stand_once(front);
        assert forall|x: Seq<char>| #[trigger] without_repeats(list).contains(x) <==> list.contains(
            x,
        ) by {
            if list.contains(x) {
                let i = list.index_of(x);
                if i < list.len() - 1 {
                    assert(front[i] == x);
                    assert(before.contains(x));
                    let k = before.index_of(x);
                    assert(without_repeats(list)[k] == x);
                } else {
                    assert(x == list.last());
                    if !before.contains(x) {
                        assert(without_repeats(list)[before.len() as int] == x);
                    }
                }
            }
            if without_repeats(list).contains(x) {
                if before.contains(x) {
                    assert(front.contains(x));
                    let i = front.index_of(x);
                    assert(list[i] == x);
                } else {
                    assert(list[list.len() - 1] == x);
                }
            }
        }
    }
}

/// Whether a topology holds the complete nodes and links, each member of a link once.
pub open spec fn holds(t: RspecTopology, p: ProgressView) -> bool {
    &&& t.nodes@.len() == p.nodes.len()
    &&& forall|i: int| 0 <= i < t.nodes@.len() ==> #[trigger] t.nodes@[i]@ == p.nodes[i]
    &&& t.links@.len() == p.links.len()
    &&& forall|i: int|
        0 <= i < t.links@.len() ==> #[trigger] t.links@[i]@ == (LinkView {
            interface_refs: without_repeats(p.links[i].interface_refs),
            ..p.links[i]
        })
}

/// The part of a name behind its last colon.
pub fn local_name<'a>(name: &'a str) -> (r: &'a str)
    ensures
        r@ == local_part(name@),
{
    let x = chars(name);
    let n: usize = x.len();
    let mut i: usize = n;
    assert(x@.take(n as int) =~= x@);
    assert(local_part(x@) =~= local_part(x@.take(n as int)) + x@.skip(n as int));
    while i > 0
        invariant
            i <= n == x@.len(),
            x@ == name@,
            local_part(x@) == local_part(x@.take(i as int)) + x@.skip(i as int),
        decreases i,
    {
        assert(x@.take(i as int).drop_last() =~= x@.take(i - 1));
        if x[i - 1] == ':' {
            assert(local_part(x@) =~= x@.skip(i as int));
            let r = name.substring_char(i, n);
            assert(r@ =~= x@.skip(i as int));
            return r;
        }
        assert(local_part(x@.take(i as int)) + x@.skip(i as int) =~= local_part(x@.take(i - 1))
            + x@.skip(i - 1));
        i -= 1;
    }
    assert(local_part(x@) =~= x@);
    name
}

/// The value of an attribute of a tag.
pub fn attr_str(tag: &RspecTag, key: &str) -> (r: Option<String>)
    ensures
        crate::text::opt_text(r) == attribute(tag@, key@),
{
    let mut i: usize = 0;
    while i < tag.attributes.len()
        invariant
            i <= tag.attributes.len(),
            attribute(tag@, key@) == attribute_from(tag@, key@, i as int),
        decreases tag.attributes.len() - i,
    {
        let a = &tag.attributes[i];
        assert(tag@.attributes[i as int] == (a.0@, crate::text::opt_text(a.1)));
        if same(a.0.as_str(), key) {
            if let Some(v) = &a.1 {
                let t = trim(v.as_str());
                if t.is_empty() {
                    return None;
                }
                return Some(t.to_owned());
            }
        }
        i += 1;
    }
    None
}

struct Progress {
    nodes: Vec<RspecNode>,
    links: Vec<RspecLink>,
    node: Option<RspecNode>,
    interface: Option<RspecInterface>,
    link: Option<RspecLink>,
}

impl View for Progress {
    type V = ProgressView;

    closed spec fn view(&self) -> ProgressView {
        ProgressView {
            nodes: Seq::new(self.nodes@.len(), |i: int| self.nodes@[i]@),
            links: Seq::new(self.links@.len(), |i: int| self.links@[i]@),
            node: match self.node {
                Some(n) => Some(n@),
                None => None,
            },
            interface: match self.interface {
                Some(n) => Some(n@),
                None => None,
            },
            link: match self.link {
                Some(n) => Some(n@),
                None => None,
            },
        }
    }
}

impl Progress {
    fn add_ip(&mut self, tag: &RspecTag)
        ensures
            final(self)@ == with_ip(old(self)@, tag@),
    {
        let ghost before = self@;
        if let Some(address) = attr_str(tag, "address") {
            match self.interface.take() {
                Some(mut interface) => {
                    let ghost was = interface@;
                    let ip = RspecIp {
                        address,
                        netmask: attr_str(tag, "netmask"),
                        ip_type: attr_str(tag, "type"),
                    };
                    let ghost added = ip@;
                    interface.ips.push(ip);
                    assert(interface@ =~= InterfaceView { ips: was.ips.push(added), ..was });
                    self.interface = Some(interface);
                },
                None => {},
            }
        }
        assert(self@ =~= with_ip(before, tag@));
    }

    fn set_login(&mut self, tag: &RspecTag)
        ensures
            final(self)@ == with_login(old(self)@, tag@),
    {
        let ghost before = self@;
        if let Some(host) = attr_str(tag, "hostname") {
            match self.node.take() {
                Some(mut node) => {
                    let ghost was = node@;
                    let port: u16 = match attr_str(tag, "port") {
                        Some(text) => {
                            let n: Option<u16> = parse_u16(text.as_str());
                            match n {
                                Some(n) => n,
                                None => 22,
                            }
                        },
                        None => 22,
                    };
                    let login = RspecLogin { host, port, username: attr_str(tag, "username") };
                    let ghost set = login@;
                    node.login = Some(login);
                    assert(node@ =~= NodeView { login: Some(set), ..was });
                    self.node = Some(node);
                },
                None => {},
            }
        }
        assert(self@ =~= with_login(before, tag@));
    }

    fn add_member(&mut self, tag: &RspecTag)
        ensures
            final(self)@ == with_member(old(self)@, tag@),
    {
        let ghost before = self@;
        if let Some(id) = attr_str(tag, "client_id") {
            match self.link.take() {
                Some(mut link) => {
                    let ghost was = link@;
                    let ghost added = id@;
                    link.interface_refs.push(id);
                    assert(link@ =~= LinkView {
                        interface_refs: was.interface_refs.push(added),
                        ..was
                    });
                    self.link = Some(link);
                },
                None => {},
            }
        }
        assert(self@ =~= with_member(before, tag@));
    }

    fn leaf(&mut self, tag: &RspecTag)
        ensures
            final(self)@ == after_leaf(old(self)@, tag@),
    {
        let name = local_name(tag.name.as_str());
        if same(name, "ip") {
            self.add_ip(tag);
        } else if same(name, "login") {
            self.set_login(tag);
        } else if same(name, "interface_ref") {
            self.add_member(tag);
        }
    }

    fn open(&mut self, tag: &RspecTag) -> (r: Result<(), VirtualWallError>)
        ensures
            match r {
                Ok(_) => after_open(old(self)@, tag@) == Ok::<ProgressView, Seq<char>>(
                    final(self)@,
                ),
                Err(VirtualWallError::Rspec(m)) => after_open(old(self)@, tag@) == Err::<
                    ProgressView,
                    Seq<char>,
                >(m@),
                Err(_) => false,
            },
    {
        let ghost before = self@;
        let name = local_name(tag.name.as_str());
        if same(name, "node") {
            match attr_str(tag, "client_id") {
                Some(client_id) => {
                    let node = RspecNode { client_id, login: None, interfaces: Vec::new() };
                    assert(node@ =~= NodeView {
                        client_id: client_id@,
                        login: None,
                        interfaces: Seq::empty(),
                    });
                    self.node = Some(node);
                    assert(self@ =~= after_open(before, tag@)->Ok_0);
                },
                None => {
                    return Err(VirtualWallError::Rspec("node missing client_id".to_owned()));
                },
            }
        } else if same(name, "interface") {
            if self.node.is_some() {
                if let Some(client_id) = attr_str(tag, "client_id") {
                    let interface = RspecInterface {
                        client_id,
                        component_id: attr_str(tag, "component_id"),
                        ips: Vec::new(),
                    };
                    assert(interface@.ips =~= Seq::empty());
                    self.interface = Some(interface);
                }
            }
            assert(self@ =~= after_open(before, tag@)->Ok_0);
        } else if same(name, "link") {
            match attr_str(tag, "client_id") {
                Some(client_id) => {
                    let link = RspecLink {
                        client_id,
                        vlantag: attr_str(tag, "vlantag"),
                        interface_refs: Vec::new(),
                    };
                    assert(link@.interface_refs =~= Seq::empty());
                    self.link = Some(link);
                    assert(self@ =~= after_open(before, tag@)->Ok_0);
                },
                None => {
                    return Err(VirtualWallError::Rspec("link missing client_id".to_owned()));
                },
            }
        } else {
            self.leaf(tag);
        }
        Ok(())
    }

    fn close(&mut self, name: &str)
        ensures
            final(self)@ == after_close(old(self)@, name@),
    {
        let ghost before = self@;
        let local = local_name(name);
        if same(local, "interface") {
            match self.interface.take() {
                Some(interface) => {
                    let ghost added = interface@;
                    match self.node.take() {
                        Some(mut node) => {
                            let ghost was = node@;
                            node.interfaces.push(interface);
                            assert(node@ =~= NodeView {
                                interfaces: was.interfaces.push(added),
                                ..was
                            });
                            self.node = Some(node);
                        },
                        None => {},
                    }
                },
                None => {},
            }
            assert(self@ =~= after_close(before, name@));
        } else if same(local, "node") {
            if let Some(node) = self.node.take() {
                self.nodes.push(node);
                assert(self@.nodes =~= before.nodes.push(node@));
            }
        } else if same(local, "link") {
            if let Some(link) = self.link.take() {
                self.links.push(link);
                assert(self@.links =~= before.links.push(link@));
            }
        }
    }
}

fn drop_repeats(list: &Vec<String>) -> (r: Vec<String>)
    ensures
        crate::text::texts(r@) == without_repeats(crate::text::texts(list@)),
{
    let ghost all = crate::text::texts(list@);
    let mut out: Vec<String> = Vec::new();
    let mut i: usize = 0;
    assert(crate::text::texts(out@) =~= without_repeats(all.take(0)));
    while i < list.len()
        invariant
            i <= list.len(),
            all == crate::text::texts(list@),
            crate::text::texts(out@) == without_repeats(all.take(i as int)),
        decreases list.len() - i,
    {
        let ghost kept = crate::text::texts(out@);
        assert(all.take(i + 1).drop_last() =~= all.take(i as int));
        if !contains_text(&out, list[i].as_str()) {
            out.push(list[i].clone());
            assert(crate::text::texts(out@) =~= kept.push(list@[i as int]@));
        }
        i += 1;
    }
    assert(all.take(i as int) =~= all);
    out
}

/// Builds a topology from the events of a manifest. A node or a link without a client id is an
/// error; the members of a link are kept once each.
pub fn build_topology(events: &Vec<RspecEvent>) -> (r: Result<RspecTopology, VirtualWallError>)
    ensures
        match r {
            Ok(t) => after_events(event_views(events@)) is Ok && holds(
                t,
                after_events(event_views(events@))->Ok_0,
            ),
            Err(VirtualWallError::Rspec(m)) => after_events(event_views(events@)) == Err::<
                ProgressView,
                Seq<char>,
            >(m@),
            Err(_) => false,
        },
{
    let ghost all = event_views(events@);
    let mut progress = Progress {
        nodes: Vec::new(),
        links: Vec::new(),
        node: None,
        interface: None,
        link: None,
    };
    assert(progress@ =~= nothing_read());
    let mut i: usize = 0;
    while i < events.len()
        invariant
            i <= events.len(),
            all == event_views(events@),
            after_events(all.take(i as int)) == Ok::<ProgressView, Seq<char>>(progress@),
        decreases events.len() - i,
    {
        assert(all.take(i + 1).drop_last() =~= all.take(i as int));
        match &events[i] {
            RspecEvent::Open(tag) => {
                match progress.open(tag) {
                    Ok(_) => {},
                    Err(e) => {
                        proof {
                            failure_remains(all, i + 1);
                        }
                        return Err(e);
                    },
                }
            },
            RspecEvent::Leaf(tag) => {
                progress.leaf(tag);
            },
            RspecEvent::Close(name) => {
                progress.close(name.as_str());
            },
            RspecEvent::Other => {},
        }
        i += 1;
    }
    assert(all.take(i as int) =~= all);
    let ghost p = progress@;
    let nodes = progress.nodes;
    let open_links = progress.links;
    let mut links: Vec<RspecLink> = Vec::new();
    let mut k: usize = 0;
    while k < open_links.len()
        invariant
            k <= open_links.len(),
            links@.len() == k,
            p.links.len() == open_links@.len(),
            forall|j: int| 0 <= j < open_links@.len() ==> #[trigger] open_links@[j]@ == p.links[j],
            forall|j: int|
                0 <= j < k ==> #[trigger] links@[j]@ == (LinkView {
                    interface_refs: without_repeats(p.links[j].interface_refs),
                    ..p.links[j]
                }),
        decreases open_links.len() - k,
    {
        let link = &open_links[k];
        assert(open_links@[k as int]@ == p.links[k as int]);
        links.push(
            RspecLink {
                client_id: link.client_id.clone(),
                vlantag: match &link.vlantag {
                    Some(tag) => Some(tag.clone()),
                    None => None,
                },
                interface_refs: drop_repeats(&link.interface_refs),
            },
        );
        k += 1;
    }
    Ok(RspecTopology { nodes, links })
}

proof fn failure_remains(events: Seq<EventView>, n: int)
    requires
        0 <= n <= events.len(),
        after_events(events.take(n)) is Err,
    ensures
        after_events(events) == after_events(events.take(n)),
    decreases events.len() - n,
{
    if n == events.len() {
        assert(events.take(n) =~= events);
    } else {
        assert(events.take(n + 1).drop_last() =~= events.take(n));
        failure_remains(events, n + 1);
    }
}

/// The XML reader of `quick_xml`.
#[verifier::external_type_specification]
#[verifier::external_body]
#[verifier::reject_recursive_types(R)]
pub struct ExReader<R>(Reader<R>);

/// An event of the XML reader: the name and the raw attributes of a tag, the name of an end tag,
/// the end of the document, the message of an error, or anything else.
pub enum XmlEvent {
    Start { name: String, attributes: String },
    Empty { name: String, attributes: String },
    End { name: String },
    Other,
    Fault { message: String },
    Eof,
}

/// What an [`XmlEvent`] says.
#[verifier::ext_equal]
pub enum XmlView {
    Start { name: Seq<char>, attributes: Seq<char> },
    Empty { name: Seq<char>, attributes: Seq<char> },
    End { name: Seq<char> },
    Other,
    Fault { message: Seq<char> },
    Eof,
}

impl View for XmlEvent {
    type V = XmlView;

    open spec fn view(&self) -> XmlView {
        match self {
            XmlEvent::Start { name, attributes } => XmlView::Start {
                name: name@,
                attributes: attributes@,
            },
            XmlEvent::Empty { name, attributes } => XmlView::Empty {
                name: name@,
                attributes: attributes@,
            },
            XmlEvent::End { name } => XmlView::End { name: name@ },
            XmlEvent::Other => XmlView::Other,
            XmlEvent::Fault { message } => XmlView::Fault { message: message@ },
            XmlEvent::Eof => XmlView::Eof,
        }
    }
}

/// The events that a reader still has to give: up to the end of the document, or up to and with
/// the first error.
pub uninterp spec fn pending_events(reader: Reader<&[u8]>) -> Seq<XmlView>;

/// The events of a document, as a reader that trims text gives them.
pub uninterp spec fn document_events(xml: Seq<char>) -> Seq<XmlView>;

/// `Reader::from_str` with `trim_text` switched on: a reader at the beginning of the document,
/// which has to give the events of that document.
#[verifier::external_body]
fn open_document<'a>(xml: &'a str) -> (r: Reader<&'a [u8]>)
    ensures
        pending_events(r) == document_events(xml@),
{
    let mut reader = Reader::from_str(xml);
    reader.config_mut().trim_text(true);
    reader
}

/// `Reader::read_event_into`: gives the next event and moves on. The tag of a `Start` or `Empty`
/// event is split into its name and the raw text of its attributes. At the end of the document
/// the event is `Eof`. Nothing is said of a reader after an error.
#[verifier::external_body]
fn next_event<'a>(reader: &mut Reader<&'a [u8]>) -> (r: XmlEvent)
    ensures
        pending_events(*old(reader)).len() == 0 ==> r@ is Eof,
        pending_events(*old(reader)).len() > 0 ==> r@ !is Eof && r@ == pending_events(
            *old(reader),
        )[0],
        pending_events(*old(reader)).len() > 0 && r@ !is Fault ==> pending_events(*final(reader))
            == pending_events(*old(reader)).drop_first(),
{
    let text = |b: &[u8]| String::from_utf8_lossy(b).into_owned();
    match reader.read_event_into(&mut Vec::new()) {
        Ok(Event::Start(e)) => {
            XmlEvent::Start { name: text(e.name().as_ref()), attributes: text(e.attributes_raw()) }
        },
        Ok(Event::Empty(e)) => {
            XmlEvent::Empty { name: text(e.name().as_ref()), attributes: text(e.attributes_raw()) }
        },
        Ok(Event::End(e)) => XmlEvent::End { name: text(e.name().as_ref()) },
        Ok(Event::Eof) => XmlEvent::Eof,
        Ok(_) => XmlEvent::Other,
        Err(e) => XmlEvent::Fault { message: e.to_string() },
    }
}

/// The keys and raw values of the attributes of a tag; absent where one is malformed.
pub uninterp spec fn raw_attributes(raw: Seq<char>) -> Seq<Option<(Seq<char>, Seq<char>)>>;

/// What pairs of optional strings say.
pub open spec fn pair_views(v: Seq<Option<(String, String)>>) -> Seq<
    Option<(Seq<char>, Seq<char>)>,
> {
    Seq::new(
        v.len(),
        |i: int|
            match v[i] {
                Some(p) => Some((p.0@, p.1@)),
                None => None,
            },
    )
}

/// The iterator `Attributes` over the raw text of the attributes of a tag: the key and the value
/// of each attribute as they are written, in order.
#[verifier::external_body]
fn split_attributes(raw: &str) -> (r: Vec<Option<(String, String)>>)
    ensures
        pair_views(r@) == raw_attributes(raw@),
{
    let text = |b: &[u8]| String::from_utf8_lossy(b).into_owned();
    Attributes::new(raw, 0)
        .map(|a| a.ok().map(|a| (text(a.key.as_ref()), text(&a.value))))
        .collect()
}

/// The text of an attribute value with its escape sequences resolved; absent where that fails.
pub uninterp spec fn unescaped(value: Seq<char>) -> Option<Seq<char>>;

/// `Attribute::unescape_value`: resolves the escape sequences of a value.
#[verifier::external_body]
fn unescape(value: &str) -> (r: Option<String>)
    ensures
        crate::text::opt_text(r) == unescaped(value@),
{
    Attribute::from((&b""[..], value.as_bytes())).unescape_value().ok().map(Cow::into_owned)
}

/// The attributes of a tag that are well-formed, with their values resolved.
pub open spec fn resolved(pairs: Seq<Option<(Seq<char>, Seq<char>)>>) -> Seq<
    (Seq<char>, Option<Seq<char>>),
>
    decreases pairs.len(),
{
    if pairs.len() == 0 {
        Seq::empty()
    } else {
        let before = resolved(pairs.drop_last());
        match pairs.last() {
            Some(p) => before.push((p.0, unescaped(p.1))),
            None => before,
        }
    }
}

/// The tag with a name and raw attributes.
pub open spec fn tag_of(name: Seq<char>, attributes: Seq<char>) -> TagView {
    TagView { name, attributes: resolved(raw_attributes(attributes)) }
}

/// The step that an event of the reader stands for.
pub open spec fn step_of(e: XmlView) -> EventView {
    match e {
        XmlView::Start { name, attributes } => EventView::Open(tag_of(name, attributes)),
        XmlView::Empty { name, attributes } => EventView::Leaf(tag_of(name, attributes)),
        XmlView::End { name } => EventView::Close(name),
        _ => EventView::Other,
    }
}

/// The steps that the events before the first error stand for.
pub open spec fn steps_of(events: Seq<XmlView>) -> Seq<EventView>
    decreases events.len(),
{
    if events.len() == 0 || events[0] is Fault {
        Seq::empty()
    } else {
        seq![step_of(events[0])] + steps_of(events.drop_first())
    }
}

/// The message of the first error among events.
pub open spec fn first_fault(events: Seq<XmlView>) -> Option<Seq<char>>
    decreases events.len(),
{
    if events.len() == 0 {
        None
    } else if let XmlView::Fault { message } = events[0] {
        Some(message)
    } else {
        first_fault(events.drop_first())
    }
}

fn make_tag(name: String, raw: &str) -> (r: RspecTag)
    ensures
        r@ == tag_of(name@, raw@),
{
    let pairs = split_attributes(raw);
    let ghost all = pair_views(pairs@);
    let mut attributes: Vec<(String, Option<String>)> = Vec::new();
    let mut i: usize = 0;
    let ghost mut views: Seq<(Seq<char>, Option<Seq<char>>)> = Seq::empty();
    while i < pairs.len()
        invariant
            i <= pairs.len(),
            all == pair_views(pairs@),
            views == resolved(all.take(i as int)),
            attributes@.len() == views.len(),
            forall|j: int|
                #![trigger attributes@[j]]
                0 <= j < views.len() ==> (
                attributes@[j].0@, crate::text::opt_text(attributes@[j].1)) == views[j],
        decreases pairs.len() - i,
    {
        assert(all.take(i + 1).drop_last() =~= all.take(i as int));
        if let Some(p) = &pairs[i] {
            attributes.push((p.0.clone(), unescape(p.1.as_str())));
            proof {
                views = views.push((p.0@, unescaped(p.1@)));
            }
        }
        i += 1;
    }
    assert(all.take(i as int) =~= all);
    let ghost n = name@;
    let r = RspecTag { name, attributes };
    assert(r@ =~= tag_of(n, raw@));
    r
}

impl RspecTopology {
    /// Reads a manifest. Errors are reported in the order of the document.
    pub fn parse_str(xml: &str) -> (r: Result<Self, VirtualWallError>)
        ensures
            match after_events(steps_of(document_events(xml@))) {
                Err(m) => r matches Err(VirtualWallError::Rspec(text)) && text@ == m,
                Ok(p) => match first_fault(document_events(xml@)) {
                    Some(f) => r matches Err(VirtualWallError::Rspec(text)) && text@
                        == "XML parse error: "@ + f,
                    None => r matches Ok(t) && holds(t, p),
                },
            },
    {
        let mut reader = open_document(xml);
        let ghost doc = document_events(xml@);
        let mut events: Vec<RspecEvent> = Vec::new();
        let mut fault: Option<String> = None;
        let mut done = false;
        assert(event_views(events@) + steps_of(pending_events(reader)) =~= steps_of(doc));
        while !done
            invariant
                !done ==> fault is None,
                !done ==> steps_of(doc) == event_views(events@) + steps_of(pending_events(reader)),
                !done ==> first_fault(doc) == first_fault(pending_events(reader)),
                done ==> steps_of(doc) == event_views(events@),
                done ==> first_fault(doc) == crate::text::opt_text(fault),
            decreases
                if done {
                    0int
                } else {
                    1
                },
                pending_events(reader).len(),
        {
            let ghost pending = pending_events(reader);
            let ghost before = event_views(events@);
            let event = next_event(&mut reader);
            match event {
                XmlEvent::Eof => {
                    assert(before + steps_of(pending) =~= before);
                    done = true;
                },
                XmlEvent::Fault { message } => {
                    assert(before + steps_of(pending) =~= before);
                    fault = Some(message);
                    done = true;
                },
                XmlEvent::Start { name, attributes } => {
                    events.push(RspecEvent::Open(make_tag(name, attributes.as_str())));
                    assert(event_views(events@) =~= before.push(step_of(pending[0])));
                    assert(before + steps_of(pending) =~= event_views(events@) + steps_of(
                        pending.drop_first(),
                    ));
                },
                XmlEvent::Empty { name, attributes } => {
                    events.push(RspecEvent::Leaf(make_tag(name, attributes.as_str())));
                    assert(event_views(events@) =~= before.push(step_of(pending[0])));
                    assert(before + steps_of(pending) =~= event_views(events@) + steps_of(
                        pending.drop_first(),
                    ));
                },
                XmlEvent::End { name } => {
                    events.push(RspecEvent::Close(name));
                    assert(event_views(events@) =~= before.push(step_of(pending[0])));
                    assert(before + steps_of(pending) =~= event_views(events@) + steps_of(
                        pending.drop_first(),
                    ));
                },
                XmlEvent::Other => {
                    events.push(RspecEvent::Other);
                    assert(event_views(events@) =~= before.push(step_of(pending[0])));
                    assert(before + steps_of(pending) =~= event_views(events@) + steps_of(
                        pending.drop_first(),
                    ));
                },
            }
        }
        match build_topology(&events) {
            Err(e) => Err(e),
            Ok(t) => match fault {
                Some(message) => Err(
                    VirtualWallError::Rspec(
                        "XML parse error: ".to_owned().concat(message.as_str()),
                    ),
                ),
                None => Ok(t),
            },
        }
    }
}

/// The device that a component id names: what stands behind its last colon.
pub open spec fn device_name(component_id: Seq<char>) -> Option<Seq<char>> {
    let device = crate::text::trimmed(local_part(crate::text::trimmed(component_id)));
    if device.len() == 0 {
        None
    } else {
        Some(device)
    }
}

/// The device that a component id names.
pub fn interface_device_name_from_component_id<'a>(component_id: &'a str) -> (r: Option<&'a str>)
    ensures
        match r {
            Some(d) => device_name(component_id@) == Some(d@),
            None => device_name(component_id@) is None,
        },
{
    let device = trim(local_name(trim(component_id)));
    if device.is_empty() {
        None
    } else {
        Some(device)
    }
}

impl RspecInterface {
    /// The device that the component id of the interface names.
    pub fn manifest_device_name(&self) -> (r: Option<&str>)
        ensures
            match r {
                Some(d) => self.component_id is Some && device_name(self.component_id->0@) == Some(
                    d@,
                ),
                None => self.component_id is None || device_name(self.component_id->0@) is None,
            },
    {
        match &self.component_id {
            Some(id) => interface_device_name_from_component_id(id.as_str()),
            None => None,
        }
    }
}

/// The local part of a name is what comes behind its last colon.
pub proof fn local_parts_come_behind_the_colon(prefix: Seq<char>, name: Seq<char>)
    requires
        !crate::text::has_char(name, ':'),
    ensures
        local_part(name) == name,
        local_part(prefix.push(':') + name) == name,
    decreases name.len(),
{
    let whole = prefix.push(':') + name;
    if name.len() > 0 {
        let front = name.drop_last();
        assert(name[name.len() - 1] != ':');
        assert forall|i: int| 0 <= i < front.len() implies #[trigger] front[i] != ':' by {
            assert(name[i] != ':');
        }
        local_parts_come_behind_the_colon(prefix, front);
        assert(whole.drop_last() =~= prefix.push(':') + front);
        assert(front.push(name.last()) =~= name);
        assert(whole.last() == name.last());
    } else {
        assert(whole =~= prefix.push(':'));
    }
}

proof fn attribute_is_found(tag: TagView, key: Seq<char>, i: int, k: int)
    requires
        0 <= i <= k < tag.attributes.len(),
        tag.attributes[k].0 == key,
        tag.attributes[k].1 is Some,
        forall|j: int| i <= j < k ==> (#[trigger] tag.attributes[j]).0 != key,
    ensures
        attribute_from(tag, key, i) == attribute_from(tag, key, k),
    decreases k - i,
{
    if i < k {
        assert(tag.attributes[i].0 != key);
        attribute_is_found(tag, key, i + 1, k);
    }
}

proof fn attribute_is_not_found(tag: TagView, key: Seq<char>, i: int)
    requires
        0 <= i,
        forall|j: int| i <= j < tag.attributes.len() ==> (#[trigger] tag.attributes[j]).0 != key,
    ensures
        attribute_from(tag, key, i) is None,
    decreases tag.attributes.len() - i,
{
    if i < tag.attributes.len() {
        assert(tag.attributes[i].0 != key);
        attribute_is_not_found(tag, key, i + 1);
    }
}

/// An attribute has the value that is written behind its name, without white space around it; one
/// that is not written, or is blank, has none.
pub proof fn attributes_are_found_by_name(tag: TagView, key: Seq<char>, k: int)
    requires
        0 <= k < tag.attributes.len(),
        tag.attributes[k].0 == key,
        tag.attributes[k].1 is Some,
        forall|j: int| 0 <= j < k ==> (#[trigger] tag.attributes[j]).0 != key,
    ensures
        crate::text::trimmed(tag.attributes[k].1->0).len() > 0 ==> attribute(tag, key) == Some(
            crate::text::trimmed(tag.attributes[k].1->0),
        ),
        crate::text::trimmed(tag.attributes[k].1->0).len() == 0 ==> attribute(tag, key) is None,
{
    attribute_is_found(tag, key, 0, k);
}

/// An attribute that is not written has no value.
pub proof fn attributes_that_are_not_written_are_missing(tag: TagView, key: Seq<char>)
    requires
        forall|j: int| 0 <= j < tag.attributes.len() ==> (#[trigger] tag.attributes[j]).0 != key,
    ensures
        attribute(tag, key) is None,
{
    attribute_is_not_found(tag, key, 0);
}

proof fn tag_names_differ()
    ensures
        "node"@ != "interface"@ && "node"@ != "link"@ && "node"@ != "ip"@ && "node"@ != "login"@
            && "node"@ != "interface_ref"@,
        "interface"@ != "link"@ && "interface"@ != "ip"@ && "interface"@ != "login"@
            && "interface"@ != "interface_ref"@,
        "link"@ != "ip"@ && "link"@ != "login"@ && "link"@ != "interface_ref"@,
        "ip"@ != "login"@ && "ip"@ != "interface_ref"@ && "login"@ != "interface_ref"@,
{
    reveal_strlit("node");
    reveal_strlit("interface");
    reveal_strlit("link");
    reveal_strlit("ip");
    reveal_strlit("login");
    reveal_strlit("interface_ref");
    assert("node"@[0] == 'n' && "link"@[0] == 'l');
    assert("node"@.len() == 4 && "link"@.len() == 4 && "ip"@.len() == 2 && "login"@.len() == 5);
    assert("interface"@.len() == 9 && "interface_ref"@.len() == 13);
}

/// A node is read with its login and with its interfaces and their addresses, each value from the
/// attribute of that name.
pub proof fn nodes_are_read_in_full(
    p: ProgressView,
    node: TagView,
    login: TagView,
    interface: TagView,
    ip: TagView,
    after: ProgressView,
)
    requires
        local_part(node.name) == "node"@ && attribute(node, "client_id"@) is Some,
        local_part(login.name) == "login"@ && attribute(login, "hostname"@) is Some,
        local_part(interface.name) == "interface"@ && attribute(interface, "client_id"@) is Some,
        local_part(ip.name) == "ip"@ && attribute(ip, "address"@) is Some,
        ({
            let opened = after_event(p, EventView::Open(node))->Ok_0;
            let logged = after_event(opened, EventView::Leaf(login))->Ok_0;
            let entered = after_event(logged, EventView::Open(interface))->Ok_0;
            let addressed = after_event(entered, EventView::Leaf(ip))->Ok_0;
            let left = after_event(addressed, EventView::Close(interface.name))->Ok_0;
            after_event(left, EventView::Close(node.name)) == Ok::<ProgressView, Seq<char>>(after)
        }),
    ensures
        after.nodes.len() == p.nodes.len() + 1,
        after.nodes.drop_last() == p.nodes,
        after.links == p.links,
        after.nodes.last().client_id == attribute(node, "client_id"@)->0,
        after.nodes.last().login is Some,
        after.nodes.last().login->0.host == attribute(login, "hostname"@)->0,
        after.nodes.last().login->0.username == attribute(login, "username"@),
        attribute(login, "port"@) is None ==> after.nodes.last().login->0.port == 22,
        forall|port: u16|
            attribute(login, "port"@) == Some(#[trigger] crate::text::dec(port as nat))
                ==> after.nodes.last().login->0.port == port,
        after.nodes.last().interfaces.len() == 1,
        after.nodes.last().interfaces[0].client_id == attribute(interface, "client_id"@)->0,
        after.nodes.last().interfaces[0].component_id == attribute(interface, "component_id"@),
        after.nodes.last().interfaces[0].ips == seq![
            IpView {
                address: attribute(ip, "address"@)->0,
                netmask: attribute(ip, "netmask"@),
                ip_type: attribute(ip, "type"@),
            },
        ],
        after.node is None && after.interface is None,
{
    tag_names_differ();
    assert forall|port: u16|
        attribute(login, "port"@) == Some(
            #[trigger] crate::text::dec(port as nat),
        ) implies after.nodes.last().login->0.port == port by {
        crate::numerals::reading_a_numeral(port as nat);
    }
    assert(after.nodes.drop_last() =~= p.nodes);
}

/// A link is read with its tag and with the interfaces that it joins, in the order in which they
/// are written.
pub proof fn links_are_read_in_full(
    p: ProgressView,
    link: TagView,
    first: TagView,
    second: TagView,
    after: ProgressView,
)
    requires
        local_part(link.name) == "link"@ && attribute(link, "client_id"@) is Some,
        local_part(first.name) == "interface_ref"@ && attribute(first, "client_id"@) is Some,
        local_part(second.name) == "interface_ref"@ && attribute(second, "client_id"@) is Some,
        ({
            let opened = after_event(p, EventView::Open(link))->Ok_0;
            let one = after_event(opened, EventView::Leaf(first))->Ok_0;
            let two = after_event(one, EventView::Leaf(second))->Ok_0;
            after_event(two, EventView::Close(link.name)) == Ok::<ProgressView, Seq<char>>(after)
        }),
    ensures
        after.links == p.links.push(
            (LinkView {
                client_id: attribute(link, "client_id"@)->0,
                vlantag: attribute(link, "vlantag"@),
                interface_refs: seq![
                    attribute(first, "client_id"@)->0,
                    attribute(second, "client_id"@)->0,
                ],
            }),
        ),
        after.nodes == p.nodes,
        after.link is None,
{
    tag_names_differ();
    assert(after.links.last().interface_refs =~= seq![
        attribute(first, "client_id"@)->0,
        attribute(second, "client_id"@)->0,
    ]);
}

/// A node or a link without an identifier makes the whole manifest unreadable.
pub proof fn nameless_nodes_and_links_are_refused(p: ProgressView, tag: TagView)
    requires
        attribute(tag, "client_id"@) is None,
        local_part(tag.name) == "node"@ || local_part(tag.name) == "link"@,
    ensures
        after_event(p, EventView::Open(tag)) is Err,
{
    tag_names_differ();
}

/// The device of an interface is named behind the last colon of its component.
pub proof fn devices_are_named_behind_the_colon(prefix: Seq<char>, name: Seq<char>)
    requires
        name.len() > 0,
        !crate::text::has_char(name, ':'),
        crate::text::trimmed(name) == name,
        crate::text::trimmed(prefix.push(':') + name) == prefix.push(':') + name,
    ensures
        device_name(prefix.push(':') + name) == Some(name),
{
    local_parts_come_behind_the_colon(prefix, name);
}

/// Every event of a document without faults is taken as one step, in their order.
pub proof fn events_are_taken_one_by_one(events: Seq<XmlView>)
    requires
        forall|i: int| 0 <= i < events.len() ==> (#[trigger] events[i]) !is Fault,
    ensures
        steps_of(events).len() == events.len(),
        forall|i: int|
            0 <= i < events.len() ==> #[trigger] steps_of(events)[i] == step_of(events[i]),
        first_fault(events) is None,
    decreases events.len(),
{
    if events.len() > 0 {
        let rest = events.drop_first();
        assert forall|i: int| 0 <= i < rest.len() implies (#[trigger] rest[i]) !is Fault by {
            assert(rest[i] == events[i + 1]);
        }
        assert(events[0] !is Fault);
        events_are_taken_one_by_one(rest);
        assert forall|i: int| 0 <= i < events.len() implies #[trigger] steps_of(events)[i]
            == step_of(events[i]) by {
            if i > 0 {
                assert(steps_of(rest)[i - 1] == step_of(rest[i - 1]));
            }
        }
    }
}

/// The first fault of a document is what is reported.
pub proof fn the_first_fault_is_reported(events: Seq<XmlView>, k: int, message: Seq<char>)
    requires
        0 <= k < events.len(),
        events[k] == (XmlView::Fault { message }),
        forall|i: int| 0 <= i < k ==> (#[trigger] events[i]) !is Fault,
    ensures
        first_fault(events) == Some(message),
    decreases events.len(),
{
    if k > 0 {
        assert(events[0] !is Fault);
        let rest = events.drop_first();
        assert(rest[k - 1] == events[k]);
        assert forall|i: int| 0 <= i < k - 1 implies (#[trigger] rest[i]) !is Fault by {
            assert(rest[i] == events[i + 1]);
        }
        the_first_fault_is_reported(rest, k - 1, message);
    }
}

/// A tag keeps its name; start tags open, empty ones are leaves, end tags close.
pub proof fn tags_keep_their_names(name: Seq<char>, attributes: Seq<char>)
    ensures
        step_of(XmlView::Start { name, attributes }) matches EventView::Open(t) && t.name == name,
        step_of(XmlView::Empty { name, attributes }) matches EventView::Leaf(t) && t.name == name,
        step_of(XmlView::End { name }) == EventView::Close(name),
{
}

/// Attributes that can be read are kept in their order, with their values unescaped.
pub proof fn readable_attributes_are_kept(
    pairs: Seq<Option<(Seq<char>, Seq<char>)>>,
    key: Seq<char>,
    value: Seq<char>,
)
    ensures
        resolved(pairs.push(Some((key, value)))) == resolved(pairs).push((key, unescaped(value))),
        resolved(pairs.push(None)) == resolved(pairs),
{
    assert(pairs.push(Some((key, value))).drop_last() =~= pairs);
    assert(pairs.push(None).drop_last() =~= pairs);
}

} // verus!
