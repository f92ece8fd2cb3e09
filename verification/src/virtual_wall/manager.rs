//! Experiments on the Virtual Wall.

use vstd::prelude::*;

use crate::batching::batch;
use crate::sorted_map::SortedMap;
use crate::start_options::StartOptions;
use crate::surroundings::{copy_opt, first_of};
use crate::text::{eq_ignore_case, own, same, seconds_text, trim, u64_text};
use crate::virtual_wall::config::VirtualWallConfig;
use crate::virtual_wall::error::VirtualWallError;
use crate::virtual_wall::resource_spec::{ResourceSpec, ResourceSpecFactory};
use crate::virtual_wall::slices::{
    BiNetworkInterface, ResourceDetail, ResourceSummary, SlicesClient,
};
use crate::virtual_wall::state::{ResourceRecord, StateStore};
use crate::virtual_wall::topology::{generate, TopologySpec, TopologyState};
use crate::virtual_wall_lite::tunnels::{TunnelDirection, TunnelInfo, TunnelRequest};

verus! {

/// What is known of the resources of an experiment that was started.
#[derive(Debug)]
pub struct StartSummary {
    pub experiment_name: String,
    pub experiment_id: String,
    pub resources: Vec<ResourceRecord>,
}

/// Experiments on the Virtual Wall.
#[derive(Debug)]
pub struct VirtualWallManager {
    pub config: VirtualWallConfig,
    pub state: StateStore,
    pub slices: SlicesClient,
}

/// The address of a kind that a resource is listed with.
pub open spec fn first_text(a: Option<String>, b: Option<String>) -> Seq<Seq<char>> {
    match crate::surroundings::either(crate::text::opt_text(a), crate::text::opt_text(b)) {
        Some(t) => seq![t],
        None => Seq::empty(),
    }
}

/// The addresses that a resource is listed with.
pub open spec fn listed_addresses(s: ResourceSummary) -> Seq<Seq<char>> {
    first_text(s.ipv4, s.private_ipv4) + first_text(s.ipv6, s.private_ipv6)
}

/// The addresses that the details of a resource give.
pub open spec fn detailed_addresses(d: ResourceDetail) -> Seq<Seq<char>> {
    first_text(d.private_ipv4, d.public_ipv4) + first_text(d.private_ipv6, d.public_ipv6)
}

/// The hosts that a resource is logged in on.
pub open spec fn login_hosts(d: ResourceDetail) -> Seq<Seq<char>> {
    Seq::new(d.ssh_logins@.len(), |i: int| d.ssh_logins@[i].host@)
}

/// The first details of a resource.
pub open spec fn detail_of(details: Seq<ResourceDetail>, id: Option<Seq<char>>) -> Option<
    ResourceDetail,
>
    decreases details.len(),
{
    if details.len() == 0 {
        None
    } else if crate::text::opt_text(details[0].id) == id {
        Some(details[0])
    } else {
        detail_of(details.skip(1), id)
    }
}

/// The first record of a name.
pub open spec fn record_of(records: Seq<ResourceRecord>, name: Seq<char>) -> Option<ResourceRecord>
    decreases records.len(),
{
    if records.len() == 0 {
        None
    } else if records[0].name@ == name {
        Some(records[0])
    } else {
        record_of(records.skip(1), name)
    }
}

/// The name of a listed resource.
pub open spec fn name_of(s: ResourceSummary) -> Seq<char> {
    match crate::surroundings::either(
        crate::text::opt_text(s.friendly_name),
        crate::text::opt_text(s.name),
    ) {
        Some(n) => n,
        None => "unnamed-resource"@,
    }
}

/// The addresses and host names of a listed resource: those of the listing, else those of the
/// details, else those that were recorded before.
pub open spec fn reachable_at(
    s: ResourceSummary,
    details: Seq<ResourceDetail>,
    before: Seq<ResourceRecord>,
) -> (Seq<Seq<char>>, Seq<Seq<char>>) {
    let listed = listed_addresses(s);
    let (addresses, hosts) = match detail_of(details, crate::text::opt_text(s.id)) {
        Some(d) if listed.len() == 0 => (detailed_addresses(d), login_hosts(d)),
        _ => (listed, Seq::empty()),
    };
    match record_of(before, name_of(s)) {
        Some(p) if addresses.len() == 0 => (
            crate::text::texts(p.addresses@),
            crate::text::texts(p.hostnames@),
        ),
        _ => (addresses, hosts),
    }
}

/// The record of a listed resource.
pub open spec fn recorded(
    s: ResourceSummary,
    details: Seq<ResourceDetail>,
    before: Seq<ResourceRecord>,
) -> crate::virtual_wall::state::RecordView {
    let detail = detail_of(details, crate::text::opt_text(s.id));
    let (addresses, hostnames) = reachable_at(s, details, before);
    crate::virtual_wall::state::RecordView {
        name: name_of(s),
        resource_id: crate::text::opt_text(s.id),
        site_id: crate::text::opt_text(s.site_id),
        addresses,
        hostnames,
        status: crate::text::opt_text(s.status),
        expires_at: crate::text::opt_text(s.expires_at),
        interfaces: match detail {
            Some(d) => crate::virtual_wall::state::interface_views(d.network_interfaces@),
            None => Seq::empty(),
        },
        metadata: match detail {
            Some(d) => d.document@,
            None => s.document@,
        },
    }
}

fn copy_texts(v: &Vec<String>) -> (r: Vec<String>)
    ensures
        crate::text::texts(r@) == crate::text::texts(v@),
{
    let mut out: Vec<String> = Vec::new();
    let mut i: usize = 0;
    while i < v.len()
        invariant
            i <= v.len(),
            out@.len() == i,
            forall|j: int| 0 <= j < i ==> (#[trigger] out@[j])@ == v@[j]@,
        decreases v.len() - i,
    {
        out.push(v[i].clone());
        i += 1;
    }
    assert(crate::text::texts(out@) =~= crate::text::texts(v@));
    out
}

fn copy_interfaces(v: &Vec<BiNetworkInterface>) -> (r: Vec<BiNetworkInterface>)
    ensures
        crate::virtual_wall::state::interface_views(r@)
            == crate::virtual_wall::state::interface_views(v@),
{
    let mut out: Vec<BiNetworkInterface> = Vec::new();
    let mut i: usize = 0;
    while i < v.len()
        invariant
            i <= v.len(),
            out@.len() == i,
            forall|j: int| 0 <= j < i ==> (#[trigger] out@[j])@ == v@[j]@,
        decreases v.len() - i,
    {
        out.push(
            BiNetworkInterface {
                port_id: copy_opt(&v[i].port_id),
                network_id: copy_opt(&v[i].network_id),
                addresses: copy_texts(&v[i].addresses),
            },
        );
        i += 1;
    }
    assert(crate::virtual_wall::state::interface_views(out@)
        =~= crate::virtual_wall::state::interface_views(v@));
    out
}

fn same_option(a: &Option<String>, b: &Option<String>) -> (r: bool)
    ensures
        r == (crate::text::opt_text(*a) == crate::text::opt_text(*b)),
{
    match (a, b) {
        (Some(a), Some(b)) => same(a.as_str(), b.as_str()),
        (None, None) => true,
        _ => false,
    }
}

fn find_detail<'a>(details: &'a Vec<ResourceDetail>, id: &Option<String>) -> (r: Option<
    &'a ResourceDetail,
>)
    ensures
        match r {
            Some(d) => detail_of(details@, crate::text::opt_text(*id)) == Some(*d),
            None => detail_of(details@, crate::text::opt_text(*id)) is None,
        },
{
    let ghost wanted = crate::text::opt_text(*id);
    let mut i: usize = 0;
    assert(details@.skip(0) =~= details@);
    while i < details.len()
        invariant
            i <= details.len(),
            wanted == crate::text::opt_text(*id),
            detail_of(details@, wanted) == detail_of(details@.skip(i as int), wanted),
        decreases details.len() - i,
    {
        assert(details@.skip(i as int)[0] == details@[i as int]);
        assert(details@.skip(i as int).skip(1) =~= details@.skip(i + 1));
        if same_option(&details[i].id, id) {
            return Some(&details[i]);
        }
        i += 1;
    }
    None
}

fn find_record<'a>(records: &'a Vec<ResourceRecord>, name: &str) -> (r: Option<&'a ResourceRecord>)
    ensures
        match r {
            Some(p) => record_of(records@, name@) == Some(*p),
            None => record_of(records@, name@) is None,
        },
{
    let mut i: usize = 0;
    assert(records@.skip(0) =~= records@);
    while i < records.len()
        invariant
            i <= records.len(),
            record_of(records@, name@) == record_of(records@.skip(i as int), name@),
        decreases records.len() - i,
    {
        assert(records@.skip(i as int)[0] == records@[i as int]);
        assert(records@.skip(i as int).skip(1) =~= records@.skip(i + 1));
        if same(records[i].name.as_str(), name) {
            return Some(&records[i]);
        }
        i += 1;
    }
    None
}

fn either_of(
    a: &Option<String>,
    b: &Option<String>,
    c: &Option<String>,
    d: &Option<String>,
) -> (r: Vec<String>)
    ensures
        crate::text::texts(r@) == first_text(*a, *b) + first_text(*c, *d),
{
    let mut out: Vec<String> = Vec::new();
    if let Some(t) = first_of(copy_opt(a), copy_opt(b)) {
        out.push(t);
    }
    if let Some(t) = first_of(copy_opt(c), copy_opt(d)) {
        out.push(t);
    }
    assert(crate::text::texts(out@) =~= first_text(*a, *b) + first_text(*c, *d));
    out
}

fn hosts_of(d: &ResourceDetail) -> (r: Vec<String>)
    ensures
        crate::text::texts(r@) == login_hosts(*d),
{
    let mut out: Vec<String> = Vec::new();
    let mut i: usize = 0;
    while i < d.ssh_logins.len()
        invariant
            i <= d.ssh_logins.len(),
            out@.len() == i,
            forall|j: int| 0 <= j < i ==> (#[trigger] out@[j])@ == d.ssh_logins@[j].host@,
        decreases d.ssh_logins.len() - i,
    {
        out.push(d.ssh_logins[i].host.clone());
        i += 1;
    }
    assert(crate::text::texts(out@) =~= login_hosts(*d));
    out
}

fn record_resource(
    summary: &ResourceSummary,
    details: &Vec<ResourceDetail>,
    before: &Vec<ResourceRecord>,
) -> (r: ResourceRecord)
    ensures
        r@ == recorded(*summary, details@, before@),
{
    let name = match first_of(copy_opt(&summary.friendly_name), copy_opt(&summary.name)) {
        Some(n) => n,
        None => "unnamed-resource".to_owned(),
    };
    let detail = find_detail(details, &summary.id);
    let mut addresses = either_of(
        &summary.ipv4,
        &summary.private_ipv4,
        &summary.ipv6,
        &summary.private_ipv6,
    );
    let mut hostnames: Vec<String> = Vec::new();
    assert(crate::text::texts(hostnames@) =~= Seq::<Seq<char>>::empty());
    if addresses.len() == 0 {
        assert(crate::text::texts(addresses@).len() == 0);
        if let Some(d) = detail {
            addresses = either_of(
                &d.private_ipv4,
                &d.public_ipv4,
                &d.private_ipv6,
                &d.public_ipv6,
            );
            hostnames = hosts_of(d);
        }
    } else {
        assert(crate::text::texts(addresses@).len() > 0);
    }
    let ghost now = crate::text::texts(addresses@);
    assert(now.len() == addresses@.len());
    if addresses.len() == 0 {
        if let Some(p) = find_record(before, name.as_str()) {
            addresses = copy_texts(&p.addresses);
            hostnames = copy_texts(&p.hostnames);
        }
    }
    let (interfaces, metadata) = match detail {
        Some(d) => (copy_interfaces(&d.network_interfaces), d.document.clone()),
        None => (Vec::new(), summary.document.clone()),
    };
    let r = ResourceRecord {
        name,
        resource_id: copy_opt(&summary.id),
        site_id: copy_opt(&summary.site_id),
        addresses,
        hostnames,
        status: copy_opt(&summary.status),
        expires_at: copy_opt(&summary.expires_at),
        interfaces,
        metadata,
    };
    assert(r@ =~= recorded(*summary, details@, before@));
    r
}

/// The records of listed resources.
pub open spec fn all_recorded(
    summaries: Seq<ResourceSummary>,
    details: Seq<ResourceDetail>,
    before: Seq<ResourceRecord>,
) -> Seq<crate::virtual_wall::state::RecordView> {
    Seq::new(summaries.len(), |i: int| recorded(summaries[i], details, before))
}

/// A resource of which no address is known any more keeps the addresses that were recorded.
pub proof fn known_addresses_are_kept(
    s: ResourceSummary,
    details: Seq<ResourceDetail>,
    before: Seq<ResourceRecord>,
)
    requires
        listed_addresses(s).len() == 0,
        detail_of(details, crate::text::opt_text(s.id)) is None,
        record_of(before, name_of(s)) is Some,
    ensures
        recorded(s, details, before).addresses == crate::text::texts(
            record_of(before, name_of(s))->0.addresses@,
        ),
        recorded(s, details, before).hostnames == crate::text::texts(
            record_of(before, name_of(s))->0.hostnames@,
        ),
{
}

/// The name that a listed resource is asked for by.
pub open spec fn handle_of(s: ResourceSummary) -> Option<Seq<char>> {
    crate::surroundings::either(
        crate::text::opt_text(s.id),
        crate::surroundings::either(
            crate::text::opt_text(s.friendly_name),
            crate::text::opt_text(s.name),
        ),
    )
}

/// The name that a listed resource is asked for by: its identifier, else a name.
pub fn resource_handle(s: &ResourceSummary) -> (r: Option<String>)
    ensures
        crate::text::opt_text(r) == handle_of(*s),
{
    first_of(copy_opt(&s.id), first_of(copy_opt(&s.friendly_name), copy_opt(&s.name)))
}

/// The names that listed resources are asked for by.
pub open spec fn handles_of(v: Seq<ResourceSummary>) -> Seq<Seq<char>>
    decreases v.len(),
{
    if v.len() == 0 {
        Seq::empty()
    } else {
        match handle_of(v.last()) {
            Some(h) => handles_of(v.drop_last()).push(h),
            None => handles_of(v.drop_last()),
        }
    }
}

/// The names that listed resources are asked for by; a resource without one is left out.
pub fn resource_handles(v: &Vec<ResourceSummary>) -> (r: Vec<String>)
    ensures
        crate::text::texts(r@) == handles_of(v@),
{
    let mut out: Vec<String> = Vec::new();
    let mut i: usize = 0;
    assert(v@.take(0) =~= Seq::<ResourceSummary>::empty());
    assert(crate::text::texts(out@) =~= Seq::<Seq<char>>::empty());
    while i < v.len()
        invariant
            i <= v.len(),
            crate::text::texts(out@) == handles_of(v@.take(i as int)),
        decreases v.len() - i,
    {
        assert(v@.take(i + 1).drop_last() =~= v@.take(i as int));
        let ghost before = crate::text::texts(out@);
        if let Some(h) = resource_handle(&v[i]) {
            let ghost t = h@;
            out.push(h);
            assert(crate::text::texts(out@) =~= before.push(t));
        }
        i += 1;
    }
    assert(v@.take(i as int) =~= v@);
    out
}

/// Whether a resource can be reached: it has an address or a login.
pub open spec fn is_reachable(d: ResourceDetail) -> bool {
    ||| d.private_ipv4 is Some
    ||| d.public_ipv4 is Some
    ||| d.private_ipv6 is Some
    ||| d.public_ipv6 is Some
    ||| exists|i: int|
        0 <= i < d.network_interfaces@.len() && (#[trigger] d.network_interfaces@[i]).addresses@.len()
            > 0
    ||| d.ssh_logins@.len() > 0
}

/// Whether a resource can be reached: it has an address or a login.
pub fn is_ready(d: &ResourceDetail) -> (r: bool)
    ensures
        r == is_reachable(*d),
{
    if d.private_ipv4.is_some() || d.public_ipv4.is_some() || d.private_ipv6.is_some()
        || d.public_ipv6.is_some() || d.ssh_logins.len() > 0 {
        return true;
    }
    let mut i: usize = 0;
    while i < d.network_interfaces.len()
        invariant
            i <= d.network_interfaces.len(),
            forall|j: int|
                0 <= j < i ==> (#[trigger] d.network_interfaces@[j]).addresses@.len() == 0,
        decreases d.network_interfaces.len() - i,
    {
        if d.network_interfaces[i].addresses.len() > 0 {
            return true;
        }
        i += 1;
    }
    false
}

/// The number of resources that can be reached.
pub open spec fn reachable_count(details: Seq<ResourceDetail>) -> nat
    decreases details.len(),
{
    if details.len() == 0 {
        0
    } else {
        reachable_count(details.drop_last()) + if is_reachable(details.last()) {
            1nat
        } else {
            0nat
        }
    }
}

/// What is to be done while waiting for resources.
#[derive(Debug)]
pub enum WaitStep {
    /// The resources can be reached.
    Ready,
    /// Wait for a while and look again.
    Wait,
    /// The time is up.
    Expired(VirtualWallError),
}

/// What is wrong when the time for waiting is up.
pub open spec fn is_wait_timeout(
    e: VirtualWallError,
    expected: usize,
    experiment: Seq<char>,
    timeout: u64,
) -> bool {
    e matches VirtualWallError::Timeout { operation, timeout_secs } && operation@ == "waiting for "@
        + crate::text::dec(expected as nat) + " resources in experiment `"@ + experiment
        + "` to become ready"@ && timeout_secs == timeout
}

/// Whether an interface belongs to a network.
pub open spec fn is_on(i: crate::virtual_wall::state::InterfaceView, lan: Seq<char>) -> bool {
    i.network_id == Some(lan)
}

/// A member of a network.
#[derive(Debug)]
pub struct LanMember {
    pub node: String,
    pub intf: Option<String>,
    pub addresses: Vec<String>,
}

/// A network and its members.
#[derive(Debug)]
pub struct LanLink {
    pub id: String,
    pub members: Vec<LanMember>,
}

/// What a [`LanMember`] says.
#[verifier::ext_equal]
pub struct LanMemberView {
    pub node: Seq<char>,
    pub intf: Option<Seq<char>>,
    pub addresses: Seq<Seq<char>>,
}

impl View for LanMember {
    type V = LanMemberView;

    open spec fn view(&self) -> LanMemberView {
        LanMemberView {
            node: self.node@,
            intf: crate::text::opt_text(self.intf),
            addresses: crate::text::texts(self.addresses@),
        }
    }
}

/// What members say.
pub open spec fn member_views(v: Seq<LanMember>) -> Seq<LanMemberView> {
    Seq::new(v.len(), |i: int| v[i]@)
}

/// The interfaces of a resource that belong to a network.
pub open spec fn members_in(
    node: Seq<char>,
    interfaces: Seq<crate::virtual_wall::state::InterfaceView>,
    lan: Seq<char>,
) -> Seq<LanMemberView>
    decreases interfaces.len(),
{
    if interfaces.len() == 0 {
        Seq::empty()
    } else {
        let before = members_in(node, interfaces.drop_last(), lan);
        let i = interfaces.last();
        if is_on(i, lan) {
            before.push(LanMemberView { node, intf: i.port_id, addresses: i.addresses })
        } else {
            before
        }
    }
}

/// The members of a network, in the order of the resources.
pub open spec fn members_of(
    records: Seq<crate::virtual_wall::state::RecordView>,
    lan: Seq<char>,
) -> Seq<LanMemberView>
    decreases records.len(),
{
    if records.len() == 0 {
        Seq::empty()
    } else {
        members_of(records.drop_last(), lan) + members_in(
            records.last().name,
            records.last().interfaces,
            lan,
        )
    }
}

/// Whether some interface of the resources belongs to a network.
pub open spec fn is_lan(
    records: Seq<crate::virtual_wall::state::RecordView>,
    lan: Seq<char>,
) -> bool {
    exists|i: int, j: int|
        0 <= i < records.len() && 0 <= j < records[i].interfaces.len() && is_on(
            #[trigger] records[i].interfaces[j],
            lan,
        )
}

/// Whether links are the networks of the resources with their members, by ascending identifier.
pub open spec fn are_lans(
    links: Seq<LanLink>,
    records: Seq<crate::virtual_wall::state::RecordView>,
) -> bool {
    &&& forall|i: int, j: int|
        0 <= i < j < links.len() ==> crate::text::less(
            #[trigger] links[i].id@,
            #[trigger] links[j].id@,
        )
    &&& forall|lan: Seq<char>|
        #[trigger] is_lan(records, lan) <==> exists|i: int|
            0 <= i < links.len() && #[trigger] links[i].id@ == lan
    &&& forall|i: int|
        0 <= i < links.len() ==> member_views((#[trigger] links[i]).members@) == members_of(
            records,
            links[i].id@,
        )
}

/// Every member of a network has an interface on it.
pub proof fn members_are_on_the_lan(
    records: Seq<crate::virtual_wall::state::RecordView>,
    lan: Seq<char>,
    m: int,
)
    requires
        0 <= m < members_of(records, lan).len(),
    ensures
        exists|i: int, j: int|
            0 <= i < records.len() && 0 <= j < records[i].interfaces.len() && is_on(
                #[trigger] records[i].interfaces[j],
                lan,
            ) && members_of(records, lan)[m] == (LanMemberView {
                node: records[i].name,
                intf: records[i].interfaces[j].port_id,
                addresses: records[i].interfaces[j].addresses,
            }),
    decreases records.len(),
{
    let front = records.drop_last();
    let k = members_of(front, lan).len();
    if m < k {
        members_are_on_the_lan(front, lan, m);
        let (i, j) = choose|i: int, j: int|
            0 <= i < front.len() && 0 <= j < front[i].interfaces.len() && is_on(
                #[trigger] front[i].interfaces[j],
                lan,
            ) && members_of(front, lan)[m] == (LanMemberView {
                node: front[i].name,
                intf: front[i].interfaces[j].port_id,
                addresses: front[i].interfaces[j].addresses,
            });
        assert(records[i].interfaces[j] == front[i].interfaces[j]);
    } else {
        let last = records.last();
        member_comes_from(last.name, last.interfaces, lan, m - k);
        let j = choose|j: int|
            0 <= j < last.interfaces.len() && is_on(#[trigger] last.interfaces[j], lan)
                && members_in(last.name, last.interfaces, lan)[m - k] == (LanMemberView {
                node: last.name,
                intf: last.interfaces[j].port_id,
                addresses: last.interfaces[j].addresses,
            });
        assert(records[records.len() - 1].interfaces[j] == last.interfaces[j]);
    }
}

proof fn member_comes_from(
    node: Seq<char>,
    interfaces: Seq<crate::virtual_wall::state::InterfaceView>,
    lan: Seq<char>,
    m: int,
)
    requires
        0 <= m < members_in(node, interfaces, lan).len(),
    ensures
        exists|j: int|
            0 <= j < interfaces.len() && is_on(#[trigger] interfaces[j], lan) && members_in(
                node,
                interfaces,
                lan,
            )[m] == (LanMemberView {
                node,
                intf: interfaces[j].port_id,
                addresses: interfaces[j].addresses,
            }),
    decreases interfaces.len(),
{
    let front = interfaces.drop_last();
    let before = members_in(node, front, lan);
    if m < before.len() {
        member_comes_from(node, front, lan, m);
        let j = choose|j: int|
            0 <= j < front.len() && is_on(#[trigger] front[j], lan) && before[m]
                == (LanMemberView {
                node,
                intf: front[j].port_id,
                addresses: front[j].addresses,
            });
        assert(interfaces[j] == front[j]);
    } else {
        assert(is_on(interfaces[interfaces.len() - 1], lan));
    }
}

fn collect_members(records: &Vec<ResourceRecord>, lan: &str) -> (r: Vec<LanMember>)
    ensures
        member_views(r@) == members_of(crate::virtual_wall::state::record_views(records@), lan@),
{
    let ghost all = crate::virtual_wall::state::record_views(records@);
    let mut out: Vec<LanMember> = Vec::new();
    let mut i: usize = 0;
    assert(all.take(0) =~= Seq::<crate::virtual_wall::state::RecordView>::empty());
    assert(member_views(out@) =~= Seq::<LanMemberView>::empty());
    while i < records.len()
        invariant
            i <= records.len(),
            all == crate::virtual_wall::state::record_views(records@),
            member_views(out@) == members_of(all.take(i as int), lan@),
        decreases records.len() - i,
    {
        let record = &records[i];
        assert(all.take(i + 1).drop_last() =~= all.take(i as int));
        assert(all.take(i + 1).last() == record@);
        let ghost before = member_views(out@);
        let ghost interfaces = record@.interfaces;
        let mut j: usize = 0;
        assert(interfaces.take(0) =~= Seq::<crate::virtual_wall::state::InterfaceView>::empty());
        assert(before + Seq::<LanMemberView>::empty() =~= before);
        while j < record.interfaces.len()
            invariant
                j <= record.interfaces.len(),
                interfaces == record@.interfaces,
                member_views(out@) == before + members_in(
                    record.name@,
                    interfaces.take(j as int),
                    lan@,
                ),
            decreases record.interfaces.len() - j,
        {
            let interface = &record.interfaces[j];
            assert(interfaces.take(j + 1).drop_last() =~= interfaces.take(j as int));
            assert(interfaces.take(j + 1).last() == interface@);
            let ghost so_far = member_views(out@);
            let on = match &interface.network_id {
                Some(id) => same(id.as_str(), lan),
                None => false,
            };
            if on {
                let member = LanMember {
                    node: record.name.clone(),
                    intf: copy_opt(&interface.port_id),
                    addresses: copy_texts(&interface.addresses),
                };
                let ghost v = member@;
                out.push(member);
                assert(member_views(out@) =~= so_far.push(v));
                assert(so_far.push(v) =~= before + members_in(
                    record.name@,
                    interfaces.take(j as int),
                    lan@,
                ).push(v));
            }
            j += 1;
        }
        assert(interfaces.take(j as int) =~= interfaces);
        i += 1;
    }
    assert(all.take(i as int) =~= all);
    out
}

/// The identifiers of networks that stand for themselves.
pub open spec fn stands_for_itself(m: Map<Seq<char>, String>) -> bool {
    forall|k: Seq<char>| #[trigger] m.dom().contains(k) ==> m[k]@ == k
}

fn network_ids(records: &Vec<ResourceRecord>) -> (r: Vec<String>)
    ensures
        forall|i: int, j: int|
            0 <= i < j < r@.len() ==> crate::text::less(#[trigger] r@[i]@, #[trigger] r@[j]@),
        forall|lan: Seq<char>| #[trigger]
            is_lan(crate::virtual_wall::state::record_views(records@), lan) <==> exists|i: int|
                0 <= i < r@.len() && #[trigger] r@[i]@ == lan,
{
    let ghost all = crate::virtual_wall::state::record_views(records@);
    let mut seen: SortedMap<String> = SortedMap::new();
    let mut i: usize = 0;
    while i < records.len()
        invariant
            i <= records.len(),
            all == crate::virtual_wall::state::record_views(records@),
            stands_for_itself(seen@),
            forall|lan: Seq<char>| #[trigger]
                seen@.dom().contains(lan) <==> is_lan(all.take(i as int), lan),
        decreases records.len() - i,
    {
        let record = &records[i];
        let ghost earlier = all.take(i as int);
        let ghost later = all.take(i + 1);
        assert(later.drop_last() =~= earlier);
        assert(later[i as int] == record@);
        assert forall|lan: Seq<char>| is_lan(later, lan) <==> (is_lan(earlier, lan) || exists|k: int|
            0 <= k < record@.interfaces.len() && is_on(#[trigger] record@.interfaces[k], lan)) by {
            if is_lan(later, lan) {
                let (a, b) = choose|a: int, b: int|
                    0 <= a < later.len() && 0 <= b < later[a].interfaces.len() && is_on(
                        #[trigger] later[a].interfaces[b],
                        lan,
                    );
                if a < i {
                    assert(earlier[a].interfaces[b] == later[a].interfaces[b]);
                } else {
                    assert(record@.interfaces[b] == later[a].interfaces[b]);
                }
            }
            if is_lan(earlier, lan) {
                let (a, b) = choose|a: int, b: int|
                    0 <= a < earlier.len() && 0 <= b < earlier[a].interfaces.len() && is_on(
                        #[trigger] earlier[a].interfaces[b],
                        lan,
                    );
                assert(later[a].interfaces[b] == earlier[a].interfaces[b]);
            }
            if exists|k: int|
                0 <= k < record@.interfaces.len() && is_on(#[trigger] record@.interfaces[k], lan) {
                let k = choose|k: int|
                    0 <= k < record@.interfaces.len() && is_on(
                        #[trigger] record@.interfaces[k],
                        lan,
                    );
                assert(is_on(later[i as int].interfaces[k], lan));
            }
        }
        let mut j: usize = 0;
        while j < record.interfaces.len()
            invariant
                j <= record.interfaces.len(),
                stands_for_itself(seen@),
                forall|lan: Seq<char>| #[trigger]
                    seen@.dom().contains(lan) <==> (is_lan(earlier, lan) || exists|k: int|
                        0 <= k < j && is_on(#[trigger] record@.interfaces[k], lan)),
            decreases record.interfaces.len() - j,
        {
            assert(record@.interfaces[j as int] == record.interfaces@[j as int]@);
            let ghost before = seen@;
            if let Some(lan) = &record.interfaces[j].network_id {
                seen.insert(lan.clone(), lan.clone());
                assert(is_on(record@.interfaces[j as int], lan@));
            }
            assert forall|lan: Seq<char>| #[trigger]
                seen@.dom().contains(lan) <==> (is_lan(earlier, lan) || exists|k: int|
                    0 <= k < j + 1 && is_on(#[trigger] record@.interfaces[k], lan)) by {
                if seen@.dom().contains(lan) && !before.dom().contains(lan) {
                    assert(is_on(record@.interfaces[j as int], lan));
                }
                if before.dom().contains(lan) {
                    assert(seen@.dom().contains(lan));
                }
                if exists|k: int| 0 <= k < j + 1 && is_on(#[trigger] record@.interfaces[k], lan) {
                    let k = choose|k: int|
                        0 <= k < j + 1 && is_on(#[trigger] record@.interfaces[k], lan);
                    if k == j {
                        assert(seen@.dom().contains(lan));
                    } else {
                        assert(before.dom().contains(lan));
                    }
                }
            }
            j += 1;
        }
        i += 1;
    }
    assert(all.take(i as int) =~= all);
    let ghost map = seen@;
    let ghost list = seen.list();
    let out = seen.into_values();
    proof {
        crate::sorted_map::ascending_is_distinct(list);
        assert forall|k: int| 0 <= k < out@.len() implies #[trigger] out@[k]@ == list[k].0@
            && map.dom().contains(list[k].0@) by {
            crate::string_map::lookup_at(list, k);
        }
        assert forall|a: int, b: int| 0 <= a < b < out@.len() implies crate::text::less(
            #[trigger] out@[a]@,
            #[trigger] out@[b]@,
        ) by {
            assert(crate::text::less(list[a].0@, list[b].0@));
        }
        assert forall|lan: Seq<char>| #[trigger] is_lan(all, lan) <==> exists|k: int|
            0 <= k < out@.len() && #[trigger] out@[k]@ == lan by {
            if is_lan(all, lan) {
                assert(map.dom().contains(lan));
                crate::string_map::key_has_entry(list, lan);
                let k = choose|k: int| 0 <= k < list.len() && #[trigger] list[k].0@ == lan;
                assert(out@[k]@ == lan);
            }
            if exists|k: int| 0 <= k < out@.len() && #[trigger] out@[k]@ == lan {
                let k = choose|k: int| 0 <= k < out@.len() && #[trigger] out@[k]@ == lan;
                assert(map.dom().contains(list[k].0@));
            }
        }
    }
    out
}

/// The networks of resources with their members, by ascending identifier.
pub fn lan_links(records: &Vec<ResourceRecord>) -> (r: Vec<LanLink>)
    ensures
        are_lans(r@, crate::virtual_wall::state::record_views(records@)),
{
    let ghost all = crate::virtual_wall::state::record_views(records@);
    let ids = network_ids(records);
    let mut out: Vec<LanLink> = Vec::new();
    let mut i: usize = 0;
    while i < ids.len()
        invariant
            i <= ids.len(),
            all == crate::virtual_wall::state::record_views(records@),
            out@.len() == i,
            forall|j: int|
                0 <= j < i ==> (#[trigger] out@[j]).id@ == ids@[j]@ && member_views(out@[j].members@)
                    == members_of(all, ids@[j]@),
        decreases ids.len() - i,
    {
        out.push(
            LanLink {
                id: ids[i].clone(),
                members: collect_members(records, ids[i].as_str()),
            },
        );
        i += 1;
    }
    proof {
        assert forall|a: int, b: int| 0 <= a < b < out@.len() implies crate::text::less(
            #[trigger] out@[a].id@,
            #[trigger] out@[b].id@,
        ) by {
            assert(crate::text::less(ids@[a]@, ids@[b]@));
        }
        assert forall|lan: Seq<char>| #[trigger] is_lan(all, lan) <==> exists|k: int|
            0 <= k < out@.len() && #[trigger] out@[k].id@ == lan by {
            if exists|k: int| 0 <= k < ids@.len() && #[trigger] ids@[k]@ == lan {
                let k = choose|k: int| 0 <= k < ids@.len() && #[trigger] ids@[k]@ == lan;
                assert(out@[k].id@ == lan);
            }
            if exists|k: int| 0 <= k < out@.len() && #[trigger] out@[k].id@ == lan {
                let k = choose|k: int| 0 <= k < out@.len() && #[trigger] out@[k].id@ == lan;
                assert(ids@[k]@ == lan);
            }
        }
    }
    out
}

/// Whether a status says that a resource is ready.
pub open spec fn is_ready_status(status: Option<Seq<char>>) -> bool {
    match status {
        Some(s) => crate::text::same_ignoring_case(s, "ready"@),
        None => false,
    }
}

/// Whether a status says that a resource is ready.
pub fn is_healthy(status: &Option<String>) -> (r: bool)
    ensures
        r == is_ready_status(crate::text::opt_text(*status)),
{
    match status {
        Some(s) => eq_ignore_case(s.as_str(), "ready"),
        None => false,
    }
}

/// What is said of a resource.
#[derive(Debug)]
pub struct NodeStatus {
    pub name: String,
    pub status: Option<String>,
    pub addresses: Vec<String>,
    pub hostnames: Vec<String>,
    pub site: Option<String>,
    pub expires_at: Option<String>,
    pub healthy: bool,
}

/// Whether something is what is said of a resource.
pub open spec fn is_node_status(n: NodeStatus, r: crate::virtual_wall::state::RecordView) -> bool {
    &&& n.name@ == r.name
    &&& crate::text::opt_text(n.status) == r.status
    &&& crate::text::texts(n.addresses@) == r.addresses
    &&& crate::text::texts(n.hostnames@) == r.hostnames
    &&& crate::text::opt_text(n.site) == r.site_id
    &&& crate::text::opt_text(n.expires_at) == r.expires_at
    &&& n.healthy == is_ready_status(r.status)
}

/// Whether a list is what is said of resources, one for one.
pub open spec fn are_node_statuses(
    v: Seq<NodeStatus>,
    records: Seq<crate::virtual_wall::state::RecordView>,
) -> bool {
    &&& v.len() == records.len()
    &&& forall|i: int| 0 <= i < v.len() ==> is_node_status(#[trigger] v[i], records[i])
}

/// How long, in seconds, a node is given to ping another.
pub const PING_TIMEOUT_SECS: u64 = 20;

/// The command with which a node pings an address.
pub fn ping_command(target: &str) -> (r: String)
    ensures
        r@ == "ping -c 4 "@ + target@,
{
    "ping -c 4 ".to_owned().concat(target)
}

/// The number of resources that are destroyed by one command.
pub const DESTROY_CHUNK: usize = 20;

/// Groups names, so that no command line is too long.
pub fn destroy_batches(ids: &Vec<String>) -> (r: Vec<Vec<String>>)
    ensures
        crate::batching::group_texts(r@) == crate::batching::batches(
            crate::text::texts(ids@),
            DESTROY_CHUNK as int,
        ),
{
    batch(ids, DESTROY_CHUNK)
}

/// The words that a command consists of, as [`shell_words::split`] finds them; none where a quote
/// is not closed.
pub uninterp spec fn words_of(command: Seq<char>) -> Option<Seq<Seq<char>>>;

/// Calls [`shell_words::split`]; nothing is claimed but that the result depends on the command
/// alone.
#[verifier::external_body]
fn split_words(command: &str) -> (r: Option<Vec<String>>)
    ensures
        words_of(command@) == match r {
            Some(words) => Some(crate::text::texts(words@)),
            None => None,
        },
{
    shell_words::split(command).ok()
}

/// The words that a login on a node begins with.
pub open spec fn login_args(
    m: VirtualWallManager,
    node: Seq<char>,
    experiment: Seq<char>,
) -> Seq<Seq<char>> {
    crate::virtual_wall::slices::bi_prefix(crate::text::opt_text(m.slices.bi_infra_id)) + seq![
        "ssh"@,
        node,
        "--experiment"@,
        experiment,
    ] + (if m.config.use_jump_proxy {
        Seq::empty()
    } else {
        seq!["--proxy"@, "off"@]
    }) + seq!["--"@]
}

/// The command line that runs words on a node.
pub open spec fn exec_args(
    m: VirtualWallManager,
    node: Seq<char>,
    experiment: Seq<char>,
    user: Option<Seq<char>>,
    words: Seq<Seq<char>>,
) -> Seq<Seq<char>> {
    login_args(m, node, experiment) + (match user {
        Some(u) => seq!["ssh"@, "-l"@, u],
        None => Seq::empty(),
    }) + words
}

/// What a tunnel connects, as `ssh` reads it.
pub open spec fn tunnel_option(
    direction: TunnelDirection,
    listen: crate::virtual_wall_lite::tunnels::TunnelEndpointView,
    target: crate::virtual_wall_lite::tunnels::TunnelEndpointView,
) -> Seq<char> {
    crate::virtual_wall_lite::tunnels::flag_of(direction) + listen.host + ":"@ + crate::text::dec(
        listen.port as nat,
    ) + ":"@ + target.host + ":"@ + crate::text::dec(target.port as nat)
}

/// The user of a tunnel: the one that is asked for, else the configured one.
pub open spec fn tunnel_user(c: VirtualWallConfig, request: TunnelRequest) -> Option<Seq<char>> {
    crate::surroundings::either(
        crate::text::opt_text(request.username),
        crate::text::opt_text(c.ssh_username),
    )
}

/// The command line that opens a tunnel.
pub open spec fn tunnel_args(
    m: VirtualWallManager,
    experiment: Seq<char>,
    request: TunnelRequest,
) -> Seq<Seq<char>> {
    login_args(m, request.node@, experiment) + seq![
        "-N"@,
        "-o"@,
        "ExitOnForwardFailure=yes"@,
        "-o"@,
        "ServerAliveInterval=15"@,
        "-o"@,
        "ServerAliveCountMax=3"@,
    ] + (match tunnel_user(m.config, request) {
        Some(u) => seq!["-l"@, u],
        None => Seq::empty(),
    }) + seq![tunnel_option(request.direction, request.listen@, request.target@)]
}

/// The experiment that the state names, else the configured one.
pub open spec fn current_experiment(m: VirtualWallManager) -> Option<Seq<char>> {
    crate::surroundings::either(
        crate::text::opt_text(m.state.current().experiment_name),
        crate::text::opt_text(m.config.experiment),
    )
}

/// Whether an error says that there is no experiment.
pub open spec fn is_no_experiment(e: VirtualWallError) -> bool {
    e matches VirtualWallError::State(m) && m@ == "No experiment in state"@
}

/// A topology with the configured values where it has none of its own.
pub open spec fn with_defaults(t: TopologySpec, c: VirtualWallConfig) -> TopologySpec {
    TopologySpec {
        site_id: crate::surroundings::either(t.site_id, c.site_id),
        image: crate::surroundings::either(t.image, c.image),
        flavor: crate::surroundings::either(t.flavor, c.flavor),
        ..t
    }
}

/// The number of paths that are asked for.
pub open spec fn path_count(o: StartOptions) -> nat {
    match o.paths {
        Some(p) => p as nat,
        None => 1,
    }
}

fn push_words(out: &mut Vec<String>, words: &Vec<String>)
    ensures
        crate::text::texts(final(out)@) == crate::text::texts(old(out)@) + crate::text::texts(
            words@,
        ),
{
    let ghost first = crate::text::texts(out@);
    let ghost given = crate::text::texts(words@);
    let mut i: usize = 0;
    assert(first + given.take(0) =~= first);
    while i < words.len()
        invariant
            i <= words.len(),
            given == crate::text::texts(words@),
            crate::text::texts(out@) == first + given.take(i as int),
        decreases words.len() - i,
    {
        let ghost before = crate::text::texts(out@);
        out.push(words[i].clone());
        assert(crate::text::texts(out@) =~= before.push(given[i as int]));
        assert(before.push(given[i as int]) =~= first + given.take(i + 1));
        i += 1;
    }
    assert(given.take(i as int) =~= given);
}

fn clone_opt(o: &Option<String>) -> (r: Option<String>)
    ensures
        r == *o,
{
    match o {
        Some(s) => Some(s.clone()),
        None => None,
    }
}

fn as_text(o: &Option<String>) -> (r: Option<&str>)
    ensures
        crate::text::opt_str(r) == crate::text::opt_text(*o),
{
    match o {
        Some(s) => Some(s.as_str()),
        None => None,
    }
}

/// A network in a picture.
#[derive(Debug)]
pub struct WallSwitch {
    pub id: String,
    pub lan: String,
    pub color: String,
}

/// A line between a network and one of its members.
#[derive(Debug)]
pub struct WallEdge {
    pub src: String,
    pub dst: String,
    pub intf: Option<String>,
    pub addresses: Vec<String>,
    pub color: String,
}

/// What a [`WallEdge`] says.
#[verifier::ext_equal]
pub struct WallEdgeView {
    pub src: Seq<char>,
    pub dst: Seq<char>,
    pub intf: Option<Seq<char>>,
    pub addresses: Seq<Seq<char>>,
    pub color: Seq<char>,
}

impl View for WallEdge {
    type V = WallEdgeView;

    open spec fn view(&self) -> WallEdgeView {
        WallEdgeView {
            src: self.src@,
            dst: self.dst@,
            intf: crate::text::opt_text(self.intf),
            addresses: crate::text::texts(self.addresses@),
            color: self.color@,
        }
    }
}

/// A picture of the networks of an experiment.
#[derive(Debug)]
pub struct WallPicture {
    pub switches: Vec<WallSwitch>,
    pub edges: Vec<WallEdge>,
}

/// The line between a network and a member.
pub open spec fn edge_to(lan: Seq<char>, m: LanMemberView) -> WallEdgeView {
    WallEdgeView {
        src: "lan-"@ + lan,
        dst: m.node,
        intf: m.intf,
        addresses: m.addresses,
        color: "#94a3b8"@,
    }
}

/// The lines between networks and their members.
pub open spec fn edges_of(links: Seq<LanLink>) -> Seq<WallEdgeView>
    decreases links.len(),
{
    if links.len() == 0 {
        Seq::empty()
    } else {
        edges_of(links.drop_last()) + Seq::new(
            links.last().members@.len(),
            |i: int| edge_to(links.last().id@, links.last().members@[i]@),
        )
    }
}

/// What lines say.
pub open spec fn wall_edges(v: Seq<WallEdge>) -> Seq<WallEdgeView> {
    Seq::new(v.len(), |i: int| v[i]@)
}

/// Whether switches stand for networks, one for each.
pub open spec fn are_switches(switches: Seq<WallSwitch>, links: Seq<LanLink>) -> bool {
    &&& switches.len() == links.len()
    &&& forall|i: int|
        0 <= i < links.len() ==> (#[trigger] switches[i]).id@ == "lan-"@ + links[i].id@
            && switches[i].lan@ == links[i].id@ && switches[i].color@ == "#6b7280"@
}

/// Draws networks: a switch for each of them, and a line to each of its members.
pub fn draw_lans(links: &Vec<LanLink>) -> (r: WallPicture)
    ensures
        are_switches(r.switches@, links@),
        wall_edges(r.edges@) == edges_of(links@),
{
    let mut switches: Vec<WallSwitch> = Vec::new();
    let mut edges: Vec<WallEdge> = Vec::new();
    let mut i: usize = 0;
    assert(links@.take(0) =~= Seq::<LanLink>::empty());
    assert(wall_edges(edges@) =~= Seq::<WallEdgeView>::empty());
    while i < links.len()
        invariant
            i <= links.len(),
            are_switches(switches@, links@.take(i as int)),
            wall_edges(edges@) == edges_of(links@.take(i as int)),
        decreases links.len() - i,
    {
        assert(links@.take(i + 1).drop_last() =~= links@.take(i as int));
        let link = &links[i];
        let id = "lan-".to_owned().concat(link.id.as_str());
        let ghost earlier = switches@;
        switches.push(
            WallSwitch { id: id.clone(), lan: link.id.clone(), color: "#6b7280".to_owned() },
        );
        assert(are_switches(switches@, links@.take(i + 1))) by {
            assert forall|k: int| 0 <= k < i + 1 implies (#[trigger] switches@[k]).id@ == "lan-"@
                + links@.take(i + 1)[k].id@ && switches@[k].lan@ == links@.take(i + 1)[k].id@
                && switches@[k].color@ == "#6b7280"@ by {
                if k < i {
                    assert(switches@[k] == earlier[k]);
                    assert(links@.take(i as int)[k] == links@.take(i + 1)[k]);
                }
            }
        }
        let ghost before = wall_edges(edges@);
        let ghost added = Seq::new(
            link.members@.len(),
            |k: int| edge_to(link.id@, link.members@[k]@),
        );
        let mut j: usize = 0;
        assert(before + added.take(0) =~= before);
        while j < link.members.len()
            invariant
                j <= link.members.len(),
                id@ == "lan-"@ + link.id@,
                added == Seq::new(
                    link.members@.len(),
                    |k: int| edge_to(link.id@, link.members@[k]@),
                ),
                wall_edges(edges@) == before + added.take(j as int),
            decreases link.members.len() - j,
        {
            let ghost so_far = wall_edges(edges@);
            let member = &link.members[j];
            let edge = WallEdge {
                src: id.clone(),
                dst: member.node.clone(),
                intf: copy_opt(&member.intf),
                addresses: copy_texts(&member.addresses),
                color: "#94a3b8".to_owned(),
            };
            assert(edge@ =~= added[j as int]);
            edges.push(edge);
            assert(wall_edges(edges@) =~= so_far.push(added[j as int]));
            assert(so_far.push(added[j as int]) =~= before + added.take(j + 1));
            j += 1;
        }
        assert(added.take(j as int) =~= added);
        i += 1;
    }
    assert(links@.take(i as int) =~= links@);
    WallPicture { switches, edges }
}

impl VirtualWallManager {
    /// The manager of a configuration. The tool is sent to the configured site and gets the
    /// configured settings files through its environment.
    pub fn new(config: VirtualWallConfig, state_store: StateStore) -> (r: Self)
        ensures
            r.config == config,
            r.state == state_store,
            r.slices.binary@ == config.slices_binary@,
            crate::text::opt_text(r.slices.bi_infra_id) == crate::surroundings::nonblank(
                crate::text::opt_text(config.site_id),
            ),
            forall|key: Seq<char>| #[trigger]
                r.slices.env@.dom().contains(key) <==> {
                    ||| key == "SLICES_CUSTOM_CONFIG"@ && config.custom_config is Some
                    ||| key == "SLICES_BI_CUSTOM_CONFIG"@ && config.bi_custom_config is Some
                },
            config.custom_config matches Some(p) ==> r.slices.env@["SLICES_CUSTOM_CONFIG"@]@ == p@,
            config.bi_custom_config matches Some(p) ==> r.slices.env@["SLICES_BI_CUSTOM_CONFIG"@]@
                == p@,
    {
        proof {
            reveal_strlit("SLICES_CUSTOM_CONFIG");
            reveal_strlit("SLICES_BI_CUSTOM_CONFIG");
            assert("SLICES_CUSTOM_CONFIG"@.len() != "SLICES_BI_CUSTOM_CONFIG"@.len());
        }
        let mut slices = SlicesClient::new(config.slices_binary.clone());
        if let Some(site) = &config.site_id {
            let infra = trim(site.as_str());
            if !infra.is_empty() {
                slices.set_bi_infra_id(Some(infra.to_owned()));
            }
        }
        if let Some(path) = &config.custom_config {
            slices.set_env("SLICES_CUSTOM_CONFIG".to_owned(), path.clone());
        }
        if let Some(path) = &config.bi_custom_config {
            slices.set_env("SLICES_BI_CUSTOM_CONFIG".to_owned(), path.clone());
        }
        VirtualWallManager { config, state: state_store, slices }
    }

    /// The name of the experiment: that of the environment variable `SLICES_EXPERIMENT`, else the
    /// configured one, else `virtual-wall`.
    pub fn resolve_experiment_name(&self, variable: Option<&str>) -> (r: String)
        ensures
            r@ == match crate::surroundings::either(
                crate::text::opt_str(variable),
                crate::text::opt_text(self.config.experiment),
            ) {
                Some(n) => n,
                None => "virtual-wall"@,
            },
    {
        match first_of(own(variable), copy_opt(&self.config.experiment)) {
            Some(n) => n,
            None => "virtual-wall".to_owned(),
        }
    }

    /// The experiment that the state names, else the configured one.
    pub fn experiment(&self) -> (r: Option<String>)
        ensures
            crate::text::opt_text(r) == current_experiment(*self),
    {
        first_of(copy_opt(&self.state.get().experiment_name), copy_opt(&self.config.experiment))
    }

    /// The experiment that is left when disconnecting.
    pub fn disconnect(&self) -> (r: String)
        ensures
            r@ == match current_experiment(*self) {
                Some(n) => n,
                None => "broadcastfxr-virtualwall"@,
            },
    {
        match self.experiment() {
            Some(n) => n,
            None => "broadcastfxr-virtualwall".to_owned(),
        }
    }

    /// The experiment whose lifetime is extended.
    pub fn extend_experiment(&self) -> (r: Result<String, VirtualWallError>)
        ensures
            match current_experiment(*self) {
                Some(n) => r matches Ok(e) && e@ == n,
                None => r matches Err(VirtualWallError::State(m)) && m@
                    == "No experiment associated with state"@,
            },
    {
        match self.experiment() {
            Some(n) => Ok(n),
            None => Err(
                VirtualWallError::State("No experiment associated with state".to_owned()),
            ),
        }
    }

    /// What is to be done while waiting for the resources of an experiment: `listed` is how many
    /// there are, where they could be listed, and `details` are those that could be looked at.
    pub fn wait_until_resources_ready(
        &self,
        experiment_name: &str,
        expected_nodes: usize,
        expired: bool,
        listed: Option<usize>,
        details: &Vec<ResourceDetail>,
    ) -> (r: WaitStep)
        ensures
            match r {
                WaitStep::Expired(e) => expired && is_wait_timeout(
                    e,
                    expected_nodes,
                    experiment_name@,
                    self.config.ready_timeout_secs,
                ),
                WaitStep::Ready => !expired && (listed matches Some(n) && n >= expected_nodes)
                    && reachable_count(details@) >= expected_nodes,
                WaitStep::Wait => !expired && !((listed matches Some(n) && n >= expected_nodes)
                    && reachable_count(details@) >= expected_nodes),
            },
    {
        if expired {
            let operation = "waiting for ".to_owned().concat(
                u64_text(expected_nodes as u64).as_str(),
            ).concat(" resources in experiment `").concat(experiment_name).concat(
                "` to become ready",
            );
            return WaitStep::Expired(
                VirtualWallError::Timeout {
                    operation,
                    timeout_secs: self.config.ready_timeout_secs,
                },
            );
        }
        match listed {
            Some(n) => if n < expected_nodes {
                return WaitStep::Wait;
            },
            None => {
                return WaitStep::Wait;
            },
        }
        let mut ready: usize = 0;
        let mut i: usize = 0;
        assert(details@.take(0) =~= Seq::<ResourceDetail>::empty());
        while i < details.len()
            invariant
                ready <= i <= details.len(),
                ready == reachable_count(details@.take(i as int)),
            decreases details.len() - i,
        {
            assert(details@.take(i + 1).drop_last() =~= details@.take(i as int));
            if is_ready(&details[i]) {
                ready += 1;
            }
            i += 1;
        }
        assert(details@.take(i as int) =~= details@);
        if ready >= expected_nodes {
            WaitStep::Ready
        } else {
            WaitStep::Wait
        }
    }

    /// The resources of the experiment.
    pub fn nodes(&self) -> (r: Vec<NodeStatus>)
        ensures
            are_node_statuses(
                r@,
                crate::virtual_wall::state::record_views(self.state.current().resources@),
            ),
    {
        let records = &self.state.get().resources;
        let ghost views = crate::virtual_wall::state::record_views(records@);
        let mut out: Vec<NodeStatus> = Vec::new();
        let mut i: usize = 0;
        while i < records.len()
            invariant
                i <= records.len(),
                out@.len() == i,
                views == crate::virtual_wall::state::record_views(records@),
                forall|j: int| 0 <= j < i ==> is_node_status(#[trigger] out@[j], views[j]),
            decreases records.len() - i,
        {
            let record = &records[i];
            assert(views[i as int] == record@);
            out.push(
                NodeStatus {
                    name: record.name.clone(),
                    status: copy_opt(&record.status),
                    addresses: copy_texts(&record.addresses),
                    hostnames: copy_texts(&record.hostnames),
                    site: copy_opt(&record.site_id),
                    expires_at: copy_opt(&record.expires_at),
                    healthy: is_healthy(&record.status),
                },
            );
            i += 1;
        }
        out
    }

    /// Copies files.
    pub fn scp(&self, src: &str, dst: &str) -> (r: Result<Vec<String>, VirtualWallError>)
        ensures
            crate::virtual_wall::slices::args_unless(
                r,
                if crate::virtual_wall::slices::is_blank(src@)
                    || crate::virtual_wall::slices::is_blank(dst@) {
                    Some("src/dst must be non-empty"@)
                } else {
                    None
                },
                crate::virtual_wall::slices::bi_args(self.slices, seq!["scp"@, src@, dst@]),
            ),
    {
        self.slices.bi_scp(src, dst)
    }

    /// The networks of the experiment with their members, by ascending identifier.
    pub fn links(&self) -> (r: Vec<LanLink>)
        ensures
            are_lans(
                r@,
                crate::virtual_wall::state::record_views(self.state.current().resources@),
            ),
    {
        lan_links(&self.state.get().resources)
    }

    /// A picture of the networks of the experiment.
    pub fn visualize(&self) -> (r: WallPicture)
        ensures
            exists|links: Seq<LanLink>|
                are_lans(
                    links,
                    crate::virtual_wall::state::record_views(self.state.current().resources@),
                ) && #[trigger] are_switches(r.switches@, links) && wall_edges(r.edges@)
                    == edges_of(links),
    {
        let links = self.links();
        draw_lans(&links)
    }

    fn login(&self, node: &str, experiment: &str) -> (r: Vec<String>)
        ensures
            crate::text::texts(r@) == login_args(*self, node@, experiment@),
    {
        let mut args = self.slices.bi_prefix_args();
        let ghost prefix = crate::text::texts(args@);
        args.push("ssh".to_owned());
        args.push(node.to_owned());
        args.push("--experiment".to_owned());
        args.push(experiment.to_owned());
        assert(crate::text::texts(args@) =~= prefix + seq![
            "ssh"@,
            node@,
            "--experiment"@,
            experiment@,
        ]);
        let ghost named = crate::text::texts(args@);
        if !self.config.use_jump_proxy {
            args.push("--proxy".to_owned());
            args.push("off".to_owned());
        }
        assert(crate::text::texts(args@) =~= named + (if self.config.use_jump_proxy {
            Seq::<Seq<char>>::empty()
        } else {
            seq!["--proxy"@, "off"@]
        }));
        let ghost placed = crate::text::texts(args@);
        args.push("--".to_owned());
        assert(crate::text::texts(args@) =~= placed + seq!["--"@]);
        assert(crate::text::texts(args@) =~= login_args(*self, node@, experiment@));
        args
    }

    /// The command line that runs words on a node.
    pub fn exec_words(
        &self,
        node: &str,
        experiment: &str,
        words: &Vec<String>,
        username: Option<&str>,
    ) -> (r: Result<Vec<String>, VirtualWallError>)
        ensures
            if words@.len() == 0 {
                r matches Err(VirtualWallError::State(m)) && m@ == "Empty command"@
            } else {
                r matches Ok(args) && crate::text::texts(args@) == exec_args(
                    *self,
                    node@,
                    experiment@,
                    crate::text::opt_str(username),
                    crate::text::texts(words@),
                )
            },
    {
        if words.len() == 0 {
            return Err(VirtualWallError::State("Empty command".to_owned()));
        }
        let mut args = self.login(node, experiment);
        let ghost before = crate::text::texts(args@);
        if let Some(user) = username {
            args.push("ssh".to_owned());
            args.push("-l".to_owned());
            args.push(user.to_owned());
        }
        assert(crate::text::texts(args@) =~= before + (match crate::text::opt_str(username) {
            Some(u) => seq!["ssh"@, "-l"@, u],
            None => Seq::empty(),
        }));
        push_words(&mut args, words);
        Ok(args)
    }

    /// The command line that runs a command on a node of the experiment.
    pub fn exec(&self, node: &str, command: &str, username: Option<&str>) -> (r: Result<
        Vec<String>,
        VirtualWallError,
    >)
        ensures
            match (current_experiment(*self), words_of(command@)) {
                (None, _) => r matches Err(e) && is_no_experiment(e),
                (Some(_), None) => r matches Err(VirtualWallError::State(m)) && m@
                    == "Failed to parse command '"@ + command@ + "': missing closing quote"@,
                (Some(experiment), Some(words)) => if words.len() == 0 {
                    r matches Err(VirtualWallError::State(m)) && m@ == "Empty command"@
                } else {
                    r matches Ok(args) && crate::text::texts(args@) == exec_args(
                        *self,
                        node@,
                        experiment,
                        crate::text::opt_str(username),
                        words,
                    )
                },
            },
    {
        let experiment = match self.experiment() {
            Some(e) => e,
            None => {
                return Err(VirtualWallError::State("No experiment in state".to_owned()));
            },
        };
        match split_words(command) {
            Some(words) => {
                assert(crate::text::texts(words@).len() == words@.len());
                self.exec_words(node, experiment.as_str(), &words, username)
            },
            None => Err(
                VirtualWallError::State(
                    "Failed to parse command '".to_owned().concat(command).concat(
                        "': missing closing quote",
                    ),
                ),
            ),
        }
    }

    /// The error of a command that took too long.
    pub fn exec_timeout(timeout_secs: u64) -> (r: VirtualWallError)
        ensures
            r matches VirtualWallError::State(m) && m@ == "Command timed out after "@
                + crate::text::seconds_shown(timeout_secs as nat),
    {
        VirtualWallError::State(
            "Command timed out after ".to_owned().concat(seconds_text(timeout_secs).as_str()),
        )
    }

    /// The command line that opens a tunnel to a node of the experiment.
    pub fn open_tunnel(&self, request: &TunnelRequest) -> (r: Result<
        Vec<String>,
        VirtualWallError,
    >)
        ensures
            match current_experiment(*self) {
                None => r matches Err(e) && is_no_experiment(e),
                Some(experiment) => r matches Ok(args) && crate::text::texts(args@) == tunnel_args(
                    *self,
                    experiment,
                    *request,
                ),
            },
    {
        let experiment = match self.experiment() {
            Some(e) => e,
            None => {
                return Err(VirtualWallError::State("No experiment in state".to_owned()));
            },
        };
        let mut args = self.login(request.node.as_str(), experiment.as_str());
        let ghost before = crate::text::texts(args@);
        args.push("-N".to_owned());
        args.push("-o".to_owned());
        args.push("ExitOnForwardFailure=yes".to_owned());
        args.push("-o".to_owned());
        args.push("ServerAliveInterval=15".to_owned());
        args.push("-o".to_owned());
        args.push("ServerAliveCountMax=3".to_owned());
        assert(crate::text::texts(args@) =~= before + seq![
            "-N"@,
            "-o"@,
            "ExitOnForwardFailure=yes"@,
            "-o"@,
            "ServerAliveInterval=15"@,
            "-o"@,
            "ServerAliveCountMax=3"@,
        ]);
        let ghost with_options = crate::text::texts(args@);
        if let Some(user) = first_of(
            copy_opt(&request.username),
            copy_opt(&self.config.ssh_username),
        ) {
            args.push("-l".to_owned());
            args.push(user);
        }
        assert(crate::text::texts(args@) =~= with_options + (match tunnel_user(
            self.config,
            *request,
        ) {
            Some(u) => seq!["-l"@, u],
            None => Seq::empty(),
        }));
        let ghost with_user = crate::text::texts(args@);
        let flag = match request.direction {
            TunnelDirection::Local => "-L",
            TunnelDirection::Remote => "-R",
        };
        let option = flag.to_owned().concat(request.listen.host.as_str()).concat(":").concat(
            u64_text(request.listen.port as u64).as_str(),
        ).concat(":").concat(request.target.host.as_str()).concat(":").concat(
            u64_text(request.target.port as u64).as_str(),
        );
        let ghost connected = option@;
        args.push(option);
        assert(crate::text::texts(args@) =~= with_user + seq![connected]);
        Ok(args)
    }

    /// What is known of a tunnel that was opened for a request.
    pub fn opened_tunnel(&self, id: &str, request: &TunnelRequest, pid: Option<u32>) -> (r:
        TunnelInfo)
        ensures
            r@ == (crate::virtual_wall_lite::tunnels::TunnelInfoView {
                id: id@,
                node: request.node@,
                direction: request.direction,
                listen: request.listen@,
                target: request.target@,
                username: tunnel_user(self.config, *request),
                pid,
            }),
    {
        TunnelInfo {
            id: id.to_owned(),
            node: request.node.clone(),
            direction: request.direction,
            listen: request.listen.clone(),
            target: request.target.clone(),
            username: first_of(copy_opt(&request.username), copy_opt(&self.config.ssh_username)),
            pid,
        }
    }

    /// The node that the others are pinged from, and their addresses.
    pub fn ping_all(&self) -> (r: Result<(String, Vec<String>), VirtualWallError>)
        ensures
            ({
                let records = self.state.current().resources@;
                if records.len() < 2 {
                    r matches Err(VirtualWallError::State(m)) && m@
                        == "At least two nodes are required to run ping_all"@
                } else {
                    r matches Ok((src, targets)) && src@ == records[0].name@ && crate::text::texts(
                        targets@,
                    ) == first_addresses(records.skip(1))
                }
            }),
    {
        let records = &self.state.get().resources;
        if records.len() < 2 {
            return Err(
                VirtualWallError::State(
                    "At least two nodes are required to run ping_all".to_owned(),
                ),
            );
        }
        let ghost others = records@.skip(1);
        let mut targets: Vec<String> = Vec::new();
        let mut i: usize = 1;
        assert(others.take(0) =~= Seq::<ResourceRecord>::empty());
        assert(crate::text::texts(targets@) =~= Seq::<Seq<char>>::empty());
        while i < records.len()
            invariant
                1 <= i <= records.len(),
                others == records@.skip(1),
                crate::text::texts(targets@) == first_addresses(others.take(i - 1)),
            decreases records.len() - i,
        {
            assert(others.take(i as int).drop_last() =~= others.take(i - 1));
            assert(others.take(i as int).last() == records@[i as int]);
            let ghost before = crate::text::texts(targets@);
            if records[i].addresses.len() > 0 {
                targets.push(records[i].addresses[0].clone());
                assert(crate::text::texts(targets@) =~= before.push(
                    records@[i as int].addresses@[0]@,
                ));
            }
            i += 1;
        }
        assert(others.take(i - 1) =~= others);
        Ok((records[0].name.clone(), targets))
    }

    /// The resources that are asked for: those of a template; else those of a topology, with the
    /// configured values where it has none; else a cluster.
    pub fn build_spec(
        &self,
        options: &StartOptions,
        template: Option<ResourceSpec>,
        topology: Option<TopologySpec>,
    ) -> (r: Result<(ResourceSpec, Option<TopologyState>), VirtualWallError>)
        requires
            options.nodes <= 0xfffffff6,
        ensures
            match (template, topology) {
                (Some(spec), _) => r == Ok::<
                    (ResourceSpec, Option<TopologyState>),
                    VirtualWallError,
                >((spec, None)),
                (None, Some(t)) => {
                    let t = with_defaults(t, self.config);
                    match r {
                        Ok((spec, Some(state))) => {
                            &&& crate::virtual_wall::topology::generation_fault(t) is None
                            &&& crate::virtual_wall::topology::is_generated(
                                t,
                                crate::virtual_wall::topology::GeneratedTopology { spec, state },
                            )
                        },
                        Err(VirtualWallError::Configuration(m)) => {
                            crate::virtual_wall::topology::generation_fault(t) == Some(m@)
                        },
                        _ => false,
                    }
                },
                (None, None) => match r {
                    Ok((spec, None)) => path_count(*options) <= 50 && spec@
                        == crate::virtual_wall::resource_spec::cluster(
                        options.nodes as nat,
                        path_count(*options),
                        crate::text::opt_text(self.config.site_id),
                        crate::text::opt_text(self.config.image),
                        crate::text::opt_text(self.config.flavor),
                        crate::text::opt_text(self.config.cloud_init_template),
                        match self.config.resource_prefix {
                            Some(p) => p@,
                            None => Seq::empty(),
                        },
                    ),
                    Err(VirtualWallError::Configuration(m)) => path_count(*options) > 50 && m@
                        == "Maximum VLANs is 50 (site may support less); requested "@
                        + crate::text::dec(path_count(*options)),
                    _ => false,
                },
            },
    {
        if let Some(spec) = template {
            return Ok((spec, None));
        }
        if let Some(given) = topology {
            let mut t = given;
            if t.site_id.is_none() {
                t.site_id = clone_opt(&self.config.site_id);
            }
            if t.image.is_none() {
                t.image = clone_opt(&self.config.image);
            }
            if t.flavor.is_none() {
                t.flavor = clone_opt(&self.config.flavor);
            }
            assert(t == with_defaults(given, self.config));
            return match generate(&t) {
                Ok(generated) => Ok((generated.spec, Some(generated.state))),
                Err(e) => Err(e),
            };
        }
        let paths: usize = match options.paths {
            Some(p) => p,
            None => 1,
        };
        match ResourceSpecFactory::baremetal_cluster(
            options.nodes,
            paths,
            as_text(&self.config.site_id),
            as_text(&self.config.image),
            as_text(&self.config.flavor),
            as_text(&self.config.cloud_init_template),
            as_text(&self.config.resource_prefix),
        ) {
            Ok(spec) => Ok((spec, None)),
            Err(e) => Err(e),
        }
    }

    /// Checks a duration before lifetimes are extended by it.
    pub fn extend_all(duration: &str) -> (r: Result<(), VirtualWallError>)
        ensures
            if crate::virtual_wall::slices::is_blank(duration@) {
                r matches Err(VirtualWallError::Configuration(m)) && m@
                    == "duration must be non-empty"@
            } else {
                r is Ok
            },
    {
        if trim(duration).is_empty() {
            return Err(
                VirtualWallError::Configuration("duration must be non-empty".to_owned()),
            );
        }
        Ok(())
    }

    /// The resources that are reset: the given ones, else all that are listed.
    pub fn reset(names_or_ids: Vec<String>, listed: &Vec<ResourceSummary>) -> (r: Vec<String>)
        ensures
            if names_or_ids@.len() > 0 {
                r == names_or_ids
            } else {
                crate::text::texts(r@) == handles_of(listed@)
            },
    {
        if names_or_ids.len() == 0 {
            resource_handles(listed)
        } else {
            names_or_ids
        }
    }

    /// The groups of resources that are destroyed, one command for each.
    pub fn down_all(listed: &Vec<ResourceSummary>) -> (r: Vec<Vec<String>>)
        ensures
            crate::batching::group_texts(r@) == crate::batching::batches(
                handles_of(listed@),
                DESTROY_CHUNK as int,
            ),
    {
        destroy_batches(&resource_handles(listed))
    }

    /// Records the resources of an experiment, as they were listed and looked at.
    pub fn update_state_after_start_with_details(
        &mut self,
        experiment_name: &str,
        experiment_id: String,
        summaries: &Vec<ResourceSummary>,
        details: &Vec<ResourceDetail>,
        now: &str,
    )
        ensures
            final(self).config == old(self).config,
            final(self).slices == old(self).slices,
            final(self).state.place() == old(self).state.place(),
            ({
                let (before, after) = (old(self).state.current(), final(self).state.current());
                &&& crate::text::opt_text(after.experiment_name) == Some(experiment_name@)
                &&& crate::text::opt_text(after.experiment_id) == Some(experiment_id@)
                &&& after.last_project == old(self).config.project
                &&& after.last_known_site == old(self).config.site_id
                &&& crate::virtual_wall::state::record_views(after.resources@) == all_recorded(
                    summaries@,
                    details@,
                    before.resources@,
                )
                &&& after.updated_at@ == now@
                &&& after.topology == before.topology
                &&& after.created_at == before.created_at
            }),
    {
        let mut records: Vec<ResourceRecord> = Vec::new();
        {
            let before = &self.state.get().resources;
            let mut i: usize = 0;
            while i < summaries.len()
                invariant
                    i <= summaries.len(),
                    records@.len() == i,
                    forall|j: int|
                        0 <= j < i ==> (#[trigger] records@[j])@ == recorded(
                            summaries@[j],
                            details@,
                            before@,
                        ),
                decreases summaries.len() - i,
            {
                records.push(record_resource(&summaries[i], details, before));
                i += 1;
            }
            assert(crate::virtual_wall::state::record_views(records@) =~= all_recorded(
                summaries@,
                details@,
                before@,
            ));
        }
        let project = clone_opt(&self.config.project);
        let site = clone_opt(&self.config.site_id);
        self.state.update(
            experiment_name.to_owned(),
            experiment_id,
            project,
            site,
            records,
            now,
        );
    }

    /// The identifier of the experiment that is recorded, unless it is blank.
    pub fn cached_experiment_id(&self) -> (r: Option<String>)
        ensures
            crate::text::opt_text(r) == crate::surroundings::unless_blank(
                crate::text::opt_text(self.state.current().experiment_id),
            ),
    {
        crate::surroundings::opt_path_nonempty(&self.state.get().experiment_id)
    }

    /// The error of an experiment that does not exist.
    pub fn experiment_not_found(experiment_name: &str) -> (r: VirtualWallError)
        ensures
            r matches VirtualWallError::State(m) && m@ == "Experiment `"@ + experiment_name@
                + "` not found"@,
    {
        VirtualWallError::State(
            "Experiment `".to_owned().concat(experiment_name).concat("` not found"),
        )
    }

    /// The experiment that the state is refreshed from, with its identifier.
    pub fn refresh_from_cache(&self) -> (r: Option<(String, String)>)
        ensures
            match current_experiment(*self) {
                Some(name) => r matches Some((n, id)) && n@ == name && id@ == (
                match self.state.current().experiment_id {
                    Some(id) => id@,
                    None => Seq::empty(),
                }),
                None => r is None,
            },
    {
        match self.experiment() {
            Some(name) => {
                let id = match &self.state.get().experiment_id {
                    Some(id) => id.clone(),
                    None => String::new(),
                };
                Some((name, id))
            },
            None => None,
        }
    }

    /// The identifier of the experiment whose resources are used again; none where it has none.
    pub fn try_reuse_existing(&self, summaries: &Vec<ResourceSummary>) -> (r: Option<String>)
        ensures
            if summaries@.len() == 0 {
                r is None
            } else {
                r matches Some(id) && id@ == (match crate::surroundings::either(
                    crate::text::opt_text(summaries@[0].experiment_id),
                    crate::text::opt_text(self.state.current().experiment_id),
                ) {
                    Some(id) => id,
                    None => Seq::empty(),
                })
            },
    {
        if summaries.len() == 0 {
            return None;
        }
        match first_of(
            copy_opt(&summaries[0].experiment_id),
            copy_opt(&self.state.get().experiment_id),
        ) {
            Some(id) => Some(id),
            None => Some(String::new()),
        }
    }

    /// The command line that a terminal on a node runs.
    pub fn start_terminal(&self, node: &str) -> (r: Result<String, VirtualWallError>)
        ensures
            match current_experiment(*self) {
                Some(experiment) => r matches Ok(line) && line@ == "slices bi ssh "@ + node@
                    + " --experiment "@ + experiment,
                None => r matches Err(e) && is_no_experiment(e),
            },
    {
        match self.experiment() {
            Some(experiment) => Ok(
                "slices bi ssh ".to_owned().concat(node).concat(" --experiment ").concat(
                    experiment.as_str(),
                ),
            ),
            None => Err(VirtualWallError::State("No experiment in state".to_owned())),
        }
    }
}

/// The first addresses of resources that have one.
pub open spec fn first_addresses(v: Seq<ResourceRecord>) -> Seq<Seq<char>>
    decreases v.len(),
{
    if v.len() == 0 {
        Seq::empty()
    } else if v.last().addresses@.len() > 0 {
        first_addresses(v.drop_last()).push(v.last().addresses@[0]@)
    } else {
        first_addresses(v.drop_last())
    }
}

/// A resource is known by its friendly name, else by its name; it is asked for by its identifier
/// first.
pub proof fn resources_go_by_their_friendly_name(s: ResourceSummary)
    ensures
        s.friendly_name is Some ==> name_of(s) == s.friendly_name->0@,
        s.friendly_name is None && s.name is Some ==> name_of(s) == s.name->0@,
        s.id is Some ==> handle_of(s) == Some(s.id->0@),
        s.id is None && s.friendly_name is Some ==> handle_of(s) == Some(s.friendly_name->0@),
        s.id is None && s.friendly_name is None && s.name is Some ==> handle_of(s) == Some(
            s.name->0@,
        ),
        s.id is None && s.friendly_name is None && s.name is None ==> handle_of(s) is None,
{
}

/// A resource has the addresses that its list entry gives: that of the fourth version first, the
/// general one before the private one.
pub proof fn listed_addresses_are_recorded(
    s: ResourceSummary,
    details: Seq<ResourceDetail>,
    before: Seq<ResourceRecord>,
)
    ensures
        ({
            let found = recorded(s, details, before).addresses;
            &&& s.ipv4 is Some ==> found[0] == s.ipv4->0@
            &&& s.ipv4 is None && s.private_ipv4 is Some ==> found[0] == s.private_ipv4->0@
            &&& (s.ipv4 is Some || s.private_ipv4 is Some) && s.ipv6 is Some ==> found.len() == 2
                && found[1] == s.ipv6->0@
            &&& (s.ipv4 is Some || s.private_ipv4 is Some) && s.ipv6 is None
                && s.private_ipv6 is Some ==> found.len() == 2 && found[1] == s.private_ipv6->0@
            &&& s.ipv4 is None && s.private_ipv4 is None && s.ipv6 is Some ==> found
                == seq![s.ipv6->0@]
            &&& s.ipv4 is None && s.private_ipv4 is None && s.ipv6 is None
                && s.private_ipv6 is Some ==> found == seq![s.private_ipv6->0@]
        }),
{
}

/// Where the list gives no address, those of the details count, the private ones first, with the
/// hosts that can be logged in to.
pub proof fn detailed_addresses_are_recorded(
    s: ResourceSummary,
    details: Seq<ResourceDetail>,
    before: Seq<ResourceRecord>,
    k: int,
)
    requires
        0 <= k < details.len(),
        crate::text::opt_text(details[k].id) == crate::text::opt_text(s.id),
        forall|i: int|
            0 <= i < k ==> crate::text::opt_text((#[trigger] details[i]).id)
                != crate::text::opt_text(s.id),
        s.ipv4 is None && s.private_ipv4 is None && s.ipv6 is None && s.private_ipv6 is None,
        details[k].private_ipv4 is Some,
        details[k].private_ipv6 is None && details[k].public_ipv6 is None,
    ensures
        recorded(s, details, before).addresses == seq![details[k].private_ipv4->0@],
        recorded(s, details, before).hostnames.len() == details[k].ssh_logins@.len(),
        forall|i: int|
            0 <= i < details[k].ssh_logins@.len() ==> #[trigger] recorded(
                s,
                details,
                before,
            ).hostnames[i] == details[k].ssh_logins@[i].host@,
{
    the_first_detail_counts(details, crate::text::opt_text(s.id), k);
    assert(listed_addresses(s) =~= Seq::empty());
    assert(detailed_addresses(details[k]) =~= seq![details[k].private_ipv4->0@]);
}

proof fn the_first_detail_counts(details: Seq<ResourceDetail>, id: Option<Seq<char>>, k: int)
    requires
        0 <= k < details.len(),
        crate::text::opt_text(details[k].id) == id,
        forall|i: int| 0 <= i < k ==> crate::text::opt_text((#[trigger] details[i]).id) != id,
    ensures
        detail_of(details, id) == Some(details[k]),
    decreases details.len(),
{
    if k > 0 {
        assert(crate::text::opt_text(details[0].id) != id);
        let rest = details.skip(1);
        assert(rest[k - 1] == details[k]);
        assert forall|i: int| 0 <= i < k - 1 implies crate::text::opt_text((#[trigger] rest[i]).id)
            != id by {
            assert(rest[i] == details[i + 1]);
        }
        the_first_detail_counts(rest, id, k - 1);
    }
}

/// The rest of a record is that of the list entry; interfaces come from the details of the same
/// resource.
pub proof fn records_keep_what_is_listed(
    s: ResourceSummary,
    details: Seq<ResourceDetail>,
    before: Seq<ResourceRecord>,
)
    ensures
        ({
            let r = recorded(s, details, before);
            &&& r.resource_id == crate::text::opt_text(s.id)
            &&& r.site_id == crate::text::opt_text(s.site_id)
            &&& r.status == crate::text::opt_text(s.status)
            &&& r.expires_at == crate::text::opt_text(s.expires_at)
            &&& r.interfaces.len() > 0 ==> exists|k: int|
                0 <= k < details.len() && crate::text::opt_text((#[trigger] details[k]).id)
                    == crate::text::opt_text(s.id) && r.interfaces
                    == crate::virtual_wall::state::interface_views(details[k].network_interfaces@)
        }),
{
    found_details_are_in_the_list(details, crate::text::opt_text(s.id));
}

proof fn found_details_are_in_the_list(details: Seq<ResourceDetail>, id: Option<Seq<char>>)
    ensures
        detail_of(details, id) matches Some(d) ==> exists|k: int|
            0 <= k < details.len() && #[trigger] details[k] == d && crate::text::opt_text(d.id)
                == id,
        detail_of(details, id) is None ==> forall|k: int|
            0 <= k < details.len() ==> crate::text::opt_text((#[trigger] details[k]).id) != id,
    decreases details.len(),
{
    if details.len() > 0 {
        let rest = details.skip(1);
        found_details_are_in_the_list(rest, id);
        if crate::text::opt_text(details[0].id) == id {
            assert(details[0] == detail_of(details, id)->0);
        } else {
            if let Some(d) = detail_of(rest, id) {
                let k = choose|k: int|
                    0 <= k < rest.len() && #[trigger] rest[k] == d && crate::text::opt_text(d.id)
                        == id;
                assert(details[k + 1] == d);
            } else {
                assert forall|k: int| 0 <= k < details.len() implies crate::text::opt_text(
                    (#[trigger] details[k]).id,
                ) != id by {
                    if k > 0 {
                        assert(rest[k - 1] == details[k]);
                    }
                }
            }
        }
    }
}

/// Every resource that can be asked for is among the handles, and nothing else is.
pub proof fn every_resource_has_its_handle(v: Seq<ResourceSummary>, h: Seq<char>)
    ensures
        handles_of(v).contains(h) <==> exists|i: int|
            0 <= i < v.len() && handle_of(#[trigger] v[i]) == Some(h),
    decreases v.len(),
{
    if v.len() > 0 {
        let front = v.drop_last();
        let before = handles_of(front);
        let after = handles_of(v);
        every_resource_has_its_handle(front, h);
        if before.contains(h) {
            let k = choose|k: int| 0 <= k < before.len() && before[k] == h;
            assert(after[k] == h);
            let i = choose|i: int| 0 <= i < front.len() && handle_of(#[trigger] front[i]) == Some(h);
            assert(v[i] == front[i]);
        }
        if after.contains(h) {
            let k = choose|k: int| 0 <= k < after.len() && after[k] == h;
            if k < before.len() {
                assert(before[k] == h);
                assert(before.contains(h));
            } else {
                assert(handle_of(v[v.len() - 1]) == Some(h));
            }
        }
        if exists|i: int| 0 <= i < v.len() && handle_of(#[trigger] v[i]) == Some(h) {
            let i = choose|i: int| 0 <= i < v.len() && handle_of(#[trigger] v[i]) == Some(h);
            if i < front.len() {
                assert(front[i] == v[i]);
            } else {
                assert(after[after.len() - 1] == h);
            }
        }
    }
}

/// Resources are counted as reachable one by one.
pub proof fn reachable_resources_are_counted(details: Seq<ResourceDetail>, more: ResourceDetail)
    ensures
        reachable_count(Seq::<ResourceDetail>::empty()) == 0,
        reachable_count(details.push(more)) == reachable_count(details) + if more.ssh_logins@.len()
            > 0 || more.private_ipv4 is Some || more.public_ipv4 is Some || more.private_ipv6 is Some
            || more.public_ipv6 is Some || (exists|i: int|
            0 <= i < more.network_interfaces@.len() && (
            #[trigger] more.network_interfaces@[i]).addresses@.len() > 0) {
            1nat
        } else {
            0nat
        },
{
    assert(details.push(more).drop_last() =~= details);
}

/// A login goes to the node, in its experiment, without the proxy where that is switched off.
pub proof fn logins_go_to_the_node(m: VirtualWallManager, node: Seq<char>, experiment: Seq<char>)
    ensures
        ({
            let args = login_args(m, node, experiment);
            &&& args[0] == "bi"@
            &&& m.slices.bi_infra_id matches Some(id) ==> args[1] == "--infra"@ && args[2] == id@
            &&& crate::text::follows(args, "ssh"@, node)
            &&& crate::text::follows(args, "--experiment"@, experiment)
            &&& args.last() == "--"@
            &&& !m.config.use_jump_proxy ==> args[args.len() - 3] == "--proxy"@ && args[args.len()
                - 2] == "off"@
            &&& m.config.use_jump_proxy ==> args[args.len() - 2] == experiment
        }),
{
    let args = login_args(m, node, experiment);
    let p = crate::virtual_wall::slices::bi_prefix(
        crate::text::opt_text(m.slices.bi_infra_id),
    ).len() as int;
    assert(args[p] == "ssh"@ && args[p + 1] == node);
    assert(args[p + 2] == "--experiment"@ && args[p + 3] == experiment);
}

/// A command runs behind the login, by the user that is asked for.
pub proof fn commands_run_behind_the_login(
    m: VirtualWallManager,
    node: Seq<char>,
    experiment: Seq<char>,
    user: Option<Seq<char>>,
    words: Seq<Seq<char>>,
)
    ensures
        ({
            let args = exec_args(m, node, experiment, user, words);
            let n = args.len() - words.len();
            &&& n >= 0
            &&& args.skip(n) == words
            &&& user matches Some(u) ==> n >= 2 && args[n - 1] == u && args[n - 2] == "-l"@
            &&& user is None ==> n >= 1 && args[n - 1] == "--"@
        }),
{
    let args = exec_args(m, node, experiment, user, words);
    assert(args.skip(args.len() - words.len()) =~= words);
}

/// A tunnel is opened by the user of the request, else by that of the configuration, and forwards
/// what listens to what is aimed at.
pub proof fn tunnels_forward_what_is_asked_for(
    m: VirtualWallManager,
    experiment: Seq<char>,
    request: TunnelRequest,
)
    ensures
        ({
            let args = tunnel_args(m, experiment, request);
            let n = args.len() as int;
            let flag = match request.direction {
                TunnelDirection::Local => "-L"@,
                TunnelDirection::Remote => "-R"@,
            };
            &&& args[n - 1] == flag + request.listen.host@ + ":"@ + crate::text::dec(
                request.listen.port as nat,
            ) + ":"@ + request.target.host@ + ":"@ + crate::text::dec(request.target.port as nat)
            &&& request.username matches Some(u) ==> args[n - 3] == "-l"@ && args[n - 2] == u@
            &&& request.username is None && m.config.ssh_username is Some ==> args[n - 3] == "-l"@
                && args[n - 2] == m.config.ssh_username->0@
            &&& request.username is None && m.config.ssh_username is None ==> args[n - 2]
                == "ServerAliveCountMax=3"@
        }),
{
}

/// A topology keeps its own site, image and flavour; the configuration fills in what it leaves
/// open.
pub proof fn topologies_go_before_the_configuration(t: TopologySpec, c: VirtualWallConfig)
    ensures
        ({
            let r = with_defaults(t, c);
            &&& r.site_id == if t.site_id is Some { t.site_id } else { c.site_id }
            &&& r.image == if t.image is Some { t.image } else { c.image }
            &&& r.flavor == if t.flavor is Some { t.flavor } else { c.flavor }
        }),
{
}

/// Every interface on a network makes its node a member of it.
pub proof fn interfaces_make_members(
    records: Seq<crate::virtual_wall::state::RecordView>,
    lan: Seq<char>,
    i: int,
    j: int,
)
    requires
        0 <= i < records.len(),
        0 <= j < records[i].interfaces.len(),
        records[i].interfaces[j].network_id == Some(lan),
    ensures
        members_of(records, lan).contains(
            (LanMemberView {
                node: records[i].name,
                intf: records[i].interfaces[j].port_id,
                addresses: records[i].interfaces[j].addresses,
            }),
        ),
    decreases records.len(),
{
    let m = LanMemberView {
        node: records[i].name,
        intf: records[i].interfaces[j].port_id,
        addresses: records[i].interfaces[j].addresses,
    };
    let front = records.drop_last();
    let last = members_in(records.last().name, records.last().interfaces, lan);
    let all = members_of(records, lan);
    if i < front.len() {
        assert(front[i] == records[i]);
        interfaces_make_members(front, lan, i, j);
        let k = choose|k: int| 0 <= k < members_of(front, lan).len() && members_of(front, lan)[k] == m;
        assert(all[k] == m);
    } else {
        interfaces_are_members_of_their_lan(records[i].name, records[i].interfaces, lan, j);
        let k = choose|k: int| 0 <= k < last.len() && last[k] == m;
        assert(all[members_of(front, lan).len() + k] == m);
    }
}

proof fn interfaces_are_members_of_their_lan(
    node: Seq<char>,
    interfaces: Seq<crate::virtual_wall::state::InterfaceView>,
    lan: Seq<char>,
    j: int,
)
    requires
        0 <= j < interfaces.len(),
        interfaces[j].network_id == Some(lan),
    ensures
        members_in(node, interfaces, lan).contains(
            (LanMemberView {
                node,
                intf: interfaces[j].port_id,
                addresses: interfaces[j].addresses,
            }),
        ),
    decreases interfaces.len(),
{
    let m = LanMemberView {
        node,
        intf: interfaces[j].port_id,
        addresses: interfaces[j].addresses,
    };
    let front = interfaces.drop_last();
    let before = members_in(node, front, lan);
    let all = members_in(node, interfaces, lan);
    if j < front.len() {
        assert(front[j] == interfaces[j]);
        interfaces_are_members_of_their_lan(node, front, lan, j);
        let k = choose|k: int| 0 <= k < before.len() && before[k] == m;
        assert(all[k] == m);
    } else {
        assert(all[all.len() - 1] == m);
    }
}

/// Every member of a network is drawn with a line from the switch of that network.
pub proof fn members_are_drawn(links: Seq<LanLink>, i: int, j: int)
    requires
        0 <= i < links.len(),
        0 <= j < links[i].members@.len(),
    ensures
        exists|k: int|
            0 <= k < edges_of(links).len() && (#[trigger] edges_of(links)[k]).src == "lan-"@
                + links[i].id@ && edges_of(links)[k].dst == links[i].members@[j].node@
                && edges_of(links)[k].addresses == crate::text::texts(
                links[i].members@[j].addresses@,
            ) && edges_of(links)[k].intf == crate::text::opt_text(links[i].members@[j].intf),
    decreases links.len(),
{
    let front = links.drop_last();
    let all = edges_of(links);
    if i < front.len() {
        assert(front[i] == links[i]);
        members_are_drawn(front, i, j);
        let k = choose|k: int|
            0 <= k < edges_of(front).len() && (#[trigger] edges_of(front)[k]).src == "lan-"@
                + links[i].id@ && edges_of(front)[k].dst == links[i].members@[j].node@
                && edges_of(front)[k].addresses == crate::text::texts(
                links[i].members@[j].addresses@,
            ) && edges_of(front)[k].intf == crate::text::opt_text(links[i].members@[j].intf);
        assert(all[k] == edges_of(front)[k]);
    } else {
        assert(all[edges_of(front).len() + j] == edge_to(links[i].id@, links[i].members@[j]@));
    }
}

/// The first address of every record that has one is pinged.
pub proof fn first_addresses_are_pinged(v: Seq<ResourceRecord>, i: int)
    requires
        0 <= i < v.len(),
        v[i].addresses@.len() > 0,
    ensures
        first_addresses(v).contains(v[i].addresses@[0]@),
    decreases v.len(),
{
    let front = v.drop_last();
    let before = first_addresses(front);
    let all = first_addresses(v);
    if i < front.len() {
        assert(front[i] == v[i]);
        first_addresses_are_pinged(front, i);
        let k = choose|k: int| 0 <= k < before.len() && before[k] == v[i].addresses@[0]@;
        assert(all[k] == v[i].addresses@[0]@);
    } else {
        assert(all[all.len() - 1] == v[i].addresses@[0]@);
    }
}

/// There is one path where none is asked for.
pub proof fn one_path_is_the_default(o: StartOptions)
    ensures
        o.paths is None ==> path_count(o) == 1,
        o.paths matches Some(n) ==> path_count(o) == n,
{
}

/// The experiment is the one of the state, else the one of the configuration.
pub proof fn the_experiment_of_the_state_counts(m: VirtualWallManager)
    ensures
        m.state.current().experiment_name is Some ==> current_experiment(m) == Some(
            m.state.current().experiment_name->0@,
        ),
        m.state.current().experiment_name is None ==> current_experiment(m)
            == crate::text::opt_text(m.config.experiment),
{
}

/// A node is healthy where its status reads ready, in capitals or not.
pub proof fn ready_nodes_are_healthy(s: Seq<char>)
    ensures
        is_ready_status(None) == false,
        is_ready_status(Some("ready"@)),
        is_ready_status(Some(s)) ==> s.len() == 5,
        is_ready_status(Some(s)) <==> is_ready_status(Some(crate::text::ascii_lowered(s))),
{
    reveal_strlit("ready");
    crate::text::case_alone_is_ignored(s, "ready"@);
    let t = crate::text::ascii_lowered(s);
    assert(crate::text::ascii_lowered(t) =~= t);
}

/// What is shown of a node is what was recorded of it.
pub proof fn statuses_show_what_was_recorded(
    n: NodeStatus,
    r: crate::virtual_wall::state::RecordView,
)
    requires
        is_node_status(n, r),
    ensures
        n.name@ == r.name,
        crate::text::opt_text(n.status) == r.status,
        crate::text::texts(n.addresses@) == r.addresses,
        crate::text::texts(n.hostnames@) == r.hostnames,
        crate::text::opt_text(n.site) == r.site_id,
        crate::text::opt_text(n.expires_at) == r.expires_at,
{
}

/// The time is up with a message that names what was waited for.
pub proof fn waiting_ends_with_its_time(
    e: VirtualWallError,
    expected: usize,
    experiment: Seq<char>,
    timeout: u64,
)
    requires
        is_wait_timeout(e, expected, experiment, timeout),
    ensures
        e matches VirtualWallError::Timeout { operation, timeout_secs } && timeout_secs == timeout
            && crate::text::begins(
            operation@,
            "waiting for "@ + crate::text::dec(expected as nat) + " resources in experiment `"@
                + experiment,
        ),
{
    if let VirtualWallError::Timeout { operation, timeout_secs } = e {
        let head = "waiting for "@ + crate::text::dec(expected as nat)
            + " resources in experiment `"@ + experiment;
        assert(operation@.subrange(0, head.len() as int) =~= head);
    }
}

proof fn the_first_record_counts(records: Seq<ResourceRecord>, k: int)
    requires
        0 <= k < records.len(),
        forall|i: int| 0 <= i < k ==> (#[trigger] records[i]).name@ != records[k].name@,
    ensures
        record_of(records, records[k].name@) == Some(records[k]),
    decreases records.len(),
{
    if k > 0 {
        assert(records[0].name@ != records[k].name@);
        let rest = records.skip(1);
        assert(rest[k - 1] == records[k]);
        assert forall|i: int| 0 <= i < k - 1 implies (#[trigger] rest[i]).name@
            != rest[k - 1].name@ by {
            assert(rest[i] == records[i + 1]);
        }
        the_first_record_counts(rest, k - 1);
    }
}

/// A resource of which no address is known any more keeps those of its earlier record.
pub proof fn earlier_addresses_are_kept(
    s: ResourceSummary,
    before: Seq<ResourceRecord>,
    k: int,
)
    requires
        s.ipv4 is None && s.private_ipv4 is None && s.ipv6 is None && s.private_ipv6 is None,
        0 <= k < before.len(),
        before[k].name@ == name_of(s),
        forall|i: int| 0 <= i < k ==> (#[trigger] before[i]).name@ != before[k].name@,
    ensures
        recorded(s, Seq::empty(), before).addresses == crate::text::texts(before[k].addresses@),
        recorded(s, Seq::empty(), before).hostnames == crate::text::texts(before[k].hostnames@),
{
    the_first_record_counts(before, k);
    assert(listed_addresses(s) =~= Seq::empty());
}

/// Every record has its status, in their order.
pub proof fn every_record_has_its_status(
    v: Seq<NodeStatus>,
    records: Seq<crate::virtual_wall::state::RecordView>,
    i: int,
)
    requires
        are_node_statuses(v, records),
        0 <= i < records.len(),
    ensures
        v.len() == records.len(),
        v[i].name@ == records[i].name,
        crate::text::texts(v[i].addresses@) == records[i].addresses,
{
    assert(is_node_status(v[i], records[i]));
}

/// Every network that an interface is on is listed once, with the node of that interface among its
/// members.
pub proof fn networks_are_listed_with_their_members(
    links: Seq<LanLink>,
    records: Seq<crate::virtual_wall::state::RecordView>,
    i: int,
    j: int,
    lan: Seq<char>,
)
    requires
        are_lans(links, records),
        0 <= i < records.len(),
        0 <= j < records[i].interfaces.len(),
        records[i].interfaces[j].network_id == Some(lan),
    ensures
        exists|k: int, m: int|
            0 <= k < links.len() && 0 <= m < links[k].members@.len() && links[k].id@ == lan && (
            #[trigger] links[k].members@[m]).node@ == records[i].name,
{
    assert(is_on(records[i].interfaces[j], lan));
    assert(is_lan(records, lan));
    let k = choose|k: int| 0 <= k < links.len() && #[trigger] links[k].id@ == lan;
    interfaces_make_members(records, lan, i, j);
    let e = LanMemberView {
        node: records[i].name,
        intf: records[i].interfaces[j].port_id,
        addresses: records[i].interfaces[j].addresses,
    };
    let views = member_views(links[k].members@);
    assert(views == members_of(records, lan));
    let m = choose|m: int| 0 <= m < views.len() && views[m] == e;
    assert(links[k].members@[m]@ == e);
}

} // verus!
