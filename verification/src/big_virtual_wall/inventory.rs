//! The hosts of a running experiment and their underlays.

use vstd::prelude::*;

use crate::big_virtual_wall::overlay::default_bridge;
use crate::string_map::StringMap;

verus! {

/// A host that an overlay can use.
#[derive(Debug, Clone)]
pub struct HostInventory {
    pub name: String,
    pub underlay: String,
    pub bridge: String,
}

/// What the status of an experiment says of a resource: its name, and the first of its host
/// names and of its addresses, where they are given as texts.
#[derive(Debug, Clone)]
pub struct ResourceStatus {
    pub name: Option<String>,
    pub hostname: Option<String>,
    pub address: Option<String>,
}

/// The name of a resource; empty when it has none.
pub open spec fn resource_name(res: ResourceStatus) -> Seq<char> {
    match res.name {
        Some(name) => name@,
        None => Seq::empty(),
    }
}

/// The underlay of a resource: its host name, else its address, else nothing.
pub open spec fn resource_underlay(res: ResourceStatus) -> Seq<char> {
    match res.hostname {
        Some(hostname) => hostname@,
        None => match res.address {
            Some(address) => address@,
            None => Seq::empty(),
        },
    }
}

/// The names and underlays of those of the first `n` resources that have both.
pub open spec fn usable_hosts(resources: Seq<ResourceStatus>, n: nat) -> Seq<
    (Seq<char>, Seq<char>),
>
    decreases n,
{
    if n == 0 {
        Seq::empty()
    } else {
        let res = resources[n - 1];
        let before = usable_hosts(resources, (n - 1) as nat);
        if resource_name(res).len() > 0 && resource_underlay(res).len() > 0 {
            before.push((resource_name(res), resource_underlay(res)))
        } else {
            before
        }
    }
}

/// The names and underlays of an inventory.
pub open spec fn inventory_pairs(hosts: Seq<HostInventory>) -> Seq<(Seq<char>, Seq<char>)> {
    Seq::new(hosts.len(), |i: int| (hosts[i].name@, hosts[i].underlay@))
}

fn text_or_empty(o: &Option<String>) -> (r: String)
    ensures
        r@ == match *o {
            Some(s) => s@,
            None => Seq::empty(),
        },
{
    match o {
        Some(s) => s.clone(),
        None => String::new(),
    }
}

/// The resources of an experiment that have a name and an underlay.
pub fn discover_hosts(resources: &Vec<ResourceStatus>) -> (r: Vec<HostInventory>)
    ensures
        inventory_pairs(r@) == usable_hosts(resources@, resources@.len()),
        forall|i: int| 0 <= i < r@.len() ==> #[trigger] r@[i].bridge@ == "br-vw"@,
{
    let mut hosts: Vec<HostInventory> = Vec::new();
    let mut i: usize = 0;
    assert(inventory_pairs(hosts@) =~= usable_hosts(resources@, 0));
    while i < resources.len()
        invariant
            i <= resources.len(),
            inventory_pairs(hosts@) == usable_hosts(resources@, i as nat),
            forall|j: int| 0 <= j < hosts@.len() ==> #[trigger] hosts@[j].bridge@ == "br-vw"@,
        decreases resources.len() - i,
    {
        let res = &resources[i];
        let name = text_or_empty(&res.name);
        let underlay = match &res.hostname {
            Some(hostname) => hostname.clone(),
            None => text_or_empty(&res.address),
        };
        if !name.as_str().is_empty() && !underlay.as_str().is_empty() {
            let ghost before = hosts@;
            let ghost pair = (name@, underlay@);
            hosts.push(HostInventory { name, underlay, bridge: default_bridge() });
            assert(inventory_pairs(hosts@) =~= inventory_pairs(before).push(pair));
        }
        i += 1;
    }
    hosts
}

/// The underlays of the first `n` hosts, by name; a later host replaces an earlier one.
pub open spec fn underlay_texts(hosts: Seq<HostInventory>, n: nat) -> Map<Seq<char>, String>
    decreases n,
{
    if n == 0 {
        Map::empty()
    } else {
        underlay_texts(hosts, (n - 1) as nat).insert(hosts[n - 1].name@, hosts[n - 1].underlay)
    }
}

/// The underlays of hosts, by name.
pub fn underlay_map(hosts: &Vec<HostInventory>) -> (r: StringMap<String>)
    ensures
        r@ == underlay_texts(hosts@, hosts@.len()),
{
    let mut map: StringMap<String> = StringMap::new();
    let mut i: usize = 0;
    while i < hosts.len()
        invariant
            i <= hosts.len(),
            map@ == underlay_texts(hosts@, i as nat),
        decreases hosts.len() - i,
    {
        map.insert(hosts[i].name.clone(), hosts[i].underlay.clone());
        i += 1;
    }
    map
}

/// A resource with a name is a host, bound to its host name, or to its address where it has none.
pub proof fn named_resources_are_hosts(
    resources: Seq<ResourceStatus>,
    n: nat,
    name: Seq<char>,
    underlay: Seq<char>,
)
    requires
        n <= resources.len(),
    ensures
        usable_hosts(resources, n).contains((name, underlay)) <==> name.len() > 0 && underlay.len()
            > 0 && exists|i: int|
            0 <= i < n && ((#[trigger] resources[i]).name matches Some(s) && s@ == name) && (
            resources[i].hostname is Some ==> resources[i].hostname->0@ == underlay) && (
            resources[i].hostname is None ==> (resources[i].address matches Some(a) && a@
                == underlay)),
    decreases n,
{
    if n > 0 {
        let before = usable_hosts(resources, (n - 1) as nat);
        let after = usable_hosts(resources, n);
        let e = (name, underlay);
        named_resources_are_hosts(resources, (n - 1) as nat, name, underlay);
        if before.contains(e) {
            let k = choose|k: int| 0 <= k < before.len() && before[k] == e;
            assert(after[k] == e);
        }
        if after.contains(e) {
            let k = choose|k: int| 0 <= k < after.len() && after[k] == e;
            if k < before.len() {
                assert(before[k] == e);
                assert(before.contains(e));
            } else {
                let r = resources[n - 1];
                assert(resource_name(r) == name && resource_underlay(r) == underlay);
                assert(r.name is Some);
            }
        }
        let r = resources[n - 1];
        if resource_name(r) == name && resource_underlay(r) == underlay && name.len() > 0
            && underlay.len() > 0 {
            assert(after[after.len() - 1] == e);
        }
    }
}

/// A host is mapped to its underlay; of several entries for it the last one counts.
pub proof fn hosts_are_mapped_to_their_underlay(hosts: Seq<HostInventory>, n: nat, k: int)
    requires
        0 <= k < n <= hosts.len(),
        forall|i: int| k < i < n ==> (#[trigger] hosts[i]).name@ != hosts[k].name@,
    ensures
        underlay_texts(hosts, n).dom().contains(hosts[k].name@),
        underlay_texts(hosts, n)[hosts[k].name@] == hosts[k].underlay,
    decreases n,
{
    if k < n - 1 {
        assert(hosts[n - 1].name@ != hosts[k].name@);
        hosts_are_mapped_to_their_underlay(hosts, (n - 1) as nat, k);
    }
}

} // verus!
