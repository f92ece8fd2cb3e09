//! Resource requests: bare-metal nodes, their interfaces, and the LANs between them.

use vstd::prelude::*;

use crate::text::{own, u128_text};
use crate::virtual_wall::error::VirtualWallError;

verus! {

/// The nodes and LANs that are requested together.
#[derive(Debug)]
pub struct ResourceSpec {
    pub resources: Vec<ResourceDefinition>,
    pub links: Vec<LinkDefinition>,
}

/// A requested node.
#[derive(Debug)]
pub struct ResourceDefinition {
    pub friendly_name: String,
    pub site_id: Option<String>,
    pub disk_image: Option<String>,
    pub flavor: Option<String>,
    pub userdata_file: Option<String>,
    pub network_interfaces: Vec<NetworkInterface>,
}

/// An interface of a requested node.
#[derive(Debug)]
pub struct NetworkInterface {
    pub port_id: Option<String>,
    pub network_id: String,
    pub addresses: Vec<String>,
}

/// A requested LAN.
#[derive(Debug)]
pub struct LinkDefinition {
    pub friendly_name: String,
    pub network_id: String,
    pub link_type: Option<String>,
    pub share_lan_name: Option<String>,
    pub impairment: Vec<LinkImpairment>,
}

/// Capacity, loss and latency of a LAN, or of the path between two of its ends.
#[derive(Debug)]
pub struct LinkImpairment {
    pub source: Option<String>,
    pub destination: Option<String>,
    pub capacity_kbit_per_s: Option<u64>,
    /// Loss as a fraction, in decimal notation.
    pub packet_loss: Option<String>,
    pub latency_ms: Option<u64>,
}

/// Makes resource requests of standard shapes.
pub struct ResourceSpecFactory;

/// What a [`NetworkInterface`] says.
#[verifier::ext_equal]
pub struct NetworkInterfaceView {
    pub port_id: Option<Seq<char>>,
    pub network_id: Seq<char>,
    pub addresses: Seq<Seq<char>>,
}

/// What a [`ResourceDefinition`] says.
#[verifier::ext_equal]
pub struct ResourceView {
    pub friendly_name: Seq<char>,
    pub site_id: Option<Seq<char>>,
    pub disk_image: Option<Seq<char>>,
    pub flavor: Option<Seq<char>>,
    pub userdata_file: Option<Seq<char>>,
    pub network_interfaces: Seq<NetworkInterfaceView>,
}

/// What a [`LinkDefinition`] says.
#[verifier::ext_equal]
pub struct LinkView {
    pub friendly_name: Seq<char>,
    pub network_id: Seq<char>,
    pub link_type: Option<Seq<char>>,
    pub share_lan_name: Option<Seq<char>>,
    pub impairment: Seq<LinkImpairment>,
}

/// What a [`ResourceSpec`] says.
#[verifier::ext_equal]
pub struct ResourceSpecView {
    pub resources: Seq<ResourceView>,
    pub links: Seq<LinkView>,
}

impl View for NetworkInterface {
    type V = NetworkInterfaceView;

    open spec fn view(&self) -> NetworkInterfaceView {
        NetworkInterfaceView {
            port_id: crate::text::opt_text(self.port_id),
            network_id: self.network_id@,
            addresses: crate::text::texts(self.addresses@),
        }
    }
}

impl View for ResourceDefinition {
    type V = ResourceView;

    open spec fn view(&self) -> ResourceView {
        ResourceView {
            friendly_name: self.friendly_name@,
            site_id: crate::text::opt_text(self.site_id),
            disk_image: crate::text::opt_text(self.disk_image),
            flavor: crate::text::opt_text(self.flavor),
            userdata_file: crate::text::opt_text(self.userdata_file),
            network_interfaces: Seq::new(
                self.network_interfaces@.len(),
                |i: int| self.network_interfaces@[i]@,
            ),
        }
    }
}

impl View for LinkDefinition {
    type V = LinkView;

    open spec fn view(&self) -> LinkView {
        LinkView {
            friendly_name: self.friendly_name@,
            network_id: self.network_id@,
            link_type: crate::text::opt_text(self.link_type),
            share_lan_name: crate::text::opt_text(self.share_lan_name),
            impairment: self.impairment@,
        }
    }
}

impl View for ResourceSpec {
    type V = ResourceSpecView;

    open spec fn view(&self) -> ResourceSpecView {
        ResourceSpecView {
            resources: Seq::new(self.resources@.len(), |i: int| self.resources@[i]@),
            links: Seq::new(self.links@.len(), |i: int| self.links@[i]@),
        }
    }
}

/// The number of LANs that a cluster has: one at least.
pub open spec fn lan_count(vlans: nat) -> nat {
    if vlans == 0 {
        1
    } else {
        vlans
    }
}

/// The name of the LAN with a number.
pub open spec fn lan_name(number: nat) -> Seq<char> {
    "lan-"@ + crate::text::dec(number)
}

/// The interface of a host of a cluster in a LAN, both counted from zero.
pub open spec fn cluster_interface(host: nat, lan: nat) -> NetworkInterfaceView {
    NetworkInterfaceView {
        port_id: Some("eth"@ + crate::text::dec(lan + 1)),
        network_id: lan_name(lan + 1),
        addresses: seq![
            "192.168."@ + crate::text::dec(10 + lan) + "."@ + crate::text::dec(
                10 + host,
            ) + "/24"@,
        ],
    }
}

/// The request for a cluster: every host has an interface in every LAN.
pub open spec fn cluster(
    hosts: nat,
    vlans: nat,
    site_id: Option<Seq<char>>,
    image: Option<Seq<char>>,
    flavor: Option<Seq<char>>,
    cloud_init: Option<Seq<char>>,
    prefix: Seq<char>,
) -> ResourceSpecView {
    ResourceSpecView {
        resources: Seq::new(
            hosts,
            |h: int|
                ResourceView {
                    friendly_name: prefix + "node"@ + crate::text::dec((h + 1) as nat),
                    site_id,
                    disk_image: image,
                    flavor,
                    userdata_file: cloud_init,
                    network_interfaces: Seq::new(
                        lan_count(vlans),
                        |l: int| cluster_interface(h as nat, l as nat),
                    ),
                },
        ),
        links: Seq::new(
            lan_count(vlans),
            |l: int|
                LinkView {
                    friendly_name: lan_name((l + 1) as nat),
                    network_id: lan_name((l + 1) as nat),
                    link_type: Some("lan"@),
                    share_lan_name: None,
                    impairment: Seq::empty(),
                },
        ),
    }
}

fn lan_text(number: usize) -> (r: String)
    ensures
        r@ == lan_name(number as nat),
{
    "lan-".to_owned().concat(u128_text(number as u128).as_str())
}

fn make_interface(host: usize, lan: usize) -> (r: NetworkInterface)
    requires
        lan < 50,
    ensures
        r@ == cluster_interface(host as nat, lan as nat),
{
    let address = "192.168.".to_owned().concat(u128_text(10 + lan as u128).as_str()).concat(
        ".",
    ).concat(u128_text(10 + host as u128).as_str()).concat("/24");
    let mut addresses: Vec<String> = Vec::new();
    addresses.push(address);
    let r = NetworkInterface {
        port_id: Some("eth".to_owned().concat(u128_text(lan as u128 + 1).as_str())),
        network_id: lan_text(lan + 1),
        addresses,
    };
    assert(r@ =~~= cluster_interface(host as nat, lan as nat));
    r
}

impl ResourceSpecFactory {
    /// A cluster of hosts that share LANs.
    pub fn baremetal_cluster(
        hosts: usize,
        vlans: usize,
        site_id: Option<&str>,
        image: Option<&str>,
        flavor: Option<&str>,
        cloud_init: Option<&str>,
        prefix: Option<&str>,
    ) -> (r: Result<ResourceSpec, VirtualWallError>)
        requires
            hosts <= 0xfffffff6,
        ensures
            match r {
                Ok(spec) => vlans <= 50 && spec@ == cluster(
                    hosts as nat,
                    vlans as nat,
                    crate::text::opt_str(site_id),
                    crate::text::opt_str(image),
                    crate::text::opt_str(flavor),
                    crate::text::opt_str(cloud_init),
                    match prefix {
                        Some(p) => p@,
                        None => Seq::empty(),
                    },
                ),
                Err(VirtualWallError::Configuration(m)) => vlans > 50 && m@
                    == "Maximum VLANs is 50 (site may support less); requested "@
                    + crate::text::dec(vlans as nat),
                Err(_) => false,
            },
    {
        if vlans > 50 {
            return Err(
                VirtualWallError::Configuration(
                    "Maximum VLANs is 50 (site may support less); requested ".to_owned().concat(
                        u128_text(vlans as u128).as_str(),
                    ),
                ),
            );
        }
        let base = match prefix {
            Some(p) => p.to_owned(),
            None => String::new(),
        };
        let lans: usize = if vlans == 0 {
            1
        } else {
            vlans
        };
        let ghost expected = cluster(
            hosts as nat,
            vlans as nat,
            crate::text::opt_str(site_id),
            crate::text::opt_str(image),
            crate::text::opt_str(flavor),
            crate::text::opt_str(cloud_init),
            base@,
        );
        let mut resources: Vec<ResourceDefinition> = Vec::new();
        let mut h: usize = 0;
        while h < hosts
            invariant
                h <= hosts,
                hosts <= 0xfffffff6,
                vlans <= 50,
                lans == lan_count(vlans as nat),
                resources@.len() == h,
                expected == cluster(
                    hosts as nat,
                    vlans as nat,
                    crate::text::opt_str(site_id),
                    crate::text::opt_str(image),
                    crate::text::opt_str(flavor),
                    crate::text::opt_str(cloud_init),
                    base@,
                ),
                forall|i: int| 0 <= i < h ==> #[trigger] resources@[i]@ == expected.resources[i],
            decreases hosts - h,
        {
            let mut interfaces: Vec<NetworkInterface> = Vec::new();
            let mut l: usize = 0;
            while l < lans
                invariant
                    l <= lans,
                    lans <= 50,
                    h < hosts <= 0xfffffff6,
                    interfaces@.len() == l,
                    forall|i: int|
                        0 <= i < l ==> #[trigger] interfaces@[i]@ == cluster_interface(
                            h as nat,
                            i as nat,
                        ),
                decreases lans - l,
            {
                interfaces.push(make_interface(h, l));
                l += 1;
            }
            let definition = ResourceDefinition {
                friendly_name: base.clone().concat("node").concat(
                    u128_text(h as u128 + 1).as_str(),
                ),
                site_id: own(site_id),
                disk_image: own(image),
                flavor: own(flavor),
                userdata_file: own(cloud_init),
                network_interfaces: interfaces,
            };
            assert(definition@ =~= expected.resources[h as int]);
            resources.push(definition);
            h += 1;
        }
        let mut links: Vec<LinkDefinition> = Vec::new();
        let mut l: usize = 0;
        while l < lans
            invariant
                l <= lans,
                vlans <= 50,
                lans == lan_count(vlans as nat),
                links@.len() == l,
                expected == cluster(
                    hosts as nat,
                    vlans as nat,
                    crate::text::opt_str(site_id),
                    crate::text::opt_str(image),
                    crate::text::opt_str(flavor),
                    crate::text::opt_str(cloud_init),
                    base@,
                ),
                forall|i: int| 0 <= i < l ==> #[trigger] links@[i]@ == expected.links[i],
            decreases lans - l,
        {
            let link = LinkDefinition {
                friendly_name: lan_text(l + 1),
                network_id: lan_text(l + 1),
                link_type: Some("lan".to_owned()),
                share_lan_name: None,
                impairment: Vec::new(),
            };
            assert(link@ =~= expected.links[l as int]);
            links.push(link);
            l += 1;
        }
        let spec = ResourceSpec { resources, links };
        assert(spec@ =~= expected);
        Ok(spec)
    }
}

impl Clone for LinkImpairment {
    fn clone(&self) -> (r: Self)
        ensures
            r == *self,
    {
        LinkImpairment {
            source: match &self.source {
                Some(s) => Some(s.clone()),
                None => None,
            },
            destination: match &self.destination {
                Some(s) => Some(s.clone()),
                None => None,
            },
            capacity_kbit_per_s: self.capacity_kbit_per_s,
            packet_loss: match &self.packet_loss {
                Some(s) => Some(s.clone()),
                None => None,
            },
            latency_ms: self.latency_ms,
        }
    }
}

/// A copy of impairments.
pub fn copy_impairments(list: &Vec<LinkImpairment>) -> (r: Vec<LinkImpairment>)
    ensures
        r@ == list@,
{
    let mut out: Vec<LinkImpairment> = Vec::new();
    let mut i: usize = 0;
    while i < list.len()
        invariant
            i <= list.len(),
            out@ == list@.take(i as int),
        decreases list.len() - i,
    {
        out.push(list[i].clone());
        assert(list@.take(i + 1) =~= list@.take(i as int).push(list@[i as int]));
        i += 1;
    }
    assert(list@.take(i as int) =~= list@);
    out
}

/// A cluster has as many hosts as it is asked for, numbered from one on and made as it is asked
/// for, and each of them is on every network; there is one network at least.
pub proof fn every_host_is_on_every_network(
    hosts: nat,
    vlans: nat,
    site_id: Option<Seq<char>>,
    image: Option<Seq<char>>,
    flavor: Option<Seq<char>>,
    cloud_init: Option<Seq<char>>,
    prefix: Seq<char>,
    h: int,
    l: int,
)
    requires
        0 <= h < hosts,
        0 <= l < cluster(hosts, vlans, site_id, image, flavor, cloud_init, prefix).links.len(),
    ensures
        ({
            let c = cluster(hosts, vlans, site_id, image, flavor, cloud_init, prefix);
            let host = c.resources[h];
            &&& c.resources.len() == hosts
            &&& c.links.len() == if vlans == 0 { 1 } else { vlans }
            &&& host.friendly_name == prefix + "node"@ + crate::text::dec((h + 1) as nat)
            &&& host.site_id == site_id
            &&& host.disk_image == image
            &&& host.flavor == flavor
            &&& host.userdata_file == cloud_init
            &&& host.network_interfaces.len() == c.links.len()
            &&& host.network_interfaces[l].network_id == c.links[l].network_id
            &&& c.links[l].network_id == "lan-"@ + crate::text::dec((l + 1) as nat)
            &&& host.network_interfaces[l].port_id == Some(
                "eth"@ + crate::text::dec((l + 1) as nat),
            )
            &&& host.network_interfaces[l].addresses == seq![
                "192.168."@ + crate::text::dec((10 + l) as nat) + "."@ + crate::text::dec(
                    (10 + h) as nat,
                ) + "/24"@,
            ]
        }),
{
}

/// Two hosts have different addresses on the same network.
pub proof fn hosts_have_their_own_addresses(g: nat, h: nat, lan: nat)
    requires
        g != h,
    ensures
        cluster_interface(g, lan).addresses[0] != cluster_interface(h, lan).addresses[0],
{
    let head = "192.168."@ + crate::text::dec(10 + lan) + "."@;
    crate::numerals::reading_a_numeral(10 + g);
    crate::numerals::reading_a_numeral(10 + h);
    if cluster_interface(g, lan).addresses[0] == cluster_interface(h, lan).addresses[0] {
        crate::text::middles_are_determined(
            head,
            crate::text::dec(10 + g),
            crate::text::dec(10 + h),
            "/24"@,
        );
    }
}

} // verus!
