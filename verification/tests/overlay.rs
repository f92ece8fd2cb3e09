//! Overlays: plans, scripts and checks.

use multipath_xr::big_virtual_wall::apply::{apply_overlay, clean_overlay};
use multipath_xr::big_virtual_wall::generator::{
    generate_host_cleanup_scripts, generate_host_runtime_scripts, generate_host_scripts,
};
use multipath_xr::big_virtual_wall::inventory::{discover_hosts, underlay_map, ResourceStatus};
use multipath_xr::big_virtual_wall::overlay::{
    Endpoint, HostPool, Impairment, NodeInterface, OverlayHost, OverlayLink, OverlayNode,
    OverlaySpec, OverlayTunnel, VirtualPool, VlanPool,
};
use multipath_xr::big_virtual_wall::planner::{plan_overlay, plan_overlay_with_underlay};
use multipath_xr::big_virtual_wall::safety::validate_safety;
use multipath_xr::quoting::{escape_single_quotes, quote};
use multipath_xr::string_map::StringMap;
use std::collections::HashMap;

fn host(name: &str, underlay: &str) -> OverlayHost {
    OverlayHost {
        name: name.to_string(),
        mgmt_addr: None,
        underlay: Some(underlay.to_string()),
        bridge: "br0".to_string(),
    }
}

fn node(name: &str, host: &str) -> OverlayNode {
    OverlayNode {
        name: name.to_string(),
        host: host.to_string(),
        interfaces: vec![NodeInterface { name: "eth0".to_string(), mtu: None }],
    }
}

fn end(node: &str) -> Endpoint {
    Endpoint { node: node.to_string(), intf: "eth0".to_string() }
}

fn spec() -> OverlaySpec {
    OverlaySpec {
        hosts: vec![host("h1", "10.0.0.1"), host("h2", "10.0.0.2")],
        nodes: vec![node("v1", "h1"), node("v2", "h2")],
        links: vec![OverlayLink {
            src: end("v1"),
            dst: end("v2"),
            impairment: Some(Impairment {
                latency_ms: Some(5),
                loss_pct: Some("1.5".to_string()),
                rate_mbps: Some(10),
            }),
            vlan_id: None,
        }],
        tunnels: vec![],
        host_pool: None,
        virtual_pool: None,
        vlan_pool: None,
        vlan_bindings: None,
        vlan_start: 100,
    }
}

#[test]
fn links_between_hosts_are_carried_by_tunnels() {
    let plan = plan_overlay(&spec());
    assert_eq!(plan.host_plans.len(), 2);
    let first = &plan.host_plans[0];
    assert_eq!(first.host, "h1");
    assert_eq!(first.vxlan_devices.len(), 1);
    assert_eq!(first.vxlan_devices[0].peer, "h2");
    assert_eq!(first.vxlan_devices[0].local_underlay, "10.0.0.1");
    assert_eq!(first.vxlan_devices[0].remote_underlay, "10.0.0.2");
    assert_eq!(first.vlan_links[0].vlan_id, 100);
    assert_eq!(plan.host_plans[1].vlan_links[0].vlan_id, 100);
}

#[test]
fn known_underlays_stand_in_for_missing_ones() {
    let mut s = spec();
    s.hosts[0].underlay = None;
    let mut underlay: StringMap<String> = StringMap::new();
    underlay.insert("h1".to_string(), "172.16.0.1".to_string());
    let plan = plan_overlay_with_underlay(&s, &underlay);
    assert_eq!(plan.host_plans[0].vxlan_devices[0].local_underlay, "172.16.0.1");
}

#[test]
fn every_host_has_its_scripts() {
    let s = spec();
    let plan = plan_overlay(&s);
    let setup = generate_host_scripts(&plan, None);
    let runtime = generate_host_runtime_scripts(&plan, &s);
    let cleanup = generate_host_cleanup_scripts(&plan);
    assert_eq!((setup.len(), runtime.len(), cleanup.len()), (2, 2, 2));
    assert_eq!(setup[0].0, "h1");
    assert!(setup[0].1.contains("10.0.0.2"));
    assert!(runtime[0].1.contains("ns-v1"));
    assert!(!runtime[0].1.contains("ns-v2"));
}

#[test]
fn unknown_names_are_reported() {
    let mut s = spec();
    s.nodes[0].host = "h9".to_string();
    assert_eq!(s.missing().missing_hosts, vec!["h9"]);
    assert!(s.validate().is_err());
    assert!(spec().validate().is_ok());
    s.links[0].dst = end("v9");
    assert_eq!(s.missing().missing_nodes, vec!["v9"]);
}

#[test]
fn pools_are_expanded() {
    let mut s = spec();
    s.hosts.clear();
    s.nodes.clear();
    s.links.clear();
    s.host_pool = Some(HostPool { count: Some(2), prefix: "host".to_string() });
    s.virtual_pool =
        Some(VirtualPool { per_host: Some(2), prefix: "v".to_string(), start_index: 1 });
    s.expand_dynamic().unwrap();
    assert_eq!(s.hosts.len(), 2);
    assert_eq!(s.nodes.len(), 4);
    assert!(s.validate().is_ok());
}

#[test]
fn overlays_are_applied_and_cleaned_by_commands() {
    let s = spec();
    let underlay: StringMap<String> = StringMap::new();
    assert!(validate_safety(&s, &underlay, true).is_ok());
    let commands = apply_overlay(&s, &underlay, true).unwrap();
    assert!(commands.iter().any(|c| c.host == "h1"));
    assert!(commands.iter().any(|c| c.host == "h2"));
    let cleaning = clean_overlay(&s, &underlay, true).unwrap();
    assert!(!cleaning.is_empty());
}

#[test]
fn hosts_are_discovered_with_their_underlays() {
    let status = |name: Option<&str>, hostname: Option<&str>, address: Option<&str>| {
        ResourceStatus {
            name: name.map(|s| s.to_string()),
            hostname: hostname.map(|s| s.to_string()),
            address: address.map(|s| s.to_string()),
        }
    };
    let hosts = discover_hosts(&vec![
        status(Some("a"), Some("a.example"), Some("10.0.0.1")),
        status(Some("b"), None, Some("10.0.0.2")),
        status(Some("c"), None, None),
        status(None, Some("d.example"), None),
    ]);
    assert_eq!(hosts.len(), 2);
    let map = underlay_map(&hosts);
    assert_eq!(map.get("a").unwrap(), "a.example");
    assert_eq!(map.get("b").unwrap(), "10.0.0.2");
}

#[test]
fn quoted_words_keep_their_quotes() {
    assert_eq!(quote("it's"), "'it'\"'\"'s'");
    assert_eq!(escape_single_quotes("plain"), "plain");
    assert_eq!(shell_words::split(&quote("a 'b' \"c\" $d")).unwrap(), vec!["a 'b' \"c\" $d"]);
}

#[test]
fn tunnels_serve_both_directions() {
    let mut s = spec();
    s.tunnels = vec![OverlayTunnel {
        local_host: "h2".to_string(),
        remote_host: "h1".to_string(),
        local_underlay: "192.0.2.2".to_string(),
        remote_underlay: "192.0.2.1".to_string(),
        vni: 7,
        dev: "vx".to_string(),
    }];
    let plan = plan_overlay(&s);
    for (own, host, peer, local, remote) in [
        (0, "h1", "h2", "192.0.2.1", "192.0.2.2"),
        (1, "h2", "h1", "192.0.2.2", "192.0.2.1"),
    ] {
        let p = &plan.host_plans[own];
        let d = &p.vxlan_devices[0];
        assert_eq!((p.host.as_str(), d.peer.as_str()), (host, peer));
        assert_eq!((d.name.as_str(), d.vni), ("vx", 7));
        assert_eq!((d.local_underlay.as_str(), d.remote_underlay.as_str()), (local, remote));
    }
}

fn with_subnet(subnet: &str) -> String {
    let mut s = spec();
    let mut subnets = HashMap::new();
    subnets.insert(100, subnet.to_string());
    s.vlan_pool = Some(VlanPool { start: 100, count: None, subnets });
    let scripts = generate_host_runtime_scripts(&plan_overlay(&s), &s);
    scripts.iter().map(|(_, script)| script.as_str()).collect::<Vec<_>>().join("\n")
}

#[test]
fn given_subnets_are_used_whatever_their_length() {
    let class = with_subnet("10.9.8.0/24");
    assert!(class.contains("10.9.8.1/24") && class.contains("10.9.8.2/24"));
    assert!(class.contains("10.9.8.254"));
    let part = with_subnet("10.9.8.64/28");
    assert!(part.contains("10.9.8.65/28") && part.contains("10.9.8.66/28"));
    let pair = with_subnet("10.9.8.6/31");
    assert!(pair.contains("10.9.8.6/31") && pair.contains("10.9.8.7/31"));
    for other in [with_subnet("10.9.8.1/32"), with_subnet("somewhere")] {
        assert!(other.contains("192.168.150.1/30") && other.contains("192.168.150.2/30"));
    }
}

#[test]
fn declared_interfaces_keep_the_address_of_their_link() {
    let mut s = spec();
    s.vlan_start = 450;
    s.nodes[1].interfaces[0].mtu = Some(9000);
    let scripts = generate_host_runtime_scripts(&plan_overlay(&s), &s);
    let second = &scripts[1].1;
    assert!(second.contains("9000"));
    assert!(second.contains("192.168.100.2/30"));
}
