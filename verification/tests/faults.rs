//! What is refused, and with which words.

use multipath_xr::big_virtual_wall::overlay::{
    Endpoint, OverlayHost, OverlayLink, OverlayNode, OverlaySpec, VlanPool,
};
use multipath_xr::big_virtual_wall::safety::validate_safety;
use multipath_xr::sorted_map::SortedMap;
use multipath_xr::string_map::StringMap;
use multipath_xr::surroundings::Surroundings;
use multipath_xr::virtual_wall::allocator::Ipv4Allocator;
use multipath_xr::virtual_wall::manager::VirtualWallManager;
use multipath_xr::virtual_wall::resource_spec::ResourceSpecFactory;
use multipath_xr::virtual_wall::slices::SlicesClient;
use multipath_xr::virtual_wall::topology::{
    generate, FabricSpec, NodeSpec, PortIdScheme, RoleSpec, TopologySpec,
};
use multipath_xr::virtual_wall_lite::config::{VirtualWallConfig, VirtualWallConfigFile};
use multipath_xr::virtual_wall_lite::manager::early_exit_error;
use multipath_xr::virtual_wall_lite::rspec::RspecTopology;
use multipath_xr::virtual_wall_lite::ssh::{check_tunnel, process_result, ProcessOutcome};
use multipath_xr::virtual_wall_lite::tunnels::TunnelEndpoint;
use std::collections::HashMap;

fn fabric(name: &str, subnet: Option<&str>) -> FabricSpec {
    FabricSpec {
        name: name.to_string(),
        network_id: None,
        link_type: "lan".to_string(),
        share_lan_name: None,
        ipv4_subnet: subnet.map(|s| s.to_string()),
        host_start: 10,
        impairment: vec![],
        order: None,
    }
}

fn node(name: &str, fabrics: &[&str]) -> NodeSpec {
    NodeSpec {
        name: name.to_string(),
        role: "server".to_string(),
        fabrics: fabrics.iter().map(|s| s.to_string()).collect(),
        addresses: SortedMap::new(),
        site_id: None,
        image: None,
        flavor: None,
        cloud_init: None,
    }
}

fn topology(fabrics: Vec<FabricSpec>, nodes: Vec<NodeSpec>) -> TopologySpec {
    TopologySpec {
        site_id: None,
        image: None,
        flavor: None,
        cloud_init: None,
        resource_prefix: Some("vw-".to_string()),
        port_id_scheme: PortIdScheme { prefix: "if".to_string(), start_index: 0 },
        max_experiment_nics_per_node: 2,
        fabrics,
        roles: vec![RoleSpec { name: "server".to_string(), fabrics: vec!["A".to_string()] }],
        nodes,
        hierarchy: None,
    }
}

fn fault(t: &TopologySpec) -> String {
    let message = generate(t).map(|_| ()).unwrap_err().message();
    message.strip_prefix("configuration error: ").unwrap().to_string()
}

#[test]
fn topologies_need_fabrics_and_nodes() {
    assert_eq!(
        fault(&topology(vec![], vec![node("n", &[])])),
        "TopologySpec requires at least one fabric"
    );
    assert_eq!(
        fault(&topology(vec![fabric("A", None)], vec![])),
        "TopologySpec requires at least one node"
    );
}

#[test]
fn names_stand_once_in_a_topology() {
    let a = || fabric("A", None);
    assert_eq!(
        fault(&topology(vec![a(), a()], vec![node("n", &[])])),
        "Duplicate fabric name 'A'"
    );
    assert_eq!(
        fault(&topology(vec![a()], vec![node("n", &[]), node("n", &[])])),
        "Duplicate node name 'n'"
    );
    let mut t = topology(vec![a()], vec![node("n", &[])]);
    t.roles.push(RoleSpec { name: "server".to_string(), fabrics: vec![] });
    assert_eq!(fault(&t), "Duplicate role name 'server'");
}

#[test]
fn roles_and_fabrics_are_declared() {
    let a = || fabric("A", None);
    let mut t = topology(vec![a()], vec![node("n", &[])]);
    t.nodes[0].role = "client".to_string();
    assert_eq!(
        fault(&t),
        "Node 'n' references unknown role 'client', and provides no explicit fabrics"
    );
    assert_eq!(
        fault(&topology(vec![a()], vec![node("n", &["Z", "Y", "A"])])),
        "Node 'n' references unknown fabric 'Y'"
    );
}

#[test]
fn nodes_have_as_many_ports_as_they_may() {
    let fabrics = || vec![fabric("A", None), fabric("B", None), fabric("C", None)];
    assert!(generate(&topology(fabrics(), vec![node("n", &["A", "B"])])).is_ok());
    assert!(generate(&topology(fabrics(), vec![node("n", &["A", "B", "A"])])).is_ok());
    assert_eq!(
        fault(&topology(fabrics(), vec![node("n", &["A", "B", "C"])])),
        "Node 'n' attaches to 3 experiment fabrics, exceeding max_experiment_nics_per_node=2"
    );
}

#[test]
fn resources_are_not_blank() {
    let t = || topology(vec![fabric("A", None)], vec![node("n", &[])]);
    let mut blank = t();
    blank.site_id = Some(" ".to_string());
    assert_eq!(
        fault(&blank),
        "TopologySpec generated resource 'vw-n' without infra_id/site_id; set `site_id` on topology or node"
    );
    let mut blank = t();
    blank.image = Some(String::new());
    assert_eq!(
        fault(&blank),
        "TopologySpec generated resource 'vw-n' without disk_image; set `image` on topology or node"
    );
    let mut blank = t();
    blank.flavor = Some(String::new());
    assert_eq!(
        fault(&blank),
        "TopologySpec generated resource 'vw-n' without flavor; set `flavor` on topology or node"
    );
    blank.nodes[0].flavor = Some("large".to_string());
    assert!(generate(&blank).is_ok());
}

#[test]
fn subnets_have_room() {
    let with = |subnet: &str| topology(vec![fabric("A", Some(subnet))], vec![node("n", &[])]);
    assert_eq!(fault(&with("10.0.0.0")), "Invalid CIDR '10.0.0.0'");
    assert_eq!(fault(&with("10.0.0.0/x")), "Invalid CIDR prefix in '10.0.0.0/x'");
    assert_eq!(fault(&with("10.0.0.256/24")), "Invalid IPv4 address in '10.0.0.256/24'");
    assert_eq!(
        fault(&with("10.0.0.0/31")),
        "IPv4 subnet '10.0.0.0/31' is too small for host allocation (prefix 31); use <= /30"
    );
    assert_eq!(
        fault(&with("10.0.0.0/30")),
        "IPv4 subnet '10.0.0.0/30' host_start=10 leaves no usable addresses"
    );
    assert!(Ipv4Allocator::new("0.0.0.0/0", 0).is_err());
    let nodes = (0..6).map(|i| node(&format!("n{i}"), &[])).collect();
    assert_eq!(
        fault(&topology(vec![fabric("A", Some("10.0.0.0/28"))], nodes)),
        "IPv4 subnet allocation exhausted (prefix /28); host_start=10, ordinal=5"
    );
}

#[test]
fn nodes_may_be_declared_in_any_order() {
    let fabrics = || vec![fabric("A", Some("10.1.0.0/24"))];
    let one = generate(&topology(fabrics(), vec![node("a", &[]), node("b", &[])])).unwrap();
    let other = generate(&topology(fabrics(), vec![node("b", &[]), node("a", &[])])).unwrap();
    for g in [one, other] {
        assert_eq!(g.spec.resources[0].friendly_name, "vw-a");
        assert_eq!(g.spec.resources[0].network_interfaces[0].addresses, ["10.1.0.10/24"]);
        assert_eq!(g.spec.resources[1].friendly_name, "vw-b");
        assert_eq!(g.spec.resources[1].network_interfaces[0].addresses, ["10.1.0.11/24"]);
    }
}

fn overlay(links: usize) -> OverlaySpec {
    let end = |n: &str| Endpoint { node: n.to_string(), intf: "eth0".to_string() };
    let place = |n: &str, h: &str| OverlayNode {
        name: n.to_string(),
        host: h.to_string(),
        interfaces: vec![],
    };
    OverlaySpec {
        hosts: vec![OverlayHost {
            name: "h1".to_string(),
            mgmt_addr: None,
            underlay: Some("10.0.0.1".to_string()),
            bridge: "br0".to_string(),
        }],
        nodes: vec![place("v1", "h1"), place("v2", "h1")],
        links: (0..links)
            .map(|_| OverlayLink {
                src: end("v1"),
                dst: end("v2"),
                impairment: None,
                vlan_id: None,
            })
            .collect(),
        tunnels: vec![],
        host_pool: None,
        virtual_pool: None,
        vlan_pool: None,
        vlan_bindings: None,
        vlan_start: 100,
    }
}

#[test]
fn overlays_are_checked_before_they_are_applied() {
    let none: StringMap<String> = StringMap::new();
    let fault = |s: &OverlaySpec| validate_safety(s, &none, false).unwrap_err().message();
    assert!(validate_safety(&overlay(2), &none, false).is_ok());

    let mut s = overlay(2);
    s.hosts[0].underlay = None;
    assert_eq!(
        fault(&s),
        "configuration error: Host h1 missing underlay interface/ip for VXLAN binding"
    );
    s.hosts[0].underlay = Some("10.2.64.1".to_string());
    assert_eq!(
        fault(&s),
        "configuration error: Host h1 underlay 10.2.64.1 looks like a management address; refuse to bind VXLAN there (set BIGVW_ALLOW_MGMT_UNDERLAY=1 to override)"
    );
    assert!(validate_safety(&s, &none, true).is_ok());

    let mut s = overlay(2);
    s.vlan_start = 4093;
    assert_eq!(
        fault(&s),
        "configuration error: VLAN range exceeded (start=4093 + 2 links > 4094)"
    );
    s.vlan_start = 4092;
    assert!(validate_safety(&s, &none, false).is_ok());
    s.vlan_pool = Some(VlanPool { start: 7, count: Some(1), subnets: HashMap::new() });
    assert_eq!(
        fault(&s),
        "configuration error: VLAN pool too small: 2 links exceed pool count 1"
    );
    assert_eq!(
        s.expand_dynamic().unwrap_err().message(),
        "configuration error: VLAN pool too small: 2 links requested but pool count is 1"
    );
    assert_eq!(s.vlan_start, 7);

    let mut s = overlay(1);
    s.nodes[0].host = "h\"9".to_string();
    s.links[0].dst.node = "v9".to_string();
    assert_eq!(
        s.validate().unwrap_err().message(),
        "configuration error: Overlay validation failed: missing_hosts=[\"h\\\"9\"] missing_nodes=[\"v9\"]"
    );
}

#[test]
fn clusters_have_a_limited_number_of_lans() {
    let e = ResourceSpecFactory::baremetal_cluster(1, 51, None, None, None, None, None);
    assert!(e
        .unwrap_err()
        .message()
        .ends_with("Maximum VLANs is 50 (site may support less); requested 51"));
    assert!(ResourceSpecFactory::baremetal_cluster(1, 50, None, None, None, None, None).is_ok());
}

#[test]
fn arguments_of_commands_are_not_blank() {
    let client = SlicesClient::new("slices".to_string());
    let refused = |r: Result<Vec<String>, _>| {
        let e: multipath_xr::virtual_wall::error::VirtualWallError = r.unwrap_err();
        e.message()
    };
    assert_eq!(
        refused(client.bi_extend("r1", " ")),
        "configuration error: duration must be non-empty"
    );
    assert_eq!(refused(client.bi_scp("a", "")), "configuration error: src/dst must be non-empty");
    let names = vec!["r1".to_string()];
    assert_eq!(
        client.bi_destroy(" ", &names).unwrap_err().message(),
        "configuration error: experiment must be non-empty"
    );
    assert_eq!(client.bi_destroy("exp", &vec![]).unwrap(), None);
    assert!(VirtualWallManager::extend_all(" ")
        .unwrap_err()
        .message()
        .ends_with("duration must be non-empty"));
    assert!(VirtualWallManager::exec_timeout(60)
        .message()
        .ends_with("Command timed out after 60s"));
    assert!(VirtualWallManager::exec_timeout(0)
        .message()
        .ends_with("Command timed out after 0ns"));
    assert!(VirtualWallManager::experiment_not_found("exp")
        .message()
        .ends_with("Experiment `exp` not found"));
}

#[test]
fn manifests_name_their_nodes_and_links() {
    let message = |xml: &str| RspecTopology::parse_str(xml).unwrap_err().message();
    assert_eq!(message("<rspec><node></node></rspec>"), "rspec parse error: node missing client_id");
    assert_eq!(message("<rspec><link></link></rspec>"), "rspec parse error: link missing client_id");
    assert!(message("<rspec><a></b></rspec>").starts_with("rspec parse error: XML parse error: "));
}

#[test]
fn tunnels_have_two_ends() {
    let end = |host: &str, port: u16| TunnelEndpoint { host: host.to_string(), port };
    assert!(check_tunnel(&end("a", 1), &end("b", 2)).is_ok());
    assert_eq!(
        check_tunnel(&end("a", 0), &end(" ", 2)).unwrap_err().message(),
        "state error: Tunnel ports must be non-zero"
    );
    assert_eq!(
        check_tunnel(&end("a", 1), &end(" ", 2)).unwrap_err().message(),
        "state error: Tunnel host must be non-empty"
    );
    assert!(early_exit_error(Some(255), "gone")
        .message()
        .ends_with("ssh tunnel exited immediately (code=255): gone"));
}

#[test]
fn processes_fail_or_take_too_long() {
    let exited = |success: bool, code: Option<i32>| ProcessOutcome::Exited {
        success,
        code,
        stdout: " out ".to_string(),
        stderr: " err ".to_string(),
    };
    assert_eq!(process_result(&exited(true, Some(0)), "ssh exec", 9).unwrap(), "out");
    assert_eq!(
        process_result(&exited(false, Some(3)), "ssh exec", 9).unwrap_err().message(),
        "ssh command failed with status 3: err"
    );
    assert_eq!(
        process_result(&exited(false, None), "ssh exec", 9).unwrap_err().message(),
        "ssh command failed with status -1: err"
    );
    assert_eq!(
        process_result(&ProcessOutcome::TimedOut, "ssh exec", 9).unwrap_err().message(),
        "timeout after 9s: ssh exec"
    );
}

#[test]
fn experiments_need_a_manifest() {
    let s = Surroundings {
        env: StringMap::new(),
        cwd: Some("/work".to_string()),
        home: None,
        config_dir: None,
        found_binary: Some("/usr/bin/ssh".to_string()),
        existing: vec![],
    };
    let file = |rspec_path: Option<String>| VirtualWallConfigFile {
        rspec_path,
        state_json: None,
        ssh_binary: None,
        ssh_username: None,
        ssh_private_key: None,
        ssh_proxy_private_key: None,
        ssh_forward_agent: None,
        ssh_forward_x11: None,
        ssh_server_alive_interval_seconds: None,
        state_dir: None,
        use_jump_proxy: None,
        jump_proxy: None,
        known_hosts: None,
        host_key_checking: None,
        connect_timeout_seconds: None,
        command_timeout_seconds: None,
        ping_timeout_seconds: None,
    };
    assert_eq!(
        VirtualWallConfig::resolve(&file(None), &s).unwrap_err().message(),
        "configuration error: Missing `rspec_path` (set in config or VIRTUAL_WALL_RSPEC)"
    );
    assert_eq!(
        VirtualWallConfig::resolve(&file(Some("a.rspec".to_string())), &s).unwrap_err().message(),
        "configuration error: RSpec file does not exist: /work/a.rspec"
    );
    assert_eq!(
        VirtualWallConfig::load(&vec![], &s).unwrap_err().message(),
        "configuration error: No valid config file found in candidates or VIRTUAL_WALL_CONFIG"
    );
}

#[test]
fn declarations_may_come_in_any_order() {
    let client = |fabrics: &[&str]| RoleSpec {
        name: "client".to_string(),
        fabrics: fabrics.iter().map(|s| s.to_string()).collect(),
    };
    let a = || fabric("A", Some("10.1.0.0/24"));
    let b = || fabric("B", Some("10.2.0.0/24"));
    let c = |n: &str| NodeSpec { role: "client".to_string(), ..node(n, &[]) };
    let mut one = topology(vec![a(), b()], vec![c("x"), node("y", &["A", "B"])]);
    one.roles.push(client(&["A", "B"]));
    let mut other = topology(vec![b(), a()], vec![node("y", &["B", "A"]), c("x")]);
    other.roles.insert(0, client(&["B", "A"]));
    for g in [generate(&one).unwrap(), generate(&other).unwrap()] {
        let names: Vec<&str> = g.state.fabrics.iter().map(|f| f.name.as_str()).collect();
        assert_eq!(names, ["A", "B"]);
        for (i, host) in [(0, "10"), (1, "11")] {
            let ports = &g.spec.resources[i].network_interfaces;
            assert_eq!(ports.len(), 2);
            assert_eq!(ports[0].addresses, [format!("10.1.0.{host}/24")]);
            assert_eq!(ports[1].addresses, [format!("10.2.0.{host}/24")]);
        }
        assert_eq!(g.spec.resources[0].friendly_name, "vw-x");
    }
}
