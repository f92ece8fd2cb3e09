//! The Virtual Walls: manifests, topologies, command lines and state.

use std::collections::hash_map::DefaultHasher;
use std::collections::BTreeMap;
use std::hash::{Hash, Hasher};

use multipath_xr::sorted_map::SortedMap;
use multipath_xr::start_options::StartOptions;
use multipath_xr::string_map::StringMap;
use multipath_xr::virtual_wall_lite::start_options::StartOptions as LiteOptions;
use multipath_xr::surroundings::Surroundings;
use multipath_xr::virtual_wall;
use multipath_xr::virtual_wall::allocator::Ipv4Allocator;
use multipath_xr::virtual_wall::manager::{destroy_batches, lan_links, WaitStep};
use multipath_xr::virtual_wall::slices::{
    BiNetworkInterface, ResourceDetail, ResourceSummary, SlicesClient,
};
use multipath_xr::virtual_wall::state::{ResourceRecord, StateStore};
use multipath_xr::virtual_wall::topology::{
    generate, FabricSpec, NodeSpec, PortIdScheme, RoleSpec, TopologySpec,
};
use multipath_xr::virtual_wall_lite;
use multipath_xr::virtual_wall_lite::config::{HostKeyChecking, JumpProxy};
use multipath_xr::virtual_wall_lite::registry::TunnelRegistry;
use multipath_xr::virtual_wall_lite::rspec::RspecTopology;
use multipath_xr::virtual_wall_lite::ssh::{
    ensure_control_master, ControlMasterPurpose, LocalIdentities, MasterAction, ProcessOutcome,
    SpawnedTunnel, SshOptions, SshTarget,
};
use multipath_xr::virtual_wall_lite::tunnels::{
    TunnelDirection, TunnelEndpoint, TunnelInfo, TunnelRequest,
};

type InterfaceInventoryEntry = (&'static str, &'static str, &'static [&'static str]);
type NodeInterfaceInventory = (&'static str, &'static [InterfaceInventoryEntry]);

const EXPECTED_INTERFACE_INVENTORY: &[NodeInterfaceInventory] = &[
    ("core-a", &[("core-a:if0", "eth3", &["192.168.10.11"]), ("core-a:if1", "eth2", &["192.168.110.11"]), ("core-a:if2", "eth1", &["192.168.20.10"]), ("core-a:if3", "eth0", &["192.168.120.10"])]),
    ("core-b", &[("core-b:if0", "eth1", &["192.168.10.12"]), ("core-b:if1", "eth3", &["192.168.110.12"]), ("core-b:if2", "eth0", &["192.168.21.10"]), ("core-b:if3", "eth2", &["192.168.121.10"])]),
    ("core-c", &[("core-c:if0", "eth6", &["192.168.10.13"]), ("core-c:if1", "eth3", &["192.168.110.13"]), ("core-c:if2", "eth7", &["192.168.22.10"]), ("core-c:if3", "eth2", &["192.168.122.10"])]),
    ("edge-a1-1", &[("edge-a1-1:if0", "eth3", &["192.168.30.11"]), ("edge-a1-1:if1", "eth2", &["192.168.130.11"])]),
    ("edge-a1-2", &[("edge-a1-2:if0", "eth3", &["192.168.30.12"]), ("edge-a1-2:if1", "eth6", &["192.168.130.12"])]),
    ("edge-a2-1", &[("edge-a2-1:if0", "eth3", &["192.168.31.11"]), ("edge-a2-1:if1", "eth2", &["192.168.131.11"])]),
    ("edge-a2-2", &[("edge-a2-2:if0", "eth1", &["192.168.31.12"]), ("edge-a2-2:if1", "eth0", &["192.168.131.12"])]),
    ("edge-b1-1", &[("edge-b1-1:if0", "eth0", &["192.168.32.11"]), ("edge-b1-1:if1", "eth3", &["192.168.132.11"])]),
    ("edge-b1-2", &[("edge-b1-2:if0", "eth1", &["192.168.32.12"]), ("edge-b1-2:if1", "eth3", &["192.168.132.12"])]),
    ("edge-b2-1", &[("edge-b2-1:if0", "eth3", &["192.168.33.11"]), ("edge-b2-1:if1", "eth2", &["192.168.133.11"])]),
    ("edge-b2-2", &[("edge-b2-2:if0", "eth3", &["192.168.33.12"]), ("edge-b2-2:if1", "eth2", &["192.168.133.12"])]),
    ("edge-c2-1", &[("edge-c2-1:if0", "eth6", &["192.168.35.11"]), ("edge-c2-1:if1", "eth3", &["192.168.135.11"])]),
    ("regional-a1", &[("regional-a1:if0", "eth3", &["192.168.20.11"]), ("regional-a1:if1", "eth2", &["192.168.120.11"]), ("regional-a1:if2", "eth1", &["192.168.30.10"]), ("regional-a1:if3", "eth0", &["192.168.130.10"])]),
    ("regional-a2", &[("regional-a2:if0", "eth3", &["192.168.20.12"]), ("regional-a2:if1", "eth2", &["192.168.120.12"]), ("regional-a2:if2", "eth1", &["192.168.31.10"]), ("regional-a2:if3", "eth0", &["192.168.131.10"])]),
    ("regional-b1", &[("regional-b1:if0", "eth0", &["192.168.21.11"]), ("regional-b1:if1", "eth1", &["192.168.121.11"]), ("regional-b1:if2", "eth5", &["192.168.32.10"]), ("regional-b1:if3", "eth2", &["192.168.132.10"])]),
    ("regional-b2", &[("regional-b2:if0", "eth3", &["192.168.21.12"]), ("regional-b2:if1", "eth2", &["192.168.121.12"]), ("regional-b2:if2", "eth1", &["192.168.33.10"]), ("regional-b2:if3", "eth0", &["192.168.133.10"])]),
    ("regional-c1", &[("regional-c1:if0", "eth2", &["192.168.22.11"]), ("regional-c1:if1", "eth1", &["192.168.122.11"])]),
    ("regional-c2", &[("regional-c2:if0", "eth3", &["192.168.22.12"]), ("regional-c2:if1", "eth6", &["192.168.122.12"]), ("regional-c2:if2", "eth7", &["192.168.35.10"]), ("regional-c2:if3", "eth2", &["192.168.135.10"])]),
    ("server", &[("server:if0", "eth1", &["192.168.10.10"]), ("server:if1", "eth3", &["192.168.110.10"])]),
];

fn actual_inventory(topology: &RspecTopology) -> BTreeMap<String, Vec<(String, String, Vec<String>)>> {
    topology
        .nodes
        .iter()
        .map(|node| {
            let mut interfaces = node
                .interfaces
                .iter()
                .map(|interface| {
                    let mut ips =
                        interface.ips.iter().map(|ip| ip.address.clone()).collect::<Vec<_>>();
                    ips.sort();
                    (
                        interface.client_id.clone(),
                        interface.manifest_device_name().unwrap_or_default().to_string(),
                        ips,
                    )
                })
                .collect::<Vec<_>>();
            interfaces.sort();
            (node.client_id.clone(), interfaces)
        })
        .collect()
}

fn expected_inventory() -> BTreeMap<String, Vec<(String, String, Vec<String>)>> {
    EXPECTED_INTERFACE_INVENTORY
        .iter()
        .map(|(node_id, interfaces)| {
            let mut rows = interfaces
                .iter()
                .map(|(client_id, device, ips)| {
                    (
                        (*client_id).to_string(),
                        (*device).to_string(),
                        ips.iter().map(|ip| (*ip).to_string()).collect::<Vec<_>>(),
                    )
                })
                .collect::<Vec<_>>();
            rows.sort();
            ((*node_id).to_string(), rows)
        })
        .collect()
}

/// A manifest of the nodes and interfaces of the inventory.
fn manifest() -> String {
    let mut xml = String::from(
        "<?xml version=\"1.0\"?>\n<rspec xmlns=\"http://www.geni.net/resources/rspec/3\" type=\"manifest\">\n",
    );
    for (node_id, interfaces) in EXPECTED_INTERFACE_INVENTORY {
        xml.push_str(&format!("  <node client_id=\"{node_id}\" exclusive=\"true\">\n"));
        xml.push_str("    <services>\n");
        xml.push_str(&format!(
            "      <login authentication=\"ssh-keys\" hostname=\"{node_id}.example\" port=\"22\" username=\"alice\"/>\n"
        ));
        xml.push_str("    </services>\n");
        for (client_id, device, ips) in interfaces.iter() {
            xml.push_str(&format!(
                "    <interface client_id=\"{client_id}\" component_id=\"urn:publicid:IDN+wall+interface+{node_id}:{device}\">\n"
            ));
            for ip in ips.iter() {
                xml.push_str(&format!(
                    "      <ip address=\"{ip}\" netmask=\"255.255.255.0\" type=\"ipv4\"/>\n"
                ));
            }
            xml.push_str("    </interface>\n");
        }
        xml.push_str("  </node>\n");
    }
    xml.push_str("</rspec>\n");
    xml
}

#[test]
fn parses_virtualwall_manifest_interface_inventory() {
    let topology = RspecTopology::parse_str(&manifest()).expect("manifest should parse");

    let actual = actual_inventory(&topology);
    let expected = expected_inventory();

    assert_eq!(actual, expected);
    assert_eq!(actual.len(), 19);
    assert_eq!(actual.values().map(Vec::len).sum::<usize>(), 54);
}

#[test]
fn manifests_are_read_through_namespaces_and_entities() {
    let xml = "<r:rspec xmlns:r=\"x\"><r:node client_id=\" n&amp;1 \"><r:interface client_id=\"n1:if0\"></r:interface></r:node><r:link client_id=\"lan0\" vlantag=\"7\"><r:interface_ref client_id=\"n1:if0\"/></r:link></r:rspec>";
    let t = RspecTopology::parse_str(xml).unwrap();
    assert_eq!(t.nodes.len(), 1);
    assert_eq!(t.nodes[0].client_id, "n&1");
    assert_eq!(t.nodes[0].interfaces[0].client_id, "n1:if0");
    assert!(t.nodes[0].interfaces[0].manifest_device_name().is_none());
    assert_eq!(t.links[0].client_id, "lan0");
    assert_eq!(t.links[0].vlantag.as_deref(), Some("7"));
    assert_eq!(t.links[0].interface_refs, vec!["n1:if0"]);
    assert!(RspecTopology::parse_str("<a><b></a>").is_err());
}

#[test]
fn generates_deterministic_ports_and_ips() {
    let topo = TopologySpec {
        site_id: None,
        image: None,
        flavor: None,
        cloud_init: None,
        resource_prefix: Some("vw-".to_string()),
        port_id_scheme: PortIdScheme { prefix: "if".to_string(), start_index: 0 },
        max_experiment_nics_per_node: 4,
        fabrics: vec![
            FabricSpec {
                name: "A".to_string(),
                network_id: None,
                link_type: "lan".to_string(),
                share_lan_name: None,
                ipv4_subnet: Some("10.1.0.0/24".to_string()),
                host_start: 10,
                impairment: vec![],
                order: Some(1),
            },
            FabricSpec {
                name: "B".to_string(),
                network_id: None,
                link_type: "lan".to_string(),
                share_lan_name: None,
                ipv4_subnet: Some("10.2.0.0/24".to_string()),
                host_start: 10,
                impairment: vec![],
                order: Some(2),
            },
        ],
        roles: vec![RoleSpec {
            name: "server".to_string(),
            fabrics: vec!["A".to_string(), "B".to_string()],
        }],
        nodes: vec![NodeSpec {
            name: "server1".to_string(),
            role: "server".to_string(),
            fabrics: vec![],
            addresses: SortedMap::new(),
            site_id: None,
            image: None,
            flavor: None,
            cloud_init: None,
        }],
        hierarchy: None,
    };

    let generated = generate(&topo).expect("generate");
    assert_eq!(generated.spec.resources.len(), 1);
    let ifaces = &generated.spec.resources[0].network_interfaces;
    assert_eq!(ifaces[0].port_id.as_deref(), Some("if0"));
    assert_eq!(ifaces[1].port_id.as_deref(), Some("if1"));
    assert_eq!(ifaces[0].addresses[0], "10.1.0.10/24");
    assert_eq!(ifaces[1].addresses[0], "10.2.0.10/24");
}

#[test]
fn subnets_are_checked() {
    assert_eq!(Ipv4Allocator::parse_cidr("10.1.2.3/24").unwrap(), (0x0a010200, 24));
    assert_eq!(
        Ipv4Allocator::parse_cidr("10.1.2.3/33").unwrap_err().message(),
        "configuration error: Invalid CIDR prefix 33 in '10.1.2.3/33'"
    );
    assert!(Ipv4Allocator::parse_cidr("10.1.2/24").is_err());
    let a = Ipv4Allocator::new("192.168.0.0/30", 1).unwrap();
    assert!(a.allocate(0).is_ok());
    assert!(a.allocate(9).is_err());
}

fn sample_options() -> SshOptions {
    SshOptions {
        ssh_binary: "/usr/bin/ssh".to_string(),
        default_username: Some("alice".to_string()),
        default_private_key: Some("/tmp/node.key".to_string()),
        default_proxy_private_key: Some("/tmp/proxy.key".to_string()),
        forward_agent: false,
        forward_x11: false,
        server_alive_interval: 30,
        use_jump_proxy: true,
        default_jump_proxy: Some(JumpProxy {
            host: "bastion.example".to_string(),
            port: 22,
            username: Some("proxyuser".to_string()),
        }),
        known_hosts: "/tmp/known_hosts".to_string(),
        host_key_checking: HostKeyChecking::AcceptNew,
        connect_timeout: 5,
        control_dir: "/tmp/ssh-control".to_string(),
        control_persist: 900,
    }
}

fn sample_target() -> SshTarget {
    SshTarget {
        host: "node-1.example".to_string(),
        port: 22,
        username: Some("remote".to_string()),
        jump_proxy: None,
    }
}

#[test]
fn control_path_is_stable_for_same_target() {
    let options = sample_options();
    let target = sample_target();

    let first = options.control_path_for(&target, None, None, ControlMasterPurpose::Command);
    let second = options.control_path_for(&target, None, None, ControlMasterPurpose::Command);

    assert_eq!(first, second);
}

#[test]
fn control_path_changes_when_effective_user_changes() {
    let options = sample_options();
    let target = sample_target();

    let base = options.control_path_for(&target, None, None, ControlMasterPurpose::Command);
    let overridden = options.control_path_for(
        &target,
        Some("other-user"),
        None,
        ControlMasterPurpose::Command,
    );

    assert_ne!(base, overridden);
}

#[test]
fn control_path_changes_between_command_and_tunnel_roles() {
    let options = sample_options();
    let target = sample_target();

    let command_path =
        options.control_path_for(&target, None, None, ControlMasterPurpose::Command);
    let tunnel_path =
        options.control_path_for(&target, None, None, ControlMasterPurpose::Tunnel);

    assert_ne!(command_path, tunnel_path);
}

#[test]
fn control_paths_end_with_the_hash_of_the_connection() {
    let options = sample_options();
    let target = sample_target();
    let mut h = DefaultHasher::new();
    "node-1.example".hash(&mut h);
    22u16.hash(&mut h);
    options.effective_username(&target, None).hash(&mut h);
    Some("/tmp/node.key".to_string()).hash(&mut h);
    true.hash(&mut h);
    Some("bastion.example".to_string()).hash(&mut h);
    Some(22u16).hash(&mut h);
    Some("proxyuser".to_string()).hash(&mut h);
    1isize.hash(&mut h);
    let digest = h.finish();
    assert_eq!(
        options.control_path_for(&target, None, None, ControlMasterPurpose::Tunnel),
        format!("/tmp/ssh-control/{}-{digest:016x}", ControlMasterPurpose::Tunnel.label())
    );
}

fn no_identities() -> LocalIdentities {
    LocalIdentities { agent_socket: false, files: vec![] }
}

#[test]
fn ssh_commands_are_checked_before_they_run() {
    let options = sample_options();
    let target = sample_target();
    let e = options
        .exec(&target, "  ", None, None, &no_identities(), None)
        .unwrap_err();
    assert!(e.message().ends_with("Empty command"));
    let e = options
        .exec(&target, "a\0b", None, None, &no_identities(), None)
        .unwrap_err();
    assert!(e.message().ends_with("Command contains NUL byte"));
    let args = options
        .exec(&target, "uname -a", None, None, &no_identities(), None)
        .unwrap();
    assert!(args.iter().any(|a| a == "uname -a"));
    assert!(args.iter().any(|a| a == "remote@node-1.example"));
    let args = options
        .exec(&target, "uname -a", Some("carol"), None, &no_identities(), None)
        .unwrap();
    assert!(args.iter().any(|a| a == "carol@node-1.example"));
    let unnamed = SshTarget { username: None, ..sample_target() };
    let args = options
        .exec(&unnamed, "uname -a", None, None, &no_identities(), None)
        .unwrap();
    assert!(args.iter().any(|a| a == "alice@node-1.example"));
}

#[test]
fn background_commands_reach_the_remote_shell() {
    let (script, out, err) = SshOptions::build_background_remote_script("echo 'hi'", "t1");
    assert_eq!((out.as_str(), err.as_str()), ("/tmp/vw_exec_t1.out", "/tmp/vw_exec_t1.err"));
    assert_eq!(
        script,
        "exec </dev/null; nohup echo 'hi' >/tmp/vw_exec_t1.out 2>/tmp/vw_exec_t1.err & echo $!"
    );
    let args = sample_options()
        .exec_background(&sample_target(), "echo 'hi'", "t1", None, None, &no_identities(), None)
        .unwrap();
    assert!(args.iter().any(|a| a.starts_with("sh -lc '") && a.contains("nohup echo '\"'\"'hi")));
    let result = SshOptions::background_result(
        &sample_target(),
        "t1",
        &ProcessOutcome::Exited {
            success: true,
            code: Some(0),
            stdout: "4711\n".to_string(),
            stderr: String::new(),
        },
        10,
    )
    .unwrap();
    assert_eq!(result.pid, Some(4711));
    assert_eq!(SshOptions::escape_single_quotes_for_sh("it's"), "it'\"'\"'s");
}

#[test]
fn control_masters_are_checked_before_they_are_used() {
    let mut step = MasterAction::CreateDirectory;
    let mut seen = 0;
    while !matches!(
        step,
        MasterAction::Use | MasterAction::GiveUp | MasterAction::RemoveAndGiveUp
    ) {
        step = ensure_control_master(step, true);
        seen += 1;
        assert!(seen < 10);
    }
    assert!(matches!(step, MasterAction::Use));
    assert!(matches!(
        ensure_control_master(MasterAction::CreateDirectory, false),
        MasterAction::GiveUp
    ));
}

#[test]
fn control_masters_are_ended_for_both_purposes() {
    let options = sample_options();
    let target = sample_target();
    let (command, tunnel) = options.shutdown_cached_sessions_for_target(
        &target,
        None,
        None,
        &no_identities(),
    );
    assert_ne!(command.control_path, tunnel.control_path);
    assert!(command.args.windows(2).any(|w| w[0] == "-O" && w[1] == "exit"));
    let end = |p: u16| TunnelEndpoint { host: "127.0.0.1".to_string(), port: p };
    let args = options.cancel_tunnel_forward(
        &target,
        TunnelDirection::Local,
        &end(1),
        &end(2),
        None,
        None,
        &no_identities(),
        "/tmp/c",
    );
    assert!(args.windows(2).any(|w| w[0] == "-O" && w[1] == "cancel"));
    assert!(args.iter().any(|a| a == "127.0.0.1:1:127.0.0.1:2"));
    let spawned = options
        .spawn_tunnel(
            &target,
            TunnelDirection::Remote,
            &end(1),
            &end(2),
            None,
            None,
            &no_identities(),
            None,
        )
        .unwrap();
    assert!(matches!(spawned, SpawnedTunnel::Child { .. }));
}

fn request(node: &str, listen: u16, target: u16) -> TunnelRequest {
    TunnelRequest {
        node: node.to_string(),
        direction: TunnelDirection::Local,
        listen: TunnelEndpoint { host: "127.0.0.1".to_string(), port: listen },
        target: TunnelEndpoint { host: "10.0.0.1".to_string(), port: target },
        username: None,
    }
}

fn info(id: &str, r: &TunnelRequest) -> TunnelInfo {
    TunnelInfo {
        id: id.to_string(),
        node: r.node.clone(),
        direction: r.direction,
        listen: r.listen.clone(),
        target: r.target.clone(),
        username: None,
        pid: None,
    }
}

#[test]
fn tunnels_are_reused_or_give_way() {
    let mut registry = TunnelRegistry::new();
    let first = request("n1", 8080, 80);
    registry.insert(info("a", &first));
    let served = registry.reusable_and_conflicting_tunnels_from_guard("n1", None, &first);
    assert_eq!(served.reused.unwrap().id, "a");
    assert!(served.closed.is_empty());
    let second = request("n1", 8080, 81);
    let served = registry.reusable_and_conflicting_tunnels_from_guard("n1", None, &second);
    assert!(served.reused.is_none());
    assert_eq!(served.closed.len(), 1);
    registry.insert(info("b", &second));
    registry.insert(info("c", &request("n2", 8080, 81)));
    let (open, gone) = registry.list_tunnels();
    assert_eq!((open.len(), gone.len()), (2, 0));
    assert_eq!(registry.close_tunnel("b").unwrap().len(), 1);
    assert!(registry.close_tunnel("b").is_err());
}

fn surroundings(env: &[(&str, &str)]) -> Surroundings {
    let mut m = StringMap::new();
    for (k, v) in env {
        m.insert(k.to_string(), v.to_string());
    }
    Surroundings {
        env: m,
        cwd: Some("/work".to_string()),
        home: Some("/home/alice".to_string()),
        config_dir: Some("/home/alice/.config".to_string()),
        found_binary: Some("/usr/bin/tool".to_string()),
        existing: vec![],
    }
}

fn wall_config() -> virtual_wall::config::VirtualWallConfig {
    let file = virtual_wall::config::VirtualWallConfigFile {
        slices_binary: Some("/opt/slices/bin/slices".to_string()),
        experiment: Some("exp".to_string()),
        ..virtual_wall::config::VirtualWallConfigFile::default()
    };
    let mut s = surroundings(&[]);
    s.existing = virtual_wall::config::VirtualWallConfig::paths_to_probe(&s, &file);
    virtual_wall::config::VirtualWallConfig::resolve(&file, &s).unwrap()
}

fn wall_manager() -> virtual_wall::manager::VirtualWallManager {
    let store = StateStore::new("/tmp/state.json".to_string(), None, "now");
    virtual_wall::manager::VirtualWallManager::new(wall_config(), store)
}

#[test]
fn commands_are_split_like_a_shell_does() {
    let m = wall_manager();
    let args = m.exec("n1", "echo 'a b' c", None).unwrap();
    assert!(args.iter().any(|a| a == "a b"));
    assert!(!args.iter().any(|a| a == "'a"));
    assert!(m.exec("n1", "echo 'a", None).is_err());
    assert!(m.scp("", "x").is_err());
    assert!(m.scp("a", "b").unwrap().ends_with(&[
        "scp".to_string(),
        "a".to_string(),
        "b".to_string()
    ]));
}

#[test]
fn commands_find_what_is_beside_the_binary() {
    let client = SlicesClient::new("/opt/slices/bin/slices".to_string());
    let args = client.ensure_project("p");
    let c = client.prepare_command(&args, Some("/usr/bin"));
    assert!(c.path.unwrap().starts_with("/opt/slices/bin"));
}

#[test]
fn infrastructure_is_named_before_the_command() {
    let mut client = SlicesClient::new("slices".to_string())
        .with_env("A".to_string(), "1".to_string())
        .with_env("A".to_string(), "2".to_string());
    assert_eq!(client.env.get("A").map(|s| s.as_str()), Some("2"));
    assert_eq!(client.bi_list(" "), ["bi", "list", "--format", "json"]);
    client.set_bi_infra_id(Some("wall1".to_string()));
    assert_eq!(
        client.bi_list("exp"),
        ["bi", "--infra", "wall1", "list", "--format", "json", "--experiment", "exp"]
    );
    assert_eq!(
        client.bi_show("r1"),
        ["bi", "--infra", "wall1", "show", "r1", "--format", "json"]
    );
    assert_eq!(client.bi_delete("r1"), ["bi", "--infra", "wall1", "delete", "r1"]);
    assert_eq!(
        client.bi_ssh_show_json("r1", "exp"),
        [
            "bi", "--infra", "wall1", "ssh", "r1", "--experiment", "exp", "--show", "json",
            "--no-exec"
        ]
    );
    assert_eq!(
        client.bi_ssh("r1", "ls -l").unwrap(),
        ["bi", "--infra", "wall1", "ssh", "r1", "--", "ls -l"]
    );
    assert_eq!(client.bi_ssh(" ", "ls").unwrap_err().message(), "configuration error: name_or_id must be non-empty");
    assert_eq!(client.bi_ssh("r1", " ").unwrap_err().message(), "configuration error: cmd must be non-empty");
}

#[test]
fn command_results_carry_their_error() {
    let args = vec!["experiment".to_string(), "show".to_string()];
    let e = SlicesClient::run_raw(&args, false, Some(2), String::new(), "gone".to_string())
        .unwrap_err();
    assert_eq!(
        e.message(),
        "slices CLI command `experiment show` failed with status 2: gone"
    );
    let ok = SlicesClient::run_raw(&args, true, Some(0), "x".to_string(), String::new());
    assert_eq!(ok.unwrap().stdout, "x");
    assert!(SlicesClient::listed_resources(None).is_err());
}

fn record(name: &str, status: &str, network: &str) -> ResourceRecord {
    ResourceRecord {
        name: name.to_string(),
        resource_id: Some(format!("id-{name}")),
        site_id: None,
        addresses: vec!["10.0.0.1".to_string()],
        hostnames: vec![],
        status: Some(status.to_string()),
        expires_at: None,
        interfaces: vec![BiNetworkInterface {
            port_id: Some("if0".to_string()),
            network_id: Some(network.to_string()),
            addresses: vec!["10.1.0.1/24".to_string()],
        }],
        metadata: "{}".to_string(),
    }
}

#[test]
fn resources_are_shown_with_their_health() {
    let mut m = wall_manager();
    m.state.update(
        "exp".to_string(),
        "id".to_string(),
        None,
        None,
        vec![record("a", "READY", "lan0"), record("b", "booting", "lan0")],
        "later",
    );
    let nodes = m.nodes();
    assert!(nodes[0].healthy);
    assert!(!nodes[1].healthy);
    let links = m.links();
    assert_eq!(links.len(), 1);
    assert_eq!(links[0].members.len(), 2);
    let picture = m.visualize();
    assert_eq!((picture.switches.len(), picture.edges.len()), (1, 2));
    assert_eq!(lan_links(&vec![]).len(), 0);
}

fn detail(status: &str) -> ResourceDetail {
    ResourceDetail {
        id: Some("i".to_string()),
        friendly_name: None,
        status: Some(status.to_string()),
        site_id: None,
        private_ipv4: None,
        private_ipv6: None,
        public_ipv4: None,
        public_ipv6: None,
        network_interfaces: vec![],
        ssh_logins: vec![],
        document: "{}".to_string(),
    }
}

#[test]
fn resources_are_waited_for_until_they_are_ready() {
    let m = wall_manager();
    let wait = m.wait_until_resources_ready("exp", 1, false, Some(1), &vec![detail("booting")]);
    assert!(matches!(wait, WaitStep::Wait));
    let late = m.wait_until_resources_ready("exp", 1, true, Some(1), &vec![detail("booting")]);
    assert!(matches!(late, WaitStep::Expired(_)));
}

#[test]
fn resources_are_destroyed_in_batches() {
    let ids: Vec<String> = (0..45).map(|i| format!("r{i}")).collect();
    let batches = destroy_batches(&ids);
    assert_eq!(batches.iter().map(Vec::len).collect::<Vec<_>>(), vec![20, 20, 5]);
    assert_eq!(batches.concat(), ids);
}

#[test]
fn specifications_have_as_many_nodes_as_asked_for() {
    let m = wall_manager();
    let (spec, state) = m
        .build_spec(&StartOptions { nodes: 3, paths: Some(2), reuse: true }, None, None)
        .unwrap();
    assert_eq!(spec.resources.len(), 3);
    assert!(state.is_none());
}

#[test]
fn resources_are_named_by_what_they_have() {
    let mut s = ResourceSummary {
        id: Some("id".to_string()),
        friendly_name: Some("friendly".to_string()),
        name: Some("name".to_string()),
        status: None,
        site_id: None,
        ipv4: None,
        ipv6: None,
        private_ipv4: None,
        private_ipv6: None,
        public_ipv4: None,
        public_ipv6: None,
        expires_at: None,
        experiment_id: None,
        document: "{}".to_string(),
    };
    let first = virtual_wall::manager::resource_handle(&s).unwrap();
    s.id = None;
    s.friendly_name = None;
    s.name = None;
    assert!(!first.is_empty());
    assert!(virtual_wall::manager::resource_handle(&s).is_none());
}

#[test]
fn settings_come_from_the_environment_before_the_file() {
    let file = virtual_wall_lite::config::VirtualWallConfigFile {
        rspec_path: Some("/a.rspec".to_string()),
        state_json: None,
        ssh_binary: Some("/usr/bin/ssh".to_string()),
        ssh_username: Some("bob".to_string()),
        ssh_private_key: None,
        ssh_proxy_private_key: None,
        ssh_forward_agent: None,
        ssh_forward_x11: None,
        ssh_server_alive_interval_seconds: None,
        state_dir: None,
        use_jump_proxy: None,
        jump_proxy: None,
        known_hosts: None,
        host_key_checking: None,
        connect_timeout_seconds: None,
        command_timeout_seconds: None,
        ping_timeout_seconds: None,
    };
    let mut s = surroundings(&[]);
    s.existing = virtual_wall_lite::config::VirtualWallConfig::paths_to_probe(&s, &file);
    let c = virtual_wall_lite::config::VirtualWallConfig::resolve(&file, &s).unwrap();
    assert_eq!(c.rspec_path, "/a.rspec");
    assert_eq!(c.ssh_username.as_deref(), Some("bob"));
    assert_eq!((c.connect_timeout, c.command_timeout, c.ping_timeout), (15, 300, 3));
    assert_eq!(virtual_wall_lite::config::parse_bool(" Yes "), Some(true));
    assert_eq!(virtual_wall_lite::config::parse_bool("maybe"), None);
}

#[test]
fn experiments_are_reached_by_the_names_of_the_manifest() {
    let mut s = surroundings(&[]);
    let file = virtual_wall_lite::config::VirtualWallConfigFile {
        rspec_path: Some("/a.rspec".to_string()),
        state_json: None,
        ssh_binary: Some("/usr/bin/ssh".to_string()),
        ssh_username: None,
        ssh_private_key: None,
        ssh_proxy_private_key: None,
        ssh_forward_agent: None,
        ssh_forward_x11: None,
        ssh_server_alive_interval_seconds: None,
        state_dir: None,
        use_jump_proxy: None,
        jump_proxy: None,
        known_hosts: None,
        host_key_checking: None,
        connect_timeout_seconds: None,
        command_timeout_seconds: None,
        ping_timeout_seconds: None,
    };
    s.existing = virtual_wall_lite::config::VirtualWallConfig::paths_to_probe(&s, &file);
    let c = virtual_wall_lite::config::VirtualWallConfig::resolve(&file, &s).unwrap();
    let topology = RspecTopology::parse_str(&manifest()).unwrap();
    let mut m =
        virtual_wall_lite::manager::VirtualWallManager::from_config(c, topology, None).unwrap();
    assert_eq!(m.resolve_node("core-a").unwrap().ssh.host, "core-a.example");
    assert!(m.resolve_node("nobody").is_err());
    assert_eq!(m.visualize().nodes.len(), 19);
    assert!(m.links().is_empty());
    assert_eq!(virtual_wall_lite::manager::ping_once("  ", 1), None);

    let started = m.start_from_options(LiteOptions { nodes: 1, paths: None, reuse: true });
    assert_eq!(started.experiment_name, "existing");
    assert_eq!(started.resources.len(), m.nodes.len());

    let named = TunnelRequest { username: Some(" alice ".to_string()), ..request("n", 80, 81) };
    let target = sample_target();
    assert_eq!(m.tunnel_username(&target, &named).as_deref(), Some(" alice "));
    assert_eq!(m.tunnel_username(&target, &request("n", 80, 81)), None);
    m.config.ssh_username = Some("bob".to_string());
    assert_eq!(m.tunnel_username(&target, &request("n", 80, 81)).as_deref(), Some("remote"));
    let unnamed = SshTarget { username: None, ..sample_target() };
    assert_eq!(m.tunnel_username(&unnamed, &request("n", 80, 81)).as_deref(), Some("bob"));
    let info = m.opened_tunnel("t", "n", &target, &named, None);
    assert_eq!(info.username.as_deref(), Some(" alice "));
}

#[test]
fn errors_show_paths_as_they_are_written() {
    let e = virtual_wall::error::VirtualWallError::CliNotFound("a\"b".to_string());
    assert_eq!(e.message(), "slices CLI binary not found (expected at \"a\\\"b\")");
    let e = virtual_wall_lite::error::VirtualWallError::BinaryNotFound {
        name: "ssh".to_string(),
        path: None,
    };
    assert_eq!(e.message(), "binary not found: ssh (searched: None)");
    let timeout = |timeout_secs: u64| {
        let operation = "x".to_string();
        virtual_wall::error::VirtualWallError::Timeout { operation, timeout_secs }.message()
    };
    assert_eq!((timeout(0), timeout(7)), ("timeout after 0ns: x".into(), "timeout after 7s: x".into()));
}

#[test]
fn logins_keep_the_name_of_the_node_as_it_is_written() {
    let padded = SshTarget { username: Some(" remote ".to_string()), ..sample_target() };
    assert_eq!(sample_options().login(&padded, None), " remote @node-1.example");
    assert_eq!(sample_options().login(&padded, Some(" carol ")), "carol@node-1.example");
}

#[test]
fn maps_keep_their_order() {
    let mut first: StringMap<u8> = StringMap::new();
    let mut sorted: SortedMap<u8> = SortedMap::new();
    for (key, value) in [("b", 1), ("c", 2), ("a", 3), ("b", 4)] {
        first.insert(key.to_string(), value);
        sorted.insert(key.to_string(), value);
    }
    let listed = |m: &StringMap<u8>| {
        (0..m.len()).map(|i| (m.entry(i).0.clone(), *m.entry(i).1)).collect::<Vec<_>>()
    };
    let entry = |key: &str, value: u8| (key.to_string(), value);
    assert_eq!(listed(&first), [entry("b", 4), entry("c", 2), entry("a", 3)]);
    assert_eq!(first.remove("c"), Some(2));
    assert_eq!(listed(&first), [entry("b", 4), entry("a", 3)]);
    assert_eq!(sorted.keys(), ["a", "b", "c"]);
    assert_eq!(sorted.entry(1), (&"b".to_string(), &4));
}

#[test]
fn logins_name_the_infrastructure() {
    let mut config = wall_config();
    config.site_id = Some("wall2".to_string());
    config.use_jump_proxy = true;
    let store = StateStore::new("/tmp/state.json".to_string(), None, "now");
    let mut m = virtual_wall::manager::VirtualWallManager::new(config, store);
    let words = vec!["ls".to_string()];
    assert_eq!(
        m.exec_words("n1", "e", &words, None).unwrap(),
        ["bi", "--infra", "wall2", "ssh", "n1", "--experiment", "e", "--", "ls"]
    );
    let tunnel = m.open_tunnel(&request("n1", 8000, 80)).unwrap();
    assert_eq!(tunnel[..4], ["bi", "--infra", "wall2", "ssh"]);
    m.slices.set_bi_infra_id(None);
    assert_eq!(
        m.exec_words("n1", "e", &words, None).unwrap(),
        ["bi", "ssh", "n1", "--experiment", "e", "--", "ls"]
    );
}
