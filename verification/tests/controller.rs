//! Agents, actions, graphs and requests to the controller.

use multipath_xr::controller::actions::{
    agent_poll_delay, plan_action, tc_failure, ActionExecutor, ActionPlan,
};
use multipath_xr::controller::graph::{Graph, Link};
use multipath_xr::controller::router::{
    agent_room, clean_sockets, color_of_digest, colorize_text, disables_cache,
    exec_command_on_agent, find_node_id, forget_socket, generate_color_code, is_connected,
    list_experiments, list_sockets, logs_request, message_level, network_condition_message,
    parameter_or_unknown, process_output, queried_metric, register_agent, registered_rooms,
    take_agents,
    sample_count, should_disable_browser_cache, tunnel_to_close,
    update_network_conditions_on_agent, update_route_weights_on_agent, Delivery, LogLevel,
    NetworkConditionData, SimpleSocket,
};
use multipath_xr::controller::structs::{Action, Environment, ExperimentFile, Role};
use multipath_xr::string_map::StringMap;
use sha2::Digest;

fn link(a: &str, b: &str) -> Link {
    Link {
        intf1: format!("{a}-{b}"),
        intf2: format!("{b}-{a}"),
        ip1: format!("10.{a}.{b}"),
        ip2: "N/A".to_string(),
        node1: a.to_string(),
        node2: b.to_string(),
        status: "up".to_string(),
    }
}

fn square() -> Graph {
    let mut g = Graph::new();
    g.add_node("a", "host");
    g.add_link(link("a", "b"));
    g.add_link(link("a", "c"));
    g.add_link(link("b", "d"));
    g.add_link(link("c", "d"));
    g
}

#[test]
fn paths_are_the_shortest_and_the_first() {
    let g = square();
    let (nodes, segments) = g.shortest_path("a", "d").unwrap();
    assert_eq!(nodes, vec!["a", "b", "d"]);
    assert_eq!(segments.len(), 2);
    assert_eq!(segments[0].from_interface, "a-b");
    assert_eq!(segments[1].to_interface, "d-b");
    let (back, segments) = g.shortest_path("d", "a").unwrap();
    assert_eq!(back, vec!["d", "b", "a"]);
    assert_eq!(segments[0].from_interface, "d-b");
    let (alone, none) = g.shortest_path("a", "a").unwrap();
    assert_eq!((alone.len(), none.len()), (1, 0));
    assert!(g.shortest_path("a", "z").is_none());
}

#[test]
fn absent_addresses_are_not_kept() {
    let g = square();
    assert_eq!(g.nodes.get("a").unwrap().node_type, "host");
    assert_eq!(g.nodes.get("d").unwrap().node_type, "Unknown");
    assert_eq!(g.nodes.get("a").unwrap().interfaces.len(), 2);
    assert!(g.nodes.get("d").unwrap().interfaces.is_empty());
}

fn action(kind: &str, target: Option<&str>) -> Action {
    Action {
        action: "x".to_string(),
        action_type: kind.to_string(),
        target: target.map(|t| t.to_string()),
        execution_delay: None,
        connected_node: None,
        bandwidth: None,
        packet_loss: None,
        network_delay: None,
        htb_explicit_limits: None,
        url: Some("http://u".to_string()),
        command: None,
    }
}

#[test]
fn actions_are_planned_by_their_type() {
    let g = square();
    let mut tc = action("tc", Some("a"));
    tc.connected_node = Some("d".to_string());
    match plan_action(&tc, Some(&g)) {
        ActionPlan::Tc(data) => {
            assert_eq!(data.node_id, "a");
            assert_eq!(data.bandwidth, "200mbit");
            assert_eq!(data.latency, "0ms");
            assert_eq!(data.loss, "0%");
            assert_eq!(data.interface.as_deref(), Some("a-b"));
            assert_eq!(data.interface_ip.as_deref(), Some("10.a.b"));
            assert_eq!(
                tc_failure(&data, "404", "gone"),
                "Failed to send TC request to 'a' via interface hint 'a-b' (ip '10.a.b'): status=404 response=gone"
            );
        }
        _ => panic!("not a plan for network conditions"),
    }
    assert!(matches!(
        plan_action(&action("curl", Some("a")), None),
        ActionPlan::CurlViaAgent { .. }
    ));
    assert!(matches!(
        plan_action(&action("curl", Some(" ")), None),
        ActionPlan::CurlLocally { .. }
    ));
    match plan_action(&action("agent_stop", Some("n1")), None) {
        ActionPlan::StopProcess { room } => assert_eq!(room, agent_room("n1")),
        _ => panic!("not a plan to stop"),
    }
    match plan_action(&action("agent_command", Some("n1")), None) {
        ActionPlan::Refuse { reason } => {
            assert_eq!(reason, "agent_command requires 'target' and 'command' fields")
        }
        _ => panic!("not refused"),
    }
    assert!(matches!(plan_action(&action("exit", None), None), ActionPlan::Nothing));
    match plan_action(&action("dance", None), None) {
        ActionPlan::Refuse { reason } => assert_eq!(reason, "Unknown action type 'dance'"),
        _ => panic!("not refused"),
    }
}

#[test]
fn aliases_are_replaced_by_targets() {
    let role = Role {
        role: "client".to_string(),
        target: "node7".to_string(),
        alias: "viewer".to_string(),
        count: None,
        server_ip: None,
        http_ip: None,
        websocket_ip: None,
        proxy: None,
        disable_parser: None,
        visible: None,
        moq_enable: None,
        moq_relay: None,
        moq_namespace: None,
        moq_client: None,
    };
    let mut delayed = action("curl", Some("viewer"));
    delayed.execution_delay = Some(40);
    let experiment = ExperimentFile {
        experiment_name: "e".to_string(),
        description: None,
        environment: Environment {
            name: "mininet".to_string(),
            number_of_nodes: 1,
            number_of_paths: 1,
            topology: None,
            geant_cities: None,
            geant_weighted_nexthops: None,
            geant_hop_weights: None,
            roles: vec![role],
        },
        actions: Some(vec![delayed, action("curl", Some("other"))]),
    };
    let mut x = ActionExecutor::new_from_experiment(&experiment).unwrap();
    assert_eq!(x.actions[0].target.as_deref(), Some("node7"));
    assert_eq!(x.actions[1].target.as_deref(), Some("other"));
    assert!(x.carries_out());
    assert_eq!(x.start().unwrap(), vec![40, 0]);
    assert!(x.start().is_none());
    x.stop();
    assert!(!x.carries_out());
    assert_eq!(agent_poll_delay(0, 30_000), Some(500));
    assert_eq!(agent_poll_delay(29_900, 30_000), Some(100));
    assert_eq!(agent_poll_delay(30_000, 30_000), None);
}

#[test]
fn agents_are_found_by_their_socket() {
    let mut registry: StringMap<String> = StringMap::new();
    register_agent(&mut registry, "n1".to_string(), "s1".to_string());
    register_agent(&mut registry, "n2".to_string(), "s2".to_string());
    assert_eq!(find_node_id("s2", &registry).as_deref(), Some("n2"));
    forget_socket(&mut registry, "s2");
    assert!(find_node_id("s2", &registry).is_none());
    assert_eq!(registered_rooms(&registry), vec![agent_room("n1")]);
    assert!(is_connected("n1", &vec![agent_room("n1")]));
    assert!(!is_connected("n2", &vec![agent_room("n1")]));
    register_agent(&mut registry, "n3".to_string(), "s3".to_string());
    assert_eq!(take_agents(&mut registry), vec![agent_room("n1"), agent_room("n3")]);
    assert!(registry.is_empty());
    assert!(take_agents(&mut registry).is_empty());
}

#[test]
fn sockets_are_listed_and_chosen() {
    let all = list_sockets(&vec![("s1".to_string(), true), ("s2".to_string(), false)]);
    assert_eq!(all.sockets.len(), 2);
    assert!(!all.sockets[1].connected);
    let sockets = vec![
        SimpleSocket { id: "s1".to_string(), connected: true },
        SimpleSocket { id: "s2".to_string(), connected: false },
    ];
    assert_eq!(clean_sockets(&sockets, &vec!["s2".to_string()]), vec![1]);
}

#[test]
fn deliveries_are_answered() {
    let (status, r) = exec_command_on_agent("n1", &Delivery::Sent);
    assert_eq!((status, r.status.as_str()), (200, "success"));
    let (status, r) = exec_command_on_agent("n1", &Delivery::NotConnected);
    assert_eq!((status, r.status.as_str()), (404, "error"));
    let (status, _) = exec_command_on_agent("n1", &Delivery::Failed("x".to_string()));
    assert_eq!(status, 500);
    let data = NetworkConditionData {
        node_id: "n1".to_string(),
        bandwidth: "1mbit".to_string(),
        latency: "1ms".to_string(),
        loss: "0%".to_string(),
        htb_explicit_limits: None,
        interface: None,
        interface_ip: None,
    };
    let m = network_condition_message(&data);
    assert_eq!((m.htb_explicit_limits, m.interface.as_str()), (false, ""));
    let (status, _) = update_network_conditions_on_agent(&data, &Delivery::Sent);
    assert_eq!(status, 200);
    let (refused, _) = update_route_weights_on_agent("n1", false, &Delivery::Sent);
    let (sent, _) = update_route_weights_on_agent("n1", true, &Delivery::Sent);
    assert_ne!(refused, 200);
    assert_eq!(sent, 200);
}

#[test]
fn nodes_have_the_color_of_their_digest() {
    let digest: Vec<u8> = sha2::Sha256::digest("node1".as_bytes()).to_vec();
    assert_eq!(generate_color_code("node1"), color_of_digest(&digest));
    assert_ne!(color_of_digest(&b"node1node1node1node1node1node1no".to_vec()), 0);
    assert_eq!(colorize_text("x", 7), "\u{1b}[38;5;7m[x]\u{1b}[0m");
}

#[test]
fn output_of_agents_is_logged_at_its_level() {
    assert!(matches!(message_level("error"), LogLevel::Error));
    assert!(matches!(message_level("warn"), LogLevel::Warn));
    let (level, line) = process_output("info", "hello", &None, "n1").unwrap();
    assert!(matches!(level, LogLevel::Info));
    assert!(line.contains("hello"));
}

#[test]
fn pages_are_not_cached() {
    assert!(should_disable_browser_cache("/index.html"));
    assert!(disables_cache("/index.html", true));
    assert!(!disables_cache("/index.html", false));
    assert!(!logs_request("/get_latest_metrics"));
    assert!(logs_request("/status"));
}

#[test]
fn requests_have_defaults() {
    let mut params: StringMap<String> = StringMap::new();
    assert_eq!(parameter_or_unknown(&params, "k"), "unknown");
    assert!(tunnel_to_close(&params).is_err());
    params.insert("id".to_string(), "t1".to_string());
    assert_eq!(tunnel_to_close(&params).unwrap(), "t1");
    assert_eq!(queried_metric(" fps ").unwrap(), "fps");
    assert!(queried_metric(" ").is_err());
    assert_eq!(sample_count(None), 60);
    assert_eq!(sample_count(Some(3)), 3);
    let files = vec![
        ("sub\\b.yaml".to_string(), "b.yaml".to_string()),
        ("a.yaml".to_string(), "a.yaml".to_string()),
        ("c.txt".to_string(), "c.txt".to_string()),
    ];
    assert_eq!(list_experiments(&files), vec!["a.yaml", "sub/b.yaml"]);
}

#[test]
fn addresses_and_interfaces_are_those_along_shortest_paths() {
    let mut g = square();
    g.add_link(Link { ip2: "10.9.9.9".to_string(), ..link("d", "e") });
    g.add_node("alone", "host");
    let addresses = g.ip_mapping_from("a");
    assert_eq!(addresses.len(), 1);
    assert_eq!(addresses.get("e").map(|s| s.as_str()), Some("10.9.9.9"));
    let back = g.ip_mapping_from("e");
    assert_eq!(back.get("d").map(|s| s.as_str()), Some("10.d.e"));
    assert_eq!(back.get("a").map(|s| s.as_str()), Some("10.a.b"));
    assert!(back.get("e").is_none());

    let some = |s: &str| Some(s.to_string());
    let hops = g.interface_hops_from("a");
    assert_eq!(hops.len(), 4);
    assert!(hops.get("alone").is_none());
    assert_eq!(hops.get("b").unwrap(), &vec![(None, some("a-b")), (some("b-a"), None)]);
    assert_eq!(
        hops.get("d").unwrap(),
        &vec![(None, some("a-b")), (some("b-a"), some("b-d")), (some("d-b"), None)]
    );
    assert!(Graph::new().ip_mapping_from("a").is_empty());
    assert!(Graph::new().interface_hops_from("a").is_empty());
}

#[test]
fn paths_lead_back_and_nowhere_without_links() {
    let mut g = square();
    g.add_node("alone", "host");
    let (nodes, segments) = g.shortest_path("a", "a").unwrap();
    assert_eq!((nodes, segments.len()), (vec!["a".to_string()], 0));
    let there = g.shortest_path("a", "d").unwrap();
    let back = g.shortest_path("d", "a").unwrap();
    assert_eq!(there.0.len(), back.0.len());
    assert!(g.shortest_path("a", "alone").is_none());
    assert!(g.shortest_path("alone", "a").is_none());

    let hops = g.interface_hops_from("a");
    let list = hops.get("d").unwrap();
    assert_eq!(list.len(), there.0.len());
    assert!(list[0].0.is_none() && list[list.len() - 1].1.is_none());
    for (i, segment) in there.1.iter().enumerate() {
        assert_eq!(list[i].1.as_ref(), Some(&segment.from_interface));
        assert_eq!(list[i + 1].0.as_ref(), Some(&segment.to_interface));
    }
}
