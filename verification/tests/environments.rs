//! Starting environments, and what requests ask of them.

use multipath_xr::big_virtual_wall::overlay::{Endpoint, OverlayNode};
use multipath_xr::big_virtual_wall::planner::{HostPlan, PlanResult, VlanLink};
use multipath_xr::big_virtual_wall::safety::parse_bool;
use multipath_xr::controller::bandwidth::{
    asked_bandwidths, parse_bandwidth, Bandwidth, BASE_LINK_BANDWIDTH_MBIT,
};
use multipath_xr::controller::docker::DockerHandler;
use multipath_xr::controller::experiment::{
    experiment_copy_name, generate_graph, invalid_experiment, is_supported, measurement_folder,
    options_of, unreadable_experiment, Answer, ExperimentHandler, NamedNode, Purpose,
};
use multipath_xr::controller::graph::Link;
use multipath_xr::controller::metrics_buffer::MetricsLoggerError;
use multipath_xr::controller::metrics_logger::MetricsLogger;
use multipath_xr::controller::mininet::{
    cleanup_reply, close_tunnel_reply, exec_outcome, is_open, is_running_status,
    leaked_host_process_cleanup_script, pid_line, remote_tunnel,
    remote_tunnel_command, require_server, start_outcome, stop_commands, stop_outcome,
    xterm_outcome, Reply,
};
use multipath_xr::controller::requests::{build_tunnel_request, close_reply};
use multipath_xr::controller::structs::{Action, Environment, ExperimentFile, Role};
use multipath_xr::controller::wall::{
    base_options, exec_request, form_parameters, node_color, overlay_links, overlay_reply,
    overlay_request, parse_color, picture_bytes, placed_command, start_reply,
    stop_reply,
};
use multipath_xr::forms::query_pairs;
use multipath_xr::start_options::StartOptions;
use multipath_xr::virtual_wall_lite::start_options::StartOptions as LiteOptions;
use multipath_xr::string_map::StringMap;
use multipath_xr::virtual_wall_lite::tunnels::TunnelDirection;

fn mbit(b: &Bandwidth) -> f64 {
    b.number.parse::<f64>().unwrap() * (b.numerator as f64 / b.denominator as f64)
}

fn bandwidth_to_mbit(raw: &str) -> Option<f64> {
    parse_bandwidth(raw).as_ref().map(mbit)
}

fn mininet_default_link_bw_mbit(experiment: &ExperimentFile) -> f64 {
    let asked = asked_bandwidths(experiment);
    asked.iter().map(mbit).fold(BASE_LINK_BANDWIDTH_MBIT as f64, f64::max)
}

fn action(name: &str, bandwidth: &str) -> Action {
    Action {
        action: name.to_string(),
        action_type: "tc".to_string(),
        target: None,
        execution_delay: None,
        connected_node: None,
        bandwidth: Some(bandwidth.to_string()),
        packet_loss: None,
        network_delay: None,
        htb_explicit_limits: None,
        url: None,
        command: None,
    }
}

fn environment() -> Environment {
    Environment {
        name: "mininet".to_string(),
        number_of_nodes: 2,
        number_of_paths: 2,
        topology: None,
        geant_cities: None,
        geant_weighted_nexthops: None,
        geant_hop_weights: None,
        roles: vec![],
    }
}

fn experiment_with(actions: Vec<Action>) -> ExperimentFile {
    ExperimentFile {
        experiment_name: "bandwidth-test".to_string(),
        description: None,
        environment: environment(),
        actions: Some(actions),
    }
}

fn role(target: &str, alias: &str) -> Role {
    Role {
        role: "client".to_string(),
        target: target.to_string(),
        alias: alias.to_string(),
        count: None,
        server_ip: None,
        http_ip: None,
        websocket_ip: None,
        proxy: Some(true),
        disable_parser: None,
        visible: None,
        moq_enable: None,
        moq_relay: None,
        moq_namespace: None,
        moq_client: None,
    }
}

fn params(pairs: &[(&str, &str)]) -> StringMap<String> {
    let mut m = StringMap::new();
    for (k, v) in pairs {
        m.insert(k.to_string(), v.to_string());
    }
    m
}

#[test]
fn parses_supported_tc_bandwidth_units() {
    assert_eq!(bandwidth_to_mbit("5gbit"), Some(5_000.0));
    assert_eq!(bandwidth_to_mbit("1.5 Gbps"), Some(1_500.0));
    assert_eq!(bandwidth_to_mbit("750mbit"), Some(750.0));
    assert_eq!(bandwidth_to_mbit("1000000kbit"), Some(1_000.0));
    assert_eq!(bandwidth_to_mbit("unlimited"), None);
}

#[test]
fn retains_one_gbit_default_when_no_action_exceeds_it() {
    let experiment = experiment_with(vec![action("cap", "200mbit")]);

    assert_eq!(mininet_default_link_bw_mbit(&experiment), 1_000.0);
}

#[test]
fn uses_highest_bandwidth_above_one_gbit() {
    let experiment = experiment_with(vec![
        action("first cap", "2.5gbit"),
        action("second cap", "5gbit"),
        action("lower cap", "900mbit"),
    ]);

    assert_eq!(mininet_default_link_bw_mbit(&experiment), 5_000.0);
}

#[test]
fn actions_ask_for_bandwidths_in_their_order() {
    let mut experiment =
        experiment_with(vec![action("a", "2.5 Gbit"), action("b", "much"), action("c", "900mbps")]);
    let asked: Vec<(String, u32, u32)> = asked_bandwidths(&experiment)
        .into_iter()
        .map(|b| (b.number, b.numerator, b.denominator))
        .collect();
    assert_eq!(asked, [("2.5".to_string(), 1000, 1), ("900".to_string(), 1, 1)]);
    experiment.actions = None;
    assert!(asked_bandwidths(&experiment).is_empty());
}

#[test]
fn bandwidths_are_split_into_number_and_unit() {
    let b = parse_bandwidth(" 2 . 5\tTBit ").unwrap();
    assert_eq!((b.number.as_str(), b.numerator, b.denominator), ("2.5", 1_000_000, 1));
    assert_eq!(bandwidth_to_mbit("3bps"), Some(3.0 * 0.000_001));
    assert_eq!(bandwidth_to_mbit("1kbps"), Some(0.001));
    assert!(parse_bandwidth("mbit").is_none());
    assert!(parse_bandwidth(".mbit").is_none());
    assert!(parse_bandwidth("1.2.3mbit").is_none());
    assert!(parse_bandwidth("5").is_none());
    assert_eq!(parse_bandwidth("5.MBIT").unwrap().number, "5.");
}

#[test]
fn parses_query_with_defaults() {
    let options = StartOptions::from_query("");
    assert_eq!(options.nodes, 1);
    assert_eq!(options.paths, None);
}

#[test]
fn parses_query_values() {
    let options = StartOptions::from_query("n_nodes=4&paths=2");
    assert_eq!(options.nodes, 4);
    assert_eq!(options.paths, Some(2));
}

#[test]
fn ignores_invalid_values() {
    let options = StartOptions::from_query("n_nodes=abc&n_paths=x");
    assert_eq!(options.nodes, 1);
    assert_eq!(options.paths, None);
}

#[test]
fn queries_are_read_as_they_are_written() {
    let options = StartOptions::from_query("n_nodes=+4&paths=%32&reuse=0&reuse&&nodes");
    assert_eq!((options.nodes, options.paths, options.reuse), (4, None, false));
    let given = vec![("nodes".to_string(), "0".to_string()), ("paths".to_string(), "3".to_string())];
    let options = StartOptions::from_settings(&given);
    assert_eq!((options.nodes, options.paths, options.reuse), (1, Some(3), true));
}

#[test]
fn queries_for_existing_experiments_are_decoded() {
    let options = LiteOptions::from_query("n%6Fdes=%34&paths=%2B2&reuse=f%61lse");
    assert_eq!((options.nodes, options.paths, options.reuse), (4, Some(2), false));
    let options = LiteOptions::from_query("nodes=+4&reuse=0&reuse&&nodes");
    assert_eq!((options.nodes, options.paths, options.reuse), (1, None, false));
    let options = LiteOptions::from_query("n_nodes=4&paths=2");
    assert_eq!((options.nodes, options.paths, options.reuse), (4, Some(2), true));
}

#[test]
fn start_options_hold_what_is_given() {
    let mut e = environment();
    assert_eq!(options_of("mininet", &e, None), "n_nodes=2&n_paths=2");
    e.topology = Some(" GEANT ".to_string());
    e.geant_cities = Some(" Paris, Oslo ".to_string());
    e.geant_weighted_nexthops = Some(true);
    e.geant_hop_weights = Some("  ".to_string());
    assert_eq!(
        options_of("mininet", &e, Some("5000")),
        "n_nodes=2&n_paths=2&topology=geant&geant_cities=Paris,Oslo&geant_weighted_nexthops=true&default_link_bw_mbit=5000"
    );
    assert_eq!(
        options_of("docker", &e, Some("5000")),
        "n_nodes=2&n_paths=2&topology=geant&geant_cities=Paris,Oslo&geant_weighted_nexthops=true"
    );
}

#[test]
fn environments_are_started_and_stopped() {
    let mut handler: ExperimentHandler<f64> = ExperimentHandler::new();
    assert!(is_supported("bigvirtualwall"));
    assert_eq!(
        handler.start_environment("vmware", "a.yaml").unwrap_err(),
        "Environment 'vmware' is not supported"
    );
    assert_eq!(
        handler.environment_for(Purpose::Visualize).unwrap_err(),
        "No active environment to visualize"
    );
    assert!(matches!(
        handler.metrics_logger(),
        Err(MetricsLoggerError::LoggerNotInitialized)
    ));
    assert_eq!(
        handler.start_environment("mininet", "a.yaml").unwrap(),
        "./dist/experiments/a.yaml"
    );
    assert_eq!(handler.environment_for(Purpose::GetNodes).unwrap(), "mininet");

    let mut experiment = experiment_with(vec![action("cap", "5gbit")]);
    experiment.environment.roles = vec![role("node1", "server")];
    experiment.environment.topology = Some("Geant".to_string());
    experiment.environment.geant_weighted_nexthops = Some(true);
    experiment.actions.as_mut().unwrap()[0].target = Some("server".to_string());
    experiment.actions.as_mut().unwrap()[0].execution_delay = Some(250);
    let options = handler.load_experiment("mininet", experiment, None);
    assert_eq!(options, "n_nodes=2&n_paths=2&topology=geant&geant_weighted_nexthops=true");
    let roles = &handler.get_current_experiment().unwrap().environment.roles;
    assert_eq!(roles[0].visible, Some(false));
    assert_eq!(roles[0].disable_parser, Some(false));
    assert_eq!(roles[0].proxy, Some(true));
    assert!(handler.route_updates_enabled());

    assert!(handler.environment_started("mininet", Ok(())).is_ok());
    let logger = MetricsLogger::new("m".to_string(), Vec::new());
    assert!(handler.use_logger(logger).is_ok());
    assert!(handler.metrics_logger().is_ok());
    let message = handler
        .generate_graph("mininet", Answer::Given(vec![]), Answer::Given(vec![]))
        .unwrap();
    assert_eq!(message, "Environment 'mininet' started successfully");
    let (said, delays) = handler.start_actions();
    assert_eq!(said, "Experiment actions started successfully");
    assert_eq!(delays.unwrap(), vec![250]);
    let (_, again) = handler.start_actions();
    assert!(again.is_none());

    let stopping = handler.stop_environment();
    assert_eq!(stopping.environment.unwrap(), "mininet");
    assert!(stopping.executor.unwrap().stopped);
    assert!(stopping.logger.is_some());
    handler.environment_stopped(false);
    assert!(handler.environment_for(Purpose::Stop).is_ok());
    handler.environment_stopped(true);
    assert!(handler.get_current_experiment().is_none());
    assert!(!handler.route_updates_enabled());
    let (said, delays) = handler.start_actions();
    assert_eq!(said, "No experiment actions are pending for this environment");
    assert!(delays.is_none());
}

#[test]
fn failed_starts_are_forgotten() {
    let mut handler: ExperimentHandler<f64> = ExperimentHandler::new();
    handler.start_environment("docker", "a.yaml").unwrap();
    assert_eq!(
        handler.environment_started("docker", Err("no".to_string())).unwrap_err(),
        "Failed to start environment 'docker': no"
    );
    assert!(handler.environment_for(Purpose::Ping).is_err());
    assert_eq!(DockerHandler.refusal(), "Docker handler is not implemented yet.");
    assert_eq!(unreadable_experiment("gone"), "Failed to read file: gone");
    assert_eq!(invalid_experiment("bad"), "Failed to parse YAML: bad");
}

#[test]
fn measurements_have_their_folder() {
    assert_eq!(
        measurement_folder("a.b.yaml", 17),
        vec!["metrics", "measurements", "a_b_yaml", "17"]
    );
    assert_eq!(experiment_copy_name(17), "experiment_17.yaml");
}

fn link(a: &str, b: &str) -> Link {
    Link {
        intf1: format!("{a}-eth0"),
        intf2: format!("{b}-eth0"),
        ip1: "10.0.0.1".to_string(),
        ip2: "10.0.0.2".to_string(),
        node1: a.to_string(),
        node2: b.to_string(),
        status: "up".to_string(),
    }
}

#[test]
fn graphs_are_generated_from_what_environments_say() {
    let nodes = || {
        Answer::Given(vec![
            NamedNode { name: Some("h1".to_string()), node_type: Some("host".to_string()) },
            NamedNode { name: None, node_type: None },
        ])
    };
    let g = generate_graph(nodes(), Answer::Given(vec![Ok(link("h1", "h2"))])).unwrap();
    assert_eq!(g.nodes.get("h1").unwrap().node_type, "host");
    assert_eq!(g.nodes.get("unknown").unwrap().node_type, "Unknown");
    assert_eq!(g.nodes.get("h2").unwrap().neighbors.len(), 1);
    assert_eq!(
        generate_graph(Answer::Failed("x".to_string()), Answer::Failed("y".to_string()))
            .err(),
        Some("Failed to get nodes: x".to_string())
    );
    assert_eq!(
        generate_graph(Answer::Invalid("x".to_string()), Answer::Failed("y".to_string()))
            .err(),
        Some("Failed to get links: y".to_string())
    );
    assert_eq!(
        generate_graph(Answer::Invalid("x".to_string()), Answer::Given(vec![])).err(),
        Some("Invalid nodes JSON: x".to_string())
    );
    assert_eq!(
        generate_graph(nodes(), Answer::Invalid("y".to_string())).err(),
        Some("Invalid links JSON: y".to_string())
    );
    assert_eq!(
        generate_graph(
            nodes(),
            Answer::Given(vec![Ok(link("a", "b")), Err("z".to_string())])
        )
        .err(),
        Some("Invalid link format: z".to_string())
    );
}

#[test]
fn tunnel_requests_are_built_from_parameters() {
    let full = params(&[
        ("direction", "local-forward"),
        ("node", "n1"),
        ("listen_port", "8080"),
        ("target_host", "10.0.0.9"),
        ("target_port", "80"),
        ("username", "alice"),
    ]);
    let t = build_tunnel_request(&full, "remote", None).unwrap();
    assert_eq!(t.direction, TunnelDirection::Local);
    assert_eq!((t.node.as_str(), t.listen.host.as_str()), ("n1", "127.0.0.1"));
    assert_eq!((t.listen.port, t.target.port), (8080, 80));
    assert_eq!(t.target.host, "10.0.0.9");
    assert_eq!(t.username.as_deref(), Some("alice"));

    let bare = params(&[("listen_port", "1"), ("target_port", "2")]);
    let t = build_tunnel_request(&bare, "local", Some("local")).unwrap();
    assert_eq!((t.direction, t.node.as_str()), (TunnelDirection::Local, "local"));
    assert_eq!(
        build_tunnel_request(&bare, "remote", None).unwrap_err(),
        "Missing `node` parameter"
    );
    assert_eq!(
        build_tunnel_request(&params(&[("direction", "up")]), "remote", None).unwrap_err(),
        "Invalid `direction`: up"
    );
    assert_eq!(
        build_tunnel_request(&params(&[("node", "n")]), "remote", None).unwrap_err(),
        "Missing or invalid `listen_port` parameter"
    );
    assert_eq!(
        build_tunnel_request(
            &params(&[("node", "n"), ("listen_port", "1"), ("target_port", "65536")]),
            "remote",
            None
        )
        .unwrap_err(),
        "Missing or invalid `target_port` parameter"
    );
    assert_eq!(close_reply("t", None).unwrap(), "Closed tunnel t");
    assert_eq!(close_reply("t", Some("e")).unwrap_err(), "Failed to close tunnel t: e");
}

#[test]
fn mininet_answers_are_put_into_words() {
    let script = leaked_host_process_cleanup_script();
    assert!(script.starts_with(
        "pkill -f -- '[t]arget/x86_64-unknown-linux-gnu/release/metrics' || true; pkill -f -- '[t]arget/debug/metrics' || true; pkill -x -- 'metrics' || true; "
    ));
    assert!(script.ends_with("pkill -x -- 'pc-server' || true"));
    assert_eq!(script.matches("; ").count(), 14);

    assert_eq!(cleanup_reply(true, "", "").unwrap(), "Mininet host cleanup completed");
    assert_eq!(
        cleanup_reply(false, "exit status: 1", " boom\n").unwrap_err(),
        "Mininet host cleanup failed with status exit status: 1: boom"
    );
    assert_eq!(
        cleanup_reply(false, "exit status: 1", "").unwrap_err(),
        "Mininet host cleanup failed with status exit status: 1"
    );
    assert!(is_running_status(Some("success")));
    assert!(!is_running_status(Some("stopped")));
    assert!(!is_running_status(None));
    assert_eq!(
        query_pairs("a=1&b&c=2=3"),
        vec![("a".to_string(), "1".to_string()), ("c".to_string(), "2=3".to_string())]
    );

    let lost = || Reply::Lost("timeout".to_string());
    assert_eq!(start_outcome(Reply::Success(None), false).unwrap(), "Mininet started");
    assert_eq!(
        start_outcome(Reply::Failure(None), true).unwrap(),
        "Mininet started (recovered after transient /start response error)"
    );
    assert_eq!(
        start_outcome(lost(), true).unwrap(),
        "Mininet started (recovered after transient /start connection drop)"
    );
    assert_eq!(start_outcome(lost(), false).unwrap_err(), "Failed to start Mininet: timeout");
    assert_eq!(start_outcome(Reply::Failure(None), false).unwrap_err(), "Unknown error");
    assert_eq!(stop_outcome(Reply::Success(Some("bye".to_string()))).unwrap(), "bye");
    assert_eq!(exec_outcome(Reply::Success(None)).unwrap(), "");
    assert_eq!(exec_outcome(lost()).unwrap_err(), "Failed to execute command: timeout");
    assert_eq!(
        xterm_outcome(Reply::Failure(Some("no display".to_string()))).unwrap_err(),
        "no display"
    );
    assert_eq!(require_server(false).unwrap_err(), "Mininet server is not running");
    assert!(require_server(true).is_ok());
}

#[test]
fn mininet_tunnels_are_followed_by_their_process() {
    let request = build_tunnel_request(
        &params(&[
            ("direction", "remote"),
            ("node", "h1"),
            ("listen_host", "0.0.0.0"),
            ("listen_port", "1000"),
            ("target_port", "2000"),
        ]),
        "local",
        Some("local"),
    )
    .unwrap();
    assert_eq!(
        remote_tunnel_command("x", &request),
        "bash -c 'nohup socat TCP-LISTEN:1000,fork,reuseaddr,bind=0.0.0.0 TCP:127.0.0.1:2000 >/tmp/tunnel-x.log 2>&1 < /dev/null & echo $! | tee /tmp/tunnel-x.pid'"
    );
    assert_eq!(pid_line("noise\n 42 \r\nmore\n"), "42");
    assert_eq!(pid_line("42\n\n"), "");
    assert_eq!(pid_line("none"), "");
    let tunnel = remote_tunnel("x", &request, "started\n4711\n");
    assert_eq!(tunnel.info.pid, Some(4711));
    assert_eq!(tunnel.pid.as_deref(), Some("4711"));
    assert_eq!(tunnel.pidfile, "/tmp/tunnel-x.pid");
    assert_eq!(stop_commands(Some("7"), Some("8")), vec!["kill -TERM 7", "kill -KILL 7"]);
    assert_eq!(stop_commands(None, Some(" 08\n")), vec!["kill -TERM 8", "kill -KILL 8"]);
    assert!(stop_commands(None, Some("x")).is_empty());
    assert!(stop_commands(None, None).is_empty());
    assert_eq!(close_tunnel_reply("x", false).unwrap_err(), "Tunnel x not found");
    assert!(is_open(false, true));
    assert!(!is_open(true, true));
}

#[test]
fn wall_answers_are_put_into_words() {
    assert_eq!(
        start_reply(Ok(("exp", 3))).unwrap(),
        "Virtual Wall experiment `exp` started with 3 resources"
    );
    assert_eq!(start_reply(Err("no")).unwrap_err(), "Failed to start Virtual Wall: no");
    assert_eq!(
        stop_reply(None, false).unwrap(),
        "Virtual Wall environment stopped and resources released"
    );
    assert_eq!(
        stop_reply(None, true).unwrap(),
        "Big Virtual Wall stopped (overlay cleaned best-effort)"
    );
    assert_eq!(stop_reply(Some("no"), true).unwrap_err(), "Failed to stop Virtual Wall: no");
    let x = exec_request(&params(&[("node", "n"), ("command", "ls")])).unwrap();
    assert_eq!((x.node.as_str(), x.command.as_str()), ("n", "ls"));
    assert!(x.username.is_none());
    assert_eq!(
        exec_request(&params(&[("node", "n")])).unwrap_err(),
        "Missing `command` parameter"
    );
}

#[test]
fn colors_are_read_from_their_names() {
    assert_eq!(parse_color("#2563eb"), (0x25, 0x63, 0xeb));
    assert_eq!(parse_color("#FFFFFF"), (255, 255, 255));
    assert_eq!(parse_color("#+12345"), (0x01, 0x23, 0x45));
    assert_eq!(parse_color("#12345"), (100, 100, 100));
    assert_eq!(parse_color("#12345g"), (100, 100, 100));
    assert_eq!(parse_color("2563eb0"), (100, 100, 100));
    assert_eq!(node_color(None, Some("switch")), "#6b7280");
    assert_eq!(node_color(None, None), "#2563eb");
    assert_eq!(node_color(Some("#000000"), None), "#000000");
}

#[test]
fn pictures_are_sent_in_base64() {
    let encoded = |b: &[u8]| String::from_utf8(picture_bytes(&b.to_vec()).unwrap()).unwrap();
    assert_eq!(encoded(b""), "");
    assert_eq!(encoded(b"f"), "Zg==");
    assert_eq!(encoded(b"fo"), "Zm8=");
    assert_eq!(encoded(b"foo"), "Zm9v");
    assert_eq!(encoded(b"foobar"), "Zm9vYmFy");
    assert_eq!(encoded(&[0xfb, 0xff, 0xfe]), "+//+");
}

#[test]
fn overlays_are_asked_for_in_a_form() {
    let p = form_parameters("spec=%2Ftmp%2Fa+b.toml&experiment=e1&dry_run=TRUE&nodes=3&nodes=4");
    let r = overlay_request(&p).unwrap();
    assert_eq!(r.spec_path, "/tmp/a b.toml");
    assert_eq!(r.experiment.as_deref(), Some("e1"));
    assert!(r.dry_run);
    let o = base_options(&p, 7).unwrap();
    assert_eq!((o.nodes, o.paths, o.reuse), (4, Some(2), true));
    let o = base_options(&form_parameters("reuse=False&paths=x"), 7).unwrap();
    assert_eq!((o.nodes, o.paths, o.reuse), (7, Some(2), false));
    assert_eq!(
        base_options(&p, 0).unwrap_err(),
        "Spec did not produce any hosts (host_pool?)"
    );
    assert_eq!(
        overlay_request(&form_parameters("")).unwrap_err(),
        "Missing `spec` parameter"
    );
    assert!(parse_bool(Some(&"1".to_string())));
    assert!(!parse_bool(Some(&"yes".to_string())));
    assert!(!parse_bool(None));
}

#[test]
fn overlay_commands_run_in_their_namespace() {
    let hosts = params(&[("v1", "host1")]);
    assert_eq!(
        placed_command(Some(&hosts), "v1", "ls"),
        ("host1".to_string(), "ip netns exec ns-v1 ls".to_string())
    );
    assert_eq!(
        placed_command(Some(&hosts), "v2", "ls"),
        ("v2".to_string(), "ls".to_string())
    );
    assert_eq!(placed_command(None, "v1", "ls"), ("v1".to_string(), "ls".to_string()));
    assert_eq!(
        overlay_reply(2, "e", true),
        "Base started (2 nodes), overlay dry-run completed on experiment e"
    );
    assert_eq!(
        overlay_reply(2, "e", false),
        "Base started (2 nodes), overlay applied on experiment e"
    );
}

#[test]
fn overlay_links_have_addresses() {
    let end = |n: &str| Endpoint { node: n.to_string(), intf: "eth0".to_string() };
    let plan = PlanResult {
        host_plans: vec![HostPlan {
            host: "h".to_string(),
            bridge: "br0".to_string(),
            vxlan_devices: vec![],
            vlan_links: vec![VlanLink {
                vlan_id: 1203,
                vxlan_dev: "vx1".to_string(),
                endpoints: [end("a"), end("b")],
                impairment: None,
            }],
        }],
    };
    let links = overlay_links(&plan);
    assert_eq!(links.len(), 1);
    assert_eq!(links[0].first.ip, "192.168.53.1/30");
    assert_eq!(links[0].second.ip, "192.168.53.2/30");
    assert_eq!((links[0].first.node.as_str(), links[0].second.node.as_str()), ("a", "b"));
}

#[test]
fn nodes_are_on_their_hosts() {
    let spec = multipath_xr::big_virtual_wall::overlay::OverlaySpec {
        hosts: vec![],
        nodes: vec![
            OverlayNode { name: "a".to_string(), host: "auto".to_string(), interfaces: vec![] },
            OverlayNode { name: "b".to_string(), host: "h2".to_string(), interfaces: vec![] },
        ],
        links: vec![],
        tunnels: vec![],
        host_pool: None,
        virtual_pool: None,
        vlan_pool: None,
        vlan_bindings: None,
        vlan_start: 100,
    };
    let hosts = multipath_xr::controller::wall::hosts_of_nodes(&spec);
    assert_eq!(hosts.get("a").unwrap(), "a");
    assert_eq!(hosts.get("b").unwrap(), "h2");
}
