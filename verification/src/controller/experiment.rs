//! The experiment that runs, and the environment it runs in.

use vstd::prelude::*;

use crate::controller::actions::ActionExecutor;
use crate::controller::graph::{Graph, Link};
use crate::controller::metrics_buffer::MetricsLoggerError;
use crate::controller::metrics_logger::MetricsLogger;
use crate::controller::structs::{Environment, ExperimentFile, Role};
use crate::text::{chars, eq_ignore_case, i64_text, lowercase, same, trim, u64_text};

verus! {

/// The names of the environments.
pub open spec fn environment_names() -> Seq<Seq<char>> {
    seq!["mininet"@, "docker"@, "virtualwall"@, "virtualwalllite"@, "bigvirtualwall"@]
}

/// Whether there is an environment of a name.
pub fn is_supported(env: &str) -> (r: bool)
    ensures
        r == environment_names().contains(env@),
{
    let ghost names = environment_names();
    assert(names[0] == "mininet"@);
    assert(names[1] == "docker"@);
    assert(names[2] == "virtualwall"@);
    assert(names[3] == "virtualwalllite"@);
    assert(names[4] == "bigvirtualwall"@);
    assert(names.contains(env@) ==> exists|i: int| 0 <= i < 5 && names[i] == env@);
    same(env, "mininet") || same(env, "docker") || same(env, "virtualwall") || same(
        env,
        "virtualwalllite",
    ) || same(env, "bigvirtualwall")
}

/// A text without spaces.
pub open spec fn without_spaces(s: Seq<char>) -> Seq<char> {
    s.filter(|c: char| c != ' ')
}

fn remove_spaces(s: &str) -> (r: String)
    ensures
        r@ == without_spaces(s@),
{
    let x = chars(s);
    let ghost keep = |c: char| c != ' ';
    let mut out = String::new();
    let mut i: usize = 0;
    while i < x.len()
        invariant
            i <= x.len(),
            keep == (|c: char| c != ' '),
            out@ == x@.take(i as int).filter(keep),
        decreases x.len() - i,
    {
        assert(x@.take(i + 1).drop_last() =~= x@.take(i as int));
        reveal(Seq::filter);
        if x[i] != ' ' {
            out.push(x[i]);
        }
        i += 1;
    }
    assert(x@.take(i as int) =~= s@);
    out
}

/// A name and a value as they stand in options, or nothing where the value is empty.
pub open spec fn option_text(name: Seq<char>, value: Option<Seq<char>>) -> Seq<char> {
    match value {
        Some(v) => if v.len() > 0 {
            "&"@ + name + "="@ + v
        } else {
            Seq::empty()
        },
        None => Seq::empty(),
    }
}

/// A topology as it stands in options.
pub open spec fn topology_option(t: Option<String>) -> Option<Seq<char>> {
    match t {
        Some(t) => Some(crate::text::lowercase_of(crate::text::trimmed(t@))),
        None => None,
    }
}

/// A list as it stands in options.
pub open spec fn list_option(t: Option<String>) -> Option<Seq<char>> {
    match t {
        Some(t) => Some(without_spaces(crate::text::trimmed(t@))),
        None => None,
    }
}

/// A switch as it stands in options.
pub open spec fn switch_option(b: Option<bool>) -> Option<Seq<char>> {
    match b {
        Some(b) => Some(
            if b {
                "true"@
            } else {
                "false"@
            },
        ),
        None => None,
    }
}

/// The options with which an environment is started, given the topology as it stands in them.
pub open spec fn start_options_with(
    env: Seq<char>,
    e: Environment,
    topology: Option<Seq<char>>,
    bandwidth: Option<Seq<char>>,
) -> Seq<char> {
    "n_nodes="@ + crate::text::dec(e.number_of_nodes as nat) + "&n_paths="@ + crate::text::dec(
        e.number_of_paths as nat,
    ) + option_text("topology"@, topology) + option_text(
        "geant_cities"@,
        list_option(e.geant_cities),
    ) + option_text("geant_weighted_nexthops"@, switch_option(e.geant_weighted_nexthops))
        + option_text("geant_hop_weights"@, list_option(e.geant_hop_weights)) + option_text(
        "default_link_bw_mbit"@,
        if env == "mininet"@ {
            bandwidth
        } else {
            None
        },
    )
}

/// The options with which an environment is started.
pub open spec fn start_options(
    env: Seq<char>,
    e: Environment,
    bandwidth: Option<Seq<char>>,
) -> Seq<char> {
    start_options_with(env, e, topology_option(e.topology), bandwidth)
}

fn add_option(out: &mut String, name: &str, value: Option<&str>)
    ensures
        final(out)@ == old(out)@ + option_text(name@, crate::text::opt_str(value)),
{
    let ghost before = out@;
    match value {
        Some(v) => {
            if !v.is_empty() {
                out.append("&");
                out.append(name);
                out.append("=");
                out.append(v);
                assert(out@ =~= before + ("&"@ + name@ + "="@ + v@));
            } else {
                assert(out@ =~= before + Seq::<char>::empty());
            }
        },
        None => {
            assert(out@ =~= before + Seq::<char>::empty());
        },
    }
}

fn add_list(out: &mut String, name: &str, value: &Option<String>)
    ensures
        final(out)@ == old(out)@ + option_text(name@, list_option(*value)),
{
    match value {
        Some(v) => {
            let plain = remove_spaces(trim(v.as_str()));
            add_option(out, name, Some(plain.as_str()));
        },
        None => {
            add_option(out, name, None);
        },
    }
}

/// The options with which an environment is started, given the topology as it stands in them. A
/// bandwidth is passed on to Mininet only.
pub fn options_with(
    env: &str,
    e: &Environment,
    topology: Option<&str>,
    bandwidth: Option<&str>,
) -> (r: String)
    ensures
        r@ == start_options_with(
            env@,
            *e,
            crate::text::opt_str(topology),
            crate::text::opt_str(bandwidth),
        ),
{
    let mut out = "n_nodes=".to_owned().concat(u64_text(e.number_of_nodes as u64).as_str()).concat(
        "&n_paths=",
    ).concat(u64_text(e.number_of_paths as u64).as_str());
    add_option(&mut out, "topology", topology);
    add_list(&mut out, "geant_cities", &e.geant_cities);
    proof {
        reveal_strlit("true");
        reveal_strlit("false");
    }
    match e.geant_weighted_nexthops {
        Some(b) => {
            let text = if b {
                "true"
            } else {
                "false"
            };
            add_option(&mut out, "geant_weighted_nexthops", Some(text));
        },
        None => {
            add_option(&mut out, "geant_weighted_nexthops", None);
        },
    }
    add_list(&mut out, "geant_hop_weights", &e.geant_hop_weights);
    if same(env, "mininet") {
        add_option(&mut out, "default_link_bw_mbit", bandwidth);
    } else {
        add_option(&mut out, "default_link_bw_mbit", None);
    }
    out
}

/// The options with which an environment is started, the topology in lowercase.
pub fn options_of(env: &str, e: &Environment, bandwidth: Option<&str>) -> (r: String)
    ensures
        r@ == start_options(env@, *e, crate::text::opt_str(bandwidth)),
{
    match &e.topology {
        Some(t) => {
            let plain = lowercase(trim(t.as_str()));
            options_with(env, e, Some(plain.as_str()), bandwidth)
        },
        None => options_with(env, e, None, bandwidth),
    }
}

/// A switch that is off where it is not given.
pub open spec fn or_off(b: Option<bool>) -> Option<bool> {
    Some(b == Some(true))
}

/// A role with its switches set.
pub open spec fn completed_role(r: Role) -> Role {
    Role {
        visible: or_off(r.visible),
        disable_parser: or_off(r.disable_parser),
        proxy: or_off(r.proxy),
        ..r
    }
}

/// Whether an experiment is another one with the switches of its roles set.
pub open spec fn is_completed(r: ExperimentFile, e: ExperimentFile) -> bool {
    &&& r.experiment_name == e.experiment_name
    &&& r.description == e.description
    &&& r.actions == e.actions
    &&& r.environment.name == e.environment.name
    &&& r.environment.number_of_nodes == e.environment.number_of_nodes
    &&& r.environment.number_of_paths == e.environment.number_of_paths
    &&& r.environment.topology == e.environment.topology
    &&& r.environment.geant_cities == e.environment.geant_cities
    &&& r.environment.geant_weighted_nexthops == e.environment.geant_weighted_nexthops
    &&& r.environment.geant_hop_weights == e.environment.geant_hop_weights
    &&& r.environment.roles@ == Seq::new(
        e.environment.roles@.len(),
        |i: int| completed_role(e.environment.roles@[i]),
    )
}

fn set_switch(b: Option<bool>) -> (r: Option<bool>)
    ensures
        r == or_off(b),
{
    match b {
        Some(b) => Some(b),
        None => Some(false),
    }
}

/// An experiment with the switches of its roles set: those that are not given are off.
pub fn complete_roles(e: ExperimentFile) -> (r: ExperimentFile)
    ensures
        is_completed(r, e),
{
    let mut r = e;
    let mut rest = Vec::new();
    std::mem::swap(&mut rest, &mut r.environment.roles);
    let ghost given = rest@;
    let mut roles: Vec<Role> = Vec::new();
    assert(given.skip(0) =~= given);
    while rest.len() > 0
        invariant
            roles@.len() <= given.len(),
            rest@ == given.skip(roles@.len() as int),
            forall|i: int|
                0 <= i < roles@.len() ==> #[trigger] roles@[i] == completed_role(given[i]),
        decreases rest.len(),
    {
        let ghost n = roles@.len() as int;
        let mut role = rest.remove(0);
        assert(rest@ =~= given.skip(n + 1));
        role.visible = set_switch(role.visible);
        role.disable_parser = set_switch(role.disable_parser);
        role.proxy = set_switch(role.proxy);
        roles.push(role);
    }
    assert(roles@ =~= Seq::new(given.len(), |i: int| completed_role(given[i])));
    r.environment.roles = roles;
    r
}

/// Completing an experiment that is complete changes nothing in its roles.
pub proof fn completing_is_stable(r: Role)
    ensures
        completed_role(completed_role(r)) == completed_role(r),
{
}

/// What is asked of an environment.
#[derive(Debug, Clone, Copy, PartialEq, Eq, Structural)]
pub enum Purpose {
    Stop,
    CleanUp,
    ExecuteCommand,
    GetNodes,
    GetLinks,
    GetStatus,
    Visualize,
    StartXterm,
    Ping,
    OpenTunnel,
    CloseTunnel,
    ListTunnels,
}

/// What is asked, in words.
pub open spec fn purpose_text(p: Purpose) -> Seq<char> {
    match p {
        Purpose::Stop => "stop"@,
        Purpose::CleanUp => "clean up"@,
        Purpose::ExecuteCommand => "execute command"@,
        Purpose::GetNodes => "get nodes"@,
        Purpose::GetLinks => "get links"@,
        Purpose::GetStatus => "get status"@,
        Purpose::Visualize => "visualize"@,
        Purpose::StartXterm => "start xterm"@,
        Purpose::Ping => "ping"@,
        Purpose::OpenTunnel => "open a tunnel"@,
        Purpose::CloseTunnel => "close a tunnel"@,
        Purpose::ListTunnels => "list tunnels"@,
    }
}

impl Purpose {
    /// What is asked, in words.
    pub fn text(self) -> (r: &'static str)
        ensures
            r@ == purpose_text(self),
    {
        match self {
            Purpose::Stop => "stop",
            Purpose::CleanUp => "clean up",
            Purpose::ExecuteCommand => "execute command",
            Purpose::GetNodes => "get nodes",
            Purpose::GetLinks => "get links",
            Purpose::GetStatus => "get status",
            Purpose::Visualize => "visualize",
            Purpose::StartXterm => "start xterm",
            Purpose::Ping => "ping",
            Purpose::OpenTunnel => "open a tunnel",
            Purpose::CloseTunnel => "close a tunnel",
            Purpose::ListTunnels => "list tunnels",
        }
    }
}

/// What an environment or a document gave.
#[derive(Debug)]
pub enum Answer<T> {
    /// The environment failed.
    Failed(String),
    /// The answer is not of the expected form.
    Invalid(String),
    Given(Vec<T>),
}

/// A node as an environment names it.
#[derive(Debug)]
pub struct NamedNode {
    pub name: Option<String>,
    pub node_type: Option<String>,
}

/// A text, or another one where there is none.
pub open spec fn text_or(o: Option<String>, other: Seq<char>) -> Seq<char> {
    match o {
        Some(s) => s@,
        None => other,
    }
}

/// The nodes of a graph after some more were added.
pub open spec fn nodes_added(
    nodes: Map<Seq<char>, crate::controller::graph::NodeView>,
    more: Seq<NamedNode>,
) -> Map<Seq<char>, crate::controller::graph::NodeView>
    decreases more.len(),
{
    if more.len() == 0 {
        nodes
    } else {
        let before = nodes_added(nodes, more.drop_last());
        let name = text_or(more.last().name, "unknown"@);
        before.insert(
            name,
            crate::controller::graph::node_or_new(
                before,
                name,
                text_or(more.last().node_type, "Unknown"@),
            ),
        )
    }
}

/// A graph after some links were added.
pub open spec fn links_added(
    g: crate::controller::graph::GraphView,
    links: Seq<Result<Link, String>>,
) -> crate::controller::graph::GraphView
    decreases links.len(),
{
    if links.len() == 0 {
        g
    } else {
        let before = links_added(g, links.drop_last());
        match links.last() {
            Ok(link) => crate::controller::graph::link_added(before, link),
            Err(_) => before,
        }
    }
}

/// The graph of some nodes and links.
pub open spec fn graph_of(
    nodes: Seq<NamedNode>,
    links: Seq<Result<Link, String>>,
) -> crate::controller::graph::GraphView {
    links_added(
        crate::controller::graph::GraphView {
            nodes: nodes_added(Map::empty(), nodes),
            links: Seq::empty(),
        },
        links,
    )
}

/// Whether all of some links were understood.
pub open spec fn all_understood(links: Seq<Result<Link, String>>) -> bool {
    forall|i: int| 0 <= i < links.len() ==> (#[trigger] links[i]) is Ok
}

/// Whether a message names the first link that was not understood.
pub open spec fn names_first_failure(message: Seq<char>, links: Seq<Result<Link, String>>) -> bool {
    exists|i: int|
        0 <= i < links.len() && all_understood(links.take(i)) && (#[trigger] links[i] matches Err(e)
            && message == "Invalid link format: "@ + e@)
}

/// Whether a result is the graph of what was answered, or the first failure.
pub open spec fn is_generated(
    r: Result<Graph, String>,
    nodes: Answer<NamedNode>,
    links: Answer<Result<Link, String>>,
) -> bool {
    match (nodes, links) {
        (Answer::Failed(e), _) => r matches Err(m) && m@ == "Failed to get nodes: "@ + e@,
        (_, Answer::Failed(e)) => r matches Err(m) && m@ == "Failed to get links: "@ + e@,
        (Answer::Invalid(e), _) => r matches Err(m) && m@ == "Invalid nodes JSON: "@ + e@,
        (_, Answer::Invalid(e)) => r matches Err(m) && m@ == "Invalid links JSON: "@ + e@,
        (Answer::Given(n), Answer::Given(l)) => if all_understood(l@) {
            r matches Ok(g) && g@ == graph_of(n@, l@) && crate::controller::graph::is_linked(g@)
        } else {
            r matches Err(m) && names_first_failure(m@, l@)
        },
    }
}

fn add_nodes(nodes: &Vec<NamedNode>) -> (r: Graph)
    ensures
        r@.nodes == nodes_added(Map::empty(), nodes@),
        r@.links == Seq::<Link>::empty(),
        crate::controller::graph::is_linked(r@),
{
    let mut g = Graph::new();
    let mut i: usize = 0;
    while i < nodes.len()
        invariant
            i <= nodes.len(),
            g@.nodes == nodes_added(Map::empty(), nodes@.take(i as int)),
            g@.links == Seq::<Link>::empty(),
            crate::controller::graph::is_linked(g@),
        decreases nodes.len() - i,
    {
        assert(nodes@.take(i + 1).drop_last() =~= nodes@.take(i as int));
        let name = match &nodes[i].name {
            Some(s) => s.as_str(),
            None => "unknown",
        };
        let node_type = match &nodes[i].node_type {
            Some(s) => s.as_str(),
            None => "Unknown",
        };
        g.add_node(name, node_type);
        i += 1;
    }
    assert(nodes@.take(i as int) =~= nodes@);
    g
}

fn add_links(nodes: &Vec<NamedNode>, links: &Vec<Result<Link, String>>) -> (r: Result<
    Graph,
    String,
>)
    ensures
        if all_understood(links@) {
            r matches Ok(g) && g@ == graph_of(nodes@, links@)
                && crate::controller::graph::is_linked(g@)
        } else {
            r matches Err(m) && names_first_failure(m@, links@)
        },
{
    let mut g = add_nodes(nodes);
    let ghost bare = g@;
    assert(bare == crate::controller::graph::GraphView {
        nodes: nodes_added(Map::empty(), nodes@),
        links: Seq::empty(),
    });
    let mut i: usize = 0;
    while i < links.len()
        invariant
            i <= links.len(),
            g@ == links_added(bare, links@.take(i as int)),
            all_understood(links@.take(i as int)),
            crate::controller::graph::is_linked(g@),
        decreases links.len() - i,
    {
        assert(links@.take(i + 1).drop_last() =~= links@.take(i as int));
        match &links[i] {
            Ok(link) => {
                g.add_link(link.clone());
            },
            Err(e) => {
                let m = "Invalid link format: ".to_owned().concat(e.as_str());
                assert(links@[i as int] is Err);
                return Err(m);
            },
        }
        assert forall|j: int| 0 <= j < i + 1 implies (#[trigger] links@.take(i + 1)[j]) is Ok by {
            if j < i {
                assert(links@.take(i as int)[j] is Ok);
            }
        }
        i += 1;
    }
    assert(links@.take(i as int) =~= links@);
    Ok(g)
}

/// The graph of the nodes and links that an environment has.
pub fn generate_graph(nodes: Answer<NamedNode>, links: Answer<Result<Link, String>>) -> (r: Result<
    Graph,
    String,
>)
    ensures
        is_generated(r, nodes, links),
{
    match (nodes, links) {
        (Answer::Failed(e), _) => Err("Failed to get nodes: ".to_owned().concat(e.as_str())),
        (_, Answer::Failed(e)) => Err("Failed to get links: ".to_owned().concat(e.as_str())),
        (Answer::Invalid(e), _) => Err("Invalid nodes JSON: ".to_owned().concat(e.as_str())),
        (_, Answer::Invalid(e)) => Err("Invalid links JSON: ".to_owned().concat(e.as_str())),
        (Answer::Given(nodes), Answer::Given(links)) => add_links(&nodes, &links),
    }
}

/// What remains to be stopped when an environment stops.
pub struct Stopping<V> {
    /// The metrics logger, which is no longer in use.
    pub logger: Option<MetricsLogger<V>>,
    /// The actions, which are no longer carried out.
    pub executor: Option<ActionExecutor>,
    /// The environment to stop.
    pub environment: Result<String, String>,
}

/// The experiment that runs, and the environment it runs in.
pub struct ExperimentHandler<V> {
    pub active_environment: Option<String>,
    pub current_experiment: Option<ExperimentFile>,
    pub action_executor: Option<ActionExecutor>,
    pub graph: Option<Graph>,
    pub metrics_logger: Option<MetricsLogger<V>>,
}

/// Whether experiments of this kind let routes be updated.
pub open spec fn updates_routes(e: Option<ExperimentFile>) -> bool {
    match e {
        Some(e) => (e.environment.topology matches Some(t) && crate::text::same_ignoring_case(
            crate::text::trimmed(t@),
            "geant"@,
        )) && e.environment.geant_weighted_nexthops == Some(true),
        None => false,
    }
}

impl<V: Copy> ExperimentHandler<V> {
    /// Whether nothing of an environment is left.
    pub open spec fn is_clear(self) -> bool {
        &&& self.active_environment is None
        &&& self.current_experiment is None
        &&& self.action_executor is None
        &&& self.graph is None
    }

    /// Whether an environment is named and a graph or actions exist only with an experiment.
    pub open spec fn wf(self) -> bool {
        &&& self.active_environment matches Some(env) ==> environment_names().contains(env@)
        &&& self.current_experiment is Some ==> self.active_environment is Some
        &&& self.action_executor is Some ==> self.current_experiment is Some
        &&& self.graph is Some ==> self.current_experiment is Some
        &&& self.graph matches Some(g) ==> crate::controller::graph::is_linked(g@)
        &&& self.metrics_logger matches Some(l) ==> l.wf()
    }

    /// A handler without an environment.
    pub fn new() -> (r: Self)
        ensures
            r.wf(),
            r.is_clear(),
            r.metrics_logger is None,
    {
        ExperimentHandler {
            active_environment: None,
            current_experiment: None,
            action_executor: None,
            graph: None,
            metrics_logger: None,
        }
    }

    /// Forgets the environment. The metrics logger stays.
    pub fn clear_environment_runtime_state(&mut self)
        requires
            old(self).wf(),
        ensures
            final(self).wf(),
            final(self).is_clear(),
            final(self).metrics_logger == old(self).metrics_logger,
    {
        self.active_environment = None;
        self.current_experiment = None;
        self.action_executor = None;
        self.graph = None;
    }

    /// The experiment that runs.
    pub fn get_current_experiment(&self) -> (r: Option<&ExperimentFile>)
        ensures
            match r {
                Some(e) => self.current_experiment == Some(*e),
                None => self.current_experiment is None,
            },
    {
        self.current_experiment.as_ref()
    }

    /// The metrics logger.
    pub fn metrics_logger(&self) -> (r: Result<&MetricsLogger<V>, MetricsLoggerError>)
        ensures
            match r {
                Ok(l) => self.metrics_logger == Some(*l),
                Err(e) => self.metrics_logger is None && e is LoggerNotInitialized,
            },
    {
        match &self.metrics_logger {
            Some(l) => Ok(l),
            None => Err(MetricsLoggerError::LoggerNotInitialized),
        }
    }

    /// Whether routes may be updated: the topology is that of Geant, and its next hops are
    /// weighted.
    pub fn route_updates_enabled(&self) -> (r: bool)
        ensures
            r == updates_routes(self.current_experiment),
    {
        match &self.current_experiment {
            Some(e) => {
                let is_geant = match &e.environment.topology {
                    Some(t) => eq_ignore_case(trim(t.as_str()), "geant"),
                    None => false,
                };
                let is_weighted = match e.environment.geant_weighted_nexthops {
                    Some(b) => b,
                    None => false,
                };
                is_geant && is_weighted
            },
            None => false,
        }
    }

    /// Chooses an environment, and gives the path of the experiment to read.
    pub fn start_environment(&mut self, env: &str, experiment_filename: &str) -> (r: Result<
        String,
        String,
    >)
        requires
            old(self).wf(),
        ensures
            final(self).wf(),
            final(self).metrics_logger == old(self).metrics_logger,
            match r {
                Ok(path) => {
                    &&& environment_names().contains(env@)
                    &&& path@ == "./dist/experiments/"@ + experiment_filename@
                    &&& crate::text::opt_text(final(self).active_environment) == Some(env@)
                    &&& final(self).current_experiment is None
                    &&& final(self).action_executor is None
                    &&& final(self).graph is None
                },
                Err(e) => {
                    &&& !environment_names().contains(env@)
                    &&& e@ == "Environment '"@ + env@ + "' is not supported"@
                    &&& *final(self) == *old(self)
                },
            },
    {
        if !is_supported(env) {
            return Err("Environment '".to_owned().concat(env).concat("' is not supported"));
        }
        self.clear_environment_runtime_state();
        self.active_environment = Some(env.to_owned());
        Ok("./dist/experiments/".to_owned().concat(experiment_filename))
    }

    /// Takes up the experiment that was read, and gives the options to start the environment
    /// with.
    pub fn load_experiment(&mut self, env: &str, parsed: ExperimentFile, bandwidth: Option<&str>)
        -> (r: String)
        requires
            old(self).wf(),
            old(self).active_environment is Some,
        ensures
            final(self).wf(),
            final(self).active_environment == old(self).active_environment,
            final(self).action_executor == old(self).action_executor,
            final(self).graph == old(self).graph,
            final(self).metrics_logger == old(self).metrics_logger,
            final(self).current_experiment matches Some(e) && is_completed(e, parsed),
            r@ == start_options(env@, parsed.environment, crate::text::opt_str(bandwidth)),
    {
        let options = options_of(env, &parsed.environment, bandwidth);
        self.current_experiment = Some(complete_roles(parsed));
        options
    }

    /// Takes note of how starting the environment went: where it failed, it is forgotten.
    pub fn environment_started(&mut self, env: &str, outcome: Result<(), String>) -> (r: Result<
        (),
        String,
    >)
        requires
            old(self).wf(),
        ensures
            final(self).wf(),
            match outcome {
                Ok(_) => r is Ok && *final(self) == *old(self),
                Err(e) => {
                    &&& r matches Err(m) && m@ == "Failed to start environment '"@ + env@ + "': "@
                        + e@
                    &&& final(self).is_clear()
                    &&& final(self).metrics_logger == old(self).metrics_logger
                },
            },
    {
        match outcome {
            Ok(_) => Ok(()),
            Err(e) => {
                self.clear_environment_runtime_state();
                Err(
                    "Failed to start environment '".to_owned().concat(env).concat("': ").concat(
                        e.as_str(),
                    ),
                )
            },
        }
    }

    /// Starts a metrics logger for the experiment.
    pub fn use_logger(&mut self, logger: MetricsLogger<V>) -> (r: Result<(), String>)
        requires
            old(self).wf(),
            logger.wf(),
        ensures
            final(self).wf(),
            final(self).active_environment == old(self).active_environment,
            final(self).current_experiment == old(self).current_experiment,
            final(self).action_executor == old(self).action_executor,
            final(self).graph == old(self).graph,
            if logger.is_running() {
                &&& r matches Err(m) && m@ == "AlreadyRunning"@
                &&& final(self).metrics_logger == old(self).metrics_logger
            } else {
                &&& r is Ok
                &&& final(self).metrics_logger matches Some(l) && l.is_running()
                    && l.is_accepting() && l.contents() == logger.contents() && l.revisions()
                    == logger.revisions() && l.known_metrics() == logger.known_metrics()
                    && l.asked_metrics() == logger.asked_metrics() && l.folder()
                    == logger.folder()
            },
    {
        let mut logger = logger;
        match logger.start() {
            Ok(_) => {
                self.metrics_logger = Some(logger);
                Ok(())
            },
            Err(e) => Err(e.name()),
        }
    }

    /// Takes up the graph of the environment, and the actions of the experiment.
    pub fn generate_graph(
        &mut self,
        env: &str,
        nodes: Answer<NamedNode>,
        links: Answer<Result<Link, String>>,
    ) -> (r: Result<String, String>)
        requires
            old(self).wf(),
            old(self).current_experiment is Some,
        ensures
            final(self).wf(),
            final(self).active_environment == old(self).active_environment,
            final(self).current_experiment == old(self).current_experiment,
            final(self).metrics_logger == old(self).metrics_logger,
            match r {
                Ok(m) => {
                    &&& m@ == "Environment '"@ + env@ + "' started successfully"@
                    &&& final(self).graph matches Some(g) && is_generated(Ok(g), nodes, links)
                    &&& final(self).action_executor matches Some(x) && !x.started && !x.stopped
                        && crate::controller::actions::are_resolved(
                        x.actions@,
                        old(self).current_experiment->0,
                    )
                },
                Err(m) => {
                    &&& is_generated(Err(m), nodes, links)
                    &&& *final(self) == *old(self)
                },
            },
    {
        let graph = generate_graph(nodes, links)?;
        self.graph = Some(graph);
        match &self.current_experiment {
            Some(e) => {
                self.action_executor = ActionExecutor::new_from_experiment(e);
            },
            None => {},
        }
        Ok("Environment '".to_owned().concat(env).concat("' started successfully"))
    }

    /// Starts the actions of the experiment: gives what to say, and the delays of the actions
    /// where they were not started before.
    pub fn start_actions(&mut self) -> (r: (String, Option<Vec<u64>>))
        requires
            old(self).wf(),
        ensures
            final(self).wf(),
            final(self).active_environment == old(self).active_environment,
            final(self).current_experiment == old(self).current_experiment,
            final(self).graph == old(self).graph,
            final(self).metrics_logger == old(self).metrics_logger,
            match old(self).action_executor {
                Some(x) => {
                    &&& r.0@ == "Experiment actions started successfully"@
                    &&& final(self).action_executor matches Some(y) && y.started && y.actions
                        == x.actions && y.stopped == x.stopped
                    &&& crate::controller::actions::are_delays(r.1, x)
                },
                None => {
                    &&& r.0@ == "No experiment actions are pending for this environment"@
                    &&& r.1 is None
                    &&& final(self).action_executor is None
                },
            },
    {
        match self.action_executor.take() {
            Some(x) => {
                let mut x = x;
                let delays = x.start();
                self.action_executor = Some(x);
                ("Experiment actions started successfully".to_owned(), delays)
            },
            None => ("No experiment actions are pending for this environment".to_owned(), None),
        }
    }

    /// Stops the actions and gives up the metrics logger, before the environment is stopped.
    pub fn stop_environment(&mut self) -> (r: Stopping<V>)
        requires
            old(self).wf(),
        ensures
            final(self).wf(),
            final(self).active_environment == old(self).active_environment,
            final(self).current_experiment == old(self).current_experiment,
            final(self).graph == old(self).graph,
            final(self).metrics_logger is None,
            final(self).action_executor is None,
            r.logger == old(self).metrics_logger,
            match old(self).action_executor {
                Some(x) => r.executor matches Some(y) && y.stopped && y.actions == x.actions,
                None => r.executor is None,
            },
            is_environment_for(r.environment, old(self).active_environment, Purpose::Stop),
    {
        let logger = self.metrics_logger.take();
        let executor = match self.action_executor.take() {
            Some(x) => {
                let mut x = x;
                x.stop();
                Some(x)
            },
            None => None,
        };
        let environment = self.environment_for(Purpose::Stop);
        Stopping { logger, executor, environment }
    }

    /// Takes note of whether the environment was stopped: where it was, it is forgotten.
    pub fn environment_stopped(&mut self, stopped: bool)
        requires
            old(self).wf(),
        ensures
            final(self).wf(),
            if stopped {
                final(self).is_clear() && final(self).metrics_logger == old(self).metrics_logger
            } else {
                *final(self) == *old(self)
            },
    {
        if stopped {
            self.clear_environment_runtime_state();
        }
    }

    /// The environment that a request goes to.
    pub fn environment_for(&self, purpose: Purpose) -> (r: Result<String, String>)
        ensures
            is_environment_for(r, self.active_environment, purpose),
    {
        match &self.active_environment {
            Some(env) => Ok(env.clone()),
            None => Err("No active environment to ".to_owned().concat(purpose.text())),
        }
    }
}

/// Whether a result is the active environment, or says that there is none.
pub open spec fn is_environment_for(
    r: Result<String, String>,
    active: Option<String>,
    purpose: Purpose,
) -> bool {
    match active {
        Some(env) => r matches Ok(e) && e@ == env@,
        None => r matches Err(m) && m@ == "No active environment to "@ + purpose_text(purpose),
    }
}

/// A text with underscores in place of points.
pub open spec fn without_points(s: Seq<char>) -> Seq<char> {
    Seq::new(
        s.len(),
        |i: int|
            if s[i] == '.' {
                '_'
            } else {
                s[i]
            },
    )
}

fn replace_points(s: &str) -> (r: String)
    ensures
        r@ == without_points(s@),
{
    let x = chars(s);
    let mut out = String::new();
    let mut i: usize = 0;
    while i < x.len()
        invariant
            i <= x.len(),
            out@ == without_points(x@.take(i as int)),
        decreases x.len() - i,
    {
        out.push(
            if x[i] == '.' {
                '_'
            } else {
                x[i]
            },
        );
        assert(out@ =~= without_points(x@.take(i + 1)));
        i += 1;
    }
    assert(x@.take(i as int) =~= s@);
    out
}

/// The components of the path under which the measurements of an experiment are kept.
pub fn measurement_folder(experiment_filename: &str, start_ms: i64) -> (r: Vec<String>)
    ensures
        crate::text::texts(r@) == seq![
            "metrics"@,
            "measurements"@,
            without_points(experiment_filename@),
            crate::text::dec_int(start_ms as int),
        ],
{
    let mut r: Vec<String> = Vec::new();
    r.push("metrics".to_owned());
    r.push("measurements".to_owned());
    r.push(replace_points(experiment_filename));
    r.push(i64_text(start_ms));
    assert(crate::text::texts(r@) =~= seq![
        "metrics"@,
        "measurements"@,
        without_points(experiment_filename@),
        crate::text::dec_int(start_ms as int),
    ]);
    r
}

/// The name of the copy of the experiment that is kept with its measurements.
pub fn experiment_copy_name(start_ms: i64) -> (r: String)
    ensures
        r@ == "experiment_"@ + crate::text::dec_int(start_ms as int) + ".yaml"@,
{
    "experiment_".to_owned().concat(i64_text(start_ms).as_str()).concat(".yaml")
}

/// The words for the experiment file that could not be read.
pub fn unreadable_experiment(e: &str) -> (r: String)
    ensures
        r@ == "Failed to read file: "@ + e@,
{
    "Failed to read file: ".to_owned().concat(e)
}

/// The words for the experiment file that could not be understood.
pub fn invalid_experiment(e: &str) -> (r: String)
    ensures
        r@ == "Failed to parse YAML: "@ + e@,
{
    "Failed to parse YAML: ".to_owned().concat(e)
}

/// The options of a start begin with the numbers of nodes and paths, and hold each of the others
/// that is set, under its own name; the rate of links is one for Mininet alone.
pub proof fn start_options_hold_what_is_set(
    env: Seq<char>,
    e: Environment,
    topology: Option<Seq<char>>,
    bandwidth: Option<Seq<char>>,
)
    ensures
        ({
            let line = start_options_with(env, e, topology, bandwidth);
            &&& crate::text::begins(
                line,
                "n_nodes="@ + crate::text::dec(e.number_of_nodes as nat) + "&n_paths="@
                    + crate::text::dec(e.number_of_paths as nat),
            )
            &&& topology matches Some(t) ==> t.len() > 0 ==> crate::text::holds(
                line,
                "&"@ + "topology"@ + "="@ + t,
            )
            &&& e.geant_weighted_nexthops matches Some(b) ==> crate::text::holds(
                line,
                "&"@ + "geant_weighted_nexthops"@ + "="@ + (if b { "true"@ } else { "false"@ }),
            )
            &&& env == "mininet"@ ==> (bandwidth matches Some(b) ==> b.len() > 0
                ==> crate::text::ends(line, "&"@ + "default_link_bw_mbit"@ + "="@ + b))
        }),
{
    reveal_strlit("true");
    reveal_strlit("false");
    let head = "n_nodes="@ + crate::text::dec(e.number_of_nodes as nat) + "&n_paths="@
        + crate::text::dec(e.number_of_paths as nat);
    let a = option_text("topology"@, topology);
    let b = option_text("geant_cities"@, list_option(e.geant_cities));
    let c = option_text("geant_weighted_nexthops"@, switch_option(e.geant_weighted_nexthops));
    let d = option_text("geant_hop_weights"@, list_option(e.geant_hop_weights));
    let f = option_text(
        "default_link_bw_mbit"@,
        if env == "mininet"@ {
            bandwidth
        } else {
            None
        },
    );
    let line = head + a + b + c + d + f;
    assert(line == start_options_with(env, e, topology, bandwidth));
    assert(line.subrange(0, head.len() as int) =~= head);
    assert(line.subrange(line.len() - f.len(), line.len() as int) =~= f);
    crate::text::holds_its_end(head, a);
    crate::text::holds_in_a_part(head + a, b, a);
    crate::text::holds_in_a_part(head + a + b, c, a);
    crate::text::holds_in_a_part(head + a + b + c, d, a);
    crate::text::holds_in_a_part(head + a + b + c + d, f, a);
    crate::text::holds_its_end(head + a + b, c);
    crate::text::holds_in_a_part(head + a + b + c, d, c);
    crate::text::holds_in_a_part(head + a + b + c + d, f, c);
}

/// Completing an experiment sets the switches of its roles that are left open to off, and changes
/// nothing else.
pub proof fn open_switches_are_off(r: ExperimentFile, e: ExperimentFile, i: int)
    requires
        is_completed(r, e),
        0 <= i < e.environment.roles@.len(),
    ensures
        ({
            let (before, after) = (e.environment.roles@[i], r.environment.roles@[i]);
            &&& r.environment.roles@.len() == e.environment.roles@.len()
            &&& after.visible == Some(before.visible is Some && before.visible->0)
            &&& after.disable_parser == Some(
                before.disable_parser is Some && before.disable_parser->0,
            )
            &&& after.proxy == Some(before.proxy is Some && before.proxy->0)
            &&& after == (Role {
                visible: after.visible,
                disable_parser: after.disable_parser,
                proxy: after.proxy,
                ..before
            })
            &&& r.actions == e.actions
            &&& r.environment.number_of_nodes == e.environment.number_of_nodes
            &&& r.environment.number_of_paths == e.environment.number_of_paths
        }),
{
}

/// The graph has every link that was understood, in the order in which they were given.
pub proof fn graphs_have_every_link(nodes: Seq<NamedNode>, links: Seq<Result<Link, String>>)
    requires
        all_understood(links),
    ensures
        graph_of(nodes, links).links.len() == links.len(),
        forall|i: int|
            0 <= i < links.len() ==> #[trigger] graph_of(nodes, links).links[i]
                == links[i]->Ok_0,
    decreases links.len(),
{
    if links.len() > 0 {
        let front = links.drop_last();
        assert forall|i: int| 0 <= i < front.len() implies (#[trigger] front[i]) is Ok by {
            assert(links[i] is Ok);
        }
        graphs_have_every_link(nodes, front);
        assert(links[links.len() - 1] is Ok);
        assert forall|i: int| 0 <= i < links.len() implies #[trigger] graph_of(nodes, links).links[i]
            == links[i]->Ok_0 by {
            if i < front.len() {
                assert(graph_of(nodes, front).links[i] == front[i]->Ok_0);
            }
        }
    }
}

proof fn named_nodes_are_added(
    nodes: Map<Seq<char>, crate::controller::graph::NodeView>,
    more: Seq<NamedNode>,
    k: int,
)
    requires
        0 <= k < more.len(),
        more[k].name is Some,
    ensures
        nodes_added(nodes, more).dom().contains(more[k].name->0@),
        !nodes.dom().contains(more[k].name->0@) && more[k].node_type is Some && (forall|i: int|
            0 <= i < k ==> (#[trigger] more[i]).name is Some && more[i].name->0@
                != more[k].name->0@) ==> nodes_added(nodes, more)[more[k].name->0@].node_type
            == more[k].node_type->0@,
    decreases more.len(),
{
    let front = more.drop_last();
    let name = more[k].name->0@;
    if k < front.len() {
        assert(front[k] == more[k]);
        if forall|i: int|
            0 <= i < k ==> (#[trigger] more[i]).name is Some && more[i].name->0@ != name {
            assert forall|i: int| 0 <= i < k implies (#[trigger] front[i]).name is Some
                && front[i].name->0@ != name by {
                assert(front[i] == more[i]);
            }
        }
        named_nodes_are_added(nodes, front, k);
    } else {
        if forall|i: int|
            0 <= i < k ==> (#[trigger] more[i]).name is Some && more[i].name->0@ != name {
            assert forall|i: int| 0 <= i < front.len() implies (#[trigger] front[i]).name is Some
                && front[i].name->0@ != name by {
                assert(front[i] == more[i]);
            }
            other_names_are_not_added(nodes, front, name);
        }
    }
}

proof fn other_names_are_not_added(
    nodes: Map<Seq<char>, crate::controller::graph::NodeView>,
    more: Seq<NamedNode>,
    name: Seq<char>,
)
    requires
        forall|i: int|
            0 <= i < more.len() ==> (#[trigger] more[i]).name is Some && more[i].name->0@ != name,
    ensures
        nodes_added(nodes, more).dom().contains(name) == nodes.dom().contains(name),
    decreases more.len(),
{
    if more.len() > 0 {
        let front = more.drop_last();
        assert forall|i: int| 0 <= i < front.len() implies (#[trigger] front[i]).name is Some
            && front[i].name->0@ != name by {
            assert(front[i] == more[i]);
        }
        assert(more[more.len() - 1].name->0@ != name);
        other_names_are_not_added(nodes, front, name);
    }
}

proof fn nodes_stay_when_links_are_added(
    g: crate::controller::graph::GraphView,
    links: Seq<Result<Link, String>>,
    name: Seq<char>,
)
    requires
        g.nodes.dom().contains(name),
    ensures
        links_added(g, links).nodes.dom().contains(name),
        links_added(g, links).nodes[name].node_type == g.nodes[name].node_type,
    decreases links.len(),
{
    if links.len() > 0 {
        nodes_stay_when_links_are_added(g, links.drop_last(), name);
    }
}

/// The graph has every node that is named, of the kind that is given for it first.
pub proof fn graphs_have_every_node(
    nodes: Seq<NamedNode>,
    links: Seq<Result<Link, String>>,
    k: int,
)
    requires
        0 <= k < nodes.len(),
        nodes[k].name is Some,
    ensures
        graph_of(nodes, links).nodes.dom().contains(nodes[k].name->0@),
        nodes[k].node_type is Some && (forall|i: int|
            0 <= i < k ==> (#[trigger] nodes[i]).name is Some && nodes[i].name->0@
                != nodes[k].name->0@) ==> graph_of(
            nodes,
            links,
        ).nodes[nodes[k].name->0@].node_type == nodes[k].node_type->0@,
{
    named_nodes_are_added(Map::empty(), nodes, k);
    nodes_stay_when_links_are_added(
        crate::controller::graph::GraphView {
            nodes: nodes_added(Map::empty(), nodes),
            links: Seq::empty(),
        },
        links,
        nodes[k].name->0@,
    );
}

/// A graph is made where both the nodes and the links were answered and every link was understood,
/// and only there.
pub proof fn graphs_are_made_of_what_is_understood(
    r: Result<Graph, String>,
    nodes: Answer<NamedNode>,
    links: Answer<Result<Link, String>>,
)
    requires
        is_generated(r, nodes, links),
    ensures
        r is Ok <==> nodes is Given && (links matches Answer::Given(l) && forall|i: int|
            0 <= i < l@.len() ==> (#[trigger] l@[i]) is Ok),
{
}

/// Weights of routes can be changed in a weighted GEANT experiment, and in no other one.
pub proof fn only_weighted_experiments_change_routes(e: ExperimentFile)
    ensures
        updates_routes(None) == false,
        e.environment.geant_weighted_nexthops != Some(true) ==> !updates_routes(Some(e)),
        e.environment.topology is None ==> !updates_routes(Some(e)),
        e.environment.geant_weighted_nexthops == Some(true) && e.environment.topology is Some
            && crate::text::trimmed(e.environment.topology->0@) == "geant"@ ==> updates_routes(
            Some(e),
        ),
{
}

/// The environments are these five.
pub proof fn environments_are_these(env: Seq<char>)
    ensures
        environment_names().contains(env) <==> env == "mininet"@ || env == "docker"@ || env
            == "virtualwall"@ || env == "virtualwalllite"@ || env == "bigvirtualwall"@,
{
    let names = environment_names();
    assert(names[0] == "mininet"@ && names[1] == "docker"@ && names[2] == "virtualwall"@ && names[3]
        == "virtualwalllite"@ && names[4] == "bigvirtualwall"@);
}

/// Points become underscores, and nothing else changes.
pub proof fn points_become_underscores(s: Seq<char>, i: int)
    requires
        0 <= i < s.len(),
    ensures
        without_points(s).len() == s.len(),
        s[i] == '.' ==> without_points(s)[i] == '_',
        s[i] != '.' ==> without_points(s)[i] == s[i],
{
}

/// Spaces are left out, and every other character stays.
pub proof fn spaces_alone_are_left_out(s: Seq<char>, c: char)
    ensures
        c == ' ' ==> without_spaces(s.push(c)) == without_spaces(s),
        c != ' ' ==> without_spaces(s.push(c)) == without_spaces(s).push(c),
        without_spaces(Seq::empty()) == Seq::<char>::empty(),
{
    reveal(Seq::filter);
    assert(s.push(c).drop_last() =~= s);
}

/// An option that is not set, or is set to nothing, is left out.
pub proof fn empty_options_are_left_out(name: Seq<char>, value: Seq<char>)
    ensures
        option_text(name, None) == Seq::<char>::empty(),
        option_text(name, Some(Seq::empty())) == Seq::<char>::empty(),
        value.len() > 0 ==> option_text(name, Some(value)) == "&"@ + name + "="@ + value,
{
}

/// Lists of cities and of weights are written without spaces, each under its own name.
pub proof fn lists_are_written_under_their_name(
    env: Seq<char>,
    e: Environment,
    topology: Option<Seq<char>>,
    bandwidth: Option<Seq<char>>,
)
    ensures
        ({
            let line = start_options_with(env, e, topology, bandwidth);
            &&& e.geant_cities matches Some(t) ==> without_spaces(crate::text::trimmed(t@)).len()
                > 0 ==> crate::text::holds(
                line,
                "&"@ + "geant_cities"@ + "="@ + without_spaces(crate::text::trimmed(t@)),
            )
            &&& e.geant_hop_weights matches Some(t) ==> without_spaces(
                crate::text::trimmed(t@),
            ).len() > 0 ==> crate::text::holds(
                line,
                "&"@ + "geant_hop_weights"@ + "="@ + without_spaces(crate::text::trimmed(t@)),
            )
        }),
{
    let head = "n_nodes="@ + crate::text::dec(e.number_of_nodes as nat) + "&n_paths="@
        + crate::text::dec(e.number_of_paths as nat);
    let a = option_text("topology"@, topology);
    let b = option_text("geant_cities"@, list_option(e.geant_cities));
    let c = option_text("geant_weighted_nexthops"@, switch_option(e.geant_weighted_nexthops));
    let d = option_text("geant_hop_weights"@, list_option(e.geant_hop_weights));
    let f = option_text(
        "default_link_bw_mbit"@,
        if env == "mininet"@ {
            bandwidth
        } else {
            None
        },
    );
    crate::text::holds_its_end(head + a, b);
    crate::text::holds_in_a_part(head + a + b, c, b);
    crate::text::holds_in_a_part(head + a + b + c, d, b);
    crate::text::holds_in_a_part(head + a + b + c + d, f, b);
    crate::text::holds_its_end(head + a + b + c, d);
    crate::text::holds_in_a_part(head + a + b + c + d, f, d);
}

/// Completing an experiment keeps everything but the switches of its roles.
pub proof fn experiments_are_kept(r: ExperimentFile, e: ExperimentFile)
    requires
        is_completed(r, e),
    ensures
        r.experiment_name == e.experiment_name,
        r.description == e.description,
        r.actions == e.actions,
        r.environment.name == e.environment.name,
        r.environment.number_of_nodes == e.environment.number_of_nodes,
        r.environment.number_of_paths == e.environment.number_of_paths,
        r.environment.topology == e.environment.topology,
        r.environment.geant_cities == e.environment.geant_cities,
        r.environment.geant_weighted_nexthops == e.environment.geant_weighted_nexthops,
        r.environment.geant_hop_weights == e.environment.geant_hop_weights,
        r.environment.roles@.len() == e.environment.roles@.len(),
{
}

/// A node without a name is an unknown one.
pub proof fn nameless_nodes_are_unknown(nodes: Seq<NamedNode>, more: NamedNode)
    requires
        more.name is None,
    ensures
        graph_of(nodes.push(more), Seq::empty()).nodes.dom().contains("unknown"@),
        !nodes_added(Map::empty(), nodes).dom().contains("unknown"@) && more.node_type is None
            ==> graph_of(nodes.push(more), Seq::empty()).nodes["unknown"@].node_type
            == "Unknown"@,
{
    assert(nodes.push(more).drop_last() =~= nodes);
}

/// Where no graph could be made, the message says why.
pub proof fn failures_are_told(
    m: String,
    nodes: Answer<NamedNode>,
    links: Answer<Result<Link, String>>,
)
    requires
        is_generated(Err(m), nodes, links),
    ensures
        nodes matches Answer::Failed(e) ==> crate::text::ends(m@, e@),
        nodes is Given ==> (links matches Answer::Failed(e) ==> crate::text::ends(m@, e@)),
        nodes is Given ==> (links matches Answer::Invalid(e) ==> crate::text::ends(m@, e@)),
        links is Given ==> (nodes matches Answer::Invalid(e) ==> crate::text::ends(m@, e@)),
{
    if let Answer::Failed(e) = nodes {
        assert(m@.subrange(m@.len() - e@.len(), m@.len() as int) =~= e@);
    }
    if let Answer::Invalid(e) = nodes {
        if links is Given {
            assert(m@.subrange(m@.len() - e@.len(), m@.len() as int) =~= e@);
        }
    }
    if nodes is Given {
        if let Answer::Failed(e) = links {
            assert(m@.subrange(m@.len() - e@.len(), m@.len() as int) =~= e@);
        }
        if let Answer::Invalid(e) = links {
            assert(m@.subrange(m@.len() - e@.len(), m@.len() as int) =~= e@);
        }
    }
}

} // verus!
