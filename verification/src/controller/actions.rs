//! The actions of an experiment: when they happen and what they do.

use vstd::prelude::*;

use crate::controller::graph::Graph;
use crate::controller::router::{agent_room, or_empty, NetworkConditionData};
use crate::controller::structs::{Action, ExperimentFile, Role};
use crate::text::{eq_ignore_case, same, trim};

verus! {

/// How long an agent is waited for before a request to it is given up, in milliseconds.
pub const AGENT_CONNECT_WAIT_TIMEOUT_MS: u64 = 30000;

/// How often it is looked for meanwhile, in milliseconds.
pub const AGENT_CONNECT_POLL_INTERVAL_MS: u64 = 500;

/// Carries out the actions of an experiment, once, until it is stopped.
pub struct ActionExecutor {
    pub actions: Vec<Action>,
    pub started: bool,
    pub stopped: bool,
}

/// The target of the last of the first `n` roles that has the given target or alias.
pub open spec fn role_target(roles: Seq<Role>, name: Seq<char>, n: nat) -> Option<Seq<char>>
    decreases n,
{
    if n == 0 {
        None
    } else if roles[n - 1].target@ == name || roles[n - 1].alias@ == name {
        Some(roles[n - 1].target@)
    } else {
        role_target(roles, name, (n - 1) as nat)
    }
}

/// A name with an alias replaced by the target of its role.
pub open spec fn resolved(roles: Seq<Role>, name: Option<String>) -> Option<Seq<char>> {
    match name {
        Some(n) => match role_target(roles, n@, roles.len()) {
            Some(target) => Some(target),
            None => Some(n@),
        },
        None => None,
    }
}

/// Whether an action is another one with the aliases of its nodes replaced.
pub open spec fn is_resolved(after: Action, before: Action, roles: Seq<Role>) -> bool {
    &&& crate::text::opt_text(after.target) == resolved(roles, before.target)
    &&& crate::text::opt_text(after.connected_node) == resolved(roles, before.connected_node)
    &&& after == (Action {
        target: after.target,
        connected_node: after.connected_node,
        ..before
    })
}

/// The actions of an experiment; none where it has none.
pub open spec fn actions_of(exp: ExperimentFile) -> Seq<Action> {
    match exp.actions {
        Some(actions) => actions@,
        None => Seq::empty(),
    }
}

fn find_target(roles: &Vec<Role>, name: &str) -> (r: Option<String>)
    ensures
        crate::text::opt_text(r) == role_target(roles@, name@, roles@.len()),
{
    let mut i: usize = roles.len();
    while i > 0
        invariant
            i <= roles.len(),
            role_target(roles@, name@, roles@.len()) == role_target(roles@, name@, i as nat),
        decreases i,
    {
        i -= 1;
        if same(roles[i].target.as_str(), name) || same(roles[i].alias.as_str(), name) {
            return Some(roles[i].target.clone());
        }
    }
    None
}

fn resolve(roles: &Vec<Role>, name: &Option<String>) -> (r: Option<String>)
    ensures
        crate::text::opt_text(r) == resolved(roles@, *name),
{
    match name {
        Some(n) => match find_target(roles, n.as_str()) {
            Some(target) => Some(target),
            None => Some(n.clone()),
        },
        None => None,
    }
}

/// What an action amounts to.
#[derive(Debug)]
pub enum ActionPlan {
    /// Network conditions are sent to the agent of a node.
    Tc(NetworkConditionData),
    /// The agent of a node requests a URL.
    CurlViaAgent { target: String, url: String },
    /// The controller requests a URL.
    CurlLocally { url: String },
    /// A process is started by the agents in a room.
    StartProcess { room: String, command: String },
    /// The processes of the agents in a room are stopped.
    StopProcess { room: String },
    /// Nothing is done, for the given reason.
    Refuse { reason: String },
    /// Nothing is done.
    Nothing,
}

/// The node that an action is for; empty where it names none.
pub open spec fn target_of(action: Action) -> Seq<char> {
    crate::controller::router::text_or_empty(action.target)
}

/// Whether the path from the target of an action to the node connected to it can be looked up.
pub open spec fn can_look_up(action: Action, graph: Option<&Graph>) -> bool {
    match (graph, action.connected_node) {
        (Some(g), Some(connected)) => crate::controller::graph::is_linked(g@) && (
        g@.nodes.dom().contains(target_of(action)) || target_of(action) == connected@),
        _ => true,
    }
}

/// The first segment on the path from the target of an action to the node connected to it.
pub open spec fn first_segment(action: Action, graph: Option<&Graph>) -> Option<
    crate::controller::graph::SegmentView,
> {
    match (graph, action.connected_node) {
        (Some(g), Some(connected)) => {
            let start = target_of(action);
            if start == connected@ || !crate::controller::graph::is_reachable(
                g@,
                start,
                connected@,
            ) {
                None
            } else {
                Some(
                    crate::controller::graph::route_segments(
                        g@,
                        start,
                        crate::controller::graph::best_route(g@, start, connected@),
                    )[0],
                )
            }
        },
        _ => None,
    }
}

/// An address without surrounding white space; none where it is blank or not available.
pub open spec fn usable_ip(ip: Seq<char>) -> Option<Seq<char>> {
    let trimmed = crate::text::trimmed(ip);
    if trimmed.len() == 0 || crate::controller::graph::not_available(trimmed) {
        None
    } else {
        Some(trimmed)
    }
}

/// The text of an optional string, or a default.
pub open spec fn text_or(o: Option<String>, default: Seq<char>) -> Seq<char> {
    match o {
        Some(s) => s@,
        None => default,
    }
}

/// Whether network conditions are those that an action asks for.
pub open spec fn is_condition_of(
    data: NetworkConditionData,
    action: Action,
    graph: Option<&Graph>,
) -> bool {
    &&& data.node_id@ == target_of(action)
    &&& data.bandwidth@ == text_or(action.bandwidth, "200mbit"@)
    &&& data.latency@ == text_or(action.network_delay, "0ms"@)
    &&& data.loss@ == text_or(action.packet_loss, "0%"@)
    &&& data.htb_explicit_limits == Some(action.htb_explicit_limits == Some(true))
    &&& match first_segment(action, graph) {
        Some(seg) => data.interface is Some && data.interface->0@ == seg.from_interface
            && crate::text::opt_text(data.interface_ip) == usable_ip(seg.from_ip),
        None => data.interface is None && data.interface_ip is None,
    }
}

/// Whether a plan is the one for an action.
pub open spec fn is_plan_of(plan: ActionPlan, action: Action, graph: Option<&Graph>) -> bool {
    let kind = action.action_type@;
    let url = crate::controller::router::text_or_empty(action.url);
    if kind == "tc"@ {
        plan matches ActionPlan::Tc(data) && is_condition_of(data, action, graph)
    } else if kind == "curl"@ {
        if crate::text::trimmed(target_of(action)).len() > 0 {
            plan matches ActionPlan::CurlViaAgent { target, url: u } && target@ == target_of(action)
                && u@ == url
        } else {
            plan matches ActionPlan::CurlLocally { url: u } && u@ == url
        }
    } else if kind == "agent_command"@ {
        if action.target is Some && action.command is Some {
            plan matches ActionPlan::StartProcess { room, command } && room@
                == crate::controller::router::room_of(action.target->0@) && command@
                == action.command->0@
        } else {
            plan matches ActionPlan::Refuse { reason } && reason@
                == "agent_command requires 'target' and 'command' fields"@
        }
    } else if kind == "agent_stop"@ {
        if action.target is Some {
            plan matches ActionPlan::StopProcess { room } && room@
                == crate::controller::router::room_of(action.target->0@)
        } else {
            plan matches ActionPlan::Refuse { reason } && reason@ == "agent_stop requires 'target'"@
        }
    } else if kind == "exit"@ || kind == "ignore"@ {
        plan is Nothing
    } else {
        plan matches ActionPlan::Refuse { reason } && reason@ == "Unknown action type '"@ + kind
            + "'"@
    }
}

fn or_default(o: &Option<String>, default: &str) -> (r: String)
    ensures
        r@ == text_or(*o, default@),
{
    match o {
        Some(s) => s.clone(),
        None => default.to_owned(),
    }
}

fn clean_ip(ip: &str) -> (r: Option<String>)
    ensures
        crate::text::opt_text(r) == usable_ip(ip@),
{
    let trimmed = trim(ip);
    if trimmed.is_empty() || eq_ignore_case(trimmed, "N/A") {
        None
    } else {
        Some(trimmed.to_owned())
    }
}

fn find_hint(action: &Action, graph: Option<&Graph>) -> (r: (Option<String>, Option<String>))
    requires
        can_look_up(*action, graph),
    ensures
        match first_segment(*action, graph) {
            Some(seg) => r.0 is Some && r.0->0@ == seg.from_interface && crate::text::opt_text(r.1)
                == usable_ip(seg.from_ip),
            None => r.0 is None && r.1 is None,
        },
{
    let target = or_empty(&action.target);
    if let Some(connected) = &action.connected_node {
        if let Some(g) = graph {
            if let Some((nodes, segments)) = g.shortest_path(target.as_str(), connected.as_str()) {
                proof {
                    let views = crate::controller::graph::segment_views(segments@);
                    crate::controller::graph::best_path_is_the_best_route(
                        g@,
                        target@,
                        connected@,
                        crate::text::texts(nodes@),
                        views,
                    );
                    let route = crate::controller::graph::best_route(g@, target@, connected@);
                    crate::controller::graph::route_is_connected(g@, target@, route);
                    if target@ == connected@ {
                        crate::controller::graph::best_route_to_itself(g@, target@, route);
                    }
                    if segments@.len() > 0 {
                        assert(views[0] == segments@[0]@);
                    }
                }
                if segments.len() > 0 {
                    let first = &segments[0];
                    return (
                        Some(first.from_interface.clone()),
                        clean_ip(first.from_ip.as_str()),
                    );
                }
            }
        }
    }
    (None, None)
}

/// Decides what an action amounts to. The graph tells by which interface the target of network
/// conditions is connected.
pub fn plan_action(action: &Action, graph: Option<&Graph>) -> (r: ActionPlan)
    requires
        action.action_type@ == "tc"@ ==> can_look_up(*action, graph),
    ensures
        is_plan_of(r, *action, graph),
{
    let kind = action.action_type.as_str();
    if same(kind, "tc") {
        let (interface, interface_ip) = find_hint(action, graph);
        ActionPlan::Tc(
            NetworkConditionData {
                node_id: or_empty(&action.target),
                bandwidth: or_default(&action.bandwidth, "200mbit"),
                latency: or_default(&action.network_delay, "0ms"),
                loss: or_default(&action.packet_loss, "0%"),
                htb_explicit_limits: Some(
                    match action.htb_explicit_limits {
                        Some(b) => b,
                        None => false,
                    },
                ),
                interface,
                interface_ip,
            },
        )
    } else if same(kind, "curl") {
        let url = or_empty(&action.url);
        let target = or_empty(&action.target);
        if trim(target.as_str()).is_empty() {
            ActionPlan::CurlLocally { url }
        } else {
            ActionPlan::CurlViaAgent { target, url }
        }
    } else if same(kind, "agent_command") {
        if let (Some(target), Some(command)) = (&action.target, &action.command) {
            ActionPlan::StartProcess {
                room: agent_room(target.as_str()),
                command: command.clone(),
            }
        } else {
            ActionPlan::Refuse {
                reason: "agent_command requires 'target' and 'command' fields".to_owned(),
            }
        }
    } else if same(kind, "agent_stop") {
        if let Some(target) = &action.target {
            ActionPlan::StopProcess { room: agent_room(target.as_str()) }
        } else {
            ActionPlan::Refuse { reason: "agent_stop requires 'target'".to_owned() }
        }
    } else if same(kind, "exit") || same(kind, "ignore") {
        ActionPlan::Nothing
    } else {
        ActionPlan::Refuse {
            reason: "Unknown action type '".to_owned().concat(kind).concat("'"),
        }
    }
}

/// The error for network conditions that could not be sent.
pub fn tc_failure(data: &NetworkConditionData, status: &str, detail: &str) -> (r: String)
    ensures
        r@ == "Failed to send TC request to '"@ + data.node_id@ + "' via interface hint '"@
            + crate::controller::router::text_or_empty(data.interface) + "' (ip '"@
            + crate::controller::router::text_or_empty(data.interface_ip) + "'): status="@
            + status@ + " response="@ + detail@,
{
    "Failed to send TC request to '".to_owned().concat(data.node_id.as_str()).concat(
        "' via interface hint '",
    ).concat(or_empty(&data.interface).as_str()).concat("' (ip '").concat(
        or_empty(&data.interface_ip).as_str(),
    ).concat("'): status=").concat(status).concat(" response=").concat(
        detail,
    )
}

/// How long to sleep before an agent is looked for again, in milliseconds; none when the wait is
/// over.
pub fn agent_poll_delay(elapsed_ms: u64, max_wait_ms: u64) -> (r: Option<u64>)
    ensures
        match r {
            Some(delay) => elapsed_ms < max_wait_ms && delay == (if max_wait_ms - elapsed_ms
                < AGENT_CONNECT_POLL_INTERVAL_MS {
                max_wait_ms - elapsed_ms
            } else {
                AGENT_CONNECT_POLL_INTERVAL_MS as int
            }),
            None => elapsed_ms >= max_wait_ms,
        },
        r matches Some(delay) ==> 0 < delay && elapsed_ms + delay <= max_wait_ms,
{
    if elapsed_ms >= max_wait_ms {
        return None;
    }
    let remaining: u64 = max_wait_ms - elapsed_ms;
    if remaining < AGENT_CONNECT_POLL_INTERVAL_MS {
        Some(remaining)
    } else {
        Some(AGENT_CONNECT_POLL_INTERVAL_MS)
    }
}

/// Whether some actions are those of an experiment, with aliases replaced by the targets of the
/// roles.
pub open spec fn are_resolved(actions: Seq<Action>, exp: ExperimentFile) -> bool {
    &&& actions.len() == actions_of(exp).len()
    &&& forall|i: int|
        0 <= i < actions.len() ==> is_resolved(
            #[trigger] actions[i],
            actions_of(exp)[i],
            exp.environment.roles@,
        )
}

/// Whether a result holds the delays of actions that were not started before, and nothing of
/// those that were.
pub open spec fn are_delays(r: Option<Vec<u64>>, x: ActionExecutor) -> bool {
    match r {
        Some(delays) => {
            &&& !x.started
            &&& delays@.len() == x.actions@.len()
            &&& forall|i: int|
                0 <= i < delays@.len() ==> #[trigger] delays@[i]
                    == match x.actions@[i].execution_delay {
                    Some(ms) => ms,
                    None => 0,
                }
        },
        None => x.started,
    }
}

impl ActionExecutor {
    /// An executor for the actions of an experiment. Aliases in them are replaced by the targets
    /// of the roles.
    pub fn new_from_experiment(exp: &ExperimentFile) -> (r: Option<Self>)
        ensures
            r matches Some(x) && !x.started && !x.stopped && are_resolved(x.actions@, *exp),
    {
        let mut actions: Vec<Action> = Vec::new();
        if let Some(list) = &exp.actions {
            let mut i: usize = 0;
            while i < list.len()
                invariant
                    i <= list.len(),
                    actions@.len() == i,
                    forall|j: int|
                        0 <= j < i ==> is_resolved(
                            #[trigger] actions@[j],
                            list@[j],
                            exp.environment.roles@,
                        ),
                decreases list.len() - i,
            {
                let mut action = list[i].clone();
                action.target = resolve(&exp.environment.roles, &list[i].target);
                action.connected_node = resolve(
                    &exp.environment.roles,
                    &list[i].connected_node,
                );
                actions.push(action);
                i += 1;
            }
        }
        Some(ActionExecutor { actions, started: false, stopped: false })
    }

    /// The delays of the actions in milliseconds, on the first call; nothing on later ones.
    pub fn start(&mut self) -> (r: Option<Vec<u64>>)
        ensures
            final(self).started,
            final(self).actions == old(self).actions,
            final(self).stopped == old(self).stopped,
            are_delays(r, *old(self)),
    {
        if self.started {
            return None;
        }
        self.started = true;
        let mut delays: Vec<u64> = Vec::new();
        let mut i: usize = 0;
        while i < self.actions.len()
            invariant
                i <= self.actions.len(),
                delays@.len() == i,
                self.started,
                self.actions == old(self).actions,
                self.stopped == old(self).stopped,
                forall|j: int|
                    0 <= j < i ==> #[trigger] delays@[j] == match self.actions@[j].execution_delay {
                        Some(ms) => ms,
                        None => 0,
                    },
            decreases self.actions.len() - i,
        {
            let delay: u64 = match self.actions[i].execution_delay {
                Some(ms) => ms,
                None => 0,
            };
            delays.push(delay);
            i += 1;
        }
        Some(delays)
    }

    /// Cancels all actions that are still pending.
    pub fn stop(&mut self)
        ensures
            final(self).stopped,
            final(self).actions == old(self).actions,
            final(self).started == old(self).started,
    {
        self.stopped = true;
    }

    /// Whether an action that is due is carried out.
    pub fn carries_out(&self) -> (r: bool)
        ensures
            r == !self.stopped,
    {
        !self.stopped
    }
}

/// Replacing aliases twice is the same as replacing them once, where no target is the alias of
/// another role.
pub proof fn resolving_is_stable(roles: Seq<Role>, name: String, n: nat)
    requires
        n <= roles.len(),
        forall|i: int, j: int|
            0 <= i < roles.len() && 0 <= j < roles.len() && #[trigger] roles[i].alias@
                == #[trigger] roles[j].target@ ==> roles[i].target@ == roles[j].target@,
        role_target(roles, name@, n) is Some,
    ensures
        role_target(roles, role_target(roles, name@, n)->0, roles.len()) == role_target(
            roles,
            name@,
            n,
        ),
{
    let target = role_target(roles, name@, n)->0;
    resolved_target_is_a_target(roles, name@, n);
    let k = choose|k: int| 0 <= k < roles.len() && #[trigger] roles[k].target@ == target;
    stable_target(roles, target, roles.len(), k);
}

proof fn resolved_target_is_a_target(roles: Seq<Role>, name: Seq<char>, n: nat)
    requires
        n <= roles.len(),
        role_target(roles, name, n) is Some,
    ensures
        exists|k: int|
            0 <= k < roles.len() && #[trigger] roles[k].target@ == role_target(roles, name, n)->0,
    decreases n,
{
    if roles[n - 1].target@ == name || roles[n - 1].alias@ == name {
        assert(roles[n - 1].target@ == role_target(roles, name, n)->0);
    } else {
        resolved_target_is_a_target(roles, name, (n - 1) as nat);
    }
}

proof fn stable_target(roles: Seq<Role>, target: Seq<char>, n: nat, k: int)
    requires
        0 <= k < n <= roles.len(),
        roles[k].target@ == target,
        forall|i: int, j: int|
            0 <= i < roles.len() && 0 <= j < roles.len() && #[trigger] roles[i].alias@
                == #[trigger] roles[j].target@ ==> roles[i].target@ == roles[j].target@,
    ensures
        role_target(roles, target, n) == Some(target),
    decreases n,
{
    if roles[n - 1].target@ == target {
    } else if roles[n - 1].alias@ == target {
        assert(roles[n - 1].alias@ == roles[k].target@);
    } else {
        stable_target(roles, target, (n - 1) as nat, k);
    }
}

/// Network conditions say what the action asks for, each in its place: the delay, the loss, the
/// bandwidth and the node that the action names. What it leaves out puts no delay, no loss, no
/// explicit limits and the usual bandwidth on the link.
pub proof fn conditions_are_those_of_the_action(
    plan: ActionPlan,
    action: Action,
    graph: Option<&Graph>,
)
    requires
        is_plan_of(plan, action, graph),
        action.action_type@ == "tc"@,
    ensures
        plan is Tc,
        ({
            let data = plan->Tc_0;
            &&& match action.network_delay {
                Some(delay) => data.latency@ == delay@,
                None => data.latency@ == "0ms"@,
            }
            &&& match action.packet_loss {
                Some(loss) => data.loss@ == loss@,
                None => data.loss@ == "0%"@,
            }
            &&& match action.bandwidth {
                Some(bandwidth) => data.bandwidth@ == bandwidth@,
                None => data.bandwidth@ == "200mbit"@,
            }
            &&& match action.target {
                Some(target) => data.node_id@ == target@,
                None => data.node_id@.len() == 0,
            }
            &&& match action.htb_explicit_limits {
                Some(limits) => data.htb_explicit_limits == Some(limits),
                None => data.htb_explicit_limits == Some(false),
            }
        }),
{
}

/// Network conditions are put on the interface by which the best path to the connected node leaves
/// the target, and come with its address unless that is missing. Without a path there is no
/// interface.
pub proof fn conditions_are_put_on_the_way_out(
    plan: ActionPlan,
    action: Action,
    g: &Graph,
    connected: String,
    nodes: Seq<Seq<char>>,
    segments: Seq<crate::controller::graph::SegmentView>,
)
    requires
        is_plan_of(plan, action, Some(g)),
        action.action_type@ == "tc"@,
        action.target is Some,
        action.connected_node == Some(connected),
    ensures
        plan is Tc,
        crate::controller::graph::is_best_path(
            g@,
            action.target->0@,
            connected@,
            nodes,
            segments,
        ) && segments.len() > 0 ==> {
            let data = plan->Tc_0;
            let first = segments[0];
            &&& data.interface is Some
            &&& data.interface->0@ == first.from_interface
            &&& match data.interface_ip {
                Some(ip) => ip@ == crate::text::trimmed(first.from_ip) && ip@.len() > 0
                    && !crate::text::same_ignoring_case(ip@, "N/A"@),
                None => crate::text::trimmed(first.from_ip).len() == 0
                    || crate::text::same_ignoring_case(
                    crate::text::trimmed(first.from_ip),
                    "N/A"@,
                ),
            }
        },
        !crate::controller::graph::is_reachable(g@, action.target->0@, connected@)
            || action.target->0@ == connected@ ==> plan->Tc_0.interface is None
            && plan->Tc_0.interface_ip is None,
{
    let start = action.target->0@;
    if crate::controller::graph::is_best_path(g@, start, connected@, nodes, segments)
        && segments.len() > 0 {
        crate::controller::graph::best_path_is_the_best_route(
            g@,
            start,
            connected@,
            nodes,
            segments,
        );
        if start == connected@ {
            crate::controller::graph::best_path_to_itself(g@, start, nodes, segments);
        }
    }
}

/// Requests go to the address that the action gives, through the agent of the node that it names,
/// and from here where it names none.
pub proof fn requests_go_where_the_action_says(
    plan: ActionPlan,
    action: Action,
    graph: Option<&Graph>,
)
    requires
        is_plan_of(plan, action, graph),
        action.action_type@ == "curl"@,
        action.url is Some,
    ensures
        match action.target {
            Some(target) if crate::text::trimmed(target@).len() > 0 => plan is CurlViaAgent
                && plan->CurlViaAgent_target@ == target@ && plan->CurlViaAgent_url@
                == action.url->0@,
            _ => plan is CurlLocally && plan->CurlLocally_url@ == action.url->0@,
        },
{
    kinds_differ();
    assert(crate::text::trim_front(Seq::<char>::empty()) =~= Seq::<char>::empty());
    assert(crate::text::trimmed(Seq::<char>::empty()).len() == 0);
}

proof fn kinds_differ()
    ensures
        "curl"@ != "tc"@,
        "agent_command"@ != "tc"@,
        "agent_command"@ != "curl"@,
        "agent_stop"@ != "tc"@,
        "agent_stop"@ != "curl"@,
        "agent_stop"@ != "agent_command"@,
{
    reveal_strlit("tc");
    reveal_strlit("curl");
    reveal_strlit("agent_command");
    reveal_strlit("agent_stop");
    assert("tc"@.len() == 2);
    assert("curl"@.len() == 4);
    assert("agent_command"@.len() == 13);
    assert("agent_stop"@.len() == 10);
}

/// A command is started by the agent of the node that the action names, and a stop reaches the
/// same agent. Where the action does not say for whom, nothing is sent.
pub proof fn commands_reach_the_agent_of_the_node(
    plan: ActionPlan,
    action: Action,
    graph: Option<&Graph>,
)
    requires
        is_plan_of(plan, action, graph),
    ensures
        action.action_type@ == "agent_command"@ ==> match (action.target, action.command) {
            (Some(target), Some(command)) => plan is StartProcess && plan->StartProcess_room@
                == "agent_"@ + target@ && plan->StartProcess_command@ == command@,
            _ => plan is Refuse,
        },
        action.action_type@ == "agent_stop"@ ==> match action.target {
            Some(target) => plan is StopProcess && plan->StopProcess_room@ == "agent_"@ + target@,
            None => plan is Refuse,
        },
{
    kinds_differ();
}

/// Nothing is sent for an action of another type.
pub proof fn other_actions_send_nothing(plan: ActionPlan, action: Action, graph: Option<&Graph>)
    requires
        is_plan_of(plan, action, graph),
        action.action_type@ != "tc"@,
        action.action_type@ != "curl"@,
        action.action_type@ != "agent_command"@,
        action.action_type@ != "agent_stop"@,
    ensures
        plan is Nothing || plan is Refuse,
        plan is Nothing <==> action.action_type@ == "exit"@ || action.action_type@ == "ignore"@,
{
}

/// An alias stands for the target of the last role that has it, and so does a target; any other
/// name stands for itself.
pub proof fn aliases_stand_for_targets(roles: Seq<Role>, name: String, k: int)
    ensures
        0 <= k < roles.len() && (roles[k].alias@ == name@ || roles[k].target@ == name@) && (forall|
            j: int,
        |
            k < j < roles.len() ==> (#[trigger] roles[j]).alias@ != name@ && roles[j].target@
                != name@) ==> resolved(roles, Some(name)) == Some(roles[k].target@),
        (forall|j: int|
            0 <= j < roles.len() ==> (#[trigger] roles[j]).alias@ != name@ && roles[j].target@
                != name@) ==> resolved(roles, Some(name)) == Some(name@),
        resolved(roles, None) is None,
{
    if 0 <= k < roles.len() && (roles[k].alias@ == name@ || roles[k].target@ == name@) && (forall|
        j: int,
    |
        k < j < roles.len() ==> (#[trigger] roles[j]).alias@ != name@ && roles[j].target@
            != name@) {
        last_role_counts(roles, name@, roles.len(), k);
    }
    if forall|j: int|
        0 <= j < roles.len() ==> (#[trigger] roles[j]).alias@ != name@ && roles[j].target@
            != name@ {
        unknown_name_has_no_role(roles, name@, roles.len());
    }
}

proof fn last_role_counts(roles: Seq<Role>, name: Seq<char>, n: nat, k: int)
    requires
        0 <= k < n <= roles.len(),
        roles[k].alias@ == name || roles[k].target@ == name,
        forall|j: int|
            k < j < roles.len() ==> (#[trigger] roles[j]).alias@ != name && roles[j].target@
                != name,
    ensures
        role_target(roles, name, n) == Some(roles[k].target@),
    decreases n,
{
    if k < n - 1 {
        assert(roles[n - 1].alias@ != name);
        last_role_counts(roles, name, (n - 1) as nat, k);
    }
}

proof fn unknown_name_has_no_role(roles: Seq<Role>, name: Seq<char>, n: nat)
    requires
        n <= roles.len(),
        forall|j: int|
            0 <= j < roles.len() ==> (#[trigger] roles[j]).alias@ != name && roles[j].target@
                != name,
    ensures
        role_target(roles, name, n) is None,
    decreases n,
{
    if n > 0 {
        assert(roles[n - 1].alias@ != name);
        unknown_name_has_no_role(roles, name, (n - 1) as nat);
    }
}

/// Replacing aliases changes the nodes of an action and nothing else, and keeps the actions in
/// their order.
pub proof fn only_nodes_are_replaced(actions: Seq<Action>, exp: ExperimentFile, i: int)
    requires
        are_resolved(actions, exp),
        exp.actions is Some,
        0 <= i < actions.len(),
    ensures
        actions.len() == exp.actions->0@.len(),
        ({
            let after = actions[i];
            let before = exp.actions->0@[i];
            let roles = exp.environment.roles@;
            &&& after.action == before.action
            &&& after.action_type == before.action_type
            &&& after.execution_delay == before.execution_delay
            &&& after.bandwidth == before.bandwidth
            &&& after.packet_loss == before.packet_loss
            &&& after.network_delay == before.network_delay
            &&& after.htb_explicit_limits == before.htb_explicit_limits
            &&& after.url == before.url
            &&& after.command == before.command
            &&& crate::text::opt_text(after.target) == resolved(roles, before.target)
            &&& crate::text::opt_text(after.connected_node) == resolved(
                roles,
                before.connected_node,
            )
        }),
{
    assert(is_resolved(actions[i], actions_of(exp)[i], exp.environment.roles@));
}

/// Each action waits as long as it asks for before it is carried out, and no longer where it does
/// not ask.
pub proof fn actions_wait_as_long_as_they_ask(delays: Vec<u64>, x: ActionExecutor, i: int)
    requires
        are_delays(Some(delays), x),
        0 <= i < x.actions@.len(),
    ensures
        !x.started,
        delays@.len() == x.actions@.len(),
        x.actions@[i].execution_delay is Some ==> delays@[i] == x.actions@[i].execution_delay->0,
        x.actions@[i].execution_delay is None ==> delays@[i] == 0,
{
}

} // verus!
