//! What the endpoints of the controller decide and answer.

use sha2::{Digest, Sha256};
use vstd::prelude::*;

use crate::string_map::StringMap;
use crate::text::{
    chars, comes_before, contains_text, ends_with, same, to_ascii_lower, trim, u64_text,
};

verus! {

/// A socket and whether it is connected.
#[derive(Debug)]
pub struct SimpleSocket {
    pub id: String,
    pub connected: bool,
}

/// A list of sockets.
#[derive(Debug)]
pub struct SimpleSocketsResponse {
    pub sockets: Vec<SimpleSocket>,
}

/// Network conditions that a node is to impose.
#[derive(Debug)]
pub struct NetworkConditionData {
    pub node_id: String,
    pub bandwidth: String,
    pub latency: String,
    pub loss: String,
    pub htb_explicit_limits: Option<bool>,
    pub interface: Option<String>,
    pub interface_ip: Option<String>,
}

/// The answer to a change of network conditions.
#[derive(Debug)]
pub struct UpdateNetworkConditionsResponse {
    pub status: String,
    pub message: Option<String>,
    pub error: Option<String>,
}

/// A next hop of a weighted route.
#[derive(Debug)]
pub struct RouteWeightNexthop {
    pub via: String,
    pub dev: String,
    pub weight: u32,
}

/// New weights for a route of a node.
#[derive(Debug)]
pub struct RouteWeightUpdateData {
    pub node_id: String,
    pub route: String,
    pub nexthops: Vec<RouteWeightNexthop>,
}

/// The answer to a change of route weights.
#[derive(Debug)]
pub struct UpdateRouteWeightsResponse {
    pub status: String,
    pub message: Option<String>,
    pub error: Option<String>,
}

/// The answer to a command for an agent.
#[derive(Debug)]
pub struct ExecCommandResponse {
    pub status: String,
    pub message: Option<String>,
    pub error: Option<String>,
}

/// The sockets with the given ids and states.
pub fn list_sockets(sockets: &Vec<(String, bool)>) -> (r: SimpleSocketsResponse)
    ensures
        r.sockets@.len() == sockets@.len(),
        forall|i: int|
            #![trigger r.sockets@[i]]
            0 <= i < sockets@.len() ==> r.sockets@[i].id@ == sockets@[i].0@
                && r.sockets@[i].connected == sockets@[i].1,
{
    let mut out: Vec<SimpleSocket> = Vec::new();
    let mut i: usize = 0;
    while i < sockets.len()
        invariant
            i <= sockets.len(),
            out@.len() == i,
            forall|j: int|
                #![trigger out@[j]]
                0 <= j < i ==> out@[j].id@ == sockets@[j].0@ && out@[j].connected == sockets@[j].1,
        decreases sockets.len() - i,
    {
        out.push(SimpleSocket { id: sockets[i].0.clone(), connected: sockets[i].1 });
        i += 1;
    }
    SimpleSocketsResponse { sockets: out }
}

/// Whether a socket is to be cleaned up: it is closed, or listed.
pub open spec fn is_stale(socket: SimpleSocket, ids: Seq<Seq<char>>) -> bool {
    !socket.connected || ids.contains(socket.id@)
}

/// The positions of those of the first `n` sockets that are to be cleaned up.
pub open spec fn stale_positions(
    sockets: Seq<SimpleSocket>,
    ids: Seq<Seq<char>>,
    n: nat,
) -> Seq<usize>
    decreases n,
{
    if n == 0 {
        Seq::empty()
    } else {
        let before = stale_positions(sockets, ids, (n - 1) as nat);
        if is_stale(sockets[n - 1], ids) {
            before.push((n - 1) as usize)
        } else {
            before
        }
    }
}

/// The positions of the sockets that are to be disconnected: the closed ones and the listed ones.
pub fn clean_sockets(all: &Vec<SimpleSocket>, sockets: &Vec<String>) -> (r: Vec<usize>)
    ensures
        r@ == stale_positions(all@, crate::text::texts(sockets@), all@.len()),
{
    let mut out: Vec<usize> = Vec::new();
    let mut i: usize = 0;
    while i < all.len()
        invariant
            i <= all.len(),
            out@ == stale_positions(all@, crate::text::texts(sockets@), i as nat),
        decreases all.len() - i,
    {
        if !all[i].connected || contains_text(sockets, all[i].id.as_str()) {
            out.push(i);
        }
        i += 1;
    }
    out
}

/// Whether a result is a node whose agent uses a socket, or nothing where there is none.
pub open spec fn is_node_of_socket(
    r: Option<Seq<char>>,
    registry: Map<Seq<char>, String>,
    socket: Seq<char>,
) -> bool {
    match r {
        Some(n) => registry.dom().contains(n) && registry[n]@ == socket,
        None => forall|n: Seq<char>| #[trigger]
            registry.dom().contains(n) ==> registry[n]@ != socket,
    }
}

/// Whether a registry is another one without the nodes whose agents use a socket.
pub open spec fn is_without_socket(
    after: Map<Seq<char>, String>,
    before: Map<Seq<char>, String>,
    socket: Seq<char>,
) -> bool {
    &&& forall|n: Seq<char>| #[trigger]
        after.dom().contains(n) <==> before.dom().contains(n) && before[n]@ != socket
    &&& forall|n: Seq<char>| #[trigger] after.dom().contains(n) ==> after[n] == before[n]
}

/// The node of an agent that was registered is found by its socket.
pub proof fn registered_agents_are_found(
    registry: Map<Seq<char>, String>,
    node: Seq<char>,
    socket: String,
    found: Option<Seq<char>>,
)
    requires
        is_node_of_socket(found, registry.insert(node, socket), socket@),
    ensures
        found matches Some(n) && registry.insert(node, socket)[n]@ == socket@,
{
    assert(registry.insert(node, socket).dom().contains(node));
}

/// No node is found by a socket that was forgotten, and other sockets lead where they led.
pub proof fn forgotten_sockets_lead_nowhere(
    before: Map<Seq<char>, String>,
    after: Map<Seq<char>, String>,
    socket: Seq<char>,
    found: Option<Seq<char>>,
)
    requires
        is_without_socket(after, before, socket),
    ensures
        is_node_of_socket(found, after, socket) ==> found is None,
        forall|other: Seq<char>|
            other != socket && #[trigger] is_node_of_socket(found, after, other)
                ==> is_node_of_socket(found, before, other),
{
    assert forall|other: Seq<char>|
        other != socket && #[trigger] is_node_of_socket(found, after, other) implies
        is_node_of_socket(found, before, other) by {
        if found is None {
            assert forall|n: Seq<char>| #[trigger] before.dom().contains(n) implies before[n]@
                != other by {
                if before[n]@ != socket {
                    assert(after.dom().contains(n));
                }
            }
        }
    }
}

/// Finds a node whose agent uses a socket. The registry maps nodes to sockets.
pub fn find_node_id(socket_id: &str, agent_registry: &StringMap<String>) -> (r: Option<String>)
    ensures
        is_node_of_socket(crate::text::opt_text(r), agent_registry@, socket_id@),
{
    let ghost entries = agent_registry.list();
    proof {
        agent_registry.list_is_the_map();
    }
    let mut i: usize = 0;
    while i < agent_registry.len()
        invariant
            i <= entries.len(),
            entries == agent_registry.list(),
            agent_registry@ == crate::string_map::entries_map(entries),
            forall|j: int|
                0 <= j < i ==> agent_registry@.dom().contains(#[trigger] entries[j].0@)
                    && agent_registry@[entries[j].0@]@ != socket_id@,
        decreases entries.len() - i,
    {
        let (node, socket) = agent_registry.entry(i);
        if same(socket.as_str(), socket_id) {
            return Some(node.clone());
        }
        i += 1;
    }
    assert forall|n: Seq<char>| #[trigger] agent_registry@.dom().contains(n) implies
        agent_registry@[n]@ != socket_id@ by {
        crate::string_map::key_has_entry(entries, n);
        let j = choose|j: int| 0 <= j < entries.len() && #[trigger] entries[j].0@ == n;
        assert(entries[j].0@ == n);
    }
    None
}

/// Records the socket of the agent of a node.
pub fn register_agent(agent_registry: &mut StringMap<String>, node_id: String, socket_id: String)
    ensures
        final(agent_registry)@ == old(agent_registry)@.insert(node_id@, socket_id),
{
    agent_registry.insert(node_id, socket_id);
}

/// Forgets the nodes whose agents used a socket.
pub fn forget_socket(agent_registry: &mut StringMap<String>, socket_id: &str)
    ensures
        is_without_socket(final(agent_registry)@, old(agent_registry)@, socket_id@),
{
    let ghost before = agent_registry@;
    let ghost entries = agent_registry.list();
    proof {
        agent_registry.list_is_the_map();
    }
    let mut kept: StringMap<String> = StringMap::new();
    let mut i: usize = 0;
    while i < agent_registry.len()
        invariant
            i <= entries.len(),
            entries == agent_registry.list(),
            before == agent_registry@,
            before == crate::string_map::entries_map(entries),
            forall|n: Seq<char>| #[trigger]
                kept@.dom().contains(n) ==> before.dom().contains(n) && before[n]@ != socket_id@
                    && kept@[n] == before[n],
            forall|j: int|
                0 <= j < i && before[#[trigger] entries[j].0@]@ != socket_id@
                    ==> kept@.dom().contains(entries[j].0@),
        decreases entries.len() - i,
    {
        let (node, socket) = agent_registry.entry(i);
        if !same(socket.as_str(), socket_id) {
            kept.insert(node.clone(), socket.clone());
        }
        i += 1;
    }
    assert forall|n: Seq<char>| before.dom().contains(n) && before[n]@ != socket_id@ implies
        #[trigger] kept@.dom().contains(n) by {
        crate::string_map::key_has_entry(entries, n);
        let j = choose|j: int| 0 <= j < entries.len() && #[trigger] entries[j].0@ == n;
        assert(entries[j].0@ == n);
    }
    *agent_registry = kept;
}

/// The room that the agent of a node listens in.
pub open spec fn room_of(node_id: Seq<char>) -> Seq<char> {
    "agent_"@ + node_id
}

/// The room that the agent of a node listens in.
pub fn agent_room(node_id: &str) -> (r: String)
    ensures
        r@ == room_of(node_id@),
{
    "agent_".to_owned().concat(node_id)
}

/// The rooms of all registered agents.
pub fn registered_rooms(agent_registry: &StringMap<String>) -> (r: Vec<String>)
    ensures
        r@.len() == agent_registry.list().len(),
        forall|i: int|
            0 <= i < r@.len() ==> #[trigger] r@[i]@ == room_of(agent_registry.list()[i].0@),
{
    let mut rooms: Vec<String> = Vec::new();
    let mut i: usize = 0;
    while i < agent_registry.len()
        invariant
            i <= agent_registry.list().len(),
            rooms@.len() == i,
            forall|j: int|
                0 <= j < i ==> #[trigger] rooms@[j]@ == room_of(agent_registry.list()[j].0@),
        decreases agent_registry.list().len() - i,
    {
        let (node, _socket) = agent_registry.entry(i);
        rooms.push(agent_room(node.as_str()));
        i += 1;
    }
    rooms
}

/// Forgets all registered agents, and gives the rooms that they listen in.
pub fn take_agents(registry: &mut StringMap<String>) -> (rooms: Vec<String>)
    ensures
        final(registry)@ == Map::<Seq<char>, String>::empty(),
        rooms@.len() == old(registry).list().len(),
        forall|i: int|
            0 <= i < rooms@.len() ==> #[trigger] rooms@[i]@ == room_of(old(registry).list()[i].0@),
        forall|node: Seq<char>| #[trigger]
            old(registry)@.dom().contains(node) ==> crate::text::texts(rooms@).contains(
                room_of(node),
            ),
{
    let ghost agents = registry.list();
    let rooms = registered_rooms(registry);
    proof {
        registry.list_is_the_map();
        assert forall|node: Seq<char>| #[trigger]
            registry@.dom().contains(node) implies crate::text::texts(rooms@).contains(
            room_of(node),
        ) by {
            crate::string_map::key_has_entry(agents, node);
            let i = choose|i: int| 0 <= i < agents.len() && #[trigger] agents[i].0@ == node;
            assert(crate::text::texts(rooms@)[i] == room_of(node));
        }
    }
    *registry = StringMap::new();
    rooms
}

/// The message that a node has no connected agent.
pub open spec fn not_connected_text(node_id: Seq<char>) -> Seq<char> {
    "Node '"@ + node_id + "' is not connected"@
}

fn not_connected(node_id: &str) -> (r: String)
    ensures
        r@ == not_connected_text(node_id@),
{
    "Node '".to_owned().concat(node_id).concat("' is not connected")
}

/// What became of a message for an agent.
#[derive(Debug)]
pub enum Delivery {
    /// The agent is in no room.
    NotConnected,
    /// The message was sent.
    Sent,
    /// Sending failed with the given description.
    Failed(String),
}

/// Whether the agent of a node is in one of the rooms.
pub fn is_connected(node_id: &str, rooms: &Vec<String>) -> (r: bool)
    ensures
        r == crate::text::texts(rooms@).contains(room_of(node_id@)),
{
    contains_text(rooms, agent_room(node_id).as_str())
}

/// The answer to a command that was to be sent to an agent, with its HTTP status.
pub fn exec_command_on_agent(node_id: &str, delivery: &Delivery) -> (r: (u16, ExecCommandResponse))
    ensures
        match *delivery {
            Delivery::NotConnected => r.0 == 404 && r.1.status@ == "error"@ && r.1.message is None
                && r.1.error is Some && r.1.error->0@ == not_connected_text(node_id@),
            Delivery::Sent => r.0 == 200 && r.1.status@ == "success"@ && r.1.error is None
                && r.1.message is Some && r.1.message->0@ == "Command sent to node '"@ + node_id@
                + "'"@,
            Delivery::Failed(e) => r.0 == 500 && r.1.status@ == "error"@ && r.1.message is None
                && r.1.error is Some && r.1.error->0@ == "Failed to send command to node '"@
                + node_id@ + "': "@ + e@,
        },
{
    match delivery {
        Delivery::NotConnected => (
            404,
            ExecCommandResponse {
                status: "error".to_owned(),
                message: None,
                error: Some(not_connected(node_id)),
            },
        ),
        Delivery::Sent => (
            200,
            ExecCommandResponse {
                status: "success".to_owned(),
                message: Some("Command sent to node '".to_owned().concat(node_id).concat("'")),
                error: None,
            },
        ),
        Delivery::Failed(e) => (
            500,
            ExecCommandResponse {
                status: "error".to_owned(),
                message: None,
                error: Some(
                    "Failed to send command to node '".to_owned().concat(node_id).concat(
                        "': ",
                    ).concat(e.as_str()),
                ),
            },
        ),
    }
}

/// The values of network conditions as they are sent: limits that are not given are off, and
/// hints that are not given are empty.
#[derive(Debug)]
pub struct NetworkConditionMessage {
    pub bandwidth: String,
    pub latency: String,
    pub loss: String,
    pub htb_explicit_limits: bool,
    pub interface: String,
    pub interface_ip: String,
}

/// The text of an optional string, or nothing.
pub open spec fn text_or_empty(o: Option<String>) -> Seq<char> {
    match o {
        Some(s) => s@,
        None => Seq::empty(),
    }
}

/// The string, or an empty one.
pub fn or_empty(o: &Option<String>) -> (r: String)
    ensures
        r@ == text_or_empty(*o),
{
    match o {
        Some(s) => s.clone(),
        None => String::new(),
    }
}

/// The message with network conditions for an agent.
pub fn network_condition_message(data: &NetworkConditionData) -> (r: NetworkConditionMessage)
    ensures
        r.bandwidth@ == data.bandwidth@,
        r.latency@ == data.latency@,
        r.loss@ == data.loss@,
        r.htb_explicit_limits == (data.htb_explicit_limits == Some(true)),
        r.interface@ == text_or_empty(data.interface),
        r.interface_ip@ == text_or_empty(data.interface_ip),
{
    NetworkConditionMessage {
        bandwidth: data.bandwidth.clone(),
        latency: data.latency.clone(),
        loss: data.loss.clone(),
        htb_explicit_limits: match data.htb_explicit_limits {
            Some(b) => b,
            None => false,
        },
        interface: or_empty(&data.interface),
        interface_ip: or_empty(&data.interface_ip),
    }
}

/// The answer to a change of network conditions, with its HTTP status.
pub fn update_network_conditions_on_agent(data: &NetworkConditionData, delivery: &Delivery) -> (r: (
    u16,
    UpdateNetworkConditionsResponse,
))
    ensures
        match *delivery {
            Delivery::NotConnected => r.0 == 503 && r.1.status@ == "error"@ && r.1.message is None
                && r.1.error is Some && r.1.error->0@ == not_connected_text(data.node_id@),
            Delivery::Sent => r.0 == 200 && r.1.status@ == "success"@ && r.1.error is None
                && r.1.message is Some && r.1.message->0@
                == "Network conditions command sent to node '"@ + data.node_id@ + "': bw="@
                + data.bandwidth@ + ", latency="@ + data.latency@ + ", loss="@ + data.loss@,
            Delivery::Failed(e) => r.0 == 500 && r.1.status@ == "error"@ && r.1.message is None
                && r.1.error is Some && r.1.error->0@
                == "Failed to emit 'update_network_conditions' event to node '"@ + data.node_id@
                + "': "@ + e@,
        },
{
    let node_id = data.node_id.as_str();
    match delivery {
        Delivery::NotConnected => (
            503,
            UpdateNetworkConditionsResponse {
                status: "error".to_owned(),
                message: None,
                error: Some(not_connected(node_id)),
            },
        ),
        Delivery::Sent => (
            200,
            UpdateNetworkConditionsResponse {
                status: "success".to_owned(),
                message: Some(
                    "Network conditions command sent to node '".to_owned().concat(node_id).concat(
                        "': bw=",
                    ).concat(data.bandwidth.as_str()).concat(", latency=").concat(
                        data.latency.as_str(),
                    ).concat(", loss=").concat(data.loss.as_str()),
                ),
                error: None,
            },
        ),
        Delivery::Failed(e) => (
            500,
            UpdateNetworkConditionsResponse {
                status: "error".to_owned(),
                message: None,
                error: Some(
                    "Failed to emit 'update_network_conditions' event to node '".to_owned().concat(
                        node_id,
                    ).concat("': ").concat(e.as_str()),
                ),
            },
        ),
    }
}

/// The answer to a change of route weights, with its HTTP status. Without permission nothing is
/// sent.
pub fn update_route_weights_on_agent(node_id: &str, allowed: bool, delivery: &Delivery) -> (r: (
    u16,
    UpdateRouteWeightsResponse,
))
    ensures
        if !allowed {
            r.0 == 400 && r.1.status@ == "error"@ && r.1.message is None && r.1.error is Some
                && r.1.error->0@
                == "Route updates are disabled for this experiment; enable GEANT weighted mode first"@
        } else {
            match *delivery {
                Delivery::NotConnected => r.0 == 503 && r.1.status@ == "error"@
                    && r.1.message is None && r.1.error is Some && r.1.error->0@
                    == not_connected_text(node_id@),
                Delivery::Sent => r.0 == 200 && r.1.status@ == "success"@ && r.1.error is None
                    && r.1.message is Some && r.1.message->0@
                    == "Route weight update sent to node '"@ + node_id@ + "'"@,
                Delivery::Failed(e) => r.0 == 500 && r.1.status@ == "error"@ && r.1.message is None
                    && r.1.error is Some && r.1.error->0@
                    == "Failed to emit 'update_route_weights' event to node '"@ + node_id@ + "': "@
                    + e@,
            }
        },
{
    if !allowed {
        return (
            400,
            UpdateRouteWeightsResponse {
                status: "error".to_owned(),
                message: None,
                error: Some(
                    "Route updates are disabled for this experiment; enable GEANT weighted mode first".to_owned(),
                ),
            },
        );
    }
    match delivery {
        Delivery::NotConnected => (
            503,
            UpdateRouteWeightsResponse {
                status: "error".to_owned(),
                message: None,
                error: Some(not_connected(node_id)),
            },
        ),
        Delivery::Sent => (
            200,
            UpdateRouteWeightsResponse {
                status: "success".to_owned(),
                message: Some(
                    "Route weight update sent to node '".to_owned().concat(node_id).concat("'"),
                ),
                error: None,
            },
        ),
        Delivery::Failed(e) => (
            500,
            UpdateRouteWeightsResponse {
                status: "error".to_owned(),
                message: None,
                error: Some(
                    "Failed to emit 'update_route_weights' event to node '".to_owned().concat(
                        node_id,
                    ).concat("': ").concat(e.as_str()),
                ),
            },
        ),
    }
}

/// Whether responses for a path are kept out of browser caches: pages, scripts, experiments and
/// their list.
pub open spec fn is_uncached(path: Seq<char>) -> bool {
    ||| path == "/"@
    ||| path == "/list_experiments"@
    ||| crate::text::ends(path, ".html"@)
    ||| crate::text::ends(path, ".js"@)
    ||| crate::text::ends(path, ".yaml"@)
    ||| crate::text::ends(path, ".yml"@)
}

/// Whether responses for a path are kept out of browser caches.
pub fn should_disable_browser_cache(path: &str) -> (r: bool)
    ensures
        r == is_uncached(path@),
{
    same(path, "/") || same(path, "/list_experiments") || ends_with(path, ".html") || ends_with(
        path,
        ".js",
    ) || ends_with(path, ".yaml") || ends_with(path, ".yml")
}

/// Whether a response gets the headers that keep it out of caches: it is a success, and its path
/// in lowercase is one of those.
pub fn disables_cache(request_path: &str, success: bool) -> (r: bool)
    ensures
        r == (success && is_uncached(crate::text::ascii_lowered(request_path@))),
{
    success && should_disable_browser_cache(to_ascii_lower(request_path).as_str())
}

/// The SHA-256 digest of a text in UTF-8.
pub uninterp spec fn sha256_of(text: Seq<char>) -> Seq<u8>;

/// `Sha256` from the crate `sha2`: the digest of the bytes of the text, 32 of them.
#[verifier::external_body]
fn sha256(text: &str) -> (r: Vec<u8>)
    ensures
        r@ == sha256_of(text@),
        r@.len() == 32,
{
    let mut hasher = Sha256::new();
    hasher.update(text.as_bytes());
    hasher.finalize().to_vec()
}

/// The number that the first eight bytes form, the first one being the most significant.
pub open spec fn leading_number(b: Seq<u8>) -> int {
    (((((((b[0] * 256 + b[1]) * 256 + b[2]) * 256 + b[3]) * 256 + b[4]) * 256 + b[5]) * 256 + b[6])
        * 256 + b[7])
}

/// The bright color that a digest maps to, between 70 and 195.
pub open spec fn color_of(digest: Seq<u8>) -> int {
    leading_number(digest) % 126 + 70
}

/// The bright color that a digest maps to.
pub fn color_of_digest(digest: &Vec<u8>) -> (r: u8)
    requires
        digest@.len() >= 8,
    ensures
        r == color_of(digest@),
        70 <= r <= 195,
{
    let n: u64 = ((((((digest[0] as u64 * 256 + digest[1] as u64) * 256 + digest[2] as u64) * 256
        + digest[3] as u64) * 256 + digest[4] as u64) * 256 + digest[5] as u64) * 256
        + digest[6] as u64) * 256 + digest[7] as u64;
    (n % 126 + 70) as u8
}

/// The color in which the output of a node is shown; the same for the same node.
pub fn generate_color_code(node_id: &str) -> (r: u8)
    ensures
        r == color_of(sha256_of(node_id@)),
        70 <= r <= 195,
{
    let digest = sha256(node_id);
    color_of_digest(&digest)
}

/// Text in brackets and in a color.
pub open spec fn colored(text: Seq<char>, color_code: u8) -> Seq<char> {
    "\x1b[38;5;"@ + crate::text::dec(color_code as nat) + "m["@ + text + "]\x1b[0m"@
}

/// Puts text in brackets and in a color.
pub fn colorize_text(text: &str, color_code: u8) -> (r: String)
    ensures
        r@ == colored(text@, color_code),
{
    "\x1b[38;5;".to_owned().concat(u64_text(color_code as u64).as_str()).concat("m[").concat(
        text,
    ).concat("]\x1b[0m")
}

/// How output is logged.
#[derive(Debug, Clone, Copy, PartialEq, Eq, Structural)]
pub enum LogLevel {
    Debug,
    Info,
    Warn,
    Error,
}

/// The level that a name stands for. A blank name is `info`; what is not known is an error.
pub open spec fn level_of(name: Seq<char>) -> LogLevel {
    let level = crate::text::ascii_lowered(crate::text::trimmed(name));
    if level.len() == 0 || level == "info"@ {
        LogLevel::Info
    } else if level == "trace"@ || level == "debug"@ {
        LogLevel::Debug
    } else if level == "warn"@ || level == "warning"@ {
        LogLevel::Warn
    } else {
        LogLevel::Error
    }
}

/// The line that is logged for output of a node.
pub open spec fn output_line(
    node: Seq<char>,
    location: Option<Seq<char>>,
    level: LogLevel,
    data: Seq<char>,
) -> Seq<char> {
    match location {
        Some(place) => node + " "@ + place + (if level == LogLevel::Error {
            ": "@
        } else {
            "; "@
        }) + data,
        None => node + " "@ + data,
    }
}

/// The level that a name stands for.
pub fn message_level(name: &str) -> (r: LogLevel)
    ensures
        r == level_of(name@),
{
    let trimmed = trim(name);
    assert(crate::text::ascii_lowered(trimmed@).len() == trimmed@.len());
    if trimmed.is_empty() {
        return LogLevel::Info;
    }
    let level = to_ascii_lower(trimmed);
    if same(level.as_str(), "info") {
        LogLevel::Info
    } else if same(level.as_str(), "trace") || same(level.as_str(), "debug") {
        LogLevel::Debug
    } else if same(level.as_str(), "warn") || same(level.as_str(), "warning") {
        LogLevel::Warn
    } else {
        LogLevel::Error
    }
}

/// The level and line for output of a process; blank output is not logged. `node` is the name of
/// the node as it is shown.
pub fn process_output(level: &str, data: &str, location: &Option<String>, node: &str) -> (r: Option<
    (LogLevel, String),
>)
    ensures
        match r {
            Some(line) => {
                &&& crate::text::trimmed(data@).len() > 0
                &&& line.0 == level_of(level@)
                &&& line.1@ == output_line(
                    node@,
                    crate::text::opt_text(*location),
                    level_of(level@),
                    data@,
                )
            },
            None => crate::text::trimmed(data@).len() == 0,
        },
{
    if trim(data).is_empty() {
        return None;
    }
    let kind = message_level(level);
    let line = match location {
        Some(place) => {
            let sep = if kind == LogLevel::Error {
                ": "
            } else {
                "; "
            };
            node.to_owned().concat(" ").concat(place.as_str()).concat(sep).concat(data)
        },
        None => node.to_owned().concat(" ").concat(data),
    };
    Some((kind, line))
}

/// The value of a parameter, or `unknown`.
pub fn parameter_or_unknown(params: &StringMap<String>, key: &str) -> (r: String)
    ensures
        r@ == if params@.dom().contains(key@) {
            params@[key@]@
        } else {
            "unknown"@
        },
{
    match params.get(key) {
        Some(v) => v.clone(),
        None => "unknown".to_owned(),
    }
}

/// The tunnel that is to be closed: `id`, else `tunnel_id`.
pub fn tunnel_to_close(params: &StringMap<String>) -> (r: Result<String, String>)
    ensures
        match r {
            Ok(id) => if params@.dom().contains("id"@) {
                id@ == params@["id"@]@
            } else {
                params@.dom().contains("tunnel_id"@) && id@ == params@["tunnel_id"@]@
            },
            Err(e) => !params@.dom().contains("id"@) && !params@.dom().contains("tunnel_id"@) && e@
                == "Missing `id`"@,
        },
{
    if let Some(id) = params.get("id") {
        return Ok(id.clone());
    }
    match params.get("tunnel_id") {
        Some(id) => Ok(id.clone()),
        None => Err("Missing `id`".to_owned()),
    }
}

/// Whether a request is logged; the frequent polling of metrics is not.
pub fn logs_request(path: &str) -> (r: bool)
    ensures
        r == (path@ != "/get_latest_metrics"@),
{
    !same(path, "/get_latest_metrics")
}

/// The metric that a query asks for: its text without surrounding white space.
pub fn queried_metric(query: &str) -> (r: Result<String, String>)
    ensures
        match r {
            Ok(metric) => metric@ == crate::text::trimmed(query@) && metric@.len() > 0,
            Err(e) => crate::text::trimmed(query@).len() == 0 && e@
                == "query must be a single metric name"@,
        },
{
    let metric = trim(query);
    if metric.is_empty() {
        Err("query must be a single metric name".to_owned())
    } else {
        Ok(metric.to_owned())
    }
}

/// The number of samples that a query returns when it names none.
pub fn sample_count(n: Option<usize>) -> (r: usize)
    ensures
        r == match n {
            Some(n) => n,
            None => 60,
        },
{
    match n {
        Some(n) => n,
        None => 60,
    }
}

/// A path with slashes in place of backslashes.
pub open spec fn with_slashes(path: Seq<char>) -> Seq<char> {
    Seq::new(
        path.len(),
        |i: int|
            if path[i] == '\\' {
                '/'
            } else {
                path[i]
            },
    )
}

/// Whether a file name has the extension `yaml`.
pub open spec fn is_yaml_name(name: Seq<char>) -> bool {
    crate::text::ends(name, ".yaml"@) && name.len() > ".yaml"@.len()
}

/// Whether some texts are in ascending order.
pub open spec fn is_ascending(list: Seq<Seq<char>>) -> bool {
    forall|i: int, j: int|
        0 <= i < j < list.len() ==> !crate::text::less(#[trigger] list[j], #[trigger] list[i])
}

fn replace_backslashes(path: &str) -> (r: String)
    ensures
        r@ == with_slashes(path@),
{
    let x = chars(path);
    let mut out = String::new();
    let mut i: usize = 0;
    while i < x.len()
        invariant
            i <= x.len(),
            out@ == with_slashes(x@.take(i as int)),
        decreases x.len() - i,
    {
        let c = x[i];
        out.push(
            if c == '\\' {
                '/'
            } else {
                c
            },
        );
        assert(out@ =~= with_slashes(x@.take(i + 1)));
        i += 1;
    }
    assert(x@.take(i as int) =~= x@);
    out
}

/// The paths of those of the first `n` files that are experiments; a file is given by its path
/// below the experiments and its name.
pub open spec fn experiment_paths(files: Seq<(String, String)>, n: nat) -> Seq<Seq<char>>
    decreases n,
{
    if n == 0 {
        Seq::empty()
    } else {
        let before = experiment_paths(files, (n - 1) as nat);
        if is_yaml_name(files[n - 1].1@) {
            before.push(with_slashes(files[n - 1].0@))
        } else {
            before
        }
    }
}

/// The paths of the experiments among files, in ascending order.
pub fn list_experiments(files: &Vec<(String, String)>) -> (r: Vec<String>)
    ensures
        is_ascending(crate::text::texts(r@)),
        crate::text::texts(r@).to_multiset() == experiment_paths(
            files@,
            files@.len(),
        ).to_multiset(),
{
    let mut out: Vec<String> = Vec::new();
    let mut i: usize = 0;
    assert(crate::text::texts(out@) =~= experiment_paths(files@, 0));
    while i < files.len()
        invariant
            i <= files.len(),
            is_ascending(crate::text::texts(out@)),
            crate::text::texts(out@).to_multiset() == experiment_paths(
                files@,
                i as nat,
            ).to_multiset(),
        decreases files.len() - i,
    {
        let name = files[i].1.as_str();
        if ends_with(name, ".yaml") && name.unicode_len() > ".yaml".unicode_len() {
            let path = replace_backslashes(files[i].0.as_str());
            let ghost sorted = crate::text::texts(out@);
            let ghost added = path@;
            let mut at: usize = 0;
            while at < out.len() && comes_before(out[at].as_str(), path.as_str())
                invariant
                    at <= out.len(),
                    sorted == crate::text::texts(out@),
                    forall|j: int| 0 <= j < at ==> crate::text::less(#[trigger] sorted[j], path@),
                decreases out.len() - at,
            {
                at += 1;
            }
            out.insert(at, path);
            proof {
                assert(crate::text::texts(out@) =~= sorted.insert(at as int, added));
                inserting_keeps_order(sorted, at as int, added);
                inserting_adds(sorted, at as int, added);
                let before = experiment_paths(files@, i as nat);
                inserting_adds(before, before.len() as int, added);
                assert(before.insert(before.len() as int, added) =~= before.push(added));
            }
        }
        i += 1;
    }
    out
}

proof fn inserting_adds(list: Seq<Seq<char>>, at: int, x: Seq<char>)
    requires
        0 <= at <= list.len(),
    ensures
        list.insert(at, x).to_multiset() == list.to_multiset().insert(x),
{
    broadcast use vstd::seq_lib::group_to_multiset_ensures;

    assert(list =~= list.take(at) + list.skip(at));
    assert(list.insert(at, x) =~= list.take(at) + seq![x] + list.skip(at));
    vstd::seq_lib::lemma_multiset_commutative(list.take(at), list.skip(at));
    vstd::seq_lib::lemma_multiset_commutative(list.take(at) + seq![x], list.skip(at));
    vstd::seq_lib::lemma_multiset_commutative(list.take(at), seq![x]);
    assert(seq![x] =~= Seq::<Seq<char>>::empty().push(x));
    assert(list.insert(at, x).to_multiset() =~= list.to_multiset().insert(x));
}

proof fn inserting_keeps_order(list: Seq<Seq<char>>, at: int, x: Seq<char>)
    requires
        is_ascending(list),
        0 <= at <= list.len(),
        forall|j: int| 0 <= j < at ==> crate::text::less(#[trigger] list[j], x),
        at < list.len() ==> !crate::text::less(list[at], x),
    ensures
        is_ascending(list.insert(at, x)),
{
    let after = list.insert(at, x);
    assert forall|i: int, j: int| 0 <= i < j < after.len() implies !crate::text::less(
        #[trigger] after[j],
        #[trigger] after[i],
    ) by {
        let a = if i < at { i } else { i - 1 };
        let b = if j < at { j } else { j - 1 };
        if i != at && j != at {
            assert(after[i] == list[a]);
            assert(after[j] == list[b]);
        } else if i == at {
            assert(after[j] == list[b]);
            assert(!crate::text::less(list[at], x));
            if crate::text::less(list[b], x) {
                crate::text::less_total(list[at], x);
                if at < b {
                    assert(!crate::text::less(list[b], list[at]));
                    if crate::text::less(x, list[at]) {
                        crate::text::less_transitive(list[b], x, list[at]);
                    }
                }
            }
        } else {
            assert(after[i] == list[a]);
            if crate::text::less(x, list[a]) {
                crate::text::less_transitive(x, list[a], x);
                crate::text::less_irreflexive(x);
            }
        }
    }
}

/// The sockets that are cleaned up are those that are not connected and those that are named.
pub proof fn unconnected_and_named_sockets_are_cleaned(
    sockets: Seq<SimpleSocket>,
    ids: Seq<Seq<char>>,
    n: nat,
    p: usize,
)
    requires
        n <= sockets.len(),
        sockets.len() <= usize::MAX,
    ensures
        stale_positions(sockets, ids, n).contains(p) <==> p < n && (!sockets[p as int].connected
            || ids.contains(sockets[p as int].id@)),
    decreases n,
{
    if n > 0 {
        let before = stale_positions(sockets, ids, (n - 1) as nat);
        let after = stale_positions(sockets, ids, n);
        unconnected_and_named_sockets_are_cleaned(sockets, ids, (n - 1) as nat, p);
        if before.contains(p) {
            let k = choose|k: int| 0 <= k < before.len() && before[k] == p;
            assert(after[k] == p);
        }
        if after.contains(p) {
            let k = choose|k: int| 0 <= k < after.len() && after[k] == p;
            if k < before.len() {
                assert(before[k] == p);
            }
        }
        if p == n - 1 && is_stale(sockets[n - 1], ids) {
            assert(after[after.len() - 1] == p);
        }
    }
}

/// Every file whose name ends as a YAML file's does is an experiment, and no other one is.
pub proof fn experiments_are_the_yaml_files(files: Seq<(String, String)>, n: nat, path: Seq<char>)
    requires
        n <= files.len(),
    ensures
        experiment_paths(files, n).contains(path) <==> exists|i: int|
            0 <= i < n && crate::text::ends((#[trigger] files[i]).1@, ".yaml"@)
                && files[i].1@.len() > 5 && with_slashes(files[i].0@) == path,
    decreases n,
{
    reveal_strlit(".yaml");
    if n > 0 {
        let before = experiment_paths(files, (n - 1) as nat);
        let after = experiment_paths(files, n);
        experiments_are_the_yaml_files(files, (n - 1) as nat, path);
        if before.contains(path) {
            let k = choose|k: int| 0 <= k < before.len() && before[k] == path;
            assert(after[k] == path);
        }
        if after.contains(path) {
            let k = choose|k: int| 0 <= k < after.len() && after[k] == path;
            if k < before.len() {
                assert(before[k] == path);
                assert(before.contains(path));
            } else {
                assert(files[n - 1].1@.len() > 5);
            }
        }
        if is_yaml_name(files[n - 1].1@) {
            assert(after[after.len() - 1] == with_slashes(files[n - 1].0@));
        }
    }
}

/// Paths are shown with slashes alone: each backslash becomes one, and nothing else changes.
pub proof fn backslashes_become_slashes(path: Seq<char>, i: int)
    requires
        0 <= i < path.len(),
    ensures
        with_slashes(path).len() == path.len(),
        path[i] == '\\' ==> with_slashes(path)[i] == '/',
        path[i] != '\\' ==> with_slashes(path)[i] == path[i],
{
}

/// A node is known by the name of its room: two nodes have different ones.
pub proof fn nodes_have_their_own_rooms(a: Seq<char>, b: Seq<char>)
    ensures
        room_of(a) == room_of(b) ==> a == b,
        crate::text::begins(room_of(a), "agent_"@),
        crate::text::ends(room_of(a), a),
{
    let h = "agent_"@;
    assert(room_of(a).skip(h.len() as int) =~= a);
    assert(room_of(b).skip(h.len() as int) =~= b);
    assert(room_of(a).subrange(0, h.len() as int) =~= h);
    assert(room_of(a).subrange(room_of(a).len() - a.len(), room_of(a).len() as int) =~= a);
}

/// The level of a message is the one that it names, in capitals or not; a message without one is
/// for information, and an unknown one is an error.
pub proof fn levels_are_read_by_name(name: Seq<char>)
    ensures
        ({
            let level = crate::text::ascii_lowered(crate::text::trimmed(name));
            &&& level.len() == 0 || level == "info"@ <==> level_of(name) == LogLevel::Info
            &&& level == "trace"@ || level == "debug"@ <==> level_of(name) == LogLevel::Debug
            &&& level == "warn"@ || level == "warning"@ <==> level_of(name) == LogLevel::Warn
        }),
{
    reveal_strlit("info");
    reveal_strlit("trace");
    reveal_strlit("debug");
    reveal_strlit("warn");
    reveal_strlit("warning");
    assert("info"@[0] == 'i' && "trace"@[0] == 't' && "debug"@[0] == 'd' && "warn"@[0] == 'w'
        && "warning"@[0] == 'w');
}

/// A colour is one of a hundred and twenty-six, by the remainder of the number that a digest
/// begins with, its first byte counting most.
pub proof fn colors_are_chosen_by_the_remainder(b: Seq<u8>)
    requires
        b.len() >= 8,
    ensures
        leading_number(b) == b[0] * 72057594037927936 + b[1] * 281474976710656 + b[2]
            * 1099511627776 + b[3] * 4294967296 + b[4] * 16777216 + b[5] * 65536 + b[6] * 256
            + b[7],
        70 <= color_of(b) <= 195,
        (leading_number(b) - (color_of(b) - 70)) % 126 == 0,
{
    let n = leading_number(b);
    assert(n >= 0);
    assert((n - n % 126) % 126 == 0);
}

/// A coloured text is the text in brackets between the start and the end of its colour.
pub proof fn colored_texts_end_their_color(text: Seq<char>, color_code: u8)
    ensures
        crate::text::begins(
            colored(text, color_code),
            "\x1b[38;5;"@ + crate::text::dec(color_code as nat) + "m"@,
        ),
        crate::text::ends(colored(text, color_code), "]\x1b[0m"@),
        crate::text::holds(colored(text, color_code), text),
{
    let c = colored(text, color_code);
    let head = "\x1b[38;5;"@ + crate::text::dec(color_code as nat);
    let tail = "]\x1b[0m"@;
    reveal_strlit("m[");
    reveal_strlit("m");
    assert(c.subrange(0, (head + "m"@).len() as int) =~= head + "m"@);
    assert(c.subrange(c.len() - tail.len(), c.len() as int) =~= tail);
    crate::text::holds_its_middle(head + "m["@, text, tail);
}

/// A line of output names its node and its place before what was said.
pub proof fn output_lines_name_their_node(
    node: Seq<char>,
    location: Option<Seq<char>>,
    level: LogLevel,
    data: Seq<char>,
)
    ensures
        crate::text::begins(output_line(node, location, level, data), node + " "@),
        crate::text::ends(output_line(node, location, level, data), data),
        location matches Some(place) ==> crate::text::begins(
            output_line(node, location, level, data),
            node + " "@ + place,
        ),
{
    let line = output_line(node, location, level, data);
    assert(line.subrange(0, (node + " "@).len() as int) =~= node + " "@);
    assert(line.subrange(line.len() - data.len(), line.len() as int) =~= data);
    if let Some(place) = location {
        assert(line.subrange(0, (node + " "@ + place).len() as int) =~= node + " "@ + place);
    }
}

} // verus!
