//! The parameters of requests to environments.

use vstd::prelude::*;

use crate::numerals::parse_u16;
use crate::string_map::StringMap;
use crate::text::same;
use crate::virtual_wall_lite::tunnels::{TunnelDirection, TunnelEndpoint, TunnelRequest};

verus! {

/// The value of a parameter.
pub open spec fn parameter(params: Map<Seq<char>, String>, key: Seq<char>) -> Option<Seq<char>> {
    if params.dom().contains(key) {
        Some(params[key]@)
    } else {
        None
    }
}

/// The value of a parameter, or another one where it is not given.
pub open spec fn parameter_or(
    params: Map<Seq<char>, String>,
    key: Seq<char>,
    other: Seq<char>,
) -> Seq<char> {
    match parameter(params, key) {
        Some(v) => v,
        None => other,
    }
}

/// The value of a parameter.
pub fn find_parameter(params: &StringMap<String>, key: &str) -> (r: Option<String>)
    ensures
        crate::text::opt_text(r) == parameter(params@, key@),
{
    match params.get(key) {
        Some(v) => Some(v.clone()),
        None => None,
    }
}

fn find_parameter_or(params: &StringMap<String>, key: &str, other: &str) -> (r: String)
    ensures
        r@ == parameter_or(params@, key@, other@),
{
    match params.get(key) {
        Some(v) => v.clone(),
        None => other.to_owned(),
    }
}

/// The words for a parameter that is not given.
pub open spec fn missing(key: Seq<char>) -> Seq<char> {
    "Missing `"@ + key + "` parameter"@
}

/// The value of a parameter that has to be given.
pub fn require_parameter(params: &StringMap<String>, key: &str) -> (r: Result<String, String>)
    ensures
        match parameter(params@, key@) {
            Some(v) => r matches Ok(s) && s@ == v,
            None => r matches Err(e) && e@ == missing(key@),
        },
{
    match params.get(key) {
        Some(v) => Ok(v.clone()),
        None => Err("Missing `".to_owned().concat(key).concat("` parameter")),
    }
}

/// The direction that a word stands for.
pub open spec fn direction_named(word: Seq<char>) -> Option<TunnelDirection> {
    if word == "local"@ || word == "local-forward"@ {
        Some(TunnelDirection::Local)
    } else if word == "remote"@ || word == "remote-forward"@ {
        Some(TunnelDirection::Remote)
    } else {
        None
    }
}

/// The port that a parameter gives.
pub open spec fn port_given(params: Map<Seq<char>, String>, key: Seq<char>) -> Option<u16> {
    match parameter(params, key) {
        Some(v) => match crate::numerals::unsigned_upto(v, u16::MAX as nat) {
            Some(n) => Some(n as u16),
            None => None,
        },
        None => None,
    }
}

/// The words for a port that is not given, or not a number of a port.
pub open spec fn bad_port(key: Seq<char>) -> Seq<char> {
    "Missing or invalid `"@ + key + "` parameter"@
}

fn require_port(params: &StringMap<String>, key: &str) -> (r: Result<u16, String>)
    ensures
        match port_given(params@, key@) {
            Some(n) => r == Ok::<u16, String>(n),
            None => r matches Err(e) && e@ == bad_port(key@),
        },
{
    let port: Option<u16> = match params.get(key) {
        Some(v) => parse_u16(v.as_str()),
        None => None,
    };
    match port {
        Some(n) => Ok(n),
        None => Err("Missing or invalid `".to_owned().concat(key).concat("` parameter")),
    }
}

/// The tunnel that parameters ask for, or the words for the first of them that is amiss.
pub open spec fn tunnel_asked(
    params: Map<Seq<char>, String>,
    default_direction: Seq<char>,
    default_node: Option<Seq<char>>,
) -> Result<crate::virtual_wall_lite::tunnels::TunnelRequestView, Seq<char>> {
    let word = parameter_or(params, "direction"@, default_direction);
    let node = match parameter(params, "node"@) {
        Some(n) => Some(n),
        None => default_node,
    };
    match (
        direction_named(word),
        node,
        port_given(params, "listen_port"@),
        port_given(params, "target_port"@),
    ) {
        (None, _, _, _) => Err("Invalid `direction`: "@ + word),
        (_, None, _, _) => Err(missing("node"@)),
        (_, _, None, _) => Err(bad_port("listen_port"@)),
        (_, _, _, None) => Err(bad_port("target_port"@)),
        (Some(direction), Some(node), Some(listen), Some(target)) => Ok(
            crate::virtual_wall_lite::tunnels::TunnelRequestView {
                node,
                direction,
                listen: crate::virtual_wall_lite::tunnels::TunnelEndpointView {
                    host: parameter_or(params, "listen_host"@, "127.0.0.1"@),
                    port: listen,
                },
                target: crate::virtual_wall_lite::tunnels::TunnelEndpointView {
                    host: parameter_or(params, "target_host"@, "127.0.0.1"@),
                    port: target,
                },
                username: parameter(params, "username"@),
            },
        ),
    }
}

/// The tunnel that parameters ask for. Direction and node may have a default.
pub fn build_tunnel_request(
    params: &StringMap<String>,
    default_direction: &str,
    default_node: Option<&str>,
) -> (r: Result<TunnelRequest, String>)
    ensures
        match tunnel_asked(params@, default_direction@, crate::text::opt_str(default_node)) {
            Ok(v) => r matches Ok(t) && t@ == v,
            Err(m) => r matches Err(e) && e@ == m,
        },
{
    let word = find_parameter_or(params, "direction", default_direction);
    let direction = if same(word.as_str(), "local") || same(word.as_str(), "local-forward") {
        TunnelDirection::Local
    } else if same(word.as_str(), "remote") || same(word.as_str(), "remote-forward") {
        TunnelDirection::Remote
    } else {
        return Err("Invalid `direction`: ".to_owned().concat(word.as_str()));
    };
    let node = match (find_parameter(params, "node"), default_node) {
        (Some(n), _) => n,
        (None, Some(n)) => n.to_owned(),
        (None, None) => {
            return Err("Missing `".to_owned().concat("node").concat("` parameter"));
        },
    };
    let listen_port: u16 = match require_port(params, "listen_port") {
        Ok(n) => n,
        Err(e) => {
            return Err(e);
        },
    };
    let target_port: u16 = match require_port(params, "target_port") {
        Ok(n) => n,
        Err(e) => {
            return Err(e);
        },
    };
    Ok(
        TunnelRequest {
            node,
            direction,
            listen: TunnelEndpoint {
                host: find_parameter_or(params, "listen_host", "127.0.0.1"),
                port: listen_port,
            },
            target: TunnelEndpoint {
                host: find_parameter_or(params, "target_host", "127.0.0.1"),
                port: target_port,
            },
            username: find_parameter(params, "username"),
        },
    )
}

/// The words for a tunnel that was closed.
pub open spec fn closed_tunnel(id: Seq<char>) -> Seq<char> {
    "Closed tunnel "@ + id
}

/// What is answered when a tunnel was to be closed.
pub fn close_reply(id: &str, failure: Option<&str>) -> (r: Result<String, String>)
    ensures
        match failure {
            None => r matches Ok(m) && m@ == closed_tunnel(id@),
            Some(e) => r matches Err(m) && m@ == "Failed to close tunnel "@ + id@ + ": "@ + e@,
        },
{
    match failure {
        None => Ok("Closed tunnel ".to_owned().concat(id)),
        Some(e) => Err("Failed to close tunnel ".to_owned().concat(id).concat(": ").concat(e)),
    }
}

/// A tunnel is asked for by its parameters: each one counts under its own name, hosts that are not
/// given are the local one, and direction and node have defaults.
pub proof fn tunnels_are_asked_for_by_name(
    params: Map<Seq<char>, String>,
    default_direction: Seq<char>,
    default_node: Option<Seq<char>>,
    listen: u16,
    target: u16,
)
    requires
        params.dom().contains("listen_port"@) && params["listen_port"@]@ == crate::text::dec(
            listen as nat,
        ),
        params.dom().contains("target_port"@) && params["target_port"@]@ == crate::text::dec(
            target as nat,
        ),
        params.dom().contains("node"@),
        params.dom().contains("direction"@) ==> params["direction"@]@ == "local"@
            || params["direction"@]@ == "remote"@,
        !params.dom().contains("direction"@) ==> default_direction == "local"@
            || default_direction == "remote"@,
    ensures
        tunnel_asked(params, default_direction, default_node) matches Ok(t) && {
            let word = if params.dom().contains("direction"@) {
                params["direction"@]@
            } else {
                default_direction
            };
            &&& t.node == params["node"@]@
            &&& t.listen.port == listen
            &&& t.target.port == target
            &&& word == "local"@ ==> t.direction == TunnelDirection::Local
            &&& word == "remote"@ ==> t.direction == TunnelDirection::Remote
            &&& params.dom().contains("listen_host"@) ==> t.listen.host == params["listen_host"@]@
            &&& !params.dom().contains("listen_host"@) ==> t.listen.host == "127.0.0.1"@
            &&& params.dom().contains("target_host"@) ==> t.target.host == params["target_host"@]@
            &&& !params.dom().contains("target_host"@) ==> t.target.host == "127.0.0.1"@
            &&& params.dom().contains("username"@) ==> t.username == Some(params["username"@]@)
            &&& !params.dom().contains("username"@) ==> t.username is None
        },
{
    crate::numerals::reading_a_numeral(listen as nat);
    crate::numerals::reading_a_numeral(target as nat);
    let a = crate::text::dec(listen as nat);
    let b = crate::text::dec(target as nat);
    assert(crate::numerals::is_digit(a[0]) && crate::numerals::is_digit(b[0]));
    reveal_strlit("local");
    reveal_strlit("remote");
    reveal_strlit("local-forward");
    assert("local"@.len() == 5 && "remote"@.len() == 6 && "local-forward"@.len() == 13);
}

/// Without a node, where there is no default, or without one of the ports, there is no tunnel.
pub proof fn incomplete_requests_are_refused(
    params: Map<Seq<char>, String>,
    default_direction: Seq<char>,
    default_node: Option<Seq<char>>,
)
    ensures
        !params.dom().contains("node"@) && default_node is None ==> tunnel_asked(
            params,
            default_direction,
            default_node,
        ) is Err,
        !params.dom().contains("listen_port"@) ==> tunnel_asked(
            params,
            default_direction,
            default_node,
        ) is Err,
        !params.dom().contains("target_port"@) ==> tunnel_asked(
            params,
            default_direction,
            default_node,
        ) is Err,
        !params.dom().contains("node"@) && default_node is Some ==> (tunnel_asked(
            params,
            default_direction,
            default_node,
        ) matches Ok(t) ==> t.node == default_node->0),
{
}

} // verus!
