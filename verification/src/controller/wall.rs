//! The Virtual Wall environments, as requests ask for them.

use vstd::prelude::*;

use crate::big_virtual_wall::overlay::OverlaySpec;
use crate::big_virtual_wall::planner::PlanResult;
use crate::big_virtual_wall::safety::parse_bool;
use crate::controller::requests::{find_parameter, require_parameter};
use crate::forms::form_pairs;
use crate::numerals::parse_usize;
use crate::start_options::StartOptions;
use crate::string_map::StringMap;
use crate::text::{chars, lowercase, same, u64_text};

verus! {

/// What is answered when a Virtual Wall was to be started.
pub fn start_reply(outcome: Result<(&str, usize), &str>) -> (r: Result<String, String>)
    ensures
        match outcome {
            Ok((name, count)) => r matches Ok(m) && m@ == "Virtual Wall experiment `"@ + name@
                + "` started with "@ + crate::text::dec(count as nat) + " resources"@,
            Err(e) => r matches Err(m) && m@ == "Failed to start Virtual Wall: "@ + e@,
        },
{
    match outcome {
        Ok((name, count)) => Ok(
            "Virtual Wall experiment `".to_owned().concat(name).concat("` started with ").concat(
                u64_text(count as u64).as_str(),
            ).concat(" resources"),
        ),
        Err(e) => Err("Failed to start Virtual Wall: ".to_owned().concat(e)),
    }
}

/// What is answered when a Virtual Wall was to be stopped. A big one has an overlay too.
pub fn stop_reply(failure: Option<&str>, big: bool) -> (r: Result<String, String>)
    ensures
        match failure {
            None => r matches Ok(m) && m@ == (if big {
                "Big Virtual Wall stopped (overlay cleaned best-effort)"@
            } else {
                "Virtual Wall environment stopped and resources released"@
            }),
            Some(e) => r matches Err(m) && m@ == "Failed to stop Virtual Wall: "@ + e@,
        },
{
    match failure {
        None => Ok(
            if big {
                "Big Virtual Wall stopped (overlay cleaned best-effort)".to_owned()
            } else {
                "Virtual Wall environment stopped and resources released".to_owned()
            },
        ),
        Some(e) => Err("Failed to stop Virtual Wall: ".to_owned().concat(e)),
    }
}

/// A command to execute on a node.
#[derive(Debug)]
pub struct ExecRequest {
    pub node: String,
    pub command: String,
    pub username: Option<String>,
    pub identity_file: Option<String>,
}

/// The command that parameters ask to execute.
pub fn exec_request(params: &StringMap<String>) -> (r: Result<ExecRequest, String>)
    ensures
        ({
            let node = crate::controller::requests::parameter(params@, "node"@);
            let command = crate::controller::requests::parameter(params@, "command"@);
            match (node, command) {
                (None, _) => r matches Err(m) && m@ == crate::controller::requests::missing(
                    "node"@,
                ),
                (_, None) => r matches Err(m) && m@ == crate::controller::requests::missing(
                    "command"@,
                ),
                (Some(n), Some(c)) => r matches Ok(x) && {
                    &&& x.node@ == n
                    &&& x.command@ == c
                    &&& crate::text::opt_text(x.username)
                        == crate::controller::requests::parameter(params@, "username"@)
                    &&& crate::text::opt_text(x.identity_file)
                        == crate::controller::requests::parameter(params@, "identity_file"@)
                },
            }
        }),
{
    let node = require_parameter(params, "node")?;
    let command = require_parameter(params, "command")?;
    Ok(
        ExecRequest {
            node,
            command,
            username: find_parameter(params, "username"),
            identity_file: find_parameter(params, "identity_file"),
        },
    )
}

/// The number that a hexadecimal digit stands for.
pub open spec fn hex_digit(c: char) -> Option<int> {
    if '0' <= c <= '9' {
        Some(c as int - 48)
    } else if 'a' <= c <= 'f' {
        Some(c as int - 87)
    } else if 'A' <= c <= 'F' {
        Some(c as int - 55)
    } else {
        None
    }
}

/// The number that hexadecimal digits stand for.
pub open spec fn hex_value(s: Seq<char>) -> Option<int>
    decreases s.len(),
{
    if s.len() == 0 {
        Some(0)
    } else {
        match (hex_value(s.drop_last()), hex_digit(s.last())) {
            (Some(n), Some(d)) => Some(n * 16 + d),
            _ => None,
        }
    }
}

/// The color that a text `#rrggbb` names, as red, green and blue. A plus sign may stand in place
/// of the first digit; anything else is a gray.
pub open spec fn color_named(hex: Seq<char>) -> (int, int, int) {
    let digits = if hex.len() == 7 && hex[1] == '+' {
        hex.skip(2)
    } else {
        hex.skip(1)
    };
    match hex_value(digits) {
        Some(n) if hex.len() == 7 && hex[0] == '#' => (n / 65536, n / 256 % 256, n % 256),
        _ => (100, 100, 100),
    }
}

fn digit_value(c: char) -> (r: Option<u32>)
    ensures
        match r {
            Some(d) => hex_digit(c) == Some(d as int) && d < 16,
            None => hex_digit(c) is None,
        },
{
    if '0' <= c && c <= '9' {
        Some(c as u32 - 48)
    } else if 'a' <= c && c <= 'f' {
        Some(c as u32 - 87)
    } else if 'A' <= c && c <= 'F' {
        Some(c as u32 - 55)
    } else {
        None
    }
}

proof fn no_value_beyond(s: Seq<char>, n: int)
    requires
        0 <= n <= s.len(),
        hex_value(s.take(n)) is None,
    ensures
        hex_value(s) is None,
    decreases s.len() - n,
{
    if n < s.len() {
        assert(s.take(n + 1).drop_last() =~= s.take(n));
        no_value_beyond(s, n + 1);
    } else {
        assert(s.take(n) =~= s);
    }
}

fn read_hex(x: &Vec<char>, from: usize) -> (r: Option<u32>)
    requires
        from <= x@.len() <= from + 6,
    ensures
        match r {
            Some(n) => hex_value(x@.skip(from as int)) == Some(n as int) && n < 16777216,
            None => hex_value(x@.skip(from as int)) is None,
        },
{
    let ghost s = x@.skip(from as int);
    let mut n: u32 = 0;
    let mut bound: u32 = 1;
    let mut i: usize = from;
    while i < x.len()
        invariant
            from <= i <= x.len(),
            x@.len() <= from + 6,
            s == x@.skip(from as int),
            hex_value(s.take(i - from)) == Some(n as int),
            n < bound,
            bound == 1 && i == from || bound == 16 && i == from + 1 || bound == 256 && i == from + 2
                || bound == 4096 && i == from + 3 || bound == 65536 && i == from + 4 || bound
                == 1048576 && i == from + 5 || bound == 16777216 && i == from + 6,
        decreases x.len() - i,
    {
        assert(s.take(i - from + 1).drop_last() =~= s.take(i - from));
        assert(s.take(i - from + 1).last() == x@[i as int]);
        match digit_value(x[i]) {
            Some(d) => {
                n = n * 16 + d;
                bound = bound * 16;
            },
            None => {
                proof {
                    no_value_beyond(s, i - from + 1);
                }
                return None;
            },
        }
        i += 1;
    }
    assert(s.take(i - from) =~= s);
    Some(n)
}

/// The color that a text names, as red, green and blue.
pub fn parse_color(hex: &str) -> (r: (u8, u8, u8))
    ensures
        (r.0 as int, r.1 as int, r.2 as int) == color_named(hex@),
{
    let x = chars(hex);
    if x.len() != 7 || x[0] != '#' {
        return (100, 100, 100);
    }
    let from: usize = if x[1] == '+' {
        2
    } else {
        1
    };
    match read_hex(&x, from) {
        Some(n) => ((n / 65536) as u8, (n / 256 % 256) as u8, (n % 256) as u8),
        None => (100, 100, 100),
    }
}

/// The color of a node that has none of its own.
pub fn node_color<'a>(color: Option<&'a str>, node_type: Option<&str>) -> (r: &'a str)
    ensures
        r@ == match color {
            Some(c) => c@,
            None => if crate::text::opt_str(node_type) == Some("switch"@) {
                "#6b7280"@
            } else {
                "#2563eb"@
            },
        },
{
    match color {
        Some(c) => c,
        None => {
            let is_switch = match node_type {
                Some(t) => same(t, "switch"),
                None => false,
            };
            if is_switch {
                "#6b7280"
            } else {
                "#2563eb"
            }
        },
    }
}

/// The color of an edge that has none of its own.
pub fn edge_color<'a>(color: Option<&'a str>) -> (r: &'a str)
    ensures
        r@ == match color {
            Some(c) => c@,
            None => "#94a3b8"@,
        },
{
    match color {
        Some(c) => c,
        None => "#94a3b8",
    }
}

/// The character that stands for six bits.
pub open spec fn sextet(n: int) -> char {
    if n < 26 {
        (65 + n) as char
    } else if n < 52 {
        (71 + n) as char
    } else if n < 62 {
        (n - 4) as char
    } else if n == 62 {
        '+'
    } else {
        '/'
    }
}

/// Bytes in Base64 with the standard alphabet: four characters for three bytes, with `=` for what
/// is missing at the end.
pub open spec fn base64_text(b: Seq<u8>) -> Seq<char>
    decreases b.len(),
{
    if b.len() == 0 {
        Seq::empty()
    } else if b.len() == 1 {
        seq![sextet(b[0] as int / 4), sextet(b[0] as int % 4 * 16), '=', '=']
    } else if b.len() == 2 {
        seq![
            sextet(b[0] as int / 4),
            sextet(b[0] as int % 4 * 16 + b[1] as int / 16),
            sextet(b[1] as int % 16 * 4),
            '=',
        ]
    } else {
        seq![
            sextet(b[0] as int / 4),
            sextet(b[0] as int % 4 * 16 + b[1] as int / 16),
            sextet(b[1] as int % 16 * 4 + b[2] as int / 64),
            sextet(b[2] as int % 64),
        ] + base64_text(b.skip(3))
    }
}

/// `base64::Engine::encode` with the engine `STANDARD`: the bytes in Base64, with the standard
/// alphabet and padding. The text has to fit into memory.
#[verifier::external_body]
fn base64(bytes: &Vec<u8>) -> (r: String)
    requires
        (bytes@.len() + 2) / 3 * 4 <= isize::MAX,
    ensures
        r@ == base64_text(bytes@),
{
    base64::Engine::encode(&base64::engine::general_purpose::STANDARD, bytes)
}

/// The bytes in which a picture is sent: its Base64 text, where that fits into memory.
pub fn picture_bytes(png: &Vec<u8>) -> (r: Option<Vec<u8>>)
    ensures
        if (png@.len() + 2) / 3 * 4 <= isize::MAX {
            r matches Some(b) && b@ == vstd::utf8::encode_utf8(base64_text(png@))
        } else {
            r is None
        },
{
    let n: usize = png.len();
    let groups: usize = n / 3 + (if n % 3 == 0 {
        0usize
    } else {
        1usize
    });
    assert(groups == (n + 2) / 3);
    if groups > (isize::MAX as usize) / 4 {
        return None;
    }
    let text = base64(png);
    Some(text.as_str().as_bytes_vec())
}

/// What pairs say: the last value that a name has.
pub open spec fn last_values_of(pairs: Seq<(Seq<char>, Seq<char>)>) -> Map<Seq<char>, Seq<char>>
    decreases pairs.len(),
{
    if pairs.len() == 0 {
        Map::empty()
    } else {
        last_values_of(pairs.drop_last()).insert(pairs.last().0, pairs.last().1)
    }
}

/// The texts of the values of a map.
pub open spec fn value_texts(m: Map<Seq<char>, String>) -> Map<Seq<char>, Seq<char>> {
    Map::new(|k: Seq<char>| m.dom().contains(k), |k: Seq<char>| m[k]@)
}

/// What pairs say: the last value that a name has.
pub fn collect_pairs(pairs: &Vec<(String, String)>) -> (r: StringMap<String>)
    ensures
        value_texts(r@) == last_values_of(crate::forms::pair_texts(pairs@)),
{
    let ghost all = crate::forms::pair_texts(pairs@);
    let mut r: StringMap<String> = StringMap::new();
    assert(value_texts(r@) =~= last_values_of(all.take(0)));
    let mut i: usize = 0;
    while i < pairs.len()
        invariant
            i <= pairs.len(),
            all == crate::forms::pair_texts(pairs@),
            value_texts(r@) == last_values_of(all.take(i as int)),
        decreases pairs.len() - i,
    {
        assert(all.take(i + 1).drop_last() =~= all.take(i as int));
        let ghost before = r@;
        r.insert(pairs[i].0.clone(), pairs[i].1.clone());
        assert(value_texts(r@) =~= value_texts(before).insert(
            pairs@[i as int].0@,
            pairs@[i as int].1@,
        ));
        i += 1;
    }
    assert(all.take(i as int) =~= all);
    r
}

/// The parameters that options give.
pub fn form_parameters(options: &str) -> (r: StringMap<String>)
    ensures
        value_texts(r@) == last_values_of(crate::forms::form_pairs_of(options@)),
{
    collect_pairs(&form_pairs(options))
}

/// Whether a value with a lowercase form switches something off.
pub open spec fn turns_off(value: Seq<char>, lowered: Seq<char>) -> bool {
    value == "0"@ || lowered == "false"@
}

/// Whether a value with a lowercase form switches something off.
pub fn is_switched_off(value: &str, lowered: &str) -> (r: bool)
    ensures
        r == turns_off(value@, lowered@),
{
    same(value, "0") || same(lowered, "false")
}

/// Whether a value switches something off.
pub open spec fn is_off(value: Option<Seq<char>>) -> bool {
    match value {
        Some(v) => turns_off(v, crate::text::lowercase_of(v)),
        None => false,
    }
}

fn switches_off(value: Option<&str>) -> (r: bool)
    ensures
        r == is_off(crate::text::opt_str(value)),
{
    match value {
        Some(v) => is_switched_off(v, lowercase(v).as_str()),
        None => false,
    }
}

/// The overlay that is asked for.
#[derive(Debug)]
pub struct OverlayRequest {
    pub spec_path: String,
    pub experiment: Option<String>,
    pub dry_run: bool,
}

fn value_of<'a>(params: &'a StringMap<String>, key: &str) -> (r: Option<&'a str>)
    ensures
        crate::text::opt_str(r) == crate::controller::requests::parameter(params@, key@),
{
    match params.get(key) {
        Some(v) => Some(v.as_str()),
        None => None,
    }
}

/// The overlay that parameters ask for.
pub fn overlay_request(params: &StringMap<String>) -> (r: Result<OverlayRequest, String>)
    ensures
        match crate::controller::requests::parameter(params@, "spec"@) {
            None => r matches Err(m) && m@ == crate::controller::requests::missing("spec"@),
            Some(path) => r matches Ok(x) && {
                &&& x.spec_path@ == path
                &&& crate::text::opt_text(x.experiment) == crate::controller::requests::parameter(
                    params@,
                    "experiment"@,
                )
                &&& x.dry_run == crate::big_virtual_wall::safety::switched_on(
                    crate::controller::requests::parameter(params@, "dry_run"@),
                )
            },
        },
{
    let spec_path = require_parameter(params, "spec")?;
    Ok(
        OverlayRequest {
            spec_path,
            experiment: find_parameter(params, "experiment"),
            dry_run: parse_bool(params.get("dry_run")),
        },
    )
}

/// A number that a parameter gives.
pub open spec fn number_given(params: Map<Seq<char>, String>, key: Seq<char>) -> Option<usize> {
    match crate::controller::requests::parameter(params, key) {
        Some(v) => crate::start_options::count_of(v),
        None => None,
    }
}

/// The options with which the hosts of an overlay are started.
pub open spec fn base_options_of(params: Map<Seq<char>, String>, hosts: usize) -> StartOptions {
    StartOptions {
        nodes: match number_given(params, "nodes"@) {
            Some(n) => n,
            None => hosts,
        },
        paths: match number_given(params, "paths"@) {
            Some(n) => Some(n),
            None => Some(2),
        },
        reuse: !is_off(crate::controller::requests::parameter(params, "reuse"@)),
    }
}

fn find_number(params: &StringMap<String>, key: &str) -> (r: Option<usize>)
    ensures
        r == number_given(params@, key@),
{
    match params.get(key) {
        Some(v) => parse_usize(v.as_str()),
        None => None,
    }
}

/// The options with which the hosts of an overlay are started: as many as it has, where
/// parameters do not say otherwise.
pub fn base_options(params: &StringMap<String>, hosts: usize) -> (r: Result<StartOptions, String>)
    ensures
        if hosts == 0 {
            r matches Err(m) && m@ == "Spec did not produce any hosts (host_pool?)"@
        } else {
            r == Ok::<StartOptions, String>(base_options_of(params@, hosts))
        },
{
    if hosts == 0 {
        return Err("Spec did not produce any hosts (host_pool?)".to_owned());
    }
    let nodes: usize = match find_number(params, "nodes") {
        Some(n) => n,
        None => hosts,
    };
    let paths: usize = match find_number(params, "paths") {
        Some(n) => n,
        None => 2,
    };
    Ok(
        StartOptions {
            nodes,
            paths: Some(paths),
            reuse: !switches_off(value_of(params, "reuse")),
        },
    )
}

/// The host that a node is on: `auto` stands for the host of its name.
pub open spec fn host_of(name: Seq<char>, host: Seq<char>) -> Seq<char> {
    if host == "auto"@ {
        name
    } else {
        host
    }
}

/// The hosts that nodes are on.
pub open spec fn node_hosts(
    nodes: Seq<crate::big_virtual_wall::overlay::OverlayNode>,
) -> Map<Seq<char>, Seq<char>>
    decreases nodes.len(),
{
    if nodes.len() == 0 {
        Map::empty()
    } else {
        node_hosts(nodes.drop_last()).insert(
            nodes.last().name@,
            host_of(nodes.last().name@, nodes.last().host@),
        )
    }
}

/// The hosts that the nodes of an overlay are on.
pub fn hosts_of_nodes(spec: &OverlaySpec) -> (r: StringMap<String>)
    ensures
        value_texts(r@) == node_hosts(spec.nodes@),
{
    let nodes = &spec.nodes;
    let mut r: StringMap<String> = StringMap::new();
    assert(value_texts(r@) =~= node_hosts(nodes@.take(0)));
    let mut i: usize = 0;
    while i < nodes.len()
        invariant
            i <= nodes.len(),
            value_texts(r@) == node_hosts(nodes@.take(i as int)),
        decreases nodes.len() - i,
    {
        assert(nodes@.take(i + 1).drop_last() =~= nodes@.take(i as int));
        let host = if same(nodes[i].host.as_str(), "auto") {
            nodes[i].name.clone()
        } else {
            nodes[i].host.clone()
        };
        let ghost before = r@;
        r.insert(nodes[i].name.clone(), host);
        assert(value_texts(r@) =~= value_texts(before).insert(
            nodes@[i as int].name@,
            host_of(nodes@[i as int].name@, nodes@[i as int].host@),
        ));
        i += 1;
    }
    assert(nodes@.take(i as int) =~= nodes@);
    r
}

/// Where and how a command is executed: a node of the overlay has a network namespace on its
/// host.
pub fn placed_command(hosts: Option<&StringMap<String>>, node: &str, command: &str) -> (r: (
    String,
    String,
))
    ensures
        match hosts {
            Some(h) if h@.dom().contains(node@) => r.0@ == h@[node@]@ && r.1@
                == "ip netns exec ns-"@ + node@ + " "@ + command@,
            _ => r.0@ == node@ && r.1@ == command@,
        },
{
    if let Some(h) = hosts {
        if let Some(host) = h.get(node) {
            return (
                host.clone(),
                "ip netns exec ns-".to_owned().concat(node).concat(" ").concat(command),
            );
        }
    }
    (node.to_owned(), command.to_owned())
}

/// What is answered when an overlay was started.
pub fn overlay_reply(nodes: usize, experiment: &str, dry_run: bool) -> (r: String)
    ensures
        r@ == "Base started ("@ + crate::text::dec(nodes as nat) + (if dry_run {
            " nodes), overlay dry-run completed on experiment "@
        } else {
            " nodes), overlay applied on experiment "@
        }) + experiment@,
{
    let words = if dry_run {
        " nodes), overlay dry-run completed on experiment "
    } else {
        " nodes), overlay applied on experiment "
    };
    "Base started (".to_owned().concat(u64_text(nodes as u64).as_str()).concat(words).concat(
        experiment,
    )
}

/// An end of a link of an overlay, with its address.
#[derive(Debug)]
pub struct AddressedEnd {
    pub node: String,
    pub intf: String,
    pub ip: String,
}

/// A link of an overlay, with the addresses of its ends.
#[derive(Debug)]
pub struct AddressedLink {
    pub vlan: u16,
    pub vxlan_dev: String,
    pub first: AddressedEnd,
    pub second: AddressedEnd,
}

/// The address of an end of a link: one of the two in a subnet that follows from the VLAN.
pub open spec fn link_address(vlan: u16, end: int) -> Seq<char> {
    "192.168."@ + crate::text::dec((50 + vlan as int % 200) as nat) + "."@ + crate::text::dec(
        end as nat,
    ) + "/30"@
}

/// Whether a link with addresses is a link of a plan.
pub open spec fn is_addressed(
    r: AddressedLink,
    link: crate::big_virtual_wall::planner::VlanLink,
) -> bool {
    &&& r.vlan == link.vlan_id
    &&& r.vxlan_dev@ == link.vxlan_dev@
    &&& r.first.node@ == link.endpoints@[0].node@
    &&& r.first.intf@ == link.endpoints@[0].intf@
    &&& r.first.ip@ == link_address(link.vlan_id, 1)
    &&& r.second.node@ == link.endpoints@[1].node@
    &&& r.second.intf@ == link.endpoints@[1].intf@
    &&& r.second.ip@ == link_address(link.vlan_id, 2)
}

/// The links of all hosts, one after another.
pub open spec fn all_links(plans: Seq<crate::big_virtual_wall::planner::HostPlan>) -> Seq<
    crate::big_virtual_wall::planner::VlanLink,
>
    decreases plans.len(),
{
    if plans.len() == 0 {
        Seq::empty()
    } else {
        all_links(plans.drop_last()) + plans.last().vlan_links@
    }
}

/// Whether links with addresses are links of a plan, one for one.
pub open spec fn are_addressed(
    r: Seq<AddressedLink>,
    links: Seq<crate::big_virtual_wall::planner::VlanLink>,
) -> bool {
    &&& r.len() == links.len()
    &&& forall|i: int| 0 <= i < r.len() ==> is_addressed(#[trigger] r[i], links[i])
}

fn address_of(vlan: u16, end: u64) -> (r: String)
    ensures
        r@ == link_address(vlan, end as int),
{
    "192.168.".to_owned().concat(u64_text(50 + vlan as u64 % 200).as_str()).concat(".").concat(
        u64_text(end).as_str(),
    ).concat("/30")
}

fn address_link(link: &crate::big_virtual_wall::planner::VlanLink) -> (r: AddressedLink)
    ensures
        is_addressed(r, *link),
{
    AddressedLink {
        vlan: link.vlan_id,
        vxlan_dev: link.vxlan_dev.clone(),
        first: AddressedEnd {
            node: link.endpoints[0].node.clone(),
            intf: link.endpoints[0].intf.clone(),
            ip: address_of(link.vlan_id, 1),
        },
        second: AddressedEnd {
            node: link.endpoints[1].node.clone(),
            intf: link.endpoints[1].intf.clone(),
            ip: address_of(link.vlan_id, 2),
        },
    }
}

/// The links of an overlay, with the addresses of their ends.
pub fn overlay_links(plan: &PlanResult) -> (r: Vec<AddressedLink>)
    ensures
        are_addressed(r@, all_links(plan.host_plans@)),
{
    let plans = &plan.host_plans;
    let mut out: Vec<AddressedLink> = Vec::new();
    let mut i: usize = 0;
    while i < plans.len()
        invariant
            i <= plans.len(),
            are_addressed(out@, all_links(plans@.take(i as int))),
        decreases plans.len() - i,
    {
        assert(plans@.take(i + 1).drop_last() =~= plans@.take(i as int));
        let links = &plans[i].vlan_links;
        let ghost before = all_links(plans@.take(i as int));
        assert(before + links@.take(0) =~= before);
        let mut j: usize = 0;
        while j < links.len()
            invariant
                j <= links.len(),
                are_addressed(out@, before + links@.take(j as int)),
            decreases links.len() - j,
        {
            let ghost had = out@;
            out.push(address_link(&links[j]));
            let ghost more = before + links@.take(j + 1);
            assert forall|k: int| 0 <= k < out@.len() implies is_addressed(
                #[trigger] out@[k],
                more[k],
            ) by {
                if k < had.len() {
                    assert(out@[k] == had[k]);
                    assert(more[k] == (before + links@.take(j as int))[k]);
                }
            }
            j += 1;
        }
        assert(links@.take(j as int) =~= links@);
        i += 1;
    }
    assert(plans@.take(i as int) =~= plans@);
    out
}

/// A colour is read two digits at a time: red, green and blue.
pub proof fn colors_are_read_in_pairs(
    hex: Seq<char>,
    a: int,
    b: int,
    c: int,
    d: int,
    e: int,
    f: int,
)
    requires
        hex.len() == 7,
        hex[0] == '#',
        hex_digit(hex[1]) == Some(a) && hex_digit(hex[2]) == Some(b),
        hex_digit(hex[3]) == Some(c) && hex_digit(hex[4]) == Some(d),
        hex_digit(hex[5]) == Some(e) && hex_digit(hex[6]) == Some(f),
    ensures
        color_named(hex) == (16 * a + b, 16 * c + d, 16 * e + f),
{
    let s = hex.skip(1);
    assert(s.len() == 6);
    reveal_with_fuel(hex_value, 7);
    let s5 = s.drop_last();
    let s4 = s5.drop_last();
    let s3 = s4.drop_last();
    let s2 = s3.drop_last();
    let s1 = s2.drop_last();
    assert(s1.drop_last().len() == 0);
    assert(hex_value(s1) == Some(a));
    assert(hex_value(s2) == Some(a * 16 + b));
    assert(hex_value(s3) == Some((a * 16 + b) * 16 + c));
    assert(hex_value(s4) == Some(((a * 16 + b) * 16 + c) * 16 + d));
    assert(hex_value(s5) == Some((((a * 16 + b) * 16 + c) * 16 + d) * 16 + e));
    let n = ((((a * 16 + b) * 16 + c) * 16 + d) * 16 + e) * 16 + f;
    assert(hex_value(s) == Some(n));
    assert(0 <= a < 16 && 0 <= b < 16 && 0 <= c < 16 && 0 <= d < 16 && 0 <= e < 16 && 0 <= f < 16);
    assert(n == (16 * a + b) * 65536 + (16 * c + d) * 256 + (16 * e + f));
    assert(n / 65536 == 16 * a + b);
    assert(n / 256 == (16 * a + b) * 256 + (16 * c + d));
    assert(n / 256 % 256 == 16 * c + d);
    assert(n % 256 == 16 * e + f);
}

/// A hexadecimal digit counts as much as its place after zero, in capitals or not.
pub proof fn hex_digits_count_up(c: char)
    ensures
        '0' <= c <= '9' ==> hex_digit(c) == Some(c as int - '0' as int),
        'a' <= c <= 'f' ==> hex_digit(c) == Some(10 + c as int - 'a' as int),
        'A' <= c <= 'F' ==> hex_digit(c) == Some(10 + c as int - 'A' as int),
        hex_digit(c) matches Some(d) ==> 0 <= d < 16,
{
}

/// Three bytes are written as four characters, six bits each, the first bits first.
pub proof fn bytes_are_written_six_bits_at_a_time(b: Seq<u8>)
    requires
        b.len() >= 3,
    ensures
        exists|v: int, w: int, x: int, y: int|
            0 <= v < 64 && 0 <= w < 64 && 0 <= x < 64 && 0 <= y < 64 && v * 262144 + w * 4096 + x
                * 64 + y == b[0] as int * 65536 + b[1] as int * 256 + b[2] as int
                && base64_text(b) == #[trigger] four(v, w, x, y) + base64_text(b.skip(3)),
{
    let v = b[0] as int / 4;
    let w = b[0] as int % 4 * 16 + b[1] as int / 16;
    let x = b[1] as int % 16 * 4 + b[2] as int / 64;
    let y = b[2] as int % 64;
    assert(base64_text(b) == four(v, w, x, y) + base64_text(b.skip(3)));
}

/// Four characters that stand for six bits each.
pub open spec fn four(v: int, w: int, x: int, y: int) -> Seq<char> {
    seq![sextet(v), sextet(w), sextet(x), sextet(y)]
}

/// The characters for six bits are the capitals, the small letters, the digits, plus and slash.
pub proof fn six_bits_have_their_character(n: int)
    requires
        0 <= n < 64,
    ensures
        n < 26 ==> sextet(n) as int == 'A' as int + n,
        26 <= n < 52 ==> sextet(n) as int == 'a' as int + (n - 26),
        52 <= n < 62 ==> sextet(n) as int == '0' as int + (n - 52),
        n == 62 ==> sextet(n) == '+',
        n == 63 ==> sextet(n) == '/',
{
}

/// What is left over at the end is filled up with equals signs.
pub proof fn short_ends_are_filled_up(b: Seq<u8>)
    ensures
        base64_text(b).len() == (b.len() + 2) / 3 * 4,
        b.len() == 1 ==> base64_text(b)[0] == sextet(b[0] as int / 4) && base64_text(b)[1]
            == sextet(b[0] as int % 4 * 16) && base64_text(b)[2] == '=' && base64_text(b)[3]
            == '=',
        b.len() == 2 ==> base64_text(b)[2] == sextet(b[1] as int % 16 * 4) && base64_text(b)[3]
            == '=',
    decreases b.len(),
{
    if b.len() >= 3 {
        short_ends_are_filled_up(b.skip(3));
    }
}

/// Of several values of a key the last one counts.
pub proof fn the_last_value_counts(pairs: Seq<(Seq<char>, Seq<char>)>, k: int)
    requires
        0 <= k < pairs.len(),
        forall|i: int| k < i < pairs.len() ==> (#[trigger] pairs[i]).0 != pairs[k].0,
    ensures
        last_values_of(pairs).dom().contains(pairs[k].0),
        last_values_of(pairs)[pairs[k].0] == pairs[k].1,
    decreases pairs.len(),
{
    let front = pairs.drop_last();
    if k < front.len() {
        assert(front[k] == pairs[k]);
        assert forall|i: int| k < i < front.len() implies (#[trigger] front[i]).0
            != front[k].0 by {
            assert(front[i] == pairs[i]);
        }
        the_last_value_counts(front, k);
        assert(pairs[pairs.len() - 1].0 != pairs[k].0);
    }
}

/// A node is on the host that it names, or on that of its own name where it leaves the choice
/// open.
pub proof fn nodes_are_on_the_host_they_name(
    nodes: Seq<crate::big_virtual_wall::overlay::OverlayNode>,
    k: int,
)
    requires
        0 <= k < nodes.len(),
        forall|i: int| k < i < nodes.len() ==> (#[trigger] nodes[i]).name@ != nodes[k].name@,
    ensures
        node_hosts(nodes).dom().contains(nodes[k].name@),
        nodes[k].host@ == "auto"@ ==> node_hosts(nodes)[nodes[k].name@] == nodes[k].name@,
        nodes[k].host@ != "auto"@ ==> node_hosts(nodes)[nodes[k].name@] == nodes[k].host@,
    decreases nodes.len(),
{
    let front = nodes.drop_last();
    if k < front.len() {
        assert(front[k] == nodes[k]);
        assert forall|i: int| k < i < front.len() implies (#[trigger] front[i]).name@
            != front[k].name@ by {
            assert(front[i] == nodes[i]);
        }
        nodes_are_on_the_host_they_name(front, k);
        assert(nodes[nodes.len() - 1].name@ != nodes[k].name@);
    }
}

/// What is not given for the base of an overlay has its default: as many nodes as there are hosts,
/// two paths, and the use of what is there already.
pub proof fn bases_have_a_node_for_every_host(params: Map<Seq<char>, String>, hosts: usize)
    ensures
        !params.dom().contains("nodes"@) ==> base_options_of(params, hosts).nodes == hosts,
        !params.dom().contains("paths"@) ==> base_options_of(params, hosts).paths == Some(2usize),
        !params.dom().contains("reuse"@) ==> base_options_of(params, hosts).reuse,
        params.dom().contains("reuse"@) && params["reuse"@]@ == "0"@ ==> !base_options_of(
            params,
            hosts,
        ).reuse,
{
}

/// The addresses that are shown for a link are those that its interfaces are given.
pub proof fn addresses_that_are_shown_are_set(subnets: Map<u16, String>, vlan: u16)
    requires
        !subnets.dom().contains(vlan),
    ensures
        crate::big_virtual_wall::generator::vlan_addresses(subnets, vlan).0 == link_address(
            vlan,
            1,
        ),
        crate::big_virtual_wall::generator::vlan_addresses(subnets, vlan).1 == link_address(
            vlan,
            2,
        ),
{
    let x = "192.168."@ + crate::text::dec((50 + vlan as int % 200) as nat);
    reveal_strlit(".1/30");
    reveal_strlit(".2/30");
    reveal_strlit(".");
    reveal_strlit("/30");
    reveal_with_fuel(crate::text::dec, 2);
    assert(crate::text::dec(1) =~= seq!['1']);
    assert(crate::text::dec(2) =~= seq!['2']);
    assert("."@ + crate::text::dec(1) + "/30"@ =~= ".1/30"@);
    assert("."@ + crate::text::dec(2) + "/30"@ =~= ".2/30"@);
    assert(x + "."@ + crate::text::dec(1) + "/30"@ =~= x + ".1/30"@);
    assert(x + "."@ + crate::text::dec(2) + "/30"@ =~= x + ".2/30"@);
}

/// Every link of every plan is shown, with its two ends in their order.
pub proof fn planned_links_are_shown(
    r: Seq<AddressedLink>,
    plans: Seq<crate::big_virtual_wall::planner::HostPlan>,
    i: int,
    j: int,
)
    requires
        are_addressed(r, all_links(plans)),
        0 <= i < plans.len(),
        0 <= j < plans[i].vlan_links@.len(),
    ensures
        exists|k: int|
            0 <= k < r.len() && ({
                let link = plans[i].vlan_links@[j];
                &&& (#[trigger] r[k]).vlan == link.vlan_id
                &&& r[k].first.node@ == link.endpoints@[0].node@
                &&& r[k].first.intf@ == link.endpoints@[0].intf@
                &&& r[k].second.node@ == link.endpoints@[1].node@
                &&& r[k].second.intf@ == link.endpoints@[1].intf@
            }),
{
    links_of_plans_are_listed(plans, i, j);
    let all = all_links(plans);
    let k = choose|k: int| 0 <= k < all.len() && all[k] == plans[i].vlan_links@[j];
    assert(is_addressed(r[k], all[k]));
}

proof fn links_of_plans_are_listed(
    plans: Seq<crate::big_virtual_wall::planner::HostPlan>,
    i: int,
    j: int,
)
    requires
        0 <= i < plans.len(),
        0 <= j < plans[i].vlan_links@.len(),
    ensures
        all_links(plans).contains(plans[i].vlan_links@[j]),
    decreases plans.len(),
{
    let front = plans.drop_last();
    let all = all_links(plans);
    let link = plans[i].vlan_links@[j];
    if i < front.len() {
        assert(front[i] == plans[i]);
        links_of_plans_are_listed(front, i, j);
        let k = choose|k: int| 0 <= k < all_links(front).len() && all_links(front)[k] == link;
        assert(all[k] == link);
    } else {
        assert(all[all_links(front).len() + j] == link);
    }
}

} // verus!
