//! Command lines of `ssh`, and what the outcome of running them means.

use std::collections::hash_map::DefaultHasher;
use std::hash::Hasher;

use vstd::prelude::*;

use crate::quoting::{escape_single_quotes, quote};
use crate::surroundings::{copy_opt, first_of, join_path};
use crate::text::{
    begins_with, chars, contains_text, join, own, same, trim, u64_text,
};
use crate::numerals::parse_u32;
use crate::virtual_wall_lite::config::{HostKeyChecking, JumpProxy};
use crate::virtual_wall_lite::error::VirtualWallError;
use crate::virtual_wall_lite::tunnels::{
    tunnel_flag_and_spec, TunnelDirection, TunnelEndpoint,
};

verus! {

/// How long an idle control master is kept, in seconds, at the least.
pub const DEFAULT_CONTROL_PERSIST_SECS: u64 = 900;

/// What a control master is for.
#[derive(Debug, Clone, Copy, PartialEq, Eq, Structural)]
pub enum ControlMasterPurpose {
    Command,
    Tunnel,
}

/// The letter that stands for a purpose.
pub open spec fn label_of(purpose: ControlMasterPurpose) -> Seq<char> {
    match purpose {
        ControlMasterPurpose::Command => "c"@,
        ControlMasterPurpose::Tunnel => "t"@,
    }
}

impl ControlMasterPurpose {
    /// The letter that stands for the purpose.
    pub fn label(self) -> (r: &'static str)
        ensures
            r@ == label_of(self),
    {
        match self {
            ControlMasterPurpose::Command => "c",
            ControlMasterPurpose::Tunnel => "t",
        }
    }
}

/// Where to log in.
#[derive(Debug)]
pub struct SshTarget {
    pub host: String,
    pub port: u16,
    pub username: Option<String>,
    pub jump_proxy: Option<JumpProxy>,
}

impl Clone for SshTarget {
    fn clone(&self) -> (r: Self)
        ensures
            r == *self,
    {
        SshTarget {
            host: self.host.clone(),
            port: self.port,
            username: match &self.username {
                Some(u) => Some(u.clone()),
                None => None,
            },
            jump_proxy: match &self.jump_proxy {
                Some(p) => Some(p.clone()),
                None => None,
            },
        }
    }
}

/// Who logs in where: `user@host`, or the host alone where no user is known. The given user goes
/// before the target's own.
pub open spec fn destination_of(t: SshTarget, user: Option<Seq<char>>) -> Seq<char> {
    match crate::surroundings::either(
        crate::surroundings::nonblank(user),
        crate::surroundings::unless_blank(crate::text::opt_text(t.username)),
    ) {
        Some(u) => u + "@"@ + t.host@,
        None => t.host@,
    }
}

fn nonblank_str(s: Option<&str>) -> (r: Option<String>)
    ensures
        crate::text::opt_text(r) == crate::surroundings::nonblank(crate::text::opt_str(s)),
{
    match s {
        Some(s) => {
            let t = trim(s);
            if t.is_empty() {
                None
            } else {
                Some(t.to_owned())
            }
        },
        None => None,
    }
}

fn nonblank_string(s: &Option<String>) -> (r: Option<String>)
    ensures
        crate::text::opt_text(r) == crate::surroundings::nonblank(crate::text::opt_text(*s)),
{
    match s {
        Some(s) => nonblank_str(Some(s.as_str())),
        None => None,
    }
}

impl SshTarget {
    /// Who logs in where, as `ssh` reads it.
    pub fn destination(&self, username_override: Option<&str>) -> (r: String)
        ensures
            r@ == destination_of(*self, crate::text::opt_str(username_override)),
    {
        match first_of(
            nonblank_str(username_override),
            crate::surroundings::opt_path_nonempty(&self.username),
        ) {
            Some(u) => u.concat("@").concat(self.host.as_str()),
            None => self.host.clone(),
        }
    }
}

/// How `ssh` is run; times are in seconds.
#[derive(Debug, Clone)]
pub struct SshOptions {
    pub ssh_binary: String,
    pub default_username: Option<String>,
    pub default_private_key: Option<String>,
    pub default_proxy_private_key: Option<String>,
    pub forward_agent: bool,
    pub forward_x11: bool,
    pub server_alive_interval: u64,
    pub use_jump_proxy: bool,
    pub default_jump_proxy: Option<JumpProxy>,
    pub known_hosts: String,
    pub host_key_checking: HostKeyChecking,
    pub connect_timeout: u64,
    pub control_dir: String,
    pub control_persist: u64,
}

/// What is at hand on this machine: whether an SSH agent is running, and which of the identity
/// files are there.
#[derive(Debug, Clone)]
pub struct LocalIdentities {
    pub agent_socket: bool,
    pub files: Vec<String>,
}

/// Whether an identity file is there.
pub open spec fn is_accessible(local: LocalIdentities, path: Seq<char>) -> bool {
    crate::text::texts(local.files@).contains(path)
}

/// The user of a connection: the given one, else the target's, else the default one.
pub open spec fn user_for(o: SshOptions, t: SshTarget, user: Option<Seq<char>>) -> Option<
    Seq<char>,
> {
    crate::surroundings::either(
        crate::surroundings::nonblank(user),
        crate::surroundings::either(
            crate::surroundings::nonblank(crate::text::opt_text(t.username)),
            crate::surroundings::nonblank(crate::text::opt_text(o.default_username)),
        ),
    )
}

/// Who logs in where: the given user, else the target's as it is written, else the default one.
pub open spec fn login_of(o: SshOptions, t: SshTarget, user: Option<Seq<char>>) -> Seq<char> {
    match crate::surroundings::either(
        crate::surroundings::nonblank(user),
        crate::surroundings::either(
            crate::surroundings::unless_blank(crate::text::opt_text(t.username)),
            crate::surroundings::nonblank(crate::text::opt_text(o.default_username)),
        ),
    ) {
        Some(u) => u + "@"@ + t.host@,
        None => t.host@,
    }
}

/// The user on a proxy that names none: the given one, else the default one. The user of the
/// target is one of the node and does not count there.
pub open spec fn proxy_user(o: SshOptions, user: Option<Seq<char>>) -> Option<Seq<char>> {
    crate::surroundings::either(user, crate::text::opt_text(o.default_username))
}

/// The given key, else the default one.
pub open spec fn key_for(o: SshOptions, key: Option<Seq<char>>) -> Option<Seq<char>> {
    crate::surroundings::either(key, crate::text::opt_text(o.default_private_key))
}

/// The proxy that connections go through, where its host is not blank: the target's, else the
/// default one.
pub open spec fn proxy_for(o: SshOptions, t: SshTarget) -> Option<JumpProxy> {
    match crate::surroundings::either(t.jump_proxy, o.default_jump_proxy) {
        Some(p) if crate::text::trimmed(p.host@).len() > 0 => Some(p),
        _ => None,
    }
}

/// At least one.
pub open spec fn one_at_least(n: u64) -> nat {
    if n < 1 {
        1
    } else {
        n as nat
    }
}

/// The digit of a number below sixteen.
pub open spec fn hex_digit(d: int) -> char {
    if d < 10 {
        (d + 48) as char
    } else {
        (d + 87) as char
    }
}

/// The last digits of a number in base sixteen.
pub open spec fn hex(n: nat, digits: nat) -> Seq<char>
    decreases digits,
{
    if digits == 0 {
        Seq::empty()
    } else {
        hex(n / 16, (digits - 1) as nat).push(hex_digit((n % 16) as int))
    }
}

/// What hashing a text writes.
pub open spec fn text_chunks(s: Seq<char>) -> Seq<Seq<u8>> {
    Seq::empty().push(vstd::utf8::encode_utf8(s)).push(seq![255u8])
}

/// What hashing the tag of a choice writes.
pub open spec fn tag_chunk(second: bool) -> Seq<u8> {
    seq![
        if second {
            1u8
        } else {
            0u8
        },
        0u8,
        0u8,
        0u8,
        0u8,
        0u8,
        0u8,
        0u8,
    ]
}

/// What hashing an optional text writes.
pub open spec fn option_chunks(s: Option<Seq<char>>) -> Seq<Seq<u8>> {
    match s {
        Some(s) => seq![tag_chunk(true)] + text_chunks(s),
        None => seq![tag_chunk(false)],
    }
}

/// What hashing a port writes.
pub open spec fn port_chunk(port: u16) -> Seq<u8> {
    seq![(port % 256) as u8, (port / 256) as u8]
}

/// What hashing an optional port writes.
pub open spec fn port_chunks(port: Option<u16>) -> Seq<Seq<u8>> {
    match port {
        Some(p) => seq![tag_chunk(true), port_chunk(p)],
        None => seq![tag_chunk(false)],
    }
}

/// What the path of a control master depends on, as it is hashed.
pub open spec fn control_chunks(
    o: SshOptions,
    t: SshTarget,
    user: Option<Seq<char>>,
    key: Option<Seq<char>>,
    purpose: ControlMasterPurpose,
) -> Seq<Seq<u8>> {
    let proxy = proxy_for(o, t);
    text_chunks(t.host@) + seq![port_chunk(t.port)] + option_chunks(user_for(o, t, user))
        + option_chunks(key_for(o, key)) + seq![
        seq![
            if o.use_jump_proxy {
                1u8
            } else {
                0u8
            },
        ],
    ] + option_chunks(
        match proxy {
            Some(p) => Some(p.host@),
            None => None,
        },
    ) + port_chunks(
        match proxy {
            Some(p) => Some(p.port),
            None => None,
        },
    ) + option_chunks(
        match proxy {
            Some(p) => crate::text::opt_text(p.username),
            None => None,
        },
    ) + seq![tag_chunk(purpose == ControlMasterPurpose::Tunnel)]
}

/// The digest of what the path of a control master depends on.
pub open spec fn control_digest(
    o: SshOptions,
    t: SshTarget,
    user: Option<Seq<char>>,
    key: Option<Seq<char>>,
    purpose: ControlMasterPurpose,
) -> u64 {
    <DefaultHasher as vstd::std_specs::hash::DefaultHasherAdditionalSpecFns>::spec_finish(
        control_chunks(o, t, user, key, purpose),
    )
}

/// Where the socket of a control master is.
pub open spec fn control_path(
    o: SshOptions,
    t: SshTarget,
    user: Option<Seq<char>>,
    key: Option<Seq<char>>,
    purpose: ControlMasterPurpose,
) -> Seq<char> {
    crate::surroundings::joined_path(
        o.control_dir@,
        label_of(purpose) + "-"@ + hex(control_digest(o, t, user, key, purpose) as nat, 16),
    )
}

/// The control masters for commands and for tunnels have different sockets, whatever they
/// connect to.
pub proof fn purposes_have_their_own_paths(
    o: SshOptions,
    t: SshTarget,
    user: Option<Seq<char>>,
    key: Option<Seq<char>>,
    t2: SshTarget,
    user2: Option<Seq<char>>,
    key2: Option<Seq<char>>,
)
    ensures
        control_path(o, t, user, key, ControlMasterPurpose::Command) != control_path(
            o,
            t2,
            user2,
            key2,
            ControlMasterPurpose::Tunnel,
        ),
{
    reveal_strlit("c");
    reveal_strlit("t");
    reveal_strlit("-");
    reveal_strlit("/");
    let dir = o.control_dir@;
    let a = control_path(o, t, user, key, ControlMasterPurpose::Command);
    let b = control_path(o, t2, user2, key2, ControlMasterPurpose::Tunnel);
    let at: int = if dir.len() == 0 || dir.last() == '/' {
        dir.len() as int
    } else {
        dir.len() as int + 1
    };
    assert(a[at] == 'c');
    assert(b[at] == 't');
}

/// The socket of a control master depends on nothing but the target's address, the user, the key
/// and the proxy that are in force, and the purpose.
pub proof fn same_connection_has_the_same_path(
    o: SshOptions,
    t: SshTarget,
    user: Option<Seq<char>>,
    key: Option<Seq<char>>,
    t2: SshTarget,
    user2: Option<Seq<char>>,
    key2: Option<Seq<char>>,
    purpose: ControlMasterPurpose,
)
    requires
        t.host@ == t2.host@,
        t.port == t2.port,
        user_for(o, t, user) == user_for(o, t2, user2),
        key_for(o, key) == key_for(o, key2),
        proxy_for(o, t) == proxy_for(o, t2),
    ensures
        control_path(o, t, user, key, purpose) == control_path(o, t2, user2, key2, purpose),
{
}

fn hex_digit_char(d: u64) -> (r: char)
    requires
        d < 16,
    ensures
        r == hex_digit(d as int),
{
    let code: u32 = d as u32;
    if code < 10 {
        (48 + code as u8) as char
    } else {
        (87 + code as u8) as char
    }
}

fn hex_text(n: u64, digits: u32) -> (r: String)
    ensures
        r@ == hex(n as nat, digits as nat),
    decreases digits,
{
    if digits == 0 {
        return String::new();
    }
    let mut out = hex_text(n / 16, digits - 1);
    out.push(hex_digit_char(n % 16));
    out
}

fn hash_text(h: &mut DefaultHasher, s: &str)
    ensures
        final(h)@ == old(h)@ + text_chunks(s@),
{
    let ghost before = h@;
    h.write(s.as_bytes());
    let mark: Vec<u8> = vec![255u8];
    h.write(mark.as_slice());
    assert(mark@ =~= seq![255u8]);
    assert(h@ =~= before + text_chunks(s@));
}

fn hash_tag(h: &mut DefaultHasher, second: bool)
    ensures
        final(h)@ == old(h)@ + seq![tag_chunk(second)],
{
    let ghost before = h@;
    let first: u8 = if second {
        1
    } else {
        0
    };
    let tag: Vec<u8> = vec![first, 0u8, 0u8, 0u8, 0u8, 0u8, 0u8, 0u8];
    assert(tag@ =~= tag_chunk(second));
    h.write(tag.as_slice());
    assert(h@ =~= before + seq![tag_chunk(second)]);
}

fn hash_port(h: &mut DefaultHasher, port: u16)
    ensures
        final(h)@ == old(h)@ + seq![port_chunk(port)],
{
    let ghost before = h@;
    let bytes: Vec<u8> = vec![(port % 256) as u8, (port / 256) as u8];
    assert(bytes@ =~= port_chunk(port));
    h.write(bytes.as_slice());
    assert(h@ =~= before + seq![port_chunk(port)]);
}

fn hash_option(h: &mut DefaultHasher, s: &Option<String>)
    ensures
        final(h)@ == old(h)@ + option_chunks(crate::text::opt_text(*s)),
{
    let ghost before = h@;
    match s {
        Some(s) => {
            hash_tag(h, true);
            hash_text(h, s.as_str());
        },
        None => hash_tag(h, false),
    }
    assert(h@ =~= before + option_chunks(crate::text::opt_text(*s)));
}

/// The options that forward the agent, where one is running, and X11.
pub open spec fn forwarding_args(o: SshOptions, local: LocalIdentities) -> Seq<Seq<char>> {
    (if o.forward_agent && local.agent_socket {
        seq!["-A"@]
    } else {
        Seq::empty()
    }) + (if o.forward_x11 {
        seq!["-X"@]
    } else {
        Seq::empty()
    })
}

/// The options on host keys.
pub open spec fn host_key_args(o: SshOptions) -> Seq<Seq<char>> {
    match o.host_key_checking {
        HostKeyChecking::Strict => seq!["-oUserKnownHostsFile="@ + o.known_hosts@],
        HostKeyChecking::AcceptNew => seq![
            "-oUserKnownHostsFile="@ + o.known_hosts@,
            "-oStrictHostKeyChecking=accept-new"@,
        ],
        HostKeyChecking::Off => seq![
            "-oStrictHostKeyChecking=no"@,
            "-oUserKnownHostsFile=/dev/null"@,
        ],
    }
}

/// The options on the identity for the node: the key file where it is there, else whatever the
/// agent has.
pub open spec fn identity_args(
    o: SshOptions,
    key: Option<Seq<char>>,
    local: LocalIdentities,
) -> Seq<Seq<char>> {
    match key_for(o, key) {
        Some(k) if is_accessible(local, k) => seq!["-i"@, k],
        _ => seq!["-oIdentitiesOnly=no"@],
    }
}

/// Who logs in on a proxy.
pub open spec fn proxy_destination(
    o: SshOptions,
    p: JumpProxy,
    user: Option<Seq<char>>,
) -> Seq<char> {
    (match crate::surroundings::nonblank(crate::text::opt_text(p.username)) {
        Some(u) => u,
        None => match proxy_user(o, user) {
            Some(u) => u,
            None => "default"@,
        },
    }) + "@"@ + crate::text::trimmed(p.host@)
}

/// The options on the host key of a proxy.
pub open spec fn proxy_host_key_words(o: SshOptions) -> Seq<Seq<char>> {
    match o.host_key_checking {
        HostKeyChecking::Strict => Seq::empty(),
        HostKeyChecking::AcceptNew => seq![
            "-oStrictHostKeyChecking=accept-new"@,
            "-oUserKnownHostsFile="@ + crate::quoting::quoted(o.known_hosts@),
        ],
        HostKeyChecking::Off => seq![
            "-oStrictHostKeyChecking=no"@,
            "-oUserKnownHostsFile=/dev/null"@,
        ],
    }
}

/// The options on the identity for a proxy.
pub open spec fn proxy_identity_words(o: SshOptions, local: LocalIdentities) -> Seq<Seq<char>> {
    match o.default_proxy_private_key {
        Some(k) if is_accessible(local, k@) => seq![
            "-i"@,
            crate::quoting::quoted(k@),
            "-oIdentitiesOnly=yes"@,
        ],
        _ => Seq::empty(),
    }
}

/// The words of the command that connects through a proxy.
pub open spec fn proxy_words(
    o: SshOptions,
    p: JumpProxy,
    user: Option<Seq<char>>,
    local: LocalIdentities,
) -> Seq<Seq<char>> {
    seq![
        crate::quoting::quoted(o.ssh_binary@),
        "-oConnectTimeout="@ + crate::text::dec(one_at_least(o.connect_timeout)),
    ] + proxy_host_key_words(o) + proxy_identity_words(o, local) + seq![
        "-oPort="@ + crate::text::dec(p.port as nat),
        crate::quoting::quoted(proxy_destination(o, p, user)),
        "-W"@,
        "%h:%p"@,
    ]
}

/// The option that connects through the proxy, where there is one.
pub open spec fn proxy_args(
    o: SshOptions,
    t: SshTarget,
    user: Option<Seq<char>>,
    local: LocalIdentities,
) -> Seq<Seq<char>> {
    match proxy_for(o, t) {
        Some(p) if o.use_jump_proxy => seq![
            "-oProxyCommand="@ + crate::text::joined(proxy_words(o, p, user, local), " "@),
        ],
        _ => Seq::empty(),
    }
}

/// The options of `ssh` that do not depend on who logs in.
pub open spec fn connection_args(o: SshOptions, t: SshTarget, local: LocalIdentities) -> Seq<
    Seq<char>,
> {
    forwarding_args(o, local) + seq![
        "-oConnectTimeout="@ + crate::text::dec(one_at_least(o.connect_timeout)),
    ] + host_key_args(o) + seq![
        "-oServerAliveInterval="@ + crate::text::dec(one_at_least(o.server_alive_interval)),
        "-o"@,
        "ServerAliveCountMax=3"@,
        "-oPort="@ + crate::text::dec(t.port as nat),
    ]
}

/// The options of `ssh` for a target.
pub open spec fn base_args_of(
    o: SshOptions,
    t: SshTarget,
    user: Option<Seq<char>>,
    key: Option<Seq<char>>,
    local: LocalIdentities,
) -> Seq<Seq<char>> {
    connection_args(o, t, local) + identity_args(o, key, local) + proxy_args(o, t, user, local)
}

/// Arguments without the options that turn batch mode on or off.
pub open spec fn without_batch_mode(args: Seq<Seq<char>>) -> Seq<Seq<char>>
    decreases args.len(),
{
    if args.len() < 2 {
        args
    } else if args[0] == "-o"@ && crate::text::begins(args[1], "BatchMode="@) {
        without_batch_mode(args.skip(2))
    } else {
        seq![args[0]] + without_batch_mode(args.skip(1))
    }
}

/// The options of `ssh` for a tunnel to a target.
pub open spec fn tunnel_base_args(
    o: SshOptions,
    t: SshTarget,
    user: Option<Seq<char>>,
    key: Option<Seq<char>>,
    local: LocalIdentities,
) -> Seq<Seq<char>> {
    without_batch_mode(base_args_of(o, t, user, key, local))
}

/// The options that use a control master.
pub open spec fn control_client_args(control_path: Seq<char>) -> Seq<Seq<char>> {
    seq!["-oControlMaster=no"@, "-oControlPath="@ + control_path]
}

/// The options that use a control master, where there is one.
pub open spec fn optional_control_args(control_path: Option<Seq<char>>) -> Seq<Seq<char>> {
    match control_path {
        Some(p) => control_client_args(p),
        None => Seq::empty(),
    }
}

/// The arguments that ask a control master for something.
pub open spec fn control_request_args(
    o: SshOptions,
    t: SshTarget,
    user: Option<Seq<char>>,
    key: Option<Seq<char>>,
    local: LocalIdentities,
    control_path: Seq<char>,
    operation: Seq<char>,
) -> Seq<Seq<char>> {
    base_args_of(o, t, user, key, local) + control_client_args(control_path) + seq![
        "-O"@,
        operation,
        login_of(o, t, user),
    ]
}

/// The arguments that start a control master.
pub open spec fn control_master_args(
    o: SshOptions,
    t: SshTarget,
    user: Option<Seq<char>>,
    key: Option<Seq<char>>,
    local: LocalIdentities,
    control_path: Seq<char>,
) -> Seq<Seq<char>> {
    base_args_of(o, t, user, key, local) + seq![
        "-oControlMaster=yes"@,
        "-oControlPersist="@ + crate::text::dec(
            if o.control_persist < DEFAULT_CONTROL_PERSIST_SECS {
                DEFAULT_CONTROL_PERSIST_SECS as nat
            } else {
                o.control_persist as nat
            },
        ),
        "-oControlPath="@ + control_path,
        "-N"@,
        "-T"@,
        "-f"@,
        login_of(o, t, user),
    ]
}

/// The arguments that ask a control master to open or close a tunnel.
pub open spec fn control_tunnel_args(
    o: SshOptions,
    t: SshTarget,
    direction: TunnelDirection,
    forwarding: Seq<char>,
    user: Option<Seq<char>>,
    key: Option<Seq<char>>,
    local: LocalIdentities,
    control_path: Seq<char>,
    operation: Seq<char>,
) -> Seq<Seq<char>> {
    tunnel_base_args(o, t, user, key, local) + control_client_args(control_path) + seq![
        "-O"@,
        operation,
        crate::virtual_wall_lite::tunnels::flag_of(direction),
        forwarding,
        login_of(o, t, user),
    ]
}

/// The arguments that open a tunnel of its own.
pub open spec fn standalone_tunnel_args(
    o: SshOptions,
    t: SshTarget,
    direction: TunnelDirection,
    forwarding: Seq<char>,
    user: Option<Seq<char>>,
    key: Option<Seq<char>>,
    local: LocalIdentities,
) -> Seq<Seq<char>> {
    tunnel_base_args(o, t, user, key, local) + seq![
        "-N"@,
        "-T"@,
        "-oExitOnForwardFailure=yes"@,
        "-oLogLevel=ERROR"@,
        crate::virtual_wall_lite::tunnels::flag_of(direction),
        forwarding,
        login_of(o, t, user),
    ]
}

/// The arguments that run a command.
pub open spec fn command_args(
    o: SshOptions,
    t: SshTarget,
    command: Seq<char>,
    user: Option<Seq<char>>,
    key: Option<Seq<char>>,
    local: LocalIdentities,
    control_path: Option<Seq<char>>,
) -> Seq<Seq<char>> {
    base_args_of(o, t, user, key, local) + optional_control_args(control_path) + seq![
        login_of(o, t, user),
        command,
    ]
}

fn push_all(out: &mut Vec<String>, more: Vec<String>)
    ensures
        crate::text::texts(final(out)@) == crate::text::texts(old(out)@) + crate::text::texts(
            more@,
        ),
{
    let ghost before = crate::text::texts(out@);
    let ghost added = crate::text::texts(more@);
    let mut more = more;
    out.append(&mut more);
    assert(crate::text::texts(out@) =~= before + added);
}

fn push_one(out: &mut Vec<String>, s: String)
    ensures
        crate::text::texts(final(out)@) == crate::text::texts(old(out)@).push(s@),
{
    let ghost before = crate::text::texts(out@);
    let ghost added = s@;
    out.push(s);
    assert(crate::text::texts(out@) =~= before.push(added));
}

fn at_least_one(n: u64) -> (r: u64)
    ensures
        r == one_at_least(n),
{
    if n < 1 {
        1
    } else {
        n
    }
}

impl LocalIdentities {
    /// Whether an identity file is there.
    pub fn accessible_file(&self, path: &str) -> (r: bool)
        ensures
            r == is_accessible(*self, path@),
    {
        contains_text(&self.files, path)
    }
}

impl SshOptions {
    /// How long an idle control master is kept.
    pub fn control_persist_seconds(&self) -> (r: u64)
        ensures
            r >= DEFAULT_CONTROL_PERSIST_SECS,
            r >= self.control_persist,
            r == DEFAULT_CONTROL_PERSIST_SECS || r == self.control_persist,
    {
        if self.control_persist < DEFAULT_CONTROL_PERSIST_SECS {
            DEFAULT_CONTROL_PERSIST_SECS
        } else {
            self.control_persist
        }
    }

    /// The user of a connection.
    pub fn effective_username(&self, target: &SshTarget, username_override: Option<&str>) -> (r:
        Option<String>)
        ensures
            crate::text::opt_text(r) == user_for(
                *self,
                *target,
                crate::text::opt_str(username_override),
            ),
    {
        first_of(
            nonblank_str(username_override),
            first_of(nonblank_string(&target.username), nonblank_string(&self.default_username)),
        )
    }

    /// The proxy that connections go through.
    pub fn effective_jump_proxy(&self, target: &SshTarget) -> (r: Option<JumpProxy>)
        ensures
            r == proxy_for(*self, *target),
    {
        let chosen = match &target.jump_proxy {
            Some(p) => Some(p.clone()),
            None => match &self.default_jump_proxy {
                Some(p) => Some(p.clone()),
                None => None,
            },
        };
        match chosen {
            Some(p) => if trim(p.host.as_str()).is_empty() {
                None
            } else {
                Some(p)
            },
            None => None,
        }
    }

    fn effective_key(&self, key_override: Option<&str>) -> (r: Option<String>)
        ensures
            crate::text::opt_text(r) == key_for(*self, crate::text::opt_str(key_override)),
    {
        first_of(own(key_override), copy_opt(&self.default_private_key))
    }

    /// Who logs in where.
    pub fn login(&self, target: &SshTarget, username_override: Option<&str>) -> (r: String)
        ensures
            r@ == login_of(*self, *target, crate::text::opt_str(username_override)),
    {
        match first_of(
            nonblank_str(username_override),
            first_of(
                crate::surroundings::opt_path_nonempty(&target.username),
                nonblank_string(&self.default_username),
            ),
        ) {
            Some(u) => u.concat("@").concat(target.host.as_str()),
            None => target.host.clone(),
        }
    }

    /// Where the socket of a control master is.
    pub fn control_path_for(
        &self,
        target: &SshTarget,
        username_override: Option<&str>,
        key_override: Option<&str>,
        purpose: ControlMasterPurpose,
    ) -> (r: String)
        ensures
            r@ == control_path(
                *self,
                *target,
                crate::text::opt_str(username_override),
                crate::text::opt_str(key_override),
                purpose,
            ),
    {
        let user = self.effective_username(target, username_override);
        let key = self.effective_key(key_override);
        let proxy = self.effective_jump_proxy(target);
        let mut h = DefaultHasher::new();
        hash_text(&mut h, target.host.as_str());
        hash_port(&mut h, target.port);
        hash_option(&mut h, &user);
        hash_option(&mut h, &key);
        let through: u8 = if self.use_jump_proxy {
            1
        } else {
            0
        };
        let flag: Vec<u8> = vec![through];
        let ghost before = h@;
        h.write(flag.as_slice());
        assert(flag@ =~= seq![through]);
        assert(h@ =~= before + seq![seq![through]]);
        match &proxy {
            Some(p) => {
                hash_option(&mut h, &Some(p.host.clone()));
                let ghost before = h@;
                hash_tag(&mut h, true);
                hash_port(&mut h, p.port);
                assert(h@ =~= before + port_chunks(Some(p.port)));
                hash_option(&mut h, &p.username);
            },
            None => {
                hash_option(&mut h, &None);
                hash_tag(&mut h, false);
                hash_option(&mut h, &None);
            },
        }
        hash_tag(&mut h, purpose == ControlMasterPurpose::Tunnel);
        assert(h@ =~= Seq::<Seq<u8>>::empty() + control_chunks(
            *self,
            *target,
            crate::text::opt_str(username_override),
            crate::text::opt_str(key_override),
            purpose,
        ));
        assert(h@ =~= control_chunks(
            *self,
            *target,
            crate::text::opt_str(username_override),
            crate::text::opt_str(key_override),
            purpose,
        ));
        let digest: u64 = h.finish();
        let name = purpose.label().to_owned().concat("-").concat(hex_text(digest, 16).as_str());
        join_path(self.control_dir.as_str(), name.as_str())
    }
}

fn proxy_host_key_options(o: &SshOptions) -> (r: Vec<String>)
    ensures
        crate::text::texts(r@) == proxy_host_key_words(*o),
{
    let mut out: Vec<String> = Vec::new();
    match o.host_key_checking {
        HostKeyChecking::Strict => {},
        HostKeyChecking::AcceptNew => {
            out.push("-oStrictHostKeyChecking=accept-new".to_owned());
            out.push(
                "-oUserKnownHostsFile=".to_owned().concat(sh_quote(o.known_hosts.as_str()).as_str()),
            );
        },
        HostKeyChecking::Off => {
            out.push("-oStrictHostKeyChecking=no".to_owned());
            out.push("-oUserKnownHostsFile=/dev/null".to_owned());
        },
    }
    assert(crate::text::texts(out@) =~= proxy_host_key_words(*o));
    out
}

fn proxy_identity_options(o: &SshOptions, local: &LocalIdentities) -> (r: Vec<String>)
    ensures
        crate::text::texts(r@) == proxy_identity_words(*o, *local),
{
    let mut out: Vec<String> = Vec::new();
    if let Some(key) = &o.default_proxy_private_key {
        if local.accessible_file(key.as_str()) {
            out.push("-i".to_owned());
            out.push(sh_quote(key.as_str()));
            out.push("-oIdentitiesOnly=yes".to_owned());
        }
    }
    assert(crate::text::texts(out@) =~= proxy_identity_words(*o, *local));
    out
}

fn host_key_options(o: &SshOptions) -> (r: Vec<String>)
    ensures
        crate::text::texts(r@) == host_key_args(*o),
{
    let mut out: Vec<String> = Vec::new();
    match o.host_key_checking {
        HostKeyChecking::Strict => {
            out.push("-oUserKnownHostsFile=".to_owned().concat(o.known_hosts.as_str()));
        },
        HostKeyChecking::AcceptNew => {
            out.push("-oUserKnownHostsFile=".to_owned().concat(o.known_hosts.as_str()));
            out.push("-oStrictHostKeyChecking=accept-new".to_owned());
        },
        HostKeyChecking::Off => {
            out.push("-oStrictHostKeyChecking=no".to_owned());
            out.push("-oUserKnownHostsFile=/dev/null".to_owned());
        },
    }
    assert(crate::text::texts(out@) =~= host_key_args(*o));
    out
}

impl SshOptions {
    fn proxy_command(
        &self,
        proxy: &JumpProxy,
        username_override: Option<&str>,
        local: &LocalIdentities,
    ) -> (r: String)
        ensures
            r@ == crate::text::joined(
                proxy_words(*self, *proxy, crate::text::opt_str(username_override), *local),
                " "@,
            ),
    {
        let user = match nonblank_string(&proxy.username) {
            Some(u) => u,
            None => match first_of(own(username_override), copy_opt(&self.default_username)) {
                Some(u) => u,
                None => "default".to_owned(),
            },
        };
        let dest = user.concat("@").concat(trim(proxy.host.as_str()));
        let mut words: Vec<String> = Vec::new();
        push_one(&mut words, sh_quote(self.ssh_binary.as_str()));
        push_one(&mut words, 
            "-oConnectTimeout=".to_owned().concat(
                u64_text(at_least_one(self.connect_timeout)).as_str(),
            ),
        );
        push_all(&mut words, proxy_host_key_options(self));
        push_all(&mut words, proxy_identity_options(self, local));
        push_one(&mut words, "-oPort=".to_owned().concat(u64_text(proxy.port as u64).as_str()));
        push_one(&mut words, sh_quote(dest.as_str()));
        push_one(&mut words, "-W".to_owned());
        push_one(&mut words, "%h:%p".to_owned());
        assert(crate::text::texts(words@) =~= proxy_words(
            *self,
            *proxy,
            crate::text::opt_str(username_override),
            *local,
        ));
        join(&words, " ")
    }

    fn connection_options(&self, target: &SshTarget, local: &LocalIdentities) -> (r: Vec<String>)
        ensures
            crate::text::texts(r@) == connection_args(*self, *target, *local),
    {
        let mut args: Vec<String> = Vec::new();
        if self.forward_agent && local.agent_socket {
            args.push("-A".to_owned());
        }
        if self.forward_x11 {
            args.push("-X".to_owned());
        }
        assert(crate::text::texts(args@) =~= forwarding_args(*self, *local));
        push_one(
            &mut args,
            "-oConnectTimeout=".to_owned().concat(
                u64_text(at_least_one(self.connect_timeout)).as_str(),
            ),
        );
        push_all(&mut args, host_key_options(self));
        push_one(
            &mut args,
            "-oServerAliveInterval=".to_owned().concat(
                u64_text(at_least_one(self.server_alive_interval)).as_str(),
            ),
        );
        push_one(&mut args, "-o".to_owned());
        push_one(&mut args, "ServerAliveCountMax=3".to_owned());
        push_one(&mut args, "-oPort=".to_owned().concat(u64_text(target.port as u64).as_str()));
        assert(crate::text::texts(args@) =~= connection_args(*self, *target, *local));
        args
    }

    fn identity_options(&self, key_override: Option<&str>, local: &LocalIdentities) -> (r: Vec<
        String,
    >)
        ensures
            crate::text::texts(r@) == identity_args(
                *self,
                crate::text::opt_str(key_override),
                *local,
            ),
    {
        let mut args: Vec<String> = Vec::new();
        let key = match self.effective_key(key_override) {
            Some(k) => if local.accessible_file(k.as_str()) {
                Some(k)
            } else {
                None
            },
            None => None,
        };
        if let Some(key) = key {
            args.push("-i".to_owned());
            args.push(key);
        } else {
            args.push("-oIdentitiesOnly=no".to_owned());
        }
        assert(crate::text::texts(args@) =~= identity_args(
            *self,
            crate::text::opt_str(key_override),
            *local,
        ));
        args
    }

    fn proxy_options(
        &self,
        target: &SshTarget,
        username_override: Option<&str>,
        local: &LocalIdentities,
    ) -> (r: Vec<String>)
        ensures
            crate::text::texts(r@) == proxy_args(
                *self,
                *target,
                crate::text::opt_str(username_override),
                *local,
            ),
    {
        let mut args: Vec<String> = Vec::new();
        if self.use_jump_proxy {
            if let Some(proxy) = self.effective_jump_proxy(target) {
                args.push(
                    "-oProxyCommand=".to_owned().concat(
                        self.proxy_command(&proxy, username_override, local).as_str(),
                    ),
                );
            }
        }
        assert(crate::text::texts(args@) =~= proxy_args(
            *self,
            *target,
            crate::text::opt_str(username_override),
            *local,
        ));
        args
    }

    /// The options of `ssh` for a target.
    pub fn base_args(
        &self,
        target: &SshTarget,
        username_override: Option<&str>,
        key_override: Option<&str>,
        local: &LocalIdentities,
    ) -> (r: Vec<String>)
        ensures
            crate::text::texts(r@) == base_args_of(
                *self,
                *target,
                crate::text::opt_str(username_override),
                crate::text::opt_str(key_override),
                *local,
            ),
    {
        let mut args = self.connection_options(target, local);
        push_all(&mut args, self.identity_options(key_override, local));
        push_all(&mut args, self.proxy_options(target, username_override, local));
        args
    }

    /// The options of `ssh` for a tunnel to a target.
    pub fn base_args_for_tunnel(
        &self,
        target: &SshTarget,
        username_override: Option<&str>,
        key_override: Option<&str>,
        local: &LocalIdentities,
    ) -> (r: Vec<String>)
        ensures
            crate::text::texts(r@) == tunnel_base_args(
                *self,
                *target,
                crate::text::opt_str(username_override),
                crate::text::opt_str(key_override),
                *local,
            ),
    {
        let args = self.base_args(target, username_override, key_override, local);
        let ghost all = crate::text::texts(args@);
        let mut out: Vec<String> = Vec::new();
        let mut i: usize = 0;
        assert(all.skip(0) =~= all);
        assert(crate::text::texts(out@) + without_batch_mode(all) =~= without_batch_mode(all));
        while i < args.len()
            invariant
                i <= args.len(),
                all == crate::text::texts(args@),
                crate::text::texts(out@) + without_batch_mode(all.skip(i as int))
                    == without_batch_mode(all),
            decreases args.len() - i,
        {
            let ghost rest = all.skip(i as int);
            let ghost kept = crate::text::texts(out@);
            if i + 1 < args.len() && same(args[i].as_str(), "-o") && begins_with(
                args[i + 1].as_str(),
                "BatchMode=",
            ) {
                assert(rest[0] == args@[i as int]@);
                assert(rest[1] == args@[i + 1]@);
                assert(rest.skip(2) =~= all.skip(i + 2));
                i += 2;
            } else {
                out.push(args[i].clone());
                assert(crate::text::texts(out@) =~= kept.push(args@[i as int]@));
                assert(rest[0] == args@[i as int]@);
                proof {
                    if i + 1 < args.len() {
                        assert(rest[1] == args@[i + 1]@);
                    }
                }
                assert(rest.skip(1) =~= all.skip(i + 1));
                assert(without_batch_mode(rest) =~= seq![rest[0]] + without_batch_mode(
                    rest.skip(1),
                ));
                assert(crate::text::texts(out@) + without_batch_mode(all.skip(i + 1)) =~= kept
                    + without_batch_mode(rest));
                i += 1;
            }
        }
        assert(all.skip(i as int) =~= Seq::<Seq<char>>::empty());
        assert(crate::text::texts(out@) =~= without_batch_mode(all));
        out
    }

    /// The options that use a control master, after other options.
    pub fn append_control_client_args(&self, args: &mut Vec<String>, control_path: &str)
        ensures
            crate::text::texts(final(args)@) == crate::text::texts(old(args)@)
                + control_client_args(control_path@),
    {
        let ghost before = crate::text::texts(args@);
        args.push("-oControlMaster=no".to_owned());
        args.push("-oControlPath=".to_owned().concat(control_path));
        assert(crate::text::texts(args@) =~= before + control_client_args(control_path@));
    }

    /// The command line that asks a control master for something: `check` whether it is alive,
    /// or to `exit`.
    pub fn control_request(
        &self,
        target: &SshTarget,
        username_override: Option<&str>,
        key_override: Option<&str>,
        local: &LocalIdentities,
        control_path: &str,
        operation: &str,
    ) -> (r: Vec<String>)
        ensures
            crate::text::texts(r@) == control_request_args(
                *self,
                *target,
                crate::text::opt_str(username_override),
                crate::text::opt_str(key_override),
                *local,
                control_path@,
                operation@,
            ),
    {
        let mut args = self.base_args(target, username_override, key_override, local);
        self.append_control_client_args(&mut args, control_path);
        let ghost before = crate::text::texts(args@);
        args.push("-O".to_owned());
        args.push(operation.to_owned());
        args.push(self.login(target, username_override));
        assert(crate::text::texts(args@) =~= control_request_args(
            *self,
            *target,
            crate::text::opt_str(username_override),
            crate::text::opt_str(key_override),
            *local,
            control_path@,
            operation@,
        ));
        args
    }

    /// The command line that starts a control master.
    pub fn spawn_control_master(
        &self,
        target: &SshTarget,
        username_override: Option<&str>,
        key_override: Option<&str>,
        local: &LocalIdentities,
        control_path: &str,
    ) -> (r: Vec<String>)
        ensures
            crate::text::texts(r@) == control_master_args(
                *self,
                *target,
                crate::text::opt_str(username_override),
                crate::text::opt_str(key_override),
                *local,
                control_path@,
            ),
    {
        let mut args = self.base_args(target, username_override, key_override, local);
        args.push("-oControlMaster=yes".to_owned());
        args.push(
            "-oControlPersist=".to_owned().concat(
                u64_text(self.control_persist_seconds()).as_str(),
            ),
        );
        args.push("-oControlPath=".to_owned().concat(control_path));
        args.push("-N".to_owned());
        args.push("-T".to_owned());
        args.push("-f".to_owned());
        args.push(self.login(target, username_override));
        assert(crate::text::texts(args@) =~= control_master_args(
            *self,
            *target,
            crate::text::opt_str(username_override),
            crate::text::opt_str(key_override),
            *local,
            control_path@,
        ));
        args
    }

    /// The command line that asks a control master to open (`forward`) or close (`cancel`) a
    /// tunnel.
    pub fn request_control_tunnel_forward(
        &self,
        target: &SshTarget,
        direction: TunnelDirection,
        listen: &TunnelEndpoint,
        forward_to: &TunnelEndpoint,
        username_override: Option<&str>,
        key_override: Option<&str>,
        local: &LocalIdentities,
        control_path: &str,
        operation: &str,
    ) -> (r: Vec<String>)
        ensures
            crate::text::texts(r@) == control_tunnel_args(
                *self,
                *target,
                direction,
                crate::virtual_wall_lite::tunnels::forwarding(listen@, forward_to@),
                crate::text::opt_str(username_override),
                crate::text::opt_str(key_override),
                *local,
                control_path@,
                operation@,
            ),
    {
        let mut args = self.base_args_for_tunnel(target, username_override, key_override, local);
        self.append_control_client_args(&mut args, control_path);
        let (flag, forwarded) = tunnel_flag_and_spec(direction, listen, forward_to);
        args.push("-O".to_owned());
        args.push(operation.to_owned());
        args.push(flag.to_owned());
        args.push(forwarded);
        args.push(self.login(target, username_override));
        assert(crate::text::texts(args@) =~= control_tunnel_args(
            *self,
            *target,
            direction,
            crate::virtual_wall_lite::tunnels::forwarding(listen@, forward_to@),
            crate::text::opt_str(username_override),
            crate::text::opt_str(key_override),
            *local,
            control_path@,
            operation@,
        ));
        args
    }

    /// The command line that asks a control master to close a tunnel.
    pub fn cancel_tunnel_forward(
        &self,
        target: &SshTarget,
        direction: TunnelDirection,
        listen: &TunnelEndpoint,
        forward_to: &TunnelEndpoint,
        username_override: Option<&str>,
        key_override: Option<&str>,
        local: &LocalIdentities,
        control_path: &str,
    ) -> (r: Vec<String>)
        ensures
            crate::text::texts(r@) == control_tunnel_args(
                *self,
                *target,
                direction,
                crate::virtual_wall_lite::tunnels::forwarding(listen@, forward_to@),
                crate::text::opt_str(username_override),
                crate::text::opt_str(key_override),
                *local,
                control_path@,
                "cancel"@,
            ),
    {
        self.request_control_tunnel_forward(
            target,
            direction,
            listen,
            forward_to,
            username_override,
            key_override,
            local,
            control_path,
            "cancel",
        )
    }

    fn shutdown(
        &self,
        target: &SshTarget,
        username_override: Option<&str>,
        key_override: Option<&str>,
        local: &LocalIdentities,
        purpose: ControlMasterPurpose,
    ) -> (r: MasterShutdown)
        ensures
            is_shutdown(
                r,
                *self,
                *target,
                crate::text::opt_str(username_override),
                crate::text::opt_str(key_override),
                *local,
                purpose,
            ),
    {
        let control_path = self.control_path_for(target, username_override, key_override, purpose);
        let args = self.control_request(
            target,
            username_override,
            key_override,
            local,
            control_path.as_str(),
            "exit",
        );
        MasterShutdown { control_path, args }
    }

    /// How the control masters of a target are ended: that for commands, and that for tunnels.
    pub fn shutdown_cached_sessions_for_target(
        &self,
        target: &SshTarget,
        username_override: Option<&str>,
        key_override: Option<&str>,
        local: &LocalIdentities,
    ) -> (r: (MasterShutdown, MasterShutdown))
        ensures
            is_shutdown(
                r.0,
                *self,
                *target,
                crate::text::opt_str(username_override),
                crate::text::opt_str(key_override),
                *local,
                ControlMasterPurpose::Command,
            ),
            is_shutdown(
                r.1,
                *self,
                *target,
                crate::text::opt_str(username_override),
                crate::text::opt_str(key_override),
                *local,
                ControlMasterPurpose::Tunnel,
            ),
    {
        (
            self.shutdown(
                target,
                username_override,
                key_override,
                local,
                ControlMasterPurpose::Command,
            ),
            self.shutdown(
                target,
                username_override,
                key_override,
                local,
                ControlMasterPurpose::Tunnel,
            ),
        )
    }
}

/// How a control master is ended: by a command, where its socket exists.
#[derive(Debug)]
pub struct MasterShutdown {
    pub control_path: String,
    pub args: Vec<String>,
}

/// Whether a shutdown is that of the control master of a target for a purpose.
pub open spec fn is_shutdown(
    r: MasterShutdown,
    ssh: SshOptions,
    target: SshTarget,
    user: Option<Seq<char>>,
    key: Option<Seq<char>>,
    local: LocalIdentities,
    purpose: ControlMasterPurpose,
) -> bool {
    let path = control_path(ssh, target, user, key, purpose);
    &&& r.control_path@ == path
    &&& crate::text::texts(r.args@) == control_request_args(
        ssh,
        target,
        user,
        key,
        local,
        path,
        "exit"@,
    )
}

/// What is wrong with a command, if anything.
pub open spec fn command_fault(command: Seq<char>) -> Option<Seq<char>> {
    if crate::text::trimmed(command).len() == 0 {
        Some("Empty command"@)
    } else if crate::text::has_char(crate::text::trimmed(command), '\0') {
        Some("Command contains NUL byte"@)
    } else {
        None
    }
}

/// The file that a background command writes its output to.
pub open spec fn background_stdout(tag: Seq<char>) -> Seq<char> {
    "/tmp/vw_exec_"@ + tag + ".out"@
}

/// The file that a background command writes its errors to.
pub open spec fn background_stderr(tag: Seq<char>) -> Seq<char> {
    "/tmp/vw_exec_"@ + tag + ".err"@
}

/// The script that detaches a command and prints its process id.
pub open spec fn background_script(command: Seq<char>, tag: Seq<char>) -> Seq<char> {
    "exec </dev/null; nohup "@ + command + " >"@ + background_stdout(tag) + " 2>"@
        + background_stderr(tag) + " & echo $!"@
}

/// The remote command line that runs the script of a background command.
pub open spec fn background_command(command: Seq<char>, tag: Seq<char>) -> Seq<char> {
    "sh -lc '"@ + crate::quoting::escaped(background_script(command, tag)) + "'"@
}

/// The script of a background command reaches the remote shell unchanged: it is the word that
/// the login shell reads after `sh -lc`.
pub proof fn background_script_is_read_back(command: Seq<char>, tag: Seq<char>)
    ensures
        background_command(command, tag) == "sh -lc "@ + background_word(command, tag),
        crate::quoting::shell_word(background_word(command, tag)) == Some(
            background_script(command, tag),
        ),
{
    reveal_strlit("sh -lc '");
    reveal_strlit("sh -lc ");
    reveal_strlit("'");
    crate::quoting::escaping_is_read_back(background_script(command, tag));
    assert("sh -lc '"@ =~= "sh -lc "@ + "'"@);
    assert(background_command(command, tag) =~= "sh -lc "@ + background_word(command, tag));
}

/// The quoted script of a background command.
pub open spec fn background_word(command: Seq<char>, tag: Seq<char>) -> Seq<char> {
    "'"@ + crate::quoting::escaped(background_script(command, tag)) + "'"@
}

fn contains_char(s: &str, c: char) -> (r: bool)
    ensures
        r == crate::text::has_char(s@, c),
{
    let x = chars(s);
    let mut i: usize = 0;
    while i < x.len()
        invariant
            i <= x.len(),
            x@ == s@,
            forall|j: int| 0 <= j < i ==> #[trigger] s@[j] != c,
        decreases x.len() - i,
    {
        if x[i] == c {
            assert(s@[i as int] == c);
            return true;
        }
        i += 1;
    }
    false
}

/// How a process ended.
#[derive(Debug, Clone)]
pub enum ProcessOutcome {
    /// It ended by itself.
    Exited { success: bool, code: Option<i32>, stdout: String, stderr: String },
    /// It was given up.
    TimedOut,
}

/// The exit status of a process; -1 where it has none.
pub open spec fn status_of(code: Option<i32>) -> int {
    match code {
        Some(c) => c as int,
        None => -1,
    }
}

/// Whether a result is what the outcome of a process means: its output, or an error.
pub open spec fn is_process_result(
    r: Result<String, VirtualWallError>,
    outcome: ProcessOutcome,
    operation: Seq<char>,
    timeout: u64,
) -> bool {
    match outcome {
        ProcessOutcome::TimedOut => r matches Err(
            VirtualWallError::Timeout { operation: o, timeout_secs },
        ) && o@ == operation && timeout_secs == timeout,
        ProcessOutcome::Exited { success, code, stdout, stderr } => if success {
            r matches Ok(s) && s@ == crate::text::trimmed(stdout@)
        } else {
            r matches Err(VirtualWallError::SshFailure { status, stderr: e }) && status
                == status_of(code) && e@ == crate::text::trimmed(stderr@)
        },
    }
}

/// What the outcome of a process means: its output, or an error.
pub fn process_result(outcome: &ProcessOutcome, operation: &str, timeout: u64) -> (r: Result<
    String,
    VirtualWallError,
>)
    ensures
        is_process_result(r, *outcome, operation@, timeout),
{
    match outcome {
        ProcessOutcome::TimedOut => Err(
            VirtualWallError::Timeout { operation: operation.to_owned(), timeout_secs: timeout },
        ),
        ProcessOutcome::Exited { success, code, stdout, stderr } => {
            if *success {
                return Ok(trim(stdout.as_str()).to_owned());
            }
            let status: i32 = match code {
                Some(c) => *c,
                None => -1,
            };
            Err(VirtualWallError::SshFailure { status, stderr: trim(stderr.as_str()).to_owned() })
        },
    }
}

/// A command that runs in the background.
#[derive(Debug, Clone)]
pub struct BackgroundCommand {
    pub message: String,
    pub pid: Option<u32>,
    pub stdout: String,
    pub stderr: String,
}

/// The message that a background command was started.
pub open spec fn background_message(host: Seq<char>, pid: Option<u32>) -> Seq<char> {
    match pid {
        Some(pid) => "Command is running in background on node "@ + host + " with PID "@
            + crate::text::dec(pid as nat),
        None => "Command is running in background on node "@ + host + " (pid unknown)"@,
    }
}

/// The process id that a background command printed.
pub open spec fn printed_pid(stdout: Seq<char>) -> Option<u32> {
    match crate::numerals::unsigned_upto(crate::text::trimmed(stdout), u32::MAX as nat) {
        Some(n) => Some(n as u32),
        None => None,
    }
}

/// Where a tunnel goes.
#[derive(Debug, Clone)]
pub enum SpawnedTunnel {
    /// Through a control master that is running.
    ControlMaster { control_path: String },
    /// Through a process of its own, with these arguments.
    Child { args: Vec<String> },
}

/// What is wrong with the ends of a tunnel, if anything.
pub open spec fn tunnel_fault(listen: TunnelEndpoint, forward_to: TunnelEndpoint) -> Option<
    Seq<char>,
> {
    if listen.port == 0 || forward_to.port == 0 {
        Some("Tunnel ports must be non-zero"@)
    } else if crate::text::trimmed(listen.host@).len() == 0 || crate::text::trimmed(
        forward_to.host@,
    ).len() == 0 {
        Some("Tunnel host must be non-empty"@)
    } else {
        None
    }
}

/// Checks the ends of a tunnel.
pub fn check_tunnel(listen: &TunnelEndpoint, forward_to: &TunnelEndpoint) -> (r: Result<
    (),
    VirtualWallError,
>)
    ensures
        match tunnel_fault(*listen, *forward_to) {
            Some(fault) => r matches Err(VirtualWallError::State(m)) && m@ == fault,
            None => r is Ok,
        },
{
    if listen.port == 0 || forward_to.port == 0 {
        return Err(VirtualWallError::State("Tunnel ports must be non-zero".to_owned()));
    }
    if trim(listen.host.as_str()).is_empty() || trim(forward_to.host.as_str()).is_empty() {
        return Err(VirtualWallError::State("Tunnel host must be non-empty".to_owned()));
    }
    Ok(())
}

impl SshOptions {
    /// A command without surrounding white space; it must not be empty and must not contain NUL.
    pub fn sanitize_command(command: &str) -> (r: Result<String, VirtualWallError>)
        ensures
            match command_fault(command@) {
                Some(fault) => r matches Err(VirtualWallError::State(m)) && m@ == fault,
                None => r matches Ok(c) && c@ == crate::text::trimmed(command@),
            },
    {
        let cmd = trim(command);
        if cmd.is_empty() {
            return Err(VirtualWallError::State("Empty command".to_owned()));
        }
        if contains_char(cmd, '\0') {
            return Err(VirtualWallError::State("Command contains NUL byte".to_owned()));
        }
        Ok(cmd.to_owned())
    }

    /// The script that detaches a command, and the files that it writes to.
    pub fn build_background_remote_script(sanitized_cmd: &str, tag: &str) -> (r: (
        String,
        String,
        String,
    ))
        ensures
            r.0@ == background_script(sanitized_cmd@, tag@),
            r.1@ == background_stdout(tag@),
            r.2@ == background_stderr(tag@),
    {
        let out = "/tmp/vw_exec_".to_owned().concat(tag).concat(".out");
        let err = "/tmp/vw_exec_".to_owned().concat(tag).concat(".err");
        let script = "exec </dev/null; nohup ".to_owned().concat(sanitized_cmd).concat(" >").concat(
            out.as_str(),
        ).concat(" 2>").concat(err.as_str()).concat(" & echo $!");
        (script, out, err)
    }

    /// A text that can stand between single quotes.
    pub fn escape_single_quotes_for_sh(s: &str) -> (r: String)
        ensures
            r@ == crate::quoting::escaped(s@),
    {
        escape_single_quotes(s)
    }

    fn run_args(
        &self,
        target: &SshTarget,
        remote: String,
        username_override: Option<&str>,
        key_override: Option<&str>,
        local: &LocalIdentities,
        control_path: Option<&str>,
    ) -> (r: Vec<String>)
        ensures
            crate::text::texts(r@) == command_args(
                *self,
                *target,
                remote@,
                crate::text::opt_str(username_override),
                crate::text::opt_str(key_override),
                *local,
                crate::text::opt_str(control_path),
            ),
    {
        let mut args = self.base_args(target, username_override, key_override, local);
        let ghost before = crate::text::texts(args@);
        if let Some(path) = control_path {
            self.append_control_client_args(&mut args, path);
        }
        assert(crate::text::texts(args@) =~= before + optional_control_args(
            crate::text::opt_str(control_path),
        ));
        let ghost with_control = crate::text::texts(args@);
        push_one(&mut args, self.login(target, username_override));
        push_one(&mut args, remote);
        assert(crate::text::texts(args@) =~= with_control + seq![
            login_of(*self, *target, crate::text::opt_str(username_override)),
            remote@,
        ]);
        args
    }

    /// The command line that runs a command and waits for it.
    pub fn exec(
        &self,
        target: &SshTarget,
        command: &str,
        username_override: Option<&str>,
        key_override: Option<&str>,
        local: &LocalIdentities,
        control_path: Option<&str>,
    ) -> (r: Result<Vec<String>, VirtualWallError>)
        ensures
            match command_fault(command@) {
                Some(fault) => r matches Err(VirtualWallError::State(m)) && m@ == fault,
                None => r matches Ok(args) && crate::text::texts(args@) == command_args(
                    *self,
                    *target,
                    crate::text::trimmed(command@),
                    crate::text::opt_str(username_override),
                    crate::text::opt_str(key_override),
                    *local,
                    crate::text::opt_str(control_path),
                ),
            },
    {
        match Self::sanitize_command(command) {
            Ok(cmd) => Ok(
                self.run_args(target, cmd, username_override, key_override, local, control_path),
            ),
            Err(e) => Err(e),
        }
    }

    /// The command line that starts a command in the background. The tag tells its files from
    /// those of other commands.
    pub fn exec_background(
        &self,
        target: &SshTarget,
        command: &str,
        tag: &str,
        username_override: Option<&str>,
        key_override: Option<&str>,
        local: &LocalIdentities,
        control_path: Option<&str>,
    ) -> (r: Result<Vec<String>, VirtualWallError>)
        ensures
            match command_fault(command@) {
                Some(fault) => r matches Err(VirtualWallError::State(m)) && m@ == fault,
                None => r matches Ok(args) && crate::text::texts(args@) == command_args(
                    *self,
                    *target,
                    background_command(command@, tag@),
                    crate::text::opt_str(username_override),
                    crate::text::opt_str(key_override),
                    *local,
                    crate::text::opt_str(control_path),
                ),
            },
    {
        if let Err(e) = Self::sanitize_command(command) {
            return Err(e);
        }
        let (script, _out, _err) = Self::build_background_remote_script(command, tag);
        let remote = "sh -lc '".to_owned().concat(
            Self::escape_single_quotes_for_sh(script.as_str()).as_str(),
        ).concat("'");
        Ok(self.run_args(target, remote, username_override, key_override, local, control_path))
    }

    /// What the outcome of starting a background command means.
    pub fn background_result(
        target: &SshTarget,
        tag: &str,
        outcome: &ProcessOutcome,
        timeout: u64,
    ) -> (r: Result<BackgroundCommand, VirtualWallError>)
        ensures
            match outcome {
                ProcessOutcome::Exited { success: true, stdout, .. } => r matches Ok(b) && b.pid
                    == printed_pid(stdout@) && b.message@ == background_message(
                    target.host@,
                    b.pid,
                ) && b.stdout@ == background_stdout(tag@) && b.stderr@ == background_stderr(tag@),
                _ => r matches Err(e) && is_process_result(
                    Err(e),
                    *outcome,
                    "ssh exec background"@,
                    timeout,
                ),
            },
    {
        let output = match process_result(outcome, "ssh exec background", timeout) {
            Ok(output) => output,
            Err(e) => {
                return Err(e);
            },
        };
        let pid: Option<u32> = parse_u32(output.as_str());
        let host = target.host.as_str();
        let message = match pid {
            Some(pid) => "Command is running in background on node ".to_owned().concat(
                host,
            ).concat(" with PID ").concat(u64_text(pid as u64).as_str()),
            None => "Command is running in background on node ".to_owned().concat(host).concat(
                " (pid unknown)",
            ),
        };
        let (_script, stdout, stderr) = Self::build_background_remote_script("", tag);
        Ok(BackgroundCommand { message, pid, stdout, stderr })
    }

    /// How to open a tunnel. `forwarded` is the socket of the control master that has opened it
    /// already, if one has; otherwise the tunnel gets a process of its own.
    pub fn spawn_tunnel(
        &self,
        target: &SshTarget,
        direction: TunnelDirection,
        listen: &TunnelEndpoint,
        forward_to: &TunnelEndpoint,
        username_override: Option<&str>,
        key_override: Option<&str>,
        local: &LocalIdentities,
        forwarded: Option<&str>,
    ) -> (r: Result<SpawnedTunnel, VirtualWallError>)
        ensures
            match tunnel_fault(*listen, *forward_to) {
                Some(fault) => r matches Err(VirtualWallError::State(m)) && m@ == fault,
                None => match forwarded {
                    Some(path) => r matches Ok(SpawnedTunnel::ControlMaster { control_path })
                        && control_path@ == path@,
                    None => r matches Ok(SpawnedTunnel::Child { args }) && crate::text::texts(args@)
                        == standalone_tunnel_args(
                        *self,
                        *target,
                        direction,
                        crate::virtual_wall_lite::tunnels::forwarding(listen@, forward_to@),
                        crate::text::opt_str(username_override),
                        crate::text::opt_str(key_override),
                        *local,
                    ),
                },
            },
    {
        if let Err(e) = check_tunnel(listen, forward_to) {
            return Err(e);
        }
        if let Some(path) = forwarded {
            return Ok(SpawnedTunnel::ControlMaster { control_path: path.to_owned() });
        }
        let mut args = self.base_args_for_tunnel(target, username_override, key_override, local);
        let (flag, forwarding) = tunnel_flag_and_spec(direction, listen, forward_to);
        args.push("-N".to_owned());
        args.push("-T".to_owned());
        args.push("-oExitOnForwardFailure=yes".to_owned());
        args.push("-oLogLevel=ERROR".to_owned());
        args.push(flag.to_owned());
        args.push(forwarding);
        args.push(self.login(target, username_override));
        assert(crate::text::texts(args@) =~= standalone_tunnel_args(
            *self,
            *target,
            direction,
            crate::virtual_wall_lite::tunnels::forwarding(listen@, forward_to@),
            crate::text::opt_str(username_override),
            crate::text::opt_str(key_override),
            *local,
        ));
        Ok(SpawnedTunnel::Child { args })
    }

    /// What the outcome of asking a control master to open or close a tunnel means.
    pub fn tunnel_control_result(
        &self,
        target: &SshTarget,
        operation: &str,
        outcome: &ProcessOutcome,
    ) -> (r: Result<(), VirtualWallError>)
        requires
            self.connect_timeout + 2 <= u64::MAX,
        ensures
            match r {
                Ok(_) => outcome matches ProcessOutcome::Exited { success: true, .. },
                Err(e) => is_process_result(
                    Err(e),
                    *outcome,
                    "ssh tunnel control "@ + operation@ + " for "@ + target.host@,
                    (self.connect_timeout + 2) as u64,
                ),
            },
    {
        let what = "ssh tunnel control ".to_owned().concat(operation).concat(" for ").concat(
            target.host.as_str(),
        );
        match process_result(outcome, what.as_str(), self.connect_timeout + 2) {
            Ok(_) => Ok(()),
            Err(e) => Err(e),
        }
    }

    /// What the outcome of starting a control master means.
    pub fn control_master_result(&self, target: &SshTarget, outcome: &ProcessOutcome) -> (r: Result<
        (),
        VirtualWallError,
    >)
        requires
            self.connect_timeout + 2 <= u64::MAX,
        ensures
            match r {
                Ok(_) => outcome matches ProcessOutcome::Exited { success: true, .. },
                Err(e) => is_process_result(
                    Err(e),
                    *outcome,
                    "ssh control master spawn for "@ + target.host@,
                    (self.connect_timeout + 2) as u64,
                ),
            },
    {
        let what = "ssh control master spawn for ".to_owned().concat(target.host.as_str());
        match process_result(outcome, what.as_str(), self.connect_timeout + 2) {
            Ok(_) => Ok(()),
            Err(e) => Err(e),
        }
    }
}

/// What is to be done next to get a control master.
#[derive(Debug, Clone, Copy, PartialEq, Eq, Structural)]
pub enum MasterAction {
    /// Create the directory of the sockets.
    CreateDirectory,
    /// Ask the control master whether it is alive.
    Check,
    /// Remove a stale socket and start a control master.
    Spawn,
    /// Ask the control master that was started whether it is alive.
    Confirm,
    /// Use the control master.
    Use,
    /// Go on without a control master.
    GiveUp,
    /// Remove the socket and go on without a control master.
    RemoveAndGiveUp,
}

/// What is to be done after an action has succeeded or failed.
pub open spec fn next_master_action(done: MasterAction, success: bool) -> MasterAction {
    match done {
        MasterAction::CreateDirectory => if success {
            MasterAction::Check
        } else {
            MasterAction::GiveUp
        },
        MasterAction::Check => if success {
            MasterAction::Use
        } else {
            MasterAction::Spawn
        },
        MasterAction::Spawn => if success {
            MasterAction::Confirm
        } else {
            MasterAction::RemoveAndGiveUp
        },
        MasterAction::Confirm => if success {
            MasterAction::Use
        } else {
            MasterAction::RemoveAndGiveUp
        },
        MasterAction::Use | MasterAction::GiveUp | MasterAction::RemoveAndGiveUp => done,
    }
}

/// What is to be done after an action has succeeded or failed, starting with
/// [`MasterAction::CreateDirectory`].
pub fn ensure_control_master(done: MasterAction, success: bool) -> (r: MasterAction)
    ensures
        r == next_master_action(done, success),
{
    match done {
        MasterAction::CreateDirectory => if success {
            MasterAction::Check
        } else {
            MasterAction::GiveUp
        },
        MasterAction::Check => if success {
            MasterAction::Use
        } else {
            MasterAction::Spawn
        },
        MasterAction::Spawn => if success {
            MasterAction::Confirm
        } else {
            MasterAction::RemoveAndGiveUp
        },
        MasterAction::Confirm => if success {
            MasterAction::Use
        } else {
            MasterAction::RemoveAndGiveUp
        },
        MasterAction::Use | MasterAction::GiveUp | MasterAction::RemoveAndGiveUp => done,
    }
}

/// Whether nothing is left to be done.
pub open spec fn is_settled(action: MasterAction) -> bool {
    action == MasterAction::Use || action == MasterAction::GiveUp || action
        == MasterAction::RemoveAndGiveUp
}

/// What is to be done after the first outcomes.
pub open spec fn master_action_after(outcomes: Seq<bool>) -> MasterAction
    decreases outcomes.len(),
{
    if outcomes.len() == 0 {
        MasterAction::CreateDirectory
    } else {
        next_master_action(master_action_after(outcomes.drop_last()), outcomes.last())
    }
}

/// Four steps settle whether there is a control master, and one is used only if the last check
/// found it alive.
pub proof fn control_master_settles(outcomes: Seq<bool>)
    ensures
        outcomes.len() >= 4 ==> is_settled(master_action_after(outcomes)),
        master_action_after(outcomes) == MasterAction::Use ==> exists|n: int|
            0 < n <= outcomes.len() && #[trigger] outcomes[n - 1] && (master_action_after(
                outcomes.take(n - 1),
            ) == MasterAction::Check || master_action_after(outcomes.take(n - 1))
                == MasterAction::Confirm),
    decreases outcomes.len(),
{
    reveal_with_fuel(master_action_after, 5);
    if outcomes.len() > 0 {
        let front = outcomes.drop_last();
        control_master_settles(front);
        assert(front =~= outcomes.take(outcomes.len() - 1));
        if master_action_after(outcomes) == MasterAction::Use {
            if master_action_after(front) == MasterAction::Use {
                let n = choose|n: int|
                    0 < n <= front.len() && #[trigger] front[n - 1] && (master_action_after(
                        front.take(n - 1),
                    ) == MasterAction::Check || master_action_after(front.take(n - 1))
                        == MasterAction::Confirm);
                assert(front.take(n - 1) =~= outcomes.take(n - 1));
                assert(outcomes[n - 1]);
            } else {
                assert(outcomes[outcomes.len() - 1]);
            }
        }
    }
}

/// A proxy as `ssh -J` reads it. A missing user, and the placeholder `proxy`, give way to the
/// fallback.
pub open spec fn proxy_jump_of(p: JumpProxy, fallback: Option<Seq<char>>) -> Seq<char> {
    let place = if p.port == 22 {
        p.host@
    } else {
        p.host@ + ":"@ + crate::text::dec(p.port as nat)
    };
    let user = match crate::surroundings::nonblank(crate::text::opt_text(p.username)) {
        Some(u) if u != "proxy"@ => Some(u),
        _ => crate::surroundings::nonblank(fallback),
    };
    match user {
        Some(u) => u + "@"@ + place,
        None => place,
    }
}

/// A proxy as `ssh -J` reads it.
pub fn format_proxy_jump(proxy: &JumpProxy, fallback_username: Option<&str>) -> (r: String)
    ensures
        r@ == proxy_jump_of(*proxy, crate::text::opt_str(fallback_username)),
{
    let place = if proxy.port == 22 {
        proxy.host.clone()
    } else {
        proxy.host.clone().concat(":").concat(u64_text(proxy.port as u64).as_str())
    };
    let user = match nonblank_string(&proxy.username) {
        Some(u) => if same(u.as_str(), "proxy") {
            nonblank_str(fallback_username)
        } else {
            Some(u)
        },
        None => nonblank_str(fallback_username),
    };
    match user {
        Some(u) => u.concat("@").concat(place.as_str()),
        None => place,
    }
}

/// Writes a text as one word of a shell command.
pub fn sh_quote(s: &str) -> (r: String)
    ensures
        r@ == crate::quoting::quoted(s@),
{
    quote(s)
}

/// A login names the user that is asked for, else that of the target, else the default one; where
/// there is none, it is the host alone.
pub proof fn logins_name_the_user_that_is_asked_for(
    o: SshOptions,
    t: SshTarget,
    user: Seq<char>,
)
    ensures
        crate::text::trimmed(user).len() > 0 ==> {
            let login = crate::text::trimmed(user) + "@"@ + t.host@;
            &&& login_of(o, t, Some(user)) == login
            &&& destination_of(t, Some(user)) == login
            &&& user_for(o, t, Some(user)) == Some(crate::text::trimmed(user))
        },
        t.username is Some && crate::text::trimmed(t.username->0@).len() > 0 ==> {
            let login = t.username->0@ + "@"@ + t.host@;
            &&& login_of(o, t, None) == login
            &&& destination_of(t, None) == login
            &&& user_for(o, t, None) == Some(crate::text::trimmed(t.username->0@))
        },
        t.username is None && o.default_username is Some && crate::text::trimmed(
            o.default_username->0@,
        ).len() > 0 ==> {
            let name = crate::text::trimmed(o.default_username->0@);
            &&& login_of(o, t, None) == name + "@"@ + t.host@
            &&& user_for(o, t, None) == Some(name)
        },
        t.username is None ==> destination_of(t, None) == t.host@,
        t.username is None && o.default_username is None ==> login_of(o, t, None) == t.host@,
{
}

/// What a connection is made with: the port of its target, the times that are set, the agent and
/// the display where they are forwarded, and the keys of hosts as they are to be checked.
pub proof fn connections_are_made_as_they_are_set(
    o: SshOptions,
    t: SshTarget,
    user: Option<Seq<char>>,
    key: Option<Seq<char>>,
    local: LocalIdentities,
)
    ensures
        ({
            let args = base_args_of(o, t, user, key, local);
            let known = "-oUserKnownHostsFile="@ + o.known_hosts@;
            &&& args.contains("-oPort="@ + crate::text::dec(t.port as nat))
            &&& o.connect_timeout >= 1 ==> args.contains(
                "-oConnectTimeout="@ + crate::text::dec(o.connect_timeout as nat),
            )
            &&& o.server_alive_interval >= 1 ==> args.contains(
                "-oServerAliveInterval="@ + crate::text::dec(o.server_alive_interval as nat),
            )
            &&& args[0] == "-A"@ <==> o.forward_agent && local.agent_socket
            &&& o.forward_x11 ==> args.contains("-X"@)
            &&& o.host_key_checking == HostKeyChecking::Strict ==> args.contains(known)
            &&& o.host_key_checking == HostKeyChecking::AcceptNew ==> args.contains(known)
                && args.contains("-oStrictHostKeyChecking=accept-new"@)
            &&& o.host_key_checking == HostKeyChecking::Off ==> args.contains(
                "-oStrictHostKeyChecking=no"@,
            ) && args.contains("-oUserKnownHostsFile=/dev/null"@)
        }),
{
    let args = base_args_of(o, t, user, key, local);
    let f = forwarding_args(o, local).len() as int;
    let h = host_key_args(o).len() as int;
    reveal_strlit("-A");
    reveal_strlit("-X");
    reveal_strlit("-oConnectTimeout=");
    let connect = "-oConnectTimeout="@ + crate::text::dec(one_at_least(o.connect_timeout));
    assert(args[f] == connect);
    assert(args[f + 1 + h] == "-oServerAliveInterval="@ + crate::text::dec(
        one_at_least(o.server_alive_interval),
    ));
    assert(args[f + h + 4] == "-oPort="@ + crate::text::dec(t.port as nat));
    assert(connect[1] == 'o');
    assert("-A"@[1] == 'A');
    assert("-X"@[1] == 'X');
    if o.forward_agent && local.agent_socket {
        assert(args[0] == "-A"@);
    }
    if o.forward_x11 {
        assert(args[f - 1] == "-X"@);
    }
    assert(args[f + 1] == host_key_args(o)[0]);
    if h == 2 {
        assert(args[f + 2] == host_key_args(o)[1]);
    }
}

/// The key that is asked for is used, else the default one, where it can be read here.
pub proof fn the_key_that_is_asked_for_is_used(
    o: SshOptions,
    t: SshTarget,
    user: Option<Seq<char>>,
    key: Option<Seq<char>>,
    local: LocalIdentities,
)
    ensures
        ({
            let args = base_args_of(o, t, user, key, local);
            let readable = crate::text::texts(local.files@);
            &&& key is Some && readable.contains(key->0) ==> crate::text::follows(
                args,
                "-i"@,
                key->0,
            )
            &&& key is None && o.default_private_key is Some && readable.contains(
                o.default_private_key->0@,
            ) ==> crate::text::follows(args, "-i"@, o.default_private_key->0@)
            &&& key is Some && !readable.contains(key->0) ==> args.contains("-oIdentitiesOnly=no"@)
        }),
{
    let args = base_args_of(o, t, user, key, local);
    let c = connection_args(o, t, local).len() as int;
    let id = identity_args(o, key, local);
    assert(args[c] == id[0]);
    if id.len() == 2 {
        assert(args[c + 1] == id[1]);
    }
}

/// A jump proxy is used where that is wanted: that of the target, else the default one; it is
/// logged in to with its own user at its own port.
pub proof fn jump_proxies_are_used_where_wanted(
    o: SshOptions,
    t: SshTarget,
    user: Option<Seq<char>>,
    key: Option<Seq<char>>,
    local: LocalIdentities,
    p: JumpProxy,
    name: Seq<char>,
)
    requires
        t.jump_proxy == Some(p) || (t.jump_proxy is None && o.default_jump_proxy == Some(p)),
        crate::text::trimmed(p.host@).len() > 0,
        p.username is Some && crate::text::trimmed(p.username->0@) == name && name.len() > 0,
    ensures
        ({
            let args = base_args_of(o, t, user, key, local);
            &&& o.use_jump_proxy ==> {
                &&& crate::text::begins(args.last(), "-oProxyCommand="@)
                &&& crate::text::holds(
                    args.last(),
                    crate::quoting::quoted(name + "@"@ + crate::text::trimmed(p.host@)),
                )
                &&& crate::text::holds(args.last(), "-oPort="@ + crate::text::dec(p.port as nat))
                &&& crate::text::holds(args.last(), "%h:%p"@)
            }
            &&& !o.use_jump_proxy ==> args.last() == "-oIdentitiesOnly=no"@ || crate::text::texts(
                local.files@,
            ).contains(args.last())
        }),
{
    let args = base_args_of(o, t, user, key, local);
    let words = proxy_words(o, p, user, local);
    let line = crate::text::joined(words, " "@);
    let n = words.len();
    assert(proxy_for(o, t) == Some(p));
    if o.use_jump_proxy {
        let head = "-oProxyCommand="@;
        assert(args.last() == head + line);
        assert((head + line).subrange(0, head.len() as int) =~= head);
        assert(words[n - 4] == "-oPort="@ + crate::text::dec(p.port as nat));
        assert(words[n - 3] == crate::quoting::quoted(proxy_destination(o, p, user)));
        assert(words[n - 1] == "%h:%p"@);
        crate::text::joined_holds_its_parts(words, " "@, n - 4);
        crate::text::joined_holds_its_parts(words, " "@, n - 3);
        crate::text::joined_holds_its_parts(words, " "@, n - 1);
        crate::text::holds_in_a_part(head, line, words[n - 4]);
        crate::text::holds_in_a_part(head, line, words[n - 3]);
        crate::text::holds_in_a_part(head, line, words[n - 1]);
    } else {
        let id = identity_args(o, key, local);
        assert(args.last() == id.last());
    }
}

/// A command is run by the login on the target, as the last of the arguments.
pub proof fn commands_come_behind_the_login(
    o: SshOptions,
    t: SshTarget,
    command: Seq<char>,
    user: Option<Seq<char>>,
    key: Option<Seq<char>>,
    local: LocalIdentities,
    path: Option<Seq<char>>,
)
    ensures
        ({
            let args = command_args(o, t, command, user, key, local, path);
            let n = args.len() as int;
            &&& n >= 2
            &&& args[n - 1] == command
            &&& args[n - 2] == login_of(o, t, user)
            &&& base_args_of(o, t, user, key, local) == args.take(
                base_args_of(o, t, user, key, local).len() as int,
            )
            &&& path matches Some(p) ==> args[n - 3] == "-oControlPath="@ + p
        }),
{
    let args = command_args(o, t, command, user, key, local, path);
    let base = base_args_of(o, t, user, key, local);
    assert(args.take(base.len() as int) =~= base);
}

/// A tunnel is asked for with its direction, what is forwarded, and the login on the target.
pub proof fn tunnels_name_what_they_forward(
    o: SshOptions,
    t: SshTarget,
    direction: TunnelDirection,
    forwarding: Seq<char>,
    user: Option<Seq<char>>,
    key: Option<Seq<char>>,
    local: LocalIdentities,
    path: Seq<char>,
    operation: Seq<char>,
)
    ensures
        ({
            let flag = match direction {
                TunnelDirection::Local => "-L"@,
                TunnelDirection::Remote => "-R"@,
            };
            let alone = standalone_tunnel_args(o, t, direction, forwarding, user, key, local);
            let shared = control_tunnel_args(
                o,
                t,
                direction,
                forwarding,
                user,
                key,
                local,
                path,
                operation,
            );
            let (n, m) = (alone.len() as int, shared.len() as int);
            &&& n >= 3 && alone[n - 3] == flag && alone[n - 2] == forwarding && alone[n - 1]
                == login_of(o, t, user)
            &&& alone.contains("-N"@)
            &&& m >= 6 && shared[m - 3] == flag && shared[m - 2] == forwarding && shared[m - 1]
                == login_of(o, t, user)
            &&& shared[m - 5] == "-O"@ && shared[m - 4] == operation && shared[m - 6]
                == "-oControlPath="@ + path
        }),
{
    let alone = standalone_tunnel_args(o, t, direction, forwarding, user, key, local);
    assert(alone[alone.len() - 7] == "-N"@);
}

/// Arguments that set no batch mode are all kept for a tunnel.
pub proof fn other_arguments_are_kept_for_tunnels(args: Seq<Seq<char>>)
    requires
        forall|i: int|
            0 <= i < args.len() - 1 ==> !(#[trigger] args[i] == "-o"@ && crate::text::begins(
                args[i + 1],
                "BatchMode="@,
            )),
    ensures
        without_batch_mode(args) == args,
    decreases args.len(),
{
    if args.len() >= 2 {
        let rest = args.skip(1);
        assert forall|i: int| 0 <= i < rest.len() - 1 implies !(#[trigger] rest[i] == "-o"@
            && crate::text::begins(rest[i + 1], "BatchMode="@)) by {
            assert(rest[i] == args[i + 1]);
            assert(rest[i + 1] == args[i + 2]);
        }
        assert(args[0] == args[0]);
        other_arguments_are_kept_for_tunnels(rest);
        assert(seq![args[0]] + rest =~= args);
    }
}

/// A process counts as run where it ended by itself with success, and gives what it printed;
/// otherwise its error is what is reported.
pub proof fn failures_are_reported(
    r: Result<String, VirtualWallError>,
    outcome: ProcessOutcome,
    operation: Seq<char>,
    timeout: u64,
)
    requires
        is_process_result(r, outcome, operation, timeout),
    ensures
        r is Ok <==> (outcome matches ProcessOutcome::Exited { success: true, .. }),
        outcome matches ProcessOutcome::Exited { success: true, stdout, .. } ==> r->Ok_0@
            == crate::text::trimmed(stdout@),
        outcome matches ProcessOutcome::Exited { success: false, code, stderr, .. } ==> (
        r->Err_0 matches VirtualWallError::SshFailure { status, stderr: e } && e@
            == crate::text::trimmed(stderr@) && (code matches Some(c) ==> status == c)),
        outcome is TimedOut <==> (r matches Err(VirtualWallError::Timeout { .. })),
{
}

/// A control master that is alive is used; one that is not is started, and used once it answers;
/// without a directory for it there is none.
pub proof fn living_masters_are_used(outcomes: Seq<bool>)
    ensures
        outcomes.len() == 1 && outcomes[0] ==> master_action_after(outcomes) is Check,
        outcomes.len() == 1 && !outcomes[0] ==> master_action_after(outcomes) is GiveUp,
        outcomes.len() == 2 && outcomes[0] && outcomes[1] ==> master_action_after(outcomes) is Use,
        outcomes.len() == 2 && outcomes[0] && !outcomes[1] ==> master_action_after(
            outcomes,
        ) is Spawn,
        outcomes.len() == 4 && outcomes[0] && !outcomes[1] && outcomes[2] ==> master_action_after(
            outcomes,
        ) == if outcomes[3] {
            MasterAction::Use
        } else {
            MasterAction::RemoveAndGiveUp
        },
        outcomes.len() == 3 && outcomes[0] && !outcomes[1] && !outcomes[2] ==> master_action_after(
            outcomes,
        ) is RemoveAndGiveUp,
{
    reveal_with_fuel(master_action_after, 5);
}

/// A command is refused where it is blank or holds a zero character, and only there.
pub proof fn blank_commands_are_refused(command: Seq<char>)
    ensures
        command_fault(command) is Some <==> (forall|i: int|
            0 <= i < command.len() ==> crate::text::is_white(#[trigger] command[i]))
            || crate::text::has_char(command, '\0'),
{
    crate::text::trimming_takes_white_space_alone(command);
    let t = crate::text::trimmed(command);
    let (i, j) = choose|i: int, j: int|
        0 <= i <= j <= command.len() && t == #[trigger] command.subrange(i, j) && (forall|k: int|
            (0 <= k < i || j <= k < command.len()) ==> crate::text::is_white(
                #[trigger] command[k],
            ));
    if crate::text::has_char(t, '\0') {
        let k = choose|k: int| 0 <= k < t.len() && #[trigger] t[k] == '\0';
        assert(command[i + k] == '\0');
    }
    if crate::text::has_char(command, '\0') {
        let k = choose|k: int| 0 <= k < command.len() && #[trigger] command[k] == '\0';
        assert(!crate::text::is_white('\0'));
        assert(i <= k < j);
        assert(t[k - i] == '\0');
    }
}

/// A tunnel is refused where one of its ports is zero or one of its hosts is blank, and only there.
pub proof fn tunnels_need_ports_and_hosts(listen: TunnelEndpoint, forward_to: TunnelEndpoint)
    ensures
        tunnel_fault(listen, forward_to) is Some <==> listen.port == 0 || forward_to.port == 0
            || crate::text::trimmed(listen.host@).len() == 0 || crate::text::trimmed(
            forward_to.host@,
        ).len() == 0,
{
}

/// What runs in the background is the command, with its output and its errors in files of the
/// given tag; the number of its process is printed.
pub proof fn background_output_goes_to_files(command: Seq<char>, tag: Seq<char>)
    ensures
        crate::text::begins(
            background_script(command, tag),
            "exec </dev/null; nohup "@ + command + " >"@,
        ),
        crate::text::ends(
            background_script(command, tag),
            " >"@ + ("/tmp/vw_exec_"@ + tag + ".out"@) + " 2>"@ + ("/tmp/vw_exec_"@ + tag
                + ".err"@) + " & echo $!"@,
        ),
{
    let s = background_script(command, tag);
    let head = "exec </dev/null; nohup "@ + command + " >"@;
    let out = background_stdout(tag);
    let err = background_stderr(tag);
    let tail = " >"@ + out + " 2>"@ + err + " & echo $!"@;
    let start = "exec </dev/null; nohup "@ + command;
    crate::text::grouped_together(start, " >"@, out);
    crate::text::grouped_together(start, " >"@ + out, " 2>"@);
    crate::text::grouped_together(start, " >"@ + out + " 2>"@, err);
    crate::text::grouped_together(start, " >"@ + out + " 2>"@ + err, " & echo $!"@);
    assert(s == start + tail);
    assert(s.subrange(s.len() - tail.len(), s.len() as int) =~= tail);
    assert(s.subrange(0, head.len() as int) =~= head);
}

/// Shutting down a master asks it to exit, at its own socket and by the login on the target.
pub proof fn masters_are_asked_to_exit(
    r: MasterShutdown,
    ssh: SshOptions,
    target: SshTarget,
    user: Option<Seq<char>>,
    key: Option<Seq<char>>,
    local: LocalIdentities,
    purpose: ControlMasterPurpose,
)
    requires
        is_shutdown(r, ssh, target, user, key, local, purpose),
    ensures
        r.control_path@ == control_path(ssh, target, user, key, purpose),
        r.args@.len() >= 4,
        r.args@[r.args@.len() - 1]@ == login_of(ssh, target, user),
        r.args@[r.args@.len() - 2]@ == "exit"@,
        r.args@[r.args@.len() - 3]@ == "-O"@,
        r.args@[r.args@.len() - 4]@ == "-oControlPath="@ + r.control_path@,
{
    let texts = crate::text::texts(r.args@);
    let n = texts.len() as int;
    assert(texts[n - 1] == r.args@[n - 1]@);
    assert(texts[n - 2] == r.args@[n - 2]@);
    assert(texts[n - 3] == r.args@[n - 3]@);
    assert(texts[n - 4] == r.args@[n - 4]@);
}

/// A master is kept as long as it is set, but a quarter of an hour at least.
pub proof fn masters_are_kept_for_a_while(
    o: SshOptions,
    t: SshTarget,
    user: Option<Seq<char>>,
    key: Option<Seq<char>>,
    local: LocalIdentities,
    path: Seq<char>,
)
    ensures
        ({
            let args = control_master_args(o, t, user, key, local, path);
            let n = args.len() as int;
            &&& n >= 7
            &&& args[n - 1] == login_of(o, t, user)
            &&& args[n - 5] == "-oControlPath="@ + path
            &&& o.control_persist >= 900 ==> args[n - 6] == "-oControlPersist="@
                + crate::text::dec(o.control_persist as nat)
            &&& o.control_persist < 900 ==> args[n - 6] == "-oControlPersist="@ + crate::text::dec(
                900,
            )
            &&& args[n - 7] == "-oControlMaster=yes"@
        }),
{
}

/// A process that ended without a code is reported with minus one.
pub proof fn missing_codes_are_minus_one(code: Option<i32>)
    ensures
        code is None ==> status_of(code) == -1,
        code matches Some(c) ==> status_of(code) == c,
{
}

/// A host in a jump is named with its user and with its port where that is not the usual one.
pub proof fn jumps_name_user_host_and_port(p: JumpProxy, fallback: Option<Seq<char>>)
    ensures
        ({
            let place = if p.port == 22 {
                p.host@
            } else {
                p.host@ + ":"@ + crate::text::dec(p.port as nat)
            };
            &&& p.username is Some && crate::text::trimmed(p.username->0@).len() > 0
                && crate::text::trimmed(p.username->0@) != "proxy"@ ==> proxy_jump_of(p, fallback)
                == crate::text::trimmed(p.username->0@) + "@"@ + place
            &&& p.username is None && fallback is Some && crate::text::trimmed(fallback->0).len()
                > 0 ==> proxy_jump_of(p, fallback) == crate::text::trimmed(fallback->0) + "@"@
                + place
            &&& p.username is None && fallback is None ==> proxy_jump_of(p, fallback) == place
        }),
{
}

/// A proxy is logged in to by its own user, else by the one that is asked for, else by the default
/// one.
pub proof fn proxies_have_their_own_user(o: SshOptions, p: JumpProxy, user: Option<Seq<char>>)
    ensures
        ({
            let host = crate::text::trimmed(p.host@);
            &&& p.username is Some && crate::text::trimmed(p.username->0@).len() > 0
                ==> proxy_destination(o, p, user) == crate::text::trimmed(p.username->0@) + "@"@
                + host
            &&& p.username is None && user is Some ==> proxy_destination(o, p, user) == user->0
                + "@"@ + host
            &&& p.username is None && user is None && o.default_username is Some
                ==> proxy_destination(o, p, user) == o.default_username->0@ + "@"@ + host
        }),
{
}

/// A number is written with as many hexadecimal digits as it is given, the last ones counting least.
pub proof fn hex_digits_count_sixteen(n: nat, digits: nat)
    ensures
        hex(n, digits).len() == digits,
        digits > 0 ==> hex(n, digits) == hex(n / 16, (digits - 1) as nat).push(
            hex_digit((n % 16) as int),
        ),
    decreases digits,
{
    if digits > 0 {
        hex_digits_count_sixteen(n / 16, (digits - 1) as nat);
    }
}

/// A hexadecimal digit is one of zero to nine and a to f.
pub proof fn hex_digits_are_small_letters(d: int)
    requires
        0 <= d < 16,
    ensures
        d < 10 ==> hex_digit(d) as int == '0' as int + d,
        d >= 10 ==> hex_digit(d) as int == 'a' as int + (d - 10),
{
}

/// What is there and what is not are told apart: a value is marked with one, its absence with zero.
pub proof fn absent_values_are_told_apart(s: Seq<char>, port: u16)
    ensures
        option_chunks(None) != option_chunks(Some(s)),
        option_chunks(Some(s)).len() == 3,
        option_chunks(Some(s))[0][0] == 1,
        option_chunks(None)[0][0] == 0,
        option_chunks(Some(s))[1] == vstd::utf8::encode_utf8(s),
        option_chunks(Some(s))[2] == seq![255u8],
        port_chunks(None) != port_chunks(Some(port)),
        port_chunks(Some(port))[0][0] == 1,
        port_chunks(None)[0][0] == 0,
        port_chunk(port)[0] + 256 * port_chunk(port)[1] == port,
{
    assert(option_chunks(None).len() == 1);
    assert(port_chunks(None).len() == 1);
    assert(port_chunks(Some(port)).len() == 2);
}

/// A socket is in its directory, named after its purpose and the digest of its connection in
/// sixteen digits.
pub proof fn sockets_are_named_after_their_purpose(
    o: SshOptions,
    t: SshTarget,
    user: Option<Seq<char>>,
    key: Option<Seq<char>>,
)
    requires
        o.control_dir@.len() > 0,
        o.control_dir@.last() != '/',
    ensures
        control_path(o, t, user, key, ControlMasterPurpose::Command) == o.control_dir@ + "/"@ + (
        "c"@ + "-"@ + hex(
            control_digest(o, t, user, key, ControlMasterPurpose::Command) as nat,
            16,
        )),
        control_path(o, t, user, key, ControlMasterPurpose::Tunnel) == o.control_dir@ + "/"@ + (
        "t"@ + "-"@ + hex(
            control_digest(o, t, user, key, ControlMasterPurpose::Tunnel) as nat,
            16,
        )),
{
    reveal_strlit("c");
    reveal_strlit("t");
    assert("c"@[0] == 'c' && "t"@[0] == 't');
}

} // verus!
