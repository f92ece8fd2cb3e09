//! Configuration of the manager for existing experiments.

use vstd::prelude::*;

use crate::numerals::{parse_u16, parse_u64};
use crate::surroundings::{
    copy_opt, first_of, is_absolute_path, join_path, opt_path_nonempty, resolve_relative,
    Surroundings,
};
use crate::text::{same, to_ascii_lower, trim};
use crate::virtual_wall_lite::error::VirtualWallError;

verus! {

/// How long connecting may take, in seconds.
pub const DEFAULT_CONNECT_TIMEOUT_SECS: u64 = 15;

/// How long a remote command may take, in seconds.
pub const DEFAULT_COMMAND_TIMEOUT_SECS: u64 = 300;

/// How long a ping may take, in seconds.
pub const DEFAULT_PING_TIMEOUT_SECS: u64 = 3;

/// How the keys of hosts are checked.
#[derive(Debug, Clone, Copy, PartialEq, Eq, Structural)]
pub enum HostKeyChecking {
    /// Unknown keys are refused.
    Strict,
    /// New keys are accepted, changed ones are refused.
    AcceptNew,
    /// Keys are not checked.
    Off,
}

impl Default for HostKeyChecking {
    fn default() -> (r: Self)
        ensures
            r == HostKeyChecking::AcceptNew,
    {
        HostKeyChecking::AcceptNew
    }
}

/// A host that connections go through.
#[derive(Debug)]
pub struct JumpProxy {
    pub host: String,
    pub port: u16,
    pub username: Option<String>,
}

impl Clone for JumpProxy {
    fn clone(&self) -> (r: Self)
        ensures
            r == *self,
    {
        JumpProxy {
            host: self.host.clone(),
            port: self.port,
            username: match &self.username {
                Some(u) => Some(u.clone()),
                None => None,
            },
        }
    }
}

/// What a [`JumpProxy`] says.
#[verifier::ext_equal]
pub struct JumpProxyView {
    pub host: Seq<char>,
    pub port: u16,
    pub username: Option<Seq<char>>,
}

impl View for JumpProxy {
    type V = JumpProxyView;

    open spec fn view(&self) -> JumpProxyView {
        JumpProxyView {
            host: self.host@,
            port: self.port,
            username: crate::text::opt_text(self.username),
        }
    }
}

/// The port of SSH where none is given.
pub fn default_ssh_port() -> (r: u16)
    ensures
        r == 22,
{
    22
}

/// What a configuration file says.
#[derive(Debug, Clone)]
pub struct VirtualWallConfigFile {
    pub rspec_path: Option<String>,
    pub state_json: Option<String>,
    pub ssh_binary: Option<String>,
    pub ssh_username: Option<String>,
    pub ssh_private_key: Option<String>,
    pub ssh_proxy_private_key: Option<String>,
    pub ssh_forward_agent: Option<bool>,
    pub ssh_forward_x11: Option<bool>,
    pub ssh_server_alive_interval_seconds: Option<u64>,
    pub state_dir: Option<String>,
    pub use_jump_proxy: Option<bool>,
    pub jump_proxy: Option<JumpProxy>,
    pub known_hosts: Option<String>,
    pub host_key_checking: Option<HostKeyChecking>,
    pub connect_timeout_seconds: Option<u64>,
    pub command_timeout_seconds: Option<u64>,
    pub ping_timeout_seconds: Option<u64>,
}

/// The configuration that is in force; times are in seconds.
#[derive(Debug, Clone)]
pub struct VirtualWallConfig {
    pub rspec_path: String,
    pub state_json: Option<String>,
    pub ssh_binary: String,
    pub ssh_username: Option<String>,
    pub ssh_private_key: Option<String>,
    pub ssh_proxy_private_key: Option<String>,
    pub ssh_forward_agent: bool,
    pub ssh_forward_x11: bool,
    pub ssh_server_alive_interval: u64,
    pub state_dir: String,
    pub use_jump_proxy: bool,
    pub jump_proxy: Option<JumpProxy>,
    pub known_hosts: String,
    pub host_key_checking: HostKeyChecking,
    pub connect_timeout: u64,
    pub command_timeout: u64,
    pub ping_timeout: u64,
}

/// The value of a switch: `1`, `true`, `yes` and `on`, or `0`, `false`, `no` and `off`, in any
/// case.
pub open spec fn switch_value(v: Seq<char>) -> Option<bool> {
    let word = crate::text::ascii_lowered(crate::text::trimmed(v));
    if word == "1"@ || word == "true"@ || word == "yes"@ || word == "on"@ {
        Some(true)
    } else if word == "0"@ || word == "false"@ || word == "no"@ || word == "off"@ {
        Some(false)
    } else {
        None
    }
}

/// The value of a switch.
pub fn parse_bool(v: &str) -> (r: Option<bool>)
    ensures
        r == switch_value(v@),
{
    let word_text = to_ascii_lower(trim(v));
    let word = word_text.as_str();
    if same(word, "1") || same(word, "true") || same(word, "yes") || same(word, "on") {
        Some(true)
    } else if same(word, "0") || same(word, "false") || same(word, "no") || same(word, "off") {
        Some(false)
    } else {
        None
    }
}

/// The switch that an environment variable sets.
pub open spec fn env_switch(s: Surroundings, key: Seq<char>) -> Option<bool> {
    match crate::surroundings::nonblank(crate::surroundings::var(s, key)) {
        Some(v) => switch_value(v),
        None => None,
    }
}

/// The switch that an environment variable sets.
pub fn env_bool(s: &Surroundings, key: &str) -> (r: Option<bool>)
    ensures
        r == env_switch(*s, key@),
{
    match s.env_nonempty(key) {
        Some(v) => parse_bool(v.as_str()),
        None => None,
    }
}

/// The number that an environment variable holds, up to a limit.
pub open spec fn env_number(s: Surroundings, key: Seq<char>, limit: nat) -> Option<nat> {
    match crate::surroundings::nonblank(crate::surroundings::var(s, key)) {
        Some(v) => crate::numerals::unsigned_upto(v, limit),
        None => None,
    }
}

/// The directory that relative paths are below.
pub open spec fn base_dir(s: Surroundings) -> Seq<char> {
    match s.cwd {
        Some(cwd) => cwd@,
        None => "."@,
    }
}

/// A path that a user gave, below the working directory.
pub open spec fn placed(s: Surroundings, path: Seq<char>) -> Seq<char> {
    crate::surroundings::resolved_path(base_dir(s), crate::text::opt_text(s.home), path)
}

/// A configured path below the working directory; a blank one counts as missing.
pub open spec fn placed_option(s: Surroundings, path: Option<String>) -> Option<Seq<char>> {
    match crate::surroundings::unless_blank(crate::text::opt_text(path)) {
        Some(p) => Some(placed(s, p)),
        None => None,
    }
}

/// The path of an environment variable as it is, else the configured one below the working
/// directory.
pub open spec fn path_or(
    s: Surroundings,
    key: Seq<char>,
    configured: Option<String>,
) -> Option<Seq<char>> {
    crate::surroundings::either(
        crate::surroundings::nonblank(crate::surroundings::var(s, key)),
        placed_option(s, configured),
    )
}

/// Where the manifest is expected.
pub open spec fn rspec_of(s: Surroundings, f: VirtualWallConfigFile) -> Option<Seq<char>> {
    match crate::surroundings::either(
        crate::surroundings::nonblank(crate::surroundings::var(s, "VIRTUAL_WALL_RSPEC"@)),
        crate::surroundings::unless_blank(crate::text::opt_text(f.rspec_path)),
    ) {
        Some(p) => Some(placed(s, p)),
        None => None,
    }
}

/// Where state is kept.
pub open spec fn state_dir_of(s: Surroundings, f: VirtualWallConfigFile) -> Seq<char> {
    match path_or(s, "VIRTUAL_WALL_STATE_DIR"@, f.state_dir) {
        Some(dir) => dir,
        None => match s.config_dir {
            Some(dir) => crate::surroundings::joined_path(dir@, "virtual-wall"@),
            None => "./.virtual-wall"@,
        },
    }
}

/// The default place of the state file.
pub open spec fn default_state_json(s: Surroundings, f: VirtualWallConfigFile) -> Seq<char> {
    crate::surroundings::joined_path(state_dir_of(s, f), "state.json"@)
}

/// The state file: the one that is named, else the default one where it exists.
pub open spec fn state_json_of(s: Surroundings, f: VirtualWallConfigFile) -> Option<Seq<char>> {
    crate::surroundings::either(
        path_or(s, "VIRTUAL_WALL_STATE_JSON"@, f.state_json),
        if crate::surroundings::exists_path(s, default_state_json(s, f)) {
            Some(default_state_json(s, f))
        } else {
            None
        },
    )
}

/// The SSH binary: the one that is named, else the one on the search path.
pub open spec fn ssh_binary_of(s: Surroundings, f: VirtualWallConfigFile) -> Option<Seq<char>> {
    crate::surroundings::either(
        path_or(s, "VIRTUAL_WALL_SSH_BIN"@, f.ssh_binary),
        crate::text::opt_text(s.found_binary),
    )
}

/// A configured time, else that of the environment, else a default; one second at least.
pub open spec fn seconds_of(
    s: Surroundings,
    configured: Option<u64>,
    key: Seq<char>,
    default: u64,
) -> int {
    let n = match configured {
        Some(n) => n as int,
        None => match env_number(s, key, u64::MAX as nat) {
            Some(n) => n as int,
            None => default as int,
        },
    };
    if n < 1 {
        1
    } else {
        n
    }
}

/// A switch of the environment, else a configured one, else a default.
pub open spec fn switch_or(
    s: Surroundings,
    key: Seq<char>,
    configured: Option<bool>,
    default: bool,
) -> bool {
    match crate::surroundings::either(env_switch(s, key), configured) {
        Some(b) => b,
        None => default,
    }
}

/// The jump proxy: that of the environment, else the configured one where its host is not blank.
pub open spec fn jump_proxy_of(s: Surroundings, f: VirtualWallConfigFile) -> Option<JumpProxyView> {
    match crate::surroundings::nonblank(crate::surroundings::var(s, "VIRTUAL_WALL_PROXY_HOST"@)) {
        Some(host) => Some(
            JumpProxyView {
                host,
                port: match env_number(s, "VIRTUAL_WALL_PROXY_PORT"@, u16::MAX as nat) {
                    Some(n) => n as u16,
                    None => 22,
                },
                username: crate::surroundings::nonblank(
                    crate::surroundings::var(s, "VIRTUAL_WALL_PROXY_USER"@),
                ),
            },
        ),
        None => match f.jump_proxy {
            Some(p) if crate::text::trimmed(p.host@).len() > 0 => Some(p@),
            _ => None,
        },
    }
}

/// Whether a configuration is the one that follows from a file and the surroundings.
pub open spec fn is_resolved(
    c: VirtualWallConfig,
    f: VirtualWallConfigFile,
    s: Surroundings,
) -> bool {
    &&& rspec_of(s, f) == Some(c.rspec_path@)
    &&& crate::surroundings::exists_path(s, c.rspec_path@)
    &&& c.state_dir@ == state_dir_of(s, f)
    &&& crate::text::opt_text(c.state_json) == state_json_of(s, f)
    &&& ssh_binary_of(s, f) == Some(c.ssh_binary@)
    &&& crate::text::opt_text(c.ssh_username) == crate::surroundings::either(
        crate::surroundings::nonblank(crate::surroundings::var(s, "VIRTUAL_WALL_SSH_USERNAME"@)),
        crate::text::opt_text(f.ssh_username),
    )
    &&& crate::text::opt_text(c.ssh_private_key) == path_or(
        s,
        "VIRTUAL_WALL_SSH_KEY"@,
        f.ssh_private_key,
    )
    &&& crate::text::opt_text(c.ssh_proxy_private_key) == path_or(
        s,
        "VIRTUAL_WALL_SSH_PROXY_KEY"@,
        f.ssh_proxy_private_key,
    )
    &&& c.ssh_forward_agent == switch_or(
        s,
        "VIRTUAL_WALL_SSH_FORWARD_AGENT"@,
        f.ssh_forward_agent,
        true,
    )
    &&& c.ssh_forward_x11 == switch_or(
        s,
        "VIRTUAL_WALL_SSH_FORWARD_X11"@,
        f.ssh_forward_x11,
        false,
    )
    &&& c.ssh_server_alive_interval == seconds_of(
        s,
        f.ssh_server_alive_interval_seconds,
        "VIRTUAL_WALL_SSH_SERVER_ALIVE_INTERVAL"@,
        120,
    )
    &&& c.use_jump_proxy == switch_or(
        s,
        "VIRTUAL_WALL_USE_JUMP_PROXY"@,
        f.use_jump_proxy,
        true,
    )
    &&& jump_proxy_of(s, f) == match c.jump_proxy {
        Some(p) => Some(p@),
        None => None,
    }
    &&& c.known_hosts@ == match path_or(s, "VIRTUAL_WALL_KNOWN_HOSTS"@, f.known_hosts) {
        Some(p) => p,
        None => crate::surroundings::joined_path(state_dir_of(s, f), "known_hosts"@),
    }
    &&& c.host_key_checking == match f.host_key_checking {
        Some(h) => h,
        None => HostKeyChecking::AcceptNew,
    }
    &&& c.connect_timeout == seconds_of(
        s,
        f.connect_timeout_seconds,
        "VIRTUAL_WALL_CONNECT_TIMEOUT"@,
        DEFAULT_CONNECT_TIMEOUT_SECS,
    )
    &&& c.command_timeout == seconds_of(
        s,
        f.command_timeout_seconds,
        "VIRTUAL_WALL_COMMAND_TIMEOUT"@,
        DEFAULT_COMMAND_TIMEOUT_SECS,
    )
    &&& c.ping_timeout == seconds_of(
        s,
        f.ping_timeout_seconds,
        "VIRTUAL_WALL_PING_TIMEOUT"@,
        DEFAULT_PING_TIMEOUT_SECS,
    )
}

/// Whether an error is the one that a file and the surroundings lead to.
pub open spec fn is_resolve_error(
    e: VirtualWallError,
    f: VirtualWallConfigFile,
    s: Surroundings,
) -> bool {
    match rspec_of(s, f) {
        None => e matches VirtualWallError::Configuration(m) && m@
            == "Missing `rspec_path` (set in config or VIRTUAL_WALL_RSPEC)"@,
        Some(p) => if !crate::surroundings::exists_path(s, p) {
            e matches VirtualWallError::Configuration(m) && m@ == "RSpec file does not exist: "@ + p
        } else {
            ssh_binary_of(s, f) is None && (e matches VirtualWallError::BinaryNotFound {
                name,
                path,
            } && name@ == "ssh"@ && path is None)
        },
    }
}

/// A path that a user gave, also below the working directory where it is relative.
pub open spec fn given_candidates(s: Surroundings, path: Seq<char>) -> Seq<Seq<char>> {
    if !crate::surroundings::is_absolute(path) && s.cwd is Some {
        seq![path, crate::surroundings::joined_path(s.cwd->0@, path)]
    } else {
        seq![path]
    }
}

/// The files that are tried by default.
pub open spec fn default_names() -> Seq<Seq<char>> {
    seq![
        "virtual_wall.private.toml"@,
        "virtual_wall.toml"@,
        "virtualwall.toml"@,
        "config.toml"@,
    ]
}

/// Where a configuration file is looked for, in order: the given path, else the one of the
/// environment; then the default files in the working directory.
pub open spec fn candidates(s: Surroundings, path: Option<Seq<char>>) -> Seq<Seq<char>> {
    let given = match crate::surroundings::either(
        path,
        crate::surroundings::var(s, "VIRTUAL_WALL_CONFIG"@),
    ) {
        Some(p) => given_candidates(s, p),
        None => Seq::empty(),
    };
    let local = match s.cwd {
        Some(cwd) => Seq::new(
            4,
            |i: int| crate::surroundings::joined_path(cwd@, default_names()[i]),
        ),
        None => Seq::empty(),
    };
    given + local
}

/// The paths whose existence decides how a configuration is resolved.
pub open spec fn decisive_paths(s: Surroundings, f: VirtualWallConfigFile) -> Seq<Seq<char>> {
    (match rspec_of(s, f) {
        Some(p) => seq![p],
        None => Seq::empty(),
    }).push(default_state_json(s, f))
}

fn place(s: &Surroundings, path: &str) -> (r: String)
    ensures
        r@ == placed(*s, path@),
{
    match &s.cwd {
        Some(cwd) => resolve_relative(cwd.as_str(), &s.home, path),
        None => resolve_relative(".", &s.home, path),
    }
}

fn pick_path(s: &Surroundings, key: &str, configured: &Option<String>) -> (r: Option<String>)
    ensures
        crate::text::opt_text(r) == path_or(*s, key@, *configured),
{
    if let Some(p) = s.env_path_nonempty(key) {
        return Some(p);
    }
    match opt_path_nonempty(configured) {
        Some(p) => Some(place(s, p.as_str())),
        None => None,
    }
}

fn find_rspec(s: &Surroundings, f: &VirtualWallConfigFile) -> (r: Option<String>)
    ensures
        crate::text::opt_text(r) == rspec_of(*s, *f),
{
    match first_of(s.env_path_nonempty("VIRTUAL_WALL_RSPEC"), opt_path_nonempty(&f.rspec_path)) {
        Some(p) => Some(place(s, p.as_str())),
        None => None,
    }
}

fn find_state_dir(s: &Surroundings, f: &VirtualWallConfigFile) -> (r: String)
    ensures
        r@ == state_dir_of(*s, *f),
{
    match pick_path(s, "VIRTUAL_WALL_STATE_DIR", &f.state_dir) {
        Some(dir) => dir,
        None => match &s.config_dir {
            Some(dir) => join_path(dir.as_str(), "virtual-wall"),
            None => "./.virtual-wall".to_owned(),
        },
    }
}

fn pick_seconds(s: &Surroundings, configured: Option<u64>, key: &str, default: u64) -> (r: u64)
    ensures
        r == seconds_of(*s, configured, key@, default),
{
    let n: u64 = match configured {
        Some(n) => n,
        None => match s.env_nonempty(key) {
            Some(v) => {
                let parsed: Option<u64> = parse_u64(v.as_str());
                match parsed {
                    Some(n) => n,
                    None => default,
                }
            },
            None => default,
        },
    };
    if n < 1 {
        1
    } else {
        n
    }
}

fn pick_switch(s: &Surroundings, key: &str, configured: Option<bool>, default: bool) -> (r: bool)
    ensures
        r == switch_or(*s, key@, configured, default),
{
    match env_bool(s, key) {
        Some(b) => b,
        None => match configured {
            Some(b) => b,
            None => default,
        },
    }
}

fn pick_jump_proxy(s: &Surroundings, f: &VirtualWallConfigFile) -> (r: Option<JumpProxy>)
    ensures
        jump_proxy_of(*s, *f) == match r {
            Some(p) => Some(p@),
            None => None,
        },
{
    match s.env_nonempty("VIRTUAL_WALL_PROXY_HOST") {
        Some(host) => {
            let port: u16 = match s.env_nonempty("VIRTUAL_WALL_PROXY_PORT") {
                Some(v) => {
                    let parsed: Option<u16> = parse_u16(v.as_str());
                    match parsed {
                        Some(n) => n,
                        None => 22,
                    }
                },
                None => 22,
            };
            Some(JumpProxy { host, port, username: s.env_nonempty("VIRTUAL_WALL_PROXY_USER") })
        },
        None => match &f.jump_proxy {
            Some(p) => if trim(p.host.as_str()).is_empty() {
                None
            } else {
                Some(p.clone())
            },
            None => None,
        },
    }
}

fn default_name(i: usize) -> (r: &'static str)
    requires
        i < 4,
    ensures
        r@ == default_names()[i as int],
{
    if i == 0 {
        "virtual_wall.private.toml"
    } else if i == 1 {
        "virtual_wall.toml"
    } else if i == 2 {
        "virtualwall.toml"
    } else {
        "config.toml"
    }
}

impl VirtualWallConfig {
    /// Where a configuration file is looked for, in order.
    pub fn candidate_paths(s: &Surroundings, path: Option<&str>) -> (r: Vec<String>)
        ensures
            crate::text::texts(r@) == candidates(
                *s,
                match path {
                    Some(p) => Some(p@),
                    None => None,
                },
            ),
    {
        let mut out: Vec<String> = Vec::new();
        let given: Option<String> = match path {
            Some(p) => Some(p.to_owned()),
            None => s.env_var("VIRTUAL_WALL_CONFIG"),
        };
        if let Some(p) = given {
            let relative = !is_absolute_path(p.as_str());
            out.push(p.clone());
            if relative {
                if let Some(cwd) = &s.cwd {
                    out.push(join_path(cwd.as_str(), p.as_str()));
                }
            }
            assert(crate::text::texts(out@) =~= given_candidates(*s, p@));
        }
        let ghost first = crate::text::texts(out@);
        if let Some(cwd) = &s.cwd {
            let ghost all = Seq::new(
                4,
                |i: int| crate::surroundings::joined_path(cwd@, default_names()[i]),
            );
            let mut i: usize = 0;
            assert(first + all.take(0) =~= first);
            while i < 4
                invariant
                    i <= 4,
                    all == Seq::new(
                        4,
                        |i: int| crate::surroundings::joined_path(cwd@, default_names()[i]),
                    ),
                    crate::text::texts(out@) == first + all.take(i as int),
                decreases 4 - i,
            {
                let ghost before = crate::text::texts(out@);
                out.push(join_path(cwd.as_str(), default_name(i)));
                assert(crate::text::texts(out@) =~= before.push(all[i as int]));
                assert(crate::text::texts(out@) =~= first + all.take(i + 1));
                i += 1;
            }
            assert(all.take(4) =~= all);
        }
        assert(crate::text::texts(out@) =~= candidates(
            *s,
            match path {
                Some(p) => Some(p@),
                None => None,
            },
        ));
        out
    }

    /// The paths whose existence has to be known before a configuration is resolved.
    pub fn paths_to_probe(s: &Surroundings, file: &VirtualWallConfigFile) -> (r: Vec<String>)
        ensures
            crate::text::texts(r@) == decisive_paths(*s, *file),
    {
        let mut out: Vec<String> = Vec::new();
        if let Some(p) = find_rspec(s, file) {
            out.push(p);
        }
        out.push(join_path(find_state_dir(s, file).as_str(), "state.json"));
        assert(crate::text::texts(out@) =~= decisive_paths(*s, *file));
        out
    }

    /// The configuration that follows from a file and the surroundings. The manifest has to
    /// exist, and there has to be an SSH binary.
    pub fn resolve(file: &VirtualWallConfigFile, s: &Surroundings) -> (r: Result<
        Self,
        VirtualWallError,
    >)
        ensures
            match r {
                Ok(c) => is_resolved(c, *file, *s),
                Err(e) => is_resolve_error(e, *file, *s),
            },
    {
        let rspec_path = match find_rspec(s, file) {
            Some(p) => p,
            None => {
                return Err(
                    VirtualWallError::Configuration(
                        "Missing `rspec_path` (set in config or VIRTUAL_WALL_RSPEC)".to_owned(),
                    ),
                );
            },
        };
        if !s.path_exists(rspec_path.as_str()) {
            return Err(
                VirtualWallError::Configuration(
                    "RSpec file does not exist: ".to_owned().concat(rspec_path.as_str()),
                ),
            );
        }
        let state_dir = find_state_dir(s, file);
        let state_json = match pick_path(s, "VIRTUAL_WALL_STATE_JSON", &file.state_json) {
            Some(p) => Some(p),
            None => {
                let candidate = join_path(state_dir.as_str(), "state.json");
                if s.path_exists(candidate.as_str()) {
                    Some(candidate)
                } else {
                    None
                }
            },
        };
        let ssh_binary = match first_of(
            pick_path(s, "VIRTUAL_WALL_SSH_BIN", &file.ssh_binary),
            copy_opt(&s.found_binary),
        ) {
            Some(p) => p,
            None => {
                return Err(
                    VirtualWallError::BinaryNotFound { name: "ssh".to_owned(), path: None },
                );
            },
        };
        let known_hosts = match pick_path(s, "VIRTUAL_WALL_KNOWN_HOSTS", &file.known_hosts) {
            Some(p) => p,
            None => join_path(state_dir.as_str(), "known_hosts"),
        };
        Ok(
            VirtualWallConfig {
                rspec_path,
                state_json,
                ssh_binary,
                ssh_username: first_of(
                    s.env_nonempty("VIRTUAL_WALL_SSH_USERNAME"),
                    copy_opt(&file.ssh_username),
                ),
                ssh_private_key: pick_path(s, "VIRTUAL_WALL_SSH_KEY", &file.ssh_private_key),
                ssh_proxy_private_key: pick_path(
                    s,
                    "VIRTUAL_WALL_SSH_PROXY_KEY",
                    &file.ssh_proxy_private_key,
                ),
                ssh_forward_agent: pick_switch(
                    s,
                    "VIRTUAL_WALL_SSH_FORWARD_AGENT",
                    file.ssh_forward_agent,
                    true,
                ),
                ssh_forward_x11: pick_switch(
                    s,
                    "VIRTUAL_WALL_SSH_FORWARD_X11",
                    file.ssh_forward_x11,
                    false,
                ),
                ssh_server_alive_interval: pick_seconds(
                    s,
                    file.ssh_server_alive_interval_seconds,
                    "VIRTUAL_WALL_SSH_SERVER_ALIVE_INTERVAL",
                    120,
                ),
                state_dir,
                use_jump_proxy: pick_switch(
                    s,
                    "VIRTUAL_WALL_USE_JUMP_PROXY",
                    file.use_jump_proxy,
                    true,
                ),
                jump_proxy: pick_jump_proxy(s, file),
                known_hosts,
                host_key_checking: match file.host_key_checking {
                    Some(h) => h,
                    None => HostKeyChecking::AcceptNew,
                },
                connect_timeout: pick_seconds(
                    s,
                    file.connect_timeout_seconds,
                    "VIRTUAL_WALL_CONNECT_TIMEOUT",
                    DEFAULT_CONNECT_TIMEOUT_SECS,
                ),
                command_timeout: pick_seconds(
                    s,
                    file.command_timeout_seconds,
                    "VIRTUAL_WALL_COMMAND_TIMEOUT",
                    DEFAULT_COMMAND_TIMEOUT_SECS,
                ),
                ping_timeout: pick_seconds(
                    s,
                    file.ping_timeout_seconds,
                    "VIRTUAL_WALL_PING_TIMEOUT",
                    DEFAULT_PING_TIMEOUT_SECS,
                ),
            },
        )
    }

    /// The configuration from the first candidate that could be read; it is an error if none
    /// could.
    pub fn load(attempts: &Vec<Option<VirtualWallConfigFile>>, s: &Surroundings) -> (r: Result<
        Self,
        VirtualWallError,
    >)
        ensures
            match first_read(attempts@) {
                Some(f) => match r {
                    Ok(c) => is_resolved(c, f, *s),
                    Err(e) => is_resolve_error(e, f, *s),
                },
                None => r matches Err(VirtualWallError::Configuration(m)) && m@
                    == "No valid config file found in candidates or VIRTUAL_WALL_CONFIG"@,
            },
    {
        let mut i: usize = 0;
        assert(attempts@.skip(0) =~= attempts@);
        while i < attempts.len()
            invariant
                i <= attempts.len(),
                first_read(attempts@) == first_read(attempts@.skip(i as int)),
            decreases attempts.len() - i,
        {
            assert(attempts@.skip(i as int).drop_first() =~= attempts@.skip(i + 1));
            if let Some(file) = &attempts[i] {
                return Self::resolve(file, s);
            }
            i += 1;
        }
        Err(
            VirtualWallError::Configuration(
                "No valid config file found in candidates or VIRTUAL_WALL_CONFIG".to_owned(),
            ),
        )
    }
}

/// The first file that could be read.
pub open spec fn first_read(attempts: Seq<Option<VirtualWallConfigFile>>) -> Option<
    VirtualWallConfigFile,
>
    decreases attempts.len(),
{
    if attempts.len() == 0 {
        None
    } else if attempts[0] is Some {
        attempts[0]
    } else {
        first_read(attempts.drop_first())
    }
}

/// Variables go before the file: where one is set to more than white space, it is what counts.
pub proof fn variables_go_before_the_file(
    c: VirtualWallConfig,
    f: VirtualWallConfigFile,
    s: Surroundings,
    key: Seq<char>,
    value: Seq<char>,
)
    requires
        is_resolved(c, f, s),
        s.env@.dom().contains(key),
        crate::text::trimmed(s.env@[key]@) == value,
        value.len() > 0,
    ensures
        key == "VIRTUAL_WALL_SSH_USERNAME"@ ==> crate::text::opt_text(c.ssh_username) == Some(
            value,
        ),
        key == "VIRTUAL_WALL_SSH_KEY"@ ==> crate::text::opt_text(c.ssh_private_key) == Some(value),
        key == "VIRTUAL_WALL_SSH_PROXY_KEY"@ ==> crate::text::opt_text(c.ssh_proxy_private_key)
            == Some(value),
        key == "VIRTUAL_WALL_SSH_BIN"@ ==> c.ssh_binary@ == value,
        key == "VIRTUAL_WALL_STATE_DIR"@ ==> c.state_dir@ == value,
        key == "VIRTUAL_WALL_STATE_JSON"@ ==> crate::text::opt_text(c.state_json) == Some(value),
        key == "VIRTUAL_WALL_KNOWN_HOSTS"@ ==> c.known_hosts@ == value,
        key == "VIRTUAL_WALL_PROXY_HOST"@ ==> c.jump_proxy is Some && c.jump_proxy->0.host@
            == value,
        key == "VIRTUAL_WALL_RSPEC"@ && value[0] == '/' ==> c.rspec_path@ == value,
{
    if key == "VIRTUAL_WALL_RSPEC"@ && value[0] == '/' {
        reveal_strlit("~");
        reveal_strlit("~/");
        if crate::text::begins(value, "~/"@) {
            assert(value.subrange(0, 2)[0] == '~');
        }
        assert("~"@[0] == '~');
    }
}

/// Where no variable is set, the file counts.
pub proof fn the_file_counts_without_variables(
    c: VirtualWallConfig,
    f: VirtualWallConfigFile,
    s: Surroundings,
)
    requires
        is_resolved(c, f, s),
        forall|key: Seq<char>| !#[trigger] s.env@.dom().contains(key),
    ensures
        crate::text::opt_text(c.ssh_username) == crate::text::opt_text(f.ssh_username),
        f.ssh_forward_agent matches Some(b) ==> c.ssh_forward_agent == b,
        f.ssh_forward_x11 matches Some(b) ==> c.ssh_forward_x11 == b,
        f.use_jump_proxy matches Some(b) ==> c.use_jump_proxy == b,
        f.jump_proxy matches Some(p) ==> crate::text::trimmed(p.host@).len() > 0 ==> (
        c.jump_proxy matches Some(q) && q@ == p@),
        f.jump_proxy is None ==> c.jump_proxy is None,
        f.host_key_checking matches Some(h) ==> c.host_key_checking == h,
        f.ssh_private_key is None ==> c.ssh_private_key is None,
        f.ssh_proxy_private_key is None ==> c.ssh_proxy_private_key is None,
        f.ssh_private_key matches Some(k) ==> k@.len() > 0 && k@[0] == '/' && crate::text::trimmed(
            k@,
        ).len() > 0 ==> crate::text::opt_text(c.ssh_private_key) == Some(k@),
        f.ssh_proxy_private_key matches Some(k) ==> k@.len() > 0 && k@[0] == '/'
            && crate::text::trimmed(k@).len() > 0 ==> crate::text::opt_text(
            c.ssh_proxy_private_key,
        ) == Some(k@),
{
    assert(!s.env@.dom().contains("VIRTUAL_WALL_SSH_USERNAME"@));
    assert(!s.env@.dom().contains("VIRTUAL_WALL_SSH_FORWARD_AGENT"@));
    assert(!s.env@.dom().contains("VIRTUAL_WALL_SSH_FORWARD_X11"@));
    assert(!s.env@.dom().contains("VIRTUAL_WALL_USE_JUMP_PROXY"@));
    assert(!s.env@.dom().contains("VIRTUAL_WALL_PROXY_HOST"@));
    assert(!s.env@.dom().contains("VIRTUAL_WALL_SSH_KEY"@));
    assert(!s.env@.dom().contains("VIRTUAL_WALL_SSH_PROXY_KEY"@));
    reveal_strlit("~");
    reveal_strlit("~/");
    assert("~"@[0] == '~');
    if let Some(k) = f.ssh_private_key {
        if k@.len() > 0 && k@[0] == '/' && crate::text::begins(k@, "~/"@) {
            assert(k@.subrange(0, 2)[0] == '~');
        }
    }
    if let Some(k) = f.ssh_proxy_private_key {
        if k@.len() > 0 && k@[0] == '/' && crate::text::begins(k@, "~/"@) {
            assert(k@.subrange(0, 2)[0] == '~');
        }
    }
}

/// Times of the file count before all else, and are a second at least.
pub proof fn times_of_the_file_count(
    c: VirtualWallConfig,
    f: VirtualWallConfigFile,
    s: Surroundings,
)
    requires
        is_resolved(c, f, s),
    ensures
        f.connect_timeout_seconds matches Some(n) ==> n >= 1 ==> c.connect_timeout == n,
        f.command_timeout_seconds matches Some(n) ==> n >= 1 ==> c.command_timeout == n,
        f.ping_timeout_seconds matches Some(n) ==> n >= 1 ==> c.ping_timeout == n,
        f.ssh_server_alive_interval_seconds matches Some(n) ==> n >= 1
            ==> c.ssh_server_alive_interval == n,
        c.connect_timeout >= 1,
        c.command_timeout >= 1,
        c.ping_timeout >= 1,
        c.ssh_server_alive_interval >= 1,
{
}

/// What neither the file nor a variable sets has its default.
pub proof fn unset_values_have_their_defaults(
    c: VirtualWallConfig,
    f: VirtualWallConfigFile,
    s: Surroundings,
)
    requires
        is_resolved(c, f, s),
        forall|key: Seq<char>| !#[trigger] s.env@.dom().contains(key),
    ensures
        f.connect_timeout_seconds is None ==> c.connect_timeout == 15,
        f.command_timeout_seconds is None ==> c.command_timeout == 300,
        f.ping_timeout_seconds is None ==> c.ping_timeout == 3,
        f.ssh_server_alive_interval_seconds is None ==> c.ssh_server_alive_interval == 120,
        f.ssh_forward_agent is None ==> c.ssh_forward_agent,
        f.ssh_forward_x11 is None ==> !c.ssh_forward_x11,
        f.use_jump_proxy is None ==> c.use_jump_proxy,
        f.host_key_checking is None ==> c.host_key_checking == HostKeyChecking::AcceptNew,
        f.ssh_binary is None ==> crate::text::opt_text(s.found_binary) == Some(c.ssh_binary@),
        f.state_dir is None && s.config_dir is Some ==> c.state_dir@
            == crate::surroundings::joined_path(s.config_dir->0@, "virtual-wall"@),
        f.known_hosts is None ==> c.known_hosts@ == crate::surroundings::joined_path(
            c.state_dir@,
            "known_hosts"@,
        ),
{
    assert(!s.env@.dom().contains("VIRTUAL_WALL_CONNECT_TIMEOUT"@));
    assert(!s.env@.dom().contains("VIRTUAL_WALL_COMMAND_TIMEOUT"@));
    assert(!s.env@.dom().contains("VIRTUAL_WALL_PING_TIMEOUT"@));
    assert(!s.env@.dom().contains("VIRTUAL_WALL_SSH_SERVER_ALIVE_INTERVAL"@));
    assert(!s.env@.dom().contains("VIRTUAL_WALL_SSH_FORWARD_AGENT"@));
    assert(!s.env@.dom().contains("VIRTUAL_WALL_SSH_FORWARD_X11"@));
    assert(!s.env@.dom().contains("VIRTUAL_WALL_USE_JUMP_PROXY"@));
    assert(!s.env@.dom().contains("VIRTUAL_WALL_SSH_BIN"@));
    assert(!s.env@.dom().contains("VIRTUAL_WALL_STATE_DIR"@));
    assert(!s.env@.dom().contains("VIRTUAL_WALL_KNOWN_HOSTS"@));
}

/// The file that is given is looked at first, then the usual ones in the working directory, the
/// private one before the others; the first that can be read counts.
pub proof fn given_files_are_looked_at_first(
    s: Surroundings,
    path: Seq<char>,
    attempts: Seq<Option<VirtualWallConfigFile>>,
    k: int,
)
    requires
        s.cwd is Some,
        0 <= k < attempts.len(),
        attempts[k] is Some,
        forall|i: int| 0 <= i < k ==> (#[trigger] attempts[i]) is None,
    ensures
        candidates(s, Some(path))[0] == path,
        candidates(s, Some(path)).len() >= 5,
        candidates(s, Some(path))[candidates(s, Some(path)).len() - 4]
            == crate::surroundings::joined_path(s.cwd->0@, "virtual_wall.private.toml"@),
        candidates(s, Some(path)).last() == crate::surroundings::joined_path(
            s.cwd->0@,
            "config.toml"@,
        ),
        first_read(attempts) == attempts[k],
    decreases attempts.len(),
{
    if k > 0 {
        assert(attempts[0] is None);
        let rest = attempts.drop_first();
        assert(rest[k - 1] == attempts[k]);
        assert forall|i: int| 0 <= i < k - 1 implies (#[trigger] rest[i]) is None by {
            assert(rest[i] == attempts[i + 1]);
        }
        given_files_are_looked_at_first(s, path, rest, k - 1);
    }
}

/// Without a file that is named for it, the state is the one in its directory, where that is there.
pub proof fn the_state_is_in_its_directory(
    c: VirtualWallConfig,
    f: VirtualWallConfigFile,
    s: Surroundings,
)
    requires
        is_resolved(c, f, s),
        !s.env@.dom().contains("VIRTUAL_WALL_STATE_JSON"@),
        f.state_json is None,
    ensures
        ({
            let place = crate::surroundings::joined_path(c.state_dir@, "state.json"@);
            &&& crate::surroundings::exists_path(s, place) ==> crate::text::opt_text(c.state_json)
                == Some(place)
            &&& !crate::surroundings::exists_path(s, place) ==> c.state_json is None
        }),
{
}

/// A time of zero is a second.
pub proof fn zero_is_a_second(c: VirtualWallConfig, f: VirtualWallConfigFile, s: Surroundings)
    requires
        is_resolved(c, f, s),
    ensures
        f.connect_timeout_seconds == Some(0u64) ==> c.connect_timeout == 1,
        f.command_timeout_seconds == Some(0u64) ==> c.command_timeout == 1,
        f.ping_timeout_seconds == Some(0u64) ==> c.ping_timeout == 1,
{
}

/// Times of variables count where the file sets none.
pub proof fn times_of_variables_count_without_the_file(
    c: VirtualWallConfig,
    f: VirtualWallConfigFile,
    s: Surroundings,
    key: Seq<char>,
    n: u64,
)
    requires
        is_resolved(c, f, s),
        n >= 1,
        s.env@.dom().contains(key),
        crate::text::trimmed(s.env@[key]@) == crate::text::dec(n as nat),
    ensures
        key == "VIRTUAL_WALL_CONNECT_TIMEOUT"@ && f.connect_timeout_seconds is None
            ==> c.connect_timeout == n,
        key == "VIRTUAL_WALL_COMMAND_TIMEOUT"@ && f.command_timeout_seconds is None
            ==> c.command_timeout == n,
        key == "VIRTUAL_WALL_PING_TIMEOUT"@ && f.ping_timeout_seconds is None ==> c.ping_timeout
            == n,
{
    crate::numerals::reading_a_numeral(n as nat);
    let d = crate::text::dec(n as nat);
    assert(crate::numerals::is_digit(d[0]));
}

/// Switches of variables count before those of the file.
pub proof fn switches_of_variables_count_first(
    c: VirtualWallConfig,
    f: VirtualWallConfigFile,
    s: Surroundings,
    key: Seq<char>,
    on: bool,
)
    requires
        is_resolved(c, f, s),
        s.env@.dom().contains(key),
        crate::text::trimmed(s.env@[key]@).len() > 0,
        switch_value(crate::text::trimmed(s.env@[key]@)) == Some(on),
    ensures
        key == "VIRTUAL_WALL_SSH_FORWARD_AGENT"@ ==> c.ssh_forward_agent == on,
        key == "VIRTUAL_WALL_SSH_FORWARD_X11"@ ==> c.ssh_forward_x11 == on,
        key == "VIRTUAL_WALL_USE_JUMP_PROXY"@ ==> c.use_jump_proxy == on,
{
}

/// A switch is on where it reads one, true, yes or on, and off where it reads zero, false, no or
/// off.
pub proof fn switches_are_read_by_their_words(v: Seq<char>)
    ensures
        ({
            let word = crate::text::ascii_lowered(crate::text::trimmed(v));
            &&& word == "1"@ || word == "true"@ || word == "yes"@ || word == "on"@ <==> switch_value(
                v,
            ) == Some(true)
            &&& switch_value(v) == Some(false) ==> word == "0"@ || word == "false"@ || word == "no"@
                || word == "off"@
            &&& word == "0"@ || word == "false"@ || word == "no"@ || word == "off"@ ==> switch_value(
                v,
            ) == Some(false)
        }),
{
    reveal_strlit("1");
    reveal_strlit("0");
    reveal_strlit("true");
    reveal_strlit("false");
    reveal_strlit("yes");
    reveal_strlit("no");
    reveal_strlit("on");
    reveal_strlit("off");
    assert("1"@.len() == 1 && "0"@.len() == 1 && "true"@.len() == 4 && "false"@.len() == 5
        && "yes"@.len() == 3 && "no"@.len() == 2 && "on"@.len() == 2 && "off"@.len() == 3);
    assert("1"@[0] == '1' && "0"@[0] == '0');
    assert("yes"@[0] == 'y' && "off"@[0] == 'o' && "on"@[0] == 'o' && "no"@[0] == 'n');
}

/// A manifest that is there and a program make a configuration; what is missing is what is
/// reported.
pub proof fn complete_configurations_are_accepted(
    e: VirtualWallError,
    f: VirtualWallConfigFile,
    s: Surroundings,
    p: Seq<char>,
)
    requires
        is_resolve_error(e, f, s),
        s.env@.dom().contains("VIRTUAL_WALL_RSPEC"@),
        crate::text::trimmed(s.env@["VIRTUAL_WALL_RSPEC"@]@) == p,
        p.len() > 0 && p[0] == '/',
        crate::surroundings::exists_path(s, p),
    ensures
        s.found_binary is None,
        e is BinaryNotFound,
{
    reveal_strlit("~");
    reveal_strlit("~/");
    if crate::text::begins(p, "~/"@) {
        assert(p.subrange(0, 2)[0] == '~');
    }
    assert("~"@[0] == '~');
}

} // verus!
