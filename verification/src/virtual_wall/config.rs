//! Configuration of the Virtual Wall manager.

use vstd::prelude::*;

use crate::numerals::parse_u64;
use crate::surroundings::{
    copy_opt, first_of, is_absolute_path, join_path, opt_path_nonempty, Surroundings,
};
use crate::text::{lowercase, same, trim};
use crate::virtual_wall::error::VirtualWallError;

verus! {

/// How long resources may take to become ready, in seconds.
pub const DEFAULT_READY_TIMEOUT_SECS: u64 = 1200;

/// How often they are looked at meanwhile, in milliseconds.
pub const DEFAULT_READY_POLL_MS: u64 = 2000;

/// What a configuration file says.
#[derive(Debug, Clone)]
pub struct VirtualWallConfigFile {
    pub slices_binary: Option<String>,
    pub project: Option<String>,
    pub experiment: Option<String>,
    pub experiment_duration: Option<String>,
    pub site_id: Option<String>,
    pub image: Option<String>,
    pub flavor: Option<String>,
    pub custom_config: Option<String>,
    pub bi_custom_config: Option<String>,
    pub ssh_username: Option<String>,
    pub ssh_private_key: Option<String>,
    pub resource_prefix: Option<String>,
    pub cloud_init_template: Option<String>,
    pub resource_spec_template: Option<String>,
    pub topology_spec_template: Option<String>,
    pub state_dir: Option<String>,
    pub use_jump_proxy: Option<bool>,
    pub ready_timeout_seconds: Option<u64>,
    pub ready_poll_interval_ms: Option<u64>,
}

/// The configuration that is in force.
#[derive(Debug, Clone)]
pub struct VirtualWallConfig {
    pub slices_binary: String,
    pub project: Option<String>,
    pub experiment: Option<String>,
    pub experiment_duration: Option<String>,
    pub site_id: Option<String>,
    pub image: Option<String>,
    pub flavor: Option<String>,
    pub custom_config: Option<String>,
    pub bi_custom_config: Option<String>,
    pub ssh_username: Option<String>,
    pub ssh_private_key: Option<String>,
    pub resource_prefix: Option<String>,
    pub cloud_init_template: Option<String>,
    pub resource_spec_template: Option<String>,
    pub topology_spec_template: Option<String>,
    pub state_dir: String,
    pub use_jump_proxy: bool,
    pub ready_timeout_secs: u64,
    pub ready_poll_interval_ms: u64,
}

/// Whether a configuration file says nothing.
pub open spec fn is_blank_file(f: VirtualWallConfigFile) -> bool {
    &&& f.slices_binary is None
    &&& f.project is None
    &&& f.experiment is None
    &&& f.experiment_duration is None
    &&& f.site_id is None
    &&& f.image is None
    &&& f.flavor is None
    &&& f.custom_config is None
    &&& f.bi_custom_config is None
    &&& f.ssh_username is None
    &&& f.ssh_private_key is None
    &&& f.resource_prefix is None
    &&& f.cloud_init_template is None
    &&& f.resource_spec_template is None
    &&& f.topology_spec_template is None
    &&& f.state_dir is None
    &&& f.use_jump_proxy is None
    &&& f.ready_timeout_seconds is None
    &&& f.ready_poll_interval_ms is None
}

impl Default for VirtualWallConfigFile {
    fn default() -> (r: Self)
        ensures
            is_blank_file(r),
    {
        VirtualWallConfigFile {
            slices_binary: None,
            project: None,
            experiment: None,
            experiment_duration: None,
            site_id: None,
            image: None,
            flavor: None,
            custom_config: None,
            bi_custom_config: None,
            ssh_username: None,
            ssh_private_key: None,
            resource_prefix: None,
            cloud_init_template: None,
            resource_spec_template: None,
            topology_spec_template: None,
            state_dir: None,
            use_jump_proxy: None,
            ready_timeout_seconds: None,
            ready_poll_interval_ms: None,
        }
    }
}

/// The command line tool in the virtual environment below the working directory.
pub open spec fn venv_binary(s: Surroundings) -> Seq<char> {
    match s.cwd {
        Some(cwd) => crate::surroundings::joined_path(cwd@, ".venv/bin/slices"@),
        None => ".venv/bin/slices"@,
    }
}

/// The command line tool in the virtual environment, where the working directory is known and
/// the tool exists.
pub open spec fn existing_venv_binary(s: Surroundings) -> Option<Seq<char>> {
    if s.cwd is Some && crate::surroundings::exists_path(s, venv_binary(s)) {
        Some(venv_binary(s))
    } else {
        None
    }
}

/// The command line tool: the configured one, else the one of the environment, else the one on
/// the search path, else the one in the virtual environment. Otherwise the path that was looked
/// for in vain.
pub open spec fn binary_of(s: Surroundings, configured: Option<Seq<char>>) -> Result<
    Seq<char>,
    Seq<char>,
> {
    let found = crate::text::opt_text(s.found_binary);
    if configured is Some && crate::surroundings::exists_path(s, configured->0) {
        Ok(configured->0)
    } else {
        match crate::surroundings::var(s, "SLICES_CLI_BIN"@) {
            Some(path) => if crate::surroundings::exists_path(s, path) {
                Ok(path)
            } else {
                match crate::surroundings::either(found, existing_venv_binary(s)) {
                    Some(p) => Ok(p),
                    None => Err(path),
                }
            },
            None => match found {
                Some(p) => Ok(p),
                None => if crate::surroundings::exists_path(s, venv_binary(s)) {
                    Ok(venv_binary(s))
                } else {
                    Err(venv_binary(s))
                },
            },
        }
    }
}

/// The value of an environment variable, else the configured one.
pub open spec fn env_or(
    s: Surroundings,
    key: Seq<char>,
    configured: Option<String>,
) -> Option<Seq<char>> {
    crate::surroundings::either(
        crate::surroundings::var(s, key),
        crate::text::opt_text(configured),
    )
}

/// The path of an environment variable, else the configured one; blank ones count as missing.
pub open spec fn path_or(
    s: Surroundings,
    key: Seq<char>,
    configured: Option<String>,
) -> Option<Seq<char>> {
    crate::surroundings::unless_blank(
        crate::surroundings::either(
            crate::surroundings::nonblank(crate::surroundings::var(s, key)),
            crate::text::opt_text(configured),
        ),
    )
}

/// The number that an environment variable holds.
pub open spec fn env_number(s: Surroundings, key: Seq<char>) -> Option<u64> {
    match crate::surroundings::var(s, key) {
        Some(v) => match crate::numerals::unsigned_upto(
            crate::text::trimmed(v),
            u64::MAX as nat,
        ) {
            Some(n) => Some(n as u64),
            None => None,
        },
        None => None,
    }
}

/// The directory for state where none is given.
pub open spec fn fallback_state_dir(s: Surroundings) -> Seq<char> {
    match s.config_dir {
        Some(dir) => crate::surroundings::joined_path(
            crate::surroundings::joined_path(dir@, "multipath-xr"@),
            "virtual-wall"@,
        ),
        None => match s.cwd {
            Some(cwd) => crate::surroundings::joined_path(cwd@, "virtual-wall-state"@),
            None => "./virtual-wall-state"@,
        },
    }
}

/// Whether a jump proxy is used: the environment decides, else the file; it is by default.
pub open spec fn uses_jump_proxy(s: Surroundings, configured: Option<bool>) -> bool {
    match crate::surroundings::var(s, "VIRTUAL_WALL_USE_JUMP_PROXY"@) {
        Some(v) => v != "0"@ && crate::text::lowercase_of(v) != "false"@,
        None => match configured {
            Some(b) => b,
            None => true,
        },
    }
}

/// A number of the environment, else a configured one.
pub open spec fn number_or(
    s: Surroundings,
    key: Seq<char>,
    configured: Option<u64>,
) -> Option<u64> {
    crate::surroundings::either(env_number(s, key), configured)
}

/// Whether a configuration is the one that follows from a file and the surroundings. The
/// environment goes before the file.
pub open spec fn is_resolved(
    c: VirtualWallConfig,
    f: VirtualWallConfigFile,
    s: Surroundings,
) -> bool {
    &&& Ok::<Seq<char>, Seq<char>>(c.slices_binary@) == binary_of(
        s,
        crate::text::opt_text(f.slices_binary),
    )
    &&& crate::text::opt_text(c.project) == env_or(s, "SLICES_PROJECT"@, f.project)
    &&& crate::text::opt_text(c.experiment) == env_or(s, "SLICES_EXPERIMENT"@, f.experiment)
    &&& crate::text::opt_text(c.experiment_duration) == env_or(
        s,
        "SLICES_EXPERIMENT_DURATION"@,
        f.experiment_duration,
    )
    &&& crate::text::opt_text(c.site_id) == crate::surroundings::either(
        crate::surroundings::var(s, "SLICES_BI_INFRA_ID"@),
        env_or(s, "SLICES_BI_SITE_ID"@, f.site_id),
    )
    &&& crate::text::opt_text(c.custom_config) == env_or(
        s,
        "SLICES_CUSTOM_CONFIG"@,
        f.custom_config,
    )
    &&& crate::text::opt_text(c.bi_custom_config) == path_or(
        s,
        "SLICES_BI_CUSTOM_CONFIG"@,
        f.bi_custom_config,
    )
    &&& crate::text::opt_text(c.image) == env_or(s, "VIRTUAL_WALL_IMAGE"@, f.image)
    &&& crate::text::opt_text(c.flavor) == env_or(s, "VIRTUAL_WALL_FLAVOR"@, f.flavor)
    &&& crate::text::opt_text(c.ssh_username) == env_or(
        s,
        "VIRTUAL_WALL_SSH_USERNAME"@,
        f.ssh_username,
    )
    &&& crate::text::opt_text(c.ssh_private_key) == path_or(
        s,
        "VIRTUAL_WALL_SSH_KEY"@,
        f.ssh_private_key,
    )
    &&& crate::text::opt_text(c.resource_prefix) == env_or(
        s,
        "VIRTUAL_WALL_RESOURCE_PREFIX"@,
        f.resource_prefix,
    )
    &&& crate::text::opt_text(c.cloud_init_template) == path_or(
        s,
        "VIRTUAL_WALL_CLOUD_INIT_TEMPLATE"@,
        f.cloud_init_template,
    )
    &&& crate::text::opt_text(c.resource_spec_template) == path_or(
        s,
        "VIRTUAL_WALL_RESOURCE_SPEC"@,
        f.resource_spec_template,
    )
    &&& crate::text::opt_text(c.topology_spec_template) == path_or(
        s,
        "VIRTUAL_WALL_TOPOLOGY_SPEC"@,
        f.topology_spec_template,
    )
    &&& c.state_dir@ == match path_or(s, "VIRTUAL_WALL_STATE_DIR"@, f.state_dir) {
        Some(dir) => dir,
        None => fallback_state_dir(s),
    }
    &&& c.use_jump_proxy == uses_jump_proxy(s, f.use_jump_proxy)
    &&& c.ready_timeout_secs == match number_or(
        s,
        "VIRTUAL_WALL_READY_TIMEOUT_SECONDS"@,
        f.ready_timeout_seconds,
    ) {
        Some(n) => n,
        None => DEFAULT_READY_TIMEOUT_SECS,
    }
    &&& c.ready_poll_interval_ms == match number_or(
        s,
        "VIRTUAL_WALL_READY_POLL_INTERVAL_MS"@,
        f.ready_poll_interval_ms,
    ) {
        Some(n) => clamped_poll_ms(n),
        None => DEFAULT_READY_POLL_MS,
    }
}

/// A polling interval that is not too short.
pub open spec fn clamped_poll_ms(ms: u64) -> u64 {
    if ms < 200 {
        200
    } else {
        ms
    }
}

/// Whether a value of the environment keeps the jump proxy in use, given the lowercase form of
/// it.
pub fn keeps_jump_proxy(value: &str, lowered: &str) -> (r: bool)
    ensures
        r == (value@ != "0"@ && lowered@ != "false"@),
{
    !same(value, "0") && !same(lowered, "false")
}

fn find_venv_binary(s: &Surroundings) -> (r: String)
    ensures
        r@ == venv_binary(*s),
{
    match &s.cwd {
        Some(cwd) => join_path(cwd.as_str(), ".venv/bin/slices"),
        None => ".venv/bin/slices".to_owned(),
    }
}

fn find_binary(s: &Surroundings, configured: &Option<String>) -> (r: Result<String, String>)
    ensures
        match r {
            Ok(p) => binary_of(*s, crate::text::opt_text(*configured)) == Ok::<
                Seq<char>,
                Seq<char>,
            >(p@),
            Err(p) => binary_of(*s, crate::text::opt_text(*configured)) == Err::<
                Seq<char>,
                Seq<char>,
            >(p@),
        },
{
    if let Some(path) = configured {
        if s.path_exists(path.as_str()) {
            return Ok(path.clone());
        }
    }
    match s.env_var("SLICES_CLI_BIN") {
        Some(path) => {
            if s.path_exists(path.as_str()) {
                return Ok(path);
            }
            if let Some(found) = &s.found_binary {
                return Ok(found.clone());
            }
            if s.cwd.is_some() {
                let venv = find_venv_binary(s);
                if s.path_exists(venv.as_str()) {
                    return Ok(venv);
                }
            }
            Err(path)
        },
        None => {
            if let Some(found) = &s.found_binary {
                return Ok(found.clone());
            }
            let venv = find_venv_binary(s);
            if s.path_exists(venv.as_str()) {
                Ok(venv)
            } else {
                Err(venv)
            }
        },
    }
}

fn pick(s: &Surroundings, key: &str, configured: &Option<String>) -> (r: Option<String>)
    ensures
        crate::text::opt_text(r) == env_or(*s, key@, *configured),
{
    first_of(s.env_var(key), copy_opt(configured))
}

fn pick_path(s: &Surroundings, key: &str, configured: &Option<String>) -> (r: Option<String>)
    ensures
        crate::text::opt_text(r) == path_or(*s, key@, *configured),
{
    opt_path_nonempty(&first_of(s.env_path_nonempty(key), copy_opt(configured)))
}

/// The paths whose existence decides how a configuration is resolved.
pub open spec fn decisive_paths(s: Surroundings, f: VirtualWallConfigFile) -> Seq<Seq<char>> {
    let configured = match f.slices_binary {
        Some(p) => seq![p@],
        None => Seq::empty(),
    };
    let env = match crate::surroundings::var(s, "SLICES_CLI_BIN"@) {
        Some(p) => seq![p],
        None => Seq::empty(),
    };
    configured + env + seq![venv_binary(s)]
}

/// The files that are tried by default.
pub open spec fn default_names() -> Seq<Seq<char>> {
    seq![
        "virtual_wall.private.toml"@,
        "virtual_wall.toml"@,
        "virtualwall.toml"@,
        "config.toml"@,
    ]
}

/// A path that a user gave, also below the working directory where it is relative.
pub open spec fn given_candidates(s: Surroundings, path: Seq<char>) -> Seq<Seq<char>> {
    if !crate::surroundings::is_absolute(path) && s.cwd is Some {
        seq![path, crate::surroundings::joined_path(s.cwd->0@, path)]
    } else {
        seq![path]
    }
}

/// The first `n` default files below the working directory.
pub open spec fn cwd_candidates(cwd: Seq<char>, n: nat) -> Seq<Seq<char>>
    decreases n,
{
    if n == 0 {
        Seq::empty()
    } else {
        let name = default_names()[n - 1];
        cwd_candidates(cwd, (n - 1) as nat).push(
            crate::surroundings::joined_path(
                crate::surroundings::joined_path(cwd, "Environments/VirtualWall"@),
                name,
            ),
        ).push(crate::surroundings::joined_path(cwd, name))
    }
}

/// Where a configuration file is looked for, in order: the given path, else the one of the
/// environment; then the default files below the working directory and the manifest directory.
pub open spec fn candidates(s: Surroundings, path: Option<Seq<char>>) -> Seq<Seq<char>> {
    let given = match crate::surroundings::either(
        path,
        crate::surroundings::var(s, "VIRTUAL_WALL_CONFIG"@),
    ) {
        Some(p) => given_candidates(s, p),
        None => Seq::empty(),
    };
    let local = match s.cwd {
        Some(cwd) => cwd_candidates(cwd@, 4),
        None => Seq::empty(),
    };
    let manifest = match crate::surroundings::var(s, "VIRTUAL_WALL_MANIFEST_DIR"@) {
        Some(dir) => Seq::new(
            4,
            |i: int| crate::surroundings::joined_path(dir, default_names()[i]),
        ),
        None => Seq::empty(),
    };
    given + local + manifest
}

fn default_name(i: usize) -> (r: &'static str)
    requires
        i < 4,
    ensures
        r@ == default_names()[i as int],
{
    if i == 0 {
        "virtual_wall.private.toml"
    } else if i == 1 {
        "virtual_wall.toml"
    } else if i == 2 {
        "virtualwall.toml"
    } else {
        "config.toml"
    }
}

impl VirtualWallConfig {
    /// A polling interval of at least 200 milliseconds.
    pub fn clamp_poll_ms(ms: u64) -> (r: u64)
        ensures
            r == clamped_poll_ms(ms),
    {
        if ms < 200 {
            200
        } else {
            ms
        }
    }

    fn env_u64(s: &Surroundings, key: &str) -> (r: Option<u64>)
        ensures
            r == env_number(*s, key@),
    {
        match s.env_var(key) {
            Some(v) => parse_u64(trim(v.as_str())),
            None => None,
        }
    }

    /// The directory for state where none is given.
    pub fn default_state_dir(s: &Surroundings) -> (r: String)
        ensures
            r@ == fallback_state_dir(*s),
    {
        if let Some(dir) = &s.config_dir {
            return join_path(join_path(dir.as_str(), "multipath-xr").as_str(), "virtual-wall");
        }
        match &s.cwd {
            Some(cwd) => join_path(cwd.as_str(), "virtual-wall-state"),
            None => "./virtual-wall-state".to_owned(),
        }
    }

    /// Where a configuration file is looked for, in order.
    pub fn candidate_paths(s: &Surroundings, path: Option<&str>) -> (r: Vec<String>)
        ensures
            crate::text::texts(r@) == candidates(
                *s,
                match path {
                    Some(p) => Some(p@),
                    None => None,
                },
            ),
    {
        let mut out: Vec<String> = Vec::new();
        let given: Option<String> = match path {
            Some(p) => Some(p.to_owned()),
            None => s.env_var("VIRTUAL_WALL_CONFIG"),
        };
        if let Some(p) = given {
            let relative = !is_absolute_path(p.as_str());
            out.push(p.clone());
            if relative {
                if let Some(cwd) = &s.cwd {
                    out.push(join_path(cwd.as_str(), p.as_str()));
                }
            }
            assert(crate::text::texts(out@) =~= given_candidates(*s, p@));
        }
        let ghost first = crate::text::texts(out@);
        if let Some(cwd) = &s.cwd {
            let mut i: usize = 0;
            assert(first + cwd_candidates(cwd@, 0) =~= first);
            while i < 4
                invariant
                    i <= 4,
                    crate::text::texts(out@) == first + cwd_candidates(cwd@, i as nat),
                decreases 4 - i,
            {
                let ghost before = crate::text::texts(out@);
                let name = default_name(i);
                out.push(
                    join_path(join_path(cwd.as_str(), "Environments/VirtualWall").as_str(), name),
                );
                out.push(join_path(cwd.as_str(), name));
                assert(crate::text::texts(out@) =~= before.push(
                    crate::surroundings::joined_path(
                        crate::surroundings::joined_path(cwd@, "Environments/VirtualWall"@),
                        name@,
                    ),
                ).push(crate::surroundings::joined_path(cwd@, name@)));
                assert(crate::text::texts(out@) =~= first + cwd_candidates(
                    cwd@,
                    (i + 1) as nat,
                ));
                i += 1;
            }
        }
        let ghost second = crate::text::texts(out@);
        if let Some(dir) = s.env_var("VIRTUAL_WALL_MANIFEST_DIR") {
            let ghost all = Seq::new(
                4,
                |i: int| crate::surroundings::joined_path(dir@, default_names()[i]),
            );
            let mut i: usize = 0;
            assert(second + all.take(0) =~= second);
            while i < 4
                invariant
                    i <= 4,
                    all == Seq::new(
                        4,
                        |i: int| crate::surroundings::joined_path(dir@, default_names()[i]),
                    ),
                    crate::text::texts(out@) == second + all.take(i as int),
                decreases 4 - i,
            {
                let ghost before = crate::text::texts(out@);
                out.push(join_path(dir.as_str(), default_name(i)));
                assert(crate::text::texts(out@) =~= before.push(all[i as int]));
                assert(crate::text::texts(out@) =~= second + all.take(i + 1));
                i += 1;
            }
            assert(all.take(4) =~= all);
        }
        assert(crate::text::texts(out@) =~= candidates(
            *s,
            match path {
                Some(p) => Some(p@),
                None => None,
            },
        ));
        out
    }

    /// The paths whose existence has to be known before a configuration is resolved.
    pub fn paths_to_probe(s: &Surroundings, file: &VirtualWallConfigFile) -> (r: Vec<String>)
        ensures
            crate::text::texts(r@) == decisive_paths(*s, *file),
    {
        let mut out: Vec<String> = Vec::new();
        if let Some(p) = &file.slices_binary {
            out.push(p.clone());
        }
        if let Some(p) = s.env_var("SLICES_CLI_BIN") {
            out.push(p);
        }
        out.push(find_venv_binary(s));
        assert(crate::text::texts(out@) =~= decisive_paths(*s, *file));
        out
    }

    /// The configuration that follows from a file and the surroundings. It fails when there is
    /// no command line tool.
    pub fn resolve(file: &VirtualWallConfigFile, s: &Surroundings) -> (r: Result<
        Self,
        VirtualWallError,
    >)
        ensures
            match r {
                Ok(c) => is_resolved(c, *file, *s),
                Err(VirtualWallError::CliNotFound(p)) => binary_of(
                    *s,
                    crate::text::opt_text(file.slices_binary),
                ) == Err::<Seq<char>, Seq<char>>(p@),
                Err(_) => false,
            },
    {
        let slices_binary = match find_binary(s, &file.slices_binary) {
            Ok(p) => p,
            Err(p) => {
                return Err(VirtualWallError::CliNotFound(p));
            },
        };
        let site_id = first_of(
            s.env_var("SLICES_BI_INFRA_ID"),
            pick(s, "SLICES_BI_SITE_ID", &file.site_id),
        );
        let use_jump_proxy = match s.env_var("VIRTUAL_WALL_USE_JUMP_PROXY") {
            Some(v) => keeps_jump_proxy(v.as_str(), lowercase(v.as_str()).as_str()),
            None => match file.use_jump_proxy {
                Some(b) => b,
                None => true,
            },
        };
        let state_dir = match pick_path(s, "VIRTUAL_WALL_STATE_DIR", &file.state_dir) {
            Some(dir) => dir,
            None => Self::default_state_dir(s),
        };
        let env_timeout: Option<u64> = Self::env_u64(s, "VIRTUAL_WALL_READY_TIMEOUT_SECONDS");
        let ready_timeout_secs: u64 = match env_timeout {
            Some(n) => n,
            None => match file.ready_timeout_seconds {
                Some(n) => n,
                None => DEFAULT_READY_TIMEOUT_SECS,
            },
        };
        let env_poll: Option<u64> = Self::env_u64(s, "VIRTUAL_WALL_READY_POLL_INTERVAL_MS");
        let ready_poll_interval_ms: u64 = match env_poll {
            Some(n) => Self::clamp_poll_ms(n),
            None => match file.ready_poll_interval_ms {
                Some(n) => Self::clamp_poll_ms(n),
                None => DEFAULT_READY_POLL_MS,
            },
        };
        Ok(
            VirtualWallConfig {
                slices_binary,
                project: pick(s, "SLICES_PROJECT", &file.project),
                experiment: pick(s, "SLICES_EXPERIMENT", &file.experiment),
                experiment_duration: pick(
                    s,
                    "SLICES_EXPERIMENT_DURATION",
                    &file.experiment_duration,
                ),
                site_id,
                image: pick(s, "VIRTUAL_WALL_IMAGE", &file.image),
                flavor: pick(s, "VIRTUAL_WALL_FLAVOR", &file.flavor),
                custom_config: pick(s, "SLICES_CUSTOM_CONFIG", &file.custom_config),
                bi_custom_config: pick_path(s, "SLICES_BI_CUSTOM_CONFIG", &file.bi_custom_config),
                ssh_username: pick(s, "VIRTUAL_WALL_SSH_USERNAME", &file.ssh_username),
                ssh_private_key: pick_path(s, "VIRTUAL_WALL_SSH_KEY", &file.ssh_private_key),
                resource_prefix: pick(s, "VIRTUAL_WALL_RESOURCE_PREFIX", &file.resource_prefix),
                cloud_init_template: pick_path(
                    s,
                    "VIRTUAL_WALL_CLOUD_INIT_TEMPLATE",
                    &file.cloud_init_template,
                ),
                resource_spec_template: pick_path(
                    s,
                    "VIRTUAL_WALL_RESOURCE_SPEC",
                    &file.resource_spec_template,
                ),
                topology_spec_template: pick_path(
                    s,
                    "VIRTUAL_WALL_TOPOLOGY_SPEC",
                    &file.topology_spec_template,
                ),
                state_dir,
                use_jump_proxy,
                ready_timeout_secs,
                ready_poll_interval_ms,
            },
        )
    }

    /// The configuration from the first candidate that could be read; without one, from the
    /// surroundings alone.
    pub fn load(attempts: &Vec<Option<VirtualWallConfigFile>>, s: &Surroundings) -> (r: Result<
        Self,
        VirtualWallError,
    >)
        ensures
            exists|f: VirtualWallConfigFile| #[trigger]
                is_loaded(attempts@, f) && match r {
                    Ok(c) => is_resolved(c, f, *s),
                    Err(VirtualWallError::CliNotFound(p)) => binary_of(
                        *s,
                        crate::text::opt_text(f.slices_binary),
                    ) == Err::<Seq<char>, Seq<char>>(p@),
                    Err(_) => false,
                },
    {
        let mut i: usize = 0;
        while i < attempts.len()
            invariant
                i <= attempts.len(),
                forall|j: int| 0 <= j < i ==> #[trigger] attempts@[j] is None,
            decreases attempts.len() - i,
        {
            if let Some(file) = &attempts[i] {
                proof {
                    assert(attempts@[i as int] == Some(*file));
                    assert(is_loaded(attempts@, *file));
                }
                return Self::resolve(file, s);
            }
            i += 1;
        }
        let file = VirtualWallConfigFile::default();
        assert(is_loaded(attempts@, file));
        Self::resolve(&file, s)
    }
}

/// Whether a file is the first one that could be read, or a blank one where none could.
pub open spec fn is_loaded(
    attempts: Seq<Option<VirtualWallConfigFile>>,
    f: VirtualWallConfigFile,
) -> bool {
    ||| exists|i: int|
        0 <= i < attempts.len() && #[trigger] attempts[i] == Some(f) && forall|j: int|
            0 <= j < i ==> #[trigger] attempts[j] is None
    ||| is_blank_file(f) && forall|j: int|
        0 <= j < attempts.len() ==> #[trigger] attempts[j] is None
}

/// Variables go before the file: where one is set, it is what counts.
pub proof fn variables_go_before_the_file(
    c: VirtualWallConfig,
    f: VirtualWallConfigFile,
    s: Surroundings,
    key: Seq<char>,
)
    requires
        is_resolved(c, f, s),
        s.env@.dom().contains(key),
        crate::text::trimmed(s.env@[key]@).len() > 0,
    ensures
        ({
            let raw = s.env@[key]@;
            let value = crate::text::trimmed(raw);
            &&& key == "SLICES_PROJECT"@ ==> crate::text::opt_text(c.project) == Some(raw)
            &&& key == "SLICES_EXPERIMENT"@ ==> crate::text::opt_text(c.experiment) == Some(raw)
            &&& key == "SLICES_EXPERIMENT_DURATION"@ ==> crate::text::opt_text(
                c.experiment_duration,
            ) == Some(raw)
            &&& key == "SLICES_BI_INFRA_ID"@ ==> crate::text::opt_text(c.site_id) == Some(raw)
            &&& key == "SLICES_BI_SITE_ID"@ && !s.env@.dom().contains("SLICES_BI_INFRA_ID"@)
                ==> crate::text::opt_text(c.site_id) == Some(raw)
            &&& key == "SLICES_CUSTOM_CONFIG"@ ==> crate::text::opt_text(c.custom_config) == Some(
                raw,
            )
            &&& key == "VIRTUAL_WALL_IMAGE"@ ==> crate::text::opt_text(c.image) == Some(raw)
            &&& key == "VIRTUAL_WALL_FLAVOR"@ ==> crate::text::opt_text(c.flavor) == Some(raw)
            &&& key == "VIRTUAL_WALL_SSH_USERNAME"@ ==> crate::text::opt_text(c.ssh_username)
                == Some(raw)
            &&& key == "VIRTUAL_WALL_RESOURCE_PREFIX"@ ==> crate::text::opt_text(c.resource_prefix)
                == Some(raw)
            &&& key == "SLICES_BI_CUSTOM_CONFIG"@ ==> crate::text::opt_text(c.bi_custom_config)
                == Some(value)
            &&& key == "VIRTUAL_WALL_SSH_KEY"@ ==> crate::text::opt_text(c.ssh_private_key) == Some(
                value,
            )
            &&& key == "VIRTUAL_WALL_CLOUD_INIT_TEMPLATE"@ ==> crate::text::opt_text(
                c.cloud_init_template,
            ) == Some(value)
            &&& key == "VIRTUAL_WALL_RESOURCE_SPEC"@ ==> crate::text::opt_text(
                c.resource_spec_template,
            ) == Some(value)
            &&& key == "VIRTUAL_WALL_TOPOLOGY_SPEC"@ ==> crate::text::opt_text(
                c.topology_spec_template,
            ) == Some(value)
            &&& key == "VIRTUAL_WALL_STATE_DIR"@ ==> c.state_dir@ == value
        }),
{
    crate::text::trimming_takes_white_space_alone(s.env@[key]@);
    let value = crate::text::trimmed(s.env@[key]@);
    crate::text::trimming_takes_white_space_alone(value);
    if crate::text::trimmed(value).len() == 0 {
        assert(crate::text::is_white(value[0]));
    }
}

/// Where no variable is set, the file counts.
pub proof fn the_file_counts_without_variables(
    c: VirtualWallConfig,
    f: VirtualWallConfigFile,
    s: Surroundings,
)
    requires
        is_resolved(c, f, s),
        forall|key: Seq<char>| !#[trigger] s.env@.dom().contains(key),
    ensures
        crate::text::opt_text(c.project) == crate::text::opt_text(f.project),
        crate::text::opt_text(c.experiment) == crate::text::opt_text(f.experiment),
        crate::text::opt_text(c.experiment_duration) == crate::text::opt_text(
            f.experiment_duration,
        ),
        crate::text::opt_text(c.site_id) == crate::text::opt_text(f.site_id),
        crate::text::opt_text(c.image) == crate::text::opt_text(f.image),
        crate::text::opt_text(c.flavor) == crate::text::opt_text(f.flavor),
        crate::text::opt_text(c.ssh_username) == crate::text::opt_text(f.ssh_username),
        crate::text::opt_text(c.resource_prefix) == crate::text::opt_text(f.resource_prefix),
        crate::text::opt_text(c.custom_config) == crate::text::opt_text(f.custom_config),
        f.use_jump_proxy matches Some(b) ==> c.use_jump_proxy == b,
        f.use_jump_proxy is None ==> c.use_jump_proxy,
        f.ready_timeout_seconds matches Some(n) ==> c.ready_timeout_secs == n,
        f.ready_timeout_seconds is None ==> c.ready_timeout_secs == 1200,
        f.ready_poll_interval_ms matches Some(n) ==> n >= 200 ==> c.ready_poll_interval_ms == n,
        f.ready_poll_interval_ms is None ==> c.ready_poll_interval_ms == 2000,
        c.ready_poll_interval_ms >= 200,
{
    assert(!s.env@.dom().contains("SLICES_PROJECT"@));
    assert(!s.env@.dom().contains("SLICES_EXPERIMENT"@));
    assert(!s.env@.dom().contains("SLICES_EXPERIMENT_DURATION"@));
    assert(!s.env@.dom().contains("SLICES_BI_INFRA_ID"@));
    assert(!s.env@.dom().contains("SLICES_BI_SITE_ID"@));
    assert(!s.env@.dom().contains("SLICES_CUSTOM_CONFIG"@));
    assert(!s.env@.dom().contains("VIRTUAL_WALL_IMAGE"@));
    assert(!s.env@.dom().contains("VIRTUAL_WALL_FLAVOR"@));
    assert(!s.env@.dom().contains("VIRTUAL_WALL_SSH_USERNAME"@));
    assert(!s.env@.dom().contains("VIRTUAL_WALL_RESOURCE_PREFIX"@));
    assert(!s.env@.dom().contains("VIRTUAL_WALL_USE_JUMP_PROXY"@));
    assert(!s.env@.dom().contains("VIRTUAL_WALL_READY_TIMEOUT_SECONDS"@));
    assert(!s.env@.dom().contains("VIRTUAL_WALL_READY_POLL_INTERVAL_MS"@));
}

/// Times that variables set count before those of the file.
pub proof fn times_of_variables_count_first(
    c: VirtualWallConfig,
    f: VirtualWallConfigFile,
    s: Surroundings,
    n: u64,
)
    requires
        is_resolved(c, f, s),
    ensures
        s.env@.dom().contains("VIRTUAL_WALL_READY_TIMEOUT_SECONDS"@) && crate::text::trimmed(
            s.env@["VIRTUAL_WALL_READY_TIMEOUT_SECONDS"@]@,
        ) == crate::text::dec(n as nat) ==> c.ready_timeout_secs == n,
        s.env@.dom().contains("VIRTUAL_WALL_READY_POLL_INTERVAL_MS"@) && crate::text::trimmed(
            s.env@["VIRTUAL_WALL_READY_POLL_INTERVAL_MS"@]@,
        ) == crate::text::dec(n as nat) ==> c.ready_poll_interval_ms == if n < 200 {
            200
        } else {
            n
        },
{
    crate::numerals::reading_a_numeral(n as nat);
}

/// The program is the one that is configured, where it is there; else the one that the variable
/// names, where that is there; else the one that was found, and at last that of the working
/// directory.
pub proof fn configured_programs_come_first(s: Surroundings, configured: Option<Seq<char>>)
    ensures
        configured matches Some(p) ==> crate::surroundings::exists_path(s, p) ==> binary_of(
            s,
            configured,
        ) == Ok::<Seq<char>, Seq<char>>(p),
        (configured is None || !crate::surroundings::exists_path(s, configured->0))
            && s.env@.dom().contains("SLICES_CLI_BIN"@) && crate::surroundings::exists_path(
            s,
            s.env@["SLICES_CLI_BIN"@]@,
        ) ==> binary_of(s, configured) == Ok::<Seq<char>, Seq<char>>(
            s.env@["SLICES_CLI_BIN"@]@,
        ),
        configured is None && !s.env@.dom().contains("SLICES_CLI_BIN"@) && s.found_binary is Some
            ==> binary_of(s, configured) == Ok::<Seq<char>, Seq<char>>(s.found_binary->0@),
        configured is None && !s.env@.dom().contains("SLICES_CLI_BIN"@) && s.found_binary is None
            ==> (binary_of(s, configured) is Ok <==> crate::surroundings::exists_path(
            s,
            venv_binary(s),
        )),
{
}

/// The proxy is used unless the variable switches it off.
pub proof fn the_variable_switches_the_proxy(s: Surroundings, configured: Option<bool>)
    requires
        s.env@.dom().contains("VIRTUAL_WALL_USE_JUMP_PROXY"@),
    ensures
        ({
            let v = s.env@["VIRTUAL_WALL_USE_JUMP_PROXY"@]@;
            uses_jump_proxy(s, configured) <==> !(v == "0"@ || crate::text::lowercase_of(v)
                == "false"@)
        }),
{
}

/// The file that is given is looked at first, then the usual ones below the working directory: each
/// in the folder of the environment before the directory itself, the private one first.
pub proof fn given_files_are_looked_at_first(s: Surroundings, path: Seq<char>, i: int)
    requires
        s.cwd is Some,
        path.len() > 0 && path[0] != '/',
        !s.env@.dom().contains("VIRTUAL_WALL_MANIFEST_DIR"@),
        0 <= i < 4,
    ensures
        ({
            let all = candidates(s, Some(path));
            let cwd = s.cwd->0@;
            let folder = crate::surroundings::joined_path(cwd, "Environments/VirtualWall"@);
            let name = if i == 0 {
                "virtual_wall.private.toml"@
            } else if i == 1 {
                "virtual_wall.toml"@
            } else if i == 2 {
                "virtualwall.toml"@
            } else {
                "config.toml"@
            };
            &&& all.len() == 10
            &&& all[0] == path
            &&& all[1] == crate::surroundings::joined_path(cwd, path)
            &&& all[2 + 2 * i] == crate::surroundings::joined_path(folder, name)
            &&& all[3 + 2 * i] == crate::surroundings::joined_path(cwd, name)
        }),
{
    reveal_with_fuel(cwd_candidates, 5);
    let cwd = s.cwd->0@;
    let local = cwd_candidates(cwd, 4);
    assert(local.len() == 8);
    let folder = crate::surroundings::joined_path(cwd, "Environments/VirtualWall"@);
    assert(local[2 * i] == crate::surroundings::joined_path(folder, default_names()[i]));
    assert(local[2 * i + 1] == crate::surroundings::joined_path(cwd, default_names()[i]));
    let all = candidates(s, Some(path));
    assert(all[2 + 2 * i] == local[2 * i]);
    assert(all[3 + 2 * i] == local[2 * i + 1]);
}

} // verus!
