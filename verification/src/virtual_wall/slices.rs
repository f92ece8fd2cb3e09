//! The command line of the SLICES tool, and what its output means.

use vstd::prelude::*;

use crate::string_map::StringMap;
use crate::text::{join, split, trim};
use crate::virtual_wall::error::VirtualWallError;

verus! {

/// An experiment. The time is kept as it was printed.
#[derive(Debug)]
pub struct ExperimentSummary {
    pub id: String,
    pub friendly_name: String,
    pub project_id: Option<String>,
    pub expires_at: Option<String>,
}

/// A resource as it is listed. `experiment_id` is the experiment that the additional data of the
/// resource names, and `document` the whole of what was printed.
#[derive(Debug)]
pub struct ResourceSummary {
    pub id: Option<String>,
    pub friendly_name: Option<String>,
    pub name: Option<String>,
    pub status: Option<String>,
    pub site_id: Option<String>,
    pub ipv4: Option<String>,
    pub ipv6: Option<String>,
    pub private_ipv4: Option<String>,
    pub private_ipv6: Option<String>,
    pub public_ipv4: Option<String>,
    pub public_ipv6: Option<String>,
    pub expires_at: Option<String>,
    pub experiment_id: Option<String>,
    pub document: String,
}

/// A network interface of a resource.
#[derive(Debug)]
pub struct BiNetworkInterface {
    pub port_id: Option<String>,
    pub network_id: Option<String>,
    pub addresses: Vec<String>,
}

/// A resource in detail; `document` is the whole of what was printed.
#[derive(Debug)]
pub struct ResourceDetail {
    pub id: Option<String>,
    pub friendly_name: Option<String>,
    pub status: Option<String>,
    pub site_id: Option<String>,
    pub private_ipv4: Option<String>,
    pub private_ipv6: Option<String>,
    pub public_ipv4: Option<String>,
    pub public_ipv6: Option<String>,
    pub network_interfaces: Vec<BiNetworkInterface>,
    pub ssh_logins: Vec<SshLogin>,
    pub document: String,
}

/// How to log in on a resource.
#[derive(Debug)]
pub struct SshLogin {
    pub host: String,
    pub port: u16,
    pub username: String,
    pub jump_proxy: Option<SshProxy>,
}

/// A host that logins go through.
#[derive(Debug)]
pub struct SshProxy {
    pub host: String,
    pub port: u16,
    pub username: String,
}

/// The port of SSH where none is given.
pub fn default_ssh_port() -> (r: u16)
    ensures
        r == 22,
{
    22
}

/// What a command has printed.
#[derive(Debug)]
pub struct CommandOutput {
    pub stdout: String,
    pub stderr: String,
}

/// A command as it is run.
#[derive(Debug)]
pub struct PreparedCommand {
    pub program: String,
    pub args: Vec<String>,
    /// The value of `PATH`, where it is changed.
    pub path: Option<String>,
}

/// The SLICES tool.
#[derive(Debug)]
pub struct SlicesClient {
    pub binary: String,
    pub env: StringMap<String>,
    pub bi_infra_id: Option<String>,
}

/// The words that the commands on bare-metal resources begin with.
pub open spec fn bi_prefix(infra: Option<Seq<char>>) -> Seq<Seq<char>> {
    match infra {
        Some(id) => seq!["bi"@, "--infra"@, id],
        None => seq!["bi"@],
    }
}

/// A command on bare-metal resources.
pub open spec fn bi_args(c: SlicesClient, tail: Seq<Seq<char>>) -> Seq<Seq<char>> {
    bi_prefix(crate::text::opt_text(c.bi_infra_id)) + tail
}

/// A command line as text.
pub fn format_command(args: &Vec<String>) -> (r: String)
    ensures
        r@ == crate::text::joined(crate::text::texts(args@), " "@),
{
    join(args, " ")
}

/// Whether a text is blank.
pub open spec fn is_blank(s: Seq<char>) -> bool {
    crate::text::trimmed(s).len() == 0
}

/// Whether a result is the error of a missing value, or else a command line.
pub open spec fn args_unless(
    r: Result<Vec<String>, VirtualWallError>,
    fault: Option<Seq<char>>,
    args: Seq<Seq<char>>,
) -> bool {
    match fault {
        Some(f) => r matches Err(VirtualWallError::Configuration(m)) && m@ == f,
        None => r matches Ok(a) && crate::text::texts(a@) == args,
    }
}

/// A list of directories with a directory in it: in front, unless it is there already.
pub open spec fn path_with(path: Seq<char>, dir: Seq<char>) -> Seq<char> {
    if crate::text::pieces(path, ':').contains(dir) {
        path
    } else {
        dir + ":"@ + path
    }
}

/// The result of [`std::path::Path::parent`]: a path without its last component.
pub uninterp spec fn parent_of(path: Seq<char>) -> Option<Seq<char>>;

/// Calls [`std::path::Path::parent`]; nothing is claimed but that the result depends on the path
/// alone.
#[verifier::external_body]
fn parent_path(path: &str) -> (r: Option<String>)
    ensures
        crate::text::opt_text(r) == parent_of(path@),
{
    std::path::Path::new(path).parent().map(|p| p.to_string_lossy().to_string())
}

/// Whether an outcome of a command is what its status, output and errors mean.
pub open spec fn is_command_result(
    r: Result<CommandOutput, VirtualWallError>,
    args: Seq<Seq<char>>,
    success: bool,
    code: Option<i32>,
    stdout: Seq<char>,
    stderr: Seq<char>,
) -> bool {
    if success {
        r matches Ok(o) && o.stdout@ == stdout && o.stderr@ == stderr
    } else {
        r matches Err(VirtualWallError::CliFailure { command, status, stderr: e }) && command@
            == crate::text::joined(args, " "@) && status == (match code {
            Some(c) => c as int,
            None => -1,
        }) && e@ == stderr
    }
}

fn extend(mut prefix: Vec<String>, tail: Vec<String>) -> (r: Vec<String>)
    ensures
        crate::text::texts(r@) == crate::text::texts(prefix@) + crate::text::texts(tail@),
{
    let ghost before = crate::text::texts(prefix@);
    let ghost added = crate::text::texts(tail@);
    let mut tail = tail;
    prefix.append(&mut tail);
    assert(crate::text::texts(prefix@) =~= before + added);
    prefix
}

fn one_word(a: &str) -> (r: Vec<String>)
    ensures
        crate::text::texts(r@) == seq![a@],
{
    let v: Vec<String> = vec![a.to_owned()];
    assert(crate::text::texts(v@) =~= seq![a@]);
    v
}

fn two_words(a: &str, b: &str) -> (r: Vec<String>)
    ensures
        crate::text::texts(r@) == seq![a@, b@],
{
    let v: Vec<String> = vec![a.to_owned(), b.to_owned()];
    assert(crate::text::texts(v@) =~= seq![a@, b@]);
    v
}

fn three_words(a: &str, b: &str, c: &str) -> (r: Vec<String>)
    ensures
        crate::text::texts(r@) == seq![a@, b@, c@],
{
    let v: Vec<String> = vec![a.to_owned(), b.to_owned(), c.to_owned()];
    assert(crate::text::texts(v@) =~= seq![a@, b@, c@]);
    v
}

fn four_words(a: &str, b: &str, c: &str, d: &str) -> (r: Vec<String>)
    ensures
        crate::text::texts(r@) == seq![a@, b@, c@, d@],
{
    let v: Vec<String> = vec![a.to_owned(), b.to_owned(), c.to_owned(), d.to_owned()];
    assert(crate::text::texts(v@) =~= seq![a@, b@, c@, d@]);
    v
}

fn five_words(a: &str, b: &str, c: &str, d: &str, e: &str) -> (r: Vec<String>)
    ensures
        crate::text::texts(r@) == seq![a@, b@, c@, d@, e@],
{
    let v: Vec<String> = vec![a.to_owned(), b.to_owned(), c.to_owned(), d.to_owned(), e.to_owned()];
    assert(crate::text::texts(v@) =~= seq![a@, b@, c@, d@, e@]);
    v
}

fn six_words(a: &str, b: &str, c: &str, d: &str, e: &str, f: &str) -> (r: Vec<String>)
    ensures
        crate::text::texts(r@) == seq![a@, b@, c@, d@, e@, f@],
{
    let v: Vec<String> = vec![a.to_owned(), b.to_owned(), c.to_owned(), d.to_owned(), e.to_owned(), f.to_owned()];
    assert(crate::text::texts(v@) =~= seq![a@, b@, c@, d@, e@, f@]);
    v
}

fn seven_words(a: &str, b: &str, c: &str, d: &str, e: &str, f: &str, g: &str) -> (r: Vec<String>)
    ensures
        crate::text::texts(r@) == seq![a@, b@, c@, d@, e@, f@, g@],
{
    let v: Vec<String> = vec![a.to_owned(), b.to_owned(), c.to_owned(), d.to_owned(), e.to_owned(), f.to_owned(), g.to_owned()];
    assert(crate::text::texts(v@) =~= seq![a@, b@, c@, d@, e@, f@, g@]);
    v
}

impl SlicesClient {
    /// The tool at a path.
    pub fn new(binary: String) -> (r: Self)
        ensures
            r.binary@ == binary@,
            r.env@ == Map::<Seq<char>, String>::empty(),
            r.bi_infra_id is None,
    {
        SlicesClient { binary, env: StringMap::new(), bi_infra_id: None }
    }

    /// Sets the infrastructure that the commands on bare-metal resources are sent to.
    pub fn set_bi_infra_id(&mut self, infra_id: Option<String>)
        ensures
            final(self).bi_infra_id == infra_id,
            final(self).binary == old(self).binary,
            final(self).env == old(self).env,
    {
        self.bi_infra_id = infra_id;
    }

    /// The tool with an environment variable set.
    pub fn with_env(self, key: String, value: String) -> (r: Self)
        ensures
            r.env@ == self.env@.insert(key@, value),
            r.binary == self.binary,
            r.bi_infra_id == self.bi_infra_id,
    {
        let mut r = self;
        r.env.insert(key, value);
        r
    }

    /// Sets an environment variable.
    pub fn set_env(&mut self, key: String, value: String)
        ensures
            final(self).env@ == old(self).env@.insert(key@, value),
            final(self).binary == old(self).binary,
            final(self).bi_infra_id == old(self).bi_infra_id,
    {
        self.env.insert(key, value);
    }

    /// The words that the commands on bare-metal resources begin with.
    pub fn bi_prefix_args(&self) -> (r: Vec<String>)
        ensures
            crate::text::texts(r@) == bi_prefix(crate::text::opt_text(self.bi_infra_id)),
    {
        match &self.bi_infra_id {
            Some(infra) => three_words("bi", "--infra", infra.as_str()),
            None => one_word("bi"),
        }
    }

    /// A command line that begins with a prefix.
    pub fn bi_args_from(prefix: Vec<String>, tail: Vec<String>) -> (r: Vec<String>)
        ensures
            crate::text::texts(r@) == crate::text::texts(prefix@) + crate::text::texts(tail@),
    {
        extend(prefix, tail)
    }

    /// Selects a project.
    pub fn ensure_project(&self, project: &str) -> (r: Vec<String>)
        ensures
            crate::text::texts(r@) == seq!["project"@, "use"@, project@],
    {
        three_words("project", "use", project)
    }

    /// Creates an experiment.
    pub fn create_experiment(&self, experiment: &str, duration: Option<&str>) -> (r: Vec<String>)
        ensures
            crate::text::texts(r@) == seq!["experiment"@, "create"@, experiment@] + (
            match duration {
                Some(d) => seq!["--duration"@, d@],
                None => Seq::empty(),
            }),
    {
        let args = three_words("experiment", "create", experiment);
        match duration {
            Some(d) => extend(args, two_words("--duration", d)),
            None => {
                assert(crate::text::texts(args@) =~= crate::text::texts(args@)
                    + Seq::<Seq<char>>::empty());
                args
            },
        }
    }

    /// Shows an experiment.
    pub fn try_experiment_show(&self, experiment: &str) -> (r: Vec<String>)
        ensures
            crate::text::texts(r@) == seq!["experiment"@, "show"@, experiment@, "--format"@, "json"@],
    {
        five_words("experiment", "show", experiment, "--format", "json")
    }

    /// Extends the lifetime of an experiment.
    pub fn experiment_extend(&self, experiment: &str, duration: &str) -> (r: Vec<String>)
        ensures
            crate::text::texts(r@) == seq!["experiment"@, "extend"@, experiment@, "--duration"@, duration@, "--format"@, "json"@],
    {
        seven_words("experiment", "extend", experiment, "--duration", duration, "--format", "json")
    }

    /// Creates resources from a file.
    pub fn bi_create_from_file(&self, spec_path: &str, wait: bool, experiment: &str) -> (r: Vec<
        String,
    >)
        ensures
            crate::text::texts(r@) == bi_args(
                *self,
                seq!["create-from-file"@, spec_path@, "--experiment"@, experiment@] + (if wait {
                    seq!["--wait"@]
                } else {
                    Seq::empty()
                }),
            ),
    {
        let tail = four_words("create-from-file", spec_path, "--experiment", experiment);
        let ghost first = crate::text::texts(tail@);
        let tail = if wait {
            extend(tail, one_word("--wait"))
        } else {
            tail
        };
        assert(first + Seq::<Seq<char>>::empty() =~= first);
        Self::bi_args_from(self.bi_prefix_args(), tail)
    }

    /// Lists resources, of one experiment where it is named.
    pub fn bi_list(&self, experiment: &str) -> (r: Vec<String>)
        ensures
            crate::text::texts(r@) == bi_args(
                *self,
                seq!["list"@, "--format"@, "json"@] + (if is_blank(experiment@) {
                    Seq::empty()
                } else {
                    seq!["--experiment"@, experiment@]
                }),
            ),
    {
        let tail = three_words("list", "--format", "json");
        let ghost first = crate::text::texts(tail@);
        let tail = if trim(experiment).is_empty() {
            tail
        } else {
            extend(tail, two_words("--experiment", experiment))
        };
        assert(first + Seq::<Seq<char>>::empty() =~= first);
        Self::bi_args_from(self.bi_prefix_args(), tail)
    }

    /// Shows a resource.
    pub fn bi_show(&self, resource_id: &str) -> (r: Vec<String>)
        ensures
            crate::text::texts(r@) == bi_args(*self, seq!["show"@, resource_id@, "--format"@, "json"@]),
    {
        Self::bi_args_from(self.bi_prefix_args(), four_words("show", resource_id, "--format", "json"))
    }

    /// Shows a resource of an experiment in detail.
    pub fn bi_show_with_experiment(&self, resource_id: &str, experiment: &str) -> (r: Vec<String>)
        ensures
            crate::text::texts(r@) == bi_args(*self, seq!["show"@, resource_id@, "--experiment"@, experiment@, "--format"@, "json"@]),
    {
        Self::bi_args_from(self.bi_prefix_args(), six_words("show", resource_id, "--experiment", experiment, "--format", "json"))
    }

    /// Deletes a resource.
    pub fn bi_delete(&self, resource_id: &str) -> (r: Vec<String>)
        ensures
            crate::text::texts(r@) == bi_args(*self, seq!["delete"@, resource_id@]),
    {
        Self::bi_args_from(self.bi_prefix_args(), two_words("delete", resource_id))
    }

    /// Lists the resources of an experiment.
    pub fn experiment_list_resources(&self, experiment: &str) -> (r: Vec<String>)
        ensures
            crate::text::texts(r@) == bi_args(*self, seq!["list-resources"@, "--experiment"@, experiment@, "--format"@, "json"@]),
    {
        Self::bi_args_from(self.bi_prefix_args(), five_words("list-resources", "--experiment", experiment, "--format", "json"))
    }

    /// Shows how to log in on a resource.
    pub fn bi_ssh_show_json(&self, resource: &str, experiment: &str) -> (r: Vec<String>)
        ensures
            crate::text::texts(r@) == bi_args(*self, seq!["ssh"@, resource@, "--experiment"@, experiment@, "--show"@, "json"@, "--no-exec"@]),
    {
        Self::bi_args_from(self.bi_prefix_args(), seven_words("ssh", resource, "--experiment", experiment, "--show", "json", "--no-exec"))
    }

    /// Extends the lifetime of a resource.
    pub fn bi_extend(&self, name_or_id: &str, duration: &str) -> (r: Result<Vec<String>, VirtualWallError>)
        ensures
            args_unless(
                r,
                if is_blank(name_or_id@) { Some("name_or_id must be non-empty"@) } else if is_blank(duration@) { Some("duration must be non-empty"@) } else { None },
                bi_args(*self, seq!["extend"@, name_or_id@, "--duration"@, duration@]),
            ),
    {
        if trim(name_or_id).is_empty() {
            return Err(VirtualWallError::Configuration("name_or_id must be non-empty".to_owned()));
        }
        if trim(duration).is_empty() {
            return Err(VirtualWallError::Configuration("duration must be non-empty".to_owned()));
        }
        Ok(Self::bi_args_from(self.bi_prefix_args(), four_words("extend", name_or_id, "--duration", duration)))
    }

    /// Resets a resource.
    pub fn bi_reset(&self, name_or_id: &str) -> (r: Result<Vec<String>, VirtualWallError>)
        ensures
            args_unless(
                r,
                if is_blank(name_or_id@) { Some("name_or_id must be non-empty"@) } else { None },
                bi_args(*self, seq!["reset"@, name_or_id@]),
            ),
    {
        if trim(name_or_id).is_empty() {
            return Err(VirtualWallError::Configuration("name_or_id must be non-empty".to_owned()));
        }
        Ok(Self::bi_args_from(self.bi_prefix_args(), two_words("reset", name_or_id)))
    }

    /// Runs a command on a resource.
    pub fn bi_ssh(&self, name_or_id: &str, cmd: &str) -> (r: Result<Vec<String>, VirtualWallError>)
        ensures
            args_unless(
                r,
                if is_blank(name_or_id@) { Some("name_or_id must be non-empty"@) } else if is_blank(cmd@) { Some("cmd must be non-empty"@) } else { None },
                bi_args(*self, seq!["ssh"@, name_or_id@, "--"@, cmd@]),
            ),
    {
        if trim(name_or_id).is_empty() {
            return Err(VirtualWallError::Configuration("name_or_id must be non-empty".to_owned()));
        }
        if trim(cmd).is_empty() {
            return Err(VirtualWallError::Configuration("cmd must be non-empty".to_owned()));
        }
        Ok(Self::bi_args_from(self.bi_prefix_args(), four_words("ssh", name_or_id, "--", cmd)))
    }

    /// Copies files.
    pub fn bi_scp(&self, src: &str, dst: &str) -> (r: Result<Vec<String>, VirtualWallError>)
        ensures
            args_unless(
                r,
                if is_blank(src@) || is_blank(dst@) { Some("src/dst must be non-empty"@) } else { None },
                bi_args(*self, seq!["scp"@, src@, dst@]),
            ),
    {
        if trim(src).is_empty() || trim(dst).is_empty() {
            return Err(VirtualWallError::Configuration("src/dst must be non-empty".to_owned()));
        }
        Ok(Self::bi_args_from(self.bi_prefix_args(), three_words("scp", src, dst)))
    }

    /// Destroys resources of an experiment. There is nothing to be run where none are named.
    pub fn bi_destroy(&self, experiment: &str, names_or_ids: &Vec<String>) -> (r: Result<
        Option<Vec<String>>,
        VirtualWallError,
    >)
        ensures
            match r {
                Err(VirtualWallError::Configuration(m)) => is_blank(experiment@) && m@
                    == "experiment must be non-empty"@,
                Err(_) => false,
                Ok(None) => !is_blank(experiment@) && names_or_ids@.len() == 0,
                Ok(Some(args)) => !is_blank(experiment@) && names_or_ids@.len() > 0
                    && crate::text::texts(args@) == bi_args(
                    *self,
                    seq!["destroy"@, "--experiment"@, experiment@] + crate::text::texts(
                        names_or_ids@,
                    ),
                ),
            },
    {
        if trim(experiment).is_empty() {
            return Err(
                VirtualWallError::Configuration("experiment must be non-empty".to_owned()),
            );
        }
        if names_or_ids.len() == 0 {
            return Ok(None);
        }
        let mut names: Vec<String> = Vec::new();
        let mut i: usize = 0;
        while i < names_or_ids.len()
            invariant
                i <= names_or_ids.len(),
                names@.len() == i,
                forall|j: int| 0 <= j < i ==> (#[trigger] names@[j])@ == names_or_ids@[j]@,
            decreases names_or_ids.len() - i,
        {
            names.push(names_or_ids[i].clone());
            i += 1;
        }
        assert(crate::text::texts(names@) =~= crate::text::texts(names_or_ids@));
        let tail = extend(three_words("destroy", "--experiment", experiment), names);
        Ok(Some(Self::bi_args_from(self.bi_prefix_args(), tail)))
    }

    /// What a command that has ended means: its output, or an error.
    pub fn run_raw(
        args: &Vec<String>,
        success: bool,
        code: Option<i32>,
        stdout: String,
        stderr: String,
    ) -> (r: Result<CommandOutput, VirtualWallError>)
        ensures
            is_command_result(
                r,
                crate::text::texts(args@),
                success,
                code,
                stdout@,
                stderr@,
            ),
    {
        if success {
            return Ok(CommandOutput { stdout, stderr });
        }
        let status: i32 = match code {
            Some(c) => c,
            None => -1,
        };
        Err(VirtualWallError::CliFailure { command: format_command(args), status, stderr })
    }

    /// Whether a failed attempt to show an experiment means that there is none.
    pub fn is_missing_experiment(e: &VirtualWallError) -> (r: bool)
        ensures
            r == (e matches VirtualWallError::CliFailure { status, .. } && *status == 1),
    {
        match e {
            VirtualWallError::CliFailure { status, .. } => *status == 1,
            _ => false,
        }
    }

    /// The experiment after it was created: as the creation has printed it, else as it is shown.
    pub fn created_experiment(
        printed: Option<ExperimentSummary>,
        shown: Option<ExperimentSummary>,
    ) -> (r: Result<ExperimentSummary, VirtualWallError>)
        ensures
            match crate::surroundings::either(printed, shown) {
                Some(e) => r == Ok::<ExperimentSummary, VirtualWallError>(e),
                None => r matches Err(VirtualWallError::CliOutput { command, message }) && command@
                    == "experiment create"@ && message@ == "unable to parse creation output"@,
            },
    {
        match printed {
            Some(e) => Ok(e),
            None => match shown {
                Some(e) => Ok(e),
                None => Err(
                    VirtualWallError::CliOutput {
                        command: "experiment create".to_owned(),
                        message: "unable to parse creation output".to_owned(),
                    },
                ),
            },
        }
    }

    /// The resources of an experiment; what was printed must be a list.
    pub fn listed_resources(printed: Option<Vec<ResourceSummary>>) -> (r: Result<
        Vec<ResourceSummary>,
        VirtualWallError,
    >)
        ensures
            match printed {
                Some(list) => r == Ok::<Vec<ResourceSummary>, VirtualWallError>(list),
                None => r matches Err(VirtualWallError::CliOutput { command, message }) && command@
                    == "experiment list-resources"@ && message@ == "expected array output"@,
            },
    {
        match printed {
            Some(list) => Ok(list),
            None => Err(
                VirtualWallError::CliOutput {
                    command: "experiment list-resources".to_owned(),
                    message: "expected array output".to_owned(),
                },
            ),
        }
    }

    /// A command as it is run. The directory of the tool is put on the search path, so that the
    /// tool finds its parts. Without a directory the search path is left as it is.
    pub fn command_in(&self, args: &Vec<String>, dir: Option<&str>, path: Option<&str>) -> (r:
        PreparedCommand)
        ensures
            r.program@ == self.binary@,
            crate::text::texts(r.args@) == seq!["--no-upgrade-check"@] + crate::text::texts(args@),
            crate::text::opt_text(r.path) == match dir {
                Some(d) => Some(
                    path_with(
                        match path {
                            Some(p) => p@,
                            None => Seq::empty(),
                        },
                        d@,
                    ),
                ),
                None => None,
            },
    {
        let mut all: Vec<String> = one_word("--no-upgrade-check");
        let mut i: usize = 0;
        let ghost given = crate::text::texts(args@);
        assert(seq!["--no-upgrade-check"@] + given.take(0) =~= seq!["--no-upgrade-check"@]);
        while i < args.len()
            invariant
                i <= args.len(),
                given == crate::text::texts(args@),
                crate::text::texts(all@) == seq!["--no-upgrade-check"@] + given.take(i as int),
            decreases args.len() - i,
        {
            let ghost before = crate::text::texts(all@);
            all.push(args[i].clone());
            assert(crate::text::texts(all@) =~= before.push(given[i as int]));
            assert(crate::text::texts(all@) =~= seq!["--no-upgrade-check"@] + given.take(i + 1));
            i += 1;
        }
        assert(given.take(i as int) =~= given);
        let path = match dir {
            Some(d) => {
                let now = match path {
                    Some(p) => p,
                    None => {
                        proof {
                            reveal_strlit("");
                            assert(""@ =~= Seq::<char>::empty());
                        }
                        ""
                    },
                };
                let parts = split(now, ':');
                if crate::text::contains_text(&parts, d) {
                    Some(now.to_owned())
                } else {
                    Some(d.to_owned().concat(":").concat(now))
                }
            },
            None => None,
        };
        PreparedCommand { program: self.binary.clone(), args: all, path }
    }

    /// A command as it is run, given the search path.
    pub fn prepare_command(&self, args: &Vec<String>, path: Option<&str>) -> (r: PreparedCommand)
        ensures
            r.program@ == self.binary@,
            crate::text::texts(r.args@) == seq!["--no-upgrade-check"@] + crate::text::texts(args@),
            crate::text::opt_text(r.path) == match parent_of(self.binary@) {
                Some(d) => Some(
                    path_with(
                        match path {
                            Some(p) => p@,
                            None => Seq::empty(),
                        },
                        d,
                    ),
                ),
                None => None,
            },
    {
        match parent_path(self.binary.as_str()) {
            Some(dir) => self.command_in(args, Some(dir.as_str()), path),
            None => self.command_in(args, None, path),
        }
    }
}

} // verus!
