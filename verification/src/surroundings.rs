//! What a process finds around it: environment variables, directories and files.

use vstd::prelude::*;

use crate::string_map::StringMap;
use crate::text::{chars, contains_text, trim};

verus! {

/// The environment of a process. Paths use slashes.
pub struct Surroundings {
    /// Environment variables.
    pub env: StringMap<String>,
    /// The working directory.
    pub cwd: Option<String>,
    /// The home directory of the user.
    pub home: Option<String>,
    /// The configuration directory of the user.
    pub config_dir: Option<String>,
    /// Where the wanted binary was found on the search path.
    pub found_binary: Option<String>,
    /// Paths that are known to exist.
    pub existing: Vec<String>,
}

/// The value of an environment variable.
pub open spec fn var(s: Surroundings, key: Seq<char>) -> Option<Seq<char>> {
    if s.env@.dom().contains(key) {
        Some(s.env@[key]@)
    } else {
        None
    }
}

/// A text without surrounding white space, unless nothing is left of it.
pub open spec fn nonblank(v: Option<Seq<char>>) -> Option<Seq<char>> {
    match v {
        Some(t) if crate::text::trimmed(t).len() > 0 => Some(crate::text::trimmed(t)),
        _ => None,
    }
}

/// A text as it is, unless it is blank.
pub open spec fn unless_blank(v: Option<Seq<char>>) -> Option<Seq<char>> {
    match v {
        Some(t) if crate::text::trimmed(t).len() > 0 => Some(t),
        _ => None,
    }
}

/// The first value, else the second.
pub open spec fn either<T>(a: Option<T>, b: Option<T>) -> Option<T> {
    match a {
        Some(_) => a,
        None => b,
    }
}

/// Whether a path is absolute.
pub open spec fn is_absolute(path: Seq<char>) -> bool {
    path.len() > 0 && path[0] == '/'
}

/// A path below a directory; an absolute path stands for itself.
pub open spec fn joined_path(base: Seq<char>, path: Seq<char>) -> Seq<char> {
    if is_absolute(path) {
        path
    } else if base.len() == 0 || base.last() == '/' {
        base + path
    } else {
        base + "/"@ + path
    }
}

/// Whether a path is known to exist.
pub open spec fn exists_path(s: Surroundings, path: Seq<char>) -> bool {
    crate::text::texts(s.existing@).contains(path)
}

/// Whether a path is absolute.
pub fn is_absolute_path(path: &str) -> (r: bool)
    ensures
        r == is_absolute(path@),
{
    let x = chars(path);
    x.len() > 0 && x[0] == '/'
}

/// A path below a directory; an absolute path stands for itself.
pub fn join_path(base: &str, path: &str) -> (r: String)
    ensures
        r@ == joined_path(base@, path@),
{
    if is_absolute_path(path) {
        return path.to_owned();
    }
    let x = chars(base);
    if x.len() == 0 || x[x.len() - 1] == '/' {
        base.to_owned().concat(path)
    } else {
        base.to_owned().concat("/").concat(path)
    }
}

/// A copy of an optional string, by its text.
pub fn copy_opt(o: &Option<String>) -> (r: Option<String>)
    ensures
        crate::text::opt_text(r) == crate::text::opt_text(*o),
{
    match o {
        Some(s) => Some(s.clone()),
        None => None,
    }
}

/// The first value, else the second.
pub fn first_of(a: Option<String>, b: Option<String>) -> (r: Option<String>)
    ensures
        crate::text::opt_text(r) == either(crate::text::opt_text(a), crate::text::opt_text(b)),
{
    match a {
        Some(s) => Some(s),
        None => b,
    }
}

/// A path as it is, unless it is blank.
pub fn opt_path_nonempty(p: &Option<String>) -> (r: Option<String>)
    ensures
        crate::text::opt_text(r) == unless_blank(crate::text::opt_text(*p)),
{
    match p {
        Some(s) => if trim(s.as_str()).is_empty() {
            None
        } else {
            Some(s.clone())
        },
        None => None,
    }
}

impl Surroundings {
    /// The value of an environment variable.
    pub fn env_var(&self, key: &str) -> (r: Option<String>)
        ensures
            crate::text::opt_text(r) == var(*self, key@),
    {
        match self.env.get(key) {
            Some(v) => Some(v.clone()),
            None => None,
        }
    }

    /// The value of an environment variable without surrounding white space; blank values count
    /// as missing.
    pub fn env_nonempty(&self, key: &str) -> (r: Option<String>)
        ensures
            crate::text::opt_text(r) == nonblank(var(*self, key@)),
    {
        match self.env.get(key) {
            Some(v) => {
                let t = trim(v.as_str());
                if t.is_empty() {
                    None
                } else {
                    Some(t.to_owned())
                }
            },
            None => None,
        }
    }

    /// The value of an environment variable as a path; blank values count as missing.
    pub fn env_path_nonempty(&self, key: &str) -> (r: Option<String>)
        ensures
            crate::text::opt_text(r) == nonblank(var(*self, key@)),
    {
        self.env_nonempty(key)
    }

    /// Whether a path is known to exist.
    pub fn path_exists(&self, path: &str) -> (r: bool)
        ensures
            r == exists_path(*self, path@),
    {
        contains_text(&self.existing, path)
    }
}

/// How a file is encoded.
#[derive(Debug, Clone, Copy, PartialEq, Eq, Structural)]
pub enum FileFormat {
    Yaml,
    Json,
    Toml,
}

/// The encoding that a file extension stands for.
pub open spec fn format_of(extension: Option<Seq<char>>) -> FileFormat {
    if extension == Some("yaml"@) || extension == Some("yml"@) {
        FileFormat::Yaml
    } else if extension == Some("json"@) {
        FileFormat::Json
    } else {
        FileFormat::Toml
    }
}

/// The encoding that a file extension stands for; without a known one it is TOML.
pub fn file_format(extension: Option<&str>) -> (r: FileFormat)
    ensures
        r == format_of(
            match extension {
                Some(e) => Some(e@),
                None => None,
            },
        ),
{
    match extension {
        Some(e) => if crate::text::same(e, "yaml") || crate::text::same(e, "yml") {
            FileFormat::Yaml
        } else if crate::text::same(e, "json") {
            FileFormat::Json
        } else {
            FileFormat::Toml
        },
        None => FileFormat::Toml,
    }
}

/// The path that a user gave, with a leading tilde replaced by the home directory.
pub open spec fn without_tilde(home: Option<Seq<char>>, path: Seq<char>) -> Seq<char> {
    match home {
        Some(h) => if path == "~"@ {
            h
        } else if crate::text::begins(path, "~/"@) {
            joined_path(h, path.skip("~/"@.len() as int))
        } else {
            path
        },
        None => path,
    }
}

/// Replaces a leading tilde by the home directory.
pub fn expand_tilde(home: &Option<String>, path: &str) -> (r: String)
    ensures
        r@ == without_tilde(crate::text::opt_text(*home), path@),
{
    if let Some(h) = home {
        if crate::text::same(path, "~") {
            return h.clone();
        }
        if let Some(rest) = crate::text::without_prefix(path, "~/") {
            return join_path(h.as_str(), rest);
        }
    }
    path.to_owned()
}

/// A path that a user gave, below a directory unless it is absolute.
pub open spec fn resolved_path(
    base: Seq<char>,
    home: Option<Seq<char>>,
    path: Seq<char>,
) -> Seq<char> {
    joined_path(base, without_tilde(home, path))
}

/// Places a path that a user gave below a directory, unless it is absolute.
pub fn resolve_relative(base: &str, home: &Option<String>, path: &str) -> (r: String)
    ensures
        r@ == resolved_path(base@, crate::text::opt_text(*home), path@),
{
    join_path(base, expand_tilde(home, path).as_str())
}

/// Joining a path to a directory gives an absolute path if one of them is absolute.
pub proof fn joining_keeps_absolute(base: Seq<char>, path: Seq<char>)
    requires
        is_absolute(base) || is_absolute(path),
    ensures
        is_absolute(joined_path(base, path)),
{
}

/// A relative path is taken from its base; an absolute one stands for itself.
pub proof fn relative_paths_are_taken_from_their_base(base: Seq<char>, path: Seq<char>)
    requires
        base.len() > 0,
        base.last() != '/',
    ensures
        path.len() > 0 && path[0] == '/' ==> joined_path(base, path) == path,
        path.len() > 0 && path[0] != '/' ==> joined_path(base, path) == base + "/"@ + path,
        path.len() > 0 && path[0] != '/' ==> joined_path(base.push('/'), path) == base + "/"@
            + path,
{
    reveal_strlit("/");
    assert(base.push('/') =~= base + "/"@);
}

/// A tilde at the start of a path stands for the home directory, and for nothing anywhere else.
pub proof fn a_leading_tilde_is_the_home(home: Seq<char>, rest: Seq<char>)
    ensures
        without_tilde(Some(home), "~"@) == home,
        without_tilde(Some(home), "~/"@ + rest) == joined_path(home, rest),
        rest.len() > 0 && rest[0] != '~' ==> without_tilde(Some(home), rest) == rest,
        without_tilde(None, rest) == rest,
{
    reveal_strlit("~");
    reveal_strlit("~/");
    let path = "~/"@ + rest;
    assert(path.subrange(0, 2) =~= "~/"@);
    assert(path.skip(2) =~= rest);
    assert(path.len() >= 2 && "~"@.len() == 1);
    if rest.len() > 0 && rest[0] != '~' {
        if crate::text::begins(rest, "~/"@) {
            assert(rest.subrange(0, 2)[0] == '~');
        }
        assert("~"@[0] == '~');
    }
}

/// A variable counts where it holds something else than white space, without that around it.
pub proof fn blank_variables_do_not_count(s: Surroundings, key: Seq<char>)
    ensures
        nonblank(var(s, key)) is Some <==> s.env@.dom().contains(key) && exists|i: int|
            0 <= i < s.env@[key]@.len() && !crate::text::is_white(#[trigger] s.env@[key]@[i]),
        nonblank(var(s, key)) matches Some(v) ==> crate::text::holds(s.env@[key]@, v)
            && v.len() > 0 && !crate::text::is_white(v[0]) && !crate::text::is_white(v.last()),
{
    if s.env@.dom().contains(key) {
        let t = s.env@[key]@;
        crate::text::trimming_takes_white_space_alone(t);
        let (i, j) = choose|i: int, j: int|
            0 <= i <= j <= t.len() && crate::text::trimmed(t) == #[trigger] t.subrange(i, j) && (
            forall|k: int|
                (0 <= k < i || j <= k < t.len()) ==> crate::text::is_white(#[trigger] t[k]));
        assert(crate::text::occurs_at(t, crate::text::trimmed(t), i));
    }
}

/// A value that holds more than white space counts as it is.
pub proof fn blank_values_do_not_count(t: Seq<char>)
    ensures
        unless_blank(Some(t)) is Some <==> exists|i: int|
            0 <= i < t.len() && !crate::text::is_white(#[trigger] t[i]),
        unless_blank(Some(t)) matches Some(v) ==> v == t,
        unless_blank(None) is None,
{
    crate::text::trimming_takes_white_space_alone(t);
}

/// A file is read as its extension says, and as TOML without one that is known.
pub proof fn files_are_read_as_their_extension_says(extension: Seq<char>)
    ensures
        extension == "yaml"@ || extension == "yml"@ <==> format_of(Some(extension))
            == FileFormat::Yaml,
        extension == "json"@ <==> format_of(Some(extension)) == FileFormat::Json,
        format_of(None) == FileFormat::Toml,
{
    reveal_strlit("yaml");
    reveal_strlit("yml");
    reveal_strlit("json");
    assert("yaml"@[0] == 'y' && "yml"@[0] == 'y' && "json"@[0] == 'j');
}

} // verus!
