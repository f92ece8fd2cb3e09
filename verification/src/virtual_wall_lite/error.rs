//! Errors of the manager for existing experiments.

use vstd::prelude::*;

use crate::text::{debug_text, i64_text, seconds_text};

verus! {

/// What can go wrong. The variants `Io`, `SerdeJson`, `SerdeYaml` and `TomlDe` carry the message
/// of a failure that was reported by the operating system or by a parser.
#[derive(Debug, Clone)]
pub enum VirtualWallError {
    Configuration(String),
    State(String),
    Unsupported(String),
    BinaryNotFound { name: String, path: Option<String> },
    SshFailure { status: i32, stderr: String },
    TunnelSpawn(String),
    Timeout { operation: String, timeout_secs: u64 },
    Io(String),
    SerdeJson(String),
    SerdeYaml(String),
    TomlDe(String),
    Rspec(String),
}

/// The message of an error.
pub open spec fn error_text(e: VirtualWallError) -> Seq<char> {
    match e {
        VirtualWallError::Configuration(m) => "configuration error: "@ + m@,
        VirtualWallError::State(m) => "state error: "@ + m@,
        VirtualWallError::Unsupported(m) => "unsupported operation: "@ + m@,
        VirtualWallError::BinaryNotFound { name, path } => "binary not found: "@ + name@
            + " (searched: "@ + (match path {
            Some(p) => "Some("@ + crate::text::debug_of_text(p@) + ")"@,
            None => "None"@,
        }) + ")"@,
        VirtualWallError::SshFailure { status, stderr } => "ssh command failed with status "@
            + crate::text::dec_int(status as int) + ": "@ + stderr@,
        VirtualWallError::TunnelSpawn(m) => "failed to spawn ssh tunnel: "@ + m@,
        VirtualWallError::Timeout { operation, timeout_secs } => "timeout after "@
            + crate::text::seconds_shown(timeout_secs as nat) + ": "@ + operation@,
        VirtualWallError::Io(m) => m@,
        VirtualWallError::SerdeJson(m) => m@,
        VirtualWallError::SerdeYaml(m) => m@,
        VirtualWallError::TomlDe(m) => m@,
        VirtualWallError::Rspec(m) => "rspec parse error: "@ + m@,
    }
}

impl VirtualWallError {
    /// The message that is shown for the error.
    pub fn message(&self) -> (r: String)
        ensures
            r@ == error_text(*self),
    {
        match self {
            VirtualWallError::Configuration(m) => "configuration error: ".to_owned().concat(
                m.as_str(),
            ),
            VirtualWallError::State(m) => "state error: ".to_owned().concat(m.as_str()),
            VirtualWallError::Unsupported(m) => "unsupported operation: ".to_owned().concat(
                m.as_str(),
            ),
            VirtualWallError::BinaryNotFound { name, path } => {
                let place = match path {
                    Some(p) => "Some(".to_owned().concat(debug_text(p.as_str()).as_str()).concat(
                        ")",
                    ),
                    None => "None".to_owned(),
                };
                "binary not found: ".to_owned().concat(name.as_str()).concat(
                    " (searched: ",
                ).concat(place.as_str()).concat(")")
            },
            VirtualWallError::SshFailure {
                status,
                stderr,
            } => "ssh command failed with status ".to_owned().concat(
                i64_text(*status as i64).as_str(),
            ).concat(": ").concat(stderr.as_str()),
            VirtualWallError::TunnelSpawn(m) => "failed to spawn ssh tunnel: ".to_owned().concat(
                m.as_str(),
            ),
            VirtualWallError::Timeout {
                operation,
                timeout_secs,
            } => "timeout after ".to_owned().concat(seconds_text(*timeout_secs).as_str()).concat(
                ": ",
            ).concat(operation.as_str()),
            VirtualWallError::Io(m) => m.clone(),
            VirtualWallError::SerdeJson(m) => m.clone(),
            VirtualWallError::SerdeYaml(m) => m.clone(),
            VirtualWallError::TomlDe(m) => m.clone(),
            VirtualWallError::Rspec(m) => "rspec parse error: ".to_owned().concat(m.as_str()),
        }
    }
}

} // verus!
