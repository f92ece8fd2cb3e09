//! Errors of the Virtual Wall manager.

use vstd::prelude::*;

use crate::text::{debug_text, i64_text, seconds_text};

verus! {

/// What can go wrong while managing an experiment. The variants below `CliOutput` carry the
/// message of a failure that was reported by the operating system or by a parser.
#[derive(Debug, Clone)]
pub enum VirtualWallError {
    Configuration(String),
    State(String),
    Internal(String),
    CliNotFound(String),
    CliFailure { command: String, status: i32, stderr: String },
    CliOutput { command: String, message: String },
    Io(String),
    SerdeJson(String),
    SerdeYaml(String),
    TomlDe(String),
    ChronoParse(String),
    Timeout { operation: String, timeout_secs: u64 },
}

/// The message of an error.
pub open spec fn error_text(e: VirtualWallError) -> Seq<char> {
    match e {
        VirtualWallError::Configuration(m) => "configuration error: "@ + m@,
        VirtualWallError::State(m) => "state error: "@ + m@,
        VirtualWallError::Internal(m) => "internal error: "@ + m@,
        VirtualWallError::CliNotFound(path) => "slices CLI binary not found (expected at "@
            + crate::text::debug_of_text(path@) + ")"@,
        VirtualWallError::CliFailure { command, status, stderr } => "slices CLI command `"@
            + command@ + "` failed with status "@ + crate::text::dec_int(status as int) + ": "@
            + stderr@,
        VirtualWallError::CliOutput { command, message } => "invalid CLI output for `"@ + command@
            + "`: "@ + message@,
        VirtualWallError::Io(m) => m@,
        VirtualWallError::SerdeJson(m) => m@,
        VirtualWallError::SerdeYaml(m) => m@,
        VirtualWallError::TomlDe(m) => m@,
        VirtualWallError::ChronoParse(m) => m@,
        VirtualWallError::Timeout { operation, timeout_secs } => "timeout after "@
            + crate::text::seconds_shown(timeout_secs as nat) + ": "@ + operation@,
    }
}

impl VirtualWallError {
    /// The message that is shown for the error.
    pub fn message(&self) -> (r: String)
        ensures
            r@ == error_text(*self),
    {
        match self {
            VirtualWallError::Configuration(m) => "configuration error: ".to_owned().concat(
                m.as_str(),
            ),
            VirtualWallError::State(m) => "state error: ".to_owned().concat(m.as_str()),
            VirtualWallError::Internal(m) => "internal error: ".to_owned().concat(m.as_str()),
            VirtualWallError::CliNotFound(
                path,
            ) => "slices CLI binary not found (expected at ".to_owned().concat(
                debug_text(path.as_str()).as_str(),
            ).concat(")"),
            VirtualWallError::CliFailure {
                command,
                status,
                stderr,
            } => "slices CLI command `".to_owned().concat(command.as_str()).concat(
                "` failed with status ",
            ).concat(i64_text(*status as i64).as_str()).concat(": ").concat(stderr.as_str()),
            VirtualWallError::CliOutput {
                command,
                message,
            } => "invalid CLI output for `".to_owned().concat(command.as_str()).concat(
                "`: ",
            ).concat(message.as_str()),
            VirtualWallError::Io(m) => m.clone(),
            VirtualWallError::SerdeJson(m) => m.clone(),
            VirtualWallError::SerdeYaml(m) => m.clone(),
            VirtualWallError::TomlDe(m) => m.clone(),
            VirtualWallError::ChronoParse(m) => m.clone(),
            VirtualWallError::Timeout {
                operation,
                timeout_secs,
            } => "timeout after ".to_owned().concat(seconds_text(*timeout_secs).as_str()).concat(
                ": ",
            ).concat(operation.as_str()),
        }
    }
}

} // verus!
