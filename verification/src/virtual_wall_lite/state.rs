//! Recorded state of an experiment.

use vstd::prelude::*;

use crate::virtual_wall_lite::config::JumpProxy;

verus! {

/// What a state file says.
#[derive(Debug)]
pub struct VirtualWallStateLite {
    pub experiment_name: Option<String>,
    pub experiment_id: Option<String>,
    pub resources: Vec<ResourceRecordLite>,
}

/// A recorded resource.
#[derive(Debug)]
pub struct ResourceRecordLite {
    pub name: String,
    pub addresses: Vec<String>,
    pub status: Option<String>,
    pub expires_at: Option<String>,
    pub metadata: Option<ResourceMetadataLite>,
}

/// Details of a recorded resource.
#[derive(Debug)]
pub struct ResourceMetadataLite {
    pub ssh_logins: Vec<SshLoginLite>,
    pub status: Option<String>,
}

/// How to log in on a recorded resource.
#[derive(Debug)]
pub struct SshLoginLite {
    pub host: String,
    pub port: u16,
    pub username: Option<String>,
    pub jump_proxy: Option<JumpProxy>,
}

} // verus!
