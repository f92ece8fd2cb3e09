//! Experiment descriptions.

use vstd::prelude::*;

verus! {

/// Something that happens during an experiment.
#[derive(Debug)]
pub struct Action {
    pub action: String,
    pub action_type: String,
    pub target: Option<String>,
    pub execution_delay: Option<u64>,
    pub connected_node: Option<String>,
    pub bandwidth: Option<String>,
    pub packet_loss: Option<String>,
    pub network_delay: Option<String>,
    pub htb_explicit_limits: Option<bool>,
    pub url: Option<String>,
    pub command: Option<String>,
}

/// Where an experiment runs.
#[derive(Debug, Clone)]
pub struct Environment {
    pub name: String,
    pub number_of_nodes: u32,
    pub number_of_paths: u32,
    pub topology: Option<String>,
    pub geant_cities: Option<String>,
    pub geant_weighted_nexthops: Option<bool>,
    pub geant_hop_weights: Option<String>,
    pub roles: Vec<Role>,
}

/// What a node does in an experiment.
#[derive(Debug, Clone)]
pub struct Role {
    pub role: String,
    pub target: String,
    pub alias: String,
    pub count: Option<u32>,
    pub server_ip: Option<String>,
    pub http_ip: Option<String>,
    pub websocket_ip: Option<String>,
    pub proxy: Option<bool>,
    pub disable_parser: Option<bool>,
    pub visible: Option<bool>,
    pub moq_enable: Option<bool>,
    pub moq_relay: Option<bool>,
    pub moq_namespace: Option<String>,
    pub moq_client: Option<bool>,
}

/// An experiment.
#[derive(Debug, Clone)]
pub struct ExperimentFile {
    pub experiment_name: String,
    pub description: Option<String>,
    pub environment: Environment,
    pub actions: Option<Vec<Action>>,
}

/// A copy of an optional string.
pub fn copy_option(o: &Option<String>) -> (r: Option<String>)
    ensures
        r == *o,
{
    match o {
        Some(s) => Some(s.clone()),
        None => None,
    }
}

impl Clone for Action {
    fn clone(&self) -> (r: Self)
        ensures
            r == *self,
    {
        Action {
            action: self.action.clone(),
            action_type: self.action_type.clone(),
            target: copy_option(&self.target),
            execution_delay: self.execution_delay,
            connected_node: copy_option(&self.connected_node),
            bandwidth: copy_option(&self.bandwidth),
            packet_loss: copy_option(&self.packet_loss),
            network_delay: copy_option(&self.network_delay),
            htb_explicit_limits: self.htb_explicit_limits,
            url: copy_option(&self.url),
            command: copy_option(&self.command),
        }
    }
}

} // verus!
