//! Recorded state of an experiment.

use vstd::prelude::*;

use crate::virtual_wall::slices::BiNetworkInterface;
use crate::virtual_wall::topology::TopologyState;

verus! {

/// A resource of an experiment. `interfaces` are the network interfaces that its metadata names,
/// and `metadata` is the whole document. Times are kept as they were printed.
#[derive(Debug)]
pub struct ResourceRecord {
    pub name: String,
    pub resource_id: Option<String>,
    pub site_id: Option<String>,
    pub addresses: Vec<String>,
    pub hostnames: Vec<String>,
    pub status: Option<String>,
    pub expires_at: Option<String>,
    pub interfaces: Vec<BiNetworkInterface>,
    pub metadata: String,
}

/// What a [`BiNetworkInterface`] says.
#[verifier::ext_equal]
pub struct InterfaceView {
    pub port_id: Option<Seq<char>>,
    pub network_id: Option<Seq<char>>,
    pub addresses: Seq<Seq<char>>,
}

impl View for BiNetworkInterface {
    type V = InterfaceView;

    open spec fn view(&self) -> InterfaceView {
        InterfaceView {
            port_id: crate::text::opt_text(self.port_id),
            network_id: crate::text::opt_text(self.network_id),
            addresses: crate::text::texts(self.addresses@),
        }
    }
}

/// What network interfaces say.
pub open spec fn interface_views(v: Seq<BiNetworkInterface>) -> Seq<InterfaceView> {
    Seq::new(v.len(), |i: int| v[i]@)
}

/// What a [`ResourceRecord`] says.
#[verifier::ext_equal]
pub struct RecordView {
    pub name: Seq<char>,
    pub resource_id: Option<Seq<char>>,
    pub site_id: Option<Seq<char>>,
    pub addresses: Seq<Seq<char>>,
    pub hostnames: Seq<Seq<char>>,
    pub status: Option<Seq<char>>,
    pub expires_at: Option<Seq<char>>,
    pub interfaces: Seq<InterfaceView>,
    pub metadata: Seq<char>,
}

impl View for ResourceRecord {
    type V = RecordView;

    open spec fn view(&self) -> RecordView {
        RecordView {
            name: self.name@,
            resource_id: crate::text::opt_text(self.resource_id),
            site_id: crate::text::opt_text(self.site_id),
            addresses: crate::text::texts(self.addresses@),
            hostnames: crate::text::texts(self.hostnames@),
            status: crate::text::opt_text(self.status),
            expires_at: crate::text::opt_text(self.expires_at),
            interfaces: interface_views(self.interfaces@),
            metadata: self.metadata@,
        }
    }
}

/// What records say.
pub open spec fn record_views(v: Seq<ResourceRecord>) -> Seq<RecordView> {
    Seq::new(v.len(), |i: int| v[i]@)
}

/// The state of an experiment.
#[derive(Debug)]
pub struct VirtualWallState {
    pub last_project: Option<String>,
    pub experiment_name: Option<String>,
    pub experiment_id: Option<String>,
    pub last_known_site: Option<String>,
    pub resources: Vec<ResourceRecord>,
    pub topology: Option<TopologyState>,
    pub created_at: String,
    pub updated_at: String,
}

/// Whether a state records nothing, as of a time.
pub open spec fn is_empty_state(s: VirtualWallState, now: Seq<char>) -> bool {
    &&& s.last_project is None
    &&& s.experiment_name is None
    &&& s.experiment_id is None
    &&& s.last_known_site is None
    &&& s.resources@.len() == 0
    &&& s.topology is None
    &&& s.created_at@ == now
    &&& s.updated_at@ == now
}

impl VirtualWallState {
    /// The state in which nothing is recorded, as of a time.
    pub fn empty(now: &str) -> (r: Self)
        ensures
            is_empty_state(r, now@),
    {
        VirtualWallState {
            last_project: None,
            experiment_name: None,
            experiment_id: None,
            last_known_site: None,
            resources: Vec::new(),
            topology: None,
            created_at: now.to_owned(),
            updated_at: now.to_owned(),
        }
    }
}

/// The state of an experiment, and where it is kept.
#[derive(Debug)]
pub struct StateStore {
    path: String,
    state: VirtualWallState,
}

impl StateStore {
    /// Where the state is kept.
    pub closed spec fn place(self) -> Seq<char> {
        self.path@
    }

    /// The state.
    pub closed spec fn current(self) -> VirtualWallState {
        self.state
    }

    /// The state that was read, or an empty one where there was none.
    pub fn new(path: String, read: Option<VirtualWallState>, now: &str) -> (r: Self)
        ensures
            r.place() == path@,
            match read {
                Some(s) => r.current() == s,
                None => is_empty_state(r.current(), now@),
            },
    {
        let state = match read {
            Some(s) => s,
            None => VirtualWallState::empty(now),
        };
        StateStore { path, state }
    }

    /// The state.
    pub fn get(&self) -> (r: &VirtualWallState)
        ensures
            *r == self.current(),
    {
        &self.state
    }

    /// Records the experiment and its topology.
    pub fn update_topology(
        &mut self,
        experiment_name: String,
        experiment_id: String,
        topology: TopologyState,
        now: &str,
    )
        ensures
            final(self).place() == old(self).place(),
            ({
                let (before, after) = (old(self).current(), final(self).current());
                &&& crate::text::opt_text(after.experiment_name) == Some(experiment_name@)
                &&& crate::text::opt_text(after.experiment_id) == Some(experiment_id@)
                &&& after.topology == Some(topology)
                &&& after.updated_at@ == now@
                &&& after.last_project == before.last_project
                &&& after.last_known_site == before.last_known_site
                &&& after.resources == before.resources
                &&& after.created_at == before.created_at
            }),
    {
        self.state.experiment_name = Some(experiment_name);
        self.state.experiment_id = Some(experiment_id);
        self.state.topology = Some(topology);
        self.state.updated_at = now.to_owned();
    }

    /// Records the experiment and its resources.
    pub fn update(
        &mut self,
        experiment_name: String,
        experiment_id: String,
        project: Option<String>,
        site: Option<String>,
        resources: Vec<ResourceRecord>,
        now: &str,
    )
        ensures
            final(self).place() == old(self).place(),
            ({
                let (before, after) = (old(self).current(), final(self).current());
                &&& crate::text::opt_text(after.experiment_name) == Some(experiment_name@)
                &&& crate::text::opt_text(after.experiment_id) == Some(experiment_id@)
                &&& after.last_project == project
                &&& after.last_known_site == site
                &&& after.resources == resources
                &&& after.updated_at@ == now@
                &&& after.topology == before.topology
                &&& after.created_at == before.created_at
            }),
    {
        self.state.experiment_name = Some(experiment_name);
        self.state.experiment_id = Some(experiment_id);
        self.state.last_project = project;
        self.state.last_known_site = site;
        self.state.resources = resources;
        self.state.updated_at = now.to_owned();
    }

    /// Sets the state.
    pub fn replace(&mut self, new_state: VirtualWallState, now: &str)
        ensures
            final(self).place() == old(self).place(),
            ({
                let after = final(self).current();
                &&& after.updated_at@ == now@
                &&& after == VirtualWallState { updated_at: after.updated_at, ..new_state }
            }),
    {
        self.state = new_state;
        self.state.updated_at = now.to_owned();
    }

    /// Where the state is kept.
    pub fn path(&self) -> (r: &str)
        ensures
            r@ == self.place(),
    {
        self.path.as_str()
    }
}

} // verus!
