//! SSH tunnels.

use vstd::prelude::*;

use crate::surroundings::copy_opt;
use crate::text::{same, u64_text};

verus! {

/// Direction of a tunnel.
#[derive(Debug, Clone, Copy, PartialEq, Eq, Structural)]
pub enum TunnelDirection {
    /// Listen here and forward to the node.
    Local,
    /// Listen on the node and forward back here.
    Remote,
}

/// One end of a tunnel.
#[derive(Debug)]
pub struct TunnelEndpoint {
    pub host: String,
    pub port: u16,
}

/// What a [`TunnelEndpoint`] says.
#[verifier::ext_equal]
pub struct TunnelEndpointView {
    pub host: Seq<char>,
    pub port: u16,
}

impl View for TunnelEndpoint {
    type V = TunnelEndpointView;

    open spec fn view(&self) -> TunnelEndpointView {
        TunnelEndpointView { host: self.host@, port: self.port }
    }
}

impl Clone for TunnelEndpoint {
    fn clone(&self) -> (r: Self)
        ensures
            r@ == self@,
    {
        TunnelEndpoint { host: self.host.clone(), port: self.port }
    }
}

impl TunnelEndpoint {
    /// Whether two endpoints are the same.
    pub fn is_same(&self, other: &Self) -> (r: bool)
        ensures
            r == (self@ == other@),
    {
        same(self.host.as_str(), other.host.as_str()) && self.port == other.port
    }
}

/// A request to open a tunnel.
#[derive(Debug)]
pub struct TunnelRequest {
    pub node: String,
    pub direction: TunnelDirection,
    pub listen: TunnelEndpoint,
    pub target: TunnelEndpoint,
    pub username: Option<String>,
}

/// What a [`TunnelRequest`] says.
#[verifier::ext_equal]
pub struct TunnelRequestView {
    pub node: Seq<char>,
    pub direction: TunnelDirection,
    pub listen: TunnelEndpointView,
    pub target: TunnelEndpointView,
    pub username: Option<Seq<char>>,
}

impl View for TunnelRequest {
    type V = TunnelRequestView;

    open spec fn view(&self) -> TunnelRequestView {
        TunnelRequestView {
            node: self.node@,
            direction: self.direction,
            listen: self.listen@,
            target: self.target@,
            username: crate::text::opt_text(self.username),
        }
    }
}

/// A tunnel that was opened.
#[derive(Debug)]
pub struct TunnelInfo {
    pub id: String,
    pub node: String,
    pub direction: TunnelDirection,
    pub listen: TunnelEndpoint,
    pub target: TunnelEndpoint,
    pub username: Option<String>,
    pub pid: Option<u32>,
}

/// What a [`TunnelInfo`] says.
#[verifier::ext_equal]
pub struct TunnelInfoView {
    pub id: Seq<char>,
    pub node: Seq<char>,
    pub direction: TunnelDirection,
    pub listen: TunnelEndpointView,
    pub target: TunnelEndpointView,
    pub username: Option<Seq<char>>,
    pub pid: Option<u32>,
}

impl View for TunnelInfo {
    type V = TunnelInfoView;

    open spec fn view(&self) -> TunnelInfoView {
        TunnelInfoView {
            id: self.id@,
            node: self.node@,
            direction: self.direction,
            listen: self.listen@,
            target: self.target@,
            username: crate::text::opt_text(self.username),
            pid: self.pid,
        }
    }
}

impl Clone for TunnelInfo {
    fn clone(&self) -> (r: Self)
        ensures
            r@ == self@,
    {
        TunnelInfo {
            id: self.id.clone(),
            node: self.node.clone(),
            direction: self.direction,
            listen: self.listen.clone(),
            target: self.target.clone(),
            username: copy_opt(&self.username),
            pid: self.pid,
        }
    }
}

/// The option of `ssh` that opens a tunnel in a direction.
pub open spec fn flag_of(direction: TunnelDirection) -> Seq<char> {
    match direction {
        TunnelDirection::Local => "-L"@,
        TunnelDirection::Remote => "-R"@,
    }
}

/// What a tunnel connects, as `ssh` reads it.
pub open spec fn forwarding(listen: TunnelEndpointView, forward_to: TunnelEndpointView) -> Seq<
    char,
> {
    crate::text::trimmed(listen.host) + ":"@ + crate::text::dec(listen.port as nat) + ":"@
        + crate::text::trimmed(forward_to.host) + ":"@ + crate::text::dec(forward_to.port as nat)
}

/// The option of `ssh` that opens a tunnel, and its argument.
pub fn tunnel_flag_and_spec(
    direction: TunnelDirection,
    listen: &TunnelEndpoint,
    forward_to: &TunnelEndpoint,
) -> (r: (&'static str, String))
    ensures
        r.0@ == flag_of(direction),
        r.1@ == forwarding(listen@, forward_to@),
{
    let flag = match direction {
        TunnelDirection::Local => "-L",
        TunnelDirection::Remote => "-R",
    };
    let spec_text = crate::text::trim(listen.host.as_str()).to_owned().concat(":").concat(
        u64_text(listen.port as u64).as_str(),
    ).concat(":").concat(crate::text::trim(forward_to.host.as_str())).concat(":").concat(
        u64_text(forward_to.port as u64).as_str(),
    );
    (flag, spec_text)
}

/// What is forwarded is written as the end that listens, then the end that is aimed at, each as a
/// host and a port; the flag says on which side it listens.
pub proof fn the_listening_end_comes_first(listen: TunnelEndpointView, target: TunnelEndpointView)
    requires
        crate::text::trimmed(listen.host) == listen.host,
        crate::text::trimmed(target.host) == target.host,
    ensures
        crate::text::begins(
            forwarding(listen, target),
            listen.host + ":"@ + crate::text::dec(listen.port as nat) + ":"@,
        ),
        crate::text::ends(
            forwarding(listen, target),
            target.host + ":"@ + crate::text::dec(target.port as nat),
        ),
        flag_of(TunnelDirection::Local) == "-L"@,
        flag_of(TunnelDirection::Remote) == "-R"@,
{
    let f = forwarding(listen, target);
    let head = listen.host + ":"@ + crate::text::dec(listen.port as nat) + ":"@;
    let tail = target.host + ":"@ + crate::text::dec(target.port as nat);
    assert(f =~= head + tail);
    assert(f.subrange(0, head.len() as int) =~= head);
    assert(f.subrange(f.len() - tail.len(), f.len() as int) =~= tail);
}

} // verus!
