//! The tunnels that are open, and which of them serve a request.

use vstd::prelude::*;

use crate::text::same;
use crate::virtual_wall_lite::error::VirtualWallError;
use crate::virtual_wall_lite::tunnels::{TunnelInfo, TunnelRequest};

verus! {

/// A tunnel that was opened, and whether it was alive when it was last looked at.
#[derive(Debug)]
pub struct TunnelEntry {
    pub info: TunnelInfo,
    pub alive: bool,
}

/// What a [`TunnelEntry`] says.
#[verifier::ext_equal]
pub struct TunnelEntryView {
    pub info: crate::virtual_wall_lite::tunnels::TunnelInfoView,
    pub alive: bool,
}

impl View for TunnelEntry {
    type V = TunnelEntryView;

    open spec fn view(&self) -> TunnelEntryView {
        TunnelEntryView { info: self.info@, alive: self.alive }
    }
}

/// The tunnels that are open.
#[derive(Debug)]
pub struct TunnelRegistry {
    pub entries: Vec<TunnelEntry>,
}

impl View for TunnelRegistry {
    type V = Seq<TunnelEntryView>;

    open spec fn view(&self) -> Seq<TunnelEntryView> {
        entry_views(self.entries@)
    }
}

/// What entries say.
pub open spec fn entry_views(entries: Seq<TunnelEntry>) -> Seq<TunnelEntryView> {
    Seq::new(entries.len(), |i: int| entries[i]@)
}

/// Whether a tunnel listens where a request wants to listen, for the same user.
pub open spec fn same_binding(
    info: crate::virtual_wall_lite::tunnels::TunnelInfoView,
    node: Seq<char>,
    username: Option<Seq<char>>,
    request: crate::virtual_wall_lite::tunnels::TunnelRequestView,
) -> bool {
    &&& info.node == node
    &&& info.direction == request.direction
    &&& info.listen == request.listen
    &&& info.username == username
}

/// Whether a tunnel is what a request asks for.
pub open spec fn serves(
    info: crate::virtual_wall_lite::tunnels::TunnelInfoView,
    node: Seq<char>,
    username: Option<Seq<char>>,
    request: crate::virtual_wall_lite::tunnels::TunnelRequestView,
) -> bool {
    same_binding(info, node, username, request) && info.target == request.target
}

fn same_user(a: &Option<String>, b: Option<&str>) -> (r: bool)
    ensures
        r == (crate::text::opt_text(*a) == crate::text::opt_str(b)),
{
    match (a, b) {
        (Some(a), Some(b)) => same(a.as_str(), b),
        (None, None) => true,
        _ => false,
    }
}

/// Whether a tunnel listens where a request wants to listen, for the same user.
pub fn tunnel_binding_matches(
    info: &TunnelInfo,
    node_id: &str,
    username: Option<&str>,
    request: &TunnelRequest,
) -> (r: bool)
    ensures
        r == same_binding(info@, node_id@, crate::text::opt_str(username), request@),
{
    same(info.node.as_str(), node_id) && info.direction == request.direction && info.listen.is_same(
        &request.listen,
    ) && same_user(&info.username, username)
}

/// Whether a tunnel is what a request asks for.
pub fn tunnel_matches_request(
    info: &TunnelInfo,
    node_id: &str,
    username: Option<&str>,
    request: &TunnelRequest,
) -> (r: bool)
    ensures
        r == serves(info@, node_id@, crate::text::opt_str(username), request@),
{
    tunnel_binding_matches(info, node_id, username, request) && info.target.is_same(
        &request.target,
    )
}

/// Whether a tunnel is in the way of a request.
pub fn tunnel_conflicts_with_request(
    info: &TunnelInfo,
    node_id: &str,
    username: Option<&str>,
    request: &TunnelRequest,
) -> (r: bool)
    ensures
        r == (same_binding(info@, node_id@, crate::text::opt_str(username), request@)
            && info@.target != request@.target),
{
    tunnel_binding_matches(info, node_id, username, request) && !info.target.is_same(
        &request.target,
    )
}

/// The first tunnel that is alive and is what a request asks for.
pub open spec fn reusable(
    entries: Seq<TunnelEntryView>,
    node: Seq<char>,
    username: Option<Seq<char>>,
    request: crate::virtual_wall_lite::tunnels::TunnelRequestView,
) -> Option<int>
    decreases entries.len(),
{
    if entries.len() == 0 {
        None
    } else {
        match reusable(entries.drop_last(), node, username, request) {
            Some(i) => Some(i),
            None => if entries.last().alive && serves(
                entries.last().info,
                node,
                username,
                request,
            ) {
                Some(entries.len() - 1)
            } else {
                None
            },
        }
    }
}

/// The entries that are chosen by their position, in order.
pub open spec fn chosen(
    entries: Seq<TunnelEntryView>,
    choice: spec_fn(int) -> bool,
) -> Seq<TunnelEntryView>
    decreases entries.len(),
{
    if entries.len() == 0 {
        Seq::empty()
    } else if choice(entries.len() - 1) {
        chosen(entries.drop_last(), choice).push(entries.last())
    } else {
        chosen(entries.drop_last(), choice)
    }
}

/// Whether the entry at a position stays when a request is served.
pub open spec fn stays(
    entries: Seq<TunnelEntryView>,
    node: Seq<char>,
    username: Option<Seq<char>>,
    request: crate::virtual_wall_lite::tunnels::TunnelRequestView,
) -> spec_fn(int) -> bool {
    |i: int|
        !same_binding(entries[i].info, node, username, request) || reusable(
            entries,
            node,
            username,
            request,
        ) == Some(i)
}

/// Whether the entry at a position is closed when a request is served.
pub open spec fn is_closed(
    entries: Seq<TunnelEntryView>,
    node: Seq<char>,
    username: Option<Seq<char>>,
    request: crate::virtual_wall_lite::tunnels::TunnelRequestView,
) -> spec_fn(int) -> bool {
    |i: int|
        same_binding(entries[i].info, node, username, request) && reusable(
            entries,
            node,
            username,
            request,
        ) != Some(i)
}

proof fn reusable_is_first(
    entries: Seq<TunnelEntryView>,
    n: int,
    node: Seq<char>,
    username: Option<Seq<char>>,
    request: crate::virtual_wall_lite::tunnels::TunnelRequestView,
)
    requires
        0 <= n <= entries.len(),
    ensures
        match reusable(entries, node, username, request) {
            Some(i) => {
                &&& 0 <= i < entries.len()
                &&& entries[i].alive
                &&& serves(entries[i].info, node, username, request)
                &&& i < n ==> reusable(entries.take(n), node, username, request) == Some(i)
                &&& i >= n ==> reusable(entries.take(n), node, username, request) is None
            },
            None => reusable(entries.take(n), node, username, request) is None,
        },
    decreases entries.len(),
{
    assert(entries.take(entries.len() as int) =~= entries);
    if entries.len() > 0 && n < entries.len() {
        assert(entries.drop_last().take(n) =~= entries.take(n));
        reusable_is_first(entries.drop_last(), n, node, username, request);
    } else if entries.len() > 0 {
        reusable_is_first(entries.drop_last(), n - 1, node, username, request);
        assert(entries.drop_last().take(n - 1) =~= entries.drop_last());
    }
}

proof fn chosen_come_from(
    entries: Seq<TunnelEntryView>,
    choice: spec_fn(int) -> bool,
    e: TunnelEntryView,
)
    ensures
        chosen(entries, choice).contains(e) <==> exists|i: int|
            0 <= i < entries.len() && #[trigger] entries[i] == e && choice(i),
    decreases entries.len(),
{
    if entries.len() > 0 {
        let front = entries.drop_last();
        chosen_come_from(front, choice, e);
        let before = chosen(front, choice);
        let now = chosen(entries, choice);
        if choice(entries.len() - 1) {
            assert(now == before.push(entries.last()));
            if before.contains(e) {
                let k = before.index_of(e);
                assert(now[k] == e);
            }
            if now.contains(e) && !before.contains(e) {
                let k = now.index_of(e);
                assert(k == before.len()) by {
                    if k < before.len() {
                        assert(before[k] == e);
                    }
                }
                assert(entries[entries.len() - 1] == e);
            }
            if entries.last() == e {
                assert(now[before.len() as int] == e);
            }
        }
        if exists|i: int| 0 <= i < front.len() && #[trigger] front[i] == e && choice(i) {
            let i = choose|i: int| 0 <= i < front.len() && #[trigger] front[i] == e && choice(i);
            assert(entries[i] == e);
        }
        if exists|i: int| 0 <= i < entries.len() && #[trigger] entries[i] == e && choice(i) {
            let i = choose|i: int|
                0 <= i < entries.len() && #[trigger] entries[i] == e && choice(i);
            if i < front.len() {
                assert(front[i] == e);
            }
        }
    }
}

/// Once a request was served, no other tunnel listens where the request's tunnel listens: of the
/// tunnels with its binding only the one that is reused is left.
pub proof fn served_binding_is_unique(
    entries: Seq<TunnelEntryView>,
    node: Seq<char>,
    username: Option<Seq<char>>,
    request: crate::virtual_wall_lite::tunnels::TunnelRequestView,
    e: TunnelEntryView,
)
    requires
        chosen(entries, stays(entries, node, username, request)).contains(e),
        same_binding(e.info, node, username, request),
    ensures
        e.alive,
        serves(e.info, node, username, request),
        reusable(entries, node, username, request) matches Some(i) && 0 <= i < entries.len()
            && entries[i] == e,
{
    let choice = stays(entries, node, username, request);
    chosen_come_from(entries, choice, e);
    let i = choose|i: int| 0 <= i < entries.len() && #[trigger] entries[i] == e && choice(i);
    reusable_is_first(entries, entries.len() as int, node, username, request);
}

/// A tunnel that listens elsewhere stays open when a request is served.
pub proof fn other_bindings_stay(
    entries: Seq<TunnelEntryView>,
    node: Seq<char>,
    username: Option<Seq<char>>,
    request: crate::virtual_wall_lite::tunnels::TunnelRequestView,
    i: int,
)
    requires
        0 <= i < entries.len(),
        !same_binding(entries[i].info, node, username, request),
    ensures
        chosen(entries, stays(entries, node, username, request)).contains(entries[i]),
{
    let choice = stays(entries, node, username, request);
    assert(choice(i));
    chosen_come_from(entries, choice, entries[i]);
}

/// What serving a request from the open tunnels has come to.
#[derive(Debug)]
pub struct Served {
    /// The tunnel that is reused.
    pub reused: Option<TunnelInfo>,
    /// The tunnels that are to be closed.
    pub closed: Vec<TunnelEntry>,
}

/// The entries without those of an identifier.
pub open spec fn without_id(entries: Seq<TunnelEntryView>, id: Seq<char>) -> Seq<TunnelEntryView> {
    chosen(entries, |i: int| entries[i].info.id != id)
}

impl TunnelRegistry {
    /// No tunnels.
    pub fn new() -> (r: Self)
        ensures
            r@ == Seq::<TunnelEntryView>::empty(),
    {
        let r = TunnelRegistry { entries: Vec::new() };
        assert(r@ =~= Seq::<TunnelEntryView>::empty());
        r
    }

    /// Looks for a live tunnel that serves a request, and takes out every other tunnel that
    /// listens where the request wants to listen.
    pub fn reusable_and_conflicting_tunnels_from_guard(
        &mut self,
        node_id: &str,
        username: Option<&str>,
        request: &TunnelRequest,
    ) -> (r: Served)
        ensures
            ({
                let user = crate::text::opt_str(username);
                &&& final(self)@ == chosen(old(self)@, stays(old(self)@, node_id@, user, request@))
                &&& entry_views(r.closed@) == chosen(
                    old(self)@,
                    is_closed(old(self)@, node_id@, user, request@),
                )
                &&& match reusable(old(self)@, node_id@, user, request@) {
                    Some(i) => r.reused matches Some(info) && info@ == old(self)@[i].info,
                    None => r.reused is None,
                }
            }),
    {
        let ghost all = self@;
        let ghost user = crate::text::opt_str(username);
        let ghost stay = stays(all, node_id@, user, request@);
        let ghost close = is_closed(all, node_id@, user, request@);
        let mut entries: Vec<TunnelEntry> = Vec::new();
        std::mem::swap(&mut entries, &mut self.entries);
        let ghost given = entries@;
        let mut kept: Vec<TunnelEntry> = Vec::new();
        let mut closed: Vec<TunnelEntry> = Vec::new();
        let mut reused: Option<TunnelInfo> = None;
        let ghost mut n: int = 0;
        assert(given.skip(0) =~= given);
        assert(all.take(0) =~= Seq::<TunnelEntryView>::empty());
        assert(entry_views(kept@) =~= Seq::<TunnelEntryView>::empty());
        assert(entry_views(closed@) =~= Seq::<TunnelEntryView>::empty());
        while entries.len() > 0
            invariant
                0 <= n <= given.len(),
                all == entry_views(given),
                entries@ == given.skip(n),
                user == crate::text::opt_str(username),
                stay == stays(all, node_id@, user, request@),
                close == is_closed(all, node_id@, user, request@),
                entry_views(kept@) == chosen(all.take(n), stay),
                entry_views(closed@) == chosen(all.take(n), close),
                match reusable(all.take(n), node_id@, user, request@) {
                    Some(i) => 0 <= i < n && (reused matches Some(info) && info@ == all[i].info),
                    None => reused is None,
                },
            decreases entries.len(),
        {
            let entry = entries.remove(0);
            assert(entry == given[n]);
            assert(entries@ =~= given.skip(n + 1));
            assert(all.take(n + 1).drop_last() =~= all.take(n));
            assert(all.take(n + 1).last() == entry@);
            let ghost was_kept = entry_views(kept@);
            let ghost was_closed = entry_views(closed@);
            proof {
                reusable_is_first(all, n, node_id@, user, request@);
                reusable_is_first(all, n + 1, node_id@, user, request@);
            }
            let exact = tunnel_matches_request(&entry.info, node_id, username, request);
            let matching = exact || tunnel_conflicts_with_request(
                &entry.info,
                node_id,
                username,
                request,
            );
            if !matching {
                kept.push(entry);
                assert(entry_views(kept@) =~= was_kept.push(entry@));
            } else if entry.alive && exact && reused.is_none() {
                reused = Some(entry.info.clone());
                kept.push(entry);
                assert(entry_views(kept@) =~= was_kept.push(entry@));
            } else {
                closed.push(entry);
                assert(entry_views(closed@) =~= was_closed.push(entry@));
            }
            proof {
                n = n + 1;
            }
        }
        assert(n == given.len());
        assert(all.take(n) =~= all);
        self.entries = kept;
        Served { reused, closed }
    }

    /// Enters a tunnel; one with the same identifier gives way.
    pub fn insert(&mut self, info: TunnelInfo)
        ensures
            final(self)@ == without_id(old(self)@, info@.id).push(
                (TunnelEntryView { info: info@, alive: true }),
            ),
    {
        let id = info.id.clone();
        let removed = self.take(id.as_str());
        let ghost before = self@;
        let ghost entered = TunnelEntryView { info: info@, alive: true };
        self.entries.push(TunnelEntry { info, alive: true });
        assert(self@ =~= before.push(entered));
    }

    fn take(&mut self, id: &str) -> (r: Vec<TunnelEntry>)
        ensures
            final(self)@ == without_id(old(self)@, id@),
            entry_views(r@) == chosen(old(self)@, |i: int| old(self)@[i].info.id == id@),
    {
        let ghost all = self@;
        let ghost stay = |i: int| all[i].info.id != id@;
        let ghost leave = |i: int| all[i].info.id == id@;
        let mut entries: Vec<TunnelEntry> = Vec::new();
        std::mem::swap(&mut entries, &mut self.entries);
        let ghost given = entries@;
        let mut kept: Vec<TunnelEntry> = Vec::new();
        let mut taken: Vec<TunnelEntry> = Vec::new();
        let ghost mut n: int = 0;
        assert(given.skip(0) =~= given);
        assert(all.take(0) =~= Seq::<TunnelEntryView>::empty());
        assert(entry_views(kept@) =~= Seq::<TunnelEntryView>::empty());
        assert(entry_views(taken@) =~= Seq::<TunnelEntryView>::empty());
        while entries.len() > 0
            invariant
                0 <= n <= given.len(),
                all == entry_views(given),
                entries@ == given.skip(n),
                stay == |i: int| all[i].info.id != id@,
                leave == |i: int| all[i].info.id == id@,
                entry_views(kept@) == chosen(all.take(n), stay),
                entry_views(taken@) == chosen(all.take(n), leave),
            decreases entries.len(),
        {
            let entry = entries.remove(0);
            assert(entries@ =~= given.skip(n + 1));
            assert(all.take(n + 1).drop_last() =~= all.take(n));
            assert(all.take(n + 1).last() == entry@);
            let ghost was_kept = entry_views(kept@);
            let ghost was_taken = entry_views(taken@);
            if same(entry.info.id.as_str(), id) {
                taken.push(entry);
                assert(entry_views(taken@) =~= was_taken.push(entry@));
            } else {
                kept.push(entry);
                assert(entry_views(kept@) =~= was_kept.push(entry@));
            }
            proof {
                n = n + 1;
            }
        }
        assert(all.take(n) =~= all);
        self.entries = kept;
        taken
    }

    /// The tunnels that are alive; those that are not are taken out.
    pub fn list_tunnels(&mut self) -> (r: (Vec<TunnelInfo>, Vec<TunnelEntry>))
        ensures
            final(self)@ == chosen(old(self)@, |i: int| old(self)@[i].alive),
            entry_views(r.1@) == chosen(old(self)@, |i: int| !old(self)@[i].alive),
            r.0@.len() == final(self)@.len(),
            forall|i: int| 0 <= i < r.0@.len() ==> (#[trigger] r.0@[i])@ == final(self)@[i].info,
    {
        let ghost all = self@;
        let ghost stay = |i: int| all[i].alive;
        let ghost leave = |i: int| !all[i].alive;
        let mut entries: Vec<TunnelEntry> = Vec::new();
        std::mem::swap(&mut entries, &mut self.entries);
        let ghost given = entries@;
        let mut kept: Vec<TunnelEntry> = Vec::new();
        let mut expired: Vec<TunnelEntry> = Vec::new();
        let mut out: Vec<TunnelInfo> = Vec::new();
        let ghost mut n: int = 0;
        assert(given.skip(0) =~= given);
        assert(all.take(0) =~= Seq::<TunnelEntryView>::empty());
        assert(entry_views(kept@) =~= Seq::<TunnelEntryView>::empty());
        assert(entry_views(expired@) =~= Seq::<TunnelEntryView>::empty());
        while entries.len() > 0
            invariant
                0 <= n <= given.len(),
                all == entry_views(given),
                entries@ == given.skip(n),
                stay == |i: int| all[i].alive,
                leave == |i: int| !all[i].alive,
                entry_views(kept@) == chosen(all.take(n), stay),
                entry_views(expired@) == chosen(all.take(n), leave),
                out@.len() == kept@.len(),
                forall|i: int| 0 <= i < out@.len() ==> (#[trigger] out@[i])@ == kept@[i].info@,
            decreases entries.len(),
        {
            let entry = entries.remove(0);
            assert(entries@ =~= given.skip(n + 1));
            assert(all.take(n + 1).drop_last() =~= all.take(n));
            assert(all.take(n + 1).last() == entry@);
            let ghost was_kept = entry_views(kept@);
            let ghost was_expired = entry_views(expired@);
            if entry.alive {
                out.push(entry.info.clone());
                kept.push(entry);
                assert(entry_views(kept@) =~= was_kept.push(entry@));
            } else {
                expired.push(entry);
                assert(entry_views(expired@) =~= was_expired.push(entry@));
            }
            proof {
                n = n + 1;
            }
        }
        assert(all.take(n) =~= all);
        self.entries = kept;
        (out, expired)
    }

    /// Takes out the tunnel with an identifier; it is an error if there is none.
    pub fn close_tunnel(&mut self, id: &str) -> (r: Result<Vec<TunnelEntry>, VirtualWallError>)
        ensures
            final(self)@ == without_id(old(self)@, id@),
            ({
                let found = chosen(old(self)@, |i: int| old(self)@[i].info.id == id@);
                match r {
                    Ok(taken) => found.len() > 0 && entry_views(taken@) == found,
                    Err(VirtualWallError::State(m)) => found.len() == 0 && m@ == "Tunnel "@ + id@
                        + " not found"@,
                    Err(_) => false,
                }
            }),
    {
        let taken = self.take(id);
        if taken.len() == 0 {
            return Err(
                VirtualWallError::State("Tunnel ".to_owned().concat(id).concat(" not found")),
            );
        }
        Ok(taken)
    }
}

proof fn chosen_are_the_chosen(
    entries: Seq<TunnelEntryView>,
    choice: spec_fn(int) -> bool,
    e: TunnelEntryView,
)
    ensures
        chosen(entries, choice).contains(e) <==> exists|i: int|
            0 <= i < entries.len() && #[trigger] entries[i] == e && choice(i),
    decreases entries.len(),
{
    if entries.len() > 0 {
        let front = entries.drop_last();
        let some = chosen(front, choice);
        let all = chosen(entries, choice);
        chosen_are_the_chosen(front, choice, e);
        if all.contains(e) {
            let k = choose|k: int| 0 <= k < all.len() && all[k] == e;
            if k < some.len() {
                assert(some[k] == e);
                assert(some.contains(e));
                let i = choose|i: int|
                    0 <= i < front.len() && #[trigger] front[i] == e && choice(i);
                assert(entries[i] == e);
            } else {
                assert(entries[entries.len() - 1] == e);
            }
        }
        if exists|i: int| 0 <= i < entries.len() && #[trigger] entries[i] == e && choice(i) {
            let i = choose|i: int|
                0 <= i < entries.len() && #[trigger] entries[i] == e && choice(i);
            if i < front.len() {
                assert(front[i] == e);
                assert(some.contains(e));
                let k = choose|k: int| 0 <= k < some.len() && some[k] == e;
                assert(all[k] == e);
            } else {
                assert(all[all.len() - 1] == e);
            }
        }
    }
}

/// A tunnel that is open serves a request again where node, direction, both ends and user are the
/// same; of several such tunnels the first one does.
pub proof fn open_tunnels_are_reused(
    entries: Seq<TunnelEntryView>,
    node: Seq<char>,
    username: Option<Seq<char>>,
    request: crate::virtual_wall_lite::tunnels::TunnelRequestView,
    k: int,
)
    requires
        0 <= k < entries.len(),
        entries[k].alive,
        entries[k].info.node == node,
        entries[k].info.username == username,
        entries[k].info.direction == request.direction,
        entries[k].info.listen == request.listen,
        entries[k].info.target == request.target,
    ensures
        reusable(entries, node, username, request) matches Some(i) && 0 <= i <= k,
    decreases entries.len(),
{
    if k < entries.len() - 1 {
        assert(entries.drop_last()[k] == entries[k]);
        open_tunnels_are_reused(entries.drop_last(), node, username, request, k);
    } else if let Some(i) = reusable(entries.drop_last(), node, username, request) {
        only_fitting_tunnels_are_reused(entries.drop_last(), node, username, request);
    }
}

/// A tunnel is reused only where it is open and fits the request in everything.
pub proof fn only_fitting_tunnels_are_reused(
    entries: Seq<TunnelEntryView>,
    node: Seq<char>,
    username: Option<Seq<char>>,
    request: crate::virtual_wall_lite::tunnels::TunnelRequestView,
)
    ensures
        reusable(entries, node, username, request) matches Some(i) ==> {
            &&& 0 <= i < entries.len()
            &&& entries[i].alive
            &&& entries[i].info.node == node
            &&& entries[i].info.username == username
            &&& entries[i].info.direction == request.direction
            &&& entries[i].info.listen == request.listen
            &&& entries[i].info.target == request.target
        },
    decreases entries.len(),
{
    if entries.len() > 0 {
        only_fitting_tunnels_are_reused(entries.drop_last(), node, username, request);
        if let Some(i) = reusable(entries.drop_last(), node, username, request) {
            assert(entries.drop_last()[i] == entries[i]);
        }
    }
}

/// What a request makes close is what listens at the same place for the same user but cannot serve
/// it; a tunnel of another node, user, direction or listening end is not closed.
pub proof fn only_rivals_are_closed(
    entries: Seq<TunnelEntryView>,
    node: Seq<char>,
    username: Option<Seq<char>>,
    request: crate::virtual_wall_lite::tunnels::TunnelRequestView,
    e: TunnelEntryView,
)
    requires
        chosen(entries, is_closed(entries, node, username, request)).contains(e),
    ensures
        entries.contains(e),
        e.info.node == node,
        e.info.username == username,
        e.info.direction == request.direction,
        e.info.listen == request.listen,
{
    let choice = is_closed(entries, node, username, request);
    chosen_are_the_chosen(entries, choice, e);
    let i = choose|i: int| 0 <= i < entries.len() && #[trigger] entries[i] == e && choice(i);
    assert(entries[i] == e);
}

/// A tunnel that listens at the same place for the same user but leads elsewhere is closed.
pub proof fn rivals_are_closed(
    entries: Seq<TunnelEntryView>,
    node: Seq<char>,
    username: Option<Seq<char>>,
    request: crate::virtual_wall_lite::tunnels::TunnelRequestView,
    k: int,
)
    requires
        0 <= k < entries.len(),
        entries[k].info.node == node,
        entries[k].info.username == username,
        entries[k].info.direction == request.direction,
        entries[k].info.listen == request.listen,
        entries[k].info.target != request.target || !entries[k].alive,
    ensures
        chosen(entries, is_closed(entries, node, username, request)).contains(entries[k]),
{
    let choice = is_closed(entries, node, username, request);
    only_fitting_tunnels_are_reused(entries, node, username, request);
    assert(choice(k));
    chosen_are_the_chosen(entries, choice, entries[k]);
}

/// Taking out an identifier takes out what has it and keeps everything else.
pub proof fn other_identifiers_stay(
    entries: Seq<TunnelEntryView>,
    id: Seq<char>,
    e: TunnelEntryView,
)
    ensures
        without_id(entries, id).contains(e) <==> entries.contains(e) && e.info.id != id,
{
    let choice = |i: int| entries[i].info.id != id;
    chosen_are_the_chosen(entries, choice, e);
    if entries.contains(e) && e.info.id != id {
        let i = choose|i: int| 0 <= i < entries.len() && entries[i] == e;
        assert(entries[i] == e && choice(i));
    }
}

} // verus!
