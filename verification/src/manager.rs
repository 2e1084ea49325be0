//! The tunnels that are running, each under the id of its connection.

use crate::endpoint::{ProxyEndpoint, ProxyType, ProxyView, RemoteEndpoint, RemoteView};
use crate::text;
use crate::wire;
use vstd::prelude::*;

verus! {

/// A running tunnel: what it takes to stop it, and the local port that it
/// listens on.
struct Tunnel<H> {
    connection_id: String,
    handle: H,
    port: u16,
}

/// Keeps the running tunnels. There is one at most for each connection id.
///
/// `H` is what a tunnel is stopped by. The manager keeps it while the tunnel
/// runs and hands it back when the tunnel is to be stopped.
pub struct ProxyTunnelManager<H> {
    tunnels: Vec<Tunnel<H>>,
}

/// The tunnels in `entries`, by connection id.
spec fn tunnels_in<H>(entries: Seq<Tunnel<H>>) -> Map<Seq<char>, (H, u16)>
    decreases entries.len(),
{
    if entries.len() == 0 {
        Map::empty()
    } else {
        let last = entries.last();
        tunnels_in(entries.drop_last()).insert(last.connection_id@, (last.handle, last.port))
    }
}

/// Whether no connection id occurs twice.
spec fn are_distinct<H>(entries: Seq<Tunnel<H>>) -> bool {
    forall|i: int, j: int|
        0 <= i < j < entries.len() ==> (#[trigger] entries[i]).connection_id@ != (
        #[trigger] entries[j]).connection_id@
}

impl<H> View for ProxyTunnelManager<H> {
    type V = Map<Seq<char>, (H, u16)>;

    closed spec fn view(&self) -> Map<Seq<char>, (H, u16)> {
        tunnels_in(self.tunnels@)
    }
}

proof fn lemma_tunnels_in<H>(entries: Seq<Tunnel<H>>)
    requires
        are_distinct(entries),
    ensures
        forall|i: int|
            0 <= i < entries.len() ==> {
                let id = (#[trigger] entries[i]).connection_id@;
                &&& tunnels_in(entries).contains_key(id)
                &&& tunnels_in(entries)[id] == (entries[i].handle, entries[i].port)
            },
        forall|id: Seq<char>| #[trigger]
            tunnels_in(entries).contains_key(id) ==> exists|i: int|
                0 <= i < entries.len() && (#[trigger] entries[i]).connection_id@ == id,
    decreases entries.len(),
{
    if entries.len() > 0 {
        let front = entries.drop_last();
        assert(are_distinct(front));
        lemma_tunnels_in(front);
        assert forall|i: int| 0 <= i < entries.len() implies {
            let id = (#[trigger] entries[i]).connection_id@;
            &&& tunnels_in(entries).contains_key(id)
            &&& tunnels_in(entries)[id] == (entries[i].handle, entries[i].port)
        } by {
            if i < front.len() {
                assert(front[i] == entries[i]);
            }
        }
        assert forall|id: Seq<char>| #[trigger]
            tunnels_in(entries).contains_key(id) implies exists|i: int|
            0 <= i < entries.len() && (#[trigger] entries[i]).connection_id@ == id by {
            if id == entries.last().connection_id@ {
                assert(entries[entries.len() - 1].connection_id@ == id);
            } else {
                assert(tunnels_in(front).contains_key(id));
                let i = choose|i: int|
                    0 <= i < front.len() && (#[trigger] front[i]).connection_id@ == id;
                assert(entries[i].connection_id@ == id);
            }
        }
    }
}

proof fn lemma_remove<H>(entries: Seq<Tunnel<H>>, at: int)
    requires
        are_distinct(entries),
        0 <= at < entries.len(),
    ensures
        are_distinct(entries.remove(at)),
        tunnels_in(entries.remove(at)) == tunnels_in(entries).remove(entries[at].connection_id@),
{
    let rest = entries.remove(at);
    let gone = entries[at].connection_id@;
    assert forall|i: int, j: int| 0 <= i < j < rest.len() implies (#[trigger] rest[i]).connection_id@
        != (#[trigger] rest[j]).connection_id@ by {
        let p = if i < at { i } else { i + 1 };
        let q = if j < at { j } else { j + 1 };
        assert(rest[i] == entries[p] && rest[j] == entries[q]);
    }
    lemma_tunnels_in(entries);
    lemma_tunnels_in(rest);
    let less = tunnels_in(entries).remove(gone);
    assert forall|id: Seq<char>| #[trigger]
        tunnels_in(rest).contains_key(id) <==> less.contains_key(id) by {
        if tunnels_in(rest).contains_key(id) {
            let i = choose|i: int| 0 <= i < rest.len() && (#[trigger] rest[i]).connection_id@ == id;
            let p = if i < at { i } else { i + 1 };
            assert(rest[i] == entries[p]);
        }
        if less.contains_key(id) {
            let p = choose|p: int|
                0 <= p < entries.len() && (#[trigger] entries[p]).connection_id@ == id;
            let i = if p < at { p } else { p - 1 };
            assert(rest[i] == entries[p]);
        }
    }
    assert forall|id: Seq<char>| #[trigger] less.contains_key(id) implies tunnels_in(rest)[id]
        == less[id] by {
        assert(tunnels_in(rest).contains_key(id));
        let i = choose|i: int| 0 <= i < rest.len() && (#[trigger] rest[i]).connection_id@ == id;
        let p = if i < at { i } else { i + 1 };
        assert(rest[i] == entries[p]);
    }
    assert(tunnels_in(rest) =~= less);
}

/// The port of the tunnel for `id`, if one is running.
pub open spec fn port_of<H>(tunnels: Map<Seq<char>, (H, u16)>, id: Seq<char>) -> Option<u16> {
    if tunnels.contains_key(id) {
        Some(tunnels[id].1)
    } else {
        None
    }
}

/// Stopping the tunnel for `id`: the tunnels that are left, and what stops the
/// one that goes.
pub open spec fn stop_step<H>(tunnels: Map<Seq<char>, (H, u16)>, id: Seq<char>) -> (
    Map<Seq<char>, (H, u16)>,
    Option<H>,
) {
    if tunnels.contains_key(id) {
        (tunnels.remove(id), Some(tunnels[id].0))
    } else {
        (tunnels, None)
    }
}

/// What is left of `tunnels` without those whose id begins with `prefix`.
pub open spec fn without_prefix<H>(
    tunnels: Map<Seq<char>, (H, u16)>,
    prefix: Seq<char>,
) -> Map<Seq<char>, (H, u16)> {
    tunnels.restrict(Set::new(|id: Seq<char>| !prefix.is_prefix_of(id)))
}

/// Whether `stopped` lists each of `tunnels` whose id begins with `prefix`, once
/// and with its handle, and no other.
pub open spec fn lists_stopped<H>(
    stopped: Seq<(String, H)>,
    tunnels: Map<Seq<char>, (H, u16)>,
    prefix: Seq<char>,
) -> bool {
    &&& forall|i: int|
        0 <= i < stopped.len() ==> {
            let id = (#[trigger] stopped[i]).0@;
            &&& tunnels.contains_key(id)
            &&& prefix.is_prefix_of(id)
            &&& stopped[i].1 == tunnels[id].0
        }
    &&& forall|i: int, j: int|
        0 <= i < j < stopped.len() ==> (#[trigger] stopped[i]).0@ != (#[trigger] stopped[j]).0@
    &&& forall|id: Seq<char>| #[trigger]
        tunnels.contains_key(id) && prefix.is_prefix_of(id) ==> exists|i: int|
            0 <= i < stopped.len() && (#[trigger] stopped[i]).0@ == id
}

impl<H> ProxyTunnelManager<H> {
    #[verifier::type_invariant]
    spec fn is_valid(self) -> bool {
        are_distinct(self.tunnels@)
    }

    /// A manager with no tunnel running.
    pub fn new() -> (manager: Self)
        ensures
            manager@ == Map::<Seq<char>, (H, u16)>::empty(),
    {
        ProxyTunnelManager { tunnels: Vec::new() }
    }

    fn find(&self, connection_id: &str) -> (at: Option<usize>)
        ensures
            match at {
                Some(at) => {
                    &&& at < self.tunnels@.len()
                    &&& self.tunnels@[at as int].connection_id@ == connection_id@
                    &&& self@.contains_key(connection_id@)
                    &&& self@[connection_id@] == (
                        self.tunnels@[at as int].handle,
                        self.tunnels@[at as int].port,
                    )
                },
                None => !self@.contains_key(connection_id@),
            },
    {
        proof {
            use_type_invariant(self);
            lemma_tunnels_in(self.tunnels@);
        }
        let wanted = connection_id.to_owned();
        let mut i: usize = 0;
        while i < self.tunnels.len()
            invariant
                0 <= i <= self.tunnels@.len(),
                wanted@ == connection_id@,
                forall|k: int|
                    0 <= k < i ==> (#[trigger] self.tunnels@[k]).connection_id@ != connection_id@,
                forall|k: int|
                    0 <= k < self.tunnels@.len() ==> {
                        let id = (#[trigger] self.tunnels@[k]).connection_id@;
                        &&& self@.contains_key(id)
                        &&& self@[id] == (self.tunnels@[k].handle, self.tunnels@[k].port)
                    },
            decreases self.tunnels@.len() - i,
        {
            if self.tunnels[i].connection_id == wanted {
                return Some(i);
            }
            i = i + 1;
        }
        None
    }

    /// The local port of the tunnel for `connection_id`, if one is running.
    pub fn local_port(&self, connection_id: &str) -> (port: Option<u16>)
        ensures
            port == port_of(self@, connection_id@),
    {
        match self.find(connection_id) {
            Some(at) => Some(self.tunnels[at].port),
            None => None,
        }
    }

    /// Forgets the tunnel for `connection_id` and hands back what stops it, if
    /// one is running.
    pub fn stop_tunnel(&mut self, connection_id: &str) -> (handle: Option<H>)
        ensures
            final(self)@ == old(self)@.remove(connection_id@),
            handle == if old(self)@.contains_key(connection_id@) {
                Some(old(self)@[connection_id@].0)
            } else {
                None
            },
            (final(self)@, handle) == stop_step(old(self)@, connection_id@),
    {
        proof {
            use_type_invariant(&*self);
        }
        match self.find(connection_id) {
            Some(at) => {
                let mut tunnels: Vec<Tunnel<H>> = Vec::new();
                std::mem::swap(&mut tunnels, &mut self.tunnels);
                proof {
                    lemma_remove(tunnels@, at as int);
                }
                let tunnel = tunnels.remove(at);
                self.tunnels = tunnels;
                Some(tunnel.handle)
            },
            None => {
                assert(self@.remove(connection_id@) =~= self@);
                None
            },
        }
    }

    /// Forgets the tunnels whose connection id begins with
    /// `connection_id_prefix` and hands back what stops each of them.
    pub fn stop_tunnels_with_prefix(&mut self, connection_id_prefix: &str) -> (stopped: Vec<
        (String, H),
    >)
        ensures
            final(self)@ == without_prefix(old(self)@, connection_id_prefix@),
            lists_stopped(stopped@, old(self)@, connection_id_prefix@),
    {
        proof {
            use_type_invariant(&*self);
        }
        let ghost before = self@;
        let ghost prefix = connection_id_prefix@;
        let mut tunnels: Vec<Tunnel<H>> = Vec::new();
        std::mem::swap(&mut tunnels, &mut self.tunnels);
        let mut stopped: Vec<(String, H)> = Vec::new();
        let mut i: usize = 0;
        while i < tunnels.len()
            invariant
                prefix == connection_id_prefix@,
                0 <= i <= tunnels@.len(),
                are_distinct(tunnels@),
                tunnels_in(tunnels@).submap_of(before),
                forall|k: int|
                    0 <= k < i ==> !prefix.is_prefix_of(
                        (#[trigger] tunnels@[k]).connection_id@,
                    ),
                forall|k: int|
                    0 <= k < stopped@.len() ==> {
                        let id = (#[trigger] stopped@[k]).0@;
                        &&& before.contains_key(id)
                        &&& !tunnels_in(tunnels@).contains_key(id)
                        &&& prefix.is_prefix_of(id)
                        &&& stopped@[k].1 == before[id].0
                    },
                forall|k: int, l: int|
                    0 <= k < l < stopped@.len() ==> (#[trigger] stopped@[k]).0@ != (
                    #[trigger] stopped@[l]).0@,
                forall|id: Seq<char>| #[trigger]
                    before.contains_key(id) && !tunnels_in(tunnels@).contains_key(id)
                        ==> exists|k: int|
                        0 <= k < stopped@.len() && (#[trigger] stopped@[k]).0@ == id,
            decreases tunnels@.len() - i,
        {
            proof {
                lemma_tunnels_in(tunnels@);
            }
            if text::starts_with(tunnels[i].connection_id.as_str(), connection_id_prefix) {
                proof {
                    lemma_remove(tunnels@, i as int);
                }
                let ghost earlier = tunnels@;
                let ghost listed = stopped@;
                let tunnel = tunnels.remove(i);
                let ghost gone = tunnel.connection_id@;
                stopped.push((tunnel.connection_id, tunnel.handle));
                proof {
                    assert(stopped@[listed.len() as int].0@ == gone);
                    assert(tunnel == earlier[i as int]);
                    assert(tunnels_in(earlier).contains_key(gone));
                    assert(tunnels_in(earlier)[gone] == (tunnel.handle, tunnel.port));
                    assert(before.contains_key(gone));
                    assert forall|k: int| 0 <= k < stopped@.len() implies {
                        let id = (#[trigger] stopped@[k]).0@;
                        &&& before.contains_key(id)
                        &&& !tunnels_in(tunnels@).contains_key(id)
                        &&& prefix.is_prefix_of(id)
                        &&& stopped@[k].1 == before[id].0
                    } by {
                        if k < listed.len() {
                            assert(stopped@[k] == listed[k]);
                        }
                    }
                    assert forall|k: int| 0 <= k < i implies !prefix.is_prefix_of(
                        (#[trigger] tunnels@[k]).connection_id@,
                    ) by {
                        assert(tunnels@[k] == earlier[k]);
                    }
                    assert forall|id: Seq<char>| #[trigger]
                        before.contains_key(id) && !tunnels_in(tunnels@).contains_key(
                            id,
                        ) implies exists|k: int|
                        0 <= k < stopped@.len() && (#[trigger] stopped@[k]).0@ == id by {
                        if id != gone {
                            assert(!tunnels_in(earlier).contains_key(id));
                            let k = choose|k: int|
                                0 <= k < listed.len() && (#[trigger] listed[k]).0@ == id;
                            assert(stopped@[k] == listed[k]);
                        }
                    }
                }
            } else {
                i = i + 1;
            }
        }
        proof {
            lemma_tunnels_in(tunnels@);
            let after = tunnels_in(tunnels@);
            let kept = without_prefix(before, prefix);
            assert forall|id: Seq<char>| #[trigger] after.contains_key(id) <==> kept.contains_key(
                id,
            ) by {
                if kept.contains_key(id) && !after.contains_key(id) {
                    let k = choose|k: int|
                        0 <= k < stopped@.len() && (#[trigger] stopped@[k]).0@ == id;
                    assert(prefix.is_prefix_of(stopped@[k].0@));
                }
            }
            assert(after =~= kept);
            assert forall|id: Seq<char>| #[trigger]
                before.contains_key(id) && prefix.is_prefix_of(id) implies exists|k: int|
                0 <= k < stopped@.len() && (#[trigger] stopped@[k]).0@ == id by {
                assert(!kept.contains_key(id));
                assert(!after.contains_key(id));
            }
        }
        self.tunnels = tunnels;
        stopped
    }
}

impl<H> Default for ProxyTunnelManager<H> {
    fn default() -> (manager: Self)
        ensures
            manager@ == Map::<Seq<char>, (H, u16)>::empty(),
    {
        ProxyTunnelManager::new()
    }
}

// ---------------------------------------------------------------------------
// Starting a tunnel
// ---------------------------------------------------------------------------

/// Where the start of a tunnel stands.
#[derive(Clone, Copy, Debug, PartialEq, Eq, Structural)]
pub enum StartPhase {
    /// Nothing was done yet.
    Begin,
    /// A free local port is being looked for.
    PickingPort,
    /// This port is being bound.
    Binding(u16),
    /// The task that serves this port is being spawned.
    Spawning(u16),
    /// It is over.
    Done,
}

/// What came of the last action.
#[derive(Debug, PartialEq, Eq)]
pub enum StartEvent<H> {
    /// There was no action yet.
    Begin,
    /// The port that was found, if any.
    PortPicked(Option<u16>),
    /// The port is bound.
    Bound,
    /// The port could not be bound, for the reason given.
    BindFailed(String),
    /// The task runs; this stops it.
    Spawned(H),
}

/// What the start of a tunnel needs next.
#[derive(Debug)]
pub enum StartAction<H> {
    /// Find a free local port.
    PickPort,
    /// Listen on this address.
    Bind { host: String, port: u16 },
    /// Spawn the task that forwards what the listener accepts.
    Spawn { proxy: ProxyEndpoint, remote: RemoteEndpoint },
    /// Stop, with this local port as the result; `abort` stops a task that is
    /// not needed, if there is one.
    Finish { result: Result<u16, String>, abort: Option<H> },
}

/// The model of a [`StartEvent`].
pub enum StartEventView<H> {
    Begin,
    PortPicked(Option<u16>),
    Bound,
    BindFailed(Seq<char>),
    Spawned(H),
}

/// The model of a [`StartAction`].
pub enum StartActionView<H> {
    PickPort,
    Bind { host: Seq<char>, port: u16 },
    Spawn { proxy: ProxyView, remote: RemoteView },
    Finish { result: Result<u16, Seq<char>>, abort: Option<H> },
}

impl<H> View for StartEvent<H> {
    type V = StartEventView<H>;

    open spec fn view(&self) -> StartEventView<H> {
        match *self {
            StartEvent::Begin => StartEventView::Begin,
            StartEvent::PortPicked(port) => StartEventView::PortPicked(port),
            StartEvent::Bound => StartEventView::Bound,
            StartEvent::BindFailed(reason) => StartEventView::BindFailed(reason@),
            StartEvent::Spawned(handle) => StartEventView::Spawned(handle),
        }
    }
}

impl<H> View for StartAction<H> {
    type V = StartActionView<H>;

    open spec fn view(&self) -> StartActionView<H> {
        match *self {
            StartAction::PickPort => StartActionView::PickPort,
            StartAction::Bind { host, port } => StartActionView::Bind { host: host@, port },
            StartAction::Spawn { proxy, remote } => StartActionView::Spawn {
                proxy: proxy@,
                remote: remote@,
            },
            StartAction::Finish { result, abort } => StartActionView::Finish {
                result: wire::result_view(result),
                abort,
            },
        }
    }
}

/// Whether `event` is an answer to what `phase` waits for.
pub open spec fn is_start_answer<H>(phase: StartPhase, event: StartEventView<H>) -> bool {
    match (phase, event) {
        (StartPhase::Begin, StartEventView::Begin) => true,
        (StartPhase::PickingPort, StartEventView::PortPicked(_)) => true,
        (StartPhase::Binding(_), StartEventView::Bound) => true,
        (StartPhase::Binding(_), StartEventView::BindFailed(_)) => true,
        (StartPhase::Spawning(_), StartEventView::Spawned(_)) => true,
        _ => false,
    }
}

impl<H> StartEvent<H> {
    /// Tells whether this event is an answer to what `phase` waits for.
    pub fn answers(&self, phase: StartPhase) -> (yes: bool)
        ensures
            yes == is_start_answer(phase, self@),
    {
        match (phase, self) {
            (StartPhase::Begin, StartEvent::Begin) => true,
            (StartPhase::PickingPort, StartEvent::PortPicked(_)) => true,
            (StartPhase::Binding(_), StartEvent::Bound) => true,
            (StartPhase::Binding(_), StartEvent::BindFailed(_)) => true,
            (StartPhase::Spawning(_), StartEvent::Spawned(_)) => true,
            _ => false,
        }
    }
}

/// The outcome of one step: the tunnels after it, the next phase and the next
/// action.
pub struct StartStep<H> {
    pub tunnels: Map<Seq<char>, (H, u16)>,
    pub phase: StartPhase,
    pub action: StartActionView<H>,
}

/// The step that ends the start of a tunnel and leaves `tunnels` running.
pub open spec fn start_ends<H>(
    tunnels: Map<Seq<char>, (H, u16)>,
    result: Result<u16, Seq<char>>,
    abort: Option<H>,
) -> StartStep<H> {
    StartStep {
        tunnels,
        phase: StartPhase::Done,
        action: StartActionView::Finish { result, abort },
    }
}

/// The step of starting the tunnel for `id`. A tunnel that runs already is
/// reused, whether it was there at first or came up meanwhile.
pub open spec fn start_step<H>(
    tunnels: Map<Seq<char>, (H, u16)>,
    phase: StartPhase,
    id: Seq<char>,
    proxy: ProxyView,
    remote: RemoteView,
    event: StartEventView<H>,
) -> StartStep<H> {
    match (phase, event) {
        (StartPhase::Begin, StartEventView::Begin) => match port_of(tunnels, id) {
            Some(port) => start_ends(tunnels, Ok(port), None),
            None => StartStep {
                tunnels,
                phase: StartPhase::PickingPort,
                action: StartActionView::PickPort,
            },
        },
        (StartPhase::PickingPort, StartEventView::PortPicked(Some(port))) => StartStep {
            tunnels,
            phase: StartPhase::Binding(port),
            action: StartActionView::Bind { host: "127.0.0.1"@, port },
        },
        (StartPhase::PickingPort, StartEventView::PortPicked(None)) => start_ends(
            tunnels,
            Err("No available port"@),
            None,
        ),
        (StartPhase::Binding(port), StartEventView::Bound) => StartStep {
            tunnels,
            phase: StartPhase::Spawning(port),
            action: StartActionView::Spawn { proxy, remote },
        },
        (StartPhase::Binding(_), StartEventView::BindFailed(reason)) => start_ends(
            tunnels,
            Err("Failed to bind proxy tunnel local port: "@ + reason),
            None,
        ),
        (StartPhase::Spawning(port), StartEventView::Spawned(handle)) => match port_of(
            tunnels,
            id,
        ) {
            Some(existing) => start_ends(tunnels, Ok(existing), Some(handle)),
            None => start_ends(tunnels.insert(id, (handle, port)), Ok(port), None),
        },
        _ => arbitrary(),
    }
}

proof fn lemma_push<H>(entries: Seq<Tunnel<H>>, tunnel: Tunnel<H>)
    requires
        are_distinct(entries),
        !tunnels_in(entries).contains_key(tunnel.connection_id@),
    ensures
        are_distinct(entries.push(tunnel)),
        tunnels_in(entries.push(tunnel)) == tunnels_in(entries).insert(
            tunnel.connection_id@,
            (tunnel.handle, tunnel.port),
        ),
{
    lemma_tunnels_in(entries);
    let longer = entries.push(tunnel);
    assert(longer.drop_last() =~= entries);
}

impl<H> ProxyTunnelManager<H> {
    /// Takes the next step of starting the tunnel for `connection_id`: to
    /// `remote_host`, through the proxy given. The result is the local port of
    /// the tunnel. If a tunnel for `connection_id` runs already, it is reused
    /// as it is, whatever else is asked for.
    ///
    /// Other steps of the manager may come between the steps of one start.
    #[allow(clippy::too_many_arguments)]
    pub fn start_tunnel(
        &mut self,
        phase: StartPhase,
        connection_id: &str,
        proxy_type: ProxyType,
        proxy_host: &str,
        proxy_port: u16,
        proxy_username: &str,
        proxy_password: &str,
        remote_host: &str,
        remote_port: u16,
        event: StartEvent<H>,
    ) -> (next: (StartPhase, StartAction<H>))
        requires
            is_start_answer(phase, event@),
        ensures
            (StartStep { tunnels: final(self)@, phase: next.0, action: next.1@ }) == start_step(
                old(self)@,
                phase,
                connection_id@,
                ProxyView {
                    proxy_type,
                    host: proxy_host@,
                    port: proxy_port,
                    username: proxy_username@,
                    password: proxy_password@,
                },
                RemoteView { host: remote_host@, port: remote_port },
                event@,
            ),
            next.1@ matches StartActionView::Spawn { proxy, remote } ==> {
                &&& proxy.proxy_type == proxy_type
                &&& proxy.host == proxy_host@
                &&& proxy.port == proxy_port
                &&& proxy.username == proxy_username@
                &&& proxy.password == proxy_password@
                &&& remote.host == remote_host@
                &&& remote.port == remote_port
            },
    {
        match (phase, event) {
            (StartPhase::Begin, _) => match self.local_port(connection_id) {
                Some(port) => (
                    StartPhase::Done,
                    StartAction::Finish { result: Ok(port), abort: None },
                ),
                None => (StartPhase::PickingPort, StartAction::PickPort),
            },
            (StartPhase::PickingPort, StartEvent::PortPicked(Some(port))) => (
                StartPhase::Binding(port),
                StartAction::Bind { host: "127.0.0.1".to_owned(), port },
            ),
            (StartPhase::PickingPort, _) => (
                StartPhase::Done,
                StartAction::Finish { result: Err("No available port".to_owned()), abort: None },
            ),
            (StartPhase::Binding(port), StartEvent::Bound) => (
                StartPhase::Spawning(port),
                StartAction::Spawn {
                    proxy: ProxyEndpoint::new(
                        proxy_type,
                        proxy_host,
                        proxy_port,
                        proxy_username,
                        proxy_password,
                    ),
                    remote: RemoteEndpoint::new(remote_host, remote_port),
                },
            ),
            (StartPhase::Binding(_), StartEvent::BindFailed(reason)) => {
                let message = text::prefixed(
                    "Failed to bind proxy tunnel local port: ",
                    reason.as_str(),
                );
                (StartPhase::Done, StartAction::Finish { result: Err(message), abort: None })
            },
            (StartPhase::Spawning(port), StartEvent::Spawned(handle)) => match self.local_port(
                connection_id,
            ) {
                Some(existing) => (
                    StartPhase::Done,
                    StartAction::Finish { result: Ok(existing), abort: Some(handle) },
                ),
                None => {
                    proof {
                        use_type_invariant(&*self);
                    }
                    let tunnel = Tunnel { connection_id: connection_id.to_owned(), handle, port };
                    let mut tunnels: Vec<Tunnel<H>> = Vec::new();
                    std::mem::swap(&mut tunnels, &mut self.tunnels);
                    proof {
                        lemma_push(tunnels@, tunnel);
                    }
                    tunnels.push(tunnel);
                    self.tunnels = tunnels;
                    (StartPhase::Done, StartAction::Finish { result: Ok(port), abort: None })
                },
            },
            _ => unreached(),
        }
    }
}

// ---------------------------------------------------------------------------
// Laws
// ---------------------------------------------------------------------------

/// While a tunnel runs, starting it again gives its port and changes nothing,
/// whatever proxy and remote host are asked for.
pub proof fn law_running_tunnel_is_reused<H>(
    tunnels: Map<Seq<char>, (H, u16)>,
    id: Seq<char>,
    proxy: ProxyView,
    remote: RemoteView,
)
    requires
        tunnels.contains_key(id),
    ensures
        start_step(tunnels, StartPhase::Begin, id, proxy, remote, StartEventView::Begin)
            == start_ends(tunnels, Ok(tunnels[id].1), None),
{
}

/// A start to which everything is granted ends with the tunnel running: it was
/// spawned for the endpoints asked for, listens on the port that was picked,
/// and no other tunnel changed.
pub proof fn law_start_opens_the_tunnel<H>(
    tunnels: Map<Seq<char>, (H, u16)>,
    id: Seq<char>,
    proxy: ProxyView,
    remote: RemoteView,
    port: u16,
    handle: H,
)
    requires
        !tunnels.contains_key(id),
    ensures
        ({
            let first = start_step(
                tunnels,
                StartPhase::Begin,
                id,
                proxy,
                remote,
                StartEventView::Begin,
            );
            let picked = start_step(
                first.tunnels,
                first.phase,
                id,
                proxy,
                remote,
                StartEventView::PortPicked(Some(port)),
            );
            let bound = start_step(
                picked.tunnels,
                picked.phase,
                id,
                proxy,
                remote,
                StartEventView::Bound,
            );
            let spawned = start_step(
                bound.tunnels,
                bound.phase,
                id,
                proxy,
                remote,
                StartEventView::Spawned(handle),
            );
            &&& first.action is PickPort
            &&& picked.action == StartActionView::<H>::Bind { host: "127.0.0.1"@, port }
            &&& bound.action == StartActionView::<H>::Spawn { proxy, remote }
            &&& spawned.action == StartActionView::<H>::Finish { result: Ok(port), abort: None }
            &&& spawned.tunnels == tunnels.insert(id, (handle, port))
            &&& port_of(spawned.tunnels, id) == Some(port)
        }),
{
}

/// No step replaces or stops a tunnel that runs: a start adds its own tunnel or
/// none.
pub proof fn law_start_disturbs_no_tunnel<H>(
    tunnels: Map<Seq<char>, (H, u16)>,
    phase: StartPhase,
    id: Seq<char>,
    proxy: ProxyView,
    remote: RemoteView,
    event: StartEventView<H>,
)
    requires
        is_start_answer(phase, event),
    ensures
        ({
            let after = start_step(tunnels, phase, id, proxy, remote, event).tunnels;
            &&& tunnels.submap_of(after)
            &&& forall|other: Seq<char>| #[trigger]
                after.contains_key(other) ==> other == id || tunnels.contains_key(other)
        }),
{
}

/// Whoever starts the tunnel for one id gets the port of the tunnel that runs
/// under it afterwards, also when two starts overlap.
pub proof fn law_start_gives_the_port_that_runs<H>(
    tunnels: Map<Seq<char>, (H, u16)>,
    phase: StartPhase,
    id: Seq<char>,
    proxy: ProxyView,
    remote: RemoteView,
    event: StartEventView<H>,
)
    requires
        is_start_answer(phase, event),
    ensures
        ({
            let step = start_step(tunnels, phase, id, proxy, remote, event);
            step.action matches StartActionView::Finish { result: Ok(port), .. } ==> port_of(
                step.tunnels,
                id,
            ) == Some(port)
        }),
{
}

/// No task is lost: one that was spawned is either kept by the manager or
/// handed back to be stopped.
pub proof fn law_spawned_task_is_kept_or_stopped<H>(
    tunnels: Map<Seq<char>, (H, u16)>,
    port: u16,
    id: Seq<char>,
    proxy: ProxyView,
    remote: RemoteView,
    handle: H,
)
    ensures
        ({
            let step = start_step(
                tunnels,
                StartPhase::Spawning(port),
                id,
                proxy,
                remote,
                StartEventView::Spawned(handle),
            );
            &&& step.action matches StartActionView::Finish { result: Ok(_), abort }
            &&& if tunnels.contains_key(id) {
                abort == Some(handle) && step.tunnels == tunnels
            } else {
                abort is None && step.tunnels[id] == (handle, port)
            }
        }),
{
}

/// Stopping a tunnel undoes its start.
pub proof fn law_stop_undoes_start<H>(
    tunnels: Map<Seq<char>, (H, u16)>,
    port: u16,
    id: Seq<char>,
    proxy: ProxyView,
    remote: RemoteView,
    handle: H,
)
    requires
        !tunnels.contains_key(id),
    ensures
        start_step(
            tunnels,
            StartPhase::Spawning(port),
            id,
            proxy,
            remote,
            StartEventView::Spawned(handle),
        ).tunnels.remove(id) == tunnels,
{
    assert(tunnels.insert(id, (handle, port)).remove(id) =~= tunnels);
}

/// Stopping by prefix stops exactly the tunnels whose id begins with it; the
/// empty prefix stops them all.
pub proof fn law_stop_by_prefix<H>(
    tunnels: Map<Seq<char>, (H, u16)>,
    prefix: Seq<char>,
    id: Seq<char>,
)
    ensures
        port_of(without_prefix(tunnels, prefix), id) == if prefix.is_prefix_of(id) {
            None
        } else {
            port_of(tunnels, id)
        },
        prefix.len() == 0 ==> without_prefix(tunnels, prefix) == Map::<Seq<char>, (H, u16)>::empty(),
{
    let kept = without_prefix(tunnels, prefix);
    if prefix.len() == 0 {
        assert forall|other: Seq<char>| !kept.contains_key(other) by {
            assert(other.subrange(0, 0) =~= prefix);
        }
        assert(kept =~= Map::<Seq<char>, (H, u16)>::empty());
    }
}

/// Stopping by a prefix leaves nothing for any longer prefix to stop.
pub proof fn law_stop_by_prefix_covers_longer_prefixes<H>(
    tunnels: Map<Seq<char>, (H, u16)>,
    prefix: Seq<char>,
    longer: Seq<char>,
)
    requires
        prefix.is_prefix_of(longer),
    ensures
        without_prefix(without_prefix(tunnels, prefix), longer) == without_prefix(tunnels, prefix),
{
    let kept = without_prefix(tunnels, prefix);
    assert forall|id: Seq<char>| kept.contains_key(id) implies !longer.is_prefix_of(id) by {
        if longer.is_prefix_of(id) {
            let n = prefix.len() as int;
            assert(id.subrange(0, longer.len() as int).subrange(0, n) =~= id.subrange(0, n));
        }
    }
    assert(without_prefix(kept, longer) =~= kept);
}

/// A start goes step by step, whatever runs meanwhile: a port is picked, bound
/// on the local host, and served by a task for the endpoints given. A start
/// that fails says why and leaves the tunnels as they are.
pub proof fn law_start_goes_step_by_step<H>(
    tunnels: Map<Seq<char>, (H, u16)>,
    id: Seq<char>,
    proxy: ProxyView,
    remote: RemoteView,
    port: u16,
    reason: Seq<char>,
)
    ensures
        !tunnels.contains_key(id) ==> start_step(
            tunnels,
            StartPhase::Begin,
            id,
            proxy,
            remote,
            StartEventView::Begin,
        ) == (StartStep {
            tunnels,
            phase: StartPhase::PickingPort,
            action: StartActionView::PickPort,
        }),
        start_step(
            tunnels,
            StartPhase::PickingPort,
            id,
            proxy,
            remote,
            StartEventView::PortPicked(Some(port)),
        ) == (StartStep {
            tunnels,
            phase: StartPhase::Binding(port),
            action: StartActionView::Bind { host: "127.0.0.1"@, port },
        }),
        start_step(
            tunnels,
            StartPhase::PickingPort,
            id,
            proxy,
            remote,
            StartEventView::PortPicked(None),
        ) == (StartStep {
            tunnels,
            phase: StartPhase::Done,
            action: StartActionView::Finish { result: Err("No available port"@), abort: None },
        }),
        start_step(
            tunnels,
            StartPhase::Binding(port),
            id,
            proxy,
            remote,
            StartEventView::Bound,
        ) == (StartStep {
            tunnels,
            phase: StartPhase::Spawning(port),
            action: StartActionView::Spawn { proxy, remote },
        }),
        start_step(
            tunnels,
            StartPhase::Binding(port),
            id,
            proxy,
            remote,
            StartEventView::BindFailed(reason),
        ) == (StartStep {
            tunnels,
            phase: StartPhase::Done,
            action: StartActionView::Finish {
                result: Err("Failed to bind proxy tunnel local port: "@ + reason),
                abort: None,
            },
        }),
{
}

/// The port of a tunnel is the one that it was kept with: it is there from then
/// on, other tunnels do not change it, and without a tunnel there is none.
pub proof fn law_port_is_that_of_the_tunnel<H>(
    tunnels: Map<Seq<char>, (H, u16)>,
    id: Seq<char>,
    other: Seq<char>,
    handle: H,
    port: u16,
)
    ensures
        port_of(tunnels.insert(id, (handle, port)), id) == Some(port),
        other != id ==> port_of(tunnels.insert(id, (handle, port)), other) == port_of(
            tunnels,
            other,
        ),
        port_of(tunnels.remove(id), id) is None,
        other != id ==> port_of(tunnels.remove(id), other) == port_of(tunnels, other),
        port_of(Map::<Seq<char>, (H, u16)>::empty(), id) is None,
{
}

/// What stops a tunnel is handed back exactly for the tunnels that go: for each
/// once, with its own handle.
pub proof fn law_stopped_tunnels_are_handed_back<H>(
    tunnels: Map<Seq<char>, (H, u16)>,
    prefix: Seq<char>,
    stopped: Seq<(String, H)>,
    id: Seq<char>,
)
    requires
        lists_stopped(stopped, tunnels, prefix),
    ensures
        tunnels.contains_key(id) && !without_prefix(tunnels, prefix).contains_key(id)
            <==> exists|i: int|
            0 <= i < stopped.len() && (#[trigger] stopped[i]).0@ == id && tunnels.contains_key(id)
                && stopped[i].1 == tunnels[id].0,
        forall|i: int, j: int|
            0 <= i < stopped.len() && 0 <= j < stopped.len() && (#[trigger] stopped[i]).0@ == (
            #[trigger] stopped[j]).0@ ==> i == j,
        without_prefix(tunnels, prefix).contains_key(id) ==> tunnels.contains_key(id)
            && without_prefix(tunnels, prefix)[id] == tunnels[id] && !(prefix.len() <= id.len()
            && id.take(prefix.len() as int) == prefix),
        tunnels.contains_key(id) && prefix.len() <= id.len() && id.take(prefix.len() as int)
            == prefix ==> !without_prefix(tunnels, prefix).contains_key(id),
        tunnels.contains_key(id) && !(prefix.len() <= id.len() && id.take(prefix.len() as int)
            == prefix) ==> without_prefix(tunnels, prefix).contains_key(id),
{
    if prefix.len() <= id.len() {
        assert(id.take(prefix.len() as int) =~= id.subrange(0, prefix.len() as int));
    }
    if tunnels.contains_key(id) && !without_prefix(tunnels, prefix).contains_key(id) {
        assert(prefix.is_prefix_of(id));
        let i = choose|i: int| 0 <= i < stopped.len() && (#[trigger] stopped[i]).0@ == id;
        assert(stopped[i].1 == tunnels[id].0);
    }
}

/// Each phase of a start is answered by what came of its action, and by nothing
/// else.
pub proof fn law_start_answers<H>(phase: StartPhase, event: StartEventView<H>)
    ensures
        is_start_answer(phase, event) <==> {
            ||| phase is Begin && event is Begin
            ||| phase is PickingPort && event is PortPicked
            ||| phase is Binding && (event is Bound || event is BindFailed)
            ||| phase is Spawning && event is Spawned
        },
{
}

/// Stopping a tunnel that was just started hands back the handle of its task
/// and leaves the tunnels as they were before. Stopping it again hands back
/// nothing. No stop touches the tunnel of another id.
pub proof fn law_stop_hands_back_the_task<H>(
    tunnels: Map<Seq<char>, (H, u16)>,
    port: u16,
    id: Seq<char>,
    other: Seq<char>,
    proxy: ProxyView,
    remote: RemoteView,
    handle: H,
)
    ensures
        !tunnels.contains_key(id) ==> stop_step(
            start_step(
                tunnels,
                StartPhase::Spawning(port),
                id,
                proxy,
                remote,
                StartEventView::Spawned(handle),
            ).tunnels,
            id,
        ) == (tunnels, Some(handle)),
        !stop_step(tunnels, id).0.contains_key(id),
        stop_step(stop_step(tunnels, id).0, id) == (stop_step(tunnels, id).0, None::<H>),
        stop_step(tunnels, id).1 is Some <==> tunnels.contains_key(id),
        tunnels.contains_key(id) ==> stop_step(tunnels, id).1 == Some(tunnels[id].0),
        other != id ==> (stop_step(tunnels, id).0.contains_key(other) <==> tunnels.contains_key(
            other,
        )),
        other != id && tunnels.contains_key(other) ==> stop_step(tunnels, id).0[other]
            == tunnels[other],
{
    assert(tunnels.insert(id, (handle, port)).remove(id) =~= tunnels || tunnels.contains_key(id));
}

} // verus!
