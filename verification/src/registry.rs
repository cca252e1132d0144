//! The sessions as the control side knows them.
use crate::control::PANEL_RESTART_NOTICE;
use crate::bytes::copy_of;
use crate::effect::{CommandView, ProtocolCommand, PublicUpdate, SeedView, SessionSeed, UpdateView};
use crate::endpoint::PeerAddress;
use crate::epoch;
use crate::epoch::{
    session_is_disconnected_device, session_is_retired_by_epoch, IdentityView, SessionEpochIdentity,
};
use crate::perf::StreamDebugMetrics;
use crate::session;
use crate::session::{HotDebug, NO_WORKER};
use crate::text::same_text;
use dashmap::DashMap;
use std::collections::hash_map::RandomState;
use std::sync::Arc;
use vstd::prelude::*;

verus! {

/// How long a session without a tunnel is kept after it was last seen, in seconds.
pub const PUBLIC_SETUP_GHOST_IDLE_SECS: u64 = 30;

/// How long a session with a tunnel is kept after it was last seen, in seconds.
pub const PUBLIC_AUTH_GHOST_IDLE_SECS: u64 = 120;

/// How many sessions the registry holds at most.
pub const PUBLIC_SESSION_LIMIT: usize = 3328;

/// A session as the control side knows it.
pub struct Session {
    pub id: u64,
    pub address: PeerAddress,
    pub password: String,
    pub device_id: String,
    pub generation_id: u64,
    pub session_salt: String,
    pub worker_id: u64,
    pub desired_stream_count: u64,
    pub tunnel_ip: Option<[u8; 4]>,
    pub last_seen: u64,
    /// Traffic that was not yet credited.
    pub up_bytes: u64,
    pub down_bytes: u64,
    pub created_at: u64,
    pub is_srtp: bool,
    pub handshake_done: bool,
    pub has_tunnel: bool,
    pub stream_debug: StreamDebugMetrics,
}

/// What a [`Session`] says.
#[verifier::ext_equal]
pub struct PublicView {
    pub id: u64,
    pub address: PeerAddress,
    pub password: Seq<char>,
    pub device_id: Seq<char>,
    pub generation_id: u64,
    pub session_salt: Seq<char>,
    pub worker_id: u64,
    pub desired_stream_count: u64,
    pub tunnel_ip: Option<[u8; 4]>,
    pub last_seen: u64,
    pub up_bytes: u64,
    pub down_bytes: u64,
    pub created_at: u64,
    pub is_srtp: bool,
    pub handshake_done: bool,
    pub has_tunnel: bool,
    pub stream_debug: StreamDebugMetrics,
}

impl View for Session {
    type V = PublicView;

    open spec fn view(&self) -> PublicView {
        PublicView {
            id: self.id,
            address: self.address,
            password: self.password@,
            device_id: self.device_id@,
            generation_id: self.generation_id,
            session_salt: self.session_salt@,
            worker_id: self.worker_id,
            desired_stream_count: self.desired_stream_count,
            tunnel_ip: self.tunnel_ip,
            last_seen: self.last_seen,
            up_bytes: self.up_bytes,
            down_bytes: self.down_bytes,
            created_at: self.created_at,
            is_srtp: self.is_srtp,
            handshake_done: self.handshake_done,
            has_tunnel: self.has_tunnel,
            stream_debug: self.stream_debug,
        }
    }
}

impl PublicView {
    /// The device and key of the session.
    pub open spec fn identity(self) -> IdentityView {
        IdentityView {
            device_id: self.device_id,
            generation_id: self.generation_id,
            session_salt: self.session_salt,
        }
    }

    /// The session has not been seen for too long.
    pub open spec fn is_stale(self, wall_now: u64) -> bool {
        session::saturating_difference(wall_now, self.last_seen) >= if self.has_tunnel {
            PUBLIC_AUTH_GHOST_IDLE_SECS
        } else {
            PUBLIC_SETUP_GHOST_IDLE_SECS
        }
    }

    /// The session of which `seed` tells.
    pub open spec fn from_seed(seed: SeedView) -> PublicView {
        PublicView {
            id: seed.id,
            address: seed.address,
            password: seed.password,
            device_id: seed.device_id,
            generation_id: seed.generation_id,
            session_salt: seed.session_salt,
            worker_id: NO_WORKER,
            desired_stream_count: 0,
            tunnel_ip: None,
            last_seen: seed.created_at,
            up_bytes: 0,
            down_bytes: 0,
            created_at: seed.created_at,
            is_srtp: seed.is_srtp,
            handshake_done: true,
            has_tunnel: false,
            stream_debug: seed.stream_debug,
        }
    }

    /// The session once a change was made known. Metrics are taken over only while somebody
    /// watches the streams.
    pub open spec fn updated(self, update: UpdateView, debug_active: bool) -> PublicView {
        match update {
            UpdateView::Counters(report) => PublicView {
                up_bytes: self.up_bytes.wrapping_add(report.up_delta),
                down_bytes: self.down_bytes.wrapping_add(report.down_delta),
                last_seen: report.last_seen,
                stream_debug: if report.publish_debug && debug_active {
                    let debug = if report.debug.generation == self.stream_debug.generation {
                        report.debug
                    } else {
                        HotDebug::zero(self.stream_debug.generation)
                    };
                    StreamDebugMetrics {
                        generation: self.stream_debug.generation,
                        started_at: self.stream_debug.started_at,
                        up_bytes: debug.up_bytes,
                        down_bytes: debug.down_bytes,
                        up_packets: debug.up_packets,
                        down_packets: debug.down_packets,
                    }
                } else {
                    self.stream_debug
                },
                ..self
            },
            UpdateView::Tunnel { session_id: _, ip, desired_count } => PublicView {
                tunnel_ip: Some(ip),
                desired_stream_count: desired_count as u64,
                has_tunnel: true,
                ..self
            },
            UpdateView::Epoch { session_id: _, device_id, generation_id, session_salt } =>
                PublicView { device_id, generation_id, session_salt, ..self },
            UpdateView::HasTunnel { session_id: _, has_tunnel } => PublicView {
                has_tunnel,
                ..self
            },
            UpdateView::Cancel { session_id: _ } => self,
        }
    }
}

/// Which session a change is about.
pub open spec fn update_target(update: UpdateView) -> u64 {
    match update {
        UpdateView::Counters(report) => report.session_id,
        UpdateView::Tunnel { session_id, .. } => session_id,
        UpdateView::Epoch { session_id, .. } => session_id,
        UpdateView::HasTunnel { session_id, .. } => session_id,
        UpdateView::Cancel { session_id } => session_id,
    }
}

impl Session {
    /// The same session once more.
    pub fn copy(&self) -> (session: Session)
        ensures
            session@ == self@,
    {
        Session {
            id: self.id,
            address: self.address,
            password: self.password.clone(),
            device_id: self.device_id.clone(),
            generation_id: self.generation_id,
            session_salt: self.session_salt.clone(),
            worker_id: self.worker_id,
            desired_stream_count: self.desired_stream_count,
            tunnel_ip: self.tunnel_ip,
            last_seen: self.last_seen,
            up_bytes: self.up_bytes,
            down_bytes: self.down_bytes,
            created_at: self.created_at,
            is_srtp: self.is_srtp,
            handshake_done: self.handshake_done,
            has_tunnel: self.has_tunnel,
            stream_debug: self.stream_debug,
        }
    }

    /// The session of which `seed` tells.
    pub fn new(seed: SessionSeed) -> (session: Session)
        ensures
            session@ == PublicView::from_seed(seed@),
    {
        Session {
            id: seed.id,
            address: seed.address,
            password: seed.password,
            device_id: seed.device_id,
            generation_id: seed.generation_id,
            session_salt: seed.session_salt,
            worker_id: NO_WORKER,
            desired_stream_count: 0,
            tunnel_ip: None,
            last_seen: seed.created_at,
            up_bytes: 0,
            down_bytes: 0,
            created_at: seed.created_at,
            is_srtp: seed.is_srtp,
            handshake_done: true,
            has_tunnel: false,
            stream_debug: seed.stream_debug,
        }
    }
}

/// The device and key of a session.
pub fn session_epoch_identity(session: &Session) -> (identity: SessionEpochIdentity)
    ensures
        identity@ == session@.identity(),
{
    SessionEpochIdentity {
        device_id: session.device_id.clone(),
        generation_id: session.generation_id,
        session_salt: session.session_salt.clone(),
    }
}

/// Whether a session has not been seen for too long.
pub fn public_session_is_stale(has_tunnel: bool, last_seen: u64, current_wall: u64) -> (stale: bool)
    ensures
        stale == (session::saturating_difference(current_wall, last_seen) >= if has_tunnel {
            PUBLIC_AUTH_GHOST_IDLE_SECS
        } else {
            PUBLIC_SETUP_GHOST_IDLE_SECS
        }),
{
    let idle_limit: u64 = if has_tunnel {
        PUBLIC_AUTH_GHOST_IDLE_SECS
    } else {
        PUBLIC_SETUP_GHOST_IDLE_SECS
    };
    current_wall.saturating_sub(last_seen) >= idle_limit
}

/// The concurrent map of the `dashmap` crate. Here it is changed through exclusive
/// references only.
#[verifier::external_type_specification]
#[verifier::external_body]
#[verifier::reject_recursive_types(K)]
#[verifier::reject_recursive_types(V)]
#[verifier::reject_recursive_types(S)]
pub struct ExDashMap<K, V, S>(DashMap<K, V, S>);

/// The sessions that a map holds, by identifier.
pub uninterp spec fn dash_sessions(map: DashMap<u64, Arc<Session>, RandomState>) -> Map<
    u64,
    Session,
>;

/// `DashMap::new`: a map without sessions.
#[verifier::external_body]
fn dash_new() -> (map: DashMap<u64, Arc<Session>, RandomState>)
    ensures
        forall|id: u64| !#[trigger] dash_sessions(map).contains_key(id),
        dash_sessions(map).dom().finite(),
{
    DashMap::new()
}

/// `DashMap::len`: how many sessions there are.
#[verifier::external_body]
fn dash_len(map: &DashMap<u64, Arc<Session>, RandomState>) -> (len: usize)
    ensures
        len == dash_sessions(*map).dom().len(),
{
    map.len()
}

/// `DashMap::iter`: the identifiers of the sessions, each once. In which order they come is
/// open.
#[verifier::external_body]
fn dash_ids(map: &DashMap<u64, Arc<Session>, RandomState>) -> (ids: Vec<u64>)
    ensures
        ids@.no_duplicates(),
        ids@.to_set() == dash_sessions(*map).dom(),
{
    map.iter().map(|entry| *entry.key()).collect()
}

/// `DashMap::get`: a session.
#[verifier::external_body]
fn dash_get(map: &DashMap<u64, Arc<Session>, RandomState>, id: u64) -> (session: Option<
    Arc<Session>,
>)
    ensures
        session is Some <==> dash_sessions(*map).contains_key(id),
        session matches Some(found) ==> *found == dash_sessions(*map)[id],
{
    map.get(&id).map(|entry| entry.value().clone())
}

/// `DashMap::insert`: puts a session in, in place of the one that was there.
#[verifier::external_body]
fn dash_insert(map: &mut DashMap<u64, Arc<Session>, RandomState>, id: u64, session: Arc<Session>)
    ensures
        dash_sessions(*final(map)) == dash_sessions(*old(map)).insert(id, *session),
{
    map.insert(id, session);
}

/// `DashMap::remove`: takes a session out.
#[verifier::external_body]
fn dash_remove(map: &mut DashMap<u64, Arc<Session>, RandomState>, id: u64) -> (session: Option<
    Arc<Session>,
>)
    ensures
        session is Some <==> dash_sessions(*old(map)).contains_key(id),
        session matches Some(found) ==> *found == dash_sessions(*old(map))[id],
        dash_sessions(*final(map)) == dash_sessions(*old(map)).remove(id),
{
    map.remove(&id).map(|(_, session)| session)
}

/// Something that the control side is to do.
pub enum Directive {
    /// Hand a command to the engines. It does no harm if they do not take it.
    Order(ProtocolCommand),
    /// Hand a command to the engines. If they do not take it, nothing further is done.
    Require(ProtocolCommand),
    /// Stop whatever runs for a session.
    Cancel { session_id: u64 },
    /// Let the engines know the worker number of a session at once, before whatever they do
    /// next.
    NoteWorker { session_id: u64, worker_id: u16 },
    /// Take note that a session has a tunnel.
    NoteTunnel { session_id: u64, ip: [u8; 4] },
    /// Drop a session.
    Drop { session_id: u64 },
    /// Log that a session of a device was purged.
    LogPurged { device_id: String, address: PeerAddress },
    /// Save the database.
    SaveDatabase,
    /// Forget the key of a device that was asked for in vain.
    ForgetEpoch,
    /// Work out the credentials anew.
    RefreshCredentials,
}

/// What a [`Directive`] says.
#[verifier::ext_equal]
pub enum DirectiveView {
    Order(CommandView),
    Require(CommandView),
    Cancel { session_id: u64 },
    NoteWorker { session_id: u64, worker_id: u16 },
    NoteTunnel { session_id: u64, ip: [u8; 4] },
    Drop { session_id: u64 },
    LogPurged { device_id: Seq<char>, address: PeerAddress },
    SaveDatabase,
    ForgetEpoch,
    RefreshCredentials,
}

impl View for Directive {
    type V = DirectiveView;

    open spec fn view(&self) -> DirectiveView {
        match *self {
            Directive::Order(command) => DirectiveView::Order(command@),
            Directive::Require(command) => DirectiveView::Require(command@),
            Directive::Cancel { session_id } => DirectiveView::Cancel { session_id },
            Directive::NoteWorker { session_id, worker_id } => DirectiveView::NoteWorker {
                session_id,
                worker_id,
            },
            Directive::LogPurged { device_id, address } => DirectiveView::LogPurged {
                device_id: device_id@,
                address,
            },
            Directive::NoteTunnel { session_id, ip } => DirectiveView::NoteTunnel {
                session_id,
                ip,
            },
            Directive::Drop { session_id } => DirectiveView::Drop { session_id },
            Directive::SaveDatabase => DirectiveView::SaveDatabase,
            Directive::ForgetEpoch => DirectiveView::ForgetEpoch,
            Directive::RefreshCredentials => DirectiveView::RefreshCredentials,
        }
    }
}

/// What the directives say.
pub open spec fn directive_views(directives: Seq<Directive>) -> Seq<DirectiveView> {
    Seq::new(directives.len(), |i: int| directives[i]@)
}

/// What is to be done for sessions that are dropped: the engines are told of each, and what
/// runs for it is stopped.
pub open spec fn drop_directives(order: Seq<u64>) -> Seq<DirectiveView>
    decreases order.len(),
{
    if order.len() == 0 {
        Seq::empty()
    } else {
        drop_directives(order.drop_last()) + seq![
            DirectiveView::Order(CommandView::DropSession { session_id: order.last() }),
            DirectiveView::Cancel { session_id: order.last() },
        ]
    }
}

/// What is to be done for sessions of which the engines need not be told.
pub open spec fn cancel_directives(order: Seq<u64>) -> Seq<DirectiveView> {
    Seq::new(order.len(), |i: int| DirectiveView::Cancel { session_id: order[i] })
}

/// `order` lists the elements of `set`, each once.
pub open spec fn lists_ids(order: Seq<u64>, set: Set<u64>) -> bool {
    &&& order.no_duplicates()
    &&& order.to_set() == set
}

/// `directives` are what is to be done for the sessions of `set`, in some order, and then
/// what `rest` says.
pub open spec fn drops_in_some_order(
    set: Set<u64>,
    announced: bool,
    rest: Seq<DirectiveView>,
    directives: Seq<DirectiveView>,
) -> bool {
    exists|order: Seq<u64>|
        {
            &&& #[trigger] lists_ids(order, set)
            &&& directives == (if announced {
                drop_directives(order)
            } else {
                cancel_directives(order)
            }) + rest
        }
}

/// What is to be done for sessions of a device that are purged: the engines are told of each,
/// what runs for it is stopped, and it is logged.
pub open spec fn purge_directives(
    order: Seq<u64>,
    sessions: Map<u64, PublicView>,
    device_id: Seq<char>,
) -> Seq<DirectiveView>
    decreases order.len(),
{
    if order.len() == 0 {
        Seq::empty()
    } else {
        purge_directives(order.drop_last(), sessions, device_id) + seq![
            DirectiveView::Order(CommandView::DropSession { session_id: order.last() }),
            DirectiveView::Cancel { session_id: order.last() },
            DirectiveView::LogPurged { device_id, address: sessions[order.last()].address },
        ]
    }
}

/// `directives` are what is to be done for the sessions of `set`, in some order, when they are
/// purged.
pub open spec fn purges_in_some_order(
    set: Set<u64>,
    sessions: Map<u64, PublicView>,
    device_id: Seq<char>,
    directives: Seq<DirectiveView>,
) -> bool {
    exists|order: Seq<u64>|
        {
            &&& #[trigger] lists_ids(order, set)
            &&& directives == purge_directives(order, sessions, device_id)
        }
}

/// The sessions as the control side knows them.
pub struct Registry {
    sessions: DashMap<u64, Arc<Session>, RandomState>,
    total_connections: u64,
    up_total: u64,
    down_total: u64,
}

/// What a [`Registry`] says.
#[verifier::ext_equal]
pub struct RegistryView {
    pub sessions: Map<u64, PublicView>,
    /// How many sessions there have been.
    pub total_connections: u64,
    /// How much went up and down over all sessions.
    pub up_total: u64,
    pub down_total: u64,
}

/// What the sessions say.
pub open spec fn public_views(sessions: Map<u64, Session>) -> Map<u64, PublicView> {
    Map::new(|id: u64| sessions.contains_key(id), |id: u64| sessions[id]@)
}

impl View for Registry {
    type V = RegistryView;

    closed spec fn view(&self) -> RegistryView {
        RegistryView {
            sessions: public_views(dash_sessions(self.sessions)),
            total_connections: self.total_connections,
            up_total: self.up_total,
            down_total: self.down_total,
        }
    }
}

impl RegistryView {
    /// The identifiers of the sessions of which `chosen` holds.
    pub open spec fn ids_where(self, chosen: spec_fn(PublicView) -> bool) -> Set<u64> {
        Set::new(|id: u64| self.sessions.contains_key(id) && chosen(self.sessions[id]))
    }

    /// The registry without the sessions of which `chosen` holds.
    pub open spec fn without(self, chosen: spec_fn(PublicView) -> bool) -> RegistryView {
        RegistryView {
            sessions: self.sessions.remove_keys(self.ids_where(chosen)),
            ..self
        }
    }

    /// The registry with a session in it.
    pub open spec fn with(self, session: PublicView) -> RegistryView {
        RegistryView { sessions: self.sessions.insert(session.id, session), ..self }
    }

    /// The session that would have to go first: among those without a tunnel, the one that
    /// was seen least recently, and of several the one with the least identifier.
    pub open spec fn is_oldest_inactive(self, id: u64) -> bool {
        &&& self.sessions.contains_key(id)
        &&& !self.sessions[id].has_tunnel
        &&& forall|other: u64| #[trigger]
            self.sessions.contains_key(other) && !self.sessions[other].has_tunnel
                ==> self.sessions[id].last_seen < self.sessions[other].last_seen || (
            self.sessions[id].last_seen == self.sessions[other].last_seen && id <= other)
    }

    /// There is a session without a tunnel.
    pub open spec fn has_inactive(self) -> bool {
        exists|id: u64| #[trigger]
            self.sessions.contains_key(id) && !self.sessions[id].has_tunnel
    }

    /// The session that would have to go first.
    pub open spec fn oldest_inactive(self) -> u64 {
        choose|id: u64| self.is_oldest_inactive(id)
    }

    /// The registry without one session.
    pub open spec fn without_one(self, id: u64) -> RegistryView {
        RegistryView { sessions: self.sessions.remove(id), ..self }
    }

    /// The sessions that go, one after the other, until `count` are gone or all that are left
    /// have a tunnel.
    pub open spec fn evictions(self, count: nat) -> Seq<u64>
        decreases count,
    {
        if count == 0 || !self.has_inactive() {
            Seq::empty()
        } else {
            let id = self.oldest_inactive();
            seq![id] + self.without_one(id).evictions((count - 1) as nat)
        }
    }

    /// The registry once `count` sessions are gone, or all that are left have a tunnel.
    pub open spec fn evicted(self, count: nat) -> RegistryView
        decreases count,
    {
        if count == 0 || !self.has_inactive() {
            self
        } else {
            self.without_one(self.oldest_inactive()).evicted((count - 1) as nat)
        }
    }

    /// The registry without the sessions that have not been seen for too long.
    pub open spec fn without_stale(self, wall_now: u64) -> RegistryView {
        self.without(|session: PublicView| session.is_stale(wall_now))
    }

    /// By how many sessions the registry is too large.
    pub open spec fn overflow(self) -> nat {
        if self.sessions.dom().len() > PUBLIC_SESSION_LIMIT {
            (self.sessions.dom().len() - PUBLIC_SESSION_LIMIT) as nat
        } else {
            0
        }
    }

    /// The registry once it was pruned.
    pub open spec fn pruned(self, wall_now: u64) -> RegistryView {
        let rest = self.without_stale(wall_now);
        rest.evicted(rest.overflow())
    }

    /// What is to be done when the registry is pruned. In which order the stale sessions go is
    /// open.
    pub open spec fn prune_directives(
        self,
        wall_now: u64,
        directives: Seq<DirectiveView>,
    ) -> bool {
        let rest = self.without_stale(wall_now);
        drops_in_some_order(
            self.ids_where(|session: PublicView| session.is_stale(wall_now)),
            true,
            cancel_directives(rest.evictions(rest.overflow())),
            directives,
        )
    }

    /// The registry once a change was made known, given whether somebody watches the streams.
    pub open spec fn updated(self, update: UpdateView, debug_active: bool) -> RegistryView {
        let id = update_target(update);
        let counted = match update {
            UpdateView::Counters(report) => RegistryView {
                up_total: self.up_total.wrapping_add(report.up_delta),
                down_total: self.down_total.wrapping_add(report.down_delta),
                ..self
            },
            _ => self,
        };
        if self.sessions.contains_key(id) {
            counted.with(self.sessions[id].updated(update, debug_active))
        } else {
            counted
        }
    }
}

/// What follows from a change that an engine made known.
#[derive(Clone, Copy, Debug, PartialEq, Eq, Structural)]
pub enum UpdateOutcome {
    Nothing,
    /// What runs for the session is to be stopped.
    Cancel { session_id: u64 },
    /// The engine is to count what the session carries anew.
    Resync { session_id: u64, generation: u64 },
}

impl RegistryView {
    /// What follows from a change that an engine made known.
    pub open spec fn outcome(self, update: UpdateView) -> UpdateOutcome {
        match update {
            UpdateView::Cancel { session_id } => UpdateOutcome::Cancel { session_id },
            UpdateView::Counters(report) => {
                let id = report.session_id;
                let generation = self.sessions[id].stream_debug.generation;
                if self.sessions.contains_key(id) && report.debug.generation != generation {
                    UpdateOutcome::Resync { session_id: id, generation }
                } else {
                    UpdateOutcome::Nothing
                }
            },
            _ => UpdateOutcome::Nothing,
        }
    }
}

/// At most one session can be the one that would have to go first.
proof fn lemma_oldest_unique(registry: RegistryView, left: u64, right: u64)
    requires
        registry.is_oldest_inactive(left),
        registry.is_oldest_inactive(right),
    ensures
        left == right,
{
    assert(registry.sessions.contains_key(left) && !registry.sessions[left].has_tunnel);
    assert(registry.sessions.contains_key(right) && !registry.sessions[right].has_tunnel);
}

proof fn lemma_public_insert(sessions: Map<u64, Session>, id: u64, session: Session)
    ensures
        public_views(sessions.insert(id, session)) == public_views(sessions).insert(id, session@),
{
    assert(public_views(sessions.insert(id, session)) =~= public_views(sessions).insert(
        id,
        session@,
    ));
}

proof fn lemma_public_remove(sessions: Map<u64, Session>, id: u64)
    ensures
        public_views(sessions.remove(id)) == public_views(sessions).remove(id),
{
    assert(public_views(sessions.remove(id)) =~= public_views(sessions).remove(id));
}

/// Which sessions are meant.
enum PublicSelector<'a> {
    /// Those that have not been seen for too long.
    Stale(u64),
    /// Those with a password.
    Password(&'a str),
    /// Those of a device that hold another key, but for one session.
    OtherKey(&'a str, u64, &'a str, u64),
    /// Those with the same device, key and worker, but for one session.
    SameWorker(&'a str, u64, &'a str, u64, u64),
    /// The one that asked, and those of a device.
    Device(&'a str, u64),
}

impl<'a> PublicSelector<'a> {
    spec fn selects(self, session: PublicView) -> bool {
        match self {
            PublicSelector::Stale(wall_now) => session.is_stale(wall_now),
            PublicSelector::Password(password) => session.password == password@,
            PublicSelector::OtherKey(device_id, generation_id, session_salt, current) =>
                supersedes(
                    session,
                    IdentityView {
                        device_id: device_id@,
                        generation_id,
                        session_salt: session_salt@,
                    },
                    current,
                ),
            PublicSelector::SameWorker(
                device_id,
                generation_id,
                session_salt,
                worker_id,
                current,
            ) => replaces_worker(
                session,
                IdentityView { device_id: device_id@, generation_id, session_salt: session_salt@ },
                worker_id,
                current,
            ),
            PublicSelector::Device(device_id, requester) => session.id == requester
                || session.device_id == device_id@,
        }
    }

    fn is_about(&self, session: &Session) -> (chosen: bool)
        ensures
            chosen == self.selects(session@),
    {
        match self {
            PublicSelector::Stale(wall_now) => public_session_is_stale(
                session.has_tunnel,
                session.last_seen,
                *wall_now,
            ),
            PublicSelector::Password(password) => same_text(session.password.as_str(), *password),
            PublicSelector::OtherKey(device_id, generation_id, session_salt, current) => {
                session.id != *current && session_is_retired_by_epoch(
                    session.device_id.as_str(),
                    session.generation_id,
                    session.session_salt.as_str(),
                    *device_id,
                    *generation_id,
                    *session_salt,
                )
            },
            PublicSelector::SameWorker(
                device_id,
                generation_id,
                session_salt,
                worker_id,
                current,
            ) => {
                let same = same_text(session.device_id.as_str(), *device_id)
                    && session.generation_id == *generation_id && same_text(
                    session.session_salt.as_str(),
                    *session_salt,
                );
                assert(same == (session@.identity() =~= (IdentityView {
                    device_id: device_id@,
                    generation_id: *generation_id,
                    session_salt: session_salt@,
                })));
                session.id != *current && session.worker_id == *worker_id && same
            },
            PublicSelector::Device(device_id, requester) => session_is_disconnected_device(
                session.id,
                session.device_id.as_str(),
                *requester,
                *device_id,
            ),
        }
    }
}

/// The session is not `current`, and is of the same device with another key.
pub open spec fn supersedes(session: PublicView, identity: IdentityView, current: u64) -> bool {
    session.id != current && epoch::retired_by_epoch(session.identity(), identity)
}

/// The session is not `current`, and has the same device, key and worker.
pub open spec fn replaces_worker(
    session: PublicView,
    identity: IdentityView,
    worker_id: u64,
    current: u64,
) -> bool {
    session.id != current && session.worker_id == worker_id && session.identity() == identity
}

impl Registry {
    /// Each session is listed under its own identifier.
    pub closed spec fn wf(&self) -> bool {
        &&& dash_sessions(self.sessions).dom().finite()
        &&& forall|id: u64| #[trigger]
            dash_sessions(self.sessions).contains_key(id) ==> dash_sessions(self.sessions)[id].id
                == id
    }

    /// A registry that is in order holds finitely many sessions, each under its own identifier.
    pub proof fn a_registry_is_finite(&self)
        requires
            self.wf(),
        ensures
            self@.sessions.dom().finite(),
            forall|id: u64| #[trigger]
                self@.sessions.contains_key(id) ==> self@.sessions[id].id == id,
    {
        assert(self@.sessions.dom() =~= dash_sessions(self.sessions).dom());
    }

    /// A registry without sessions.
    pub fn new() -> (registry: Registry)
        ensures
            registry.wf(),
            registry@ == (RegistryView {
                sessions: Map::<u64, PublicView>::empty(),
                total_connections: 0,
                up_total: 0,
                down_total: 0,
            }),
    {
        let registry = Registry {
            sessions: dash_new(),
            total_connections: 0,
            up_total: 0,
            down_total: 0,
        };
        assert(registry@.sessions =~= Map::<u64, PublicView>::empty());
        registry
    }

    /// How many sessions there are.
    pub fn len(&self) -> (len: usize)
        ensures
            len == self@.sessions.dom().len(),
    {
        assert(self@.sessions.dom() =~= dash_sessions(self.sessions).dom());
        dash_len(&self.sessions)
    }

    /// How many sessions there have been.
    pub fn total_connections(&self) -> (count: u64)
        ensures
            count == self@.total_connections,
    {
        self.total_connections
    }

    /// How much went up and down over all sessions.
    pub fn traffic_totals(&self) -> (totals: (u64, u64))
        ensures
            totals == (self@.up_total, self@.down_total),
    {
        (self.up_total, self.down_total)
    }

    /// A session.
    pub fn get(&self, id: u64) -> (session: Option<Arc<Session>>)
        requires
            self.wf(),
        ensures
            session is Some <==> self@.sessions.contains_key(id),
            session matches Some(found) ==> found@ == self@.sessions[id] && found@.id == id,
    {
        dash_get(&self.sessions, id)
    }

    /// The identifiers of all sessions, in some order.
    pub fn ids(&self) -> (ids: Vec<u64>)
        ensures
            lists_ids(ids@, self@.sessions.dom()),
    {
        assert(self@.sessions.dom() =~= dash_sessions(self.sessions).dom());
        dash_ids(&self.sessions)
    }

    /// Puts a session in, in place of the one with the same identifier.
    pub(crate) fn put(&mut self, session: Session)
        requires
            old(self).wf(),
        ensures
            final(self).wf(),
            final(self)@ == old(self)@.with(session@),
    {
        let ghost before = self@;
        let ghost sessions = dash_sessions(self.sessions);
        dash_insert(&mut self.sessions, session.id, Arc::new(session));
        proof {
            lemma_public_insert(sessions, session.id, session);
            assert(self@ =~= before.with(session@));
        }
    }

    /// Takes a session out.
    pub(crate) fn take(&mut self, id: u64) -> (session: Option<Arc<Session>>)
        requires
            old(self).wf(),
        ensures
            final(self).wf(),
            final(self)@ == old(self)@.without_one(id),
            session is Some <==> old(self)@.sessions.contains_key(id),
            session matches Some(found) ==> found@ == old(self)@.sessions[id],
    {
        let ghost before = self@;
        let ghost sessions = dash_sessions(self.sessions);
        let session = dash_remove(&mut self.sessions, id);
        proof {
            lemma_public_remove(sessions, id);
            assert(self@ =~= before.without_one(id));
        }
        session
    }

    /// The identifiers of the sessions that are meant, in some order.
    fn selected(&self, selector: &PublicSelector) -> (chosen: Vec<u64>)
        requires
            self.wf(),
        ensures
            lists_ids(
                chosen@,
                self@.ids_where(|session: PublicView| selector.selects(session)),
            ),
    {
        let ids = self.ids();
        let ghost sessions = self@.sessions;
        let mut chosen: Vec<u64> = Vec::new();
        let mut i: usize = 0;
        while i < ids.len()
            invariant
                i <= ids@.len(),
                self.wf(),
                sessions == self@.sessions,
                lists_ids(ids@, sessions.dom()),
                chosen@.no_duplicates(),
                forall|id: u64| #[trigger]
                    chosen@.contains(id) <==> ids@.take(i as int).contains(id) && selector.selects(
                        sessions[id],
                    ),
            decreases ids.len() - i,
        {
            let id: u64 = ids[i];
            let ghost now = ids@.take(i as int);
            let ghost next = ids@.take(i + 1);
            let ghost before = chosen@;
            proof {
                assert(ids@.to_set().contains(id)) by {
                    assert(ids@[i as int] == id);
                }
                assert(!now.contains(id)) by {
                    if now.contains(id) {
                        let j = choose|j: int| 0 <= j < now.len() && now[j] == id;
                        assert(ids@[j] == ids@[i as int]);
                    }
                }
                assert(next =~= now.push(id));
                lemma_push_contains(now, id);
                lemma_push_contains(before, id);
                assert(!before.contains(id));
            }
            if let Some(session) = dash_get(&self.sessions, id) {
                if selector.is_about(&session) {
                    chosen.push(id);
                }
            }
            i += 1;
        }
        proof {
            assert(ids@.take(i as int) =~= ids@);
            let set = self@.ids_where(|session: PublicView| selector.selects(session));
            assert forall|id: u64| #[trigger] chosen@.to_set().contains(id) <==> set.contains(
                id,
            ) by {
                assert(ids@.to_set().contains(id) <==> ids@.contains(id));
                assert(chosen@.contains(id) <==> chosen@.to_set().contains(id));
            }
            assert(chosen@.to_set() =~= set);
        }
        chosen
    }

    /// Takes out the sessions that are meant, and says what is to be done: what runs for each
    /// is stopped, and the engines are told of it where `announced`.
    fn drop_selected(&mut self, selector: &PublicSelector, announced: bool) -> (directives: Vec<
        Directive,
    >)
        requires
            old(self).wf(),
        ensures
            final(self).wf(),
            final(self)@ == old(self)@.without(
                |session: PublicView| selector.selects(session),
            ),
            drops_in_some_order(
                old(self)@.ids_where(|session: PublicView| selector.selects(session)),
                announced,
                Seq::empty(),
                directive_views(directives@),
            ),
    {
        let mut directives: Vec<Directive> = Vec::new();
        let ghost before = self@;
        let chosen = self.selected(selector);
        let ghost order = chosen@;
        let ghost doomed = before.ids_where(|session: PublicView| selector.selects(session));
        let ghost told = |n: int|
            if announced {
                drop_directives(order.take(n))
            } else {
                cancel_directives(order.take(n))
            };
        let mut i: usize = 0;
        proof {
            assert(order.take(0) =~= Seq::<u64>::empty());
            assert(told(0) =~= Seq::<DirectiveView>::empty());
            assert(directive_views(directives@) =~= told(0));
            assert(order.take(0).to_set() =~= Set::<u64>::empty());
            assert(before.sessions.remove_keys(order.take(0).to_set()) =~= before.sessions);
        }
        while i < chosen.len()
            invariant
                i <= chosen@.len(),
                order == chosen@,
                self.wf(),
                told == (|n: int|
                    if announced {
                        drop_directives(order.take(n))
                    } else {
                        cancel_directives(order.take(n))
                    }),
                self@ == (RegistryView {
                    sessions: before.sessions.remove_keys(order.take(i as int).to_set()),
                    ..before
                }),
                directive_views(directives@) == told(i as int),
            decreases chosen.len() - i,
        {
            let session_id: u64 = chosen[i];
            let ghost now = order.take(i as int);
            let ghost next = order.take(i + 1);
            let ghost listed = directive_views(directives@);
            if announced {
                directives.push(Directive::Order(ProtocolCommand::DropSession { session_id }));
            }
            let _ = self.take(session_id);
            directives.push(Directive::Cancel { session_id });
            i += 1;
            proof {
                assert(next =~= now.push(session_id));
                assert(next.drop_last() =~= now);
                lemma_push_contains(now, session_id);
                assert(next.to_set() =~= now.to_set().insert(session_id));
                assert(before.sessions.remove_keys(next.to_set()) =~= before.sessions.remove_keys(
                    now.to_set(),
                ).remove(session_id));
                if announced {
                    assert(directive_views(directives@) =~= listed + seq![
                        DirectiveView::Order(CommandView::DropSession { session_id }),
                        DirectiveView::Cancel { session_id },
                    ]);
                } else {
                    assert(directive_views(directives@) =~= listed.push(
                        DirectiveView::Cancel { session_id },
                    ));
                    assert(cancel_directives(next) =~= cancel_directives(now).push(
                        DirectiveView::Cancel { session_id },
                    ));
                }
                assert(directive_views(directives@) =~= told(i as int));
            }
        }
        proof {
            assert(order.take(i as int) =~= order);
            assert(lists_ids(order, doomed));
            assert(told(i as int) + Seq::<DirectiveView>::empty() =~= told(i as int));
            assert(self@ =~= before.without(|session: PublicView| selector.selects(session)));
        }
        directives
    }
}

impl Registry {
    /// Takes out the sessions of a device that are meant, and says what is to be done: the
    /// engines are told of each, what runs for it is stopped, and it is logged.
    fn purge_selected(&mut self, selector: &PublicSelector, device_id: &str) -> (directives: Vec<
        Directive,
    >)
        requires
            old(self).wf(),
        ensures
            final(self).wf(),
            final(self)@ == old(self)@.without(
                |session: PublicView| selector.selects(session),
            ),
            purges_in_some_order(
                old(self)@.ids_where(|session: PublicView| selector.selects(session)),
                old(self)@.sessions,
                device_id@,
                directive_views(directives@),
            ),
    {
        let mut directives: Vec<Directive> = Vec::new();
        let ghost before = self@;
        let chosen = self.selected(selector);
        let ghost order = chosen@;
        let ghost doomed = before.ids_where(|session: PublicView| selector.selects(session));
        let mut i: usize = 0;
        proof {
            assert(order.take(0) =~= Seq::<u64>::empty());
            assert(directive_views(directives@) =~= Seq::<DirectiveView>::empty());
            assert(order.take(0).to_set() =~= Set::<u64>::empty());
            assert(before.sessions.remove_keys(order.take(0).to_set()) =~= before.sessions);
        }
        while i < chosen.len()
            invariant
                i <= chosen@.len(),
                order == chosen@,
                self.wf(),
                lists_ids(order, doomed),
                forall|id: u64| #[trigger] doomed.contains(id) ==> before.sessions.contains_key(id),
                self@ == (RegistryView {
                    sessions: before.sessions.remove_keys(order.take(i as int).to_set()),
                    ..before
                }),
                directive_views(directives@) == purge_directives(
                    order.take(i as int),
                    before.sessions,
                    device_id@,
                ),
            decreases chosen.len() - i,
        {
            let session_id: u64 = chosen[i];
            let ghost now = order.take(i as int);
            let ghost next = order.take(i + 1);
            let ghost listed = directive_views(directives@);
            proof {
                assert(order[i as int] == session_id);
                assert(order.to_set().contains(session_id));
                if now.contains(session_id) {
                    let j = choose|j: int| 0 <= j < now.len() && now[j] == session_id;
                    assert(order[j] == order[i as int]);
                }
                assert(self@.sessions.contains_key(session_id));
            }
            directives.push(Directive::Order(ProtocolCommand::DropSession { session_id }));
            if let Some(gone) = self.take(session_id) {
                directives.push(Directive::Cancel { session_id });
                directives.push(
                    Directive::LogPurged { device_id: device_id.to_owned(), address: gone.address },
                );
            }
            i += 1;
            proof {
                assert(next =~= now.push(session_id));
                assert(next.drop_last() =~= now);
                lemma_push_contains(now, session_id);
                assert(next.to_set() =~= now.to_set().insert(session_id));
                assert(before.sessions.remove_keys(next.to_set()) =~= before.sessions.remove_keys(
                    now.to_set(),
                ).remove(session_id));
                assert(directive_views(directives@) =~= listed + seq![
                    DirectiveView::Order(CommandView::DropSession { session_id }),
                    DirectiveView::Cancel { session_id },
                    DirectiveView::LogPurged {
                        device_id: device_id@,
                        address: before.sessions[session_id].address,
                    },
                ]);
            }
        }
        proof {
            assert(order.take(i as int) =~= order);
            assert(lists_ids(order, doomed));
            assert(self@ =~= before.without(|session: PublicView| selector.selects(session)));
        }
        directives
    }
}

/// Conditions that agree on all sessions mean the same ones.
proof fn lemma_same_ids(
    registry: RegistryView,
    left: spec_fn(PublicView) -> bool,
    right: spec_fn(PublicView) -> bool,
)
    requires
        forall|session: PublicView| #[trigger] left(session) == right(session),
    ensures
        registry.ids_where(left) == registry.ids_where(right),
        registry.without(left) == registry.without(right),
{
    assert(registry.ids_where(left) =~= registry.ids_where(right));
}

impl Registry {
    /// Takes out the sessions of a device that hold another key, but for the current one.
    pub fn purge_stale_device_sessions(
        &mut self,
        device_id: &str,
        generation_id: u64,
        session_salt: &str,
        current_session_id: u64,
    ) -> (directives: Vec<Directive>)
        requires
            old(self).wf(),
        ensures
            final(self).wf(),
            ({
                let identity = IdentityView {
                    device_id: device_id@,
                    generation_id,
                    session_salt: session_salt@,
                };
                let chosen = |session: PublicView|
                    supersedes(session, identity, current_session_id);
                &&& final(self)@ == old(self)@.without(chosen)
                &&& purges_in_some_order(
                    old(self)@.ids_where(chosen),
                    old(self)@.sessions,
                    device_id@,
                    directive_views(directives@),
                )
            }),
    {
        let selector = PublicSelector::OtherKey(
            device_id,
            generation_id,
            session_salt,
            current_session_id,
        );
        proof {
            let identity = IdentityView {
                device_id: device_id@,
                generation_id,
                session_salt: session_salt@,
            };
            lemma_same_ids(
                self@,
                |session: PublicView| selector.selects(session),
                |session: PublicView| supersedes(session, identity, current_session_id),
            );
        }
        self.purge_selected(&selector, device_id)
    }

    /// Takes out the sessions with the same device, key and worker, but for the current one.
    pub fn purge_replaced_worker_sessions(
        &mut self,
        device_id: &str,
        generation_id: u64,
        session_salt: &str,
        worker_id: u64,
        current_session_id: u64,
    ) -> (directives: Vec<Directive>)
        requires
            old(self).wf(),
        ensures
            final(self).wf(),
            ({
                let identity = IdentityView {
                    device_id: device_id@,
                    generation_id,
                    session_salt: session_salt@,
                };
                let chosen = |session: PublicView|
                    replaces_worker(session, identity, worker_id, current_session_id);
                &&& final(self)@ == old(self)@.without(chosen)
                &&& drops_in_some_order(
                    old(self)@.ids_where(chosen),
                    true,
                    Seq::empty(),
                    directive_views(directives@),
                )
            }),
    {
        let selector = PublicSelector::SameWorker(
            device_id,
            generation_id,
            session_salt,
            worker_id,
            current_session_id,
        );
        proof {
            let identity = IdentityView {
                device_id: device_id@,
                generation_id,
                session_salt: session_salt@,
            };
            lemma_same_ids(
                self@,
                |session: PublicView| selector.selects(session),
                |session: PublicView|
                    replaces_worker(session, identity, worker_id, current_session_id),
            );
        }
        self.drop_selected(&selector, true)
    }

    /// Takes out the sessions with a password. The engines drop theirs by the password.
    pub fn drop_password_sessions(&mut self, password: &str) -> (directives: Vec<Directive>)
        requires
            old(self).wf(),
        ensures
            final(self).wf(),
            ({
                let chosen = |session: PublicView| session.password == password@;
                &&& final(self)@ == old(self)@.without(chosen)
                &&& directives@.len() > 0
                &&& directives@[0]@ == DirectiveView::Order(
                    CommandView::DropPassword { password: password@ },
                )
                &&& drops_in_some_order(
                    old(self)@.ids_where(chosen),
                    false,
                    Seq::empty(),
                    directive_views(directives@).skip(1),
                )
            }),
    {
        let selector = PublicSelector::Password(password);
        proof {
            lemma_same_ids(
                self@,
                |session: PublicView| selector.selects(session),
                |session: PublicView| session.password == password@,
            );
        }
        let mut cancelled = self.drop_selected(&selector, false);
        let ghost listed = directive_views(cancelled@);
        let mut directives: Vec<Directive> = Vec::new();
        directives.push(
            Directive::Order(ProtocolCommand::DropPassword { password: password.to_owned() }),
        );
        directives.append(&mut cancelled);
        assert(directive_views(directives@).skip(1) =~= listed);
        directives
    }

    /// Takes out all sessions: the engines are told of each first, then what runs for them is
    /// stopped.
    pub fn drop_all_sessions(&mut self) -> (directives: Vec<Directive>)
        requires
            old(self).wf(),
        ensures
            final(self).wf(),
            final(self)@ == (RegistryView {
                sessions: Map::<u64, PublicView>::empty(),
                ..old(self)@
            }),
            exists|order: Seq<u64>|
                {
                    &&& #[trigger] lists_ids(order, old(self)@.sessions.dom())
                    &&& directive_views(directives@) == Seq::new(
                        order.len(),
                        |i: int|
                            DirectiveView::Order(CommandView::DropSession { session_id: order[i] }),
                    ) + cancel_directives(order)
                },
    {
        let ghost before = self@;
        let ids = self.ids();
        let ghost order = ids@;
        let ghost orders = |i: int|
            DirectiveView::Order(CommandView::DropSession { session_id: order[i] });
        let mut directives: Vec<Directive> = Vec::new();
        let mut i: usize = 0;
        assert(directive_views(directives@) =~= Seq::new(0, orders));
        while i < ids.len()
            invariant
                i <= ids@.len(),
                order == ids@,
                orders == (|i: int|
                    DirectiveView::Order(CommandView::DropSession { session_id: order[i] })),
                directive_views(directives@) == Seq::new(i as nat, orders),
            decreases ids.len() - i,
        {
            let ghost listed = directive_views(directives@);
            directives.push(Directive::Order(ProtocolCommand::DropSession { session_id: ids[i] }));
            i += 1;
            assert(directive_views(directives@) =~= listed.push(orders(i - 1)));
            assert(Seq::new(i as nat, orders) =~= Seq::new((i - 1) as nat, orders).push(
                orders(i - 1),
            ));
        }
        let ghost told = directive_views(directives@);
        let mut k: usize = 0;
        proof {
            assert(order.take(0) =~= Seq::<u64>::empty());
            assert(told + cancel_directives(order.take(0)) =~= told);
            assert(before.sessions.remove_keys(order.take(0).to_set()) =~= before.sessions);
        }
        while k < ids.len()
            invariant
                k <= ids@.len(),
                order == ids@,
                self.wf(),
                self@ == (RegistryView {
                    sessions: before.sessions.remove_keys(order.take(k as int).to_set()),
                    ..before
                }),
                directive_views(directives@) == told + cancel_directives(order.take(k as int)),
            decreases ids.len() - k,
        {
            let session_id: u64 = ids[k];
            let ghost now = order.take(k as int);
            let ghost next = order.take(k + 1);
            let ghost listed = directive_views(directives@);
            let _ = self.take(session_id);
            directives.push(Directive::Cancel { session_id });
            k += 1;
            proof {
                assert(next =~= now.push(session_id));
                lemma_push_contains(now, session_id);
                assert(next.to_set() =~= now.to_set().insert(session_id));
                assert(before.sessions.remove_keys(next.to_set()) =~= before.sessions.remove_keys(
                    now.to_set(),
                ).remove(session_id));
                assert(directive_views(directives@) =~= listed.push(
                    DirectiveView::Cancel { session_id },
                ));
                assert(cancel_directives(next) =~= cancel_directives(now).push(
                    DirectiveView::Cancel { session_id },
                ));
                assert(directive_views(directives@) =~= told + cancel_directives(next));
            }
        }
        proof {
            assert(order.take(k as int) =~= order);
            assert(self@.sessions =~= Map::<u64, PublicView>::empty());
            assert(lists_ids(order, before.sessions.dom()));
            assert(directive_views(directives@) =~= Seq::new(
                order.len(),
                |i: int|
                    DirectiveView::Order(CommandView::DropSession { session_id: order[i] }),
            ) + cancel_directives(order));
        }
        directives
    }

    /// Takes out the session that asked and those of a device. Says which are gone.
    pub fn disconnect_device_sessions(&mut self, device_id: &str, requester_id: u64) -> (gone: Vec<
        Directive,
    >)
        requires
            old(self).wf(),
        ensures
            final(self).wf(),
            ({
                let chosen = |session: PublicView|
                    session.id == requester_id || session.device_id == device_id@;
                &&& final(self)@ == old(self)@.without(chosen)
                &&& drops_in_some_order(
                    old(self)@.ids_where(chosen),
                    false,
                    Seq::empty(),
                    directive_views(gone@),
                )
            }),
    {
        let selector = PublicSelector::Device(device_id, requester_id);
        proof {
            lemma_same_ids(
                self@,
                |session: PublicView| selector.selects(session),
                |session: PublicView|
                    session.id == requester_id || session.device_id == device_id@,
            );
        }
        self.drop_selected(&selector, false)
    }

    /// The session that would have to go first.
    fn find_oldest_inactive(&self) -> (oldest: Option<u64>)
        requires
            self.wf(),
        ensures
            oldest is Some <==> self@.has_inactive(),
            oldest matches Some(id) ==> id == self@.oldest_inactive() && self@.is_oldest_inactive(
                id,
            ),
    {
        let ids = self.ids();
        let ghost sessions = self@.sessions;
        let mut best: Option<(u64, u64)> = None;
        let mut i: usize = 0;
        while i < ids.len()
            invariant
                i <= ids@.len(),
                self.wf(),
                sessions == self@.sessions,
                lists_ids(ids@, sessions.dom()),
                match best {
                    Some((seen, id)) => {
                        &&& sessions.contains_key(id)
                        &&& !sessions[id].has_tunnel
                        &&& sessions[id].last_seen == seen
                        &&& forall|j: int|
                            0 <= j < i && !sessions[#[trigger] ids@[j]].has_tunnel ==> seen
                                < sessions[ids@[j]].last_seen || (seen
                                == sessions[ids@[j]].last_seen && id <= ids@[j])
                    },
                    None => forall|j: int| 0 <= j < i ==> sessions[#[trigger] ids@[j]].has_tunnel,
                },
            decreases ids.len() - i,
        {
            let id: u64 = ids[i];
            proof {
                assert(ids@[i as int] == id);
                assert(ids@.to_set().contains(id));
            }
            if let Some(session) = dash_get(&self.sessions, id) {
                if !session.has_tunnel {
                    let better = match best {
                        None => true,
                        Some((seen, other)) => session.last_seen < seen || (session.last_seen
                            == seen && id < other),
                    };
                    if better {
                        best = Some((session.last_seen, id));
                    }
                }
            }
            i += 1;
        }
        proof {
            assert forall|id: u64| #[trigger] sessions.contains_key(id) implies exists|j: int|
                0 <= j < ids@.len() && ids@[j] == id by {
                assert(ids@.to_set().contains(id));
            }
            match best {
                Some((seen, id)) => {
                    assert forall|other: u64| #[trigger]
                        sessions.contains_key(other) && !sessions[other].has_tunnel implies seen
                        < sessions[other].last_seen || (seen == sessions[other].last_seen && id
                        <= other) by {
                        let j = choose|j: int| 0 <= j < ids@.len() && ids@[j] == other;
                        assert(!sessions[ids@[j]].has_tunnel);
                    }
                    assert(self@.is_oldest_inactive(id));
                    lemma_oldest_unique(self@, id, self@.oldest_inactive());
                },
                None => {
                    assert forall|id: u64| #[trigger] sessions.contains_key(
                        id,
                    ) implies sessions[id].has_tunnel by {
                        let j = choose|j: int| 0 <= j < ids@.len() && ids@[j] == id;
                        assert(sessions[ids@[j]].has_tunnel);
                    }
                },
            }
        }
        match best {
            Some((_, id)) => Some(id),
            None => None,
        }
    }

    /// Takes sessions without a tunnel out until `count` are gone or none is left, those that
    /// were seen least recently first.
    fn evict(&mut self, count: usize) -> (directives: Vec<Directive>)
        requires
            old(self).wf(),
        ensures
            final(self).wf(),
            final(self)@ == old(self)@.evicted(count as nat),
            directive_views(directives@) == cancel_directives(old(self)@.evictions(count as nat)),
    {
        let ghost before = self@;
        let ghost all = before.evictions(count as nat);
        let mut directives: Vec<Directive> = Vec::new();
        let ghost mut gone: Seq<u64> = Seq::empty();
        let mut left: usize = count;
        let mut searching = true;
        proof {
            assert(gone + self@.evictions(left as nat) =~= all);
            assert(directive_views(directives@) =~= cancel_directives(gone));
        }
        while left > 0 && searching
            invariant
                self.wf(),
                all == gone + self@.evictions(left as nat),
                before.evicted(count as nat) == self@.evicted(left as nat),
                directive_views(directives@) == cancel_directives(gone),
                !searching ==> !self@.has_inactive(),
            decreases left, searching as int,
        {
            let ghost now = self@;
            match self.find_oldest_inactive() {
                Some(session_id) => {
                    let ghost listed = directive_views(directives@);
                    let _ = self.take(session_id);
                    directives.push(Directive::Cancel { session_id });
                    left = left - 1;
                    proof {
                        let later = gone.push(session_id);
                        assert(now.evictions((left + 1) as nat) =~= seq![session_id]
                            + self@.evictions(left as nat));
                        assert(later + self@.evictions(left as nat) =~= gone + now.evictions(
                            (left + 1) as nat,
                        ));
                        assert(directive_views(directives@) =~= listed.push(
                            DirectiveView::Cancel { session_id },
                        ));
                        assert(cancel_directives(later) =~= cancel_directives(gone).push(
                            DirectiveView::Cancel { session_id },
                        ));
                        gone = later;
                    }
                },
                None => {
                    searching = false;
                },
            }
        }
        assert(gone + Seq::<u64>::empty() =~= gone);
        directives
    }

    /// Takes out the sessions that have not been seen for too long, and then as many without
    /// a tunnel as there are too many.
    pub fn prune_public_sessions(&mut self, current_wall: u64) -> (directives: Vec<Directive>)
        requires
            old(self).wf(),
        ensures
            final(self).wf(),
            final(self)@ == old(self)@.pruned(current_wall),
            old(self)@.prune_directives(current_wall, directive_views(directives@)),
    {
        let ghost before = self@;
        let selector = PublicSelector::Stale(current_wall);
        proof {
            lemma_same_ids(
                self@,
                |session: PublicView| selector.selects(session),
                |session: PublicView| session.is_stale(current_wall),
            );
        }
        let mut directives = self.drop_selected(&selector, true);
        let ghost stale = directive_views(directives@);
        let len: usize = self.len();
        let overflow: usize = len.saturating_sub(PUBLIC_SESSION_LIMIT);
        let mut evicted = self.evict(overflow);
        let ghost cancelled = directive_views(evicted@);
        directives.append(&mut evicted);
        proof {
            assert(directive_views(directives@) =~= stale + cancelled);
            let set = before.ids_where(|session: PublicView| session.is_stale(current_wall));
            lemma_drops_then(set, true, stale, cancelled);
        }
        directives
    }

    /// Takes note of a session that was created. Where there was one with the same identifier
    /// it is gone, and where there is no room the new one is not listed.
    pub fn session_created(&mut self, seed: SessionSeed, current_wall: u64) -> (outcome: (
        Vec<Directive>,
        bool,
    ))
        requires
            old(self).wf(),
        ensures
            final(self).wf(),
            ({
                let (directives, accepted) = outcome;
                let pruned = old(self)@.pruned(current_wall);
                let vacated = pruned.without_one(seed.id);
                let replaced = pruned.sessions.contains_key(seed.id);
                &&& accepted == (vacated.sessions.dom().len() < PUBLIC_SESSION_LIMIT)
                &&& final(self)@ == if accepted {
                    (RegistryView {
                        total_connections: vacated.total_connections.wrapping_add(1),
                        ..vacated
                    }).with(PublicView::from_seed(seed@))
                } else {
                    vacated
                }
                &&& if replaced {
                    &&& directives@.len() > 0
                    &&& directives@.last()@ == DirectiveView::Cancel { session_id: seed.id }
                    &&& old(self)@.prune_directives(
                        current_wall,
                        directive_views(directives@).drop_last(),
                    )
                } else {
                    old(self)@.prune_directives(current_wall, directive_views(directives@))
                }
            }),
    {
        let mut directives = self.prune_public_sessions(current_wall);
        let ghost listed = directive_views(directives@);
        let session_id: u64 = seed.id;
        if let Some(_) = self.take(session_id) {
            directives.push(Directive::Cancel { session_id });
            assert(directive_views(directives@).drop_last() =~= listed);
        }
        let ghost vacated = self@;
        if self.len() < PUBLIC_SESSION_LIMIT {
            self.total_connections = self.total_connections.wrapping_add(1);
            assert(self@ =~= (RegistryView {
                total_connections: vacated.total_connections.wrapping_add(1),
                ..vacated
            }));
            self.put(Session::new(seed));
            (directives, true)
        } else {
            (directives, false)
        }
    }

    /// Takes note that a session was closed. Says whether it was known.
    pub fn session_closed(&mut self, session_id: u64) -> (known: bool)
        requires
            old(self).wf(),
        ensures
            final(self).wf(),
            known == old(self)@.sessions.contains_key(session_id),
            final(self)@ == old(self)@.without_one(session_id),
    {
        self.take(session_id).is_some()
    }

    /// Drops a session: the engines are told, and what runs for it is stopped where it was
    /// known.
    pub fn drop_exact_session(&mut self, session_id: u64) -> (directives: Vec<Directive>)
        requires
            old(self).wf(),
        ensures
            final(self).wf(),
            final(self)@ == old(self)@.without_one(session_id),
            directive_views(directives@) == if old(self)@.sessions.contains_key(session_id) {
                seq![
                    DirectiveView::Order(CommandView::DropSession { session_id }),
                    DirectiveView::Cancel { session_id },
                ]
            } else {
                seq![DirectiveView::Order(CommandView::DropSession { session_id })]
            },
    {
        let ghost before = self@;
        let mut directives: Vec<Directive> = Vec::new();
        directives.push(Directive::Order(ProtocolCommand::DropSession { session_id }));
        if let Some(_) = self.take(session_id) {
            directives.push(Directive::Cancel { session_id });
        }
        assert(directive_views(directives@) =~= if before.sessions.contains_key(session_id) {
            seq![
                DirectiveView::Order(CommandView::DropSession { session_id }),
                DirectiveView::Cancel { session_id },
            ]
        } else {
            seq![DirectiveView::Order(CommandView::DropSession { session_id })]
        });
        directives
    }

    /// Takes note that a session has a tunnel.
    pub fn note_tunnel(&mut self, session_id: u64, ip: [u8; 4])
        requires
            old(self).wf(),
        ensures
            final(self).wf(),
            final(self)@ == if old(self)@.sessions.contains_key(session_id) {
                old(self)@.with(
                    (PublicView {
                        tunnel_ip: Some(ip),
                        has_tunnel: true,
                        ..old(self)@.sessions[session_id]
                    }),
                )
            } else {
                old(self)@
            },
    {
        let found = self.get(session_id);
        if let Some(known) = found {
            let mut session = known.copy();
            session.tunnel_ip = Some(ip);
            session.has_tunnel = true;
            self.put(session);
        }
    }

    /// Takes note of a change that an engine made known, and says what follows from it.
    /// `debug_active` says whether somebody watches the streams just now.
    pub fn apply(&mut self, update: PublicUpdate, debug_active: bool) -> (outcome: UpdateOutcome)
        requires
            old(self).wf(),
        ensures
            final(self).wf(),
            final(self)@ == old(self)@.updated(update@, debug_active),
            outcome == old(self)@.outcome(update@),
    {
        let ghost before = self@;
        let ghost what = update@;
        let session_id: u64 = match &update {
            PublicUpdate::Counters(report) => report.session_id,
            PublicUpdate::Tunnel { session_id, .. } => *session_id,
            PublicUpdate::Epoch { session_id, .. } => *session_id,
            PublicUpdate::HasTunnel { session_id, .. } => *session_id,
            PublicUpdate::Cancel { session_id } => *session_id,
        };
        let mut outcome = UpdateOutcome::Nothing;
        if let PublicUpdate::Counters(report) = &update {
            self.up_total = self.up_total.wrapping_add(report.up_delta);
            self.down_total = self.down_total.wrapping_add(report.down_delta);
        }
        if let PublicUpdate::Cancel { .. } = &update {
            outcome = UpdateOutcome::Cancel { session_id };
        }
        let ghost counted = self@;
        proof {
            assert(counted =~= match what {
                UpdateView::Counters(report) => RegistryView {
                    up_total: before.up_total.wrapping_add(report.up_delta),
                    down_total: before.down_total.wrapping_add(report.down_delta),
                    ..before
                },
                _ => before,
            });
        }
        let found = self.get(session_id);
        if let Some(known) = found {
            let mut session = known.copy();
            match update {
                PublicUpdate::Counters(report) => {
                    session.up_bytes = session.up_bytes.wrapping_add(report.up_delta);
                    session.down_bytes = session.down_bytes.wrapping_add(report.down_delta);
                    session.last_seen = report.last_seen;
                    let generation: u64 = session.stream_debug.generation;
                    let debug = if report.debug.generation == generation {
                        report.debug
                    } else {
                        outcome = UpdateOutcome::Resync { session_id, generation };
                        HotDebug::new(generation)
                    };
                    session.stream_debug.publish(
                        report.publish_debug && debug_active,
                        debug.up_bytes,
                        debug.down_bytes,
                        debug.up_packets,
                        debug.down_packets,
                    );
                },
                PublicUpdate::Tunnel { ip, desired_count, .. } => {
                    session.tunnel_ip = Some(ip);
                    session.desired_stream_count = desired_count as u64;
                    session.has_tunnel = true;
                },
                PublicUpdate::Epoch { device_id, generation_id, session_salt, .. } => {
                    session.device_id = device_id;
                    session.generation_id = generation_id;
                    session.session_salt = session_salt;
                },
                PublicUpdate::HasTunnel { has_tunnel, .. } => {
                    session.has_tunnel = has_tunnel;
                },
                PublicUpdate::Cancel { .. } => {},
            }
            assert(session@ =~= before.sessions[session_id].updated(what, debug_active));
            self.put(session);
        }
        outcome
    }
}

/// What is to be done for some sessions and then what follows, put together.
proof fn lemma_drops_then(
    set: Set<u64>,
    announced: bool,
    first: Seq<DirectiveView>,
    second: Seq<DirectiveView>,
)
    requires
        drops_in_some_order(set, announced, Seq::empty(), first),
    ensures
        drops_in_some_order(set, announced, second, first + second),
{
    let order = choose|order: Seq<u64>|
        {
            &&& #[trigger] lists_ids(order, set)
            &&& first == (if announced {
                drop_directives(order)
            } else {
                cancel_directives(order)
            }) + Seq::<DirectiveView>::empty()
        };
    let told = if announced {
        drop_directives(order)
    } else {
        cancel_directives(order)
    };
    assert(told + Seq::<DirectiveView>::empty() =~= told);
    assert(lists_ids(order, set));
}

/// The notice that the panel restarts, for all clients.
pub fn notify_panel_restart() -> (command: ProtocolCommand)
    ensures
        command@ == (CommandView::BroadcastPlain { payload: PANEL_RESTART_NOTICE@ }),
        command.wf(),
{
    ProtocolCommand::BroadcastPlain { payload: copy_of(PANEL_RESTART_NOTICE.as_slice()) }
}

/// Once it was pruned, a registry holds no session that has not been seen for too long, and
/// is not too large unless all its sessions have a tunnel.
pub proof fn pruning_bounds_the_registry(registry: RegistryView, wall_now: u64, id: u64)
    requires
        registry.sessions.dom().finite(),
    ensures
        registry.pruned(wall_now).sessions.contains_key(id) ==> !registry.sessions[id].is_stale(
            wall_now,
        ) && registry.pruned(wall_now).sessions[id] == registry.sessions[id],
        registry.sessions.contains_key(id) && registry.sessions[id].has_tunnel
            && !registry.sessions[id].is_stale(wall_now) ==> registry.pruned(
            wall_now,
        ).sessions.contains_key(id),
        registry.pruned(wall_now).sessions.dom().len() <= PUBLIC_SESSION_LIMIT || !registry.pruned(
            wall_now,
        ).has_inactive(),
{
    let rest = registry.without_stale(wall_now);
    assert(rest.sessions.dom() =~= registry.sessions.dom().difference(
        registry.ids_where(|session: PublicView| session.is_stale(wall_now)),
    ));
    lemma_evicted(rest, rest.overflow(), id);
}

proof fn lemma_evicted(registry: RegistryView, count: nat, id: u64)
    requires
        registry.sessions.dom().finite(),
    ensures
        registry.evicted(count).sessions.contains_key(id) ==> registry.sessions.contains_key(id)
            && registry.evicted(count).sessions[id] == registry.sessions[id],
        registry.sessions.contains_key(id) && registry.sessions[id].has_tunnel
            ==> registry.evicted(count).sessions.contains_key(id),
        registry.evicted(count).sessions.dom().len() + count <= registry.sessions.dom().len()
            || !registry.evicted(count).has_inactive(),
    decreases count,
{
    if count > 0 && registry.has_inactive() {
        lemma_some_oldest(registry);
        let gone = registry.oldest_inactive();
        let rest = registry.without_one(gone);
        assert(rest.sessions.dom() =~= registry.sessions.dom().remove(gone));
        lemma_evicted(rest, (count - 1) as nat, id);
    }
}

/// Where there is a session without a tunnel, one of them would have to go first.
pub(crate) proof fn lemma_some_oldest(registry: RegistryView)
    requires
        registry.sessions.dom().finite(),
        registry.has_inactive(),
    ensures
        registry.is_oldest_inactive(registry.oldest_inactive()),
    decreases registry.sessions.dom().len(),
{
    let some = choose|id: u64| #[trigger]
        registry.sessions.contains_key(id) && !registry.sessions[id].has_tunnel;
    let rest = registry.without_one(some);
    assert(rest.sessions.dom() =~= registry.sessions.dom().remove(some));
    if rest.has_inactive() {
        lemma_some_oldest(rest);
        let best = rest.oldest_inactive();
        assert(registry.sessions.contains_key(best) && registry.sessions.contains_key(some));
        let least = if registry.sessions[some].last_seen < registry.sessions[best].last_seen || (
        registry.sessions[some].last_seen == registry.sessions[best].last_seen && some <= best) {
            some
        } else {
            best
        };
        assert forall|other: u64| #[trigger]
            registry.sessions.contains_key(other)
                && !registry.sessions[other].has_tunnel implies registry.sessions[least].last_seen
            < registry.sessions[other].last_seen || (registry.sessions[least].last_seen
            == registry.sessions[other].last_seen && least <= other) by {
            if other != some {
                assert(rest.sessions.contains_key(other));
            }
        }
        assert(registry.is_oldest_inactive(least));
    } else {
        assert forall|other: u64| #[trigger]
            registry.sessions.contains_key(other)
                && !registry.sessions[other].has_tunnel implies other == some by {
            if other != some {
                assert(rest.sessions.contains_key(other));
            }
        }
        assert(registry.is_oldest_inactive(some));
    }
}

/// Once the sessions of a device that hold another key were purged, those that are left hold
/// the key in force, but for the current one.
pub proof fn purging_leaves_one_key(
    registry: RegistryView,
    identity: IdentityView,
    current: u64,
    id: u64,
)
    ensures
        ({
            let purged = registry.without(
                |session: PublicView| supersedes(session, identity, current),
            );
            &&& purged.sessions.contains_key(id) ==> registry.sessions.contains_key(id)
                && purged.sessions[id] == registry.sessions[id]
            &&& purged.sessions.contains_key(id) && registry.sessions[id].id != current
                && registry.sessions[id].device_id == identity.device_id
                ==> registry.sessions[id].identity() == identity
            &&& registry.sessions.contains_key(id) && registry.sessions[id].identity() == identity
                ==> purged.sessions.contains_key(id)
        }),
{
    if registry.sessions.contains_key(id) {
        assert(registry.sessions[id].identity() =~= identity || registry.sessions[id].device_id
            != identity.device_id || epoch::retired_by_epoch(
            registry.sessions[id].identity(),
            identity,
        ));
    }
}

/// What a list holds once one more was appended.
pub proof fn lemma_push_contains(ids: Seq<u64>, id: u64)
    ensures
        forall|other: u64| #[trigger]
            ids.push(id).contains(other) <==> ids.contains(other) || other == id,
        ids.no_duplicates() && !ids.contains(id) ==> ids.push(id).no_duplicates(),
{
    assert forall|other: u64| #[trigger] ids.push(id).contains(other) <==> ids.contains(other)
        || other == id by {
        if ids.contains(other) {
            let i = choose|i: int| 0 <= i < ids.len() && ids[i] == other;
            assert(ids.push(id)[i] == other);
        }
        assert(ids.push(id)[ids.len() as int] == id);
        if ids.push(id).contains(other) && other != id {
            let i = choose|i: int| 0 <= i < ids.push(id).len() && ids.push(id)[i] == other;
            assert(ids[i] == other);
        }
    }
}

} // verus!
