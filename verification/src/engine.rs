//! The protocol engine: one shard's sessions and what happens to them.
//!
//! The engine decides; its surroundings act. Whatever is to be sent, written, registered or
//! reported is left behind as an [`Effect`], to be taken out with
//! [`ProtocolEngine::take_effects`] and carried out in order.
pub mod commands;
pub mod downlink;
pub mod laws;
pub mod upkeep;

use crate::bytes::{copy_of, same_bytes, starts_with};
use crate::control;
use crate::control::{
    is_control_payload, is_idle_keepalive, GETCONF_PREFIX, READY, READY_OK, SESSION_LEASE,
};
use crate::crypto::seeded_rng;
use crate::dpi::DpiSampler;
use crate::effect;
use crate::effect::{
    ControlEvent, CredentialSet, CredentialView, DpiNote, Effect, EffectView, EventView, IoCounters,
    NoteView, PublicUpdate, RouteFallback, SessionSeed, UpdateView,
};
use crate::endpoint::{same_local_ip, same_tunnel_ip, EndpointKey, IpAddress, PeerAddress};
use crate::epoch;
use crate::epoch::{
    getconf_reconnect_action_hot, shard_for_device, GetconfReconnectAction, IdentityView,
    SessionEpochIdentity,
};
use crate::getconf;
use crate::getconf::parse_getconf_epoch;
use crate::rtp::OutState;
use crate::session;
use crate::session::{FecProfile, HotSession, SessionOrigin, SessionView};
use crate::slots;
use crate::slots::{
    slab_contains, slab_get, slab_get_mut, slab_insert, slab_len, slab_remove, slab_slots,
    slab_with_capacity,
};
use crate::stream;
use crate::stream::{InventoryView, RoundView, StreamInventory, StreamRepairRound};
use crate::table::Table;
use crate::text::same_text;
use crate::wire;
use crate::wire::{
    unwrap_legacy_in_place, wrap_legacy_into, DecodedPacket, PacketBuf, RangePair, Unwrapped,
    WrapKey,
};
use rand::rngs::StdRng;
use slab::Slab;
use std::collections::HashMap;
use vstd::prelude::*;
use vstd::string::*;

verus! {

/// How many sessions an engine holds at most.
pub const MAX_ACTIVE_SESSIONS: usize = 3072;

/// How long a session without a route may be silent.
pub const SESSION_SETUP_IDLE_MS: u64 = 15_000;

/// How long a session with a route may be silent.
pub const SESSION_AUTH_IDLE_MS: u64 = 36_000_000;

/// How often the streams are looked over.
pub const STREAM_RECONCILE_INTERVAL_MS: u64 = 3_000;

/// How often stock is taken of the streams although nothing is known to have changed.
pub const STREAM_INVENTORY_RESYNC_MS: u64 = 60_000;

/// How often epochs that are not in use are looked for.
pub const EPOCH_SWEEP_INTERVAL_MS: u64 = 300_000;

/// How long an epoch that is not in use is kept.
pub const EPOCH_IDLE_TTL_MS: u64 = 3_600_000;

/// How many sessions the tables have room for from the start.
pub const HOT_TABLE_RESERVE: usize = 128;

/// How often memory is compacted.
pub const MEMORY_COMPACT_INTERVAL_MS: u64 = 5_000;

/// How often sessions are looked over.
pub const SESSION_MAINTENANCE_INTERVAL_MS: u64 = 1_000;

/// How many set-up attempts are worked on per tick.
pub const SETUP_BUDGET_PER_TICK: usize = 1024;

/// How often a set-up that failed is reported.
pub const UNAUTHENTICATED_SETUP_LOG_INTERVAL_MS: u64 = 10_000;

/// How long packets from an endpoint whose session is moving are ignored.
pub const MIGRATING_ENDPOINT_TTL_MS: u64 = 2_000;

/// How often endpoints whose session has moved are forgotten.
pub const MIGRATING_ENDPOINT_SWEEP_INTERVAL_MS: u64 = 1_000;

/// The numbers and flags that an engine keeps.
#[derive(Clone, Copy, Debug)]
pub struct EngineState {
    pub monotonic_ms: u64,
    pub wall_now: u64,
    pub batch_now_ns: u64,
    pub debug_enabled: bool,
    pub dpi_enabled: bool,
    pub syscalls_enabled: bool,
    pub io_metrics_enabled: bool,
    pub dpi: DpiSampler,
    pub setup_budget: usize,
    pub unauthenticated_setup_logged: bool,
    pub last_unauthenticated_setup_log_ms: u64,
    pub last_io_counters: IoCounters,
    pub memory_compact_pending: bool,
    pub last_memory_compact_ms: u64,
    pub last_stream_reconcile_ms: u64,
    pub last_stream_inventory_resync_ms: u64,
    pub last_session_maintenance_ms: u64,
    pub last_migrating_endpoint_sweep_ms: u64,
    pub stream_inventory_dirty: bool,
    pub last_epoch_sweep_ms: u64,
    pub crypto_ops: u64,
}

/// What a session that may have to be made starts from: an identifier that no session has
/// had, the wall clock in milliseconds, the monotonic clock in nanoseconds, whether somebody
/// watches the streams just now, and the wall clock in seconds that the metrics go by.
#[derive(Clone, Copy, Debug)]
pub struct SessionStart {
    pub id: u64,
    pub wall_ms: u64,
    pub started_ns: u64,
    pub stream_debug_active: bool,
    pub cached_now: u64,
}

/// One shard's sessions.
pub struct ProtocolEngine {
    shard_index: usize,
    shard_count: usize,
    fec_profile: FecProfile,
    credentials: CredentialSet,
    epochs: Table<String, u64>,
    sessions: Slab<HotSession>,
    by_peer: Table<EndpointKey, usize>,
    by_id: HashMap<u64, usize>,
    migrating_endpoints: Table<EndpointKey, u64>,
    stream_repairs: Table<SessionEpochIdentity, StreamRepairRound>,
    stream_inventory: Table<SessionEpochIdentity, StreamInventory>,
    rng: StdRng,
    packet_capacity: usize,
    state: EngineState,
    effects: Vec<Effect>,
}

/// What a [`ProtocolEngine`] says.
#[verifier::ext_equal]
pub struct EngineView {
    pub shard_index: usize,
    pub shard_count: usize,
    pub fec_profile: FecProfile,
    /// How long a packet may be.
    pub packet_capacity: usize,
    pub credentials: Seq<CredentialView>,
    /// When each device was last heard of.
    pub epochs: Map<Seq<char>, u64>,
    /// The sessions, by slot.
    pub sessions: Map<usize, SessionView>,
    /// The slot of the session at an endpoint.
    pub by_peer: Map<EndpointKey, usize>,
    /// The slot of a session.
    pub by_id: Map<u64, usize>,
    /// The endpoints whose session went to another shard, and when.
    pub migrating: Map<EndpointKey, u64>,
    pub repairs: Map<IdentityView, RoundView>,
    pub inventory: Map<IdentityView, InventoryView>,
    pub state: EngineState,
    /// What is still to be carried out.
    pub effects: Seq<EffectView>,
}

/// What the sessions say.
pub open spec fn session_views(sessions: Map<usize, HotSession>) -> Map<usize, SessionView> {
    Map::new(|slot: usize| sessions.contains_key(slot), |slot: usize| sessions[slot]@)
}

impl View for ProtocolEngine {
    type V = EngineView;

    closed spec fn view(&self) -> EngineView {
        EngineView {
            shard_index: self.shard_index,
            shard_count: self.shard_count,
            fec_profile: self.fec_profile,
            packet_capacity: self.packet_capacity,
            credentials: self.credentials@,
            epochs: self.epochs@,
            sessions: session_views(slots::slab_sessions(self.sessions)),
            by_peer: self.by_peer@,
            by_id: self.by_id@,
            migrating: self.migrating_endpoints@,
            repairs: self.stream_repairs@,
            inventory: self.stream_inventory@,
            state: self.state,
            effects: effect::effect_views(self.effects@),
        }
    }
}

/// `candidate` can take over the route of `gone`: it has a route of its own to the same
/// address, for the same device, key and worker.
pub open spec fn takes_over(candidate: SessionView, gone: SessionView) -> bool {
    &&& candidate.tunnel_ip == gone.tunnel_ip
    &&& candidate.registration_id is Some
    &&& candidate.identity() == gone.identity()
    &&& candidate.worker_id == gone.worker_id
}

/// The session in `slot` is the one to take over the route of `gone`: the latest that can.
pub open spec fn is_heir(
    sessions: Map<usize, SessionView>,
    gone: SessionView,
    slot: usize,
) -> bool {
    &&& sessions.contains_key(slot)
    &&& takes_over(sessions[slot], gone)
    &&& forall|other: usize| #[trigger]
        sessions.contains_key(other) && takes_over(sessions[other], gone) ==> sessions[other].id
            < sessions[slot].id || (sessions[other].id == sessions[slot].id && other <= slot)
}

/// The session that takes over the route of `gone`, if there is one.
pub open spec fn heir(sessions: Map<usize, SessionView>, gone: SessionView) -> Option<
    RouteFallback,
> {
    if gone.worker_id <= u16::MAX && exists|slot: usize| is_heir(sessions, gone, slot) {
        let slot = choose|slot: usize| is_heir(sessions, gone, slot);
        Some(
            RouteFallback {
                slot,
                session_id: sessions[slot].id,
                registration_id: sessions[slot].registration_id->0,
                worker_id: gone.worker_id as u16,
            },
        )
    } else {
        None
    }
}

/// What is to be done when a session is removed: report its traffic, give up its route,
/// and tell the control side.
pub open spec fn removal_effects(
    gone: SessionView,
    rest: Map<usize, SessionView>,
    state: EngineState,
    reason: Seq<char>,
) -> Seq<EffectView> {
    let report = EffectView::Public(
        UpdateView::Counters(gone.report(state.wall_now, state.debug_enabled)),
    );
    let release = if gone.routed() {
        seq![
            EffectView::ReleaseRoute {
                ip: gone.tunnel_ip->0,
                registration_id: gone.registration_id->0,
                fallback: heir(rest, gone),
            },
        ]
    } else {
        Seq::empty()
    };
    seq![report] + release + seq![
        EffectView::Public(UpdateView::HasTunnel { session_id: gone.id, has_tunnel: false }),
        EffectView::Public(UpdateView::Cancel { session_id: gone.id }),
        EffectView::Control(
            EventView::SessionClosed { address: gone.peer, session_id: gone.id, reason },
        ),
    ]
}

/// What the control side hears of a new session.
pub open spec fn creation_effects(
    created: SessionView,
    payload: Seq<u8>,
) -> Seq<EffectView> {
    seq![
        EffectView::BindEndpoint { peer: created.peer, local_ip: created.local_ip },
        EffectView::Control(EventView::SessionCreated(effect::seed_of(created))),
        EffectView::Control(
            EventView::Payload { address: created.peer, session_id: created.id, payload },
        ),
    ]
}

impl EngineView {
    /// The indexes lead to live sessions: what stands for an endpoint or an identifier leads
    /// to a session with that endpoint or identifier.
    pub open spec fn valid(self) -> bool {
        &&& forall|key: EndpointKey| #[trigger]
            self.by_peer.contains_key(key) ==> self.sessions.contains_key(self.by_peer[key])
                && self.sessions[self.by_peer[key]].endpoint() == key
        &&& forall|id: u64| #[trigger]
            self.by_id.contains_key(id) ==> self.sessions.contains_key(self.by_id[id])
                && self.sessions[self.by_id[id]].id == id
    }

    /// The engine with one more effect left behind.
    pub open spec fn emit(self, effect: EffectView) -> EngineView {
        EngineView { effects: self.effects.push(effect), ..self }
    }

    /// The engine with more effects left behind.
    pub open spec fn emit_all(self, effects: Seq<EffectView>) -> EngineView {
        EngineView { effects: self.effects + effects, ..self }
    }

    /// The engine with a session in a slot.
    pub open spec fn with_session(self, slot: usize, session: SessionView) -> EngineView {
        EngineView { sessions: self.sessions.insert(slot, session), ..self }
    }

    /// The engine with a session in a slot, listed under its endpoint and identifier.
    pub open spec fn with_listed(self, slot: usize, session: SessionView) -> EngineView {
        EngineView {
            sessions: self.sessions.insert(slot, session),
            by_peer: self.by_peer.insert(session.endpoint(), slot),
            by_id: self.by_id.insert(session.id, slot),
            ..self
        }
    }

    /// The engine without the session in a slot.
    pub open spec fn without_session(self, slot: usize) -> EngineView {
        let gone = self.sessions[slot];
        EngineView {
            sessions: self.sessions.remove(slot),
            by_peer: self.by_peer.remove(gone.endpoint()),
            by_id: self.by_id.remove(gone.id),
            ..self
        }
    }

    /// The engine once the streams have to be counted anew.
    pub open spec fn with_dirty_inventory(self) -> EngineView {
        EngineView {
            state: EngineState { stream_inventory_dirty: true, ..self.state },
            ..self
        }
    }

    /// The engine once the session in a slot, if any, was removed for a reason.
    pub open spec fn removed(self, slot: usize, reason: Seq<char>) -> EngineView {
        if !self.sessions.contains_key(slot) {
            self
        } else {
            let rest = self.without_session(slot);
            EngineView {
                state: EngineState {
                    memory_compact_pending: true,
                    stream_inventory_dirty: true,
                    ..self.state
                },
                ..rest
            }.emit_all(
                removal_effects(self.sessions[slot], rest.sessions, self.state, reason),
            )
        }
    }

    /// The engine once the sessions in some slots were removed, the last slot first.
    pub open spec fn removed_all(self, slots: Seq<usize>, reason: Seq<char>) -> EngineView
        decreases slots.len(),
    {
        if slots.len() == 0 {
            self
        } else {
            self.removed(slots.last(), reason).removed_all(slots.drop_last(), reason)
        }
    }

    /// The engine once it has room for a session at an endpoint: the session that was there
    /// is removed.
    pub open spec fn vacated(self, key: EndpointKey) -> EngineView {
        if self.by_peer.contains_key(key) {
            self.removed(self.by_peer[key], "peer-replaced"@)
        } else {
            self
        }
    }

    /// The engine once a new session was made in `slot`.
    pub open spec fn created(self, slot: usize, session: SessionView) -> EngineView {
        self.vacated(session.endpoint()).with_listed(slot, session).with_dirty_inventory()
    }

    /// The engine once the new session in `slot` was put where it belongs: it stays if this
    /// shard owns its device, else it goes to the shard that does.
    pub open spec fn placed(self, slot: usize, payload: Seq<u8>) -> EngineView {
        let session = self.sessions[slot];
        let target = owner_shard(session.device_id, self.shard_count);
        if !self.sessions.contains_key(slot) {
            self
        } else if target == self.shard_index {
            self.emit_all(creation_effects(session, payload))
        } else {
            let rest = self.without_session(slot);
            EngineView {
                migrating: rest.migrating.insert(session.endpoint(), self.state.monotonic_ms),
                ..rest
            }.emit(EffectView::Migrate { target: target as usize, session, payload })
        }
    }

    /// The slots of the sessions of which `chosen` holds, in ascending order.
    pub open spec fn slots_where(self, chosen: spec_fn(SessionView) -> bool) -> Seq<usize> {
        slots::sorted(
            Set::new(
                |slot: usize| self.sessions.contains_key(slot) && chosen(self.sessions[slot]),
            ),
        )
    }
}

/// The shard that owns a device.
pub open spec fn owner_shard(device_id: Seq<char>, shard_count: usize) -> int {
    (epoch::fnv1a(vstd::utf8::encode_utf8(device_id)) as usize) as int % (if shard_count == 0 {
        1
    } else {
        shard_count as int
    })
}

/// The counters of a session that was made from `start` for packets of `payload_type`.
pub open spec fn fresh_output(output: OutState, payload_type: u8, start: SessionStart) -> bool {
    &&& output.payload_type == payload_type
    &&& output.started_ns == start.started_ns
    &&& output.count == 0
    &&& output.initial_abs_send_time == (start.wall_ms * 262_144 / 1_000) % 0x100_0000
}

/// A new session that has seen the packet numbered `replay_seq`.
pub open spec fn opened_session(
    origin: SessionOrigin,
    output: OutState,
    replay_seq: u16,
) -> SessionView {
    let made = session::new_session(origin, output);
    SessionView { replay: made.replay.after(replay_seq), ..made }
}

/// The indexes of an engine stay valid when a session is removed.
pub proof fn removal_keeps_indexes_valid(engine: EngineView, slot: usize, reason: Seq<char>)
    requires
        engine.valid(),
    ensures
        engine.removed(slot, reason).valid(),
        !engine.removed(slot, reason).sessions.contains_key(slot),
{
}

/// The indexes of an engine stay valid when sessions are removed.
pub proof fn removals_keep_indexes_valid(
    engine: EngineView,
    slots: Seq<usize>,
    reason: Seq<char>,
)
    requires
        engine.valid(),
    ensures
        engine.removed_all(slots, reason).valid(),
    decreases slots.len(),
{
    if slots.len() > 0 {
        removal_keeps_indexes_valid(engine, slots.last(), reason);
        removals_keep_indexes_valid(
            engine.removed(slots.last(), reason),
            slots.drop_last(),
            reason,
        );
    }
}

/// At most one session can be the one to take over a route.
proof fn lemma_heir_unique(
    sessions: Map<usize, SessionView>,
    gone: SessionView,
    left: usize,
    right: usize,
)
    requires
        is_heir(sessions, gone, left),
        is_heir(sessions, gone, right),
    ensures
        left == right,
{
    assert(sessions.contains_key(left) && takes_over(sessions[left], gone));
    assert(sessions.contains_key(right) && takes_over(sessions[right], gone));
}

proof fn lemma_view_insert(sessions: Map<usize, HotSession>, slot: usize, session: HotSession)
    ensures
        session_views(sessions.insert(slot, session)) == session_views(sessions).insert(
            slot,
            session@,
        ),
{
    assert(session_views(sessions.insert(slot, session)) =~= session_views(sessions).insert(
        slot,
        session@,
    ));
}

proof fn lemma_view_remove(sessions: Map<usize, HotSession>, slot: usize)
    ensures
        session_views(sessions.remove(slot)) == session_views(sessions).remove(slot),
{
    assert(session_views(sessions.remove(slot)) =~= session_views(sessions).remove(slot));
}

impl ProtocolEngine {
    /// All parts satisfy their invariants, and the indexes lead to live sessions.
    pub closed spec fn wf(&self) -> bool {
        &&& self.epochs.wf()
        &&& self.by_peer.wf()
        &&& self.migrating_endpoints.wf()
        &&& self.stream_repairs.wf()
        &&& self.stream_inventory.wf()
        &&& forall|slot: usize| #[trigger]
            slots::slab_sessions(self.sessions).contains_key(slot) ==> slots::slab_sessions(
                self.sessions,
            )[slot].wf()
        &&& self@.valid()
    }

    /// Leaves an effect behind.
    fn emit(&mut self, effect: Effect)
        requires
            old(self).wf(),
        ensures
            final(self).wf(),
            final(self)@ == old(self)@.emit(effect@),
    {
        let ghost before = self@;
        self.effects.push(effect);
        assert(self@ =~= before.emit(effect@));
    }

    /// The session that takes over the route of `gone`, if there is one.
    fn find_heir(&self, gone: &HotSession) -> (fallback: Option<RouteFallback>)
        requires
            self.wf(),
            gone.tunnel_ip is Some,
        ensures
            fallback == heir(self@.sessions, gone@),
    {
        let ghost sessions = self@.sessions;
        let slots = slab_slots(&self.sessions);
        let mut best: Option<usize> = None;
        let mut i: usize = 0;
        while i < slots.len()
            invariant
                i <= slots@.len(),
                self.wf(),
                sessions == self@.sessions,
                gone.tunnel_ip is Some,
                slots::ascending(slots@),
                forall|slot: usize| slots@.contains(slot) <==> sessions.contains_key(slot),
                match best {
                    Some(slot) => {
                        &&& sessions.contains_key(slot)
                        &&& takes_over(sessions[slot], gone@)
                        &&& exists|k: int| 0 <= k < i && slots@[k] == slot
                        &&& forall|j: int|
                            0 <= j < i && takes_over(sessions[#[trigger] slots@[j]], gone@)
                                ==> sessions[slots@[j]].id < sessions[slot].id || (
                            sessions[slots@[j]].id == sessions[slot].id && slots@[j] <= slot)
                    },
                    None => forall|j: int|
                        0 <= j < i ==> !takes_over(sessions[#[trigger] slots@[j]], gone@),
                },
            decreases slots.len() - i,
        {
            let slot: usize = slots[i];
            proof {
                assert(slots@.contains(slot));
                assert(sessions.contains_key(slot));
            }
            if let Some(candidate) = slab_get(&self.sessions, slot) {
                if Self::can_take_over(candidate, gone) {
                    let better = match best {
                        None => true,
                        Some(current) => match slab_get(&self.sessions, current) {
                            None => true,
                            Some(other) => candidate.id >= other.id,
                        },
                    };
                    if better {
                        best = Some(slot);
                    }
                }
            }
            i += 1;
        }
        proof {
            match best {
                Some(slot) => {
                    assert forall|other: usize| #[trigger]
                        sessions.contains_key(other) && takes_over(
                            sessions[other],
                            gone@,
                        ) implies sessions[other].id < sessions[slot].id || (sessions[other].id
                        == sessions[slot].id && other <= slot) by {
                        assert(slots@.contains(other));
                        let j = choose|j: int| 0 <= j < slots@.len() && slots@[j] == other;
                        assert(takes_over(sessions[slots@[j]], gone@));
                    }
                    assert(is_heir(sessions, gone@, slot));
                    lemma_heir_unique(
                        sessions,
                        gone@,
                        slot,
                        choose|s: usize| is_heir(sessions, gone@, s),
                    );
                },
                None => {
                    assert forall|slot: usize| !is_heir(sessions, gone@, slot) by {
                        if is_heir(sessions, gone@, slot) {
                            assert(slots@.contains(slot));
                            let j = choose|j: int| 0 <= j < slots@.len() && slots@[j] == slot;
                            assert(!takes_over(sessions[slots@[j]], gone@));
                        }
                    }
                },
            }
        }
        match best {
            Some(slot) => match slab_get(&self.sessions, slot) {
                Some(chosen) => if gone.worker_id <= 0xffff {
                    match chosen.registration_id {
                        Some(registration_id) => Some(
                            RouteFallback {
                                slot,
                                session_id: chosen.id,
                                registration_id,
                                worker_id: gone.worker_id as u16,
                            },
                        ),
                        None => None,
                    }
                } else {
                    None
                },
                None => None,
            },
            None => None,
        }
    }

    /// Whether `candidate` can take over the route of `gone`.
    fn can_take_over(candidate: &HotSession, gone: &HotSession) -> (able: bool)
        requires
            gone.tunnel_ip is Some,
        ensures
            able == takes_over(candidate@, gone@),
    {
        let same_ip = match (candidate.tunnel_ip, gone.tunnel_ip) {
            (Some(a), Some(b)) => same_tunnel_ip(a, b),
            _ => false,
        };
        let same_identity = same_text(candidate.device_id.as_str(), gone.device_id.as_str())
            && candidate.generation_id == gone.generation_id && same_text(
            candidate.session_salt.as_str(),
            gone.session_salt.as_str(),
        );
        proof {
            assert(same_identity == (candidate@.identity() =~= gone@.identity()));
        }
        same_ip && candidate.registration_id.is_some() && same_identity && candidate.worker_id
            == gone.worker_id
    }

    /// Removes the session in a slot, if there is one.
    pub fn remove_slot_with_reason(&mut self, slot: usize, reason: &'static str)
        requires
            old(self).wf(),
        ensures
            final(self).wf(),
            final(self)@ == old(self)@.removed(slot, reason@),
    {
        broadcast use vstd::std_specs::hash::group_hash_axioms;

        let ghost before = self@;
        let ghost slab_before = slots::slab_sessions(self.sessions);
        if !slab_contains(&self.sessions, slot) {
            return ;
        }
        let mut gone = slab_remove(&mut self.sessions, slot);
        let ghost gone_view = gone@;
        proof {
            lemma_view_remove(slab_before, slot);
        }
        let report = gone.publish_counters(self.state.wall_now, self.state.debug_enabled);
        let _ = self.by_peer.remove(&EndpointKey::new(gone.peer, gone.local_ip));
        let _ = self.by_id.remove(&gone.id);
        let ghost rest = self@.sessions;
        proof {
            removal_keeps_indexes_valid(before, slot, reason@);
            assert(self@.sessions =~= before.sessions.remove(slot));
            assert(self@.by_peer =~= before.by_peer.remove(gone_view.endpoint()));
            assert(self@.by_id =~= before.by_id.remove(gone_view.id));
            assert(self@.valid());
        }
        let fallback = if gone.tunnel_ip.is_some() {
            self.find_heir(&gone)
        } else {
            None
        };
        self.state.memory_compact_pending = true;
        self.state.stream_inventory_dirty = true;
        self.effects.push(Effect::Public(PublicUpdate::Counters(report)));
        if let (Some(ip), Some(registration_id)) = (gone.tunnel_ip, gone.registration_id) {
            proof {
                assert(heir(rest, gone@) == heir(rest, gone_view)) by {
                    lemma_heir_of_reported(rest, gone_view);
                }
            }
            self.effects.push(Effect::ReleaseRoute { ip, registration_id, fallback });
        }
        self.effects.push(
            Effect::Public(PublicUpdate::HasTunnel { session_id: gone.id, has_tunnel: false }),
        );
        self.effects.push(Effect::Public(PublicUpdate::Cancel { session_id: gone.id }));
        self.effects.push(
            Effect::Control(
                ControlEvent::SessionClosed { address: gone.peer, session_id: gone.id, reason },
            ),
        );
        proof {
            assert(self@.effects =~= before.effects + removal_effects(
                gone_view,
                rest,
                before.state,
                reason@,
            ));
            assert(self@ =~= before.removed(slot, reason@));
        }
    }
}

/// Whether a session has reported its traffic makes no difference to who takes over its
/// route.
proof fn lemma_heir_of_reported(sessions: Map<usize, SessionView>, gone: SessionView)
    ensures
        heir(sessions, gone.reported()) == heir(sessions, gone),
{
    assert forall|slot: usize| is_heir(sessions, gone.reported(), slot) == is_heir(
        sessions,
        gone,
        slot,
    ) by {
        assert forall|other: usize| takes_over(sessions[other], gone.reported()) == takes_over(
            sessions[other],
            gone,
        ) by {}
    }
    if exists|slot: usize| is_heir(sessions, gone, slot) {
        let a = choose|slot: usize| is_heir(sessions, gone, slot);
        let b = choose|slot: usize| is_heir(sessions, gone.reported(), slot);
        assert(is_heir(sessions, gone.reported(), a));
        lemma_heir_unique(sessions, gone, a, b);
    } else {
        assert forall|slot: usize| !is_heir(sessions, gone.reported(), slot) by {
            assert(!is_heir(sessions, gone, slot));
        }
    }
}

/// The session that a packet of unknown origin opens under a credential, if it does: what
/// the packet holds, and the device, generation and salt that it asks for.
pub open spec fn setup_under(credential: CredentialView, wire: Seq<u8>) -> Option<
    (Unwrapped, (Seq<char>, nat, Seq<char>)),
> {
    match wire::decode(credential.key, wire, None) {
        Ok(unwrapped) => match getconf::payload_epoch(unwrapped.plain) {
            Some(epoch) => Some((unwrapped, epoch)),
            None => None,
        },
        Err(_) => None,
    }
}

/// The first credential, from number `from` on, under which the packet opens a session.
pub open spec fn setup_credential(
    credentials: Seq<CredentialView>,
    wire: Seq<u8>,
    from: int,
) -> Option<int>
    decreases credentials.len() - from,
{
    if from < 0 || from >= credentials.len() {
        None
    } else if setup_under(credentials[from], wire) is Some {
        Some(from)
    } else {
        setup_credential(credentials, wire, from + 1)
    }
}

/// Under how many of the first `upto` credentials the packet can be unwrapped.
pub open spec fn unwrapped_under(
    credentials: Seq<CredentialView>,
    wire: Seq<u8>,
    upto: int,
) -> int
    decreases upto,
{
    if upto <= 0 {
        0
    } else {
        unwrapped_under(credentials, wire, upto - 1) + if wire::decode(
            credentials[upto - 1].key,
            wire,
            None,
        ) is Ok {
            1int
        } else {
            0int
        }
    }
}

/// A count of cryptographic operations after `more` of them, if they are counted.
pub open spec fn counted_ops(state: EngineState, more: int) -> u64 {
    if state.syscalls_enabled {
        ((state.crypto_ops + more) % 0x1_0000_0000_0000_0000) as u64
    } else {
        state.crypto_ops
    }
}

impl EngineView {
    /// A packet is to be shown to an observer.
    pub open spec fn shows(self, plain: Seq<u8>) -> bool {
        self.state.dpi.shows(self.state.dpi_enabled, self.state.monotonic_ms, plain)
    }

    /// The engine once a packet went by that might be shown to an observer.
    pub open spec fn sampled(self, plain: Seq<u8>) -> EngineView {
        EngineView {
            state: EngineState {
                dpi: self.state.dpi.after(
                    self.state.dpi_enabled,
                    self.state.monotonic_ms,
                    plain,
                ),
                ..self.state
            },
            ..self
        }
    }

    /// The engine once a packet that came for the session in `slot` was shown, if it is to
    /// be.
    pub open spec fn inspected(
        self,
        slot: usize,
        payload_type: u8,
        seq: u64,
        plain: Seq<u8>,
        wire_len: usize,
    ) -> EngineView {
        let session = self.sessions[slot];
        let note = NoteView {
            inbound: true,
            peer: session.peer,
            payload_type,
            seq,
            plain,
            wire_len,
            device_id: session.device_id,
            generation_id: session.generation_id,
            session_salt: session.session_salt,
        };
        if self.shows(plain) {
            self.sampled(plain).emit(EffectView::RecordDpi(note))
        } else {
            self.sampled(plain)
        }
    }

    /// Packets of unknown origin are not looked at: there is no room for another session, or
    /// the packet is too long, or enough were looked at since the last tick.
    pub open spec fn refuses_setup(self, wire_len: nat) -> bool {
        ||| self.sessions.dom().len() >= MAX_ACTIVE_SESSIONS
        ||| wire_len > self.packet_capacity
        ||| self.state.setup_budget == 0
    }

    /// The engine once it has looked at a packet of unknown origin.
    pub open spec fn looked_at(self, wire: Seq<u8>) -> EngineView {
        let tried = match setup_credential(self.credentials, wire, 0) {
            Some(at) => at + 1,
            None => self.credentials.len() as int,
        };
        EngineView {
            state: EngineState {
                setup_budget: (self.state.setup_budget - 1) as usize,
                crypto_ops: counted_ops(
                    self.state,
                    unwrapped_under(self.credentials, wire, tried),
                ),
                ..self.state
            },
            ..self
        }
    }

    /// The engine once it has reported, unless it did so lately, that a session could not be
    /// set up.
    pub open spec fn reported_setup(self, peer: PeerAddress, wire_len: usize) -> EngineView {
        if self.state.unauthenticated_setup_logged && stream::since(
            self.state.monotonic_ms,
            self.state.last_unauthenticated_setup_log_ms,
        ) < UNAUTHENTICATED_SETUP_LOG_INTERVAL_MS {
            self
        } else {
            EngineView {
                state: EngineState {
                    unauthenticated_setup_logged: true,
                    last_unauthenticated_setup_log_ms: self.state.monotonic_ms,
                    ..self.state
                },
                ..self
            }.emit(EffectView::ReportRejectedSetup { peer, wire_len })
        }
    }

    /// What a session of this engine that starts now is made of.
    pub open spec fn origin(
        self,
        start: SessionStart,
        endpoint: EndpointKey,
        password: Seq<char>,
        key: WrapKey,
        is_srtp: bool,
        identity: IdentityView,
    ) -> SessionOrigin {
        SessionOrigin {
            id: start.id,
            peer: endpoint.peer,
            local_ip: endpoint.local_ip,
            password,
            key,
            is_srtp,
            identity,
            fec_profile: self.fec_profile,
            stream_debug_active: start.stream_debug_active,
            cached_now: start.cached_now,
            monotonic_ms: self.state.monotonic_ms,
            wall_now: self.state.wall_now,
        }
    }
}

impl ProtocolEngine {
    /// The indexes of an engine that is in order lead to live sessions, and the replay windows
    /// of its sessions are valid.
    pub proof fn indexes_lead_to_sessions(&self)
        requires
            self.wf(),
        ensures
            self@.valid(),
            forall|slot: usize| #[trigger]
                self@.sessions.contains_key(slot) ==> self@.sessions[slot].replay.valid(),
    {
        let held = slots::slab_sessions(self.sessions);
        assert forall|slot: usize| #[trigger]
            self@.sessions.contains_key(slot) implies self@.sessions[slot].replay.valid() by {
            assert(held.contains_key(slot));
            held[slot].replay.a_window_is_valid();
        }
    }

    /// An engine without sessions.
    pub fn new(
        shard_index: usize,
        shard_count: usize,
        credentials: CredentialSet,
        epochs: Table<String, u64>,
        fec_profile: FecProfile,
        packet_capacity: usize,
        wall_now: u64,
    ) -> (engine: ProtocolEngine)
        requires
            epochs.wf(),
        ensures
            engine.wf(),
            engine@ == (EngineView {
                shard_index,
                shard_count,
                fec_profile,
                packet_capacity,
                credentials: credentials@,
                epochs: epochs@,
                sessions: Map::<usize, SessionView>::empty(),
                by_peer: Map::<EndpointKey, usize>::empty(),
                by_id: Map::<u64, usize>::empty(),
                migrating: Map::<EndpointKey, u64>::empty(),
                repairs: Map::<IdentityView, RoundView>::empty(),
                inventory: Map::<IdentityView, InventoryView>::empty(),
                state: EngineState {
                    monotonic_ms: 1,
                    wall_now,
                    batch_now_ns: 0,
                    debug_enabled: false,
                    dpi_enabled: false,
                    syscalls_enabled: false,
                    io_metrics_enabled: false,
                    dpi: DpiSampler { payload_counter: 0, last_sample_ms: 0 },
                    setup_budget: 2048,
                    unauthenticated_setup_logged: false,
                    last_unauthenticated_setup_log_ms: 0,
                    last_io_counters: IoCounters::zero(),
                    memory_compact_pending: false,
                    last_memory_compact_ms: 0,
                    last_stream_reconcile_ms: 0,
                    last_stream_inventory_resync_ms: 0,
                    last_session_maintenance_ms: 0,
                    last_migrating_endpoint_sweep_ms: 0,
                    stream_inventory_dirty: true,
                    last_epoch_sweep_ms: 0,
                    crypto_ops: 0,
                },
                effects: Seq::<EffectView>::empty(),
            }),
    {
        broadcast use vstd::std_specs::hash::group_hash_axioms;

        let engine = ProtocolEngine {
            shard_index,
            shard_count,
            fec_profile,
            credentials,
            epochs,
            sessions: slab_with_capacity(HOT_TABLE_RESERVE),
            by_peer: Table::new(),
            by_id: HashMap::new(),
            migrating_endpoints: Table::new(),
            stream_repairs: Table::new(),
            stream_inventory: Table::new(),
            rng: seeded_rng(),
            packet_capacity,
            state: EngineState {
                monotonic_ms: 1,
                wall_now,
                batch_now_ns: 0,
                debug_enabled: false,
                dpi_enabled: false,
                syscalls_enabled: false,
                io_metrics_enabled: false,
                dpi: DpiSampler { payload_counter: 0, last_sample_ms: 0 },
                setup_budget: SETUP_BUDGET_PER_TICK * 2,
                unauthenticated_setup_logged: false,
                last_unauthenticated_setup_log_ms: 0,
                last_io_counters: IoCounters::default(),
                memory_compact_pending: false,
                last_memory_compact_ms: 0,
                last_stream_reconcile_ms: 0,
                last_stream_inventory_resync_ms: 0,
                last_session_maintenance_ms: 0,
                last_migrating_endpoint_sweep_ms: 0,
                stream_inventory_dirty: true,
                last_epoch_sweep_ms: 0,
                crypto_ops: 0,
            },
            effects: Vec::new(),
        };
        assert(engine@.sessions =~= Map::<usize, SessionView>::empty());
        assert(engine@.effects =~= Seq::<EffectView>::empty());
        engine
    }

    /// Takes out what is to be carried out.
    pub fn take_effects(&mut self) -> (effects: Vec<Effect>)
        requires
            old(self).wf(),
        ensures
            final(self).wf(),
            effect::effect_views(effects@) == old(self)@.effects,
            final(self)@ == (EngineView { effects: Seq::<EffectView>::empty(), ..old(self)@ }),
    {
        let ghost before = self@;
        let mut effects: Vec<Effect> = Vec::new();
        std::mem::swap(&mut self.effects, &mut effects);
        assert(self@ =~= (EngineView { effects: Seq::<EffectView>::empty(), ..before }));
        effects
    }

    /// How many sessions there are.
    pub fn session_count(&self) -> (count: usize)
        ensures
            count == self@.sessions.dom().len(),
    {
        assert(self@.sessions.dom() =~= slots::slab_sessions(self.sessions).dom());
        slab_len(&self.sessions)
    }

    /// The session in a slot.
    pub fn session(&self, slot: usize) -> (found: Option<&HotSession>)
        ensures
            found is Some <==> self@.sessions.contains_key(slot),
            found is Some ==> found->0@ == self@.sessions[slot],
    {
        slab_get(&self.sessions, slot)
    }

    /// The slot of a session.
    pub fn slot_of(&self, session_id: u64) -> (slot: Option<usize>)
        requires
            self.wf(),
        ensures
            slot is Some <==> self@.by_id.contains_key(session_id),
            slot is Some ==> slot->0 == self@.by_id[session_id] && self@.sessions.contains_key(
                slot->0,
            ) && self@.sessions[slot->0].id == session_id,
    {
        broadcast use vstd::std_specs::hash::group_hash_axioms;

        match self.by_id.get(&session_id) {
            Some(slot) => Some(*slot),
            None => None,
        }
    }

    /// The slot of the session at an endpoint.
    pub fn slot_at(&self, peer: PeerAddress, local_ip: Option<IpAddress>) -> (slot: Option<usize>)
        requires
            self.wf(),
        ensures
            slot is Some <==> self@.by_peer.contains_key((EndpointKey { peer, local_ip })),
            slot is Some ==> slot->0 == self@.by_peer[(EndpointKey { peer, local_ip })]
                && self@.sessions.contains_key(slot->0),
    {
        match self.by_peer.get(&EndpointKey::new(peer, local_ip)) {
            Some(slot) => Some(*slot),
            None => None,
        }
    }

    /// Puts a session into a slot and lists it.
    fn insert_listed(&mut self, session: HotSession) -> (slot: usize)
        requires
            old(self).wf(),
            session.wf(),
        ensures
            final(self).wf(),
            !old(self)@.sessions.contains_key(slot),
            final(self)@ == old(self)@.with_listed(slot, session@),
    {
        broadcast use vstd::std_specs::hash::group_hash_axioms;

        let ghost before = self@;
        let ghost slab_before = slots::slab_sessions(self.sessions);
        let endpoint = EndpointKey::new(session.peer, session.local_ip);
        let id: u64 = session.id;
        let slot: usize = slab_insert(&mut self.sessions, session);
        self.by_peer.insert(endpoint, slot);
        self.by_id.insert(id, slot);
        proof {
            lemma_view_insert(slab_before, slot, session);
            assert(self@ =~= before.with_listed(slot, session@));
        }
        slot
    }

    /// Makes a new session, in place of the one that was at its endpoint.
    pub fn create_legacy_session(
        &mut self,
        peer: PeerAddress,
        local_ip: Option<IpAddress>,
        password: &str,
        key: WrapKey,
        payload_type: u8,
        is_srtp: bool,
        device_id: &str,
        generation_id: u64,
        session_salt: &str,
        replay_seq: u16,
        start: SessionStart,
    ) -> (slot: usize)
        requires
            old(self).wf(),
        ensures
            final(self).wf(),
            !old(self)@.vacated((EndpointKey { peer, local_ip })).sessions.contains_key(slot),
            final(self)@.sessions.contains_key(slot),
            fresh_output(final(self)@.sessions[slot].output, payload_type, start),
            final(self)@ == old(self)@.created(
                slot,
                opened_session(
                    old(self)@.origin(
                        start,
                        (EndpointKey { peer, local_ip }),
                        password@,
                        key,
                        is_srtp,
                        (IdentityView {
                            device_id: device_id@,
                            generation_id,
                            session_salt: session_salt@,
                        }),
                    ),
                    final(self)@.sessions[slot].output,
                    replay_seq,
                ),
            ),
    {
        let ghost before = self@;
        if let Some(old_slot) = self.slot_at(peer, local_ip) {
            self.remove_slot_with_reason(old_slot, "peer-replaced");
        }
        let ghost vacated = self@;
        assert(vacated == before.vacated((EndpointKey { peer, local_ip })));
        let output = OutState::new(payload_type, start.wall_ms, start.started_ns);
        let mut session = HotSession::legacy(
            start.id,
            peer,
            local_ip,
            password,
            key,
            output,
            is_srtp,
            device_id,
            generation_id,
            session_salt,
            self.fec_profile,
            start.stream_debug_active,
            start.cached_now,
            self.state.monotonic_ms,
            self.state.wall_now,
        );
        let _ = session.replay.accept(replay_seq);
        let ghost made = session@;
        proof {
            let origin = before.origin(
                start,
                (EndpointKey { peer, local_ip }),
                password@,
                key,
                is_srtp,
                (IdentityView {
                    device_id: device_id@,
                    generation_id,
                    session_salt: session_salt@,
                }),
            );
            assert(made =~= opened_session(origin, output, replay_seq));
        }
        let slot: usize = self.insert_listed(session);
        self.state.stream_inventory_dirty = true;
        proof {
            assert(self@ =~= before.created(slot, made));
            assert(self@.sessions[slot] == made);
        }
        slot
    }

    /// Tells the surroundings and the control side of the session in a slot.
    fn announce_created(&mut self, slot: usize, payload: Vec<u8>)
        requires
            old(self).wf(),
            old(self)@.sessions.contains_key(slot),
        ensures
            final(self).wf(),
            final(self)@ == old(self)@.emit_all(
                creation_effects(old(self)@.sessions[slot], payload@),
            ),
    {
        let ghost before = self@;
        if let Some(session) = slab_get(&self.sessions, slot) {
            let peer = session.peer;
            let local_ip = session.local_ip;
            let session_id: u64 = session.id;
            let seed = SessionSeed {
                id: session.id,
                address: session.peer,
                password: session.password.clone(),
                device_id: session.device_id.clone(),
                generation_id: session.generation_id,
                session_salt: session.session_salt.clone(),
                is_srtp: session.is_srtp,
                created_at: session.created_at,
                stream_debug: session.stream_debug,
            };
            self.effects.push(Effect::BindEndpoint { peer, local_ip });
            self.effects.push(Effect::Control(ControlEvent::SessionCreated(seed)));
            self.effects.push(
                Effect::Control(ControlEvent::Payload { address: peer, session_id, payload }),
            );
            proof {
                assert(self@.effects =~= before.effects + creation_effects(
                    before.sessions[slot],
                    payload@,
                ));
                assert(self@ =~= before.emit_all(
                    creation_effects(before.sessions[slot], payload@),
                ));
            }
        }
    }

    /// Takes a session out of its slot and off the lists.
    fn take_session(&mut self, slot: usize) -> (session: HotSession)
        requires
            old(self).wf(),
            old(self)@.sessions.contains_key(slot),
        ensures
            final(self).wf(),
            session.wf(),
            session@ == old(self)@.sessions[slot],
            final(self)@ == old(self)@.without_session(slot),
    {
        broadcast use vstd::std_specs::hash::group_hash_axioms;

        let ghost before = self@;
        let ghost slab_before = slots::slab_sessions(self.sessions);
        let session = slab_remove(&mut self.sessions, slot);
        let _ = self.by_peer.remove(&EndpointKey::new(session.peer, session.local_ip));
        let _ = self.by_id.remove(&session.id);
        proof {
            lemma_view_remove(slab_before, slot);
            assert(self@ =~= before.without_session(slot));
        }
        session
    }

    /// Puts a new session where it belongs: it stays if this shard owns its device, else it
    /// goes to the shard that does.
    pub fn place_new_session(&mut self, slot: usize, payload: Vec<u8>)
        requires
            old(self).wf(),
        ensures
            final(self).wf(),
            final(self)@ == old(self)@.placed(slot, payload@),
    {
        let ghost before = self@;
        let target: usize = match slab_get(&self.sessions, slot) {
            Some(session) => shard_for_device(session.device_id.as_str(), self.shard_count),
            None => return ,
        };
        if target == self.shard_index {
            self.announce_created(slot, payload);
            return ;
        }
        let session = self.take_session(slot);
        let endpoint = EndpointKey::new(session.peer, session.local_ip);
        self.migrating_endpoints.insert(endpoint, self.state.monotonic_ms);
        self.effects.push(Effect::Migrate { target, session: Box::new(session), payload });
        proof {
            assert(self@.effects =~= before.effects.push(
                EffectView::Migrate { target, session: before.sessions[slot], payload: payload@ },
            ));
            assert(self@ =~= before.placed(slot, payload@));
        }
    }

    /// Takes back a session that could not be handed to another shard.
    pub fn restore_session(&mut self, session: HotSession, payload: Vec<u8>) -> (slot: usize)
        requires
            old(self).wf(),
            session.wf(),
        ensures
            final(self).wf(),
            !old(self)@.sessions.contains_key(slot),
            final(self)@ == (EngineView {
                migrating: old(self)@.migrating.remove(session@.endpoint()),
                ..old(self)@
            }).with_listed(slot, session@).emit_all(
                creation_effects(session@, payload@),
            ),
    {
        let ghost before = self@;
        let endpoint = EndpointKey::new(session.peer, session.local_ip);
        let _ = self.migrating_endpoints.remove(&endpoint);
        let ghost forgotten = self@;
        assert(forgotten =~= (EngineView {
            migrating: before.migrating.remove(session@.endpoint()),
            ..before
        }));
        let slot: usize = self.insert_listed(session);
        self.announce_created(slot, payload);
        slot
    }

    /// Takes over a session from another shard.
    pub fn adopt_session(&mut self, session: HotSession, initial_payload: Vec<u8>) -> (slot: usize)
        requires
            old(self).wf(),
            session.wf(),
        ensures
            final(self).wf(),
            !old(self)@.sessions.contains_key(slot),
            final(self)@ == old(self)@.with_listed(slot, session@).with_dirty_inventory().emit_all(
                creation_effects(session@, initial_payload@),
            ),
    {
        let ghost before = self@;
        let slot: usize = self.insert_listed(session);
        self.state.stream_inventory_dirty = true;
        assert(self@ =~= before.with_listed(slot, session@).with_dirty_inventory());
        self.announce_created(slot, initial_payload);
        proof {
            assert(self@ =~= before.with_listed(
                slot,
                session@,
            ).with_dirty_inventory().emit_all(
                creation_effects(session@, initial_payload@),
            ));
        }
        slot
    }

    /// Whether the session of an endpoint is on its way to another shard.
    pub fn endpoint_is_migrating(&self, peer: PeerAddress, local_ip: Option<IpAddress>) -> (moving:
        bool)
        requires
            self.wf(),
        ensures
            moving == self@.is_migrating(peer, local_ip),
    {
        self.migrating_endpoints.contains_key(&EndpointKey::new(peer, local_ip)) || (
        local_ip.is_some() && self.migrating_endpoints.contains_key(&EndpointKey::new(peer, None)))
    }

    /// Reports, unless it was done lately, that a session could not be set up.
    fn report_unauthenticated_setup(&mut self, peer: PeerAddress, wire_len: usize)
        requires
            old(self).wf(),
        ensures
            final(self).wf(),
            final(self)@ == old(self)@.reported_setup(peer, wire_len),
    {
        let ghost before = self@;
        if self.state.unauthenticated_setup_logged && self.state.monotonic_ms.saturating_sub(
            self.state.last_unauthenticated_setup_log_ms,
        ) < UNAUTHENTICATED_SETUP_LOG_INTERVAL_MS {
            return ;
        }
        self.state.unauthenticated_setup_logged = true;
        self.state.last_unauthenticated_setup_log_ms = self.state.monotonic_ms;
        self.emit(Effect::ReportRejectedSetup { peer, wire_len });
        assert(self@ =~= before.reported_setup(peer, wire_len));
    }

    /// Shows a packet that came for the session in a slot, if it is to be shown.
    fn inspect(
        &mut self,
        slot: usize,
        payload_type: u8,
        seq: u64,
        plain: &[u8],
        wire_len: usize,
    ) -> (shown: bool)
        requires
            old(self).wf(),
            old(self)@.sessions.contains_key(slot),
        ensures
            final(self).wf(),
            shown == old(self)@.shows(plain@),
            final(self)@ == old(self)@.inspected(slot, payload_type, seq, plain@, wire_len),
    {
        let ghost before = self@;
        let shown = self.state.dpi.should_record_dpi(
            self.state.dpi_enabled,
            self.state.monotonic_ms,
            plain,
        );
        assert(self@ =~= before.sampled(plain@));
        if shown {
            if let Some(session) = slab_get(&self.sessions, slot) {
                let note = DpiNote {
                    inbound: true,
                    peer: session.peer,
                    payload_type,
                    seq,
                    plain: copy_of(plain),
                    wire_len,
                    device_id: session.device_id.clone(),
                    generation_id: session.generation_id,
                    session_salt: session.session_salt.clone(),
                };
                self.emit(Effect::RecordDpi(note));
            }
        }
        shown
    }
}

/// A credential under which a packet of unknown origin opens a session.
struct SetupFound {
    password: String,
    key: WrapKey,
    decoded: DecodedPacket,
    device_id: String,
    generation_id: u64,
    session_salt: String,
    plain: Vec<u8>,
}

/// A packet that is to be delivered.
#[derive(Clone, Copy, Debug)]
pub struct Delivery {
    pub slot: usize,
    /// Where the payload lies in the packet.
    pub range: RangePair,
    pub seq: u16,
    pub payload_type: u8,
}

impl EngineView {
    /// What a packet for the session in `slot` holds.
    pub open spec fn decoded(self, slot: usize, wire: Seq<u8>) -> Result<
        Unwrapped,
        wire::UnwrapError,
    > {
        wire::decode(self.sessions[slot].key, wire, Some(self.sessions[slot].is_srtp))
    }

    /// The engine once a cryptographic operation was counted.
    pub open spec fn counted(self) -> EngineView {
        EngineView {
            state: EngineState { crypto_ops: counted_ops(self.state, 1), ..self.state },
            ..self
        }
    }

    /// The engine once it has heard of a device whose epoch it knows.
    pub open spec fn heard_of(self, device_id: Seq<char>) -> EngineView {
        if self.epochs.contains_key(device_id) {
            EngineView {
                epochs: self.epochs.insert(device_id, self.state.monotonic_ms),
                ..self
            }
        } else {
            self
        }
    }

    /// The engine once the session in `slot` was heard from, at a local address where that
    /// is known.
    pub open spec fn heard_from(
        self,
        slot: usize,
        seq: u16,
        local_ip: Option<IpAddress>,
    ) -> EngineView {
        let session = self.sessions[slot];
        let moved = local_ip is Some && session.local_ip != local_ip;
        let heard = SessionView {
            replay: session.replay.after(seq),
            last_inbound_ms: self.state.monotonic_ms,
            local_ip: if moved {
                local_ip
            } else {
                session.local_ip
            },
            ..session
        };
        let engine = self.with_session(slot, heard);
        if moved {
            EngineView {
                by_peer: self.by_peer.remove(session.endpoint()).insert(heard.endpoint(), slot),
                ..engine
            }.emit(EffectView::BindEndpoint { peer: heard.peer, local_ip })
        } else {
            engine
        }
    }

    /// The engine once a payload for the session in `slot` was delivered. Where the payload
    /// is a frame, `header` is the length of the frame's header.
    pub open spec fn delivered(
        self,
        slot: usize,
        plain: Seq<u8>,
        header: Option<usize>,
        seq: u16,
        payload_type: u8,
        wire_len: usize,
    ) -> EngineView {
        let session = self.sessions[slot];
        let carried = plain.subrange(
            match header {
                Some(len) => len as int,
                None => 0,
            },
            plain.len() as int,
        );
        let seen = self.inspected(slot, payload_type, seq as u64, carried, wire_len);
        if !self.sessions.contains_key(slot) {
            self
        } else if plain == READY@ {
            seen.emit(
                EffectView::Send { slot, payload: READY_OK@, record_dpi: self.shows(carried) },
            )
        } else if control::idle_keepalive(plain) {
            seen
        } else if control::control_payload(plain) {
            seen.emit(
                EffectView::Control(
                    EventView::Payload {
                        address: session.peer,
                        session_id: session.id,
                        payload: plain,
                    },
                ),
            )
        } else if session.routed() {
            if header is None {
                seen.emit(EffectView::WriteTun { slot, payload: carried })
            } else if carried.len() <= self.packet_capacity {
                seen.emit(EffectView::Reassemble { slot, frame: plain })
            } else {
                seen
            }
        } else if session.pending_tunnel {
            seen
        } else {
            seen.with_session(slot, SessionView { pending_tunnel: true, ..session }).emit(
                EffectView::Control(
                    EventView::IngressBeforeTunnel {
                        address: session.peer,
                        session_id: session.id,
                        payload: carried,
                    },
                ),
            )
        }
    }
}

proof fn lemma_setup_steps(credentials: Seq<CredentialView>, wire: Seq<u8>, upto: int)
    requires
        0 <= upto <= credentials.len(),
        forall|j: int| 0 <= j < upto ==> setup_under(#[trigger] credentials[j], wire) is None,
    ensures
        setup_credential(credentials, wire, 0) == setup_credential(credentials, wire, upto),
    decreases upto,
{
    if upto > 0 {
        lemma_setup_steps(credentials, wire, upto - 1);
        assert(setup_under(credentials[upto - 1], wire) is None);
    }
}

impl ProtocolEngine {
    /// Counts cryptographic operations, if they are counted.
    fn record_crypto_ops(&mut self, more: u64)
        requires
            old(self).wf(),
        ensures
            final(self).wf(),
            final(self)@ == (EngineView {
                state: EngineState {
                    crypto_ops: counted_ops(old(self)@.state, more as int),
                    ..old(self)@.state
                },
                ..old(self)@
            }),
    {
        if self.state.syscalls_enabled {
            self.state.crypto_ops = self.state.crypto_ops.wrapping_add(more);
        }
    }

    /// The first credential under which a packet opens a session, and under how many
    /// credentials it could be unwrapped on the way.
    fn find_setup(&self, wire: &[u8]) -> (found: (Option<SetupFound>, u64))
        ensures
            ({
                let credentials = self@.credentials;
                let at = setup_credential(credentials, wire@, 0);
                let tried = match at {
                    Some(i) => i + 1,
                    None => credentials.len() as int,
                };
                &&& found.1 == unwrapped_under(credentials, wire@, tried)
                &&& found.0 is Some <==> at is Some
                &&& found.0 matches Some(setup) ==> {
                    let (unwrapped, epoch) = setup_under(credentials[at->0], wire@)->0;
                    &&& 0 <= at->0 < credentials.len()
                    &&& setup.password@ == credentials[at->0].password
                    &&& setup.key == credentials[at->0].key
                    &&& setup.plain@ == unwrapped.plain
                    &&& setup.decoded.seq == unwrapped.seq
                    &&& setup.decoded.payload_type == unwrapped.payload_type
                    &&& setup.decoded.is_srtp == unwrapped.is_srtp
                    &&& epoch == (setup.device_id@, setup.generation_id as nat,
                        setup.session_salt@)
                }
            }),
    {
        let ghost credentials = self@.credentials;
        let mut opened: u64 = 0;
        let mut i: usize = 0;
        while i < self.credentials.entries.len()
            invariant
                i <= self.credentials.entries@.len(),
                credentials == self@.credentials,
                credentials.len() == self.credentials.entries@.len(),
                opened <= i,
                opened == unwrapped_under(credentials, wire@, i as int),
                forall|j: int|
                    0 <= j < i ==> setup_under(#[trigger] credentials[j], wire@) is None,
            decreases self.credentials.entries.len() - i,
        {
            let credential = &self.credentials.entries[i];
            assert(credentials[i as int] == credential@);
            let mut scratch = copy_of(wire);
            let decoded = unwrap_legacy_in_place(&credential.key, scratch.as_mut_slice(), None);
            if let Ok(decoded) = decoded {
                opened = opened + 1;
                let plain = decoded.range.get(scratch.as_slice());
                if let Some((device_id, generation_id, session_salt)) = parse_getconf_epoch(plain) {
                    proof {
                        lemma_setup_steps(credentials, wire@, i as int);
                        assert(setup_under(credentials[i as int], wire@) is Some);
                        assert(setup_credential(credentials, wire@, 0) == Some(i as int));
                    }
                    let found = SetupFound {
                        password: credential.password.clone(),
                        key: credential.key,
                        decoded,
                        device_id: device_id.to_owned(),
                        generation_id,
                        session_salt: session_salt.to_owned(),
                        plain: copy_of(plain),
                    };
                    return (Some(found), opened);
                }
            }
            i += 1;
        }
        proof {
            lemma_setup_steps(credentials, wire@, i as int);
        }
        (None, opened)
    }

    /// Handles a packet from an endpoint without a session: where a credential opens it and
    /// it asks for a configuration, a session is set up.
    pub fn handle_unknown_legacy(
        &mut self,
        peer: PeerAddress,
        local_ip: Option<IpAddress>,
        wire: &[u8],
        start: SessionStart,
    )
        requires
            old(self).wf(),
        ensures
            final(self).wf(),
            met(old(self)@, (EndpointKey { peer, local_ip }), wire@, start, final(self)@),
    {
        let ghost before = self@;
        if self.session_count() >= MAX_ACTIVE_SESSIONS || wire.len() > self.packet_capacity
            || self.state.setup_budget == 0 {
            return ;
        }
        let (found, opened) = self.find_setup(wire);
        self.state.setup_budget = self.state.setup_budget - 1;
        self.record_crypto_ops(opened);
        assert(self@ =~= before.looked_at(wire@));
        let setup = match found {
            Some(setup) => setup,
            None => {
                self.report_unauthenticated_setup(peer, wire.len());
                return ;
            },
        };
        let slot: usize = self.create_legacy_session(
            peer,
            local_ip,
            setup.password.as_str(),
            setup.key,
            setup.decoded.payload_type,
            setup.decoded.is_srtp,
            setup.device_id.as_str(),
            setup.generation_id,
            setup.session_salt.as_str(),
            setup.decoded.seq,
            start,
        );
        let ghost made = self@.sessions[slot];
        let _ = self.inspect(
            slot,
            setup.decoded.payload_type,
            setup.decoded.seq as u64,
            setup.plain.as_slice(),
            wire.len(),
        );
        self.place_new_session(slot, setup.plain);
        proof {
            assert(set_up_in(
                before,
                self@,
                (EndpointKey { peer, local_ip }),
                wire@,
                start,
                slot,
                made.output,
            ));
        }
    }
}

/// `after` is `before` once a packet of unknown origin has set up a session in `slot`.
pub open spec fn set_up_in(
    before: EngineView,
    after: EngineView,
    endpoint: EndpointKey,
    wire: Seq<u8>,
    start: SessionStart,
    slot: usize,
    output: OutState,
) -> bool {
    let at = setup_credential(before.credentials, wire, 0)->0;
    let credential = before.credentials[at];
    let (unwrapped, epoch) = setup_under(credential, wire)->0;
    let looked = before.looked_at(wire);
    let identity = IdentityView {
        device_id: epoch.0,
        generation_id: epoch.1 as u64,
        session_salt: epoch.2,
    };
    let origin = before.origin(
        start,
        endpoint,
        credential.password,
        credential.key,
        unwrapped.is_srtp,
        identity,
    );
    let seq = unwrapped.seq as u16;
    &&& !looked.vacated(endpoint).sessions.contains_key(slot)
    &&& fresh_output(output, unwrapped.payload_type, start)
    &&& after == looked.created(slot, opened_session(origin, output, seq)).inspected(
        slot,
        unwrapped.payload_type,
        seq as u64,
        unwrapped.plain,
        wire.len() as usize,
    ).placed(slot, unwrapped.plain)
}

/// `after` is `before` once a packet of unknown origin has set up a session.
pub open spec fn set_up(
    before: EngineView,
    after: EngineView,
    endpoint: EndpointKey,
    wire: Seq<u8>,
    start: SessionStart,
) -> bool {
    exists|slot: usize, output: OutState|
        set_up_in(before, after, endpoint, wire, start, slot, output)
}

/// A packet for an existing session asks for a configuration.
pub open spec fn asks_for_configuration(unwrapped: Unwrapped) -> bool {
    crate::bytes::has_prefix(unwrapped.plain, GETCONF_PREFIX@)
}

/// The device and key that a request for a configuration names.
pub open spec fn requested_identity(unwrapped: Unwrapped) -> IdentityView {
    let epoch = getconf::payload_epoch(unwrapped.plain)->0;
    IdentityView { device_id: epoch.0, generation_id: epoch.1 as u64, session_salt: epoch.2 }
}

/// What becomes of a packet for an existing session.
pub enum Reception {
    /// It is not for the session, or malformed, or was seen before.
    Dropped,
    /// It asks for a configuration under another device or key: the session starts anew.
    Replaces,
    /// It is for the session.
    Accepted,
}

impl EngineView {
    /// What becomes of a packet, once unwrapped, for the session in `slot`.
    pub open spec fn reception(self, slot: usize, unwrapped: Unwrapped) -> Reception {
        let session = self.sessions[slot];
        if asks_for_configuration(unwrapped) && getconf::payload_epoch(unwrapped.plain) is None {
            Reception::Dropped
        } else if asks_for_configuration(unwrapped) && requested_identity(unwrapped)
            != session.identity() {
            Reception::Replaces
        } else if !session.replay.accepts(unwrapped.seq as u16) {
            Reception::Dropped
        } else {
            Reception::Accepted
        }
    }

    /// The engine once a packet was unwrapped and, where it asks for a configuration, its
    /// device was heard of.
    pub open spec fn unwrapped(self, unwrapped: Unwrapped) -> EngineView {
        if asks_for_configuration(unwrapped) && getconf::payload_epoch(unwrapped.plain) is Some {
            self.counted().heard_of(requested_identity(unwrapped).device_id)
        } else {
            self.counted()
        }
    }
}

/// `after` is `before` once the session in `slot` has started anew, in `new_slot`, because
/// of a packet that holds `plain`.
pub open spec fn restarted_in(
    before: EngineView,
    after: EngineView,
    slot: usize,
    local_ip: Option<IpAddress>,
    decoded: DecodedPacket,
    plain: Seq<u8>,
    start: SessionStart,
    new_slot: usize,
    output: OutState,
) -> bool {
    let session = before.sessions[slot];
    let endpoint = EndpointKey {
        peer: session.peer,
        local_ip: if local_ip is Some {
            local_ip
        } else {
            session.local_ip
        },
    };
    let epoch = getconf::payload_epoch(plain)->0;
    let origin = before.origin(
        start,
        endpoint,
        session.password,
        session.key,
        decoded.is_srtp,
        IdentityView {
            device_id: epoch.0,
            generation_id: epoch.1 as u64,
            session_salt: epoch.2,
        },
    );
    let closed = before.removed(slot, "epoch-replaced"@);
    &&& !closed.vacated(endpoint).sessions.contains_key(new_slot)
    &&& fresh_output(output, decoded.payload_type, start)
    &&& after == closed.created(new_slot, opened_session(origin, output, decoded.seq)).placed(
        new_slot,
        plain,
    )
}

/// `after` is `before` once the session in `slot` has started anew because of a packet.
pub open spec fn restarted(
    before: EngineView,
    after: EngineView,
    slot: usize,
    local_ip: Option<IpAddress>,
    unwrapped: Unwrapped,
    start: SessionStart,
) -> bool {
    exists|decoded: DecodedPacket, new_slot: usize, output: OutState|
        {
            &&& decoded.seq == unwrapped.seq
            &&& decoded.payload_type == unwrapped.payload_type
            &&& decoded.is_srtp == unwrapped.is_srtp
            &&& #[trigger] restarted_in(
                before,
                after,
                slot,
                local_ip,
                decoded,
                unwrapped.plain,
                start,
                new_slot,
                output,
            )
        }
}

/// What has become of a packet for the session in `slot`: `after` and `packet_after` are the
/// engine and the packet then, and `delivery` says what is to be delivered.
pub open spec fn received(
    before: EngineView,
    slot: usize,
    local_ip: Option<IpAddress>,
    packet: Seq<u8>,
    start: SessionStart,
    after: EngineView,
    packet_after: Seq<u8>,
    delivery: Option<Delivery>,
) -> bool {
    if !before.sessions.contains_key(slot) {
        delivery is None && after == before
    } else {
        match before.decoded(slot, packet) {
            Err(_) => delivery is None && after == before,
            Ok(unwrapped) => match before.reception(slot, unwrapped) {
                Reception::Dropped => delivery is None && after == before.unwrapped(unwrapped),
                Reception::Replaces => delivery is None && restarted(
                    before.unwrapped(unwrapped),
                    after,
                    slot,
                    local_ip,
                    unwrapped,
                    start,
                ),
                Reception::Accepted => {
                    &&& after == before.unwrapped(unwrapped).heard_from(
                        slot,
                        unwrapped.seq as u16,
                        local_ip,
                    )
                    &&& delivery is Some <==> unwrapped.plain != SESSION_LEASE@
                    &&& delivery matches Some(found) ==> {
                        &&& found.slot == slot
                        &&& found.seq == unwrapped.seq
                        &&& found.payload_type == unwrapped.payload_type
                        &&& found.range.start <= found.range.end <= packet_after.len()
                        &&& packet_after.subrange(
                            found.range.start as int,
                            found.range.end as int,
                        ) == unwrapped.plain
                    }
                },
            },
        }
    }
}

/// What has become of a packet from an endpoint without a session.
pub open spec fn met(
    before: EngineView,
    endpoint: EndpointKey,
    wire: Seq<u8>,
    start: SessionStart,
    after: EngineView,
) -> bool {
    if before.refuses_setup(wire.len()) {
        after == before
    } else if setup_credential(before.credentials, wire, 0) is None {
        after == before.looked_at(wire).reported_setup(endpoint.peer, wire.len() as usize)
    } else {
        set_up(before, after, endpoint, wire, start)
    }
}

impl EngineView {
    /// The slot of the session that a packet is for, going by where it came from and where
    /// it arrived.
    pub open spec fn addressee(self, peer: PeerAddress, local_ip: Option<IpAddress>) -> Option<
        usize,
    > {
        let exact = EndpointKey { peer, local_ip };
        let anywhere = EndpointKey { peer, local_ip: None };
        if self.by_peer.contains_key(exact) {
            Some(self.by_peer[exact])
        } else if local_ip is Some && self.by_peer.contains_key(anywhere) {
            Some(self.by_peer[anywhere])
        } else {
            None
        }
    }

    /// The session of an endpoint is on its way to another shard.
    pub open spec fn is_migrating(self, peer: PeerAddress, local_ip: Option<IpAddress>) -> bool {
        self.migrating.contains_key(EndpointKey { peer, local_ip }) || (local_ip is Some
            && self.migrating.contains_key(EndpointKey { peer, local_ip: None }))
    }
}

impl ProtocolEngine {
    /// Handles a packet for the session in a slot. Where the packet is to be delivered, it is
    /// unwrapped in place, and [`ProtocolEngine::deliver`] is to follow.
    pub fn handle_existing(
        &mut self,
        slot: usize,
        local_ip: Option<IpAddress>,
        packet: &mut [u8],
        start: SessionStart,
    ) -> (delivery: Option<Delivery>)
        requires
            old(self).wf(),
        ensures
            final(self).wf(),
            final(packet)@.len() == old(packet)@.len(),
            received(
                old(self)@,
                slot,
                local_ip,
                old(packet)@,
                start,
                final(self)@,
                final(packet)@,
                delivery,
            ),
    {
        let ghost before = self@;
        let decoded = match slab_get(&self.sessions, slot) {
            None => return None,
            Some(session) => match unwrap_legacy_in_place(
                &session.key,
                packet,
                Some(session.is_srtp),
            ) {
                Ok(decoded) => decoded,
                Err(_) => return None,
            },
        };
        let ghost unwrapped = before.decoded(slot, old(packet)@)->Ok_0;
        self.record_crypto_ops(1);
        assert(self@ =~= before.counted());
        let plain = decoded.range.get(packet);
        assert(plain@ == unwrapped.plain);
        if starts_with(plain, GETCONF_PREFIX.as_slice()) {
            let (device_id, generation_id, session_salt) = match parse_getconf_epoch(plain) {
                Some(epoch) => epoch,
                None => return None,
            };
            let device = device_id.to_owned();
            if let Some(at) = self.epochs.find(&device) {
                self.epochs.set_at(at, self.state.monotonic_ms);
            }
            assert(self@ =~= before.unwrapped(unwrapped));
            let action = match slab_get(&self.sessions, slot) {
                Some(session) => getconf_reconnect_action_hot(
                    session.device_id.as_str(),
                    session.generation_id,
                    session.session_salt.as_str(),
                    device_id,
                    generation_id,
                    session_salt,
                ),
                None => return None,
            };
            proof {
                assert((action == GetconfReconnectAction::Process) == (requested_identity(unwrapped)
                    =~= before.sessions[slot].identity()));
            }
            if action == GetconfReconnectAction::Replace {
                self.restart_session(slot, local_ip, decoded, plain, start);
                return None;
            }
        } else {
            assert(self@ =~= before.unwrapped(unwrapped));
        }
        let accepted = self.note_heard_from(slot, decoded.seq, local_ip);
        if !accepted {
            return None;
        }
        if same_bytes(plain, SESSION_LEASE.as_slice()) {
            return None;
        }
        Some(
            Delivery {
                slot,
                range: decoded.range,
                seq: decoded.seq,
                payload_type: decoded.payload_type,
            },
        )
    }

    /// Starts the session in a slot anew, under the device and key that `plain` asks for.
    fn restart_session(
        &mut self,
        slot: usize,
        local_ip: Option<IpAddress>,
        decoded: DecodedPacket,
        plain: &[u8],
        start: SessionStart,
    )
        requires
            old(self).wf(),
            old(self)@.sessions.contains_key(slot),
            getconf::payload_epoch(plain@) is Some,
        ensures
            final(self).wf(),
            exists|new_slot: usize, output: OutState|
                restarted_in(
                    old(self)@,
                    final(self)@,
                    slot,
                    local_ip,
                    decoded,
                    plain@,
                    start,
                    new_slot,
                    output,
                ),
    {
        let ghost before = self@;
        if let (Some(session), Some((device_id, generation_id, session_salt))) = (
            slab_get(&self.sessions, slot),
            parse_getconf_epoch(plain),
        ) {
            let peer = session.peer;
            let at = if local_ip.is_some() {
                local_ip
            } else {
                session.local_ip
            };
            let password = session.password.clone();
            let key = session.key;
            let payload = copy_of(plain);
            self.remove_slot_with_reason(slot, "epoch-replaced");
            let new_slot: usize = self.create_legacy_session(
                peer,
                at,
                password.as_str(),
                key,
                decoded.payload_type,
                decoded.is_srtp,
                device_id,
                generation_id,
                session_salt,
                decoded.seq,
                start,
            );
            let ghost made = self@.sessions[new_slot];
            self.place_new_session(new_slot, payload);
            proof {
                assert(restarted_in(
                    before,
                    self@,
                    slot,
                    local_ip,
                    decoded,
                    plain@,
                    start,
                    new_slot,
                    made.output,
                ));
            }
        }
    }

    /// Takes note of a packet that came for the session in a slot, unless it was seen before.
    fn note_heard_from(&mut self, slot: usize, seq: u16, local_ip: Option<IpAddress>) -> (accepted:
        bool)
        requires
            old(self).wf(),
            old(self)@.sessions.contains_key(slot),
        ensures
            final(self).wf(),
            accepted == old(self)@.sessions[slot].replay.accepts(seq),
            final(self)@ == if accepted {
                old(self)@.heard_from(slot, seq, local_ip)
            } else {
                old(self)@
            },
    {
        let ghost before = self@;
        let ghost slab_before = slots::slab_sessions(self.sessions);
        let now: u64 = self.state.monotonic_ms;
        let session = slab_get_mut(&mut self.sessions, slot);
        let peer = session.peer;
        let old_local_ip = session.local_ip;
        let moved = local_ip.is_some() && !same_local_ip(old_local_ip, local_ip);
        let accepted = session.replay.accept(seq);
        if accepted {
            session.last_inbound_ms = now;
            if moved {
                session.local_ip = local_ip;
            }
        }
        let ghost changed = *session;
        proof {
            lemma_view_insert(slab_before, slot, changed);
        }
        if !accepted {
            proof {
                assert(changed@ =~= before.sessions[slot]);
                assert(before.sessions.insert(slot, changed@) =~= before.sessions);
                assert(self@ =~= before);
            }
            return false;
        }
        if moved {
            let _ = self.by_peer.remove(&EndpointKey::new(peer, old_local_ip));
            self.by_peer.insert(EndpointKey::new(peer, local_ip), slot);
            self.effects.push(Effect::BindEndpoint { peer, local_ip });
            proof {
                assert(self@.effects =~= before.effects.push(
                    EffectView::BindEndpoint { peer, local_ip },
                ));
            }
        }
        assert(self@ =~= before.heard_from(slot, seq, local_ip));
        true
    }

    /// Handles a packet: it goes to the session at its endpoint, or else may set one up.
    pub fn on_udp(
        &mut self,
        peer: PeerAddress,
        local_ip: Option<IpAddress>,
        packet: &mut [u8],
        start: SessionStart,
    ) -> (delivery: Option<Delivery>)
        requires
            old(self).wf(),
        ensures
            final(self).wf(),
            final(packet)@.len() == old(packet)@.len(),
            match old(self)@.addressee(peer, local_ip) {
                Some(slot) => received(
                    old(self)@,
                    slot,
                    local_ip,
                    old(packet)@,
                    start,
                    final(self)@,
                    final(packet)@,
                    delivery,
                ),
                None => {
                    &&& delivery is None
                    &&& final(packet)@ == old(packet)@
                    &&& if old(self)@.is_migrating(peer, local_ip) {
                        final(self)@ == old(self)@
                    } else {
                        met(
                            old(self)@,
                            (EndpointKey { peer, local_ip }),
                            old(packet)@,
                            start,
                            final(self)@,
                        )
                    }
                },
            },
    {
        if let Some(slot) = self.slot_at(peer, local_ip) {
            return self.handle_existing(slot, local_ip, packet, start);
        }
        if local_ip.is_some() {
            if let Some(slot) = self.slot_at(peer, None) {
                return self.handle_existing(slot, local_ip, packet, start);
            }
        }
        if !self.endpoint_is_migrating(peer, local_ip) {
            self.handle_unknown_legacy(peer, local_ip, packet, start);
        }
        None
    }

    /// Delivers a packet that was accepted for a session.
    ///
    /// Where the payload is a frame of a flow, `header` is the length of the frame's header.
    pub fn deliver(&mut self, delivery: Delivery, packet: &[u8], header: Option<usize>)
        requires
            old(self).wf(),
            delivery.range.start <= delivery.range.end <= packet@.len(),
            header matches Some(len) ==> len <= delivery.range.end - delivery.range.start,
        ensures
            final(self).wf(),
            final(self)@ == old(self)@.delivered(
                delivery.slot,
                packet@.subrange(delivery.range.start as int, delivery.range.end as int),
                header,
                delivery.seq,
                delivery.payload_type,
                packet@.len() as usize,
            ),
    {
        let ghost before = self@;
        let slot: usize = delivery.slot;
        let plain = delivery.range.get(packet);
        let header_len: usize = match header {
            Some(len) => len,
            None => 0,
        };
        let carried = vstd::slice::slice_subrange(plain, header_len, plain.len());
        if !slab_contains(&self.sessions, slot) {
            return ;
        }
        let record_dpi = self.inspect(
            slot,
            delivery.payload_type,
            delivery.seq as u64,
            carried,
            packet.len(),
        );
        let (peer, session_id, routed, pending) = match slab_get(&self.sessions, slot) {
            Some(session) => (
                session.peer,
                session.id,
                session.tunnel_ip.is_some() && session.registration_id.is_some(),
                session.pending_tunnel,
            ),
            None => return ,
        };
        if same_bytes(plain, READY.as_slice()) {
            self.emit(Effect::Send { slot, payload: copy_of(READY_OK.as_slice()), record_dpi });
        } else if is_idle_keepalive(plain) {
        } else if is_control_payload(plain) {
            let event = ControlEvent::Payload { address: peer, session_id, payload: copy_of(plain) };
            self.emit(Effect::Control(event));
        } else if routed {
            if header.is_none() {
                self.emit(Effect::WriteTun { slot, payload: copy_of(carried) });
            } else if carried.len() <= self.packet_capacity {
                self.emit(Effect::Reassemble { slot, frame: copy_of(plain) });
            }
        } else if !pending {
            let ghost seen = self@;
            let ghost slab_before = slots::slab_sessions(self.sessions);
            let session = slab_get_mut(&mut self.sessions, slot);
            session.pending_tunnel = true;
            let ghost changed = *session;
            proof {
                lemma_view_insert(slab_before, slot, changed);
                assert(self@ =~= seen.with_session(
                    slot,
                    SessionView { pending_tunnel: true, ..before.sessions[slot] },
                ));
            }
            let event = ControlEvent::IngressBeforeTunnel {
                address: peer,
                session_id,
                payload: copy_of(carried),
            };
            self.emit(Effect::Control(event));
        }
    }

    /// Takes note that the control side could not be told of a packet that came before the
    /// session had a tunnel: the next one is to be reported again.
    pub fn ingress_refused(&mut self, session_id: u64)
        requires
            old(self).wf(),
        ensures
            final(self).wf(),
            final(self)@ == if old(self)@.by_id.contains_key(session_id) {
                let slot = old(self)@.by_id[session_id];
                old(self)@.with_session(
                    slot,
                    (SessionView { pending_tunnel: false, ..old(self)@.sessions[slot] }),
                )
            } else {
                old(self)@
            },
    {
        let ghost before = self@;
        if let Some(slot) = self.slot_of(session_id) {
            let ghost slab_before = slots::slab_sessions(self.sessions);
            let session = slab_get_mut(&mut self.sessions, slot);
            session.pending_tunnel = false;
            let ghost changed = *session;
            proof {
                lemma_view_insert(slab_before, slot, changed);
                assert(self@ =~= before.with_session(
                    slot,
                    (SessionView { pending_tunnel: false, ..before.sessions[slot] }),
                ));
            }
        }
    }

    /// Takes note that a packet of `len` bytes was written to the tunnel device on behalf of
    /// the session in a slot.
    pub fn note_tun_written(&mut self, slot: usize, len: usize)
        requires
            old(self).wf(),
        ensures
            final(self).wf(),
            final(self)@ == if old(self)@.sessions.contains_key(slot) {
                old(self)@.with_session(
                    slot,
                    old(self)@.sessions[slot].carried_up(
                        len as u64,
                        old(self)@.state.debug_enabled,
                    ),
                )
            } else {
                old(self)@
            },
    {
        let ghost before = self@;
        if slab_contains(&self.sessions, slot) {
            let ghost slab_before = slots::slab_sessions(self.sessions);
            let debug_enabled = self.state.debug_enabled;
            let session = slab_get_mut(&mut self.sessions, slot);
            session.record_up(len as u64, debug_enabled);
            let ghost changed = *session;
            proof {
                lemma_view_insert(slab_before, slot, changed);
                assert(self@ =~= before.with_session(slot, changed@));
            }
        }
    }

    /// Starts the debug metrics of a session anew where they count for another generation.
    pub fn sync_debug(&mut self, session_id: u64, generation: u64)
        requires
            old(self).wf(),
        ensures
            final(self).wf(),
            final(self)@ == if old(self)@.by_id.contains_key(session_id) {
                let slot = old(self)@.by_id[session_id];
                let session = old(self)@.sessions[slot];
                old(self)@.with_session(
                    slot,
                    (SessionView {
                        debug: if generation == session.debug.generation {
                            session.debug
                        } else {
                            session::HotDebug::zero(generation)
                        },
                        ..session
                    }),
                )
            } else {
                old(self)@
            },
    {
        let ghost before = self@;
        if let Some(slot) = self.slot_of(session_id) {
            let ghost slab_before = slots::slab_sessions(self.sessions);
            let session = slab_get_mut(&mut self.sessions, slot);
            session.sync_debug(generation);
            let ghost changed = *session;
            proof {
                lemma_view_insert(slab_before, slot, changed);
                assert(self@ =~= before.with_session(slot, changed@));
            }
        }
    }

    /// Wraps a payload for the session in a slot. `None` where there is no session, or where
    /// the packet does not fit.
    pub fn wrap_for_session(&mut self, slot: usize, plain: &[u8], output: &mut PacketBuf) -> (total:
        Option<usize>)
        requires
            old(self).wf(),
            old(output).wf(),
        ensures
            final(self).wf(),
            final(output).wf(),
            final(output).spec_capacity() == old(output).spec_capacity(),
            !old(self)@.sessions.contains_key(slot) ==> total is None && final(self)@ == old(self)@,
            old(self)@.sessions.contains_key(slot) ==> {
                let session = old(self)@.sessions[slot];
                let stamped = old(self)@.with_session(
                    slot,
                    SessionView { output: session.output.stamped(), ..session },
                );
                &&& final(self)@ == if total is Some {
                    stamped.counted()
                } else {
                    stamped
                }
                &&& exists|draw: wire::Draw|
                    {
                        let error = wire::wrap_error(
                            session.is_srtp,
                            plain@.len(),
                            draw.filler@.len(),
                            old(output).spec_capacity(),
                        );
                        &&& #[trigger] draw.admissible(
                            session.output.payload_type,
                            session.is_srtp,
                        )
                        &&& total is Some <==> error is None
                        &&& total matches Some(len) ==> len == final(output)@.len() && final(output)@ == wire::wrapped(
                            session.key,
                            session.output,
                            session.is_srtp,
                            plain@,
                            draw,
                            old(self)@.state.batch_now_ns,
                        )
                    }
            },
    {
        let ghost before = self@;
        let ghost slab_before = slots::slab_sessions(self.sessions);
        if !slab_contains(&self.sessions, slot) {
            return None;
        }
        let now: u64 = self.state.batch_now_ns;
        let session = slab_get_mut(&mut self.sessions, slot);
        let key = session.key;
        let is_srtp = session.is_srtp;
        let result = wrap_legacy_into(
            &key,
            &mut session.output,
            is_srtp,
            plain,
            &mut self.rng,
            output,
            now,
        );
        let ghost changed = *session;
        proof {
            lemma_view_insert(slab_before, slot, changed);
            assert(self@ =~= before.with_session(
                slot,
                SessionView {
                    output: before.sessions[slot].output.stamped(),
                    ..before.sessions[slot]
                },
            ));
        }
        match result {
            Ok(total) => {
                let ghost stamped = self@;
                self.record_crypto_ops(1);
                assert(self@ =~= stamped.counted());
                Some(total)
            },
            Err(_) => None,
        }
    }

    /// Shows a packet that was sent for the session in a slot.
    pub fn show_sent(&mut self, slot: usize, plain: &[u8], wire_len: usize)
        requires
            old(self).wf(),
        ensures
            final(self).wf(),
            final(self)@ == if old(self)@.sessions.contains_key(slot) {
                let session = old(self)@.sessions[slot];
                old(self)@.emit(
                    EffectView::RecordDpi(
                        (NoteView {
                            inbound: false,
                            peer: session.peer,
                            payload_type: session.output.payload_type,
                            seq: ((session.output.initial_seq + session.output.count + 0xffff)
                                % 0x1_0000) as u64,
                            plain: plain@,
                            wire_len,
                            device_id: session.device_id,
                            generation_id: session.generation_id,
                            session_salt: session.session_salt,
                        }),
                    ),
                )
            } else {
                old(self)@
            },
    {
        if let Some(session) = slab_get(&self.sessions, slot) {
            let last: u64 = session.output.count.wrapping_sub(1);
            let low: u16 = (last % 65536) as u16;
            let seq: u16 = session.output.initial_seq.wrapping_add(low);
            let note = DpiNote {
                inbound: false,
                peer: session.peer,
                payload_type: session.output.payload_type,
                seq: seq as u64,
                plain: copy_of(plain),
                wire_len,
                device_id: session.device_id.clone(),
                generation_id: session.generation_id,
                session_salt: session.session_salt.clone(),
            };
            self.emit(Effect::RecordDpi(note));
        }
    }
}

} // verus!
