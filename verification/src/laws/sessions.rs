//! How sessions come, go and move.
use crate::effect::{CredentialView, EffectView, EventView, RouteFallback, SeedView, UpdateView};
use crate::endpoint::{EndpointKey, IpAddress, PeerAddress};
use crate::engine;
use crate::engine::{Delivery, EngineState, EngineView, SessionStart};
use crate::getconf;
use crate::laws::delivery::{asked_for, begins, getconf_mark};
use crate::perf::StreamDebugMetrics;
use crate::rtp::OutState;
use crate::session;
use crate::session::{CounterReport, HotDebug, SessionView};
use crate::wire;
use crate::wire::Unwrapped;
use vstd::prelude::*;

verus! {

/// A credential opens a packet as a request for a configuration that can be read.
pub open spec fn opens(credential: CredentialView, packet: Seq<u8>) -> bool {
    match wire::decode(credential.key, packet, None) {
        Ok(unwrapped) => getconf::payload_epoch(unwrapped.plain) is Some,
        Err(_) => false,
    }
}

/// A session that has just been set up: it has the device and key that were asked for, it
/// answers the way it was asked, it has seen the packet, and it has carried nothing.
pub open spec fn is_new(
    session: SessionView,
    start: SessionStart,
    endpoint: EndpointKey,
    password: Seq<char>,
    key: wire::WrapKey,
    unwrapped: Unwrapped,
    engine: EngineView,
) -> bool {
    &&& session.id == start.id
    &&& session.peer == endpoint.peer
    &&& session.local_ip == endpoint.local_ip
    &&& session.password == password
    &&& session.key == key
    &&& (session.device_id, session.generation_id, session.session_salt) == asked_for(
        unwrapped.plain,
    )
    &&& session.is_srtp == unwrapped.is_srtp
    &&& session.output.payload_type == unwrapped.payload_type
    &&& session.output.count == 0
    &&& session.output.started_ns == start.started_ns
    &&& session.output.initial_abs_send_time == (start.wall_ms * 262_144 / 1_000) % 16_777_216
    &&& session.replay.highest == Some(unwrapped.seq as u16)
    &&& session.replay.window == set![unwrapped.seq as u16]
    &&& session.tunnel_ip is None
    &&& session.registration_id is None
    &&& session.worker_id == u64::MAX
    &&& session.desired_stream_count == 0
    &&& session.last_inbound_ms == engine.state.monotonic_ms
    &&& session.created_at == engine.state.wall_now
    &&& session.fec_profile == engine.fec_profile
    &&& session.up_total == 0 && session.down_total == 0
    &&& session.reported_up == 0 && session.reported_down == 0
    &&& !session.pending_tunnel
    &&& !session.data_frames
    &&& session.debug == (HotDebug {
        generation: 1,
        up_bytes: 0,
        down_bytes: 0,
        up_packets: 0,
        down_packets: 0,
    })
    &&& session.stream_debug == StreamDebugMetrics::fresh(
        start.stream_debug_active,
        start.cached_now,
    )
}

/// What is to be done once a session was set up: packets from its endpoint come here from now
/// on, the control side hears of it and then gets the request.
pub open spec fn is_announced(effects: Seq<EffectView>, session: SessionView, payload: Seq<u8>)
    -> bool {
    &&& effects.len() == 3
    &&& effects[0] == (EffectView::BindEndpoint {
        peer: session.peer,
        local_ip: session.local_ip,
    })
    &&& effects[1] == EffectView::Control(
        EventView::SessionCreated(
            SeedView {
                id: session.id,
                address: session.peer,
                password: session.password,
                device_id: session.device_id,
                generation_id: session.generation_id,
                session_salt: session.session_salt,
                is_srtp: session.is_srtp,
                created_at: session.created_at,
                stream_debug: session.stream_debug,
            },
        ),
    )
    &&& effects[2] == EffectView::Control(
        EventView::Payload { address: session.peer, session_id: session.id, payload },
    )
}

/// The shard that a device belongs to.
pub open spec fn home(engine: EngineView, device_id: Seq<char>) -> int {
    engine::owner_shard(device_id, engine.shard_count)
}

/// A request for a configuration from an endpoint without a session opens one, as soon as one
/// of the credentials opens it, there is room, the packet is not too long and the engine has
/// not looked at too many such packets since the last tick. The first credential that opens
/// the request counts. The session stays where its device is at home, and is announced; else
/// it is handed to that shard with the request. Sessions at other endpoints are not touched.
pub proof fn requests_open_sessions(
    before: EngineView,
    endpoint: EndpointKey,
    packet: Seq<u8>,
    start: SessionStart,
    after: EngineView,
    at: int,
    other: usize,
)
    requires
        before.valid(),
        before.sessions.dom().len() < 3072,
        packet.len() <= before.packet_capacity,
        before.state.setup_budget > 0,
        0 <= at < before.credentials.len(),
        opens(before.credentials[at], packet),
        forall|i: int| 0 <= i < at ==> !opens(#[trigger] before.credentials[i], packet),
        engine::met(before, endpoint, packet, start, after),
        wire::decode(before.credentials[at].key, packet, None)->Ok_0.seq < 65536,
        wire::decode(before.credentials[at].key, packet, None)->Ok_0.seq >= 0,
    ensures
        ({
            let credential = before.credentials[at];
            let unwrapped = wire::decode(credential.key, packet, None)->Ok_0;
            let device_id = asked_for(unwrapped.plain).0;
            &&& after.state.setup_budget == before.state.setup_budget - 1
            &&& home(before, device_id) == before.shard_index ==> exists|slot: usize|
                {
                    let session = #[trigger] after.sessions[slot];
                    &&& after.sessions.contains_key(slot)
                    &&& is_new(
                        session,
                        start,
                        endpoint,
                        credential.password,
                        credential.key,
                        unwrapped,
                        before,
                    )
                    &&& after.by_id.contains_key(start.id) && after.by_id[start.id] == slot
                    &&& after.by_peer.contains_key(endpoint) && after.by_peer[endpoint] == slot
                    &&& after.effects.len() >= before.effects.len() + 3
                    &&& is_announced(
                        after.effects.skip(after.effects.len() - 3),
                        session,
                        unwrapped.plain,
                    )
                    &&& before.sessions.contains_key(other)
                        && before.sessions[other].endpoint() != endpoint ==> other != slot
                        && after.sessions.contains_key(other) && after.sessions[other]
                        == before.sessions[other]
                }
            &&& home(before, device_id) != before.shard_index ==> {
                &&& after.effects.len() > before.effects.len()
                &&& after.effects.last() matches EffectView::Migrate { target, session, payload }
                &&& target == home(before, device_id)
                &&& payload == unwrapped.plain
                &&& is_new(
                    session,
                    start,
                    endpoint,
                    credential.password,
                    credential.key,
                    unwrapped,
                    before,
                )
                &&& after.migrating.contains_key(endpoint)
                &&& after.migrating[endpoint] == before.state.monotonic_ms
                &&& !after.by_peer.contains_key(endpoint)
                &&& !after.by_id.contains_key(start.id)
                &&& before.sessions.contains_key(other) && before.sessions[other].endpoint()
                    != endpoint ==> after.sessions.contains_key(other) && after.sessions[other]
                    == before.sessions[other]
            }
        }),
{
    lemma_first_opening(before.credentials, packet, 0, at);
    let credential = before.credentials[at];
    let unwrapped = wire::decode(credential.key, packet, None)->Ok_0;
    assert(engine::setup_credential(before.credentials, packet, 0) == Some(at));
    let (slot, output) = choose|slot: usize, output: OutState|
        engine::set_up_in(before, after, endpoint, packet, start, slot, output);
    lemma_set_up(before, after, endpoint, packet, start, slot, output, at, other);
}

#[verifier::rlimit(40)]
proof fn lemma_set_up(
    before: EngineView,
    after: EngineView,
    endpoint: EndpointKey,
    packet: Seq<u8>,
    start: SessionStart,
    slot: usize,
    output: OutState,
    at: int,
    other: usize,
)
    requires
        before.valid(),
        before.state.setup_budget > 0,
        0 <= at < before.credentials.len(),
        opens(before.credentials[at], packet),
        engine::setup_credential(before.credentials, packet, 0) == Some(at),
        engine::set_up_in(before, after, endpoint, packet, start, slot, output),
        0 <= wire::decode(before.credentials[at].key, packet, None)->Ok_0.seq < 65536,
    ensures
        ({
            let credential = before.credentials[at];
            let unwrapped = wire::decode(credential.key, packet, None)->Ok_0;
            let device_id = asked_for(unwrapped.plain).0;
            let session = after.sessions[slot];
            &&& after.state.setup_budget == before.state.setup_budget - 1
            &&& home(before, device_id) == before.shard_index ==> {
                &&& after.sessions.contains_key(slot)
                &&& is_new(
                    session,
                    start,
                    endpoint,
                    credential.password,
                    credential.key,
                    unwrapped,
                    before,
                )
                &&& after.by_id.contains_key(start.id) && after.by_id[start.id] == slot
                &&& after.by_peer.contains_key(endpoint) && after.by_peer[endpoint] == slot
                &&& after.effects.len() >= before.effects.len() + 3
                &&& is_announced(
                    after.effects.skip(after.effects.len() - 3),
                    session,
                    unwrapped.plain,
                )
                &&& before.sessions.contains_key(other) && before.sessions[other].endpoint()
                    != endpoint ==> other != slot && after.sessions.contains_key(other)
                    && after.sessions[other] == before.sessions[other]
            }
            &&& home(before, device_id) != before.shard_index ==> {
                &&& after.effects.len() > before.effects.len()
                &&& after.effects.last() matches EffectView::Migrate { target, session, payload }
                &&& target == home(before, device_id)
                &&& payload == unwrapped.plain
                &&& is_new(
                    session,
                    start,
                    endpoint,
                    credential.password,
                    credential.key,
                    unwrapped,
                    before,
                )
                &&& after.migrating.contains_key(endpoint)
                &&& after.migrating[endpoint] == before.state.monotonic_ms
                &&& !after.by_peer.contains_key(endpoint)
                &&& !after.by_id.contains_key(start.id)
                &&& before.sessions.contains_key(other) && before.sessions[other].endpoint()
                    != endpoint ==> after.sessions.contains_key(other) && after.sessions[other]
                    == before.sessions[other]
            }
        }),
{
    let credential = before.credentials[at];
    let unwrapped = wire::decode(credential.key, packet, None)->Ok_0;
    let looked = before.looked_at(packet);
    let vacated = looked.vacated(endpoint);
    lemma_vacated(looked, endpoint, other);
    let epoch = asked_for(unwrapped.plain);
    let identity = crate::epoch::IdentityView {
        device_id: epoch.0,
        generation_id: epoch.1,
        session_salt: epoch.2,
    };
    let origin = before.origin(
        start,
        endpoint,
        credential.password,
        credential.key,
        unwrapped.is_srtp,
        identity,
    );
    let seq = unwrapped.seq as u16;
    let made = engine::opened_session(origin, output, seq);
    assert(made.replay.window =~= set![seq]);
    assert(is_new(
        made,
        start,
        endpoint,
        credential.password,
        credential.key,
        unwrapped,
        before,
    ));
    assert(made.endpoint() == endpoint);
    let created = looked.created(slot, made);
    let seen = created.inspected(
        slot,
        unwrapped.payload_type,
        seq as u64,
        unwrapped.plain,
        packet.len() as usize,
    );
    assert(seen.sessions == vacated.sessions.insert(slot, made));
    assert(after == seen.placed(slot, unwrapped.plain));
    if home(before, epoch.0) == before.shard_index {
        let all = after.effects;
        assert(all =~= seen.effects + engine::creation_effects(made, unwrapped.plain));
        assert(all.skip(all.len() - 3) =~= engine::creation_effects(made, unwrapped.plain));
    } else {
        let count = if before.shard_count == 0 {
            1
        } else {
            before.shard_count as int
        };
        let hash = crate::epoch::fnv1a(vstd::utf8::encode_utf8(epoch.0)) as usize as int;
        vstd::arithmetic::div_mod::lemma_mod_bound(hash, count);
        assert(seen.sessions.remove(slot) =~= vacated.sessions.remove(slot));
    }
}

/// An engine that has made room at an endpoint has lost the session that was there at most.
proof fn lemma_vacated(engine: EngineView, endpoint: EndpointKey, other: usize)
    requires
        engine.valid(),
    ensures
        ({
            let vacated = engine.vacated(endpoint);
            &&& vacated.effects.len() >= engine.effects.len()
            &&& vacated.shard_count == engine.shard_count
            &&& vacated.shard_index == engine.shard_index
            &&& vacated.migrating == engine.migrating
            &&& vacated.state.monotonic_ms == engine.state.monotonic_ms
            &&& vacated.state.setup_budget == engine.state.setup_budget
            &&& engine.sessions.contains_key(other) && engine.sessions[other].endpoint()
                != endpoint ==> vacated.sessions.contains_key(other) && vacated.sessions[other]
                == engine.sessions[other]
        }),
{
}

/// The first credential that opens a packet is the one that is found.
proof fn lemma_first_opening(
    credentials: Seq<CredentialView>,
    packet: Seq<u8>,
    from: int,
    at: int,
)
    requires
        0 <= from <= at < credentials.len(),
        opens(credentials[at], packet),
        forall|i: int| from <= i < at ==> !opens(#[trigger] credentials[i], packet),
    ensures
        engine::setup_credential(credentials, packet, from) == Some(at),
    decreases at - from,
{
    if from < at {
        assert(!opens(credentials[from], packet));
        lemma_first_opening(credentials, packet, from + 1, at);
    }
}

/// A packet that no credential opens is answered with nothing. It is reported, but not more
/// than once in ten seconds, and counts against what the engine looks at until the next tick.
pub proof fn strangers_are_reported_sparingly(
    before: EngineView,
    endpoint: EndpointKey,
    packet: Seq<u8>,
    start: SessionStart,
    after: EngineView,
)
    requires
        before.sessions.dom().len() < 3072,
        packet.len() <= before.packet_capacity,
        before.state.setup_budget > 0,
        forall|i: int|
            0 <= i < before.credentials.len() ==> !opens(#[trigger] before.credentials[i], packet),
        engine::met(before, endpoint, packet, start, after),
    ensures
        ({
            let silent = before.state.unauthenticated_setup_logged && before.state.monotonic_ms
                < before.state.last_unauthenticated_setup_log_ms + 10_000;
            &&& after.sessions == before.sessions
            &&& after.by_peer == before.by_peer
            &&& after.by_id == before.by_id
            &&& after.state.setup_budget == before.state.setup_budget - 1
            &&& silent ==> after.effects == before.effects
            &&& !silent ==> after.effects == before.effects.push(
                EffectView::ReportRejectedSetup {
                    peer: endpoint.peer,
                    wire_len: packet.len() as usize,
                },
            )
            &&& !silent ==> after.state.unauthenticated_setup_logged
                && after.state.last_unauthenticated_setup_log_ms == before.state.monotonic_ms
        }),
{
    lemma_no_opening(before.credentials, packet, 0);
}

proof fn lemma_no_opening(credentials: Seq<CredentialView>, packet: Seq<u8>, from: int)
    requires
        0 <= from <= credentials.len(),
        forall|i: int| from <= i < credentials.len() ==> !opens(#[trigger] credentials[i], packet),
    ensures
        engine::setup_credential(credentials, packet, from) is None,
    decreases credentials.len() - from,
{
    if from < credentials.len() {
        assert(!opens(credentials[from], packet));
        lemma_no_opening(credentials, packet, from + 1);
    }
}

/// An engine that is full, or has looked at enough packets of unknown origin since the last
/// tick, does not look at another, nor at one that is too long.
pub proof fn setup_is_limited(
    before: EngineView,
    endpoint: EndpointKey,
    packet: Seq<u8>,
    start: SessionStart,
    after: EngineView,
)
    requires
        before.sessions.dom().len() >= 3072 || packet.len() > before.packet_capacity
            || before.state.setup_budget == 0,
        engine::met(before, endpoint, packet, start, after),
    ensures
        after == before,
{
}

/// What a session reports: what it carried since it last reported, and when.
pub open spec fn last_report(session: SessionView, engine: EngineView) -> CounterReport {
    CounterReport {
        session_id: session.id,
        up_delta: if session.up_total > session.reported_up {
            (session.up_total - session.reported_up) as u64
        } else {
            0
        },
        down_delta: if session.down_total > session.reported_down {
            (session.down_total - session.reported_down) as u64
        } else {
            0
        },
        last_seen: engine.state.wall_now,
        publish_debug: engine.state.debug_enabled,
        debug: session.debug,
    }
}

/// A session that can carry on for one that is gone: it has a route to the same address, for
/// the same device, key and worker.
pub open spec fn can_carry_on(candidate: SessionView, gone: SessionView) -> bool {
    &&& candidate.tunnel_ip == gone.tunnel_ip
    &&& candidate.registration_id is Some
    &&& candidate.device_id == gone.device_id
    &&& candidate.generation_id == gone.generation_id
    &&& candidate.session_salt == gone.session_salt
    &&& candidate.worker_id == gone.worker_id
}

/// A session that is removed is gone from all lists, and no other is. Its traffic is reported
/// one last time; its route is given up, if it had one; and the control side hears that it has
/// no tunnel, that what is under way for it is off, and that it is closed, and why. Nothing
/// else is to be done.
pub proof fn sessions_take_their_leave(
    engine: EngineView,
    slot: usize,
    reason: Seq<char>,
)
    requires
        engine.sessions.contains_key(slot),
    ensures
        ({
            let gone = engine.sessions[slot];
            let after = engine.removed(slot, reason);
            let added = after.effects.skip(engine.effects.len() as int);
            let routed = gone.tunnel_ip is Some && gone.registration_id is Some;
            let rest = if routed {
                2int
            } else {
                1int
            };
            &&& after.sessions == engine.sessions.remove(slot)
            &&& after.by_peer == engine.by_peer.remove(
                EndpointKey { peer: gone.peer, local_ip: gone.local_ip },
            )
            &&& after.by_id == engine.by_id.remove(gone.id)
            &&& after.effects.take(engine.effects.len() as int) == engine.effects
            &&& added.len() == rest + 3
            &&& added[0] == EffectView::Public(UpdateView::Counters(last_report(gone, engine)))
            &&& routed ==> (added[1] matches EffectView::ReleaseRoute {
                ip,
                registration_id,
                fallback,
            } && Some(ip) == gone.tunnel_ip && Some(registration_id) == gone.registration_id)
            &&& added[rest] == EffectView::Public(
                UpdateView::HasTunnel { session_id: gone.id, has_tunnel: false },
            )
            &&& added[rest + 1] == EffectView::Public(UpdateView::Cancel { session_id: gone.id })
            &&& added[rest + 2] == EffectView::Control(
                EventView::SessionClosed { address: gone.peer, session_id: gone.id, reason },
            )
            &&& after.state.stream_inventory_dirty
            &&& after.state.memory_compact_pending
            &&& after.credentials == engine.credentials
            &&& after.epochs == engine.epochs
            &&& after.migrating == engine.migrating
            &&& after.inventory == engine.inventory
            &&& after.repairs == engine.repairs
            &&& after.state == (EngineState {
                stream_inventory_dirty: true,
                memory_compact_pending: true,
                ..engine.state
            })
        }),
{
    let gone = engine.sessions[slot];
    let after = engine.removed(slot, reason);
    let rest = engine.sessions.remove(slot);
    let effects = engine::removal_effects(gone, rest, engine.state, reason);
    assert(after.effects =~= engine.effects + effects);
    assert(after.effects.skip(engine.effects.len() as int) =~= effects);
    assert(after.effects.take(engine.effects.len() as int) =~= engine.effects);
    assert(gone.report(engine.state.wall_now, engine.state.debug_enabled) == last_report(
        gone,
        engine,
    ));
}

/// The route of a session that is removed goes to the session that can carry on for it, the
/// latest where there are several.
pub proof fn routes_are_handed_on(
    engine: EngineView,
    slot: usize,
    reason: Seq<char>,
    heir: usize,
)
    requires
        engine.sessions.contains_key(slot),
        engine.sessions[slot].tunnel_ip is Some,
        engine.sessions[slot].registration_id is Some,
        engine.sessions[slot].worker_id <= 65535,
        heir != slot,
        engine.sessions.contains_key(heir),
        can_carry_on(engine.sessions[heir], engine.sessions[slot]),
        forall|other: usize| #[trigger]
            engine.sessions.contains_key(other) && other != slot && other != heir && can_carry_on(
                engine.sessions[other],
                engine.sessions[slot],
            ) ==> engine.sessions[other].id < engine.sessions[heir].id,
    ensures
        engine.removed(slot, reason).effects[engine.effects.len() as int + 1]
            == (EffectView::ReleaseRoute {
            ip: engine.sessions[slot].tunnel_ip->0,
            registration_id: engine.sessions[slot].registration_id->0,
            fallback: Some(
                RouteFallback {
                    slot: heir,
                    session_id: engine.sessions[heir].id,
                    registration_id: engine.sessions[heir].registration_id->0,
                    worker_id: engine.sessions[slot].worker_id as u16,
                },
            ),
        }),
{
    let gone = engine.sessions[slot];
    let rest = engine.sessions.remove(slot);
    assert forall|other: usize| #[trigger] rest.contains_key(other) implies (engine::takes_over(
        rest[other],
        gone,
    ) <==> can_carry_on(rest[other], gone)) by {
        lemma_same_heir(rest[other], gone);
    }
    assert(rest.contains_key(heir));
    assert(engine::takes_over(rest[heir], gone));
    assert forall|other: usize| #[trigger] rest.contains_key(other) && engine::takes_over(
        rest[other],
        gone,
    ) implies rest[other].id < rest[heir].id || (rest[other].id == rest[heir].id && other
        <= heir) by {
        assert(engine.sessions.contains_key(other));
    }
    assert(engine::is_heir(rest, gone, heir));
    let chosen = choose|s: usize| engine::is_heir(rest, gone, s);
    assert(engine::is_heir(rest, gone, chosen));
    assert(rest.contains_key(chosen) && engine::takes_over(rest[chosen], gone));
    assert(chosen == heir);
    let effects = engine::removal_effects(gone, rest, engine.state, reason);
    assert(engine.removed(slot, reason).effects[engine.effects.len() as int + 1] == effects[1]);
}

proof fn lemma_same_heir(candidate: SessionView, gone: SessionView)
    ensures
        engine::takes_over(candidate, gone) <==> can_carry_on(candidate, gone),
{
    if can_carry_on(candidate, gone) {
        assert(candidate.identity() =~= gone.identity());
    }
}

/// The route of a session that nobody can carry on for goes to nobody.
pub proof fn routes_without_heirs_end(engine: EngineView, slot: usize, reason: Seq<char>)
    requires
        engine.sessions.contains_key(slot),
        engine.sessions[slot].tunnel_ip is Some,
        engine.sessions[slot].registration_id is Some,
        forall|other: usize| #[trigger]
            engine.sessions.contains_key(other) && other != slot ==> !can_carry_on(
                engine.sessions[other],
                engine.sessions[slot],
            ),
    ensures
        engine.removed(slot, reason).effects[engine.effects.len() as int + 1]
            == (EffectView::ReleaseRoute {
            ip: engine.sessions[slot].tunnel_ip->0,
            registration_id: engine.sessions[slot].registration_id->0,
            fallback: None,
        }),
{
    let gone = engine.sessions[slot];
    let rest = engine.sessions.remove(slot);
    assert forall|other: usize| !engine::is_heir(rest, gone, other) by {
        if rest.contains_key(other) {
            assert(engine.sessions.contains_key(other));
            lemma_same_heir(rest[other], gone);
        }
    }
    let effects = engine::removal_effects(gone, rest, engine.state, reason);
    assert(engine.removed(slot, reason).effects[engine.effects.len() as int + 1] == effects[1]);
}

/// A request for a configuration under another device or key ends the session that it came on
/// and opens another at the same endpoint, with the same password and key.
pub proof fn other_keys_start_over(
    before: EngineView,
    slot: usize,
    local_ip: Option<IpAddress>,
    packet: Seq<u8>,
    start: SessionStart,
    after: EngineView,
    packet_after: Seq<u8>,
    delivery: Option<Delivery>,
    unwrapped: Unwrapped,
)
    requires
        before.valid(),
        before.sessions.contains_key(slot),
        before.sessions[slot].id != start.id,
        wire::decode(before.sessions[slot].key, packet, Some(before.sessions[slot].is_srtp))
            == Ok::<Unwrapped, wire::UnwrapError>(unwrapped),
        0 <= unwrapped.seq < 65536,
        begins(unwrapped.plain, getconf_mark()),
        getconf::payload_epoch(unwrapped.plain) is Some,
        asked_for(unwrapped.plain) != (
            before.sessions[slot].device_id,
            before.sessions[slot].generation_id,
            before.sessions[slot].session_salt,
        ),
        engine::received(
            before,
            slot,
            local_ip,
            packet,
            start,
            after,
            packet_after,
            delivery,
        ),
    ensures
        ({
            let session = before.sessions[slot];
            let endpoint = EndpointKey {
                peer: session.peer,
                local_ip: if local_ip is Some {
                    local_ip
                } else {
                    session.local_ip
                },
            };
            let device_id = asked_for(unwrapped.plain).0;
            &&& delivery is None
            &&& !after.by_id.contains_key(session.id)
            &&& home(before, device_id) == before.shard_index ==> exists|new_slot: usize|
                {
                    let made = #[trigger] after.sessions[new_slot];
                    &&& after.sessions.contains_key(new_slot)
                    &&& is_new(
                        made,
                        start,
                        endpoint,
                        session.password,
                        session.key,
                        unwrapped,
                        before,
                    )
                    &&& after.by_id.contains_key(start.id) && after.by_id[start.id] == new_slot
                    &&& after.by_peer.contains_key(endpoint) && after.by_peer[endpoint]
                        == new_slot
                    &&& after.effects.len() >= 3
                    &&& is_announced(
                        after.effects.skip(after.effects.len() - 3),
                        made,
                        unwrapped.plain,
                    )
                }
            &&& home(before, device_id) != before.shard_index ==> {
                &&& after.effects.len() > before.effects.len()
                &&& after.effects.last() matches EffectView::Migrate {
                    target,
                    session: made,
                    payload,
                }
                &&& target == home(before, device_id)
                &&& payload == unwrapped.plain
                &&& is_new(
                    made,
                    start,
                    endpoint,
                    session.password,
                    session.key,
                    unwrapped,
                    before,
                )
            }
        }),
{
    let session = before.sessions[slot];
    assert(unwrapped.plain.take(8) =~= unwrapped.plain.subrange(0, 8));
    assert(crate::control::GETCONF_PREFIX@ =~= getconf_mark());
    let epoch = asked_for(unwrapped.plain);
    assert(engine::requested_identity(unwrapped) != session.identity()) by {
        if engine::requested_identity(unwrapped) == session.identity() {
            assert(epoch == (session.device_id, session.generation_id, session.session_salt));
        }
    }
    let heard = before.unwrapped(unwrapped);
    let (decoded, new_slot, output) = choose|
        decoded: wire::DecodedPacket,
        new_slot: usize,
        output: OutState,
    |
        {
            &&& decoded.seq == unwrapped.seq
            &&& decoded.payload_type == unwrapped.payload_type
            &&& decoded.is_srtp == unwrapped.is_srtp
            &&& #[trigger] engine::restarted_in(
                heard,
                after,
                slot,
                local_ip,
                decoded,
                unwrapped.plain,
                start,
                new_slot,
                output,
            )
        };
    assert(heard.sessions == before.sessions && heard.by_id == before.by_id && heard.by_peer
        == before.by_peer && heard.effects == before.effects);
    assert(heard.valid());
    lemma_restarted(heard, after, slot, local_ip, decoded, unwrapped, start, new_slot, output);
}

#[verifier::rlimit(60)]
proof fn lemma_restarted(
    before: EngineView,
    after: EngineView,
    slot: usize,
    local_ip: Option<IpAddress>,
    decoded: wire::DecodedPacket,
    unwrapped: Unwrapped,
    start: SessionStart,
    new_slot: usize,
    output: OutState,
)
    requires
        before.valid(),
        before.sessions.contains_key(slot),
        before.sessions[slot].id != start.id,
        0 <= unwrapped.seq < 65536,
        decoded.seq == unwrapped.seq,
        decoded.payload_type == unwrapped.payload_type,
        decoded.is_srtp == unwrapped.is_srtp,
        engine::restarted_in(
            before,
            after,
            slot,
            local_ip,
            decoded,
            unwrapped.plain,
            start,
            new_slot,
            output,
        ),
    ensures
        ({
            let session = before.sessions[slot];
            let endpoint = EndpointKey {
                peer: session.peer,
                local_ip: if local_ip is Some {
                    local_ip
                } else {
                    session.local_ip
                },
            };
            let device_id = asked_for(unwrapped.plain).0;
            let made = after.sessions[new_slot];
            &&& !after.by_id.contains_key(session.id)
            &&& home(before, device_id) == before.shard_index ==> {
                &&& after.sessions.contains_key(new_slot)
                &&& is_new(
                    made,
                    start,
                    endpoint,
                    session.password,
                    session.key,
                    unwrapped,
                    before,
                )
                &&& after.by_id.contains_key(start.id) && after.by_id[start.id] == new_slot
                &&& after.by_peer.contains_key(endpoint) && after.by_peer[endpoint] == new_slot
                &&& after.effects.len() >= 3
                &&& is_announced(
                    after.effects.skip(after.effects.len() - 3),
                    made,
                    unwrapped.plain,
                )
            }
            &&& home(before, device_id) != before.shard_index ==> {
                &&& after.effects.len() > before.effects.len()
                &&& after.effects.last() matches EffectView::Migrate {
                    target,
                    session: sent,
                    payload,
                }
                &&& target == home(before, device_id)
                &&& payload == unwrapped.plain
                &&& is_new(
                    sent,
                    start,
                    endpoint,
                    session.password,
                    session.key,
                    unwrapped,
                    before,
                )
            }
        }),
{
    let session = before.sessions[slot];
    let endpoint = EndpointKey {
        peer: session.peer,
        local_ip: if local_ip is Some {
            local_ip
        } else {
            session.local_ip
        },
    };
    let epoch = asked_for(unwrapped.plain);
    let closed = before.removed(slot, "epoch-replaced"@);
    engine::removal_keeps_indexes_valid(before, slot, "epoch-replaced"@);
    assert(!closed.by_id.contains_key(session.id));
    let vacated = closed.vacated(endpoint);
    lemma_vacated(closed, endpoint, slot);
    assert(!vacated.by_id.contains_key(session.id));
    let origin = before.origin(
        start,
        endpoint,
        session.password,
        session.key,
        decoded.is_srtp,
        crate::epoch::IdentityView {
            device_id: epoch.0,
            generation_id: epoch.1,
            session_salt: epoch.2,
        },
    );
    let made = engine::opened_session(origin, output, decoded.seq);
    assert(made.replay.window =~= set![decoded.seq]);
    assert(is_new(made, start, endpoint, session.password, session.key, unwrapped, before));
    assert(made.endpoint() == endpoint);
    let created = closed.created(new_slot, made);
    assert(after == created.placed(new_slot, unwrapped.plain));
    assert(created.sessions[new_slot] == made);
    assert(created.effects == vacated.effects);
    if home(before, epoch.0) == before.shard_index {
        let all = after.effects;
        assert(all =~= created.effects + engine::creation_effects(made, unwrapped.plain));
        assert(all.skip(all.len() - 3) =~= engine::creation_effects(made, unwrapped.plain));
        assert(after.sessions[new_slot] == made);
    } else {
        let count = if before.shard_count == 0 {
            1
        } else {
            before.shard_count as int
        };
        let hash = crate::epoch::fnv1a(vstd::utf8::encode_utf8(epoch.0)) as usize as int;
        vstd::arithmetic::div_mod::lemma_mod_bound(hash, count);
    }
}

/// A session that is set up takes the place of the one that was at its endpoint: that one is
/// closed, and the control side hears why. The streams are counted anew, and nothing that has
/// to do with keys and passwords changes.
pub proof fn sessions_replace_each_other(
    before: EngineView,
    endpoint: EndpointKey,
    packet: Seq<u8>,
    start: SessionStart,
    after: EngineView,
    at: int,
)
    requires
        before.valid(),
        before.sessions.dom().len() < 3072,
        packet.len() <= before.packet_capacity,
        before.state.setup_budget > 0,
        0 <= at < before.credentials.len(),
        opens(before.credentials[at], packet),
        forall|i: int| 0 <= i < at ==> !opens(#[trigger] before.credentials[i], packet),
        engine::met(before, endpoint, packet, start, after),
    ensures
        ({
            let gone = before.sessions[before.by_peer[endpoint]];
            let closed = if gone.tunnel_ip is Some && gone.registration_id is Some {
                4int
            } else {
                3int
            };
            &&& before.by_peer.contains_key(endpoint) ==> {
                &&& after.effects.len() > before.effects.len() + closed
                &&& after.effects[before.effects.len() + closed] == EffectView::Control(
                    EventView::SessionClosed {
                        address: gone.peer,
                        session_id: gone.id,
                        reason: "peer-replaced"@,
                    },
                )
                &&& after.state.memory_compact_pending
            }
            &&& !before.by_peer.contains_key(endpoint) ==> {
                &&& after.effects.len() <= before.effects.len() + 4
                &&& after.state.memory_compact_pending == before.state.memory_compact_pending
            }
            &&& after.state.stream_inventory_dirty
            &&& after.credentials == before.credentials
            &&& after.epochs == before.epochs
            &&& after.state.monotonic_ms == before.state.monotonic_ms
            &&& after.state.wall_now == before.state.wall_now
        }),
{
    lemma_first_opening(before.credentials, packet, 0, at);
    let (slot, output) = choose|slot: usize, output: OutState|
        engine::set_up_in(before, after, endpoint, packet, start, slot, output);
    let credential = before.credentials[at];
    let unwrapped = wire::decode(credential.key, packet, None)->Ok_0;
    let looked = before.looked_at(packet);
    let vacated = looked.vacated(endpoint);
    let epoch = asked_for(unwrapped.plain);
    let origin = before.origin(
        start,
        endpoint,
        credential.password,
        credential.key,
        unwrapped.is_srtp,
        crate::epoch::IdentityView {
            device_id: epoch.0,
            generation_id: epoch.1,
            session_salt: epoch.2,
        },
    );
    let seq = unwrapped.seq as u16;
    let made = engine::opened_session(origin, output, seq);
    assert(made.endpoint() == endpoint);
    let created = looked.created(slot, made);
    assert(created.effects == vacated.effects);
    let seen = created.inspected(
        slot,
        unwrapped.payload_type,
        seq as u64,
        unwrapped.plain,
        packet.len() as usize,
    );
    assert(after == seen.placed(slot, unwrapped.plain));
    if before.by_peer.contains_key(endpoint) {
        let old_slot = before.by_peer[endpoint];
        sessions_take_their_leave(looked, old_slot, "peer-replaced"@);
        let added = vacated.effects.skip(before.effects.len() as int);
        let gone = before.sessions[old_slot];
        let closed = if gone.tunnel_ip is Some && gone.registration_id is Some {
            4int
        } else {
            3int
        };
        assert(vacated.effects[before.effects.len() + closed] == added[closed]);
        assert(seen.effects[before.effects.len() + closed] == vacated.effects[before.effects.len()
            + closed]);
        assert(after.effects[before.effects.len() + closed] == seen.effects[before.effects.len()
            + closed]);
    }
}

/// A session that starts over is closed first, and the control side hears why; its device has
/// been heard of, and the streams are counted anew.
pub proof fn sessions_that_start_over_are_closed(
    before: EngineView,
    slot: usize,
    local_ip: Option<IpAddress>,
    packet: Seq<u8>,
    start: SessionStart,
    after: EngineView,
    packet_after: Seq<u8>,
    delivery: Option<Delivery>,
    unwrapped: Unwrapped,
    device_id: Seq<char>,
)
    requires
        before.valid(),
        before.sessions.contains_key(slot),
        wire::decode(before.sessions[slot].key, packet, Some(before.sessions[slot].is_srtp))
            == Ok::<Unwrapped, wire::UnwrapError>(unwrapped),
        begins(unwrapped.plain, getconf_mark()),
        getconf::payload_epoch(unwrapped.plain) is Some,
        asked_for(unwrapped.plain) != (
            before.sessions[slot].device_id,
            before.sessions[slot].generation_id,
            before.sessions[slot].session_salt,
        ),
        engine::received(
            before,
            slot,
            local_ip,
            packet,
            start,
            after,
            packet_after,
            delivery,
        ),
    ensures
        ({
            let gone = before.sessions[slot];
            let closed = if gone.tunnel_ip is Some && gone.registration_id is Some {
                4int
            } else {
                3int
            };
            &&& after.effects.len() > before.effects.len() + closed
            &&& after.effects[before.effects.len() + closed] == EffectView::Control(
                EventView::SessionClosed {
                    address: gone.peer,
                    session_id: gone.id,
                    reason: "epoch-replaced"@,
                },
            )
            &&& after.state.stream_inventory_dirty
            &&& after.state.memory_compact_pending
            &&& after.credentials == before.credentials
            &&& after.epochs.contains_key(device_id) <==> before.epochs.contains_key(device_id)
            &&& before.epochs.contains_key(device_id) ==> after.epochs[device_id] == if device_id
                == asked_for(unwrapped.plain).0 {
                before.state.monotonic_ms
            } else {
                before.epochs[device_id]
            }
        }),
{
    let session = before.sessions[slot];
    assert(unwrapped.plain.take(8) =~= unwrapped.plain.subrange(0, 8));
    assert(crate::control::GETCONF_PREFIX@ =~= getconf_mark());
    let epoch = asked_for(unwrapped.plain);
    assert(engine::requested_identity(unwrapped) != session.identity()) by {
        if engine::requested_identity(unwrapped) == session.identity() {
            assert(epoch == (session.device_id, session.generation_id, session.session_salt));
        }
    }
    let heard = before.unwrapped(unwrapped);
    let (decoded, new_slot, output) = choose|
        decoded: wire::DecodedPacket,
        new_slot: usize,
        output: OutState,
    |
        {
            &&& decoded.seq == unwrapped.seq
            &&& decoded.payload_type == unwrapped.payload_type
            &&& decoded.is_srtp == unwrapped.is_srtp
            &&& #[trigger] engine::restarted_in(
                heard,
                after,
                slot,
                local_ip,
                decoded,
                unwrapped.plain,
                start,
                new_slot,
                output,
            )
        };
    lemma_closed_first(
        heard,
        after,
        slot,
        local_ip,
        decoded,
        unwrapped.plain,
        start,
        new_slot,
        output,
    );
}

#[verifier::rlimit(60)]
proof fn lemma_closed_first(
    heard: EngineView,
    after: EngineView,
    slot: usize,
    local_ip: Option<IpAddress>,
    decoded: wire::DecodedPacket,
    plain: Seq<u8>,
    start: SessionStart,
    new_slot: usize,
    output: OutState,
)
    requires
        heard.sessions.contains_key(slot),
        engine::restarted_in(
            heard,
            after,
            slot,
            local_ip,
            decoded,
            plain,
            start,
            new_slot,
            output,
        ),
    ensures
        ({
            let gone = heard.sessions[slot];
            let closed = if gone.tunnel_ip is Some && gone.registration_id is Some {
                4int
            } else {
                3int
            };
            &&& after.effects.len() > heard.effects.len() + closed
            &&& after.effects[heard.effects.len() + closed] == EffectView::Control(
                EventView::SessionClosed {
                    address: gone.peer,
                    session_id: gone.id,
                    reason: "epoch-replaced"@,
                },
            )
            &&& after.state.stream_inventory_dirty
            &&& after.state.memory_compact_pending
            &&& after.credentials == heard.credentials
            &&& after.epochs == heard.epochs
        }),
{
    let session = heard.sessions[slot];
    let closing = heard.removed(slot, "epoch-replaced"@);
    sessions_take_their_leave(heard, slot, "epoch-replaced"@);
    let added = closing.effects.skip(heard.effects.len() as int);
    let closed = if session.tunnel_ip is Some && session.registration_id is Some {
        4int
    } else {
        3int
    };
    let at = heard.effects.len() + closed;
    assert(closing.effects[at] == added[closed]);
    let endpoint = EndpointKey {
        peer: session.peer,
        local_ip: if local_ip is Some {
            local_ip
        } else {
            session.local_ip
        },
    };
    let vacated = closing.vacated(endpoint);
    assert(vacated.effects.len() >= closing.effects.len());
    assert(vacated.effects[at] == closing.effects[at]);
    assert(vacated.epochs == heard.epochs);
    let epoch = asked_for(plain);
    let origin = heard.origin(
        start,
        endpoint,
        session.password,
        session.key,
        decoded.is_srtp,
        crate::epoch::IdentityView {
            device_id: epoch.0,
            generation_id: epoch.1,
            session_salt: epoch.2,
        },
    );
    let made = engine::opened_session(origin, output, decoded.seq);
    assert(made.endpoint() == endpoint);
    let created = closing.created(new_slot, made);
    assert(created.effects == vacated.effects);
    assert(after == created.placed(new_slot, plain));
    assert(after.effects[at] == created.effects[at]);
}

/// A session that is taken over from another shard, or taken back, is announced here as a new
/// one is.
pub proof fn moved_sessions_are_announced(
    engine: EngineView,
    slot: usize,
    session: SessionView,
    payload: Seq<u8>,
)
    ensures
        ({
            let after = engine.adopted(slot, session, payload);
            &&& after.sessions == engine.sessions.insert(slot, session)
            &&& after.by_id == engine.by_id.insert(session.id, slot)
            &&& after.by_peer == engine.by_peer.insert(
                EndpointKey { peer: session.peer, local_ip: session.local_ip },
                slot,
            )
            &&& after.effects.take(engine.effects.len() as int) == engine.effects
            &&& is_announced(
                after.effects.skip(engine.effects.len() as int),
                session,
                payload,
            )
            &&& after.state.stream_inventory_dirty
        }),
{
    let after = engine.adopted(slot, session, payload);
    let effects = engine::creation_effects(session, payload);
    assert(after.effects =~= engine.effects + effects);
    assert(after.effects.skip(engine.effects.len() as int) =~= effects);
    assert(after.effects.take(engine.effects.len() as int) =~= engine.effects);
}

/// What a session carried is counted, up and down, as long as the counters can hold it; how
/// many packets that were is counted while somebody watches.
pub proof fn traffic_is_counted(session: SessionView, bytes: u64, watched: bool)
    requires
        session.up_total + bytes <= u64::MAX,
        session.down_total + bytes <= u64::MAX,
        session.debug.up_bytes + bytes <= u64::MAX,
        session.debug.down_bytes + bytes <= u64::MAX,
        session.debug.up_packets < u64::MAX,
        session.debug.down_packets < u64::MAX,
    ensures
        ({
            let up = session.carried_up(bytes, watched);
            let down = session.carried_down(bytes, watched);
            &&& up.up_total == session.up_total + bytes
            &&& up.down_total == session.down_total
            &&& down.down_total == session.down_total + bytes
            &&& down.up_total == session.up_total
            &&& watched ==> {
                &&& up.debug.up_bytes == session.debug.up_bytes + bytes
                &&& up.debug.up_packets == session.debug.up_packets + 1
                &&& up.debug.down_bytes == session.debug.down_bytes
                &&& up.debug.down_packets == session.debug.down_packets
                &&& down.debug.down_bytes == session.debug.down_bytes + bytes
                &&& down.debug.down_packets == session.debug.down_packets + 1
                &&& down.debug.up_bytes == session.debug.up_bytes
                &&& down.debug.up_packets == session.debug.up_packets
            }
            &&& !watched ==> up.debug == session.debug && down.debug == session.debug
            &&& up == (SessionView { up_total: up.up_total, debug: up.debug, ..session })
            &&& down == (SessionView { down_total: down.down_total, debug: down.debug, ..session })
        }),
{
}

/// A report says what was carried since the last one, and a second report right after it says
/// nothing more.
pub proof fn reports_are_differences(session: SessionView, wall_now: u64, watched: bool)
    requires
        session.reported_up <= session.up_total,
        session.reported_down <= session.down_total,
    ensures
        ({
            let report = session.report(wall_now, watched);
            let after = session.reported();
            &&& report.session_id == session.id
            &&& report.up_delta == session.up_total - session.reported_up
            &&& report.down_delta == session.down_total - session.reported_down
            &&& report.last_seen == wall_now
            &&& report.publish_debug == watched
            &&& report.debug == session.debug
            &&& after.reported_up == session.up_total
            &&& after.reported_down == session.down_total
            &&& after == (SessionView {
                reported_up: after.reported_up,
                reported_down: after.reported_down,
                ..session
            })
        }),
{
}

/// Counters stop at the top, and differences at zero.
pub proof fn counters_stop_at_the_ends(a: u64, b: u64)
    ensures
        a + b <= u64::MAX ==> session::saturating_sum(a, b) == a + b,
        a + b > u64::MAX ==> session::saturating_sum(a, b) == u64::MAX,
        b <= a ==> b + session::saturating_difference(a, b) == a,
        b > a ==> session::saturating_difference(a, b) == 0,
{
}

} // verus!
