//! What the engine does when it is told to.
use crate::control;
use crate::effect::{
    CommandView, CredentialView, EffectView, EventView, ProtocolCommand, RouteFallback,
    RouteRequest, UpdateView,
};
use crate::engine::commands;
use crate::engine::{EngineState, EngineView};
use crate::epoch;
use crate::epoch::IdentityView;
use crate::laws::delivery::else_unchanged;
use crate::laws::sessions::{is_announced, last_report, sessions_take_their_leave};
use crate::session::SessionView;
use crate::slots;
use vstd::prelude::*;

verus! {

/// A payload for a session is sent over that session, once; a payload for a session that is
/// not there is not sent.
pub proof fn payloads_are_sent_once(
    engine: EngineView,
    session_id: u64,
    payload: Seq<u8>,
    after: EngineView,
)
    requires
        engine.obeyed(CommandView::SendPlain { session_id, payload }, after),
    ensures
        engine.by_id.contains_key(session_id) ==> {
            &&& after.effects.len() == engine.effects.len() + 1
            &&& after.effects.drop_last() == engine.effects
            &&& after.effects.last() matches EffectView::Send {
                slot,
                payload: sent,
                record_dpi,
            }
            &&& slot == engine.by_id[session_id]
            &&& sent == payload
            &&& else_unchanged(engine, after)
        },
        !engine.by_id.contains_key(session_id) ==> after == engine,
{
    if engine.by_id.contains_key(session_id) {
        assert(after.effects.drop_last() =~= engine.effects);
    }
}

/// A payload for all is sent over every session, over each once, and over nothing else.
pub proof fn broadcasts_reach_every_session(
    engine: EngineView,
    payload: Seq<u8>,
    after: EngineView,
    slot: usize,
)
    requires
        engine.obeyed(CommandView::BroadcastPlain { payload }, after),
    ensures
        after.effects.take(engine.effects.len() as int) == engine.effects,
        engine.sessions.contains_key(slot) <==> exists|i: int|
            engine.effects.len() <= i < after.effects.len() && (
            #[trigger] after.effects[i] matches EffectView::Send { slot: at, payload: sent, record_dpi }
                && at == slot && sent == payload),
        forall|i: int|
            engine.effects.len() <= i < after.effects.len() ==> (
            #[trigger] after.effects[i] matches EffectView::Send { slot: at, payload: sent, record_dpi }
                && sent == payload && engine.sessions.contains_key(at)),
        forall|i: int, j: int|
            engine.effects.len() <= i < j < after.effects.len() ==> (#[trigger] after.effects[i])->Send_slot
                < (#[trigger] after.effects[j])->Send_slot,
        else_unchanged(engine, after),
{
    let set = Set::new(
        |s: usize| engine.sessions.contains_key(s) && (|session: SessionView| true)(
            engine.sessions[s],
        ),
    );
    slots::lemma_sorted_lists(set);
    let order = slots::sorted(set);
    assert(order == engine.slots_where(|session: SessionView| true));
    let base = engine.effects.len() as int;
    assert(after.effects.take(base) =~= engine.effects);
    assert forall|i: int| base <= i < after.effects.len() implies (
    #[trigger] after.effects[i] matches EffectView::Send { slot: at, payload: sent, record_dpi }
        && sent == payload && engine.sessions.contains_key(at) && at == order[i - base]) by {
        assert(order.contains(order[i - base]));
    }
    if engine.sessions.contains_key(slot) {
        assert(order.contains(slot));
        let k = choose|k: int| 0 <= k < order.len() && order[k] == slot;
        assert(after.effects[base + k] matches EffectView::Send { slot: at, payload: sent, record_dpi }
            && at == slot && sent == payload);
    }
}

/// To give a session a tunnel, the engine asks for a route to it, to the address and under the
/// registration given, for the worker and the number of streams given. A route that the
/// session had is given up first. Nothing else is to be done, and nothing happens where the
/// session is not there.
pub proof fn activations_ask_for_the_route(
    engine: EngineView,
    session_id: u64,
    ip: [u8; 4],
    registration_id: u64,
    worker_id: u16,
    desired_count: u16,
    after: EngineView,
)
    requires
        engine.obeyed(
            CommandView::ActivateTunnel {
                session_id,
                ip,
                registration_id,
                worker_id,
                desired_count,
            },
            after,
        ),
    ensures
        engine.by_id.contains_key(session_id) ==> {
            let slot = engine.by_id[session_id];
            let session = engine.sessions[slot];
            let had_route = session.tunnel_ip is Some && session.registration_id is Some;
            let asked = EffectView::RegisterRoute(
                RouteRequest {
                    ip,
                    session_id,
                    registration_id,
                    worker_id,
                    slot,
                    desired_count,
                    previous_ip: if had_route {
                        session.tunnel_ip
                    } else {
                        None
                    },
                },
            );
            &&& had_route ==> after.effects == engine.effects + seq![
                EffectView::DropRoute {
                    ip: session.tunnel_ip->0,
                    registration_id: session.registration_id->0,
                },
                asked,
            ]
            &&& !had_route ==> after.effects == engine.effects + seq![asked]
            &&& after == (EngineView { effects: after.effects, ..engine })
        },
        !engine.by_id.contains_key(session_id) ==> after == engine,
{
    if engine.by_id.contains_key(session_id) {
        let session = engine.sessions[engine.by_id[session_id]];
        assert(session.routed() == (session.tunnel_ip is Some && session.registration_id is Some));
        let count = after.effects.len() as int;
        if session.routed() {
            assert(after.effects =~= engine.effects + seq![
                after.effects[count - 2],
                after.effects[count - 1],
            ]);
        } else {
            assert(after.effects =~= engine.effects + seq![after.effects[count - 1]]);
        }
    }
}

/// Once its route is registered, the session has it, with the number of streams asked for, and
/// packets for it are no longer held back. The control side hears of it, the queues of the
/// address that it had and of the one that it has are adjusted, and packets for the address
/// come here. Where the route could not be registered, the session stays as it was.
pub proof fn registered_routes_take_effect(
    engine: EngineView,
    request: RouteRequest,
    registered: bool,
)
    requires
        engine.sessions.contains_key(request.slot),
        engine.sessions[request.slot].id == request.session_id,
    ensures
        ({
            let after = engine.activated(request, registered);
            let previous = match request.previous_ip {
                Some(ip) => seq![EffectView::SyncDownlink { ip }],
                None => Seq::empty(),
            };
            &&& registered ==> {
                &&& after.sessions == engine.sessions.insert(
                    request.slot,
                    SessionView {
                        tunnel_ip: Some(request.ip),
                        registration_id: Some(request.registration_id),
                        desired_stream_count: request.desired_count,
                        pending_tunnel: false,
                        ..engine.sessions[request.slot]
                    },
                )
                &&& after.state.stream_inventory_dirty
                &&& after.effects == engine.effects + seq![
                    EffectView::Public(
                        UpdateView::Tunnel {
                            session_id: request.session_id,
                            ip: request.ip,
                            desired_count: request.desired_count,
                        },
                    ),
                ] + previous + seq![
                    EffectView::SyncDownlink { ip: request.ip },
                    EffectView::BindTunnel { ip: request.ip },
                ]
            }
            &&& !registered ==> {
                &&& after.sessions == engine.sessions
                &&& after.effects == engine.effects + previous
            }
            &&& after.by_id == engine.by_id
            &&& after.by_peer == engine.by_peer
        }),
{
    let after = engine.activated(request, registered);
    let previous = match request.previous_ip {
        Some(ip) => seq![EffectView::SyncDownlink { ip }],
        None => Seq::empty(),
    };
    if registered {
        assert(after.effects =~= engine.effects + seq![
            EffectView::Public(
                UpdateView::Tunnel {
                    session_id: request.session_id,
                    ip: request.ip,
                    desired_count: request.desired_count,
                },
            ),
        ] + previous + seq![
            EffectView::SyncDownlink { ip: request.ip },
            EffectView::BindTunnel { ip: request.ip },
        ]);
    }
}

/// A route that was registered for a session that has gone meanwhile, or whose slot has gone to
/// another, changes nothing.
pub proof fn late_routes_change_nothing(
    engine: EngineView,
    request: RouteRequest,
    registered: bool,
)
    requires
        !engine.sessions.contains_key(request.slot) || engine.sessions[request.slot].id
            != request.session_id,
    ensures
        engine.activated(request, registered) == engine,
{
}

/// A packet for the tunnel device is written on behalf of its session, as it is.
pub proof fn injected_packets_are_written(
    engine: EngineView,
    session_id: u64,
    payload: Seq<u8>,
    after: EngineView,
)
    requires
        engine.obeyed(CommandView::InjectTun { session_id, payload }, after),
    ensures
        engine.by_id.contains_key(session_id) ==> after == (EngineView {
            effects: engine.effects.push(
                EffectView::WriteTun { slot: engine.by_id[session_id], payload },
            ),
            ..engine
        }),
        !engine.by_id.contains_key(session_id) ==> after == engine,
{
}

/// A session that is given a device and key has them from then on, and the control side hears
/// of it. Where they are not the ones that it had, what waits for its address is thrown away.
pub proof fn sessions_take_their_key(
    engine: EngineView,
    session_id: u64,
    device_id: Seq<char>,
    generation_id: u64,
    session_salt: Seq<char>,
    after: EngineView,
)
    requires
        engine.obeyed(
            CommandView::UpdateEpoch { session_id, device_id, generation_id, session_salt },
            after,
        ),
    ensures
        engine.by_id.contains_key(session_id) ==> {
            let slot = engine.by_id[session_id];
            let session = engine.sessions[slot];
            let told = EffectView::Public(
                UpdateView::Epoch { session_id, device_id, generation_id, session_salt },
            );
            let other = session.device_id != device_id || session.generation_id != generation_id
                || session.session_salt != session_salt;
            &&& after.sessions == engine.sessions.insert(
                slot,
                SessionView { device_id, generation_id, session_salt, ..session },
            )
            &&& after.state == (EngineState { stream_inventory_dirty: true, ..engine.state })
            &&& other && session.tunnel_ip is Some ==> after.effects == engine.effects + seq![
                told,
                EffectView::ClearDownlink { ip: session.tunnel_ip->0 },
            ]
            &&& !other || session.tunnel_ip is None ==> after.effects == engine.effects + seq![told]
            &&& after.by_id == engine.by_id
            &&& after.by_peer == engine.by_peer
        },
        !engine.by_id.contains_key(session_id) ==> after == engine,
{
    if engine.by_id.contains_key(session_id) {
        let slot = engine.by_id[session_id];
        let session = engine.sessions[slot];
        let told = EffectView::Public(
            UpdateView::Epoch { session_id, device_id, generation_id, session_salt },
        );
        let identity = IdentityView { device_id, generation_id, session_salt };
        let other = session.device_id != device_id || session.generation_id != generation_id
            || session.session_salt != session_salt;
        if !other {
            assert(session.identity() =~= identity);
        }
        if other && session.tunnel_ip is Some {
            assert(session.identity() != identity);
            assert(after.effects =~= engine.effects + seq![
                told,
                EffectView::ClearDownlink { ip: session.tunnel_ip->0 },
            ]);
        } else {
            assert(after.effects =~= engine.effects + seq![told]);
        }
    }
}

/// Whether the packets of a session are framed, and which worker it is, is noted with it and
/// with no other session.
pub proof fn notes_are_kept(
    engine: EngineView,
    session_id: u64,
    enabled: bool,
    worker_id: u16,
    after: EngineView,
)
    requires
        engine.obeyed(CommandView::SetDataFrames { session_id, enabled }, after),
    ensures
        engine.by_id.contains_key(session_id) ==> {
            let slot = engine.by_id[session_id];
            &&& after == (EngineView {
                sessions: engine.sessions.insert(
                    slot,
                    SessionView { data_frames: enabled, ..engine.sessions[slot] },
                ),
                ..engine
            })
            &&& engine.with_worker(session_id, worker_id) == (EngineView {
                sessions: engine.sessions.insert(
                    slot,
                    SessionView { worker_id: worker_id as u64, ..engine.sessions[slot] },
                ),
                ..engine
            })
        },
        !engine.by_id.contains_key(session_id) ==> after == engine && engine.with_worker(
            session_id,
            worker_id,
        ) == engine,
{
}

/// Among the effects that were added, a session takes its leave: its traffic is reported, its
/// route is given up if it had one, and it is closed for a reason.
pub open spec fn leave_is_taken(
    before: EngineView,
    after: EngineView,
    gone: SessionView,
    reason: Seq<char>,
) -> bool {
    &&& exists|i: int|
        before.effects.len() <= i < after.effects.len() && #[trigger] after.effects[i]
            == EffectView::Public(UpdateView::Counters(last_report(gone, before)))
    &&& gone.tunnel_ip is Some && gone.registration_id is Some ==> exists|i: int|
        before.effects.len() <= i < after.effects.len() && (
        #[trigger] after.effects[i] matches EffectView::ReleaseRoute { ip, registration_id, fallback }
            && Some(ip) == gone.tunnel_ip && Some(registration_id) == gone.registration_id)
    &&& exists|i: int|
        before.effects.len() <= i < after.effects.len() && #[trigger] after.effects[i]
            == EffectView::Control(
            EventView::SessionClosed { address: gone.peer, session_id: gone.id, reason },
        )
}

/// The sessions of which a condition holds are gone and have taken their leave; the others are
/// as they were.
pub open spec fn are_removed(
    before: EngineView,
    after: EngineView,
    chosen: spec_fn(SessionView) -> bool,
    reason: Seq<char>,
) -> bool {
    &&& forall|slot: usize|
        #![trigger before.sessions.contains_key(slot)]
        #![trigger after.sessions.contains_key(slot)]
        {
            &&& after.sessions.contains_key(slot) <==> before.sessions.contains_key(slot)
                && !chosen(before.sessions[slot])
            &&& after.sessions.contains_key(slot) ==> after.sessions[slot]
                == before.sessions[slot]
            &&& before.sessions.contains_key(slot) && chosen(before.sessions[slot])
                ==> leave_is_taken(before, after, before.sessions[slot], reason)
        }
    &&& after.effects.len() >= before.effects.len()
    &&& after.effects.take(before.effects.len() as int) == before.effects
}

proof fn lemma_removed_in_turn(engine: EngineView, slots: Seq<usize>, reason: Seq<char>, slot: usize)
    ensures
        ({
            let after = engine.removed_all(slots, reason);
            &&& after.effects.len() >= engine.effects.len()
            &&& after.effects.take(engine.effects.len() as int) == engine.effects
            &&& after.epochs == engine.epochs
            &&& after.state.monotonic_ms == engine.state.monotonic_ms
            &&& after.state.wall_now == engine.state.wall_now
            &&& after.state.debug_enabled == engine.state.debug_enabled
            &&& slots.contains(slot) && engine.sessions.contains_key(slot) ==> leave_is_taken(
                engine,
                after,
                engine.sessions[slot],
                reason,
            )
        }),
    decreases slots.len(),
{
    if slots.len() > 0 {
        let last = slots.last();
        let some = engine.removed(last, reason);
        let rest = slots.drop_last();
        let after = some.removed_all(rest, reason);
        lemma_removed_in_turn(some, rest, reason, slot);
        if engine.sessions.contains_key(last) {
            sessions_take_their_leave(engine, last, reason);
            let base = engine.effects.len() as int;
            let count = some.effects.len() as int;
            assert(count > base) by {
                assert(some.effects.skip(base).len() > 0);
                if count < base {
                    assert(some.effects.take(base) == engine.effects);
                }
            }
            assert forall|i: int| 0 <= i < count implies #[trigger] after.effects[i]
                == some.effects[i] by {
                assert(after.effects.take(count)[i] == after.effects[i]);
            }
            assert forall|i: int| 0 <= i < base implies #[trigger] after.effects[i]
                == engine.effects[i] by {
                assert(some.effects.take(base)[i] == some.effects[i]);
                assert(after.effects[i] == some.effects[i]);
            }
            assert(after.effects.take(base) =~= engine.effects);
            if slot == last {
                let added = some.effects.skip(base);
                let gone = engine.sessions[slot];
                let routed = gone.tunnel_ip is Some && gone.registration_id is Some;
                let tail = if routed {
                    2int
                } else {
                    1int
                };
                assert(after.effects[base] == added[0]);
                assert(after.effects[base + 1] == added[1]);
                assert(after.effects[base + tail + 2] == added[tail + 2]);
                assert(leave_is_taken(engine, after, gone, reason));
            } else if slots.contains(slot) && engine.sessions.contains_key(slot) {
                let i = choose|i: int| 0 <= i < slots.len() && slots[i] == slot;
                assert(rest[i] == slot);
                assert(some.sessions[slot] == engine.sessions[slot]);
                lemma_leave_earlier(engine, some, after, engine.sessions[slot], reason);
            }
        } else if slots.contains(slot) && engine.sessions.contains_key(slot) {
            let i = choose|i: int| 0 <= i < slots.len() && slots[i] == slot;
            assert(rest[i] == slot);
        }
    } else {
        assert(engine.effects.take(engine.effects.len() as int) =~= engine.effects);
    }
}

proof fn lemma_leave_earlier(
    first: EngineView,
    second: EngineView,
    after: EngineView,
    gone: SessionView,
    reason: Seq<char>,
)
    requires
        leave_is_taken(second, after, gone, reason),
        first.effects.len() <= second.effects.len(),
        last_report(gone, first) == last_report(gone, second),
    ensures
        leave_is_taken(first, after, gone, reason),
{
}

proof fn lemma_are_removed(
    engine: EngineView,
    chosen: spec_fn(SessionView) -> bool,
    reason: Seq<char>,
)
    ensures
        are_removed(
            engine,
            engine.removed_all(engine.slots_where(chosen), reason),
            chosen,
            reason,
        ),
{
    let set = Set::new(
        |slot: usize| engine.sessions.contains_key(slot) && chosen(engine.sessions[slot]),
    );
    slots::lemma_sorted_lists(set);
    let order = engine.slots_where(chosen);
    commands::removals_are_exact(engine, order, reason);
    let after = engine.removed_all(order, reason);
    assert forall|slot: usize|
        #![trigger engine.sessions.contains_key(slot)]
        #![trigger after.sessions.contains_key(slot)]
        {
            &&& after.sessions.contains_key(slot) <==> engine.sessions.contains_key(slot)
                && !chosen(engine.sessions[slot])
            &&& after.sessions.contains_key(slot) ==> after.sessions[slot]
                == engine.sessions[slot]
            &&& engine.sessions.contains_key(slot) && chosen(engine.sessions[slot])
                ==> leave_is_taken(engine, after, engine.sessions[slot], reason)
        } by {
        lemma_removed_in_turn(engine, order, reason, slot);
        assert(order.contains(slot) <==> set.contains(slot));
        assert(order.to_set().contains(slot) <==> order.contains(slot));
    }
    lemma_removed_in_turn(engine, order, reason, 0);
}

/// Once a key is in force, the sessions of its device that hold another have taken their
/// leave, all others are as they were, the device has been heard of now, and the devices that
/// the engine knows are published.
pub proof fn keys_in_force_are_published(
    engine: EngineView,
    device_id: Seq<char>,
    generation_id: u64,
    session_salt: Seq<char>,
    after: EngineView,
)
    requires
        engine.obeyed(
            CommandView::SetAuthoritativeEpoch { device_id, generation_id, session_salt },
            after,
        ),
    ensures
        are_removed(
            engine,
            (EngineView { effects: after.effects.drop_last(), ..after }),
            |session: SessionView|
                session.device_id == device_id && !(session.generation_id == generation_id
                    && session.session_salt == session_salt),
            "authoritative-epoch-replaced"@,
        ),
        after.effects.last() == EffectView::PublishEpochs,
        after.epochs == engine.epochs.insert(device_id, engine.state.monotonic_ms),
{
    let identity = IdentityView { device_id, generation_id, session_salt };
    let by_identity = |session: SessionView| epoch::retired_by_epoch(session.identity(), identity);
    let chosen = |session: SessionView|
        session.device_id == device_id && !(session.generation_id == generation_id
            && session.session_salt == session_salt);
    assert forall|session: SessionView| #[trigger] by_identity(session) == chosen(session) by {
        if session.device_id == device_id && session.generation_id == generation_id
            && session.session_salt == session_salt {
            assert(session.identity() =~= identity);
        }
    }
    assert(by_identity =~= chosen);
    let reason = "authoritative-epoch-replaced"@;
    lemma_are_removed(engine, chosen, reason);
    lemma_removed_in_turn(engine, engine.slots_where(chosen), reason, 0);
    let rest = engine.removed_all(engine.slots_where(chosen), reason);
    assert(after.effects.drop_last() =~= rest.effects);
    let shown = EngineView { effects: after.effects.drop_last(), ..after };
    assert(shown.sessions == rest.sessions && shown.effects == rest.effects);
    assert forall|slot: usize|
        #![trigger engine.sessions.contains_key(slot)]
        #![trigger shown.sessions.contains_key(slot)]
        {
            &&& shown.sessions.contains_key(slot) <==> engine.sessions.contains_key(slot)
                && !chosen(engine.sessions[slot])
            &&& shown.sessions.contains_key(slot) ==> shown.sessions[slot]
                == engine.sessions[slot]
            &&& engine.sessions.contains_key(slot) && chosen(engine.sessions[slot])
                ==> leave_is_taken(engine, shown, engine.sessions[slot], reason)
        } by {
        assert(rest.sessions.contains_key(slot) <==> shown.sessions.contains_key(slot));
        if engine.sessions.contains_key(slot) && chosen(engine.sessions[slot]) {
            assert(leave_is_taken(engine, rest, engine.sessions[slot], reason));
        }
    }
}

/// A client that disconnects its device is told so over the session that it asked on, and only
/// then are the sessions to be ended.
pub proof fn disconnects_are_confirmed_first(
    engine: EngineView,
    device_id: Seq<char>,
    requester: u64,
    after: EngineView,
)
    requires
        engine.obeyed(
            CommandView::DisconnectDevice { device_id, requester_session_id: requester },
            after,
        ),
    ensures
        after.effects.last() == (EffectView::EndDevice {
            device_id,
            requester_session_id: requester,
        }),
        engine.by_id.contains_key(requester) ==> {
            &&& after.effects.len() == engine.effects.len() + 2
            &&& after.effects[engine.effects.len() as int] matches EffectView::Send {
                slot,
                payload,
                record_dpi,
            }
            &&& slot == engine.by_id[requester]
            &&& payload == seq![
                0x4fu8,
                0x4bu8,
                0x3au8,
                0x64u8,
                0x69u8,
                0x73u8,
                0x63u8,
                0x6fu8,
                0x6eu8,
                0x6eu8,
                0x65u8,
                0x63u8,
                0x74u8,
                0x65u8,
                0x64u8,
            ]
        },
        !engine.by_id.contains_key(requester) ==> after.effects.len() == engine.effects.len() + 1,
        after.effects.take(engine.effects.len() as int) == engine.effects,
        else_unchanged(engine, after),
{
    assert(control::DISCONNECTED_REPLY@ =~= seq![
        0x4fu8,
        0x4bu8,
        0x3au8,
        0x64u8,
        0x69u8,
        0x73u8,
        0x63u8,
        0x6fu8,
        0x6eu8,
        0x6eu8,
        0x65u8,
        0x63u8,
        0x74u8,
        0x65u8,
        0x64u8,
    ]);
    assert(after.effects.take(engine.effects.len() as int) =~= engine.effects);
}

/// When the sessions of a device are ended, those and the one that asked take their leave.
pub proof fn devices_are_disconnected(
    engine: EngineView,
    device_id: Seq<char>,
    requester: u64,
)
    ensures
        are_removed(
            engine,
            engine.disconnected(device_id, requester),
            |session: SessionView| session.id == requester || session.device_id == device_id,
            "device-disconnect"@,
        ),
{
    lemma_are_removed(
        engine,
        |session: SessionView| session.id == requester || session.device_id == device_id,
        "device-disconnect"@,
    );
}

/// Once other credentials are in force, packets are opened with those, and the sessions whose
/// password is not among them have taken their leave.
pub proof fn credentials_are_replaced(
    engine: EngineView,
    credentials: Seq<CredentialView>,
    after: EngineView,
)
    requires
        engine.obeyed(CommandView::ReplaceCredentials(credentials), after),
    ensures
        after.credentials == credentials,
        are_removed(
            engine,
            after,
            |session: SessionView|
                forall|i: int|
                    0 <= i < credentials.len() ==> (#[trigger] credentials[i]).password
                        != session.password,
            "credential-removed"@,
        ),
{
    let given = |session: SessionView|
        !crate::effect::has_password(credentials, session.password);
    let chosen = |session: SessionView|
        forall|i: int|
            0 <= i < credentials.len() ==> (#[trigger] credentials[i]).password
                != session.password;
    assert(given =~= chosen);
    let reason = "credential-removed"@;
    lemma_are_removed(engine, chosen, reason);
    let rest = engine.removed_all(engine.slots_where(chosen), reason);
    assert(after.sessions == rest.sessions && after.effects == rest.effects);
    assert forall|slot: usize|
        #![trigger engine.sessions.contains_key(slot)]
        #![trigger after.sessions.contains_key(slot)]
        {
            &&& after.sessions.contains_key(slot) <==> engine.sessions.contains_key(slot)
                && !chosen(engine.sessions[slot])
            &&& after.sessions.contains_key(slot) ==> after.sessions[slot]
                == engine.sessions[slot]
            &&& engine.sessions.contains_key(slot) && chosen(engine.sessions[slot])
                ==> leave_is_taken(engine, after, engine.sessions[slot], reason)
        } by {
        assert(rest.sessions.contains_key(slot) <==> after.sessions.contains_key(slot));
        if engine.sessions.contains_key(slot) && chosen(engine.sessions[slot]) {
            assert(leave_is_taken(engine, rest, engine.sessions[slot], reason));
        }
    }
}

/// A session that is dropped takes its leave, and no other does.
pub proof fn sessions_are_dropped(
    engine: EngineView,
    session_id: u64,
    after: EngineView,
)
    requires
        engine.valid(),
        engine.obeyed(CommandView::DropSession { session_id }, after),
    ensures
        engine.by_id.contains_key(session_id) ==> {
            let slot = engine.by_id[session_id];
            &&& after.sessions == engine.sessions.remove(slot)
            &&& leave_is_taken(
                engine,
                after,
                engine.sessions[slot],
                "requested-session-drop"@,
            )
        },
        !engine.by_id.contains_key(session_id) ==> after == engine,
{
    if engine.by_id.contains_key(session_id) {
        let slot = engine.by_id[session_id];
        let reason = "requested-session-drop"@;
        let one = seq![slot];
        lemma_removed_in_turn(engine, one, reason, slot);
        assert(one.contains(slot)) by {
            assert(one[0] == slot);
        }
        assert(one.drop_last() =~= Seq::<usize>::empty());
        assert(engine.removed_all(one, reason) == engine.removed(slot, reason).removed_all(
            Seq::empty(),
            reason,
        ));
    }
}

/// When a password is dropped, the sessions that have it take their leave.
pub proof fn passwords_are_dropped(
    engine: EngineView,
    password: Seq<char>,
    after: EngineView,
)
    requires
        engine.obeyed(CommandView::DropPassword { password }, after),
    ensures
        are_removed(
            engine,
            after,
            |session: SessionView| session.password == password,
            "credential-removed"@,
        ),
{
    lemma_are_removed(
        engine,
        |session: SessionView| session.password == password,
        "credential-removed"@,
    );
}

/// A session from another shard gets a free slot here and is announced.
pub proof fn sessions_are_adopted(
    engine: EngineView,
    session: SessionView,
    payload: Seq<u8>,
    after: EngineView,
)
    requires
        engine.obeyed(
            CommandView::AdoptSession { session, initial_payload: payload },
            after,
        ),
    ensures
        exists|slot: usize|
            !engine.sessions.contains_key(slot) && after.sessions == #[trigger] engine.sessions.insert(
                slot,
                session,
            ) && after.by_id == engine.by_id.insert(session.id, slot),
        after.effects.take(engine.effects.len() as int) == engine.effects,
        is_announced(after.effects.skip(engine.effects.len() as int), session, payload),
{
    let slot = choose|slot: usize|
        {
            &&& !engine.sessions.contains_key(slot)
            &&& after == #[trigger] engine.adopted(slot, session, payload)
        };
    crate::laws::sessions::moved_sessions_are_announced(engine, slot, session, payload);
    assert(after.sessions == engine.sessions.insert(slot, session));
}

/// Once a route was given up that was the active one, the session that can carry on gets it and
/// the control side hears that it has a tunnel; the queue of the address is adjusted in any
/// case.
pub proof fn released_routes_are_handed_on(
    ip: [u8; 4],
    taker: RouteFallback,
)
    ensures
        commands::release_effects(ip, Some(taker), true) == seq![
            EffectView::AdoptRoute { ip, taker },
            EffectView::Public(
                UpdateView::HasTunnel { session_id: taker.session_id, has_tunnel: true },
            ),
            EffectView::SyncDownlink { ip },
        ],
        commands::release_effects(ip, Some(taker), false) == seq![EffectView::SyncDownlink { ip }],
        commands::release_effects(ip, None, true) == seq![EffectView::SyncDownlink { ip }],
        commands::release_effects(ip, None, false) == seq![EffectView::SyncDownlink { ip }],
{
    assert(commands::release_effects(ip, Some(taker), true) =~= seq![
        EffectView::AdoptRoute { ip, taker },
        EffectView::Public(
            UpdateView::HasTunnel { session_id: taker.session_id, has_tunnel: true },
        ),
        EffectView::SyncDownlink { ip },
    ]);
    assert(commands::release_effects(ip, Some(taker), false) =~= seq![
        EffectView::SyncDownlink { ip },
    ]);
    assert(commands::release_effects(ip, None, true) =~= seq![EffectView::SyncDownlink { ip }]);
    assert(commands::release_effects(ip, None, false) =~= seq![EffectView::SyncDownlink { ip }]);
}

/// When memory is compacted on request, that is reported, under the number of the request, and
/// no session is changed but for its slot.
pub proof fn compactions_are_reported(
    engine: EngineView,
    request: u64,
    after: EngineView,
    slot: usize,
)
    requires
        engine.obeyed(CommandView::CompactMemory { request }, after),
    ensures
        after.effects.len() > engine.effects.len(),
        after.effects.last() == (EffectView::Compacted { request }),
        !after.state.memory_compact_pending,
        after.sessions.contains_key(slot) ==> exists|from: usize|
            engine.sessions.contains_key(from) && #[trigger] engine.sessions[from]
                == after.sessions[slot],
        after.sessions.contains_key(slot) ==> slot < after.sessions.dom().len(),
        after.credentials == engine.credentials,
        after.epochs == engine.epochs,
{
    let compacted = choose|compacted: EngineView|
        {
            &&& #[trigger] engine.compacted(compacted, true)
            &&& after == compacted.emit(EffectView::Compacted { request })
        };
    let (capacity, moves) = choose|capacity: usize, moves: Seq<(usize, usize)>|
        capacity >= engine.sessions.dom().len() && #[trigger] engine.compacted_by(
            compacted,
            true,
            capacity,
            moves,
        );
    let ready = EngineView {
        state: EngineState {
            memory_compact_pending: false,
            last_memory_compact_ms: engine.state.monotonic_ms,
            stream_inventory_dirty: true,
            ..engine.state
        },
        ..engine
    };
    lemma_moves(ready, moves);
    if after.sessions.contains_key(slot) {
        slots::lemma_relocated_values(engine.sessions, moves, slot);
    }
}

proof fn lemma_moves(engine: EngineView, moves: Seq<(usize, usize)>)
    requires
        forall|i: int|
            0 <= i < moves.len() ==> slots::relocated(
                engine.sessions,
                #[trigger] moves.take(i),
            ).contains_key(moves[i].0),
    ensures
        engine.moved_all(moves).sessions == slots::relocated(engine.sessions, moves),
        engine.moved_all(moves).effects.len() >= engine.effects.len(),
        engine.moved_all(moves).state == engine.state,
        engine.moved_all(moves).credentials == engine.credentials,
        engine.moved_all(moves).epochs == engine.epochs,
    decreases moves.len(),
{
    if moves.len() > 0 {
        let rest = moves.drop_last();
        assert(rest =~= moves.take(moves.len() - 1));
        assert forall|i: int| 0 <= i < rest.len() implies slots::relocated(
            engine.sessions,
            #[trigger] rest.take(i),
        ).contains_key(rest[i].0) by {
            assert(rest.take(i) =~= moves.take(i));
        }
        lemma_moves(engine, rest);
        assert(engine.moved_all(moves).sessions =~= slots::relocated(engine.sessions, moves));
    }
}

/// Commands go to all shards, but for a session that is handed over and a request to compact
/// memory.
pub proof fn commands_are_for_all_shards(command: ProtocolCommand)
    ensures
        command.for_one_shard() <==> match command@ {
            CommandView::AdoptSession { .. } => true,
            CommandView::CompactMemory { .. } => true,
            _ => false,
        },
{
}

} // verus!
