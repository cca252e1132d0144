//! What the engine does as time goes by.
use crate::effect::{EffectView, EventView, UpdateView};
use crate::endpoint::EndpointKey;
use crate::engine::upkeep;
use crate::engine::upkeep::Tick;
use crate::engine::{EngineState, EngineView};
use crate::epoch::IdentityView;
use crate::laws::sessions::{last_report, sessions_take_their_leave};
use crate::session::SessionView;
use crate::slots;
use crate::stream;
use crate::stream::{ActionView, SourceView};
use vstd::prelude::*;

verus! {

/// At a tick the engine learns the time and what it is to watch, and may look at another 1024
/// packets of unknown origin. Nothing else changes.
pub proof fn ticks_tell_the_time(engine: EngineView, tick: Tick)
    requires
        tick.elapsed_ms < u64::MAX,
    ensures
        ({
            let after = engine.ticked(tick);
            &&& after.state == (EngineState {
                monotonic_ms: after.state.monotonic_ms,
                wall_now: tick.wall_now,
                debug_enabled: tick.debug_enabled,
                dpi_enabled: tick.dpi_enabled,
                syscalls_enabled: tick.syscalls_enabled,
                io_metrics_enabled: tick.io_metrics_enabled,
                setup_budget: 1024,
                ..engine.state
            })
            &&& after.state.monotonic_ms == tick.elapsed_ms + 1
            &&& after == (EngineView { state: after.state, ..engine })
        }),
{
}

/// Once a second, endpoints are forgotten whose session went to another shard two seconds ago
/// or more.
pub proof fn moved_endpoints_are_forgotten(engine: EngineView, key: EndpointKey)
    requires
        engine.state.last_migrating_endpoint_sweep_ms <= engine.state.monotonic_ms,
    ensures
        ({
            let now_ms = engine.state.monotonic_ms;
            let after = engine.without_settled_endpoints();
            let due = now_ms - engine.state.last_migrating_endpoint_sweep_ms >= 1_000;
            &&& !due ==> after == engine
            &&& due ==> after.state.last_migrating_endpoint_sweep_ms == now_ms
            &&& due ==> (after.migrating.contains_key(key) <==> engine.migrating.contains_key(key)
                && now_ms < engine.migrating[key] + 2_000)
            &&& after.migrating.contains_key(key) ==> after.migrating[key] == engine.migrating[key]
            &&& after.sessions == engine.sessions
            &&& after.effects == engine.effects
        }),
{
}

/// A session has been silent for too long: fifteen seconds, or ten hours where it has a route.
pub open spec fn too_silent(session: SessionView, now_ms: u64) -> bool {
    if session.registration_id is Some {
        now_ms >= session.last_inbound_ms + 36_000_000
    } else {
        now_ms >= session.last_inbound_ms + 15_000
    }
}

/// Once a second, every session reports what it carried, and those that have been silent for
/// too long are closed, for that reason. The others stay, and have reported.
pub proof fn sessions_are_looked_over(engine: EngineView, slot: usize)
    requires
        engine.state.last_session_maintenance_ms <= engine.state.monotonic_ms,
        engine.sessions.contains_key(slot),
    ensures
        ({
            let now_ms = engine.state.monotonic_ms;
            let after = engine.maintained();
            let session = engine.sessions[slot];
            let due = now_ms - engine.state.last_session_maintenance_ms >= 1_000;
            &&& !due ==> after == engine
            &&& due ==> {
                &&& after.state.last_session_maintenance_ms == now_ms
                &&& after.sessions.contains_key(slot) <==> !too_silent(session, now_ms)
                &&& after.sessions.contains_key(slot) ==> after.sessions[slot]
                    == session.reported()
                &&& exists|i: int|
                    engine.effects.len() <= i < after.effects.len() && #[trigger] after.effects[i]
                        == EffectView::Public(UpdateView::Counters(last_report(session, engine)))
                &&& too_silent(session, now_ms) ==> exists|i: int|
                    engine.effects.len() <= i < after.effects.len() && #[trigger] after.effects[i]
                        == EffectView::Control(
                        EventView::SessionClosed {
                            address: session.peer,
                            session_id: session.id,
                            reason: if session.registration_id is Some {
                                "authenticated-idle-10h"@
                            } else {
                                "setup-idle-15s"@
                            },
                        },
                    )
            }
        }),
{
    let now_ms = engine.state.monotonic_ms;
    if now_ms - engine.state.last_session_maintenance_ms >= 1_000 {
        upkeep::maintenance_ends_idle_sessions(engine, slot);
        let noted = EngineView {
            state: EngineState { last_session_maintenance_ms: now_ms, ..engine.state },
            ..engine
        };
        let reported = noted.all_reported();
        let idle = |session: SessionView| crate::engine::commands::is_idle(session, now_ms);
        let doomed = reported.slots_where(idle);
        assert(engine.maintained() == reported.removed_idle(doomed));
        slots::lemma_sorted_lists(engine.sessions.dom());
        let order = noted.all_slots();
        assert(order.contains(slot));
        let k = choose|k: int| 0 <= k < order.len() && order[k] == slot;
        let base = engine.effects.len() as int;
        let session = engine.sessions[slot];
        assert(session.report(engine.state.wall_now, engine.state.debug_enabled) == last_report(
            session,
            engine,
        ));
        assert(reported.effects[base + k] == EffectView::Public(
            UpdateView::Counters(last_report(session, engine)),
        ));
        lemma_removed_in_turn(reported, doomed, slot);
        let after = engine.maintained();
        assert(after.effects.take(reported.effects.len() as int)[base + k]
            == after.effects[base + k]);
        if too_silent(session, now_ms) {
            let set = Set::new(
                |s: usize| reported.sessions.contains_key(s) && idle(reported.sessions[s]),
            );
            slots::lemma_sorted_lists(set);
            assert(doomed.contains(slot)) by {
                assert(reported.sessions.contains_key(slot));
                assert(idle(reported.sessions[slot]));
                assert(set.contains(slot));
            }
            let i = choose|i: int|
                reported.effects.len() <= i < after.effects.len() && #[trigger] after.effects[i]
                    == EffectView::Control(
                    EventView::SessionClosed {
                        address: session.peer,
                        session_id: session.id,
                        reason: if session.registration_id is Some {
                            "authenticated-idle-10h"@
                        } else {
                            "setup-idle-15s"@
                        },
                    },
                );
            assert(base <= i);
        }
    }
}

proof fn lemma_removed_in_turn(engine: EngineView, slots: Seq<usize>, slot: usize)
    ensures
        ({
            let after = engine.removed_idle(slots);
            let session = engine.sessions[slot];
            &&& after.effects.len() >= engine.effects.len()
            &&& after.effects.take(engine.effects.len() as int) == engine.effects
            &&& after.state.last_session_maintenance_ms
                == engine.state.last_session_maintenance_ms
            &&& slots.contains(slot) && engine.sessions.contains_key(slot) ==> exists|i: int|
                engine.effects.len() <= i < after.effects.len() && #[trigger] after.effects[i]
                    == EffectView::Control(
                    EventView::SessionClosed {
                        address: session.peer,
                        session_id: session.id,
                        reason: if session.registration_id is Some {
                            "authenticated-idle-10h"@
                        } else {
                            "setup-idle-15s"@
                        },
                    },
                )
        }),
    decreases slots.len(),
{
    if slots.len() > 0 {
        let last = slots.last();
        let session = engine.sessions[last];
        let reason = crate::session::idle_reason(
            engine.sessions.contains_key(last) && session.registration_id is Some,
        );
        let some = engine.removed(last, reason);
        let rest = slots.drop_last();
        let after = some.removed_idle(rest);
        lemma_removed_in_turn(some, rest, slot);
        let base = engine.effects.len() as int;
        let count = some.effects.len() as int;
        if engine.sessions.contains_key(last) {
            sessions_take_their_leave(engine, last, reason);
            assert(some.effects.take(base) == engine.effects);
            assert(some.effects.skip(base).len() >= 4);
            assert(count >= base + 4) by {
                if count < base {
                    assert(some.effects.take(base) == engine.effects);
                }
            }
            assert forall|i: int| 0 <= i < count implies #[trigger] after.effects[i]
                == some.effects[i] by {
                assert(after.effects.take(count)[i] == after.effects[i]);
            }
            assert forall|i: int| 0 <= i < base implies #[trigger] after.effects[i]
                == engine.effects[i] by {
                assert(some.effects.take(base)[i] == some.effects[i]);
                assert(after.effects[i] == some.effects[i]);
            }
            assert(after.effects.take(base) =~= engine.effects);
            if slot == last {
                let routed = session.tunnel_ip is Some && session.registration_id is Some;
                let tail = if routed {
                    2int
                } else {
                    1int
                };
                assert(after.effects[base + tail + 2] == some.effects.skip(base)[tail + 2]);
            }
        }
        if slot != last && slots.contains(slot) && engine.sessions.contains_key(slot) {
            let i = choose|i: int| 0 <= i < slots.len() && slots[i] == slot;
            assert(rest[i] == slot);
            assert(some.sessions[slot] == engine.sessions[slot]);
        }
    } else {
        assert(engine.effects.take(engine.effects.len() as int) =~= engine.effects);
    }
}

/// Every five minutes, devices are forgotten that no session is on and that were not heard of
/// for an hour; where any was, the devices that are known are published.
pub proof fn devices_are_forgotten(engine: EngineView, device_id: Seq<char>)
    requires
        engine.state.last_epoch_sweep_ms <= engine.state.monotonic_ms,
    ensures
        ({
            let now_ms = engine.state.monotonic_ms;
            let after = engine.without_idle_epochs();
            let due = now_ms - engine.state.last_epoch_sweep_ms >= 300_000;
            let in_use = exists|slot: usize| #[trigger]
                engine.sessions.contains_key(slot) && engine.sessions[slot].device_id == device_id;
            &&& !due ==> after == engine
            &&& due ==> (after.epochs.contains_key(device_id) <==> engine.epochs.contains_key(
                device_id,
            ) && ((in_use && device_id.len() > 0) || now_ms < engine.epochs[device_id]
                + 3_600_000))
            &&& after.epochs.contains_key(device_id) ==> after.epochs[device_id]
                == engine.epochs[device_id]
            &&& after.epochs == engine.epochs ==> after.effects == engine.effects
            &&& after.epochs != engine.epochs ==> after.effects == engine.effects.push(
                EffectView::PublishEpochs,
            )
            &&& due ==> after.state.last_epoch_sweep_ms == now_ms
            &&& after.sessions == engine.sessions
        }),
{
}

/// Stock is taken of the streams where sessions have changed, and every minute besides; else
/// what is known stays.
pub proof fn stock_is_taken(engine: EngineView)
    requires
        engine.state.last_stream_inventory_resync_ms <= engine.state.monotonic_ms,
    ensures
        ({
            let now_ms = engine.state.monotonic_ms;
            let after = engine.resynced();
            let due = engine.state.stream_inventory_dirty || now_ms
                - engine.state.last_stream_inventory_resync_ms >= 60_000;
            &&& due ==> {
                &&& after.inventory == stream::inventories(engine.stream_sources())
                &&& !after.state.stream_inventory_dirty
                &&& after.state.last_stream_inventory_resync_ms == now_ms
            }
            &&& !due ==> after == engine
            &&& after.sessions == engine.sessions
            &&& after.effects == engine.effects
            &&& after.repairs == engine.repairs
        }),
{
}

/// The stock counts every session, each once, as what it is.
pub proof fn every_session_is_counted(engine: EngineView, slot: usize)
    ensures
        engine.sessions.contains_key(slot) <==> exists|i: int|
            0 <= i < engine.stream_sources().len() && (
            #[trigger] engine.stream_sources()[i]).slot == slot,
        forall|i: int|
            0 <= i < engine.stream_sources().len() ==> {
                let source = #[trigger] engine.stream_sources()[i];
                let session = engine.sessions[source.slot];
                &&& engine.sessions.contains_key(source.slot)
                &&& source == (SourceView {
                    slot: source.slot,
                    session_id: session.id,
                    identity: IdentityView {
                        device_id: session.device_id,
                        generation_id: session.generation_id,
                        session_salt: session.session_salt,
                    },
                    worker_id: session.worker_id,
                    desired_count: session.desired_stream_count,
                    registered: session.registration_id is Some,
                })
            },
        forall|i: int, j: int|
            0 <= i < j < engine.stream_sources().len() ==> (
            #[trigger] engine.stream_sources()[i]).slot < (
            #[trigger] engine.stream_sources()[j]).slot,
{
    slots::lemma_sorted_lists(engine.sessions.dom());
    let order = engine.all_slots();
    if engine.sessions.contains_key(slot) {
        assert(order.contains(slot));
        let k = choose|k: int| 0 <= k < order.len() && order[k] == slot;
        assert(engine.stream_sources()[k].slot == slot);
    }
    assert forall|i: int| 0 <= i < engine.stream_sources().len() implies {
        let source = #[trigger] engine.stream_sources()[i];
        engine.sessions.contains_key(source.slot) && source.slot == order[i]
    } by {
        assert(order.contains(order[i]));
    }
}

/// Every three seconds the streams are looked over: what is due for any device is to be sent,
/// and nothing else; the rounds of all devices have moved on.
pub proof fn streams_are_looked_over(
    engine: EngineView,
    after: EngineView,
    id: IdentityView,
    action: ActionView,
)
    requires
        engine.state.last_stream_reconcile_ms <= engine.state.monotonic_ms,
        engine.reconciled(after),
    ensures
        ({
            let now_ms = engine.state.monotonic_ms;
            let due = now_ms - engine.state.last_stream_reconcile_ms >= 3_000;
            let ready = EngineView {
                state: EngineState { last_stream_reconcile_ms: now_ms, ..engine.state },
                ..engine
            }.resynced();
            let round = if engine.repairs.contains_key(id) {
                engine.repairs[id]
            } else {
                stream::RoundView::fresh()
            };
            &&& !due ==> after == engine
            &&& due ==> {
                &&& after.inventory == ready.inventory
                &&& after.sessions == engine.sessions
                &&& after.state.last_stream_reconcile_ms == now_ms
                &&& ready.inventory.contains_key(id) && stream::round_action(
                    id,
                    round,
                    ready.inventory[id],
                    now_ms,
                ) == Some(action) ==> exists|i: int|
                    engine.effects.len() <= i < after.effects.len() && #[trigger] after.effects[i]
                        == EffectView::StreamControl(action)
                &&& forall|i: int|
                    engine.effects.len() <= i < after.effects.len() ==> (
                    #[trigger] after.effects[i]) is StreamControl
                &&& after.effects.len() <= engine.effects.len() + ready.inventory.dom().len()
                &&& ready.inventory.contains_key(id) ==> after.repairs.contains_key(id)
                    && after.repairs[id] == stream::round_step(
                    round,
                    ready.inventory[id],
                    now_ms,
                )
                &&& !ready.inventory.contains_key(id) ==> (after.repairs.contains_key(id)
                    <==> engine.repairs.contains_key(id) && stream::round_kept(
                    ready.inventory,
                    id,
                    engine.repairs[id],
                    now_ms,
                ))
                &&& !ready.inventory.contains_key(id) && after.repairs.contains_key(id)
                    ==> after.repairs[id] == engine.repairs[id]
            }
        }),
{
    let now_ms = engine.state.monotonic_ms;
    if now_ms - engine.state.last_stream_reconcile_ms >= 3_000 {
        let ready = EngineView {
            state: EngineState { last_stream_reconcile_ms: now_ms, ..engine.state },
            ..engine
        }.resynced();
        let order = choose|order: Seq<IdentityView>|
            {
                &&& #[trigger] upkeep::lists(order, ready.inventory.dom())
                &&& after == ready.rounds_advanced(order)
            };
        let planned = stream::planned_actions(order, ready.inventory, ready.repairs, now_ms);
        crate::laws::streams::due_messages_are_planned(
            order,
            ready.inventory,
            ready.repairs,
            now_ms,
            action,
        );
        let base = engine.effects.len() as int;
        assert forall|i: int| base <= i < after.effects.len() implies #[trigger] after.effects[i]
            == EffectView::StreamControl(planned[i - base]) by {}
        if ready.inventory.contains_key(id) && stream::round_action(
            id,
            stream::round_of(engine.repairs, id),
            ready.inventory[id],
            now_ms,
        ) == Some(action) {
            assert(order.to_set().contains(id));
            let k = choose|k: int| 0 <= k < order.len() && order[k] == id;
            assert(stream::round_action(
                order[k],
                stream::round_of(ready.repairs, order[k]),
                ready.inventory[order[k]],
                now_ms,
            ) == Some(action));
            assert(planned.contains(action));
            let j = choose|j: int| 0 <= j < planned.len() && planned[j] == action;
            assert(after.effects[base + j] == EffectView::StreamControl(action));
        }
        order.unique_seq_to_set();
    }
}

/// Memory is compacted when that was asked for and it is five seconds since the last time, and
/// where there is room for more than 128 sessions and for twice as many as there are.
pub proof fn compaction_waits(engine: EngineView, capacity: usize)
    requires
        engine.state.last_memory_compact_ms <= engine.state.monotonic_ms,
    ensures
        engine.compaction_due() <==> engine.state.memory_compact_pending
            && engine.state.monotonic_ms - engine.state.last_memory_compact_ms >= 5_000,
        engine.compaction_pays(capacity) <==> capacity > 128 && capacity >= 2
            * engine.sessions.dom().len(),
{
}

/// Compaction, whether it was asked for or not, loses no session: each is found by its number
/// and is what it was. Where sessions were moved they fill the first slots, and where that was
/// not worth while nothing was done.
pub proof fn compaction_loses_no_session(
    engine: EngineView,
    after: EngineView,
    force: bool,
    session_id: u64,
)
    requires
        engine.valid(),
        engine.by_id.contains_key(session_id),
        forall|a: usize, b: usize|
            #![trigger engine.sessions[a], engine.sessions[b]]
            engine.sessions.contains_key(a) && engine.sessions.contains_key(b)
                && engine.sessions[a].id == engine.sessions[b].id ==> a == b,
        engine.compacted(after, force),
    ensures
        after.by_id.contains_key(session_id),
        after.sessions[after.by_id[session_id]] == engine.sessions[engine.by_id[session_id]],
        !after.state.memory_compact_pending,
        ({
            let done = after.state.last_memory_compact_ms == engine.state.monotonic_ms
                && after.state.stream_inventory_dirty && forall|slot: usize| #[trigger]
                after.sessions.contains_key(slot) ==> slot < after.sessions.dom().len();
            let skipped = after == EngineView {
                state: EngineState { memory_compact_pending: false, ..engine.state },
                ..engine
            };
            &&& force ==> done
            &&& done || skipped
        }),
{
    let (capacity, moves) = choose|capacity: usize, moves: Seq<(usize, usize)>|
        capacity >= engine.sessions.dom().len() && #[trigger] engine.compacted_by(
            after,
            force,
            capacity,
            moves,
        );
    if force || engine.compaction_pays(capacity) {
        let ready = EngineView {
            state: EngineState {
                memory_compact_pending: false,
                last_memory_compact_ms: engine.state.monotonic_ms,
                stream_inventory_dirty: true,
                ..engine.state
            },
            ..engine
        };
        assert(ready.valid());
        upkeep::moves_lose_no_session(ready, moves, session_id);
        upkeep::moves_keep_indexes_valid(ready, moves);
        lemma_state_kept(ready, moves);
    }
}

proof fn lemma_state_kept(engine: EngineView, moves: Seq<(usize, usize)>)
    ensures
        engine.moved_all(moves).state == engine.state,
    decreases moves.len(),
{
    if moves.len() > 0 {
        lemma_state_kept(engine, moves.drop_last());
    }
}

/// How long ago something was is told by the clock; a moment that is still to come was no time
/// ago.
pub proof fn time_is_told_by_the_clock(now_ms: u64, then: u64)
    ensures
        then <= now_ms ==> then + stream::since(now_ms, then) == now_ms,
        then > now_ms ==> stream::since(now_ms, then) == 0,
{
}

/// A session that is moved to another slot is the same, is found there, and is no longer where
/// it was; the route that it has leads to the new slot.
pub proof fn moved_sessions_are_found(engine: EngineView, from: usize, to: usize)
    requires
        engine.sessions.contains_key(from),
        !engine.sessions.contains_key(to),
    ensures
        ({
            let session = engine.sessions[from];
            let after = engine.moved(from, to);
            let routed = session.tunnel_ip is Some && session.registration_id is Some;
            &&& after.sessions == engine.sessions.remove(from).insert(to, session)
            &&& after.by_id == engine.by_id.insert(session.id, to)
            &&& after.by_peer == engine.by_peer.insert(
                EndpointKey { peer: session.peer, local_ip: session.local_ip },
                to,
            )
            &&& routed ==> after.effects == engine.effects.push(
                EffectView::UpdateRouteSlot {
                    ip: session.tunnel_ip->0,
                    session_id: session.id,
                    registration_id: session.registration_id->0,
                    slot: to,
                },
            )
            &&& !routed ==> after.effects == engine.effects
            &&& after.state == engine.state
        }),
{
}

} // verus!
