//! What the engine does from time to time.
use super::{
    EngineState, EngineView, ProtocolEngine, EPOCH_IDLE_TTL_MS, EPOCH_SWEEP_INTERVAL_MS,
    HOT_TABLE_RESERVE, MEMORY_COMPACT_INTERVAL_MS, MIGRATING_ENDPOINT_SWEEP_INTERVAL_MS,
    MIGRATING_ENDPOINT_TTL_MS, SESSION_MAINTENANCE_INTERVAL_MS, SETUP_BUDGET_PER_TICK,
    STREAM_INVENTORY_RESYNC_MS, STREAM_RECONCILE_INTERVAL_MS,
};
use super::commands;
use super::commands::Selector;
use crate::effect::{
    ControlEvent, Effect, EffectView, EventView, IoCounters, PublicUpdate, UpdateView,
};
use crate::endpoint::EndpointKey;
use crate::epoch::{IdentityView, SessionEpochIdentity};
use crate::perf::Gauges;
use crate::session;
use crate::session::{hot_session_idle_reason, HotSession, SessionView};
use crate::slots;
use crate::slots::{
    slab_capacity, slab_compact, slab_get, slab_get_mut, slab_len, slab_reserve, slab_shrink,
    slab_slots,
};
use crate::stream;
use crate::stream::{
    plan_streams, rebuild_inventory, retire_rounds, ActionView, SourceView, StreamControlAction,
    StreamSource,
};
use crate::table::Table;
use crate::text::same_text;
use vstd::prelude::*;

verus! {

/// What the engine is told at each tick.
#[derive(Clone, Copy, Debug)]
pub struct Tick {
    /// How long the engine has been running.
    pub elapsed_ms: u64,
    /// The wall clock, in seconds.
    pub wall_now: u64,
    pub debug_enabled: bool,
    pub dpi_enabled: bool,
    pub syscalls_enabled: bool,
    pub io_metrics_enabled: bool,
}

/// A session, as far as the inventory of streams takes note of it.
pub open spec fn source_of(slot: usize, session: SessionView) -> SourceView {
    SourceView {
        slot,
        session_id: session.id,
        identity: session.identity(),
        worker_id: session.worker_id,
        desired_count: session.desired_stream_count,
        registered: session.registration_id is Some,
    }
}

/// `order` lists the elements of `set`, each once.
pub open spec fn lists(order: Seq<IdentityView>, set: Set<IdentityView>) -> bool {
    &&& order.no_duplicates()
    &&& order.to_set() == set
}

/// Moves that pack sessions into the first slots: each is from an occupied slot to a free
/// one, and in the end no slot before an occupied one is free.
pub open spec fn packs(sessions: Map<usize, SessionView>, moves: Seq<(usize, usize)>) -> bool {
    let packed = slots::relocated(sessions, moves);
    &&& forall|i: int|
        0 <= i < moves.len() ==> {
            let before = slots::relocated(sessions, #[trigger] moves.take(i));
            before.contains_key(moves[i].0) && !before.contains_key(moves[i].1)
        }
    &&& forall|slot: usize| #[trigger] packed.contains_key(slot) ==> slot < packed.dom().len()
}

impl EngineView {
    /// The engine once the clocks and flags were read.
    pub open spec fn ticked(self, tick: Tick) -> EngineView {
        EngineView {
            state: EngineState {
                monotonic_ms: (tick.elapsed_ms + 1) as u64,
                wall_now: tick.wall_now,
                debug_enabled: tick.debug_enabled,
                dpi_enabled: tick.dpi_enabled,
                syscalls_enabled: tick.syscalls_enabled,
                io_metrics_enabled: tick.io_metrics_enabled,
                setup_budget: SETUP_BUDGET_PER_TICK,
                ..self.state
            },
            ..self
        }
    }

    /// The engine once endpoints whose session moved long ago were forgotten, if it is time
    /// for that.
    pub open spec fn without_settled_endpoints(self) -> EngineView {
        let now_ms = self.state.monotonic_ms;
        if stream::since(now_ms, self.state.last_migrating_endpoint_sweep_ms)
            < MIGRATING_ENDPOINT_SWEEP_INTERVAL_MS {
            self
        } else {
            EngineView {
                migrating: self.migrating.restrict(
                    Set::new(
                        |key: EndpointKey|
                            stream::since(now_ms, self.migrating[key]) < MIGRATING_ENDPOINT_TTL_MS,
                    ),
                ),
                state: EngineState { last_migrating_endpoint_sweep_ms: now_ms, ..self.state },
                ..self
            }
        }
    }

    /// The slots of all sessions, in ascending order.
    pub open spec fn all_slots(self) -> Seq<usize> {
        slots::sorted(self.sessions.dom())
    }

    /// The engine once all sessions have reported what they carried.
    pub open spec fn all_reported(self) -> EngineView {
        let order = self.all_slots();
        EngineView {
            sessions: Map::new(
                |slot: usize| self.sessions.contains_key(slot),
                |slot: usize| self.sessions[slot].reported(),
            ),
            ..self
        }.emit_all(
            Seq::new(
                order.len(),
                |i: int|
                    EffectView::Public(
                        UpdateView::Counters(
                            self.sessions[order[i]].report(
                                self.state.wall_now,
                                self.state.debug_enabled,
                            ),
                        ),
                    ),
            ),
        )
    }

    /// The engine once the sessions were looked over, if it is time for that: all report,
    /// and the idle ones are removed.
    pub open spec fn maintained(self) -> EngineView {
        let now_ms = self.state.monotonic_ms;
        if stream::since(now_ms, self.state.last_session_maintenance_ms)
            < SESSION_MAINTENANCE_INTERVAL_MS {
            self
        } else {
            let reported = EngineView {
                state: EngineState { last_session_maintenance_ms: now_ms, ..self.state },
                ..self
            }.all_reported();
            reported.removed_idle(
                reported.slots_where(|session: SessionView| commands::is_idle(session, now_ms)),
            )
        }
    }

    /// The sessions, as far as the inventory of streams takes note of them.
    pub open spec fn stream_sources(self) -> Seq<SourceView> {
        let order = self.all_slots();
        Seq::new(order.len(), |i: int| source_of(order[i], self.sessions[order[i]]))
    }

    /// Stock is to be taken of the streams.
    pub open spec fn resync_due(self) -> bool {
        self.state.stream_inventory_dirty || stream::since(
            self.state.monotonic_ms,
            self.state.last_stream_inventory_resync_ms,
        ) >= STREAM_INVENTORY_RESYNC_MS
    }

    /// The engine once stock was taken of the streams, if that is due.
    pub open spec fn resynced(self) -> EngineView {
        let now_ms = self.state.monotonic_ms;
        if self.resync_due() {
            EngineView {
                inventory: stream::inventories(self.stream_sources()),
                state: EngineState {
                    stream_inventory_dirty: false,
                    last_stream_inventory_resync_ms: now_ms,
                    ..self.state
                },
                ..self
            }
        } else {
            self
        }
    }

    /// The engine once the repair rounds were moved on, those of the inventory in the given
    /// order.
    pub open spec fn rounds_advanced(self, order: Seq<IdentityView>) -> EngineView {
        let now_ms = self.state.monotonic_ms;
        let stepped = stream::stepped_rounds(self.inventory, self.repairs, now_ms);
        let actions = stream::planned_actions(order, self.inventory, self.repairs, now_ms);
        EngineView {
            repairs: stepped.restrict(
                Set::new(
                    |id: IdentityView|
                        stream::round_kept(self.inventory, id, stepped[id], now_ms),
                ),
            ),
            ..self
        }.emit_all(actions.map_values(|action: ActionView| EffectView::StreamControl(action)))
    }

    /// `after` is the engine once the streams were looked over, if it is time for that. The
    /// order in which the devices are looked at is open.
    pub open spec fn reconciled(self, after: EngineView) -> bool {
        let now_ms = self.state.monotonic_ms;
        if stream::since(now_ms, self.state.last_stream_reconcile_ms)
            < STREAM_RECONCILE_INTERVAL_MS {
            after == self
        } else {
            let resynced = EngineView {
                state: EngineState { last_stream_reconcile_ms: now_ms, ..self.state },
                ..self
            }.resynced();
            exists|order: Seq<IdentityView>|
                {
                    &&& #[trigger] lists(order, resynced.inventory.dom())
                    &&& after == resynced.rounds_advanced(order)
                }
        }
    }

    /// Some session is on a device.
    pub open spec fn device_in_use(self, device_id: Seq<char>) -> bool {
        exists|slot: usize| #[trigger]
            self.sessions.contains_key(slot) && self.sessions[slot].device_id == device_id
    }

    /// The engine once epochs that are not in use were forgotten, if it is time for that.
    pub open spec fn without_idle_epochs(self) -> EngineView {
        let now_ms = self.state.monotonic_ms;
        let kept = Set::new(
            |device_id: Seq<char>|
                (device_id.len() > 0 && self.device_in_use(device_id)) || stream::since(
                    now_ms,
                    self.epochs[device_id],
                ) < EPOCH_IDLE_TTL_MS,
        );
        let swept = EngineView {
            epochs: self.epochs.restrict(kept),
            state: EngineState { last_epoch_sweep_ms: now_ms, ..self.state },
            ..self
        };
        if stream::since(now_ms, self.state.last_epoch_sweep_ms) < EPOCH_SWEEP_INTERVAL_MS {
            self
        } else if swept.epochs == self.epochs {
            swept
        } else {
            swept.emit(EffectView::PublishEpochs)
        }
    }

    /// The engine once a session was moved from slot to slot.
    pub open spec fn moved(self, from: usize, to: usize) -> EngineView {
        let session = self.sessions[from];
        let listed = EngineView { sessions: self.sessions.remove(from), ..self }.with_listed(
            to,
            session,
        );
        if session.routed() {
            listed.emit(
                EffectView::UpdateRouteSlot {
                    ip: session.tunnel_ip->0,
                    session_id: session.id,
                    registration_id: session.registration_id->0,
                    slot: to,
                },
            )
        } else {
            listed
        }
    }

    /// The engine once sessions were moved, one after the other.
    pub open spec fn moved_all(self, moves: Seq<(usize, usize)>) -> EngineView
        decreases moves.len(),
    {
        if moves.len() == 0 {
            self
        } else {
            self.moved_all(moves.drop_last()).moved(moves.last().0, moves.last().1)
        }
    }

    /// Memory is worth compacting: room was made for many more sessions than there are.
    pub open spec fn compaction_pays(self, capacity: usize) -> bool {
        capacity > HOT_TABLE_RESERVE && self.sessions.dom().len() * 2 <= capacity
    }

    /// `after` is the engine once memory was compacted, given how many sessions it has room
    /// for and how they were moved.
    pub open spec fn compacted_by(
        self,
        after: EngineView,
        force: bool,
        capacity: usize,
        moves: Seq<(usize, usize)>,
    ) -> bool {
        if force || self.compaction_pays(capacity) {
            &&& packs(self.sessions, moves)
            &&& after == (EngineView {
                state: EngineState {
                    memory_compact_pending: false,
                    last_memory_compact_ms: self.state.monotonic_ms,
                    stream_inventory_dirty: true,
                    ..self.state
                },
                ..self
            }).moved_all(moves)
        } else {
            after == (EngineView {
                state: EngineState { memory_compact_pending: false, ..self.state },
                ..self
            })
        }
    }

    /// `after` is the engine once memory was compacted. How many sessions it has room for, at
    /// least those that there are, the allocator decides.
    pub open spec fn compacted(self, after: EngineView, force: bool) -> bool {
        exists|capacity: usize, moves: Seq<(usize, usize)>|
            capacity >= self.sessions.dom().len() && #[trigger] self.compacted_by(
                after,
                force,
                capacity,
                moves,
            )
    }

    /// Memory is to be compacted now, if that is worth while.
    pub open spec fn compaction_due(self) -> bool {
        self.state.memory_compact_pending && stream::since(
            self.state.monotonic_ms,
            self.state.last_memory_compact_ms,
        ) >= MEMORY_COMPACT_INTERVAL_MS
    }
}

/// The indexes of an engine stay valid when sessions are moved.
pub proof fn moves_keep_indexes_valid(engine: EngineView, moves: Seq<(usize, usize)>)
    requires
        engine.valid(),
        forall|i: int|
            0 <= i < moves.len() ==> {
                let before = slots::relocated(engine.sessions, #[trigger] moves.take(i));
                before.contains_key(moves[i].0) && !before.contains_key(moves[i].1)
            },
    ensures
        engine.moved_all(moves).valid(),
        engine.moved_all(moves).sessions == slots::relocated(engine.sessions, moves),
    decreases moves.len(),
{
    if moves.len() > 0 {
        let rest = moves.drop_last();
        let last = moves.len() - 1;
        assert(rest =~= moves.take(last));
        assert forall|j: int| 0 <= j < rest.len() implies {
            let before = slots::relocated(engine.sessions, #[trigger] rest.take(j));
            before.contains_key(rest[j].0) && !before.contains_key(rest[j].1)
        } by {
            assert(rest.take(j) =~= moves.take(j));
        }
        moves_keep_indexes_valid(engine, rest);
        let before = engine.moved_all(rest);
        let after = before.moved(moves[last].0, moves[last].1);
        assert(after.sessions =~= slots::relocated(engine.sessions, moves));
    }
}

/// A session is still found by its identifier, and is the same, once sessions were moved.
pub proof fn moves_lose_no_session(
    engine: EngineView,
    moves: Seq<(usize, usize)>,
    session_id: u64,
)
    requires
        engine.valid(),
        engine.by_id.contains_key(session_id),
        forall|a: usize, b: usize|
            #![trigger engine.sessions[a], engine.sessions[b]]
            engine.sessions.contains_key(a) && engine.sessions.contains_key(b)
                && engine.sessions[a].id == engine.sessions[b].id ==> a == b,
        forall|i: int|
            0 <= i < moves.len() ==> {
                let before = slots::relocated(engine.sessions, #[trigger] moves.take(i));
                before.contains_key(moves[i].0) && !before.contains_key(moves[i].1)
            },
    ensures
        engine.moved_all(moves).by_id.contains_key(session_id),
        engine.moved_all(moves).sessions[engine.moved_all(moves).by_id[session_id]]
            == engine.sessions[engine.by_id[session_id]],
    decreases moves.len(),
{
    if moves.len() > 0 {
        let rest = moves.drop_last();
        let last = moves.len() - 1;
        let (from, to) = moves[last];
        assert(rest =~= moves.take(last));
        assert forall|j: int| 0 <= j < rest.len() implies {
            let before = slots::relocated(engine.sessions, #[trigger] rest.take(j));
            before.contains_key(rest[j].0) && !before.contains_key(rest[j].1)
        } by {
            assert(rest.take(j) =~= moves.take(j));
        }
        moves_lose_no_session(engine, rest, session_id);
        moves_keep_indexes_valid(engine, rest);
        let before = engine.moved_all(rest);
        if before.sessions[from].id == session_id {
            slots::lemma_relocated_values(engine.sessions, rest, from);
            let source = choose|source: usize|
                engine.sessions.contains_key(source) && #[trigger] engine.sessions[source]
                    == slots::relocated(engine.sessions, rest)[from];
            assert(engine.sessions[source].id == engine.sessions[engine.by_id[session_id]].id);
        }
    }
}

/// Removing idle sessions removes those in the slots given and leaves the others.
proof fn lemma_removed_idle(engine: EngineView, slots: Seq<usize>)
    ensures
        engine.removed_idle(slots).sessions == engine.sessions.remove_keys(slots.to_set()),
    decreases slots.len(),
{
    if slots.len() > 0 {
        let slot = slots.last();
        let reason = session::idle_reason(
            engine.sessions.contains_key(slot) && engine.sessions[slot].registration_id is Some,
        );
        let rest = engine.removed(slot, reason);
        assert(rest.sessions =~= engine.sessions.remove(slot));
        lemma_removed_idle(rest, slots.drop_last());
        assert forall|s: usize| slots.contains(s) <==> slots.drop_last().contains(s) || s
            == slot by {
            if slots.contains(s) && s != slot {
                let i = choose|i: int| 0 <= i < slots.len() && slots[i] == s;
                assert(slots.drop_last()[i] == s);
            }
            if slots.drop_last().contains(s) {
                let i = choose|i: int| 0 <= i < slots.drop_last().len() && slots.drop_last()[i] == s;
                assert(slots[i] == s);
            }
            assert(slots[slots.len() - 1] == slot);
        }
        assert(engine.removed_idle(slots).sessions =~= engine.sessions.remove_keys(
            slots.to_set(),
        ));
    } else {
        assert(engine.sessions.remove_keys(slots.to_set()) =~= engine.sessions);
    }
}

/// Maintenance, when it is time for it, ends the sessions that have been silent for too long
/// and no others.
pub proof fn maintenance_ends_idle_sessions(engine: EngineView, slot: usize)
    requires
        stream::since(engine.state.monotonic_ms, engine.state.last_session_maintenance_ms)
            >= SESSION_MAINTENANCE_INTERVAL_MS,
    ensures
        engine.maintained().sessions.contains_key(slot) <==> engine.sessions.contains_key(slot)
            && !commands::is_idle(engine.sessions[slot], engine.state.monotonic_ms),
        engine.maintained().sessions.contains_key(slot) ==> engine.maintained().sessions[slot]
            == engine.sessions[slot].reported(),
{
    let now_ms = engine.state.monotonic_ms;
    let reported = EngineView {
        state: EngineState { last_session_maintenance_ms: now_ms, ..engine.state },
        ..engine
    }.all_reported();
    let chosen = |session: SessionView| commands::is_idle(session, now_ms);
    let doomed = Set::new(
        |slot: usize| reported.sessions.contains_key(slot) && chosen(reported.sessions[slot]),
    );
    slots::lemma_sorted_lists(doomed);
    lemma_removed_idle(reported, reported.slots_where(chosen));
    assert(engine.maintained() == reported.removed_idle(reported.slots_where(chosen)));
    assert(reported.slots_where(chosen).to_set() =~= doomed);
}

/// A sweep, when it is time for it, forgets the epochs of devices that have no session and
/// have not been heard of for an hour, and no others.
pub proof fn sweeps_forget_idle_epochs(engine: EngineView, device_id: Seq<char>)
    requires
        stream::since(engine.state.monotonic_ms, engine.state.last_epoch_sweep_ms)
            >= EPOCH_SWEEP_INTERVAL_MS,
        device_id.len() > 0,
    ensures
        engine.without_idle_epochs().epochs.contains_key(device_id) <==> engine.epochs.contains_key(
            device_id,
        ) && (engine.device_in_use(device_id) || stream::since(
            engine.state.monotonic_ms,
            engine.epochs[device_id],
        ) < EPOCH_IDLE_TTL_MS),
{
}

/// What the sessions say is moved as the sessions are.
proof fn lemma_views_relocated(
    sessions: Map<usize, HotSession>,
    moves: Seq<(usize, usize)>,
)
    requires
        forall|i: int|
            0 <= i < moves.len() ==> slots::relocated(
                sessions,
                #[trigger] moves.take(i),
            ).contains_key(moves[i].0),
    ensures
        super::session_views(slots::relocated(sessions, moves)) == slots::relocated(
            super::session_views(sessions),
            moves,
        ),
    decreases moves.len(),
{
    if moves.len() > 0 {
        let rest = moves.drop_last();
        let last = moves.len() - 1;
        assert(rest =~= moves.take(last));
        assert forall|j: int| 0 <= j < rest.len() implies slots::relocated(
            sessions,
            #[trigger] rest.take(j),
        ).contains_key(rest[j].0) by {
            assert(rest.take(j) =~= moves.take(j));
        }
        lemma_views_relocated(sessions, rest);
        let before = slots::relocated(sessions, rest);
        super::lemma_view_remove(before, moves[last].0);
        super::lemma_view_insert(
            before.remove(moves[last].0),
            moves[last].1,
            before[moves[last].0],
        );
    }
}

impl ProtocolEngine {
    /// Lists a session that was moved under its new slot.
    fn relist(&mut self, slot: usize)
        requires
            old(self).by_peer.wf(),
            slots::slab_sessions(old(self).sessions).contains_key(slot),
        ensures
            final(self).by_peer.wf(),
            final(self).sessions == old(self).sessions,
            final(self).epochs == old(self).epochs,
            final(self).migrating_endpoints == old(self).migrating_endpoints,
            final(self).stream_repairs == old(self).stream_repairs,
            final(self).stream_inventory == old(self).stream_inventory,
            ({
                let session = slots::slab_sessions(old(self).sessions)[slot]@;
                let listed = EngineView {
                    by_peer: old(self)@.by_peer.insert(session.endpoint(), slot),
                    by_id: old(self)@.by_id.insert(session.id, slot),
                    ..old(self)@
                };
                final(self)@ == if session.routed() {
                    listed.emit(
                        EffectView::UpdateRouteSlot {
                            ip: session.tunnel_ip->0,
                            session_id: session.id,
                            registration_id: session.registration_id->0,
                            slot,
                        },
                    )
                } else {
                    listed
                }
            }),
    {
        broadcast use vstd::std_specs::hash::group_hash_axioms;

        if let Some(session) = slab_get(&self.sessions, slot) {
            let endpoint = EndpointKey::new(session.peer, session.local_ip);
            let session_id: u64 = session.id;
            let tunnel_ip = session.tunnel_ip;
            let registration = session.registration_id;
            self.by_peer.insert(endpoint, slot);
            self.by_id.insert(session_id, slot);
            let ghost listed = self@;
            if let (Some(ip), Some(registration_id)) = (tunnel_ip, registration) {
                self.effects.push(
                    Effect::UpdateRouteSlot { ip, session_id, registration_id, slot },
                );
                assert(self@.effects =~= listed.effects.push(
                    EffectView::UpdateRouteSlot { ip, session_id, registration_id, slot },
                ));
            }
        }
    }

    /// Moves the sessions into the first slots.
    fn pack_sessions(&mut self) -> (moves: Ghost<Seq<(usize, usize)>>)
        requires
            old(self).wf(),
        ensures
            final(self).wf(),
            packs(old(self)@.sessions, moves@),
            final(self)@ == old(self)@.moved_all(moves@),
    {
        let ghost before = self@;
        let ghost old_slab = slots::slab_sessions(self.sessions);
        let moves = slab_compact(&mut self.sessions);
        let ghost new_slab = slots::slab_sessions(self.sessions);
        let ghost bound = new_slab.dom().len();
        proof {
            lemma_views_relocated(old_slab, moves@);
            assert forall|i: int| 0 <= i < moves@.len() implies {
                let stage = slots::relocated(before.sessions, #[trigger] moves@.take(i));
                stage.contains_key(moves@[i].0) && !stage.contains_key(moves@[i].1)
            } by {
                let taken = moves@.take(i);
                assert forall|j: int| 0 <= j < taken.len() implies slots::relocated(
                    old_slab,
                    #[trigger] taken.take(j),
                ).contains_key(taken[j].0) by {
                    assert(taken.take(j) =~= moves@.take(j));
                }
                lemma_views_relocated(old_slab, taken);
            }
            assert(super::session_views(new_slab).dom() =~= new_slab.dom());
        }
        let mut i: usize = 0;
        assert(moves@.take(0) =~= Seq::<(usize, usize)>::empty());
        while i < moves.len()
            invariant
                i <= moves@.len(),
                self.by_peer.wf(),
                self.epochs.wf(),
                self.migrating_endpoints.wf(),
                self.stream_repairs.wf(),
                self.stream_inventory.wf(),
                before.valid(),
                before.sessions == super::session_views(old_slab),
                slots::slab_sessions(self.sessions) == new_slab,
                new_slab == slots::relocated(old_slab, moves@),
                self@.sessions == slots::relocated(before.sessions, moves@),
                self@ == (EngineView {
                    sessions: self@.sessions,
                    ..before.moved_all(moves@.take(i as int))
                }),
                forall|j: int|
                    0 <= j < moves@.len() ==> (#[trigger] moves@[j]).1 < bound <= moves@[j].0,
                forall|j: int|
                    0 <= j < moves@.len() ==> {
                        let stage = slots::relocated(old_slab, #[trigger] moves@.take(j));
                        stage.contains_key(moves@[j].0) && !stage.contains_key(moves@[j].1)
                    },
                forall|j: int|
                    0 <= j < moves@.len() ==> {
                        let stage = slots::relocated(before.sessions, #[trigger] moves@.take(j));
                        stage.contains_key(moves@[j].0) && !stage.contains_key(moves@[j].1)
                    },
            decreases moves.len() - i,
        {
            let to: usize = moves[i].1;
            let ghost from = moves@[i as int].0;
            let ghost now = moves@.take(i as int);
            let ghost next = moves@.take(i + 1);
            proof {
                assert(next.drop_last() =~= now);
                assert(next.last() == (from, to));
                slots::lemma_settled(old_slab, moves@, bound, i as int);
                slots::lemma_settled(before.sessions, moves@, bound, i as int);
                assert forall|j: int| 0 <= j < now.len() implies {
                    let stage = slots::relocated(before.sessions, #[trigger] now.take(j));
                    stage.contains_key(now[j].0) && !stage.contains_key(now[j].1)
                } by {
                    assert(now.take(j) =~= moves@.take(j));
                }
                moves_keep_indexes_valid(before, now);
                assert(new_slab[to]@ == before.moved_all(now).sessions[from]);
            }
            self.relist(to);
            i += 1;
            proof {
                let moved = before.moved_all(next);
                assert(moved == before.moved_all(now).moved(from, to));
                assert(self@ =~= (EngineView { sessions: self@.sessions, ..moved }));
            }
        }
        proof {
            assert(moves@.take(i as int) =~= moves@);
            moves_keep_indexes_valid(before, moves@);
            assert(self@ =~= before.moved_all(moves@));
            assert forall|slot: usize| #[trigger] new_slab.contains_key(
                slot,
            ) implies new_slab[slot].wf() by {
                slots::lemma_relocated_values(old_slab, moves@, slot);
            }
            assert(packs(before.sessions, moves@));
        }
        Ghost(moves@)
    }

    /// Compacts memory, unless that is not worth while and not forced. How many sessions there
    /// is room for, the allocator decides.
    pub fn compact_memory(&mut self, force: bool)
        requires
            old(self).wf(),
        ensures
            final(self).wf(),
            old(self)@.compacted(final(self)@, force),
    {
        let ghost before = self@;
        let capacity: usize = slab_capacity(&self.sessions);
        assert(before.sessions.dom() =~= slots::slab_sessions(self.sessions).dom());
        self.compact_with_room(force, capacity);
        proof {
            let moves = choose|moves: Seq<(usize, usize)>| #[trigger]
                before.compacted_by(self@, force, capacity, moves);
            assert(before.compacted_by(self@, force, capacity, moves));
        }
    }

    /// Compacts memory, where there is room for `capacity` sessions, unless that is not worth
    /// while and not forced.
    pub fn compact_with_room(&mut self, force: bool, capacity: usize)
        requires
            old(self).wf(),
        ensures
            final(self).wf(),
            exists|moves: Seq<(usize, usize)>| #[trigger]
                old(self)@.compacted_by(final(self)@, force, capacity, moves),
    {
        let ghost before = self@;
        let count: usize = self.session_count();
        self.state.memory_compact_pending = false;
        if !force && (capacity <= HOT_TABLE_RESERVE || count > capacity / 2) {
            proof {
                assert(before.compacted_by(self@, force, capacity, Seq::empty()));
            }
            return ;
        }
        self.state.stream_inventory_dirty = true;
        self.state.last_memory_compact_ms = self.state.monotonic_ms;
        let ghost ready = self@;
        assert(ready =~= (EngineView {
            state: EngineState {
                memory_compact_pending: false,
                last_memory_compact_ms: before.state.monotonic_ms,
                stream_inventory_dirty: true,
                ..before.state
            },
            ..before
        }));
        let Ghost(moves) = self.pack_sessions();
        let ghost packed = self@;
        slab_shrink(&mut self.sessions);
        if slab_capacity(&self.sessions) < HOT_TABLE_RESERVE {
            let len: usize = slab_len(&self.sessions);
            slab_reserve(&mut self.sessions, HOT_TABLE_RESERVE.saturating_sub(len));
        }
        proof {
            assert(self@ =~= packed);
            assert(before.compacted_by(self@, force, capacity, moves));
        }
    }

    /// Compacts memory, if there is need and it is time for that. How many sessions there is
    /// room for, the allocator decides.
    pub fn compact_if_due(&mut self)
        requires
            old(self).wf(),
        ensures
            final(self).wf(),
            if old(self)@.compaction_due() {
                old(self)@.compacted(final(self)@, false)
            } else {
                final(self)@ == old(self)@
            },
    {
        let ghost before = self@;
        let capacity: usize = slab_capacity(&self.sessions);
        assert(before.sessions.dom() =~= slots::slab_sessions(self.sessions).dom());
        self.compact_if_due_with_room(capacity);
        proof {
            if before.compaction_due() {
                let moves = choose|moves: Seq<(usize, usize)>| #[trigger]
                    before.compacted_by(self@, false, capacity, moves);
                assert(before.compacted_by(self@, false, capacity, moves));
            }
        }
    }

    /// Compacts memory, where there is room for `capacity` sessions, if there is need and it
    /// is time for that.
    pub fn compact_if_due_with_room(&mut self, capacity: usize)
        requires
            old(self).wf(),
        ensures
            final(self).wf(),
            if old(self)@.compaction_due() {
                exists|moves: Seq<(usize, usize)>| #[trigger]
                    old(self)@.compacted_by(final(self)@, false, capacity, moves)
            } else {
                final(self)@ == old(self)@
            },
    {
        if self.state.memory_compact_pending && self.state.monotonic_ms.saturating_sub(
            self.state.last_memory_compact_ms,
        ) >= MEMORY_COMPACT_INTERVAL_MS {
            self.compact_with_room(false, capacity);
        }
    }

    /// Forgets endpoints whose session moved long ago, if it is time for that.
    fn sweep_migrating_endpoints(&mut self)
        requires
            old(self).wf(),
        ensures
            final(self).wf(),
            final(self)@ == old(self)@.without_settled_endpoints(),
    {
        let ghost before = self@;
        let now_ms: u64 = self.state.monotonic_ms;
        if now_ms.saturating_sub(self.state.last_migrating_endpoint_sweep_ms)
            < MIGRATING_ENDPOINT_SWEEP_INTERVAL_MS {
            return ;
        }
        self.state.last_migrating_endpoint_sweep_ms = now_ms;
        let ghost keys = self.migrating_endpoints.keys();
        let mut keep: Vec<bool> = Vec::new();
        let mut i: usize = 0;
        while i < self.migrating_endpoints.len()
            invariant
                i <= keys.len(),
                keep@.len() == i,
                self.migrating_endpoints.wf(),
                keys == self.migrating_endpoints.keys(),
                before.migrating == self.migrating_endpoints@,
                forall|j: int|
                    0 <= j < i ==> keep@[j] == (stream::since(
                        now_ms,
                        before.migrating[#[trigger] keys[j]],
                    ) < MIGRATING_ENDPOINT_TTL_MS),
            decreases keys.len() - i,
        {
            let started_ms: u64 = *self.migrating_endpoints.value_at(i);
            keep.push(now_ms.saturating_sub(started_ms) < MIGRATING_ENDPOINT_TTL_MS);
            i += 1;
        }
        proof {
            self.migrating_endpoints.keys_are_the_domain();
        }
        self.migrating_endpoints.retain(&keep);
        proof {
            assert forall|key: EndpointKey| before.migrating.contains_key(key) implies (exists|j: int|
                0 <= j < keep@.len() && #[trigger] keys[j] == key && keep@[j]) == (stream::since(
                now_ms,
                before.migrating[key],
            ) < MIGRATING_ENDPOINT_TTL_MS) by {
                let j = choose|j: int| 0 <= j < keys.len() && keys[j] == key;
                assert(keys[j] == key);
            }
            assert(self@ =~= before.without_settled_endpoints());
        }
    }

    /// Has all sessions report what they carried.
    fn report_all(&mut self)
        requires
            old(self).wf(),
        ensures
            final(self).wf(),
            final(self)@ == old(self)@.all_reported(),
    {
        let ghost before = self@;
        let order = slab_slots(&self.sessions);
        proof {
            slots::lemma_sorted(order@, before.sessions.dom());
        }
        let ghost report = |i: int|
            EffectView::Public(
                UpdateView::Counters(
                    before.sessions[order@[i]].report(
                        before.state.wall_now,
                        before.state.debug_enabled,
                    ),
                ),
            );
        let mut i: usize = 0;
        assert(before.effects + Seq::new(0, report) =~= before.effects);
        while i < order.len()
            invariant
                i <= order@.len(),
                self.wf(),
                slots::ascending(order@),
                forall|slot: usize| order@.contains(slot) <==> before.sessions.contains_key(slot),
                report == (|i: int|
                    EffectView::Public(
                        UpdateView::Counters(
                            before.sessions[order@[i]].report(
                                before.state.wall_now,
                                before.state.debug_enabled,
                            ),
                        ),
                    )),
                self@ == (EngineView {
                    sessions: self@.sessions,
                    effects: before.effects + Seq::new(i as nat, report),
                    ..before
                }),
                self@.sessions.dom() == before.sessions.dom(),
                forall|j: int|
                    0 <= j < i ==> self@.sessions[#[trigger] order@[j]]
                        == before.sessions[order@[j]].reported(),
                forall|j: int|
                    i <= j < order@.len() ==> self@.sessions[#[trigger] order@[j]]
                        == before.sessions[order@[j]],
            decreases order.len() - i,
        {
            let slot: usize = order[i];
            let ghost now = self@;
            let ghost slab_before = slots::slab_sessions(self.sessions);
            proof {
                assert(order@.contains(slot));
                assert(before.sessions.dom().contains(slot));
            }
            let wall_now: u64 = self.state.wall_now;
            let debug_enabled = self.state.debug_enabled;
            let session = slab_get_mut(&mut self.sessions, slot);
            let counters = session.publish_counters(wall_now, debug_enabled);
            let ghost changed = *session;
            self.effects.push(Effect::Public(PublicUpdate::Counters(counters)));
            i += 1;
            proof {
                super::lemma_view_insert(slab_before, slot, changed);
                assert(Seq::new(i as nat, report) =~= Seq::new((i - 1) as nat, report).push(
                    report(i - 1),
                ));
                assert(self@.effects =~= now.effects.push(report(i - 1)));
                assert(self@ =~= (EngineView {
                    sessions: now.sessions.insert(slot, changed@),
                    effects: before.effects + Seq::new(i as nat, report),
                    ..before
                }));
                assert(self@.sessions.dom() =~= before.sessions.dom());
            }
        }
        proof {
            let after = before.all_reported();
            assert forall|slot: usize| before.sessions.contains_key(slot) implies self@.sessions[slot]
                == before.sessions[slot].reported() by {
                assert(order@.contains(slot));
                let j = choose|j: int| 0 <= j < order@.len() && order@[j] == slot;
                assert(self@.sessions[order@[j]] == before.sessions[order@[j]].reported());
            }
            assert(self@.sessions =~= after.sessions);
            assert(self@.effects =~= after.effects);
            assert(self@ =~= after);
        }
    }

    /// Looks the sessions over, if it is time for that.
    fn maintain_sessions(&mut self)
        requires
            old(self).wf(),
        ensures
            final(self).wf(),
            final(self)@ == old(self)@.maintained(),
    {
        let ghost before = self@;
        let now_ms: u64 = self.state.monotonic_ms;
        if now_ms.saturating_sub(self.state.last_session_maintenance_ms)
            < SESSION_MAINTENANCE_INTERVAL_MS {
            return ;
        }
        self.state.last_session_maintenance_ms = now_ms;
        assert(self@ =~= (EngineView {
            state: EngineState { last_session_maintenance_ms: now_ms, ..before.state },
            ..before
        }));
        self.report_all();
        let ghost reported = self@;
        let selector = Selector::Idle(now_ms);
        let doomed = self.selected_slots(&selector);
        proof {
            commands::lemma_same_slots(
                reported,
                |session: SessionView| selector.selects(session),
                |session: SessionView| commands::is_idle(session, now_ms),
            );
        }
        let mut left: usize = doomed.len();
        assert(doomed@.take(left as int) =~= doomed@);
        while left > 0
            invariant
                left <= doomed@.len(),
                self.wf(),
                reported.removed_idle(doomed@) == self@.removed_idle(doomed@.take(left as int)),
            decreases left,
        {
            left = left - 1;
            assert(doomed@.take(left + 1).drop_last() =~= doomed@.take(left as int));
            let slot: usize = doomed[left];
            let authenticated = match slab_get(&self.sessions, slot) {
                Some(session) => session.registration_id.is_some(),
                None => false,
            };
            self.remove_slot_with_reason(slot, hot_session_idle_reason(authenticated));
        }
    }

    /// The sessions, as far as the inventory of streams takes note of them.
    fn collect_stream_sources(&self) -> (sources: Vec<StreamSource>)
        requires
            self.wf(),
        ensures
            stream::source_views(sources@) == self@.stream_sources(),
    {
        let order = slab_slots(&self.sessions);
        let ghost sessions = self@.sessions;
        proof {
            slots::lemma_sorted(order@, sessions.dom());
        }
        let mut sources: Vec<StreamSource> = Vec::new();
        let mut i: usize = 0;
        while i < order.len()
            invariant
                i <= order@.len(),
                sessions == self@.sessions,
                forall|slot: usize| order@.contains(slot) <==> sessions.contains_key(slot),
                sources@.len() == i,
                forall|j: int|
                    0 <= j < i ==> (#[trigger] sources@[j])@ == source_of(
                        order@[j],
                        sessions[order@[j]],
                    ),
            decreases order.len() - i,
        {
            let slot: usize = order[i];
            assert(order@.contains(slot));
            if let Some(session) = slab_get(&self.sessions, slot) {
                sources.push(
                    StreamSource {
                        slot,
                        session_id: session.id,
                        identity: SessionEpochIdentity {
                            device_id: session.device_id.clone(),
                            generation_id: session.generation_id,
                            session_salt: session.session_salt.clone(),
                        },
                        worker_id: session.worker_id,
                        desired_count: session.desired_stream_count,
                        registered: session.registration_id.is_some(),
                    },
                );
            }
            i += 1;
        }
        assert(stream::source_views(sources@) =~= self@.stream_sources());
        sources
    }

    /// Leaves stream messages behind to be sent.
    fn emit_stream_controls(&mut self, actions: Vec<StreamControlAction>)
        requires
            old(self).wf(),
        ensures
            final(self).wf(),
            final(self)@ == old(self)@.emit_all(
                stream::action_views(actions@).map_values(
                    |action: ActionView| EffectView::StreamControl(action),
                ),
            ),
    {
        let ghost before = self@;
        let ghost listed = stream::action_views(actions@).map_values(
            |action: ActionView| EffectView::StreamControl(action),
        );
        let mut actions = actions;
        let mut reversed: Vec<StreamControlAction> = Vec::new();
        let ghost given = actions@;
        while actions.len() > 0
            invariant
                actions@.len() + reversed@.len() == given.len(),
                actions@ == given.take(actions@.len() as int),
                forall|j: int|
                    0 <= j < reversed@.len() ==> #[trigger] reversed@[j] == given[given.len() - 1 - j],
            decreases actions@.len(),
        {
            if let Some(action) = actions.pop() {
                reversed.push(action);
                assert(actions@ =~= given.take(actions@.len() as int));
            }
        }
        assert(listed.take(0) =~= Seq::<EffectView>::empty());
        assert(self@ =~= before.emit_all(listed.take(0)));
        while reversed.len() > 0
            invariant
                self.wf(),
                reversed@.len() <= given.len(),
                listed.len() == given.len(),
                forall|j: int|
                    0 <= j < given.len() ==> #[trigger] listed[j] == EffectView::StreamControl(
                        given[j]@,
                    ),
                forall|j: int|
                    0 <= j < reversed@.len() ==> #[trigger] reversed@[j] == given[given.len() - 1 - j],
                self@ == before.emit_all(listed.take(given.len() - reversed@.len())),
            decreases reversed@.len(),
        {
            let ghost done = (given.len() - reversed@.len()) as int;
            if let Some(action) = reversed.pop() {
                assert(action == given[done]);
                self.emit(Effect::StreamControl(action));
                assert(listed.take(done + 1) =~= listed.take(done).push(listed[done]));
                assert(self@ =~= before.emit_all(listed.take(done + 1)));
            }
        }
        assert(listed.take(given.len() as int) =~= listed);
    }

    /// Looks the streams over, if it is time for that: takes stock where that is due, moves
    /// the repair rounds on and leaves behind what is to be sent.
    pub fn reconcile_streams(&mut self)
        requires
            old(self).wf(),
        ensures
            final(self).wf(),
            old(self)@.reconciled(final(self)@),
    {
        let ghost before = self@;
        let now_ms: u64 = self.state.monotonic_ms;
        if now_ms.saturating_sub(self.state.last_stream_reconcile_ms)
            < STREAM_RECONCILE_INTERVAL_MS {
            return ;
        }
        self.state.last_stream_reconcile_ms = now_ms;
        let ghost noted = self@;
        assert(noted =~= (EngineView {
            state: EngineState { last_stream_reconcile_ms: now_ms, ..before.state },
            ..before
        }));
        if self.state.stream_inventory_dirty || now_ms.saturating_sub(
            self.state.last_stream_inventory_resync_ms,
        ) >= STREAM_INVENTORY_RESYNC_MS {
            let sources = self.collect_stream_sources();
            rebuild_inventory(&mut self.stream_inventory, &sources);
            self.state.stream_inventory_dirty = false;
            self.state.last_stream_inventory_resync_ms = now_ms;
        }
        let ghost resynced = self@;
        assert(resynced =~= noted.resynced());
        let ghost order = self.stream_inventory.keys();
        proof {
            self.stream_inventory.keys_are_the_domain();
            assert(lists(order, resynced.inventory.dom()));
        }
        let actions = plan_streams(&self.stream_inventory, &mut self.stream_repairs, now_ms);
        retire_rounds(&self.stream_inventory, &mut self.stream_repairs, now_ms);
        self.emit_stream_controls(actions);
        proof {
            assert(self@ =~= resynced.rounds_advanced(order));
        }
    }

    /// Whether some session is on a device.
    fn serves_device(&self, device_id: &str) -> (found: bool)
        requires
            self.wf(),
        ensures
            found == self@.device_in_use(device_id@),
    {
        let order = slab_slots(&self.sessions);
        let ghost sessions = self@.sessions;
        let mut i: usize = 0;
        while i < order.len()
            invariant
                i <= order@.len(),
                sessions == self@.sessions,
                forall|slot: usize| order@.contains(slot) <==> sessions.contains_key(slot),
                forall|j: int|
                    0 <= j < i ==> sessions[#[trigger] order@[j]].device_id != device_id@,
            decreases order.len() - i,
        {
            let slot: usize = order[i];
            assert(order@.contains(slot));
            if let Some(session) = slab_get(&self.sessions, slot) {
                if same_text(session.device_id.as_str(), device_id) {
                    assert(self@.sessions.contains_key(slot));
                    return true;
                }
            }
            i += 1;
        }
        proof {
            assert forall|slot: usize| #[trigger] sessions.contains_key(
                slot,
            ) implies sessions[slot].device_id != device_id@ by {
                assert(order@.contains(slot));
                let j = choose|j: int| 0 <= j < order@.len() && order@[j] == slot;
                assert(sessions[order@[j]].device_id != device_id@);
            }
        }
        false
    }

    /// Forgets epochs that are not in use, if it is time for that.
    pub fn sweep_idle_epochs(&mut self)
        requires
            old(self).wf(),
        ensures
            final(self).wf(),
            final(self)@ == old(self)@.without_idle_epochs(),
    {
        let ghost before = self@;
        let now_ms: u64 = self.state.monotonic_ms;
        if now_ms.saturating_sub(self.state.last_epoch_sweep_ms) < EPOCH_SWEEP_INTERVAL_MS {
            return ;
        }
        self.state.last_epoch_sweep_ms = now_ms;
        let ghost kept = Set::new(
            |device_id: Seq<char>|
                (device_id.len() > 0 && before.device_in_use(device_id)) || stream::since(
                    now_ms,
                    before.epochs[device_id],
                ) < EPOCH_IDLE_TTL_MS,
        );
        let ghost keys = self.epochs.keys();
        let mut keep: Vec<bool> = Vec::new();
        let mut changed = false;
        let mut i: usize = 0;
        while i < self.epochs.len()
            invariant
                i <= keys.len(),
                keep@.len() == i,
                self.wf(),
                keys == self.epochs.keys(),
                before.epochs == self.epochs@,
                before.sessions == self@.sessions,
                kept == Set::new(
                    |device_id: Seq<char>|
                        (device_id.len() > 0 && before.device_in_use(device_id)) || stream::since(
                            now_ms,
                            before.epochs[device_id],
                        ) < EPOCH_IDLE_TTL_MS,
                ),
                forall|j: int| 0 <= j < i ==> keep@[j] == kept.contains(#[trigger] keys[j]),
                changed == exists|j: int| 0 <= j < i && !#[trigger] keep@[j],
            decreases keys.len() - i,
        {
            let device_id = self.epochs.key_at(i);
            let last_seen_ms: u64 = *self.epochs.value_at(i);
            let in_use = if same_text(device_id.as_str(), "") {
                false
            } else {
                self.serves_device(device_id.as_str())
            };
            proof {
                reveal_strlit("");
                assert(keys[i as int].len() == 0 ==> keys[i as int] =~= ""@);
                assert(self@.device_in_use(keys[i as int]) == before.device_in_use(
                    keys[i as int],
                ));
            }
            let fresh = in_use || now_ms.saturating_sub(last_seen_ms) < EPOCH_IDLE_TTL_MS;
            let ghost flags = keep@;
            keep.push(fresh);
            proof {
                assert(keep@[i as int] == fresh);
                assert(forall|j: int| 0 <= j < i ==> keep@[j] == flags[j]);
                if changed {
                    let j = choose|j: int| 0 <= j < i && !#[trigger] flags[j];
                    assert(!keep@[j]);
                }
            }
            if !fresh {
                changed = true;
            }
            i += 1;
        }
        proof {
            self.epochs.keys_are_the_domain();
        }
        self.epochs.retain(&keep);
        proof {
            assert forall|key: Seq<char>| before.epochs.contains_key(key) implies (exists|j: int|
                0 <= j < keep@.len() && #[trigger] keys[j] == key && keep@[j]) == kept.contains(
                key,
            ) by {
                let j = choose|j: int| 0 <= j < keys.len() && keys[j] == key;
                assert(keys[j] == key);
            }
            assert(self@.epochs =~= before.epochs.restrict(kept));
            if changed {
                let j = choose|j: int| 0 <= j < i && !#[trigger] keep@[j];
                assert(before.epochs.contains_key(keys[j]));
                assert(!self@.epochs.contains_key(keys[j]));
            } else {
                assert forall|key: Seq<char>| before.epochs.contains_key(
                    key,
                ) implies self@.epochs.contains_key(key) by {
                    let j = choose|j: int| 0 <= j < keys.len() && keys[j] == key;
                    assert(keep@[j]);
                }
                assert(self@.epochs =~= before.epochs);
            }
        }
        if changed {
            self.emit(Effect::PublishEpochs);
        }
        assert(self@ =~= before.without_idle_epochs());
    }

    /// Does what is to be done from time to time. What is left behind is to be carried out
    /// before [`ProtocolEngine::compact_if_due`] follows, since that moves sessions.
    pub fn on_tick(&mut self, tick: Tick)
        requires
            old(self).wf(),
            tick.elapsed_ms < u64::MAX,
        ensures
            final(self).wf(),
            exists|reconciled: EngineView|
                {
                    &&& #[trigger] old(self)@.ticked(
                        tick,
                    ).without_settled_endpoints().maintained().reconciled(reconciled)
                    &&& final(self)@ == reconciled.without_idle_epochs()
                },
    {
        let ghost before = self@;
        self.state.monotonic_ms = tick.elapsed_ms + 1;
        self.state.wall_now = tick.wall_now;
        self.state.debug_enabled = tick.debug_enabled;
        self.state.dpi_enabled = tick.dpi_enabled;
        self.state.syscalls_enabled = tick.syscalls_enabled;
        self.state.io_metrics_enabled = tick.io_metrics_enabled;
        self.state.setup_budget = SETUP_BUDGET_PER_TICK;
        assert(self@ =~= before.ticked(tick));
        self.sweep_migrating_endpoints();
        self.maintain_sessions();
        self.reconcile_streams();
        self.sweep_idle_epochs();
    }

    /// Takes note of what the sockets and the tunnel device have counted: the control side
    /// hears of it where more went wrong.
    pub fn on_io_counters(&mut self, counters: IoCounters)
        requires
            old(self).wf(),
        ensures
            final(self).wf(),
            final(self)@ == ({
                let noted = EngineView {
                    state: EngineState { last_io_counters: counters, ..old(self)@.state },
                    ..old(self)@
                };
                if counters.same_faults(old(self)@.state.last_io_counters) {
                    noted
                } else {
                    noted.emit(EffectView::Control(EventView::IoCounters(counters)))
                }
            }),
    {
        let ghost before = self@;
        let unchanged = counters.agrees_on_faults(&self.state.last_io_counters);
        self.state.last_io_counters = counters;
        assert(self@ =~= (EngineView {
            state: EngineState { last_io_counters: counters, ..before.state },
            ..before
        }));
        if !unchanged {
            self.emit(Effect::Control(ControlEvent::IoCounters(counters)));
        }
    }

    /// Takes note of when a batch of packets was read.
    pub fn begin_batch(&mut self, now_ns: u64)
        requires
            old(self).wf(),
        ensures
            final(self).wf(),
            final(self)@ == (EngineView {
                state: EngineState { batch_now_ns: now_ns, ..old(self)@.state },
                ..old(self)@
            }),
    {
        let ghost before = self@;
        self.state.batch_now_ns = now_ns;
        assert(self@ =~= (EngineView {
            state: EngineState { batch_now_ns: now_ns, ..before.state },
            ..before
        }));
    }

    /// The devices that the engine has heard of, and when it did last.
    pub fn known_epochs(&self) -> (epochs: Table<String, u64>)
        requires
            self.wf(),
        ensures
            epochs.wf(),
            epochs@ == self@.epochs,
    {
        let mut epochs: Table<String, u64> = Table::new();
        let ghost keys = self.epochs.keys();
        let mut i: usize = 0;
        while i < self.epochs.len()
            invariant
                self.wf(),
                epochs.wf(),
                keys == self.epochs.keys(),
                i <= keys.len(),
                forall|key: Seq<char>| #[trigger]
                    epochs@.contains_key(key) <==> keys.take(i as int).contains(key),
                forall|key: Seq<char>| #[trigger]
                    epochs@.contains_key(key) ==> epochs@[key] == self.epochs@[key],
            decreases keys.len() - i,
        {
            let key = self.epochs.key_at(i).clone();
            let last: u64 = *self.epochs.value_at(i);
            proof {
                let taken = keys.take(i + 1);
                assert(taken =~= keys.take(i as int).push(keys[i as int]));
                assert forall|k: Seq<char>| #[trigger] taken.contains(k) <==> keys.take(
                    i as int,
                ).contains(k) || k == keys[i as int] by {
                    if keys.take(i as int).contains(k) {
                        let j = keys.take(i as int).index_of(k);
                        assert(taken[j] == k);
                    }
                    assert(taken[i as int] == keys[i as int]);
                }
            }
            epochs.insert(key, last);
            i += 1;
        }
        proof {
            assert(keys.take(keys.len() as int) =~= keys);
            self.epochs.keys_are_the_domain();
            assert(epochs@ =~= self.epochs@);
        }
        epochs
    }

    /// How large the tables of the engine are.
    pub fn gauges(&self) -> (gauges: Gauges)
        requires
            self.wf(),
        ensures
            gauges.active_sessions == self@.sessions.dom().len(),
            gauges.engine_epochs == self@.epochs.dom().len(),
            gauges.stream_repairs == self@.repairs.dom().len(),
            gauges.stream_inventory == self@.inventory.dom().len(),
    {
        proof {
            self.epochs.keys_are_the_domain();
            self.stream_repairs.keys_are_the_domain();
            self.stream_inventory.keys_are_the_domain();
            self.epochs.keys().unique_seq_to_set();
            self.stream_repairs.keys().unique_seq_to_set();
            self.stream_inventory.keys().unique_seq_to_set();
        }
        Gauges {
            active_sessions: self.session_count() as u64,
            engine_epochs: self.epochs.len() as u64,
            stream_repairs: self.stream_repairs.len() as u64,
            stream_inventory: self.stream_inventory.len() as u64,
        }
    }
}

} // verus!
