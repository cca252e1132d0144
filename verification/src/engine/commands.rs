//! What the engine does when it is told to.
use super::{EngineView, ProtocolEngine, SESSION_AUTH_IDLE_MS, SESSION_SETUP_IDLE_MS};
use crate::bytes::copy_of;
use crate::control::DISCONNECTED_REPLY;
use crate::effect;
use crate::effect::{
    CommandView, CredentialSet, CredentialView, Effect, EffectView, ProtocolCommand, PublicUpdate,
    RouteFallback, RouteRequest, UpdateView,
};
use crate::epoch;
use crate::epoch::{
    session_is_disconnected_device, session_is_retired_by_epoch, IdentityView,
};
use crate::session;
use crate::session::{HotSession, SessionView};
use crate::slots;
use crate::slots::{slab_get, slab_get_mut, slab_slots};
use crate::stream;
use crate::text::same_text;
use vstd::prelude::*;
use vstd::string::*;

verus! {

/// Which sessions a command is about.
pub(super) enum Selector<'a> {
    /// Those of a device that do not hold the key in force.
    Retired(&'a str, u64, &'a str),
    /// The one that asked, and those of a device.
    Ended(u64, &'a str),
    /// Those whose password is not among the credentials.
    Uncredentialed(&'a CredentialSet),
    /// Those with a password.
    Password(&'a str),
    /// Those that have been silent for too long.
    Idle(u64),
}

/// A session has been silent for too long.
pub open spec fn is_idle(session: SessionView, now_ms: u64) -> bool {
    stream::since(now_ms, session.last_inbound_ms) >= if session.registration_id is Some {
        SESSION_AUTH_IDLE_MS
    } else {
        SESSION_SETUP_IDLE_MS
    }
}

impl<'a> Selector<'a> {
    pub(super) open spec fn selects(self, session: SessionView) -> bool {
        match self {
            Selector::Retired(device_id, generation_id, session_salt) => epoch::retired_by_epoch(
                session.identity(),
                IdentityView {
                    device_id: device_id@,
                    generation_id,
                    session_salt: session_salt@,
                },
            ),
            Selector::Ended(requester, device_id) => session.id == requester || session.device_id
                == device_id@,
            Selector::Uncredentialed(credentials) => !effect::has_password(
                credentials@,
                session.password,
            ),
            Selector::Password(password) => session.password == password@,
            Selector::Idle(now_ms) => is_idle(session, now_ms),
        }
    }

    /// Whether the command is about `session`.
    fn is_about(&self, session: &HotSession) -> (chosen: bool)
        ensures
            chosen == self.selects(session@),
    {
        match self {
            Selector::Retired(device_id, generation_id, session_salt) => {
                session_is_retired_by_epoch(
                    session.device_id.as_str(),
                    session.generation_id,
                    session.session_salt.as_str(),
                    *device_id,
                    *generation_id,
                    *session_salt,
                )
            },
            Selector::Ended(requester, device_id) => session_is_disconnected_device(
                session.id,
                session.device_id.as_str(),
                *requester,
                *device_id,
            ),
            Selector::Uncredentialed(credentials) => !credentials.contains_password(
                session.password.as_str(),
            ),
            Selector::Password(password) => same_text(session.password.as_str(), *password),
            Selector::Idle(now_ms) => {
                let idle_ms: u64 = (*now_ms).saturating_sub(session.last_inbound_ms);
                if session.registration_id.is_some() {
                    idle_ms >= SESSION_AUTH_IDLE_MS
                } else {
                    idle_ms >= SESSION_SETUP_IDLE_MS
                }
            },
        }
    }
}

impl EngineView {
    /// The engine once the idle sessions in some slots were removed, the last slot first.
    pub open spec fn removed_idle(self, slots: Seq<usize>) -> EngineView
        decreases slots.len(),
    {
        if slots.len() == 0 {
            self
        } else {
            let slot = slots.last();
            self.removed(
                slot,
                session::idle_reason(
                    self.sessions.contains_key(slot) && self.sessions[slot].registration_id is Some,
                ),
            ).removed_idle(slots.drop_last())
        }
    }

    /// The engine once a payload is to be sent over the session in `slot`.
    pub open spec fn sending(self, slot: usize, payload: Seq<u8>) -> EngineView {
        self.sampled(payload).emit(
            EffectView::Send { slot, payload, record_dpi: self.shows(payload) },
        )
    }

    /// The engine once the session with `session_id`, if there is one, is to carry a payload.
    pub open spec fn sent_plain(self, session_id: u64, payload: Seq<u8>) -> EngineView {
        if self.by_id.contains_key(session_id) {
            self.sending(self.by_id[session_id], payload)
        } else {
            self
        }
    }

    /// The engine once all sessions are to carry a payload, in the order of their slots.
    pub open spec fn broadcast(self, payload: Seq<u8>) -> EngineView {
        let slots = self.slots_where(|session: SessionView| true);
        self.sampled(payload).emit_all(
            Seq::new(
                slots.len(),
                |i: int|
                    EffectView::Send {
                        slot: slots[i],
                        payload,
                        record_dpi: self.shows(payload),
                    },
            ),
        )
    }

    /// The engine once a route for a session was asked for, in place of the one it had.
    pub open spec fn activating(
        self,
        session_id: u64,
        ip: [u8; 4],
        registration_id: u64,
        worker_id: u16,
        desired_count: u16,
    ) -> EngineView {
        let slot = self.by_id[session_id];
        let session = self.sessions[slot];
        let request = RouteRequest {
            ip,
            session_id,
            registration_id,
            worker_id,
            slot,
            desired_count,
            previous_ip: if session.routed() {
                session.tunnel_ip
            } else {
                None
            },
        };
        if !self.by_id.contains_key(session_id) {
            self
        } else if session.routed() {
            self.emit(
                EffectView::DropRoute {
                    ip: session.tunnel_ip->0,
                    registration_id: session.registration_id->0,
                },
            ).emit(EffectView::RegisterRoute(request))
        } else {
            self.emit(EffectView::RegisterRoute(request))
        }
    }

    /// The engine once the session in a slot has the route that was registered for it.
    pub open spec fn rerouted(self, request: RouteRequest) -> EngineView {
        self.with_session(
            request.slot,
            SessionView {
                tunnel_ip: Some(request.ip),
                registration_id: Some(request.registration_id),
                desired_stream_count: request.desired_count,
                pending_tunnel: false,
                ..self.sessions[request.slot]
            },
        ).with_dirty_inventory()
    }

    /// The engine once it is known whether the route that was asked for was registered.
    pub open spec fn activated(self, request: RouteRequest, registered: bool) -> EngineView {
        let present = self.sessions.contains_key(request.slot) && self.sessions[request.slot].id
            == request.session_id;
        let previous = match request.previous_ip {
            Some(ip) => seq![EffectView::SyncDownlink { ip }],
            None => Seq::empty(),
        };
        if !present {
            self
        } else if registered {
            self.rerouted(request).emit_all(
                seq![
                    EffectView::Public(
                        UpdateView::Tunnel {
                            session_id: request.session_id,
                            ip: request.ip,
                            desired_count: request.desired_count,
                        },
                    ),
                ] + previous + seq![
                    EffectView::SyncDownlink { ip: request.ip },
                    EffectView::BindTunnel { ip: request.ip },
                ],
            )
        } else {
            self.emit_all(previous)
        }
    }

    /// The engine once a session was given a device and key.
    pub open spec fn with_epoch(self, session_id: u64, identity: IdentityView) -> EngineView {
        let slot = self.by_id[session_id];
        let session = self.sessions[slot];
        let updated = self.with_session(
            slot,
            SessionView {
                device_id: identity.device_id,
                generation_id: identity.generation_id,
                session_salt: identity.session_salt,
                ..session
            },
        ).with_dirty_inventory().emit(
            EffectView::Public(
                UpdateView::Epoch {
                    session_id,
                    device_id: identity.device_id,
                    generation_id: identity.generation_id,
                    session_salt: identity.session_salt,
                },
            ),
        );
        if !self.by_id.contains_key(session_id) {
            self
        } else if session.identity() != identity && session.tunnel_ip is Some {
            updated.emit(EffectView::ClearDownlink { ip: session.tunnel_ip->0 })
        } else {
            updated
        }
    }

    /// The engine once the worker number of a session is known.
    pub open spec fn with_worker(self, session_id: u64, worker_id: u16) -> EngineView {
        if self.by_id.contains_key(session_id) {
            let slot = self.by_id[session_id];
            self.with_session(
                slot,
                SessionView { worker_id: worker_id as u64, ..self.sessions[slot] },
            )
        } else {
            self
        }
    }

    /// The engine once the data packets of a session are known to be framed or not.
    pub open spec fn with_data_frames(self, session_id: u64, enabled: bool) -> EngineView {
        if self.by_id.contains_key(session_id) {
            let slot = self.by_id[session_id];
            self.with_session(slot, SessionView { data_frames: enabled, ..self.sessions[slot] })
        } else {
            self
        }
    }

    /// The engine once a key is in force: the sessions of its device that hold another key
    /// are gone.
    pub open spec fn with_authority(self, identity: IdentityView) -> EngineView {
        let rest = self.removed_all(
            self.slots_where(
                |session: SessionView| epoch::retired_by_epoch(session.identity(), identity),
            ),
            "authoritative-epoch-replaced"@,
        );
        EngineView {
            epochs: rest.epochs.insert(identity.device_id, self.state.monotonic_ms),
            ..rest
        }.emit(EffectView::PublishEpochs)
    }

    /// The engine once a disconnect was granted: the session that asked gets its reply, and
    /// the sessions are to be ended after that.
    pub open spec fn disconnecting(self, device_id: Seq<char>, requester: u64) -> EngineView {
        self.sent_plain(requester, DISCONNECTED_REPLY@).emit(
            EffectView::EndDevice { device_id, requester_session_id: requester },
        )
    }

    /// The engine once the sessions of a device, and the one that asked, were ended.
    pub open spec fn disconnected(self, device_id: Seq<char>, requester: u64) -> EngineView {
        self.removed_all(
            self.slots_where(
                |session: SessionView| session.id == requester || session.device_id == device_id,
            ),
            "device-disconnect"@,
        )
    }

    /// The engine once other credentials are in force: sessions without one are gone.
    pub open spec fn with_credentials(self, credentials: Seq<CredentialView>) -> EngineView {
        EngineView {
            credentials,
            ..self.removed_all(
                self.slots_where(
                    |session: SessionView| !effect::has_password(credentials, session.password),
                ),
                "credential-removed"@,
            )
        }
    }

    /// The engine once a session was dropped on request.
    pub open spec fn dropped(self, session_id: u64) -> EngineView {
        if self.by_id.contains_key(session_id) {
            self.removed(self.by_id[session_id], "requested-session-drop"@)
        } else {
            self
        }
    }

    /// The engine once the sessions with a password were dropped.
    pub open spec fn dropped_password(self, password: Seq<char>) -> EngineView {
        self.removed_all(
            self.slots_where(|session: SessionView| session.password == password),
            "credential-removed"@,
        )
    }

    /// The engine once a packet is to be written to the tunnel device for a session.
    pub open spec fn injected(self, session_id: u64, payload: Seq<u8>) -> EngineView {
        if self.by_id.contains_key(session_id) {
            self.emit(EffectView::WriteTun { slot: self.by_id[session_id], payload })
        } else {
            self
        }
    }
}

impl ProtocolEngine {
    /// The slots of the sessions that a command is about, in ascending order.
    pub(super) fn selected_slots(&self, selector: &Selector) -> (chosen: Vec<usize>)
        requires
            self.wf(),
        ensures
            chosen@ == self@.slots_where(|session: SessionView| selector.selects(session)),
    {
        let slots = slab_slots(&self.sessions);
        let ghost sessions = self@.sessions;
        let mut chosen: Vec<usize> = Vec::new();
        let mut i: usize = 0;
        while i < slots.len()
            invariant
                i <= slots@.len(),
                self.wf(),
                sessions == self@.sessions,
                slots::ascending(slots@),
                forall|slot: usize| slots@.contains(slot) <==> sessions.contains_key(slot),
                slots::ascending(chosen@),
                forall|j: int|
                    0 <= j < chosen@.len() ==> exists|k: int|
                        0 <= k < i && slots@[k] == #[trigger] chosen@[j] && selector.selects(
                            sessions[chosen@[j]],
                        ),
                forall|k: int|
                    0 <= k < i && selector.selects(sessions[#[trigger] slots@[k]])
                        ==> chosen@.contains(slots@[k]),
            decreases slots.len() - i,
        {
            let slot: usize = slots[i];
            let ghost before = chosen@;
            proof {
                assert(slots@.contains(slot));
            }
            if let Some(session) = slab_get(&self.sessions, slot) {
                if selector.is_about(session) {
                    chosen.push(slot);
                    proof {
                        assert forall|a: int, b: int| 0 <= a < b < chosen@.len() implies chosen@[a]
                            < chosen@[b] by {
                            if b == chosen@.len() - 1 {
                                let k = choose|k: int|
                                    0 <= k < i && slots@[k] == #[trigger] before[a]
                                        && selector.selects(sessions[before[a]]);
                                assert(slots@[k] < slots@[i as int]);
                            }
                        }
                        assert forall|j: int| 0 <= j < chosen@.len() implies exists|k: int|
                            0 <= k < i + 1 && slots@[k] == #[trigger] chosen@[j]
                                && selector.selects(sessions[chosen@[j]]) by {
                            if j < before.len() {
                                let k = choose|k: int|
                                    0 <= k < i && slots@[k] == #[trigger] before[j]
                                        && selector.selects(sessions[before[j]]);
                                assert(slots@[k] == chosen@[j]);
                            } else {
                                assert(slots@[i as int] == chosen@[j]);
                            }
                        }
                        assert forall|k: int|
                            0 <= k < i + 1 && selector.selects(
                                sessions[#[trigger] slots@[k]],
                            ) implies chosen@.contains(slots@[k]) by {
                            if k < i {
                                assert(before.contains(slots@[k]));
                                let j = choose|j: int| 0 <= j < before.len() && before[j] == slots@[k];
                                assert(chosen@[j] == slots@[k]);
                            } else {
                                assert(chosen@[chosen@.len() - 1] == slots@[k]);
                            }
                        }
                    }
                }
            }
            i += 1;
        }
        proof {
            let set = Set::new(
                |slot: usize| sessions.contains_key(slot) && selector.selects(sessions[slot]),
            );
            let pred = |session: SessionView| selector.selects(session);
            assert(set =~= Set::new(
                |slot: usize| sessions.contains_key(slot) && pred(sessions[slot]),
            ));
            assert forall|slot: usize| chosen@.contains(slot) <==> set.contains(slot) by {
                if chosen@.contains(slot) {
                    let j = choose|j: int| 0 <= j < chosen@.len() && chosen@[j] == slot;
                    let k = choose|k: int|
                        0 <= k < i && slots@[k] == #[trigger] chosen@[j] && selector.selects(
                            sessions[chosen@[j]],
                        );
                    assert(slots@.contains(slots@[k]));
                }
                if set.contains(slot) {
                    assert(slots@.contains(slot));
                    let k = choose|k: int| 0 <= k < slots@.len() && slots@[k] == slot;
                    assert(selector.selects(sessions[slots@[k]]));
                }
            }
            slots::lemma_sorted(chosen@, set);
        }
        chosen
    }

    /// Removes the sessions in some slots, the last slot first.
    fn remove_slots(&mut self, doomed: Vec<usize>, reason: &'static str)
        requires
            old(self).wf(),
        ensures
            final(self).wf(),
            final(self)@ == old(self)@.removed_all(doomed@, reason@),
    {
        let ghost before = self@;
        let mut left: usize = doomed.len();
        assert(doomed@.take(left as int) =~= doomed@);
        while left > 0
            invariant
                left <= doomed@.len(),
                self.wf(),
                before.removed_all(doomed@, reason@) == self@.removed_all(
                    doomed@.take(left as int),
                    reason@,
                ),
            decreases left,
        {
            left = left - 1;
            assert(doomed@.take(left + 1).drop_last() =~= doomed@.take(left as int));
            self.remove_slot_with_reason(doomed[left], reason);
        }
    }

    /// Removes the sessions that a command is about.
    fn remove_selected(&mut self, selector: &Selector, reason: &'static str)
        requires
            old(self).wf(),
        ensures
            final(self).wf(),
            final(self)@ == old(self)@.removed_all(
                old(self)@.slots_where(|session: SessionView| selector.selects(session)),
                reason@,
            ),
    {
        let doomed = self.selected_slots(selector);
        self.remove_slots(doomed, reason);
    }

    /// Has the session in a slot carry a payload.
    fn queue_send(&mut self, slot: usize, payload: Vec<u8>)
        requires
            old(self).wf(),
        ensures
            final(self).wf(),
            final(self)@ == old(self)@.sending(slot, payload@),
    {
        let ghost before = self@;
        let record_dpi = self.state.dpi.should_record_dpi(
            self.state.dpi_enabled,
            self.state.monotonic_ms,
            payload.as_slice(),
        );
        assert(self@ =~= before.sampled(payload@));
        self.emit(Effect::Send { slot, payload, record_dpi });
    }

    /// Has a session carry a payload.
    pub fn send_plain(&mut self, session_id: u64, payload: Vec<u8>)
        requires
            old(self).wf(),
        ensures
            final(self).wf(),
            final(self)@ == old(self)@.sent_plain(session_id, payload@),
    {
        if let Some(slot) = self.slot_of(session_id) {
            self.queue_send(slot, payload);
        }
    }

    /// Has all sessions carry a payload.
    pub fn broadcast_plain(&mut self, payload: Vec<u8>)
        requires
            old(self).wf(),
        ensures
            final(self).wf(),
            final(self)@ == old(self)@.broadcast(payload@),
    {
        let ghost before = self@;
        let record_dpi = self.state.dpi.should_record_dpi(
            self.state.dpi_enabled,
            self.state.monotonic_ms,
            payload.as_slice(),
        );
        let ghost sampled = self@;
        assert(sampled =~= before.sampled(payload@));
        let slots = slab_slots(&self.sessions);
        proof {
            let set = Set::new(
                |slot: usize| before.sessions.contains_key(slot) && (|session: SessionView| true)(
                    before.sessions[slot],
                ),
            );
            slots::lemma_sorted(slots@, set);
        }
        let ghost sends = |n: nat|
            Seq::new(
                n,
                |i: int|
                    EffectView::Send {
                        slot: slots@[i],
                        payload: payload@,
                        record_dpi: before.shows(payload@),
                    },
            );
        let mut i: usize = 0;
        assert(self@ =~= sampled.emit_all(sends(0)));
        while i < slots.len()
            invariant
                i <= slots@.len(),
                self.wf(),
                record_dpi == before.shows(payload@),
                sends == (|n: nat|
                    Seq::new(
                        n,
                        |i: int|
                            EffectView::Send {
                                slot: slots@[i],
                                payload: payload@,
                                record_dpi: before.shows(payload@),
                            },
                    )),
                self@ == sampled.emit_all(sends(i as nat)),
            decreases slots.len() - i,
        {
            self.emit(
                Effect::Send { slot: slots[i], payload: copy_of(payload.as_slice()), record_dpi },
            );
            i += 1;
            assert(sends(i as nat) =~= sends((i - 1) as nat).push(
                EffectView::Send {
                    slot: slots@[i - 1],
                    payload: payload@,
                    record_dpi: before.shows(payload@),
                },
            ));
            assert(self@ =~= sampled.emit_all(sends(i as nat)));
        }
        assert(self@ =~= before.broadcast(payload@));
    }

    /// Asks for a route to a session, in place of the one that it had.
    pub fn activate_tunnel(
        &mut self,
        session_id: u64,
        ip: [u8; 4],
        registration_id: u64,
        worker_id: u16,
        desired_count: u16,
    )
        requires
            old(self).wf(),
        ensures
            final(self).wf(),
            final(self)@ == old(self)@.activating(
                session_id,
                ip,
                registration_id,
                worker_id,
                desired_count,
            ),
    {
        let slot: usize = match self.slot_of(session_id) {
            Some(slot) => slot,
            None => return ,
        };
        let mut previous_ip: Option<[u8; 4]> = None;
        if let Some(session) = slab_get(&self.sessions, slot) {
            if let (Some(old_ip), Some(old_registration)) = (
                session.tunnel_ip,
                session.registration_id,
            ) {
                previous_ip = Some(old_ip);
                self.emit(Effect::DropRoute { ip: old_ip, registration_id: old_registration });
            }
        }
        self.emit(
            Effect::RegisterRoute(
                RouteRequest {
                    ip,
                    session_id,
                    registration_id,
                    worker_id,
                    slot,
                    desired_count,
                    previous_ip,
                },
            ),
        );
    }

    /// Gives the session in a slot the route that was registered for it.
    fn route_session(&mut self, request: RouteRequest)
        requires
            old(self).wf(),
            old(self)@.sessions.contains_key(request.slot),
        ensures
            final(self).wf(),
            final(self)@ == old(self)@.rerouted(request),
    {
        let ghost before = self@;
        let ghost slab_before = slots::slab_sessions(self.sessions);
        let session = slab_get_mut(&mut self.sessions, request.slot);
        session.tunnel_ip = Some(request.ip);
        session.registration_id = Some(request.registration_id);
        session.desired_stream_count = request.desired_count;
        session.pending_tunnel = false;
        let ghost changed = *session;
        self.state.stream_inventory_dirty = true;
        proof {
            super::lemma_view_insert(slab_before, request.slot, changed);
            assert(self@ =~= before.rerouted(request));
        }
    }

    /// Takes note of whether the route that was asked for was registered.
    pub fn complete_activation(&mut self, request: RouteRequest, registered: bool)
        requires
            old(self).wf(),
        ensures
            final(self).wf(),
            final(self)@ == old(self)@.activated(request, registered),
    {
        match slab_get(&self.sessions, request.slot) {
            Some(session) => if session.id != request.session_id {
                return ;
            },
            None => return ,
        }
        if registered {
            self.route_session(request);
            self.emit(
                Effect::Public(
                    PublicUpdate::Tunnel {
                        session_id: request.session_id,
                        ip: request.ip,
                        desired_count: request.desired_count,
                    },
                ),
            );
        }
        if let Some(old_ip) = request.previous_ip {
            self.emit(Effect::SyncDownlink { ip: old_ip });
        }
        if registered {
            self.emit(Effect::SyncDownlink { ip: request.ip });
            self.emit(Effect::BindTunnel { ip: request.ip });
        }
        assert(self@ =~= old(self)@.activated(request, registered));
    }

    /// Gives a session a device and key.
    #[verifier::rlimit(40)]
    pub fn update_epoch(
        &mut self,
        session_id: u64,
        device_id: String,
        generation_id: u64,
        session_salt: String,
    )
        requires
            old(self).wf(),
        ensures
            final(self).wf(),
            final(self)@ == old(self)@.with_epoch(
                session_id,
                (IdentityView {
                    device_id: device_id@,
                    generation_id,
                    session_salt: session_salt@,
                }),
            ),
    {
        let ghost before = self@;
        let ghost slab_before = slots::slab_sessions(self.sessions);
        let slot: usize = match self.slot_of(session_id) {
            Some(slot) => slot,
            None => return ,
        };
        let session = slab_get_mut(&mut self.sessions, slot);
        let unchanged = same_text(session.device_id.as_str(), device_id.as_str())
            && session.generation_id == generation_id && same_text(
            session.session_salt.as_str(),
            session_salt.as_str(),
        );
        let tunnel_ip = session.tunnel_ip;
        session.device_id = device_id.clone();
        session.generation_id = generation_id;
        session.session_salt = session_salt.clone();
        let ghost changed = *session;
        self.state.stream_inventory_dirty = true;
        proof {
            super::lemma_view_insert(slab_before, slot, changed);
            assert(self@ =~= before.with_session(slot, changed@).with_dirty_inventory());
            assert(unchanged == (before.sessions[slot].identity() =~= (IdentityView {
                device_id: device_id@,
                generation_id,
                session_salt: session_salt@,
            })));
        }
        self.emit(
            Effect::Public(
                PublicUpdate::Epoch { session_id, device_id, generation_id, session_salt },
            ),
        );
        if !unchanged {
            if let Some(ip) = tunnel_ip {
                self.emit(Effect::ClearDownlink { ip });
            }
        }
    }

    /// Takes note of the worker number that the control side has given a session. That is to be
    /// done as soon as it has, before whatever the engine does next.
    pub fn note_worker(&mut self, session_id: u64, worker_id: u16)
        requires
            old(self).wf(),
        ensures
            final(self).wf(),
            final(self)@ == old(self)@.with_worker(session_id, worker_id),
    {
        let ghost before = self@;
        let ghost slab_before = slots::slab_sessions(self.sessions);
        if let Some(slot) = self.slot_of(session_id) {
            let session = slab_get_mut(&mut self.sessions, slot);
            session.worker_id = worker_id as u64;
            let ghost changed = *session;
            proof {
                super::lemma_view_insert(slab_before, slot, changed);
                assert(self@ =~= before.with_worker(session_id, worker_id));
            }
        }
    }

    /// Takes note of whether the data packets of a session are framed.
    pub fn set_data_frames(&mut self, session_id: u64, enabled: bool)
        requires
            old(self).wf(),
        ensures
            final(self).wf(),
            final(self)@ == old(self)@.with_data_frames(session_id, enabled),
    {
        let ghost before = self@;
        let ghost slab_before = slots::slab_sessions(self.sessions);
        if let Some(slot) = self.slot_of(session_id) {
            let session = slab_get_mut(&mut self.sessions, slot);
            session.data_frames = enabled;
            let ghost changed = *session;
            proof {
                super::lemma_view_insert(slab_before, slot, changed);
                assert(self@ =~= before.with_data_frames(session_id, enabled));
            }
        }
    }

    /// Puts a key in force: the sessions of its device that hold another key are removed.
    pub fn set_authoritative_epoch(
        &mut self,
        device_id: String,
        generation_id: u64,
        session_salt: &str,
    )
        requires
            old(self).wf(),
        ensures
            final(self).wf(),
            final(self)@ == old(self)@.with_authority(
                (IdentityView {
                    device_id: device_id@,
                    generation_id,
                    session_salt: session_salt@,
                }),
            ),
    {
        let ghost before = self@;
        let selector = Selector::Retired(device_id.as_str(), generation_id, session_salt);
        self.remove_selected(&selector, "authoritative-epoch-replaced");
        proof {
            let identity = IdentityView {
                device_id: device_id@,
                generation_id,
                session_salt: session_salt@,
            };
            lemma_same_slots(
                before,
                |session: SessionView| selector.selects(session),
                |session: SessionView| epoch::retired_by_epoch(session.identity(), identity),
            );
            lemma_removals_keep_clock(
                before,
                before.slots_where(|session: SessionView| selector.selects(session)),
                "authoritative-epoch-replaced"@,
            );
        }
        self.epochs.insert(device_id, self.state.monotonic_ms);
        self.emit(Effect::PublishEpochs);
        proof {
            let identity = IdentityView {
                device_id: device_id@,
                generation_id,
                session_salt: session_salt@,
            };
            assert(self@ =~= before.with_authority(identity));
        }
    }

    /// Grants a disconnect: the session that asked gets its reply, and the sessions are to be
    /// ended after that, with [`ProtocolEngine::end_device_sessions`].
    pub fn disconnect_device(&mut self, device_id: String, requester_session_id: u64)
        requires
            old(self).wf(),
        ensures
            final(self).wf(),
            final(self)@ == old(self)@.disconnecting(device_id@, requester_session_id),
    {
        self.send_plain(requester_session_id, copy_of(DISCONNECTED_REPLY.as_slice()));
        self.emit(Effect::EndDevice { device_id, requester_session_id });
    }

    /// Ends the sessions of a device, and the session that asked for it.
    pub fn end_device_sessions(&mut self, device_id: &str, requester_session_id: u64)
        requires
            old(self).wf(),
        ensures
            final(self).wf(),
            final(self)@ == old(self)@.disconnected(device_id@, requester_session_id),
    {
        let ghost before = self@;
        let selector = Selector::Ended(requester_session_id, device_id);
        self.remove_selected(&selector, "device-disconnect");
        proof {
            lemma_same_slots(
                before,
                |session: SessionView| selector.selects(session),
                |session: SessionView|
                    session.id == requester_session_id || session.device_id == device_id@,
            );
        }
    }

    /// Puts other credentials in force: sessions without one are removed.
    pub fn replace_credentials(&mut self, credentials: CredentialSet)
        requires
            old(self).wf(),
        ensures
            final(self).wf(),
            final(self)@ == old(self)@.with_credentials(credentials@),
    {
        let ghost before = self@;
        let selector = Selector::Uncredentialed(&credentials);
        self.remove_selected(&selector, "credential-removed");
        proof {
            lemma_same_slots(
                before,
                |session: SessionView| selector.selects(session),
                |session: SessionView| !effect::has_password(credentials@, session.password),
            );
        }
        self.credentials = credentials;
        assert(self@ =~= before.with_credentials(credentials@));
    }

    /// Drops a session.
    pub fn drop_session(&mut self, session_id: u64)
        requires
            old(self).wf(),
        ensures
            final(self).wf(),
            final(self)@ == old(self)@.dropped(session_id),
    {
        if let Some(slot) = self.slot_of(session_id) {
            self.remove_slot_with_reason(slot, "requested-session-drop");
        }
    }

    /// Drops the sessions with a password.
    pub fn drop_password(&mut self, password: &str)
        requires
            old(self).wf(),
        ensures
            final(self).wf(),
            final(self)@ == old(self)@.dropped_password(password@),
    {
        let ghost before = self@;
        let selector = Selector::Password(password);
        self.remove_selected(&selector, "credential-removed");
        proof {
            lemma_same_slots(
                before,
                |session: SessionView| selector.selects(session),
                |session: SessionView| session.password == password@,
            );
        }
    }

    /// Has a packet written to the tunnel device on behalf of a session.
    pub fn inject_tun(&mut self, session_id: u64, payload: Vec<u8>)
        requires
            old(self).wf(),
        ensures
            final(self).wf(),
            final(self)@ == old(self)@.injected(session_id, payload@),
    {
        if let Some(slot) = self.slot_of(session_id) {
            self.emit(Effect::WriteTun { slot, payload });
        }
    }
}

impl EngineView {
    /// The engine once it has taken over a session from another shard.
    pub open spec fn adopted(
        self,
        slot: usize,
        session: SessionView,
        payload: Seq<u8>,
    ) -> EngineView {
        self.with_listed(slot, session).with_dirty_inventory().emit_all(
            super::creation_effects(session, payload),
        )
    }

    /// `after` is the engine once a command was carried out.
    pub open spec fn obeyed(self, command: CommandView, after: EngineView) -> bool {
        match command {
            CommandView::AdoptSession { session, initial_payload } => exists|slot: usize|
                {
                    &&& !self.sessions.contains_key(slot)
                    &&& after == #[trigger] self.adopted(slot, session, initial_payload)
                },
            CommandView::SendPlain { session_id, payload } => after == self.sent_plain(
                session_id,
                payload,
            ),
            CommandView::BroadcastPlain { payload } => after == self.broadcast(payload),
            CommandView::ActivateTunnel {
                session_id,
                ip,
                registration_id,
                worker_id,
                desired_count,
            } => after == self.activating(
                session_id,
                ip,
                registration_id,
                worker_id,
                desired_count,
            ),
            CommandView::InjectTun { session_id, payload } => after == self.injected(
                session_id,
                payload,
            ),
            CommandView::UpdateEpoch { session_id, device_id, generation_id, session_salt } =>
                after == self.with_epoch(
                    session_id,
                    IdentityView { device_id, generation_id, session_salt },
                ),
            CommandView::SetDataFrames { session_id, enabled } => after == self.with_data_frames(
                session_id,
                enabled,
            ),
            CommandView::SetAuthoritativeEpoch { device_id, generation_id, session_salt } => after
                == self.with_authority(IdentityView { device_id, generation_id, session_salt }),
            CommandView::DisconnectDevice { device_id, requester_session_id } => after
                == self.disconnecting(device_id, requester_session_id),
            CommandView::ReplaceCredentials(credentials) => after == self.with_credentials(
                credentials,
            ),
            CommandView::DropSession { session_id } => after == self.dropped(session_id),
            CommandView::DropPassword { password } => after == self.dropped_password(password),
            CommandView::CompactMemory { request } => exists|compacted: EngineView|
                {
                    &&& #[trigger] self.compacted(compacted, true)
                    &&& after == compacted.emit(EffectView::Compacted { request })
                },
        }
    }
}

/// What is to be done once a route was given up: where it was the active one, the session
/// that can take it over does.
pub open spec fn release_effects(
    ip: [u8; 4],
    fallback: Option<RouteFallback>,
    was_active: bool,
) -> Seq<EffectView> {
    let adoption = match fallback {
        Some(taker) if was_active => seq![
            EffectView::AdoptRoute { ip, taker },
            EffectView::Public(
                UpdateView::HasTunnel { session_id: taker.session_id, has_tunnel: true },
            ),
        ],
        _ => Seq::empty(),
    };
    adoption + seq![EffectView::SyncDownlink { ip }]
}

/// What is to be done once a route was given up.
pub fn after_release(ip: [u8; 4], fallback: Option<RouteFallback>, was_active: bool) -> (effects:
    Vec<Effect>)
    ensures
        effect::effect_views(effects@) == release_effects(ip, fallback, was_active),
{
    let mut effects: Vec<Effect> = Vec::new();
    if was_active {
        if let Some(taker) = fallback {
            effects.push(Effect::AdoptRoute { ip, taker });
            effects.push(
                Effect::Public(
                    PublicUpdate::HasTunnel { session_id: taker.session_id, has_tunnel: true },
                ),
            );
        }
    }
    effects.push(Effect::SyncDownlink { ip });
    assert(effect::effect_views(effects@) =~= release_effects(ip, fallback, was_active));
    effects
}

impl ProtocolEngine {
    /// Carries a command out. What is left behind is to be carried out before the next
    /// command.
    pub fn on_command(&mut self, command: ProtocolCommand)
        requires
            old(self).wf(),
            command.wf(),
        ensures
            final(self).wf(),
            old(self)@.obeyed(command@, final(self)@),
    {
        let ghost before = self@;
        match command {
            ProtocolCommand::AdoptSession { session, initial_payload } => {
                let ghost adopted = (*session)@;
                let slot: usize = self.adopt_session(*session, initial_payload);
                assert(self@ == before.adopted(slot, adopted, initial_payload@));
            },
            ProtocolCommand::SendPlain { session_id, payload } => {
                self.send_plain(session_id, payload);
            },
            ProtocolCommand::BroadcastPlain { payload } => {
                self.broadcast_plain(payload);
            },
            ProtocolCommand::ActivateTunnel {
                session_id,
                ip,
                registration_id,
                worker_id,
                desired_count,
            } => {
                self.activate_tunnel(session_id, ip, registration_id, worker_id, desired_count);
            },
            ProtocolCommand::InjectTun { session_id, payload } => {
                self.inject_tun(session_id, payload);
            },
            ProtocolCommand::UpdateEpoch { session_id, device_id, generation_id, session_salt } => {
                self.update_epoch(session_id, device_id, generation_id, session_salt);
            },
            ProtocolCommand::SetDataFrames { session_id, enabled } => {
                self.set_data_frames(session_id, enabled);
            },
            ProtocolCommand::SetAuthoritativeEpoch { device_id, generation_id, session_salt } => {
                self.set_authoritative_epoch(device_id, generation_id, session_salt.as_str());
            },
            ProtocolCommand::DisconnectDevice { device_id, requester_session_id } => {
                self.disconnect_device(device_id, requester_session_id);
            },
            ProtocolCommand::ReplaceCredentials(credentials) => {
                self.replace_credentials(credentials);
            },
            ProtocolCommand::DropSession { session_id } => {
                self.drop_session(session_id);
            },
            ProtocolCommand::DropPassword { password } => {
                self.drop_password(password.as_str());
            },
            ProtocolCommand::CompactMemory { request } => {
                self.compact_memory(true);
                assert(before.compacted(self@, true));
                self.emit(Effect::Compacted { request });
            },
        }
    }
}

/// Removing the sessions in some slots removes those and leaves the others as they were.
pub proof fn removals_are_exact(engine: EngineView, slots: Seq<usize>, reason: Seq<char>)
    ensures
        engine.removed_all(slots, reason).sessions == engine.sessions.remove_keys(slots.to_set()),
    decreases slots.len(),
{
    if slots.len() > 0 {
        let slot = slots.last();
        let rest = engine.removed(slot, reason);
        assert(rest.sessions =~= engine.sessions.remove(slot));
        removals_are_exact(rest, slots.drop_last(), reason);
        assert forall|s: usize| slots.contains(s) <==> slots.drop_last().contains(s) || s
            == slot by {
            if slots.contains(s) && s != slot {
                let i = choose|i: int| 0 <= i < slots.len() && slots[i] == s;
                assert(slots.drop_last()[i] == s);
            }
            if slots.drop_last().contains(s) {
                let i = choose|i: int| 0 <= i < slots.drop_last().len() && slots.drop_last()[i] == s;
                assert(slots[i] == s);
            }
            assert(slots[slots.len() - 1] == slot);
        }
        assert(engine.removed_all(slots, reason).sessions =~= engine.sessions.remove_keys(
            slots.to_set(),
        ));
    } else {
        assert(engine.sessions.remove_keys(slots.to_set()) =~= engine.sessions);
    }
}

/// Removing the sessions of which a condition holds leaves those of which it does not.
proof fn lemma_chosen_removed(
    engine: EngineView,
    chosen: spec_fn(SessionView) -> bool,
    reason: Seq<char>,
)
    ensures
        ({
            let after = engine.removed_all(engine.slots_where(chosen), reason).sessions;
            forall|slot: usize|
                #![trigger after.contains_key(slot)]
                #![trigger after[slot]]
                (after.contains_key(slot) <==> engine.sessions.contains_key(slot) && !chosen(
                    engine.sessions[slot],
                )) && (after.contains_key(slot) ==> after[slot] == engine.sessions[slot])
        }),
{
    let set = Set::new(
        |slot: usize| engine.sessions.contains_key(slot) && chosen(engine.sessions[slot]),
    );
    slots::lemma_sorted_lists(set);
    removals_are_exact(engine, engine.slots_where(chosen), reason);
}

/// Once a key is in force, the sessions of its device hold that key, and no other session was
/// touched.
pub proof fn a_key_in_force_retires_the_others(
    engine: EngineView,
    identity: IdentityView,
    slot: usize,
)
    ensures
        engine.with_authority(identity).sessions.contains_key(slot) <==> (
        engine.sessions.contains_key(slot) && (engine.sessions[slot].device_id
            == identity.device_id ==> engine.sessions[slot].identity() == identity)),
        engine.with_authority(identity).sessions.contains_key(slot)
            ==> engine.with_authority(identity).sessions[slot] == engine.sessions[slot],
{
    let chosen = |session: SessionView| epoch::retired_by_epoch(session.identity(), identity);
    let after = engine.removed_all(
        engine.slots_where(chosen),
        "authoritative-epoch-replaced"@,
    ).sessions;
    lemma_chosen_removed(engine, chosen, "authoritative-epoch-replaced"@);
    assert(after == engine.with_authority(identity).sessions);
    assert(engine.sessions.contains_key(slot) ==> (chosen(engine.sessions[slot]) <==> (
    engine.sessions[slot].device_id == identity.device_id && engine.sessions[slot].identity()
        != identity))) by {
        if engine.sessions[slot].identity() =~= identity {
        }
    }
    assert(after.contains_key(slot) <==> engine.sessions.contains_key(slot) && !chosen(
        engine.sessions[slot],
    ));
}

/// A disconnect ends the session that asked and those of the device, and no others.
pub proof fn a_disconnect_ends_the_device(
    engine: EngineView,
    device_id: Seq<char>,
    requester: u64,
    slot: usize,
)
    ensures
        engine.disconnected(device_id, requester).sessions.contains_key(slot) <==> (
        engine.sessions.contains_key(slot) && engine.sessions[slot].id != requester
            && engine.sessions[slot].device_id != device_id),
        engine.disconnected(device_id, requester).sessions.contains_key(slot)
            ==> engine.disconnected(device_id, requester).sessions[slot] == engine.sessions[slot],
{
    let chosen = |session: SessionView|
        session.id == requester || session.device_id == device_id;
    lemma_chosen_removed(engine, chosen, "device-disconnect"@);
    let after = engine.disconnected(device_id, requester).sessions;
    assert(after == engine.removed_all(
        engine.slots_where(chosen),
        "device-disconnect"@,
    ).sessions);
    assert(after.contains_key(slot) <==> engine.sessions.contains_key(slot) && !chosen(
        engine.sessions[slot],
    ));
}

/// Once other credentials are in force, all sessions have one of them, and those that do were
/// not touched.
pub proof fn sessions_need_a_credential(
    engine: EngineView,
    credentials: Seq<CredentialView>,
    slot: usize,
)
    ensures
        engine.with_credentials(credentials).sessions.contains_key(slot) <==> (
        engine.sessions.contains_key(slot) && effect::has_password(
            credentials,
            engine.sessions[slot].password,
        )),
        engine.with_credentials(credentials).sessions.contains_key(slot)
            ==> engine.with_credentials(credentials).sessions[slot] == engine.sessions[slot],
{
    let chosen = |session: SessionView| !effect::has_password(credentials, session.password);
    lemma_chosen_removed(engine, chosen, "credential-removed"@);
    let after = engine.with_credentials(credentials).sessions;
    assert(after == engine.removed_all(
        engine.slots_where(chosen),
        "credential-removed"@,
    ).sessions);
    assert(after.contains_key(slot) <==> engine.sessions.contains_key(slot) && !chosen(
        engine.sessions[slot],
    ));
}

/// Conditions that agree on all sessions choose the same slots.
pub(super) proof fn lemma_same_slots(
    engine: EngineView,
    left: spec_fn(SessionView) -> bool,
    right: spec_fn(SessionView) -> bool,
)
    requires
        forall|session: SessionView| #[trigger] left(session) == right(session),
    ensures
        engine.slots_where(left) == engine.slots_where(right),
{
    assert(Set::new(
        |slot: usize| engine.sessions.contains_key(slot) && left(engine.sessions[slot]),
    ) =~= Set::new(
        |slot: usize| engine.sessions.contains_key(slot) && right(engine.sessions[slot]),
    ));
}

/// Removing sessions does not move the clock.
proof fn lemma_removals_keep_clock(engine: EngineView, slots: Seq<usize>, reason: Seq<char>)
    ensures
        engine.removed_all(slots, reason).state.monotonic_ms == engine.state.monotonic_ms,
        engine.removed_all(slots, reason).epochs == engine.epochs,
    decreases slots.len(),
{
    if slots.len() > 0 {
        lemma_removals_keep_clock(
            engine.removed(slots.last(), reason),
            slots.drop_last(),
            reason,
        );
    }
}

} // verus!
