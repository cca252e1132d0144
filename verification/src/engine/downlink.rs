//! How packets from the tunnel device go down to the clients.
use super::{EngineView, ProtocolEngine};
use crate::class::PacketClass;
use crate::session::FecProfile;
use crate::slots;
use crate::slots::{slab_get, slab_get_mut};
use vstd::prelude::*;

verus! {

/// How many packets go down before others get their turn.
pub const DOWNLINK_DRAIN_PACKET_LIMIT: usize = 128;

/// A route to a session.
#[derive(Clone, Copy, Debug)]
pub struct RouteEndpoint {
    pub slot: usize,
    pub session_id: u64,
    pub registration_id: u64,
}

/// What came of an attempt to send a packet down.
#[derive(Clone, Copy, Debug, PartialEq, Eq, Structural)]
pub enum DownlinkSend {
    /// It was sent.
    Sent,
    /// There is no session for it.
    Stale,
    /// There is no room for it now.
    Backpressured,
}

/// How a packet goes down.
#[derive(Clone, Copy, Debug)]
pub struct DownlinkPlan {
    pub slot: usize,
    /// Whether the packet goes with the header of its flow.
    pub framed: bool,
    pub record_dpi: bool,
}

impl EngineView {
    /// The route leads to a session that still has it.
    pub open spec fn is_live(self, endpoint: RouteEndpoint) -> bool {
        let session = self.sessions[endpoint.slot];
        &&& self.sessions.contains_key(endpoint.slot)
        &&& session.id == endpoint.session_id
        &&& session.registration_id == Some(endpoint.registration_id)
    }

    /// The first of the routes, from number `from` on, that leads to a session.
    pub open spec fn first_live_from(self, endpoints: Seq<RouteEndpoint>, from: int) -> Option<
        RouteEndpoint,
    >
        decreases endpoints.len() - from,
    {
        if from < 0 || from >= endpoints.len() {
            None
        } else if self.is_live(endpoints[from]) {
            Some(endpoints[from])
        } else {
            self.first_live_from(endpoints, from + 1)
        }
    }
}

impl ProtocolEngine {
    fn leads_to_session(&self, endpoint: &RouteEndpoint) -> (live: bool)
        ensures
            live == self@.is_live(*endpoint),
    {
        match slab_get(&self.sessions, endpoint.slot) {
            Some(session) => session.id == endpoint.session_id && match session.registration_id {
                Some(registration_id) => registration_id == endpoint.registration_id,
                None => false,
            },
            None => false,
        }
    }

    /// Plans how a packet goes down: over the first of the routes that leads to a session.
    /// `payload` is the packet without the header of its flow. `None` where no route does.
    pub fn plan_down(&mut self, endpoints: &Vec<RouteEndpoint>, payload: &[u8]) -> (plan: Option<
        DownlinkPlan,
    >)
        requires
            old(self).wf(),
        ensures
            final(self).wf(),
            match old(self)@.first_live_from(endpoints@, 0) {
                None => plan is None && final(self)@ == old(self)@,
                Some(endpoint) => {
                    &&& plan matches Some(made)
                    &&& made.slot == endpoint.slot
                    &&& made.framed == old(self)@.sessions[endpoint.slot].data_frames
                    &&& made.record_dpi == old(self)@.shows(payload@)
                    &&& final(self)@ == old(self)@.sampled(payload@)
                },
            },
    {
        let ghost before = self@;
        let mut i: usize = 0;
        while i < endpoints.len()
            invariant
                i <= endpoints@.len(),
                self.wf(),
                self@ == before,
                before == old(self)@,
                before.first_live_from(endpoints@, 0) == before.first_live_from(
                    endpoints@,
                    i as int,
                ),
            decreases endpoints.len() - i,
        {
            let endpoint = endpoints[i];
            if self.leads_to_session(&endpoint) {
                let framed = match slab_get(&self.sessions, endpoint.slot) {
                    Some(session) => session.data_frames,
                    None => false,
                };
                let record_dpi = self.state.dpi.should_record_dpi(
                    self.state.dpi_enabled,
                    self.state.monotonic_ms,
                    payload,
                );
                assert(self@ =~= before.sampled(payload@));
                return Some(DownlinkPlan { slot: endpoint.slot, framed, record_dpi });
            }
            i += 1;
        }
        None
    }

    /// Takes note of whether a packet whose payload is `len` bytes long went down.
    pub fn finish_down(&mut self, slot: usize, len: usize, sent: bool) -> (result: DownlinkSend)
        requires
            old(self).wf(),
        ensures
            final(self).wf(),
            result == if sent {
                DownlinkSend::Sent
            } else {
                DownlinkSend::Backpressured
            },
            final(self)@ == if sent && old(self)@.sessions.contains_key(slot) {
                old(self)@.with_session(
                    slot,
                    old(self)@.sessions[slot].carried_down(
                        len as u64,
                        old(self)@.state.debug_enabled,
                    ),
                )
            } else {
                old(self)@
            },
    {
        let ghost before = self@;
        if !sent {
            return DownlinkSend::Backpressured;
        }
        if slab_get(&self.sessions, slot).is_some() {
            let ghost slab_before = slots::slab_sessions(self.sessions);
            let debug_enabled = self.state.debug_enabled;
            let session = slab_get_mut(&mut self.sessions, slot);
            session.record_down(len as u64, debug_enabled);
            let ghost changed = *session;
            proof {
                super::lemma_view_insert(slab_before, slot, changed);
                assert(self@ =~= before.with_session(slot, changed@));
            }
        }
        DownlinkSend::Sent
    }
}

/// What is to be done next while packets go down.
#[derive(Clone, Copy, Debug, PartialEq, Eq, Structural)]
pub enum DrainStep {
    /// Take a packet of this class out of its queue.
    Dequeue(PacketClass),
    /// That is enough for now.
    Stop,
}

/// What is to be done with a packet that was taken out of its queue.
#[derive(Clone, Copy, Debug, PartialEq, Eq, Structural)]
pub enum DrainSettlement {
    /// It is done with.
    Recycle,
    /// It goes back to the front, and that is enough for now.
    Requeue,
}

/// Sends packets down, the most urgent first, as long as there is room and not too many at
/// once.
#[derive(Clone, Copy, Debug, PartialEq, Eq, Structural)]
pub struct DownlinkDrain {
    /// The class whose queue is emptied now; `None` when all were.
    pub class: Option<PacketClass>,
    /// How many more packets may go.
    pub remaining: usize,
}

/// The class that comes after another.
pub open spec fn next_class(class: PacketClass) -> Option<PacketClass> {
    match class {
        PacketClass::Small => Some(PacketClass::Medium),
        PacketClass::Medium => Some(PacketClass::Bulk),
        PacketClass::Bulk => None,
    }
}

impl DownlinkDrain {
    /// Starts with the most urgent packets.
    pub fn new() -> (drain: DownlinkDrain)
        ensures
            drain == (DownlinkDrain {
                class: Some(PacketClass::Small),
                remaining: DOWNLINK_DRAIN_PACKET_LIMIT,
            }),
    {
        DownlinkDrain { class: Some(PacketClass::Small), remaining: DOWNLINK_DRAIN_PACKET_LIMIT }
    }

    /// What is to be done next, given whether there is room for a packet.
    pub fn step(&self, has_room: bool) -> (step: DrainStep)
        ensures
            step == match self.class {
                Some(class) if self.remaining != 0 && has_room => DrainStep::Dequeue(class),
                _ => DrainStep::Stop,
            },
    {
        match self.class {
            Some(class) => if self.remaining != 0 && has_room {
                DrainStep::Dequeue(class)
            } else {
                DrainStep::Stop
            },
            None => DrainStep::Stop,
        }
    }

    /// Takes note that the queue of the class is empty.
    pub fn class_is_empty(&mut self)
        ensures
            *final(self) == (DownlinkDrain {
                class: match old(self).class {
                    Some(class) => next_class(class),
                    None => None,
                },
                ..*old(self)
            }),
    {
        self.class = match self.class {
            Some(PacketClass::Small) => Some(PacketClass::Medium),
            Some(PacketClass::Medium) => Some(PacketClass::Bulk),
            _ => None,
        };
    }

    /// Takes note of what came of an attempt to send a packet down.
    pub fn settle(&mut self, result: DownlinkSend) -> (settlement: DrainSettlement)
        requires
            old(self).remaining > 0,
        ensures
            match result {
                DownlinkSend::Backpressured => settlement == DrainSettlement::Requeue
                    && *final(self) == *old(self),
                _ => settlement == DrainSettlement::Recycle && *final(self) == (DownlinkDrain {
                    remaining: (old(self).remaining - 1) as usize,
                    ..*old(self)
                }),
            },
    {
        match result {
            DownlinkSend::Backpressured => DrainSettlement::Requeue,
            _ => {
                self.remaining = self.remaining - 1;
                DrainSettlement::Recycle
            },
        }
    }
}

/// Whether the budget for duplicates is to be asked before a packet is sent: only where the
/// profile has duplicates and the packet is worth one.
pub fn wants_duplicate(profile: FecProfile, worth_it: bool) -> (ask: bool)
    ensures
        ask == (profile == FecProfile::Safe && worth_it),
{
    profile == FecProfile::Safe && worth_it
}

} // verus!
