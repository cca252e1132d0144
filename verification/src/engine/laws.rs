//! What holds of an engine across packets and shards.
use super::{Delivery, EngineView, SessionStart};
use crate::effect::{EffectView, EventView};
use crate::endpoint::{EndpointKey, IpAddress};
use crate::replay;
use crate::session::SessionView;
use vstd::prelude::*;

verus! {

impl EngineView {
    /// Every session can be found: it is listed under its endpoint and its identifier.
    pub open spec fn complete(self) -> bool {
        forall|slot: usize| #[trigger]
            self.sessions.contains_key(slot) ==> {
                let session = self.sessions[slot];
                &&& self.by_peer.contains_key(session.endpoint())
                &&& self.by_peer[session.endpoint()] == slot
                &&& self.by_id.contains_key(session.id)
                &&& self.by_id[session.id] == slot
            }
    }
}

/// Where every session can be found, no two sessions have the same endpoint or the same
/// identifier.
pub proof fn sessions_are_told_apart(engine: EngineView, left: usize, right: usize)
    requires
        engine.complete(),
        engine.sessions.contains_key(left),
        engine.sessions.contains_key(right),
        left != right,
    ensures
        engine.sessions[left].endpoint() != engine.sessions[right].endpoint(),
        engine.sessions[left].id != engine.sessions[right].id,
{
}

/// Where every session can be found, that stays so when one is removed.
pub proof fn removal_leaves_sessions_listed(engine: EngineView, slot: usize, reason: Seq<char>)
    requires
        engine.complete(),
    ensures
        engine.removed(slot, reason).complete(),
{
    let after = engine.removed(slot, reason);
    if engine.sessions.contains_key(slot) {
        assert forall|other: usize| #[trigger] after.sessions.contains_key(other) implies {
            let session = after.sessions[other];
            &&& after.by_peer.contains_key(session.endpoint())
            &&& after.by_peer[session.endpoint()] == other
            &&& after.by_id.contains_key(session.id)
            &&& after.by_id[session.id] == other
        } by {
            sessions_are_told_apart(engine, slot, other);
        }
    }
}

/// A new session takes the place of the one that was at its endpoint, and every session can
/// be found afterwards: a client that starts over leaves no phantom behind.
pub proof fn handshakes_leave_no_phantoms(engine: EngineView, slot: usize, session: SessionView)
    requires
        engine.valid(),
        engine.complete(),
        !engine.by_id.contains_key(session.id),
        !engine.vacated(session.endpoint()).sessions.contains_key(slot),
    ensures
        engine.created(slot, session).complete(),
        engine.created(slot, session).sessions[slot] == session,
        engine.by_peer.contains_key(session.endpoint()) && engine.by_peer[session.endpoint()]
            != slot ==> !engine.created(slot, session).sessions.contains_key(
            engine.by_peer[session.endpoint()],
        ),
{
    let key = session.endpoint();
    let vacated = engine.vacated(key);
    if engine.by_peer.contains_key(key) {
        removal_leaves_sessions_listed(engine, engine.by_peer[key], "peer-replaced"@);
    }
    let after = engine.created(slot, session);
    assert forall|other: usize| #[trigger] after.sessions.contains_key(other) implies {
        let found = after.sessions[other];
        &&& after.by_peer.contains_key(found.endpoint())
        &&& after.by_peer[found.endpoint()] == other
        &&& after.by_id.contains_key(found.id)
        &&& after.by_id[found.id] == other
    } by {
        if other != slot {
            assert(vacated.sessions.contains_key(other));
            let found = vacated.sessions[other];
            assert(vacated.by_peer[found.endpoint()] == other);
            assert(vacated.by_id.contains_key(found.id));
            assert(!vacated.by_peer.contains_key(key));
            assert(engine.by_id.contains_key(found.id));
        }
    }
}

/// A packet that was delivered is not delivered again when it comes a second time.
pub proof fn packets_are_delivered_once(
    first: EngineView,
    slot: usize,
    packet: Seq<u8>,
    local_ip: Option<IpAddress>,
    start: SessionStart,
    second: EngineView,
    packet_after: Seq<u8>,
    delivery: Option<Delivery>,
    local_ip_again: Option<IpAddress>,
    start_again: SessionStart,
    third: EngineView,
    packet_after_again: Seq<u8>,
    delivery_again: Option<Delivery>,
)
    requires
        first.sessions.contains_key(slot),
        first.sessions[slot].replay.valid(),
        super::received(first, slot, local_ip, packet, start, second, packet_after, delivery),
        delivery is Some,
        super::received(
            second,
            slot,
            local_ip_again,
            packet,
            start_again,
            third,
            packet_after_again,
            delivery_again,
        ),
    ensures
        delivery_again is None,
        third.sessions == second.sessions,
{
    let unwrapped = first.decoded(slot, packet)->Ok_0;
    let session = first.sessions[slot];
    replay::duplicates_are_refused(session.replay, unwrapped.seq as u16);
    assert(second.sessions[slot].replay == session.replay.after(unwrapped.seq as u16));
    assert(second.sessions[slot].identity() == session.identity());
}

/// A packet that the key of its session does not open changes nothing.
pub proof fn forged_packets_change_nothing(
    before: EngineView,
    slot: usize,
    packet: Seq<u8>,
    local_ip: Option<IpAddress>,
    start: SessionStart,
    after: EngineView,
    packet_after: Seq<u8>,
    delivery: Option<Delivery>,
)
    requires
        before.decoded(slot, packet) is Err,
        super::received(before, slot, local_ip, packet, start, after, packet_after, delivery),
    ensures
        after == before,
        delivery is None,
{
}

/// A packet that no credential opens as a request for a configuration sets nothing up: the
/// sessions stay as they are, and the control side is told nothing.
pub proof fn strangers_set_nothing_up(
    before: EngineView,
    endpoint: EndpointKey,
    wire: Seq<u8>,
    start: SessionStart,
    after: EngineView,
    i: int,
)
    requires
        super::setup_credential(before.credentials, wire, 0) is None,
        super::met(before, endpoint, wire, start, after),
    ensures
        after.sessions == before.sessions,
        after.by_peer == before.by_peer,
        after.by_id == before.by_id,
        after.effects.len() <= before.effects.len() + 1,
        before.effects.len() <= i < after.effects.len() ==> after.effects[i]
            == (EffectView::ReportRejectedSetup {
            peer: endpoint.peer,
            wire_len: wire.len() as usize,
        }),
{
}

/// A session that another shard owns goes there as it is, and the control side hears of it
/// from that shard only.
pub proof fn sessions_move_whole(
    engine: EngineView,
    slot: usize,
    payload: Seq<u8>,
    owner: EngineView,
    new_slot: usize,
)
    requires
        engine.sessions.contains_key(slot),
        super::owner_shard(engine.sessions[slot].device_id, engine.shard_count)
            != engine.shard_index,
    ensures
        ({
            let session = engine.sessions[slot];
            let after = engine.placed(slot, payload);
            let target = super::owner_shard(session.device_id, engine.shard_count) as usize;
            let adopted = owner.adopted(new_slot, session, payload);
            &&& !after.sessions.contains_key(slot)
            &&& after.is_migrating(session.peer, session.local_ip)
            &&& after.effects == engine.effects.push(
                EffectView::Migrate { target, session, payload },
            )
            &&& adopted.sessions[new_slot] == session
            &&& adopted.by_id[session.id] == new_slot
            &&& adopted.by_peer[session.endpoint()] == new_slot
            &&& adopted.effects.last() == EffectView::Control(
                EventView::Payload { address: session.peer, session_id: session.id, payload },
            )
        }),
{
}

} // verus!
