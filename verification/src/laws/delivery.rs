//! What becomes of the packets that clients send.
use crate::control;
use crate::effect::{EffectView, EventView, NoteView};
use crate::endpoint::{EndpointKey, IpAddress, PeerAddress};
use crate::engine;
use crate::engine::{Delivery, EngineState, EngineView, SessionStart};
use crate::getconf;
use crate::replay::ReplayView;
use crate::session::SessionView;
use crate::wire;
use crate::wire::Unwrapped;
use vstd::prelude::*;

verus! {

/// `head` stands at the start of `data`.
pub open spec fn begins(data: Seq<u8>, head: Seq<u8>) -> bool {
    data.len() >= head.len() && data.take(head.len() as int) == head
}

/// `GETCONF:`.
pub open spec fn getconf_mark() -> Seq<u8> {
    seq![0x47u8, 0x45u8, 0x54u8, 0x43u8, 0x4fu8, 0x4eu8, 0x46u8, 0x3au8]
}

/// `DISCONNECT:`.
pub open spec fn disconnect_mark() -> Seq<u8> {
    seq![
        0x44u8,
        0x49u8,
        0x53u8,
        0x43u8,
        0x4fu8,
        0x4eu8,
        0x4eu8,
        0x45u8,
        0x43u8,
        0x54u8,
        0x3au8,
    ]
}

/// `READY`.
pub open spec fn ready_word() -> Seq<u8> {
    seq![0x52u8, 0x45u8, 0x41u8, 0x44u8, 0x59u8]
}

/// `READY_OK`.
pub open spec fn ready_answer() -> Seq<u8> {
    seq![0x52u8, 0x45u8, 0x41u8, 0x44u8, 0x59u8, 0x5fu8, 0x4fu8, 0x4bu8]
}

/// The byte 0xff, and then `CSQTT_LEASE`.
pub open spec fn lease() -> Seq<u8> {
    seq![
        0xffu8,
        0x43u8,
        0x53u8,
        0x51u8,
        0x54u8,
        0x54u8,
        0x5fu8,
        0x4cu8,
        0x45u8,
        0x41u8,
        0x53u8,
        0x45u8,
    ]
}

/// The payload asks something of the control side.
pub open spec fn is_request(plain: Seq<u8>) -> bool {
    begins(plain, getconf_mark()) || begins(plain, disconnect_mark())
}

/// The payload says nothing: it is made of the byte 0xff, or is short and starts with it.
pub open spec fn says_nothing(plain: Seq<u8>) -> bool {
    ||| plain.len() > 0 && forall|i: int| 0 <= i < plain.len() ==> #[trigger] plain[i] == 0xff
    ||| 4 <= plain.len() <= 9 && plain[0] == 0xff
}

/// The payload is a packet for the network.
pub open spec fn is_data(plain: Seq<u8>) -> bool {
    &&& !is_request(plain)
    &&& plain != ready_word()
    &&& plain.len() == 0 || plain[0] != 0xff
}

pub(crate) proof fn lemma_marks(plain: Seq<u8>)
    ensures
        control::GETCONF_PREFIX@ == getconf_mark(),
        control::DISCONNECT_PREFIX@ == disconnect_mark(),
        control::READY@ == ready_word(),
        control::READY_OK@ == ready_answer(),
        control::SESSION_LEASE@ == lease(),
        begins(plain, getconf_mark()) ==> plain[0] == 0x47,
        begins(plain, disconnect_mark()) ==> plain[0] == 0x44,
        is_request(plain) ==> plain != ready_word(),
        control::idle_keepalive(plain) <==> says_nothing(plain),
        control::control_payload(plain) <==> is_request(plain) || plain == ready_word() || (
        plain.len() > 0 && plain[0] == 0xff),
        says_nothing(plain) ==> plain.len() > 0 && plain[0] == 0xff,
        ready_word().len() == 5 && ready_word()[0] == 0x52,
{
    assert(control::GETCONF_PREFIX@ =~= getconf_mark());
    assert(control::DISCONNECT_PREFIX@ =~= disconnect_mark());
    assert(control::READY@ =~= ready_word());
    assert(control::READY_OK@ =~= ready_answer());
    assert(control::SESSION_LEASE@ =~= lease());
    if begins(plain, getconf_mark()) {
        assert(plain.take(8)[0] == getconf_mark()[0]);
    }
    if begins(plain, disconnect_mark()) {
        assert(plain.take(11)[0] == disconnect_mark()[0]);
    }
    assert(ready_word()[0] == 0x52);
    assert(plain.take(8) =~= plain.subrange(0, 8));
    assert(plain.take(11) =~= plain.subrange(0, 11));
}

/// What observers are shown of a packet that came for a session.
pub open spec fn note_of(
    session: SessionView,
    carried: Seq<u8>,
    seq: u16,
    payload_type: u8,
    wire_len: usize,
) -> EffectView {
    EffectView::RecordDpi(
        NoteView {
            inbound: true,
            peer: session.peer,
            payload_type,
            seq: seq as u64,
            plain: carried,
            wire_len,
            device_id: session.device_id,
            generation_id: session.generation_id,
            session_salt: session.session_salt,
        },
    )
}

/// The payload without the header of its flow.
pub open spec fn carried(plain: Seq<u8>, header: Option<usize>) -> Seq<u8> {
    match header {
        Some(len) => plain.skip(len as int),
        None => plain,
    }
}

/// Besides what it may have shown to observers, the engine has left behind these effects. It
/// shows nothing unless it is to.
pub open spec fn leaves(
    before: EngineView,
    after: EngineView,
    note: EffectView,
    effects: Seq<EffectView>,
) -> bool {
    ||| after.effects == before.effects + effects
    ||| before.state.dpi_enabled && after.effects == before.effects + seq![note] + effects
}

/// Nothing but the effects, and what the engine knows of what it has shown, may have changed.
pub open spec fn else_unchanged(before: EngineView, after: EngineView) -> bool {
    after == EngineView {
        effects: after.effects,
        state: EngineState { dpi: after.state.dpi, ..before.state },
        ..before
    }
}

/// A request that came for a session goes to the control side, once, with the session's number
/// and address and byte for byte. Besides, it is shown to observers at most.
pub proof fn requests_reach_the_control_side(
    engine: EngineView,
    slot: usize,
    plain: Seq<u8>,
    header: Option<usize>,
    seq: u16,
    payload_type: u8,
    wire_len: usize,
)
    requires
        engine.sessions.contains_key(slot),
        is_request(plain),
        header matches Some(len) ==> len <= plain.len(),
    ensures
        ({
            let session = engine.sessions[slot];
            let after = engine.delivered(slot, plain, header, seq, payload_type, wire_len);
            &&& leaves(
                engine,
                after,
                note_of(session, carried(plain, header), seq, payload_type, wire_len),
                seq![
                    EffectView::Control(
                        EventView::Payload {
                            address: session.peer,
                            session_id: session.id,
                            payload: plain,
                        },
                    ),
                ],
            )
            &&& else_unchanged(engine, after)
        }),
{
    lemma_marks(plain);
    lemma_shown(engine, slot, plain, header, seq, payload_type, wire_len);
}

pub(crate) proof fn lemma_shown(
    engine: EngineView,
    slot: usize,
    plain: Seq<u8>,
    header: Option<usize>,
    seq: u16,
    payload_type: u8,
    wire_len: usize,
)
    requires
        header matches Some(len) ==> len <= plain.len(),
    ensures
        ({
            let session = engine.sessions[slot];
            let part = carried(plain, header);
            let note = note_of(session, part, seq, payload_type, wire_len);
            let seen = engine.inspected(slot, payload_type, seq as u64, part, wire_len);
            &&& part == plain.subrange(
                match header {
                    Some(len) => len as int,
                    None => 0,
                },
                plain.len() as int,
            )
            &&& else_unchanged(engine, seen)
            &&& seen.effects == engine.effects + (if engine.shows(part) {
                seq![note]
            } else {
                Seq::empty()
            })
            &&& engine.shows(part) ==> engine.state.dpi_enabled
            &&& forall|effect: EffectView|
                #![trigger seen.effects.push(effect)]
                leaves(engine, seen.emit(effect), note, seq![effect])
            &&& leaves(engine, seen, note, Seq::empty())
        }),
{
    let session = engine.sessions[slot];
    let part = carried(plain, header);
    let note = note_of(session, part, seq, payload_type, wire_len);
    let seen = engine.inspected(slot, payload_type, seq as u64, part, wire_len);
    assert(part =~= plain.subrange(
        match header {
            Some(len) => len as int,
            None => 0,
        },
        plain.len() as int,
    ));
    if engine.shows(part) {
        assert(seen.effects =~= engine.effects + seq![note]);
        assert(seen.effects =~= engine.effects + seq![note] + Seq::<EffectView>::empty());
    } else {
        assert(seen.effects =~= engine.effects + Seq::<EffectView>::empty());
    }
    assert forall|effect: EffectView| #![trigger seen.effects.push(effect)] leaves(
        engine,
        seen.emit(effect),
        note,
        seq![effect],
    ) by {
        if engine.shows(part) {
            assert(seen.effects.push(effect) =~= engine.effects + seq![note] + seq![effect]);
        } else {
            assert(seen.effects.push(effect) =~= engine.effects + seq![effect]);
        }
    }
}

/// A client that asks whether its session is up is answered over that session, and nobody else
/// is told.
pub proof fn ready_is_answered(
    engine: EngineView,
    slot: usize,
    plain: Seq<u8>,
    header: Option<usize>,
    seq: u16,
    payload_type: u8,
    wire_len: usize,
)
    requires
        engine.sessions.contains_key(slot),
        plain == ready_word(),
        header matches Some(len) ==> len <= plain.len(),
    ensures
        ({
            let note = note_of(
                engine.sessions[slot],
                carried(plain, header),
                seq,
                payload_type,
                wire_len,
            );
            let after = engine.delivered(slot, plain, header, seq, payload_type, wire_len);
            let answer = after.effects.last();
            &&& answer == EffectView::Send {
                slot,
                payload: ready_answer(),
                record_dpi: answer->record_dpi,
            }
            &&& leaves(engine, after, note, seq![answer])
            &&& else_unchanged(engine, after)
        }),
{
    lemma_marks(plain);
    lemma_shown(engine, slot, plain, header, seq, payload_type, wire_len);
}

/// A payload that says nothing makes the engine do nothing.
pub proof fn keepalives_are_silent(
    engine: EngineView,
    slot: usize,
    plain: Seq<u8>,
    header: Option<usize>,
    seq: u16,
    payload_type: u8,
    wire_len: usize,
)
    requires
        engine.sessions.contains_key(slot),
        says_nothing(plain),
        header matches Some(len) ==> len <= plain.len(),
    ensures
        ({
            let note = note_of(
                engine.sessions[slot],
                carried(plain, header),
                seq,
                payload_type,
                wire_len,
            );
            let after = engine.delivered(slot, plain, header, seq, payload_type, wire_len);
            &&& leaves(engine, after, note, Seq::empty())
            &&& else_unchanged(engine, after)
        }),
{
    lemma_marks(plain);
    lemma_shown(engine, slot, plain, header, seq, payload_type, wire_len);
}

/// Other payloads that start with the byte 0xff go to the control side as requests do.
pub proof fn binary_messages_reach_the_control_side(
    engine: EngineView,
    slot: usize,
    plain: Seq<u8>,
    header: Option<usize>,
    seq: u16,
    payload_type: u8,
    wire_len: usize,
)
    requires
        engine.sessions.contains_key(slot),
        plain.len() > 0,
        plain[0] == 0xff,
        !says_nothing(plain),
        header matches Some(len) ==> len <= plain.len(),
    ensures
        ({
            let session = engine.sessions[slot];
            let after = engine.delivered(slot, plain, header, seq, payload_type, wire_len);
            &&& leaves(
                engine,
                after,
                note_of(session, carried(plain, header), seq, payload_type, wire_len),
                seq![
                    EffectView::Control(
                        EventView::Payload {
                            address: session.peer,
                            session_id: session.id,
                            payload: plain,
                        },
                    ),
                ],
            )
            &&& else_unchanged(engine, after)
        }),
{
    lemma_marks(plain);
    lemma_shown(engine, slot, plain, header, seq, payload_type, wire_len);
}

/// A packet for the network that came for a session with a route is written to the tunnel
/// device as it is, or, where it is a frame of a flow and not too long, put in order with its
/// flow. A frame that is too long is lost.
pub proof fn data_goes_through_the_tunnel(
    engine: EngineView,
    slot: usize,
    plain: Seq<u8>,
    header: Option<usize>,
    seq: u16,
    payload_type: u8,
    wire_len: usize,
)
    requires
        engine.sessions.contains_key(slot),
        engine.sessions[slot].tunnel_ip is Some,
        engine.sessions[slot].registration_id is Some,
        is_data(plain),
        header matches Some(len) ==> len <= plain.len(),
    ensures
        ({
            let note = note_of(
                engine.sessions[slot],
                carried(plain, header),
                seq,
                payload_type,
                wire_len,
            );
            let after = engine.delivered(slot, plain, header, seq, payload_type, wire_len);
            &&& header is None ==> leaves(
                engine,
                after,
                note,
                seq![EffectView::WriteTun { slot, payload: plain }],
            )
            &&& header matches Some(len) ==> if plain.len() - len <= engine.packet_capacity {
                leaves(engine, after, note, seq![EffectView::Reassemble { slot, frame: plain }])
            } else {
                leaves(engine, after, note, Seq::empty())
            }
            &&& else_unchanged(engine, after)
        }),
{
    lemma_marks(plain);
    lemma_shown(engine, slot, plain, header, seq, payload_type, wire_len);
}

/// The first packet for the network that comes for a session without a route makes the control
/// side see to a route: it gets the packet, to be sent on later. The engine remembers that, and
/// further packets are lost until the route is there.
pub proof fn data_before_the_tunnel_asks_for_it(
    engine: EngineView,
    slot: usize,
    plain: Seq<u8>,
    header: Option<usize>,
    seq: u16,
    payload_type: u8,
    wire_len: usize,
)
    requires
        engine.sessions.contains_key(slot),
        engine.sessions[slot].tunnel_ip is None || engine.sessions[slot].registration_id is None,
        is_data(plain),
        header matches Some(len) ==> len <= plain.len(),
    ensures
        ({
            let session = engine.sessions[slot];
            let part = carried(plain, header);
            let note = note_of(session, part, seq, payload_type, wire_len);
            let after = engine.delivered(slot, plain, header, seq, payload_type, wire_len);
            &&& session.pending_tunnel ==> leaves(engine, after, note, Seq::empty())
                && else_unchanged(engine, after)
            &&& !session.pending_tunnel ==> {
                &&& leaves(
                    engine,
                    after,
                    note,
                    seq![
                        EffectView::Control(
                            EventView::IngressBeforeTunnel {
                                address: session.peer,
                                session_id: session.id,
                                payload: part,
                            },
                        ),
                    ],
                )
                &&& after.sessions == engine.sessions.insert(
                    slot,
                    SessionView { pending_tunnel: true, ..session },
                )
                &&& else_unchanged(
                    engine,
                    (EngineView { sessions: engine.sessions, ..after }),
                )
            }
        }),
{
    lemma_marks(plain);
    lemma_shown(engine, slot, plain, header, seq, payload_type, wire_len);
}

/// What comes for a session that is gone is lost.
pub proof fn late_packets_are_lost(
    engine: EngineView,
    slot: usize,
    plain: Seq<u8>,
    header: Option<usize>,
    seq: u16,
    payload_type: u8,
    wire_len: usize,
)
    requires
        !engine.sessions.contains_key(slot),
    ensures
        engine.delivered(slot, plain, header, seq, payload_type, wire_len) == engine,
{
}

/// The number has not been seen by a window, and is not too old for it: it is the first, or
/// ahead of the highest by less than half the circle, or at most 16 383 behind it and not
/// among those seen.
pub open spec fn unseen(window: ReplayView, seq: u16) -> bool {
    match window.highest {
        None => true,
        Some(highest) => {
            ||| 0 < (seq - highest) % 65536 < 32768
            ||| (highest - seq) % 65536 < 16384 && !window.window.contains(seq)
        },
    }
}

/// A number is accepted if and only if it was not seen and is not too old. It has then been
/// seen; the highest number grows with it; and of those seen before all are kept that are at
/// most 16 383 behind.
pub proof fn windows_admit_the_unseen(window: ReplayView, seq: u16, other: u16)
    requires
        window.highest is None ==> window.window == Set::<u16>::empty(),
        window.highest matches Some(highest) ==> forall|s: u16| #[trigger]
            window.window.contains(s) ==> (highest - s) % 65536 < 16384,
    ensures
        window.accepts(seq) <==> unseen(window, seq),
        unseen(window, seq) ==> window.after(seq).window.contains(seq),
        !unseen(window, seq) ==> window.after(seq) == window,
        window.highest is None ==> window.after(seq).highest == Some(seq),
        window.highest matches Some(highest) ==> window.after(seq).highest == Some(
            if 0 < (seq - highest) % 65536 < 32768 {
                seq
            } else {
                highest
            },
        ),
        other != seq ==> (window.after(seq).window.contains(other) <==> window.window.contains(
            other,
        ) && (window.after(seq).highest->0 - other) % 65536 < 16384),
{
}

/// A packet of a session that its key opens, that is no request and whose number is new, is
/// delivered, whole, and the session has been heard from. The session moves with the local
/// address that the packet came to; nothing else changes.
pub proof fn new_packets_are_delivered(
    before: EngineView,
    slot: usize,
    local_ip: Option<IpAddress>,
    packet: Seq<u8>,
    start: SessionStart,
    after: EngineView,
    packet_after: Seq<u8>,
    delivery: Option<Delivery>,
    unwrapped: Unwrapped,
)
    requires
        before.sessions.contains_key(slot),
        wire::decode(before.sessions[slot].key, packet, Some(before.sessions[slot].is_srtp))
            == Ok::<Unwrapped, wire::UnwrapError>(unwrapped),
        0 <= unwrapped.seq < 65536,
        !begins(unwrapped.plain, getconf_mark()),
        unseen(before.sessions[slot].replay, unwrapped.seq as u16),
        engine::received(
            before,
            slot,
            local_ip,
            packet,
            start,
            after,
            packet_after,
            delivery,
        ),
    ensures
        ({
            let session = before.sessions[slot];
            let moved = local_ip is Some && local_ip != session.local_ip;
            let heard = after.sessions[slot];
            &&& delivery is Some <==> unwrapped.plain != lease()
            &&& delivery matches Some(found) ==> {
                &&& found.slot == slot
                &&& found.seq == unwrapped.seq
                &&& found.payload_type == unwrapped.payload_type
                &&& packet_after.subrange(found.range.start as int, found.range.end as int)
                    == unwrapped.plain
            }
            &&& after.sessions == before.sessions.insert(slot, heard)
            &&& heard == (SessionView {
                last_inbound_ms: before.state.monotonic_ms,
                replay: session.replay.after(unwrapped.seq as u16),
                local_ip: if moved {
                    local_ip
                } else {
                    session.local_ip
                },
                ..session
            })
            &&& moved ==> {
                &&& after.effects == before.effects.push(
                    EffectView::BindEndpoint { peer: session.peer, local_ip },
                )
                &&& after.by_peer == before.by_peer.remove(
                    EndpointKey { peer: session.peer, local_ip: session.local_ip },
                ).insert(EndpointKey { peer: session.peer, local_ip }, slot)
            }
            &&& !moved ==> after.effects == before.effects && after.by_peer == before.by_peer
            &&& after.by_id == before.by_id
            &&& after.epochs == before.epochs
            &&& after.credentials == before.credentials
            &&& after.migrating == before.migrating
        }),
{
    lemma_marks(unwrapped.plain);
    let session = before.sessions[slot];
    assert(unwrapped.plain.take(8) =~= unwrapped.plain.subrange(0, 8));
    assert(session.replay.accepts(unwrapped.seq as u16));
}

/// A packet whose number was seen, or is too old, is not delivered, and its session does not
/// hear of it.
pub proof fn old_packets_are_dropped(
    before: EngineView,
    slot: usize,
    local_ip: Option<IpAddress>,
    packet: Seq<u8>,
    start: SessionStart,
    after: EngineView,
    packet_after: Seq<u8>,
    delivery: Option<Delivery>,
    unwrapped: Unwrapped,
)
    requires
        before.sessions.contains_key(slot),
        wire::decode(before.sessions[slot].key, packet, Some(before.sessions[slot].is_srtp))
            == Ok::<Unwrapped, wire::UnwrapError>(unwrapped),
        0 <= unwrapped.seq < 65536,
        !begins(unwrapped.plain, getconf_mark()),
        before.sessions[slot].replay.highest is Some,
        !unseen(before.sessions[slot].replay, unwrapped.seq as u16),
        engine::received(
            before,
            slot,
            local_ip,
            packet,
            start,
            after,
            packet_after,
            delivery,
        ),
    ensures
        delivery is None,
        after.sessions == before.sessions,
        after.effects == before.effects,
        after.by_peer == before.by_peer,
        after.by_id == before.by_id,
        after.epochs == before.epochs,
{
    lemma_marks(unwrapped.plain);
    assert(unwrapped.plain.take(8) =~= unwrapped.plain.subrange(0, 8));
    assert(!before.sessions[slot].replay.accepts(unwrapped.seq as u16));
}

/// The device and key that a payload asks for.
pub open spec fn asked_for(plain: Seq<u8>) -> (Seq<char>, u64, Seq<char>) {
    let epoch = getconf::payload_epoch(plain)->0;
    (epoch.0, epoch.1 as u64, epoch.2)
}

/// A request for a configuration that names the device and key of its session is delivered as
/// any other packet; its device has been heard of. One that cannot be read is dropped.
pub proof fn requests_are_delivered_to_their_session(
    before: EngineView,
    slot: usize,
    local_ip: Option<IpAddress>,
    packet: Seq<u8>,
    start: SessionStart,
    after: EngineView,
    packet_after: Seq<u8>,
    delivery: Option<Delivery>,
    unwrapped: Unwrapped,
    device_id: Seq<char>,
)
    requires
        before.sessions.contains_key(slot),
        wire::decode(before.sessions[slot].key, packet, Some(before.sessions[slot].is_srtp))
            == Ok::<Unwrapped, wire::UnwrapError>(unwrapped),
        0 <= unwrapped.seq < 65536,
        begins(unwrapped.plain, getconf_mark()),
        engine::received(
            before,
            slot,
            local_ip,
            packet,
            start,
            after,
            packet_after,
            delivery,
        ),
    ensures
        ({
            let session = before.sessions[slot];
            let own = asked_for(unwrapped.plain) == (
                session.device_id,
                session.generation_id,
                session.session_salt,
            );
            &&& getconf::payload_epoch(unwrapped.plain) is None ==> {
                &&& delivery is None
                &&& after.sessions == before.sessions
                &&& after.effects == before.effects
                &&& after.epochs == before.epochs
            }
            &&& getconf::payload_epoch(unwrapped.plain) is Some && own ==> {
                &&& delivery is Some <==> unseen(session.replay, unwrapped.seq as u16)
                &&& delivery matches Some(found) ==> packet_after.subrange(
                    found.range.start as int,
                    found.range.end as int,
                ) == unwrapped.plain && found.slot == slot
                &&& delivery is Some ==> after.sessions[slot].last_inbound_ms
                    == before.state.monotonic_ms
                &&& delivery is None ==> after.sessions == before.sessions
                &&& after.sessions.dom() == before.sessions.dom()
                &&& after.epochs.contains_key(device_id) <==> before.epochs.contains_key(device_id)
                &&& before.epochs.contains_key(device_id) ==> after.epochs[device_id] == if device_id
                    == session.device_id {
                    before.state.monotonic_ms
                } else {
                    before.epochs[device_id]
                }
            }
        }),
{
    lemma_marks(unwrapped.plain);
    assert(unwrapped.plain.take(8) =~= unwrapped.plain.subrange(0, 8));
    let session = before.sessions[slot];
    assert(unwrapped.plain != lease()) by {
        assert(lease()[0] == 0xff);
    }
    if getconf::payload_epoch(unwrapped.plain) is Some {
        let epoch = asked_for(unwrapped.plain);
        if epoch == (session.device_id, session.generation_id, session.session_salt) {
            assert(engine::requested_identity(unwrapped) =~= session.identity());
            assert(session.replay.accepts(unwrapped.seq as u16) <==> unseen(
                session.replay,
                unwrapped.seq as u16,
            ));
            assert(after.sessions.dom() =~= before.sessions.dom());
        }
    }
}

/// A packet goes to the session that is at its endpoint, with or without the local address
/// that it came to.
pub proof fn packets_find_their_session(
    engine: EngineView,
    peer: PeerAddress,
    local_ip: Option<IpAddress>,
)
    ensures
        engine.by_peer.contains_key((EndpointKey { peer, local_ip })) ==> engine.addressee(
            peer,
            local_ip,
        ) == Some(engine.by_peer[EndpointKey { peer, local_ip }]),
        !engine.by_peer.contains_key((EndpointKey { peer, local_ip })) && engine.by_peer.contains_key(
            (EndpointKey { peer, local_ip: None }),
        ) ==> engine.addressee(peer, local_ip) == Some(
            engine.by_peer[EndpointKey { peer, local_ip: None }],
        ),
        !engine.by_peer.contains_key((EndpointKey { peer, local_ip }))
            && !engine.by_peer.contains_key((EndpointKey { peer, local_ip: None }))
            ==> engine.addressee(peer, local_ip) is None,
        engine.is_migrating(peer, local_ip) <==> engine.migrating.contains_key(
            (EndpointKey { peer, local_ip }),
        ) || engine.migrating.contains_key((EndpointKey { peer, local_ip: None })),
{
}

} // verus!
