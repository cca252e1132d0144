//! How packets get down to the clients, and what is put off on the way.
use crate::class::PacketClass;
use crate::control;
use crate::engine;
use crate::engine::downlink;
use crate::engine::downlink::RouteEndpoint;
use crate::engine::EngineView;
use crate::epoch;
use crate::epoch::IdentityView;
use crate::laws::delivery::{begins, disconnect_mark, getconf_mark, ready_answer, ready_word};
use crate::tun;
use crate::tun::{FaultCodes, IoFault, TunWriteState, WriteOutcome};
use vstd::prelude::*;

verus! {

/// The session that the route names is there, and has kept the route.
pub open spec fn still_leads(engine: EngineView, endpoint: RouteEndpoint) -> bool {
    &&& engine.sessions.contains_key(endpoint.slot)
    &&& engine.sessions[endpoint.slot].id == endpoint.session_id
    &&& engine.sessions[endpoint.slot].registration_id == Some(endpoint.registration_id)
}

/// A packet takes the first route that still leads to its session, whatever comes after it;
/// it stays only where no route does.
pub proof fn packets_take_the_first_route(
    engine: EngineView,
    endpoints: Seq<RouteEndpoint>,
    first: nat,
)
    requires
        first <= endpoints.len(),
        forall|i: int| 0 <= i < first ==> !still_leads(engine, #[trigger] endpoints[i]),
        first < endpoints.len() ==> still_leads(engine, endpoints[first as int]),
    ensures
        engine.first_live_from(endpoints, 0) == if first < endpoints.len() {
            Some(endpoints[first as int])
        } else {
            None
        },
{
    lemma_route_from(engine, endpoints, first, 0);
}

proof fn lemma_route_from(
    engine: EngineView,
    endpoints: Seq<RouteEndpoint>,
    first: nat,
    from: int,
)
    requires
        0 <= from <= first <= endpoints.len(),
        forall|i: int| 0 <= i < first ==> !still_leads(engine, #[trigger] endpoints[i]),
        first < endpoints.len() ==> still_leads(engine, endpoints[first as int]),
    ensures
        engine.first_live_from(endpoints, from) == if first < endpoints.len() {
            Some(endpoints[first as int])
        } else {
            None
        },
    decreases first - from,
{
    if from < first {
        assert(!still_leads(engine, endpoints[from]));
        lemma_route_from(engine, endpoints, first, from + 1);
    }
}

/// Small packets go down first, those of middling size next, and large ones last.
pub proof fn classes_take_turns()
    ensures
        downlink::next_class(PacketClass::Small) == Some(PacketClass::Medium),
        downlink::next_class(PacketClass::Medium) == Some(PacketClass::Bulk),
        downlink::next_class(PacketClass::Bulk) is None,
{
}

/// `TUNCONF:`.
pub open spec fn tunconf_mark() -> Seq<u8> {
    seq![0x54u8, 0x55u8, 0x4eu8, 0x43u8, 0x4fu8, 0x4eu8, 0x46u8, 0x3au8]
}

/// `DENIED:`.
pub open spec fn denied_mark() -> Seq<u8> {
    seq![0x44u8, 0x45u8, 0x4eu8, 0x49u8, 0x45u8, 0x44u8, 0x3au8]
}

/// The byte 0xff, and then `CSQTT_STREAM_`.
pub open spec fn stream_mark() -> Seq<u8> {
    seq![
        0xffu8,
        0x43u8,
        0x53u8,
        0x51u8,
        0x54u8,
        0x54u8,
        0x5fu8,
        0x53u8,
        0x54u8,
        0x52u8,
        0x45u8,
        0x41u8,
        0x4du8,
        0x5fu8,
    ]
}

/// What opens a request to repair streams: the mark, and then `REPAIR_V1`.
pub open spec fn repair_mark() -> Seq<u8> {
    stream_mark() + seq![0x52u8, 0x45u8, 0x50u8, 0x41u8, 0x49u8, 0x52u8, 0x5fu8, 0x56u8, 0x31u8]
}

/// What opens the notice that streams are alive again: the mark, and then `ALIVE_V1`.
pub open spec fn alive_mark() -> Seq<u8> {
    stream_mark() + seq![0x41u8, 0x4cu8, 0x49u8, 0x56u8, 0x45u8, 0x5fu8, 0x56u8, 0x31u8]
}

/// The notice that the panel restarts: 0xff, `CSQTT_PANEL_RESTART_V1`, a zero byte, and
/// 0x91, 0x7d, 0x03, 0xa8.
pub open spec fn restart_notice() -> Seq<u8> {
    seq![
        0xffu8,
        0x43u8,
        0x53u8,
        0x51u8,
        0x54u8,
        0x54u8,
        0x5fu8,
        0x50u8,
        0x41u8,
        0x4eu8,
        0x45u8,
        0x4cu8,
        0x5fu8,
        0x52u8,
        0x45u8,
        0x53u8,
        0x54u8,
        0x41u8,
        0x52u8,
        0x54u8,
        0x5fu8,
        0x56u8,
        0x31u8,
        0x00u8,
        0x91u8,
        0x7du8,
        0x03u8,
        0xa8u8,
    ]
}

pub(crate) proof fn lemma_marks(payload: Seq<u8>)
    ensures
        control::GETCONF_PREFIX@ == getconf_mark(),
        control::TUNCONF_PREFIX@ == tunconf_mark(),
        control::DENIED_PREFIX@ == denied_mark(),
        control::DISCONNECT_PREFIX@ == disconnect_mark(),
        control::STREAM_REPAIR_PREFIX@ == repair_mark(),
        control::STREAM_ALIVE_PREFIX@ == alive_mark(),
        control::PANEL_RESTART_NOTICE@ == restart_notice(),
        control::READY@ == ready_word(),
        control::READY_OK@ == ready_answer(),
        forall|head: Seq<u8>| #[trigger]
            crate::bytes::has_prefix(payload, head) == begins(payload, head),
{
    assert(control::GETCONF_PREFIX@ =~= getconf_mark());
    assert(control::TUNCONF_PREFIX@ =~= tunconf_mark());
    assert(control::DENIED_PREFIX@ =~= denied_mark());
    assert(control::DISCONNECT_PREFIX@ =~= disconnect_mark());
    assert(control::STREAM_REPAIR_PREFIX@ =~= repair_mark());
    assert(control::STREAM_ALIVE_PREFIX@ =~= alive_mark());
    assert(control::PANEL_RESTART_NOTICE@ =~= restart_notice());
    assert(control::READY@ =~= ready_word());
    assert(control::READY_OK@ =~= ready_answer());
    assert forall|head: Seq<u8>| #[trigger]
        crate::bytes::has_prefix(payload, head) == begins(payload, head) by {
        if payload.len() >= head.len() {
            assert(payload.take(head.len() as int) =~= payload.subrange(0, head.len() as int));
        }
    }
}

/// Requests, answers to them, messages on streams and notices are sent at once; everything
/// else may wait for more.
pub proof fn messages_do_not_wait(payload: Seq<u8>)
    ensures
        control::flushed_at_once(payload) <==> begins(payload, getconf_mark()) || begins(
            payload,
            tunconf_mark(),
        ) || begins(payload, denied_mark()) || begins(payload, disconnect_mark()) || begins(
            payload,
            repair_mark(),
        ) || begins(payload, alive_mark()) || payload == ready_word() || payload == ready_answer()
            || payload == restart_notice(),
{
    lemma_marks(payload);
}

/// All sessions of a device have the same owner among the shards, and it is one of them.
pub proof fn devices_have_one_owner(
    left: IdentityView,
    right: IdentityView,
    shard_count: usize,
)
    requires
        left.device_id == right.device_id,
    ensures
        engine::owner_shard(left.device_id, shard_count) == engine::owner_shard(
            right.device_id,
            shard_count,
        ),
        0 <= engine::owner_shard(left.device_id, shard_count),
        shard_count > 0 ==> engine::owner_shard(left.device_id, shard_count) < shard_count,
        shard_count <= 1 ==> engine::owner_shard(left.device_id, shard_count) == 0,
{
}

/// A session ends when another key of its device comes into force, and for no other reason
/// that has to do with keys.
pub proof fn keys_retire_sessions(session: IdentityView, in_force: IdentityView)
    ensures
        epoch::retired_by_epoch(session, in_force) <==> session.device_id == in_force.device_id && (
        session.generation_id != in_force.generation_id || session.session_salt
            != in_force.session_salt),
{
}

/// The hash by which devices are spread over the shards takes in one byte after the other:
/// it starts from a fixed number, and each byte is mixed in and the sum multiplied.
pub proof fn hashes_take_in_every_byte(data: Seq<u8>, byte: u8)
    ensures
        epoch::fnv1a(Seq::empty()) == 0xcbf2_9ce4_8422_2325,
        epoch::fnv1a(data.push(byte)) == ((epoch::fnv1a(data) ^ (byte as u64))
            * 0x100_0000_01b3) % 0x1_0000_0000_0000_0000,
{
    assert(data.push(byte).drop_last() =~= data);
    let mixed = epoch::fnv1a(data) ^ (byte as u64);
    assert(mixed.wrapping_mul(0x100_0000_01b3u64) == (mixed * 0x100_0000_01b3)
        % 0x1_0000_0000_0000_0000);
}

/// The fault has this number.
pub open spec fn is_fault(fault: IoFault, code: i32) -> bool {
    fault.code == Some(code)
}

/// A packet for the tunnel device is written on as long as the device takes some of it, and is
/// done when all of it was written. One that is not ready is waited for; where memory is short
/// there is a pause; an interruption gives others their turn; and a device that is gone, that
/// takes nothing or that fails in another way is given up.
pub proof fn writes_go_on(
    count: usize,
    fault: IoFault,
    written: usize,
    len: usize,
    codes: FaultCodes,
)
    ensures
        ({
            let short = is_fault(fault, codes.enobufs) || is_fault(fault, codes.enomem);
            let gone = is_fault(fault, codes.eio) || is_fault(fault, codes.ebadf) || is_fault(
                fault,
                codes.enodev,
            );
            let wrote = tun::write_state(WriteOutcome::Wrote(count), written, len, codes);
            let failed = tun::write_state(WriteOutcome::Fault(fault), written, len, codes);
            &&& tun::write_state(WriteOutcome::NotReady, written, len, codes) is Wait
            &&& wrote is Failed <==> count == 0
            &&& wrote is Complete <==> count > 0 && written + count == len
            &&& wrote is Continue <==> count > 0 && written + count != len
            &&& failed is Backoff <==> short
            &&& failed is Yield <==> !short && (fault.interrupted || fault.would_block)
            &&& failed is Closed <==> !short && !fault.interrupted && !fault.would_block && gone
            &&& failed is Failed <==> !short && !fault.interrupted && !fault.would_block && !gone
        }),
{
}

} // verus!
