//! Control payloads: what they look like and how they are told apart.
use crate::bytes;
use crate::bytes::{push_bytes, push_u16_be, push_u64_be, same_bytes, starts_with};
use vstd::prelude::*;

verus! {

/// `GETCONF:`, which opens a client's request for its configuration.
pub const GETCONF_PREFIX: [u8; 8] = [
    0x47, 0x45, 0x54, 0x43, 0x4f, 0x4e, 0x46, 0x3a,
];

/// `TUNCONF:`, which opens the configuration sent in reply.
pub const TUNCONF_PREFIX: [u8; 8] = [
    0x54, 0x55, 0x4e, 0x43, 0x4f, 0x4e, 0x46, 0x3a,
];

/// `DENIED:`, which opens a refusal.
pub const DENIED_PREFIX: [u8; 7] = [
    0x44, 0x45, 0x4e, 0x49, 0x45, 0x44, 0x3a,
];

/// `DISCONNECT:`, which opens a client's request to end its sessions.
pub const DISCONNECT_PREFIX: [u8; 11] = [
    0x44, 0x49, 0x53, 0x43, 0x4f, 0x4e, 0x4e, 0x45, 0x43, 0x54, 0x3a,
];

/// `READY`, by which a client asks whether its session is up.
pub const READY: [u8; 5] = [
    0x52, 0x45, 0x41, 0x44, 0x59,
];

/// `READY_OK`, the reply to `READY`.
pub const READY_OK: [u8; 8] = [
    0x52, 0x45, 0x41, 0x44, 0x59, 0x5f, 0x4f, 0x4b,
];

/// `OK:disconnected`, the reply to a granted disconnect.
pub const DISCONNECTED_REPLY: [u8; 15] = [
    0x4f, 0x4b, 0x3a, 0x64, 0x69, 0x73, 0x63, 0x6f, 0x6e, 0x6e, 0x65, 0x63, 0x74, 0x65, 0x64,
];

/// The message that keeps a session alive: 0xff, then `CSQTT_LEASE`.
pub const SESSION_LEASE: [u8; 12] = [
    0xff, 0x43, 0x53, 0x51, 0x54, 0x54, 0x5f, 0x4c, 0x45, 0x41, 0x53, 0x45,
];

/// The notice that the panel restarts: 0xff, `CSQTT_PANEL_RESTART_V1`, a zero byte and a mark.
pub const PANEL_RESTART_NOTICE: [u8; 28] = [
    0xff, 0x43, 0x53, 0x51, 0x54, 0x54, 0x5f, 0x50, 0x41, 0x4e, 0x45, 0x4c, 0x5f, 0x52, 0x45,
    0x53, 0x54, 0x41, 0x52, 0x54, 0x5f, 0x56, 0x31, 0x00, 0x91, 0x7d, 0x03, 0xa8,
];

/// What opens a request to repair streams: 0xff, then `CSQTT_STREAM_REPAIR_V1`.
pub const STREAM_REPAIR_PREFIX: [u8; 23] = [
    0xff, 0x43, 0x53, 0x51, 0x54, 0x54, 0x5f, 0x53, 0x54, 0x52, 0x45, 0x41, 0x4d, 0x5f, 0x52,
    0x45, 0x50, 0x41, 0x49, 0x52, 0x5f, 0x56, 0x31,
];

/// What opens a notice that streams are alive again: 0xff, then `CSQTT_STREAM_ALIVE_V1`.
pub const STREAM_ALIVE_PREFIX: [u8; 22] = [
    0xff, 0x43, 0x53, 0x51, 0x54, 0x54, 0x5f, 0x53, 0x54, 0x52, 0x45, 0x41, 0x4d, 0x5f, 0x41,
    0x4c, 0x49, 0x56, 0x45, 0x5f, 0x56, 0x31,
];

/// The byte that fills keep-alive packets and opens binary control messages.
pub const KEEPALIVE_BYTE: u8 = 0xff;

/// The most worker identifiers that one stream message lists.
pub const MAX_LISTED_WORKERS: usize = 255;

/// The payload is a control message, to be handled outside the data path.
pub open spec fn control_payload(payload: Seq<u8>) -> bool {
    ||| bytes::has_prefix(payload, GETCONF_PREFIX@)
    ||| bytes::has_prefix(payload, DISCONNECT_PREFIX@)
    ||| payload == READY@
    ||| payload.len() > 0 && payload[0] == KEEPALIVE_BYTE
}

/// The payload only keeps the session alive.
pub open spec fn idle_keepalive(payload: Seq<u8>) -> bool {
    ||| payload.len() > 0 && forall|i: int|
        0 <= i < payload.len() ==> #[trigger] payload[i] == KEEPALIVE_BYTE
    ||| 4 <= payload.len() <= 9 && payload[0] == KEEPALIVE_BYTE
}

/// The payload is sent without waiting for more.
pub open spec fn flushed_at_once(payload: Seq<u8>) -> bool {
    ||| bytes::has_prefix(payload, GETCONF_PREFIX@)
    ||| bytes::has_prefix(payload, TUNCONF_PREFIX@)
    ||| bytes::has_prefix(payload, DENIED_PREFIX@)
    ||| bytes::has_prefix(payload, DISCONNECT_PREFIX@)
    ||| bytes::has_prefix(payload, STREAM_REPAIR_PREFIX@)
    ||| bytes::has_prefix(payload, STREAM_ALIVE_PREFIX@)
    ||| payload == READY@
    ||| payload == READY_OK@
    ||| payload == PANEL_RESTART_NOTICE@
}

/// Whether `payload` is a control message.
pub fn is_control_payload(payload: &[u8]) -> (control: bool)
    ensures
        control == control_payload(payload@),
{
    starts_with(payload, GETCONF_PREFIX.as_slice()) || starts_with(
        payload,
        DISCONNECT_PREFIX.as_slice(),
    ) || same_bytes(payload, READY.as_slice()) || (payload.len() > 0 && payload[0]
        == KEEPALIVE_BYTE)
}

/// Whether `payload` only keeps the session alive: nothing but the keep-alive byte, or that
/// byte at the head of a short packet.
pub fn is_idle_keepalive(payload: &[u8]) -> (idle: bool)
    ensures
        idle == idle_keepalive(payload@),
{
    if payload.len() == 0 {
        return false;
    }
    if payload.len() >= 4 && payload.len() <= 9 && payload[0] == KEEPALIVE_BYTE {
        return true;
    }
    all_keepalive_bytes(payload)
}

/// Whether every byte of `payload` is the keep-alive byte.
pub fn all_keepalive_bytes(payload: &[u8]) -> (all: bool)
    ensures
        all == (forall|i: int|
            0 <= i < payload@.len() ==> #[trigger] payload@[i] == KEEPALIVE_BYTE),
{
    let mut i: usize = 0;
    while i < payload.len()
        invariant
            i <= payload.len(),
            forall|j: int| 0 <= j < i ==> #[trigger] payload@[j] == KEEPALIVE_BYTE,
        decreases payload.len() - i,
    {
        if payload[i] != KEEPALIVE_BYTE {
            return false;
        }
        i += 1;
    }
    true
}

/// Whether `payload` is to be sent without waiting for more.
pub fn should_flush_udp_immediately(payload: &[u8]) -> (flush: bool)
    ensures
        flush == flushed_at_once(payload@),
{
    starts_with(payload, GETCONF_PREFIX.as_slice()) || starts_with(
        payload,
        TUNCONF_PREFIX.as_slice(),
    ) || starts_with(payload, DENIED_PREFIX.as_slice()) || starts_with(
        payload,
        DISCONNECT_PREFIX.as_slice(),
    ) || starts_with(payload, STREAM_REPAIR_PREFIX.as_slice()) || starts_with(
        payload,
        STREAM_ALIVE_PREFIX.as_slice(),
    ) || same_bytes(payload, READY.as_slice()) || same_bytes(payload, READY_OK.as_slice())
        || same_bytes(payload, PANEL_RESTART_NOTICE.as_slice())
}

/// The big-endian bytes of `ids`, one after the other.
pub open spec fn id_bytes(ids: Seq<u16>) -> Seq<u8> {
    Seq::new(ids.len() * 2, |i: int| bytes::u16_be(ids[i / 2])[i % 2])
}

/// How many of `len` identifiers a stream message lists.
pub open spec fn listed(len: nat) -> nat {
    if len < MAX_LISTED_WORKERS {
        len
    } else {
        MAX_LISTED_WORKERS as nat
    }
}

/// A stream message: prefix, sequence number, stream count, and the list of workers it is
/// about, behind its length.
pub open spec fn stream_message(
    prefix: Seq<u8>,
    sequence: u64,
    desired_count: u16,
    worker_ids: Seq<u16>,
) -> Seq<u8> {
    let count = listed(worker_ids.len());
    prefix + bytes::u64_be(sequence) + bytes::u16_be(desired_count) + seq![count as u8] + id_bytes(
        worker_ids.subrange(0, count as int),
    )
}

/// Lays out a stream message. A list beyond what its length byte can count is cut short.
pub fn stream_control_payload(
    prefix: &[u8],
    sequence: u64,
    desired_count: u16,
    worker_ids: &[u16],
) -> (payload: Vec<u8>)
    ensures
        payload@ == stream_message(prefix@, sequence, desired_count, worker_ids@),
{
    let count: usize = if worker_ids.len() < MAX_LISTED_WORKERS {
        worker_ids.len()
    } else {
        MAX_LISTED_WORKERS
    };
    let mut payload: Vec<u8> = Vec::new();
    push_bytes(&mut payload, prefix);
    push_u64_be(&mut payload, sequence);
    push_u16_be(&mut payload, desired_count);
    payload.push(count as u8);
    let ghost head = payload@;
    assert(head =~= prefix@ + bytes::u64_be(sequence) + bytes::u16_be(desired_count)
        + seq![count as u8]);
    let mut i: usize = 0;
    assert(payload@ =~= head + id_bytes(worker_ids@.subrange(0, 0)));
    while i < count
        invariant
            i <= count <= worker_ids@.len(),
            payload@ == head + id_bytes(worker_ids@.subrange(0, i as int)),
        decreases count - i,
    {
        push_u16_be(&mut payload, worker_ids[i]);
        i += 1;
        assert(id_bytes(worker_ids@.subrange(0, i as int)) =~= id_bytes(
            worker_ids@.subrange(0, i - 1),
        ) + bytes::u16_be(worker_ids@[i - 1]));
    }
    payload
}

/// The number after the prefix of a stream message is its sequence number, so messages that
/// differ in it differ.
pub proof fn stream_messages_are_told_apart(
    prefix: Seq<u8>,
    sequence: u64,
    other: u64,
    desired_count: u16,
    worker_ids: Seq<u16>,
)
    requires
        sequence != other,
    ensures
        stream_message(prefix, sequence, desired_count, worker_ids) != stream_message(
            prefix,
            other,
            desired_count,
            worker_ids,
        ),
{
    let left = stream_message(prefix, sequence, desired_count, worker_ids);
    let right = stream_message(prefix, other, desired_count, worker_ids);
    let start = prefix.len() as int;
    if left == right {
        assert(left.subrange(start, start + 8) =~= bytes::u64_be(sequence));
        assert(right.subrange(start, start + 8) =~= bytes::u64_be(other));
        bytes::u64_be_is_injective(sequence, other);
    }
}

} // verus!
