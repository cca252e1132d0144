//! The RTP side of the wire format: clocks, nonces and headers.
use crate::bytes;
use crate::bytes::{push_bytes, push_u16_be, push_u32_be, u16_from_be, u32_from_be};
use crate::crypto::os_random_bytes;
use vstd::prelude::*;

verus! {

/// The payload type of audio packets.
pub const PAYLOAD_TYPE_AUDIO: u8 = 111;

/// The payload type of video packets.
pub const PAYLOAD_TYPE_VIDEO: u8 = 96;

/// The ticks per second of the absolute-send-time clock.
pub const ABS_SEND_TIME_RATE: u32 = 262_144;

/// The length of the header that outgoing packets carry.
pub const HEADER_LEN: usize = 24;

/// A span of time, as whole seconds and the nanoseconds beyond them.
#[derive(Clone, Copy, Debug)]
pub struct Elapsed {
    pub secs: u64,
    pub nanos: u32,
}

impl Elapsed {
    /// The span in nanoseconds.
    pub open spec fn as_nanos(self) -> int {
        self.secs * 1_000_000_000 + self.nanos
    }

    /// The span of `nanos` nanoseconds.
    pub fn from_nanos(nanos: u64) -> (elapsed: Elapsed)
        ensures
            elapsed.as_nanos() == nanos,
            elapsed.nanos < 1_000_000_000,
    {
        Elapsed { secs: nanos / 1_000_000_000, nanos: (nanos % 1_000_000_000) as u32 }
    }
}

/// The number of ticks that a clock of `rate` ticks per second makes in `nanos` nanoseconds.
pub open spec fn ticks(nanos: int, rate: int) -> int {
    nanos * rate / 1_000_000_000
}

/// The clock rate of a payload type.
pub open spec fn clock_rate(payload_type: u8) -> int {
    if payload_type == PAYLOAD_TYPE_VIDEO {
        90_000
    } else {
        48_000
    }
}

/// Ticks per second of the RTP clock of `payload_type`.
pub fn rtp_clock_rate(payload_type: u8) -> (rate: u32)
    ensures
        rate == clock_rate(payload_type),
{
    if payload_type == PAYLOAD_TYPE_VIDEO {
        90_000
    } else {
        48_000
    }
}

/// The ticks that a clock of `clock_rate` ticks per second makes in `elapsed`, modulo the
/// range of a 32-bit clock.
pub fn duration_ticks(elapsed: Elapsed, clock_rate: u32) -> (made: u32)
    ensures
        made == ticks(elapsed.as_nanos(), clock_rate as int) % 0x1_0000_0000,
{
    let rate: u64 = clock_rate as u64;
    let nanos: u64 = elapsed.nanos as u64;
    proof {
        assert(0 <= nanos * rate <= 0xffff_ffff * 0xffff_ffff) by (nonlinear_arith)
            requires
                nanos <= 0xffff_ffff,
                rate <= 0xffff_ffff,
        ;
    }
    let part: u64 = nanos * rate / 1_000_000_000;
    let whole: u64 = elapsed.secs.wrapping_mul(rate);
    let sum: u64 = whole.wrapping_add(part);
    proof {
        let secs = elapsed.secs as int;
        let r = rate as int;
        let total = secs * r + part;
        // The exact tick count splits into whole seconds and the rest.
        vstd::arithmetic::mul::lemma_mul_is_distributive_add_other_way(r, secs * 1_000_000_000, nanos as int);
        assert((secs * 1_000_000_000) * r == (secs * r) * 1_000_000_000) by (nonlinear_arith);
        vstd::arithmetic::div_mod::lemma_hoist_over_denominator(nanos * r, secs * r, 1_000_000_000);
        assert(ticks(elapsed.as_nanos(), r) == total);
        // Dropping multiples of 2^64 along the way keeps the value modulo 2^32.
        let k = (secs * r) / 0x1_0000_0000_0000_0000;
        assert(0 <= secs * r) by (nonlinear_arith)
            requires
                0 <= secs,
                0 <= r,
        ;
        assert(secs * r == k * 0x1_0000_0000_0000_0000 + whole);
        assert(total % 0x1_0000_0000 == sum as int % 0x1_0000_0000);
        assert(sum as u32 == sum % 0x1_0000_0000) by (bit_vector);
    }
    sum as u32
}

/// The ChaCha20-Poly1305 nonce of a packet.
pub open spec fn packet_nonce(ssrc: u32, seq: u16, timestamp: u32) -> Seq<u8> {
    bytes::u32_be(ssrc) + bytes::u16_be(seq) + seq![0u8, 0u8] + bytes::u32_be(timestamp)
}

/// The counter-mode initialisation vector of a packet.
pub open spec fn packet_iv(ssrc: u32, seq: u16, timestamp: u32) -> Seq<u8> {
    packet_nonce(ssrc, seq, timestamp) + seq![0u8, 0u8, 0u8, 0u8]
}

/// Lays out the nonce of a packet: stream, sequence number, two zero bytes, timestamp.
pub fn nonce(ssrc: u32, seq: u16, timestamp: u32) -> (value: [u8; 12])
    ensures
        value@ == packet_nonce(ssrc, seq, timestamp),
{
    let value: [u8; 12] = [
        (ssrc / 65536 / 256) as u8,
        (ssrc / 65536 % 256) as u8,
        (ssrc % 65536 / 256) as u8,
        (ssrc % 256) as u8,
        (seq / 256) as u8,
        (seq % 256) as u8,
        0,
        0,
        (timestamp / 65536 / 256) as u8,
        (timestamp / 65536 % 256) as u8,
        (timestamp % 65536 / 256) as u8,
        (timestamp % 256) as u8,
    ];
    assert(value@ =~= packet_nonce(ssrc, seq, timestamp));
    value
}

/// Lays out the initialisation vector of a packet: its nonce and four zero bytes.
pub fn build_srtp_iv(ssrc: u32, seq: u16, timestamp: u32) -> (iv: Vec<u8>)
    ensures
        iv@ == packet_iv(ssrc, seq, timestamp),
        iv@.len() == 16,
{
    let mut iv: Vec<u8> = Vec::with_capacity(16);
    push_bytes(&mut iv, nonce(ssrc, seq, timestamp).as_slice());
    push_u32_be(&mut iv, 0);
    assert(bytes::u32_be(0) =~= seq![0u8, 0u8, 0u8, 0u8]);
    assert(iv@ =~= packet_iv(ssrc, seq, timestamp));
    iv
}

/// Why the header of a packet was refused.
#[derive(Clone, Copy, Debug, PartialEq, Eq, Structural)]
pub enum HeaderError {
    /// Not an RTP version 2 packet with a payload.
    InvalidPacket,
    /// The extension header is cut off.
    TruncatedExtension,
    /// The packet ends before its header does.
    TruncatedHeader,
}

/// The extension bit of the first header byte.
pub open spec fn has_extension(first: u8) -> bool {
    first & 0x10 != 0
}

/// The header length of `wire`, or why it has none.
pub open spec fn header_len_of(wire: Seq<u8>) -> Result<int, HeaderError> {
    let extension = has_extension(wire[0]);
    let len = if extension {
        16 + bytes::u16_of(wire[14], wire[15]) * 4
    } else {
        12
    };
    if wire.len() < 13 || wire[0] >> 6 != 2 {
        Err(HeaderError::InvalidPacket)
    } else if extension && wire.len() < 16 {
        Err(HeaderError::TruncatedExtension)
    } else if wire.len() < len {
        Err(HeaderError::TruncatedHeader)
    } else {
        Ok(len)
    }
}

/// The length of the RTP header of `wire`, with its extension.
pub fn rtp_header_len(wire: &[u8]) -> (header: Result<usize, HeaderError>)
    ensures
        match header {
            Ok(len) => header_len_of(wire@) == Ok::<int, HeaderError>(len as int) && 12 <= len
                <= wire@.len(),
            Err(error) => header_len_of(wire@) == Err::<int, HeaderError>(error),
        },
{
    if wire.len() < 13 || wire[0] >> 6 != 2 {
        return Err(HeaderError::InvalidPacket);
    }
    let mut header_len: usize = 12;
    if wire[0] & 0x10 != 0 {
        if wire.len() < 16 {
            return Err(HeaderError::TruncatedExtension);
        }
        header_len = 16 + (u16_from_be(wire[14], wire[15]) as usize) * 4;
    }
    if wire.len() < header_len {
        return Err(HeaderError::TruncatedHeader);
    }
    Ok(header_len)
}

/// The counters that number and date the packets a session sends.
#[derive(Clone, Copy, Debug)]
pub struct OutState {
    pub ssrc: u32,
    pub initial_seq: u16,
    pub initial_ts: u32,
    pub initial_abs_send_time: u32,
    /// The monotonic clock, in nanoseconds, when the session was made.
    pub started_ns: u64,
    pub count: u64,
    pub payload_type: u8,
    pub transport_seq: u16,
}

/// The stamp that one outgoing packet carries.
#[derive(Clone, Copy, Debug)]
pub struct PacketStamp {
    pub seq: u16,
    pub timestamp: u32,
    pub abs_send_time: u32,
    pub transport_seq: u16,
}

impl OutState {
    /// The sequence number of the next packet.
    pub open spec fn next_seq(self) -> int {
        (self.initial_seq + self.count) % 0x1_0000
    }

    /// The RTP timestamp at monotonic time `now_ns`.
    pub open spec fn timestamp_at(self, now_ns: u64) -> int {
        (self.initial_ts + ticks(self.age(now_ns), clock_rate(self.payload_type))) % 0x1_0000_0000
    }

    /// The absolute send time at monotonic time `now_ns`.
    pub open spec fn abs_send_time_at(self, now_ns: u64) -> int {
        (self.initial_abs_send_time + ticks(self.age(now_ns), ABS_SEND_TIME_RATE as int))
            % 0x100_0000
    }

    /// The nanoseconds since the session was made.
    pub open spec fn age(self, now_ns: u64) -> int {
        if now_ns >= self.started_ns {
            now_ns - self.started_ns
        } else {
            0
        }
    }

    /// The stamp of the next packet, were it sent at `now_ns`.
    pub open spec fn next_stamp(self, now_ns: u64) -> PacketStamp {
        PacketStamp {
            seq: self.next_seq() as u16,
            timestamp: self.timestamp_at(now_ns) as u32,
            abs_send_time: self.abs_send_time_at(now_ns) as u32,
            transport_seq: self.transport_seq,
        }
    }

    /// The counters once the next packet has its stamp.
    pub open spec fn stamped(self) -> OutState {
        OutState {
            count: ((self.count + 1) % 0x1_0000_0000_0000_0000) as u64,
            transport_seq: ((self.transport_seq + 1) % 0x1_0000) as u16,
            ..self
        }
    }

    /// Counters for a new session, from operating-system randomness.
    ///
    /// `wall_ms` is the wall clock in milliseconds, `started_ns` the monotonic clock in
    /// nanoseconds.
    pub fn new(payload_type: u8, wall_ms: u64, started_ns: u64) -> (state: OutState)
        ensures
            state.payload_type == payload_type,
            state.started_ns == started_ns,
            state.count == 0,
            state.initial_abs_send_time == (wall_ms * 262_144 / 1_000) % 0x100_0000,
    {
        OutState::from_random(payload_type, os_random_bytes(), wall_ms, started_ns)
    }

    /// Counters for a new session, from the twelve random bytes given.
    pub fn from_random(
        payload_type: u8,
        random: [u8; 12],
        wall_ms: u64,
        started_ns: u64,
    ) -> (state: OutState)
        ensures
            state == (OutState {
                ssrc: bytes::u32_at(random@, 0) as u32,
                initial_seq: bytes::u16_of(random@[4], random@[5]) as u16,
                initial_ts: bytes::u32_at(random@, 6) as u32,
                initial_abs_send_time: ((wall_ms * 262_144 / 1_000) % 0x100_0000) as u32,
                started_ns,
                count: 0,
                payload_type,
                transport_seq: bytes::u16_of(random@[10], random@[11]) as u16,
            }),
    {
        let send_time: u128 = (wall_ms as u128) * 262_144 / 1_000;
        OutState {
            ssrc: u32_from_be(random.as_slice(), 0),
            initial_seq: u16_from_be(random[4], random[5]),
            initial_ts: u32_from_be(random.as_slice(), 6),
            initial_abs_send_time: (send_time % 0x100_0000) as u32,
            started_ns,
            count: 0,
            payload_type,
            transport_seq: u16_from_be(random[10], random[11]),
        }
    }

    /// The RTP timestamp and the absolute send time at monotonic time `now_ns`.
    pub fn clocks(&self, now_ns: u64) -> (times: (u32, u32))
        ensures
            times.0 == self.timestamp_at(now_ns),
            times.1 == self.abs_send_time_at(now_ns),
    {
        let elapsed = Elapsed::from_nanos(now_ns.saturating_sub(self.started_ns));
        let media: u32 = duration_ticks(elapsed, rtp_clock_rate(self.payload_type));
        let sent: u32 = duration_ticks(elapsed, ABS_SEND_TIME_RATE);
        let timestamp: u32 = self.initial_ts.wrapping_add(media);
        let abs: u32 = self.initial_abs_send_time.wrapping_add(sent);
        proof {
            let age = self.age(now_ns);
            assert(elapsed.as_nanos() == age);
            lemma_clock_wraps(self.initial_ts, ticks(age, clock_rate(self.payload_type)), media);
            lemma_clock_wraps(
                self.initial_abs_send_time,
                ticks(age, ABS_SEND_TIME_RATE as int),
                sent,
            );
            assert(abs & 0x00ff_ffff == abs % 0x100_0000) by (bit_vector);
        }
        (timestamp, abs & 0x00ff_ffff)
    }

    /// Takes the stamp of the next packet and moves the counters on.
    pub fn stamp(&mut self, now_ns: u64) -> (stamp: PacketStamp)
        ensures
            stamp == old(self).next_stamp(now_ns),
            *final(self) == old(self).stamped(),
    {
        let count: u64 = self.count;
        let (timestamp, abs_send_time) = self.clocks(now_ns);
        let low: u16 = (count % 65536) as u16;
        let seq: u16 = self.initial_seq.wrapping_add(low);
        let transport_seq: u16 = self.transport_seq;
        self.count = count.wrapping_add(1);
        self.transport_seq = transport_seq.wrapping_add(1);
        PacketStamp { seq, timestamp, abs_send_time, transport_seq }
    }
}

/// A clock that wraps shows the same whether its ticks are reduced before they are added or
/// after.
proof fn lemma_clock_wraps(initial: u32, total: int, made: u32)
    requires
        made == total % 0x1_0000_0000,
    ensures
        initial.wrapping_add(made) == (initial + total) % 0x1_0000_0000,
        initial.wrapping_add(made) as int % 0x100_0000 == (initial + total) % 0x100_0000,
{
}

/// The second header byte: the payload type, with the marker bit where `marker` is set.
pub open spec fn type_byte(payload_type: u8, marker: bool) -> u8 {
    if marker {
        (payload_type & 0x7f) | 0x80
    } else {
        payload_type & 0x7f
    }
}

/// The header of an outgoing packet: version 2 with padding and an extension of two words,
/// which carry the absolute send time and the transport sequence number.
pub open spec fn header_bytes(
    payload_type: u8,
    marker: bool,
    ssrc: u32,
    stamp: PacketStamp,
) -> Seq<u8> {
    seq![0xb0u8, type_byte(payload_type, marker)] + bytes::u16_be(stamp.seq) + bytes::u32_be(stamp.timestamp)
        + bytes::u32_be(ssrc) + seq![0xbeu8, 0xdeu8, 0u8, 2u8, 0x32u8] + bytes::u32_be(
        stamp.abs_send_time,
    ).subrange(1, 4) + seq![0x51u8] + bytes::u16_be(stamp.transport_seq) + seq![0u8]
}

/// Lays out the header of an outgoing packet.
pub fn rtp_header(payload_type: u8, marker: bool, ssrc: u32, stamp: PacketStamp) -> (header: Vec<
    u8,
>)
    ensures
        header@ == header_bytes(payload_type, marker, ssrc, stamp),
        header@.len() == HEADER_LEN,
{
    let mut header: Vec<u8> = Vec::with_capacity(HEADER_LEN);
    header.push(0xb0);
    let mut second: u8 = payload_type & 0x7f;
    if marker {
        second = second | 0x80;
    }
    header.push(second);
    push_u16_be(&mut header, stamp.seq);
    push_u32_be(&mut header, stamp.timestamp);
    push_u32_be(&mut header, ssrc);
    header.push(0xbe);
    header.push(0xde);
    push_u16_be(&mut header, 2);
    header.push(0x32);
    header.push((stamp.abs_send_time / 65536 % 256) as u8);
    push_u16_be(&mut header, (stamp.abs_send_time % 65536) as u16);
    header.push(0x51);
    push_u16_be(&mut header, stamp.transport_seq);
    header.push(0);
    assert(header@ =~= header_bytes(payload_type, marker, ssrc, stamp));
    header
}

} // verus!
