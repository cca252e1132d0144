//! What packets carry, and how they are laid out.
use crate::bytes;
use crate::crypto;
use crate::rtp;
use crate::rtp::OutState;
use crate::wire;
use crate::wire::{Draw, UnwrapError, Unwrapped, WrapKey};
use vstd::prelude::*;

verus! {

/// A packet of this type is carried.
pub open spec fn carried_type(payload_type: u8) -> bool {
    payload_type == 111 || payload_type == 96 || payload_type == 6
}

/// A DTLS record stands at the start of `data`, as a whole.
pub open spec fn starts_with_record(data: Seq<u8>) -> bool {
    &&& data.len() >= 13
    &&& 20 <= data[0] <= 23
    &&& data[1] == 0xfe
    &&& data.len() >= 13 + data[11] * 256 + data[12]
}

/// `data` is one DTLS record.
pub open spec fn is_record(data: Seq<u8>) -> bool {
    &&& data.len() >= 13
    &&& 20 <= data[0] <= 23
    &&& data[1] == 0xfe
    &&& data.len() == 13 + data[11] * 256 + data[12]
}

/// Pieces, one after the other.
pub open spec fn joined(pieces: Seq<Seq<u8>>) -> Seq<u8>
    decreases pieces.len(),
{
    if pieces.len() == 0 {
        Seq::empty()
    } else {
        pieces[0] + joined(pieces.skip(1))
    }
}

/// What may be drawn for a packet: less than 24 bytes of filler, or less than 60 for video,
/// and the marker bit for video only.
pub open spec fn may_be_drawn(draw: Draw, payload_type: u8) -> bool {
    &&& draw.marker ==> payload_type == 96
    &&& draw.filler@.len() < 24 || (payload_type == 96 && draw.filler@.len() < 60)
}

/// Whatever is wrapped in the SRTP mode comes back whole, byte for byte, unless it starts with
/// a complete DTLS record.
pub proof fn srtp_gives_payloads_back(
    key: WrapKey,
    state: OutState,
    plain: Seq<u8>,
    draw: Draw,
    now_ns: u64,
    expected_srtp: Option<bool>,
)
    requires
        carried_type(state.payload_type),
        may_be_drawn(draw, state.payload_type),
        expected_srtp != Some(false),
        !starts_with_record(plain),
        forall|message: Seq<u8>|
            (#[trigger] crypto::hmac_sha1_tag(key.bytes@.subrange(16, 32), message)).len() == 20,
    ensures
        wire::decode(
            key,
            wire::wrapped(key, state, true, plain, draw, now_ns),
            expected_srtp,
        ) matches Ok(unwrapped) && {
            &&& unwrapped.plain == plain
            &&& unwrapped.header_len == 24
            &&& unwrapped.seq == (state.initial_seq + state.count) % 65536
            &&& unwrapped.payload_type == state.payload_type
            &&& unwrapped.is_srtp
        },
{
    wire::srtp_unwraps_what_was_wrapped(key, state, plain, draw, now_ns, expected_srtp);
}

/// Of a payload that is made of complete DTLS records and a rest that starts with none, the
/// records come back, all of them and as they were.
pub proof fn srtp_gives_records_back(
    key: WrapKey,
    state: OutState,
    records: Seq<Seq<u8>>,
    rest: Seq<u8>,
    draw: Draw,
    now_ns: u64,
    expected_srtp: Option<bool>,
)
    requires
        carried_type(state.payload_type),
        may_be_drawn(draw, state.payload_type),
        expected_srtp != Some(false),
        records.len() > 0,
        forall|i: int| 0 <= i < records.len() ==> is_record(#[trigger] records[i]),
        !starts_with_record(rest),
        forall|message: Seq<u8>|
            (#[trigger] crypto::hmac_sha1_tag(key.bytes@.subrange(16, 32), message)).len() == 20,
    ensures
        wire::decode(
            key,
            wire::wrapped(key, state, true, joined(records) + rest, draw, now_ns),
            expected_srtp,
        ) matches Ok(unwrapped) && unwrapped.plain == joined(records),
{
    let plain = joined(records) + rest;
    wire::srtp_unwraps_what_was_wrapped(key, state, plain, draw, now_ns, expected_srtp);
    lemma_span(records, rest);
    assert(is_record(records[0]));
    assert(plain.subrange(0, joined(records).len() as int) =~= joined(records));
}

/// Records at the start of a payload are told by their lengths.
proof fn lemma_span(records: Seq<Seq<u8>>, rest: Seq<u8>)
    requires
        forall|i: int| 0 <= i < records.len() ==> is_record(#[trigger] records[i]),
        !starts_with_record(rest),
    ensures
        wire::record_span(joined(records) + rest) == joined(records).len(),
    decreases records.len(),
{
    let data = joined(records) + rest;
    if records.len() > 0 {
        let first = records[0];
        let others = records.skip(1);
        assert(is_record(first));
        assert forall|i: int| 0 <= i < others.len() implies is_record(#[trigger] others[i]) by {
            assert(is_record(records[i + 1]));
        }
        lemma_span(others, rest);
        assert(data.subrange(first.len() as int, data.len() as int) =~= joined(others) + rest);
        assert(data[0] == first[0] && data[1] == first[1] && data[11] == first[11] && data[12]
            == first[12]);
    } else {
        assert(data =~= rest);
    }
}

/// Where the payload of a packet starts: after twelve bytes, or after the extension where the
/// first byte announces one.
pub open spec fn payload_start(packet: Seq<u8>) -> int {
    if (packet[0] / 16) % 2 == 1 {
        16 + 4 * (packet[14] * 256 + packet[15])
    } else {
        12
    }
}

/// The packet has a complete header.
pub open spec fn has_header(packet: Seq<u8>) -> bool {
    &&& packet.len() >= 13
    &&& 128 <= packet[0] < 192
    &&& (packet[0] / 16) % 2 == 1 ==> packet.len() >= 16
    &&& packet.len() >= payload_start(packet)
}

/// How many bytes of padding stand before `end`.
pub open spec fn padding_before(packet: Seq<u8>, end: int) -> int {
    if (packet[0] / 32) % 2 == 1 {
        packet[end - 1] as int
    } else {
        0
    }
}

/// The padding before `end` leaves room for the header.
pub open spec fn padding_fits(packet: Seq<u8>, end: int) -> bool {
    (packet[0] / 32) % 2 == 1 ==> 1 <= packet[end - 1] <= end - payload_start(packet)
}

/// The nonce of a packet: its stream, its number, two zero bytes, its time.
pub open spec fn nonce_of(packet: Seq<u8>) -> Seq<u8> {
    packet.subrange(8, 12) + packet.subrange(2, 4) + seq![0u8, 0u8] + packet.subrange(4, 8)
}

proof fn lemma_header(packet: Seq<u8>)
    requires
        packet.len() >= 13,
    ensures
        has_header(packet) <==> rtp::header_len_of(packet) is Ok,
        has_header(packet) ==> rtp::header_len_of(packet) == Ok::<int, rtp::HeaderError>(
            payload_start(packet),
        ),
        (packet[0] & 0x20 == 0) <==> (packet[0] / 32) % 2 == 0,
        packet[1] & 0x7f == packet[1] % 128,
        rtp::packet_nonce(
            wire::ssrc_of(packet),
            wire::seq_of(packet),
            wire::timestamp_of(packet),
        ) == nonce_of(packet),
{
    lemma_flags(packet[0], packet[1]);
    lemma_number(packet[8], packet[9], packet[10], packet[11]);
    lemma_number(packet[4], packet[5], packet[6], packet[7]);
    let seq = wire::seq_of(packet);
    assert(seq == packet[2] * 256 + packet[3]);
    assert(seq / 256 == packet[2] && seq % 256 == packet[3]);
    assert(bytes::u16_be(seq) =~= packet.subrange(2, 4));
    assert(bytes::u32_be(wire::ssrc_of(packet)) =~= packet.subrange(8, 12));
    assert(bytes::u32_be(wire::timestamp_of(packet)) =~= packet.subrange(4, 8));
}

/// What the first two bytes of a packet say, as bits and as numbers.
proof fn lemma_flags(first: u8, second: u8)
    ensures
        (first >> 6 == 2) == (128 <= first && first < 192),
        (first & 0x10 != 0) == ((first / 16) % 2 == 1),
        (first & 0x20 == 0) == ((first / 32) % 2 == 0),
        second & 0x7f == second % 128,
{
    assert((first >> 6 == 2) == (128 <= first && first < 192) && (first & 0x10 != 0) == ((first
        / 16) % 2 == 1) && (first & 0x20 == 0) == ((first / 32) % 2 == 0)) by (bit_vector);
    assert(second & 0x7f == second % 128) by (bit_vector);
}

/// The bytes of the number that four bytes stand for are those four.
proof fn lemma_number(a: u8, b: u8, c: u8, d: u8)
    ensures
        ({
            let value = (bytes::u16_of(a, b) * 65536 + bytes::u16_of(c, d)) as u32;
            bytes::u32_be(value) == seq![a, b, c, d]
        }),
{
    let value = (bytes::u16_of(a, b) * 65536 + bytes::u16_of(c, d)) as u32;
    assert(value == (a * 256 + b) * 65536 + c * 256 + d);
    assert(value / 65536 == a * 256 + b);
    assert(value % 65536 == c * 256 + d);
    assert(bytes::u32_be(value) =~= seq![a, b, c, d]);
}

/// A packet is unwrapped as SRTP if and only if it has a complete header and a type that is
/// carried, ends in the first ten bytes of the HMAC of all that stands before, and its padding
/// is in order. What comes out is the payload without the padding, with the key stream taken
/// off: all of it, or the complete DTLS records that it starts with.
pub proof fn srtp_packets_are_authentic(key: WrapKey, packet: Seq<u8>)
    requires
        packet.len() >= 23,
    ensures
        ({
            let end = packet.len() - 10;
            let tag = crypto::hmac_sha1_tag(
                key.bytes@.subrange(16, 32),
                packet.subrange(0, end),
            ).subrange(0, 10);
            let last = end - padding_before(packet, end);
            let plain = crypto::aes128_ctr(
                key.bytes@.subrange(0, 16),
                nonce_of(packet) + seq![0u8, 0u8, 0u8, 0u8],
                packet.subrange(payload_start(packet), last),
            );
            let outcome = wire::decode(key, packet, Some(true));
            &&& outcome is Ok <==> has_header(packet) && carried_type(packet[1] % 128) && end
                >= payload_start(packet) && packet.subrange(end, packet.len() as int) == tag
                && padding_fits(packet, end)
            &&& outcome matches Ok(unwrapped) ==> {
                &&& unwrapped.is_srtp
                &&& unwrapped.header_len == payload_start(packet)
                &&& unwrapped.seq == packet[2] * 256 + packet[3]
                &&& unwrapped.payload_type == packet[1] % 128
                &&& unwrapped.body == plain
                &&& !starts_with_record(plain) ==> unwrapped.plain == plain
                &&& starts_with_record(plain) ==> 13 <= unwrapped.plain.len() <= plain.len()
                    && unwrapped.plain == plain.take(unwrapped.plain.len() as int)
                    && !starts_with_record(plain.skip(unwrapped.plain.len() as int))
            }
        }),
{
    lemma_header(packet);
    if has_header(packet) {
        let end = packet.len() - 10;
        let last = end - padding_before(packet, end);
        let plain = crypto::aes128_ctr(
            key.bytes@.subrange(0, 16),
            nonce_of(packet) + seq![0u8, 0u8, 0u8, 0u8],
            packet.subrange(payload_start(packet), last),
        );
        lemma_span_is_full(plain);
    }
}

/// The records at the start of a payload are followed by none.
proof fn lemma_span_is_full(data: Seq<u8>)
    ensures
        0 <= wire::record_span(data) <= data.len(),
        starts_with_record(data) <==> wire::record_span(data) > 0,
        starts_with_record(data) ==> wire::record_span(data) >= 13,
        !starts_with_record(data.skip(wire::record_span(data))),
    decreases data.len(),
{
    let span = wire::record_span(data);
    if starts_with_record(data) {
        let len = 13 + data[11] * 256 + data[12];
        let rest = data.subrange(len, data.len() as int);
        lemma_span_is_full(rest);
        assert(rest.skip(wire::record_span(rest)) =~= data.skip(span));
    } else {
        assert(data.skip(0) =~= data);
    }
}

/// A packet is unwrapped in the RTP mode if and only if it has a complete header, is an audio
/// packet, holds more than a tag, its padding is in order, and the cipher opens it. What comes
/// out is what the cipher gives, all of it.
pub proof fn rtp_packets_are_authentic(key: WrapKey, packet: Seq<u8>)
    requires
        packet.len() >= 13,
    ensures
        ({
            let end = packet.len() as int;
            let last = end - padding_before(packet, end);
            let start = payload_start(packet);
            let opened = crypto::chacha20_poly1305_open(
                key.bytes@,
                nonce_of(packet),
                packet.subrange(0, start),
                packet.subrange(start, last - 16),
                packet.subrange(last - 16, last),
            );
            let outcome = wire::decode(key, packet, Some(false));
            &&& outcome is Ok <==> has_header(packet) && packet[1] % 128 == 111 && padding_fits(
                packet,
                end,
            ) && last - start > 16 && opened is Some
            &&& outcome matches Ok(unwrapped) ==> {
                &&& !unwrapped.is_srtp
                &&& unwrapped.header_len == start
                &&& unwrapped.seq == packet[2] * 256 + packet[3]
                &&& unwrapped.payload_type == 111
                &&& opened == Some(unwrapped.plain)
            }
        }),
{
    lemma_header(packet);
}

/// A packet that is not unwrapped is refused for the first of its faults: a header that is
/// none, or is cut off; a type that is not carried; a tag that is missing or wrong; padding that
/// is out of order; nothing but a tag; and, in the RTP mode, a type that is not audio.
pub proof fn faults_are_told_apart(key: WrapKey, packet: Seq<u8>, mode: Option<bool>)
    ensures
        ({
            let outcome = wire::decode(key, packet, mode);
            let end = packet.len() - 10;
            let last = packet.len() - padding_before(packet, packet.len() as int);
            let signed = end >= payload_start(packet) && packet.subrange(end, packet.len() as int)
                == crypto::hmac_sha1_tag(
                key.bytes@.subrange(16, 32),
                packet.subrange(0, end),
            ).subrange(0, 10);
            let sound = has_header(packet) && carried_type(packet[1] % 128);
            &&& packet.len() < 13 ==> outcome == Err::<Unwrapped, UnwrapError>(
                UnwrapError::Header(rtp::HeaderError::InvalidPacket),
            )
            &&& packet.len() >= 13 && !(128 <= packet[0] < 192) ==> outcome == Err::<
                Unwrapped,
                UnwrapError,
            >(UnwrapError::Header(rtp::HeaderError::InvalidPacket))
            &&& 13 <= packet.len() < 16 && 128 <= packet[0] < 192 && (packet[0] / 16) % 2 == 1
                ==> outcome == Err::<Unwrapped, UnwrapError>(
                UnwrapError::Header(rtp::HeaderError::TruncatedExtension),
            )
            &&& 16 <= packet.len() < payload_start(packet) && 128 <= packet[0] < 192
                ==> outcome == Err::<Unwrapped, UnwrapError>(
                UnwrapError::Header(rtp::HeaderError::TruncatedHeader),
            )
            &&& has_header(packet) && !carried_type(packet[1] % 128) ==> outcome == Err::<
                Unwrapped,
                UnwrapError,
            >(UnwrapError::UnsupportedPayloadType)
            &&& sound && mode == Some(true) && end < payload_start(packet) ==> outcome == Err::<
                Unwrapped,
                UnwrapError,
            >(UnwrapError::SrtpTooShort)
            &&& sound && mode == Some(true) && end >= payload_start(packet) && !signed
                ==> outcome == Err::<Unwrapped, UnwrapError>(UnwrapError::SrtpAuthentication)
            &&& sound && mode != Some(false) && signed && !padding_fits(packet, end) ==> outcome
                == Err::<Unwrapped, UnwrapError>(UnwrapError::SrtpPadding)
            &&& sound && mode == Some(false) && !padding_fits(packet, packet.len() as int)
                ==> outcome == Err::<Unwrapped, UnwrapError>(UnwrapError::Padding)
            &&& sound && mode == Some(false) && padding_fits(packet, packet.len() as int) && last
                - payload_start(packet) <= 16 ==> outcome == Err::<Unwrapped, UnwrapError>(
                UnwrapError::EmptyPayload,
            )
            &&& sound && mode == Some(false) && padding_fits(packet, packet.len() as int) && last
                - payload_start(packet) > 16 && packet[1] % 128 != 111 ==> outcome == Err::<
                Unwrapped,
                UnwrapError,
            >(UnwrapError::ExpectedAudio)
            &&& sound && mode == Some(false) && padding_fits(packet, packet.len() as int) && last
                - payload_start(packet) > 16 && packet[1] % 128 == 111 && outcome is Err
                ==> outcome == Err::<Unwrapped, UnwrapError>(UnwrapError::Authentication)
        }),
{
    if packet.len() >= 13 {
        lemma_header(packet);
        lemma_flags(packet[0], packet[1]);
    }
}

/// Where a tag is wrong in the RTP mode, nothing of the ciphertext is left: it is all zeros,
/// and header, tag and padding stand as they were.
pub proof fn refused_packets_are_wiped(key: WrapKey, packet: Seq<u8>, i: int)
    requires
        wire::decode(key, packet, Some(false)) == Err::<Unwrapped, UnwrapError>(
            UnwrapError::Authentication,
        ),
        0 <= i < packet.len(),
    ensures
        ({
            let wiped = wire::wiped(packet);
            let tag_at = packet.len() - padding_before(packet, packet.len() as int) - 16;
            &&& wiped.len() == packet.len()
            &&& payload_start(packet) <= i < tag_at ==> wiped[i] == 0
            &&& i < payload_start(packet) || tag_at <= i ==> wiped[i] == packet[i]
        }),
{
    faults_are_told_apart(key, packet, Some(false));
    lemma_header(packet);
}

/// How much filler a packet may get, and which packets may get the marker bit.
pub proof fn choices_are_bounded(draw: Draw, payload_type: u8, is_srtp: bool)
    ensures
        draw.admissible(payload_type, is_srtp) <==> (draw.marker ==> payload_type == 96)
            && draw.filler@.len() < (if (is_srtp && payload_type == 96) || (!is_srtp
            && payload_type != 111) {
            60int
        } else {
            24int
        }),
        draw.filler@.len() < 255 ==> draw.padding().len() == draw.filler@.len() + 1
            && draw.padding().last() == draw.padding().len(),
        draw.padding().drop_last() == draw.filler@,
{
    assert(draw.padding().drop_last() =~= draw.filler@);
}

/// Where the mode is not known, a packet that is right as SRTP is taken as SRTP, and one that
/// does not end in its HMAC is taken as RTP.
pub proof fn the_mode_is_found_out(key: WrapKey, packet: Seq<u8>)
    ensures
        wire::decode(key, packet, Some(true)) is Ok ==> wire::decode(key, packet, None)
            == wire::decode(key, packet, Some(true)),
        packet.len() >= 23 && has_header(packet) && packet.subrange(
            packet.len() - 10,
            packet.len() as int,
        ) != crypto::hmac_sha1_tag(
            key.bytes@.subrange(16, 32),
            packet.subrange(0, packet.len() - 10),
        ).subrange(0, 10) ==> wire::decode(key, packet, None) == wire::decode(
            key,
            packet,
            Some(false),
        ),
{
    if packet.len() >= 13 {
        lemma_header(packet);
    }
}

/// Of packets that differ only in the last ten bytes, at most one is unwrapped as SRTP.
pub proof fn forged_tags_are_refused(key: WrapKey, packet: Seq<u8>, forged: Seq<u8>)
    requires
        packet.len() == forged.len(),
        packet.len() >= 10,
        packet.take(packet.len() - 10) == forged.take(packet.len() - 10),
        packet != forged,
        wire::decode(key, packet, Some(true)) is Ok,
    ensures
        wire::decode(key, forged, Some(true)) is Err,
{
    let end = packet.len() - 10;
    if wire::decode(key, forged, Some(true)) is Ok {
        assert(packet.take(end) =~= packet.subrange(0, end));
        assert(forged.take(end) =~= forged.subrange(0, end));
        let len = packet.len() as int;
        assert(packet.subrange(end, len) == forged.subrange(end, len));
        assert(packet =~= packet.take(end) + packet.subrange(end, len));
        assert(forged =~= forged.take(end) + forged.subrange(end, len));
    }
}

/// How a packet is laid out: 24 bytes of header with the type, the number, the times and the
/// stream, then as many bytes as the payload has, then the padding, which ends in its length;
/// the tag of ten bytes ends a packet in the SRTP mode, and the tag of sixteen bytes stands
/// before the padding in the RTP mode.
pub proof fn packets_are_laid_out(
    key: WrapKey,
    state: OutState,
    is_srtp: bool,
    plain: Seq<u8>,
    draw: Draw,
    now_ns: u64,
)
    requires
        state.payload_type < 128,
        draw.filler@.len() < 255,
        forall|message: Seq<u8>|
            (#[trigger] crypto::hmac_sha1_tag(key.bytes@.subrange(16, 32), message)).len() == 20,
        forall|nonce: Seq<u8>, aad: Seq<u8>|
            (#[trigger] crypto::chacha20_poly1305_seal(key.bytes@, nonce, aad, plain)).0.len()
                == plain.len() && crypto::chacha20_poly1305_seal(
                key.bytes@,
                nonce,
                aad,
                plain,
            ).1.len() == 16,
    ensures
        ({
            let packet = wire::wrapped(key, state, is_srtp, plain, draw, now_ns);
            let stamp = state.next_stamp(now_ns);
            let padding_end = if is_srtp {
                packet.len() - 10
            } else {
                packet.len() as int
            };
            &&& packet.len() == 24 + plain.len() + draw.filler@.len() + 1 + (if is_srtp {
                10int
            } else {
                16int
            })
            &&& packet[0] == 0xb0
            &&& packet[1] == state.payload_type + (if draw.marker {
                128int
            } else {
                0int
            })
            &&& packet[2] * 256 + packet[3] == (state.initial_seq + state.count) % 65536
            &&& ((packet[4] * 256 + packet[5]) * 256 + packet[6]) * 256 + packet[7]
                == state.timestamp_at(now_ns)
            &&& ((packet[8] * 256 + packet[9]) * 256 + packet[10]) * 256 + packet[11] == state.ssrc
            &&& packet.subrange(12, 17) == seq![0xbeu8, 0xdeu8, 0u8, 2u8, 0x32u8]
            &&& (packet[17] * 256 + packet[18]) * 256 + packet[19] == state.abs_send_time_at(
                now_ns,
            )
            &&& packet[20] == 0x51
            &&& packet[21] * 256 + packet[22] == state.transport_seq
            &&& packet[23] == 0
            &&& packet[padding_end - 1] == draw.filler@.len() + 1
            &&& packet.subrange(padding_end - 1 - draw.filler@.len(), padding_end - 1)
                == draw.filler@
            &&& is_srtp ==> packet.subrange(padding_end, packet.len() as int)
                == crypto::hmac_sha1_tag(
                key.bytes@.subrange(16, 32),
                packet.subrange(0, padding_end),
            ).subrange(0, 10)
        }),
{
    let packet = wire::wrapped(key, state, is_srtp, plain, draw, now_ns);
    let stamp = state.next_stamp(now_ns);
    let header = wire::next_header(state, draw.marker, now_ns);
    let pt = state.payload_type;
    assert((pt & 0x7f) == pt && ((pt & 0x7f) | 0x80) == pt + 128) by (bit_vector)
        requires
            pt < 128,
    ;
    assert(header.len() == 24);
    assert(packet.subrange(0, 24) =~= header);
    assert forall|i: int| 0 <= i < 24 implies packet[i] == header[i] by {
        assert(packet.subrange(0, 24)[i] == packet[i]);
    }
    assert(header[2] == bytes::u16_be(stamp.seq)[0] && header[3] == bytes::u16_be(stamp.seq)[1]);
    assert(packet.subrange(12, 17) =~= seq![0xbeu8, 0xdeu8, 0u8, 2u8, 0x32u8]);
    let time = bytes::u32_be(stamp.timestamp);
    assert(header[4] == time[0] && header[5] == time[1] && header[6] == time[2] && header[7]
        == time[3]);
    let stream = bytes::u32_be(state.ssrc);
    assert(header[8] == stream[0] && header[9] == stream[1] && header[10] == stream[2]
        && header[11] == stream[3]);
    let sent = bytes::u32_be(stamp.abs_send_time);
    assert(header[17] == sent[1] && header[18] == sent[2] && header[19] == sent[3]);
    assert(header[21] == bytes::u16_be(stamp.transport_seq)[0] && header[22] == bytes::u16_be(
        stamp.transport_seq,
    )[1]);
    let padding_end = if is_srtp {
        packet.len() - 10
    } else {
        packet.len() as int
    };
    if is_srtp {
        let message = wire::srtp_message(key, state, plain, draw, now_ns);
        assert(packet.subrange(0, padding_end) =~= message);
        assert(packet.subrange(padding_end, packet.len() as int) =~= wire::srtp_tag(key, message));
        assert(message.len() == 24 + plain.len() + draw.filler@.len() + 1);
        assert(packet[padding_end - 1] == draw.padding().last());
    } else {
        let sealed = wire::aead_sealed(key, state, plain, draw, now_ns);
        assert(packet[padding_end - 1] == draw.padding().last());
    }
    assert(packet.subrange(padding_end - 1 - draw.filler@.len(), padding_end - 1)
        =~= draw.filler@);
}

/// The counters once so many packets were stamped.
pub open spec fn after_packets(state: OutState, count: nat) -> OutState
    decreases count,
{
    if count == 0 {
        state
    } else {
        after_packets(state, (count - 1) as nat).stamped()
    }
}

/// Packets are numbered one after the other, in both counters, and nothing else changes.
pub proof fn packets_are_numbered(state: OutState, count: nat)
    requires
        state.count + count <= u64::MAX,
    ensures
        ({
            let after = after_packets(state, count);
            &&& after.next_seq() == (state.initial_seq + state.count + count) % 65536
            &&& after.transport_seq == (state.transport_seq + count) % 65536
            &&& after == (OutState {
                count: after.count,
                transport_seq: after.transport_seq,
                ..state
            })
            &&& after.count == state.count + count
        }),
    decreases count,
{
    if count > 0 {
        packets_are_numbered(state, (count - 1) as nat);
    }
}

/// The clocks of a stream start where they were set, and make 48 000 ticks a second for audio
/// and 90 000 for video, or 262 144 for the time of sending, wherever they stand.
pub proof fn clocks_keep_time(state: OutState, now_ns: u64)
    requires
        state.started_ns <= now_ns,
        now_ns + 1_000_000_000 <= u64::MAX,
    ensures
        state.timestamp_at(state.started_ns) == state.initial_ts,
        state.initial_abs_send_time < 0x100_0000 ==> state.abs_send_time_at(state.started_ns)
            == state.initial_abs_send_time,
        state.timestamp_at((now_ns + 1_000_000_000) as u64) == (state.timestamp_at(now_ns)
            + (if state.payload_type == 96 {
            90_000int
        } else {
            48_000int
        })) % 0x1_0000_0000,
        state.abs_send_time_at((now_ns + 1_000_000_000) as u64) == (state.abs_send_time_at(now_ns)
            + 262_144) % 0x100_0000,
{
    let age = state.age(now_ns);
    let later = (now_ns + 1_000_000_000) as u64;
    let rate = rtp::clock_rate(state.payload_type);
    assert(state.age(later) == age + 1_000_000_000);
    lemma_second(age, rate);
    lemma_second(age, 262_144);
    lemma_reading(state.initial_ts as int, age, rate, 0x1_0000_0000);
    lemma_reading(state.initial_abs_send_time as int, age, 262_144, 0x100_0000);
    assert(rtp::ticks(0, rate) == 0);
    assert(rtp::ticks(0, 262_144) == 0);
}

/// A clock that wraps shows a second later what it showed and the ticks of a second.
proof fn lemma_reading(initial: int, age: int, rate: int, modulus: int)
    requires
        modulus > 0,
        rtp::ticks(age + 1_000_000_000, rate) == rtp::ticks(age, rate) + rate,
    ensures
        (initial + rtp::ticks(age + 1_000_000_000, rate)) % modulus == ((initial + rtp::ticks(
            age,
            rate,
        )) % modulus + rate) % modulus,
{
    vstd::arithmetic::div_mod::lemma_add_mod_noop_right(
        rate,
        initial + rtp::ticks(age, rate),
        modulus,
    );
}

/// A clock makes as many ticks in a second as it is to.
proof fn lemma_second(age: int, rate: int)
    requires
        rate == 90_000 || rate == 48_000 || rate == 262_144,
    ensures
        rtp::ticks(age + 1_000_000_000, rate) == rtp::ticks(age, rate) + rate,
{
    assert((age + 1_000_000_000) * rate == age * rate + rate * 1_000_000_000) by (nonlinear_arith);
    vstd::arithmetic::div_mod::lemma_hoist_over_denominator(age * rate, rate, 1_000_000_000);
}

/// A clock never runs backwards: a later packet carries the same number of ticks or more,
/// before the clock wraps.
pub proof fn clocks_do_not_run_backwards(state: OutState, earlier_ns: u64, later_ns: u64)
    requires
        state.started_ns <= earlier_ns <= later_ns,
    ensures
        rtp::ticks(state.age(earlier_ns), rtp::clock_rate(state.payload_type)) <= rtp::ticks(
            state.age(later_ns),
            rtp::clock_rate(state.payload_type),
        ),
{
    let rate = rtp::clock_rate(state.payload_type);
    let early = state.age(earlier_ns);
    let late = state.age(later_ns);
    assert(early * rate <= late * rate) by (nonlinear_arith)
        requires
            0 <= early <= late,
            rate > 0,
    ;
    vstd::arithmetic::div_mod::lemma_div_is_ordered(early * rate, late * rate, 1_000_000_000);
}

/// No two of 65 536 packets that a session sends in a row are encrypted under the same nonce,
/// whenever they are sent.
pub proof fn nonces_differ(
    state: OutState,
    count: nat,
    now_ns: u64,
    later_ns: u64,
)
    requires
        0 < count < 65536,
        state.count + count <= u64::MAX,
    ensures
        ({
            let first = state.next_stamp(now_ns);
            let second = after_packets(state, count).next_stamp(later_ns);
            &&& rtp::packet_nonce(state.ssrc, first.seq, first.timestamp) != rtp::packet_nonce(
                state.ssrc,
                second.seq,
                second.timestamp,
            )
            &&& rtp::packet_iv(state.ssrc, first.seq, first.timestamp) != rtp::packet_iv(
                state.ssrc,
                second.seq,
                second.timestamp,
            )
        }),
{
    packets_are_numbered(state, count);
    let first = state.next_stamp(now_ns);
    let second = after_packets(state, count).next_stamp(later_ns);
    assert(first.seq != second.seq);
    let left = rtp::packet_nonce(state.ssrc, first.seq, first.timestamp);
    let right = rtp::packet_nonce(state.ssrc, second.seq, second.timestamp);
    assert(bytes::u16_of(left[4], left[5]) == first.seq);
    assert(bytes::u16_of(right[4], right[5]) == second.seq);
    let left_iv = rtp::packet_iv(state.ssrc, first.seq, first.timestamp);
    let right_iv = rtp::packet_iv(state.ssrc, second.seq, second.timestamp);
    assert(left_iv[4] == left[4] && left_iv[5] == left[5]);
    assert(right_iv[4] == right[4] && right_iv[5] == right[5]);
}

/// A packet is wrapped if and only if it fits: header, payload, filler with its length, and
/// tag. A payload that the cipher of the RTP mode cannot take is refused.
pub proof fn packets_that_fit_are_wrapped(
    is_srtp: bool,
    plain_len: nat,
    filler_len: nat,
    capacity: nat,
)
    requires
        capacity <= usize::MAX,
        plain_len < 274_877_906_880,
    ensures
        wire::wrap_error(is_srtp, plain_len, filler_len, capacity) is None <==> 24 + plain_len
            + filler_len + 1 + (if is_srtp {
            10int
        } else {
            16int
        }) <= capacity,
{
}

/// The clock of a stream shows as many whole ticks as have gone by since it started, neither one
/// more nor one less: 48 000 make a second, or 90 000 for video.
pub proof fn clocks_are_exact(state: OutState, now_ns: u64) -> (gone: int)
    requires
        state.started_ns <= now_ns,
    ensures
        ({
            let rate = if state.payload_type == 96 {
                90_000int
            } else {
                48_000int
            };
            &&& state.timestamp_at(now_ns) == (state.initial_ts + gone) % 0x1_0000_0000
            &&& gone * 1_000_000_000 <= (now_ns - state.started_ns) * rate
            &&& (now_ns - state.started_ns) * rate < (gone + 1) * 1_000_000_000
        }),
{
    let rate = rtp::clock_rate(state.payload_type);
    let age = state.age(now_ns);
    lemma_whole_ticks(age, rate);
    rtp::ticks(age, rate)
}

/// The time of sending is told in the same way, in 262 144 ticks a second.
pub proof fn sending_times_are_exact(state: OutState, now_ns: u64) -> (gone: int)
    requires
        state.started_ns <= now_ns,
    ensures
        state.abs_send_time_at(now_ns) == (state.initial_abs_send_time + gone) % 0x100_0000,
        gone * 1_000_000_000 <= (now_ns - state.started_ns) * 262_144,
        (now_ns - state.started_ns) * 262_144 < (gone + 1) * 1_000_000_000,
{
    let age = state.age(now_ns);
    lemma_whole_ticks(age, 262_144);
    rtp::ticks(age, 262_144)
}

proof fn lemma_whole_ticks(age: int, rate: int)
    requires
        age >= 0,
        rate >= 0,
    ensures
        rtp::ticks(age, rate) * 1_000_000_000 <= age * rate,
        age * rate < (rtp::ticks(age, rate) + 1) * 1_000_000_000,
{
    vstd::arithmetic::div_mod::lemma_fundamental_div_mod(age * rate, 1_000_000_000);
    vstd::arithmetic::div_mod::lemma_mod_bound(age * rate, 1_000_000_000);
}

} // verus!
