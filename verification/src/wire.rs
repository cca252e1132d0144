//! Wrapping and unwrapping of packets: RTP framing around AES-CTR with HMAC-SHA1 (the
//! SRTP mode) or around ChaCha20-Poly1305 (the RTP mode).
use crate::bytes;
use crate::bytes::{u16_from_be, u32_from_be, write_at};
use crate::crypto;
use crate::crypto::{
    aes128_ctr_apply, chacha20_poly1305_open_in_place, chacha20_poly1305_seal_in_place,
    constant_time_eq, hmac_sha1, random_below, random_fill, AEAD_MAX_LEN, AEAD_TAG_LEN,
};
use crate::rtp;
use crate::rtp::{
    build_srtp_iv, nonce, rtp_header, rtp_header_len, HeaderError, OutState, PacketStamp, HEADER_LEN,
    PAYLOAD_TYPE_AUDIO, PAYLOAD_TYPE_VIDEO,
};
use rand::rngs::StdRng;
use vstd::prelude::*;

verus! {

/// The length of the truncated HMAC that ends an SRTP packet.
pub const SRTP_TAG_LEN: usize = 10;

/// The payload type, besides audio and video, that incoming packets may carry.
pub const PAYLOAD_TYPE_AUXILIARY: u8 = 6;

/// The length of the header of a DTLS record.
pub const RECORD_HEADER_LEN: usize = 13;

/// The secret that a password gives: half of it keys AES, half HMAC, all of it ChaCha20.
#[derive(Clone, Copy)]
pub struct WrapKey {
    pub bytes: [u8; 32],
}

impl WrapKey {
    /// The AES key.
    pub open spec fn aes(self) -> Seq<u8> {
        self.bytes@.subrange(0, 16)
    }

    /// The HMAC key.
    pub open spec fn hmac(self) -> Seq<u8> {
        self.bytes@.subrange(16, 32)
    }
}

/// The AES half of a key.
pub fn make_aes_key(key: &WrapKey) -> (half: &[u8])
    ensures
        half@ == key.aes(),
        half@.len() == 16,
{
    vstd::slice::slice_subrange(key.bytes.as_slice(), 0, 16)
}

/// The HMAC half of a key.
pub fn make_hmac_key(key: &WrapKey) -> (half: &[u8])
    ensures
        half@ == key.hmac(),
        half@.len() == 16,
{
    vstd::slice::slice_subrange(key.bytes.as_slice(), 16, 32)
}

/// A packet buffer of fixed capacity.
pub struct PacketBuf {
    storage: Vec<u8>,
    len: usize,
}

impl View for PacketBuf {
    type V = Seq<u8>;

    /// The bytes that are filled in.
    closed spec fn view(&self) -> Seq<u8> {
        self.storage@.subrange(0, self.len as int)
    }
}

impl PacketBuf {
    /// The filled part lies within the storage.
    pub closed spec fn wf(&self) -> bool {
        self.len <= self.storage@.len()
    }

    /// How many bytes the buffer can hold.
    pub closed spec fn spec_capacity(&self) -> nat {
        self.storage@.len()
    }

    /// A buffer that is in order holds no more than it can.
    pub proof fn contents_fit(&self)
        requires
            self.wf(),
        ensures
            self@.len() <= self.spec_capacity(),
    {
    }

    /// An empty buffer of `capacity` bytes.
    pub fn new(capacity: usize) -> (buf: PacketBuf)
        ensures
            buf.wf(),
            buf.spec_capacity() == capacity,
            buf@ == Seq::<u8>::empty(),
    {
        let mut storage: Vec<u8> = Vec::new();
        storage.resize(capacity, 0);
        let buf = PacketBuf { storage, len: 0 };
        assert(buf@ =~= Seq::<u8>::empty());
        buf
    }

    /// How many bytes the buffer can hold.
    pub fn capacity(&self) -> (capacity: usize)
        ensures
            capacity == self.spec_capacity(),
    {
        self.storage.len()
    }

    /// The bytes that are filled in.
    pub fn as_slice(&self) -> (filled: &[u8])
        requires
            self.wf(),
        ensures
            filled@ == self@,
    {
        vstd::slice::slice_subrange(self.storage.as_slice(), 0, self.len)
    }

    /// Replaces the contents by `data`, or does nothing where `data` does not fit.
    pub fn copy_from(&mut self, data: &[u8]) -> (fits: bool)
        requires
            old(self).wf(),
        ensures
            final(self).wf(),
            final(self).spec_capacity() == old(self).spec_capacity(),
            fits == (data@.len() <= old(self).spec_capacity()),
            fits ==> final(self)@ == data@,
            !fits ==> final(self)@ == old(self)@,
    {
        if data.len() > self.storage.len() {
            return false;
        }
        write_at(self.storage.as_mut_slice(), 0, data);
        self.len = data.len();
        assert(self@ =~= data@);
        true
    }
}

/// Why a packet could not be unwrapped.
#[derive(Clone, Copy, Debug, PartialEq, Eq, Structural)]
pub enum UnwrapError {
    Header(HeaderError),
    UnsupportedPayloadType,
    SrtpPadding,
    SrtpAuthentication,
    SrtpTooShort,
    Padding,
    EmptyPayload,
    ExpectedAudio,
    Authentication,
}

/// Where the payload of an unwrapped packet lies.
#[derive(Clone, Copy, Debug, PartialEq, Eq, Structural)]
pub struct RangePair {
    pub start: usize,
    pub end: usize,
}

impl RangePair {
    /// The bytes of `packet` that lie in the range.
    pub fn get<'a>(&self, packet: &'a [u8]) -> (payload: &'a [u8])
        requires
            self.start <= self.end <= packet@.len(),
        ensures
            payload@ == packet@.subrange(self.start as int, self.end as int),
    {
        vstd::slice::slice_subrange(packet, self.start, self.end)
    }
}

/// What an unwrapped packet is.
#[derive(Clone, Copy, Debug, PartialEq, Eq, Structural)]
pub struct DecodedPacket {
    pub range: RangePair,
    pub seq: u16,
    pub payload_type: u8,
    pub is_srtp: bool,
}

/// An unwrapped packet: after `header_len` bytes of header came the encrypted form of
/// `body`, and `plain` is the part of `body` that counts.
pub struct Unwrapped {
    pub header_len: int,
    pub body: Seq<u8>,
    pub plain: Seq<u8>,
    pub seq: int,
    pub payload_type: u8,
    pub is_srtp: bool,
}

/// The tag that ends an SRTP packet whose other bytes are `message`.
pub open spec fn srtp_tag(key: WrapKey, message: Seq<u8>) -> Seq<u8> {
    crypto::hmac_sha1_tag(key.hmac(), message).subrange(0, SRTP_TAG_LEN as int)
}

/// `wire` ends in the tag of what stands before it.
pub open spec fn srtp_authentic(key: WrapKey, wire: Seq<u8>, header_len: int) -> bool {
    let message_len = wire.len() - SRTP_TAG_LEN;
    message_len >= header_len && srtp_tag(key, wire.subrange(0, message_len)) == wire.subrange(
        message_len,
        wire.len() as int,
    )
}

/// Where the payload ends once the padding before `end` is taken off. The padding bit of
/// the first byte says whether there is any; its last byte says how much.
pub open spec fn unpadded_end(wire: Seq<u8>, header_len: int, end: int) -> Option<int> {
    let padding = wire[end - 1] as int;
    if wire[0] & 0x20 == 0 {
        Some(end)
    } else if padding == 0 || padding > end - header_len {
        None
    } else {
        Some(end - padding)
    }
}

/// How many bytes of `data` the complete DTLS records at its start take up.
pub open spec fn record_span(data: Seq<u8>) -> int
    decreases data.len(),
{
    let len = RECORD_HEADER_LEN + bytes::u16_of(data[11], data[12]);
    if data.len() < RECORD_HEADER_LEN || !(20 <= data[0] <= 23) || data[1] != 0xfe || len
        > data.len() {
        0
    } else {
        len + record_span(data.subrange(len, data.len() as int))
    }
}

/// The part of a decrypted SRTP body that counts: its complete DTLS records where it
/// starts with one, else all of it.
pub open spec fn significant(body: Seq<u8>) -> Seq<u8> {
    let span = record_span(body);
    if span > 0 {
        body.subrange(0, span)
    } else {
        body
    }
}

/// The RTP timestamp of a packet.
pub open spec fn timestamp_of(wire: Seq<u8>) -> u32 {
    bytes::u32_at(wire, 4) as u32
}

/// The stream identifier of a packet.
pub open spec fn ssrc_of(wire: Seq<u8>) -> u32 {
    bytes::u32_at(wire, 8) as u32
}

/// The sequence number of a packet.
pub open spec fn seq_of(wire: Seq<u8>) -> u16 {
    bytes::u16_of(wire[2], wire[3]) as u16
}

/// What an authentic SRTP packet holds.
pub open spec fn decode_srtp(key: WrapKey, wire: Seq<u8>, header_len: int) -> Result<
    Unwrapped,
    UnwrapError,
> {
    match unpadded_end(wire, header_len, wire.len() - SRTP_TAG_LEN) {
        None => Err(UnwrapError::SrtpPadding),
        Some(end) => {
            let iv = rtp::packet_iv(ssrc_of(wire), seq_of(wire), timestamp_of(wire));
            let body = crypto::aes128_ctr(key.aes(), iv, wire.subrange(header_len, end));
            Ok(
                Unwrapped {
                    header_len,
                    body,
                    plain: significant(body),
                    seq: seq_of(wire) as int,
                    payload_type: wire[1] & 0x7f,
                    is_srtp: true,
                },
            )
        },
    }
}

/// What a packet in the RTP mode holds.
pub open spec fn decode_aead(key: WrapKey, wire: Seq<u8>, header_len: int) -> Result<
    Unwrapped,
    UnwrapError,
> {
    match unpadded_end(wire, header_len, wire.len() as int) {
        None => Err(UnwrapError::Padding),
        Some(end) => {
            let tag_at = end - AEAD_TAG_LEN;
            if tag_at <= header_len {
                Err(UnwrapError::EmptyPayload)
            } else if wire[1] & 0x7f != PAYLOAD_TYPE_AUDIO {
                Err(UnwrapError::ExpectedAudio)
            } else {
                match crypto::chacha20_poly1305_open(
                    key.bytes@,
                    rtp::packet_nonce(ssrc_of(wire), seq_of(wire), timestamp_of(wire)),
                    wire.subrange(0, header_len),
                    wire.subrange(header_len, tag_at),
                    wire.subrange(tag_at, end),
                ) {
                    None => Err(UnwrapError::Authentication),
                    Some(body) => Ok(
                        Unwrapped {
                            header_len,
                            body,
                            plain: body,
                            seq: seq_of(wire) as int,
                            payload_type: PAYLOAD_TYPE_AUDIO,
                            is_srtp: false,
                        },
                    ),
                }
            }
        },
    }
}

/// What the packet `wire` holds under `key`. With `expected_srtp` set the packet must be
/// in that mode; without it the mode is SRTP where the SRTP tag is right.
pub open spec fn decode(key: WrapKey, wire: Seq<u8>, expected_srtp: Option<bool>) -> Result<
    Unwrapped,
    UnwrapError,
> {
    let payload_type = wire[1] & 0x7f;
    match rtp::header_len_of(wire) {
        Err(error) => Err(UnwrapError::Header(error)),
        Ok(header_len) => if payload_type != PAYLOAD_TYPE_AUDIO && payload_type
            != PAYLOAD_TYPE_VIDEO && payload_type != PAYLOAD_TYPE_AUXILIARY {
            Err(UnwrapError::UnsupportedPayloadType)
        } else if expected_srtp != Some(false) && srtp_authentic(key, wire, header_len) {
            decode_srtp(key, wire, header_len)
        } else if expected_srtp == Some(true) {
            if wire.len() >= header_len + SRTP_TAG_LEN {
                Err(UnwrapError::SrtpAuthentication)
            } else {
                Err(UnwrapError::SrtpTooShort)
            }
        } else {
            decode_aead(key, wire, header_len)
        },
    }
}

/// `wire`, a packet in the RTP mode, with zeros for ciphertext.
pub open spec fn wiped(wire: Seq<u8>) -> Seq<u8> {
    let header_len = rtp::header_len_of(wire)->Ok_0;
    let end = unpadded_end(wire, header_len, wire.len() as int)->Some_0;
    let zeros = Seq::new((end - AEAD_TAG_LEN - header_len) as nat, |i: int| 0u8);
    bytes::overwritten(wire, header_len, zeros)
}

/// How many bytes the complete DTLS records that start at `start` and end by `end` take up.
fn complete_records(wire: &[u8], start: usize, end: usize) -> (span: usize)
    requires
        start <= end <= wire@.len(),
    ensures
        span == record_span(wire@.subrange(start as int, end as int)),
        start + span <= end,
{
    let mut offset: usize = start;
    let ghost whole = record_span(wire@.subrange(start as int, end as int));
    while end - offset >= RECORD_HEADER_LEN
        invariant_except_break
            start <= offset <= end <= wire@.len(),
            whole == offset - start + record_span(wire@.subrange(offset as int, end as int)),
        ensures
            start <= offset <= end,
            whole == offset - start,
        decreases end - offset,
    {
        let ghost rest = wire@.subrange(offset as int, end as int);
        if wire[offset] < 20 || wire[offset] > 23 || wire[offset + 1] != 0xfe {
            break ;
        }
        let len: usize = RECORD_HEADER_LEN + (u16_from_be(
            wire[offset + 11],
            wire[offset + 12],
        ) as usize);
        if len > end - offset {
            break ;
        }
        assert(rest.subrange(len as int, rest.len() as int) =~= wire@.subrange(
            offset + len,
            end as int,
        ));
        offset = offset + len;
    }
    offset - start
}

/// Takes off the padding before `end`: where the payload ends, or `None` where the padding
/// is malformed.
fn strip_padding(wire: &[u8], header_len: usize, end: usize) -> (stripped: Option<usize>)
    requires
        1 <= header_len <= end <= wire@.len(),
    ensures
        match stripped {
            Some(at) => unpadded_end(wire@, header_len as int, end as int) == Some(at as int)
                && header_len <= at <= end,
            None => unpadded_end(wire@, header_len as int, end as int) is None,
        },
{
    if wire[0] & 0x20 == 0 {
        return Some(end);
    }
    let padding: usize = wire[end - 1] as usize;
    if padding == 0 || padding > end - header_len {
        return None;
    }
    Some(end - padding)
}

/// Lays the AES key stream over the bytes of `wire` from `start` to `end`.
fn apply_keystream(aes: &[u8], iv: &[u8], wire: &mut [u8], start: usize, end: usize)
    requires
        aes@.len() == 16,
        iv@.len() == 16,
        start <= end <= old(wire)@.len(),
    ensures
        final(wire)@ == bytes::overwritten(
            old(wire)@,
            start as int,
            crypto::aes128_ctr(aes@, iv@, old(wire)@.subrange(start as int, end as int)),
        ),
{
    let ghost before = wire@;
    let (head, rest) = wire.split_at_mut(start);
    let (body, tail) = rest.split_at_mut(end - start);
    let ghost body_before = body@;
    assert(body_before =~= before.subrange(start as int, end as int));
    aes128_ctr_apply(aes, iv, body);
    assert(body@ =~= crypto::aes128_ctr(aes@, iv@, body_before));
    assert(head@ + (body@ + tail@) =~= bytes::overwritten(before, start as int, body@));
}

/// Unwraps a packet in place.
///
/// Where that succeeds, the payload stands in `wire` at the range returned. Where a tag
/// does not authenticate the packet in the RTP mode, its ciphertext is wiped; every other
/// error leaves `wire` as it was.
pub fn unwrap_legacy_in_place(
    key: &WrapKey,
    wire: &mut [u8],
    expected_srtp: Option<bool>,
) -> (decoded: Result<DecodedPacket, UnwrapError>)
    ensures
        final(wire)@.len() == old(wire)@.len(),
        match decoded {
            Ok(packet) => {
                &&& decode(*key, old(wire)@, expected_srtp) matches Ok(unwrapped)
                &&& packet.range.start == unwrapped.header_len
                &&& packet.range.end == unwrapped.header_len + unwrapped.plain.len()
                &&& packet.seq == unwrapped.seq
                &&& packet.payload_type == unwrapped.payload_type
                &&& packet.is_srtp == unwrapped.is_srtp
                &&& packet.range.end <= final(wire)@.len()
                &&& final(wire)@ == bytes::overwritten(
                    old(wire)@,
                    unwrapped.header_len,
                    unwrapped.body,
                )
                &&& final(wire)@.subrange(packet.range.start as int, packet.range.end as int)
                    == unwrapped.plain
            },
            Err(error) => {
                &&& decode(*key, old(wire)@, expected_srtp) == Err::<Unwrapped, UnwrapError>(error)
                &&& error != UnwrapError::Authentication ==> final(wire)@ == old(wire)@
                &&& error == UnwrapError::Authentication ==> final(wire)@ == wiped(old(wire)@)
            },
        },
{
    let ghost before = wire@;
    let header_len: usize = match rtp_header_len(wire) {
        Ok(len) => len,
        Err(error) => return Err(UnwrapError::Header(error)),
    };
    let payload_type: u8 = wire[1] & 0x7f;
    if payload_type != PAYLOAD_TYPE_AUDIO && payload_type != PAYLOAD_TYPE_VIDEO && payload_type
        != PAYLOAD_TYPE_AUXILIARY {
        return Err(UnwrapError::UnsupportedPayloadType);
    }
    let seq: u16 = u16_from_be(wire[2], wire[3]);
    let timestamp: u32 = u32_from_be(wire, 4);
    let ssrc: u32 = u32_from_be(wire, 8);
    let only_srtp: bool = expected_srtp == Some(true);
    if expected_srtp != Some(false) {
        if wire.len() - header_len >= SRTP_TAG_LEN {
            let message_len: usize = wire.len() - SRTP_TAG_LEN;
            let (message, tag) = wire.split_at(message_len);
            let expected = hmac_sha1(make_hmac_key(key), message);
            let short_tag = vstd::slice::slice_subrange(expected.as_slice(), 0, SRTP_TAG_LEN);
            assert(message@ =~= before.subrange(0, message_len as int));
            if constant_time_eq(short_tag, tag) {
                assert(srtp_authentic(*key, before, header_len as int));
                let end: usize = match strip_padding(wire, header_len, message_len) {
                    Some(end) => end,
                    None => return Err(UnwrapError::SrtpPadding),
                };
                let iv = build_srtp_iv(ssrc, seq, timestamp);
                apply_keystream(make_aes_key(key), iv.as_slice(), wire, header_len, end);
                let ghost body = crypto::aes128_ctr(
                    key.aes(),
                    iv@,
                    before.subrange(header_len as int, end as int),
                );
                assert(wire@.subrange(header_len as int, end as int) =~= body);
                let span: usize = complete_records(wire, header_len, end);
                let plain_end: usize = if span > 0 {
                    header_len + span
                } else {
                    end
                };
                assert(wire@.subrange(header_len as int, plain_end as int) =~= significant(body));
                return Ok(
                    DecodedPacket {
                        range: RangePair { start: header_len, end: plain_end },
                        seq,
                        payload_type,
                        is_srtp: true,
                    },
                );
            }
            assert(!srtp_authentic(*key, before, header_len as int));
            if only_srtp {
                return Err(UnwrapError::SrtpAuthentication);
            }
        } else if only_srtp {
            return Err(UnwrapError::SrtpTooShort);
        }
    }
    let end: usize = match strip_padding(wire, header_len, wire.len()) {
        Some(end) => end,
        None => return Err(UnwrapError::Padding),
    };
    if end - header_len <= AEAD_TAG_LEN {
        return Err(UnwrapError::EmptyPayload);
    }
    if payload_type != PAYLOAD_TYPE_AUDIO {
        return Err(UnwrapError::ExpectedAudio);
    }
    let tag_at: usize = end - AEAD_TAG_LEN;
    let (aad, rest) = wire.split_at_mut(header_len);
    let (ciphertext, tail) = rest.split_at_mut(tag_at - header_len);
    let (tag, padding) = tail.split_at_mut(AEAD_TAG_LEN);
    assert(aad@ =~= before.subrange(0, header_len as int));
    assert(ciphertext@ =~= before.subrange(header_len as int, tag_at as int));
    assert(tag@ =~= before.subrange(tag_at as int, end as int));
    let ghost aad_before = aad@;
    let ghost tag_before = tag@;
    let ghost padding_before = padding@;
    let opened = chacha20_poly1305_open_in_place(
        key.bytes.as_slice(),
        nonce(ssrc, seq, timestamp),
        aad,
        tag,
        ciphertext,
    );
    let ghost body = ciphertext@;
    assert(aad_before + (body + (tag_before + padding_before)) =~= bytes::overwritten(
        before,
        header_len as int,
        body,
    ));
    if opened.is_err() {
        assert(wire@ =~= wiped(before));
        return Err(UnwrapError::Authentication);
    }
    assert(wire@ =~= bytes::overwritten(before, header_len as int, body));
    assert(wire@.subrange(header_len as int, tag_at as int) =~= body);
    Ok(
        DecodedPacket {
            range: RangePair { start: header_len, end: tag_at },
            seq,
            payload_type,
            is_srtp: false,
        },
    )
}

/// Why a packet could not be wrapped.
#[derive(Clone, Copy, Debug, PartialEq, Eq, Structural)]
pub enum WrapError {
    LengthOverflow,
    ExceedsCapacity,
    Encryption,
}

/// What the caller chose by chance for one outgoing packet: whether to set the marker bit,
/// and the bytes that pad it before the byte that counts them.
pub struct Draw {
    pub marker: bool,
    pub filler: Vec<u8>,
}

/// The exclusive bound on the number of filler bytes.
pub open spec fn filler_limit(payload_type: u8, is_srtp: bool) -> int {
    if is_srtp {
        if payload_type == PAYLOAD_TYPE_VIDEO {
            60
        } else {
            24
        }
    } else if payload_type == PAYLOAD_TYPE_AUDIO {
        24
    } else {
        60
    }
}

impl Draw {
    /// A draw that may be made for a packet: only video packets get the marker bit.
    pub open spec fn admissible(self, payload_type: u8, is_srtp: bool) -> bool {
        &&& self.marker ==> payload_type == PAYLOAD_TYPE_VIDEO
        &&& self.filler@.len() < filler_limit(payload_type, is_srtp)
    }

    /// The padding, which ends in its own length.
    pub open spec fn padding(self) -> Seq<u8> {
        self.filler@.push((self.filler@.len() + 1) as u8)
    }
}

/// The header that `state` gives the next packet at `now_ns`.
pub open spec fn next_header(state: OutState, marker: bool, now_ns: u64) -> Seq<u8> {
    rtp::header_bytes(state.payload_type, marker, state.ssrc, state.next_stamp(now_ns))
}

/// The part of an SRTP packet that its tag covers.
pub open spec fn srtp_message(
    key: WrapKey,
    state: OutState,
    plain: Seq<u8>,
    draw: Draw,
    now_ns: u64,
) -> Seq<u8> {
    let stamp = state.next_stamp(now_ns);
    let iv = rtp::packet_iv(state.ssrc, stamp.seq, stamp.timestamp);
    next_header(state, draw.marker, now_ns) + crypto::aes128_ctr(key.aes(), iv, plain)
        + draw.padding()
}

/// The ciphertext and tag of a packet in the RTP mode.
pub open spec fn aead_sealed(
    key: WrapKey,
    state: OutState,
    plain: Seq<u8>,
    draw: Draw,
    now_ns: u64,
) -> (Seq<u8>, Seq<u8>) {
    let stamp = state.next_stamp(now_ns);
    crypto::chacha20_poly1305_seal(
        key.bytes@,
        rtp::packet_nonce(state.ssrc, stamp.seq, stamp.timestamp),
        next_header(state, draw.marker, now_ns),
        plain,
    )
}

/// The packet that carries `plain`.
pub open spec fn wrapped(
    key: WrapKey,
    state: OutState,
    is_srtp: bool,
    plain: Seq<u8>,
    draw: Draw,
    now_ns: u64,
) -> Seq<u8> {
    if is_srtp {
        let message = srtp_message(key, state, plain, draw, now_ns);
        message + srtp_tag(key, message)
    } else {
        let sealed = aead_sealed(key, state, plain, draw, now_ns);
        next_header(state, draw.marker, now_ns) + sealed.0 + sealed.1 + draw.padding()
    }
}

/// The length of the packet that carries `plain_len` bytes and `filler_len` bytes of filler.
pub open spec fn wrapped_len(is_srtp: bool, plain_len: nat, filler_len: nat) -> int {
    HEADER_LEN + plain_len + filler_len + 1 + if is_srtp {
        SRTP_TAG_LEN
    } else {
        AEAD_TAG_LEN
    }
}

/// Whether a packet can be wrapped into a buffer of `capacity` bytes.
pub open spec fn wrap_error(
    is_srtp: bool,
    plain_len: nat,
    filler_len: nat,
    capacity: nat,
) -> Option<WrapError> {
    let total = wrapped_len(is_srtp, plain_len, filler_len);
    if total > usize::MAX {
        Some(WrapError::LengthOverflow)
    } else if total > capacity {
        Some(WrapError::ExceedsCapacity)
    } else if !is_srtp && plain_len >= AEAD_MAX_LEN {
        Some(WrapError::Encryption)
    } else {
        None
    }
}

/// The sequence number, timestamp and stream of the next packet can be read back from its
/// header.
proof fn header_reads_back(state: OutState, marker: bool, now_ns: u64, rest: Seq<u8>)
    requires
        state.payload_type < 128,
        rest.len() > 0,
    ensures
        ({
            let wire = next_header(state, marker, now_ns) + rest;
            let stamp = state.next_stamp(now_ns);
            &&& rtp::header_len_of(wire) == Ok::<int, HeaderError>(HEADER_LEN as int)
            &&& wire[0] & 0x20 != 0
            &&& wire[1] & 0x7f == state.payload_type
            &&& seq_of(wire) == stamp.seq
            &&& timestamp_of(wire) == stamp.timestamp
            &&& ssrc_of(wire) == state.ssrc
        }),
{
    let header = next_header(state, marker, now_ns);
    let wire = header + rest;
    let stamp = state.next_stamp(now_ns);
    assert(header.len() == HEADER_LEN);
    assert(wire[0] == 0xb0);
    assert(0xb0u8 >> 6 == 2 && 0xb0u8 & 0x10 != 0 && 0xb0u8 & 0x20 != 0) by (bit_vector);
    let pt = state.payload_type;
    assert(((pt & 0x7f) | 0x80) & 0x7f == pt && (pt & 0x7f) & 0x7f == pt) by (bit_vector)
        requires
            pt < 128,
    ;
    assert(wire[1] == rtp::type_byte(pt, marker));
    assert(wire[14] == 0 && wire[15] == 2);
    assert(wire[2] == bytes::u16_be(stamp.seq)[0] && wire[3] == bytes::u16_be(stamp.seq)[1]);
    assert forall|i: int| 0 <= i < 4 implies wire.subrange(4, 8)[i] == bytes::u32_be(
        stamp.timestamp,
    )[i] && wire.subrange(8, 12)[i] == bytes::u32_be(state.ssrc)[i] by {}
    assert(wire.subrange(4, 8) =~= bytes::u32_be(stamp.timestamp));
    assert(wire.subrange(8, 12) =~= bytes::u32_be(state.ssrc));
    assert(bytes::u32_at(wire, 4) == bytes::u32_at(wire.subrange(4, 8), 0));
    assert(bytes::u32_at(wire, 8) == bytes::u32_at(wire.subrange(8, 12), 0));
}

/// What is wrapped in the SRTP mode unwraps, as SRTP or with the mode left open, to what
/// went in, short of bytes that trail complete DTLS records.
#[verifier::rlimit(40)]
pub proof fn srtp_unwraps_what_was_wrapped(
    key: WrapKey,
    state: OutState,
    plain: Seq<u8>,
    draw: Draw,
    now_ns: u64,
    expected_srtp: Option<bool>,
)
    requires
        state.payload_type == PAYLOAD_TYPE_AUDIO || state.payload_type == PAYLOAD_TYPE_VIDEO
            || state.payload_type == PAYLOAD_TYPE_AUXILIARY,
        draw.admissible(state.payload_type, true),
        expected_srtp != Some(false),
        crypto::hmac_sha1_tag(
            key.hmac(),
            srtp_message(key, state, plain, draw, now_ns),
        ).len() == crypto::HMAC_SHA1_LEN,
    ensures
        decode(key, wrapped(key, state, true, plain, draw, now_ns), expected_srtp) == Ok::<
            Unwrapped,
            UnwrapError,
        >(
            Unwrapped {
                header_len: HEADER_LEN as int,
                body: plain,
                plain: significant(plain),
                seq: state.next_seq(),
                payload_type: state.payload_type,
                is_srtp: true,
            },
        ),
{
    let stamp = state.next_stamp(now_ns);
    let iv = rtp::packet_iv(state.ssrc, stamp.seq, stamp.timestamp);
    let header = next_header(state, draw.marker, now_ns);
    let body = crypto::aes128_ctr(key.aes(), iv, plain);
    let message = srtp_message(key, state, plain, draw, now_ns);
    let wire = wrapped(key, state, true, plain, draw, now_ns);
    let rest = body + draw.padding() + srtp_tag(key, message);
    assert(wire =~= header + rest);
    header_reads_back(state, draw.marker, now_ns, rest);
    assert(header.len() == HEADER_LEN);
    let end = wire.len() - SRTP_TAG_LEN;
    assert(wire.subrange(0, end) =~= message);
    assert(wire.subrange(end, wire.len() as int) =~= srtp_tag(key, message));
    assert(srtp_authentic(key, wire, HEADER_LEN as int));
    assert(wire[end - 1] == draw.filler@.len() + 1);
    let stripped = end - (draw.filler@.len() + 1);
    assert(unpadded_end(wire, HEADER_LEN as int, end) == Some(stripped));
    assert(wire.subrange(HEADER_LEN as int, stripped) =~= body);
    crypto::aes128_ctr_is_its_own_inverse(key.aes(), iv, plain);
    assert(stamp.seq == state.next_seq());
}

/// What is wrapped in the RTP mode unwraps in that mode to what went in, given that the
/// cipher opens what it sealed.
pub proof fn aead_unwraps_what_was_wrapped(
    key: WrapKey,
    state: OutState,
    plain: Seq<u8>,
    draw: Draw,
    now_ns: u64,
)
    requires
        state.payload_type == PAYLOAD_TYPE_AUDIO,
        draw.admissible(state.payload_type, false),
        plain.len() > 0,
        ({
            let stamp = state.next_stamp(now_ns);
            let sealed = aead_sealed(key, state, plain, draw, now_ns);
            &&& sealed.0.len() == plain.len()
            &&& sealed.1.len() == AEAD_TAG_LEN
            &&& crypto::chacha20_poly1305_open(
                key.bytes@,
                rtp::packet_nonce(state.ssrc, stamp.seq, stamp.timestamp),
                next_header(state, draw.marker, now_ns),
                sealed.0,
                sealed.1,
            ) == Some(plain)
        }),
    ensures
        decode(key, wrapped(key, state, false, plain, draw, now_ns), Some(false)) == Ok::<
            Unwrapped,
            UnwrapError,
        >(
            Unwrapped {
                header_len: HEADER_LEN as int,
                body: plain,
                plain,
                seq: state.next_seq(),
                payload_type: PAYLOAD_TYPE_AUDIO,
                is_srtp: false,
            },
        ),
{
    let stamp = state.next_stamp(now_ns);
    let header = next_header(state, draw.marker, now_ns);
    let sealed = aead_sealed(key, state, plain, draw, now_ns);
    let wire = wrapped(key, state, false, plain, draw, now_ns);
    let rest = sealed.0 + sealed.1 + draw.padding();
    assert(wire =~= header + rest);
    header_reads_back(state, draw.marker, now_ns, rest);
    assert(header.len() == HEADER_LEN);
    let end = wire.len() as int;
    assert(wire[end - 1] == draw.filler@.len() + 1);
    let stripped = end - (draw.filler@.len() + 1);
    assert(unpadded_end(wire, HEADER_LEN as int, end) == Some(stripped));
    let tag_at = stripped - AEAD_TAG_LEN;
    assert(wire.subrange(0, HEADER_LEN as int) =~= header);
    assert(wire.subrange(HEADER_LEN as int, tag_at) =~= sealed.0);
    assert(wire.subrange(tag_at, stripped) =~= sealed.1);
    assert(stamp.seq == state.next_seq());
}

/// Writes header, ciphertext, padding and tag of an SRTP packet to the start of `storage`.
fn fill_srtp(
    key: &WrapKey,
    ssrc: u32,
    stamp: PacketStamp,
    header: &[u8],
    plain: &[u8],
    draw: &Draw,
    storage: &mut Vec<u8>,
)
    requires
        header@.len() == HEADER_LEN,
        draw.filler@.len() < 255,
        wrapped_len(true, plain@.len(), draw.filler@.len()) <= old(storage)@.len(),
    ensures
        final(storage)@.len() == old(storage)@.len(),
        ({
            let iv = rtp::packet_iv(ssrc, stamp.seq, stamp.timestamp);
            let message = header@ + crypto::aes128_ctr(key.aes(), iv, plain@) + draw.padding();
            &&& final(storage)@.subrange(
                0,
                wrapped_len(true, plain@.len(), draw.filler@.len()),
            ) == message + srtp_tag(*key, message)
            &&& crypto::hmac_sha1_tag(key.hmac(), message).len() == crypto::HMAC_SHA1_LEN
        }),
{
    assert(storage@.len() == storage.len());
    let body_end: usize = HEADER_LEN + plain.len();
    let message_len: usize = body_end + draw.filler.len() + 1;
    let iv = build_srtp_iv(ssrc, stamp.seq, stamp.timestamp);
    write_at(storage.as_mut_slice(), 0, header);
    write_at(storage.as_mut_slice(), HEADER_LEN, plain);
    assert(storage@.subrange(HEADER_LEN as int, body_end as int) =~= plain@);
    apply_keystream(
        make_aes_key(key),
        iv.as_slice(),
        storage.as_mut_slice(),
        HEADER_LEN,
        body_end,
    );
    let ghost body = crypto::aes128_ctr(key.aes(), iv@, plain@);
    assert(storage@.subrange(0, body_end as int) =~= header@ + body);
    write_at(storage.as_mut_slice(), body_end, draw.filler.as_slice());
    assert(storage@.subrange(0, message_len - 1) =~= header@ + body + draw.filler@);
    storage[message_len - 1] = (draw.filler.len() + 1) as u8;
    let ghost message = header@ + body + draw.padding();
    assert(storage@.subrange(0, message_len as int) =~= message);
    let tag = hmac_sha1(
        make_hmac_key(key),
        vstd::slice::slice_subrange(storage.as_slice(), 0, message_len),
    );
    let short_tag = vstd::slice::slice_subrange(tag.as_slice(), 0, SRTP_TAG_LEN);
    write_at(storage.as_mut_slice(), message_len, short_tag);
    assert(storage@.subrange(0, message_len + SRTP_TAG_LEN) =~= message + short_tag@);
}

/// Writes header, ciphertext, tag and padding of a packet in the RTP mode to the start of
/// `storage`, or returns `false` where the message is too long for the cipher.
fn fill_aead(
    key: &WrapKey,
    ssrc: u32,
    stamp: PacketStamp,
    header: &[u8],
    plain: &[u8],
    draw: &Draw,
    storage: &mut Vec<u8>,
) -> (filled: bool)
    requires
        header@.len() == HEADER_LEN,
        draw.filler@.len() < 255,
        wrapped_len(false, plain@.len(), draw.filler@.len()) <= old(storage)@.len(),
    ensures
        final(storage)@.len() == old(storage)@.len(),
        filled == (plain@.len() < AEAD_MAX_LEN),
        filled ==> {
            let nonce = rtp::packet_nonce(ssrc, stamp.seq, stamp.timestamp);
            let sealed = crypto::chacha20_poly1305_seal(key.bytes@, nonce, header@, plain@);
            &&& final(storage)@.subrange(
                0,
                wrapped_len(false, plain@.len(), draw.filler@.len()),
            ) == header@ + sealed.0 + sealed.1 + draw.padding()
            &&& sealed.0.len() == plain@.len()
            &&& sealed.1.len() == AEAD_TAG_LEN
            &&& crypto::chacha20_poly1305_open(
                key.bytes@,
                nonce,
                header@,
                sealed.0,
                sealed.1,
            ) == Some(plain@)
        },
{
    assert(storage@.len() == storage.len());
    let body_end: usize = HEADER_LEN + plain.len();
    let tag_end: usize = body_end + AEAD_TAG_LEN;
    let total: usize = tag_end + draw.filler.len() + 1;
    write_at(storage.as_mut_slice(), 0, header);
    write_at(storage.as_mut_slice(), HEADER_LEN, plain);
    let (head, rest) = storage.as_mut_slice().split_at_mut(HEADER_LEN);
    let (body, tail) = rest.split_at_mut(plain.len());
    assert(body@ =~= plain@);
    assert(head@ =~= header@);
    let ghost tail_before = tail@;
    let sealed = chacha20_poly1305_seal_in_place(
        key.bytes.as_slice(),
        nonce(ssrc, stamp.seq, stamp.timestamp),
        header,
        body,
    );
    let ghost body_after = body@;
    let tag = match sealed {
        Ok(tag) => tag,
        Err(_) => return false,
    };
    assert(storage@ =~= header@ + (body_after + tail_before));
    assert(storage@.subrange(0, body_end as int) =~= header@ + body_after);
    write_at(storage.as_mut_slice(), body_end, tag.as_slice());
    assert(storage@.subrange(0, tag_end as int) =~= header@ + body_after + tag@);
    write_at(storage.as_mut_slice(), tag_end, draw.filler.as_slice());
    assert(storage@.subrange(0, total - 1) =~= header@ + body_after + tag@ + draw.filler@);
    storage[total - 1] = (draw.filler.len() + 1) as u8;
    assert(storage@.subrange(0, total as int) =~= header@ + body_after + tag@ + draw.padding());
    true
}

/// Wraps `plain` into `output`, with the chance choices given in `draw`.
///
/// The counters in `state` move on whether or not the packet fits. A packet that was
/// wrapped unwraps, in the mode that it was wrapped in, to `plain`.
pub fn wrap_packet(
    key: &WrapKey,
    state: &mut OutState,
    is_srtp: bool,
    plain: &[u8],
    draw: &Draw,
    output: &mut PacketBuf,
    now_ns: u64,
) -> (wrapped_total: Result<usize, WrapError>)
    requires
        old(output).wf(),
        draw.admissible(old(state).payload_type, is_srtp),
    ensures
        *final(state) == old(state).stamped(),
        final(output).wf(),
        final(output).spec_capacity() == old(output).spec_capacity(),
        match wrapped_total {
            Ok(total) => {
                let wire = wrapped(*key, *old(state), is_srtp, plain@, *draw, now_ns);
                &&& wrap_error(
                    is_srtp,
                    plain@.len(),
                    draw.filler@.len(),
                    old(output).spec_capacity(),
                ) is None
                &&& final(output)@ == wire
                &&& total == wire.len()
                &&& total == wrapped_len(is_srtp, plain@.len(), draw.filler@.len())
                &&& is_srtp && (old(state).payload_type == PAYLOAD_TYPE_AUDIO || old(
                    state,
                ).payload_type == PAYLOAD_TYPE_VIDEO || old(state).payload_type
                    == PAYLOAD_TYPE_AUXILIARY) ==> decode(*key, wire, Some(true)) == Ok::<
                    Unwrapped,
                    UnwrapError,
                >(
                    (Unwrapped {
                        header_len: HEADER_LEN as int,
                        body: plain@,
                        plain: significant(plain@),
                        seq: old(state).next_seq(),
                        payload_type: old(state).payload_type,
                        is_srtp: true,
                    }),
                )
                &&& is_srtp && (old(state).payload_type == PAYLOAD_TYPE_AUDIO || old(
                    state,
                ).payload_type == PAYLOAD_TYPE_VIDEO || old(state).payload_type
                    == PAYLOAD_TYPE_AUXILIARY) && (plain@.len() < RECORD_HEADER_LEN || !(20
                    <= plain@[0] <= 23) || plain@[1] != 0xfe) ==> (decode(
                    *key,
                    wire,
                    Some(true),
                ) matches Ok(unwrapped) && unwrapped.plain == plain@)
                &&& !is_srtp && old(state).payload_type == PAYLOAD_TYPE_AUDIO && plain@.len() > 0
                    ==> decode(*key, wire, Some(false)) == Ok::<Unwrapped, UnwrapError>(
                    (Unwrapped {
                        header_len: HEADER_LEN as int,
                        body: plain@,
                        plain: plain@,
                        seq: old(state).next_seq(),
                        payload_type: PAYLOAD_TYPE_AUDIO,
                        is_srtp: false,
                    }),
                )
            },
            Err(error) => {
                &&& wrap_error(
                    is_srtp,
                    plain@.len(),
                    draw.filler@.len(),
                    old(output).spec_capacity(),
                ) == Some(error)
                &&& error != WrapError::Encryption ==> final(output)@ == old(output)@
            },
        },
{
    let ghost before = *state;
    let stamp = state.stamp(now_ns);
    let header = rtp_header(state.payload_type, draw.marker, state.ssrc, stamp);
    let filler_len: usize = draw.filler.len();
    let tag_len: usize = if is_srtp {
        SRTP_TAG_LEN
    } else {
        AEAD_TAG_LEN
    };
    let overhead: usize = HEADER_LEN + filler_len + 1 + tag_len;
    let total: usize = match plain.len().checked_add(overhead) {
        Some(total) => total,
        None => return Err(WrapError::LengthOverflow),
    };
    if total > output.storage.len() {
        return Err(WrapError::ExceedsCapacity);
    }
    if is_srtp {
        fill_srtp(key, state.ssrc, stamp, header.as_slice(), plain, draw, &mut output.storage);
        proof {
            if before.payload_type == PAYLOAD_TYPE_AUDIO || before.payload_type
                == PAYLOAD_TYPE_VIDEO || before.payload_type == PAYLOAD_TYPE_AUXILIARY {
                srtp_unwraps_what_was_wrapped(*key, before, plain@, *draw, now_ns, Some(true));
            }
        }
    } else {
        if !fill_aead(key, state.ssrc, stamp, header.as_slice(), plain, draw, &mut output.storage) {
            return Err(WrapError::Encryption);
        }
        proof {
            if before.payload_type == PAYLOAD_TYPE_AUDIO && plain@.len() > 0 {
                aead_unwraps_what_was_wrapped(*key, before, plain@, *draw, now_ns);
            }
        }
    }
    output.len = total;
    Ok(total)
}

/// Draws the choices for one outgoing packet: which of the admissible ones, chance decides.
fn draw_choices(payload_type: u8, is_srtp: bool, rng: &mut StdRng) -> (draw: Draw)
    ensures
        draw.admissible(payload_type, is_srtp),
{
    let lot: Option<usize> = if payload_type == PAYLOAD_TYPE_VIDEO {
        Some(random_below(rng, MARKER_LOTS))
    } else {
        None
    };
    let mut filler: Vec<u8> = Vec::new();
    filler.resize(random_below(rng, filler_bound(payload_type, is_srtp)), 0);
    random_fill(rng, filler.as_mut_slice());
    drawn_choices(lot, filler)
}

/// How many lots a video packet draws from for its marker bit.
pub const MARKER_LOTS: usize = 5;

/// The exclusive bound on the number of filler bytes to draw.
pub fn filler_bound(payload_type: u8, is_srtp: bool) -> (bound: usize)
    ensures
        bound == filler_limit(payload_type, is_srtp),
{
    if (is_srtp && payload_type == PAYLOAD_TYPE_VIDEO) || (!is_srtp && payload_type
        != PAYLOAD_TYPE_AUDIO) {
        60
    } else {
        24
    }
}

/// The choices that what was drawn makes: the first of the lots sets the marker bit, and a
/// packet without a lot never has it.
pub fn drawn_choices(lot: Option<usize>, filler: Vec<u8>) -> (draw: Draw)
    ensures
        draw.marker == (lot == Some(0usize)),
        draw.filler == filler,
{
    let marker: bool = match lot {
        Some(lot) => lot == 0,
        None => false,
    };
    Draw { marker, filler }
}

/// Wraps `plain` into `output`, drawing padding and marker bit from `rng`.
pub fn wrap_legacy_into(
    key: &WrapKey,
    state: &mut OutState,
    is_srtp: bool,
    plain: &[u8],
    rng: &mut StdRng,
    output: &mut PacketBuf,
    now_ns: u64,
) -> (wrapped_total: Result<usize, WrapError>)
    requires
        old(output).wf(),
    ensures
        *final(state) == old(state).stamped(),
        final(output).wf(),
        final(output).spec_capacity() == old(output).spec_capacity(),
        exists|draw: Draw|
            {
                &&& draw.admissible(old(state).payload_type, is_srtp)
                &&& match wrapped_total {
                    Ok(total) => {
                        &&& wrap_error(
                            is_srtp,
                            plain@.len(),
                            draw.filler@.len(),
                            old(output).spec_capacity(),
                        ) is None
                        &&& final(output)@ == #[trigger] wrapped(
                            *key,
                            *old(state),
                            is_srtp,
                            plain@,
                            draw,
                            now_ns,
                        )
                        &&& total == final(output)@.len()
                    },
                    Err(error) => wrap_error(
                        is_srtp,
                        plain@.len(),
                        draw.filler@.len(),
                        old(output).spec_capacity(),
                    ) == Some(error),
                }
            },
        wrapped_total matches Err(error) ==> error != WrapError::Encryption ==> final(output)@ == old(
            output,
        )@,
        wrapped_total is Ok && is_srtp && (old(state).payload_type == PAYLOAD_TYPE_AUDIO || old(
            state,
        ).payload_type == PAYLOAD_TYPE_VIDEO || old(state).payload_type == PAYLOAD_TYPE_AUXILIARY)
            ==> decode(*key, final(output)@, Some(true)) == Ok::<Unwrapped, UnwrapError>(
            (Unwrapped {
                header_len: HEADER_LEN as int,
                body: plain@,
                plain: significant(plain@),
                seq: old(state).next_seq(),
                payload_type: old(state).payload_type,
                is_srtp: true,
            }),
        ),
        wrapped_total is Ok && is_srtp && (old(state).payload_type == PAYLOAD_TYPE_AUDIO || old(
            state,
        ).payload_type == PAYLOAD_TYPE_VIDEO || old(state).payload_type == PAYLOAD_TYPE_AUXILIARY)
            && (plain@.len() < RECORD_HEADER_LEN || !(20 <= plain@[0] <= 23) || plain@[1] != 0xfe)
            ==> (decode(*key, final(output)@, Some(true)) matches Ok(unwrapped)
            && unwrapped.plain == plain@),
        wrapped_total is Ok && !is_srtp && old(state).payload_type == PAYLOAD_TYPE_AUDIO
            && plain@.len() > 0 ==> decode(*key, final(output)@, Some(false)) == Ok::<
            Unwrapped,
            UnwrapError,
        >(
            (Unwrapped {
                header_len: HEADER_LEN as int,
                body: plain@,
                plain: plain@,
                seq: old(state).next_seq(),
                payload_type: PAYLOAD_TYPE_AUDIO,
                is_srtp: false,
            }),
        ),
{
    let draw = draw_choices(state.payload_type, is_srtp, rng);
    let ghost before = *state;
    let result = wrap_packet(key, state, is_srtp, plain, &draw, output, now_ns);
    proof {
        let wire = wrapped(*key, before, is_srtp, plain@, draw, now_ns);
        assert(draw.admissible(before.payload_type, is_srtp));
    }
    result
}

} // verus!
