use aws_lc_rs::hmac;
use csqtt::getconf::parse_getconf_epoch;
use csqtt::rtp::{
    build_srtp_iv, nonce, rtp_header, rtp_header_len, HeaderError, OutState, PacketStamp,
    PAYLOAD_TYPE_AUDIO, PAYLOAD_TYPE_VIDEO,
};
use csqtt::wire::{
    drawn_choices, filler_bound, make_aes_key, make_hmac_key, unwrap_legacy_in_place,
    wrap_legacy_into, wrap_packet, Draw, PacketBuf, UnwrapError, WrapError, WrapKey,
    PAYLOAD_TYPE_AUXILIARY,
};
use rand::rngs::StdRng;
use rand::SeedableRng;

const REQUEST: &[u8] = b"GETCONF:46000|wire-device|wire-password|7|wire-salt|1|27|CSQTT-WIRE-2";

fn key(seed: u8) -> WrapKey {
    let mut bytes = [0u8; 32];
    for (index, byte) in bytes.iter_mut().enumerate() {
        *byte = seed.wrapping_add(index as u8);
    }
    WrapKey { bytes }
}

fn output(payload_type: u8) -> OutState {
    OutState::from_random(
        payload_type,
        [1, 2, 3, 4, 0xff, 0xfe, 9, 8, 7, 6, 0, 5],
        1_000,
        0,
    )
}

fn no_padding() -> Draw {
    Draw {
        marker: false,
        filler: Vec::new(),
    }
}

fn wrapped(seed: u8, payload_type: u8, is_srtp: bool, plain: &[u8], draw: &Draw) -> Vec<u8> {
    let mut packet = PacketBuf::new(2_048);
    let mut state = output(payload_type);
    wrap_packet(
        &key(seed),
        &mut state,
        is_srtp,
        plain,
        draw,
        &mut packet,
        1_000_000_000,
    )
    .unwrap();
    packet.as_slice().to_vec()
}

#[test]
fn client_getconf_fixture_authenticates_with_matching_password_only() {
    let wire = wrapped(1, PAYLOAD_TYPE_AUDIO, false, REQUEST, &no_padding());
    let mut matching = wire.clone();
    let decoded = unwrap_legacy_in_place(&key(1), &mut matching, None).unwrap();
    assert_eq!(decoded.range.get(&matching), REQUEST);
    assert_eq!(
        parse_getconf_epoch(decoded.range.get(&matching)),
        Some(("wire-device", 7, "wire-salt")),
    );

    let mut mismatched = wire;
    assert!(unwrap_legacy_in_place(&key(2), &mut mismatched, None).is_err());
}

#[test]
fn client_getconf_fixture_rejects_every_single_bit_wire_mutation() {
    for is_srtp in [false, true] {
        let wire = wrapped(1, PAYLOAD_TYPE_AUDIO, is_srtp, REQUEST, &no_padding());
        for byte_index in 0..wire.len() {
            for bit in 0..8 {
                let mut corrupted = wire.clone();
                corrupted[byte_index] ^= 1 << bit;
                assert!(
                    unwrap_legacy_in_place(&key(1), &mut corrupted, None).is_err(),
                    "accepted mutation at byte {byte_index}, bit {bit}"
                );
            }
        }
    }
}

#[test]
fn packets_unwrap_to_what_was_wrapped() {
    for is_srtp in [false, true] {
        for len in [1usize, 15, 16, 17, 1_200] {
            let plain: Vec<u8> = (0..len).map(|i| (i * 7 + 1) as u8).collect();
            let draw = Draw {
                marker: false,
                filler: vec![0xee; 9],
            };
            let mut wire = wrapped(3, PAYLOAD_TYPE_AUDIO, is_srtp, &plain, &draw);
            let tag = if is_srtp { 10 } else { 16 };
            assert_eq!(wire.len(), 24 + len + 10 + tag);
            if len >= 15 {
                assert!(!wire.windows(plain.len()).any(|window| window == &plain[..]));
            }
            let decoded = unwrap_legacy_in_place(&key(3), &mut wire, Some(is_srtp)).unwrap();
            assert_eq!(decoded.range.get(&wire), &plain[..]);
            assert_eq!(decoded.seq, 0xfffe);
            assert_eq!(decoded.payload_type, PAYLOAD_TYPE_AUDIO);
            assert_eq!(decoded.is_srtp, is_srtp);
        }
    }
}

#[test]
fn video_goes_over_srtp_with_its_marker() {
    let draw = Draw {
        marker: true,
        filler: vec![1; 59],
    };
    let mut wire = wrapped(3, PAYLOAD_TYPE_VIDEO, true, b"frame", &draw);
    assert_eq!(wire[1], 0x80 | PAYLOAD_TYPE_VIDEO);
    let decoded = unwrap_legacy_in_place(&key(3), &mut wire, Some(true)).unwrap();
    assert_eq!(decoded.range.get(&wire), b"frame");
    assert_eq!(decoded.payload_type, PAYLOAD_TYPE_VIDEO);
}

#[test]
fn drawn_packets_unwrap_too() {
    let mut rng = StdRng::seed_from_u64(7);
    let mut state = output(PAYLOAD_TYPE_AUDIO);
    for count in 0..50u16 {
        let mut packet = PacketBuf::new(512);
        let total = wrap_legacy_into(
            &key(4),
            &mut state,
            false,
            b"payload",
            &mut rng,
            &mut packet,
            5_000_000,
        )
        .unwrap();
        assert_eq!(total, packet.as_slice().len());
        assert!(total >= 24 + 7 + 16 + 1 && total <= 24 + 7 + 16 + 24);
        let mut wire = packet.as_slice().to_vec();
        let decoded = unwrap_legacy_in_place(&key(4), &mut wire, Some(false)).unwrap();
        assert_eq!(decoded.range.get(&wire), b"payload");
        assert_eq!(decoded.seq, 0xfffeu16.wrapping_add(count));
    }
}

#[test]
fn bytes_behind_complete_records_do_not_count() {
    let mut plain = vec![22u8, 0xfe, 0xfd, 0, 0, 0, 0, 0, 0, 0, 0, 0, 3, 1, 2, 3];
    let record = plain.clone();
    plain.extend_from_slice(&[9, 9]);
    let mut wire = wrapped(3, PAYLOAD_TYPE_AUDIO, true, &plain, &no_padding());
    let decoded = unwrap_legacy_in_place(&key(3), &mut wire, Some(true)).unwrap();
    assert_eq!(decoded.range.get(&wire), &record[..]);
}

#[test]
fn wrapping_refuses_what_does_not_fit() {
    let mut packet = PacketBuf::new(48);
    let mut state = output(PAYLOAD_TYPE_AUDIO);
    assert_eq!(
        wrap_packet(
            &key(1),
            &mut state,
            false,
            b"12345678",
            &no_padding(),
            &mut packet,
            0
        ),
        Err(WrapError::ExceedsCapacity)
    );
    assert_eq!(state.count, 1);
    assert_eq!(
        wrap_packet(
            &key(1),
            &mut state,
            false,
            b"1234567",
            &no_padding(),
            &mut packet,
            0
        ),
        Ok(48)
    );
    assert_eq!(state.count, 2);
}

#[test]
fn unwrapping_says_what_is_wrong() {
    let good = wrapped(1, PAYLOAD_TYPE_AUDIO, false, b"hello", &no_padding());

    let mut short = vec![0x90u8; 4];
    assert!(matches!(
        unwrap_legacy_in_place(&key(1), &mut short, None),
        Err(UnwrapError::Header(_))
    ));

    let mut other_type = good.clone();
    other_type[1] = 50;
    assert_eq!(
        unwrap_legacy_in_place(&key(1), &mut other_type, None),
        Err(UnwrapError::UnsupportedPayloadType)
    );

    let mut not_srtp = good.clone();
    assert_eq!(
        unwrap_legacy_in_place(&key(1), &mut not_srtp, Some(true)),
        Err(UnwrapError::SrtpAuthentication)
    );
    assert_eq!(not_srtp, good);

    let mut no_tag = good[..30].to_vec();
    assert_eq!(
        unwrap_legacy_in_place(&key(1), &mut no_tag, Some(true)),
        Err(UnwrapError::SrtpTooShort)
    );

    let mut padding = good.clone();
    let last = padding.len() - 1;
    padding[last] = 0;
    assert_eq!(
        unwrap_legacy_in_place(&key(1), &mut padding, Some(false)),
        Err(UnwrapError::Padding)
    );

    let mut empty = good.clone();
    empty[last] = 6;
    assert_eq!(
        unwrap_legacy_in_place(&key(1), &mut empty, Some(false)),
        Err(UnwrapError::EmptyPayload)
    );

    let mut video = good.clone();
    video[1] = PAYLOAD_TYPE_VIDEO;
    assert_eq!(
        unwrap_legacy_in_place(&key(1), &mut video, Some(false)),
        Err(UnwrapError::ExpectedAudio)
    );

    let mut forged = good.clone();
    forged[24] ^= 1;
    assert_eq!(
        unwrap_legacy_in_place(&key(1), &mut forged, Some(false)),
        Err(UnwrapError::Authentication)
    );
    assert_eq!(&forged[24..29], &[0, 0, 0, 0, 0]);
    assert_eq!(&forged[29..], &good[29..]);
}

#[test]
fn srtp_packets_carry_a_tag_over_everything_before_it() {
    let good = wrapped(1, PAYLOAD_TYPE_AUDIO, true, b"", &no_padding());
    let mut wire = good.clone();
    let decoded = unwrap_legacy_in_place(&key(1), &mut wire, Some(true)).unwrap();
    assert_eq!(decoded.range.get(&wire), b"");

    let whole = key(1);
    let hmac_key = hmac::Key::new(hmac::HMAC_SHA1_FOR_LEGACY_USE_ONLY, make_hmac_key(&whole));
    let mut message = good[..good.len() - 10].to_vec();
    assert_eq!(
        &hmac::sign(&hmac_key, &message).as_ref()[..10],
        &good[good.len() - 10..]
    );
    let last = message.len() - 1;
    message[last] = 0;
    let tag = hmac::sign(&hmac_key, &message).as_ref()[..10].to_vec();
    message.extend_from_slice(&tag);
    assert_eq!(
        unwrap_legacy_in_place(&whole, &mut message, Some(true)),
        Err(UnwrapError::SrtpPadding)
    );
}

#[test]
fn header_lengths_are_read() {
    let mut header = vec![0u8; 24];
    header[0] = 0x80;
    assert_eq!(rtp_header_len(&header), Ok(12));
    header[0] = 0x90;
    header[15] = 2;
    assert_eq!(rtp_header_len(&header), Ok(24));
    header[15] = 3;
    assert_eq!(rtp_header_len(&header), Err(HeaderError::TruncatedHeader));
    assert_eq!(
        rtp_header_len(&header[..15]),
        Err(HeaderError::TruncatedExtension)
    );
    header[0] = 0x40;
    assert_eq!(rtp_header_len(&header), Err(HeaderError::InvalidPacket));
    assert_eq!(rtp_header_len(&[0x80; 12]), Err(HeaderError::InvalidPacket));
}

#[test]
fn nonces_and_vectors_hold_the_stamp() {
    assert_eq!(
        nonce(0x0102_0304, 0x0506, 0x0708_090a),
        [1, 2, 3, 4, 5, 6, 0, 0, 7, 8, 9, 10]
    );
    assert_eq!(
        build_srtp_iv(0x0102_0304, 0x0506, 0x0708_090a),
        [1, 2, 3, 4, 5, 6, 0, 0, 7, 8, 9, 10, 0, 0, 0, 0]
    );
}

#[test]
fn headers_are_written_in_network_order() {
    let stamp = PacketStamp {
        seq: 0x1122,
        timestamp: 0x3344_5566,
        abs_send_time: 0x0077_8899,
        transport_seq: 0xaabb,
    };
    let header = rtp_header(PAYLOAD_TYPE_AUDIO, false, 0xdead_beef, stamp);
    assert_eq!(header.len(), 24);
    assert_eq!(header[0], 0xb0);
    assert_eq!(header[1], PAYLOAD_TYPE_AUDIO);
    assert_eq!(
        &header[2..12],
        &[0x11, 0x22, 0x33, 0x44, 0x55, 0x66, 0xde, 0xad, 0xbe, 0xef]
    );
    assert_eq!(
        &header[12..],
        &[0xbe, 0xde, 0, 2, 0x32, 0x77, 0x88, 0x99, 0x51, 0xaa, 0xbb, 0]
    );
}

#[test]
fn counters_start_from_the_random_bytes() {
    let state = output(PAYLOAD_TYPE_AUDIO);
    assert_eq!(state.ssrc, 0x0102_0304);
    assert_eq!(state.initial_seq, 0xfffe);
    assert_eq!(state.initial_ts, 0x0908_0706);
    assert_eq!(state.transport_seq, 5);
    assert_eq!(state.initial_abs_send_time, 262_144);
    let fresh = OutState::new(PAYLOAD_TYPE_VIDEO, 2_000, 17);
    assert_eq!(fresh.payload_type, PAYLOAD_TYPE_VIDEO);
    assert_eq!(fresh.initial_abs_send_time, 524_288);
    assert_eq!(fresh.started_ns, 17);
    assert_eq!(fresh.count, 0);
}

#[test]
fn a_key_is_split_in_two_halves() {
    let whole = key(10);
    assert_eq!(make_aes_key(&whole), &whole.bytes[..16]);
    assert_eq!(make_hmac_key(&whole), &whole.bytes[16..]);
}

#[test]
fn a_buffer_takes_what_fits() {
    let mut packet = PacketBuf::new(4);
    assert_eq!(packet.capacity(), 4);
    assert!(packet.copy_from(b"abcd"));
    assert_eq!(packet.as_slice(), b"abcd");
    assert!(!packet.copy_from(b"abcde"));
    assert_eq!(packet.as_slice(), b"abcd");
}

#[test]
fn first_lot_sets_the_marker_bit() {
    for (lot, marker) in [(Some(0), true), (Some(1), false), (Some(4), false), (None, false)] {
        let draw = drawn_choices(lot, vec![7, 8]);
        assert_eq!(draw.marker, marker, "{lot:?}");
        assert_eq!(draw.filler, vec![7, 8]);
    }
}

#[test]
fn filler_bounds_follow_mode_and_payload_type() {
    assert_eq!(filler_bound(PAYLOAD_TYPE_VIDEO, true), 60);
    assert_eq!(filler_bound(PAYLOAD_TYPE_AUDIO, true), 24);
    assert_eq!(filler_bound(PAYLOAD_TYPE_AUXILIARY, true), 24);
    assert_eq!(filler_bound(PAYLOAD_TYPE_VIDEO, false), 60);
    assert_eq!(filler_bound(PAYLOAD_TYPE_AUDIO, false), 24);
    assert_eq!(filler_bound(PAYLOAD_TYPE_AUXILIARY, false), 60);
}
