use csqtt::access::{device_control_authorized, getconf_credential_access, CredentialAccess};
use csqtt::control::{
    is_control_payload, is_idle_keepalive, should_flush_udp_immediately, stream_control_payload,
    SESSION_LEASE, STREAM_ALIVE_PREFIX, STREAM_REPAIR_PREFIX,
};
use csqtt::engine::{EPOCH_IDLE_TTL_MS, EPOCH_SWEEP_INTERVAL_MS, SESSION_AUTH_IDLE_MS};
use csqtt::epoch::{
    getconf_reconnect_action_hot, session_is_disconnected_device, session_is_retired_by_epoch,
    shard_for_device, DeviceEpochDecision, DeviceEpochState, GetconfReconnectAction,
};
use csqtt::getconf::{
    is_supported_wire_protocol, parse_getconf_epoch, WireRevisions, MAX_STREAM_WORKERS,
};
use csqtt::model::{ClientDevice, Database, PasswordEntry};
use csqtt::registry::public_session_is_stale;
use csqtt::replay::ReplayState;
use csqtt::rtp::{duration_ticks, rtp_clock_rate, Elapsed};
use csqtt::session::{hot_session_idle_reason, FecProfile};
use csqtt::stream::{StreamRepairRound, STREAM_REPAIR_GRACE_MS};
use csqtt::text::parse_generation_id;

fn revisions() -> WireRevisions {
    WireRevisions {
        current: "CSQTT-WIRE-2".to_owned(),
        legacy: "CSQTT-WIRE-2-LEGACY".to_owned(),
    }
}

#[test]
fn a_device_can_bind_multiple_passwords_but_each_password_stays_device_locked() {
    let mut db = Database::default();
    db.devices.insert(
        "device-a".to_owned(),
        ClientDevice {
            device_id: "device-a".to_owned(),
            ..ClientDevice::default()
        },
    );
    db.passwords.insert(
        "password-a".to_owned(),
        PasswordEntry {
            device_id: "device-a".to_owned(),
            ..PasswordEntry::default()
        },
    );
    db.passwords
        .insert("password-b".to_owned(), PasswordEntry::default());

    assert_eq!(
        getconf_credential_access(&db, "password-b", "device-a"),
        Ok(CredentialAccess::Unbound)
    );
    assert_eq!(
        getconf_credential_access(&db, "password-a", "device-b"),
        Err("DENIED:device_mismatch")
    );

    let at = db.passwords.find(&"password-b".to_owned()).unwrap();
    db.passwords.value_at_mut(at).device_id = "device-a".to_owned();
    assert_eq!(
        getconf_credential_access(&db, "password-a", "device-a"),
        Ok(CredentialAccess::Bound)
    );
    assert_eq!(
        getconf_credential_access(&db, "password-b", "device-a"),
        Ok(CredentialAccess::Bound)
    );
    assert_eq!(
        getconf_credential_access(&db, "password-b", "device-b"),
        Err("DENIED:device_mismatch")
    );
    assert!(device_control_authorized(&db, "password-a", "device-a"));
    assert!(device_control_authorized(&db, "password-b", "device-a"));
}

#[test]
fn device_owner_shard_is_stable_across_all_turn_workers() {
    for device in ["alpha", "device-42", "long-device-id-0123456789"] {
        let owner = shard_for_device(device, 11);
        assert!(owner < 11);
        for _ in 0..126 {
            assert_eq!(shard_for_device(device, 11), owner);
        }
    }
}

#[test]
fn public_auth_ghost_ttl_is_two_minutes_and_does_not_underflow() {
    assert!(!public_session_is_stale(true, 1_000, 1_119));
    assert!(public_session_is_stale(true, 1_000, 1_120));
    assert!(!public_session_is_stale(true, 1_000, 999));
    assert!(public_session_is_stale(false, 1_000, 1_030));
}

#[test]
fn hot_authenticated_idle_timeout_is_ten_hours() {
    assert_eq!(SESSION_AUTH_IDLE_MS, 10 * 60 * 60 * 1_000);
    assert_eq!(hot_session_idle_reason(true), "authenticated-idle-10h");
    assert_eq!(hot_session_idle_reason(false), "setup-idle-15s");
}

#[test]
fn idle_keepalives_are_ignored_after_refreshing_session_activity() {
    assert!(is_idle_keepalive(&[0xff; 16]));
    assert!(is_idle_keepalive(&[0xff, 0x11, 0x22, 0x33]));
    assert!(is_idle_keepalive(&[0xff, 1, 2, 3, 4, 5, 6, 7, 8]));
    assert!(!is_idle_keepalive(&[]));
    assert!(!is_idle_keepalive(&[0xff, 1, 2]));
}

#[test]
fn epoch_cache_is_swept_regularly_and_expires_after_one_hour() {
    assert_eq!(EPOCH_SWEEP_INTERVAL_MS, 5 * 60_000);
    assert_eq!(EPOCH_IDLE_TTL_MS, 60 * 60_000);
}

#[test]
fn rtp_clocks_follow_elapsed_media_time() {
    let frame = Elapsed { secs: 0, nanos: 20_000_000 };
    let second = Elapsed { secs: 1, nanos: 0 };
    assert_eq!(duration_ticks(frame, rtp_clock_rate(111)), 960);
    assert_eq!(duration_ticks(frame, rtp_clock_rate(96)), 1_800);
    assert_eq!(duration_ticks(second, 48_000), 48_000);
    assert_eq!(duration_ticks(second, 90_000), 90_000);
}

#[test]
fn replay_window_handles_u16_wrap_and_duplicates() {
    let mut replay = ReplayState::new();
    assert!(replay.accept(65_534));
    assert!(replay.accept(65_535));
    assert!(replay.accept(0));
    assert!(replay.accept(1));
    assert!(!replay.accept(1));
    assert!(!replay.accept(65_535));
}

#[test]
fn getconf_epoch_parser_is_strict() {
    let max = format!("GETCONF:9000|device|password|{}|salt", u64::MAX);
    assert_eq!(
        parse_getconf_epoch(max.as_bytes()),
        Some(("device", u64::MAX, "salt"))
    );
    let max_with_count = format!("GETCONF:9000|device|password|{}|salt|4|36", u64::MAX);
    assert_eq!(
        parse_getconf_epoch(max_with_count.as_bytes()),
        Some(("device", u64::MAX, "salt"))
    );
    assert!(parse_getconf_epoch(b"GETCONF:9000|device|password|-1|salt").is_none());
    assert!(parse_getconf_epoch(b"GETCONF:9000|device|password|+1|salt").is_none());
    assert!(parse_getconf_epoch(b"GETCONF:9000||password|1|salt").is_none());
}

#[test]
fn wire_protocol_revision_must_match_exactly() {
    let revisions = revisions();
    assert!(is_supported_wire_protocol(&revisions, revisions.current.as_str()));
    assert!(!is_supported_wire_protocol(&revisions, "CSQTT-WIRE-1"));
    assert!(!is_supported_wire_protocol(&revisions, ""));
}

#[test]
fn stream_control_payload_is_compact_and_deterministic() {
    let payload = stream_control_payload(&STREAM_REPAIR_PREFIX, 7, 36, &[14, 28]);
    assert!(payload.starts_with(&STREAM_REPAIR_PREFIX));
    let offset = STREAM_REPAIR_PREFIX.len();
    assert_eq!(&payload[offset..offset + 8], &7u64.to_be_bytes());
    assert_eq!(&payload[offset + 8..offset + 10], &36u16.to_be_bytes());
    assert_eq!(payload[offset + 10], 2);
    assert_eq!(&payload[offset + 11..offset + 13], &14u16.to_be_bytes());
    assert_eq!(&payload[offset + 13..offset + 15], &28u16.to_be_bytes());
    assert_eq!(payload.len(), STREAM_REPAIR_PREFIX.len() + 15);
}

#[test]
fn stream_repair_round_deduplicates_and_escalates_by_sequence() {
    let mut round = StreamRepairRound::default();
    assert!(round.repair_payload(&[14, 28], 36, 0).is_none());
    let first = round.repair_payload(&[14, 28], 36, 30_000).unwrap();
    assert!(round.repair_payload(&[14, 28], 36, 31_000).is_none());
    let next = round.repair_payload(&[14, 28], 36, 90_000).unwrap();
    assert_ne!(first, next);
}

#[test]
fn stream_repair_round_emits_alive_after_recovery() {
    let mut round = StreamRepairRound::default();
    assert!(round.repair_payload(&[14], 36, 0).is_none());
    let repair = round.repair_payload(&[14], 36, 30_000).unwrap();
    round.recovered(36, 30_100);
    let alive = round.alive_payload(30_100).unwrap();
    assert!(alive.starts_with(&STREAM_ALIVE_PREFIX));
    assert_ne!(repair, alive);
    assert!(round.alive_payload(35_500).is_none());
    assert!(round.alive_payload(40_100).is_some());
    assert!(round.alive_payload(45_100).is_none());
}

#[test]
fn session_lease_is_control() {
    assert!(is_control_payload(&SESSION_LEASE));
}

#[test]
fn udp_flushes_control_without_flushing_regular_data() {
    assert!(should_flush_udp_immediately(b"GETCONF:9000|device"));
    assert!(should_flush_udp_immediately(&STREAM_REPAIR_PREFIX));
    assert!(should_flush_udp_immediately(b"READY"));
    assert!(!should_flush_udp_immediately(&[0x45, 0, 0, 28]));
}

#[test]
fn fec_profile_is_safe_by_default_and_can_be_disabled() {
    assert_eq!(FecProfile::default(), FecProfile::Safe);
    assert_ne!(FecProfile::Off, FecProfile::Safe);
}

#[test]
fn reconnect_session_key_replaces_stale_and_conflicting_values() {
    assert_eq!(
        getconf_reconnect_action_hot("device", 77, "salt-a", "device", 76, "old"),
        GetconfReconnectAction::Replace
    );
    assert_eq!(
        getconf_reconnect_action_hot("device", 77, "salt-a", "device", 77, "salt-b"),
        GetconfReconnectAction::Replace
    );
    assert_eq!(
        getconf_reconnect_action_hot("device", 77, "salt-a", "device", 77, "salt-a"),
        GetconfReconnectAction::Process
    );
    assert_eq!(
        getconf_reconnect_action_hot("device", 77, "salt-a", "device", 77, "salt-a"),
        GetconfReconnectAction::Process
    );
}

#[test]
fn active_device_session_replaces_any_different_key_without_ordering() {
    let mut state = DeviceEpochState::default();

    assert_eq!(state.admit_key(77, "salt-a"), DeviceEpochDecision::Replaced);
    assert_eq!(state.admit_key(77, "salt-a"), DeviceEpochDecision::Current);
    assert_eq!(state.admit_key(12, "salt-b"), DeviceEpochDecision::Replaced);
    assert_eq!(state.generation_id, 12);
    assert_eq!(state.session_salt, "salt-b");
    assert_eq!(state.admit_key(12, "salt-c"), DeviceEpochDecision::Replaced);
    assert_eq!(state.session_salt, "salt-c");
}

#[test]
fn active_session_key_retires_every_different_session() {
    assert!(session_is_retired_by_epoch("device", 41, "old-a", "device", 42, "current"));
    assert!(session_is_retired_by_epoch("device", 1, "old-b", "device", 42, "current"));
    assert!(session_is_retired_by_epoch("device", 42, "conflict", "device", 42, "current"));
    assert!(!session_is_retired_by_epoch("device", 42, "current", "device", 42, "current"));
    assert!(session_is_retired_by_epoch("device", 43, "future", "device", 42, "current"));
    assert!(!session_is_retired_by_epoch("other", 1, "old", "device", 42, "current"));
}

#[test]
fn disconnect_targets_requester_and_all_device_sessions() {
    assert!(session_is_disconnected_device(7, "", 7, "device"));
    assert!(session_is_disconnected_device(8, "device", 7, "device"));
    assert!(!session_is_disconnected_device(8, "other", 7, "device"));
}

#[test]
fn replay_window_accepts_one_hundred_thousand_packets_through_wraps() {
    let mut replay = ReplayState::new();
    for sequence in 0..100_000u32 {
        assert!(replay.accept(sequence as u16), "sequence {sequence}");
    }
}

#[test]
fn replay_window_rejects_deterministic_duplicates_and_stale_packets() {
    let mut replay = ReplayState::new();
    for sequence in 0..20_000u32 {
        assert!(replay.accept(sequence as u16));
        assert!(!replay.accept(sequence as u16));
    }
    assert!(!replay.accept(0));
    assert!(!replay.accept(1));
}

#[test]
fn ten_stream_repair_rounds_converge_without_cross_client_state() {
    let mut rounds: Vec<StreamRepairRound> =
        (0..10).map(|_| StreamRepairRound::default()).collect();
    for (client, round) in rounds.iter_mut().enumerate() {
        let missing = [client as u16 + 1, client as u16 + 21];
        assert!(round.repair_payload(&missing, 36, 0).is_none());
        let repair = round
            .repair_payload(&missing, 36, STREAM_REPAIR_GRACE_MS)
            .unwrap();
        assert!(repair.ends_with(&(client as u16 + 21).to_be_bytes()));
        round.recovered(36, STREAM_REPAIR_GRACE_MS + 1);
        let alive = round.alive_payload(STREAM_REPAIR_GRACE_MS + 1).unwrap();
        assert!(alive.starts_with(&STREAM_ALIVE_PREFIX));
    }
}

#[test]
fn stream_control_payload_represents_all_supported_workers() {
    let workers: Vec<u16> = (1..=MAX_STREAM_WORKERS).collect();
    let payload = stream_control_payload(&STREAM_REPAIR_PREFIX, 9, MAX_STREAM_WORKERS, &workers);
    let offset = STREAM_REPAIR_PREFIX.len();
    assert_eq!(payload[offset + 10], MAX_STREAM_WORKERS as u8);
    assert_eq!(
        &payload[payload.len() - 2..],
        &MAX_STREAM_WORKERS.to_be_bytes()
    );
}

#[test]
fn stream_control_payload_caps_untrusted_worker_list_at_u8_limit() {
    let workers: Vec<u16> = (0..300u16).collect();
    let payload = stream_control_payload(&STREAM_REPAIR_PREFIX, 4, 300, &workers);
    let offset = STREAM_REPAIR_PREFIX.len();
    assert_eq!(payload[offset + 10], u8::MAX);
    assert_eq!(
        payload.len(),
        STREAM_REPAIR_PREFIX.len() + 11 + usize::from(u8::MAX) * 2
    );
}

#[test]
fn generation_parser_accepts_decimal_boundaries_without_timestamp_ordering() {
    for value in ["0", "1", "0001", "42", "18446744073709551615"] {
        assert!(parse_generation_id(value).is_some(), "{value}");
    }
}

#[test]
fn generation_parser_rejects_non_decimal_and_overflow_values() {
    for value in ["-1", "+1", "1.0", "abc", "18446744073709551616", " 7", "7 "] {
        assert!(parse_generation_id(value).is_none(), "{value:?}");
    }
}

#[test]
fn concurrent_session_admission_accepts_each_new_session_key() {
    let mut state = DeviceEpochState::default();
    for generation in (1..=128u64).rev().chain(1..=128) {
        state.admit_key(generation, &format!("salt-{generation}"));
    }
    assert!((1..=128).any(|generation| state.matches(generation, &format!("salt-{generation}"))));
    assert_eq!(
        state.admit_key(129, "salt-129"),
        DeviceEpochDecision::Replaced
    );
    assert_eq!(
        state.admit_key(129, "salt-129"),
        DeviceEpochDecision::Current
    );
}

#[test]
fn ten_clients_concurrent_reconnections_keep_device_identities_isolated() {
    let mut states: Vec<DeviceEpochState> = (0..10).map(|_| DeviceEpochState::default()).collect();
    for generation in 1..=128u64 {
        for client in 0..10usize {
            let salt = format!("client-{client}-generation-{generation}");
            states[client].admit_key(generation, &salt);
        }
    }
    for (client, state) in states.iter().enumerate() {
        assert!(
            (1..=128).any(|generation| state.matches(
                generation,
                &format!("client-{client}-generation-{generation}")
            )),
            "client {client} retained another client's generation identity"
        );
    }
}

#[test]
fn same_device_reconnections_converge_to_a_complete_generation_pair() {
    let mut state = DeviceEpochState::default();
    for attempt in 0..1024u64 {
        let generation = attempt.wrapping_mul(37).wrapping_add(11);
        state.admit_key(generation, &format!("salt-{generation}-{attempt}"));
    }
    assert!(
        (0..1024u64).any(|attempt| {
            let generation = attempt.wrapping_mul(37).wrapping_add(11);
            state.matches(generation, &format!("salt-{generation}-{attempt}"))
        }),
        "generation and salt were observed from different reconnects"
    );
}

#[test]
fn ten_clients_one_gigabit_replay_path_is_predictable() {
    const CLIENTS: usize = 10;
    const PACKET_BYTES: u64 = 1_250;
    const PACKETS_PER_CLIENT: u16 = 10_000;
    let mut admitted_bytes = 0u64;
    for client in 0..CLIENTS {
        let mut replay = ReplayState::new();
        for sequence in 0..PACKETS_PER_CLIENT {
            assert!(
                replay.accept(sequence),
                "client {client}, sequence {sequence}"
            );
            admitted_bytes += PACKET_BYTES;
        }
    }
    assert_eq!(
        admitted_bytes,
        CLIENTS as u64 * u64::from(PACKETS_PER_CLIENT) * PACKET_BYTES
    );
}

#[test]
fn requests_are_read_without_their_password_and_what_follows() {
    let expected = Some(("dev", 7u64, "salt"));
    for payload in [
        "GETCONF:9000|dev|one|7|salt",
        "GETCONF: 9000 | dev |another| 7 | salt ",
        "GETCONF:9000|dev||7|salt",
        "GETCONF:9000|dev|one|7|salt |1",
        "GETCONF:9000|dev|one|7|salt|1|27|more|  ",
    ] {
        assert_eq!(parse_getconf_epoch(payload.as_bytes()), expected, "{payload}");
    }
}

#[test]
fn repairs_keep_their_distance_over_many_reports() {
    let mut round = StreamRepairRound::default();
    let mut asked = Vec::new();
    for second in 0..200u64 {
        let missing: &[u16] = if second < 100 { &[3, 4] } else { &[4] };
        if let Some(payload) = round.repair_payload(missing, 9, second * 1_000) {
            assert_eq!(
                payload,
                stream_control_payload(&STREAM_REPAIR_PREFIX, round.sequence, 9, missing)
            );
            asked.push((second, round.sequence));
        }
    }
    assert_eq!(asked, vec![(30, 1), (90, 2), (130, 3), (190, 4)]);
}
