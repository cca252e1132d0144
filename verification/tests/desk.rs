use csqtt::access::getconf_credential_access;
use csqtt::admission::{
    broadcast_tunnel_configuration, check_disconnect, check_getconf, decide_disconnect,
    ensure_control_tunnel, getconf_log_status, handle_getconf, hot_configuration_text,
    read_control_payload, rejected_session_is_request, Admission, ControlRequest, DeviceOffer,
    GetconfCheck, ResolvedAddress, TunnelError,
};
use csqtt::credentials::{active_passwords, expire_password, expired_passwords, KeyCache};
use csqtt::desk::{after_tunnel_setup, Desk, Job, LogLine};
use csqtt::effect::{ControlEvent, IoCounters, ProtocolCommand, PublicUpdate, SessionSeed};
use csqtt::endpoint::{IpAddress, PeerAddress};
use csqtt::epoch::DeviceEpochState;
use csqtt::getconf::{read_getconf, GetconfRequest, WireRevisions};
use csqtt::model::{ClientDevice, Database, PasswordEntry};
use csqtt::perf::StreamDebugMetrics;
use csqtt::registry::{
    notify_panel_restart, session_epoch_identity, Directive, Registry, Session, UpdateOutcome,
    PUBLIC_SESSION_LIMIT,
};
use csqtt::session::{CounterReport, HotDebug};
use csqtt::stream::StreamRepairLog;
use csqtt::traffic::flush_traffic;

fn address(host: u8) -> PeerAddress {
    PeerAddress {
        ip: IpAddress::V4(u32::from_be_bytes([203, 0, 113, host])),
        port: 4_000,
        flowinfo: 0,
        scope_id: 0,
    }
}

fn seed(id: u64, device: &str, generation: u64, salt: &str) -> SessionSeed {
    SessionSeed {
        id,
        address: address(id as u8),
        password: "secret".to_owned(),
        device_id: device.to_owned(),
        generation_id: generation,
        session_salt: salt.to_owned(),
        is_srtp: false,
        created_at: 1_000,
        stream_debug: StreamDebugMetrics::new(false, 0),
    }
}

fn revisions() -> WireRevisions {
    WireRevisions {
        current: "CSQTT-WIRE-2".to_owned(),
        legacy: "CSQTT-WIRE-2-LEGACY".to_owned(),
    }
}

fn database() -> Database {
    let mut db = Database::default();
    db.main_password = "main".to_owned();
    db.passwords
        .insert("secret".to_owned(), PasswordEntry::default());
    db
}

fn offer() -> DeviceOffer {
    DeviceOffer {
        ip: "10.66.67.5".to_owned(),
        address: Some([10, 66, 67, 5]),
        priv_key: "private".to_owned(),
        pub_key: "public".to_owned(),
    }
}

fn request(device: &str, generation: u64, salt: &str, worker: u16) -> GetconfRequest {
    let text =
        format!("GETCONF:9000|{device}|secret|{generation}|{salt}|{worker}|27|CSQTT-WIRE-2");
    read_getconf(&text, "secret", &revisions()).unwrap()
}

fn grant(
    registry: &mut Registry,
    db: &mut Database,
    epoch: &mut DeviceEpochState,
    id: u64,
    request: &GetconfRequest,
) -> Admission {
    let session = registry.get(id).unwrap();
    handle_getconf(
        request,
        &session,
        db,
        epoch,
        false,
        registry,
        Some(offer()),
        "1.1.1.1",
        500 + id,
    )
}

#[test]
fn hot_tunnel_configuration_preserves_client_ip_and_replaces_dns() {
    assert_eq!(
        hot_configuration_text([10, 66, 67, 42], "8.8.8.8,8.8.4.4"),
        "TUNCONF:10.66.67.42:8.8.8.8,8.8.4.4:0:stream-v2"
    );
}

#[test]
fn configurations_go_to_all_sessions_with_an_address() {
    let mut registry = Registry::new();
    for id in 1..=3 {
        registry.session_created(seed(id, "d", 1, "s"), 1_000);
    }
    registry.note_tunnel(1, [10, 0, 0, 1]);
    registry.note_tunnel(3, [10, 0, 0, 3]);
    let mut sent: Vec<(u64, Vec<u8>)> = broadcast_tunnel_configuration(&registry, "9.9.9.9")
        .into_iter()
        .map(|command| match command {
            ProtocolCommand::SendPlain {
                session_id,
                payload,
            } => (session_id, payload),
            _ => panic!("expected a payload"),
        })
        .collect();
    sent.sort();
    assert_eq!(
        sent,
        [
            (1, b"TUNCONF:10.0.0.1:9.9.9.9:0:stream-v2".to_vec()),
            (3, b"TUNCONF:10.0.0.3:9.9.9.9:0:stream-v2".to_vec()),
        ]
    );
}

#[test]
fn a_request_is_granted_once_its_password_gives_access() {
    let mut registry = Registry::new();
    let mut db = database();
    let mut epoch = DeviceEpochState::default();
    registry.session_created(seed(1, "", 0, ""), 1_000);
    let wanted = request("phone", 4, "salt", 1);
    let admission = grant(&mut registry, &mut db, &mut epoch, 1, &wanted);
    assert!(admission.granted);
    assert!(admission.changed);
    assert!(admission.response.starts_with("TUNCONF:10.66.67.5:1.1.1.1"));
    assert_eq!(getconf_log_status(&admission.response), "TUNCONF");
    assert_eq!(admission.tunnel_ip, Some([10, 66, 67, 5]));
    assert_eq!(
        db.passwords.get(&"secret".to_owned()).unwrap().device_id,
        "phone"
    );
    assert_eq!(
        db.devices.get(&"phone".to_owned()).unwrap().pub_key,
        "public"
    );
    assert!(epoch.matches(4, "salt"));
    let session = registry.get(1).unwrap();
    assert_eq!(session.device_id, "phone");
    assert_eq!(session.worker_id, 1);
    let identity = session_epoch_identity(&session);
    assert_eq!(
        (identity.device_id.as_str(), identity.generation_id),
        ("phone", 4)
    );
    assert!(admission
        .directives
        .iter()
        .any(|directive| matches!(directive, Directive::SaveDatabase)));
    assert!(admission.directives.iter().any(|directive| matches!(
        directive,
        Directive::Require(ProtocolCommand::SetAuthoritativeEpoch { generation_id: 4, .. })
            | Directive::Order(ProtocolCommand::SetAuthoritativeEpoch { generation_id: 4, .. })
    )));
}

#[test]
fn a_grant_ends_the_sessions_it_replaces() {
    let mut registry = Registry::new();
    let mut db = database();
    let mut epoch = DeviceEpochState::default();
    for id in 1..=4 {
        registry.session_created(seed(id, "", 0, ""), 1_000);
    }
    grant(&mut registry, &mut db, &mut epoch, 1, &request("phone", 1, "a", 1));
    grant(&mut registry, &mut db, &mut epoch, 2, &request("phone", 1, "a", 2));
    assert_eq!(registry.len(), 4);
    let again = grant(&mut registry, &mut db, &mut epoch, 3, &request("phone", 1, "a", 2));
    assert!(again.granted && !again.changed);
    assert!(registry.get(2).is_none());
    assert!(registry.get(1).is_some());
    let newer = grant(&mut registry, &mut db, &mut epoch, 4, &request("phone", 9, "b", 1));
    assert!(newer.granted);
    assert!(registry.get(1).is_none());
    assert!(registry.get(3).is_none());
    assert!(registry.get(4).is_some());
    assert!(newer
        .directives
        .iter()
        .any(|directive| matches!(directive, Directive::Cancel { session_id: 1 })));
    assert!(matches!(
        newer.directives[0],
        Directive::NoteWorker {
            session_id: 4,
            worker_id: 1
        }
    ));
    let logged: Vec<PeerAddress> = newer
        .directives
        .iter()
        .filter_map(|directive| match directive {
            Directive::LogPurged { device_id, address } if device_id == "phone" => Some(*address),
            _ => None,
        })
        .collect();
    assert_eq!(logged.len(), 2);
    assert!(logged.contains(&address(1)) && logged.contains(&address(3)));
    assert!(!again
        .directives
        .iter()
        .any(|directive| matches!(directive, Directive::LogPurged { .. })));
}

#[test]
fn a_password_on_another_device_is_refused() {
    let mut registry = Registry::new();
    let mut db = database();
    let mut epoch = DeviceEpochState::default();
    registry.session_created(seed(1, "", 0, ""), 1_000);
    registry.session_created(seed(2, "", 0, ""), 1_000);
    grant(&mut registry, &mut db, &mut epoch, 1, &request("phone", 1, "a", 1));
    let wanted = request("tablet", 1, "a", 1);
    let mut other = DeviceEpochState::default();
    let session = registry.get(2).unwrap();
    let refused = handle_getconf(
        &wanted, &session, &mut db, &mut other, true, &mut registry, None, "1.1.1.1", 9,
    );
    assert!(!refused.granted);
    assert!(refused.response.starts_with("DENIED:"));
    assert_eq!(getconf_log_status(&refused.response), refused.response);
    assert!(refused
        .directives
        .iter()
        .any(|directive| matches!(directive, Directive::ForgetEpoch)));
    assert!(refused
        .directives
        .iter()
        .any(|directive| matches!(directive, Directive::Drop { session_id: 2 })));
    match check_getconf(
        "GETCONF:9000|tablet|secret|1|a|1|27|CSQTT-WIRE-2",
        &session,
        &db,
        &revisions(),
    ) {
        GetconfCheck::Refused {
            denial,
            drop_session,
        } => {
            assert_eq!(denial.response, refused.response);
            assert!(drop_session);
        }
        GetconfCheck::Proceeds(_) => panic!("expected a refusal"),
    }
    assert!(rejected_session_is_request(&session, "tablet", 1, "a"));
    let bound = registry.get(1).unwrap();
    assert!(!rejected_session_is_request(&bound, "tablet", 1, "a"));
    assert!(rejected_session_is_request(&bound, "phone", 1, "a"));
    assert!(matches!(
        check_getconf(
            "GETCONF:9000|phone|secret|2|b|1|27|CSQTT-WIRE-2",
            &bound,
            &db,
            &revisions()
        ),
        GetconfCheck::Proceeds(_)
    ));
    assert!(matches!(
        check_getconf("GETCONF:9000|phone|wrong|2|b|1|27|CSQTT-WIRE-2", &bound, &db, &revisions()),
        GetconfCheck::Refused {
            drop_session: false,
            ..
        }
    ));
}

#[test]
fn control_packets_are_told_apart() {
    assert!(matches!(
        read_control_payload(b"GETCONF:1|d"),
        ControlRequest::Getconf("GETCONF:1|d")
    ));
    assert!(matches!(
        read_control_payload(b"DISCONNECT: phone | salt "),
        ControlRequest::Disconnect {
            device_id: "phone",
            salt: "salt"
        }
    ));
    assert!(matches!(
        read_control_payload(b"DISCONNECT:\xff"),
        ControlRequest::Malformed
    ));
    assert!(matches!(
        read_control_payload(b"READY"),
        ControlRequest::Ignored
    ));
}

#[test]
fn only_the_owner_may_disconnect_a_device() {
    let mut registry = Registry::new();
    let mut db = database();
    let mut epoch = DeviceEpochState::default();
    registry.session_created(seed(1, "", 0, ""), 1_000);
    grant(&mut registry, &mut db, &mut epoch, 1, &request("phone", 3, "a", 1));
    let session = registry.get(1).unwrap();
    let long = "x".repeat(129);

    assert_eq!(
        check_disconnect(Some(&db), &session, "", "a"),
        Err("DENIED:invalid_device")
    );
    assert_eq!(
        check_disconnect(Some(&db), &session, &long, "a"),
        Err("DENIED:invalid_device")
    );
    assert_eq!(
        check_disconnect(Some(&db), &session, "phone", ""),
        Err("DENIED:invalid_epoch")
    );
    assert_eq!(
        check_disconnect(Some(&db), &session, "phone", "b"),
        Err("DENIED:not_owner")
    );
    assert_eq!(
        check_disconnect(None, &session, "phone", "a"),
        Err("DENIED:not_owner")
    );
    assert_eq!(check_disconnect(Some(&db), &session, "phone", "a"), Ok(()));

    assert!(matches!(
        decide_disconnect(Some(&db), &session, "phone", "a", Some(&epoch)),
        Ok(ProtocolCommand::DisconnectDevice { device_id, requester_session_id: 1 }) if device_id == "phone"
    ));
    assert!(decide_disconnect(Some(&db), &session, "phone", "a", None).is_err());
    let stranger = DeviceEpochState::new(3, "b".to_owned());
    assert!(decide_disconnect(Some(&db), &session, "phone", "a", Some(&stranger)).is_err());

    registry.session_created(seed(2, "phone", 3, "a"), 1_000);
    registry.session_created(seed(3, "tablet", 3, "a"), 1_000);
    let gone = registry.disconnect_device_sessions("phone", 1);
    assert_eq!(registry.len(), 1);
    assert!(registry.get(3).is_some());
    assert!(!gone.is_empty());
}

#[test]
fn tunnels_are_planned_for_sessions_with_a_worker() {
    let mut registry = Registry::new();
    let mut db = database();
    let mut epoch = DeviceEpochState::default();
    registry.session_created(seed(1, "", 0, ""), 1_000);
    let unnumbered = Some(ResolvedAddress {
        address: Some([10, 0, 0, 9]),
    });
    assert!(matches!(
        ensure_control_tunnel(&mut registry, 1, None, 1),
        Err(TunnelError::NoAddress)
    ));
    assert!(matches!(
        ensure_control_tunnel(&mut registry, 1, Some(ResolvedAddress { address: None }), 1),
        Err(TunnelError::InvalidAddress)
    ));
    assert!(matches!(
        ensure_control_tunnel(&mut registry, 1, unnumbered, 1),
        Err(TunnelError::NoWorker)
    ));
    registry.session_created(seed(2, "", 0, ""), 1_000);
    grant(&mut registry, &mut db, &mut epoch, 2, &request("phone", 3, "a", 6));
    match ensure_control_tunnel(&mut registry, 2, unnumbered, 44) {
        Ok(Some(ProtocolCommand::ActivateTunnel {
            session_id,
            ip,
            registration_id,
            worker_id,
            desired_count,
        })) => {
            assert_eq!((session_id, registration_id), (2, 44));
            assert_eq!((worker_id, desired_count), (6, 27));
            registry.note_tunnel(2, ip);
        }
        _ => panic!("expected a tunnel"),
    }
    assert!(matches!(
        ensure_control_tunnel(&mut registry, 2, None, 45),
        Ok(None)
    ));
}

#[test]
fn sessions_without_a_sign_of_life_are_pruned() {
    let mut registry = Registry::new();
    registry.session_created(seed(1, "d", 1, "s"), 1_000);
    registry.session_created(seed(2, "d", 1, "s"), 1_000);
    registry.note_tunnel(2, [10, 0, 0, 2]);
    let directives = registry.prune_public_sessions(1_030);
    assert_eq!(registry.len(), 1);
    assert!(directives
        .iter()
        .any(|directive| matches!(directive, Directive::Cancel { session_id: 1 })));
    registry.prune_public_sessions(1_119);
    assert_eq!(registry.len(), 1);
    registry.prune_public_sessions(1_120);
    assert_eq!(registry.len(), 0);
}

#[test]
fn the_registry_is_bounded() {
    let mut registry = Registry::new();
    for id in 0..PUBLIC_SESSION_LIMIT as u64 {
        let (_, accepted) = registry.session_created(seed(id, "d", 1, "s"), 1_000);
        assert!(accepted);
        registry.note_tunnel(id, [10, 0, 0, 1]);
    }
    let (_, accepted) = registry.session_created(seed(90_000, "d", 1, "s"), 1_000);
    assert!(!accepted);
    assert_eq!(registry.len(), PUBLIC_SESSION_LIMIT);
    assert_eq!(registry.total_connections(), PUBLIC_SESSION_LIMIT as u64);
    let (directives, accepted) = registry.session_created(seed(5, "d", 1, "s"), 1_000);
    assert!(accepted);
    assert!(directives
        .iter()
        .any(|directive| matches!(directive, Directive::Cancel { session_id: 5 })));
}

#[test]
fn sessions_are_dropped_by_identifier_password_or_all_at_once() {
    let mut registry = Registry::new();
    for id in 1..=4 {
        let mut fresh = seed(id, "d", 1, "s");
        if id == 4 {
            fresh.password = "other".to_owned();
        }
        registry.session_created(fresh, 1_000);
    }
    assert_eq!(registry.drop_exact_session(1).len(), 2);
    assert_eq!(registry.drop_exact_session(1).len(), 1);
    assert!(registry.session_closed(2));
    assert!(!registry.session_closed(2));
    let dropped = registry.drop_password_sessions("secret");
    assert!(matches!(
        &dropped[0],
        Directive::Order(ProtocolCommand::DropPassword { password }) if password == "secret"
    ));
    assert_eq!(registry.len(), 1);
    assert_eq!(registry.ids(), [4]);
    registry.drop_all_sessions();
    assert_eq!(registry.len(), 0);
    assert!(matches!(
        notify_panel_restart(),
        ProtocolCommand::BroadcastPlain { .. }
    ));
}

#[test]
fn stale_and_replaced_sessions_are_purged() {
    let mut registry = Registry::new();
    registry.session_created(seed(1, "phone", 1, "a"), 1_000);
    registry.session_created(seed(2, "phone", 2, "b"), 1_000);
    registry.session_created(seed(3, "tablet", 1, "a"), 1_000);
    let purged = registry.purge_stale_device_sessions("phone", 2, "b", 2);
    assert!(matches!(
        purged.as_slice(),
        [
            Directive::Order(ProtocolCommand::DropSession { session_id: 1 }),
            Directive::Cancel { session_id: 1 },
            Directive::LogPurged { device_id, address: from },
        ] if device_id == "phone" && *from == address(1)
    ));
    assert!(registry.get(1).is_none() && registry.get(2).is_some() && registry.get(3).is_some());
    registry.session_created(seed(4, "phone", 2, "b"), 1_000);
    let worker = registry.get(2).unwrap().worker_id;
    registry.purge_replaced_worker_sessions("phone", 2, "b", worker, 4);
    assert!(registry.get(2).is_none() && registry.get(4).is_some());
}

fn report(id: u64, up: u64, down: u64) -> CounterReport {
    CounterReport {
        session_id: id,
        up_delta: up,
        down_delta: down,
        last_seen: 1_005,
        publish_debug: false,
        debug: HotDebug::new(1),
    }
}

#[test]
fn changes_reach_the_registry() {
    let mut registry = Registry::new();
    registry.session_created(seed(1, "d", 1, "s"), 1_000);
    assert_eq!(
        registry.apply(PublicUpdate::Counters(report(1, 10, 20)), true),
        UpdateOutcome::Nothing
    );
    let session = registry.get(1).unwrap();
    assert_eq!(
        (session.up_bytes, session.down_bytes, session.last_seen),
        (10, 20, 1_005)
    );
    assert_eq!(registry.traffic_totals(), (10, 20));
    registry.apply(PublicUpdate::Counters(report(9, 1, 1)), true);
    assert_eq!(registry.traffic_totals(), (11, 21));
    registry.apply(
        PublicUpdate::Tunnel {
            session_id: 1,
            ip: [10, 0, 0, 1],
            desired_count: 5,
        },
        true,
    );
    registry.apply(
        PublicUpdate::Epoch {
            session_id: 1,
            device_id: "e".to_owned(),
            generation_id: 2,
            session_salt: "t".to_owned(),
        },
        true,
    );
    let session = registry.get(1).unwrap();
    assert_eq!(session.tunnel_ip, Some([10, 0, 0, 1]));
    assert_eq!(session.desired_stream_count, 5);
    assert_eq!(session.device_id, "e");
    registry.apply(
        PublicUpdate::HasTunnel {
            session_id: 1,
            has_tunnel: false,
        },
        true,
    );
    assert!(!registry.get(1).unwrap().has_tunnel);
    assert_eq!(
        registry.apply(PublicUpdate::Cancel { session_id: 1 }, true),
        UpdateOutcome::Cancel { session_id: 1 }
    );
    let mut other = report(1, 0, 0);
    other.publish_debug = true;
    other.debug = HotDebug::new(7);
    other.debug.up_bytes = 99;
    assert_eq!(
        registry.apply(PublicUpdate::Counters(other), true),
        UpdateOutcome::Resync {
            session_id: 1,
            generation: 1
        }
    );
    assert_eq!(registry.get(1).unwrap().stream_debug.up_bytes, 0);
    other.debug.generation = 1;
    registry.apply(PublicUpdate::Counters(other), false);
    assert_eq!(registry.get(1).unwrap().stream_debug.up_bytes, 0);
    registry.apply(PublicUpdate::Counters(other), true);
    assert_eq!(registry.get(1).unwrap().stream_debug.up_bytes, 99);
}

#[test]
fn traffic_goes_to_password_and_device_once() {
    let mut registry = Registry::new();
    let mut db = database();
    let mut epoch = DeviceEpochState::default();
    registry.session_created(seed(1, "", 0, ""), 1_000);
    grant(&mut registry, &mut db, &mut epoch, 1, &request("phone", 1, "a", 1));
    let mut owner = seed(2, "laptop", 1, "a");
    owner.password = "main".to_owned();
    registry.session_created(owner, 1_000);
    db.devices.insert(
        "laptop".to_owned(),
        ClientDevice {
            device_id: "laptop".to_owned(),
            ..ClientDevice::default()
        },
    );
    registry.apply(PublicUpdate::Counters(report(1, 100, 200)), true);
    registry.apply(PublicUpdate::Counters(report(2, 7, 8)), true);
    let traffic = flush_traffic(&mut registry, &mut db);
    let entry = db.passwords.get(&"secret".to_owned()).unwrap();
    assert_eq!((entry.up_bytes, entry.down_bytes), (100, 200));
    let device = db.devices.get(&"phone".to_owned()).unwrap();
    assert_eq!((device.up_bytes, device.down_bytes), (100, 200));
    assert_eq!((db.main_up_bytes, db.main_down_bytes), (7, 8));
    assert_eq!(traffic.main.unwrap().up_bytes, 7);
    assert_eq!(
        traffic.passwords.get(&"secret".to_owned()).unwrap().down_bytes,
        200
    );
    let again = flush_traffic(&mut registry, &mut db);
    assert!(again.main.is_none());
    assert_eq!(again.passwords.len() + again.devices.len(), 0);
    assert_eq!(db.main_up_bytes, 7);
}

#[test]
fn credentials_follow_the_passwords_in_force() {
    let mut db = database();
    db.passwords.insert(
        "off".to_owned(),
        PasswordEntry {
            is_deactivated: true,
            ..PasswordEntry::default()
        },
    );
    db.passwords.insert(
        "old".to_owned(),
        PasswordEntry {
            expired: true,
            ..PasswordEntry::default()
        },
    );
    let passwords = active_passwords(&db);
    assert!(passwords.contains(&"main".to_owned()) && passwords.contains(&"secret".to_owned()));
    assert!(!passwords.contains(&"off".to_owned()) && !passwords.contains(&"old".to_owned()));
    assert_eq!(expired_passwords(&db), ["old"]);

    let mut cache = KeyCache::new();
    cache.insert("gone".to_owned(), [9; 32]);
    assert_eq!(cache.prepare(&passwords), passwords);
    assert!(cache.build_credentials(&vec!["gone".to_owned()]).is_none());
    assert!(cache.build_credentials(&passwords).is_none());
    for (index, password) in passwords.iter().enumerate() {
        cache.insert(password.clone(), [index as u8 + 1; 32]);
    }
    assert!(cache.prepare(&passwords).is_empty());
    let set = cache.build_credentials(&passwords).unwrap();
    assert_eq!(set.entries.len(), passwords.len());
    for (index, entry) in set.entries.iter().enumerate() {
        assert_eq!(entry.password, passwords[index]);
        assert_eq!(entry.key.bytes, [index as u8 + 1; 32]);
    }
    cache.remove("secret");
    assert_eq!(cache.prepare(&passwords), ["secret"]);

    let mut registry = Registry::new();
    let mut fresh = seed(1, "d", 1, "s");
    fresh.password = "old".to_owned();
    registry.session_created(fresh, 1_000);
    assert!(expire_password(&mut db, &mut cache, &mut registry, &"secret".to_owned()).is_none());
    assert!(expire_password(&mut db, &mut cache, &mut registry, &"old".to_owned()).is_some());
    assert_eq!(registry.len(), 0);
    assert!(expired_passwords(&db).is_empty());
    assert!(expire_password(&mut db, &mut cache, &mut registry, &"old".to_owned()).is_none());
}

#[test]
fn every_event_has_its_consequence() {
    let mut desk = Desk::new();
    let created = desk.on_event(ControlEvent::SessionCreated(seed(1, "d", 1, "s")), 1_000);
    assert!(matches!(
        created.line,
        Some(LogLine::SessionCreated { is_srtp: false, .. })
    ));
    assert_eq!(desk.registry.len(), 1);

    let payload = desk.on_event(
        ControlEvent::Payload {
            address: address(1),
            session_id: 1,
            payload: b"GETCONF:".to_vec(),
        },
        1_000,
    );
    assert!(matches!(payload.job, Some(Job::Payload { session_id: 1, .. })));
    assert!(payload.directives.is_empty() && payload.line.is_none());

    let ingress = desk.on_event(
        ControlEvent::IngressBeforeTunnel {
            address: address(1),
            session_id: 1,
            payload: b"data".to_vec(),
        },
        1_000,
    );
    assert!(matches!(ingress.job, Some(Job::Ingress { session_id: 1, .. })));

    let repair = desk.on_event(
        ControlEvent::StreamRepair {
            log: StreamRepairLog {
                device_id: "d".to_owned(),
                generation_id: 1,
                desired_count: 3,
                sequence: 1,
                missing: vec![2],
            },
            selected_carriers: 2,
            sent_carriers: 1,
        },
        1_000,
    );
    assert!(matches!(
        repair.line,
        Some(LogLine::StreamRepair {
            selected_carriers: 2,
            sent_carriers: 1,
            ..
        })
    ));

    let mut counters = IoCounters::default();
    counters.tun_tx_drops = 4;
    let first = desk.on_event(ControlEvent::IoCounters(counters), 1_000);
    assert!(matches!(first.line, Some(LogLine::IoFaults { .. })));
    let second = desk.on_event(ControlEvent::IoCounters(counters), 1_000);
    assert!(second.line.is_none());

    let closed = desk.on_event(
        ControlEvent::SessionClosed {
            address: address(1),
            session_id: 1,
            reason: "idle",
        },
        1_000,
    );
    assert!(matches!(
        closed.line,
        Some(LogLine::SessionClosed { reason: "idle", .. })
    ));
    assert!(matches!(
        &closed.directives[..],
        [Directive::Cancel { session_id: 1 }]
    ));
    let unknown = desk.on_event(
        ControlEvent::SessionClosed {
            address: address(1),
            session_id: 1,
            reason: "idle",
        },
        1_000,
    );
    assert!(unknown.line.is_none() && unknown.directives.is_empty());

    assert!(matches!(
        after_tunnel_setup(3, true, b"p".to_vec()),
        Directive::Order(ProtocolCommand::InjectTun { session_id: 3, .. })
    ));
    assert!(matches!(
        after_tunnel_setup(3, false, b"p".to_vec()),
        Directive::Drop { session_id: 3 }
    ));
}

#[test]
fn a_session_starts_from_its_seed() {
    let session = Session::new(seed(8, "d", 2, "s"));
    assert_eq!(session.id, 8);
    assert_eq!(session.last_seen, 1_000);
    assert!(!session.has_tunnel);
    let copy = session.copy();
    assert_eq!(copy.session_salt, "s");
}

#[test]
fn a_grant_locks_its_password_and_allows_to_disconnect() {
    let mut registry = Registry::new();
    let mut db = database();
    let mut epoch = DeviceEpochState::default();
    registry.session_created(seed(1, "", 0, ""), 1_000);
    grant(&mut registry, &mut db, &mut epoch, 1, &request("phone", 3, "a", 1));
    assert!(getconf_credential_access(&db, "secret", "phone").is_ok());
    assert!(getconf_credential_access(&db, "secret", "tablet").is_err());
    let session = registry.get(1).unwrap();
    assert!(check_disconnect(Some(&db), &session, "phone", "a").is_ok());
    assert!(decide_disconnect(Some(&db), &session, "phone", "a", Some(&epoch)).is_ok());
}
