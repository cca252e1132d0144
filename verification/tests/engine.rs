use csqtt::control::{DISCONNECTED_REPLY, READY_OK};
use csqtt::effect::{
    Credential, CredentialSet, ControlEvent, Effect, IoCounters, ProtocolCommand, PublicUpdate,
    RouteFallback, fanout_command, repair_event,
};
use csqtt::endpoint::{IpAddress, PeerAddress};
use csqtt::engine::commands::after_release;
use csqtt::engine::downlink::{
    wants_duplicate, DownlinkDrain, DownlinkSend, DrainSettlement, DrainStep, RouteEndpoint,
    DOWNLINK_DRAIN_PACKET_LIMIT,
};
use csqtt::engine::upkeep::Tick;
use csqtt::engine::{ProtocolEngine, SessionStart, HOT_TABLE_RESERVE};
use csqtt::class::PacketClass;
use csqtt::epoch::shard_for_device;
use csqtt::rtp::{OutState, PAYLOAD_TYPE_AUDIO};
use csqtt::session::{FecProfile, NO_WORKER};
use csqtt::table::Table;
use csqtt::wire::{unwrap_legacy_in_place, wrap_packet, Draw, PacketBuf, WrapKey};

const REQUEST: &[u8] = b"GETCONF:46000|wire-device|wire-password|7|wire-salt|1|27|CSQTT-WIRE-2";

fn key(seed: u8) -> WrapKey {
    WrapKey { bytes: [seed; 32] }
}

fn peer(host: u8, port: u16) -> PeerAddress {
    PeerAddress {
        ip: IpAddress::V4(u32::from_be_bytes([198, 51, 100, host])),
        port,
        flowinfo: 0,
        scope_id: 0,
    }
}

fn credentials(list: &[(&str, u8)]) -> CredentialSet {
    CredentialSet {
        entries: list
            .iter()
            .map(|(password, seed)| Credential {
                password: String::from(*password),
                key: key(*seed),
            })
            .collect(),
    }
}

fn engine_of(password: &str, seed: u8, shard: usize, shards: usize) -> ProtocolEngine {
    ProtocolEngine::new(
        shard,
        shards,
        credentials(&[(password, seed)]),
        Table::new(),
        FecProfile::Safe,
        2_048,
        1_000,
    )
}

fn fixture_engine() -> ProtocolEngine {
    engine_of("wire-password", 1, 0, 1)
}

fn start(id: u64) -> SessionStart {
    SessionStart {
        id,
        wall_ms: 5_000,
        started_ns: 0,
        stream_debug_active: false,
        cached_now: 5,
    }
}

struct Client {
    state: OutState,
    key: WrapKey,
}

impl Client {
    fn new(seed: u8) -> Client {
        Client {
            state: OutState::from_random(PAYLOAD_TYPE_AUDIO, [seed; 12], 0, 0),
            key: key(seed),
        }
    }

    fn wrap(&mut self, plain: &[u8]) -> Vec<u8> {
        let mut packet = PacketBuf::new(2_048);
        wrap_packet(
            &self.key,
            &mut self.state,
            false,
            plain,
            &Draw {
                marker: false,
                filler: vec![5, 5],
            },
            &mut packet,
            1_000,
        )
        .unwrap();
        packet.as_slice().to_vec()
    }
}

fn request(device: &str, generation: u64, salt: &str, worker: u16) -> Vec<u8> {
    format!("GETCONF:46000|{device}|wire-password|{generation}|{salt}|{worker}|27|CSQTT-WIRE-2")
        .into_bytes()
}

fn control_events(effects: Vec<Effect>) -> Vec<ControlEvent> {
    effects
        .into_iter()
        .filter_map(|effect| match effect {
            Effect::Control(event) => Some(event),
            _ => None,
        })
        .collect()
}

fn set_up(engine: &mut ProtocolEngine, client: &mut Client, from: PeerAddress, id: u64, plain: &[u8]) {
    let wire = client.wrap(plain);
    engine.handle_unknown_legacy(from, None, &wire, start(id));
}

fn receive(engine: &mut ProtocolEngine, from: PeerAddress, wire: Vec<u8>) -> bool {
    let mut packet = wire;
    match engine.on_udp(from, None, &mut packet, start(999)) {
        Some(delivery) => {
            engine.deliver(delivery, &packet, None);
            true
        }
        None => false,
    }
}

fn tick(elapsed_ms: u64) -> Tick {
    Tick {
        elapsed_ms,
        wall_now: 1_000 + elapsed_ms / 1_000,
        debug_enabled: false,
        dpi_enabled: false,
        syscalls_enabled: false,
        io_metrics_enabled: true,
    }
}

fn grant(engine: &mut ProtocolEngine, id: u64, worker: u16) {
    engine.note_worker(id, worker);
}

fn activate(engine: &mut ProtocolEngine, id: u64, ip: [u8; 4], registration: u64, worker: u16) {
    grant(engine, id, worker);
    engine.on_command(ProtocolCommand::ActivateTunnel {
        session_id: id,
        ip,
        registration_id: registration,
        worker_id: worker,
        desired_count: 27,
    });
    let effects = engine.take_effects();
    let mut registered = 0;
    for effect in effects {
        if let Effect::RegisterRoute(route) = effect {
            engine.complete_activation(route, true);
            registered += 1;
        }
    }
    assert_eq!(registered, 1);
}

#[test]
fn client_fixture_creates_hot_session_and_control_event_through_engine() {
    let mut engine = fixture_engine();
    let from = peer(10, 46_000);
    set_up(&mut engine, &mut Client::new(1), from, 77, REQUEST);

    assert_eq!(engine.session_count(), 1);
    let slot = engine.slot_at(from, None).unwrap();
    let session = engine.session(slot).unwrap();
    assert_eq!(session.peer, from);
    assert_eq!(session.id, 77);
    assert_eq!(session.device_id, "wire-device");
    assert_eq!(session.generation_id, 7);
    assert_eq!(session.session_salt, "wire-salt");
    assert_eq!(session.worker_id, NO_WORKER);

    let mut events = control_events(engine.take_effects()).into_iter();
    match events.next().unwrap() {
        ControlEvent::SessionCreated(seed) => {
            assert_eq!(seed.address, from);
            assert_eq!(seed.password, "wire-password");
        }
        _ => panic!("expected SessionCreated"),
    }
    match events.next().unwrap() {
        ControlEvent::Payload {
            address, payload, ..
        } => {
            assert_eq!(address, from);
            assert_eq!(payload, REQUEST);
        }
        _ => panic!("expected GETCONF payload"),
    }
    assert!(events.next().is_none());
}

#[test]
fn client_fixture_with_wrong_server_key_cannot_create_a_hot_session() {
    let mut engine = engine_of("wrong-password", 2, 0, 1);
    set_up(&mut engine, &mut Client::new(1), peer(11, 46_000), 1, REQUEST);
    assert_eq!(engine.session_count(), 0);
    let effects = engine.take_effects();
    assert!(effects
        .iter()
        .all(|effect| matches!(effect, Effect::ReportRejectedSetup { .. })));
    assert_eq!(effects.len(), 1);
    set_up(&mut engine, &mut Client::new(1), peer(11, 46_000), 1, REQUEST);
    assert!(engine.take_effects().is_empty());
}

#[test]
fn duplicate_client_handshake_replaces_in_place_without_a_phantom_session() {
    let mut engine = fixture_engine();
    let from = peer(12, 46_000);
    let wire = Client::new(1).wrap(REQUEST);
    engine.handle_unknown_legacy(from, None, &wire, start(1));
    engine.handle_unknown_legacy(from, None, &wire, start(2));

    assert_eq!(engine.session_count(), 1);
    assert!(engine.slot_of(1).is_none());
    assert!(engine.slot_of(2).is_some());
    let mut created = 0;
    let mut payloads = 0;
    let mut closed = 0;
    for event in control_events(engine.take_effects()) {
        match event {
            ControlEvent::SessionCreated(_) => created += 1,
            ControlEvent::Payload { .. } => payloads += 1,
            ControlEvent::SessionClosed { session_id, .. } => {
                assert_eq!(session_id, 1);
                closed += 1;
            }
            _ => panic!("unexpected control event during duplicate handshake"),
        }
    }
    assert_eq!(created, 2);
    assert_eq!(payloads, 2);
    assert_eq!(closed, 1);
}

#[test]
fn ten_client_endpoints_complete_the_encrypted_setup_path_without_collisions() {
    let mut engine = fixture_engine();
    let wire = Client::new(1).wrap(REQUEST);
    for client in 0..10u8 {
        let from = peer(client + 20, 46_000 + u16::from(client));
        engine.handle_unknown_legacy(from, None, &wire, start(u64::from(client) + 1));
    }

    assert_eq!(engine.session_count(), 10);
    for client in 0..10u8 {
        let from = peer(client + 20, 46_000 + u16::from(client));
        let slot = engine.slot_at(from, None).unwrap();
        assert_eq!(engine.slot_of(u64::from(client) + 1), Some(slot));
    }
    assert_eq!(control_events(engine.take_effects()).len(), 20);
}

#[test]
fn bootstrap_session_moves_to_its_device_owner_before_control_is_emitted() {
    let mut device = "device-owner".to_owned();
    while shard_for_device(&device, 2) == 0 {
        device.push('x');
    }
    let target = shard_for_device(&device, 2);
    let password = "owner-password";
    let mut bootstrap = engine_of(password, 6, 0, 2);
    let from = PeerAddress {
        ip: IpAddress::V4(0x7f00_0001),
        port: 46_000,
        flowinfo: 0,
        scope_id: 0,
    };
    let slot = bootstrap.create_legacy_session(
        from,
        None,
        password,
        key(6),
        111,
        false,
        &device,
        1,
        "owner-salt",
        1,
        start(31),
    );
    bootstrap.place_new_session(slot, b"GETCONF:9000|owner".to_vec());
    assert_eq!(bootstrap.session_count(), 0);
    assert!(bootstrap.endpoint_is_migrating(from, None));
    let mut command = None;
    for effect in bootstrap.take_effects() {
        match effect {
            Effect::Migrate {
                target: shard,
                session,
                payload,
            } => {
                assert_eq!(shard, target);
                command = Some(ProtocolCommand::AdoptSession {
                    session,
                    initial_payload: payload,
                });
            }
            Effect::Control(_) => panic!("control was told before the owner had the session"),
            _ => {}
        }
    }
    let mut owner = engine_of(password, 6, target, 2);
    owner.on_command(command.expect("bootstrap did not enqueue session migration"));
    assert_eq!(owner.session_count(), 1);
    let mut events = control_events(owner.take_effects()).into_iter();
    assert!(matches!(events.next(), Some(ControlEvent::SessionCreated(_))));
    assert!(matches!(events.next(), Some(ControlEvent::Payload { .. })));
}

#[test]
fn a_session_that_cannot_move_comes_back() {
    let mut device = "device-owner".to_owned();
    while shard_for_device(&device, 2) == 0 {
        device.push('x');
    }
    let mut engine = engine_of("wire-password", 1, 0, 2);
    let plain = request(&device, 1, "salt", 1);
    set_up(&mut engine, &mut Client::new(1), peer(9, 1), 5, &plain);
    let mut session = None;
    for effect in engine.take_effects() {
        if let Effect::Migrate {
            session: moved,
            payload,
            ..
        } = effect
        {
            session = Some((moved, payload));
        }
    }
    let (moved, payload) = session.unwrap();
    assert!(engine.endpoint_is_migrating(peer(9, 1), Some(IpAddress::V4(1))));
    assert!(!receive(&mut engine, peer(9, 1), Client::new(1).wrap(&plain)));
    assert_eq!(engine.session_count(), 0);
    engine.restore_session(*moved, payload);
    assert!(!engine.endpoint_is_migrating(peer(9, 1), None));
    assert_eq!(engine.session_count(), 1);
    assert_eq!(control_events(engine.take_effects()).len(), 2);
}

#[test]
fn packets_are_answered_delivered_or_ignored() {
    let mut engine = fixture_engine();
    let from = peer(30, 5_000);
    let mut client = Client::new(1);
    set_up(&mut engine, &mut client, from, 4, REQUEST);
    let slot = engine.slot_of(4).unwrap();
    engine.take_effects();

    assert!(receive(&mut engine, from, client.wrap(b"READY")));
    let effects = engine.take_effects();
    assert!(effects.iter().any(
        |effect| matches!(effect, Effect::Send { slot: to, payload, .. } if *to == slot && payload[..] == READY_OK)
    ));

    assert!(receive(&mut engine, from, client.wrap(&[0xff, 0xff])));
    assert!(control_events(engine.take_effects()).is_empty());

    assert!(receive(&mut engine, from, client.wrap(b"\x45 early data")));
    let events = control_events(engine.take_effects());
    assert!(matches!(
        &events[..],
        [ControlEvent::IngressBeforeTunnel { session_id: 4, payload, .. }] if payload == b"\x45 early data"
    ));
    assert!(receive(&mut engine, from, client.wrap(b"\x45 more data")));
    assert!(control_events(engine.take_effects()).is_empty());
    engine.ingress_refused(4);
    assert!(receive(&mut engine, from, client.wrap(b"\x45 again data")));
    assert_eq!(control_events(engine.take_effects()).len(), 1);

    activate(&mut engine, 4, [10, 66, 67, 9], 70, 1);
    engine.take_effects();
    assert_eq!(engine.session(slot).unwrap().tunnel_ip, Some([10, 66, 67, 9]));
    assert_eq!(engine.session(slot).unwrap().registration_id, Some(70));
    assert!(receive(&mut engine, from, client.wrap(b"\x45 data")));
    let effects = engine.take_effects();
    assert!(effects.iter().any(
        |effect| matches!(effect, Effect::WriteTun { slot: to, payload } if *to == slot && payload == b"\x45 data")
    ));
    engine.note_tun_written(slot, 6);
    assert_eq!(engine.session(slot).unwrap().up_total, 6);
}

#[test]
fn framed_packets_go_through_reassembly() {
    let mut engine = fixture_engine();
    let from = peer(31, 5_000);
    let mut client = Client::new(1);
    set_up(&mut engine, &mut client, from, 4, REQUEST);
    activate(&mut engine, 4, [10, 66, 67, 9], 70, 1);
    engine.on_command(ProtocolCommand::SetDataFrames {
        session_id: 4,
        enabled: true,
    });
    engine.take_effects();
    let slot = engine.slot_of(4).unwrap();
    assert!(engine.session(slot).unwrap().data_frames);
    let mut packet = client.wrap(b"HDRpayload");
    let delivery = engine.on_udp(from, None, &mut packet, start(9)).unwrap();
    engine.deliver(delivery, &packet, Some(3));
    assert!(engine.take_effects().iter().any(
        |effect| matches!(effect, Effect::Reassemble { slot: to, frame } if *to == slot && frame == b"HDRpayload")
    ));
}

#[test]
fn a_packet_is_taken_once() {
    let mut engine = fixture_engine();
    let from = peer(32, 5_000);
    let mut client = Client::new(1);
    set_up(&mut engine, &mut client, from, 4, REQUEST);
    let wire = client.wrap(b"READY");
    assert!(receive(&mut engine, from, wire.clone()));
    assert!(!receive(&mut engine, from, wire));
    let mut forged = client.wrap(b"READY");
    forged[30] ^= 1;
    assert!(!receive(&mut engine, from, forged));
}

#[test]
fn another_key_starts_the_session_anew() {
    let mut engine = fixture_engine();
    let from = peer(33, 5_000);
    let mut client = Client::new(1);
    set_up(&mut engine, &mut client, from, 4, &request("phone", 1, "a", 1));
    engine.take_effects();
    let mut packet = client.wrap(&request("phone", 2, "b", 1));
    assert!(engine.on_udp(from, None, &mut packet, start(5)).is_none());
    assert_eq!(engine.session_count(), 1);
    assert!(engine.slot_of(4).is_none());
    let slot = engine.slot_of(5).unwrap();
    assert_eq!(engine.session(slot).unwrap().generation_id, 2);
    let events = control_events(engine.take_effects());
    assert!(events
        .iter()
        .any(|event| matches!(event, ControlEvent::SessionClosed { session_id: 4, .. })));
    assert!(events
        .iter()
        .any(|event| matches!(event, ControlEvent::Payload { session_id: 5, .. })));
}

#[test]
fn commands_reach_their_sessions() {
    let mut engine = fixture_engine();
    let mut client = Client::new(1);
    for id in 1..=3u64 {
        set_up(
            &mut engine,
            &mut client,
            peer(40 + id as u8, 1),
            id,
            &request(if id == 3 { "tablet" } else { "phone" }, 1, "s", id as u16),
        );
    }
    engine.take_effects();

    engine.on_command(ProtocolCommand::SendPlain {
        session_id: 2,
        payload: b"one".to_vec(),
    });
    engine.on_command(ProtocolCommand::SendPlain {
        session_id: 9,
        payload: b"none".to_vec(),
    });
    assert_eq!(
        engine
            .take_effects()
            .iter()
            .filter(|effect| matches!(effect, Effect::Send { .. }))
            .count(),
        1
    );

    engine.on_command(ProtocolCommand::BroadcastPlain {
        payload: b"all".to_vec(),
    });
    assert_eq!(
        engine
            .take_effects()
            .iter()
            .filter(|effect| matches!(effect, Effect::Send { payload, .. } if payload == b"all"))
            .count(),
        3
    );

    engine.on_command(ProtocolCommand::UpdateEpoch {
        session_id: 2,
        device_id: "watch".to_owned(),
        generation_id: 8,
        session_salt: "t".to_owned(),
    });
    engine.note_worker(2, 5);
    engine.note_worker(9, 6);
    let slot = engine.slot_of(2).unwrap();
    assert_eq!(engine.session(slot).unwrap().device_id, "watch");
    assert_eq!(engine.session(slot).unwrap().worker_id, 5);
    engine.take_effects();

    engine.on_command(ProtocolCommand::SetAuthoritativeEpoch {
        device_id: "phone".to_owned(),
        generation_id: 2,
        session_salt: "new".to_owned(),
    });
    assert!(engine.slot_of(1).is_none());
    assert!(engine.slot_of(2).is_some());
    assert!(engine.slot_of(3).is_some());
    engine.take_effects();

    engine.on_command(ProtocolCommand::DropSession { session_id: 2 });
    assert!(engine.slot_of(2).is_none());
    engine.on_command(ProtocolCommand::DropPassword {
        password: "other".to_owned(),
    });
    assert_eq!(engine.session_count(), 1);
    engine.on_command(ProtocolCommand::DropPassword {
        password: "wire-password".to_owned(),
    });
    assert_eq!(engine.session_count(), 0);
}

#[test]
fn sessions_without_a_credential_end() {
    let mut engine = fixture_engine();
    set_up(&mut engine, &mut Client::new(1), peer(50, 1), 1, REQUEST);
    engine.take_effects();
    engine.on_command(ProtocolCommand::ReplaceCredentials(credentials(&[
        ("other", 3),
        ("wire-password", 1),
    ])));
    assert_eq!(engine.session_count(), 1);
    engine.on_command(ProtocolCommand::ReplaceCredentials(credentials(&[(
        "other", 3,
    )])));
    assert_eq!(engine.session_count(), 0);
}

#[test]
fn a_disconnect_is_answered_before_the_sessions_end() {
    let mut engine = fixture_engine();
    let mut client = Client::new(1);
    for id in 1..=3u64 {
        set_up(
            &mut engine,
            &mut client,
            peer(60 + id as u8, 1),
            id,
            &request(if id == 3 { "tablet" } else { "phone" }, 1, "s", id as u16),
        );
    }
    engine.take_effects();
    engine.on_command(ProtocolCommand::DisconnectDevice {
        device_id: "phone".to_owned(),
        requester_session_id: 1,
    });
    assert_eq!(engine.session_count(), 3);
    let effects = engine.take_effects();
    assert!(matches!(
        &effects[0],
        Effect::Send { payload, .. } if payload[..] == DISCONNECTED_REPLY
    ));
    assert!(matches!(
        &effects[1],
        Effect::EndDevice { device_id, requester_session_id: 1 } if device_id == "phone"
    ));
    engine.end_device_sessions("phone", 1);
    assert_eq!(engine.session_count(), 1);
    assert!(engine.slot_of(3).is_some());
}

#[test]
fn packets_for_a_session_are_wrapped_under_its_key() {
    let mut engine = fixture_engine();
    set_up(&mut engine, &mut Client::new(1), peer(70, 1), 1, REQUEST);
    let slot = engine.slot_of(1).unwrap();
    let mut packet = PacketBuf::new(2_048);
    let total = engine.wrap_for_session(slot, b"down", &mut packet).unwrap();
    assert_eq!(total, packet.as_slice().len());
    let mut wire = packet.as_slice().to_vec();
    let decoded = unwrap_legacy_in_place(&key(1), &mut wire, Some(false)).unwrap();
    assert_eq!(decoded.range.get(&wire), b"down");
    assert!(engine.wrap_for_session(slot + 1, b"down", &mut packet).is_none());
}

#[test]
fn routes_are_taken_over() {
    let mut engine = fixture_engine();
    let mut client = Client::new(1);
    for id in 1..=2u64 {
        set_up(
            &mut engine,
            &mut client,
            peer(80 + id as u8, 1),
            id,
            &request("phone", 1, "s", 2),
        );
        activate(&mut engine, id, [10, 0, 0, 1], 100 + id, 2);
    }
    engine.take_effects();
    engine.on_command(ProtocolCommand::DropSession { session_id: 1 });
    let slot = engine.slot_of(2).unwrap();
    let released = engine
        .take_effects()
        .into_iter()
        .find_map(|effect| match effect {
            Effect::ReleaseRoute {
                ip,
                registration_id,
                fallback,
            } => Some((ip, registration_id, fallback)),
            _ => None,
        })
        .unwrap();
    assert_eq!(released.0, [10, 0, 0, 1]);
    assert_eq!(released.1, 101);
    let taker = RouteFallback {
        slot,
        session_id: 2,
        registration_id: 102,
        worker_id: 2,
    };
    assert_eq!(released.2, Some(taker));
    let effects = after_release([10, 0, 0, 1], Some(taker), true);
    assert_eq!(effects.len(), 3);
    assert!(matches!(&effects[0], Effect::AdoptRoute { taker: got, .. } if *got == taker));
    assert!(matches!(
        &effects[1],
        Effect::Public(PublicUpdate::HasTunnel {
            session_id: 2,
            has_tunnel: true
        })
    ));
    assert_eq!(after_release([10, 0, 0, 1], Some(taker), false).len(), 1);
    assert_eq!(after_release([10, 0, 0, 1], None, true).len(), 1);
}

#[test]
fn a_refused_route_leaves_the_session_without_a_tunnel() {
    let mut engine = fixture_engine();
    set_up(&mut engine, &mut Client::new(1), peer(90, 1), 1, REQUEST);
    engine.take_effects();
    engine.activate_tunnel(1, [10, 0, 0, 5], 7, 1, 27);
    for effect in engine.take_effects() {
        if let Effect::RegisterRoute(route) = effect {
            engine.complete_activation(route, false);
        }
    }
    let slot = engine.slot_of(1).unwrap();
    assert_eq!(engine.session(slot).unwrap().registration_id, None);
}

#[test]
fn a_granted_worker_counts_though_its_route_is_refused() {
    let mut engine = fixture_engine();
    set_up(&mut engine, &mut Client::new(1), peer(95, 1), 1, REQUEST);
    activate(&mut engine, 1, [10, 0, 0, 6], 7, 1);
    grant(&mut engine, 1, 3);
    engine.take_effects();
    engine.activate_tunnel(1, [10, 0, 0, 6], 8, 3, 27);
    for effect in engine.take_effects() {
        if let Effect::RegisterRoute(route) = effect {
            engine.complete_activation(route, false);
        }
    }
    let slot = engine.slot_of(1).unwrap();
    let session = engine.session(slot).unwrap();
    assert_eq!(session.worker_id, 3);
    assert_eq!(session.registration_id, Some(7));
    let mut missing = Vec::new();
    for second in (3..60).step_by(3) {
        engine.on_tick(tick(second * 1_000));
        for effect in engine.take_effects() {
            if let Effect::StreamControl(action) = effect {
                missing = action.repair.unwrap().missing;
            }
        }
    }
    assert!(missing.contains(&1));
    assert!(!missing.contains(&3));
}

#[test]
fn an_heir_is_found_by_the_worker_number_that_was_given_last() {
    let mut engine = fixture_engine();
    let mut client = Client::new(1);
    for id in 1..=2u64 {
        set_up(
            &mut engine,
            &mut client,
            peer(110 + id as u8, 1),
            id,
            &request("phone", 1, "s", 2),
        );
        activate(&mut engine, id, [10, 0, 0, 1], 100 + id, 2);
    }
    engine.note_worker(2, 7);
    engine.take_effects();
    engine.on_command(ProtocolCommand::DropSession { session_id: 1 });
    assert!(engine.take_effects().iter().any(|effect| matches!(
        effect,
        Effect::ReleaseRoute {
            registration_id: 101,
            fallback: None,
            ..
        }
    )));
}

#[test]
fn metrics_start_when_a_session_is_made() {
    for (watched, started_at) in [(false, 0), (true, 42)] {
        let mut engine = fixture_engine();
        let wire = Client::new(1).wrap(REQUEST);
        engine.handle_unknown_legacy(
            peer(120, 1),
            None,
            &wire,
            SessionStart {
                stream_debug_active: watched,
                cached_now: 42,
                ..start(1)
            },
        );
        let seeds: Vec<u64> = control_events(engine.take_effects())
            .into_iter()
            .filter_map(|event| match event {
                ControlEvent::SessionCreated(seed) => Some(seed.stream_debug.started_at),
                _ => None,
            })
            .collect();
        assert_eq!(seeds, vec![started_at]);
    }
}

#[test]
fn idle_sessions_end_and_busy_ones_stay() {
    let mut engine = fixture_engine();
    let mut client = Client::new(1);
    set_up(&mut engine, &mut client, peer(91, 1), 1, &request("a", 1, "s", 1));
    set_up(&mut engine, &mut client, peer(92, 1), 2, &request("b", 1, "s", 1));
    activate(&mut engine, 2, [10, 0, 0, 2], 7, 1);
    engine.take_effects();
    engine.on_tick(tick(14_000));
    assert_eq!(engine.session_count(), 2);
    engine.on_tick(tick(16_000));
    assert!(engine.slot_of(1).is_none());
    assert!(engine.slot_of(2).is_some());
    let events = control_events(engine.take_effects());
    assert!(events
        .iter()
        .any(|event| matches!(event, ControlEvent::SessionClosed { session_id: 1, .. })));
    engine.on_tick(tick(35_999_000));
    assert!(engine.slot_of(2).is_some());
    engine.on_tick(tick(36_002_000));
    assert!(engine.slot_of(2).is_none());
}

#[test]
fn traffic_is_reported_with_each_round_of_maintenance() {
    let mut engine = fixture_engine();
    set_up(&mut engine, &mut Client::new(1), peer(93, 1), 1, REQUEST);
    let slot = engine.slot_of(1).unwrap();
    engine.note_tun_written(slot, 500);
    assert_eq!(engine.finish_down(slot, 700, true), DownlinkSend::Sent);
    assert_eq!(
        engine.finish_down(slot, 700, false),
        DownlinkSend::Backpressured
    );
    engine.take_effects();
    engine.on_tick(tick(2_000));
    let report = engine
        .take_effects()
        .into_iter()
        .find_map(|effect| match effect {
            Effect::Public(PublicUpdate::Counters(report)) => Some(report),
            _ => None,
        })
        .unwrap();
    assert_eq!(report.session_id, 1);
    assert_eq!(report.up_delta, 500);
    assert_eq!(report.down_delta, 700);
}

#[test]
fn missing_streams_are_asked_for() {
    let mut engine = fixture_engine();
    let mut client = Client::new(1);
    set_up(&mut engine, &mut client, peer(94, 1), 1, &request("a", 1, "s", 2));
    grant(&mut engine, 1, 2);
    engine.on_command(ProtocolCommand::ActivateTunnel {
        session_id: 1,
        ip: [10, 0, 0, 3],
        registration_id: 5,
        worker_id: 2,
        desired_count: 3,
    });
    for effect in engine.take_effects() {
        if let Effect::RegisterRoute(route) = effect {
            engine.complete_activation(route, true);
        }
    }
    engine.take_effects();
    let mut actions = Vec::new();
    for second in (3..60).step_by(3) {
        let mut packet = client.wrap(&[0xff]);
        engine.on_tick(tick(second * 1_000));
        let _ = engine.on_udp(peer(94, 1), None, &mut packet, start(9));
        for effect in engine.take_effects() {
            if let Effect::StreamControl(action) = effect {
                actions.push((second, action));
            }
        }
    }
    assert!(!actions.is_empty());
    assert!(actions[0].0 >= 30);
    let slot = engine.slot_of(1).unwrap();
    assert!(actions.iter().all(|(_, action)| action.carriers == vec![slot]));
    let event = repair_event(None, 1, 1);
    assert!(event.is_none());
    let (_, action) = actions.remove(0);
    assert!(matches!(
        repair_event(action.repair, 1, 0),
        Some(ControlEvent::StreamRepair {
            selected_carriers: 1,
            sent_carriers: 0,
            ..
        })
    ));
}

#[test]
fn compaction_moves_sessions_down_and_loses_none() {
    let mut engine = fixture_engine();
    let wire = Client::new(1).wrap(REQUEST);
    for client in 0..200u8 {
        engine.handle_unknown_legacy(peer(client, 1), None, &wire, start(u64::from(client) + 1));
    }
    for client in 0..190u64 {
        engine.on_command(ProtocolCommand::DropSession {
            session_id: client + 1,
        });
    }
    engine.take_effects();
    engine.compact_memory(true);
    assert_eq!(engine.session_count(), 10);
    let mut slots: Vec<usize> = (191..=200).map(|id| engine.slot_of(id).unwrap()).collect();
    for id in 191..=200u64 {
        let slot = engine.slot_of(id).unwrap();
        assert_eq!(engine.session(slot).unwrap().id, id);
        assert_eq!(engine.slot_at(peer(id as u8 - 1, 1), None), Some(slot));
    }
    slots.sort();
    assert_eq!(slots, (0..10).collect::<Vec<usize>>());
}

fn engine_with_a_free_slot() -> ProtocolEngine {
    let mut engine = fixture_engine();
    let mut client = Client::new(1);
    for id in 1..=3u8 {
        set_up(
            &mut engine,
            &mut client,
            peer(100 + id, 1),
            u64::from(id),
            &request("phone", 1, "s", u16::from(id)),
        );
    }
    engine.on_command(ProtocolCommand::DropSession { session_id: 1 });
    engine.take_effects();
    engine
}

#[test]
fn compaction_needs_much_unused_room() {
    for (room, packed) in [
        (0, false),
        (HOT_TABLE_RESERVE, false),
        (HOT_TABLE_RESERVE + 1, true),
        (usize::MAX, true),
    ] {
        let mut engine = engine_with_a_free_slot();
        let before = engine.slot_of(3).unwrap();
        engine.compact_with_room(false, room);
        assert_eq!(engine.session_count(), 2);
        assert_eq!(engine.slot_of(3) != Some(before), packed, "{room}");

        let mut engine = engine_with_a_free_slot();
        engine.compact_with_room(true, room);
        assert_ne!(engine.slot_of(3), Some(before));
    }
}

#[test]
fn compaction_waits_for_its_time() {
    let mut engine = engine_with_a_free_slot();
    let before = engine.slot_of(3);
    engine.on_tick(tick(4_998));
    engine.compact_if_due_with_room(usize::MAX);
    assert_eq!(engine.slot_of(3), before);
    engine.on_tick(tick(4_999));
    engine.compact_if_due_with_room(usize::MAX);
    assert_ne!(engine.slot_of(3), before);

    let mut engine = engine_with_a_free_slot();
    engine.on_tick(tick(5_000));
    engine.compact_if_due_with_room(HOT_TABLE_RESERVE);
    assert_eq!(engine.slot_of(3), before);
    engine.compact_if_due_with_room(usize::MAX);
    assert_eq!(engine.slot_of(3), before);
}

#[test]
fn a_request_to_compact_is_answered() {
    let mut engine = fixture_engine();
    engine.on_command(ProtocolCommand::CompactMemory { request: 12 });
    assert!(engine
        .take_effects()
        .iter()
        .any(|effect| matches!(effect, Effect::Compacted { request: 12 })));
}

#[test]
fn counters_are_passed_on_when_faults_are_new() {
    let mut engine = fixture_engine();
    let mut counters = IoCounters::default();
    counters.udp_tx_drops = 3;
    engine.on_tick(tick(1_000));
    engine.take_effects();
    engine.on_io_counters(counters);
    assert_eq!(control_events(engine.take_effects()).len(), 1);
    engine.on_io_counters(counters);
    assert!(control_events(engine.take_effects()).is_empty());
    let faults = counters.new_faults(&IoCounters::default()).unwrap();
    assert_eq!((faults.errors, faults.udp_drops, faults.tun_drops), (0, 3, 0));
    assert!(counters.new_faults(&counters).is_none());
}

#[test]
fn packets_go_down_over_the_first_live_route() {
    let mut engine = fixture_engine();
    set_up(&mut engine, &mut Client::new(1), peer(95, 1), 1, REQUEST);
    activate(&mut engine, 1, [10, 0, 0, 4], 8, 1);
    let slot = engine.slot_of(1).unwrap();
    let live = RouteEndpoint {
        slot,
        session_id: 1,
        registration_id: 8,
    };
    let stale = RouteEndpoint {
        slot,
        session_id: 1,
        registration_id: 7,
    };
    let plan = engine.plan_down(&vec![stale, live], b"data").unwrap();
    assert_eq!(plan.slot, slot);
    assert!(!plan.framed);
    assert!(!plan.record_dpi);
    assert!(engine.plan_down(&vec![stale], b"data").is_none());
    assert!(engine.plan_down(&Vec::new(), b"data").is_none());
}

#[test]
fn the_downlink_is_drained_by_urgency_and_in_bounds() {
    let mut drain = DownlinkDrain::new();
    assert_eq!(drain.step(false), DrainStep::Stop);
    assert_eq!(drain.step(true), DrainStep::Dequeue(PacketClass::Small));
    assert_eq!(drain.settle(DownlinkSend::Backpressured), DrainSettlement::Requeue);
    assert_eq!(drain.remaining, DOWNLINK_DRAIN_PACKET_LIMIT);
    drain.class_is_empty();
    assert_eq!(drain.step(true), DrainStep::Dequeue(PacketClass::Medium));
    assert_eq!(drain.settle(DownlinkSend::Stale), DrainSettlement::Recycle);
    drain.class_is_empty();
    assert_eq!(drain.step(true), DrainStep::Dequeue(PacketClass::Bulk));
    for _ in 0..DOWNLINK_DRAIN_PACKET_LIMIT - 1 {
        assert_eq!(drain.settle(DownlinkSend::Sent), DrainSettlement::Recycle);
    }
    assert_eq!(drain.step(true), DrainStep::Stop);
    let mut empty = DownlinkDrain::new();
    empty.class_is_empty();
    empty.class_is_empty();
    empty.class_is_empty();
    assert_eq!(empty.step(true), DrainStep::Stop);
    assert!(wants_duplicate(FecProfile::Safe, true));
    assert!(!wants_duplicate(FecProfile::Safe, false));
}

#[test]
fn commands_go_to_every_shard() {
    let commands = fanout_command(
        ProtocolCommand::SendPlain {
            session_id: 3,
            payload: b"x".to_vec(),
        },
        4,
    );
    assert_eq!(commands.len(), 4);
    for command in commands {
        assert!(matches!(
            command,
            ProtocolCommand::SendPlain { session_id: 3, payload } if payload == b"x"
        ));
    }
    assert_eq!(
        fanout_command(ProtocolCommand::CompactMemory { request: 1 }, 0).len(),
        1
    );
    let mut engine = fixture_engine();
    set_up(&mut engine, &mut Client::new(1), peer(96, 1), 1, REQUEST);
    let slot = engine.create_legacy_session(
        peer(97, 1),
        None,
        "wire-password",
        key(1),
        111,
        false,
        "d",
        1,
        "s",
        4,
        start(2),
    );
    assert_eq!(engine.session(slot).unwrap().id, 2);
}

#[test]
fn debug_counters_follow_their_generation() {
    let mut engine = fixture_engine();
    set_up(&mut engine, &mut Client::new(1), peer(98, 1), 1, REQUEST);
    let slot = engine.slot_of(1).unwrap();
    engine.on_tick(Tick {
        debug_enabled: true,
        ..tick(1)
    });
    engine.note_tun_written(slot, 50);
    assert_eq!(engine.session(slot).unwrap().debug.up_bytes, 50);
    engine.sync_debug(1, 1);
    assert_eq!(engine.session(slot).unwrap().debug.up_bytes, 50);
    engine.sync_debug(1, 2);
    assert_eq!(engine.session(slot).unwrap().debug.up_bytes, 0);
    assert_eq!(engine.session(slot).unwrap().debug.generation, 2);
    assert_eq!(engine.session(slot).unwrap().up_total, 50);
}

#[test]
fn shown_packets_are_noted() {
    let mut engine = fixture_engine();
    let mut client = Client::new(1);
    set_up(&mut engine, &mut client, peer(99, 1), 1, REQUEST);
    engine.on_tick(Tick {
        dpi_enabled: true,
        ..tick(1_000)
    });
    engine.take_effects();
    let payload = request("wire-device", 7, "wire-salt", 1);
    assert!(receive(&mut engine, peer(99, 1), client.wrap(&payload)));
    let effects = engine.take_effects();
    assert!(effects.iter().any(
        |effect| matches!(effect, Effect::RecordDpi(note) if note.inbound && note.plain == payload)
    ));
    let slot = engine.slot_of(1).unwrap();
    engine.show_sent(slot, b"TUNCONF:x", 90);
    assert!(engine.take_effects().iter().any(
        |effect| matches!(effect, Effect::RecordDpi(note) if !note.inbound && note.wire_len == 90)
    ));
}

#[test]
fn injected_packets_are_written_for_known_sessions() {
    let mut engine = fixture_engine();
    set_up(&mut engine, &mut Client::new(1), peer(100, 1), 1, REQUEST);
    engine.take_effects();
    engine.on_command(ProtocolCommand::InjectTun {
        session_id: 1,
        payload: b"p".to_vec(),
    });
    assert!(matches!(
        &engine.take_effects()[..],
        [Effect::WriteTun { payload, .. }] if payload == b"p"
    ));
    engine.on_command(ProtocolCommand::InjectTun {
        session_id: 2,
        payload: b"p".to_vec(),
    });
    assert!(engine.take_effects().is_empty());
}

#[test]
fn an_engine_tells_what_it_knows() {
    let mut epochs = Table::new();
    epochs.insert("old".to_owned(), 1);
    let mut engine = ProtocolEngine::new(
        0,
        1,
        credentials(&[("wire-password", 1)]),
        epochs,
        FecProfile::Off,
        2_048,
        1_000,
    );
    set_up(&mut engine, &mut Client::new(1), peer(110, 1), 1, &request("phone", 1, "s", 1));
    engine.on_command(ProtocolCommand::SetAuthoritativeEpoch {
        device_id: "phone".to_owned(),
        generation_id: 1,
        session_salt: "s".to_owned(),
    });
    assert!(engine
        .take_effects()
        .iter()
        .any(|effect| matches!(effect, Effect::PublishEpochs)));
    let known = engine.known_epochs();
    assert_eq!(known.len(), 2);
    assert!(known.contains_key(&"old".to_owned()) && known.contains_key(&"phone".to_owned()));
    let gauges = engine.gauges();
    assert_eq!((gauges.active_sessions, gauges.engine_epochs), (1, 2));
    engine.on_tick(tick(3_600_002));
    engine.take_effects();
    assert!(!engine.known_epochs().contains_key(&"old".to_owned()));
}

#[test]
fn batches_are_dated() {
    let mut engine = fixture_engine();
    set_up(&mut engine, &mut Client::new(1), peer(111, 1), 1, REQUEST);
    let slot = engine.slot_of(1).unwrap();
    let mut early = PacketBuf::new(2_048);
    engine.begin_batch(0);
    engine.wrap_for_session(slot, b"x", &mut early).unwrap();
    let mut late = PacketBuf::new(2_048);
    engine.begin_batch(1_000_000_000);
    engine.wrap_for_session(slot, b"x", &mut late).unwrap();
    let timestamp = |packet: &PacketBuf| {
        let bytes = packet.as_slice();
        u32::from_be_bytes([bytes[4], bytes[5], bytes[6], bytes[7]])
    };
    assert_eq!(timestamp(&late).wrapping_sub(timestamp(&early)), 48_000);
}
