use csqtt::diagnostics::{
    dpi_packets_requested, requested_observation, Observation, RequestReader, RequestStep,
    DIAGNOSTIC_REQUEST_MAX_BYTES,
};
use csqtt::dpi::{
    display_control_payload, dpi_ring_len, dpi_ring_memory_snapshot, hex_and_ascii_dump,
    record_packet_dpi, redacted, ring_memory, DpiRing, DpiSampler, DPI_RING_FRAMES,
};
use csqtt::perf::{
    epoch_snapshot_len, CryptoDirection, CryptoKind, CryptoPerfCounters, CryptoProfiler, Gauges,
    ObserverGate, StreamDebugMetrics,
};
use csqtt::text::{decimal_text, parse_unsigned, split_fields};
use csqtt::tun::{
    is_closed_tun_error, is_retryable_tun_error, note_write, pause_after, read_step, BurstStep,
    FaultCodes, IoFault, Pause, ReadOutcome, ReadStep, TunWriteState, WriteBurst, WriteOutcome,
    TUN_WRITE_BURST,
};

fn read_request(pieces: &[&[u8]]) -> Result<Option<String>, RequestStep> {
    let mut reader = RequestReader::new();
    for piece in pieces {
        let mut rest: &[u8] = piece;
        loop {
            let take = rest.len().min(reader.room());
            match reader.feed(&rest[..take]) {
                RequestStep::More => {
                    rest = &rest[take..];
                    if rest.is_empty() {
                        break;
                    }
                }
                RequestStep::Complete => return Ok(reader.finish()),
                other => return Err(other),
            }
        }
    }
    Err(RequestStep::More)
}

#[test]
fn diagnostic_request_reader_accepts_128_bytes_and_rejects_more() {
    let expected = "x".repeat(DIAGNOSTIC_REQUEST_MAX_BYTES);
    assert_eq!(
        read_request(&[format!("{expected}\n").as_bytes()]),
        Ok(Some(expected))
    );
    assert_eq!(
        read_request(&["x".repeat(DIAGNOSTIC_REQUEST_MAX_BYTES + 1).as_bytes()]),
        Err(RequestStep::TooLong)
    );
}

#[test]
fn requests_are_read_in_pieces() {
    assert_eq!(
        read_request(&[b" GET_", b"DPI:5 \nrest"]),
        Ok(Some("GET_DPI:5".to_owned()))
    );
    assert_eq!(read_request(&[b"PERF", b""]), Ok(Some("PERF".to_owned())));
    assert_eq!(read_request(&[b""]), Err(RequestStep::Nothing));
    assert_eq!(read_request(&[b"\xff\n"]), Ok(None));
    assert_eq!(dpi_packets_requested("GET_DPI:5"), 5);
    assert_eq!(dpi_packets_requested("GET_DPI:x"), 0);
    assert_eq!(dpi_packets_requested("OTHER"), 0);
    assert_eq!(requested_observation("metric all"), Observation::Memory);
    assert_eq!(requested_observation("Perf Crypto"), Observation::Performance);
    assert_eq!(requested_observation("perf all"), Observation::Performance);
    assert_eq!(requested_observation(""), Observation::Syscalls);
}

#[test]
fn dumps_show_bytes_and_characters() {
    let dump = hex_and_ascii_dump(b"AB\x00z");
    assert!(dump.contains("41 42 00 7a"));
    assert!(dump.contains("AB.z"));
    assert_eq!(hex_and_ascii_dump(b""), "");
    assert!(hex_and_ascii_dump(&[0x41; 200]).len() < 400);
}

#[test]
fn passwords_are_left_out_of_what_is_shown() {
    assert_eq!(
        redacted("GETCONF:1|device|secret|7|salt|rest|more"),
        "GETCONF:1|device|[REDACTED]|7|salt|rest|more"
    );
    assert_eq!(redacted("GETCONF:1|device|secret"), "GETCONF:[REDACTED]");
    assert_eq!(redacted("READY"), "READY");
    assert_eq!(display_control_payload(b"DENIED:\xff"), "DENIED:\u{fffd}");
}

#[test]
fn the_ring_keeps_the_latest_frames() {
    let mut ring = DpiRing::new();
    for seq in 0..150u64 {
        record_packet_dpi(
            &mut ring, seq, "in", "a", "b", 111, seq, b"READY", 60, "device", 1, "salt",
        );
    }
    assert_eq!(dpi_ring_len(&ring), DPI_RING_FRAMES);
    let latest = ring.latest(2);
    assert_eq!(latest.len(), 2);
    assert_eq!(latest[0].seq, 148);
    assert_eq!(latest[1].seq, 149);
    assert_eq!(latest[1].direction, "in");
    assert_eq!(latest[1].len, 5);
    assert_eq!(ring.latest(1_000).len(), DPI_RING_FRAMES);
    let memory = dpi_ring_memory_snapshot(&ring);
    assert_eq!(memory.entries, DPI_RING_FRAMES);
    assert!(memory.entry_capacity >= DPI_RING_FRAMES);
    let texts: usize = ring
        .latest(DPI_RING_FRAMES)
        .iter()
        .map(|frame| {
            frame.direction.len()
                + frame.src.len()
                + frame.dst.len()
                + frame.proto.len()
                + frame.device_id.len()
                + frame.salt.len()
                + frame.detail.len()
                + frame.hex_preview.len()
        })
        .sum();
    assert!(texts > 0);
    assert!(memory.retained_bytes >= texts);
    ring.clear();
    assert_eq!(dpi_ring_len(&ring), 0);
    let sizes = ring_memory(3, 4, 10, &vec![1, 2, 3]);
    assert_eq!(sizes.retained_bytes, 46);
    assert_eq!(
        ring_memory(0, usize::MAX, 2, &vec![usize::MAX, 5]).retained_bytes,
        usize::MAX
    );
}

#[test]
fn control_packets_are_shown_and_data_is_sampled() {
    let mut sampler = DpiSampler {
        payload_counter: 0,
        last_sample_ms: 0,
    };
    assert!(!sampler.should_record_dpi(false, 1_000, b"GETCONF:x"));
    assert!(sampler.should_record_dpi(true, 1_000, b"GETCONF:x"));
    assert!(!sampler.should_record_dpi(true, 1_199, b"GETCONF:x"));
    assert!(sampler.should_record_dpi(true, 1_200, b"GETCONF:x"));
    for _ in 0..511 {
        assert!(!sampler.should_record_dpi(true, 9_000, b"\x45data"));
    }
    assert!(sampler.should_record_dpi(true, 9_000, b"\x45data"));
}

#[test]
fn crypto_work_is_counted_and_sampled() {
    let mut profiler = CryptoProfiler::new(true, 2);
    assert!(profiler.begin(CryptoKind::Chacha, CryptoDirection::Wrap, 100));
    profiler.finish(CryptoKind::Chacha, CryptoDirection::Wrap, Some(10), 35);
    assert!(!profiler.begin(CryptoKind::Chacha, CryptoDirection::Unwrap, 50));
    profiler.finish(CryptoKind::Chacha, CryptoDirection::Unwrap, None, 99);
    assert!(profiler.begin(CryptoKind::Srtp, CryptoDirection::Unwrap, 1));
    let counters = profiler.counters;
    assert_eq!(
        counters.chacha,
        CryptoPerfCounters {
            operations: 2,
            bytes: 150,
            samples: 1,
            sampled_ns: 25
        }
    );
    assert_eq!(counters.wrap_crypto.operations, 1);
    assert_eq!(counters.unwrap_crypto.operations, 2);
    let delta = counters.delta(counters);
    assert_eq!(delta.chacha.operations, 0);
    let smaller = CryptoPerfCounters {
        operations: 1,
        bytes: 1,
        samples: 1,
        sampled_ns: 1,
    };
    assert_eq!(smaller.delta(counters.chacha).operations, 0);
    assert_eq!(counters.chacha.delta(smaller).bytes, 149);
    let mut off = CryptoProfiler::new(false, 2);
    assert!(!off.begin(CryptoKind::Chacha, CryptoDirection::Wrap, 100));
    assert_eq!(off.counters.chacha.operations, 0);
}

#[test]
fn gauges_and_gates_count() {
    let mut gauges = Gauges {
        active_sessions: 0,
        engine_epochs: 6,
        stream_repairs: 0,
        stream_inventory: 0,
    };
    gauges.session_removed();
    assert_eq!(gauges.active_sessions, 0);
    gauges.session_added();
    assert_eq!(gauges.active_sessions, 1);
    assert_eq!(epoch_snapshot_len(&gauges), 6);
    let mut gate = ObserverGate { taken: false };
    assert!(gate.try_enter());
    assert!(!gate.try_enter());
    gate.leave();
    assert!(gate.try_enter());
}

#[test]
fn watched_streams_start_counting_when_somebody_looks() {
    let mut metrics = StreamDebugMetrics::new(false, 50);
    assert_eq!(metrics.started_at, 0);
    metrics.publish(false, 1, 2, 3, 4);
    assert_eq!(metrics.up_bytes, 0);
    let seen = metrics.snapshot(true, 60);
    assert_eq!((seen.active, seen.started_at), (true, 60));
    metrics.publish(true, 1, 2, 3, 4);
    let seen = metrics.snapshot(false, 70);
    assert_eq!(
        (seen.started_at, seen.up_bytes, seen.down_packets),
        (60, 1, 4)
    );
    metrics.reset(80);
    assert_eq!(
        (metrics.generation, metrics.started_at, metrics.up_bytes),
        (2, 80, 0)
    );
    assert_eq!(StreamDebugMetrics::new(true, 50).started_at, 50);
}

fn codes() -> FaultCodes {
    FaultCodes {
        eio: 5,
        ebadf: 9,
        enodev: 19,
        enobufs: 105,
        enomem: 12,
    }
}

fn fault(code: i32) -> IoFault {
    IoFault {
        interrupted: false,
        would_block: false,
        code: Some(code),
    }
}

#[test]
fn faults_of_the_device_are_told_apart() {
    let codes = codes();
    for code in [5, 9, 19] {
        assert!(is_closed_tun_error(&fault(code), &codes));
        assert!(!is_retryable_tun_error(&fault(code), &codes));
    }
    for code in [105, 12] {
        assert!(!is_closed_tun_error(&fault(code), &codes));
        assert!(is_retryable_tun_error(&fault(code), &codes));
    }
    assert!(is_retryable_tun_error(
        &IoFault {
            interrupted: true,
            would_block: false,
            code: None
        },
        &codes
    ));
    assert_eq!(read_step(ReadOutcome::Read(9), &codes), ReadStep::Packet(9));
    assert_eq!(read_step(ReadOutcome::Read(0), &codes), ReadStep::Ended);
    assert_eq!(read_step(ReadOutcome::NotReady, &codes), ReadStep::Wait);
    assert_eq!(
        read_step(ReadOutcome::Fault(fault(5)), &codes),
        ReadStep::Closed
    );
    assert_eq!(
        read_step(ReadOutcome::Fault(fault(1)), &codes),
        ReadStep::Failed
    );
    assert_eq!(
        read_step(ReadOutcome::Fault(fault(12)), &codes),
        ReadStep::Wait
    );
}

#[test]
fn packets_are_written_whole() {
    let codes = codes();
    let mut written = 0;
    assert_eq!(
        note_write(WriteOutcome::Wrote(4), &mut written, 10, &codes),
        TunWriteState::Continue
    );
    assert_eq!(
        note_write(WriteOutcome::NotReady, &mut written, 10, &codes),
        TunWriteState::Wait
    );
    assert_eq!(written, 4);
    assert_eq!(
        note_write(WriteOutcome::Wrote(6), &mut written, 10, &codes),
        TunWriteState::Complete
    );
    assert_eq!(
        note_write(WriteOutcome::Wrote(0), &mut 0, 10, &codes),
        TunWriteState::Failed
    );
    for (code, state, pause) in [
        (12, TunWriteState::Backoff, Pause::Moment),
        (9, TunWriteState::Closed, Pause::ForGood),
        (1, TunWriteState::Failed, Pause::ForGood),
    ] {
        assert_eq!(
            note_write(WriteOutcome::Fault(fault(code)), &mut written, 10, &codes),
            state
        );
        assert_eq!(pause_after(state), pause);
    }
    let blocked = IoFault {
        interrupted: false,
        would_block: true,
        code: None,
    };
    assert_eq!(
        note_write(WriteOutcome::Fault(blocked), &mut written, 10, &codes),
        TunWriteState::Yield
    );
    assert_eq!(pause_after(TunWriteState::Yield), Pause::Turn);
    assert_eq!(pause_after(TunWriteState::Wait), Pause::UntilReady);
    let mut burst = WriteBurst { done: 0 };
    assert_eq!(burst.step(TunWriteState::Continue), BurstStep::SamePacket);
    for _ in 0..TUN_WRITE_BURST - 1 {
        assert_eq!(burst.step(TunWriteState::Complete), BurstStep::NextPacket);
    }
    assert_eq!(burst.step(TunWriteState::Complete), BurstStep::End);
}

#[test]
fn texts_are_split_and_numbers_read() {
    assert_eq!(split_fields("a|b|c|d", 3), ["a", "b", "c|d"]);
    assert_eq!(split_fields("", 3), [""]);
    assert_eq!(decimal_text(0), "0");
    assert_eq!(decimal_text(u64::MAX), "18446744073709551615");
    assert_eq!(parse_unsigned("255", 255), Some(255));
    assert_eq!(parse_unsigned("256", 255), None);
    assert_eq!(parse_unsigned("+7", 255), Some(7));
    assert_eq!(parse_unsigned("-7", 255), None);
    assert_eq!(parse_unsigned("", 255), None);
}

#[test]
fn dumps_are_cut_and_their_lines_are_regular() {
    let data: Vec<u8> = (0..=255).collect();
    let start = hex_and_ascii_dump(&data[..64]);
    assert_eq!(
        hex_and_ascii_dump(&data),
        format!("{start}... (+192 more bytes)\n")
    );
    for len in [1usize, 15, 16, 17, 40, 64] {
        let dump = hex_and_ascii_dump(&data[..len]);
        assert!(dump.is_ascii() && dump.ends_with('\n'));
        let lines: Vec<&str> = dump.lines().collect();
        assert_eq!(lines.len(), len.div_ceil(16));
        for (row, line) in lines.iter().enumerate() {
            assert_eq!(line.len(), 51 + (len - row * 16).min(16));
        }
    }
}

#[test]
fn frames_do_not_depend_on_the_password() {
    let mut ring = DpiRing::new();
    let mut shown = Vec::new();
    for password in ["secret", "hidden"] {
        let plain = format!("GETCONF:9000|dev|{password}|1|salt|1");
        shown.push(record_packet_dpi(
            &mut ring, 5, "in", "a", "b", 111, 7, plain.as_bytes(), 60, "device", 1, "salt",
        ));
    }
    for frame in &shown {
        assert_eq!(frame.detail, "GETCONF:9000|dev|[REDACTED]|1|salt|1");
        assert_eq!(frame.hex_preview, hex_and_ascii_dump(frame.detail.as_bytes()));
        assert_eq!(frame.len, 32);
    }
    assert_eq!(format!("{:?}", shown[0]), format!("{:?}", shown[1]));
    assert_eq!(format!("{:?}", shown), format!("{:?}", ring.latest(2)));
}
