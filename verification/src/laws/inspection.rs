//! What observers are shown, and what is kept from them.
use crate::diagnostics;
use crate::dpi;
use crate::dpi::{DpiSampler, FrameView};
use crate::effect::{CommandView, CredentialView, EffectView};
use crate::endpoint::{EndpointKey, IpAddress};
use crate::engine;
use crate::engine::{Delivery, EngineState, EngineView, SessionStart};
use crate::laws::delivery;
use crate::laws::delivery::{
    begins, carried, disconnect_mark, getconf_mark, note_of, ready_word,
};
use crate::laws::downlink::{denied_mark, restart_notice, tunconf_mark};
use crate::laws::requests;
use crate::perf::{
    CryptoDirection, CryptoKind, CryptoPerfCounters, CryptoPerfSnapshot, CryptoProfiler,
    StreamDebugMetrics,
};
use crate::rtp::OutState;
use crate::session::HotDebug;
use crate::text;
use crate::wire;
use crate::wire::Unwrapped;
use vstd::prelude::*;
use vstd::string::*;
use vstd::utf8::*;

verus! {

/// The packet has to do with setting up or ending a session: it is a message of that kind, or
/// looks like the handshake of a record protocol.
pub open spec fn is_of_interest(plain: Seq<u8>) -> bool {
    ||| begins(plain, getconf_mark())
    ||| begins(plain, tunconf_mark())
    ||| begins(plain, denied_mark())
    ||| begins(plain, disconnect_mark())
    ||| plain == restart_notice()
    ||| plain.len() >= 5 && (plain[0] == 20 || plain[0] == 21 || plain[0] == 22)
}

/// Packets that set up or end sessions are shown whenever a fifth of a second has gone by
/// since the last one, of the others one in 512, and none where nobody watches.
pub proof fn packets_are_sampled(
    sampler: DpiSampler,
    enabled: bool,
    now_ms: u64,
    plain: Seq<u8>,
)
    requires
        sampler.payload_counter < u64::MAX,
    ensures
        ({
            let shown = sampler.shows(enabled, now_ms, plain);
            let after = sampler.after(enabled, now_ms, plain);
            let rested = now_ms >= sampler.last_sample_ms + 200;
            &&& is_of_interest(plain) ==> {
                &&& shown <==> enabled && rested
                &&& after.payload_counter == sampler.payload_counter
            }
            &&& !is_of_interest(plain) ==> {
                &&& shown <==> enabled && rested && (sampler.payload_counter + 1) % 512 == 0
                &&& enabled ==> after.payload_counter == sampler.payload_counter + 1
            }
            &&& shown ==> after.last_sample_ms == now_ms
            &&& !shown ==> after.last_sample_ms == sampler.last_sample_ms
            &&& !enabled ==> after == sampler
        }),
{
    crate::laws::downlink::lemma_marks(plain);
}

/// After one packet was shown, no other is for a fifth of a second, whatever it is.
pub proof fn shown_packets_are_apart(
    sampler: DpiSampler,
    first_ms: u64,
    first: Seq<u8>,
    second_ms: u64,
    second: Seq<u8>,
)
    requires
        sampler.shows(true, first_ms, first),
        sampler.after(true, first_ms, first).shows(true, second_ms, second),
    ensures
        second_ms >= first_ms + 200,
{
}

/// A packet that goes through the engine now is to be shown to observers.
pub open spec fn is_shown_now(engine: EngineView, part: Seq<u8>) -> bool {
    &&& engine.state.dpi_enabled
    &&& engine.state.monotonic_ms >= engine.state.dpi.last_sample_ms + 200
    &&& is_of_interest(part) || (engine.state.dpi.payload_counter + 1) % 512 == 0
}

/// Observers see the packets that come for a session when they are to, before anything else is
/// done with them, and no others. An answer that the engine gives by itself is shown when the
/// question is.
pub proof fn observers_see_packets(
    engine: EngineView,
    slot: usize,
    plain: Seq<u8>,
    header: Option<usize>,
    seq: u16,
    payload_type: u8,
    wire_len: usize,
)
    requires
        engine.sessions.contains_key(slot),
        engine.state.dpi.payload_counter < u64::MAX,
        header matches Some(len) ==> len <= plain.len(),
    ensures
        ({
            let part = carried(plain, header);
            let note = note_of(engine.sessions[slot], part, seq, payload_type, wire_len);
            let after = engine.delivered(slot, plain, header, seq, payload_type, wire_len);
            let first = engine.effects.len() as int;
            let shown = is_shown_now(engine, part);
            &&& after.effects.len() >= first
            &&& after.effects.take(first) == engine.effects
            &&& shown ==> after.effects.len() > first && after.effects[first] == note
            &&& !shown && after.effects.len() > first ==> !(after.effects[first] is RecordDpi)
            &&& plain == ready_word() ==> (after.effects.last() matches EffectView::Send {
                record_dpi,
                ..
            } && record_dpi == shown)
            &&& after.state.dpi.last_sample_ms == if shown {
                engine.state.monotonic_ms
            } else {
                engine.state.dpi.last_sample_ms
            }
            &&& after.state.dpi.payload_counter == engine.state.dpi.payload_counter + if
                engine.state.dpi_enabled && !is_of_interest(part) {
                1int
            } else {
                0int
            }
        }),
{
    let part = carried(plain, header);
    delivery::lemma_marks(plain);
    delivery::lemma_shown(engine, slot, plain, header, seq, payload_type, wire_len);
    packets_are_sampled(
        engine.state.dpi,
        engine.state.dpi_enabled,
        engine.state.monotonic_ms,
        part,
    );
    let after = engine.delivered(slot, plain, header, seq, payload_type, wire_len);
    assert(after.effects.take(engine.effects.len() as int) =~= engine.effects);
}

/// Packets that go down are sampled as those that come up are, and that changes nothing else.
pub proof fn packets_that_go_down_are_sampled(engine: EngineView, payload: Seq<u8>)
    requires
        engine.state.dpi.payload_counter < u64::MAX,
    ensures
        engine.shows(payload) <==> is_shown_now(engine, payload),
        engine.sampled(payload) == (EngineView {
            state: EngineState {
                dpi: DpiSampler {
                    last_sample_ms: if is_shown_now(engine, payload) {
                        engine.state.monotonic_ms
                    } else {
                        engine.state.dpi.last_sample_ms
                    },
                    payload_counter: (engine.state.dpi.payload_counter + if
                        engine.state.dpi_enabled && !is_of_interest(payload) {
                        1int
                    } else {
                        0int
                    }) as u64,
                },
                ..engine.state
            },
            ..engine
        }),
{
    packets_are_sampled(
        engine.state.dpi,
        engine.state.dpi_enabled,
        engine.state.monotonic_ms,
        payload,
    );
}

/// What the engine is told to send is sampled as any other packet, once, also where it goes over
/// all sessions; the observers see it as it goes out.
pub proof fn sent_payloads_are_sampled(
    engine: EngineView,
    session_id: u64,
    payload: Seq<u8>,
    after: EngineView,
    to_all: EngineView,
    i: int,
)
    requires
        engine.state.dpi.payload_counter < u64::MAX,
        engine.by_id.contains_key(session_id),
        engine.obeyed(CommandView::SendPlain { session_id, payload }, after),
        engine.obeyed(CommandView::BroadcastPlain { payload }, to_all),
        engine.effects.len() <= i < to_all.effects.len(),
    ensures
        after.effects.last() == (EffectView::Send {
            slot: engine.by_id[session_id],
            payload,
            record_dpi: is_shown_now(engine, payload),
        }),
        to_all.effects[i] matches EffectView::Send { record_dpi, .. } && record_dpi
            == is_shown_now(engine, payload),
        after.state == to_all.state,
        after.state.dpi.last_sample_ms == if is_shown_now(engine, payload) {
            engine.state.monotonic_ms
        } else {
            engine.state.dpi.last_sample_ms
        },
        after.state.dpi.payload_counter == engine.state.dpi.payload_counter + if
            engine.state.dpi_enabled && !is_of_interest(payload) {
            1int
        } else {
            0int
        },
{
    packets_that_go_down_are_sampled(engine, payload);
}

/// Every packet that a session's key opens is counted as one operation, while that is counted,
/// and one that it does not open is not.
pub proof fn openings_are_counted(
    before: EngineView,
    slot: usize,
    local_ip: Option<IpAddress>,
    packet: Seq<u8>,
    start: SessionStart,
    after: EngineView,
    packet_after: Seq<u8>,
    found: Option<Delivery>,
)
    requires
        before.sessions.contains_key(slot),
        before.state.crypto_ops < u64::MAX,
        engine::received(before, slot, local_ip, packet, start, after, packet_after, found),
    ensures
        ({
            let session = before.sessions[slot];
            let opened = wire::decode(session.key, packet, Some(session.is_srtp)) is Ok;
            after.state.crypto_ops == if before.state.syscalls_enabled && opened {
                before.state.crypto_ops + 1
            } else {
                before.state.crypto_ops as int
            }
        }),
{
    let session = before.sessions[slot];
    let decoded = wire::decode(session.key, packet, Some(session.is_srtp));
    if let Ok(unwrapped) = decoded {
        let heard = before.unwrapped(unwrapped);
        assert(heard.state.crypto_ops == if before.state.syscalls_enabled {
            before.state.crypto_ops + 1
        } else {
            before.state.crypto_ops as int
        });
        if before.reception(slot, unwrapped) is Replaces {
            let (made, new_slot, output) = choose|
                made: wire::DecodedPacket,
                new_slot: usize,
                output: OutState,
            |
                {
                    &&& made.seq == unwrapped.seq
                    &&& made.payload_type == unwrapped.payload_type
                    &&& made.is_srtp == unwrapped.is_srtp
                    &&& #[trigger] engine::restarted_in(
                        heard,
                        after,
                        slot,
                        local_ip,
                        made,
                        unwrapped.plain,
                        start,
                        new_slot,
                        output,
                    )
                };
            assert(after.state.crypto_ops == heard.state.crypto_ops);
        }
    }
}

/// How many of the credentials open a packet, whatever is in it.
pub open spec fn openings(credentials: Seq<CredentialView>, packet: Seq<u8>) -> nat
    decreases credentials.len(),
{
    if credentials.len() == 0 {
        0
    } else {
        openings(credentials.drop_last(), packet) + if wire::decode(
            credentials.last().key,
            packet,
            None,
        ) is Ok {
            1nat
        } else {
            0
        }
    }
}

/// Of a packet that sets nothing up, every opening under a credential is counted, while that is
/// counted.
pub proof fn openings_by_strangers_are_counted(
    before: EngineView,
    endpoint: EndpointKey,
    packet: Seq<u8>,
    start: SessionStart,
    after: EngineView,
)
    requires
        before.sessions.dom().len() < 3072,
        packet.len() <= before.packet_capacity,
        before.state.setup_budget > 0,
        engine::setup_credential(before.credentials, packet, 0) is None,
        before.state.crypto_ops + openings(before.credentials, packet) <= u64::MAX,
        engine::met(before, endpoint, packet, start, after),
    ensures
        after.state.crypto_ops == before.state.crypto_ops + if before.state.syscalls_enabled {
            openings(before.credentials, packet) as int
        } else {
            0int
        },
{
    lemma_openings(before.credentials, packet, before.credentials.len());
    assert(before.credentials.take(before.credentials.len() as int) =~= before.credentials);
}

proof fn lemma_openings(credentials: Seq<CredentialView>, packet: Seq<u8>, upto: nat)
    requires
        upto <= credentials.len(),
    ensures
        engine::unwrapped_under(credentials, packet, upto as int) == openings(
            credentials.take(upto as int),
            packet,
        ),
    decreases upto,
{
    if upto > 0 {
        lemma_openings(credentials, packet, (upto - 1) as nat);
        assert(credentials.take(upto as int).drop_last() =~= credentials.take(upto - 1));
    }
}

/// What a session has carried is counted from nothing, and from the moment on when somebody
/// watches.
pub proof fn metrics_start_from_nothing(active: bool, now: u64, generation: u64)
    ensures
        HotDebug::zero(generation) == (HotDebug {
            generation,
            up_bytes: 0,
            down_bytes: 0,
            up_packets: 0,
            down_packets: 0,
        }),
        StreamDebugMetrics::fresh(active, now) == (StreamDebugMetrics {
            generation: 1,
            started_at: if active {
                now
            } else {
                0
            },
            up_bytes: 0,
            down_bytes: 0,
            up_packets: 0,
            down_packets: 0,
        }),
{
}

/// What a hexadecimal digit is worth.
pub open spec fn worth(c: char) -> int {
    if '0' <= c <= '9' {
        c as u32 - '0' as u32
    } else {
        c as u32 - 'a' as u32 + 10
    }
}

/// Every byte can be read off a dump: from the two hexadecimal digits at its place, and, where
/// it is a printable character, from that character behind the bar.
pub proof fn bytes_can_be_read_off(chunk: Seq<u8>, i: int)
    requires
        chunk.len() <= 16,
        0 <= i < chunk.len(),
    ensures
        ({
            let line = dpi::dump_line(chunk);
            let byte = chunk[i];
            &&& line.len() == 52 + chunk.len()
            &&& worth(line[3 * i]) * 16 + worth(line[3 * i + 1]) == byte
            &&& 0 <= worth(line[3 * i]) < 16
            &&& 0 <= worth(line[3 * i + 1]) < 16
            &&& line[3 * i + 2] == ' '
            &&& line[49] == '|'
            &&& line[51 + i] as u32 == if 32 <= byte <= 126 {
                byte as u32
            } else {
                '.' as u32
            }
            &&& line.last() == '\n'
        }),
{
    lemma_cell(chunk, i);
    let line = dpi::dump_line(chunk);
    let cells = dpi::hex_cells(chunk);
    assert(cells.len() == 3 * chunk.len());
    assert(line[3 * i] == cells[3 * i]);
    assert(line[3 * i + 1] == cells[3 * i + 1]);
    assert(line[3 * i + 2] == cells[3 * i + 2]);
}

proof fn lemma_cell(chunk: Seq<u8>, i: int)
    requires
        0 <= i < chunk.len(),
    ensures
        ({
            let cells = dpi::hex_cells(chunk);
            &&& cells.len() == 3 * chunk.len()
            &&& worth(cells[3 * i]) * 16 + worth(cells[3 * i + 1]) == chunk[i]
            &&& 0 <= worth(cells[3 * i]) < 16
            &&& 0 <= worth(cells[3 * i + 1]) < 16
            &&& cells[3 * i + 2] == ' '
        }),
    decreases chunk.len(),
{
    let rest = chunk.drop_last();
    let cells = dpi::hex_cells(chunk);
    let before = dpi::hex_cells(rest);
    if i < rest.len() {
        lemma_cell(rest, i);
        assert(cells[3 * i] == before[3 * i]);
        assert(cells[3 * i + 1] == before[3 * i + 1]);
        assert(cells[3 * i + 2] == before[3 * i + 2]);
    } else {
        if rest.len() > 0 {
            lemma_cell(rest, 0);
        }
        let byte = chunk[i];
        assert(before.len() == 3 * i);
        assert(cells[3 * i] == dpi::hex_digit(byte / 16));
        assert(cells[3 * i + 1] == dpi::hex_digit(byte % 16));
    }
}

/// A frame says when and between whom the packet went, how long it was and on whose behalf. It
/// names the kind of payload, and shows messages as text and other packets by their length.
pub proof fn frames_tell_of_packets(
    timestamp_ms: u64,
    direction: Seq<char>,
    src: Seq<char>,
    dst: Seq<char>,
    pt: u8,
    seq: u64,
    plain: Seq<u8>,
    wire_len: usize,
    device_id: Seq<char>,
    gen_id: u64,
    salt: Seq<char>,
)
    ensures
        ({
            let frame = dpi::packet_frame(
                timestamp_ms,
                direction,
                src,
                dst,
                pt,
                seq,
                plain,
                wire_len,
                device_id,
                gen_id,
                salt,
            );
            let message = begins(plain, getconf_mark()) || begins(plain, tunconf_mark()) || begins(
                plain,
                denied_mark(),
            ) || begins(plain, disconnect_mark());
            let blank = forall|i: int| 0 <= i < plain.len() ==> #[trigger] plain[i] == 0xff;
            &&& frame == (FrameView {
                timestamp_ms,
                direction,
                src,
                dst,
                pt,
                seq,
                wire_len,
                device_id,
                gen_id,
                salt,
                len: plain.len() as usize,
                ..frame
            })
            &&& pt == 111 ==> frame.proto == "RTP-OBFS Audio (PT=111)"@
            &&& pt == 96 ==> frame.proto == "RTP-OBFS Video (PT=96)"@
            &&& pt != 111 && pt != 96 ==> frame.proto == "RTP-OBFS (Custom)"@
            &&& !message && blank ==> frame.detail == "KeepAlive Ping ("@ + text::decimal(
                plain.len(),
            ) + " bytes)"@
            &&& !message && !blank ==> frame.detail == "Payload ("@ + text::decimal(plain.len())
                + " bytes)"@
            &&& message && valid_utf8(plain) && !text::begins_with(
                decode_utf8(plain),
                "GETCONF:"@,
            ) ==> frame.detail == decode_utf8(plain)
            &&& !is_of_interest(plain) ==> frame.hex_preview.len() == 0
            &&& is_of_interest(plain) ==> frame.hex_preview == dpi::dump(encode_utf8(frame.detail))
        }),
{
    crate::laws::downlink::lemma_marks(plain);
}

/// The ring keeps the last hundred frames: the newest is the last, and only where there were a
/// hundred is the oldest given up.
pub proof fn frames_are_kept(ring: Seq<FrameView>, frame: FrameView, i: int)
    requires
        0 <= i < ring.len(),
    ensures
        ({
            let after = dpi::recorded(ring, frame);
            &&& after.len() > 0
            &&& after.last() == frame
            &&& ring.len() < 100 ==> after.len() == ring.len() + 1 && after[i] == ring[i]
            &&& ring.len() >= 100 ==> after.len() == ring.len()
            &&& ring.len() >= 100 && i > 0 ==> after[i - 1] == ring[i]
        }),
{
}

/// A request ends before the first line feed, and where there is none it is not at its end.
pub proof fn requests_are_lines(bytes: Seq<u8>, i: int)
    ensures
        ({
            let len = diagnostics::line_len(bytes);
            &&& 0 <= len <= bytes.len()
            &&& 0 <= i < len ==> bytes[i] != 0x0a
            &&& len < bytes.len() ==> bytes[len] == 0x0a
            &&& diagnostics::has_line_feed(bytes) <==> len < bytes.len()
        }),
    decreases bytes.len(),
{
    if bytes.len() > 0 && bytes[0] != 0x0a {
        let rest = bytes.skip(1);
        requests_are_lines(rest, i - 1);
        if diagnostics::has_line_feed(bytes) {
            let at = choose|at: int| 0 <= at < bytes.len() && bytes[at] == 0x0a;
            assert(rest[at - 1] == 0x0a);
        }
        let len = diagnostics::line_len(bytes);
        if len < bytes.len() {
            assert(rest[len - 1] == bytes[len]);
        }
    } else if bytes.len() > 0 {
        assert(bytes[0] == 0x0a);
    }
}

/// A request that comes in two pieces is the same as one that comes in one.
pub proof fn pieces_make_up_a_request(first: Seq<u8>, second: Seq<u8>)
    requires
        !first.contains(0x0a),
    ensures
        diagnostics::line_len(first + second) == first.len() + diagnostics::line_len(second),
        first.take(diagnostics::line_len(first)) + second.take(diagnostics::line_len(second)) == (
        first + second).take(diagnostics::line_len(first + second)),
    decreases first.len(),
{
    requests_are_lines(first, 0);
    requests_are_lines(second, 0);
    if first.len() > 0 {
        let rest = first.skip(1);
        assert(!rest.contains(0x0a)) by {
            if rest.contains(0x0a) {
                let at = choose|at: int| 0 <= at < rest.len() && rest[at] == 0x0a;
                assert(first[at + 1] == 0x0a);
            }
        }
        pieces_make_up_a_request(rest, second);
        assert((first + second).skip(1) =~= rest + second);
        assert(first.contains(first[0]));
    } else {
        assert(first + second =~= second);
    }
    assert(first.take(diagnostics::line_len(first)) + second.take(diagnostics::line_len(second))
        =~= (first + second).take(diagnostics::line_len(first + second)));
}

/// Whoever asks for a number of packets gets as many; any other request asks for none.
pub proof fn packets_are_asked_for_by_number(count: nat, request: Seq<char>)
    ensures
        count <= usize::MAX ==> diagnostics::packets_requested("GET_DPI:"@ + text::decimal(count))
            == count,
        !text::begins_with(request, "GET_DPI:"@) ==> diagnostics::packets_requested(request) == 0,
        diagnostics::packets_requested("GET_DPI:"@) == 0,
{
    let mark = "GET_DPI:"@;
    let asked = mark + text::decimal(count);
    if count <= usize::MAX {
        requests::numbers_are_read_back(count, usize::MAX as nat);
    }
    assert(asked.subrange(0, mark.len() as int) =~= mark);
    assert(asked.subrange(mark.len() as int, asked.len() as int) =~= text::decimal(count));
    assert(mark.subrange(mark.len() as int, mark.len() as int) =~= Seq::<char>::empty());
}

/// The characters are the same, or the same letter of the Latin alphabet in another case.
pub open spec fn same_letter(left: char, right: char) -> bool {
    ||| left == right
    ||| 'A' <= left <= 'Z' && right as u32 == left as u32 + 32
    ||| 'A' <= right <= 'Z' && left as u32 == right as u32 + 32
}

/// Case does not matter in texts that are compared without regard to it, and nothing else is
/// passed over.
pub proof fn case_does_not_matter(left: Seq<char>, right: Seq<char>)
    ensures
        diagnostics::same_but_for_case(left, right) <==> left.len() == right.len() && forall|i: int|
            0 <= i < left.len() ==> same_letter(#[trigger] left[i], right[i]),
{
    let small_left = left.map_values(|c: char| diagnostics::ascii_lower(c));
    let small_right = right.map_values(|c: char| diagnostics::ascii_lower(c));
    if diagnostics::same_but_for_case(left, right) {
        assert(small_left.len() == left.len());
        assert(small_right.len() == right.len());
        assert forall|i: int| 0 <= i < left.len() implies same_letter(
            #[trigger] left[i],
            right[i],
        ) by {
            assert(small_left[i] == small_right[i]);
            lemma_letters(left[i], right[i]);
        }
    }
    if left.len() == right.len() && forall|i: int|
        0 <= i < left.len() ==> same_letter(#[trigger] left[i], right[i]) {
        assert forall|i: int| 0 <= i < left.len() implies small_left[i] == small_right[i] by {
            assert(same_letter(left[i], right[i]));
            lemma_letters(left[i], right[i]);
        }
        assert(small_left =~= small_right);
    }
}

proof fn lemma_letters(left: char, right: char)
    ensures
        diagnostics::ascii_lower(left) == diagnostics::ascii_lower(right) <==> same_letter(
            left,
            right,
        ),
{
}

/// What was counted for both ciphers, and what was counted for both directions.
pub open spec fn operations(profiler: CryptoProfiler) -> (int, int) {
    (
        profiler.counters.chacha.operations + profiler.counters.srtp.operations,
        profiler.counters.wrap_crypto.operations + profiler.counters.unwrap_crypto.operations,
    )
}

/// The counters of one cipher, and of one direction.
pub open spec fn counters_of(
    profiler: CryptoProfiler,
    kind: CryptoKind,
    direction: CryptoDirection,
) -> (CryptoPerfCounters, CryptoPerfCounters) {
    (
        if kind == CryptoKind::Chacha {
            profiler.counters.chacha
        } else {
            profiler.counters.srtp
        },
        if direction == CryptoDirection::Wrap {
            profiler.counters.wrap_crypto
        } else {
            profiler.counters.unwrap_crypto
        },
    )
}

/// No counter is near the end of what it can hold.
pub open spec fn has_room(counters: CryptoPerfCounters, more: u64) -> bool {
    &&& counters.operations < u64::MAX
    &&& counters.bytes + more <= u64::MAX
    &&& counters.samples < u64::MAX
    &&& counters.sampled_ns + more <= u64::MAX
}

/// An operation is counted once for its cipher and once for its direction, with its bytes, and
/// for no other. It is timed when as many operations of the cipher as the interval says have
/// gone by since the last that was.
pub proof fn operations_are_counted(
    profiler: CryptoProfiler,
    kind: CryptoKind,
    direction: CryptoDirection,
    bytes: u64,
    other: CryptoKind,
    way: CryptoDirection,
)
    requires
        has_room(counters_of(profiler, kind, direction).0, bytes),
        has_room(counters_of(profiler, kind, direction).1, bytes),
        profiler.chacha_cursor < u64::MAX,
        profiler.srtp_cursor < u64::MAX,
        profiler.sample_interval > 0,
        other != kind,
        way != direction,
    ensures
        ({
            let after = profiler.begun(kind, direction, bytes);
            let (of_cipher, of_way) = counters_of(profiler, kind, direction);
            let (cipher_after, way_after) = counters_of(after, kind, direction);
            let started = if kind == CryptoKind::Chacha {
                profiler.chacha_cursor
            } else {
                profiler.srtp_cursor
            };
            let timed = started % profiler.sample_interval == 0;
            let more = if timed {
                1int
            } else {
                0int
            };
            &&& profiler.times_next(kind) <==> timed
            &&& cipher_after.operations == of_cipher.operations + 1
            &&& cipher_after.bytes == of_cipher.bytes + bytes
            &&& cipher_after.samples == of_cipher.samples + more
            &&& cipher_after.sampled_ns == of_cipher.sampled_ns
            &&& way_after.operations == of_way.operations + 1
            &&& way_after.bytes == of_way.bytes + bytes
            &&& way_after.samples == of_way.samples + more
            &&& way_after.sampled_ns == of_way.sampled_ns
            &&& counters_of(after, other, way) == counters_of(profiler, other, way)
            &&& operations(after) == (operations(profiler).0 + 1, operations(profiler).1 + 1)
            &&& after.cursor(kind) == started + 1
            &&& after.cursor(other) == profiler.cursor(other)
            &&& after.enabled == profiler.enabled
            &&& after.sample_interval == profiler.sample_interval
        }),
{
}

/// How long an operation took is added up for its cipher and for its direction, and for no
/// other; nothing else is counted by that.
pub proof fn times_are_added_up(
    profiler: CryptoProfiler,
    kind: CryptoKind,
    direction: CryptoDirection,
    elapsed_ns: u64,
    other: CryptoKind,
    way: CryptoDirection,
)
    requires
        has_room(counters_of(profiler, kind, direction).0, elapsed_ns),
        has_room(counters_of(profiler, kind, direction).1, elapsed_ns),
        other != kind,
        way != direction,
    ensures
        ({
            let after = profiler.finished(kind, direction, elapsed_ns);
            let (of_cipher, of_way) = counters_of(profiler, kind, direction);
            let (cipher_after, way_after) = counters_of(after, kind, direction);
            &&& cipher_after == (CryptoPerfCounters {
                sampled_ns: (of_cipher.sampled_ns + elapsed_ns) as u64,
                ..of_cipher
            })
            &&& way_after == (CryptoPerfCounters {
                sampled_ns: (of_way.sampled_ns + elapsed_ns) as u64,
                ..of_way
            })
            &&& counters_of(after, other, way) == counters_of(profiler, other, way)
            &&& after.chacha_cursor == profiler.chacha_cursor
            &&& after.srtp_cursor == profiler.srtp_cursor
            &&& after.enabled == profiler.enabled
            &&& after.sample_interval == profiler.sample_interval
        }),
{
}

/// What was counted between two moments, added to what was counted by the first, is what was
/// counted by the second; and that is so of each cipher and each direction.
pub proof fn differences_are_counted(
    first: CryptoPerfCounters,
    second: CryptoPerfCounters,
    earlier: CryptoPerfSnapshot,
    later: CryptoPerfSnapshot,
)
    requires
        first.operations <= second.operations,
        first.bytes <= second.bytes,
        first.samples <= second.samples,
        first.sampled_ns <= second.sampled_ns,
    ensures
        first.operations + second.since(first).operations == second.operations,
        first.bytes + second.since(first).bytes == second.bytes,
        first.samples + second.since(first).samples == second.samples,
        first.sampled_ns + second.since(first).sampled_ns == second.sampled_ns,
        later.since(earlier).chacha == later.chacha.since(earlier.chacha),
        later.since(earlier).srtp == later.srtp.since(earlier.srtp),
        later.since(earlier).unwrap_crypto == later.unwrap_crypto.since(earlier.unwrap_crypto),
        later.since(earlier).wrap_crypto == later.wrap_crypto.since(earlier.wrap_crypto),
{
}

/// Trimming takes away white space, from the ends alone, and leaves none there.
pub proof fn only_white_space_is_trimmed(given: Seq<char>) -> (cut: (int, int))
    ensures
        0 <= cut.0 <= cut.1 <= given.len(),
        text::trimmed(given) == given.subrange(cut.0, cut.1),
        forall|i: int| 0 <= i < cut.0 || cut.1 <= i < given.len() ==> text::is_white_space(
            #[trigger] given[i],
        ),
        text::trimmed(given).len() > 0 ==> !text::is_white_space(text::trimmed(given)[0])
            && !text::is_white_space(text::trimmed(given).last()),
        !text::is_white_space('|'),
        text::is_white_space(' '),
        text::is_white_space('\t'),
        text::is_white_space('\n'),
        text::is_white_space('\r'),
        forall|c: char| '!' <= c <= '~' ==> !#[trigger] text::is_white_space(c),
    decreases given.len(),
{
    if given.len() > 0 && text::is_white_space(given[0]) {
        let rest = given.subrange(1, given.len() as int);
        let (start, end) = only_white_space_is_trimmed(rest);
        assert(rest.subrange(start, end) =~= given.subrange(start + 1, end + 1));
        assert forall|i: int|
            0 <= i < start + 1 || end + 1 <= i < given.len() implies text::is_white_space(
            #[trigger] given[i],
        ) by {
            if i > 0 {
                assert(rest[i - 1] == given[i]);
            }
        }
        (start + 1, end + 1)
    } else if given.len() > 0 && text::is_white_space(given.last()) {
        let rest = given.drop_last();
        let (start, end) = only_white_space_is_trimmed(rest);
        assert(rest.subrange(start, end) =~= given.subrange(start, end));
        assert forall|i: int| 0 <= i < start || end <= i < given.len() implies text::is_white_space(
            #[trigger] given[i],
        ) by {
            if i < rest.len() {
                assert(rest[i] == given[i]);
            }
        }
        (start, end)
    } else {
        assert(given.subrange(0, given.len() as int) =~= given);
        (0, given.len() as int)
    }
}

/// A text begins with another if and only if something can be put behind that to make it.
pub proof fn beginnings_can_be_continued(given: Seq<char>, prefix: Seq<char>, rest: Seq<char>)
    ensures
        text::begins_with(prefix + rest, prefix),
        text::begins_with(given, prefix) ==> given == prefix + given.skip(prefix.len() as int),
{
    assert((prefix + rest).subrange(0, prefix.len() as int) =~= prefix);
    if text::begins_with(given, prefix) {
        assert(given =~= given.subrange(0, prefix.len() as int) + given.skip(prefix.len() as int));
    }
}

/// The sizes of what is held are added up, each once, and the sum stops at the largest number.
pub proof fn sizes_are_added_up(sizes: Seq<usize>, size: usize, sum: int)
    requires
        sum >= 0,
    ensures
        dpi::total(Seq::empty()) == 0,
        dpi::total(sizes.push(size)) == dpi::total(sizes) + size,
        sum <= usize::MAX ==> dpi::capped(sum) == sum,
        sum > usize::MAX ==> dpi::capped(sum) == usize::MAX,
{
    assert(sizes.push(size).drop_last() =~= sizes);
}

/// The texts of all frames of a ring count, each with its bytes.
pub proof fn texts_are_counted(ring: Seq<FrameView>, frame: FrameView)
    ensures
        dpi::ring_text_bytes(Seq::empty()) == 0,
        dpi::ring_text_bytes(ring.push(frame)) == dpi::ring_text_bytes(ring) + encode_utf8(
            frame.direction,
        ).len() + encode_utf8(frame.src).len() + encode_utf8(frame.dst).len() + encode_utf8(
            frame.proto,
        ).len() + encode_utf8(frame.device_id).len() + encode_utf8(frame.salt).len() + encode_utf8(
            frame.detail,
        ).len() + encode_utf8(frame.hex_preview).len(),
{
    assert(ring.push(frame).drop_last() =~= ring);
}

/// Of a request for a configuration that is not complete nothing is shown but that it is one.
pub proof fn incomplete_requests_are_hidden(body: Seq<char>)
    requires
        text::fields(body, 6).len() != 6,
    ensures
        dpi::redacted_text("GETCONF:"@ + body) == "GETCONF:[REDACTED]"@,
{
    let prefix = "GETCONF:"@;
    let message = prefix + body;
    beginnings_can_be_continued(message, prefix, body);
    assert(message.subrange(prefix.len() as int, message.len() as int) =~= body);
}

/// A dump shows the first 64 bytes, sixteen to a line, and says how many more there are.
pub proof fn dumps_show_the_first_bytes(data: Seq<u8>, row: int)
    requires
        0 <= row,
        16 * row < data.len(),
    ensures
        data.len() <= 64 ==> {
            &&& dpi::dump(data) == dpi::dump_rows(data).flatten()
            &&& row < dpi::dump_rows(data).len()
            &&& 16 * dpi::dump_rows(data).len() < data.len() + 16
            &&& dpi::dump_rows(data)[row] == dpi::dump_line(
                data.subrange(
                    16 * row,
                    if 16 * row + 16 < data.len() {
                        16 * row + 16
                    } else {
                        data.len() as int
                    },
                ),
            )
        },
        data.len() > 64 ==> dpi::dump(data) == dpi::dump(data.take(64)) + "... (+"@ + text::decimal(
            (data.len() - 64) as nat,
        ) + " more bytes)\n"@,
{
    if data.len() <= 64 {
        dpi::dumps_are_lines(data);
    } else {
        dpi::dumps_are_cut(data);
        assert(data.take(64) =~= data.subrange(0, 64));
    }
}

} // verus!
