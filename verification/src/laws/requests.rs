//! How the requests of clients are read.
use crate::getconf;
use crate::getconf::{DenialView, GetconfText, RequestView};
use crate::text;
use vstd::prelude::*;
use vstd::utf8::*;

verus! {

/// Fields, with a bar between each and the next.
pub open spec fn with_bars(parts: Seq<Seq<char>>) -> Seq<char>
    decreases parts.len(),
{
    if parts.len() == 0 {
        Seq::empty()
    } else if parts.len() == 1 {
        parts[0]
    } else {
        parts[0].push('|') + with_bars(parts.skip(1))
    }
}

/// A field that is read as it is written: it holds no bar, and no white space at its ends.
pub open spec fn is_plain(part: Seq<char>) -> bool {
    &&& !part.contains('|')
    &&& part.len() > 0 ==> !text::is_white_space(part[0]) && !text::is_white_space(part.last())
}

/// A number in its usual form is a run of digits.
proof fn lemma_decimal_digits(value: nat)
    ensures
        text::decimal(value).len() > 0,
        forall|i: int|
            0 <= i < text::decimal(value).len() ==> text::is_digit(
                #[trigger] text::decimal(value)[i],
            ),
        text::digits_value(text::decimal(value)) == value,
    decreases value,
{
    let digits = text::decimal(value);
    if value < 10 {
        assert(digits.drop_last() =~= Seq::<char>::empty());
        assert(digits.last() == text::digit_char(value));
        assert(text::digits_value(digits.drop_last()) == 0);
        assert(text::digits_value(digits) == 0 * 10 + (digits.last() as u32 - '0' as u32) as nat);
    } else {
        lemma_decimal_digits(value / 10);
        assert(digits.drop_last() =~= text::decimal(value / 10));
        assert(digits.last() == text::digit_char(value % 10));
        assert(text::digits_value(digits) == (value / 10) * 10 + (digits.last() as u32
            - '0' as u32) as nat);
    }
}

/// A number that is written down is read back.
pub proof fn numbers_are_read_back(value: nat, max: nat)
    requires
        value <= max,
    ensures
        text::parsed_digits(text::decimal(value), max) == Some(value),
        text::parsed_unsigned(text::decimal(value), max) == Some(value),
{
    lemma_decimal_digits(value);
    assert(text::is_digit(text::decimal(value)[0]));
}

/// What is no run of digits, or stands for a number that is too large, is not read as one.
pub proof fn other_texts_are_no_numbers(digits: Seq<char>, max: nat, i: int)
    requires
        digits.len() == 0 || (0 <= i < digits.len() && !('0' <= digits[i] <= '9'))
            || text::digits_value(digits) > max,
    ensures
        text::parsed_digits(digits, max) is None,
{
    if digits.len() > 0 && !('0' <= digits[i] <= '9') && text::digits_value(digits) <= max {
        assert(!text::is_digit(digits[i]));
    }
}

/// Numbers are written in the decimal system: the digits of a number are those of its tenth
/// part, and then its last digit.
pub proof fn numbers_are_decimal(value: nat)
    ensures
        value < 10 ==> text::decimal(value) == seq![('0' as u32 + value) as char],
        value >= 10 ==> text::decimal(value) == text::decimal(value / 10).push(
            ('0' as u32 + value % 10) as char,
        ),
{
}

proof fn lemma_number_is_plain(value: nat)
    ensures
        is_plain(text::decimal(value)),
{
    lemma_decimal_digits(value);
    let digits = text::decimal(value);
    assert(text::is_digit(digits[0]));
    assert(text::is_digit(digits[digits.len() - 1]));
    if digits.contains('|') {
        let i = choose|i: int| 0 <= i < digits.len() && digits[i] == '|';
        assert(text::is_digit(digits[i]));
    }
}

/// What was written with bars is read as the fields that it was written from.
proof fn lemma_bars(parts: Seq<Seq<char>>, limit: nat)
    requires
        0 < parts.len() <= limit,
        forall|i: int| 0 <= i < parts.len() ==> is_plain(#[trigger] parts[i]),
    ensures
        text::fields(with_bars(parts), limit) == parts,
    decreases parts.len(),
{
    assert(is_plain(parts[0]));
    if parts.len() == 1 {
        text::lemma_only_field(parts[0], limit);
        assert(parts =~= seq![parts[0]]);
    } else {
        let rest = parts.skip(1);
        assert forall|i: int| 0 <= i < rest.len() implies is_plain(#[trigger] rest[i]) by {
            assert(is_plain(parts[i + 1]));
        }
        lemma_bars(rest, (limit - 1) as nat);
        text::lemma_first_field(parts[0], with_bars(rest), limit);
        assert(seq![parts[0]] + rest =~= parts);
    }
}

/// Where there are more fields than are told apart, the last one takes the rest.
proof fn lemma_more_bars(parts: Seq<Seq<char>>, limit: nat)
    requires
        1 < limit < parts.len(),
        forall|i: int| 0 <= i < parts.len() ==> is_plain(#[trigger] parts[i]),
    ensures
        text::fields(with_bars(parts), limit) == parts.take(limit - 1).push(
            with_bars(parts.skip(limit - 1)),
        ),
    decreases limit,
{
    let rest = parts.skip(1);
    assert(is_plain(parts[0]));
    assert forall|i: int| 0 <= i < rest.len() implies is_plain(#[trigger] rest[i]) by {
        assert(is_plain(parts[i + 1]));
    }
    text::lemma_first_field(parts[0], with_bars(rest), limit);
    if limit == 2 {
        assert(text::fields(with_bars(rest), 1) =~= seq![with_bars(rest)]);
        assert(seq![parts[0]] + seq![with_bars(rest)] =~= parts.take(1).push(with_bars(rest)));
    } else {
        lemma_more_bars(rest, (limit - 1) as nat);
        assert(rest.skip(limit - 2) =~= parts.skip(limit - 1));
        assert(seq![parts[0]] + rest.take(limit - 2).push(with_bars(rest.skip(limit - 2)))
            =~= parts.take(limit - 1).push(with_bars(parts.skip(limit - 1))));
    }
}

/// What was written with bars has no white space at its ends.
proof fn lemma_bars_trimmed(parts: Seq<Seq<char>>)
    requires
        parts.len() > 1,
        forall|i: int| 0 <= i < parts.len() ==> is_plain(#[trigger] parts[i]),
    ensures
        with_bars(parts).len() > 0,
        !text::is_white_space(with_bars(parts)[0]),
        !text::is_white_space(with_bars(parts).last()),
        text::trimmed(with_bars(parts)) == with_bars(parts),
    decreases parts.len(),
{
    let rest = parts.skip(1);
    let whole = with_bars(parts);
    assert(is_plain(parts[0]));
    assert(whole[0] == if parts[0].len() > 0 {
        parts[0][0]
    } else {
        '|'
    });
    assert forall|i: int| 0 <= i < rest.len() implies is_plain(#[trigger] rest[i]) by {
        assert(is_plain(parts[i + 1]));
    }
    if rest.len() > 1 {
        lemma_bars_trimmed(rest);
        assert(whole.last() == with_bars(rest).last());
    } else {
        assert(with_bars(rest) == rest[0]);
        assert(is_plain(rest[0]));
        assert(whole.last() == if rest[0].len() > 0 {
            rest[0].last()
        } else {
            '|'
        });
    }
}

/// A plain field is read as it is written.
proof fn lemma_plain_trimmed(part: Seq<char>)
    requires
        is_plain(part),
    ensures
        text::trimmed(part) == part,
{
}

/// What a request for a configuration asks for.
pub open spec fn request_parts(request: RequestView, revision: Seq<char>) -> Seq<Seq<char>> {
    seq![
        request.client_port,
        request.device_id,
        request.password,
        text::decimal(request.generation_id as nat),
        request.session_salt,
        text::decimal(request.worker_id as nat),
        text::decimal(request.desired_count as nat),
        revision,
    ]
}

/// A request for a configuration that keeps to the rules.
pub open spec fn keeps_to_the_rules(request: RequestView, port: nat) -> bool {
    &&& request.client_port == text::decimal(port)
    &&& port <= 65535
    &&& is_plain(request.device_id)
    &&& 0 < request.device_id.len()
    &&& encode_utf8(request.device_id).len() <= 128
    &&& is_plain(request.password)
    &&& is_plain(request.session_salt)
    &&& encode_utf8(request.session_salt).len() <= 128
    &&& 1 <= request.worker_id <= request.desired_count <= 126
}

/// A request that keeps to the rules, written down field by field, is read as what it is: every
/// field of it, on a session with its password, under either revision of the protocol. The
/// packets of the client are framed if it names the current revision.
pub proof fn requests_are_read_back(
    request: RequestView,
    port: nat,
    current: Seq<char>,
    legacy: Seq<char>,
    revision: Seq<char>,
)
    requires
        keeps_to_the_rules(request, port),
        is_plain(revision),
        revision == current || revision == legacy,
        request.data_frames == (revision == current),
    ensures
        getconf::checked_request(
            getconf::getconf_text("GETCONF:"@ + with_bars(request_parts(request, revision))),
            request.password,
            current,
            legacy,
        ) == Ok::<RequestView, DenialView>(request),
{
    let parts = request_parts(request, revision);
    lemma_parts(request, port, revision);
    lemma_content(with_bars(parts));
    lemma_bars_trimmed(parts);
    lemma_bars(parts, 8);
    assert forall|i: int| 0 <= i < parts.len() implies text::trimmed(#[trigger] parts[i])
        == parts[i] by {
        assert(is_plain(parts[i]));
        lemma_plain_trimmed(parts[i]);
    }
    numbers_are_read_back(port, 65535);
    numbers_are_read_back(request.generation_id as nat, u64::MAX as nat);
    numbers_are_read_back(request.worker_id as nat, 65535);
    numbers_are_read_back(request.desired_count as nat, 65535);
    lemma_decimal_digits(request.desired_count as nat);
    let read = getconf::getconf_text("GETCONF:"@ + with_bars(parts));
    assert(read.client_port == parts[0]);
    assert(read.device_id == parts[1]);
    assert(read.password == parts[2]);
    assert(read.generation == parts[3]);
    assert(read.session_salt == parts[4]);
    assert(read.worker == parts[5]);
    assert(read.desired == parts[6]);
    assert(read.revision == parts[7]);
    assert(getconf::stream_number(read.worker) == Some(request.worker_id as nat));
    assert(getconf::stream_number(read.desired) == Some(request.desired_count as nat));
}

proof fn lemma_parts(request: RequestView, port: nat, revision: Seq<char>)
    requires
        keeps_to_the_rules(request, port),
        is_plain(revision),
    ensures
        request_parts(request, revision).len() == 8,
        forall|i: int|
            0 <= i < 8 ==> is_plain(#[trigger] request_parts(request, revision)[i]),
{
    lemma_number_is_plain(port);
    lemma_number_is_plain(request.generation_id as nat);
    lemma_number_is_plain(request.worker_id as nat);
    lemma_number_is_plain(request.desired_count as nat);
}

proof fn lemma_content(body: Seq<char>)
    ensures
        text::begins_with("GETCONF:"@ + body, "GETCONF:"@),
        getconf::getconf_content("GETCONF:"@ + body) == text::trimmed(body),
{
    let message = "GETCONF:"@ + body;
    assert(message.subrange(0, "GETCONF:"@.len() as int) =~= "GETCONF:"@);
    assert(message.subrange("GETCONF:"@.len() as int, message.len() as int) =~= body);
}

/// The engine reads the device, the generation and the salt out of the same request.
pub proof fn epochs_are_read_back(request: RequestView, port: nat, revision: Seq<char>)
    requires
        keeps_to_the_rules(request, port),
        is_plain(revision),
    ensures
        getconf::payload_epoch(
            encode_utf8("GETCONF:"@ + with_bars(request_parts(request, revision))),
        ) == Some(
            (request.device_id, request.generation_id as nat, request.session_salt),
        ),
{
    broadcast use encode_utf8_valid_utf8, encode_utf8_decode_utf8;

    let parts = request_parts(request, revision);
    lemma_parts(request, port, revision);
    lemma_content(with_bars(parts));
    lemma_bars_trimmed(parts);
    lemma_more_bars(parts, 6);
    let read = text::fields(
        getconf::getconf_content("GETCONF:"@ + with_bars(parts)),
        6,
    );
    assert(read.len() == 6);
    assert(read[1] == parts[1] && read[3] == parts[3] && read[4] == parts[4]);
    assert(is_plain(parts[1]) && is_plain(parts[3]) && is_plain(parts[4]));
    lemma_plain_trimmed(parts[1]);
    lemma_plain_trimmed(parts[3]);
    lemma_plain_trimmed(parts[4]);
    numbers_are_read_back(request.generation_id as nat, u64::MAX as nat);
}

/// A text is the number of a stream: a number from 1 to 126, which may have a plus sign.
pub open spec fn names_a_stream(field: Seq<char>) -> Option<nat> {
    match text::parsed_unsigned(field, 65535) {
        Some(number) => if 1 <= number && number <= 126 {
            Some(number)
        } else {
            None
        },
        None => None,
    }
}

/// A request is refused for the first of these reasons that holds: its generation is no
/// number; its revision is not spoken; its password is not that of the session; it names no
/// device, or one that is too long; its port is no number; its salt is too long; its worker
/// is no stream; the number of streams that it names is none, or is less than the worker. A
/// request of which none holds is accepted.
pub proof fn faults_are_named(
    request: GetconfText,
    session_password: Seq<char>,
    current: Seq<char>,
    legacy: Seq<char>,
)
    ensures
        ({
            let outcome = getconf::checked_request(request, session_password, current, legacy);
            let generation = text::parsed_digits(request.generation, 0xffff_ffff_ffff_ffff);
            let worker = names_a_stream(request.worker);
            let desired = names_a_stream(request.desired);
            let reason = if generation is None {
                Some("DENIED:invalid_epoch"@)
            } else if !(request.revision == current || request.revision == legacy) {
                Some("DENIED:protocol_mismatch"@)
            } else if request.password != session_password {
                Some("DENIED:wrong_password"@)
            } else if !(0 < request.device_id.len() && encode_utf8(request.device_id).len()
                <= 128) {
                Some("DENIED:invalid_device"@)
            } else if text::parsed_unsigned(request.client_port, 65535) is None {
                Some("DENIED:invalid_port"@)
            } else if encode_utf8(request.session_salt).len() > 128 {
                Some("DENIED:invalid_epoch"@)
            } else if worker is None {
                Some("DENIED:invalid_worker"@)
            } else if request.desired.len() > 0 && (desired is None || desired->0 < worker->0) {
                Some("DENIED:invalid_worker_count"@)
            } else {
                None
            };
            match outcome {
                Err(denial) => {
                    let counted = reason == Some("DENIED:invalid_worker_count"@);
                    &&& reason == Some(denial.response)
                    &&& denial.device_id == request.device_id
                    &&& denial.generation_id is Some <==> generation is Some
                    &&& denial.generation_id matches Some(id) ==> id == generation->0
                    &&& counted ==> denial.worker_id == Some(worker->0 as u16)
                    &&& counted && desired is Some ==> denial.desired_count == Some(
                        desired->0 as u16,
                    )
                    &&& counted && desired is None ==> denial.desired_count is None
                    &&& denial.worker_id is Some <==> counted
                    &&& !counted ==> denial.desired_count is None
                },
                Ok(accepted) => {
                    &&& reason is None
                    &&& accepted.device_id == request.device_id
                    &&& accepted.password == request.password
                    &&& accepted.session_salt == request.session_salt
                    &&& accepted.client_port == request.client_port
                    &&& accepted.generation_id == generation->0
                    &&& accepted.worker_id == worker->0
                    &&& accepted.desired_count == if request.desired.len() == 0 {
                        0
                    } else {
                        desired->0
                    }
                    &&& accepted.data_frames == (request.revision == current)
                },
            }
        }),
{
    lemma_same_stream(request.worker);
    lemma_same_stream(request.desired);
    reveal_strlit("DENIED:invalid_worker_count");
    reveal_strlit("DENIED:invalid_worker");
    reveal_strlit("DENIED:invalid_epoch");
    reveal_strlit("DENIED:protocol_mismatch");
    reveal_strlit("DENIED:wrong_password");
    reveal_strlit("DENIED:invalid_device");
    reveal_strlit("DENIED:invalid_port");
    assert("DENIED:invalid_worker_count"@.len() == 27);
    assert("DENIED:invalid_worker"@.len() == 21);
    assert("DENIED:invalid_epoch"@.len() == 20);
    assert("DENIED:protocol_mismatch"@.len() == 24);
    assert("DENIED:wrong_password"@.len() == 21);
    assert("DENIED:invalid_device"@.len() == 21);
    assert("DENIED:invalid_port"@.len() == 19);
}

proof fn lemma_same_stream(field: Seq<char>)
    ensures
        getconf::stream_number(field) == names_a_stream(field),
{
}

/// Fields that a request leaves out are read as if they were empty, but for the port, which is
/// 9000, and the device, which is unknown.
pub proof fn missing_fields_have_defaults(port: Seq<char>)
    requires
        is_plain(port),
        port.len() > 0,
    ensures
        ({
            let alone = getconf::getconf_text("GETCONF:"@ + port);
            &&& alone.client_port == port
            &&& alone.device_id == "unknown"@
            &&& alone.password.len() == 0
            &&& alone.generation.len() == 0
            &&& alone.session_salt.len() == 0
            &&& alone.worker.len() == 0
            &&& alone.desired.len() == 0
            &&& alone.revision.len() == 0
        }),
{
    lemma_content(port);
    lemma_plain_trimmed(port);
    text::lemma_only_field(port, 8);
    reveal_strlit("unknown");
    reveal_strlit("");
    assert(text::trimmed("unknown"@) == "unknown"@);
    assert(text::trimmed(""@) =~= Seq::<char>::empty());
}

/// The fields of a request are read in their order; those that it leaves out are empty, but for
/// the device, which is unknown.
pub proof fn fields_are_read_in_their_order(parts: Seq<Seq<char>>)
    requires
        1 < parts.len() <= 8,
        forall|i: int| 0 <= i < parts.len() ==> is_plain(#[trigger] parts[i]),
    ensures
        ({
            let read = getconf::getconf_text("GETCONF:"@ + with_bars(parts));
            let none = Seq::<char>::empty();
            &&& read.client_port == parts[0]
            &&& read.device_id == parts[1]
            &&& read.password == if parts.len() > 2 {
                parts[2]
            } else {
                none
            }
            &&& read.generation == if parts.len() > 3 {
                parts[3]
            } else {
                none
            }
            &&& read.session_salt == if parts.len() > 4 {
                parts[4]
            } else {
                none
            }
            &&& read.worker == if parts.len() > 5 {
                parts[5]
            } else {
                none
            }
            &&& read.desired == if parts.len() > 6 {
                parts[6]
            } else {
                none
            }
            &&& read.revision == if parts.len() > 7 {
                parts[7]
            } else {
                none
            }
        }),
{
    lemma_content(with_bars(parts));
    lemma_bars_trimmed(parts);
    lemma_bars(parts, 8);
    assert forall|i: int| 0 <= i < parts.len() implies text::trimmed(#[trigger] parts[i])
        == parts[i] by {
        assert(is_plain(parts[i]));
        lemma_plain_trimmed(parts[i]);
    }
    reveal_strlit("");
    assert(""@ =~= Seq::<char>::empty());
    assert(text::trimmed(""@) == Seq::<char>::empty());
}

/// A payload names a device and key if and only if it is text, opens as a request for a
/// configuration, has four fields at least, a number for its generation, and a device and a
/// salt of at most 128 bytes, of which the salt may be empty or left out.
pub proof fn other_payloads_name_no_key(payload: Seq<u8>)
    ensures
        ({
            let message = decode_utf8(payload);
            let parts = text::fields(text::trimmed(message.skip("GETCONF:"@.len() as int)), 6);
            let device_id = text::trimmed(parts[1]);
            let generation = text::parsed_digits(
                text::trimmed(parts[3]),
                0xffff_ffff_ffff_ffff,
            );
            let salt = if parts.len() > 4 {
                text::trimmed(parts[4])
            } else {
                Seq::empty()
            };
            let named = getconf::payload_epoch(payload);
            &&& named is Some <==> valid_utf8(payload) && text::begins_with(message, "GETCONF:"@)
                && parts.len() >= 4 && generation is Some && 0 < device_id.len() && encode_utf8(
                device_id,
            ).len() <= 128 && encode_utf8(salt).len() <= 128
            &&& named is Some ==> named == Some((device_id, generation->0, salt))
        }),
{
    let message = decode_utf8(payload);
    let prefix = "GETCONF:"@;
    reveal_strlit("");
    assert(""@ =~= Seq::<char>::empty());
    assert(text::trimmed(""@) == Seq::<char>::empty());
    if text::begins_with(message, prefix) {
        assert(message.skip(prefix.len() as int) =~= message.subrange(
            prefix.len() as int,
            message.len() as int,
        ));
    }
}

} // verus!
