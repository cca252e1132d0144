//! Configuration requests: what clients send, and what makes a request acceptable.
use crate::text;
use crate::text::{
    after_prefix, parse_generation_id, parse_u16, same_text, split_fields, trimmed_field, utf8_text,
};
use vstd::prelude::*;
use vstd::string::*;
use vstd::utf8::*;

verus! {

/// The most bytes that a device identifier or a salt may have.
pub const MAX_IDENTITY_LEN: usize = 128;

/// The most streams that one device may run.
pub const MAX_STREAM_WORKERS: u16 = 126;

/// The revisions of the wire protocol that the server speaks.
#[derive(Clone, Debug)]
pub struct WireRevisions {
    /// The revision whose data packets are framed.
    pub current: String,
    /// The revision before it.
    pub legacy: String,
}

/// Whether `value` names a revision that the server speaks.
pub fn is_supported_wire_protocol(revisions: &WireRevisions, value: &str) -> (supported: bool)
    ensures
        supported == (value@ == revisions.current@ || value@ == revisions.legacy@),
{
    same_text(value, revisions.current.as_str()) || same_text(value, revisions.legacy.as_str())
}

/// Whether clients of the revision `value` frame their data packets.
pub fn supports_data_frames(revisions: &WireRevisions, value: &str) -> (framed: bool)
    ensures
        framed == (value@ == revisions.current@),
{
    same_text(value, revisions.current.as_str())
}

/// What follows `GETCONF:` in `text`, trimmed; nothing where the text opens otherwise.
pub open spec fn getconf_content(text: Seq<char>) -> Seq<char> {
    if text::begins_with(text, "GETCONF:"@) {
        text::trimmed(text.subrange("GETCONF:"@.len() as int, text.len() as int))
    } else {
        text::trimmed(""@)
    }
}

/// The device, generation and salt that the configuration request `text` names, where it is
/// well formed as far as these go.
pub open spec fn request_epoch(text: Seq<char>) -> Option<(Seq<char>, nat, Seq<char>)> {
    let parts = text::fields(getconf_content(text), 6);
    let device_id = text::trimmed(parts[1]);
    let generation = text::parsed_digits(text::trimmed(parts[3]), u64::MAX as nat);
    let salt = if parts.len() > 4 {
        text::trimmed(parts[4])
    } else {
        text::trimmed(""@)
    };
    if !text::begins_with(text, "GETCONF:"@) || parts.len() < 4 || generation is None {
        None
    } else if device_id.len() == 0 || encode_utf8(device_id).len() > MAX_IDENTITY_LEN
        || encode_utf8(salt).len() > MAX_IDENTITY_LEN {
        None
    } else {
        Some((device_id, generation->0, salt))
    }
}

/// The device, generation and salt that a payload names, if it is a configuration request.
pub open spec fn payload_epoch(payload: Seq<u8>) -> Option<(Seq<char>, nat, Seq<char>)> {
    if valid_utf8(payload) {
        request_epoch(decode_utf8(payload))
    } else {
        None
    }
}

/// The device, generation and salt that `payload` names, if it is a configuration request
/// that is well formed as far as these go.
pub fn parse_getconf_epoch(payload: &[u8]) -> (epoch: Option<(&str, u64, &str)>)
    ensures
        match epoch {
            Some((device_id, generation_id, salt)) => payload_epoch(payload@) == Some(
                (device_id@, generation_id as nat, salt@),
            ),
            None => payload_epoch(payload@) is None,
        },
{
    let text = match utf8_text(payload) {
        Some(text) => text,
        None => return None,
    };
    proof {
        text::text_of_bytes(text@, payload@);
    }
    let content = match after_prefix(text, "GETCONF:") {
        Some(rest) => rest.trim(),
        None => return None,
    };
    let parts = split_fields(content, 6);
    if parts.len() < 4 {
        return None;
    }
    let device_id = parts[1].trim();
    let generation_id = match parse_generation_id(parts[3].trim()) {
        Some(id) => id,
        None => return None,
    };
    let session_salt = if parts.len() > 4 {
        parts[4].trim()
    } else {
        "".trim()
    };
    if device_id.is_empty() || device_id.as_bytes().len() > MAX_IDENTITY_LEN
        || session_salt.as_bytes().len() > MAX_IDENTITY_LEN {
        return None;
    }
    Some((device_id, generation_id, session_salt))
}

/// The fields of a configuration request, as text.
#[verifier::ext_equal]
pub struct GetconfText {
    pub client_port: Seq<char>,
    pub device_id: Seq<char>,
    pub password: Seq<char>,
    pub generation: Seq<char>,
    pub session_salt: Seq<char>,
    pub worker: Seq<char>,
    pub desired: Seq<char>,
    pub revision: Seq<char>,
}

/// The fields of the configuration request `text`.
pub open spec fn getconf_text(text: Seq<char>) -> GetconfText {
    let parts = text::fields(getconf_content(text), 8);
    GetconfText {
        client_port: text::field_or(parts, 0, text::trimmed("9000"@)),
        device_id: text::field_or(parts, 1, text::trimmed("unknown"@)),
        password: text::field_or(parts, 2, text::trimmed(""@)),
        generation: text::field_or(parts, 3, text::trimmed(""@)),
        session_salt: text::field_or(parts, 4, text::trimmed(""@)),
        worker: text::field_or(parts, 5, text::trimmed(""@)),
        desired: text::field_or(parts, 6, text::trimmed(""@)),
        revision: text::field_or(parts, 7, text::trimmed(""@)),
    }
}

/// A configuration request that is well formed.
#[derive(Clone, Debug)]
pub struct GetconfRequest {
    pub client_port: String,
    pub device_id: String,
    pub password: String,
    pub generation_id: u64,
    pub session_salt: String,
    pub worker_id: u16,
    /// How many streams the client runs; zero where it does not say.
    pub desired_count: u16,
    /// Whether the client frames its data packets.
    pub data_frames: bool,
}

/// What a [`GetconfRequest`] says.
#[verifier::ext_equal]
pub struct RequestView {
    pub client_port: Seq<char>,
    pub device_id: Seq<char>,
    pub password: Seq<char>,
    pub generation_id: u64,
    pub session_salt: Seq<char>,
    pub worker_id: u16,
    pub desired_count: u16,
    pub data_frames: bool,
}

impl View for GetconfRequest {
    type V = RequestView;

    open spec fn view(&self) -> RequestView {
        RequestView {
            client_port: self.client_port@,
            device_id: self.device_id@,
            password: self.password@,
            generation_id: self.generation_id,
            session_salt: self.session_salt@,
            worker_id: self.worker_id,
            desired_count: self.desired_count,
            data_frames: self.data_frames,
        }
    }
}

/// A configuration request that is refused as it stands: the refusal, and how much of the
/// request could be read before it.
#[derive(Clone, Debug)]
pub struct GetconfDenial {
    pub response: &'static str,
    pub device_id: String,
    pub generation_id: Option<u64>,
    pub worker_id: Option<u16>,
    pub desired_count: Option<u16>,
}

/// What a [`GetconfDenial`] says.
#[verifier::ext_equal]
pub struct DenialView {
    pub response: Seq<char>,
    pub device_id: Seq<char>,
    pub generation_id: Option<u64>,
    pub worker_id: Option<u16>,
    pub desired_count: Option<u16>,
}

impl View for GetconfDenial {
    type V = DenialView;

    open spec fn view(&self) -> DenialView {
        DenialView {
            response: self.response@,
            device_id: self.device_id@,
            generation_id: self.generation_id,
            worker_id: self.worker_id,
            desired_count: self.desired_count,
        }
    }
}

/// `text` as the number of a stream, if it is one.
pub open spec fn stream_number(text: Seq<char>) -> Option<nat> {
    match text::parsed_unsigned(text, u16::MAX as nat) {
        Some(number) if 1 <= number <= MAX_STREAM_WORKERS => Some(number),
        _ => None,
    }
}

/// The refusal of a request that could be read up to its worker number.
pub open spec fn refusal(
    response: Seq<char>,
    request: GetconfText,
    generation_id: Option<u64>,
    worker_id: Option<u16>,
    desired_count: Option<u16>,
) -> Result<RequestView, DenialView> {
    Err(
        DenialView {
            response,
            device_id: request.device_id,
            generation_id,
            worker_id,
            desired_count,
        },
    )
}

/// What a configuration request on a session with `session_password` asks for, or why it is
/// refused. The first fault found, in the order given here, decides.
pub open spec fn checked_request(
    request: GetconfText,
    session_password: Seq<char>,
    current: Seq<char>,
    legacy: Seq<char>,
) -> Result<RequestView, DenialView> {
    let generation = text::parsed_digits(request.generation, u64::MAX as nat);
    let id = Some(generation->0 as u64);
    let worker = stream_number(request.worker);
    let worker_id = Some(worker->0 as u16);
    let desired = stream_number(request.desired);
    if generation is None {
        refusal("DENIED:invalid_epoch"@, request, None, None, None)
    } else if request.revision != current && request.revision != legacy {
        refusal("DENIED:protocol_mismatch"@, request, id, None, None)
    } else if request.password != session_password {
        refusal("DENIED:wrong_password"@, request, id, None, None)
    } else if request.device_id.len() == 0 || encode_utf8(request.device_id).len()
        > MAX_IDENTITY_LEN {
        refusal("DENIED:invalid_device"@, request, id, None, None)
    } else if text::parsed_unsigned(request.client_port, u16::MAX as nat) is None {
        refusal("DENIED:invalid_port"@, request, id, None, None)
    } else if encode_utf8(request.session_salt).len() > MAX_IDENTITY_LEN {
        refusal("DENIED:invalid_epoch"@, request, id, None, None)
    } else if worker is None {
        refusal("DENIED:invalid_worker"@, request, id, None, None)
    } else if request.desired.len() > 0 && desired is None {
        refusal("DENIED:invalid_worker_count"@, request, id, worker_id, None)
    } else if request.desired.len() > 0 && worker->0 > desired->0 {
        refusal(
            "DENIED:invalid_worker_count"@,
            request,
            id,
            worker_id,
            Some(desired->0 as u16),
        )
    } else {
        Ok(
            RequestView {
                client_port: request.client_port,
                device_id: request.device_id,
                password: request.password,
                generation_id: generation->0 as u64,
                session_salt: request.session_salt,
                worker_id: worker->0 as u16,
                desired_count: if request.desired.len() > 0 {
                    desired->0 as u16
                } else {
                    0
                },
                data_frames: request.revision == current,
            },
        )
    }
}

/// `text` as the number of a stream, if it is one.
fn parse_stream_number(text: &str) -> (number: Option<u16>)
    ensures
        match number {
            Some(n) => stream_number(text@) == Some(n as nat),
            None => stream_number(text@) is None,
        },
{
    match parse_u16(text) {
        Some(n) => if 1 <= n && n <= MAX_STREAM_WORKERS {
            Some(n)
        } else {
            None
        },
        None => None,
    }
}

fn deny(
    response: &'static str,
    device_id: &str,
    generation_id: Option<u64>,
    worker_id: Option<u16>,
    desired_count: Option<u16>,
) -> (denial: GetconfDenial)
    ensures
        denial@ == (DenialView {
            response: response@,
            device_id: device_id@,
            generation_id,
            worker_id,
            desired_count,
        }),
{
    GetconfDenial {
        response,
        device_id: device_id.to_owned(),
        generation_id,
        worker_id,
        desired_count,
    }
}

/// Reads a configuration request that came on a session with `session_password`.
pub fn read_getconf(
    text: &str,
    session_password: &str,
    revisions: &WireRevisions,
) -> (request: Result<GetconfRequest, GetconfDenial>)
    ensures
        match request {
            Ok(accepted) => checked_request(
                getconf_text(text@),
                session_password@,
                revisions.current@,
                revisions.legacy@,
            ) == Ok::<RequestView, DenialView>(accepted@),
            Err(denial) => checked_request(
                getconf_text(text@),
                session_password@,
                revisions.current@,
                revisions.legacy@,
            ) == Err::<RequestView, DenialView>(denial@),
        },
{
    let content = match after_prefix(text, "GETCONF:") {
        Some(rest) => rest.trim(),
        None => "".trim(),
    };
    let parts = split_fields(content, 8);
    let client_port = trimmed_field(&parts, 0, "9000".trim());
    let device_id = trimmed_field(&parts, 1, "unknown".trim());
    let password = trimmed_field(&parts, 2, "".trim());
    let generation_text = trimmed_field(&parts, 3, "".trim());
    let session_salt = trimmed_field(&parts, 4, "".trim());
    let worker_text = trimmed_field(&parts, 5, "".trim());
    let desired_text = trimmed_field(&parts, 6, "".trim());
    let revision = trimmed_field(&parts, 7, "".trim());
    let ghost fields = getconf_text(text@);
    assert(fields == (GetconfText {
        client_port: client_port@,
        device_id: device_id@,
        password: password@,
        generation: generation_text@,
        session_salt: session_salt@,
        worker: worker_text@,
        desired: desired_text@,
        revision: revision@,
    }));
    let generation_id = match parse_generation_id(generation_text) {
        Some(id) => id,
        None => return Err(deny("DENIED:invalid_epoch", device_id, None, None, None)),
    };
    let id = Some(generation_id);
    if !is_supported_wire_protocol(revisions, revision) {
        return Err(deny("DENIED:protocol_mismatch", device_id, id, None, None));
    }
    let data_frames = supports_data_frames(revisions, revision);
    if !same_text(password, session_password) {
        return Err(deny("DENIED:wrong_password", device_id, id, None, None));
    }
    if device_id.is_empty() || device_id.as_bytes().len() > MAX_IDENTITY_LEN {
        return Err(deny("DENIED:invalid_device", device_id, id, None, None));
    }
    if parse_u16(client_port).is_none() {
        return Err(deny("DENIED:invalid_port", device_id, id, None, None));
    }
    if session_salt.as_bytes().len() > MAX_IDENTITY_LEN {
        return Err(deny("DENIED:invalid_epoch", device_id, id, None, None));
    }
    let worker_id: u16 = match parse_stream_number(worker_text) {
        Some(worker_id) => worker_id,
        None => return Err(deny("DENIED:invalid_worker", device_id, id, None, None)),
    };
    let desired_count: u16 = if desired_text.is_empty() {
        0
    } else {
        match parse_stream_number(desired_text) {
            Some(count) => {
                if worker_id > count {
                    return Err(
                        deny(
                            "DENIED:invalid_worker_count",
                            device_id,
                            id,
                            Some(worker_id),
                            Some(count),
                        ),
                    );
                }
                count
            },
            None => return Err(
                deny("DENIED:invalid_worker_count", device_id, id, Some(worker_id), None),
            ),
        }
    };
    Ok(
        GetconfRequest {
            client_port: client_port.to_owned(),
            device_id: device_id.to_owned(),
            password: password.to_owned(),
            generation_id,
            session_salt: session_salt.to_owned(),
            worker_id,
            desired_count,
            data_frames,
        },
    )
}

/// A configuration request with the first three fields given, and what follows them.
pub open spec fn request_text(
    first: Seq<char>,
    second: Seq<char>,
    third: Seq<char>,
    rest: Seq<char>,
) -> Seq<char> {
    "GETCONF:"@ + (first.push(text::FIELD_SEPARATOR) + (second.push(text::FIELD_SEPARATOR) + (
    third.push(text::FIELD_SEPARATOR) + rest)))
}

proof fn lemma_request_content(body: Seq<char>)
    ensures
        text::begins_with("GETCONF:"@ + body, "GETCONF:"@),
        getconf_content("GETCONF:"@ + body) == text::trimmed(body),
{
    let message = "GETCONF:"@ + body;
    assert(message.subrange(0, "GETCONF:"@.len() as int) =~= "GETCONF:"@);
    assert(message.subrange("GETCONF:"@.len() as int, message.len() as int) =~= body);
}

proof fn lemma_request_fields(
    first: Seq<char>,
    second: Seq<char>,
    third: Seq<char>,
    rest: Seq<char>,
)
    requires
        !first.contains(text::FIELD_SEPARATOR),
        !second.contains(text::FIELD_SEPARATOR),
        !third.contains(text::FIELD_SEPARATOR),
    ensures
        text::begins_with(request_text(first, second, third, rest), "GETCONF:"@),
        text::fields(getconf_content(request_text(first, second, third, rest)), 6) == seq![
            text::trimmed_start(first),
            second,
            third,
        ] + text::fields(text::trimmed_end(rest), 3),
{
    let mark = text::FIELD_SEPARATOR;
    let behind_second = third.push(mark) + rest;
    let behind_first = second.push(mark) + behind_second;
    let body = first.push(mark) + behind_first;
    let start = text::trimmed_start(first);
    let end = text::trimmed_end(rest);
    lemma_request_content(body);
    text::lemma_trim_halves(body);
    text::lemma_trim_start_stops(first, mark, behind_first);
    text::lemma_trim_end_stops(start, mark, behind_first);
    text::lemma_trim_end_stops(second, mark, behind_second);
    text::lemma_trim_end_stops(third, mark, rest);
    lemma_start_within(first);
    text::lemma_first_field(start, second.push(mark) + (third.push(mark) + end), 6);
    text::lemma_first_field(second, third.push(mark) + end, 5);
    text::lemma_first_field(third, end, 4);
    assert(text::fields(getconf_content(request_text(first, second, third, rest)), 6) =~= seq![
        start,
        second,
        third,
    ] + text::fields(end, 3));
}

proof fn lemma_start_within(field: Seq<char>)
    requires
        !field.contains(text::FIELD_SEPARATOR),
    ensures
        !text::trimmed_start(field).contains(text::FIELD_SEPARATOR),
    decreases field.len(),
{
    if field.len() > 0 && text::is_white_space(field[0]) {
        let rest = field.subrange(1, field.len() as int);
        assert forall|i: int| 0 <= i < rest.len() implies rest[i] != text::FIELD_SEPARATOR by {
            assert(field[i + 1] == rest[i]);
        }
        lemma_start_within(rest);
    }
}

/// What a payload names is well formed: it is a configuration request, the device and the salt
/// are short, trimmed and free of separators, and there is a device.
pub proof fn epochs_are_well_formed(payload: Seq<u8>)
    ensures
        payload_epoch(payload) matches Some((device_id, generation_id, salt)) ==> {
            &&& valid_utf8(payload)
            &&& text::begins_with(decode_utf8(payload), "GETCONF:"@)
            &&& 1 <= encode_utf8(device_id).len() <= MAX_IDENTITY_LEN
            &&& encode_utf8(salt).len() <= MAX_IDENTITY_LEN
            &&& generation_id <= u64::MAX
            &&& text::trimmed(device_id) == device_id
            &&& text::trimmed(salt) == salt
            &&& !device_id.contains(text::FIELD_SEPARATOR)
            &&& !salt.contains(text::FIELD_SEPARATOR)
        },
{
    if payload_epoch(payload) is Some {
        let content = getconf_content(decode_utf8(payload));
        let parts = text::fields(content, 6);
        let (device_id, _, salt) = payload_epoch(payload)->0;
        text::lemma_trim_again(parts[1]);
        text::lemma_fields_are_plain(content, 6, 1);
        if device_id.contains(text::FIELD_SEPARATOR) {
            text::lemma_trimmed_within(parts[1], text::FIELD_SEPARATOR);
        }
        if parts.len() > 4 {
            text::lemma_trim_again(parts[4]);
            text::lemma_fields_are_plain(content, 6, 4);
            if salt.contains(text::FIELD_SEPARATOR) {
                text::lemma_trimmed_within(parts[4], text::FIELD_SEPARATOR);
            }
        } else {
            reveal_strlit("");
            text::lemma_trim_again(""@);
            if salt.contains(text::FIELD_SEPARATOR) {
                text::lemma_trimmed_within(""@, text::FIELD_SEPARATOR);
            }
        }
        assert(encode_utf8(device_id).len() >= 1) by {
            encode_utf8_first_scalar(device_id);
        }
    }
}

/// What a payload names does not depend on the password field.
pub proof fn epochs_ignore_the_password(
    first: Seq<char>,
    second: Seq<char>,
    left: Seq<char>,
    right: Seq<char>,
    rest: Seq<char>,
)
    requires
        !first.contains(text::FIELD_SEPARATOR),
        !second.contains(text::FIELD_SEPARATOR),
        !left.contains(text::FIELD_SEPARATOR),
        !right.contains(text::FIELD_SEPARATOR),
    ensures
        payload_epoch(encode_utf8(request_text(first, second, left, rest))) == payload_epoch(
            encode_utf8(request_text(first, second, right, rest)),
        ),
{
    broadcast use encode_utf8_valid_utf8, encode_utf8_decode_utf8;

    lemma_request_fields(first, second, left, rest);
    lemma_request_fields(first, second, right, rest);
}

/// What a payload with a fifth field names does not depend on what is appended behind another
/// separator.
pub proof fn epochs_ignore_what_follows(
    first: Seq<char>,
    second: Seq<char>,
    third: Seq<char>,
    fourth: Seq<char>,
    rest: Seq<char>,
    appended: Seq<char>,
)
    requires
        !first.contains(text::FIELD_SEPARATOR),
        !second.contains(text::FIELD_SEPARATOR),
        !third.contains(text::FIELD_SEPARATOR),
        !fourth.contains(text::FIELD_SEPARATOR),
    ensures
        ({
            let message = request_text(
                first,
                second,
                third,
                fourth.push(text::FIELD_SEPARATOR) + rest,
            );
            payload_epoch(encode_utf8(message.push(text::FIELD_SEPARATOR) + appended))
                == payload_epoch(encode_utf8(message))
        }),
{
    broadcast use encode_utf8_valid_utf8, encode_utf8_decode_utf8;

    let mark = text::FIELD_SEPARATOR;
    let short = fourth.push(mark) + rest;
    let longer = rest.push(mark) + appended;
    let long = fourth.push(mark) + longer;
    let message = request_text(first, second, third, short);
    assert(message.push(mark) + appended =~= request_text(first, second, third, long));
    lemma_request_fields(first, second, third, short);
    lemma_request_fields(first, second, third, long);
    text::lemma_trim_end_stops(fourth, mark, rest);
    text::lemma_trim_end_stops(fourth, mark, longer);
    text::lemma_trim_end_stops(rest, mark, appended);
    text::lemma_first_field(fourth, text::trimmed_end(rest), 3);
    text::lemma_first_field(fourth, text::trimmed_end(longer), 3);
    if rest.contains(mark) {
        let (fifth, more) = text::lemma_split_first(rest);
        let end = text::trimmed_end(appended);
        text::lemma_trim_end_stops(fifth, mark, more);
        text::lemma_first_field(fifth, text::trimmed_end(more), 2);
        assert(rest.push(mark) + end =~= fifth.push(mark) + (more.push(mark) + end));
        text::lemma_first_field(fifth, more.push(mark) + end, 2);
    } else {
        text::lemma_first_field(rest, text::trimmed_end(appended), 2);
        lemma_end_within(rest);
        text::lemma_only_field(text::trimmed_end(rest), 2);
        text::lemma_trim_end_first(rest);
    }
}

proof fn lemma_end_within(field: Seq<char>)
    requires
        !field.contains(text::FIELD_SEPARATOR),
    ensures
        !text::trimmed_end(field).contains(text::FIELD_SEPARATOR),
    decreases field.len(),
{
    if field.len() > 0 && text::is_white_space(field.last()) {
        let rest = field.drop_last();
        assert forall|i: int| 0 <= i < rest.len() implies rest[i] != text::FIELD_SEPARATOR by {
            assert(field[i] == rest[i]);
        }
        lemma_end_within(rest);
    }
}

/// A request that is accepted names a worker within the number of streams it runs.
pub proof fn accepted_workers_are_in_range(
    request: GetconfText,
    session_password: Seq<char>,
    current: Seq<char>,
    legacy: Seq<char>,
)
    ensures
        checked_request(request, session_password, current, legacy) matches Ok(accepted) ==> {
            &&& 1 <= accepted.worker_id <= MAX_STREAM_WORKERS
            &&& accepted.desired_count <= MAX_STREAM_WORKERS
            &&& accepted.desired_count != 0 ==> accepted.worker_id <= accepted.desired_count
            &&& accepted.password == session_password
        },
{
}

} // verus!
