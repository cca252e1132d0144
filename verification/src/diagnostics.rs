//! The requests that observers send to the diagnostic ports.
use crate::text;
use crate::text::{after_prefix, characters, parse_unsigned, utf8_text};
use vstd::prelude::*;
use vstd::string::*;

verus! {

/// How long a request may be.
pub const DIAGNOSTIC_REQUEST_MAX_BYTES: usize = 128;

/// How many bytes are read at most before a request is known to be too long.
pub const DIAGNOSTIC_BUFFER_BYTES: usize = 129;

/// The byte that ends a request.
pub const LINE_FEED: u8 = 0x0a;

/// How the reading of a request stands.
#[derive(Clone, Copy, Debug, PartialEq, Eq, Structural)]
pub enum RequestStep {
    /// More is to be read.
    More,
    /// The request is complete.
    Complete,
    /// There is no request: the connection was closed before the first byte.
    Nothing,
    /// The request is too long.
    TooLong,
}

/// Reads a request piece by piece.
pub struct RequestReader {
    bytes: Vec<u8>,
}

/// Where the first line feed in `bytes` is, or how many bytes there are.
pub open spec fn line_len(bytes: Seq<u8>) -> int
    decreases bytes.len(),
{
    if bytes.len() == 0 || bytes[0] == LINE_FEED {
        0
    } else {
        1 + line_len(bytes.skip(1))
    }
}

/// There is a line feed in `bytes`.
pub open spec fn has_line_feed(bytes: Seq<u8>) -> bool {
    bytes.contains(LINE_FEED)
}

impl View for RequestReader {
    type V = Seq<u8>;

    closed spec fn view(&self) -> Seq<u8> {
        self.bytes@
    }
}

/// Finds the first line feed.
fn find_line_feed(chunk: &[u8]) -> (at: usize)
    ensures
        at == line_len(chunk@),
        at <= chunk@.len(),
        (at < chunk@.len()) == has_line_feed(chunk@),
{
    let mut at: usize = 0;
    assert(chunk@.skip(0) =~= chunk@);
    while at < chunk.len() && chunk[at] != LINE_FEED
        invariant
            at <= chunk@.len(),
            line_len(chunk@) == at + line_len(chunk@.skip(at as int)),
            forall|j: int| 0 <= j < at ==> chunk@[j] != LINE_FEED,
        decreases chunk.len() - at,
    {
        assert(chunk@.skip(at as int).skip(1) =~= chunk@.skip(at + 1));
        at += 1;
    }
    proof {
        if at < chunk@.len() {
            assert(chunk@[at as int] == LINE_FEED);
        }
    }
    at
}

impl RequestReader {
    /// A request of which nothing was read.
    pub fn new() -> (reader: RequestReader)
        ensures
            reader@ == Seq::<u8>::empty(),
    {
        RequestReader { bytes: Vec::new() }
    }

    /// How many more bytes may be read.
    pub fn room(&self) -> (room: usize)
        requires
            self@.len() <= DIAGNOSTIC_BUFFER_BYTES,
        ensures
            room == DIAGNOSTIC_BUFFER_BYTES - self@.len(),
    {
        DIAGNOSTIC_BUFFER_BYTES - self.bytes.len()
    }

    /// Takes in what was read, which is nothing where the connection was closed.
    pub fn feed(&mut self, chunk: &[u8]) -> (step: RequestStep)
        requires
            old(self)@.len() + chunk@.len() <= DIAGNOSTIC_BUFFER_BYTES,
        ensures
            final(self)@ == old(self)@ + chunk@.take(line_len(chunk@)),
            step == if chunk@.len() == 0 {
                if old(self)@.len() == 0 {
                    RequestStep::Nothing
                } else {
                    RequestStep::Complete
                }
            } else if has_line_feed(chunk@) {
                RequestStep::Complete
            } else if old(self)@.len() + chunk@.len() == DIAGNOSTIC_BUFFER_BYTES {
                RequestStep::TooLong
            } else {
                RequestStep::More
            },
    {
        let ghost before = self.bytes@;
        if chunk.len() == 0 {
            assert(before + chunk@.take(line_len(chunk@)) =~= before);
            return if self.bytes.len() == 0 {
                RequestStep::Nothing
            } else {
                RequestStep::Complete
            };
        }
        let end: usize = find_line_feed(chunk);
        let mut i: usize = 0;
        assert(chunk@.take(0) =~= Seq::<u8>::empty());
        assert(before + chunk@.take(0) =~= before);
        while i < end
            invariant
                i <= end <= chunk@.len(),
                self.bytes@ == before + chunk@.take(i as int),
            decreases end - i,
        {
            self.bytes.push(chunk[i]);
            i += 1;
            assert(chunk@.take(i as int) =~= chunk@.take(i - 1).push(chunk@[i - 1]));
            assert(self.bytes@ =~= before + chunk@.take(i as int));
        }
        if end < chunk.len() {
            RequestStep::Complete
        } else if self.bytes.len() == DIAGNOSTIC_BUFFER_BYTES {
            RequestStep::TooLong
        } else {
            RequestStep::More
        }
    }

    /// The text of the request. `None` where it is not text.
    pub fn finish(&self) -> (request: Option<String>)
        ensures
            request is Some <==> vstd::utf8::valid_utf8(self@),
            request matches Some(line) ==> line@ == text::trimmed(vstd::utf8::decode_utf8(self@)),
    {
        match utf8_text(self.bytes.as_slice()) {
            Some(line) => {
                proof {
                    text::text_of_bytes(line@, self.bytes@);
                }
                Some(line.trim().to_owned())
            },
            None => None,
        }
    }
}

/// How many of the latest packets a request asks for; zero where it asks to be shown packets
/// as they come.
pub open spec fn packets_requested(request: Seq<char>) -> nat {
    let prefix = "GET_DPI:"@;
    if text::begins_with(request, prefix) {
        match text::parsed_unsigned(
            request.subrange(prefix.len() as int, request.len() as int),
            usize::MAX as nat,
        ) {
            Some(count) => count,
            None => 0,
        }
    } else {
        0
    }
}

/// How many of the latest packets a request asks for.
pub fn dpi_packets_requested(request: &str) -> (count: usize)
    ensures
        count == packets_requested(request@),
{
    match after_prefix(request, "GET_DPI:") {
        Some(number) => match parse_unsigned(number, usize::MAX as u64) {
            Some(count) => count as usize,
            None => 0,
        },
        None => 0,
    }
}

/// What an observer of the data path wants to see.
#[derive(Clone, Copy, Debug, PartialEq, Eq, Structural)]
pub enum Observation {
    /// How much memory is in use.
    Memory,
    /// Where time is spent.
    Performance,
    /// What the sockets and the tunnel device do.
    Syscalls,
}

/// The lower-case form of an ASCII letter; other characters are their own.
pub open spec fn ascii_lower(c: char) -> char {
    if 'A' <= c && c <= 'Z' {
        ((c as u32) + 32) as char
    } else {
        c
    }
}

/// The texts are the same but for the case of ASCII letters.
pub open spec fn same_but_for_case(left: Seq<char>, right: Seq<char>) -> bool {
    left.map_values(|c: char| ascii_lower(c)) == right.map_values(|c: char| ascii_lower(c))
}

fn lower(c: char) -> (low: char)
    ensures
        low == ascii_lower(c),
{
    if 'A' <= c && c <= 'Z' {
        ((c as u8) + 32) as char
    } else {
        c
    }
}

/// Whether two texts are the same but for the case of ASCII letters.
pub fn equal_ignoring_case(left: &str, right: &str) -> (same: bool)
    ensures
        same == same_but_for_case(left@, right@),
{
    let l = characters(left);
    let r = characters(right);
    let ghost lowered_left = left@.map_values(|c: char| ascii_lower(c));
    let ghost lowered_right = right@.map_values(|c: char| ascii_lower(c));
    if l.len() != r.len() {
        assert(lowered_left.len() != lowered_right.len());
        return false;
    }
    let mut i: usize = 0;
    while i < l.len()
        invariant
            i <= l@.len(),
            l@ == left@,
            r@ == right@,
            l@.len() == r@.len(),
            lowered_left == left@.map_values(|c: char| ascii_lower(c)),
            lowered_right == right@.map_values(|c: char| ascii_lower(c)),
            forall|j: int| 0 <= j < i ==> lowered_left[j] == lowered_right[j],
        decreases l.len() - i,
    {
        if lower(l[i]) != lower(r[i]) {
            assert(lowered_left[i as int] != lowered_right[i as int]);
            return false;
        }
        i += 1;
    }
    assert(lowered_left =~= lowered_right);
    true
}

/// What a request to observe the data path asks for.
pub fn requested_observation(request: &str) -> (observation: Observation)
    ensures
        observation == if same_but_for_case(request@, "METRIC ALL"@) {
            Observation::Memory
        } else if same_but_for_case(request@, "PERF"@) || same_but_for_case(
            request@,
            "PERF CRYPTO"@,
        ) || same_but_for_case(request@, "PERF ALL"@) {
            Observation::Performance
        } else {
            Observation::Syscalls
        },
{
    if equal_ignoring_case(request, "METRIC ALL") {
        Observation::Memory
    } else if equal_ignoring_case(request, "PERF") || equal_ignoring_case(request, "PERF CRYPTO")
        || equal_ignoring_case(request, "PERF ALL") {
        Observation::Performance
    } else {
        Observation::Syscalls
    }
}

} // verus!
