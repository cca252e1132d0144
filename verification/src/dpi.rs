//! Packet inspection: which packets are shown to an observer, and how.
use crate::bytes;
use crate::bytes::{same_bytes, starts_with};
use crate::control::{
    all_keepalive_bytes, DENIED_PREFIX, DISCONNECT_PREFIX, GETCONF_PREFIX, KEEPALIVE_BYTE,
    PANEL_RESTART_NOTICE, TUNCONF_PREFIX,
};
use crate::getconf;
use crate::rtp::{PAYLOAD_TYPE_AUDIO, PAYLOAD_TYPE_VIDEO};
use crate::text;
use crate::text::{after_prefix, push_decimal, split_fields};
use std::collections::VecDeque;
use vstd::prelude::*;
use vstd::string::*;
use vstd::utf8::*;

verus! {

/// How many frames the ring keeps.
pub const DPI_RING_FRAMES: usize = 100;

/// The least time between two frames that are shown.
pub const DPI_SAMPLE_INTERVAL_MS: u64 = 200;

/// Of how many data packets one is shown.
pub const DPI_SAMPLE_PACKETS: u64 = 512;

/// The most bytes that a dump shows.
pub const DUMP_BYTES: usize = 64;

/// The bytes in one line of a dump.
pub const DUMP_LINE_BYTES: usize = 16;

/// A packet that is shown to an observer.
#[derive(Clone, Debug)]
pub struct DpiFrame {
    pub timestamp_ms: u64,
    pub direction: String,
    pub src: String,
    pub dst: String,
    pub proto: String,
    pub pt: u8,
    pub seq: u64,
    pub len: usize,
    pub wire_len: usize,
    pub device_id: String,
    pub gen_id: u64,
    pub salt: String,
    pub detail: String,
    pub hex_preview: String,
}

/// What a [`DpiFrame`] says.
#[verifier::ext_equal]
pub struct FrameView {
    pub timestamp_ms: u64,
    pub direction: Seq<char>,
    pub src: Seq<char>,
    pub dst: Seq<char>,
    pub proto: Seq<char>,
    pub pt: u8,
    pub seq: u64,
    pub len: usize,
    pub wire_len: usize,
    pub device_id: Seq<char>,
    pub gen_id: u64,
    pub salt: Seq<char>,
    pub detail: Seq<char>,
    pub hex_preview: Seq<char>,
}

impl View for DpiFrame {
    type V = FrameView;

    open spec fn view(&self) -> FrameView {
        FrameView {
            timestamp_ms: self.timestamp_ms,
            direction: self.direction@,
            src: self.src@,
            dst: self.dst@,
            proto: self.proto@,
            pt: self.pt,
            seq: self.seq,
            len: self.len,
            wire_len: self.wire_len,
            device_id: self.device_id@,
            gen_id: self.gen_id,
            salt: self.salt@,
            detail: self.detail@,
            hex_preview: self.hex_preview@,
        }
    }
}

impl DpiFrame {
    /// The same frame once more.
    pub fn copy(&self) -> (frame: DpiFrame)
        ensures
            frame@ == self@,
    {
        DpiFrame {
            timestamp_ms: self.timestamp_ms,
            direction: self.direction.clone(),
            src: self.src.clone(),
            dst: self.dst.clone(),
            proto: self.proto.clone(),
            pt: self.pt,
            seq: self.seq,
            len: self.len,
            wire_len: self.wire_len,
            device_id: self.device_id.clone(),
            gen_id: self.gen_id,
            salt: self.salt.clone(),
            detail: self.detail.clone(),
            hex_preview: self.hex_preview.clone(),
        }
    }
}

/// The frames shown last, the oldest first.
pub struct DpiRing {
    frames: VecDeque<DpiFrame>,
}

impl View for DpiRing {
    type V = Seq<FrameView>;

    closed spec fn view(&self) -> Seq<FrameView> {
        Seq::new(self.frames@.len(), |i: int| self.frames@[i]@)
    }
}

/// The ring once `frame` is in it.
pub open spec fn recorded(ring: Seq<FrameView>, frame: FrameView) -> Seq<FrameView> {
    if ring.len() >= DPI_RING_FRAMES {
        ring.subrange(1, ring.len() as int).push(frame)
    } else {
        ring.push(frame)
    }
}

impl DpiRing {
    /// A ring without frames.
    pub fn new() -> (ring: DpiRing)
        ensures
            ring@ == Seq::<FrameView>::empty(),
    {
        let ring = DpiRing { frames: VecDeque::new() };
        assert(ring@ =~= Seq::<FrameView>::empty());
        ring
    }

    /// Drops all frames.
    pub fn clear(&mut self)
        ensures
            final(self)@ == Seq::<FrameView>::empty(),
    {
        self.frames = VecDeque::new();
        assert(self@ =~= Seq::<FrameView>::empty());
    }

    /// The last `count` frames, the oldest first.
    pub fn latest(&self, count: usize) -> (frames: Vec<DpiFrame>)
        ensures
            ({
                let shown = if count < self@.len() {
                    count as int
                } else {
                    self@.len() as int
                };
                Seq::new(frames@.len(), |i: int| frames@[i]@) == self@.subrange(
                    self@.len() - shown,
                    self@.len() as int,
                )
            }),
    {
        let len: usize = self.frames.len();
        let shown: usize = if count < len {
            count
        } else {
            len
        };
        let mut frames: Vec<DpiFrame> = Vec::new();
        let mut i: usize = len - shown;
        while i < len
            invariant
                len == self.frames@.len(),
                len - shown <= i <= len,
                frames@.len() == i - (len - shown),
                forall|j: int|
                    0 <= j < frames@.len() ==> (#[trigger] frames@[j])@ == self@[len - shown + j],
            decreases len - i,
        {
            frames.push(self.frames[i].copy());
            i += 1;
        }
        assert(Seq::new(frames@.len(), |j: int| frames@[j]@) =~= self@.subrange(
            len - shown,
            len as int,
        ));
        frames
    }
}

/// Puts a frame into the ring, in place of the oldest where the ring is full. The same frame
/// once more, for those who watch.
pub fn record_dpi(ring: &mut DpiRing, frame: DpiFrame) -> (shown: DpiFrame)
    ensures
        final(ring)@ == recorded(old(ring)@, frame@),
        shown@ == frame@,
{
    let shown = frame.copy();
    let ghost before = ring@;
    if ring.frames.len() >= DPI_RING_FRAMES {
        let _ = ring.frames.pop_front();
    }
    ring.frames.push_back(frame);
    assert(ring@ =~= recorded(before, frame@));
    shown
}

/// How many frames the ring holds.
pub fn dpi_ring_len(ring: &DpiRing) -> (len: usize)
    ensures
        len == ring@.len(),
{
    ring.frames.len()
}

/// The ring never holds more frames than it has room for.
pub proof fn the_ring_is_bounded(ring: Seq<FrameView>, frame: FrameView)
    requires
        ring.len() <= DPI_RING_FRAMES,
    ensures
        recorded(ring, frame).len() <= DPI_RING_FRAMES,
        recorded(ring, frame).last() == frame,
{
}

/// The ring once frames were put into it, one after the other.
pub open spec fn recorded_all(ring: Seq<FrameView>, frames: Seq<FrameView>) -> Seq<FrameView>
    decreases frames.len(),
{
    if frames.len() == 0 {
        ring
    } else {
        recorded(recorded_all(ring, frames.drop_last()), frames.last())
    }
}

/// A ring holds the frames recorded last, as many as it has room for, in the order in which
/// they were recorded.
pub proof fn the_ring_keeps_the_latest(frames: Seq<FrameView>)
    ensures
        recorded_all(Seq::empty(), frames) == if frames.len() > DPI_RING_FRAMES {
            frames.subrange(frames.len() - DPI_RING_FRAMES, frames.len() as int)
        } else {
            frames
        },
    decreases frames.len(),
{
    if frames.len() > 0 {
        the_ring_keeps_the_latest(frames.drop_last());
        assert(recorded_all(Seq::empty(), frames) =~= if frames.len() > DPI_RING_FRAMES {
            frames.subrange(frames.len() - DPI_RING_FRAMES, frames.len() as int)
        } else {
            frames
        });
    }
}

/// How much memory the ring holds on to.
#[derive(Clone, Copy, Debug, PartialEq, Eq, Structural)]
pub struct DpiRingMemorySnapshot {
    pub entries: usize,
    pub entry_capacity: usize,
    pub retained_bytes: usize,
}

/// The sum of `sizes`.
pub open spec fn total(sizes: Seq<usize>) -> int
    decreases sizes.len(),
{
    if sizes.len() == 0 {
        0
    } else {
        total(sizes.drop_last()) + sizes.last()
    }
}

/// `size`, or the largest machine number where it is larger.
pub open spec fn capped(size: int) -> usize {
    if size > usize::MAX {
        usize::MAX
    } else {
        size as usize
    }
}

proof fn lemma_total_grows(sizes: Seq<usize>, upto: int)
    requires
        0 <= upto <= sizes.len(),
    ensures
        0 <= total(sizes.take(upto)) <= total(sizes),
    decreases sizes.len(),
{
    if upto == sizes.len() {
        assert(sizes.take(upto) =~= sizes);
        if sizes.len() > 0 {
            lemma_total_grows(sizes.drop_last(), sizes.len() - 1);
            assert(sizes.drop_last().take(sizes.len() - 1) =~= sizes.drop_last());
        }
    } else {
        lemma_total_grows(sizes.drop_last(), upto);
        assert(sizes.drop_last().take(upto) =~= sizes.take(upto));
    }
}

/// The memory that a ring holds on to, given what it and its texts have allocated.
pub fn ring_memory(
    entries: usize,
    entry_capacity: usize,
    frame_size: usize,
    text_capacities: &Vec<usize>,
) -> (snapshot: DpiRingMemorySnapshot)
    ensures
        snapshot.entries == entries,
        snapshot.entry_capacity == entry_capacity,
        snapshot.retained_bytes == capped(
            capped(entry_capacity * frame_size) + capped(total(text_capacities@)),
        ),
{
    let frames: usize = match entry_capacity.checked_mul(frame_size) {
        Some(size) => size,
        None => usize::MAX,
    };
    let mut texts: usize = 0;
    let mut i: usize = 0;
    assert(text_capacities@.take(0) =~= Seq::<usize>::empty());
    while i < text_capacities.len()
        invariant
            i <= text_capacities@.len(),
            texts == capped(total(text_capacities@.take(i as int))),
        decreases text_capacities.len() - i,
    {
        proof {
            assert(text_capacities@.take(i + 1).drop_last() =~= text_capacities@.take(i as int));
            lemma_total_grows(text_capacities@.take(i + 1), i as int);
            assert(text_capacities@.take(i + 1).take(i as int) =~= text_capacities@.take(i as int));
        }
        texts = texts.saturating_add(text_capacities[i]);
        i += 1;
    }
    assert(text_capacities@.take(i as int) =~= text_capacities@);
    DpiRingMemorySnapshot {
        entries,
        entry_capacity,
        retained_bytes: frames.saturating_add(texts),
    }
}

/// `String::capacity`: what the text has allocated, at least the bytes that it has.
#[verifier::external_body]
fn text_capacity(s: &String) -> (capacity: usize)
    ensures
        capacity >= encode_utf8(s@).len(),
{
    s.capacity()
}

/// `VecDeque::capacity`: how many frames the ring has room for without allocating, at least
/// those that it holds.
#[verifier::external_body]
fn frame_capacity(frames: &VecDeque<DpiFrame>) -> (capacity: usize)
    ensures
        capacity >= frames@.len(),
{
    frames.capacity()
}

/// `std::mem::size_of`: how many bytes a frame takes up in the ring.
#[verifier::external_body]
fn frame_size() -> (size: usize) {
    std::mem::size_of::<DpiFrame>()
}

/// The bytes of the texts in a frame.
pub open spec fn frame_text_bytes(frame: FrameView) -> nat {
    encode_utf8(frame.direction).len() + encode_utf8(frame.src).len() + encode_utf8(frame.dst).len()
        + encode_utf8(frame.proto).len() + encode_utf8(frame.device_id).len() + encode_utf8(
        frame.salt,
    ).len() + encode_utf8(frame.detail).len() + encode_utf8(frame.hex_preview).len()
}

/// The bytes of the texts in the frames of a ring.
pub open spec fn ring_text_bytes(ring: Seq<FrameView>) -> nat
    decreases ring.len(),
{
    if ring.len() == 0 {
        0
    } else {
        ring_text_bytes(ring.drop_last()) + frame_text_bytes(ring.last())
    }
}

/// Notes what a text has allocated.
fn push_capacity(capacities: &mut Vec<usize>, s: &String)
    ensures
        final(capacities)@.len() == old(capacities)@.len() + 1,
        total(final(capacities)@) >= total(old(capacities)@) + encode_utf8(s@).len(),
{
    let ghost before = capacities@;
    capacities.push(text_capacity(s));
    assert(capacities@.drop_last() =~= before);
}

/// The memory that the ring holds on to, as the allocator has it now: at least that of the
/// frames in it and of their texts. How much beyond that, and how many bytes a frame takes up,
/// the allocator and the machine decide.
pub fn dpi_ring_memory_snapshot(ring: &DpiRing) -> (snapshot: DpiRingMemorySnapshot)
    ensures
        snapshot.entries == ring@.len(),
        snapshot.entry_capacity >= ring@.len(),
        snapshot.retained_bytes >= capped(ring_text_bytes(ring@) as int),
        exists|size: usize, capacities: Seq<usize>|
            {
                &&& capacities.len() == ring@.len() * 8
                &&& total(capacities) >= ring_text_bytes(ring@)
                &&& snapshot.retained_bytes == #[trigger] capped(
                    capped(snapshot.entry_capacity * size) + #[trigger] capped(total(capacities)),
                )
            },
{
    let mut capacities: Vec<usize> = Vec::new();
    let len: usize = ring.frames.len();
    let mut i: usize = 0;
    assert(ring@.take(0) =~= Seq::<FrameView>::empty());
    while i < len
        invariant
            i <= len == ring.frames@.len(),
            capacities@.len() == i * 8,
            total(capacities@) >= ring_text_bytes(ring@.take(i as int)),
        decreases len - i,
    {
        let frame = &ring.frames[i];
        push_capacity(&mut capacities, &frame.direction);
        push_capacity(&mut capacities, &frame.src);
        push_capacity(&mut capacities, &frame.dst);
        push_capacity(&mut capacities, &frame.proto);
        push_capacity(&mut capacities, &frame.device_id);
        push_capacity(&mut capacities, &frame.salt);
        push_capacity(&mut capacities, &frame.detail);
        push_capacity(&mut capacities, &frame.hex_preview);
        proof {
            let upto = ring@.take(i + 1);
            assert(upto.drop_last() =~= ring@.take(i as int));
            assert(upto.last() == frame@);
        }
        i += 1;
    }
    assert(ring@.take(i as int) =~= ring@);
    let size: usize = frame_size();
    let snapshot = ring_memory(len, frame_capacity(&ring.frames), size, &capacities);
    proof {
        assert(snapshot.entry_capacity * size >= 0) by (nonlinear_arith)
            requires
                snapshot.entry_capacity >= 0,
                size >= 0,
        ;
        assert(snapshot.retained_bytes == capped(
            capped(snapshot.entry_capacity * size) + capped(total(capacities@)),
        ));
    }
    snapshot
}

/// The hexadecimal digit that stands for `value`.
pub open spec fn hex_digit(value: u8) -> char {
    if value < 10 {
        (48 + value) as char
    } else {
        (87 + value) as char
    }
}

/// The bytes of `chunk` in hexadecimal, each followed by a blank.
pub open spec fn hex_cells(chunk: Seq<u8>) -> Seq<char>
    decreases chunk.len(),
{
    if chunk.len() == 0 {
        Seq::empty()
    } else {
        hex_cells(chunk.drop_last()) + seq![
            hex_digit(chunk.last() / 16),
            hex_digit(chunk.last() % 16),
            ' ',
        ]
    }
}

/// What stands for `byte` among the characters of a dump.
pub open spec fn shown_char(byte: u8) -> char {
    if 32 <= byte <= 126 {
        byte as char
    } else {
        '.'
    }
}

/// One line of a dump: the bytes in hexadecimal, then as characters.
pub open spec fn dump_line(chunk: Seq<u8>) -> Seq<char> {
    hex_cells(chunk) + Seq::new(((DUMP_LINE_BYTES - chunk.len()) * 3) as nat, |i: int| ' ')
        + seq![' ', '|', ' '] + Seq::new(chunk.len(), |i: int| shown_char(chunk[i])) + seq!['\n']
}

/// The lines of a dump.
pub open spec fn dump_lines(data: Seq<u8>) -> Seq<char>
    decreases data.len(),
{
    if data.len() == 0 {
        Seq::empty()
    } else if data.len() <= DUMP_LINE_BYTES {
        dump_line(data)
    } else {
        dump_line(data.subrange(0, DUMP_LINE_BYTES as int)) + dump_lines(
            data.subrange(DUMP_LINE_BYTES as int, data.len() as int),
        )
    }
}

/// The dump of `data`: its first bytes, and how many follow.
pub open spec fn dump(data: Seq<u8>) -> Seq<char> {
    if data.len() <= DUMP_BYTES {
        dump_lines(data)
    } else {
        dump_lines(data.subrange(0, DUMP_BYTES as int)) + "... (+"@ + text::decimal(
            (data.len() - DUMP_BYTES) as nat,
        ) + " more bytes)\n"@
    }
}

/// Appends one line of a dump.
fn push_dump_line(out: &mut String, data: &[u8], start: usize, end: usize)
    requires
        start < end <= data@.len(),
        end - start <= DUMP_LINE_BYTES,
    ensures
        final(out)@ == old(out)@ + dump_line(data@.subrange(start as int, end as int)),
{
    let ghost chunk = data@.subrange(start as int, end as int);
    let ghost before = out@;
    let mut i: usize = start;
    assert(before + hex_cells(chunk.take(0)) =~= before);
    while i < end
        invariant
            start <= i <= end <= data@.len(),
            chunk == data@.subrange(start as int, end as int),
            out@ == before + hex_cells(chunk.take(i - start)),
        decreases end - i,
    {
        let byte: u8 = data[i];
        push_hex_digit(out, byte / 16);
        push_hex_digit(out, byte % 16);
        out.push(' ');
        i += 1;
        assert(chunk.take(i - start).drop_last() =~= chunk.take(i - start - 1));
        assert(chunk.take(i - start).last() == byte);
        assert(out@ =~= before + hex_cells(chunk.take(i - start)));
    }
    assert(chunk.take(i - start) =~= chunk);
    let ghost cells = out@;
    let blanks: usize = (DUMP_LINE_BYTES - (end - start)) * 3;
    i = 0;
    while i < blanks
        invariant
            i <= blanks,
            out@ == cells + Seq::new(i as nat, |j: int| ' '),
        decreases blanks - i,
    {
        out.push(' ');
        i += 1;
        assert(out@ =~= cells + Seq::new(i as nat, |j: int| ' '));
    }
    out.push(' ');
    out.push('|');
    out.push(' ');
    let ghost bar = out@;
    assert(bar =~= cells + Seq::new(blanks as nat, |j: int| ' ') + seq![' ', '|', ' ']);
    i = start;
    while i < end
        invariant
            start <= i <= end <= data@.len(),
            chunk == data@.subrange(start as int, end as int),
            out@ == bar + Seq::new((i - start) as nat, |j: int| shown_char(chunk[j])),
        decreases end - i,
    {
        let byte: u8 = data[i];
        if byte >= 32 && byte <= 126 {
            out.push(byte as char);
        } else {
            out.push('.');
        }
        i += 1;
        assert(out@ =~= bar + Seq::new((i - start) as nat, |j: int| shown_char(chunk[j])));
    }
    out.push('\n');
    assert(out@ =~= before + dump_line(chunk));
}

fn push_hex_digit(out: &mut String, value: u8)
    requires
        value < 16,
    ensures
        final(out)@ == old(out)@.push(hex_digit(value)),
{
    if value < 10 {
        out.push((48 + value) as char);
    } else {
        out.push((87 + value) as char);
    }
}

/// The first bytes of `data` in hexadecimal and as characters, sixteen to a line.
pub fn hex_and_ascii_dump(data: &[u8]) -> (out: String)
    ensures
        out@ == dump(data@),
{
    let limit: usize = if data.len() < DUMP_BYTES {
        data.len()
    } else {
        DUMP_BYTES
    };
    let mut out = String::new();
    let ghost shown = data@.subrange(0, limit as int);
    let mut i: usize = 0;
    assert(shown.subrange(0, limit as int) =~= shown);
    while i < limit
        invariant
            i <= limit <= data@.len(),
            shown == data@.subrange(0, limit as int),
            out@ + dump_lines(shown.subrange(i as int, limit as int)) == dump_lines(shown),
        decreases limit - i,
    {
        let end: usize = if limit - i < DUMP_LINE_BYTES {
            limit
        } else {
            i + DUMP_LINE_BYTES
        };
        let ghost rest = shown.subrange(i as int, limit as int);
        let ghost before = out@;
        push_dump_line(&mut out, data, i, end);
        proof {
            assert(data@.subrange(i as int, end as int) =~= rest.subrange(0, end - i));
            if rest.len() <= DUMP_LINE_BYTES {
                assert(rest.subrange(0, end - i) =~= rest);
                assert(shown.subrange(end as int, limit as int) =~= Seq::<u8>::empty());
            } else {
                assert(rest.subrange(DUMP_LINE_BYTES as int, rest.len() as int) =~= shown.subrange(
                    end as int,
                    limit as int,
                ));
            }
            assert(out@ + dump_lines(shown.subrange(end as int, limit as int)) =~= before
                + dump_lines(rest));
        }
        i = end;
    }
    assert(out@ =~= dump_lines(shown));
    if data.len() > limit {
        out.append("... (+");
        push_decimal(&mut out, (data.len() - limit) as u64);
        out.append(" more bytes)\n");
    } else {
        assert(shown =~= data@);
    }
    out
}

/// The lines of the dump of `data`, one for each sixteen bytes and one for those that are left.
pub open spec fn dump_rows(data: Seq<u8>) -> Seq<Seq<char>> {
    Seq::new(
        ((data.len() + DUMP_LINE_BYTES - 1) / DUMP_LINE_BYTES as int) as nat,
        |row: int| dump_line(row_bytes(data, row)),
    )
}

/// The bytes that a line of the dump of `data` shows.
pub open spec fn row_bytes(data: Seq<u8>, row: int) -> Seq<u8> {
    let start = row * DUMP_LINE_BYTES;
    data.subrange(
        start,
        if start + DUMP_LINE_BYTES < data.len() {
            start + DUMP_LINE_BYTES
        } else {
            data.len() as int
        },
    )
}

/// The dump of much data is that of its first bytes, and how many follow.
pub proof fn dumps_are_cut(data: Seq<u8>)
    requires
        data.len() > DUMP_BYTES,
    ensures
        dump(data) == dump(data.subrange(0, DUMP_BYTES as int)) + "... (+"@ + text::decimal(
            (data.len() - DUMP_BYTES) as nat,
        ) + " more bytes)\n"@,
{
}

/// The dump of little data is one line after the other.
pub proof fn dumps_are_lines(data: Seq<u8>)
    requires
        data.len() <= DUMP_BYTES,
    ensures
        dump(data) == dump_rows(data).flatten(),
        data.len() == 0 ==> dump(data) == Seq::<char>::empty(),
{
    lemma_rows(data);
}

/// A line of a dump is as long as the bytes that it shows ask for, ends where the next begins,
/// and is plain ASCII.
pub proof fn dump_lines_are_regular(data: Seq<u8>, row: int)
    requires
        0 <= row < dump_rows(data).len(),
    ensures
        ({
            let line = dump_rows(data)[row];
            &&& 1 <= row_bytes(data, row).len() <= DUMP_LINE_BYTES
            &&& line.len() == 52 + row_bytes(data, row).len()
            &&& line.last() == '\n'
            &&& forall|i: int| 0 <= i < line.len() - 1 ==> #[trigger] line[i] != '\n'
            &&& forall|i: int| 0 <= i < line.len() ==> (#[trigger] line[i]) as u32 <= 127
        }),
{
    lemma_cells(row_bytes(data, row));
}

proof fn lemma_rows(data: Seq<u8>)
    ensures
        dump_lines(data) == dump_rows(data).flatten(),
    decreases data.len(),
{
    let rows = dump_rows(data);
    if data.len() == 0 {
        assert(rows.len() == 0);
    } else if data.len() <= DUMP_LINE_BYTES {
        assert(rows.len() == 1);
        assert(row_bytes(data, 0) =~= data);
        rows.lemma_flatten_one_element();
    } else {
        let rest = data.subrange(DUMP_LINE_BYTES as int, data.len() as int);
        lemma_rows(rest);
        assert(row_bytes(data, 0) =~= data.subrange(0, DUMP_LINE_BYTES as int));
        assert forall|row: int| 0 <= row < dump_rows(rest).len() implies row_bytes(rest, row)
            == row_bytes(data, row + 1) by {
            assert(row_bytes(rest, row) =~= row_bytes(data, row + 1));
        }
        assert(rows.drop_first() =~= dump_rows(rest));
    }
}

proof fn lemma_cells(chunk: Seq<u8>)
    ensures
        hex_cells(chunk).len() == chunk.len() * 3,
        forall|i: int|
            0 <= i < hex_cells(chunk).len() ==> 32 <= (#[trigger] hex_cells(chunk)[i]) as u32
                <= 127,
    decreases chunk.len(),
{
    if chunk.len() > 0 {
        lemma_cells(chunk.drop_last());
    }
}

/// The packet is one that sets up or ends a session.
pub open spec fn dpi_control(plain: Seq<u8>) -> bool {
    ||| bytes::has_prefix(plain, GETCONF_PREFIX@)
    ||| bytes::has_prefix(plain, TUNCONF_PREFIX@)
    ||| plain == PANEL_RESTART_NOTICE@
    ||| bytes::has_prefix(plain, DENIED_PREFIX@)
    ||| bytes::has_prefix(plain, DISCONNECT_PREFIX@)
    ||| plain.len() >= 5 && 20 <= plain[0] <= 22
}

/// Whether `plain` is a packet that sets up or ends a session.
pub fn is_dpi_control(plain: &[u8]) -> (control: bool)
    ensures
        control == dpi_control(plain@),
{
    starts_with(plain, GETCONF_PREFIX.as_slice()) || starts_with(plain, TUNCONF_PREFIX.as_slice())
        || same_bytes(plain, PANEL_RESTART_NOTICE.as_slice()) || starts_with(
        plain,
        DENIED_PREFIX.as_slice(),
    ) || starts_with(plain, DISCONNECT_PREFIX.as_slice()) || (plain.len() >= 5 && plain[0] >= 20
        && plain[0] <= 22)
}

/// Which packets are shown: how many data packets went by, and when the last was shown.
#[derive(Clone, Copy, Debug, PartialEq, Eq, Structural)]
pub struct DpiSampler {
    pub payload_counter: u64,
    pub last_sample_ms: u64,
}

impl DpiSampler {
    /// The count of data packets once `plain` went by.
    pub open spec fn counted(self, plain: Seq<u8>) -> u64 {
        if dpi_control(plain) {
            self.payload_counter
        } else {
            self.payload_counter.wrapping_add(1)
        }
    }

    /// Whether `plain` is shown.
    pub open spec fn shows(self, enabled: bool, now_ms: u64, plain: Seq<u8>) -> bool {
        &&& enabled
        &&& dpi_control(plain) || self.counted(plain) % DPI_SAMPLE_PACKETS == 0
        &&& now_ms - self.last_sample_ms >= DPI_SAMPLE_INTERVAL_MS
    }

    /// The sampler once `plain` went by.
    pub open spec fn after(self, enabled: bool, now_ms: u64, plain: Seq<u8>) -> DpiSampler {
        DpiSampler {
            payload_counter: if enabled {
                self.counted(plain)
            } else {
                self.payload_counter
            },
            last_sample_ms: if self.shows(enabled, now_ms, plain) {
                now_ms
            } else {
                self.last_sample_ms
            },
        }
    }

    /// Whether a packet is to be shown: every control packet and one in many data packets,
    /// with a pause between.
    pub fn should_record_dpi(&mut self, enabled: bool, now_ms: u64, plain: &[u8]) -> (record: bool)
        ensures
            record == old(self).shows(enabled, now_ms, plain@),
            *final(self) == old(self).after(enabled, now_ms, plain@),
    {
        if !enabled {
            return false;
        }
        if !is_dpi_control(plain) {
            self.payload_counter = self.payload_counter.wrapping_add(1);
            let counter: u64 = self.payload_counter;
            assert(counter & 511 == counter % 512) by (bit_vector);
            if counter & 511 != 0 {
                return false;
            }
        }
        if now_ms.saturating_sub(self.last_sample_ms) < DPI_SAMPLE_INTERVAL_MS {
            return false;
        }
        self.last_sample_ms = now_ms;
        true
    }
}

/// The text that `String::from_utf8_lossy` makes of `bytes`.
pub uninterp spec fn utf8_lossy(bytes: Seq<u8>) -> Seq<char>;

/// The text that `bytes` are shown as: what they encode, where they are valid UTF-8.
pub open spec fn shown_text(bytes: Seq<u8>) -> Seq<char> {
    if valid_utf8(bytes) {
        decode_utf8(bytes)
    } else {
        utf8_lossy(bytes)
    }
}

/// `String::from_utf8_lossy`: the text that the bytes encode, with replacement characters
/// for what is not valid UTF-8.
#[verifier::external_body]
fn lossy_text(bytes: &[u8]) -> (decoded: String)
    ensures
        valid_utf8(bytes@) ==> decoded@ == decode_utf8(bytes@),
        !valid_utf8(bytes@) ==> decoded@ == utf8_lossy(bytes@),
{
    String::from_utf8_lossy(bytes).into_owned()
}

/// `message` with the password of a configuration request left out.
pub open spec fn redacted_text(message: Seq<char>) -> Seq<char> {
    let parts = text::fields(message.subrange("GETCONF:"@.len() as int, message.len() as int), 6);
    if !text::begins_with(message, "GETCONF:"@) {
        message
    } else if parts.len() != 6 {
        "GETCONF:[REDACTED]"@
    } else {
        "GETCONF:"@ + parts[0] + "|"@ + parts[1] + "|[REDACTED]|"@ + parts[3] + "|"@ + parts[4]
            + "|"@ + parts[5]
    }
}

/// `message` with the password of a configuration request left out.
pub fn redacted(message: &str) -> (shown: String)
    ensures
        shown@ == redacted_text(message@),
{
    let payload = match after_prefix(message, "GETCONF:") {
        Some(payload) => payload,
        None => return message.to_owned(),
    };
    let parts = split_fields(payload, 6);
    if parts.len() != 6 {
        return "GETCONF:[REDACTED]".to_owned();
    }
    let mut shown = "GETCONF:".to_owned();
    shown.append(parts[0]);
    shown.append("|");
    shown.append(parts[1]);
    shown.append("|[REDACTED]|");
    shown.append(parts[3]);
    shown.append("|");
    shown.append(parts[4]);
    shown.append("|");
    shown.append(parts[5]);
    shown
}

/// A control packet as text, with the password of a configuration request left out.
pub fn display_control_payload(plain: &[u8]) -> (shown: String)
    ensures
        shown@ == redacted_text(shown_text(plain@)),
{
    let decoded = lossy_text(plain);
    redacted(decoded.as_str())
}

/// The packet is shown as text.
pub open spec fn shown_as_text(plain: Seq<u8>) -> bool {
    ||| bytes::has_prefix(plain, GETCONF_PREFIX@)
    ||| bytes::has_prefix(plain, TUNCONF_PREFIX@)
    ||| bytes::has_prefix(plain, DENIED_PREFIX@)
    ||| bytes::has_prefix(plain, DISCONNECT_PREFIX@)
}

/// What a frame says of its packet.
pub open spec fn detail_text(plain: Seq<u8>) -> Seq<char> {
    if shown_as_text(plain) {
        redacted_text(shown_text(plain))
    } else if forall|i: int| 0 <= i < plain.len() ==> #[trigger] plain[i] == KEEPALIVE_BYTE {
        "KeepAlive Ping ("@ + text::decimal(plain.len()) + " bytes)"@
    } else {
        "Payload ("@ + text::decimal(plain.len()) + " bytes)"@
    }
}

/// The name of a payload type.
pub open spec fn proto_text(pt: u8) -> Seq<char> {
    if pt == PAYLOAD_TYPE_AUDIO {
        "RTP-OBFS Audio (PT=111)"@
    } else if pt == PAYLOAD_TYPE_VIDEO {
        "RTP-OBFS Video (PT=96)"@
    } else {
        "RTP-OBFS (Custom)"@
    }
}

fn packet_detail(plain: &[u8]) -> (detail: String)
    ensures
        detail@ == detail_text(plain@),
{
    if starts_with(plain, GETCONF_PREFIX.as_slice()) || starts_with(
        plain,
        TUNCONF_PREFIX.as_slice(),
    ) || starts_with(plain, DENIED_PREFIX.as_slice()) || starts_with(
        plain,
        DISCONNECT_PREFIX.as_slice(),
    ) {
        return display_control_payload(plain);
    }
    let mut detail = if all_keepalive_bytes(plain) {
        "KeepAlive Ping (".to_owned()
    } else {
        "Payload (".to_owned()
    };
    push_decimal(&mut detail, plain.len() as u64);
    detail.append(" bytes)");
    detail
}

/// The frame of a packet, as seen at `timestamp_ms`.
pub open spec fn packet_frame(
    timestamp_ms: u64,
    direction: Seq<char>,
    src: Seq<char>,
    dst: Seq<char>,
    pt: u8,
    seq: u64,
    plain: Seq<u8>,
    wire_len: usize,
    device_id: Seq<char>,
    gen_id: u64,
    salt: Seq<char>,
) -> FrameView {
    FrameView {
        timestamp_ms,
        direction,
        src,
        dst,
        proto: proto_text(pt),
        pt,
        seq,
        len: plain.len() as usize,
        wire_len,
        device_id,
        gen_id,
        salt,
        detail: detail_text(plain),
        hex_preview: if dpi_control(plain) {
            dump(encode_utf8(detail_text(plain)))
        } else {
            Seq::empty()
        },
    }
}

/// Puts a packet into the ring, as seen at `timestamp_ms`. The frame, for those who watch.
pub fn record_packet_dpi(
    ring: &mut DpiRing,
    timestamp_ms: u64,
    direction: &str,
    src: &str,
    dst: &str,
    pt: u8,
    seq: u64,
    plain: &[u8],
    wire_len: usize,
    device_id: &str,
    gen_id: u64,
    salt: &str,
) -> (shown: DpiFrame)
    ensures
        shown@ == packet_frame(
            timestamp_ms,
            direction@,
            src@,
            dst@,
            pt,
            seq,
            plain@,
            wire_len,
            device_id@,
            gen_id,
            salt@,
        ),
        final(ring)@ == recorded(old(ring)@, shown@),
{
    let proto = if pt == PAYLOAD_TYPE_AUDIO {
        "RTP-OBFS Audio (PT=111)"
    } else if pt == PAYLOAD_TYPE_VIDEO {
        "RTP-OBFS Video (PT=96)"
    } else {
        "RTP-OBFS (Custom)"
    };
    let detail = packet_detail(plain);
    let hex_preview = if is_dpi_control(plain) {
        hex_and_ascii_dump(detail.as_str().as_bytes())
    } else {
        String::new()
    };
    assert(!dpi_control(plain@) ==> hex_preview@ =~= Seq::<char>::empty());
    record_dpi(
        ring,
        DpiFrame {
            timestamp_ms,
            direction: direction.to_owned(),
            src: src.to_owned(),
            dst: dst.to_owned(),
            proto: proto.to_owned(),
            pt,
            seq,
            len: plain.len(),
            wire_len,
            device_id: device_id.to_owned(),
            gen_id,
            salt: salt.to_owned(),
            detail,
            hex_preview,
        },
    )
}

/// A frame never shows the password field of a configuration request: it depends on the
/// other fields alone.
pub proof fn passwords_are_not_shown(left: Seq<char>, right: Seq<char>)
    requires
        text::begins_with(left, "GETCONF:"@),
        text::begins_with(right, "GETCONF:"@),
        ({
            let a = text::fields(left.subrange("GETCONF:"@.len() as int, left.len() as int), 6);
            let b = text::fields(right.subrange("GETCONF:"@.len() as int, right.len() as int), 6);
            &&& a.len() == b.len()
            &&& a.len() == 6 ==> a[0] == b[0] && a[1] == b[1] && a[3] == b[3] && a[4] == b[4]
                && a[5] == b[5]
        }),
    ensures
        redacted_text(left) == redacted_text(right),
{
}

/// A frame says nothing of the password field of a configuration request but how long the
/// request is: two requests that differ only in passwords of the same length give the same
/// frame. A request that is complete is shown with the password left out.
pub proof fn frames_hide_passwords(
    timestamp_ms: u64,
    direction: Seq<char>,
    src: Seq<char>,
    dst: Seq<char>,
    pt: u8,
    seq: u64,
    wire_len: usize,
    device_id: Seq<char>,
    gen_id: u64,
    salt: Seq<char>,
    first: Seq<char>,
    second: Seq<char>,
    left: Seq<char>,
    right: Seq<char>,
    rest: Seq<char>,
)
    requires
        !first.contains(text::FIELD_SEPARATOR),
        !second.contains(text::FIELD_SEPARATOR),
        !left.contains(text::FIELD_SEPARATOR),
        !right.contains(text::FIELD_SEPARATOR),
        encode_utf8(left).len() == encode_utf8(right).len(),
    ensures
        ({
            let plain = encode_utf8(getconf::request_text(first, second, left, rest));
            let frame = packet_frame(
                timestamp_ms,
                direction,
                src,
                dst,
                pt,
                seq,
                plain,
                wire_len,
                device_id,
                gen_id,
                salt,
            );
            &&& frame == packet_frame(
                timestamp_ms,
                direction,
                src,
                dst,
                pt,
                seq,
                encode_utf8(getconf::request_text(first, second, right, rest)),
                wire_len,
                device_id,
                gen_id,
                salt,
            )
            &&& text::fields(rest, 3).len() == 3 ==> frame.detail == getconf::request_text(
                first,
                second,
                "[REDACTED]"@,
                rest,
            )
            &&& frame.hex_preview == dump(encode_utf8(frame.detail))
            &&& frame.len == plain.len() as usize
        }),
{
    lemma_request_shown(first, second, left, rest);
    lemma_request_shown(first, second, right, rest);
    lemma_request_len(first, second, left, rest);
    lemma_request_len(first, second, right, rest);
}

/// How long a configuration request is, in bytes.
proof fn lemma_request_len(
    first: Seq<char>,
    second: Seq<char>,
    password: Seq<char>,
    rest: Seq<char>,
)
    ensures
        encode_utf8(getconf::request_text(first, second, password, rest)).len() == encode_utf8(
            getconf::request_text(first, second, Seq::empty(), rest),
        ).len() + encode_utf8(password).len(),
{
    let mark = text::FIELD_SEPARATOR;
    let head = "GETCONF:"@ + (first.push(mark) + second.push(mark));
    let tail = seq![mark] + rest;
    let empty = Seq::<char>::empty();
    assert(getconf::request_text(first, second, password, rest) =~= head + (password + tail));
    assert(getconf::request_text(first, second, empty, rest) =~= head + tail);
    text::lemma_encode_concat(head, password + tail);
    text::lemma_encode_concat(password, tail);
    text::lemma_encode_concat(head, tail);
}

/// How a configuration request is shown.
proof fn lemma_request_shown(
    first: Seq<char>,
    second: Seq<char>,
    password: Seq<char>,
    rest: Seq<char>,
)
    requires
        !first.contains(text::FIELD_SEPARATOR),
        !second.contains(text::FIELD_SEPARATOR),
        !password.contains(text::FIELD_SEPARATOR),
    ensures
        ({
            let plain = encode_utf8(getconf::request_text(first, second, password, rest));
            &&& dpi_control(plain)
            &&& detail_text(plain) == if text::fields(rest, 3).len() == 3 {
                getconf::request_text(first, second, "[REDACTED]"@, rest)
            } else {
                "GETCONF:[REDACTED]"@
            }
        }),
{
    broadcast use encode_utf8_valid_utf8, encode_utf8_decode_utf8;

    let mark = text::FIELD_SEPARATOR;
    let message = getconf::request_text(first, second, password, rest);
    let plain = encode_utf8(message);
    let body = first.push(mark) + (second.push(mark) + (password.push(mark) + rest));
    lemma_getconf_bytes();
    text::lemma_encode_concat("GETCONF:"@, body);
    assert(plain.subrange(0, GETCONF_PREFIX@.len() as int) =~= GETCONF_PREFIX@);
    assert(message.subrange(0, "GETCONF:"@.len() as int) =~= "GETCONF:"@);
    assert(message.subrange("GETCONF:"@.len() as int, message.len() as int) =~= body);
    text::lemma_first_field(first, second.push(mark) + (password.push(mark) + rest), 6);
    text::lemma_first_field(second, password.push(mark) + rest, 5);
    text::lemma_first_field(password, rest, 4);
    let parts = text::fields(body, 6);
    let others = text::fields(rest, 3);
    assert(parts =~= seq![first, second, password] + others);
    if others.len() == 3 {
        lemma_three_fields(rest);
        reveal_strlit("|");
        reveal_strlit("|[REDACTED]|");
        reveal_strlit("[REDACTED]");
        assert(redacted_text(message) =~= getconf::request_text(
            first,
            second,
            "[REDACTED]"@,
            rest,
        ));
    }
}

/// Three fields and the separators between them make up the text.
proof fn lemma_three_fields(rest: Seq<char>)
    requires
        text::fields(rest, 3).len() == 3,
    ensures
        ({
            let parts = text::fields(rest, 3);
            rest == parts[0].push(text::FIELD_SEPARATOR) + (parts[1].push(text::FIELD_SEPARATOR)
                + parts[2])
        }),
{
    let mark = text::FIELD_SEPARATOR;
    if rest.contains(mark) {
        let (head, tail) = text::lemma_split_first(rest);
        text::lemma_first_field(head, tail, 3);
        if tail.contains(mark) {
            let (middle, last) = text::lemma_split_first(tail);
            text::lemma_first_field(middle, last, 2);
            assert(text::fields(last, 1) =~= seq![last]);
        } else {
            text::lemma_only_field(tail, 2);
        }
    } else {
        text::lemma_only_field(rest, 3);
    }
}

/// The bytes that open a configuration request.
proof fn lemma_getconf_bytes()
    ensures
        encode_utf8("GETCONF:"@) == GETCONF_PREFIX@,
{
    reveal_strlit("GETCONF:");
    assert(is_ascii_chars("GETCONF:"@));
    is_ascii_chars_encode_utf8("GETCONF:"@);
    assert(encode_utf8("GETCONF:"@) =~= GETCONF_PREFIX@);
}

} // verus!
