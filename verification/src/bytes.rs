//! Byte-sequence helpers: prefixes, big-endian integers and in-place copies.
use vstd::prelude::*;

verus! {

/// `prefix` stands at the start of `data`.
pub open spec fn has_prefix(data: Seq<u8>, prefix: Seq<u8>) -> bool {
    prefix.len() <= data.len() && data.subrange(0, prefix.len() as int) == prefix
}

/// `data` with `piece` written over it from position `at` on.
pub open spec fn overwritten(data: Seq<u8>, at: int, piece: Seq<u8>) -> Seq<u8> {
    data.subrange(0, at) + piece + data.subrange(at + piece.len(), data.len() as int)
}

/// The two bytes of `value`, the most significant first.
pub open spec fn u16_be(value: u16) -> Seq<u8> {
    seq![(value / 256) as u8, (value % 256) as u8]
}

/// The number whose big-endian bytes are `hi` and `lo`.
pub open spec fn u16_of(hi: u8, lo: u8) -> int {
    hi * 256 + lo
}

/// The four bytes of `value`, the most significant first.
pub open spec fn u32_be(value: u32) -> Seq<u8> {
    u16_be((value / 65536) as u16) + u16_be((value % 65536) as u16)
}

/// The number whose big-endian bytes start at position `at` of `data`.
pub open spec fn u32_at(data: Seq<u8>, at: int) -> int {
    u16_of(data[at], data[at + 1]) * 65536 + u16_of(data[at + 2], data[at + 3])
}

/// The eight bytes of `value`, the most significant first.
pub open spec fn u64_be(value: u64) -> Seq<u8> {
    u32_be((value / 0x1_0000_0000) as u32) + u32_be((value % 0x1_0000_0000) as u32)
}

/// Different numbers have different bytes.
pub proof fn u64_be_is_injective(left: u64, right: u64)
    requires
        u64_be(left) == u64_be(right),
    ensures
        left == right,
{
    let a = u64_be(left);
    let b = u64_be(right);
    assert(u32_at(a, 0) == u32_at(b, 0) && u32_at(a, 4) == u32_at(b, 4));
    assert(u32_at(a, 0) == left / 0x1_0000_0000 && u32_at(a, 4) == left % 0x1_0000_0000);
    assert(u32_at(b, 0) == right / 0x1_0000_0000 && u32_at(b, 4) == right % 0x1_0000_0000);
}

/// Whether `data` begins with `prefix`.
pub fn starts_with(data: &[u8], prefix: &[u8]) -> (found: bool)
    ensures
        found == has_prefix(data@, prefix@),
{
    if prefix.len() > data.len() {
        return false;
    }
    let mut i: usize = 0;
    while i < prefix.len()
        invariant
            i <= prefix.len() <= data.len(),
            forall|j: int| 0 <= j < i ==> data@[j] == prefix@[j],
        decreases prefix.len() - i,
    {
        if data[i] != prefix[i] {
            assert(data@.subrange(0, prefix@.len() as int)[i as int] != prefix@[i as int]);
            return false;
        }
        i += 1;
    }
    assert(data@.subrange(0, prefix@.len() as int) =~= prefix@);
    true
}

/// Whether two slices hold the same bytes.
pub fn same_bytes(left: &[u8], right: &[u8]) -> (same: bool)
    ensures
        same == (left@ == right@),
{
    if left.len() != right.len() {
        return false;
    }
    proof {
        assert(left@.subrange(0, left@.len() as int) =~= left@);
    }
    starts_with(left, right)
}

/// Writes `piece` over `data` from position `at` on.
pub fn write_at(data: &mut [u8], at: usize, piece: &[u8])
    requires
        at + piece@.len() <= old(data)@.len(),
    ensures
        final(data)@ == overwritten(old(data)@, at as int, piece@),
{
    let ghost before = data@;
    let len: usize = data.len();
    let mut i: usize = 0;
    while i < piece.len()
        invariant
            i <= piece.len(),
            data@.len() == before.len() == len,
            at + piece@.len() <= before.len(),
            forall|j: int|
                0 <= j < before.len() ==> #[trigger] data@[j] == if at <= j < at + i {
                    piece@[j - at]
                } else {
                    before[j]
                },
        decreases piece.len() - i,
    {
        data[at + i] = piece[i];
        i += 1;
    }
    assert(data@ =~= overwritten(before, at as int, piece@));
}

/// The number whose big-endian bytes are `hi` and `lo`.
pub fn u16_from_be(hi: u8, lo: u8) -> (value: u16)
    ensures
        value == u16_of(hi, lo),
{
    (hi as u16) * 256 + (lo as u16)
}

/// The number whose big-endian bytes start at position `at` of `data`.
pub fn u32_from_be(data: &[u8], at: usize) -> (value: u32)
    requires
        at + 4 <= data@.len(),
    ensures
        value == u32_at(data@, at as int),
{
    (u16_from_be(data[at], data[at + 1]) as u32) * 65536 + (u16_from_be(
        data[at + 2],
        data[at + 3],
    ) as u32)
}

/// Appends the bytes of `piece` to `out`.
pub fn push_bytes(out: &mut Vec<u8>, piece: &[u8])
    ensures
        final(out)@ == old(out)@ + piece@,
{
    let ghost before = out@;
    let mut i: usize = 0;
    while i < piece.len()
        invariant
            i <= piece.len(),
            out@ == before + piece@.subrange(0, i as int),
        decreases piece.len() - i,
    {
        out.push(piece[i]);
        i += 1;
        assert(piece@.subrange(0, i as int) =~= piece@.subrange(0, i - 1).push(piece@[i - 1]));
    }
    assert(piece@.subrange(0, i as int) =~= piece@);
}

/// A vector that holds the bytes of `data`.
pub fn copy_of(data: &[u8]) -> (copy: Vec<u8>)
    ensures
        copy@ == data@,
{
    let mut copy: Vec<u8> = Vec::with_capacity(data.len());
    push_bytes(&mut copy, data);
    copy
}

/// Appends the big-endian bytes of `value` to `out`.
pub fn push_u16_be(out: &mut Vec<u8>, value: u16)
    ensures
        final(out)@ == old(out)@ + u16_be(value),
{
    let ghost before = out@;
    out.push((value / 256) as u8);
    out.push((value % 256) as u8);
    assert(out@ =~= before + u16_be(value));
}

/// Appends the big-endian bytes of `value` to `out`.
pub fn push_u32_be(out: &mut Vec<u8>, value: u32)
    ensures
        final(out)@ == old(out)@ + u32_be(value),
{
    let ghost before = out@;
    push_u16_be(out, (value / 65536) as u16);
    push_u16_be(out, (value % 65536) as u16);
    assert(out@ =~= before + u32_be(value));
}

/// Appends the big-endian bytes of `value` to `out`.
pub fn push_u64_be(out: &mut Vec<u8>, value: u64)
    ensures
        final(out)@ == old(out)@ + u64_be(value),
{
    let ghost before = out@;
    push_u32_be(out, (value / 0x1_0000_0000) as u32);
    push_u32_be(out, (value % 0x1_0000_0000) as u32);
    assert(out@ =~= before + u64_be(value));
}

} // verus!
