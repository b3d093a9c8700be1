use vstd::bytes::lemma_auto_spec_u32_to_from_le_bytes;
use vstd::bytes::spec_u32_from_le_bytes;
use vstd::bytes::spec_u32_to_le_bytes;
use vstd::bytes::u32_from_le_bytes;
use vstd::bytes::u32_to_le_bytes;
use vstd::pervasive::VecAdditionalExecFns;
use vstd::prelude::*;
use vstd::slice::slice_subrange;

verus! {

// The ring header is placed at the start of the shared region with a
// fixed binary layout: five little-endian 32-bit fields and no
// pointers, because each process maps the region at its own address.
//
//   offset  0   head       next byte offset to be consumed
//   offset  4   tail       next byte offset to be produced
//   offset  8   capacity   length of the circular data region in bytes
//   offset 12   reader wait state (futex strategy only)
//   offset 16   writer wait state (futex strategy only)

/// Bytes occupied by the header at the start of the region.
pub const HEADER_SIZE: usize = 20;

/// Byte offset of the `head` field.
pub const HEAD_OFFSET: usize = 0;

/// Byte offset of the `tail` field.
pub const TAIL_OFFSET: usize = 4;

/// Byte offset of the `capacity` field.
pub const CAPACITY_OFFSET: usize = 8;

/// Byte offset of the reader-side wait state word.
pub const READER_STATE_OFFSET: usize = 12;

/// Byte offset of the writer-side wait state word.
pub const WRITER_STATE_OFFSET: usize = 16;

/// The 32-bit little-endian value stored at byte offset `off` of `s`.
pub open spec fn u32_at(s: Seq<u8>, off: int) -> u32
    recommends
        0 <= off,
        off + 4 <= s.len(),
{
    spec_u32_from_le_bytes(s.subrange(off, off + 4))
}

/// The `head` field of the header at the start of `s`.
pub open spec fn spec_head(s: Seq<u8>) -> u32 {
    u32_at(s, HEAD_OFFSET as int)
}

/// The `tail` field of the header at the start of `s`.
pub open spec fn spec_tail(s: Seq<u8>) -> u32 {
    u32_at(s, TAIL_OFFSET as int)
}

/// The `capacity` field of the header at the start of `s`.
pub open spec fn spec_capacity(s: Seq<u8>) -> u32 {
    u32_at(s, CAPACITY_OFFSET as int)
}

/// The reader-side wait state word of the header at the start of `s`.
pub open spec fn spec_reader_state(s: Seq<u8>) -> u32 {
    u32_at(s, READER_STATE_OFFSET as int)
}

/// The writer-side wait state word of the header at the start of `s`.
pub open spec fn spec_writer_state(s: Seq<u8>) -> u32 {
    u32_at(s, WRITER_STATE_OFFSET as int)
}

/// Two regions that agree on a field's four bytes store the same value
/// for that field.
pub proof fn lemma_u32_at_unchanged(s1: Seq<u8>, s2: Seq<u8>, off: int)
    requires
        0 <= off,
        off + 4 <= s1.len(),
        s1.len() == s2.len(),
        forall|j: int| off <= j < off + 4 ==> s1[j] == s2[j],
    ensures
        u32_at(s1, off) == u32_at(s2, off),
{
    assert(s1.subrange(off, off + 4) =~= s2.subrange(off, off + 4));
}

/// Initializes the header of a fresh region: both indices at zero,
/// the given data-region capacity, and both wait words clear.  Only
/// the owner may do this, and only before the peer attaches; bytes
/// past the header are left untouched.
pub fn init(bytes: &mut Vec<u8>, capacity: u32)
    requires
        HEADER_SIZE <= old(bytes)@.len(),
    ensures
        final(bytes)@.len() == old(bytes)@.len(),
        spec_head(final(bytes)@) == 0,
        spec_tail(final(bytes)@) == 0,
        spec_capacity(final(bytes)@) == capacity,
        spec_reader_state(final(bytes)@) == 0,
        spec_writer_state(final(bytes)@) == 0,
        forall|j: int|
            HEADER_SIZE <= j < final(bytes)@.len() ==> final(bytes)@[j] == old(bytes)@[j],
{
    store_u32(bytes, HEAD_OFFSET, 0);
    let ghost s1 = bytes@;
    store_u32(bytes, TAIL_OFFSET, 0);
    let ghost s2 = bytes@;
    store_u32(bytes, CAPACITY_OFFSET, capacity);
    let ghost s3 = bytes@;
    store_u32(bytes, READER_STATE_OFFSET, 0);
    let ghost s4 = bytes@;
    store_u32(bytes, WRITER_STATE_OFFSET, 0);
    proof {
        let s5 = bytes@;
        lemma_u32_at_unchanged(s1, s2, HEAD_OFFSET as int);
        lemma_u32_at_unchanged(s2, s3, HEAD_OFFSET as int);
        lemma_u32_at_unchanged(s3, s4, HEAD_OFFSET as int);
        lemma_u32_at_unchanged(s4, s5, HEAD_OFFSET as int);
        lemma_u32_at_unchanged(s2, s3, TAIL_OFFSET as int);
        lemma_u32_at_unchanged(s3, s4, TAIL_OFFSET as int);
        lemma_u32_at_unchanged(s4, s5, TAIL_OFFSET as int);
        lemma_u32_at_unchanged(s3, s4, CAPACITY_OFFSET as int);
        lemma_u32_at_unchanged(s4, s5, CAPACITY_OFFSET as int);
        lemma_u32_at_unchanged(s4, s5, READER_STATE_OFFSET as int);
    }
}

/// Reads the little-endian 32-bit field at byte offset `off`.
pub fn load_u32(bytes: &Vec<u8>, off: usize) -> (r: u32)
    requires
        off + 4 <= bytes@.len(),
    ensures
        r == u32_at(bytes@, off as int),
{
    let n = bytes.len();
    assert(off + 4 <= n);
    let field = slice_subrange(bytes.as_slice(), off, off + 4);
    u32_from_le_bytes(field)
}

/// Writes `v` as a little-endian 32-bit field at byte offset `off`,
/// leaving every byte outside the field untouched.
pub fn store_u32(bytes: &mut Vec<u8>, off: usize, v: u32)
    requires
        off + 4 <= old(bytes)@.len(),
    ensures
        final(bytes)@.len() == old(bytes)@.len(),
        u32_at(final(bytes)@, off as int) == v,
        forall|j: int|
            0 <= j < final(bytes)@.len() && !(off <= j < off + 4) ==> final(bytes)@[j] == old(
                bytes,
            )@[j],
{
    let n = bytes.len();
    assert(off + 4 <= n);
    let le = u32_to_le_bytes(v);
    bytes.set(off, le[0]);
    bytes.set(off + 1, le[1]);
    bytes.set(off + 2, le[2]);
    bytes.set(off + 3, le[3]);
    proof {
        assert(bytes@.subrange(off as int, off as int + 4) =~= spec_u32_to_le_bytes(v));
        lemma_auto_spec_u32_to_from_le_bytes();
    }
}

} // verus!
