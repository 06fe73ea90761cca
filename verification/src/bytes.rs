//! Byte-string primitives: comparison, search, copying and integer fields.

use vstd::prelude::*;

verus! {

/// Whether two byte strings are equal.
pub fn same_bytes(left: &[u8], right: &[u8]) -> (same: bool)
    ensures
        same == (left@ == right@),
{
    if left.len() != right.len() {
        return false;
    }
    let mut i: usize = 0;
    while i < left.len()
        invariant
            left@.len() == right@.len(),
            i <= left@.len(),
            forall|j: int| 0 <= j < i ==> left@[j] == right@[j],
        decreases left@.len() - i,
    {
        if left[i] != right[i] {
            return false;
        }
        i += 1;
    }
    proof {
        assert(left@ =~= right@);
    }
    true
}

/// `whole` begins with `part`.
pub open spec fn has_prefix(whole: Seq<u8>, part: Seq<u8>) -> bool {
    whole.len() >= part.len() && whole.subrange(0, part.len() as int) == part
}

/// `whole` ends with `part`.
pub open spec fn has_suffix(whole: Seq<u8>, part: Seq<u8>) -> bool {
    whole.len() >= part.len() && whole.subrange(whole.len() - part.len(), whole.len() as int)
        == part
}

/// Whether `whole` begins with `part`.
pub fn starts_with(whole: &[u8], part: &[u8]) -> (found: bool)
    ensures
        found == has_prefix(whole@, part@),
{
    if whole.len() < part.len() {
        return false;
    }
    same_bytes(&whole[0..part.len()], part)
}

/// Whether `whole` ends with `part`.
pub fn ends_with(whole: &[u8], part: &[u8]) -> (found: bool)
    ensures
        found == has_suffix(whole@, part@),
{
    if whole.len() < part.len() {
        return false;
    }
    same_bytes(&whole[whole.len() - part.len()..whole.len()], part)
}

/// Whether `byte` occurs in `whole`.
pub fn contains_byte(whole: &[u8], byte: u8) -> (found: bool)
    ensures
        found == whole@.contains(byte),
{
    let mut i: usize = 0;
    while i < whole.len()
        invariant
            i <= whole@.len(),
            forall|j: int| 0 <= j < i ==> whole@[j] != byte,
        decreases whole@.len() - i,
    {
        if whole[i] == byte {
            return true;
        }
        i += 1;
    }
    false
}

/// A copy of `source` on the heap.
pub fn to_vec(source: &[u8]) -> (copy: Vec<u8>)
    ensures
        copy@ == source@,
{
    let mut copy: Vec<u8> = Vec::new();
    copy.extend_from_slice(source);
    proof {
        assert(copy@ =~= source@);
    }
    copy
}

/// Copies `count` bytes of `source`, from `from` on, to `output` at `at`.
pub fn copy_at(output: &mut [u8], at: usize, source: &[u8], from: usize, count: usize)
    requires
        at + count <= old(output).len(),
        from + count <= source.len(),
    ensures
        final(output)@ == overlay(
            old(output)@,
            at as int,
            source@.subrange(from as int, from + count),
        ),
{
    let mut i: usize = 0;
    while i < count
        invariant
            i <= count,
            at + count <= output.len(),
            from + count <= source.len(),
            output@ =~= overlay(old(output)@, at as int, source@.subrange(from as int, from + i)),
            output@.len() == old(output)@.len(),
        decreases count - i,
    {
        output[at + i] = source[from + i];
        i += 1;
    }
}

/// `base` with the bytes from `at` on replaced by `patch`.
pub open spec fn overlay(base: Seq<u8>, at: int, patch: Seq<u8>) -> Seq<u8> {
    base.subrange(0, at) + patch + base.subrange(at + patch.len(), base.len() as int)
}

/// The little-endian number in two bytes at `offset`.
pub open spec fn le16(bytes: Seq<u8>, offset: int) -> nat {
    (bytes[offset] + 256 * bytes[offset + 1]) as nat
}

/// The little-endian number in four bytes at `offset`.
pub open spec fn le32(bytes: Seq<u8>, offset: int) -> nat {
    le16(bytes, offset) + 0x1_0000 * le16(bytes, offset + 2)
}

/// The little-endian number in eight bytes at `offset`.
pub open spec fn le64(bytes: Seq<u8>, offset: int) -> nat {
    le32(bytes, offset) + 0x1_0000_0000 * le32(bytes, offset + 4)
}

/// The big-endian number in two bytes at `offset`.
pub open spec fn be16(bytes: Seq<u8>, offset: int) -> nat {
    (256 * bytes[offset] + bytes[offset + 1]) as nat
}

/// The big-endian number in four bytes at `offset`.
pub open spec fn be32(bytes: Seq<u8>, offset: int) -> nat {
    0x1_0000 * be16(bytes, offset) + be16(bytes, offset + 2)
}

/// Reads a little-endian `u16` at `offset`.
pub fn le_u16(bytes: &[u8], offset: usize) -> (value: u16)
    requires
        offset + 2 <= bytes.len(),
    ensures
        value == le16(bytes@, offset as int),
{
    (bytes[offset] as u16) + 256 * (bytes[offset + 1] as u16)
}

/// Reads a little-endian `u32` at `offset`.
pub fn le_u32(bytes: &[u8], offset: usize) -> (value: u32)
    requires
        offset + 4 <= bytes.len(),
    ensures
        value == le32(bytes@, offset as int),
{
    (le_u16(bytes, offset) as u32) + 0x1_0000 * (le_u16(bytes, offset + 2) as u32)
}

/// Reads a little-endian `u64` at `offset`.
pub fn le_u64(bytes: &[u8], offset: usize) -> (value: u64)
    requires
        offset + 8 <= bytes.len(),
    ensures
        value == le64(bytes@, offset as int),
{
    (le_u32(bytes, offset) as u64) + 0x1_0000_0000 * (le_u32(bytes, offset + 4) as u64)
}

/// Reads a big-endian `u32` from the first four bytes.
pub fn be_u32(bytes: &[u8]) -> (value: u32)
    requires
        bytes.len() >= 4,
    ensures
        value == be32(bytes@, 0),
{
    0x1_0000 * (256 * (bytes[0] as u32) + (bytes[1] as u32)) + (256 * (bytes[2] as u32) + (
    bytes[3] as u32))
}

} // verus!
