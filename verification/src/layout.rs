//! Numbers as they are laid out in files, and where they stand.
//!
//! What a format lays down is written here byte by byte, for the laws on what is
//! read and written.

use vstd::prelude::*;
use vstd::string::*;
use crate::bytes::{be16, be32, le16, le32, le64};

verus! {

/// Two bytes, the lowest first.
pub open spec fn low2(value: u16) -> Seq<u8> {
    seq![(value % 0x100) as u8, (value / 0x100) as u8]
}

/// Four bytes, the lowest first.
pub open spec fn low4(value: u32) -> Seq<u8> {
    seq![
        (value % 0x100) as u8,
        ((value / 0x100) % 0x100) as u8,
        ((value / 0x1_0000) % 0x100) as u8,
        (value / 0x100_0000) as u8,
    ]
}

/// Eight bytes, the lowest first.
pub open spec fn low8(value: u64) -> Seq<u8> {
    low4((value % 0x1_0000_0000) as u32) + low4((value / 0x1_0000_0000) as u32)
}

/// Two bytes, the highest first.
pub open spec fn high2(value: u16) -> Seq<u8> {
    seq![(value / 0x100) as u8, (value % 0x100) as u8]
}

/// Four bytes, the highest first.
pub open spec fn high4(value: u32) -> Seq<u8> {
    seq![
        (value / 0x100_0000) as u8,
        ((value / 0x1_0000) % 0x100) as u8,
        ((value / 0x100) % 0x100) as u8,
        (value % 0x100) as u8,
    ]
}

/// Zero bytes.
pub open spec fn zeros(count: nat) -> Seq<u8> {
    Seq::new(count, |i: int| 0u8)
}

/// A part stands in a text at a place.
pub open spec fn stands_at(text: Seq<u8>, at: int, part: Seq<u8>) -> bool {
    0 <= at && at + part.len() <= text.len() && text.subrange(at, at + part.len()) == part
}

pub proof fn lemma_byte_at(text: Seq<u8>, at: int, part: Seq<u8>, i: int)
    requires
        stands_at(text, at, part),
        0 <= i < part.len(),
    ensures
        text[at + i] == part[i],
{
    assert(text.subrange(at, at + part.len())[i] == text[at + i]);
}

/// A number that stands in two bytes, the lowest first, is read so.
pub proof fn law_low2_is_read(text: Seq<u8>, at: int, value: u16)
    requires
        stands_at(text, at, low2(value)),
    ensures
        le16(text, at) == value,
{
    lemma_byte_at(text, at, low2(value), 0);
    lemma_byte_at(text, at, low2(value), 1);
}

/// A number that stands in four bytes, the lowest first, is read so.
pub proof fn law_low4_is_read(text: Seq<u8>, at: int, value: u32)
    requires
        stands_at(text, at, low4(value)),
    ensures
        le32(text, at) == value,
{
    lemma_byte_at(text, at, low4(value), 0);
    lemma_byte_at(text, at, low4(value), 1);
    lemma_byte_at(text, at, low4(value), 2);
    lemma_byte_at(text, at, low4(value), 3);
}

/// A number that stands in eight bytes, the lowest first, is read so.
pub proof fn law_low8_is_read(text: Seq<u8>, at: int, value: u64)
    requires
        stands_at(text, at, low8(value)),
    ensures
        le64(text, at) == value,
{
    let low = low4((value % 0x1_0000_0000) as u32);
    let high = low4((value / 0x1_0000_0000) as u32);
    assert(text.subrange(at, at + 4) =~= text.subrange(at, at + 8).subrange(0, 4));
    assert(low8(value).subrange(0, 4) =~= low);
    assert(text.subrange(at + 4, at + 8) =~= text.subrange(at, at + 8).subrange(4, 8));
    assert(low8(value).subrange(4, 8) =~= high);
    law_low4_is_read(text, at, (value % 0x1_0000_0000) as u32);
    law_low4_is_read(text, at + 4, (value / 0x1_0000_0000) as u32);
}

/// A number that stands in two bytes, the highest first, is read so.
pub proof fn law_high2_is_read(text: Seq<u8>, at: int, value: u16)
    requires
        stands_at(text, at, high2(value)),
    ensures
        be16(text, at) == value,
{
    lemma_byte_at(text, at, high2(value), 0);
    lemma_byte_at(text, at, high2(value), 1);
}

/// A number that stands in four bytes, the highest first, is read so.
pub proof fn law_high4_is_read(text: Seq<u8>, at: int, value: u32)
    requires
        stands_at(text, at, high4(value)),
    ensures
        be32(text, at) == value,
{
    lemma_byte_at(text, at, high4(value), 0);
    lemma_byte_at(text, at, high4(value), 1);
    lemma_byte_at(text, at, high4(value), 2);
    lemma_byte_at(text, at, high4(value), 3);
}

/// The bytes of an ASCII text are the numbers of its characters.
pub proof fn lemma_ascii(text: &str)
    requires
        forall|i: int| 0 <= i < text@.len() ==> '\0' <= #[trigger] text@[i] <= '\u{7f}',
    ensures
        text.spec_bytes().len() == text@.len(),
        forall|i: int|
            0 <= i < text@.len() ==> #[trigger] text.spec_bytes()[i] as int == text@[i] as int,
{
    vstd::string::is_ascii_spec_bytes(text);
    assert(vstd::utf8::is_ascii_chars(text@));
}

} // verus!
