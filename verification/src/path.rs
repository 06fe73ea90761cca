//! Archive paths as relative destinations.
//!
//! A destination never leaves the directory that it is relative to: it is not
//! absolute and names no parent. Two destinations that the host takes for the
//! same file have the same identity.

use vstd::prelude::*;
use vstd::utf8::{decode_utf8, valid_utf8};
use crate::bytes::{contains_byte, has_prefix, le16, starts_with, to_vec};
use crate::entry::{ArchivePath, EntryKind, PathEncoding};
use crate::parts::{
    components, first_index, law_pieces_are_plain, pieces, split_pieces, texts, SLASH,
};

verus! {

// ---------------------------------------------------------------------------
// Byte paths
// ---------------------------------------------------------------------------

/// The component that stands for the directory itself.
pub open spec fn is_dot(component: Seq<u8>) -> bool {
    component.len() == 1 && component[0] == 0x2e
}

/// The component that stands for the parent directory.
pub open spec fn is_parent(component: Seq<u8>) -> bool {
    component.len() == 2 && component[0] == 0x2e && component[1] == 0x2e
}

/// The components of a path without those that stand for the directory itself.
pub open spec fn named_components(parts: Seq<Seq<u8>>) -> Seq<Seq<u8>>
    decreases parts.len(),
{
    if parts.len() == 0 {
        Seq::empty()
    } else {
        let rest = named_components(parts.drop_last());
        if is_dot(parts.last()) {
            rest
        } else {
            rest.push(parts.last())
        }
    }
}

/// Some component names the parent.
pub open spec fn climbs(parts: Seq<Seq<u8>>) -> bool {
    exists|i: int| 0 <= i < parts.len() && is_parent(#[trigger] parts[i])
}

/// The safe relative path that a raw path stands for.
pub open spec fn safe_path(raw: Seq<u8>) -> Option<Seq<Seq<u8>>> {
    let parts = components(raw);
    if has_prefix(raw, seq![SLASH]) || raw.contains(0u8) || climbs(parts)
        || named_components(parts).len() == 0 {
        None
    } else {
        Some(named_components(parts))
    }
}

/// A component that names something in its directory.
pub open spec fn is_normal(component: Seq<u8>) -> bool {
    &&& component.len() > 0
    &&& !is_dot(component)
    &&& !is_parent(component)
    &&& !component.contains(SLASH)
    &&& !component.contains(0u8)
}

proof fn lemma_named_components(parts: Seq<Seq<u8>>)
    ensures
        named_components(parts).len() <= parts.len(),
        forall|i: int|
            0 <= i < named_components(parts).len() ==> parts.contains(
                #[trigger] named_components(parts)[i],
            ) && !is_dot(named_components(parts)[i]),
    decreases parts.len(),
{
    if parts.len() > 0 {
        let head = parts.drop_last();
        lemma_named_components(head);
        let named = named_components(parts);
        let rest = named_components(head);
        assert forall|i: int| 0 <= i < named.len() implies parts.contains(#[trigger] named[i])
            && !is_dot(named[i]) by {
            if i < rest.len() {
                assert(named[i] == rest[i]);
                assert(head.contains(rest[i]));
                let k = choose|k: int| 0 <= k < head.len() && head[k] == rest[i];
                assert(parts[k] == rest[i]);
            } else {
                assert(parts[parts.len() - 1] == named[i]);
            }
        }
    }
}

proof fn lemma_pieces_come_from_the_text(text: Seq<u8>, byte: u8, other: u8)
    requires
        !text.contains(other),
    ensures
        forall|i: int|
            0 <= i < pieces(text, byte).len() ==> !(#[trigger] pieces(text, byte)[i]).contains(
                other,
            ),
    decreases text.len(),
{
    if text.len() > 0 {
        crate::parts::lemma_first_index(text, byte);
        let at = first_index(text, byte);
        let rest = if at < text.len() {
            pieces(text.skip(at as int + 1), byte)
        } else {
            Seq::empty()
        };
        if at < text.len() {
            let tail = text.skip(at as int + 1);
            assert forall|k: int| 0 <= k < tail.len() implies #[trigger] tail[k] != other by {
                assert(text[k + at + 1] != other);
            }
            lemma_pieces_come_from_the_text(tail, byte, other);
        }
        assert forall|i: int| 0 <= i < pieces(text, byte).len() implies !(#[trigger] pieces(
            text,
            byte,
        )[i]).contains(other) by {
            let piece = pieces(text, byte)[i];
            if at > 0 && i == 0 {
                assert(piece == text.take(at as int));
                assert forall|k: int| 0 <= k < piece.len() implies piece[k] != other by {
                    assert(text[k] != other);
                }
            } else if at > 0 {
                assert(piece == rest[i - 1]);
            } else {
                assert(piece == rest[i]);
            }
        }
    }
}

proof fn lemma_unix_paths_stay_inside(raw: Seq<u8>)
    ensures
        safe_path(raw) matches Some(parts) ==> parts.len() > 0 && forall|i: int|
            0 <= i < parts.len() ==> is_normal(#[trigger] parts[i]),
{
    if let Some(parts) = safe_path(raw) {
        let all = components(raw);
        lemma_named_components(all);
        law_pieces_are_plain(raw, SLASH);
        lemma_pieces_come_from_the_text(raw, SLASH, 0);
        assert forall|i: int| 0 <= i < parts.len() implies is_normal(#[trigger] parts[i]) by {
            assert(all.contains(parts[i]));
            let k = choose|k: int| 0 <= k < all.len() && all[k] == parts[i];
            assert(!is_parent(all[k]));
        }
    }
}

/// A relative path that stays inside the directory it is relative to.
#[derive(Clone, Debug)]
pub struct SafePath {
    pub parts: Vec<Vec<u8>>,
}

impl View for SafePath {
    type V = Seq<Seq<u8>>;

    open spec fn view(&self) -> Seq<Seq<u8>> {
        texts(self.parts@)
    }
}

/// Components with slashes between them.
pub open spec fn slash_joined(parts: Seq<Seq<u8>>) -> Seq<u8>
    decreases parts.len(),
{
    if parts.len() == 0 {
        Seq::empty()
    } else if parts.len() == 1 {
        parts[0]
    } else {
        slash_joined(parts.drop_last()) + seq![SLASH] + parts.last()
    }
}

impl SafePath {
    /// The path with slashes between its components.
    pub fn to_bytes(&self) -> (bytes: Vec<u8>)
        ensures
            bytes@ == slash_joined(self@),
    {
        let mut bytes: Vec<u8> = Vec::new();
        let mut i: usize = 0;
        let ghost all = self@;
        proof {
            assert(bytes@ =~= Seq::<u8>::empty());
            assert(all.take(0) =~= Seq::<Seq<u8>>::empty());
        }
        while i < self.parts.len()
            invariant
                all == self@,
                all.len() == self.parts@.len(),
                i <= self.parts@.len(),
                bytes@ == slash_joined(all.take(i as int)),
            decreases self.parts@.len() - i,
        {
            let ghost before = bytes@;
            if i > 0 {
                bytes.push(SLASH);
            }
            bytes.extend_from_slice(self.parts[i].as_slice());
            proof {
                let part = all[i as int];
                let now = all.take(i + 1);
                assert(now.drop_last() =~= all.take(i as int));
                assert(now.last() == part);
                if i > 0 {
                    assert(bytes@ =~= before + seq![SLASH] + part);
                } else {
                    assert(now[0] == part);
                    assert(bytes@ =~= part);
                }
            }
            i += 1;
        }
        proof {
            assert(all.take(i as int) =~= all);
        }
        bytes
    }
}

fn dot(component: &[u8]) -> (found: bool)
    ensures
        found == is_dot(component@),
{
    component.len() == 1 && component[0] == 0x2e
}

fn parent(component: &[u8]) -> (found: bool)
    ensures
        found == is_parent(component@),
{
    component.len() == 2 && component[0] == 0x2e && component[1] == 0x2e
}

/// Turns a raw path into a safe relative path on Unix. `None` if it is absolute,
/// climbs out, holds a zero byte or names nothing.
pub fn sanitize_unix(raw: &[u8]) -> (path: Option<SafePath>)
    ensures
        match path {
            Some(path) => safe_path(raw@) == Some(path@),
            None => safe_path(raw@) is None,
        },
{
    proof {
        assert([SLASH]@ =~= seq![SLASH]);
    }
    if starts_with(raw, &[SLASH]) || contains_byte(raw, 0) {
        return None;
    }
    let split = split_pieces(raw, SLASH);
    let ghost all = components(raw@);
    let mut parts: Vec<Vec<u8>> = Vec::new();
    let mut i: usize = 0;
    proof {
        assert(all.take(0) =~= Seq::<Seq<u8>>::empty());
        assert(texts(parts@) =~= Seq::<Seq<u8>>::empty());
    }
    while i < split.len()
        invariant
            all == texts(split@),
            all.len() == split@.len(),
            all == components(raw@),
            i <= split@.len(),
            forall|j: int| 0 <= j < i ==> !is_parent(#[trigger] all[j]),
            texts(parts@) == named_components(all.take(i as int)),
        decreases split@.len() - i,
    {
        proof {
            assert(all[i as int] == split@[i as int]@);
            assert(all.take(i + 1).drop_last() =~= all.take(i as int));
            assert(all.take(i + 1).last() == all[i as int]);
        }
        let part = split[i].as_slice();
        if parent(part) {
            return None;
        }
        if !dot(part) {
            let ghost before = parts@;
            parts.push(to_vec(part));
            proof {
                assert(texts(parts@) =~= texts(before).push(part@));
            }
        }
        i += 1;
    }
    proof {
        assert(all.take(i as int) =~= all);
        assert(texts(parts@).len() == parts@.len());
    }
    if parts.len() == 0 {
        return None;
    }
    Some(SafePath { parts })
}

// ---------------------------------------------------------------------------
// Encoded paths
// ---------------------------------------------------------------------------

/// A character in UTF-8.
pub open spec fn utf8_char(number: int) -> Seq<u8> {
    if number < 0x80 {
        seq![number as u8]
    } else if number < 0x800 {
        seq![(0xC0 + number / 0x40) as u8, (0x80 + number % 0x40) as u8]
    } else if number < 0x1_0000 {
        seq![
            (0xE0 + number / 0x1000) as u8,
            (0x80 + number / 0x40 % 0x40) as u8,
            (0x80 + number % 0x40) as u8,
        ]
    } else {
        seq![
            (0xF0 + number / 0x4_0000) as u8,
            (0x80 + number / 0x1000 % 0x40) as u8,
            (0x80 + number / 0x40 % 0x40) as u8,
            (0x80 + number % 0x40) as u8,
        ]
    }
}

/// Little-endian UTF-16 as UTF-8. `None` for an odd byte or a lone surrogate.
pub open spec fn utf8_of_utf16(bytes: Seq<u8>) -> Option<Seq<u8>>
    decreases bytes.len(),
{
    if bytes.len() == 0 {
        Some(Seq::empty())
    } else if bytes.len() == 1 {
        None
    } else {
        let unit = le16(bytes, 0) as int;
        let (number, width): (int, int) = if !(0xD800 <= unit < 0xE000) {
            (unit, 2)
        } else if unit < 0xDC00 && bytes.len() >= 4 && 0xDC00 <= le16(bytes, 2) < 0xE000 {
            (0x1_0000 + (unit - 0xD800) * 0x400 + (le16(bytes, 2) - 0xDC00), 4)
        } else {
            (0, 0)
        };
        if width == 0 {
            None
        } else {
            match utf8_of_utf16(bytes.skip(width)) {
                None => None,
                Some(rest) => Some(utf8_char(number) + rest),
            }
        }
    }
}

fn push_char(output: &mut Vec<u8>, number: u32)
    requires
        number < 0x11_0000,
    ensures
        final(output)@ == old(output)@ + utf8_char(number as int),
{
    if number < 0x80 {
        output.push(number as u8);
    } else if number < 0x800 {
        output.push((0xC0 + number / 0x40) as u8);
        output.push((0x80 + number % 0x40) as u8);
    } else if number < 0x1_0000 {
        output.push((0xE0 + number / 0x1000) as u8);
        output.push((0x80 + number / 0x40 % 0x40) as u8);
        output.push((0x80 + number % 0x40) as u8);
    } else {
        output.push((0xF0 + number / 0x4_0000) as u8);
        output.push((0x80 + number / 0x1000 % 0x40) as u8);
        output.push((0x80 + number / 0x40 % 0x40) as u8);
        output.push((0x80 + number % 0x40) as u8);
    }
    proof {
        assert(output@ =~= old(output)@ + utf8_char(number as int));
    }
}

/// Converts little-endian UTF-16 to UTF-8.
pub fn utf16_to_utf8(bytes: &[u8]) -> (text: Option<Vec<u8>>)
    ensures
        match text {
            Some(text) => utf8_of_utf16(bytes@) == Some(text@),
            None => utf8_of_utf16(bytes@) is None,
        },
{
    let mut text: Vec<u8> = Vec::new();
    let mut at: usize = 0;
    proof {
        assert(bytes@.skip(0) =~= bytes@);
        if let Some(rest) = utf8_of_utf16(bytes@) {
            assert(text@ + rest =~= rest);
        }
    }
    while at < bytes.len()
        invariant
            at <= bytes@.len(),
            match utf8_of_utf16(bytes@.skip(at as int)) {
                Some(rest) => utf8_of_utf16(bytes@) == Some(text@ + rest),
                None => utf8_of_utf16(bytes@) is None,
            },
        decreases bytes@.len() - at,
    {
        let ghost left = bytes@.skip(at as int);
        let ghost before = text@;
        if bytes.len() - at == 1 {
            return None;
        }
        let unit: u32 = (bytes[at] as u32) + 256 * (bytes[at + 1] as u32);
        proof {
            assert(left[0] == bytes@[at as int] && left[1] == bytes@[at + 1]);
            assert(unit == le16(left, 0));
        }
        if unit < 0xD800 || unit >= 0xE000 {
            push_char(&mut text, unit);
            proof {
                assert(left.skip(2) =~= bytes@.skip(at + 2));
                if let Some(rest) = utf8_of_utf16(left.skip(2)) {
                    assert(before + (utf8_char(unit as int) + rest) =~= text@ + rest);
                }
            }
            at = at + 2;
        } else {
            if unit >= 0xDC00 || bytes.len() - at < 4 {
                return None;
            }
            let low: u32 = (bytes[at + 2] as u32) + 256 * (bytes[at + 3] as u32);
            proof {
                assert(left[2] == bytes@[at + 2] && left[3] == bytes@[at + 3]);
                assert(low == le16(left, 2));
            }
            if low < 0xDC00 || low >= 0xE000 {
                return None;
            }
            let number: u32 = 0x1_0000 + (unit - 0xD800) * 0x400 + (low - 0xDC00);
            push_char(&mut text, number);
            proof {
                assert(left.skip(4) =~= bytes@.skip(at + 4));
                if let Some(rest) = utf8_of_utf16(left.skip(4)) {
                    assert(before + (utf8_char(number as int) + rest) =~= text@ + rest);
                }
            }
            at = at + 4;
        }
    }
    proof {
        assert(text@ + Seq::<u8>::empty() =~= text@);
    }
    Some(text)
}

// ---------------------------------------------------------------------------
// Windows names
// ---------------------------------------------------------------------------

/// The canonical composition (NFC) of a text, as `unicode_normalization` makes
/// it.
pub uninterp spec fn composed(text: Seq<char>) -> Seq<char>;

/// The upper case of a character, as `char::to_uppercase` makes it.
pub uninterp spec fn raised(character: char) -> Seq<char>;

/// `unicode_normalization::UnicodeNormalization::nfc`. Claimed: the result
/// depends on the text alone.
#[verifier::external_body]
fn compose(text: &[char]) -> (result: Vec<char>)
    ensures
        result@ == composed(text@),
{
    unicode_normalization::UnicodeNormalization::nfc(text.iter().copied()).collect()
}

/// `char::to_uppercase`. Claimed: the result depends on the character alone.
#[verifier::external_body]
fn raise(character: char) -> (result: Vec<char>)
    ensures
        result@ == raised(character),
{
    character.to_uppercase().collect()
}

/// `std::str::from_utf8`. Claimed: it succeeds on valid UTF-8 only, and gives
/// the characters that the bytes encode.
#[verifier::external_body]
pub(crate) fn decode_text(raw: &[u8]) -> (text: Option<Vec<char>>)
    ensures
        text is Some <==> valid_utf8(raw@),
        text is Some ==> text->Some_0@ == decode_utf8(raw@),
{
    std::str::from_utf8(raw).ok().map(|text| text.chars().collect())
}

/// A character with an ASCII letter raised.
pub open spec fn ascii_raised(character: char) -> char {
    if 'a' <= character <= 'z' {
        (character as u32 - 0x20) as char
    } else {
        character
    }
}

/// Two texts are equal but for the case of ASCII letters.
pub open spec fn same_ignoring_case(left: Seq<char>, right: Seq<char>) -> bool {
    left.len() == right.len() && forall|i: int|
        0 <= i < left.len() ==> ascii_raised(#[trigger] left[i]) == ascii_raised(right[i])
}

fn same_letter(left: char, right: char) -> (same: bool)
    ensures
        same == (ascii_raised(left) == ascii_raised(right)),
{
    let l: u32 = left as u32;
    let r: u32 = right as u32;
    let raised_l: u32 = if 0x61 <= l && l <= 0x7a {
        l - 0x20
    } else {
        l
    };
    let raised_r: u32 = if 0x61 <= r && r <= 0x7a {
        r - 0x20
    } else {
        r
    };
    raised_l == raised_r
}

fn equals_ignoring_case(left: &[char], right: &[char]) -> (same: bool)
    ensures
        same == same_ignoring_case(left@, right@),
{
    if left.len() != right.len() {
        return false;
    }
    let mut i: usize = 0;
    while i < left.len()
        invariant
            left@.len() == right@.len(),
            i <= left@.len(),
            forall|j: int| 0 <= j < i ==> ascii_raised(#[trigger] left@[j]) == ascii_raised(right@[j]),
        decreases left@.len() - i,
    {
        if !same_letter(left[i], right[i]) {
            proof {
                assert(ascii_raised(left@[i as int]) != ascii_raised(right@[i as int]));
            }
            return false;
        }
        i += 1;
    }
    true
}

/// A dot or a space.
pub open spec fn is_blank(character: char) -> bool {
    character == '.' || character == ' '
}

/// A text without dots and spaces at its end.
pub open spec fn trimmed(text: Seq<char>) -> Seq<char>
    decreases text.len(),
{
    if text.len() > 0 && is_blank(text.last()) {
        trimmed(text.drop_last())
    } else {
        text
    }
}

/// A text up to its first dot.
pub open spec fn before_dot(text: Seq<char>) -> Seq<char>
    decreases text.len(),
{
    if text.len() == 0 || text[0] == '.' {
        Seq::empty()
    } else {
        seq![text[0]] + before_dot(text.skip(1))
    }
}

/// The device names that are reserved as they are.
pub open spec fn is_device(stem: Seq<char>) -> bool {
    ||| same_ignoring_case(stem, seq!['C', 'O', 'N'])
    ||| same_ignoring_case(stem, seq!['P', 'R', 'N'])
    ||| same_ignoring_case(stem, seq!['A', 'U', 'X'])
    ||| same_ignoring_case(stem, seq!['N', 'U', 'L'])
    ||| same_ignoring_case(stem, seq!['C', 'O', 'N', 'I', 'N', '$'])
    ||| same_ignoring_case(stem, seq!['C', 'O', 'N', 'O', 'U', 'T', '$'])
    ||| same_ignoring_case(stem, seq!['C', 'L', 'O', 'C', 'K', '$'])
}

/// A digit that numbers a device: 1 to 9, or one of the superscripts 1 to 3.
pub open spec fn is_device_digit(character: char) -> bool {
    ('1' <= character <= '9') || character == '\u{b9}' || character == '\u{b2}' || character
        == '\u{b3}'
}

/// The device names that are reserved with a number.
pub open spec fn is_numbered_device(stem: Seq<char>) -> bool {
    stem.len() == 4 && is_device_digit(stem[3]) && (same_ignoring_case(
        stem.take(3),
        seq!['C', 'O', 'M'],
    ) || same_ignoring_case(stem.take(3), seq!['L', 'P', 'T']))
}

/// Whether a component stands for a device, with or without an extension.
pub open spec fn reserved_name(part: Seq<char>) -> bool {
    let stem = trimmed(before_dot(part));
    is_device(stem) || is_numbered_device(stem)
}

fn stem_end(part: &[char]) -> (end: usize)
    ensures
        end <= part@.len(),
        part@.take(end as int) == trimmed(before_dot(part@)),
{
    let mut end: usize = 0;
    let ghost rest = before_dot(part@);
    proof {
        assert(part@.skip(0) =~= part@);
        assert(part@.take(0) + before_dot(part@) =~= before_dot(part@));
    }
    while end < part.len() && part[end] != '.'
        invariant
            end <= part@.len(),
            before_dot(part@) == part@.take(end as int) + before_dot(part@.skip(end as int)),
        decreases part@.len() - end,
    {
        proof {
            let left = part@.skip(end as int);
            assert(left[0] == part@[end as int]);
            assert(left.skip(1) =~= part@.skip(end + 1));
            assert(part@.take(end as int) + (seq![left[0]] + before_dot(left.skip(1)))
                =~= part@.take(end + 1) + before_dot(left.skip(1)));
        }
        end += 1;
    }
    proof {
        let left = part@.skip(end as int);
        assert(left.len() > 0 ==> left[0] == part@[end as int]);
        assert(before_dot(part@) =~= part@.take(end as int));
    }
    while end > 0 && (part[end - 1] == '.' || part[end - 1] == ' ')
        invariant
            end <= part@.len(),
            trimmed(before_dot(part@)) == trimmed(part@.take(end as int)),
        decreases end,
    {
        proof {
            assert(part@.take(end as int).last() == part@[end - 1]);
            assert(part@.take(end as int).drop_last() =~= part@.take(end - 1));
        }
        end -= 1;
    }
    proof {
        if end > 0 {
            assert(part@.take(end as int).last() == part@[end - 1]);
        }
    }
    end
}

/// Whether a component stands for a device.
pub fn is_reserved_device_name(part: &[char]) -> (reserved: bool)
    ensures
        reserved == reserved_name(part@),
{
    let end: usize = stem_end(part);
    let stem = &part[0..end];
    proof {
        assert(stem@ =~= part@.take(end as int));
    }
    let con: [char; 3] = ['C', 'O', 'N'];
    let prn: [char; 3] = ['P', 'R', 'N'];
    let aux: [char; 3] = ['A', 'U', 'X'];
    let nul: [char; 3] = ['N', 'U', 'L'];
    let conin: [char; 6] = ['C', 'O', 'N', 'I', 'N', '$'];
    let conout: [char; 7] = ['C', 'O', 'N', 'O', 'U', 'T', '$'];
    let clock: [char; 6] = ['C', 'L', 'O', 'C', 'K', '$'];
    let com: [char; 3] = ['C', 'O', 'M'];
    let lpt: [char; 3] = ['L', 'P', 'T'];
    proof {
        assert(con@ =~= seq!['C', 'O', 'N']);
        assert(prn@ =~= seq!['P', 'R', 'N']);
        assert(aux@ =~= seq!['A', 'U', 'X']);
        assert(nul@ =~= seq!['N', 'U', 'L']);
        assert(conin@ =~= seq!['C', 'O', 'N', 'I', 'N', '$']);
        assert(conout@ =~= seq!['C', 'O', 'N', 'O', 'U', 'T', '$']);
        assert(clock@ =~= seq!['C', 'L', 'O', 'C', 'K', '$']);
        assert(com@ =~= seq!['C', 'O', 'M']);
        assert(lpt@ =~= seq!['L', 'P', 'T']);
    }
    if equals_ignoring_case(stem, &con) || equals_ignoring_case(stem, &prn)
        || equals_ignoring_case(stem, &aux) || equals_ignoring_case(stem, &nul)
        || equals_ignoring_case(stem, &conin) || equals_ignoring_case(stem, &conout)
        || equals_ignoring_case(stem, &clock) {
        return true;
    }
    if stem.len() != 4 {
        return false;
    }
    let digit = stem[3];
    let numbered = ('1' <= digit && digit <= '9') || digit == '\u{b9}' || digit == '\u{b2}' || digit
        == '\u{b3}';
    let prefix = &stem[0..3];
    proof {
        assert(prefix@ =~= stem@.take(3));
    }
    numbered && (equals_ignoring_case(prefix, &com) || equals_ignoring_case(prefix, &lpt))
}

/// A character that Windows keeps out of names.
pub open spec fn is_forbidden(character: char) -> bool {
    ||| character as u32 <= 0x1f
    ||| character == '<'
    ||| character == '>'
    ||| character == '"'
    ||| character == ':'
    ||| character == '|'
    ||| character == '?'
    ||| character == '*'
}

/// Some character is kept out of names.
pub open spec fn has_forbidden(part: Seq<char>) -> bool {
    exists|i: int| 0 <= i < part.len() && is_forbidden(#[trigger] part[i])
}

/// The upper case of a text.
pub open spec fn all_raised(text: Seq<char>) -> Seq<char>
    decreases text.len(),
{
    if text.len() == 0 {
        Seq::empty()
    } else {
        all_raised(text.drop_last()) + raised(text.last())
    }
}

/// The identity of a component on Windows: its canonical upper case. `None` for
/// a name that Windows would take for another, or for a device.
pub open spec fn windows_identity(part: Seq<char>) -> Option<Seq<char>> {
    if part.len() == 0 || is_blank(part.last()) || has_forbidden(part) || reserved_name(part) {
        None
    } else {
        Some(composed(all_raised(composed(part))))
    }
}

fn forbidden(part: &[char]) -> (found: bool)
    ensures
        found == has_forbidden(part@),
{
    let mut i: usize = 0;
    while i < part.len()
        invariant
            i <= part@.len(),
            forall|j: int| 0 <= j < i ==> !is_forbidden(#[trigger] part@[j]),
        decreases part@.len() - i,
    {
        let c = part[i];
        if c as u32 <= 0x1f || c == '<' || c == '>' || c == '"' || c == ':' || c == '|' || c == '?'
            || c == '*' {
            proof {
                assert(is_forbidden(part@[i as int]));
            }
            return true;
        }
        i += 1;
    }
    false
}

fn raise_all(text: &[char]) -> (result: Vec<char>)
    ensures
        result@ == all_raised(text@),
{
    let mut result: Vec<char> = Vec::new();
    let mut i: usize = 0;
    proof {
        assert(text@.take(0) =~= Seq::<char>::empty());
        assert(result@ =~= Seq::<char>::empty());
    }
    while i < text.len()
        invariant
            i <= text@.len(),
            result@ == all_raised(text@.take(i as int)),
        decreases text@.len() - i,
    {
        let mut upper = raise(text[i]);
        let ghost before = result@;
        let ghost more = upper@;
        result.append(&mut upper);
        proof {
            assert(text@.take(i + 1).drop_last() =~= text@.take(i as int));
            assert(text@.take(i + 1).last() == text@[i as int]);
            assert(result@ =~= before + more);
        }
        i += 1;
    }
    proof {
        assert(text@.take(i as int) =~= text@);
    }
    result
}

/// The identity of a component that has passed the checks, given its canonical
/// composition: the canonical composition of its upper case.
fn fold(composed_part: &[char]) -> (identity: Vec<char>)
    ensures
        identity@ == composed(all_raised(composed_part@)),
{
    compose(raise_all(composed_part).as_slice())
}

/// The identity of a component on Windows.
pub fn windows_component_identity(part: &[char]) -> (identity: Option<Vec<char>>)
    ensures
        match identity {
            Some(identity) => windows_identity(part@) == Some(identity@),
            None => windows_identity(part@) is None,
        },
{
    if part.len() == 0 {
        return None;
    }
    let last = part[part.len() - 1];
    if last == '.' || last == ' ' || forbidden(part) || is_reserved_device_name(part) {
        return None;
    }
    Some(fold(compose(part).as_slice()))
}

/// A separator of path components on Windows.
pub open spec fn is_separator(character: char) -> bool {
    character == '/' || character == '\\'
}

/// Where the first separator stands; the length if there is none.
pub open spec fn first_separator(text: Seq<char>) -> nat
    decreases text.len(),
{
    if text.len() == 0 || is_separator(text[0]) {
        0
    } else {
        1 + first_separator(text.skip(1))
    }
}

/// The names that a Windows path is made of, and their identities; `None` if it
/// climbs out or a name is refused.
pub open spec fn windows_parts(text: Seq<char>) -> Option<Seq<(Seq<char>, Seq<char>)>>
    decreases text.len(),
{
    if text.len() == 0 {
        Some(Seq::empty())
    } else {
        let at = first_separator(text);
        let part = text.take(at as int);
        let rest = if at < text.len() {
            windows_parts(text.skip(at as int + 1))
        } else {
            Some(Seq::empty())
        };
        if part.len() == 0 || part == seq!['.'] {
            rest
        } else if part == seq!['.', '.'] {
            None
        } else {
            match windows_identity(part) {
                None => None,
                Some(identity) => match rest {
                    None => None,
                    Some(parts) => Some(seq![(part, identity)] + parts),
                },
            }
        }
    }
}

/// The safe relative path that a text stands for on Windows.
pub open spec fn safe_windows_path(text: Seq<char>) -> Option<Seq<(Seq<char>, Seq<char>)>> {
    if (text.len() > 0 && is_separator(text[0])) || text.contains('\0') {
        None
    } else {
        match windows_parts(text) {
            Some(parts) => if parts.len() == 0 {
                None
            } else {
                Some(parts)
            },
            None => None,
        }
    }
}

/// A safe relative path on Windows: the names and their identities.
#[derive(Debug)]
pub struct WindowsPath {
    pub parts: Vec<Vec<char>>,
    pub identity: Vec<Vec<char>>,
}

impl View for WindowsPath {
    type V = Seq<(Seq<char>, Seq<char>)>;

    open spec fn view(&self) -> Seq<(Seq<char>, Seq<char>)> {
        Seq::new(self.parts@.len(), |i: int| (self.parts@[i]@, self.identity@[i]@))
    }
}

fn copy_chars(text: &[char]) -> (copy: Vec<char>)
    ensures
        copy@ == text@,
{
    let mut copy: Vec<char> = Vec::new();
    let mut i: usize = 0;
    while i < text.len()
        invariant
            i <= text@.len(),
            copy@ =~= text@.take(i as int),
        decreases text@.len() - i,
    {
        copy.push(text[i]);
        i += 1;
    }
    proof {
        assert(text@.take(i as int) =~= text@);
    }
    copy
}

fn next_separator(text: &[char], start: usize) -> (end: usize)
    requires
        start <= text@.len(),
    ensures
        start <= end <= text@.len(),
        end - start == first_separator(text@.skip(start as int)),
{
    let mut end: usize = start;
    while end < text.len() && text[end] != '/' && text[end] != '\\'
        invariant
            start <= end <= text@.len(),
            first_separator(text@.skip(start as int)) == (end - start) + first_separator(
                text@.skip(end as int),
            ),
        decreases text@.len() - end,
    {
        proof {
            assert(text@.skip(end as int)[0] == text@[end as int]);
            assert(text@.skip(end as int).skip(1) =~= text@.skip(end + 1));
        }
        end += 1;
    }
    proof {
        if end < text@.len() {
            assert(text@.skip(end as int)[0] == text@[end as int]);
        }
    }
    end
}

/// One more part in front of those that follow.
spec fn with_part(
    parts: Seq<(Seq<char>, Seq<char>)>,
    rest: Option<Seq<(Seq<char>, Seq<char>)>>,
) -> Option<Seq<(Seq<char>, Seq<char>)>> {
    match rest {
        None => None,
        Some(more) => Some(parts + more),
    }
}

/// Turns a text into a safe relative path on Windows.
pub fn sanitize_text(text: &[char]) -> (path: Option<WindowsPath>)
    ensures
        match path {
            Some(path) => safe_windows_path(text@) == Some(path@) && path.parts@.len()
                == path.identity@.len(),
            None => safe_windows_path(text@) is None,
        },
{
    if text.len() > 0 && (text[0] == '/' || text[0] == '\\') {
        return None;
    }
    let mut i: usize = 0;
    while i < text.len()
        invariant
            i <= text@.len(),
            forall|j: int| 0 <= j < i ==> text@[j] != '\0',
        decreases text@.len() - i,
    {
        if text[i] == '\0' {
            proof {
                assert(text@.contains('\0'));
            }
            return None;
        }
        i += 1;
    }
    let mut path = WindowsPath { parts: Vec::new(), identity: Vec::new() };
    let mut start: usize = 0;
    proof {
        assert(!text@.contains('\0'));
        assert(text@.skip(0) =~= text@);
        if let Some(more) = windows_parts(text@) {
            assert(path@ + more =~= more);
        }
    }
    while start < text.len()
        invariant
            start <= text@.len(),
            path.parts@.len() == path.identity@.len(),
            windows_parts(text@) == with_part(path@, windows_parts(text@.skip(start as int))),
            safe_windows_path(text@) is Some ==> windows_parts(text@) is Some,
        decreases text@.len() - start,
    {
        let ghost left = text@.skip(start as int);
        let end: usize = next_separator(text, start);
        let part = &text[start..end];
        let ghost rest = if end < text@.len() {
            windows_parts(text@.skip(end + 1))
        } else {
            Some(Seq::empty())
        };
        proof {
            assert(part@ =~= left.take(end - start));
            assert(end < text@.len() ==> left.skip(end - start + 1) =~= text@.skip(end + 1));
            assert(windows_parts(left) == if part@.len() == 0 || part@ == seq!['.'] {
                rest
            } else if part@ == seq!['.', '.'] {
                None
            } else {
                match windows_identity(part@) {
                    None => None,
                    Some(identity) => with_part(seq![(part@, identity)], rest),
                }
            });
        }
        let single = part.len() == 1 && part[0] == '.';
        let double = part.len() == 2 && part[0] == '.' && part[1] == '.';
        proof {
            if single {
                assert(part@ =~= seq!['.']);
            }
            if double {
                assert(part@ =~= seq!['.', '.']);
            }
        }
        if double {
            return None;
        }
        if part.len() > 0 && !single {
            match windows_component_identity(part) {
                None => {
                    return None;
                },
                Some(identity) => {
                    let ghost before = path@;
                    path.parts.push(copy_chars(part));
                    path.identity.push(identity);
                    proof {
                        assert(path@ =~= before + seq![(part@, identity@)]);
                        if let Some(more) = rest {
                            assert(before + (seq![(part@, identity@)] + more) =~= path@ + more);
                        }
                    }
                },
            }
        }
        if end < text.len() {
            start = end + 1;
        } else {
            start = end;
            proof {
                assert(text@.skip(start as int) =~= Seq::<char>::empty());
            }
        }
    }
    proof {
        assert(text@.skip(start as int) =~= Seq::<char>::empty());
        assert(path@ + Seq::<(Seq<char>, Seq<char>)>::empty() =~= path@);
    }
    if path.parts.len() == 0 {
        return None;
    }
    Some(path)
}

/// Turns a raw path into a safe relative path on Windows.
pub fn sanitize_windows(raw: &[u8]) -> (path: Option<WindowsPath>)
    ensures
        match path {
            Some(path) => valid_utf8(raw@) && safe_windows_path(decode_utf8(raw@)) == Some(path@)
                && path.parts@.len() == path.identity@.len(),
            None => !valid_utf8(raw@) || safe_windows_path(decode_utf8(raw@)) is None,
        },
{
    match decode_text(raw) {
        Some(text) => sanitize_text(text.as_slice()),
        None => None,
    }
}

// ---------------------------------------------------------------------------
// Paths of a host
// ---------------------------------------------------------------------------

/// Which names a host takes for paths.
#[derive(Clone, Copy, Debug, PartialEq, Eq, Structural)]
pub enum PathRules {
    /// Names are bytes, and slashes separate them.
    Unix,
    /// Names are text; slashes and backslashes separate them, and devices, drives
    /// and streams have names of their own.
    Windows,
    /// Names are text; slashes and backslashes separate them.
    Text,
}

/// A text in UTF-8.
pub open spec fn utf8_text(text: Seq<char>) -> Seq<u8>
    decreases text.len(),
{
    if text.len() == 0 {
        Seq::empty()
    } else {
        utf8_text(text.drop_last()) + utf8_char(text.last() as int)
    }
}

/// The names of a Windows path in UTF-8.
pub open spec fn windows_names(parts: Seq<(Seq<char>, Seq<char>)>) -> Seq<Seq<u8>> {
    Seq::new(parts.len(), |i: int| utf8_text(parts[i].0))
}

/// What a raw path stands for on Windows. It must be text.
pub open spec fn windows_path(raw: Seq<u8>) -> Option<Seq<(Seq<char>, Seq<char>)>> {
    if valid_utf8(raw) {
        safe_windows_path(decode_utf8(raw))
    } else {
        None
    }
}

/// A raw path with slashes in place of backslashes.
pub open spec fn slashed(raw: Seq<u8>) -> Seq<u8> {
    raw.map_values(
        |byte: u8|
            if byte == 0x5c {
                SLASH
            } else {
                byte
            },
    )
}

fn to_slashes(raw: &[u8]) -> (bytes: Vec<u8>)
    ensures
        bytes@ == slashed(raw@),
{
    let mut bytes: Vec<u8> = Vec::new();
    let mut i: usize = 0;
    while i < raw.len()
        invariant
            i <= raw@.len(),
            bytes@ =~= slashed(raw@.take(i as int)),
        decreases raw@.len() - i,
    {
        let byte: u8 = raw[i];
        bytes.push(
            if byte == 0x5c {
                SLASH
            } else {
                byte
            },
        );
        i += 1;
    }
    proof {
        assert(raw@.take(i as int) =~= raw@);
    }
    bytes
}

/// What a raw path stands for where names are text and nothing but separators is
/// special.
pub open spec fn text_path(raw: Seq<u8>) -> Option<Seq<Seq<u8>>> {
    if valid_utf8(raw) {
        safe_path(slashed(raw))
    } else {
        None
    }
}

/// Turns a raw path into a safe relative path where names are text and nothing but
/// separators is special.
pub fn sanitize_plain_text(raw: &[u8]) -> (path: Option<SafePath>)
    ensures
        match path {
            Some(path) => text_path(raw@) == Some(path@),
            None => text_path(raw@) is None,
        },
{
    if decode_text(raw).is_none() {
        return None;
    }
    sanitize_unix(to_slashes(raw).as_slice())
}

/// The safe relative path that a raw path stands for on a host.
pub open spec fn safe_on(raw: Seq<u8>, rules: PathRules) -> Option<Seq<Seq<u8>>> {
    match rules {
        PathRules::Unix => safe_path(raw),
        PathRules::Windows => match windows_path(raw) {
            Some(parts) => Some(windows_names(parts)),
            None => None,
        },
        PathRules::Text => text_path(raw),
    }
}

proof fn lemma_char_range(character: char)
    ensures
        0 <= character as int,
        (character as int) < 0x11_0000,
        character as u32 == character as int,
{
}

fn encode_text(text: &[char]) -> (bytes: Vec<u8>)
    ensures
        bytes@ == utf8_text(text@),
{
    let mut bytes: Vec<u8> = Vec::new();
    let mut i: usize = 0;
    proof {
        assert(text@.take(0) =~= Seq::<char>::empty());
    }
    while i < text.len()
        invariant
            i <= text@.len(),
            bytes@ == utf8_text(text@.take(i as int)),
        decreases text@.len() - i,
    {
        proof {
            assert(text@.take(i + 1).drop_last() =~= text@.take(i as int));
        }
        let character: char = text[i];
        proof {
            lemma_char_range(character);
        }
        push_char(&mut bytes, character as u32);
        i += 1;
    }
    proof {
        assert(text@.take(i as int) =~= text@);
    }
    bytes
}

impl WindowsPath {
    /// The names in UTF-8.
    pub fn to_safe_path(&self) -> (path: SafePath)
        ensures
            path@ == windows_names(self@),
    {
        let mut parts: Vec<Vec<u8>> = Vec::new();
        let mut i: usize = 0;
        while i < self.parts.len()
            invariant
                i <= self.parts@.len(),
                parts@.len() == i,
                forall|j: int| 0 <= j < i ==> (#[trigger] parts@[j])@ == utf8_text(self@[j].0),
            decreases self.parts@.len() - i,
        {
            parts.push(encode_text(self.parts[i].as_slice()));
            i += 1;
        }
        let path = SafePath { parts };
        proof {
            assert(path@ =~= windows_names(self@));
        }
        path
    }
}

/// Turns a raw path into a safe relative path on a host. `None` if it is absolute,
/// climbs out, holds a zero byte or names nothing; where names are text also if it
/// is not text or begins with either separator, and on Windows if it names a drive,
/// a stream or a device.
pub fn sanitize(raw: &[u8], rules: PathRules) -> (path: Option<SafePath>)
    ensures
        match path {
            Some(path) => safe_on(raw@, rules) == Some(path@),
            None => safe_on(raw@, rules) is None,
        },
{
    match rules {
        PathRules::Unix => sanitize_unix(raw),
        PathRules::Windows => match sanitize_windows(raw) {
            Some(path) => Some(path.to_safe_path()),
            None => None,
        },
        PathRules::Text => sanitize_plain_text(raw),
    }
}

/// The bytes of an archive path, as those of a raw path.
pub open spec fn raw_path(path: ArchivePath) -> Option<Seq<u8>> {
    match path.encoding {
        PathEncoding::Bytes | PathEncoding::Utf8 => Some(path.bytes@),
        PathEncoding::Utf16Le => utf8_of_utf16(path.bytes@),
        PathEncoding::Other => None,
    }
}

/// The safe relative path that an archive path stands for on a host.
pub open spec fn safe_archive_path(path: ArchivePath, rules: PathRules) -> Option<Seq<Seq<u8>>> {
    match raw_path(path) {
        Some(raw) => safe_on(raw, rules),
        None => None,
    }
}

/// Turns an archive path into a safe relative path on a host.
pub fn sanitize_archive_path(path: &ArchivePath, rules: PathRules) -> (safe: Option<SafePath>)
    ensures
        match safe {
            Some(safe) => safe_archive_path(*path, rules) == Some(safe@),
            None => safe_archive_path(*path, rules) is None,
        },
{
    match path.encoding {
        PathEncoding::Bytes | PathEncoding::Utf8 => sanitize(path.bytes.as_slice(), rules),
        PathEncoding::Utf16Le => match utf16_to_utf8(path.bytes.as_slice()) {
            Some(text) => sanitize(text.as_slice(), rules),
            None => None,
        },
        PathEncoding::Other => None,
    }
}

/// A component that Windows takes for a name in its directory, and for no drive, no
/// stream and no more than one name.
pub open spec fn is_windows_normal(component: Seq<u8>) -> bool {
    is_normal(component) && !component.contains(0x5c) && !component.contains(0x3a)
}

/// A component that a host takes for a name in its directory.
pub open spec fn is_normal_on(component: Seq<u8>, rules: PathRules) -> bool {
    match rules {
        PathRules::Unix => is_normal(component),
        PathRules::Windows => is_windows_normal(component),
        PathRules::Text => is_normal(component) && !component.contains(0x5c),
    }
}

proof fn lemma_utf8_char(character: char)
    ensures
        utf8_char(character as int).len() > 0,
        forall|i: int|
            0 <= i < utf8_char(character as int).len() ==> (#[trigger] utf8_char(
                character as int,
            )[i] < 0x80 ==> utf8_char(character as int)[i] == character as int),
{
    let number = character as int;
    assert(0 <= number < 0x11_0000);
}

proof fn lemma_utf8_text(text: Seq<char>, byte: u8)
    requires
        byte < 0x80,
    ensures
        utf8_text(text).contains(byte) ==> exists|i: int|
            0 <= i < text.len() && #[trigger] text[i] as int == byte,
        utf8_text(text).len() >= text.len(),
    decreases text.len(),
{
    if text.len() > 0 {
        let front = text.drop_last();
        lemma_utf8_text(front, byte);
        lemma_utf8_char(text.last());
        let last = utf8_char(text.last() as int);
        if utf8_text(text).contains(byte) {
            let at = choose|at: int| 0 <= at < utf8_text(text).len() && utf8_text(text)[at] == byte;
            if at < utf8_text(front).len() {
                assert(utf8_text(front)[at] == byte);
                let i = choose|i: int| 0 <= i < front.len() && #[trigger] front[i] as int == byte;
                assert(text[i] as int == byte);
            } else {
                assert(last[at - utf8_text(front).len()] == byte);
                assert(text[text.len() - 1] as int == byte);
            }
        }
    }
}

proof fn lemma_windows_name(part: Seq<char>)
    requires
        part != seq!['.'],
        part != seq!['.', '.'],
        windows_identity(part) is Some,
        forall|i: int| 0 <= i < part.len() ==> !is_separator(#[trigger] part[i]),
    ensures
        is_windows_normal(utf8_text(part)),
{
    let bytes = utf8_text(part);
    lemma_utf8_text(part, SLASH);
    lemma_utf8_text(part, 0u8);
    lemma_utf8_text(part, 0x5cu8);
    lemma_utf8_text(part, 0x3au8);
    assert(!bytes.contains(SLASH)) by {
        if bytes.contains(SLASH) {
            let i = choose|i: int| 0 <= i < part.len() && #[trigger] part[i] as int == SLASH;
            assert(part[i] == '/');
        }
    }
    assert(!bytes.contains(0u8)) by {
        if bytes.contains(0u8) {
            let i = choose|i: int| 0 <= i < part.len() && #[trigger] part[i] as int == 0;
            assert(is_forbidden(part[i]));
        }
    }
    assert(!bytes.contains(0x5cu8)) by {
        if bytes.contains(0x5cu8) {
            let i = choose|i: int| 0 <= i < part.len() && #[trigger] part[i] as int == 0x5cu8;
            assert(part[i] == '\\');
        }
    }
    assert(!bytes.contains(0x3au8)) by {
        if bytes.contains(0x3au8) {
            let i = choose|i: int| 0 <= i < part.len() && #[trigger] part[i] as int == 0x3au8;
            assert(part[i] == ':');
            assert(is_forbidden(part[i]));
        }
    }
    // A name ends with no dot.
    let front = utf8_text(part.drop_last());
    let last = utf8_char(part.last() as int);
    assert(bytes == front + last);
    assert(bytes.last() == last.last());
    assert(part.last() != '.');
    lemma_utf8_char(part.last());
    assert(last[last.len() - 1] != 0x2e);
}

proof fn lemma_first_separator(text: Seq<char>)
    ensures
        first_separator(text) <= text.len(),
        forall|i: int| 0 <= i < first_separator(text) ==> !is_separator(#[trigger] text[i]),
    decreases text.len(),
{
    if text.len() > 0 && !is_separator(text[0]) {
        lemma_first_separator(text.skip(1));
        assert forall|i: int| 0 <= i < first_separator(text) implies !is_separator(
            #[trigger] text[i],
        ) by {
            if i > 0 {
                assert(text.skip(1)[i - 1] == text[i]);
            }
        }
    }
}

proof fn lemma_windows_parts(text: Seq<char>)
    ensures
        windows_parts(text) matches Some(parts) ==> forall|i: int|
            0 <= i < parts.len() ==> is_windows_normal(utf8_text((#[trigger] parts[i]).0)),
    decreases text.len(),
{
    if text.len() > 0 {
        lemma_first_separator(text);
        let at = first_separator(text);
        let part = text.take(at as int);
        let rest = if at < text.len() {
            windows_parts(text.skip(at as int + 1))
        } else {
            Some(Seq::empty())
        };
        if at < text.len() {
            lemma_windows_parts(text.skip(at as int + 1));
        }
        if let Some(parts) = windows_parts(text) {
            if !(part.len() == 0 || part == seq!['.']) {
                assert forall|i: int| 0 <= i < part.len() implies !is_separator(
                    #[trigger] part[i],
                ) by {
                    assert(part[i] == text[i]);
                }
                lemma_windows_name(part);
                let others = rest->0;
                assert forall|i: int| 0 <= i < parts.len() implies is_windows_normal(
                    utf8_text((#[trigger] parts[i]).0),
                ) by {
                    if i > 0 {
                        assert(parts[i] == others[i - 1]);
                    }
                }
            }
        }
    }
}

/// Every component of a safe path names something in its directory on the host, and
/// there is at least one: the path is relative and stays inside.
pub proof fn law_safe_paths_stay_inside(raw: Seq<u8>, rules: PathRules)
    ensures
        safe_on(raw, rules) matches Some(parts) ==> parts.len() > 0 && forall|i: int|
            0 <= i < parts.len() ==> is_normal_on(#[trigger] parts[i], rules),
{
    match rules {
        PathRules::Unix => {
            lemma_unix_paths_stay_inside(raw);
        },
        PathRules::Windows => {
            if let Some(parts) = windows_path(raw) {
                lemma_windows_parts(decode_utf8(raw));
                assert forall|i: int| 0 <= i < parts.len() implies is_windows_normal(
                    #[trigger] windows_names(parts)[i],
                ) by {
                    assert(windows_names(parts)[i] == utf8_text(parts[i].0));
                }
            }
        },
        PathRules::Text => {
            if let Some(parts) = text_path(raw) {
                let text = slashed(raw);
                let all = components(text);
                lemma_unix_paths_stay_inside(text);
                lemma_named_components(all);
                assert(!text.contains(0x5c));
                lemma_pieces_come_from_the_text(text, SLASH, 0x5c);
                assert forall|i: int| 0 <= i < parts.len() implies !(
                #[trigger] parts[i]).contains(0x5c) by {
                    assert(all.contains(parts[i]));
                    let k = choose|k: int| 0 <= k < all.len() && all[k] == parts[i];
                    assert(!all[k].contains(0x5c));
                }
            }
        },
    }
}

// ---------------------------------------------------------------------------
// Destinations
// ---------------------------------------------------------------------------

/// What the host resolves a destination by: one number string per component.
pub type Identity = Seq<Seq<u32>>;

/// The number strings in a list.
pub open spec fn numbers(list: Seq<Vec<u32>>) -> Identity {
    list.map_values(|text: Vec<u32>| text@)
}

/// The bytes of components as numbers.
pub open spec fn byte_identity(parts: Seq<Seq<u8>>) -> Identity {
    parts.map_values(|part: Seq<u8>| part.map_values(|byte: u8| byte as u32))
}

/// The characters of components as numbers.
pub open spec fn char_identity(parts: Seq<(Seq<char>, Seq<char>)>) -> Identity {
    parts.map_values(
        |part: (Seq<char>, Seq<char>)| part.1.map_values(|character: char| character as u32),
    )
}

/// What a host resolves an archive path by: Windows goes by the canonical upper
/// case of names, other hosts keep their bytes apart.
pub open spec fn archive_identity(path: ArchivePath, rules: PathRules) -> Option<Identity> {
    match (raw_path(path), rules) {
        (Some(raw), PathRules::Unix | PathRules::Text) => match safe_on(raw, rules) {
            Some(parts) => Some(byte_identity(parts)),
            None => None,
        },
        (Some(raw), PathRules::Windows) => match windows_path(raw) {
            Some(parts) => Some(char_identity(parts)),
            None => None,
        },
        _ => None,
    }
}

/// A destination, by what the host resolves it by.
#[derive(Clone, Debug)]
pub struct DestinationKey {
    pub identity: Vec<Vec<u32>>,
}

impl View for DestinationKey {
    type V = Identity;

    open spec fn view(&self) -> Identity {
        numbers(self.identity@)
    }
}

fn byte_numbers(part: &[u8]) -> (result: Vec<u32>)
    ensures
        result@ == part@.map_values(|byte: u8| byte as u32),
{
    let mut result: Vec<u32> = Vec::new();
    let mut i: usize = 0;
    while i < part.len()
        invariant
            i <= part@.len(),
            result@ =~= part@.take(i as int).map_values(|byte: u8| byte as u32),
        decreases part@.len() - i,
    {
        result.push(part[i] as u32);
        i += 1;
    }
    proof {
        assert(part@.take(i as int) =~= part@);
    }
    result
}

fn char_numbers(part: &[char]) -> (result: Vec<u32>)
    ensures
        result@ == part@.map_values(|character: char| character as u32),
{
    let mut result: Vec<u32> = Vec::new();
    let mut i: usize = 0;
    while i < part.len()
        invariant
            i <= part@.len(),
            result@ =~= part@.take(i as int).map_values(|character: char| character as u32),
        decreases part@.len() - i,
    {
        result.push(part[i] as u32);
        i += 1;
    }
    proof {
        assert(part@.take(i as int) =~= part@);
    }
    result
}

fn same_numbers(left: &[u32], right: &[u32]) -> (same: bool)
    ensures
        same == (left@ == right@),
{
    if left.len() != right.len() {
        return false;
    }
    let mut i: usize = 0;
    while i < left.len()
        invariant
            left@.len() == right@.len(),
            i <= left@.len(),
            forall|j: int| 0 <= j < i ==> left@[j] == right@[j],
        decreases left@.len() - i,
    {
        if left[i] != right[i] {
            return false;
        }
        i += 1;
    }
    proof {
        assert(left@ =~= right@);
    }
    true
}

impl DestinationKey {
    /// The destination of a path whose bytes the host keeps apart.
    pub fn of_path(path: &SafePath) -> (key: Self)
        ensures
            key@ == byte_identity(path@),
    {
        let mut identity: Vec<Vec<u32>> = Vec::new();
        let mut i: usize = 0;
        while i < path.parts.len()
            invariant
                i <= path.parts@.len(),
                numbers(identity@) =~= byte_identity(path@.take(i as int)),
                identity@.len() == i,
            decreases path.parts@.len() - i,
        {
            let ghost before = identity@;
            identity.push(byte_numbers(path.parts[i].as_slice()));
            proof {
                let part = path@[i as int];
                assert(path@.take(i + 1) =~= path@.take(i as int).push(part));
                assert(numbers(identity@) =~= numbers(before).push(
                    part.map_values(|byte: u8| byte as u32),
                ));
                assert(byte_identity(path@.take(i + 1)) =~= byte_identity(
                    path@.take(i as int),
                ).push(part.map_values(|byte: u8| byte as u32)));
            }
            i += 1;
        }
        proof {
            assert(path@.take(i as int) =~= path@);
        }
        DestinationKey { identity }
    }

    /// The destination of a path on Windows.
    pub fn of_windows_path(path: &WindowsPath) -> (key: Self)
        requires
            path.parts@.len() == path.identity@.len(),
        ensures
            key@ == char_identity(path@),
    {
        let mut identity: Vec<Vec<u32>> = Vec::new();
        let mut i: usize = 0;
        while i < path.identity.len()
            invariant
                path.parts@.len() == path.identity@.len(),
                i <= path.identity@.len(),
                numbers(identity@) =~= char_identity(path@.take(i as int)),
                identity@.len() == i,
            decreases path.identity@.len() - i,
        {
            let ghost before = identity@;
            identity.push(char_numbers(path.identity[i].as_slice()));
            proof {
                let part = path@[i as int];
                assert(path@.take(i + 1) =~= path@.take(i as int).push(part));
                assert(numbers(identity@) =~= numbers(before).push(
                    part.1.map_values(|character: char| character as u32),
                ));
                assert(char_identity(path@.take(i + 1)) =~= char_identity(
                    path@.take(i as int),
                ).push(part.1.map_values(|character: char| character as u32)));
            }
            i += 1;
        }
        proof {
            assert(path@.take(i as int) =~= path@);
        }
        DestinationKey { identity }
    }

    /// The destination of an archive path on a host.
    pub fn from_archive_path(path: &ArchivePath, rules: PathRules) -> (key: Option<Self>)
        ensures
            match key {
                Some(key) => archive_identity(*path, rules) == Some(key@),
                None => archive_identity(*path, rules) is None,
            },
            key is Some <==> safe_archive_path(*path, rules) is Some,
    {
        match rules {
            PathRules::Unix | PathRules::Text => match sanitize_archive_path(path, rules) {
                Some(safe) => Some(DestinationKey::of_path(&safe)),
                None => None,
            },
            PathRules::Windows => {
                let found = match path.encoding {
                    PathEncoding::Bytes | PathEncoding::Utf8 => sanitize_windows(
                        path.bytes.as_slice(),
                    ),
                    PathEncoding::Utf16Le => match utf16_to_utf8(path.bytes.as_slice()) {
                        Some(text) => sanitize_windows(text.as_slice()),
                        None => None,
                    },
                    PathEncoding::Other => None,
                };
                match found {
                    Some(safe) => Some(DestinationKey::of_windows_path(&safe)),
                    None => None,
                }
            },
        }
    }

    /// Whether two destinations are the same to the host.
    pub fn same(&self, other: &DestinationKey) -> (same: bool)
        ensures
            same == (self@ == other@),
    {
        proof {
            assert(other@.take(other.identity@.len() as int) =~= other@);
        }
        same_prefix(&self.identity, &other.identity, other.identity.len())
    }
}

/// Whether `left` is the first `count` components of `right`.
fn same_prefix(left: &Vec<Vec<u32>>, right: &Vec<Vec<u32>>, count: usize) -> (same: bool)
    requires
        count <= right@.len(),
    ensures
        same == (numbers(left@) == numbers(right@).take(count as int)),
{
    if left.len() != count {
        proof {
            assert(numbers(left@).len() != numbers(right@).take(count as int).len());
        }
        return false;
    }
    let mut i: usize = 0;
    while i < count
        invariant
            count <= right@.len(),
            left@.len() == count,
            i <= count,
            forall|j: int| 0 <= j < i ==> left@[j]@ == right@[j]@,
        decreases count - i,
    {
        if !same_numbers(left[i].as_slice(), right[i].as_slice()) {
            proof {
                assert(numbers(left@)[i as int] != numbers(right@).take(count as int)[i as int]);
            }
            return false;
        }
        i += 1;
    }
    proof {
        assert(numbers(left@) =~= numbers(right@).take(count as int));
    }
    true
}

/// `above` is an ancestor of `below`.
pub open spec fn is_ancestor(above: Identity, below: Identity) -> bool {
    0 < above.len() < below.len() && above == below.take(above.len() as int)
}

/// The mathematical content of [`DestinationClaims`].
#[verifier::ext_equal]
pub struct ClaimsView {
    /// All destinations claimed.
    pub claimed: Set<Identity>,
    /// Directories that are there because something was claimed in them.
    pub directory_prefixes: Set<Identity>,
    /// The destinations claimed for something other than a directory.
    pub non_directories: Set<Identity>,
}

impl ClaimsView {
    /// Whether a destination can be claimed: it is not claimed yet, no ancestor
    /// of it is anything but a directory, and it takes no directory's place.
    pub open spec fn allows(self, destination: Identity, directory: bool) -> bool {
        &&& !self.claimed.contains(destination)
        &&& forall|above: Identity|
            is_ancestor(above, destination) ==> !#[trigger] self.non_directories.contains(above)
        &&& directory || !self.directory_prefixes.contains(destination)
    }

    /// The claims with one more.
    pub open spec fn with(self, destination: Identity, directory: bool) -> ClaimsView {
        ClaimsView {
            claimed: self.claimed.insert(destination),
            directory_prefixes: self.directory_prefixes.union(
                Set::new(|above: Identity| is_ancestor(above, destination)),
            ),
            non_directories: if directory {
                self.non_directories
            } else {
                self.non_directories.insert(destination)
            },
        }
    }

    /// Nothing but directories has anything below it.
    pub open spec fn is_consistent(self) -> bool {
        &&& forall|below: Identity, above: Identity|
            #[trigger] self.claimed.contains(below) && is_ancestor(above, below)
                ==> !#[trigger] self.non_directories.contains(above)
        &&& forall|below: Identity, above: Identity|
            self.claimed.contains(below) && #[trigger] is_ancestor(above, below)
                ==> self.directory_prefixes.contains(above)
        &&& self.non_directories.subset_of(self.claimed)
    }
}

/// Claims that are allowed one by one never place anything below something
/// that is not a directory.
pub proof fn law_claims_stay_consistent(claims: ClaimsView, destination: Identity, directory: bool)
    requires
        claims.is_consistent(),
        claims.allows(destination, directory),
    ensures
        claims.with(destination, directory).is_consistent(),
{
    let next = claims.with(destination, directory);
    assert forall|below: Identity, above: Identity|
        #[trigger] next.claimed.contains(below) && is_ancestor(above, below) implies !#[trigger]
    next.non_directories.contains(above) by {
        if below == destination {
            if above == destination {
                assert(above.len() < below.len());
            } else {
                assert(!claims.non_directories.contains(above));
            }
        } else {
            assert(claims.claimed.contains(below));
            assert(!claims.non_directories.contains(above));
            if above == destination && !directory {
                assert(claims.directory_prefixes.contains(above));
            }
        }
    }
}

/// The identities in a list.
pub open spec fn listed_identities(list: Seq<DestinationKey>) -> Set<Identity> {
    Set::new(|identity: Identity| exists|i: int| 0 <= i < list.len() && #[trigger] list[i]@ == identity)
}

/// Every ancestor of a listed destination.
pub open spec fn listed_ancestors(list: Seq<DestinationKey>) -> Set<Identity> {
    Set::new(
        |above: Identity|
            exists|i: int| 0 <= i < list.len() && is_ancestor(above, #[trigger] list[i]@),
    )
}

/// Destinations that were claimed. A claimed destination makes directories of
/// all its ancestors.
#[derive(Debug)]
pub struct DestinationClaims {
    pub claimed: Vec<DestinationKey>,
    pub non_directories: Vec<DestinationKey>,
}

impl View for DestinationClaims {
    type V = ClaimsView;

    open spec fn view(&self) -> ClaimsView {
        ClaimsView {
            claimed: listed_identities(self.claimed@),
            directory_prefixes: listed_ancestors(self.claimed@),
            non_directories: listed_identities(self.non_directories@),
        }
    }
}

fn copy_key(key: &DestinationKey) -> (copy: DestinationKey)
    ensures
        copy@ == key@,
{
    let mut identity: Vec<Vec<u32>> = Vec::new();
    let mut i: usize = 0;
    while i < key.identity.len()
        invariant
            i <= key.identity@.len(),
            identity@.len() == i,
            forall|j: int| 0 <= j < i ==> (#[trigger] identity@[j])@ == key.identity@[j]@,
        decreases key.identity@.len() - i,
    {
        let part = &key.identity[i];
        let mut text: Vec<u32> = Vec::new();
        let mut k: usize = 0;
        while k < part.len()
            invariant
                k <= part@.len(),
                text@ =~= part@.take(k as int),
            decreases part@.len() - k,
        {
            text.push(part[k]);
            k += 1;
        }
        proof {
            assert(part@.take(k as int) =~= part@);
        }
        identity.push(text);
        i += 1;
    }
    let copy = DestinationKey { identity };
    proof {
        assert(copy@ =~= key@);
    }
    copy
}

fn holds(list: &Vec<DestinationKey>, key: &DestinationKey) -> (found: bool)
    ensures
        found == listed_identities(list@).contains(key@),
{
    let mut i: usize = 0;
    while i < list.len()
        invariant
            i <= list@.len(),
            forall|j: int| 0 <= j < i ==> (#[trigger] list@[j])@ != key@,
        decreases list@.len() - i,
    {
        if list[i].same(key) {
            proof {
                assert(list@[i as int]@ == key@);
            }
            return true;
        }
        i += 1;
    }
    false
}

fn ancestor(above: &DestinationKey, below: &DestinationKey) -> (found: bool)
    ensures
        found == is_ancestor(above@, below@),
{
    let count: usize = above.identity.len();
    if count == 0 || count >= below.identity.len() {
        return false;
    }
    same_prefix(&above.identity, &below.identity, count)
}

impl DestinationClaims {
    /// Nothing is claimed.
    pub fn new() -> (claims: Self)
        ensures
            claims@ == (ClaimsView {
                claimed: Set::empty(),
                directory_prefixes: Set::empty(),
                non_directories: Set::empty(),
            }),
            claims@.is_consistent(),
    {
        let claims = DestinationClaims { claimed: Vec::new(), non_directories: Vec::new() };
        proof {
            assert(claims@.claimed =~= Set::<Identity>::empty());
            assert(claims@.directory_prefixes =~= Set::<Identity>::empty());
            assert(claims@.non_directories =~= Set::<Identity>::empty());
        }
        claims
    }

    fn allowed(&self, destination: &DestinationKey, directory: bool) -> (allowed: bool)
        ensures
            allowed == self@.allows(destination@, directory),
    {
        if holds(&self.claimed, destination) {
            return false;
        }
        let mut i: usize = 0;
        while i < self.non_directories.len()
            invariant
                i <= self.non_directories@.len(),
                forall|j: int|
                    0 <= j < i ==> !is_ancestor(
                        (#[trigger] self.non_directories@[j])@,
                        destination@,
                    ),
            decreases self.non_directories@.len() - i,
        {
            if ancestor(&self.non_directories[i], destination) {
                proof {
                    let above = self.non_directories@[i as int]@;
                    assert(self@.non_directories.contains(above));
                }
                return false;
            }
            i += 1;
        }
        if directory {
            return true;
        }
        let mut k: usize = 0;
        while k < self.claimed.len()
            invariant
                !directory,
                k <= self.claimed@.len(),
                forall|j: int|
                    0 <= j < k ==> !is_ancestor(destination@, (#[trigger] self.claimed@[j])@),
            decreases self.claimed@.len() - k,
        {
            if ancestor(destination, &self.claimed[k]) {
                proof {
                    assert(is_ancestor(destination@, self.claimed@[k as int]@));
                    assert(self@.directory_prefixes.contains(destination@));
                }
                return false;
            }
            k += 1;
        }
        true
    }

    /// Claims a destination, unless that conflicts with an earlier claim.
    pub fn claim(&mut self, destination: &DestinationKey, kind: EntryKind) -> (claimed: bool)
        ensures
            claimed == old(self)@.allows(destination@, kind == EntryKind::Dir),
            final(self)@ == if claimed {
                old(self)@.with(destination@, kind == EntryKind::Dir)
            } else {
                old(self)@
            },
            old(self)@.is_consistent() ==> final(self)@.is_consistent(),
    {
        let directory = kind == EntryKind::Dir;
        if !self.allowed(destination, directory) {
            return false;
        }
        let ghost before = *self;
        self.claimed.push(copy_key(destination));
        if !directory {
            self.non_directories.push(copy_key(destination));
        }
        proof {
            let next = before@.with(destination@, directory);
            assert(self.claimed@.drop_last() =~= before.claimed@);
            lemma_listed_push(before.claimed@, self.claimed@, destination@);
            assert(self@.claimed =~= next.claimed);
            assert(self@.directory_prefixes =~= next.directory_prefixes);
            if !directory {
                assert(self.non_directories@.drop_last() =~= before.non_directories@);
                lemma_listed_push(
                    before.non_directories@,
                    self.non_directories@,
                    destination@,
                );
            }
            assert(self@.non_directories =~= next.non_directories);
            if before@.is_consistent() {
                law_claims_stay_consistent(before@, destination@, directory);
            }
        }
        true
    }
}

proof fn lemma_listed_push(
    before: Seq<DestinationKey>,
    after: Seq<DestinationKey>,
    destination: Identity,
)
    requires
        after.len() == before.len() + 1,
        after.drop_last() == before,
        after.last()@ == destination,
    ensures
        listed_identities(after) =~= listed_identities(before).insert(destination),
        listed_ancestors(after) =~= listed_ancestors(before).union(
            Set::new(|above: Identity| is_ancestor(above, destination)),
        ),
{
    assert forall|identity: Identity| #[trigger]
        listed_identities(before).insert(destination).contains(identity) implies listed_identities(
        after,
    ).contains(identity) by {
        if identity == destination {
            assert(after[after.len() - 1]@ == identity);
        } else {
            let i = choose|i: int| 0 <= i < before.len() && #[trigger] before[i]@ == identity;
            assert(after.drop_last()[i] == after[i]);
            assert(after[i]@ == identity);
        }
    }
    assert forall|identity: Identity| #[trigger]
        listed_identities(after).contains(identity) implies listed_identities(before).insert(
        destination,
    ).contains(identity) by {
        let i = choose|i: int| 0 <= i < after.len() && #[trigger] after[i]@ == identity;
        if i < before.len() {
            assert(after.drop_last()[i] == after[i]);
            assert(before[i]@ == identity);
        }
    }
    let union = listed_ancestors(before).union(
        Set::new(|above: Identity| is_ancestor(above, destination)),
    );
    assert forall|above: Identity| #[trigger] union.contains(above) implies listed_ancestors(
        after,
    ).contains(above) by {
        if is_ancestor(above, destination) {
            assert(is_ancestor(above, after[after.len() - 1]@));
        } else {
            let i = choose|i: int|
                0 <= i < before.len() && is_ancestor(above, #[trigger] before[i]@);
            assert(after.drop_last()[i] == after[i]);
            assert(is_ancestor(above, after[i]@));
        }
    }
    assert forall|above: Identity| #[trigger]
        listed_ancestors(after).contains(above) implies union.contains(above) by {
        let i = choose|i: int| 0 <= i < after.len() && is_ancestor(above, #[trigger] after[i]@);
        if i < before.len() {
            assert(after.drop_last()[i] == after[i]);
            assert(is_ancestor(above, before[i]@));
        }
    }
}

} // verus!
