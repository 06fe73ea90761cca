//! Laws on paths: how their encodings come back, and which spellings do not count.

use vstd::prelude::*;
use vstd::utf8::{encode_scalar, encode_utf8};
use crate::bytes::le16;
use crate::entry::ArchivePath;
use crate::layout::{law_low2_is_read, low2};
use crate::parts::{components, first_index, lemma_first_index, lemma_first_index_is, SLASH};
use crate::path::{
    is_ancestor, is_dot, is_normal, named_components, raw_path, safe_path, slash_joined, utf8_char,
    utf8_of_utf16, utf8_text, windows_identity, ClaimsView, Identity,
};
use crate::utf8::{head, lossy_text, lossy_utf16};

verus! {

// ---------------------------------------------------------------------------
// Encodings
// ---------------------------------------------------------------------------

proof fn lemma_scalar_form(character: char)
    ensures
        encode_scalar(character as u32) == utf8_char(character as int),
{
    let c = character as u32;
    assert(c <= 0x10_ffff);
    if c < 0x80 {
        assert((c & 0x7f) as u8 == c as u8) by (bit_vector)
            requires
                c < 0x80,
        ;
    } else if c < 0x800 {
        assert(0xC0u8 | ((c >> 6) & 0x1F) as u8 == (0xC0 + c / 0x40) as u8 && 0x80u8 | (c
            & 0x3F) as u8 == (0x80 + c % 0x40) as u8) by (bit_vector)
            requires
                c < 0x800,
        ;
    } else if c < 0x1_0000 {
        assert(0xE0u8 | ((c >> 12) & 0x0F) as u8 == (0xE0 + c / 0x1000) as u8 && 0x80u8 | ((c >> 6)
            & 0x3F) as u8 == (0x80 + c / 0x40 % 0x40) as u8 && 0x80u8 | (c & 0x3F) as u8 == (0x80
            + c % 0x40) as u8) by (bit_vector)
            requires
                c < 0x1_0000,
        ;
    } else {
        assert(0xF0u8 | ((c >> 18) & 0x7) as u8 == (0xF0 + c / 0x4_0000) as u8 && 0x80u8 | ((c
            >> 12) & 0x3F) as u8 == (0x80 + c / 0x1000 % 0x40) as u8 && 0x80u8 | ((c >> 6)
            & 0x3F) as u8 == (0x80 + c / 0x40 % 0x40) as u8 && 0x80u8 | (c & 0x3F) as u8 == (0x80
            + c % 0x40) as u8) by (bit_vector)
            requires
                c < 0x11_0000,
        ;
    }
}

proof fn lemma_text_front(text: Seq<char>)
    requires
        text.len() > 0,
    ensures
        utf8_text(text) == utf8_char(text[0] as int) + utf8_text(text.drop_first()),
    decreases text.len(),
{
    if text.len() == 1 {
        assert(text.drop_last() =~= Seq::<char>::empty());
        assert(text.drop_first() =~= Seq::<char>::empty());
        assert(utf8_text(text) =~= utf8_char(text[0] as int) + utf8_text(text.drop_first()));
    } else {
        lemma_text_front(text.drop_last());
        assert(text.drop_last().drop_first() =~= text.drop_first().drop_last());
        assert(utf8_text(text) =~= utf8_char(text[0] as int) + utf8_text(text.drop_first()));
    }
}

/// A name that was taken apart into characters is put together in UTF-8.
pub proof fn law_names_are_put_together(text: Seq<char>)
    ensures
        utf8_text(text) == encode_utf8(text),
    decreases text.len(),
{
    if text.len() > 0 {
        lemma_text_front(text);
        lemma_scalar_form(text[0]);
        law_names_are_put_together(text.drop_first());
    }
}

/// The UTF-16 units of a character, the lowest byte of each first: one unit, or two
/// that carry ten bits each of what is above 0x10000.
pub open spec fn written_units(character: char) -> Seq<u8> {
    let number = character as int;
    if number < 0x1_0000 {
        low2(number as u16)
    } else {
        low2((0xd800 + (number - 0x1_0000) / 1024) as u16) + low2(
            (0xdc00 + (number - 0x1_0000) % 1024) as u16,
        )
    }
}

/// A text in UTF-16.
pub open spec fn written_utf16(text: Seq<char>) -> Seq<u8>
    decreases text.len(),
{
    if text.len() == 0 {
        Seq::empty()
    } else {
        written_units(text[0]) + written_utf16(text.drop_first())
    }
}

proof fn lemma_units_are_read(character: char, rest: Seq<u8>)
    ensures
        utf8_of_utf16(written_units(character) + rest) == match utf8_of_utf16(rest) {
            Some(text) => Some(utf8_char(character as int) + text),
            None => None,
        },
{
    let number = character as int;
    let all = written_units(character) + rest;
    assert(number < 0xd800 || 0xe000 <= number < 0x11_0000);
    if number < 0x1_0000 {
        assert(all.subrange(0, 2) =~= low2(number as u16));
        law_low2_is_read(all, 0, number as u16);
        assert(all.skip(2) =~= rest);
    } else {
        let high = (0xd800 + (number - 0x1_0000) / 1024) as u16;
        let low = (0xdc00 + (number - 0x1_0000) % 1024) as u16;
        assert(all.subrange(0, 2) =~= low2(high));
        assert(all.subrange(2, 4) =~= low2(low));
        law_low2_is_read(all, 0, high);
        law_low2_is_read(all, 2, low);
        assert(all.skip(4) =~= rest);
        assert(le16(all, 0) == high && le16(all, 2) == low);
        assert(0x1_0000 + (high - 0xd800) * 0x400 + (low - 0xdc00) == number);
    }
}

/// A path that is stored in UTF-16 stands for the same text in UTF-8, characters of
/// two units too.
pub proof fn law_utf16_paths_are_read(text: Seq<char>)
    ensures
        utf8_of_utf16(written_utf16(text)) == Some(encode_utf8(text)),
    decreases text.len(),
{
    if text.len() > 0 {
        let rest = text.drop_first();
        law_utf16_paths_are_read(rest);
        lemma_units_are_read(text[0], written_utf16(rest));
        lemma_scalar_form(text[0]);
    }
}

/// A unit that stands alone but belongs to a pair makes the whole path unusable, and
/// so does an odd byte.
pub proof fn law_lone_units_are_refused(unit: u16, next: u16, rest: Seq<u8>, byte: u8)
    requires
        0xd800 <= unit < 0xe000,
        unit >= 0xdc00 || !(0xdc00 <= next < 0xe000),
    ensures
        utf8_of_utf16(low2(unit) + low2(next) + rest) is None,
        utf8_of_utf16(low2(unit)) is None,
        utf8_of_utf16(seq![byte]) is None,
{
    let all = low2(unit) + low2(next) + rest;
    assert(all.subrange(0, 2) =~= low2(unit));
    assert(all.subrange(2, 4) =~= low2(next));
    law_low2_is_read(all, 0, unit);
    law_low2_is_read(all, 2, next);
    assert(low2(unit).subrange(0, 2) =~= low2(unit));
    law_low2_is_read(low2(unit), 0, unit);
}

/// The bytes of a path are those of the raw path unless they are UTF-16.
pub proof fn law_other_encodings_are_kept(path: ArchivePath)
    ensures
        path.encoding is Bytes || path.encoding is Utf8 ==> raw_path(path) == Some(path.bytes@),
        path.encoding is Utf16Le ==> forall|text: Seq<char>|
            path.bytes@ == #[trigger] written_utf16(text) ==> raw_path(path) == Some(
                encode_utf8(text),
            ),
{
    assert forall|text: Seq<char>|
        path.encoding is Utf16Le && path.bytes@ == #[trigger] written_utf16(
            text,
        ) implies raw_path(path) == Some(encode_utf8(text)) by {
        law_utf16_paths_are_read(text);
    }
}

proof fn lemma_head(character: char, rest: Seq<u8>)
    ensures
        head(utf8_char(character as int) + rest) == (
            utf8_char(character as int).len(),
            character as u32,
        ),
{
    let number = character as int;
    let text = utf8_char(number) + rest;
    assert(number < 0xd800 || 0xe000 <= number < 0x11_0000);
    if number < 0x80 {
        assert(text[0] == number);
    } else if number < 0x800 {
        assert(text[0] == 0xC0 + number / 0x40);
        assert(text[1] == 0x80 + number % 0x40);
    } else if number < 0x1_0000 {
        assert(text[0] == 0xE0 + number / 0x1000);
        assert(text[1] == 0x80 + number / 0x40 % 0x40);
        assert(text[2] == 0x80 + number % 0x40);
        assert(number / 0x1000 * 0x1000 + number / 0x40 % 0x40 * 0x40 + number % 0x40 == number);
    } else {
        assert(text[0] == 0xF0 + number / 0x4_0000);
        assert(text[1] == 0x80 + number / 0x1000 % 0x40);
        assert(text[2] == 0x80 + number / 0x40 % 0x40);
        assert(text[3] == 0x80 + number % 0x40);
        assert(number / 0x4_0000 * 0x4_0000 + number / 0x1000 % 0x40 * 0x1000 + number / 0x40
            % 0x40 * 0x40 + number % 0x40 == number);
    }
}

/// Valid UTF-8 is read as its characters, with nothing replaced, and turned into their
/// UTF-16 units.
pub proof fn law_valid_text_is_not_replaced(text: Seq<char>)
    ensures
        lossy_text(encode_utf8(text)) == text,
        lossy_utf16(encode_utf8(text)) == written_utf16(text),
    decreases text.len(),
{
    if text.len() == 0 {
        assert(lossy_text(encode_utf8(text)) =~= text);
    } else {
        let rest = text.drop_first();
        law_valid_text_is_not_replaced(rest);
        lemma_scalar_form(text[0]);
        let own = utf8_char(text[0] as int);
        let all = own + encode_utf8(rest);
        lemma_head(text[0], encode_utf8(rest));
        assert(all.skip(own.len() as int) =~= encode_utf8(rest));
        vstd::utf8::char_u32_cast(text[0], text[0] as u32);
        assert(lossy_text(all) == seq![text[0]] + rest);
        assert(text =~= seq![text[0]] + rest);
        lemma_units(text[0]);
    }
}

proof fn lemma_units(character: char)
    ensures
        crate::utf8::utf16_bytes(character as u32) == written_units(character),
{
    let number = character as int;
    assert(number < 0x11_0000);
    assert(crate::utf8::utf16_bytes(character as u32) =~= written_units(character));
}

// ---------------------------------------------------------------------------
// Components
// ---------------------------------------------------------------------------

/// Where two paths are put together with a slash, their components follow each other.
pub proof fn law_joined_paths_join_their_components(first: Seq<u8>, second: Seq<u8>)
    ensures
        components(first + seq![SLASH] + second) == components(first) + components(second),
    decreases first.len(),
{
    let all = first + seq![SLASH] + second;
    lemma_first_index(first, SLASH);
    let at = first_index(first, SLASH);
    assert(forall|i: int| 0 <= i < first.len() ==> all[i] == first[i]);
    assert(all[first.len() as int] == SLASH);
    lemma_first_index_is(all, SLASH, at);
    if at == first.len() {
        assert(all.skip(at as int + 1) =~= second);
        assert(all.take(at as int) =~= first);
        if first.len() == 0 {
            assert(components(first) + components(second) =~= components(second));
        } else {
            assert(first.take(at as int) =~= first);
            assert(components(first) =~= seq![first]);
        }
    } else {
        let rest = first.skip(at as int + 1);
        law_joined_paths_join_their_components(rest, second);
        assert(all.skip(at as int + 1) =~= rest + seq![SLASH] + second);
        assert(all.take(at as int) =~= first.take(at as int));
        if at == 0 {
            assert(components(all) == components(rest) + components(second));
        } else {
            assert(components(all) =~= seq![first.take(at as int)] + (components(rest)
                + components(second)));
            assert(components(all) =~= components(first) + components(second));
        }
    }
}

proof fn lemma_single(name: Seq<u8>)
    requires
        name.len() > 0,
        !name.contains(SLASH),
    ensures
        components(name) == seq![name],
{
    assert forall|i: int| 0 <= i < name.len() implies name[i] != SLASH by {
        assert(name.contains(name[i]));
    }
    lemma_first_index_is(name, SLASH, name.len());
    assert(name.take(name.len() as int) =~= name);
    assert(components(name) =~= seq![name]);
}

pub proof fn lemma_normal_components(parts: Seq<Seq<u8>>)
    requires
        parts.len() > 0,
        forall|i: int| 0 <= i < parts.len() ==> is_normal(#[trigger] parts[i]),
    ensures
        components(slash_joined(parts)) == parts,
        !slash_joined(parts).contains(0u8),
        slash_joined(parts).len() > 0,
        slash_joined(parts)[0] == parts[0][0],
        named_components(parts) == parts,
    decreases parts.len(),
{
    let last = parts.last();
    assert(is_normal(parts[parts.len() - 1]));
    if parts.len() == 1 {
        lemma_single(parts[0]);
        assert(parts =~= seq![parts[0]]);
        assert(parts.drop_last() =~= Seq::<Seq<u8>>::empty());
        reveal_with_fuel(named_components, 2);
        assert(named_components(parts) =~= parts);
    } else {
        let front = parts.drop_last();
        assert forall|i: int| 0 <= i < front.len() implies is_normal(#[trigger] front[i]) by {
            assert(front[i] == parts[i]);
        }
        lemma_normal_components(front);
        lemma_single(last);
        let path = slash_joined(parts);
        law_joined_paths_join_their_components(slash_joined(front), last);
        assert(front + seq![last] =~= parts);
        assert(named_components(parts) =~= parts);
        if path.contains(0u8) {
            let i = choose|i: int| 0 <= i < path.len() && path[i] == 0;
            let before = slash_joined(front);
            if i < before.len() {
                assert(before[i] == 0);
            } else if i > before.len() {
                assert(last[i - before.len() - 1] == 0);
            }
        }
    }
}

/// A path of names with slashes between them is safe and stands for exactly these
/// names.
pub proof fn law_plain_paths_are_kept(parts: Seq<Seq<u8>>)
    requires
        parts.len() > 0,
        forall|i: int| 0 <= i < parts.len() ==> is_normal(#[trigger] parts[i]),
    ensures
        safe_path(slash_joined(parts)) == Some(parts),
{
    lemma_normal_components(parts);
    let path = slash_joined(parts);
    assert(is_normal(parts[0]));
    assert(path[0] != SLASH) by {
        assert(parts[0].contains(parts[0][0]));
    }
    assert(path.take(1)[0] == path[0]);
    assert(seq![SLASH][0] == SLASH);
    assert forall|i: int| 0 <= i < parts.len() implies !crate::path::is_parent(
        #[trigger] parts[i],
    ) by {
        assert(is_normal(parts[i]));
    }
}

proof fn lemma_named_join(first: Seq<Seq<u8>>, second: Seq<Seq<u8>>)
    ensures
        named_components(first + second) == named_components(first) + named_components(second),
    decreases second.len(),
{
    if second.len() == 0 {
        assert(first + second =~= first);
        assert(named_components(first) + named_components(second) =~= named_components(first));
    } else {
        lemma_named_join(first, second.drop_last());
        assert((first + second).drop_last() =~= first + second.drop_last());
        assert((first + second).last() == second.last());
        assert(named_components(first + second) =~= named_components(first) + named_components(
            second,
        ));
    }
}

/// The components `.` and empty ones do not count: with one between two parts of a
/// path, it stands for what it stands for without.
pub proof fn law_dots_do_not_count(first: Seq<u8>, second: Seq<u8>)
    requires
        first.len() > 0,
    ensures
        safe_path(first + seq![0x2fu8, 0x2e, 0x2f] + second) == safe_path(
            first + seq![0x2fu8] + second,
        ),
        safe_path(first + seq![0x2fu8, 0x2f] + second) == safe_path(first + seq![0x2fu8] + second),
{
    let plain = first + seq![SLASH] + second;
    let dotted = first + seq![0x2fu8, 0x2e, 0x2f] + second;
    let doubled = first + seq![0x2fu8, 0x2f] + second;
    let dot = seq![0x2eu8];
    law_joined_paths_join_their_components(first, second);
    law_joined_paths_join_their_components(dot, second);
    law_joined_paths_join_their_components(first, dot + seq![SLASH] + second);
    law_joined_paths_join_their_components(Seq::empty(), second);
    law_joined_paths_join_their_components(first, Seq::<u8>::empty() + seq![SLASH] + second);
    assert(dotted =~= first + seq![SLASH] + (dot + seq![SLASH] + second));
    assert(doubled =~= first + seq![SLASH] + (Seq::<u8>::empty() + seq![SLASH] + second));
    lemma_single(dot);
    let a = components(first);
    let b = components(second);
    assert(components(plain) == a + b);
    assert(components(doubled) =~= a + b);
    assert(components(dotted) == a + (seq![dot] + b));
    lemma_named_join(a, b);
    lemma_named_join(a, seq![dot] + b);
    lemma_named_join(seq![dot], b);
    assert(seq![dot].drop_last() =~= Seq::<Seq<u8>>::empty());
    assert(is_dot(seq![dot].last()));
    reveal_with_fuel(named_components, 2);
    assert(named_components(seq![dot]) =~= Seq::<Seq<u8>>::empty());
    assert(named_components(components(dotted)) =~= named_components(components(plain)));
    lemma_climbs(a, dot, b);
    lemma_zero(first, seq![SLASH], second, seq![0x2fu8, 0x2e, 0x2f]);
    lemma_zero(first, seq![SLASH], second, seq![0x2fu8, 0x2f]);
    assert(plain.take(1) =~= first.take(1));
    assert(dotted.take(1) =~= first.take(1));
    assert(doubled.take(1) =~= first.take(1));
}

proof fn lemma_climbs(a: Seq<Seq<u8>>, dot: Seq<u8>, b: Seq<Seq<u8>>)
    requires
        dot.len() == 1,
    ensures
        crate::path::climbs(a + (seq![dot] + b)) == crate::path::climbs(a + b),
{
    let long = a + (seq![dot] + b);
    let short = a + b;
    if crate::path::climbs(long) {
        let i = choose|i: int| 0 <= i < long.len() && crate::path::is_parent(#[trigger] long[i]);
        assert(long[i] == if i < a.len() {
            short[i]
        } else {
            short[i - 1]
        });
    }
    if crate::path::climbs(short) {
        let i = choose|i: int| 0 <= i < short.len() && crate::path::is_parent(#[trigger] short[i]);
        if i < a.len() {
            assert(long[i] == short[i]);
        } else {
            assert(long[i + 1] == short[i]);
        }
    }
}

proof fn lemma_zero(first: Seq<u8>, middle: Seq<u8>, second: Seq<u8>, other: Seq<u8>)
    requires
        !middle.contains(0u8),
        !other.contains(0u8),
    ensures
        (first + middle + second).contains(0u8) == (first + other + second).contains(0u8),
{
    lemma_zero_within(first, middle, second);
    lemma_zero_within(first, other, second);
}

proof fn lemma_zero_within(first: Seq<u8>, middle: Seq<u8>, second: Seq<u8>)
    requires
        !middle.contains(0u8),
    ensures
        (first + middle + second).contains(0u8) == (first.contains(0u8) || second.contains(0u8)),
{
    let all = first + middle + second;
    if all.contains(0u8) {
        let i = choose|i: int| 0 <= i < all.len() && all[i] == 0;
        if i < first.len() {
            assert(first[i] == 0);
        } else if i < first.len() + middle.len() {
            assert(middle[i - first.len()] == 0);
        } else {
            assert(second[i - first.len() - middle.len()] == 0);
        }
    }
    if first.contains(0u8) {
        let i = choose|i: int| 0 <= i < first.len() && first[i] == 0;
        assert(all[i] == 0);
    }
    if second.contains(0u8) {
        let i = choose|i: int| 0 <= i < second.len() && second[i] == 0;
        assert(all[first.len() + middle.len() + i] == 0);
    }
}

/// A path is refused wherever a component names the parent, whatever stands around it,
/// and if it begins with a slash.
pub proof fn law_climbing_paths_are_refused(first: Seq<u8>, second: Seq<u8>)
    ensures
        safe_path(first + seq![0x2fu8, 0x2e, 0x2e, 0x2f] + second) is None,
        safe_path(seq![0x2fu8] + second) is None,
{
    let up = seq![0x2eu8, 0x2e];
    let path = first + seq![0x2fu8, 0x2e, 0x2e, 0x2f] + second;
    law_joined_paths_join_their_components(up, second);
    law_joined_paths_join_their_components(first, up + seq![SLASH] + second);
    assert(path =~= first + seq![SLASH] + (up + seq![SLASH] + second));
    lemma_single(up);
    let parts = components(path);
    assert(parts == components(first) + (seq![up] + components(second)));
    assert(parts[components(first).len() as int] == up);
    assert(crate::path::is_parent(parts[components(first).len() as int]));
    assert((seq![0x2fu8] + second).take(1) =~= seq![SLASH]);
}

// ---------------------------------------------------------------------------
// Names on Windows
// ---------------------------------------------------------------------------

/// The case of an ASCII letter does not count.
pub open spec fn is_spelled(text: Seq<char>, capitals: Seq<char>) -> bool {
    text.len() == capitals.len() && forall|i: int|
        0 <= i < text.len() ==> (#[trigger] text[i] == capitals[i] || ('A' <= capitals[i] <= 'Z'
            && text[i] as int == capitals[i] as int + 32))
}

/// The names of devices without a number.
pub open spec fn device_names() -> Seq<Seq<char>> {
    seq![
        seq!['C', 'O', 'N'],
        seq!['P', 'R', 'N'],
        seq!['A', 'U', 'X'],
        seq!['N', 'U', 'L'],
        seq!['C', 'O', 'N', 'I', 'N', '$'],
        seq!['C', 'O', 'N', 'O', 'U', 'T', '$'],
    ]
}

proof fn lemma_spelled(text: Seq<char>, capitals: Seq<char>)
    requires
        is_spelled(text, capitals),
        forall|i: int|
            0 <= i < capitals.len() ==> !('a' <= #[trigger] capitals[i] <= 'z'),
    ensures
        crate::path::same_ignoring_case(text, capitals),
{
    assert forall|i: int| 0 <= i < text.len() implies crate::path::ascii_raised(#[trigger] text[i])
        == crate::path::ascii_raised(capitals[i]) by {
        if text[i] != capitals[i] {
            assert('a' <= text[i] <= 'z');
            assert((text[i] as u32 - 0x20) == capitals[i] as u32);
        }
    }
}

proof fn lemma_stem(stem: Seq<char>, rest: Seq<char>)
    requires
        stem.len() > 0,
        forall|i: int| 0 <= i < stem.len() ==> (#[trigger] stem[i]) != '.' && stem[i] != ' ',
        rest.len() == 0 || rest[0] == '.',
    ensures
        crate::path::trimmed(crate::path::before_dot(stem + rest)) == stem,
{
    lemma_before_dot(stem, rest);
    assert(stem[stem.len() - 1] != '.' && stem[stem.len() - 1] != ' ');
}

proof fn lemma_before_dot(stem: Seq<char>, rest: Seq<char>)
    requires
        forall|i: int| 0 <= i < stem.len() ==> (#[trigger] stem[i]) != '.',
        rest.len() == 0 || rest[0] == '.',
    ensures
        crate::path::before_dot(stem + rest) == stem,
    decreases stem.len(),
{
    if stem.len() == 0 {
        assert(stem + rest =~= rest);
        assert(crate::path::before_dot(rest) =~= stem);
    } else {
        assert((stem + rest).skip(1) =~= stem.skip(1) + rest);
        assert forall|i: int| 0 <= i < stem.skip(1).len() implies (#[trigger] stem.skip(1)[i])
            != '.' by {
            assert(stem.skip(1)[i] == stem[i + 1]);
        }
        lemma_before_dot(stem.skip(1), rest);
        assert(seq![stem[0]] + stem.skip(1) =~= stem);
    }
}

/// The name of a device is refused in any spelling, with and without an extension.
pub proof fn law_devices_are_refused(device: int, name: Seq<char>, rest: Seq<char>)
    requires
        0 <= device < device_names().len(),
        is_spelled(name, device_names()[device]),
        rest.len() == 0 || rest[0] == '.',
    ensures
        windows_identity(name + rest) is None,
{
    let capitals = device_names()[device];
    lemma_spelled(name, capitals);
    assert forall|i: int| 0 <= i < name.len() implies (#[trigger] name[i]) != '.' && name[i]
        != ' ' by {
        assert(name[i] == capitals[i] || name[i] as int == capitals[i] as int + 32);
    }
    lemma_stem(name, rest);
}

/// The name of a port with a number from one to nine is refused in any spelling, with
/// and without an extension.
pub proof fn law_ports_are_refused(name: Seq<char>, digit: char, rest: Seq<char>)
    requires
        is_spelled(name, seq!['C', 'O', 'M']) || is_spelled(name, seq!['L', 'P', 'T']),
        '1' <= digit <= '9',
        rest.len() == 0 || rest[0] == '.',
    ensures
        windows_identity(name.push(digit) + rest) is None,
{
    let stem = name.push(digit);
    if is_spelled(name, seq!['C', 'O', 'M']) {
        lemma_spelled(name, seq!['C', 'O', 'M']);
    } else {
        lemma_spelled(name, seq!['L', 'P', 'T']);
    }
    assert forall|i: int| 0 <= i < stem.len() implies (#[trigger] stem[i]) != '.' && stem[i]
        != ' ' by {
        if i < 3 {
            assert(stem[i] == name[i]);
            let first = seq!['C', 'O', 'M'];
            let second = seq!['L', 'P', 'T'];
            assert(name[i] == first[i] || name[i] as int == first[i] as int + 32 || name[i]
                == second[i] || name[i] as int == second[i] as int + 32);
        }
    }
    lemma_stem(stem, rest);
    assert(stem.take(3) =~= name);
}

/// A character that Windows keeps for itself: control characters and seven others.
pub open spec fn is_kept(character: char) -> bool {
    ||| (character as int) < 32
    ||| seq!['<', '>', ':', '"', '|', '?', '*'].contains(character)
}

/// A name that holds a character which Windows keeps for itself is refused, and so is
/// one that ends with a dot or a space.
pub proof fn law_kept_characters_are_refused(name: Seq<char>, at: int)
    requires
        0 <= at < name.len(),
    ensures
        is_kept(name[at]) ==> windows_identity(name) is None,
        name.last() == '.' || name.last() == ' ' ==> windows_identity(name) is None,
        windows_identity(Seq::empty()) is None,
{
    if is_kept(name[at]) {
        lemma_kept(name[at]);
    }
}

proof fn lemma_kept(character: char)
    requires
        is_kept(character),
    ensures
        crate::path::is_forbidden(character),
{
    let number = character as u32;
    assert(number == character as int);
}

/// A name of letters and digits that is too long to be a device is taken.
pub proof fn law_long_names_are_taken(name: Seq<char>)
    requires
        name.len() > 7,
        forall|i: int|
            0 <= i < name.len() ==> ('a' <= #[trigger] name[i] <= 'z' || 'A' <= name[i] <= 'Z' || '0'
                <= name[i] <= '9'),
    ensures
        windows_identity(name) is Some,
{
    assert(name.last() == name[name.len() - 1]);
    assert forall|i: int| 0 <= i < name.len() implies !crate::path::is_forbidden(
        #[trigger] name[i],
    ) by {
    }
    assert forall|i: int| 0 <= i < name.len() implies (#[trigger] name[i]) != '.' && name[i]
        != ' ' by {
    }
    lemma_stem(name, Seq::empty());
    assert(name + Seq::<char>::empty() =~= name);
}

// ---------------------------------------------------------------------------
// Claims
// ---------------------------------------------------------------------------

/// Once something that is no directory is claimed, nothing below it can be, at any
/// depth; a directory leaves everything below it free.
pub proof fn law_nothing_is_claimed_below_a_file(
    claims: ClaimsView,
    above: Identity,
    more: Identity,
    directory: bool,
)
    requires
        above.len() > 0,
        more.len() > 0,
    ensures
        !claims.with(above, false).allows(above + more, directory),
        claims.allows(above + more, directory) ==> claims.with(above, true).allows(
            above + more,
            directory,
        ),
        !claims.with(above, directory).allows(above, directory),
{
    let below = above + more;
    assert(below.take(above.len() as int) =~= above);
    assert(is_ancestor(above, below));
    assert(claims.with(above, false).non_directories.contains(above));
    assert(below.len() != above.len());
    if claims.allows(below, directory) {
        let next = claims.with(above, true);
        assert(!next.claimed.contains(below));
        assert(next.directory_prefixes.contains(below) ==> claims.directory_prefixes.contains(
            below,
        )) by {
            if is_ancestor(below, above) {
                assert(below.len() < above.len());
            }
        }
    }
}

/// Once something is claimed, its ancestors are directories: each can still be claimed
/// as one if it was free, and as nothing else.
pub proof fn law_ancestors_are_directories(claims: ClaimsView, above: Identity, more: Identity)
    requires
        above.len() > 0,
        more.len() > 0,
    ensures
        !claims.with(above + more, false).allows(above, false),
        !claims.with(above + more, true).allows(above, false),
        claims.allows(above, true) ==> claims.with(above + more, true).allows(above, true),
{
    let below = above + more;
    assert(below.take(above.len() as int) =~= above);
    assert(is_ancestor(above, below));
    assert(claims.with(below, false).directory_prefixes.contains(above));
    assert(claims.with(below, true).directory_prefixes.contains(above));
    assert(below.len() != above.len());
}

} // verus!
