//! UTF-8 with replacement of invalid bytes, and UTF-16.

use vstd::prelude::*;

verus! {

/// The character that stands for invalid bytes.
pub const REPLACEMENT: u32 = 0xFFFD;

/// How many bytes a lead byte announces; zero if it is none.
pub open spec fn sequence_len(lead: u8) -> nat {
    if lead < 0x80 {
        1
    } else if 0xC2 <= lead <= 0xDF {
        2
    } else if 0xE0 <= lead <= 0xEF {
        3
    } else if 0xF0 <= lead <= 0xF4 {
        4
    } else {
        0
    }
}

/// The second bytes that may follow a lead byte: no overlong form, no surrogate,
/// nothing beyond the last character.
pub open spec fn second_fits(lead: u8, second: u8) -> bool {
    if lead == 0xE0 {
        0xA0 <= second <= 0xBF
    } else if lead == 0xED {
        0x80 <= second <= 0x9F
    } else if lead == 0xF0 {
        0x90 <= second <= 0xBF
    } else if lead == 0xF4 {
        0x80 <= second <= 0x8F
    } else {
        0x80 <= second <= 0xBF
    }
}

/// A byte that continues a sequence.
pub open spec fn continues(byte: u8) -> bool {
    0x80 <= byte <= 0xBF
}

/// The character that `text` begins with, as its length and its number. The
/// longest beginning of a sequence that is not completed counts as one
/// replacement character.
pub open spec fn head(text: Seq<u8>) -> (nat, u32) {
    let lead = text[0];
    let len = sequence_len(lead);
    if len == 0 {
        (1, REPLACEMENT)
    } else if len == 1 {
        (1, lead as u32)
    } else if text.len() < 2 || !second_fits(lead, text[1]) {
        (1, REPLACEMENT)
    } else if len == 2 {
        (2, ((lead - 0xC0) * 0x40 + (text[1] - 0x80)) as u32)
    } else if text.len() < 3 || !continues(text[2]) {
        (2, REPLACEMENT)
    } else if len == 3 {
        (
            3,
            ((lead - 0xE0) * 0x1000 + (text[1] - 0x80) * 0x40 + (text[2] - 0x80)) as u32,
        )
    } else if text.len() < 4 || !continues(text[3]) {
        (3, REPLACEMENT)
    } else {
        (
            4,
            ((lead - 0xF0) * 0x4_0000 + (text[1] - 0x80) * 0x1000 + (text[2] - 0x80) * 0x40 + (
            text[3] - 0x80)) as u32,
        )
    }
}

/// A text in UTF-8 as its characters, invalid bytes replaced.
pub open spec fn lossy_text(text: Seq<u8>) -> Seq<char>
    decreases text.len(),
{
    if text.len() == 0 {
        Seq::empty()
    } else {
        let (len, number) = head(text);
        seq![number as char] + lossy_text(text.skip(len as int))
    }
}

/// Two bytes, least significant first.
pub open spec fn unit_bytes(unit: u32) -> Seq<u8> {
    seq![(unit % 256) as u8, (unit / 256) as u8]
}

/// The UTF-16 bytes of one character, least significant byte of each unit first.
pub open spec fn utf16_bytes(number: u32) -> Seq<u8> {
    if number < 0x1_0000 {
        unit_bytes(number)
    } else {
        unit_bytes((0xD800 + (number - 0x1_0000) / 0x400) as u32) + unit_bytes(
            (0xDC00 + (number - 0x1_0000) % 0x400) as u32,
        )
    }
}

/// A text in UTF-8, invalid bytes replaced, as little-endian UTF-16.
pub open spec fn lossy_utf16(text: Seq<u8>) -> Seq<u8>
    decreases text.len(),
{
    if text.len() == 0 {
        Seq::empty()
    } else {
        let (len, number) = head(text);
        utf16_bytes(number) + lossy_utf16(text.skip(len as int))
    }
}

proof fn lemma_head_is_not_empty(text: Seq<u8>)
    requires
        text.len() > 0,
    ensures
        1 <= head(text).0 <= text.len(),
{
}

/// Every UTF-16 text is made of units of two bytes.
pub proof fn law_utf16_is_even(text: Seq<u8>)
    ensures
        lossy_utf16(text).len() % 2 == 0,
    decreases text.len(),
{
    if text.len() > 0 {
        lemma_head_is_not_empty(text);
        let len = head(text).0;
        let rest = text.skip(len as int);
        law_utf16_is_even(rest);
        assert(lossy_utf16(text).len() == utf16_bytes(head(text).1).len() + lossy_utf16(
            rest,
        ).len());
    }
}

fn decode_head(text: &[u8], at: usize) -> (result: (usize, u32))
    requires
        at < text@.len(),
    ensures
        (result.0 as nat, result.1) == head(text@.skip(at as int)),
        1 <= result.0 <= text@.len() - at,
        result.1 <= 0x10_FFFF,
{
    let ghost rest = text@.skip(at as int);
    let lead: u8 = text[at];
    let left: usize = text.len() - at;
    proof {
        assert(rest[0] == lead);
    }
    if lead < 0x80 {
        return (1, lead as u32);
    }
    if lead < 0xC2 || lead > 0xF4 {
        return (1, REPLACEMENT);
    }
    if left < 2 {
        return (1, REPLACEMENT);
    }
    let second: u8 = text[at + 1];
    proof {
        assert(rest[1] == second);
    }
    let fits = if lead == 0xE0 {
        0xA0 <= second && second <= 0xBF
    } else if lead == 0xED {
        0x80 <= second && second <= 0x9F
    } else if lead == 0xF0 {
        0x90 <= second && second <= 0xBF
    } else if lead == 0xF4 {
        0x80 <= second && second <= 0x8F
    } else {
        0x80 <= second && second <= 0xBF
    };
    if !fits {
        return (1, REPLACEMENT);
    }
    if lead <= 0xDF {
        return (2, (lead as u32 - 0xC0) * 0x40 + (second as u32 - 0x80));
    }
    if left < 3 {
        return (2, REPLACEMENT);
    }
    let third: u8 = text[at + 2];
    proof {
        assert(rest[2] == third);
    }
    if third < 0x80 || third > 0xBF {
        return (2, REPLACEMENT);
    }
    if lead <= 0xEF {
        return (
            3,
            (lead as u32 - 0xE0) * 0x1000 + (second as u32 - 0x80) * 0x40 + (third as u32 - 0x80),
        );
    }
    if left < 4 {
        return (3, REPLACEMENT);
    }
    let fourth: u8 = text[at + 3];
    proof {
        assert(rest[3] == fourth);
    }
    if fourth < 0x80 || fourth > 0xBF {
        return (3, REPLACEMENT);
    }
    (
        4,
        (lead as u32 - 0xF0) * 0x4_0000 + (second as u32 - 0x80) * 0x1000 + (third as u32 - 0x80)
            * 0x40 + (fourth as u32 - 0x80),
    )
}

fn push_unit(out: &mut Vec<u8>, unit: u32)
    requires
        unit <= 0xFFFF,
    ensures
        final(out)@ == old(out)@ + unit_bytes(unit),
{
    out.push((unit % 256) as u8);
    out.push((unit / 256) as u8);
    proof {
        assert(out@ =~= old(out)@ + unit_bytes(unit));
    }
}

/// Encodes a text as little-endian UTF-16, replacing invalid bytes.
pub fn to_lossy_utf16(text: &[u8]) -> (out: Vec<u8>)
    ensures
        out@ == lossy_utf16(text@),
{
    let mut out: Vec<u8> = Vec::new();
    let mut at: usize = 0;
    proof {
        assert(text@.skip(0) =~= text@);
        assert(out@ + lossy_utf16(text@) =~= lossy_utf16(text@));
    }
    while at < text.len()
        invariant
            at <= text@.len(),
            out@ + lossy_utf16(text@.skip(at as int)) == lossy_utf16(text@),
        decreases text@.len() - at,
    {
        let (len, number) = decode_head(text, at);
        let ghost before = out@;
        if number < 0x1_0000 {
            push_unit(&mut out, number);
        } else {
            push_unit(&mut out, 0xD800 + (number - 0x1_0000) / 0x400);
            push_unit(&mut out, 0xDC00 + (number - 0x1_0000) % 0x400);
        }
        proof {
            assert(out@ =~= before + utf16_bytes(number));
            assert(text@.skip(at as int).skip(len as int) =~= text@.skip(at + len));
            assert(before + (utf16_bytes(number) + lossy_utf16(text@.skip(at + len))) =~= out@
                + lossy_utf16(text@.skip(at + len)));
        }
        at = at + len;
    }
    proof {
        assert(text@.skip(at as int) =~= Seq::<u8>::empty());
        assert(out@ + Seq::<u8>::empty() =~= out@);
    }
    out
}

} // verus!
