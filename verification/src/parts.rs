//! Byte paths and their components.

use vstd::prelude::*;
use crate::bytes::{same_bytes, to_vec};

verus! {

/// The separator of path components.
pub const SLASH: u8 = 0x2f;

/// Where `byte` first occurs in `text`; its length if it does not occur.
pub open spec fn first_index(text: Seq<u8>, byte: u8) -> nat
    decreases text.len(),
{
    if text.len() == 0 || text[0] == byte {
        0
    } else {
        1 + first_index(text.skip(1), byte)
    }
}

/// The non-empty pieces of `text` between occurrences of `byte`.
pub open spec fn pieces(text: Seq<u8>, byte: u8) -> Seq<Seq<u8>>
    decreases text.len(),
{
    if text.len() == 0 {
        Seq::empty()
    } else {
        let at = first_index(text, byte);
        let rest = if at < text.len() {
            pieces(text.skip(at as int + 1), byte)
        } else {
            Seq::empty()
        };
        if at == 0 {
            rest
        } else {
            seq![text.take(at as int)] + rest
        }
    }
}

/// The components of a path: its non-empty pieces between slashes.
pub open spec fn components(path: Seq<u8>) -> Seq<Seq<u8>> {
    pieces(path, SLASH)
}

/// The byte strings in a list.
pub open spec fn texts(list: Seq<Vec<u8>>) -> Seq<Seq<u8>> {
    list.map_values(|text: Vec<u8>| text@)
}

pub proof fn lemma_first_index(text: Seq<u8>, byte: u8)
    ensures
        first_index(text, byte) <= text.len(),
        first_index(text, byte) < text.len() ==> text[first_index(text, byte) as int] == byte,
        forall|i: int| 0 <= i < first_index(text, byte) ==> text[i] != byte,
    decreases text.len(),
{
    if text.len() > 0 && text[0] != byte {
        lemma_first_index(text.skip(1), byte);
        let at = first_index(text, byte);
        assert forall|i: int| 0 <= i < at implies text[i] != byte by {
            if i > 0 {
                assert(text[i] == text.skip(1)[i - 1]);
            }
        }
    }
}

/// The first index is the only one with no occurrence before it.
pub proof fn lemma_first_index_is(text: Seq<u8>, byte: u8, at: nat)
    requires
        at <= text.len(),
        at < text.len() ==> text[at as int] == byte,
        forall|i: int| 0 <= i < at ==> text[i] != byte,
    ensures
        first_index(text, byte) == at,
{
    lemma_first_index(text, byte);
    let found = first_index(text, byte);
    if found < at {
        assert(text[found as int] != byte);
    }
    if at < found {
        assert(text[at as int] != byte);
    }
}

/// No piece is empty or holds the separator.
pub proof fn law_pieces_are_plain(text: Seq<u8>, byte: u8)
    ensures
        forall|i: int|
            0 <= i < pieces(text, byte).len() ==> (#[trigger] pieces(text, byte)[i]).len() > 0
                && !pieces(text, byte)[i].contains(byte),
    decreases text.len(),
{
    if text.len() > 0 {
        lemma_first_index(text, byte);
        let at = first_index(text, byte);
        if at < text.len() {
            law_pieces_are_plain(text.skip(at as int + 1), byte);
        }
        let rest = if at < text.len() {
            pieces(text.skip(at as int + 1), byte)
        } else {
            Seq::empty()
        };
        assert forall|i: int| 0 <= i < pieces(text, byte).len() implies (#[trigger] pieces(
            text,
            byte,
        )[i]).len() > 0 && !pieces(text, byte)[i].contains(byte) by {
            let piece = pieces(text, byte)[i];
            if at == 0 {
                assert(piece == rest[i]);
            } else if i == 0 {
                assert(piece == text.take(at as int));
            } else {
                assert(piece == rest[i - 1]);
            }
        }
    }
}

/// Splits a text at every occurrence of `byte` and drops empty pieces.
pub fn split_pieces(text: &[u8], byte: u8) -> (list: Vec<Vec<u8>>)
    ensures
        texts(list@) == pieces(text@, byte),
{
    let mut list: Vec<Vec<u8>> = Vec::new();
    let mut start: usize = 0;
    let ghost whole = pieces(text@, byte);
    proof {
        assert(text@.skip(0) =~= text@);
        assert(texts(list@) + whole =~= whole);
    }
    let mut i: usize = 0;
    while i < text.len()
        invariant
            start <= i <= text@.len(),
            whole == pieces(text@, byte),
            texts(list@) + pieces(text@.skip(start as int), byte) == whole,
            forall|j: int| start <= j < i ==> text@[j] != byte,
        decreases text@.len() - i,
    {
        if text[i] == byte {
            let ghost rest = text@.skip(start as int);
            proof {
                let at = (i - start) as nat;
                assert forall|j: int| 0 <= j < at implies rest[j] != byte by {
                    assert(rest[j] == text@[start + j]);
                }
                assert(rest[at as int] == byte);
                lemma_first_index_is(rest, byte, at);
                assert(rest.skip(at as int + 1) =~= text@.skip(i + 1));
                assert(rest.take(at as int) =~= text@.subrange(start as int, i as int));
            }
            if start < i {
                let ghost before = list@;
                list.push(to_vec(&text[start..i]));
                proof {
                    assert(texts(list@) =~= texts(before).push(
                        text@.subrange(start as int, i as int),
                    ));
                    assert(texts(list@) + pieces(text@.skip(i + 1), byte) =~= texts(before)
                        + pieces(rest, byte));
                }
            }
            start = i + 1;
        }
        i += 1;
    }
    proof {
        let rest = text@.skip(start as int);
        assert forall|j: int| 0 <= j < rest.len() implies rest[j] != byte by {
            assert(rest[j] == text@[start + j]);
        }
        lemma_first_index_is(rest, byte, rest.len());
    }
    if start < text.len() {
        let ghost before = list@;
        list.push(to_vec(&text[start..text.len()]));
        proof {
            let rest = text@.skip(start as int);
            assert(rest.take(rest.len() as int) =~= rest);
            assert(text@.subrange(start as int, text@.len() as int) =~= rest);
            assert(texts(list@) =~= texts(before) + pieces(rest, byte));
        }
    } else {
        proof {
            assert(texts(list@) =~= whole);
        }
    }
    list
}

/// Whether two lists of byte strings are equal.
pub fn same_texts(left: &[Vec<u8>], right: &[Vec<u8>]) -> (same: bool)
    ensures
        same == (texts(left@) == texts(right@)),
{
    if left.len() != right.len() {
        proof {
            assert(texts(left@).len() != texts(right@).len());
        }
        return false;
    }
    let mut i: usize = 0;
    while i < left.len()
        invariant
            left@.len() == right@.len(),
            i <= left@.len(),
            forall|j: int| 0 <= j < i ==> left@[j]@ == right@[j]@,
        decreases left@.len() - i,
    {
        if !same_bytes(left[i].as_slice(), right[i].as_slice()) {
            proof {
                assert(texts(left@)[i as int] != texts(right@)[i as int]);
            }
            return false;
        }
        i += 1;
    }
    proof {
        assert(texts(left@) =~= texts(right@));
    }
    true
}

} // verus!
