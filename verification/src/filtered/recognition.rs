//! Laws on how filters are told: by what their streams begin with, and by file names.

use vstd::prelude::*;
use vstd::string::*;
use crate::bytes::has_prefix;
use crate::filter::frame_layout::{WrittenGzipHeader, WrittenLz4Header};
use crate::filter::xz_stream::written_start;
use crate::filtered::detect::{
    announced, extension_filter, extension_of, last_place, lowercase, name_extension, Allowance,
    DecodedBudget, FilterId,
};
use crate::layout::lemma_ascii;
use crate::parts::{components, SLASH};
use crate::path::{is_dot, is_parent, named_components};
use crate::path_forms::law_joined_paths_join_their_components;

verus! {

// ---------------------------------------------------------------------------
// Streams
// ---------------------------------------------------------------------------

/// Streams that are laid out by their formats are told by their first bytes, whatever
/// follows: gzip members, XZ streams, LZ4 frames and lzip members.
pub proof fn law_written_streams_are_recognized(
    gzip: WrittenGzipHeader,
    lz4: WrittenLz4Header,
    kind: u8,
    crc: Seq<u8>,
    code: u8,
    rest: Seq<u8>,
)
    ensures
        announced(gzip.bytes() + rest) == Some(FilterId::Gzip),
        announced(lz4.bytes() + rest) == Some(FilterId::Lz4),
        announced(written_start(kind, crc) + rest) == Some(FilterId::Xz),
        announced(seq![0x4cu8, 0x5a, 0x49, 0x50, 1, code] + rest) == Some(FilterId::Lzip),
{
    let a = gzip.bytes() + rest;
    assert(gzip.fixed().len() == 10);
    assert(a[0] == gzip.fixed()[0]);
    assert(a[1] == gzip.fixed()[1]);
    assert(a[0] == 0x1f && a[1] == 0x8b);
    lemma_first_bytes(a);
    let b = lz4.bytes() + rest;
    assert(lz4.bytes().len() >= 4);
    assert(b[0] == 0x04 && b[1] == 0x22 && b[2] == 0x4d && b[3] == 0x18);
    lemma_first_bytes(b);
    let c = written_start(kind, crc) + rest;
    assert(c[0] == 0xfd && c[1] == 0x37 && c[2] == 0x7a && c[3] == 0x58 && c[4] == 0x5a && c[5]
        == 0);
    lemma_first_bytes(c);
    let d = seq![0x4cu8, 0x5a, 0x49, 0x50, 1, code] + rest;
    assert(d[0] == 0x4c && d[1] == 0x5a && d[2] == 0x49 && d[3] == 0x50);
    lemma_first_bytes(d);
}

/// What a prefix of a text says, byte by byte.
proof fn lemma_first_bytes(text: Seq<u8>)
    ensures
        has_prefix(text, seq![0x4cu8, 0x5au8, 0x49u8, 0x50u8]) <==> text.len() >= 4 && text[0]
            == 0x4c && text[1] == 0x5a && text[2] == 0x49 && text[3] == 0x50,
        has_prefix(text, seq![0x1fu8, 0x8bu8]) <==> text.len() >= 2 && text[0] == 0x1f && text[1]
            == 0x8b,
        has_prefix(text, seq![0x1fu8, 0x9du8]) <==> text.len() >= 2 && text[0] == 0x1f && text[1]
            == 0x9d,
        has_prefix(text, seq![0x42u8, 0x5au8, 0x68u8]) <==> text.len() >= 3 && text[0] == 0x42
            && text[1] == 0x5a && text[2] == 0x68,
        has_prefix(text, seq![0x28u8, 0xb5u8, 0x2fu8, 0xfdu8]) <==> text.len() >= 4 && text[0]
            == 0x28 && text[1] == 0xb5 && text[2] == 0x2f && text[3] == 0xfd,
        has_prefix(text, seq![0xfdu8, 0x37u8, 0x7au8, 0x58u8, 0x5au8, 0u8]) <==> text.len() >= 6
            && text[0] == 0xfd && text[1] == 0x37 && text[2] == 0x7a && text[3] == 0x58 && text[4]
            == 0x5a && text[5] == 0,
        has_prefix(text, seq![0x04u8, 0x22u8, 0x4du8, 0x18u8]) <==> text.len() >= 4 && text[0]
            == 0x04 && text[1] == 0x22 && text[2] == 0x4d && text[3] == 0x18,
{
    lemma_prefix(text, seq![0x4cu8, 0x5au8, 0x49u8, 0x50u8]);
    lemma_prefix(text, seq![0x1fu8, 0x8bu8]);
    lemma_prefix(text, seq![0x1fu8, 0x9du8]);
    lemma_prefix(text, seq![0x42u8, 0x5au8, 0x68u8]);
    lemma_prefix(text, seq![0x28u8, 0xb5u8, 0x2fu8, 0xfdu8]);
    lemma_prefix(text, seq![0xfdu8, 0x37u8, 0x7au8, 0x58u8, 0x5au8, 0u8]);
    lemma_prefix(text, seq![0x04u8, 0x22u8, 0x4du8, 0x18u8]);
}

proof fn lemma_prefix(text: Seq<u8>, prefix: Seq<u8>)
    ensures
        has_prefix(text, prefix) <==> text.len() >= prefix.len() && forall|i: int|
            0 <= i < prefix.len() ==> text[i] == #[trigger] prefix[i],
{
    if text.len() >= prefix.len() {
        let head = text.take(prefix.len() as int);
        if forall|i: int| 0 <= i < prefix.len() ==> text[i] == #[trigger] prefix[i] {
            assert(head =~= prefix);
        } else {
            let i = choose|i: int| 0 <= i < prefix.len() && text[i] != #[trigger] prefix[i];
            assert(head[i] == text[i]);
        }
    }
}

/// Once a prefix announces a filter, what follows it changes nothing.
pub proof fn law_recognition_is_settled_by_a_prefix(prefix: Seq<u8>, more: Seq<u8>)
    ensures
        announced(prefix) matches Some(filter) ==> announced(prefix + more) == Some(filter),
        prefix.len() >= 6 ==> announced(prefix + more) == announced(prefix),
{
    lemma_first_bytes(prefix);
    lemma_first_bytes(prefix + more);
    assert(forall|i: int| 0 <= i < prefix.len() ==> (prefix + more)[i] == prefix[i]);
}

// ---------------------------------------------------------------------------
// Names
// ---------------------------------------------------------------------------

/// Two extensions that differ only in the case of ASCII letters stand for the same.
pub proof fn law_case_does_not_count(first: Seq<u8>, second: Seq<u8>)
    requires
        first.len() == second.len(),
        forall|i: int|
            0 <= i < first.len() ==> {
                ||| #[trigger] first[i] == second[i]
                ||| 0x41 <= first[i] <= 0x5a && second[i] == first[i] + 0x20
            },
    ensures
        extension_filter(first) == extension_filter(second),
{
    assert(lowercase(first) =~= lowercase(second));
}

/// The extensions of the filters; raw deflate has none.
pub open spec fn known_extensions() -> Seq<(Seq<u8>, FilterId)> {
    seq![
        (seq![0x67u8, 0x7a], FilterId::Gzip),
        (seq![0x74u8, 0x67, 0x7a], FilterId::Gzip),
        (seq![0x62u8, 0x7a, 0x32], FilterId::Bzip2),
        (seq![0x74u8, 0x62, 0x7a], FilterId::Bzip2),
        (seq![0x74u8, 0x62, 0x7a, 0x32], FilterId::Bzip2),
        (seq![0x7au8, 0x73, 0x74], FilterId::Zstd),
        (seq![0x78u8, 0x7a], FilterId::Xz),
        (seq![0x6cu8, 0x7a, 0x34], FilterId::Lz4),
        (seq![0x7au8], FilterId::Compress),
        (seq![0x6cu8, 0x7a], FilterId::Lzip),
    ]
}

/// An extension of a filter stands for it in any spelling, and no other extension
/// stands for anything.
#[verifier::rlimit(40)]
#[verifier::spinoff_prover]
pub proof fn law_extensions_stand_for_their_filters(extension: Seq<u8>, at: int)
    requires
        0 <= at < known_extensions().len(),
    ensures
        lowercase(extension) == known_extensions()[at].0 ==> extension_filter(extension) == Some(
            known_extensions()[at].1,
        ),
        extension_filter(extension) is Some ==> exists|i: int|
            0 <= i < known_extensions().len() && lowercase(extension)
                == #[trigger] known_extensions()[i].0,
{
    reveal_strlit("gz");
    reveal_strlit("tgz");
    reveal_strlit("bz2");
    reveal_strlit("tbz");
    reveal_strlit("tbz2");
    reveal_strlit("zst");
    reveal_strlit("xz");
    reveal_strlit("lz4");
    reveal_strlit("z");
    reveal_strlit("lz");
    lemma_ascii("gz");
    lemma_ascii("tgz");
    lemma_ascii("bz2");
    lemma_ascii("tbz");
    lemma_ascii("tbz2");
    lemma_ascii("zst");
    lemma_ascii("xz");
    lemma_ascii("lz4");
    lemma_ascii("z");
    lemma_ascii("lz");
    let known = known_extensions();
    assert(known[0].0 =~= "gz".spec_bytes());
    assert(known[1].0 =~= "tgz".spec_bytes());
    assert(known[2].0 =~= "bz2".spec_bytes());
    assert(known[3].0 =~= "tbz".spec_bytes());
    assert(known[4].0 =~= "tbz2".spec_bytes());
    assert(known[5].0 =~= "zst".spec_bytes());
    assert(known[6].0 =~= "xz".spec_bytes());
    assert(known[7].0 =~= "lz4".spec_bytes());
    assert(known[8].0 =~= "z".spec_bytes());
    assert(known[9].0 =~= "lz".spec_bytes());
    assert("gz".spec_bytes()[0] != "xz".spec_bytes()[0]);
    assert("gz".spec_bytes()[0] != "lz".spec_bytes()[0]);
    assert("xz".spec_bytes()[0] != "lz".spec_bytes()[0]);
    assert("tgz".spec_bytes()[1] != "bz2".spec_bytes()[1]);
    assert("tgz".spec_bytes()[0] != "bz2".spec_bytes()[0]);
    assert("tgz".spec_bytes()[1] != "tbz".spec_bytes()[1]);
    assert("tgz".spec_bytes()[0] != "zst".spec_bytes()[0]);
    assert("tgz".spec_bytes()[0] != "lz4".spec_bytes()[0]);
    assert("bz2".spec_bytes()[0] != "zst".spec_bytes()[0]);
    assert("bz2".spec_bytes()[0] != "lz4".spec_bytes()[0]);
    assert("tbz".spec_bytes()[0] != "zst".spec_bytes()[0]);
    assert("tbz".spec_bytes()[0] != "lz4".spec_bytes()[0]);
    assert("zst".spec_bytes()[0] != "lz4".spec_bytes()[0]);
}

proof fn lemma_last_place_is(text: Seq<u8>, byte: u8, at: int)
    requires
        0 <= at < text.len(),
        text[at] == byte,
        forall|i: int| at < i < text.len() ==> text[i] != byte,
    ensures
        last_place(text, byte) == at,
    decreases text.len(),
{
    if text.len() - 1 > at {
        lemma_last_place_is(text.drop_last(), byte, at);
    }
}

proof fn lemma_plain_name(name: Seq<u8>)
    requires
        name.len() > 0,
        !name.contains(SLASH),
    ensures
        components(name) == seq![name],
{
    assert forall|i: int| 0 <= i < name.len() implies name[i] != SLASH by {
        assert(name.contains(name[i]));
    }
    crate::parts::lemma_first_index_is(name, SLASH, name.len());
    assert(name.take(name.len() as int) =~= name);
    assert(components(name) =~= seq![name]);
}

/// The extension of a file is what follows its last dot, in whatever directory the
/// file lies; a name that begins with its only dot has none.
pub proof fn law_extensions_follow_the_last_dot(
    directory: Seq<u8>,
    stem: Seq<u8>,
    extension: Seq<u8>,
)
    requires
        stem.len() > 0,
        !stem.contains(0x2f),
        extension.len() > 0,
        !extension.contains(0x2f),
        !extension.contains(0x2e),
    ensures
        name_extension(directory + seq![0x2fu8] + (stem + seq![0x2eu8] + extension)) == Some(
            extension,
        ),
        name_extension(stem + seq![0x2eu8] + extension) == Some(extension),
        extension_of(seq![0x2eu8] + extension) is None,
{
    let file = stem + seq![0x2eu8] + extension;
    let at = stem.len() as int;
    assert forall|i: int| at < i < file.len() implies file[i] != 0x2e by {
        assert(file[i] == extension[i - at - 1]);
        assert(extension.contains(extension[i - at - 1]));
    }
    lemma_last_place_is(file, 0x2e, at);
    assert(file.skip(at + 1) =~= extension);
    assert forall|i: int| 0 <= i < file.len() implies file[i] != SLASH by {
        if i < at {
            assert(stem.contains(stem[i]));
        } else if i > at {
            assert(extension.contains(extension[i - at - 1]));
        }
    }
    lemma_plain_name(file);
    assert(!is_dot(file) && !is_parent(file));
    let parts = components(directory) + seq![file];
    law_joined_paths_join_their_components(directory, file);
    assert(parts.drop_last() =~= components(directory));
    assert(named_components(parts).last() == file);
    assert(seq![file].drop_last() =~= Seq::<Seq<u8>>::empty());
    reveal_with_fuel(named_components, 2);
    assert(named_components(seq![file]).last() == file);
    let hidden = seq![0x2eu8] + extension;
    assert forall|i: int| 0 < i < hidden.len() implies hidden[i] != 0x2e by {
        assert(hidden[i] == extension[i - 1]);
        assert(extension.contains(extension[i - 1]));
    }
    lemma_last_place_is(hidden, 0x2e, 0);
}

/// A read asks for as much as there is room for, unless less is left of the budget;
/// where nothing is left it only looks whether the stream goes on.
pub proof fn law_reads_stay_within_the_budget(budget: DecodedBudget, room: usize)
    requires
        room > 0,
    ensures
        budget.limit is None ==> budget.allows(room as nat) == Allowance::Read(room),
        budget.limit matches Some(limit) ==> {
            &&& budget.allows(room as nat) == Allowance::Probe <==> budget.decoded >= limit
            &&& budget.allows(room as nat) matches Allowance::Read(count) ==> {
                &&& 0 < count <= room
                &&& budget.decoded + count <= limit
                &&& count == room || budget.decoded + count == limit
            }
        },
{
}

} // verus!
