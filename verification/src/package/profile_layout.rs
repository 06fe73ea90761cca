//! Signing blocks and local headers as writers lay them out, and the laws on what the
//! package profiles find.

use vstd::prelude::*;
use vstd::string::*;
use crate::bytes::has_suffix;
use crate::layout::{
    law_low2_is_read, law_low4_is_read, law_low8_is_read, lemma_ascii, low2, low4, low8, stands_at,
};
use crate::limits::Limits;
use crate::package::app_profile::{
    apk_signatures, block_ids, bundle_list, first_occurs_at, footer_place, in_meta_inf,
    is_complete, msix_signatures, occurs_at, read_footer, scan_apk_id_value_pairs, AppPackageProfile, ReadBlockView, SigningBlock,
};
use crate::package::finding::{blocks, found, PackageFindingCode};
use crate::package::zip_profile::{
    body_offset, first_member, profile_findings, root_nuspecs, ZipPackageProfile,
};
use crate::package::zip_reader::ZipEntryView;

verus! {

// ---------------------------------------------------------------------------
// The signing block
// ---------------------------------------------------------------------------

/// A pair of a signing block.
pub struct WrittenPair {
    pub id: u32,
    pub value: Seq<u8>,
}

/// Pairs one behind the other: the length of the rest in eight bytes, the number in
/// four, and the value.
pub open spec fn written_pairs(pairs: Seq<WrittenPair>) -> Seq<u8>
    decreases pairs.len(),
{
    if pairs.len() == 0 {
        Seq::empty()
    } else {
        low8((pairs[0].value.len() + 4) as u64) + low4(pairs[0].id) + pairs[0].value
            + written_pairs(pairs.skip(1))
    }
}

/// A signing block: its size, the pairs, the size again, and the magic. The size
/// counts everything but its own first copy.
pub open spec fn written_block(pairs: Seq<WrittenPair>) -> Seq<u8> {
    let size = low8((written_pairs(pairs).len() + 24) as u64);
    size + written_pairs(pairs) + (size + "APK Sig Block 42".spec_bytes())
}

proof fn lemma_pair_head(a: Seq<u8>, b: Seq<u8>, c: Seq<u8>, d: Seq<u8>)
    requires
        a.len() == 8,
        b.len() == 4,
    ensures
        ({
            let all = a + b + c + d;
            &&& all.len() == 12 + c.len() + d.len()
            &&& all.subrange(0, 8) == a
            &&& all.subrange(8, 12) == b
            &&& all.skip((12 + c.len()) as int) == d
        }),
{
    let all = a + b + c + d;
    assert(all.subrange(0, 8) =~= a);
    assert(all.subrange(8, 12) =~= b);
    assert(all.skip((12 + c.len()) as int) =~= d);
}

/// The pairs of a block are gone through one by one: their numbers are those that
/// were written, in order.
pub proof fn law_pairs_are_read(pairs: Seq<WrittenPair>)
    requires
        written_pairs(pairs).len() <= 0xffff_ffff,
    ensures
        block_ids(written_pairs(pairs)) == Seq::new(pairs.len(), |i: int| pairs[i].id as nat),
    decreases pairs.len(),
{
    let ids = Seq::new(pairs.len(), |i: int| pairs[i].id as nat);
    let region = written_pairs(pairs);
    if pairs.len() == 0 {
        assert(ids =~= block_ids(region));
    } else {
        let pair = pairs[0];
        let rest = pairs.skip(1);
        let length = (pair.value.len() + 4) as u64;
        lemma_pair_head(low8(length), low4(pair.id), pair.value, written_pairs(rest));
        law_low8_is_read(region, 0, length);
        law_low4_is_read(region, 8, pair.id);
        law_pairs_are_read(rest);
        assert(block_ids(region) == seq![pair.id as nat] + block_ids(written_pairs(rest)));
        assert(ids =~= seq![pair.id as nat] + Seq::new(rest.len(), |i: int| rest[i].id as nat));
    }
}

/// A block that stands right before the central directory is found by its footer: the
/// footer is its last twenty-four bytes, and the part to look at is where the pairs
/// were written, cut to the budget.
#[verifier::rlimit(40)]
#[verifier::spinoff_prover]
pub proof fn law_signing_blocks_are_found(
    archive: Seq<u8>,
    pairs: Seq<WrittenPair>,
    central_offset: u64,
    footer: &[u8],
    limits: Limits,
    block: Option<SigningBlock>,
)
    requires
        written_block(pairs).len() <= central_offset,
        stands_at(archive, central_offset - written_block(pairs).len(), written_block(pairs)),
        footer_place(central_offset as nat) matches Some(place) && footer@ == archive.subrange(
            place as int,
            central_offset as int,
        ),
        call_ensures(read_footer, (central_offset, footer, limits), block),
    ensures
        ({
            let budget = match limits.metadata_bytes {
                Some(limit) => limit as int,
                None => 0x80_0000,
            };
            let length = written_pairs(pairs).len() as int;
            block matches Some(block) && block.region matches Some(region) && {
                &&& block.is_cut <==> length > budget
                &&& region.1 == if length > budget {
                    budget
                } else {
                    length
                }
                &&& stands_at(archive, region.0 as int, written_pairs(pairs).take(region.1 as int))
            }
        }),
{
    let magic = "APK Sig Block 42".spec_bytes();
    let body = written_pairs(pairs);
    let size = (body.len() + 24) as u64;
    let whole = written_block(pairs);
    let start = central_offset - whole.len();
    lemma_magic();
    lemma_block_parts(low8(size), body, magic);
    assert(whole.len() == 32 + body.len());
    lemma_part_of(archive, start, whole, 8 + body.len() as int, 32 + body.len() as int);
    law_low8_is_read(footer@, 0, size);
    let region = block->0.region->0;
    assert(region.0 == start + 8);
    lemma_part_of(archive, start, whole, 8, 8 + region.1);
    lemma_body_part(low8(size), body, low8(size) + magic, region.1 as int);
}

proof fn lemma_magic()
    ensures
        "APK Sig Block 42".spec_bytes().len() == 16,
{
    reveal_strlit("APK Sig Block 42");
    lemma_ascii("APK Sig Block 42");
}

proof fn lemma_block_parts(size: Seq<u8>, body: Seq<u8>, magic: Seq<u8>)
    requires
        size.len() == 8,
        magic.len() == 16,
    ensures
        ({
            let whole = size + body + (size + magic);
            let count = body.len() as int;
            &&& whole.len() == 32 + count
            &&& whole.subrange(8 + count, 32 + count) == size + magic
            &&& (size + magic).subrange(0, 8) == size
            &&& (size + magic).subrange(8, 24) == magic
        }),
{
    let whole = size + body + (size + magic);
    let count = body.len() as int;
    assert(whole.subrange(8 + count, 32 + count) =~= size + magic);
    assert((size + magic).subrange(0, 8) =~= size);
    assert((size + magic).subrange(8, 24) =~= magic);
}

proof fn lemma_body_part(size: Seq<u8>, body: Seq<u8>, rest: Seq<u8>, count: int)
    requires
        size.len() == 8,
        0 <= count <= body.len(),
    ensures
        (size + body + rest).subrange(8, 8 + count) == body.take(count),
{
    assert((size + body + rest).subrange(8, 8 + count) =~= body.take(count));
}

proof fn lemma_part_of(text: Seq<u8>, at: int, part: Seq<u8>, from: int, to: int)
    requires
        stands_at(text, at, part),
        0 <= from <= to <= part.len(),
    ensures
        text.subrange(at + from, at + to) == part.subrange(from, to),
{
    assert(text.subrange(at + from, at + to) =~= text.subrange(at, at + part.len()).subrange(
        from,
        to,
    ));
}

/// A package has a second or a third version signature exactly if a pair of its block
/// has the number of one.
pub proof fn law_versions_are_told_by_their_numbers(
    pairs: Seq<WrittenPair>,
    region: &[u8],
    versions: (bool, bool),
)
    requires
        region@ == written_pairs(pairs),
        region@.len() <= 0xffff_ffff,
        call_ensures(scan_apk_id_value_pairs, (region,), versions),
    ensures
        versions.0 <==> exists|i: int| 0 <= i < pairs.len() && (#[trigger] pairs[i]).id
            == 0x7109_871a,
        versions.1 <==> exists|i: int| 0 <= i < pairs.len() && (#[trigger] pairs[i]).id
            == 0xf053_68c0,
{
    law_pairs_are_read(pairs);
    let ids = block_ids(region@);
    assert forall|i: int| 0 <= i < pairs.len() implies ids[i] == (#[trigger] pairs[i]).id by {
    }
    if versions.0 {
        let i = choose|i: int| 0 <= i < ids.len() && ids[i] == 0x7109_871a;
        assert(pairs[i].id == 0x7109_871a);
    }
    if versions.1 {
        let i = choose|i: int| 0 <= i < ids.len() && ids[i] == 0xf053_68c0;
        assert(pairs[i].id == 0xf053_68c0);
    }
}

/// A package is signed by the first version exactly if `META-INF` itself holds both a
/// manifest of signatures and a signature.
pub proof fn law_first_signatures_need_two_members(
    entries: Seq<ZipEntryView>,
    block: ReadBlockView,
)
    ensures
        apk_signatures(entries, block).apk_v1 <==> (exists|i: int, j: int|
            {
                &&& 0 <= i < entries.len()
                &&& 0 <= j < entries.len()
                &&& in_meta_inf((#[trigger] entries[i]).name)
                &&& in_meta_inf((#[trigger] entries[j]).name)
                &&& has_suffix(entries[i].name, ".SF".spec_bytes())
                &&& (has_suffix(entries[j].name, ".RSA".spec_bytes()) || has_suffix(
                    entries[j].name,
                    ".DSA".spec_bytes(),
                ) || has_suffix(entries[j].name, ".EC".spec_bytes()))
            }),
        apk_signatures(entries, block).apk_signing_block == block.is_present,
{
}

// ---------------------------------------------------------------------------
// Members of a container
// ---------------------------------------------------------------------------

/// A local header as a writer lays it out.
pub struct WrittenLocal {
    pub needed: u16,
    pub flags: u16,
    pub method: u16,
    pub time: u32,
    pub crc: u32,
    pub packed: u32,
    pub size: u32,
    pub name: Seq<u8>,
    pub extra: Seq<u8>,
}

impl WrittenLocal {
    /// The thirty bytes of the header.
    pub open spec fn header(self) -> Seq<u8> {
        (seq![0x50u8, 0x4b, 3, 4] + low2(self.needed) + low2(self.flags) + low2(self.method))
            + (low4(self.time) + low4(self.crc) + low4(self.packed) + low4(self.size)) + (low2(
            self.name.len() as u16,
        ) + low2(self.extra.len() as u16))
    }
}

/// The body of a member begins where its local header, its name and its extra field
/// end.
pub proof fn law_bodies_follow_their_headers(local: WrittenLocal, offset: u64, before: Seq<u8>)
    requires
        local.name.len() <= 0xffff,
        local.extra.len() <= 0xffff,
        before.len() == offset,
        offset <= 0xffff_ffff_ffff,
    ensures
        local.header().len() == 30,
        body_offset(offset as nat, local.header()) == Some(
            (before + local.header() + local.name + local.extra).len(),
        ),
{
    let header = local.header();
    let a = seq![0x50u8, 0x4b, 3, 4] + low2(local.needed) + low2(local.flags) + low2(local.method);
    let b = low4(local.time) + low4(local.crc) + low4(local.packed) + low4(local.size);
    let c = low2(local.name.len() as u16);
    let d = low2(local.extra.len() as u16);
    assert(a.len() == 10);
    assert(b.len() == 16);
    lemma_local_parts(a, b, c, d);
    law_low2_is_read(header, 26, local.name.len() as u16);
    law_low2_is_read(header, 28, local.extra.len() as u16);
    assert(a.subrange(0, 4) =~= seq![0x50u8, 0x4b, 3, 4]);
}

proof fn lemma_local_parts(a: Seq<u8>, b: Seq<u8>, c: Seq<u8>, d: Seq<u8>)
    requires
        a.len() == 10,
        b.len() == 16,
        c.len() == 2,
        d.len() == 2,
    ensures
        (a + b + (c + d)).len() == 30,
        (a + b + (c + d)).subrange(0, 4) == a.subrange(0, 4),
        (a + b + (c + d)).subrange(26, 28) == c,
        (a + b + (c + d)).subrange(28, 30) == d,
{
    let all = a + b + (c + d);
    assert(all.subrange(0, 4) =~= a.subrange(0, 4));
    assert(all.subrange(26, 28) =~= c);
    assert(all.subrange(28, 30) =~= d);
}

/// A member of a container has a name.
pub open spec fn holds(entries: Seq<ZipEntryView>, name: &str) -> bool {
    exists|i: int| 0 <= i < entries.len() && (#[trigger] entries[i]).name == name.spec_bytes()
}

/// A member of a container has a name with an ending.
pub open spec fn holds_ending(entries: Seq<ZipEntryView>, ending: &str) -> bool {
    exists|i: int|
        0 <= i < entries.len() && has_suffix((#[trigger] entries[i]).name, ending.spec_bytes())
}

/// Nothing is said of a Java archive exactly if it holds its manifest; nothing is said
/// of a wheel exactly if it holds its three lists.
pub proof fn law_archives_and_wheels_need_their_lists(entries: Seq<ZipEntryView>, body: bool)
    ensures
        profile_findings(ZipPackageProfile::Jar, entries, body).len() == 0 <==> holds(
            entries,
            "META-INF/MANIFEST.MF",
        ),
        profile_findings(ZipPackageProfile::Wheel, entries, body).len() == 0 <==> holds_ending(
            entries,
            ".dist-info/METADATA",
        ) && holds_ending(entries, ".dist-info/RECORD") && holds_ending(
            entries,
            ".dist-info/WHEEL",
        ),
{
}

/// An application package is complete exactly if it holds the members that its
/// platform asks for; a Windows package is signed exactly if it holds its signature.
pub proof fn law_applications_need_their_members(entries: Seq<ZipEntryView>)
    ensures
        is_complete(AppPackageProfile::Apk, entries) <==> holds(entries, "AndroidManifest.xml"),
        is_complete(AppPackageProfile::Msix, entries) <==> holds(entries, "AppxManifest.xml")
            && holds(entries, "[Content_Types].xml") && holds(entries, "AppxBlockMap.xml"),
        msix_signatures(entries).is_signed() <==> holds(entries, "AppxSignature.p7x"),
{
}

/// A single finding keeps a package from being valid unless it tells whether the
/// package is signed.
pub proof fn law_only_signatures_are_harmless(
    label: Seq<char>,
    path: Option<Seq<u8>>,
    code: PackageFindingCode,
    detail: Seq<char>,
)
    ensures
        blocks(seq![found(label, path, code, detail)]) <==> !(code is UnsignedPackage || code
            is SigningSchemeDetected),
{
    let findings = seq![found(label, path, code, detail)];
    assert(findings[0] == found(label, path, code, detail));
}

// ---------------------------------------------------------------------------
// Single profiles
// ---------------------------------------------------------------------------

/// A member is a manifest of a NuGet package at its root.
pub open spec fn is_root_manifest(entry: ZipEntryView) -> bool {
    !entry.name.contains(0x2f) && has_suffix(entry.name, ".nuspec".spec_bytes())
}

/// Exactly one member is a manifest at the root.
pub open spec fn has_one_manifest(entries: Seq<ZipEntryView>) -> bool {
    exists|i: int|
        0 <= i < entries.len() && is_root_manifest(#[trigger] entries[i]) && forall|j: int|
            0 <= j < entries.len() && is_root_manifest(#[trigger] entries[j]) ==> j == i
}

proof fn lemma_manifests(entries: Seq<ZipEntryView>)
    ensures
        root_nuspecs(entries).len() == 0 <==> forall|i: int|
            0 <= i < entries.len() ==> !is_root_manifest(#[trigger] entries[i]),
        root_nuspecs(entries).len() == 1 <==> has_one_manifest(entries),
    decreases entries.len(),
{
    if entries.len() > 0 {
        let front = entries.drop_last();
        let end = entries.len() - 1;
        lemma_manifests(front);
        assert(forall|i: int| 0 <= i < front.len() ==> front[i] == entries[i]);
        assert(entries.last() == entries[end]);
        if is_root_manifest(entries[end]) {
            if has_one_manifest(entries) {
                let i = choose|i: int|
                    0 <= i < entries.len() && is_root_manifest(#[trigger] entries[i]) && forall|
                        j: int,
                    |
                        0 <= j < entries.len() && is_root_manifest(#[trigger] entries[j]) ==> j
                            == i;
                assert(i == end);
                assert forall|j: int| 0 <= j < front.len() implies !is_root_manifest(
                    #[trigger] front[j],
                ) by {
                    assert(front[j] == entries[j]);
                }
            }
            if root_nuspecs(front).len() == 0 {
                assert forall|j: int|
                    0 <= j < entries.len() && is_root_manifest(#[trigger] entries[j]) implies j
                    == end by {
                    if j < end {
                        assert(!is_root_manifest(front[j]));
                    }
                }
            }
        } else {
            if has_one_manifest(entries) {
                let i = choose|i: int|
                    0 <= i < entries.len() && is_root_manifest(#[trigger] entries[i]) && forall|
                        j: int,
                    |
                        0 <= j < entries.len() && is_root_manifest(#[trigger] entries[j]) ==> j
                            == i;
                assert(is_root_manifest(front[i]));
                assert forall|j: int|
                    0 <= j < front.len() && is_root_manifest(#[trigger] front[j]) implies j == i by {
                    assert(is_root_manifest(entries[j]));
                }
            }
            if has_one_manifest(front) {
                let i = choose|i: int|
                    0 <= i < front.len() && is_root_manifest(#[trigger] front[i]) && forall|j: int|
                        0 <= j < front.len() && is_root_manifest(#[trigger] front[j]) ==> j == i;
                assert(is_root_manifest(entries[i]));
                assert forall|j: int|
                    0 <= j < entries.len() && is_root_manifest(#[trigger] entries[j]) implies j
                    == i by {
                    assert(j < end);
                    assert(is_root_manifest(front[j]));
                }
            }
        }
    }
}

/// Nothing is said of a NuGet package exactly if it holds its list of content types
/// and exactly one manifest at its root.
pub proof fn law_nuget_packages_have_one_manifest(entries: Seq<ZipEntryView>, body: bool)
    ensures
        profile_findings(ZipPackageProfile::NuGet, entries, body).len() == 0 <==> holds(
            entries,
            "[Content_Types].xml",
        ) && has_one_manifest(entries),
{
    lemma_manifests(entries);
}

proof fn lemma_first_member(entries: Seq<ZipEntryView>, name: Seq<u8>, at: int)
    requires
        0 <= at < entries.len(),
        entries[at].name == name,
        forall|i: int| 0 <= i < at ==> (#[trigger] entries[i]).name != name,
    ensures
        first_member(entries, name) == Some(entries[at]),
    decreases at,
{
    if at > 0 {
        assert(entries[0].name != name);
        let rest = entries.skip(1);
        assert(rest[at - 1] == entries[at]);
        assert forall|i: int| 0 <= i < at - 1 implies (#[trigger] rest[i]).name != name by {
            assert(rest[i] == entries[i + 1]);
        }
        lemma_first_member(rest, name, at - 1);
    }
}

proof fn lemma_no_member(entries: Seq<ZipEntryView>, name: Seq<u8>)
    requires
        forall|i: int| 0 <= i < entries.len() ==> (#[trigger] entries[i]).name != name,
    ensures
        first_member(entries, name) is None,
    decreases entries.len(),
{
    if entries.len() > 0 {
        let rest = entries.skip(1);
        assert forall|i: int| 0 <= i < rest.len() implies (#[trigger] rest[i]).name != name by {
            assert(rest[i] == entries[i + 1]);
        }
        assert(entries[0].name != name);
        lemma_no_member(rest, name);
    }
}

/// Nothing is said of a book exactly if its first `mimetype` stands before every other
/// member, is stored as it is and holds the right type, and the book holds its
/// container file; without a `mimetype` something is said.
pub proof fn law_books_begin_with_their_type(entries: Seq<ZipEntryView>, at: int, body: bool)
    ensures
        0 <= at < entries.len() && entries[at].name == "mimetype".spec_bytes() && (forall|i: int|
            0 <= i < at ==> (#[trigger] entries[i]).name != "mimetype".spec_bytes()) ==> (
        profile_findings(ZipPackageProfile::Epub, entries, body).len() == 0 <==> {
            &&& forall|i: int|
                0 <= i < entries.len() ==> entries[at].local_offset <= (#[trigger] entries[i]).local_offset
            &&& entries[at].method == 0
            &&& body
            &&& holds(entries, "META-INF/container.xml")
        }),
        !holds(entries, "mimetype") ==> profile_findings(
            ZipPackageProfile::Epub,
            entries,
            body,
        ).len() > 0,
{
    let name = "mimetype".spec_bytes();
    if 0 <= at < entries.len() && entries[at].name == name && (forall|i: int|
        0 <= i < at ==> (#[trigger] entries[i]).name != name) {
        lemma_first_member(entries, name, at);
    }
    if !holds(entries, "mimetype") {
        lemma_no_member(entries, name);
    }
}

/// The list of a bundle counts whatever the bundle's name is; that of a bundle without
/// a name does not.
pub proof fn law_bundles_have_their_list(bundle: Seq<u8>)
    requires
        bundle.len() > 0,
        !bundle.contains(0x2f),
    ensures
        bundle_list("Payload/".spec_bytes() + (bundle + ".app/Info.plist".spec_bytes())),
        !bundle_list("Payload/".spec_bytes() + ".app/Info.plist".spec_bytes()),
{
    reveal_strlit("Payload/");
    reveal_strlit(".app/");
    reveal_strlit("Info.plist");
    reveal_strlit(".app/Info.plist");
    lemma_ascii("Payload/");
    lemma_ascii(".app/");
    lemma_ascii("Info.plist");
    lemma_ascii(".app/Info.plist");
    let prefix = "Payload/".spec_bytes();
    let mark = ".app/".spec_bytes();
    let tail = ".app/Info.plist".spec_bytes();
    let rest = bundle + tail;
    let name = prefix + rest;
    let at = bundle.len() as int;
    assert(name.take(prefix.len() as int) =~= prefix);
    assert(name.skip(prefix.len() as int) =~= rest);
    assert(rest.subrange(at, at + mark.len()) =~= mark);
    assert(rest.take(at) =~= bundle);
    assert(rest.skip(at + mark.len()) =~= "Info.plist".spec_bytes());
    assert forall|i: int| 0 <= i < at implies !occurs_at(rest, mark, i) by {
        if occurs_at(rest, mark, i) {
            assert(rest.subrange(i, i + 5)[4] == rest[i + 4]);
            assert(mark[4] == 0x2f);
            if i + 4 < at {
                assert(bundle.contains(bundle[i + 4]));
            } else {
                assert(rest[i + 4] == tail[i + 4 - at]);
                assert(tail[0] == 0x2e && tail[1] == 0x61 && tail[2] == 0x70 && tail[3] == 0x70);
            }
        }
    }
    assert(first_occurs_at(rest, mark, at));
    let bare = prefix + tail;
    assert(bare.skip(prefix.len() as int) =~= tail);
    assert(tail.subrange(0, 5) =~= mark);
    assert(occurs_at(tail, mark, 0));
}

} // verus!
