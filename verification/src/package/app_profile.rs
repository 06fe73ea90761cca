//! Application packages that are ZIP containers: Android, iOS and Windows.

use vstd::prelude::*;
use vstd::string::*;
use crate::bytes::{
    contains_byte, ends_with, has_prefix, has_suffix, le32, le64, le_u32, le_u64, same_bytes,
    starts_with,
};
use crate::limits::Limits;
use crate::package::finding::{
    blocks, findings_view, found, has_blocking, holds_code, report, FindingView, PackageFinding,
    PackageFindingCode, SupportStatus,
};
use crate::package::zip_profile::{contains_member, has_member, missing, report_if, said_if};
use crate::package::zip_reader::{
    check_common_structure, common_findings, entries_view, ZipEntry, ZipEntryView,
};
use crate::parts::SLASH;
use crate::path::PathRules;
use crate::text::join;

verus! {

/// The bytes before the central directory that tell of a signing block.
pub const APK_SIG_BLOCK_FOOTER: usize = 24;

/// The number of a second version signature.
pub const APK_V2_BLOCK_ID: u32 = 0x7109_871a;

/// The number of a third version signature.
pub const APK_V3_BLOCK_ID: u32 = 0xf053_68c0;

/// How much of a signing block is looked at without a metadata budget.
pub const APK_SIG_SCAN_FALLBACK: u64 = 8_388_608;

/// A kind of application package.
#[derive(Clone, Copy, Debug, PartialEq, Eq, Hash, Structural)]
pub enum AppPackageProfile {
    /// Android: has `AndroidManifest.xml`.
    Apk,
    /// iOS: has `Payload/<name>.app/Info.plist`.
    Ipa,
    /// Windows: has `AppxManifest.xml`, `[Content_Types].xml` and
    /// `AppxBlockMap.xml`.
    Msix,
}

impl AppPackageProfile {
    /// The name of the profile.
    pub open spec fn words(self) -> Seq<char> {
        match self {
            AppPackageProfile::Apk => "apk"@,
            AppPackageProfile::Ipa => "ipa"@,
            AppPackageProfile::Msix => "msix"@,
        }
    }

    /// The name of the profile.
    pub fn label(self) -> (label: &'static str)
        ensures
            label@ == self.words(),
    {
        match self {
            AppPackageProfile::Apk => "apk",
            AppPackageProfile::Ipa => "ipa",
            AppPackageProfile::Msix => "msix",
        }
    }
}

/// The signatures that were found.
#[derive(Clone, Copy, Debug, PartialEq, Eq, Structural)]
pub struct AppSignatureReport {
    pub apk_v1: bool,
    pub apk_v2: bool,
    pub apk_v3: bool,
    pub apk_signing_block: bool,
    pub embedded_signature: bool,
}

/// No signature.
pub open spec fn unsigned() -> AppSignatureReport {
    AppSignatureReport {
        apk_v1: false,
        apk_v2: false,
        apk_v3: false,
        apk_signing_block: false,
        embedded_signature: false,
    }
}

impl Default for AppSignatureReport {
    fn default() -> (signatures: Self)
        ensures
            signatures == unsigned(),
    {
        AppSignatureReport::none()
    }
}

impl AppSignatureReport {
    /// There is a signature.
    pub open spec fn is_signed(self) -> bool {
        self != unsigned()
    }

    /// No signature was found.
    pub fn none() -> (signatures: Self)
        ensures
            signatures == unsigned(),
    {
        AppSignatureReport {
            apk_v1: false,
            apk_v2: false,
            apk_v3: false,
            apk_signing_block: false,
            embedded_signature: false,
        }
    }

    /// Whether there is a first version signature in `META-INF`.
    pub fn apk_v1(self) -> (found: bool)
        ensures
            found == self.apk_v1,
    {
        self.apk_v1
    }

    /// Whether the signing block holds a second version signature.
    pub fn apk_v2(self) -> (found: bool)
        ensures
            found == self.apk_v2,
    {
        self.apk_v2
    }

    /// Whether the signing block holds a third version signature.
    pub fn apk_v3(self) -> (found: bool)
        ensures
            found == self.apk_v3,
    {
        self.apk_v3
    }

    /// Whether there is a signing block.
    pub fn apk_signing_block(self) -> (found: bool)
        ensures
            found == self.apk_signing_block,
    {
        self.apk_signing_block
    }

    /// Whether there is a signature of a Windows package.
    pub fn embedded_signature(self) -> (found: bool)
        ensures
            found == self.embedded_signature,
    {
        self.embedded_signature
    }

    /// Whether there is any signature.
    pub fn any(self) -> (found: bool)
        ensures
            found == self.is_signed(),
    {
        self.apk_v1 || self.apk_v2 || self.apk_v3 || self.apk_signing_block
            || self.embedded_signature
    }
}

// ---------------------------------------------------------------------------
// The signing block
// ---------------------------------------------------------------------------

/// The bytes that end a signing block.
pub open spec fn block_magic() -> Seq<u8> {
    "APK Sig Block 42".spec_bytes()
}

/// Where the footer of a signing block would stand.
pub open spec fn footer_place(central_offset: nat) -> Option<nat> {
    if central_offset < APK_SIG_BLOCK_FOOTER {
        None
    } else {
        Some((central_offset - APK_SIG_BLOCK_FOOTER) as nat)
    }
}

/// Finds where the footer of a signing block would stand.
pub fn find_footer(central_offset: u64) -> (place: Option<u64>)
    ensures
        match place {
            Some(place) => footer_place(central_offset as nat) == Some(place as nat),
            None => footer_place(central_offset as nat) is None,
        },
{
    if central_offset < APK_SIG_BLOCK_FOOTER as u64 {
        None
    } else {
        Some(central_offset - APK_SIG_BLOCK_FOOTER as u64)
    }
}

/// How much of a signing block may be looked at.
pub open spec fn scan_budget(limits: Limits) -> nat {
    match limits.metadata_bytes {
        Some(limit) => limit as nat,
        None => APK_SIG_SCAN_FALLBACK as nat,
    }
}

/// What a footer tells of a signing block.
#[derive(Clone, Copy, Debug, PartialEq, Eq)]
pub struct SigningBlock {
    /// Where the part to look at begins, and how long it is.
    pub region: Option<(u64, u64)>,
    /// The block is longer than what may be looked at.
    pub is_cut: bool,
}

/// What a footer tells of a signing block before a central directory.
pub open spec fn told_block(central_offset: nat, footer: Seq<u8>, budget: nat) -> Option<
    SigningBlock,
> {
    let size = le64(footer, 0);
    // A size of its own stands before the block, and the footer counts into it.
    let start = central_offset - size;
    let length = size - APK_SIG_BLOCK_FOOTER;
    if footer.subrange(8, 24) != block_magic() {
        None
    } else if central_offset - 8 - size < 0 || length < 0 {
        Some(SigningBlock { region: None, is_cut: false })
    } else {
        Some(
            SigningBlock {
                region: Some(
                    (
                        start as u64,
                        if length > budget {
                            budget as u64
                        } else {
                            length as u64
                        },
                    ),
                ),
                is_cut: length > budget,
            },
        )
    }
}

/// Reads what a footer tells of a signing block.
pub fn read_footer(central_offset: u64, footer: &[u8], limits: Limits) -> (block: Option<
    SigningBlock,
>)
    requires
        footer@.len() == APK_SIG_BLOCK_FOOTER,
        central_offset >= APK_SIG_BLOCK_FOOTER,
    ensures
        block == told_block(central_offset as nat, footer@, scan_budget(limits)),
{
    let magic = &footer[8..24];
    proof {
        assert(magic@ =~= footer@.subrange(8, 24));
    }
    if !same_bytes(magic, "APK Sig Block 42".as_bytes()) {
        return None;
    }
    let none = SigningBlock { region: None, is_cut: false };
    let size: u64 = le_u64(footer, 0);
    if central_offset - 8 < size {
        return Some(none);
    }
    let region_start: u64 = central_offset - size;
    let region_end: u64 = central_offset - APK_SIG_BLOCK_FOOTER as u64;
    if region_start > region_end {
        return Some(none);
    }
    let length: u64 = region_end - region_start;
    let budget: u64 = match limits.metadata_bytes {
        Some(limit) => limit as u64,
        None => APK_SIG_SCAN_FALLBACK,
    };
    if length > budget {
        Some(SigningBlock { region: Some((region_start, budget)), is_cut: true })
    } else {
        Some(SigningBlock { region: Some((region_start, length)), is_cut: false })
    }
}

/// The numbers of the pairs in a signing block, up to the first that is broken.
pub open spec fn block_ids(region: Seq<u8>) -> Seq<nat>
    decreases region.len(),
{
    if region.len() < 12 {
        Seq::empty()
    } else {
        let length = le64(region, 0);
        let next = 8 + length;
        if length < 4 || next > region.len() {
            Seq::empty()
        } else {
            seq![le32(region, 8)] + block_ids(region.skip(next as int))
        }
    }
}

/// Which signatures stand in a signing block: the second and the third version.
pub fn scan_apk_id_value_pairs(region: &[u8]) -> (versions: (bool, bool))
    ensures
        versions.0 == block_ids(region@).contains(APK_V2_BLOCK_ID as nat),
        versions.1 == block_ids(region@).contains(APK_V3_BLOCK_ID as nat),
{
    let count: usize = region.len();
    let mut second: bool = false;
    let mut third: bool = false;
    let mut cursor: usize = 0;
    let ghost ids = block_ids(region@);
    let ghost mut seen = Seq::<nat>::empty();
    proof {
        assert(region@.skip(0) =~= region@);
        assert(seen + ids =~= ids);
    }
    while count - cursor >= 12
        invariant
            count == region@.len(),
            cursor <= count,
            ids == block_ids(region@),
            ids == seen + block_ids(region@.skip(cursor as int)),
            second == seen.contains(APK_V2_BLOCK_ID as nat),
            third == seen.contains(APK_V3_BLOCK_ID as nat),
        decreases count - cursor,
    {
        let ghost rest = region@.skip(cursor as int);
        let length: u64 = le_u64(region, cursor);
        proof {
            assert(forall|k: int| 0 <= k < 12 ==> rest[k] == region@[cursor + k]);
            assert(length == le64(rest, 0));
        }
        if length < 4 || length > (count - cursor - 8) as u64 {
            proof {
                assert(block_ids(rest) =~= Seq::<nat>::empty());
                assert(ids =~= seen);
            }
            return (second, third);
        }
        let id: u32 = le_u32(region, cursor + 8);
        let next: usize = cursor + 8 + length as usize;
        proof {
            let more = seen.push(id as nat);
            assert(id == le32(rest, 8));
            assert(rest.skip(8 + length as int) =~= region@.skip(next as int));
            assert(ids =~= more + block_ids(region@.skip(next as int)));
            assert forall|x: nat| #[trigger] more.contains(x) == (seen.contains(x) || x == id) by {
                if seen.contains(x) {
                    let i = choose|i: int| 0 <= i < seen.len() && seen[i] == x;
                    assert(more[i] == x);
                }
                if x == id {
                    assert(more[seen.len() as int] == x);
                }
            }
            assert(more.contains(APK_V2_BLOCK_ID as nat) == (second || id == APK_V2_BLOCK_ID));
            assert(more.contains(APK_V3_BLOCK_ID as nat) == (third || id == APK_V3_BLOCK_ID));
            seen = more;
        }
        if id == APK_V2_BLOCK_ID {
            second = true;
        } else if id == APK_V3_BLOCK_ID {
            third = true;
        }
        cursor = next;
    }
    proof {
        assert(block_ids(region@.skip(cursor as int)) =~= Seq::<nat>::empty());
        assert(ids =~= seen);
    }
    (second, third)
}

// ---------------------------------------------------------------------------
// Members by name
// ---------------------------------------------------------------------------

/// A name directly in `META-INF`.
pub open spec fn in_meta_inf(name: Seq<u8>) -> bool {
    let prefix = "META-INF/".spec_bytes();
    let rest = name.skip(prefix.len() as int);
    has_prefix(name, prefix) && rest.len() > 0 && !rest.contains(SLASH)
}

/// Whether a name stands directly in `META-INF`.
pub fn is_meta_inf(name: &[u8]) -> (found: bool)
    ensures
        found == in_meta_inf(name@),
{
    let prefix = "META-INF/".as_bytes();
    if !starts_with(name, prefix) {
        return false;
    }
    let rest = &name[prefix.len()..name.len()];
    proof {
        assert(rest@ =~= name@.skip(prefix@.len() as int));
    }
    rest.len() > 0 && !contains_byte(rest, SLASH)
}

/// A manifest of a first version signature.
pub open spec fn signature_manifest(name: Seq<u8>) -> bool {
    in_meta_inf(name) && has_suffix(name, ".SF".spec_bytes())
}

/// A first version signature.
pub open spec fn signature_file(name: Seq<u8>) -> bool {
    in_meta_inf(name) && (has_suffix(name, ".RSA".spec_bytes()) || has_suffix(
        name,
        ".DSA".spec_bytes(),
    ) || has_suffix(name, ".EC".spec_bytes()))
}

/// There is a first version signature with its manifest.
pub open spec fn has_first_signature(entries: Seq<ZipEntryView>) -> bool {
    &&& exists|i: int| 0 <= i < entries.len() && signature_manifest((#[trigger] entries[i]).name)
    &&& exists|i: int| 0 <= i < entries.len() && signature_file((#[trigger] entries[i]).name)
}

/// Whether there is a first version signature with its manifest.
pub fn detect_apk_v1(entries: &[ZipEntry]) -> (found: bool)
    ensures
        found == has_first_signature(entries_view(entries@)),
{
    let ghost views = entries_view(entries@);
    let mut manifest: bool = false;
    let mut file: bool = false;
    let mut i: usize = 0;
    while i < entries.len()
        invariant
            i <= entries@.len(),
            views == entries_view(entries@),
            manifest == exists|j: int|
                0 <= j < i && signature_manifest((#[trigger] views[j]).name),
            file == exists|j: int| 0 <= j < i && signature_file((#[trigger] views[j]).name),
        decreases entries@.len() - i,
    {
        let name = entries[i].name.as_slice();
        proof {
            assert(views[i as int].name == name@);
        }
        if is_meta_inf(name) {
            if ends_with(name, ".SF".as_bytes()) {
                proof {
                    assert(signature_manifest(views[i as int].name));
                }
                manifest = true;
            }
            if ends_with(name, ".RSA".as_bytes()) || ends_with(name, ".DSA".as_bytes())
                || ends_with(name, ".EC".as_bytes()) {
                proof {
                    assert(signature_file(views[i as int].name));
                }
                file = true;
            }
        }
        i += 1;
    }
    manifest && file
}

/// Bytes occur at a place.
pub open spec fn occurs_at(whole: Seq<u8>, part: Seq<u8>, at: int) -> bool {
    0 <= at && at + part.len() <= whole.len() && whole.subrange(at, at + part.len()) == part
}

/// Bytes occur at a place and nowhere before.
pub open spec fn first_occurs_at(whole: Seq<u8>, part: Seq<u8>, at: int) -> bool {
    occurs_at(whole, part, at) && forall|i: int| 0 <= i < at ==> !#[trigger] occurs_at(
        whole,
        part,
        i,
    )
}

/// Where bytes occur first. `None` if they do not occur, or are none.
pub fn find_subslice(whole: &[u8], part: &[u8]) -> (found: Option<usize>)
    ensures
        match found {
            Some(at) => part@.len() > 0 && first_occurs_at(whole@, part@, at as int),
            None => part@.len() == 0 || forall|i: int| !#[trigger] occurs_at(whole@, part@, i),
        },
{
    let count: usize = part.len();
    let total: usize = whole.len();
    if count == 0 || count > total {
        return None;
    }
    let last: usize = total - count;
    let mut at: usize = 0;
    loop
        invariant
            count == part@.len(),
            total == whole@.len(),
            0 < count <= total,
            last == total - count,
            at <= last,
            forall|i: int| 0 <= i < at ==> !#[trigger] occurs_at(whole@, part@, i),
        decreases last - at,
    {
        let window = &whole[at..at + count];
        proof {
            assert(window@ =~= whole@.subrange(at as int, at + count));
        }
        if same_bytes(window, part) {
            return Some(at);
        }
        if at == last {
            return None;
        }
        at += 1;
    }
}

/// The list of a bundle at its root: `Payload/<name>.app/Info.plist`, where the
/// bundle's name ends at the first `.app/` and is a single component.
pub open spec fn bundle_list(name: Seq<u8>) -> bool {
    let prefix = "Payload/".spec_bytes();
    let mark = ".app/".spec_bytes();
    let rest = name.skip(prefix.len() as int);
    has_prefix(name, prefix) && exists|at: int|
        0 < at && #[trigger] first_occurs_at(rest, mark, at) && !rest.take(at).contains(SLASH)
            && rest.skip(at + mark.len()) == "Info.plist".spec_bytes()
}

/// Whether a name is the list of a bundle at its root.
pub fn is_ipa_info_plist(name: &[u8]) -> (found: bool)
    ensures
        found == bundle_list(name@),
{
    let prefix = "Payload/".as_bytes();
    if !starts_with(name, prefix) {
        return false;
    }
    let rest = &name[prefix.len()..name.len()];
    proof {
        assert(rest@ =~= name@.skip(prefix@.len() as int));
    }
    let mark = ".app/".as_bytes();
    match find_subslice(rest, mark) {
        None => {
            proof {
                lemma_mark();
                assert(forall|at: int| !#[trigger] first_occurs_at(rest@, mark@, at)) by {
                    assert forall|at: int| !#[trigger] first_occurs_at(rest@, mark@, at) by {
                        assert(!occurs_at(rest@, mark@, at));
                    }
                }
            }
            false
        },
        Some(at) => {
            let bundle = &rest[0..at];
            let inside = &rest[at + mark.len()..rest.len()];
            proof {
                assert(bundle@ =~= rest@.take(at as int));
                assert(inside@ =~= rest@.skip(at + mark@.len()));
                assert forall|other: int| #[trigger] first_occurs_at(
                    rest@,
                    mark@,
                    other,
                ) implies other == at by {
                    if other < at {
                        assert(!occurs_at(rest@, mark@, other));
                    } else if other > at {
                        assert(!occurs_at(rest@, mark@, at as int));
                    }
                }
            }
            at > 0 && !contains_byte(bundle, SLASH) && same_bytes(inside, "Info.plist".as_bytes())
        },
    }
}

proof fn lemma_mark()
    ensures
        ".app/".spec_bytes().len() > 0,
{
    reveal_strlit(".app/");
    broadcast use vstd::utf8::group_utf8_lib;

    vstd::utf8::is_ascii_chars_encode_utf8(".app/"@);
}

// ---------------------------------------------------------------------------
// The profiles
// ---------------------------------------------------------------------------

/// What was found before the central directory: whether there is a signing
/// block, whether it was cut, and what was read of it.
#[derive(Clone, Debug)]
pub struct ReadSigningBlock {
    pub found: Option<FoundSigningBlock>,
}

/// A signing block that was found: whether it is read in part only, and what was
/// read of it.
#[derive(Clone, Debug)]
pub struct FoundSigningBlock {
    pub is_cut: bool,
    pub region: Option<Vec<u8>>,
}

/// The mathematical content of a [`ReadSigningBlock`].
#[verifier::ext_equal]
pub struct ReadBlockView {
    pub is_present: bool,
    pub is_cut: bool,
    pub region: Option<Seq<u8>>,
}

impl View for ReadSigningBlock {
    type V = ReadBlockView;

    open spec fn view(&self) -> ReadBlockView {
        match self.found {
            None => ReadBlockView { is_present: false, is_cut: false, region: None },
            Some(block) => ReadBlockView {
                is_present: true,
                is_cut: block.is_cut,
                region: match block.region {
                    Some(region) => Some(region@),
                    None => None,
                },
            },
        }
    }
}

impl ReadSigningBlock {
    /// There is no signing block.
    pub fn absent() -> (block: Self)
        ensures
            block@ == (ReadBlockView { is_present: false, is_cut: false, region: None }),
    {
        ReadSigningBlock { found: None }
    }

    /// There is a signing block.
    pub fn present(is_cut: bool, region: Option<Vec<u8>>) -> (block: Self)
        ensures
            block@ == (ReadBlockView {
                is_present: true,
                is_cut,
                region: match region {
                    Some(region) => Some(region@),
                    None => None,
                },
            }),
    {
        ReadSigningBlock { found: Some(FoundSigningBlock { is_cut, region }) }
    }
}

/// The signatures of an Android package.
pub open spec fn apk_signatures(
    entries: Seq<ZipEntryView>,
    block: ReadBlockView,
) -> AppSignatureReport {
    let ids = match block.region {
        Some(region) => block_ids(region),
        None => Seq::empty(),
    };
    AppSignatureReport {
        apk_v1: has_first_signature(entries),
        apk_v2: ids.contains(APK_V2_BLOCK_ID as nat),
        apk_v3: ids.contains(APK_V3_BLOCK_ID as nat),
        apk_signing_block: block.is_present,
        embedded_signature: false,
    }
}

/// The names of versions with commas between them.
pub open spec fn version_list(first: bool, second: bool, third: bool) -> Seq<char> {
    let start = if first {
        "v1"@
    } else {
        Seq::empty()
    };
    let middle = if second {
        if first {
            start + ", "@ + "v2"@
        } else {
            "v2"@
        }
    } else {
        start
    };
    if third {
        if first || second {
            middle + ", "@ + "v3"@
        } else {
            "v3"@
        }
    } else {
        middle
    }
}

/// The signatures of an Android package in words.
pub open spec fn apk_words(signatures: AppSignatureReport) -> Seq<char> {
    if !signatures.apk_v1 && !signatures.apk_v2 && !signatures.apk_v3
        && signatures.apk_signing_block {
        "APK Signing Block present with no recognized v2/v3 id"@
    } else {
        "detected APK signing schemes: "@ + version_list(
            signatures.apk_v1,
            signatures.apk_v2,
            signatures.apk_v3,
        )
    }
}

/// The signatures of an Android package in words.
pub fn describe_apk(signatures: AppSignatureReport) -> (text: String)
    ensures
        text@ == apk_words(signatures),
{
    if !signatures.apk_v1 && !signatures.apk_v2 && !signatures.apk_v3
        && signatures.apk_signing_block {
        return "APK Signing Block present with no recognized v2/v3 id".to_string();
    }
    let mut text = "detected APK signing schemes: ".to_string();
    if signatures.apk_v1 {
        text.append("v1");
    }
    if signatures.apk_v2 {
        if signatures.apk_v1 {
            text.append(", ");
        }
        text.append("v2");
    }
    if signatures.apk_v3 {
        if signatures.apk_v1 || signatures.apk_v2 {
            text.append(", ");
        }
        text.append("v3");
    }
    proof {
        assert(text@ =~= apk_words(signatures));
    }
    text
}

/// What is to be said about signatures.
pub open spec fn signature_finding(label: Seq<char>, detail: Seq<char>, signed: bool) -> FindingView {
    if signed {
        found(label, None, PackageFindingCode::SigningSchemeDetected, detail)
    } else {
        found(
            label,
            None,
            PackageFindingCode::UnsignedPackage,
            "no package signature was detected"@,
        )
    }
}

/// Reports whether a package is signed.
pub fn report_signatures(
    label: &'static str,
    detail: &str,
    signed: bool,
    findings: &mut Vec<PackageFinding>,
)
    ensures
        findings_view(final(findings)@) == findings_view(old(findings)@).push(
            signature_finding(label@, detail@, signed),
        ),
{
    let finding = if signed {
        PackageFinding::new(label, None, PackageFindingCode::SigningSchemeDetected, detail)
    } else {
        PackageFinding::new(
            label,
            None,
            PackageFindingCode::UnsignedPackage,
            "no package signature was detected",
        )
    };
    report(findings, finding);
}

/// What is to be said about an Android package without a manifest.
pub open spec fn apk_missing(label: Seq<char>, entries: Seq<ZipEntryView>) -> Seq<FindingView> {
    said_if(
        !has_member(entries, "AndroidManifest.xml".spec_bytes()),
        missing(label, "archive has no root AndroidManifest.xml member"@),
    )
}

/// What is to be said about an Android package.
pub open spec fn apk_findings(
    label: Seq<char>,
    entries: Seq<ZipEntryView>,
    block: ReadBlockView,
) -> Seq<FindingView> {
    let signatures = apk_signatures(entries, block);
    (apk_missing(label, entries) + said_if(
        block.is_cut,
        found(
            label,
            None,
            PackageFindingCode::SigningSchemeDetected,
            "APK Signing Block exceeds the scan budget; scanned a bounded prefix only"@,
        ),
    )).push(signature_finding(label, apk_words(signatures), signatures.is_signed()))
}

/// Checks an Android package. The result tells whether nothing is missing, and
/// the signatures.
pub fn check_apk(
    label: &'static str,
    entries: &[ZipEntry],
    block: &ReadSigningBlock,
    findings: &mut Vec<PackageFinding>,
) -> (result: (bool, AppSignatureReport))
    ensures
        findings_view(final(findings)@) == findings_view(old(findings)@) + apk_findings(
            label@,
            entries_view(entries@),
            block@,
        ),
        result.0 == (apk_missing(label@, entries_view(entries@)).len() == 0),
        result.1 == apk_signatures(entries_view(entries@), block@),
{
    let ghost start = findings_view(findings@);
    let present: bool = contains_member(entries, "AndroidManifest.xml".as_bytes());
    report_if(
        !present,
        label,
        None,
        PackageFindingCode::MissingRequiredMember,
        "archive has no root AndroidManifest.xml member",
        findings,
    );
    let is_cut: bool = match &block.found {
        Some(found) => found.is_cut,
        None => false,
    };
    report_if(
        is_cut,
        label,
        None,
        PackageFindingCode::SigningSchemeDetected,
        "APK Signing Block exceeds the scan budget; scanned a bounded prefix only",
        findings,
    );
    let (second, third) = match &block.found {
        Some(FoundSigningBlock { region: Some(region), .. }) => scan_apk_id_value_pairs(
            region.as_slice(),
        ),
        _ => (false, false),
    };
    let signatures = AppSignatureReport {
        apk_v1: detect_apk_v1(entries),
        apk_v2: second,
        apk_v3: third,
        apk_signing_block: block.found.is_some(),
        embedded_signature: false,
    };
    let detail = describe_apk(signatures);
    report_signatures(label, detail.as_str(), signatures.any(), findings);
    proof {
        assert(findings_view(findings@) =~= start + apk_findings(
            label@,
            entries_view(entries@),
            block@,
        ));
    }
    (present, signatures)
}

/// What is to be said about an iOS package.
pub open spec fn ipa_findings(label: Seq<char>, entries: Seq<ZipEntryView>) -> Seq<FindingView> {
    said_if(
        !exists|i: int| 0 <= i < entries.len() && bundle_list((#[trigger] entries[i]).name),
        missing(label, "archive has no Payload/<name>.app/Info.plist bundle"@),
    )
}

/// Checks an iOS package. The result tells whether nothing is missing.
pub fn check_ipa(
    label: &'static str,
    entries: &[ZipEntry],
    findings: &mut Vec<PackageFinding>,
) -> (satisfied: bool)
    ensures
        findings_view(final(findings)@) == findings_view(old(findings)@) + ipa_findings(
            label@,
            entries_view(entries@),
        ),
        satisfied == (ipa_findings(label@, entries_view(entries@)).len() == 0),
{
    let ghost views = entries_view(entries@);
    let mut found: bool = false;
    let mut i: usize = 0;
    while i < entries.len() && !found
        invariant
            i <= entries@.len(),
            views == entries_view(entries@),
            found == exists|j: int| 0 <= j < i && bundle_list((#[trigger] views[j]).name),
        decreases entries@.len() - i,
    {
        if is_ipa_info_plist(entries[i].name.as_slice()) {
            proof {
                assert(bundle_list(views[i as int].name));
            }
            found = true;
        }
        i += 1;
    }
    report_if(
        !found,
        label,
        None,
        PackageFindingCode::MissingRequiredMember,
        "archive has no Payload/<name>.app/Info.plist bundle",
        findings,
    );
    found
}

/// What is to be said about a Windows package without a member.
pub open spec fn msix_part(
    label: Seq<char>,
    entries: Seq<ZipEntryView>,
    name: &str,
) -> Seq<FindingView> {
    said_if(
        !has_member(entries, name.spec_bytes()),
        missing(label, "archive has no "@ + name@ + " member"@),
    )
}

/// What is to be said about a Windows package with members missing.
pub open spec fn msix_missing(label: Seq<char>, entries: Seq<ZipEntryView>) -> Seq<FindingView> {
    msix_part(label, entries, "AppxManifest.xml") + msix_part(label, entries, "[Content_Types].xml")
        + msix_part(label, entries, "AppxBlockMap.xml")
}

/// The signatures of a Windows package.
pub open spec fn msix_signatures(entries: Seq<ZipEntryView>) -> AppSignatureReport {
    AppSignatureReport {
        embedded_signature: has_member(entries, "AppxSignature.p7x".spec_bytes()),
        ..unsigned()
    }
}

/// What is to be said about a Windows package.
pub open spec fn msix_findings(label: Seq<char>, entries: Seq<ZipEntryView>) -> Seq<FindingView> {
    msix_missing(label, entries).push(
        signature_finding(
            label,
            "detected MSIX AppxSignature.p7x signature"@,
            msix_signatures(entries).is_signed(),
        ),
    )
}

fn check_msix_part(
    label: &'static str,
    entries: &[ZipEntry],
    name: &str,
    findings: &mut Vec<PackageFinding>,
) -> (present: bool)
    ensures
        findings_view(final(findings)@) == findings_view(old(findings)@) + msix_part(
            label@,
            entries_view(entries@),
            name,
        ),
        present == (msix_part(label@, entries_view(entries@), name).len() == 0),
{
    let present: bool = contains_member(entries, name.as_bytes());
    let mut detail = join("archive has no ", name);
    detail.append(" member");
    report_if(
        !present,
        label,
        None,
        PackageFindingCode::MissingRequiredMember,
        detail.as_str(),
        findings,
    );
    present
}

/// Checks a Windows package. The result tells whether nothing is missing, and
/// the signatures.
pub fn check_msix(
    label: &'static str,
    entries: &[ZipEntry],
    findings: &mut Vec<PackageFinding>,
) -> (result: (bool, AppSignatureReport))
    ensures
        findings_view(final(findings)@) == findings_view(old(findings)@) + msix_findings(
            label@,
            entries_view(entries@),
        ),
        result.0 == (msix_missing(label@, entries_view(entries@)).len() == 0),
        result.1 == msix_signatures(entries_view(entries@)),
{
    let ghost start = findings_view(findings@);
    let manifest: bool = check_msix_part(label, entries, "AppxManifest.xml", findings);
    let types: bool = check_msix_part(label, entries, "[Content_Types].xml", findings);
    let blocks: bool = check_msix_part(label, entries, "AppxBlockMap.xml", findings);
    let mut signatures = AppSignatureReport::none();
    signatures.embedded_signature = contains_member(entries, "AppxSignature.p7x".as_bytes());
    report_signatures(
        label,
        "detected MSIX AppxSignature.p7x signature",
        signatures.embedded_signature,
        findings,
    );
    proof {
        assert(findings_view(findings@) =~= start + msix_findings(
            label@,
            entries_view(entries@),
        ));
    }
    (manifest && types && blocks, signatures)
}

// ---------------------------------------------------------------------------
// The verdict
// ---------------------------------------------------------------------------

/// What a profile has to say about a package.
pub open spec fn app_findings(
    profile: AppPackageProfile,
    entries: Seq<ZipEntryView>,
    block: ReadBlockView,
) -> Seq<FindingView> {
    match profile {
        AppPackageProfile::Apk => apk_findings(profile.words(), entries, block),
        AppPackageProfile::Ipa => ipa_findings(profile.words(), entries),
        AppPackageProfile::Msix => msix_findings(profile.words(), entries),
    }
}

/// No member that a profile requires is missing.
pub open spec fn is_complete(profile: AppPackageProfile, entries: Seq<ZipEntryView>) -> bool {
    match profile {
        AppPackageProfile::Apk => apk_missing(profile.words(), entries).len() == 0,
        AppPackageProfile::Ipa => ipa_findings(profile.words(), entries).len() == 0,
        AppPackageProfile::Msix => msix_missing(profile.words(), entries).len() == 0,
    }
}

/// The signatures of a package.
pub open spec fn app_signatures(
    profile: AppPackageProfile,
    entries: Seq<ZipEntryView>,
    block: ReadBlockView,
) -> AppSignatureReport {
    match profile {
        AppPackageProfile::Apk => apk_signatures(entries, block),
        AppPackageProfile::Ipa => unsigned(),
        AppPackageProfile::Msix => msix_signatures(entries),
    }
}

/// A second or third version signature stands in a signing block; only Android
/// packages have one or a first version signature, and only Windows packages have an
/// embedded signature.
pub proof fn law_signatures_fit_the_profile(
    profile: AppPackageProfile,
    entries: Seq<ZipEntryView>,
    block: ReadSigningBlock,
)
    ensures
        ({
            let signatures = app_signatures(profile, entries, block@);
            &&& signatures.apk_v2 || signatures.apk_v3 ==> signatures.apk_signing_block
            &&& !(profile is Apk) ==> !signatures.apk_v1 && !signatures.apk_v2
                && !signatures.apk_v3 && !signatures.apk_signing_block
            &&& !(profile is Msix) ==> !signatures.embedded_signature
        }),
{
}

/// What a profile has to say blocks a package only if a member is missing:
/// whether and how it is signed never does.
pub proof fn law_signatures_do_not_block(
    profile: AppPackageProfile,
    entries: Seq<ZipEntryView>,
    block: ReadBlockView,
)
    ensures
        blocks(app_findings(profile, entries, block)) == !is_complete(profile, entries),
{
    let said = app_findings(profile, entries, block);
    match profile {
        AppPackageProfile::Apk => {
            if !is_complete(profile, entries) {
                assert(said[0].severity == crate::package::finding::Severity::Error);
            }
        },
        AppPackageProfile::Ipa => {
            if !is_complete(profile, entries) {
                assert(said[0].severity == crate::package::finding::Severity::Error);
            }
        },
        AppPackageProfile::Msix => {
            let missing = msix_missing(profile.words(), entries);
            if !is_complete(profile, entries) {
                assert(said[0] == missing[0]);
                assert(said[0].severity == crate::package::finding::Severity::Error);
            }
        },
    }
}

/// The verdict on a package.
#[derive(Clone, Debug)]
pub struct AppPackageValidation {
    pub status: SupportStatus,
    pub findings: Vec<PackageFinding>,
    pub profile: AppPackageProfile,
    pub signatures: AppSignatureReport,
}

impl AppPackageValidation {
    /// Whether the container could be read and the package keeps to its profile.
    pub fn status(&self) -> (status: SupportStatus)
        ensures
            status == self.status,
    {
        self.status
    }

    /// Whether the directory could be read.
    pub fn container_readable(&self) -> (readable: bool)
        ensures
            readable == self.status.container_readable,
    {
        self.status.container_readable()
    }

    /// Whether the package keeps to its profile.
    pub fn profile_valid(&self) -> (valid: bool)
        ensures
            valid == self.status.profile_valid,
    {
        self.status.profile_valid()
    }

    /// The profile that was checked.
    pub fn profile(&self) -> (profile: AppPackageProfile)
        ensures
            profile == self.profile,
    {
        self.profile
    }

    /// The signatures that were found.
    pub fn signatures(&self) -> (signatures: AppSignatureReport)
        ensures
            signatures == self.signatures,
    {
        self.signatures
    }

    /// The findings, in the order in which they were made.
    pub fn findings(&self) -> (findings: &[PackageFinding])
        ensures
            findings@ == self.findings@,
    {
        self.findings.as_slice()
    }

    /// Whether a finding has a code.
    pub fn has_code(&self, code: PackageFindingCode) -> (found: bool)
        ensures
            found == exists|i: int|
                0 <= i < self.findings@.len() && (#[trigger] self.findings@[i]).code == code,
    {
        holds_code(self.findings.as_slice(), code)
    }
}

/// Checks packages of one profile.
#[derive(Clone, Copy, Debug)]
pub struct AppPackageValidator {
    pub limits: Limits,
    pub profile: AppPackageProfile,
}

impl AppPackageValidator {
    /// A validator with budgets.
    pub fn new(profile: AppPackageProfile, limits: Limits) -> (validator: Self)
        ensures
            validator.profile == profile,
            validator.limits == limits,
    {
        AppPackageValidator { limits, profile }
    }

    /// A validator for Android packages.
    pub fn apk(limits: Limits) -> (validator: Self)
        ensures
            validator.profile == AppPackageProfile::Apk,
            validator.limits == limits,
    {
        AppPackageValidator::new(AppPackageProfile::Apk, limits)
    }

    /// A validator for iOS packages.
    pub fn ipa(limits: Limits) -> (validator: Self)
        ensures
            validator.profile == AppPackageProfile::Ipa,
            validator.limits == limits,
    {
        AppPackageValidator::new(AppPackageProfile::Ipa, limits)
    }

    /// A validator for Windows packages.
    pub fn msix(limits: Limits) -> (validator: Self)
        ensures
            validator.profile == AppPackageProfile::Msix,
            validator.limits == limits,
    {
        AppPackageValidator::new(AppPackageProfile::Msix, limits)
    }

    /// This validator with other budgets.
    pub fn with_limits(self, limits: Limits) -> (validator: Self)
        ensures
            validator.profile == self.profile,
            validator.limits == limits,
    {
        AppPackageValidator { limits, profile: self.profile }
    }

    /// The profile.
    pub fn profile(&self) -> (profile: AppPackageProfile)
        ensures
            profile == self.profile,
    {
        self.profile
    }

    /// The budgets.
    pub fn limits(&self) -> (limits: Limits)
        ensures
            limits == self.limits,
    {
        self.limits
    }

    /// The verdict on a package on a host, given its directory (or why it cannot be read)
    /// and what stands before it.
    pub fn validate(
        &self,
        directory: Result<Vec<ZipEntry>, String>,
        block: &ReadSigningBlock,
        rules: PathRules,
    ) -> (validation: AppPackageValidation)
        ensures
            validation.profile == self.profile,
            validation.signatures.apk_v2 || validation.signatures.apk_v3
                ==> validation.signatures.apk_signing_block,
            match directory {
                Err(detail) => {
                    &&& validation.status == (SupportStatus {
                        container_readable: false,
                        profile_valid: false,
                    })
                    &&& validation.signatures == unsigned()
                    &&& findings_view(validation.findings@) == seq![
                        found(
                            self.profile.words(),
                            None,
                            PackageFindingCode::ContainerUnreadable,
                            detail@,
                        ),
                    ]
                },
                Ok(entries) => {
                    let views = entries_view(entries@);
                    let common = common_findings(
                        self.profile.words(),
                        views,
                        self.limits.decoded_total,
                        views.len(),
                        rules,
                    );
                    let own = app_findings(self.profile, views, block@);
                    &&& findings_view(validation.findings@) == common + own
                    &&& validation.status == (SupportStatus {
                        container_readable: true,
                        profile_valid: is_complete(self.profile, views) && !blocks(common + own),
                    })
                    &&& validation.signatures == app_signatures(self.profile, views, block@)
                },
            },
    {
        let profile = self.profile;
        let label: &'static str = profile.label();
        let mut findings: Vec<PackageFinding> = Vec::new();
        proof {
            assert(findings_view(findings@) =~= Seq::<FindingView>::empty());
        }
        let entries = match directory {
            Ok(entries) => entries,
            Err(detail) => {
                let finding = PackageFinding::new(
                    label,
                    None,
                    PackageFindingCode::ContainerUnreadable,
                    detail.as_str(),
                );
                report(&mut findings, finding);
                proof {
                    assert(findings_view(findings@) =~= seq![finding@]);
                }
                return AppPackageValidation {
                    status: SupportStatus::new(false, false),
                    findings,
                    profile,
                    signatures: AppSignatureReport::none(),
                };
            },
        };
        let list = entries.as_slice();
        check_common_structure(label, list, self.limits, rules, &mut findings);
        proof {
            let views = entries_view(entries@);
            assert(findings_view(findings@) =~= common_findings(
                label@,
                views,
                self.limits.decoded_total,
                views.len(),
                rules,
            ));
        }
        let (satisfied, signatures) = match profile {
            AppPackageProfile::Apk => check_apk(label, list, block, &mut findings),
            AppPackageProfile::Ipa => {
                let satisfied: bool = check_ipa(label, list, &mut findings);
                (satisfied, AppSignatureReport::none())
            },
            AppPackageProfile::Msix => check_msix(label, list, &mut findings),
        };
        let blocking: bool = has_blocking(findings.as_slice());
        AppPackageValidation {
            status: SupportStatus::new(true, satisfied && !blocking),
            findings,
            profile,
            signatures,
        }
    }
}

} // verus!
