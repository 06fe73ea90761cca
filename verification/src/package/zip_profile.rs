//! Packages that are ZIP containers: Java archives, NuGet packages, Python
//! wheels and EPUB books.

use vstd::prelude::*;
use vstd::string::*;
use crate::bytes::{contains_byte, ends_with, has_prefix, has_suffix, le16, le_u16, same_bytes, to_vec};
use crate::limits::Limits;
use crate::package::finding::{
    blocks, findings_view, found, has_blocking, holds_code, report, FindingView, PackageFinding,
    PackageFindingCode, SupportStatus,
};
use crate::package::zip_reader::{
    check_common_structure, common_findings, entries_view, has_signature, signature, ZipEntry,
    ZipEntryView, LOCAL_HEADER_LEN, METHOD_STORE,
};
use crate::parts::SLASH;
use crate::path::PathRules;
use crate::text::join;

verus! {

/// A kind of package.
#[derive(Clone, Copy, Debug, PartialEq, Eq, Hash, Structural)]
pub enum ZipPackageProfile {
    /// A Java archive: has `META-INF/MANIFEST.MF`.
    Jar,
    /// A NuGet package: has `[Content_Types].xml` and one `*.nuspec` at its root.
    NuGet,
    /// A Python wheel: has `METADATA`, `RECORD` and `WHEEL` in `*.dist-info`.
    Wheel,
    /// A book: has a stored `mimetype` first, and `META-INF/container.xml`.
    Epub,
}

impl ZipPackageProfile {
    /// The name of the profile.
    pub open spec fn words(self) -> Seq<char> {
        match self {
            ZipPackageProfile::Jar => "jar"@,
            ZipPackageProfile::NuGet => "nuget"@,
            ZipPackageProfile::Wheel => "wheel"@,
            ZipPackageProfile::Epub => "epub"@,
        }
    }

    /// The name of the profile.
    pub fn label(self) -> (label: &'static str)
        ensures
            label@ == self.words(),
    {
        match self {
            ZipPackageProfile::Jar => "jar",
            ZipPackageProfile::NuGet => "nuget",
            ZipPackageProfile::Wheel => "wheel",
            ZipPackageProfile::Epub => "epub",
        }
    }
}

// ---------------------------------------------------------------------------
// Members by name
// ---------------------------------------------------------------------------

/// A member has a name.
pub open spec fn has_member(entries: Seq<ZipEntryView>, name: Seq<u8>) -> bool {
    exists|i: int| 0 <= i < entries.len() && (#[trigger] entries[i]).name == name
}

/// The name of a member ends with some bytes.
pub open spec fn has_member_ending(entries: Seq<ZipEntryView>, suffix: Seq<u8>) -> bool {
    exists|i: int| 0 <= i < entries.len() && has_suffix((#[trigger] entries[i]).name, suffix)
}

/// The first member with a name.
pub open spec fn first_member(entries: Seq<ZipEntryView>, name: Seq<u8>) -> Option<ZipEntryView>
    decreases entries.len(),
{
    if entries.len() == 0 {
        None
    } else if entries[0].name == name {
        Some(entries[0])
    } else {
        first_member(entries.skip(1), name)
    }
}

/// Whether a member has a name.
pub fn contains_member(entries: &[ZipEntry], name: &[u8]) -> (found: bool)
    ensures
        found == has_member(entries_view(entries@), name@),
{
    let ghost views = entries_view(entries@);
    let mut i: usize = 0;
    while i < entries.len()
        invariant
            i <= entries@.len(),
            views == entries_view(entries@),
            forall|j: int| 0 <= j < i ==> (#[trigger] views[j]).name != name@,
        decreases entries@.len() - i,
    {
        if same_bytes(entries[i].name.as_slice(), name) {
            proof {
                assert(views[i as int].name == name@);
            }
            return true;
        }
        i += 1;
    }
    false
}

fn contains_member_ending(entries: &[ZipEntry], suffix: &[u8]) -> (found: bool)
    ensures
        found == has_member_ending(entries_view(entries@), suffix@),
{
    let ghost views = entries_view(entries@);
    let mut i: usize = 0;
    while i < entries.len()
        invariant
            i <= entries@.len(),
            views == entries_view(entries@),
            forall|j: int| 0 <= j < i ==> !has_suffix((#[trigger] views[j]).name, suffix@),
        decreases entries@.len() - i,
    {
        if ends_with(entries[i].name.as_slice(), suffix) {
            proof {
                assert(has_suffix(views[i as int].name, suffix@));
            }
            return true;
        }
        i += 1;
    }
    false
}

/// The `mimetype` member of a book, if there is one.
pub fn mimetype_member(entries: &[ZipEntry]) -> (found: Option<&ZipEntry>)
    ensures
        match found {
            Some(entry) => first_member(entries_view(entries@), "mimetype".spec_bytes()) == Some(
                entry@,
            ),
            None => first_member(entries_view(entries@), "mimetype".spec_bytes()) is None,
        },
{
    let ghost views = entries_view(entries@);
    let ghost name = "mimetype".spec_bytes();
    let mut i: usize = 0;
    proof {
        assert(views.skip(0) =~= views);
    }
    while i < entries.len()
        invariant
            i <= entries@.len(),
            views == entries_view(entries@),
            name == "mimetype".spec_bytes(),
            first_member(views, name) == first_member(views.skip(i as int), name),
        decreases entries@.len() - i,
    {
        proof {
            assert(views.skip(i as int)[0] == entries@[i as int]@);
            assert(views.skip(i as int).skip(1) =~= views.skip(i + 1));
        }
        if same_bytes(entries[i].name.as_slice(), "mimetype".as_bytes()) {
            return Some(&entries[i]);
        }
        i += 1;
    }
    None
}

// ---------------------------------------------------------------------------
// The body of the mimetype member
// ---------------------------------------------------------------------------

/// What the body of a book's `mimetype` is.
pub open spec fn media_type() -> Seq<u8> {
    "application/epub+zip".spec_bytes()
}

/// The `mimetype` member is stored and has the right length, so that its body
/// can be looked at.
pub fn has_readable_mimetype(entry: &ZipEntry) -> (readable: bool)
    ensures
        readable == (entry.method == METHOD_STORE && entry.uncompressed_size
            == media_type().len()),
{
    let wanted = "application/epub+zip".as_bytes();
    entry.method == METHOD_STORE && entry.uncompressed_size == wanted.len() as u64
}

/// Where the body of a member begins, as its local header says.
pub open spec fn body_offset(local_offset: nat, header: Seq<u8>) -> Option<nat> {
    let offset = local_offset + LOCAL_HEADER_LEN + le16(header, 26) + le16(header, 28);
    if !has_prefix(header, signature(3, 4)) || offset > u64::MAX {
        None
    } else {
        Some(offset as nat)
    }
}

/// Finds where the body of a member begins.
pub fn find_body(local_offset: u64, header: &[u8]) -> (offset: Option<u64>)
    requires
        header@.len() == LOCAL_HEADER_LEN,
    ensures
        match offset {
            Some(offset) => body_offset(local_offset as nat, header@) == Some(offset as nat),
            None => body_offset(local_offset as nat, header@) is None,
        },
{
    if !has_signature(header, 3, 4) {
        return None;
    }
    let name: u64 = le_u16(header, 26) as u64;
    let extra: u64 = le_u16(header, 28) as u64;
    let offset: u64 = local_offset.checked_add(LOCAL_HEADER_LEN as u64)?;
    let offset: u64 = offset.checked_add(name)?;
    offset.checked_add(extra)
}

/// Whether the body of `mimetype` is right.
pub fn is_media_type(body: &[u8]) -> (right: bool)
    ensures
        right == (body@ == media_type()),
{
    same_bytes(body, "application/epub+zip".as_bytes())
}

// ---------------------------------------------------------------------------
// The profiles
// ---------------------------------------------------------------------------

/// A required member is missing.
pub open spec fn missing(label: Seq<char>, detail: Seq<char>) -> FindingView {
    found(label, None, PackageFindingCode::MissingRequiredMember, detail)
}

/// A finding, if a condition holds.
pub open spec fn said_if(condition: bool, finding: FindingView) -> Seq<FindingView> {
    if condition {
        seq![finding]
    } else {
        Seq::empty()
    }
}

/// What is to be said about a Java archive.
pub open spec fn jar_findings(label: Seq<char>, entries: Seq<ZipEntryView>) -> Seq<FindingView> {
    said_if(
        !has_member(entries, "META-INF/MANIFEST.MF".spec_bytes()),
        missing(label, "archive has no META-INF/MANIFEST.MF member"@),
    )
}

/// A manifest at the root.
pub open spec fn root_nuspec(name: Seq<u8>) -> bool {
    !name.contains(SLASH) && has_suffix(name, ".nuspec".spec_bytes())
}

/// The members that are manifests at the root, in order.
pub open spec fn root_nuspecs(entries: Seq<ZipEntryView>) -> Seq<ZipEntryView>
    decreases entries.len(),
{
    if entries.len() == 0 {
        Seq::empty()
    } else if root_nuspec(entries.last().name) {
        root_nuspecs(entries.drop_last()).push(entries.last())
    } else {
        root_nuspecs(entries.drop_last())
    }
}

/// What is to be said about a NuGet package.
pub open spec fn nuget_findings(label: Seq<char>, entries: Seq<ZipEntryView>) -> Seq<FindingView> {
    let manifests = root_nuspecs(entries);
    said_if(
        !has_member(entries, "[Content_Types].xml".spec_bytes()),
        missing(label, "archive has no [Content_Types].xml member"@),
    ) + if manifests.len() == 0 {
        seq![missing(label, "archive has no root *.nuspec manifest"@)]
    } else if manifests.len() == 1 {
        Seq::empty()
    } else {
        seq![
            found(
                label,
                Some(manifests[1].name),
                PackageFindingCode::DuplicateMember,
                "archive has more than one root *.nuspec manifest"@,
            ),
        ]
    }
}

/// What is to be said about a wheel without a member.
pub open spec fn wheel_part(
    label: Seq<char>,
    entries: Seq<ZipEntryView>,
    suffix: &str,
) -> Seq<FindingView> {
    said_if(
        !has_member_ending(entries, suffix.spec_bytes()),
        missing(label, "archive has no *"@ + suffix@ + " member"@),
    )
}

/// What is to be said about a wheel.
pub open spec fn wheel_findings(label: Seq<char>, entries: Seq<ZipEntryView>) -> Seq<FindingView> {
    wheel_part(label, entries, ".dist-info/METADATA") + wheel_part(
        label,
        entries,
        ".dist-info/RECORD",
    ) + wheel_part(label, entries, ".dist-info/WHEEL")
}

/// No member stands before another in the container.
pub open spec fn stands_first(entries: Seq<ZipEntryView>, entry: ZipEntryView) -> bool {
    forall|i: int|
        0 <= i < entries.len() ==> entry.local_offset <= (#[trigger] entries[i]).local_offset
}

/// What is to be said about the `mimetype` of a book, given whether its body
/// is right.
pub open spec fn mimetype_findings(
    label: Seq<char>,
    entries: Seq<ZipEntryView>,
    body_is_right: bool,
) -> Seq<FindingView> {
    match first_member(entries, "mimetype".spec_bytes()) {
        None => seq![missing(label, "archive has no mimetype member"@)],
        Some(mimetype) => said_if(
            !stands_first(entries, mimetype),
            found(
                label,
                Some(mimetype.name),
                PackageFindingCode::MimetypeNotFirst,
                "mimetype is not the first member in the archive"@,
            ),
        ) + if mimetype.method != METHOD_STORE {
            seq![
                found(
                    label,
                    Some(mimetype.name),
                    PackageFindingCode::MimetypeNotStored,
                    "mimetype member is compressed rather than stored"@,
                ),
            ]
        } else {
            said_if(
                !body_is_right,
                found(
                    label,
                    Some(mimetype.name),
                    PackageFindingCode::MimetypeInvalidContent,
                    "mimetype body is not application/epub+zip"@,
                ),
            )
        },
    }
}

/// What is to be said about a book.
pub open spec fn epub_findings(
    label: Seq<char>,
    entries: Seq<ZipEntryView>,
    body_is_right: bool,
) -> Seq<FindingView> {
    mimetype_findings(label, entries, body_is_right) + said_if(
        !has_member(entries, "META-INF/container.xml".spec_bytes()),
        missing(label, "archive has no META-INF/container.xml member"@),
    )
}

/// What a profile has to say about a package.
pub open spec fn profile_findings(
    profile: ZipPackageProfile,
    entries: Seq<ZipEntryView>,
    body_is_right: bool,
) -> Seq<FindingView> {
    match profile {
        ZipPackageProfile::Jar => jar_findings(profile.words(), entries),
        ZipPackageProfile::NuGet => nuget_findings(profile.words(), entries),
        ZipPackageProfile::Wheel => wheel_findings(profile.words(), entries),
        ZipPackageProfile::Epub => epub_findings(profile.words(), entries, body_is_right),
    }
}

/// Reports a finding if a condition holds.
pub(crate) fn report_if(
    condition: bool,
    label: &'static str,
    path: Option<Vec<u8>>,
    code: PackageFindingCode,
    detail: &str,
    findings: &mut Vec<PackageFinding>,
)
    ensures
        findings_view(final(findings)@) == findings_view(old(findings)@) + said_if(
            condition,
            found(
                label@,
                match path {
                    Some(path) => Some(path@),
                    None => None,
                },
                code,
                detail@,
            ),
        ),
{
    let ghost before = findings_view(findings@);
    proof {
        assert(before + Seq::<FindingView>::empty() =~= before);
    }
    if condition {
        let finding = PackageFinding::new(label, path, code, detail);
        report(findings, finding);
        proof {
            assert(before.push(finding@) =~= before + seq![finding@]);
        }
    }
}

/// Checks a Java archive. The result tells whether nothing is missing.
pub fn check_jar(
    label: &'static str,
    entries: &[ZipEntry],
    findings: &mut Vec<PackageFinding>,
) -> (satisfied: bool)
    ensures
        findings_view(final(findings)@) == findings_view(old(findings)@) + jar_findings(
            label@,
            entries_view(entries@),
        ),
        satisfied == (jar_findings(label@, entries_view(entries@)).len() == 0),
{
    let present: bool = contains_member(entries, "META-INF/MANIFEST.MF".as_bytes());
    report_if(
        !present,
        label,
        None,
        PackageFindingCode::MissingRequiredMember,
        "archive has no META-INF/MANIFEST.MF member",
        findings,
    );
    present
}

/// Whether a member is a manifest at the root.
pub fn is_root_nuspec(name: &[u8]) -> (found: bool)
    ensures
        found == root_nuspec(name@),
{
    !contains_byte(name, SLASH) && ends_with(name, ".nuspec".as_bytes())
}

/// The number of manifests at the root, and the second of them.
fn find_nuspecs(entries: &[ZipEntry]) -> (result: (usize, Option<usize>))
    ensures
        result.0 == root_nuspecs(entries_view(entries@)).len(),
        match result.1 {
            Some(at) => at < entries@.len() && root_nuspecs(entries_view(entries@)).len() >= 2
                && entries@[at as int]@ == root_nuspecs(entries_view(entries@))[1],
            None => root_nuspecs(entries_view(entries@)).len() < 2,
        },
{
    let ghost views = entries_view(entries@);
    let mut count: usize = 0;
    let mut second: Option<usize> = None;
    let mut i: usize = 0;
    proof {
        assert(views.take(0) =~= Seq::<ZipEntryView>::empty());
    }
    while i < entries.len()
        invariant
            i <= entries@.len(),
            count <= i,
            views == entries_view(entries@),
            count == root_nuspecs(views.take(i as int)).len(),
            match second {
                Some(at) => at < i && count >= 2 && entries@[at as int]@ == root_nuspecs(
                    views.take(i as int),
                )[1],
                None => count < 2,
            },
        decreases entries@.len() - i,
    {
        proof {
            let more = views.take(i + 1);
            assert(more.drop_last() =~= views.take(i as int));
            assert(more.last() == entries@[i as int]@);
        }
        if is_root_nuspec(entries[i].name.as_slice()) {
            count = count + 1;
            if count == 2 {
                second = Some(i);
            }
        }
        i += 1;
    }
    proof {
        assert(views.take(i as int) =~= views);
    }
    (count, second)
}

/// Checks a NuGet package.
pub fn check_nuget(
    label: &'static str,
    entries: &[ZipEntry],
    findings: &mut Vec<PackageFinding>,
) -> (satisfied: bool)
    ensures
        findings_view(final(findings)@) == findings_view(old(findings)@) + nuget_findings(
            label@,
            entries_view(entries@),
        ),
        satisfied == (nuget_findings(label@, entries_view(entries@)).len() == 0),
{
    let ghost start = findings_view(findings@);
    let ghost views = entries_view(entries@);
    let typed: bool = contains_member(entries, "[Content_Types].xml".as_bytes());
    report_if(
        !typed,
        label,
        None,
        PackageFindingCode::MissingRequiredMember,
        "archive has no [Content_Types].xml member",
        findings,
    );
    let ghost middle = findings_view(findings@);
    let (count, second) = find_nuspecs(entries);
    if let Some(at) = second {
        report_if(
            true,
            label,
            Some(to_vec(entries[at].name.as_slice())),
            PackageFindingCode::DuplicateMember,
            "archive has more than one root *.nuspec manifest",
            findings,
        );
    } else {
        report_if(
            count == 0,
            label,
            None,
            PackageFindingCode::MissingRequiredMember,
            "archive has no root *.nuspec manifest",
            findings,
        );
    }
    proof {
        let said = nuget_findings(label@, views);
        assert(findings_view(findings@) =~= start + said);
    }
    typed && count == 1
}

fn check_wheel_part(
    label: &'static str,
    entries: &[ZipEntry],
    suffix: &str,
    findings: &mut Vec<PackageFinding>,
) -> (present: bool)
    ensures
        findings_view(final(findings)@) == findings_view(old(findings)@) + wheel_part(
            label@,
            entries_view(entries@),
            suffix,
        ),
        present == (wheel_part(label@, entries_view(entries@), suffix).len() == 0),
{
    let present: bool = contains_member_ending(entries, suffix.as_bytes());
    let mut detail = join("archive has no *", suffix);
    detail.append(" member");
    report_if(
        !present,
        label,
        None,
        PackageFindingCode::MissingRequiredMember,
        detail.as_str(),
        findings,
    );
    present
}

/// Checks a wheel.
pub fn check_wheel(
    label: &'static str,
    entries: &[ZipEntry],
    findings: &mut Vec<PackageFinding>,
) -> (satisfied: bool)
    ensures
        findings_view(final(findings)@) == findings_view(old(findings)@) + wheel_findings(
            label@,
            entries_view(entries@),
        ),
        satisfied == (wheel_findings(label@, entries_view(entries@)).len() == 0),
{
    let ghost start = findings_view(findings@);
    let metadata: bool = check_wheel_part(label, entries, ".dist-info/METADATA", findings);
    let record: bool = check_wheel_part(label, entries, ".dist-info/RECORD", findings);
    let wheel: bool = check_wheel_part(label, entries, ".dist-info/WHEEL", findings);
    proof {
        assert(findings_view(findings@) =~= start + wheel_findings(
            label@,
            entries_view(entries@),
        ));
    }
    metadata && record && wheel
}

fn is_first(entries: &[ZipEntry], entry: &ZipEntry) -> (first: bool)
    ensures
        first == stands_first(entries_view(entries@), entry@),
{
    let ghost views = entries_view(entries@);
    let mut i: usize = 0;
    while i < entries.len()
        invariant
            i <= entries@.len(),
            views == entries_view(entries@),
            forall|j: int|
                0 <= j < i ==> entry@.local_offset <= (#[trigger] views[j]).local_offset,
        decreases entries@.len() - i,
    {
        if entry.local_offset > entries[i].local_offset {
            proof {
                assert(views[i as int].local_offset < entry@.local_offset);
            }
            return false;
        }
        i += 1;
    }
    true
}

fn check_mimetype(
    label: &'static str,
    entries: &[ZipEntry],
    body_is_right: bool,
    findings: &mut Vec<PackageFinding>,
) -> (satisfied: bool)
    ensures
        findings_view(final(findings)@) == findings_view(old(findings)@) + mimetype_findings(
            label@,
            entries_view(entries@),
            body_is_right,
        ),
        satisfied == (mimetype_findings(label@, entries_view(entries@), body_is_right).len() == 0),
{
    let ghost start = findings_view(findings@);
    let ghost said = mimetype_findings(label@, entries_view(entries@), body_is_right);
    match mimetype_member(entries) {
        None => {
            report_if(
                true,
                label,
                None,
                PackageFindingCode::MissingRequiredMember,
                "archive has no mimetype member",
                findings,
            );
            false
        },
        Some(mimetype) => {
            let first: bool = is_first(entries, mimetype);
            report_if(
                !first,
                label,
                Some(to_vec(mimetype.name.as_slice())),
                PackageFindingCode::MimetypeNotFirst,
                "mimetype is not the first member in the archive",
                findings,
            );
            if mimetype.method != METHOD_STORE {
                report_if(
                    true,
                    label,
                    Some(to_vec(mimetype.name.as_slice())),
                    PackageFindingCode::MimetypeNotStored,
                    "mimetype member is compressed rather than stored",
                    findings,
                );
                proof {
                    assert(findings_view(findings@) =~= start + said);
                }
                return false;
            }
            report_if(
                !body_is_right,
                label,
                Some(to_vec(mimetype.name.as_slice())),
                PackageFindingCode::MimetypeInvalidContent,
                "mimetype body is not application/epub+zip",
                findings,
            );
            proof {
                assert(findings_view(findings@) =~= start + said);
            }
            first && body_is_right
        },
    }
}

/// Checks a book, given whether the body of its `mimetype` is right. What is
/// given is not looked at if there is no stored `mimetype`.
pub fn check_epub(
    label: &'static str,
    entries: &[ZipEntry],
    body_is_right: bool,
    findings: &mut Vec<PackageFinding>,
) -> (satisfied: bool)
    ensures
        findings_view(final(findings)@) == findings_view(old(findings)@) + epub_findings(
            label@,
            entries_view(entries@),
            body_is_right,
        ),
        satisfied == (epub_findings(label@, entries_view(entries@), body_is_right).len() == 0),
{
    let ghost start = findings_view(findings@);
    let typed: bool = check_mimetype(label, entries, body_is_right, findings);
    let present: bool = contains_member(entries, "META-INF/container.xml".as_bytes());
    report_if(
        !present,
        label,
        None,
        PackageFindingCode::MissingRequiredMember,
        "archive has no META-INF/container.xml member",
        findings,
    );
    proof {
        assert(findings_view(findings@) =~= start + epub_findings(
            label@,
            entries_view(entries@),
            body_is_right,
        ));
    }
    typed && present
}

// ---------------------------------------------------------------------------
// The verdict
// ---------------------------------------------------------------------------

/// The verdict on a package.
#[derive(Clone, Debug)]
pub struct ZipPackageValidation {
    pub status: SupportStatus,
    pub findings: Vec<PackageFinding>,
    pub profile: ZipPackageProfile,
}

impl ZipPackageValidation {
    /// Whether the container could be read and the package keeps to its profile.
    pub fn status(&self) -> (status: SupportStatus)
        ensures
            status == self.status,
    {
        self.status
    }

    /// Whether the directory could be read.
    pub fn container_readable(&self) -> (readable: bool)
        ensures
            readable == self.status.container_readable,
    {
        self.status.container_readable()
    }

    /// Whether the package keeps to its profile.
    pub fn profile_valid(&self) -> (valid: bool)
        ensures
            valid == self.status.profile_valid,
    {
        self.status.profile_valid()
    }

    /// The profile that was checked.
    pub fn profile(&self) -> (profile: ZipPackageProfile)
        ensures
            profile == self.profile,
    {
        self.profile
    }

    /// The findings, in the order in which they were made.
    pub fn findings(&self) -> (findings: &[PackageFinding])
        ensures
            findings@ == self.findings@,
    {
        self.findings.as_slice()
    }

    /// Whether a finding has a code.
    pub fn has_code(&self, code: PackageFindingCode) -> (found: bool)
        ensures
            found == exists|i: int|
                0 <= i < self.findings@.len() && (#[trigger] self.findings@[i]).code == code,
    {
        holds_code(self.findings.as_slice(), code)
    }
}

/// Checks packages of one profile.
#[derive(Clone, Copy, Debug)]
pub struct ZipPackageValidator {
    pub limits: Limits,
    pub profile: ZipPackageProfile,
}

impl ZipPackageValidator {
    /// A validator with budgets.
    pub fn new(profile: ZipPackageProfile, limits: Limits) -> (validator: Self)
        ensures
            validator.profile == profile,
            validator.limits == limits,
    {
        ZipPackageValidator { limits, profile }
    }

    /// A validator for Java archives.
    pub fn jar(limits: Limits) -> (validator: Self)
        ensures
            validator.profile == ZipPackageProfile::Jar,
            validator.limits == limits,
    {
        ZipPackageValidator::new(ZipPackageProfile::Jar, limits)
    }

    /// A validator for NuGet packages.
    pub fn nuget(limits: Limits) -> (validator: Self)
        ensures
            validator.profile == ZipPackageProfile::NuGet,
            validator.limits == limits,
    {
        ZipPackageValidator::new(ZipPackageProfile::NuGet, limits)
    }

    /// A validator for wheels.
    pub fn wheel(limits: Limits) -> (validator: Self)
        ensures
            validator.profile == ZipPackageProfile::Wheel,
            validator.limits == limits,
    {
        ZipPackageValidator::new(ZipPackageProfile::Wheel, limits)
    }

    /// A validator for books.
    pub fn epub(limits: Limits) -> (validator: Self)
        ensures
            validator.profile == ZipPackageProfile::Epub,
            validator.limits == limits,
    {
        ZipPackageValidator::new(ZipPackageProfile::Epub, limits)
    }

    /// This validator with other budgets.
    pub fn with_limits(self, limits: Limits) -> (validator: Self)
        ensures
            validator.profile == self.profile,
            validator.limits == limits,
    {
        ZipPackageValidator { limits, profile: self.profile }
    }

    /// The profile.
    pub fn profile(&self) -> (profile: ZipPackageProfile)
        ensures
            profile == self.profile,
    {
        self.profile
    }

    /// The budgets.
    pub fn limits(&self) -> (limits: Limits)
        ensures
            limits == self.limits,
    {
        self.limits
    }

    /// The verdict on a package on a host, given its directory (or why it cannot be read)
    /// and whether the body of its `mimetype` is right.
    pub fn validate(
        &self,
        directory: Result<Vec<ZipEntry>, String>,
        body_is_right: bool,
        rules: PathRules,
    ) -> (validation: ZipPackageValidation)
        ensures
            validation.profile == self.profile,
            match directory {
                Err(detail) => {
                    &&& validation.status == (SupportStatus {
                        container_readable: false,
                        profile_valid: false,
                    })
                    &&& findings_view(validation.findings@) == seq![
                        found(
                            self.profile.words(),
                            None,
                            PackageFindingCode::ContainerUnreadable,
                            detail@,
                        ),
                    ]
                },
                Ok(entries) => {
                    let views = entries_view(entries@);
                    let common = common_findings(
                        self.profile.words(),
                        views,
                        self.limits.decoded_total,
                        views.len(),
                        rules,
                    );
                    let own = profile_findings(self.profile, views, body_is_right);
                    &&& findings_view(validation.findings@) == common + own
                    &&& validation.status == (SupportStatus {
                        container_readable: true,
                        profile_valid: own.len() == 0 && !blocks(common + own),
                    })
                },
            },
    {
        let profile = self.profile;
        let label: &'static str = profile.label();
        let mut findings: Vec<PackageFinding> = Vec::new();
        proof {
            assert(findings_view(findings@) =~= Seq::<FindingView>::empty());
        }
        let entries = match directory {
            Ok(entries) => entries,
            Err(detail) => {
                let finding = PackageFinding::new(
                    label,
                    None,
                    PackageFindingCode::ContainerUnreadable,
                    detail.as_str(),
                );
                report(&mut findings, finding);
                proof {
                    assert(findings_view(findings@) =~= seq![finding@]);
                }
                return ZipPackageValidation {
                    status: SupportStatus::new(false, false),
                    findings,
                    profile,
                };
            },
        };
        let list = entries.as_slice();
        check_common_structure(label, list, self.limits, rules, &mut findings);
        proof {
            let views = entries_view(entries@);
            assert(findings_view(findings@) =~= common_findings(
                label@,
                views,
                self.limits.decoded_total,
                views.len(),
                rules,
            ));
        }
        let satisfied: bool = match profile {
            ZipPackageProfile::Jar => check_jar(label, list, &mut findings),
            ZipPackageProfile::NuGet => check_nuget(label, list, &mut findings),
            ZipPackageProfile::Wheel => check_wheel(label, list, &mut findings),
            ZipPackageProfile::Epub => check_epub(label, list, body_is_right, &mut findings),
        };
        let blocking: bool = has_blocking(findings.as_slice());
        ZipPackageValidation {
            status: SupportStatus::new(true, satisfied && !blocking),
            findings,
            profile,
        }
    }
}

} // verus!
