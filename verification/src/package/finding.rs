//! What the validators report.

use vstd::prelude::*;
use vstd::string::*;
use vstd::utf8::{decode_utf8, valid_utf8};
use crate::utf8::lossy_text;

verus! {

/// How bad a finding is.
#[derive(Clone, Copy, Debug, PartialEq, Eq, PartialOrd, Ord, Hash, Structural)]
pub enum Severity {
    /// Never makes a package invalid.
    Info,
    /// Something could not be checked.
    Warning,
    /// A violation.
    Error,
}

impl Severity {
    /// The name of the severity.
    pub open spec fn words(self) -> Seq<char> {
        match self {
            Severity::Info => "info"@,
            Severity::Warning => "warning"@,
            Severity::Error => "error"@,
        }
    }

    /// The name of the severity.
    pub fn label(self) -> (label: &'static str)
        ensures
            label@ == self.words(),
    {
        match self {
            Severity::Info => "info",
            Severity::Warning => "warning",
            Severity::Error => "error",
        }
    }
}

/// What a finding is about.
#[derive(Clone, Copy, Debug, PartialEq, Eq, Hash, Structural)]
pub enum PackageFindingCode {
    /// The container cannot be read at all.
    ContainerUnreadable,
    /// The leading `debian-binary` member is missing.
    MissingDebianBinary,
    /// `debian-binary` does not hold a supported version.
    InvalidVersionStamp,
    /// Members stand in an order that the profile forbids.
    UnexpectedMemberOrder,
    /// A member that the profile does not know.
    UnknownMember,
    /// A member of the profile stands more than once.
    DuplicateMember,
    /// A member that the profile requires is missing.
    MissingRequiredMember,
    /// A member has an unsafe name.
    UnsafeMemberName,
    /// A member that should be an archive is none.
    MalformedNesting,
    /// A nested archive ends early.
    TruncatedMember,
    /// An entry has an unsafe path.
    UnsafeEntryPath,
    /// An entry path stands more than once.
    DuplicateEntryPath,
    /// The decoded size is over its budget.
    DecompressionBomb,
    /// A compression method cannot be decoded.
    UnsupportedCompression,
    /// The lead of an RPM package is broken.
    InvalidLead,
    /// A header of an RPM package is broken.
    InvalidHeader,
    /// A header of an RPM package is over the metadata budget.
    HeaderTooLarge,
    /// The payload is not declared as `cpio`.
    PayloadFormatMismatch,
    /// The payload has another filter than the declared one.
    CompressorMismatch,
    /// `mimetype` is not the first member.
    MimetypeNotFirst,
    /// `mimetype` is compressed.
    MimetypeNotStored,
    /// `mimetype` holds something else.
    MimetypeInvalidContent,
    /// A member is encrypted.
    UnexpectedEncryption,
    /// No signature was found.
    UnsignedPackage,
    /// A signature was found.
    SigningSchemeDetected,
}

impl PackageFindingCode {
    /// The stable name of the code.
    pub open spec fn words(self) -> Seq<char> {
        match self {
            PackageFindingCode::ContainerUnreadable => "container-unreadable"@,
            PackageFindingCode::MissingDebianBinary => "missing-debian-binary"@,
            PackageFindingCode::InvalidVersionStamp => "invalid-version-stamp"@,
            PackageFindingCode::UnexpectedMemberOrder => "unexpected-member-order"@,
            PackageFindingCode::UnknownMember => "unknown-member"@,
            PackageFindingCode::DuplicateMember => "duplicate-member"@,
            PackageFindingCode::MissingRequiredMember => "missing-required-member"@,
            PackageFindingCode::UnsafeMemberName => "unsafe-member-name"@,
            PackageFindingCode::MalformedNesting => "malformed-nesting"@,
            PackageFindingCode::TruncatedMember => "truncated-member"@,
            PackageFindingCode::UnsafeEntryPath => "unsafe-entry-path"@,
            PackageFindingCode::DuplicateEntryPath => "duplicate-entry-path"@,
            PackageFindingCode::DecompressionBomb => "decompression-bomb"@,
            PackageFindingCode::UnsupportedCompression => "unsupported-compression"@,
            PackageFindingCode::InvalidLead => "invalid-lead"@,
            PackageFindingCode::InvalidHeader => "invalid-header"@,
            PackageFindingCode::HeaderTooLarge => "header-too-large"@,
            PackageFindingCode::PayloadFormatMismatch => "payload-format-mismatch"@,
            PackageFindingCode::CompressorMismatch => "compressor-mismatch"@,
            PackageFindingCode::MimetypeNotFirst => "mimetype-not-first"@,
            PackageFindingCode::MimetypeNotStored => "mimetype-not-stored"@,
            PackageFindingCode::MimetypeInvalidContent => "mimetype-invalid-content"@,
            PackageFindingCode::UnexpectedEncryption => "unexpected-encryption"@,
            PackageFindingCode::UnsignedPackage => "unsigned-package"@,
            PackageFindingCode::SigningSchemeDetected => "signing-scheme-detected"@,
        }
    }

    /// The severity that the code has by itself.
    pub open spec fn own_severity(self) -> Severity {
        match self {
            PackageFindingCode::UnknownMember
            | PackageFindingCode::UnsupportedCompression
            | PackageFindingCode::CompressorMismatch => Severity::Warning,
            PackageFindingCode::UnsignedPackage
            | PackageFindingCode::SigningSchemeDetected => Severity::Info,
            _ => Severity::Error,
        }
    }

    /// The stable name of the code.
    pub fn as_str(self) -> (text: &'static str)
        ensures
            text@ == self.words(),
    {
        match self {
            PackageFindingCode::ContainerUnreadable => "container-unreadable",
            PackageFindingCode::MissingDebianBinary => "missing-debian-binary",
            PackageFindingCode::InvalidVersionStamp => "invalid-version-stamp",
            PackageFindingCode::UnexpectedMemberOrder => "unexpected-member-order",
            PackageFindingCode::UnknownMember => "unknown-member",
            PackageFindingCode::DuplicateMember => "duplicate-member",
            PackageFindingCode::MissingRequiredMember => "missing-required-member",
            PackageFindingCode::UnsafeMemberName => "unsafe-member-name",
            PackageFindingCode::MalformedNesting => "malformed-nesting",
            PackageFindingCode::TruncatedMember => "truncated-member",
            PackageFindingCode::UnsafeEntryPath => "unsafe-entry-path",
            PackageFindingCode::DuplicateEntryPath => "duplicate-entry-path",
            PackageFindingCode::DecompressionBomb => "decompression-bomb",
            PackageFindingCode::UnsupportedCompression => "unsupported-compression",
            PackageFindingCode::InvalidLead => "invalid-lead",
            PackageFindingCode::InvalidHeader => "invalid-header",
            PackageFindingCode::HeaderTooLarge => "header-too-large",
            PackageFindingCode::PayloadFormatMismatch => "payload-format-mismatch",
            PackageFindingCode::CompressorMismatch => "compressor-mismatch",
            PackageFindingCode::MimetypeNotFirst => "mimetype-not-first",
            PackageFindingCode::MimetypeNotStored => "mimetype-not-stored",
            PackageFindingCode::MimetypeInvalidContent => "mimetype-invalid-content",
            PackageFindingCode::UnexpectedEncryption => "unexpected-encryption",
            PackageFindingCode::UnsignedPackage => "unsigned-package",
            PackageFindingCode::SigningSchemeDetected => "signing-scheme-detected",
        }
    }

    /// The severity that the code has by itself.
    pub fn default_severity(self) -> (severity: Severity)
        ensures
            severity == self.own_severity(),
    {
        match self {
            PackageFindingCode::UnknownMember
            | PackageFindingCode::UnsupportedCompression
            | PackageFindingCode::CompressorMismatch => Severity::Warning,
            PackageFindingCode::UnsignedPackage
            | PackageFindingCode::SigningSchemeDetected => Severity::Info,
            _ => Severity::Error,
        }
    }
}

/// One observation about a package.
#[derive(Clone, Debug)]
pub struct PackageFinding {
    pub profile: &'static str,
    pub path: Option<Vec<u8>>,
    pub code: PackageFindingCode,
    pub severity: Severity,
    pub detail: String,
}

/// The mathematical content of a [`PackageFinding`].
#[verifier::ext_equal]
pub struct FindingView {
    pub profile: Seq<char>,
    pub path: Option<Seq<u8>>,
    pub code: PackageFindingCode,
    pub severity: Severity,
    pub detail: Seq<char>,
}

impl View for PackageFinding {
    type V = FindingView;

    open spec fn view(&self) -> FindingView {
        FindingView {
            profile: self.profile@,
            path: match self.path {
                Some(path) => Some(path@),
                None => None,
            },
            code: self.code,
            severity: self.severity,
            detail: self.detail@,
        }
    }
}

/// A finding with the severity of its code.
pub open spec fn found(
    profile: Seq<char>,
    path: Option<Seq<u8>>,
    code: PackageFindingCode,
    detail: Seq<char>,
) -> FindingView {
    FindingView { profile, path, code, severity: code.own_severity(), detail }
}

/// The content of a list of findings.
pub open spec fn findings_view(list: Seq<PackageFinding>) -> Seq<FindingView> {
    Seq::new(list.len(), |i: int| list[i]@)
}

/// A finding keeps a package from being valid.
pub open spec fn blocks(findings: Seq<FindingView>) -> bool {
    exists|i: int| 0 <= i < findings.len() && (#[trigger] findings[i]).severity != Severity::Info
}

/// `String::from_utf8_lossy`. Claimed: a character is read as it is, and each
/// longest beginning of a sequence that is not completed is read as U+FFFD, so
/// that valid UTF-8 is decoded.
#[verifier::external_body]
pub(crate) fn read_lossy(bytes: &[u8]) -> (text: String)
    ensures
        text@ == lossy_text(bytes@),
        valid_utf8(bytes@) ==> text@ == decode_utf8(bytes@),
{
    String::from_utf8_lossy(bytes).into_owned()
}

/// A finding in words, given its path in words.
pub open spec fn finding_words(finding: FindingView, path: Option<Seq<char>>) -> Seq<char> {
    let place = match path {
        Some(path) => " ("@ + path + ")"@,
        None => Seq::empty(),
    };
    "["@ + finding.severity.words() + "] "@ + finding.profile + ": "@ + finding.code.words() + place
        + ": "@ + finding.detail
}

impl PackageFinding {
    /// A finding with the severity of its code.
    pub fn new(
        profile: &'static str,
        path: Option<Vec<u8>>,
        code: PackageFindingCode,
        detail: &str,
    ) -> (finding: Self)
        ensures
            finding@ == found(
                profile@,
                match path {
                    Some(path) => Some(path@),
                    None => None,
                },
                code,
                detail@,
            ),
    {
        PackageFinding {
            profile,
            path,
            code,
            severity: code.default_severity(),
            detail: detail.to_string(),
        }
    }

    /// A finding about a compression method that cannot be decoded.
    pub fn unsupported_method(
        profile: &'static str,
        path: Option<Vec<u8>>,
        detail: &str,
    ) -> (finding: Self)
        ensures
            finding@ == found(
                profile@,
                match path {
                    Some(path) => Some(path@),
                    None => None,
                },
                PackageFindingCode::UnsupportedCompression,
                detail@,
            ),
    {
        PackageFinding::new(profile, path, PackageFindingCode::UnsupportedCompression, detail)
    }

    /// The finding with another severity.
    pub fn with_severity(self, severity: Severity) -> (finding: Self)
        ensures
            finding@ == (FindingView { severity, ..self@ }),
    {
        let mut finding = self;
        finding.severity = severity;
        finding
    }

    /// The profile that reports the finding.
    pub fn profile(&self) -> (profile: &'static str)
        ensures
            profile@ == self@.profile,
    {
        self.profile
    }

    /// The path of the member or entry, if it is about one.
    pub fn path(&self) -> (path: Option<&[u8]>)
        ensures
            match (path, self@.path) {
                (Some(path), Some(bytes)) => path@ == bytes,
                (None, None) => true,
                _ => false,
            },
    {
        match &self.path {
            Some(path) => Some(path.as_slice()),
            None => None,
        }
    }

    /// What the finding is about.
    pub fn code(&self) -> (code: PackageFindingCode)
        ensures
            code == self@.code,
    {
        self.code
    }

    /// How bad the finding is.
    pub fn severity(&self) -> (severity: Severity)
        ensures
            severity == self@.severity,
    {
        self.severity
    }

    /// The finding in words.
    pub fn detail(&self) -> (detail: &str)
        ensures
            detail@ == self@.detail,
    {
        self.detail.as_str()
    }

    /// The whole finding as one line, its path given in words.
    pub fn line(&self, path: Option<&str>) -> (text: String)
        ensures
            text@ == finding_words(
                self@,
                match path {
                    Some(path) => Some(path@),
                    None => None,
                },
            ),
    {
        let mut text = "[".to_string();
        text.append(self.severity.label());
        text.append("] ");
        text.append(self.profile);
        text.append(": ");
        text.append(self.code.as_str());
        if let Some(path) = path {
            text.append(" (");
            text.append(path);
            text.append(")");
        }
        text.append(": ");
        text.append(self.detail.as_str());
        proof {
            let words = finding_words(
                self@,
                match path {
                    Some(path) => Some(path@),
                    None => None,
                },
            );
            assert(text@ =~= words);
        }
        text
    }

    /// The whole finding as one line.
    pub fn message(&self) -> (text: String)
        ensures
            text@ == finding_words(
                self@,
                match self@.path {
                    Some(path) => Some(lossy_text(path)),
                    None => None,
                },
            ),
    {
        match &self.path {
            Some(path) => {
                let words = read_lossy(path.as_slice());
                self.line(Some(words.as_str()))
            },
            None => self.line(None),
        }
    }
}

/// Adds a finding behind the others.
pub(crate) fn report(findings: &mut Vec<PackageFinding>, finding: PackageFinding)
    ensures
        findings_view(final(findings)@) == findings_view(old(findings)@).push(finding@),
{
    let ghost before = findings@;
    findings.push(finding);
    proof {
        assert(findings_view(findings@) =~= findings_view(before).push(finding@));
    }
}

/// Whether a finding keeps a package from being valid.
pub fn has_blocking(findings: &[PackageFinding]) -> (blocking: bool)
    ensures
        blocking == blocks(findings_view(findings@)),
{
    let mut i: usize = 0;
    let ghost views = findings_view(findings@);
    while i < findings.len()
        invariant
            i <= findings@.len(),
            views == findings_view(findings@),
            forall|j: int| 0 <= j < i ==> (#[trigger] views[j]).severity == Severity::Info,
        decreases findings@.len() - i,
    {
        if findings[i].severity != Severity::Info {
            proof {
                assert(views[i as int].severity != Severity::Info);
            }
            return true;
        }
        i += 1;
    }
    false
}

/// Whether a finding has a code.
pub fn holds_code(findings: &[PackageFinding], code: PackageFindingCode) -> (found: bool)
    ensures
        found == exists|i: int| 0 <= i < findings@.len() && (#[trigger] findings@[i]).code == code,
{
    let mut i: usize = 0;
    while i < findings.len()
        invariant
            i <= findings@.len(),
            forall|j: int| 0 <= j < i ==> (#[trigger] findings@[j]).code != code,
        decreases findings@.len() - i,
    {
        if findings[i].code == code {
            return true;
        }
        i += 1;
    }
    false
}

/// Whether a container could be read, and whether it keeps to its profile.
#[derive(Clone, Copy, Debug, PartialEq, Eq, Structural)]
pub struct SupportStatus {
    pub container_readable: bool,
    pub profile_valid: bool,
}

impl SupportStatus {
    /// A status.
    pub fn new(container_readable: bool, profile_valid: bool) -> (status: Self)
        ensures
            status == (SupportStatus { container_readable, profile_valid }),
    {
        SupportStatus { container_readable, profile_valid }
    }

    /// Whether the container could be read.
    pub fn container_readable(self) -> (readable: bool)
        ensures
            readable == self.container_readable,
    {
        self.container_readable
    }

    /// Whether the package keeps to its profile.
    pub fn profile_valid(self) -> (valid: bool)
        ensures
            valid == self.profile_valid,
    {
        self.profile_valid
    }
}

} // verus!
