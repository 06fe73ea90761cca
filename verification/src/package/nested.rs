//! An archive inside a package, read as a stream.
//!
//! The stream itself is decoded from outside: a [`NestedStream`] is told what
//! came out and says what it makes of it.

use vstd::prelude::*;
use vstd::string::*;
use crate::bytes::{same_bytes, to_vec};
use crate::chain::{ProviderSet, StaticCodecProviders, StaticFormatProviders};
use crate::entry::ArchivePath;
use crate::error::ErrorKind;
use crate::filtered::detect::{announced, detect_filter, FilterId};
use crate::package::finding::{
    findings_view, found, read_lossy, report, FindingView, PackageFinding,
    PackageFindingCode,
};
use crate::path::{safe_archive_path, sanitize_archive_path, PathRules};
use crate::path_set::{Destination, PathSet};
use crate::text::join;
use crate::utf8::lossy_text;

verus! {

/// How many bytes tell the outer filter.
pub const PROBE_LEN: usize = 6;

/// Whether a filter, if there is one, can be decoded.
pub open spec fn can_decode<C: StaticCodecProviders>(codecs: C, filter: Option<FilterId>) -> bool {
    filter matches Some(filter) ==> codecs.known_codec(filter) is Available
}

/// What a nested archive is called in findings.
#[derive(Debug)]
pub struct Subject {
    pub profile: &'static str,
    pub path: Option<Vec<u8>>,
    /// Its filter cannot be decoded.
    pub unsupported: String,
    /// An entry of it has an unsafe path.
    pub escaping: String,
    /// An entry of it stands twice.
    pub repeated: String,
    /// It is broken; an error follows.
    pub broken: String,
    /// It has no end.
    pub unfinished: String,
}

/// The mathematical content of a [`Subject`].
#[verifier::ext_equal]
pub struct SubjectView {
    pub profile: Seq<char>,
    pub path: Option<Seq<u8>>,
    pub unsupported: Seq<char>,
    pub escaping: Seq<char>,
    pub repeated: Seq<char>,
    pub broken: Seq<char>,
    pub unfinished: Seq<char>,
}

impl View for Subject {
    type V = SubjectView;

    open spec fn view(&self) -> SubjectView {
        SubjectView {
            profile: self.profile@,
            path: match self.path {
                Some(path) => Some(path@),
                None => None,
            },
            unsupported: self.unsupported@,
            escaping: self.escaping@,
            repeated: self.repeated@,
            broken: self.broken@,
            unfinished: self.unfinished@,
        }
    }
}

/// A member of a Debian package, by its name and the name in words.
pub open spec fn member_subject(name: Seq<u8>, words: Seq<char>) -> SubjectView {
    SubjectView {
        profile: "debian"@,
        path: Some(name),
        unsupported: "member "@ + words + " uses a compression method this build cannot decode"@,
        escaping: "entry in "@ + words + " escapes the archive root"@,
        repeated: "entry path repeats within "@ + words,
        broken: "nested archive in "@ + words + ": "@,
        unfinished: "nested archive in "@ + words + " did not terminate"@,
    }
}

/// The payload of an RPM package.
pub open spec fn payload_subject() -> SubjectView {
    SubjectView {
        profile: "rpm"@,
        path: None,
        unsupported: "RPM payload uses a compression method this build cannot decode"@,
        escaping: "cpio entry escapes the archive root"@,
        repeated: "cpio entry path repeats within the payload"@,
        broken: "RPM payload cpio stream: "@,
        unfinished: "RPM payload cpio stream did not terminate"@,
    }
}

fn around(before: &str, words: &str, after: &str) -> (text: String)
    ensures
        text@ == before@ + words@ + after@,
{
    let mut text = join(before, words);
    text.append(after);
    text
}

impl Subject {
    /// A member of a Debian package, by its name and the name in words.
    pub fn worded(name: &[u8], words: &str) -> (subject: Self)
        ensures
            subject@ == member_subject(name@, words@),
    {
        Subject {
            profile: "debian",
            path: Some(to_vec(name)),
            unsupported: around(
                "member ",
                words,
                " uses a compression method this build cannot decode",
            ),
            escaping: around("entry in ", words, " escapes the archive root"),
            repeated: join("entry path repeats within ", words),
            broken: around("nested archive in ", words, ": "),
            unfinished: around("nested archive in ", words, " did not terminate"),
        }
    }

    /// A member of a Debian package.
    pub fn member(name: &[u8]) -> (subject: Self)
        ensures
            subject@ == member_subject(name@, lossy_text(name@)),
    {
        let words = read_lossy(name);
        Subject::worded(name, words.as_str())
    }

    /// The payload of an RPM package.
    pub fn payload() -> (subject: Self)
        ensures
            subject@ == payload_subject(),
    {
        Subject {
            profile: "rpm",
            path: None,
            unsupported: "RPM payload uses a compression method this build cannot decode".to_string(),
            escaping: "cpio entry escapes the archive root".to_string(),
            repeated: "cpio entry path repeats within the payload".to_string(),
            broken: "RPM payload cpio stream: ".to_string(),
            unfinished: "RPM payload cpio stream did not terminate".to_string(),
        }
    }

    fn own_path(&self) -> (path: Option<Vec<u8>>)
        ensures
            match (path, self@.path) {
                (Some(path), Some(own)) => path@ == own,
                (None, None) => true,
                _ => false,
            },
    {
        match &self.path {
            Some(path) => Some(to_vec(path.as_slice())),
            None => None,
        }
    }
}

/// A nested archive.
#[derive(Debug)]
pub struct NestedStream {
    pub subject: Subject,
    /// Which names the host takes for paths.
    pub rules: PathRules,
    /// The first bytes, as long as the filter is not decided.
    pub prefix: Vec<u8>,
    /// The filter is decided.
    pub decided: bool,
    /// The filter cannot be decoded.
    pub skip: bool,
    /// The stream is broken.
    pub failed: bool,
    /// The archive has ended.
    pub done: bool,
    /// The input has ended.
    pub finished: bool,
    pub filter: Option<FilterId>,
    pub seen: PathSet,
}

/// The mathematical content of a [`NestedStream`].
#[verifier::ext_equal]
pub struct NestedView {
    pub subject: SubjectView,
    pub rules: PathRules,
    pub prefix: Seq<u8>,
    pub decided: bool,
    pub skip: bool,
    pub failed: bool,
    pub done: bool,
    pub finished: bool,
    pub filter: Option<FilterId>,
    pub seen: Set<Destination>,
}

impl View for NestedStream {
    type V = NestedView;

    open spec fn view(&self) -> NestedView {
        NestedView {
            subject: self.subject@,
            rules: self.rules,
            prefix: self.prefix@,
            decided: self.decided,
            skip: self.skip,
            failed: self.failed,
            done: self.done,
            finished: self.finished,
            filter: self.filter,
            seen: self.seen@,
        }
    }
}

/// What is to be done with a chunk of the stream.
#[derive(Clone, Copy, Debug, PartialEq, Eq, Structural)]
pub enum FeedStep {
    /// Drop it.
    Ignore,
    /// Wait for more.
    Wait,
    /// Decide the filter, then decode what follows the first `taken` bytes.
    Decide { taken: usize },
    /// Decode it.
    Decode,
}

/// What is to be done at the end of the stream.
#[derive(Clone, Copy, Debug, PartialEq, Eq, Structural)]
pub enum FinishStep {
    /// Nothing.
    Nothing,
    /// Decide the filter, then ask again.
    Decide,
    /// End the input of the decoder.
    Close,
}

/// The code that tells of an error in a nested archive.
pub open spec fn nested_code(kind: ErrorKind, after_finish: bool) -> PackageFindingCode {
    match kind {
        ErrorKind::Limit => PackageFindingCode::DecompressionBomb,
        ErrorKind::Capability => PackageFindingCode::UnsupportedCompression,
        ErrorKind::Malformed => if after_finish {
            PackageFindingCode::TruncatedMember
        } else {
            PackageFindingCode::MalformedNesting
        },
        _ => PackageFindingCode::MalformedNesting,
    }
}

/// A path that stands for the root itself.
pub open spec fn names_root(raw: Seq<u8>) -> bool {
    raw.len() == 0 || raw == ".".spec_bytes() || raw == "./".spec_bytes()
}

impl NestedView {
    /// Nothing more is looked at.
    pub open spec fn is_terminal(self) -> bool {
        self.skip || self.failed || self.done
    }

    /// The stream after it got a chunk, and what is to be done.
    pub open spec fn fed(self, chunk: Seq<u8>) -> (NestedView, FeedStep) {
        let room = PROBE_LEN - self.prefix.len();
        let taken = if chunk.len() < room {
            chunk.len() as int
        } else {
            room
        };
        if self.is_terminal() {
            (self, FeedStep::Ignore)
        } else if self.decided {
            (self, FeedStep::Decode)
        } else {
            (
                NestedView { prefix: self.prefix + chunk.take(taken), ..self },
                if chunk.len() < room {
                    FeedStep::Wait
                } else {
                    FeedStep::Decide { taken: taken as usize }
                },
            )
        }
    }

    /// The stream after its filter was decided, and what is reported.
    pub open spec fn settled(self, matched: Option<FilterId>, available: bool) -> (
        NestedView,
        Seq<FindingView>,
    ) {
        let filter = if matched is Some {
            matched
        } else {
            self.filter
        };
        if matched is Some && !available {
            (
                NestedView { decided: true, skip: true, filter, ..self },
                seq![
                    found(
                        self.subject.profile,
                        self.subject.path,
                        PackageFindingCode::UnsupportedCompression,
                        self.subject.unsupported,
                    ),
                ],
            )
        } else {
            (NestedView { decided: true, prefix: Seq::empty(), filter, ..self }, Seq::empty())
        }
    }

    /// What is reported about an entry.
    pub open spec fn entry_findings(self, path: ArchivePath) -> Seq<FindingView> {
        let place = Some(path.bytes@);
        if names_root(path.bytes@) {
            Seq::empty()
        } else {
            match safe_archive_path(path, self.rules) {
                None => seq![
                    found(
                        self.subject.profile,
                        place,
                        PackageFindingCode::UnsafeEntryPath,
                        self.subject.escaping,
                    ),
                ],
                Some(safe) => if self.seen.contains(safe) {
                    seq![
                        found(
                            self.subject.profile,
                            place,
                            PackageFindingCode::DuplicateEntryPath,
                            self.subject.repeated,
                        ),
                    ]
                } else {
                    Seq::empty()
                },
            }
        }
    }

    /// The stream after an entry.
    pub open spec fn after_entry(self, path: ArchivePath) -> NestedView {
        if names_root(path.bytes@) || safe_archive_path(path, self.rules) is None {
            self
        } else {
            NestedView { seen: self.seen.insert(safe_archive_path(path, self.rules)->0), ..self }
        }
    }

    /// What is reported about an error; only the first one is.
    pub open spec fn error_findings(
        self,
        kind: ErrorKind,
        words: Seq<char>,
        after_finish: bool,
    ) -> Seq<FindingView> {
        if self.failed {
            Seq::empty()
        } else {
            seq![
                found(
                    self.subject.profile,
                    self.subject.path,
                    nested_code(kind, after_finish),
                    self.subject.broken + words,
                ),
            ]
        }
    }

    /// What is to be done at the end of the stream.
    pub open spec fn at_end(self) -> FinishStep {
        if self.skip || self.failed {
            FinishStep::Nothing
        } else if !self.decided {
            FinishStep::Decide
        } else if self.done {
            FinishStep::Nothing
        } else {
            FinishStep::Close
        }
    }

    /// What is reported when the decoder has nothing more to say after its end.
    pub open spec fn closing_findings(self) -> Seq<FindingView> {
        if self.done || self.failed {
            Seq::empty()
        } else {
            seq![
                found(
                    self.subject.profile,
                    self.subject.path,
                    PackageFindingCode::TruncatedMember,
                    self.subject.unfinished,
                ),
            ]
        }
    }
}

/// Once a stream is broken, neither an error nor its end reports anything.
pub proof fn law_one_failure_is_reported(
    stream: NestedView,
    kind: ErrorKind,
    words: Seq<char>,
    after_finish: bool,
)
    requires
        stream.failed,
    ensures
        stream.error_findings(kind, words, after_finish).len() == 0,
        stream.closing_findings().len() == 0,
        stream.at_end() == FinishStep::Nothing,
        forall|chunk: Seq<u8>| #[trigger] stream.fed(chunk) == (stream, FeedStep::Ignore),
{
}

fn report_one(finding: PackageFinding, findings: &mut Vec<PackageFinding>)
    ensures
        findings_view(final(findings)@) == findings_view(old(findings)@) + seq![finding@],
{
    let ghost before = findings_view(findings@);
    report(findings, finding);
    proof {
        assert(before.push(finding@) =~= before + seq![finding@]);
    }
}

impl NestedStream {
    /// The first bytes are few.
    pub open spec fn wf(&self) -> bool {
        !self.decided ==> self.prefix@.len() <= PROBE_LEN
    }

    /// A stream of which nothing is known.
    pub fn new(subject: Subject, rules: PathRules) -> (stream: Self)
        ensures
            stream.wf(),
            stream@ == (NestedView {
                subject: subject@,
                rules,
                prefix: Seq::empty(),
                decided: false,
                skip: false,
                failed: false,
                done: false,
                finished: false,
                filter: None,
                seen: Set::empty(),
            }),
    {
        NestedStream {
            subject,
            rules,
            prefix: Vec::new(),
            decided: false,
            skip: false,
            failed: false,
            done: false,
            finished: false,
            filter: None,
            seen: PathSet::new(),
        }
    }

    /// Whether nothing more is looked at.
    pub fn is_terminal(&self) -> (terminal: bool)
        ensures
            terminal == self@.is_terminal(),
    {
        self.skip || self.failed || self.done
    }

    /// Takes a chunk of the stream.
    pub fn feed(&mut self, chunk: &[u8]) -> (step: FeedStep)
        requires
            old(self).wf(),
        ensures
            final(self).wf(),
            (final(self)@, step) == old(self)@.fed(chunk@),
    {
        if self.is_terminal() {
            return FeedStep::Ignore;
        }
        if self.decided {
            return FeedStep::Decode;
        }
        let room: usize = PROBE_LEN - self.prefix.len();
        let short: bool = chunk.len() < room;
        let taken: usize = if short {
            chunk.len()
        } else {
            room
        };
        let ghost before = self.prefix@;
        let head = &chunk[0..taken];
        self.prefix.extend_from_slice(head);
        proof {
            assert(head@ =~= chunk@.take(taken as int));
            assert(self.prefix@ =~= before + head@);
        }
        if short {
            FeedStep::Wait
        } else {
            FeedStep::Decide { taken }
        }
    }

    /// Decides the filter: the one that the first bytes match, and whether it
    /// can be decoded. The result is what the decoder gets first; `None` if
    /// nothing is decoded.
    pub fn decide(
        &mut self,
        matched: Option<FilterId>,
        available: bool,
        findings: &mut Vec<PackageFinding>,
    ) -> (first: Option<Vec<u8>>)
        requires
            old(self).wf(),
        ensures
            final(self).wf(),
            final(self)@ == old(self)@.settled(matched, available).0,
            findings_view(final(findings)@) == findings_view(old(findings)@) + old(self)@.settled(
                matched,
                available,
            ).1,
            match first {
                Some(first) => (matched is None || available) && first@ == old(self)@.prefix,
                None => matched is Some && !available,
            },
    {
        let ghost said = findings_view(findings@);
        proof {
            assert(said + Seq::<FindingView>::empty() =~= said);
        }
        self.decided = true;
        if matched.is_some() {
            self.filter = matched;
            if !available {
                let finding = PackageFinding::unsupported_method(
                    self.subject.profile,
                    self.subject.own_path(),
                    self.subject.unsupported.as_str(),
                );
                report_one(finding, findings);
                self.skip = true;
                return None;
            }
        }
        let first = to_vec(self.prefix.as_slice());
        self.prefix = Vec::new();
        proof {
            assert(self.prefix@ =~= Seq::<u8>::empty());
        }
        Some(first)
    }

    /// Decides the filter that the first bytes announce by what `providers` can
    /// decode. The result is what the decoder gets first; `None` if nothing is
    /// decoded.
    pub fn decide_by<F: StaticFormatProviders, C: StaticCodecProviders>(
        &mut self,
        providers: &ProviderSet<F, C>,
        findings: &mut Vec<PackageFinding>,
    ) -> (first: Option<Vec<u8>>)
        requires
            old(self).wf(),
        ensures
            ({
                let filter = announced(old(self)@.prefix);
                let decodes = can_decode(providers.codecs, filter);
                &&& final(self).wf()
                &&& final(self)@ == old(self)@.settled(filter, decodes).0
                &&& findings_view(final(findings)@) == findings_view(old(findings)@) + old(
                    self,
                )@.settled(filter, decodes).1
                &&& match first {
                    Some(first) => decodes && first@ == old(self)@.prefix,
                    None => !decodes,
                }
            }),
    {
        let matched = detect_filter(self.prefix.as_slice());
        let available = match matched {
            Some(filter) => providers.supports_filter(filter),
            None => true,
        };
        self.decide(matched, available, findings)
    }

    /// Looks at an entry.
    pub fn check_entry(&mut self, path: &ArchivePath, findings: &mut Vec<PackageFinding>)
        requires
            old(self).wf(),
        ensures
            final(self).wf(),
            final(self)@ == old(self)@.after_entry(*path),
            findings_view(final(findings)@) == findings_view(old(findings)@) + old(
                self,
            )@.entry_findings(*path),
    {
        let ghost said = findings_view(findings@);
        proof {
            assert(said + Seq::<FindingView>::empty() =~= said);
        }
        let raw = path.bytes.as_slice();
        if raw.len() == 0 || same_bytes(raw, ".".as_bytes()) || same_bytes(raw, "./".as_bytes()) {
            return;
        }
        match sanitize_archive_path(path, self.rules) {
            None => {
                let finding = PackageFinding::new(
                    self.subject.profile,
                    Some(to_vec(raw)),
                    PackageFindingCode::UnsafeEntryPath,
                    self.subject.escaping.as_str(),
                );
                report_one(finding, findings);
            },
            Some(safe) => {
                if !self.seen.insert(safe) {
                    let finding = PackageFinding::new(
                        self.subject.profile,
                        Some(to_vec(raw)),
                        PackageFindingCode::DuplicateEntryPath,
                        self.subject.repeated.as_str(),
                    );
                    report_one(finding, findings);
                }
            },
        }
    }

    /// The archive has ended.
    pub fn complete(&mut self)
        requires
            old(self).wf(),
        ensures
            final(self).wf(),
            final(self)@ == (NestedView { done: true, ..old(self)@ }),
    {
        self.done = true;
    }

    /// The decoder has failed, with an error in words.
    pub fn record_error(
        &mut self,
        kind: ErrorKind,
        words: &str,
        after_finish: bool,
        findings: &mut Vec<PackageFinding>,
    )
        requires
            old(self).wf(),
        ensures
            final(self).wf(),
            final(self)@ == (NestedView { failed: true, ..old(self)@ }),
            findings_view(final(findings)@) == findings_view(old(findings)@) + old(
                self,
            )@.error_findings(kind, words@, after_finish),
    {
        let ghost said = findings_view(findings@);
        proof {
            assert(said + Seq::<FindingView>::empty() =~= said);
        }
        if self.failed {
            return;
        }
        self.failed = true;
        let code = match kind {
            ErrorKind::Limit => PackageFindingCode::DecompressionBomb,
            ErrorKind::Capability => PackageFindingCode::UnsupportedCompression,
            ErrorKind::Malformed => if after_finish {
                PackageFindingCode::TruncatedMember
            } else {
                PackageFindingCode::MalformedNesting
            },
            _ => PackageFindingCode::MalformedNesting,
        };
        let detail = join(self.subject.broken.as_str(), words);
        let finding = PackageFinding::new(
            self.subject.profile,
            self.subject.own_path(),
            code,
            detail.as_str(),
        );
        report_one(finding, findings);
    }

    /// Ends the stream.
    pub fn finish(&mut self) -> (step: FinishStep)
        requires
            old(self).wf(),
        ensures
            final(self).wf(),
            step == old(self)@.at_end(),
            final(self)@ == (NestedView {
                finished: old(self)@.finished || step == FinishStep::Close,
                ..old(self)@
            }),
    {
        if self.skip || self.failed {
            return FinishStep::Nothing;
        }
        if !self.decided {
            return FinishStep::Decide;
        }
        if self.done {
            return FinishStep::Nothing;
        }
        self.finished = true;
        FinishStep::Close
    }

    /// The decoder has nothing more to say after its end.
    pub fn close(&mut self, findings: &mut Vec<PackageFinding>)
        requires
            old(self).wf(),
        ensures
            final(self).wf(),
            final(self)@ == (NestedView {
                failed: old(self)@.failed || !old(self)@.done,
                ..old(self)@
            }),
            findings_view(final(findings)@) == findings_view(old(findings)@) + old(
                self,
            )@.closing_findings(),
    {
        let ghost said = findings_view(findings@);
        proof {
            assert(said + Seq::<FindingView>::empty() =~= said);
        }
        if !self.done && !self.failed {
            self.failed = true;
            let finding = PackageFinding::new(
                self.subject.profile,
                self.subject.own_path(),
                PackageFindingCode::TruncatedMember,
                self.subject.unfinished.as_str(),
            );
            report_one(finding, findings);
        }
    }
}

} // verus!
