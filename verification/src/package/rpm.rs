//! RPM packages.
//!
//! A package is a lead, a signature header, a main header, and a payload: a
//! `cpio` archive under one filter. The bytes are read from outside: an
//! [`RpmState`] says which it needs next and is told what the payload holds.

use vstd::prelude::*;
use vstd::string::*;
use crate::builtin::{BuiltinCodecProviders, BuiltinFormatProviders};
use crate::bytes::{be32, be_u32, has_prefix, same_bytes, starts_with, to_vec};
use crate::chain::ProviderSet;
use crate::filtered::detect::FilterId;
use crate::limits::Limits;
use crate::package::finding::{
    blocks, findings_view, found, has_blocking, holds_code, read_lossy, FindingView,
    PackageFinding, PackageFindingCode, SupportStatus,
};
use crate::package::zip_profile::{report_if, said_if};
use crate::parts::{first_index, lemma_first_index_is};
use crate::text::join;
use crate::utf8::lossy_text;

verus! {

/// The length of the lead.
pub const LEAD_LEN: usize = 96;

/// The length of what begins a header.
pub const HEADER_INTRO_LEN: usize = 16;

/// The length of a record in the index of a header.
pub const INDEX_ENTRY_LEN: usize = 16;

/// The type of a text that ends with a zero byte.
pub const TYPE_STRING: u32 = 6;

/// The tag of the payload's format.
pub const TAG_PAYLOADFORMAT: u32 = 1124;

/// The tag of the payload's compressor.
pub const TAG_PAYLOADCOMPRESSOR: u32 = 1125;

// ---------------------------------------------------------------------------
// Validator
// ---------------------------------------------------------------------------

/// What RPM packages are validated with: budgets, and the codecs that decode them.
#[derive(Clone, Copy, Debug)]
pub struct RpmValidator<C> {
    pub limits: Limits,
    pub providers: ProviderSet<BuiltinFormatProviders, C>,
}

impl RpmValidator<BuiltinCodecProviders> {
    /// A validator with the codecs of the library.
    pub fn new(limits: Limits) -> (validator: Self)
        ensures
            validator.limits == limits,
            validator.providers.formats == BuiltinFormatProviders,
            validator.providers.codecs == BuiltinCodecProviders,
    {
        RpmValidator { limits, providers: ProviderSet::builtins() }
    }
}

impl<C> RpmValidator<C> {
    /// This validator with other budgets.
    pub fn with_limits(self, limits: Limits) -> (validator: Self)
        ensures
            validator.limits == limits,
            validator.providers == self.providers,
    {
        RpmValidator { limits, providers: self.providers }
    }

    /// This validator with other codecs.
    pub fn with_codec_providers<D>(
        self,
        providers: ProviderSet<BuiltinFormatProviders, D>,
    ) -> (validator: RpmValidator<D>)
        ensures
            validator.limits == self.limits,
            validator.providers == providers,
    {
        RpmValidator { limits: self.limits, providers }
    }

    /// The budgets.
    pub fn limits(&self) -> (limits: Limits)
        ensures
            limits == self.limits,
    {
        self.limits
    }
}

// ---------------------------------------------------------------------------
// Tags
// ---------------------------------------------------------------------------

/// The text that begins at a place and ends before a zero byte.
pub open spec fn text_at(store: Seq<u8>, offset: nat) -> Option<Seq<u8>> {
    if offset > store.len() {
        None
    } else {
        let rest = store.skip(offset as int);
        let end = first_index(rest, 0);
        if end < rest.len() {
            Some(rest.take(end as int))
        } else {
            None
        }
    }
}

/// Reads the text that begins at a place and ends before a zero byte.
pub fn extract_string(store: &[u8], offset: u32) -> (text: Option<Vec<u8>>)
    ensures
        match text {
            Some(text) => text_at(store@, offset as nat) == Some(text@),
            None => text_at(store@, offset as nat) is None,
        },
{
    let count: usize = store.len();
    let start: u64 = offset as u64;
    if start > count as u64 {
        return None;
    }
    let start: usize = start as usize;
    let ghost rest = store@.skip(start as int);
    let mut at: usize = start;
    while at < count
        invariant
            count == store@.len(),
            start <= at <= count,
            rest == store@.skip(start as int),
            start == offset,
            forall|i: int| 0 <= i < at - start ==> rest[i] != 0,
        decreases count - at,
    {
        proof {
            assert(rest[at - start] == store@[at as int]);
        }
        if store[at] == 0 {
            proof {
                lemma_first_index_is(rest, 0, (at - start) as nat);
            }
            let text = to_vec(&store[start..at]);
            proof {
                assert(text@ =~= rest.take(at - start));
            }
            return Some(text);
        }
        at += 1;
    }
    proof {
        lemma_first_index_is(rest, 0, rest.len());
    }
    None
}

/// The text of a tag: that of its last record that is a text.
pub open spec fn tag_text(index: Seq<u8>, store: Seq<u8>, tag: u32, count: nat) -> Option<Seq<u8>>
    decreases count,
{
    if count == 0 {
        None
    } else {
        let base = (count - 1) * INDEX_ENTRY_LEN;
        if be32(index, base + 4) == TYPE_STRING && be32(index, base) == tag {
            text_at(store, be32(index, base + 8))
        } else {
            tag_text(index, store, tag, (count - 1) as nat)
        }
    }
}

/// What the main header says about the payload.
#[derive(Debug)]
pub struct MainTags {
    pub payload_format: Option<Vec<u8>>,
    pub payload_compressor: Option<Vec<u8>>,
}

/// The text behind an optional one.
pub open spec fn optional_bytes(text: Option<Vec<u8>>) -> Option<Seq<u8>> {
    match text {
        Some(text) => Some(text@),
        None => None,
    }
}

fn be_u32_at(bytes: &[u8], at: usize) -> (value: u32)
    requires
        at + 4 <= bytes@.len(),
    ensures
        value == be32(bytes@, at as int),
{
    let count: usize = bytes.len();
    let part = &bytes[at..at + 4];
    proof {
        assert(part@[0] == bytes@[at as int] && part@[1] == bytes@[at + 1] && part@[2] == bytes@[at
            + 2] && part@[3] == bytes@[at + 3]);
    }
    be_u32(part)
}

/// Reads what the main header says about the payload.
pub fn extract_main_tags(index: &[u8], store: &[u8]) -> (tags: MainTags)
    ensures
        optional_bytes(tags.payload_format) == tag_text(
            index@,
            store@,
            TAG_PAYLOADFORMAT,
            index@.len() / 16,
        ),
        optional_bytes(tags.payload_compressor) == tag_text(
            index@,
            store@,
            TAG_PAYLOADCOMPRESSOR,
            index@.len() / 16,
        ),
{
    let total: usize = index.len();
    let count: usize = total / INDEX_ENTRY_LEN;
    let mut tags = MainTags { payload_format: None, payload_compressor: None };
    let mut i: usize = 0;
    while i < count
        invariant
            i <= count,
            total == index@.len(),
            count == total / 16,
            optional_bytes(tags.payload_format) == tag_text(
                index@,
                store@,
                TAG_PAYLOADFORMAT,
                i as nat,
            ),
            optional_bytes(tags.payload_compressor) == tag_text(
                index@,
                store@,
                TAG_PAYLOADCOMPRESSOR,
                i as nat,
            ),
        decreases count - i,
    {
        let base: usize = i * INDEX_ENTRY_LEN;
        let tag: u32 = be_u32_at(index, base);
        let kind: u32 = be_u32_at(index, base + 4);
        let offset: u32 = be_u32_at(index, base + 8);
        if kind == TYPE_STRING {
            if tag == TAG_PAYLOADFORMAT {
                tags.payload_format = extract_string(store, offset);
            } else if tag == TAG_PAYLOADCOMPRESSOR {
                tags.payload_compressor = extract_string(store, offset);
            }
        }
        i += 1;
    }
    tags
}

/// The filter that a compressor tag declares.
#[derive(Clone, Copy, Debug, PartialEq, Eq, Structural)]
pub enum DeclaredCompressor {
    /// A known one; `None` stands for no filter.
    Known(Option<FilterId>),
    /// There is no tag, or it names something else.
    Unknown,
}

/// The filter that a compressor tag declares.
pub open spec fn declared(tag: Option<Seq<u8>>) -> DeclaredCompressor {
    match tag {
        None => DeclaredCompressor::Unknown,
        Some(tag) => if tag == "gzip".spec_bytes() {
            DeclaredCompressor::Known(Some(FilterId::Gzip))
        } else if tag == "xz".spec_bytes() {
            DeclaredCompressor::Known(Some(FilterId::Xz))
        } else if tag == "zstd".spec_bytes() {
            DeclaredCompressor::Known(Some(FilterId::Zstd))
        } else if tag == "bzip2".spec_bytes() {
            DeclaredCompressor::Known(Some(FilterId::Bzip2))
        } else if tag == "lz4".spec_bytes() {
            DeclaredCompressor::Known(Some(FilterId::Lz4))
        } else if tag == "none".spec_bytes() {
            DeclaredCompressor::Known(None)
        } else {
            DeclaredCompressor::Unknown
        },
    }
}

/// The filter that a compressor tag declares.
pub fn declared_filter(tag: Option<&[u8]>) -> (filter: DeclaredCompressor)
    ensures
        filter == declared(
            match tag {
                Some(tag) => Some(tag@),
                None => None,
            },
        ),
{
    let tag = match tag {
        Some(tag) => tag,
        None => {
            return DeclaredCompressor::Unknown;
        },
    };
    if same_bytes(tag, "gzip".as_bytes()) {
        DeclaredCompressor::Known(Some(FilterId::Gzip))
    } else if same_bytes(tag, "xz".as_bytes()) {
        DeclaredCompressor::Known(Some(FilterId::Xz))
    } else if same_bytes(tag, "zstd".as_bytes()) {
        DeclaredCompressor::Known(Some(FilterId::Zstd))
    } else if same_bytes(tag, "bzip2".as_bytes()) {
        DeclaredCompressor::Known(Some(FilterId::Bzip2))
    } else if same_bytes(tag, "lz4".as_bytes()) {
        DeclaredCompressor::Known(Some(FilterId::Lz4))
    } else if same_bytes(tag, "none".as_bytes()) {
        DeclaredCompressor::Known(None)
    } else {
        DeclaredCompressor::Unknown
    }
}

// ---------------------------------------------------------------------------
// Headers
// ---------------------------------------------------------------------------

/// What an [`RpmState`] waits for.
#[derive(Clone, Copy, Debug, PartialEq, Eq, Structural)]
pub enum RpmStage {
    Lead,
    /// What begins a header.
    Intro { signature: bool },
    /// The index of a header.
    Index { signature: bool, length: usize, store: usize },
    /// The store of a header.
    Store { signature: bool, length: usize },
    /// What fills the store of the signature header up.
    Padding { length: usize },
    /// The headers are read.
    Payload,
    /// The container is broken.
    Failed,
}

/// What has been seen of a package.
#[derive(Debug)]
pub struct RpmState {
    pub limits: Limits,
    pub stage: RpmStage,
    /// The index of the header that is read.
    pub index: Vec<u8>,
    /// The store of the header that is read.
    pub store: Vec<u8>,
    pub findings: Vec<PackageFinding>,
    pub container_readable: bool,
    pub format_ok: bool,
    pub payload_ok: bool,
    pub payload_filter: Option<FilterId>,
    pub payload_compressor: Option<Vec<u8>>,
}

/// The mathematical content of an [`RpmState`].
#[verifier::ext_equal]
pub struct RpmView {
    pub limits: Limits,
    pub stage: RpmStage,
    pub index: Seq<u8>,
    pub store: Seq<u8>,
    pub findings: Seq<FindingView>,
    pub container_readable: bool,
    pub format_ok: bool,
    pub payload_ok: bool,
    pub payload_filter: Option<FilterId>,
    pub payload_compressor: Option<Seq<u8>>,
}

impl View for RpmState {
    type V = RpmView;

    open spec fn view(&self) -> RpmView {
        RpmView {
            limits: self.limits,
            stage: self.stage,
            index: self.index@,
            store: self.store@,
            findings: findings_view(self.findings@),
            container_readable: self.container_readable,
            format_ok: self.format_ok,
            payload_ok: self.payload_ok,
            payload_filter: self.payload_filter,
            payload_compressor: optional_bytes(self.payload_compressor),
        }
    }
}

/// A finding about an RPM package.
pub open spec fn rpm_found(code: PackageFindingCode, detail: Seq<char>) -> FindingView {
    found("rpm"@, None, code, detail)
}

/// The bytes that begin the lead.
pub open spec fn lead_magic() -> Seq<u8> {
    seq![0xedu8, 0xab, 0xee, 0xdb]
}

/// The bytes that begin a header, its version among them.
pub open spec fn header_magic() -> Seq<u8> {
    seq![0x8eu8, 0xad, 0xe8, 0x01]
}

/// The bytes of a header that begins so: of its index and its store.
pub open spec fn header_sizes(intro: Seq<u8>) -> (nat, nat) {
    (be32(intro, 8) * 16, be32(intro, 12))
}

/// How many bytes fill a store up to the next multiple of eight.
pub open spec fn fill(length: nat) -> nat {
    ((8 - length % 8) % 8) as nat
}

impl RpmView {
    /// How many bytes are needed next.
    pub open spec fn request(self) -> Option<usize> {
        match self.stage {
            RpmStage::Lead => Some(LEAD_LEN),
            RpmStage::Intro { .. } => Some(HEADER_INTRO_LEN),
            RpmStage::Index { length, .. } => Some(length),
            RpmStage::Store { length, .. } => Some(length),
            RpmStage::Padding { length } => Some(length),
            RpmStage::Payload | RpmStage::Failed => None,
        }
    }

    /// The container is broken.
    pub open spec fn broken(self, code: PackageFindingCode, detail: Seq<char>) -> RpmView {
        RpmView {
            stage: RpmStage::Failed,
            container_readable: false,
            findings: self.findings.push(rpm_found(code, detail)),
            ..self
        }
    }

    /// The state after the bytes that were needed have come.
    pub open spec fn supplied(self, bytes: Seq<u8>) -> RpmView {
        match self.stage {
            RpmStage::Lead => if has_prefix(bytes, lead_magic()) {
                RpmView { stage: RpmStage::Intro { signature: true }, ..self }
            } else {
                self.broken(
                    PackageFindingCode::InvalidLead,
                    "RPM lead magic does not match ED AB EE DB"@,
                )
            },
            RpmStage::Intro { signature } => {
                let (index, store) = header_sizes(bytes);
                let cap = self.limits.metadata_bytes;
                if !has_prefix(bytes, header_magic()) {
                    self.broken(
                        PackageFindingCode::InvalidHeader,
                        "RPM header magic or version is invalid"@,
                    )
                } else if index + store > usize::MAX || (cap is Some && index + store > cap->0) {
                    self.broken(
                        PackageFindingCode::HeaderTooLarge,
                        "RPM header index and store exceed the metadata budget"@,
                    )
                } else {
                    RpmView {
                        stage: RpmStage::Index {
                            signature,
                            length: index as usize,
                            store: store as usize,
                        },
                        ..self
                    }
                }
            },
            RpmStage::Index { signature, length: _, store } => RpmView {
                stage: RpmStage::Store { signature, length: store },
                index: bytes,
                ..self
            },
            RpmStage::Store { signature, length } => RpmView {
                stage: if !signature {
                    RpmStage::Payload
                } else if fill(length as nat) > 0 {
                    RpmStage::Padding { length: fill(length as nat) as usize }
                } else {
                    RpmStage::Intro { signature: false }
                },
                store: bytes,
                ..self
            },
            RpmStage::Padding { .. } => RpmView {
                stage: RpmStage::Intro { signature: false },
                ..self
            },
            RpmStage::Payload | RpmStage::Failed => self,
        }
    }

    /// The state after the input ended too early.
    pub open spec fn ended(self) -> RpmView {
        match self.stage {
            RpmStage::Lead => self.broken(
                PackageFindingCode::InvalidLead,
                "input ended before the 96-byte RPM lead"@,
            ),
            RpmStage::Intro { .. } => self.broken(
                PackageFindingCode::InvalidHeader,
                "input ended before an RPM header intro"@,
            ),
            _ => self.broken(
                PackageFindingCode::InvalidHeader,
                "input ended inside an RPM header section"@,
            ),
        }
    }

    /// The state after the input could not be read.
    pub open spec fn unreadable(self, words: Seq<char>) -> RpmView {
        match self.stage {
            RpmStage::Lead => self.broken(
                PackageFindingCode::InvalidLead,
                "cannot read RPM lead: "@ + words,
            ),
            RpmStage::Intro { .. } => self.broken(
                PackageFindingCode::InvalidHeader,
                "cannot read RPM header intro: "@ + words,
            ),
            _ => self.broken(
                PackageFindingCode::InvalidHeader,
                "cannot read RPM header section: "@ + words,
            ),
        }
    }

    /// The text of a tag of the main header.
    pub open spec fn tag(self, tag: u32) -> Option<Seq<u8>> {
        tag_text(self.index, self.store, tag, self.index.len() / 16)
    }

    /// What is reported about the format of the payload, given how a wrong
    /// format is quoted.
    pub open spec fn format_findings(self, quoted: Seq<char>) -> Seq<FindingView> {
        match self.tag(TAG_PAYLOADFORMAT) {
            Some(format) => said_if(
                format != "cpio".spec_bytes(),
                rpm_found(
                    PackageFindingCode::PayloadFormatMismatch,
                    "PAYLOADFORMAT is "@ + quoted + ", expected cpio"@,
                ),
            ),
            None => seq![
                rpm_found(
                    PackageFindingCode::PayloadFormatMismatch,
                    "main header has no PAYLOADFORMAT tag"@,
                ),
            ],
        }
    }

    /// The state when the payload begins.
    pub open spec fn at_payload(self, quoted: Seq<char>) -> RpmView {
        RpmView {
            findings: self.findings + self.format_findings(quoted),
            format_ok: self.tag(TAG_PAYLOADFORMAT) == Some("cpio".spec_bytes()),
            payload_compressor: self.tag(TAG_PAYLOADCOMPRESSOR),
            ..self
        }
    }

    /// What is reported when the payload's filter is not the declared one.
    pub open spec fn filter_findings(self, decided: bool, filter: Option<FilterId>) -> Seq<
        FindingView,
    > {
        said_if(
            decided && declared(self.payload_compressor) != DeclaredCompressor::Known(filter)
                && declared(self.payload_compressor) != DeclaredCompressor::Unknown,
            rpm_found(
                PackageFindingCode::CompressorMismatch,
                "detected payload filter disagrees with PAYLOADCOMPRESSOR"@,
            ),
        )
    }

    /// The package keeps to the profile.
    pub open spec fn is_valid(self) -> bool {
        self.container_readable && !blocks(self.findings) && self.format_ok && self.payload_ok
    }
}

/// A header is never larger than the metadata budget.
pub proof fn law_headers_stay_within_budget(state: RpmView, bytes: Seq<u8>)
    requires
        state.stage is Intro,
        bytes.len() == HEADER_INTRO_LEN,
    ensures
        state.supplied(bytes).stage matches RpmStage::Index { length, store, .. } ==> {
            &&& (length as nat, store as nat) == header_sizes(bytes)
            &&& state.limits.metadata_bytes matches Some(limit) ==> length + store <= limit
        },
{
}

/// A container that is broken stays so, and is never valid.
pub proof fn law_broken_containers_stay_invalid(
    state: RpmView,
    bytes: Seq<u8>,
    words: Seq<char>,
)
    requires
        !state.container_readable,
    ensures
        !state.is_valid(),
        !state.supplied(bytes).container_readable,
        !state.ended().container_readable,
        !state.unreadable(words).container_readable,
        !state.at_payload(words).container_readable,
{
}

/// The text that `format!` with `{:?}` makes of a text.
pub uninterp spec fn quoted_text(text: Seq<char>) -> Seq<char>;

/// `format!` with `{:?}` on a text. Claimed: the result depends on the text
/// alone.
#[verifier::external_body]
fn quote(text: &str) -> (quoted: String)
    ensures
        quoted@ == quoted_text(text@),
{
    format!("{:?}", text)
}

fn same_filter(left: Option<FilterId>, right: Option<FilterId>) -> (same: bool)
    ensures
        same == (left == right),
{
    match (left, right) {
        (Some(left), Some(right)) => left == right,
        (None, None) => true,
        _ => false,
    }
}

impl RpmState {
    /// Nothing has been seen.
    pub fn new(limits: Limits) -> (state: Self)
        ensures
            state@ == (RpmView {
                limits,
                stage: RpmStage::Lead,
                index: Seq::empty(),
                store: Seq::empty(),
                findings: Seq::empty(),
                container_readable: true,
                format_ok: false,
                payload_ok: false,
                payload_filter: None,
                payload_compressor: None,
            }),
    {
        let state = RpmState {
            limits,
            stage: RpmStage::Lead,
            index: Vec::new(),
            store: Vec::new(),
            findings: Vec::new(),
            container_readable: true,
            format_ok: false,
            payload_ok: false,
            payload_filter: None,
            payload_compressor: None,
        };
        proof {
            assert(findings_view(state.findings@) =~= Seq::<FindingView>::empty());
        }
        state
    }

    /// How many bytes are needed next; `None` if the headers are read or broken.
    pub fn request(&self) -> (request: Option<usize>)
        ensures
            request == self@.request(),
    {
        match self.stage {
            RpmStage::Lead => Some(LEAD_LEN),
            RpmStage::Intro { .. } => Some(HEADER_INTRO_LEN),
            RpmStage::Index { length, .. } => Some(length),
            RpmStage::Store { length, .. } => Some(length),
            RpmStage::Padding { length } => Some(length),
            RpmStage::Payload | RpmStage::Failed => None,
        }
    }

    /// The container is broken.
    fn fail(&mut self, code: PackageFindingCode, detail: &str)
        ensures
            final(self)@ == old(self)@.broken(code, detail@),
    {
        self.stage = RpmStage::Failed;
        self.container_readable = false;
        report_if(true, "rpm", None, code, detail, &mut self.findings);
        proof {
            let said = rpm_found(code, detail@);
            assert(old(self)@.findings + seq![said] =~= old(self)@.findings.push(said));
        }
    }

    /// Takes the bytes that were needed.
    pub fn supply(&mut self, bytes: &[u8])
        requires
            old(self)@.request() matches Some(length) && bytes@.len() == length,
        ensures
            final(self)@ == old(self)@.supplied(bytes@),
    {
        match self.stage {
            RpmStage::Lead => {
                let magic: [u8; 4] = [0xed, 0xab, 0xee, 0xdb];
                proof {
                    assert(magic@ =~= lead_magic());
                }
                if starts_with(bytes, magic.as_slice()) {
                    self.stage = RpmStage::Intro { signature: true };
                } else {
                    self.fail(
                        PackageFindingCode::InvalidLead,
                        "RPM lead magic does not match ED AB EE DB",
                    );
                }
            },
            RpmStage::Intro { signature } => {
                self.take_intro(bytes, signature);
            },
            RpmStage::Index { signature, length: _, store } => {
                self.index = to_vec(bytes);
                self.stage = RpmStage::Store { signature, length: store };
            },
            RpmStage::Store { signature, length } => {
                self.store = to_vec(bytes);
                let padding: usize = (8 - length % 8) % 8;
                self.stage = if !signature {
                    RpmStage::Payload
                } else if padding > 0 {
                    RpmStage::Padding { length: padding }
                } else {
                    RpmStage::Intro { signature: false }
                };
            },
            RpmStage::Padding { .. } => {
                self.stage = RpmStage::Intro { signature: false };
            },
            RpmStage::Payload | RpmStage::Failed => {},
        }
    }

    fn take_intro(&mut self, bytes: &[u8], signature: bool)
        requires
            old(self).stage == (RpmStage::Intro { signature }),
            bytes@.len() == HEADER_INTRO_LEN,
        ensures
            final(self)@ == old(self)@.supplied(bytes@),
    {
        let magic: [u8; 4] = [0x8e, 0xad, 0xe8, 0x01];
        proof {
            assert(magic@ =~= header_magic());
        }
        if !starts_with(bytes, magic.as_slice()) {
            self.fail(PackageFindingCode::InvalidHeader, "RPM header magic or version is invalid");
            return;
        }
        let count: u64 = be_u32_at(bytes, 8) as u64;
        let index: u64 = count * 16;
        let store: u64 = be_u32_at(bytes, 12) as u64;
        let total: u64 = index + store;
        let over: bool = total > usize::MAX as u64 || match self.limits.metadata_bytes {
            Some(limit) => total > limit as u64,
            None => false,
        };
        if over {
            self.fail(
                PackageFindingCode::HeaderTooLarge,
                "RPM header index and store exceed the metadata budget",
            );
            return;
        }
        self.stage = RpmStage::Index {
            signature,
            length: index as usize,
            store: store as usize,
        };
    }

    /// The input has ended before the bytes that were needed.
    pub fn end_early(&mut self)
        ensures
            final(self)@ == old(self)@.ended(),
    {
        match self.stage {
            RpmStage::Lead => {
                self.fail(
                    PackageFindingCode::InvalidLead,
                    "input ended before the 96-byte RPM lead",
                );
            },
            RpmStage::Intro { .. } => {
                self.fail(
                    PackageFindingCode::InvalidHeader,
                    "input ended before an RPM header intro",
                );
            },
            _ => {
                self.fail(
                    PackageFindingCode::InvalidHeader,
                    "input ended inside an RPM header section",
                );
            },
        }
    }

    /// The input could not be read, for a reason in words.
    pub fn end_unreadable(&mut self, words: &str)
        ensures
            final(self)@ == old(self)@.unreadable(words@),
    {
        match self.stage {
            RpmStage::Lead => {
                let detail = join("cannot read RPM lead: ", words);
                self.fail(PackageFindingCode::InvalidLead, detail.as_str());
            },
            RpmStage::Intro { .. } => {
                let detail = join("cannot read RPM header intro: ", words);
                self.fail(PackageFindingCode::InvalidHeader, detail.as_str());
            },
            _ => {
                let detail = join("cannot read RPM header section: ", words);
                self.fail(PackageFindingCode::InvalidHeader, detail.as_str());
            },
        }
    }

    /// How a wrong format of the payload is quoted.
    pub open spec fn quoted_format(self) -> Seq<char> {
        match self@.tag(TAG_PAYLOADFORMAT) {
            Some(format) => quoted_text(lossy_text(format)),
            None => Seq::empty(),
        }
    }

    /// Begins the payload.
    pub fn begin_payload(&mut self)
        ensures
            final(self)@ == old(self)@.at_payload(old(self).quoted_format()),
    {
        let tags = extract_main_tags(self.index.as_slice(), self.store.as_slice());
        let quoted = match &tags.payload_format {
            Some(format) => {
                let words = read_lossy(format.as_slice());
                quote(words.as_str())
            },
            None => {
                let empty = String::new();
                proof {
                    assert(empty@ =~= Seq::<char>::empty());
                }
                empty
            },
        };
        self.take_tags(tags, quoted.as_str());
    }

    /// Begins the payload, given what the main header says and how a wrong
    /// format is quoted.
    pub fn take_tags(&mut self, tags: MainTags, quoted: &str)
        requires
            optional_bytes(tags.payload_format) == old(self)@.tag(TAG_PAYLOADFORMAT),
            optional_bytes(tags.payload_compressor) == old(self)@.tag(TAG_PAYLOADCOMPRESSOR),
        ensures
            final(self)@ == old(self)@.at_payload(quoted@),
    {
        match &tags.payload_format {
            Some(format) => {
                let right: bool = same_bytes(format.as_slice(), "cpio".as_bytes());
                let mut detail = join("PAYLOADFORMAT is ", quoted);
                detail.append(", expected cpio");
                report_if(
                    !right,
                    "rpm",
                    None,
                    PackageFindingCode::PayloadFormatMismatch,
                    detail.as_str(),
                    &mut self.findings,
                );
                self.format_ok = right;
            },
            None => {
                report_if(
                    true,
                    "rpm",
                    None,
                    PackageFindingCode::PayloadFormatMismatch,
                    "main header has no PAYLOADFORMAT tag",
                    &mut self.findings,
                );
                self.format_ok = false;
            },
        }
        self.payload_compressor = tags.payload_compressor;
    }

    /// The payload could not be read, for a reason in words.
    pub fn break_payload(&mut self, words: &str)
        ensures
            final(self)@ == (RpmView {
                findings: old(self)@.findings + seq![
                    rpm_found(
                        PackageFindingCode::TruncatedMember,
                        "cannot read RPM payload: "@ + words@,
                    ),
                ],
                ..old(self)@
            }),
    {
        let detail = join("cannot read RPM payload: ", words);
        report_if(
            true,
            "rpm",
            None,
            PackageFindingCode::TruncatedMember,
            detail.as_str(),
            &mut self.findings,
        );
    }

    /// Ends the payload: whether its filter was decided, which it is, and
    /// whether its archive has come to an end.
    pub fn finish_payload(&mut self, decided: bool, filter: Option<FilterId>, done: bool)
        ensures
            final(self)@ == (RpmView {
                payload_filter: filter,
                payload_ok: done,
                findings: old(self)@.findings + old(self)@.filter_findings(decided, filter),
                ..old(self)@
            }),
    {
        let tag = match &self.payload_compressor {
            Some(tag) => Some(tag.as_slice()),
            None => None,
        };
        let wrong: bool = match declared_filter(tag) {
            DeclaredCompressor::Known(expected) => !same_filter(filter, expected),
            DeclaredCompressor::Unknown => false,
        };
        self.payload_filter = filter;
        self.payload_ok = done;
        report_if(
            decided && wrong,
            "rpm",
            None,
            PackageFindingCode::CompressorMismatch,
            "detected payload filter disagrees with PAYLOADCOMPRESSOR",
            &mut self.findings,
        );
    }

    /// The verdict.
    pub fn finalize(self) -> (validation: RpmValidation)
        ensures
            validation.findings == self.findings,
            validation.status == (SupportStatus {
                container_readable: self.container_readable,
                profile_valid: self@.is_valid(),
            }),
            validation.payload_filter == self.payload_filter,
            validation.payload_compressor == self.payload_compressor,
    {
        let blocking: bool = has_blocking(self.findings.as_slice());
        let valid: bool = self.container_readable && !blocking && self.format_ok
            && self.payload_ok;
        RpmValidation {
            status: SupportStatus::new(self.container_readable, valid),
            findings: self.findings,
            payload_filter: self.payload_filter,
            payload_compressor: self.payload_compressor,
        }
    }
}

/// The verdict on a package.
#[derive(Clone, Debug)]
pub struct RpmValidation {
    pub status: SupportStatus,
    pub findings: Vec<PackageFinding>,
    pub payload_filter: Option<FilterId>,
    pub payload_compressor: Option<Vec<u8>>,
}

impl RpmValidation {
    /// Whether the container could be read and the package keeps to its profile.
    pub fn status(&self) -> (status: SupportStatus)
        ensures
            status == self.status,
    {
        self.status
    }

    /// Whether the lead and the headers could be read.
    pub fn container_readable(&self) -> (readable: bool)
        ensures
            readable == self.status.container_readable,
    {
        self.status.container_readable()
    }

    /// Whether the package keeps to the profile.
    pub fn profile_valid(&self) -> (valid: bool)
        ensures
            valid == self.status.profile_valid,
    {
        self.status.profile_valid()
    }

    /// The findings, in the order in which they were made.
    pub fn findings(&self) -> (findings: &[PackageFinding])
        ensures
            findings@ == self.findings@,
    {
        self.findings.as_slice()
    }

    /// The filter of the payload.
    pub fn payload_filter(&self) -> (filter: Option<FilterId>)
        ensures
            filter == self.payload_filter,
    {
        self.payload_filter
    }

    /// The declared compressor.
    pub fn payload_compressor(&self) -> (compressor: Option<&[u8]>)
        ensures
            match (compressor, self.payload_compressor) {
                (Some(text), Some(own)) => text@ == own@,
                (None, None) => true,
                _ => false,
            },
    {
        match &self.payload_compressor {
            Some(compressor) => Some(compressor.as_slice()),
            None => None,
        }
    }

    /// Whether a finding has a code.
    pub fn has_code(&self, code: PackageFindingCode) -> (found: bool)
        ensures
            found == exists|i: int|
                0 <= i < self.findings@.len() && (#[trigger] self.findings@[i]).code == code,
    {
        holds_code(self.findings.as_slice(), code)
    }
}

} // verus!
