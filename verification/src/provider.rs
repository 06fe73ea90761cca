//! Providers of archive formats and outer codecs, in chains.

use vstd::prelude::*;
use crate::entry::ArchiveMetadata;
use crate::error::{plain_fault, ArchiveError, ErrorKind, ErrorView};
use crate::filtered::detect::FilterId;
use crate::limits::Limits;
use crate::text::join;

verus! {

/// An archive format.
#[derive(Clone, Copy, Debug, PartialEq, Eq, Structural)]
pub enum FormatId {
    Tar,
    Cpio,
    Ar,
    Zip,
    SevenZip,
    Iso9660,
    Cab,
    Xar,
}

/// What came of looking at the beginning of an input.
#[derive(Clone, Copy, Debug, PartialEq, Eq, Structural)]
pub enum ProbeResult<T> {
    /// It is recognized.
    Match(T),
    /// More of it is needed.
    NeedMore { minimum: usize },
    /// It is something else.
    NoMatch,
}

/// What a provider of a format can do.
#[derive(Clone, Copy, Debug, PartialEq, Eq, Structural)]
pub struct FormatCapabilities {
    pub decode: bool,
    pub encode: bool,
    pub seek: bool,
}

impl FormatCapabilities {
    /// It can do something.
    pub open spec fn is_available(self) -> bool {
        self.decode || self.encode
    }

    /// What a provider can do.
    pub fn new(decode: bool, encode: bool, seek: bool) -> (capabilities: Self)
        ensures
            capabilities == (FormatCapabilities { decode, encode, seek }),
    {
        FormatCapabilities { decode, encode, seek }
    }

    /// Whether it can decode.
    pub fn can_decode(self) -> (can: bool)
        ensures
            can == self.decode,
    {
        self.decode
    }

    /// Whether it can encode.
    pub fn can_encode(self) -> (can: bool)
        ensures
            can == self.encode,
    {
        self.encode
    }

    /// Whether the format is served by a path of the library that seeks. A
    /// sequential provider says no.
    pub fn requires_seek(self) -> (requires_it: bool)
        ensures
            requires_it == self.seek,
    {
        self.seek
    }

    /// Whether it can do something.
    pub fn available(self) -> (available: bool)
        ensures
            available == self.is_available(),
    {
        self.decode || self.encode
    }
}

/// What a provider of a codec can do.
#[derive(Clone, Copy, Debug, PartialEq, Eq, Structural)]
pub struct CodecCapabilities {
    pub decode: bool,
    pub encode: bool,
}

impl CodecCapabilities {
    /// It can do something.
    pub open spec fn is_available(self) -> bool {
        self.decode || self.encode
    }

    /// What a provider can do.
    pub fn new(decode: bool, encode: bool) -> (capabilities: Self)
        ensures
            capabilities == (CodecCapabilities { decode, encode }),
    {
        CodecCapabilities { decode, encode }
    }

    /// Whether it can decode.
    pub fn can_decode(self) -> (can: bool)
        ensures
            can == self.decode,
    {
        self.decode
    }

    /// Whether it can encode.
    pub fn can_encode(self) -> (can: bool)
        ensures
            can == self.encode,
    {
        self.encode
    }

    /// Whether it can do something.
    pub fn available(self) -> (available: bool)
        ensures
            available == self.is_available(),
    {
        self.decode || self.encode
    }
}

/// What is known of a format or codec.
#[derive(Clone, Copy, Debug, PartialEq, Eq, Structural)]
pub enum ProviderCapability<T> {
    /// A provider can do this.
    Available(T),
    /// A provider knows it, but can do nothing.
    Disabled,
    /// No provider knows it.
    Unknown,
}

// ---------------------------------------------------------------------------
// Names and errors
// ---------------------------------------------------------------------------

/// The name of a format.
pub open spec fn format_words(format: FormatId) -> Seq<char> {
    match format {
        FormatId::Tar => "tar"@,
        FormatId::Cpio => "cpio"@,
        FormatId::Ar => "ar"@,
        FormatId::Zip => "zip"@,
        FormatId::SevenZip => "7z"@,
        FormatId::Iso9660 => "iso9660"@,
        FormatId::Cab => "cab"@,
        FormatId::Xar => "xar"@,
    }
}

/// The name of a format.
pub fn format_name(format: FormatId) -> (name: &'static str)
    ensures
        name@ == format_words(format),
{
    match format {
        FormatId::Tar => "tar",
        FormatId::Cpio => "cpio",
        FormatId::Ar => "ar",
        FormatId::Zip => "zip",
        FormatId::SevenZip => "7z",
        FormatId::Iso9660 => "iso9660",
        FormatId::Cab => "cab",
        FormatId::Xar => "xar",
    }
}

/// The name of a codec that providers have.
pub open spec fn codec_words(filter: FilterId) -> Seq<char> {
    match filter {
        FilterId::Gzip => "gzip"@,
        FilterId::Bzip2 => "bzip2"@,
        FilterId::Zstd => "zstd"@,
        FilterId::Xz => "xz"@,
        FilterId::Lz4 => "lz4"@,
        _ => "unknown"@,
    }
}

/// The name of a codec that providers have.
pub fn codec_name(filter: FilterId) -> (name: &'static str)
    ensures
        name@ == codec_words(filter),
{
    match filter {
        FilterId::Gzip => "gzip",
        FilterId::Bzip2 => "bzip2",
        FilterId::Zstd => "zstd",
        FilterId::Xz => "xz",
        FilterId::Lz4 => "lz4",
        _ => "unknown",
    }
}

/// An error with a name and words.
pub open spec fn named_error(kind: ErrorKind, name: Seq<char>, context: Seq<char>) -> ErrorView {
    ErrorView { kind, format: Some(name), context }
}

/// No provider knows a format.
pub open spec fn unknown_format_error(format: FormatId) -> ErrorView {
    named_error(
        ErrorKind::Unsupported,
        format_words(format),
        "no registered format provider recognizes the identifier"@,
    )
}

/// No provider knows a codec.
pub open spec fn unknown_codec_error(filter: FilterId) -> ErrorView {
    named_error(
        ErrorKind::Unsupported,
        codec_words(filter),
        "no registered codec provider recognizes the identifier"@,
    )
}

/// A provider cannot do something.
pub open spec fn disabled_error(
    name: Seq<char>,
    provider: Seq<char>,
    operation: Seq<char>,
) -> ErrorView {
    named_error(
        ErrorKind::Capability,
        provider,
        "registered provider for "@ + name + " is compiled without "@ + operation
            + " capability"@,
    )
}

/// No provider knows a format.
pub fn unknown_format(format: FormatId) -> (error: ArchiveError)
    ensures
        error@ == unknown_format_error(format),
{
    ArchiveError::of_format(
        ErrorKind::Unsupported,
        format_name(format),
        "no registered format provider recognizes the identifier",
    )
}

/// No provider knows a codec.
pub fn unknown_codec(filter: FilterId) -> (error: ArchiveError)
    ensures
        error@ == unknown_codec_error(filter),
{
    ArchiveError::of_format(
        ErrorKind::Unsupported,
        codec_name(filter),
        "no registered codec provider recognizes the identifier",
    )
}

/// A provider cannot do something.
pub fn disabled(name: &str, provider: &'static str, operation: &str) -> (error: ArchiveError)
    ensures
        error@ == disabled_error(name@, provider@, operation@),
{
    let mut text = join("registered provider for ", name);
    text.append(" is compiled without ");
    text.append(operation);
    text.append(" capability");
    ArchiveError::of_format_text(ErrorKind::Capability, provider, text)
}

/// What a format without metadata of its own makes of archive metadata.
pub open spec fn metadata_refusal(metadata: ArchiveMetadata) -> Option<ErrorView> {
    if metadata.volume_name is None && metadata.comment is None && metadata.extensions@.len() == 0 {
        None
    } else {
        Some(
            plain_fault(
                ErrorKind::Unsupported,
                "format provider has no archive-level metadata representation"@,
            ),
        )
    }
}

/// Refuses archive metadata for a format without metadata of its own.
pub fn refuse_archive_metadata(metadata: &ArchiveMetadata) -> (result: Result<(), ArchiveError>)
    ensures
        match result {
            Ok(()) => metadata_refusal(*metadata) is None,
            Err(error) => metadata_refusal(*metadata) == Some(error@),
        },
{
    if metadata.volume_name.is_none() && metadata.comment.is_none() && metadata.extensions.len()
        == 0 {
        Ok(())
    } else {
        Err(
            ArchiveError::plain(
                ErrorKind::Unsupported,
                "format provider has no archive-level metadata representation",
            ),
        )
    }
}

// ---------------------------------------------------------------------------
// Probes
// ---------------------------------------------------------------------------

/// A probe that asks for more must ask for more than there was.
pub open spec fn probe_error<T>(
    result: ProbeResult<T>,
    length: nat,
    provider: Seq<char>,
) -> Option<ErrorView> {
    match result {
        ProbeResult::NeedMore { minimum } => if minimum <= length {
            Some(
                named_error(
                    ErrorKind::Protocol,
                    provider,
                    "provider probe requested no additional input"@,
                ),
            )
        } else {
            None
        },
        _ => None,
    }
}

/// Checks that a probe asks for more than there was.
pub fn validate_probe<T>(result: ProbeResult<T>, length: usize, provider: &'static str) -> (checked:
    Result<ProbeResult<T>, ArchiveError>)
    ensures
        match checked {
            Ok(same) => probe_error(result, length as nat, provider@) is None && same == result,
            Err(error) => probe_error(result, length as nat, provider@) == Some(error@),
        },
{
    if let ProbeResult::NeedMore { minimum } = &result {
        if *minimum <= length {
            return Err(
                ArchiveError::of_format(
                    ErrorKind::Protocol,
                    provider,
                    "provider probe requested no additional input",
                ),
            );
        }
    }
    Ok(result)
}

/// Two providers recognize the same beginning as different things.
pub open spec fn conflict_error(kind: Seq<char>) -> ErrorView {
    plain_fault(
        ErrorKind::Protocol,
        "multiple "@ + kind + " providers matched the same prefix"@,
    )
}

/// What two probes say together. The head comes first: what it recognizes
/// stands, unless the tail recognizes something else; and what it cannot tell
/// yet must be told before the tail counts.
pub open spec fn combined<I, S>(
    head: ProbeResult<(I, S)>,
    tail: ProbeResult<(I, S)>,
    kind: Seq<char>,
) -> Result<ProbeResult<(I, S)>, ErrorView> {
    match (head, tail) {
        (ProbeResult::Match(first), ProbeResult::Match(second)) => if first.0 == second.0 {
            Ok(head)
        } else {
            Err(conflict_error(kind))
        },
        (ProbeResult::Match(_), _) => Ok(head),
        (ProbeResult::NeedMore { minimum: left }, ProbeResult::NeedMore { minimum: right }) => Ok(
            ProbeResult::NeedMore {
                minimum: if left > right {
                    left
                } else {
                    right
                },
            },
        ),
        (ProbeResult::NeedMore { .. }, _) => Ok(head),
        (ProbeResult::NoMatch, _) => Ok(tail),
    }
}

/// Joins two probes, given whether they recognize the same.
fn combine<I, S>(
    head: ProbeResult<(I, S)>,
    tail: ProbeResult<(I, S)>,
    same: bool,
    kind: &str,
) -> (result: Result<ProbeResult<(I, S)>, ArchiveError>)
    requires
        head is Match && tail is Match ==> same == (head->Match_0.0 == tail->Match_0.0),
    ensures
        match result {
            Ok(probe) => combined(head, tail, kind@) == Ok::<_, ErrorView>(probe),
            Err(error) => combined(head, tail, kind@) == Err::<ProbeResult<(I, S)>, _>(error@),
        },
{
    match (head, tail) {
        (ProbeResult::Match(first), ProbeResult::Match(_)) => {
            if same {
                Ok(ProbeResult::Match(first))
            } else {
                let mut text = join("multiple ", kind);
                text.append(" providers matched the same prefix");
                Err(ArchiveError::plain_text(ErrorKind::Protocol, text))
            }
        },
        (ProbeResult::Match(value), _) => Ok(ProbeResult::Match(value)),
        (ProbeResult::NeedMore { minimum: left }, ProbeResult::NeedMore { minimum: right }) => Ok(
            ProbeResult::NeedMore {
                minimum: if left > right {
                    left
                } else {
                    right
                },
            },
        ),
        (ProbeResult::NeedMore { minimum }, _) => Ok(ProbeResult::NeedMore { minimum }),
        (ProbeResult::NoMatch, tail) => Ok(tail),
    }
}

/// Joins the probes of a format provider and of those behind it.
pub fn combine_format_probes<S>(
    head: ProbeResult<(FormatId, S)>,
    tail: ProbeResult<(FormatId, S)>,
) -> (result: Result<ProbeResult<(FormatId, S)>, ArchiveError>)
    ensures
        match result {
            Ok(probe) => combined(head, tail, "format"@) == Ok::<_, ErrorView>(probe),
            Err(error) => combined(head, tail, "format"@) == Err::<
                ProbeResult<(FormatId, S)>,
                _,
            >(error@),
        },
{
    let same: bool = match (&head, &tail) {
        (ProbeResult::Match(first), ProbeResult::Match(second)) => first.0 == second.0,
        _ => false,
    };
    combine(head, tail, same, "format")
}

/// Joins the probes of a codec provider and of those behind it.
pub fn combine_codec_probes<S>(
    head: ProbeResult<(FilterId, S)>,
    tail: ProbeResult<(FilterId, S)>,
) -> (result: Result<ProbeResult<(FilterId, S)>, ArchiveError>)
    ensures
        match result {
            Ok(probe) => combined(head, tail, "codec"@) == Ok::<_, ErrorView>(probe),
            Err(error) => combined(head, tail, "codec"@) == Err::<
                ProbeResult<(FilterId, S)>,
                _,
            >(error@),
        },
{
    let same: bool = match (&head, &tail) {
        (ProbeResult::Match(first), ProbeResult::Match(second)) => first.0 == second.0,
        _ => false,
    };
    combine(head, tail, same, "codec")
}

/// A probe that asks for more than there was still does so when it is joined
/// with another of the same sort: progress is made as more input comes.
pub proof fn law_joined_probes_ask_for_more<I, S>(
    head: ProbeResult<(I, S)>,
    tail: ProbeResult<(I, S)>,
    kind: Seq<char>,
    length: nat,
    provider: Seq<char>,
)
    requires
        probe_error(head, length, provider) is None,
        probe_error(tail, length, provider) is None,
    ensures
        combined(head, tail, kind) matches Ok(probe) ==> probe_error(probe, length, provider)
            is None,
{
}

/// The head of a chain decides: what it recognizes is what the chain
/// recognizes, unless the chain fails.
pub proof fn law_head_overrides<I, S>(
    head: ProbeResult<(I, S)>,
    tail: ProbeResult<(I, S)>,
    kind: Seq<char>,
)
    requires
        head is Match,
    ensures
        combined(head, tail, kind) matches Ok(probe) ==> probe == head,
        combined(head, tail, kind) is Err <==> tail is Match && tail->Match_0.0
            != head->Match_0.0,
{
}

/// The limit on an encoded frame.
pub open spec fn frame_error(length: nat, limits: Limits) -> Option<ErrorView> {
    if limits.in_flight_bytes is Some && length > limits.in_flight_bytes->0 {
        Some(
            plain_fault(
                ErrorKind::Limit,
                "codec provider frame exceeds the configured in-flight byte limit"@,
            ),
        )
    } else {
        None
    }
}

/// Checks that an encoded frame is within its budget.
pub fn validate_encoded_frame(encoded: Vec<u8>, limits: Limits) -> (result: Result<
    Vec<u8>,
    ArchiveError,
>)
    ensures
        match result {
            Ok(frame) => frame_error(encoded@.len(), limits) is None && frame == encoded,
            Err(error) => frame_error(encoded@.len(), limits) == Some(error@),
        },
{
    if let Some(limit) = limits.in_flight_bytes {
        if encoded.len() > limit {
            return Err(
                ArchiveError::plain(
                    ErrorKind::Limit,
                    "codec provider frame exceeds the configured in-flight byte limit",
                ),
            );
        }
    }
    Ok(encoded)
}

// ---------------------------------------------------------------------------
// Providers
// ---------------------------------------------------------------------------

/// A provider of one archive format.
pub trait FormatProvider {
    /// What decodes the format.
    type Decoder;

    /// What encodes the format.
    type Encoder;

    /// The format.
    open spec fn id(&self) -> FormatId {
        arbitrary()
    }

    /// The name of the provider.
    open spec fn title(&self) -> Seq<char> {
        arbitrary()
    }

    /// What the provider makes of the beginning of an input.
    open spec fn probed(&self, prefix: Seq<u8>) -> ProbeResult<()> {
        arbitrary()
    }

    /// What the provider can do.
    open spec fn abilities(&self) -> FormatCapabilities {
        arbitrary()
    }

    /// The format.
    fn format(&self) -> (format: FormatId)
        ensures
            format == self.id(),
    ;

    /// The name of the provider.
    fn name(&self) -> (name: &'static str)
        ensures
            name@ == self.title(),
    ;

    /// Looks at the beginning of an input.
    fn probe(&self, prefix: &[u8]) -> (result: ProbeResult<()>)
        ensures
            result == self.probed(prefix@),
    ;

    /// What the provider can do.
    fn capabilities(&self) -> (capabilities: FormatCapabilities)
        ensures
            capabilities == self.abilities(),
    ;

    /// Makes a decoder.
    fn decoder(&self, limits: Limits) -> (result: Result<Self::Decoder, ArchiveError>);

    /// Makes an encoder.
    fn encoder(&self, limits: Limits) -> (result: Result<Self::Encoder, ArchiveError>);
}

/// A provider of one outer codec.
pub trait CodecProvider {
    /// What decodes the filter.
    type Decoder;

    /// The filter.
    open spec fn id(&self) -> FilterId {
        arbitrary()
    }

    /// The name of the provider.
    open spec fn title(&self) -> Seq<char> {
        arbitrary()
    }

    /// What the provider makes of the beginning of an input.
    open spec fn probed(&self, prefix: Seq<u8>) -> ProbeResult<()> {
        arbitrary()
    }

    /// What the provider can do.
    open spec fn abilities(&self) -> CodecCapabilities {
        arbitrary()
    }

    /// The filter.
    fn filter(&self) -> (filter: FilterId)
        ensures
            filter == self.id(),
    ;

    /// The name of the provider.
    fn name(&self) -> (name: &'static str)
        ensures
            name@ == self.title(),
    ;

    /// Looks at the beginning of an input.
    fn probe(&self, prefix: &[u8]) -> (result: ProbeResult<()>)
        ensures
            result == self.probed(prefix@),
    ;

    /// What the provider can do.
    fn capabilities(&self) -> (capabilities: CodecCapabilities)
        ensures
            capabilities == self.abilities(),
    ;

    /// Makes a decoder.
    fn decoder(&self, limits: Limits) -> (result: Result<Self::Decoder, ArchiveError>);

    /// Encodes one frame.
    fn encode_frame(&self, input: &[u8], limits: Limits) -> (result: Result<
        Vec<u8>,
        ArchiveError,
    >);
}

} // verus!
