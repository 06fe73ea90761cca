//! Providers that are registered while the program runs.

use vstd::prelude::*;
use crate::error::{plain_fault, ArchiveError, ErrorKind, ErrorView};
use crate::filtered::detect::FilterId;
use crate::limits::Limits;
use crate::provider::{
    combine_codec_probes, combine_format_probes, combined, named_error, probe_error,
    validate_probe, CodecCapabilities, CodecProvider, FormatCapabilities, FormatId, FormatProvider,
    ProbeResult, ProviderCapability,
};
use crate::range_error::RangeFault;
use crate::text::join;

verus! {

/// Reads the events of an archive that can be read at any place.
pub trait RandomAccessArchiveDecoder {
    /// What happens in the archive.
    type Event;

    /// Why it cannot be read.
    type Fault;

    /// The next event.
    fn next_event(&mut self) -> (result: Result<Self::Event, Self::Fault>);

    /// Skips the rest of the open entry.
    fn skip_entry(&mut self) -> (result: Result<(), Self::Fault>);
}

/// A provider of a format that is read at any place.
pub trait RandomAccessFormatProvider {
    /// The volumes that are read.
    type Volumes;

    /// What decodes the format.
    type Decoder: RandomAccessArchiveDecoder;

    /// The format.
    open spec fn id(&self) -> FormatId {
        arbitrary()
    }

    /// The name of the provider.
    open spec fn title(&self) -> Seq<char> {
        arbitrary()
    }

    /// What the provider can do.
    open spec fn abilities(&self) -> FormatCapabilities {
        arbitrary()
    }

    /// The format.
    fn format(&self) -> (format: FormatId)
        ensures
            format == self.id(),
    ;

    /// The name of the provider.
    fn name(&self) -> (name: &'static str)
        ensures
            name@ == self.title(),
    ;

    /// What the provider can do.
    fn capabilities(&self) -> (capabilities: FormatCapabilities)
        ensures
            capabilities == self.abilities(),
    ;

    /// Looks whether the volumes hold the format.
    fn probe(&self, source: &Self::Volumes, limits: Limits) -> (result: Result<bool, RangeFault>);

    /// Opens the volumes.
    fn open(&self, source: Self::Volumes, limits: Limits) -> (result: Result<
        Self::Decoder,
        RangeFault,
    >);
}

// ---------------------------------------------------------------------------
// Errors
// ---------------------------------------------------------------------------

/// A provider of this sort is registered already.
pub open spec fn duplicate_error(kind: Seq<char>, name: Seq<char>) -> ErrorView {
    named_error(ErrorKind::Protocol, name, "duplicate "@ + kind + " provider identifier"@)
}

/// A registered provider cannot do something.
pub open spec fn unable_error(kind: Seq<char>, name: Seq<char>, operation: Seq<char>) -> ErrorView {
    named_error(
        ErrorKind::Capability,
        name,
        "registered "@ + kind + " provider cannot "@ + operation,
    )
}

/// The technical name of a format.
pub open spec fn format_title(format: FormatId) -> Seq<char> {
    match format {
        FormatId::Tar => "Tar"@,
        FormatId::Cpio => "Cpio"@,
        FormatId::Ar => "Ar"@,
        FormatId::Zip => "Zip"@,
        FormatId::SevenZip => "SevenZip"@,
        FormatId::Iso9660 => "Iso9660"@,
        FormatId::Cab => "Cab"@,
        FormatId::Xar => "Xar"@,
    }
}

/// The technical name of a filter.
pub open spec fn filter_title(filter: FilterId) -> Seq<char> {
    match filter {
        FilterId::Gzip => "Gzip"@,
        FilterId::Deflate => "Deflate"@,
        FilterId::Bzip2 => "Bzip2"@,
        FilterId::Zstd => "Zstd"@,
        FilterId::Xz => "Xz"@,
        FilterId::Lz4 => "Lz4"@,
        FilterId::Compress => "Compress"@,
        FilterId::Lzip => "Lzip"@,
    }
}

fn format_label(format: FormatId) -> (label: &'static str)
    ensures
        label@ == format_title(format),
{
    match format {
        FormatId::Tar => "Tar",
        FormatId::Cpio => "Cpio",
        FormatId::Ar => "Ar",
        FormatId::Zip => "Zip",
        FormatId::SevenZip => "SevenZip",
        FormatId::Iso9660 => "Iso9660",
        FormatId::Cab => "Cab",
        FormatId::Xar => "Xar",
    }
}

fn filter_label(filter: FilterId) -> (label: &'static str)
    ensures
        label@ == filter_title(filter),
{
    match filter {
        FilterId::Gzip => "Gzip",
        FilterId::Deflate => "Deflate",
        FilterId::Bzip2 => "Bzip2",
        FilterId::Zstd => "Zstd",
        FilterId::Xz => "Xz",
        FilterId::Lz4 => "Lz4",
        FilterId::Compress => "Compress",
        FilterId::Lzip => "Lzip",
    }
}

fn duplicate_provider(kind: &str, name: &'static str) -> (error: ArchiveError)
    ensures
        error@ == duplicate_error(kind@, name@),
{
    let mut text = join("duplicate ", kind);
    text.append(" provider identifier");
    ArchiveError::of_format_text(ErrorKind::Protocol, name, text)
}

fn unable_provider(kind: &str, name: &'static str, operation: &str) -> (error: ArchiveError)
    ensures
        error@ == unable_error(kind@, name@, operation@),
{
    let mut text = join("registered ", kind);
    text.append(" provider cannot ");
    text.append(operation);
    ArchiveError::of_format_text(ErrorKind::Capability, name, text)
}

fn invalid_selection() -> (error: ArchiveError)
    ensures
        error@ == plain_fault(ErrorKind::Protocol, "registry selection is out of bounds"@),
{
    ArchiveError::plain(ErrorKind::Protocol, "registry selection is out of bounds")
}

/// The limit on an encoded frame of a registered codec.
pub open spec fn registry_frame_error(length: nat, limits: Limits) -> Option<ErrorView> {
    if limits.in_flight_bytes is Some && length > limits.in_flight_bytes->0 {
        Some(
            plain_fault(
                ErrorKind::Limit,
                "encoded codec frame exceeds in-flight byte limit"@,
            ),
        )
    } else {
        None
    }
}

/// Checks that an encoded frame of a registered codec is within its budget.
pub fn check_registry_frame(encoded: Vec<u8>, limits: Limits) -> (result: Result<
    Vec<u8>,
    ArchiveError,
>)
    ensures
        match result {
            Ok(frame) => registry_frame_error(encoded@.len(), limits) is None && frame == encoded,
            Err(error) => registry_frame_error(encoded@.len(), limits) == Some(error@),
        },
{
    if let Some(limit) = limits.in_flight_bytes {
        if encoded.len() > limit {
            return Err(
                ArchiveError::plain(
                    ErrorKind::Limit,
                    "encoded codec frame exceeds in-flight byte limit",
                ),
            );
        }
    }
    Ok(encoded)
}

// ---------------------------------------------------------------------------
// Formats
// ---------------------------------------------------------------------------

/// Where a format stands among providers.
pub open spec fn format_place<P: FormatProvider>(providers: Seq<P>, format: FormatId, from: nat) -> Option<
    nat,
>
    decreases providers.len() - from,
{
    if from >= providers.len() {
        None
    } else if providers[from as int].id() == format {
        Some(from)
    } else {
        format_place(providers, format, from + 1)
    }
}

/// What providers say about the beginning of an input, those from a place on.
pub open spec fn formats_probe<P: FormatProvider>(providers: Seq<P>, prefix: Seq<u8>, from: nat) -> Result<
    ProbeResult<(FormatId, usize)>,
    ErrorView,
>
    decreases providers.len() - from,
{
    if from >= providers.len() {
        Ok(ProbeResult::NoMatch)
    } else {
        match formats_probe(providers, prefix, from + 1) {
            Err(error) => Err(error),
            Ok(rest) => {
                let provider = providers[from as int];
                let own = provider.probed(prefix);
                if probe_error(own, prefix.len(), provider.title()) is Some {
                    Err(probe_error(own, prefix.len(), provider.title())->0)
                } else {
                    combined(own_probe(own, provider.id(), from as usize), rest, "format"@)
                }
            },
        }
    }
}

/// What a provider says, as a choice by number.
pub open spec fn own_probe<I>(result: ProbeResult<()>, id: I, place: usize) -> ProbeResult<
    (I, usize),
> {
    match result {
        ProbeResult::Match(_) => ProbeResult::Match((id, place)),
        ProbeResult::NeedMore { minimum } => ProbeResult::NeedMore { minimum },
        ProbeResult::NoMatch => ProbeResult::NoMatch,
    }
}

fn number_probe<I>(result: ProbeResult<()>, id: I, place: usize) -> (probe: ProbeResult<(I, usize)>)
    ensures
        probe == own_probe(result, id, place),
{
    match result {
        ProbeResult::Match(_) => ProbeResult::Match((id, place)),
        ProbeResult::NeedMore { minimum } => ProbeResult::NeedMore { minimum },
        ProbeResult::NoMatch => ProbeResult::NoMatch,
    }
}

/// What is known of a format, by what its provider can do.
pub open spec fn format_state(abilities: FormatCapabilities) -> ProviderCapability<
    FormatCapabilities,
> {
    if abilities.is_available() {
        ProviderCapability::Available(abilities)
    } else {
        ProviderCapability::Disabled
    }
}

/// The registered format providers.
pub struct RegistryFormats<P: FormatProvider> {
    pub providers: Vec<P>,
}

impl<P: FormatProvider> RegistryFormats<P> {
    fn find(&self, format: FormatId) -> (place: Option<usize>)
        ensures
            match place {
                Some(place) => format_place(self.providers@, format, 0) == Some(place as nat)
                    && place < self.providers@.len() && self.providers@[place as int].id()
                    == format,
                None => format_place(self.providers@, format, 0) is None,
            },
    {
        let mut i: usize = 0;
        while i < self.providers.len()
            invariant
                i <= self.providers@.len(),
                format_place(self.providers@, format, 0) == format_place(
                    self.providers@,
                    format,
                    i as nat,
                ),
            decreases self.providers@.len() - i,
        {
            if self.providers[i].format() == format {
                return Some(i);
            }
            i += 1;
        }
        None
    }

    /// Looks at the beginning of an input.
    pub fn probe_format(&self, prefix: &[u8]) -> (result: Result<
        ProbeResult<(FormatId, usize)>,
        ArchiveError,
    >)
        ensures
            match result {
                Ok(probe) => formats_probe(self.providers@, prefix@, 0) == Ok::<_, ErrorView>(
                    probe,
                ),
                Err(error) => formats_probe(self.providers@, prefix@, 0) == Err::<
                    ProbeResult<(FormatId, usize)>,
                    _,
                >(error@),
            },
    {
        let mut probe: ProbeResult<(FormatId, usize)> = ProbeResult::NoMatch;
        let mut i: usize = self.providers.len();
        while i > 0
            invariant
                i <= self.providers@.len(),
                formats_probe(self.providers@, prefix@, i as nat) == Ok::<_, ErrorView>(probe),
            decreases i,
        {
            let place: usize = i - 1;
            let provider = &self.providers[place];
            let own = match validate_probe(
                provider.probe(prefix),
                prefix.len(),
                provider.name(),
            ) {
                Ok(own) => own,
                Err(error) => {
                    proof {
                        lemma_format_failure(self.providers@, prefix@, place as nat, error@);
                    }
                    return Err(error);
                },
            };
            match combine_format_probes(number_probe(own, provider.format(), place), probe) {
                Ok(joined) => {
                    probe = joined;
                },
                Err(error) => {
                    proof {
                        lemma_format_failure(self.providers@, prefix@, place as nat, error@);
                    }
                    return Err(error);
                },
            }
            i = place;
        }
        Ok(probe)
    }

    /// What is known of a format.
    pub fn format_capability(&self, format: FormatId) -> (capability: ProviderCapability<
        FormatCapabilities,
    >)
        ensures
            capability == match format_place(self.providers@, format, 0) {
                Some(place) => format_state(self.providers@[place as int].abilities()),
                None => ProviderCapability::Unknown,
            },
    {
        match self.find(format) {
            Some(place) => {
                let capabilities = self.providers[place].capabilities();
                if capabilities.available() {
                    ProviderCapability::Available(capabilities)
                } else {
                    ProviderCapability::Disabled
                }
            },
            None => ProviderCapability::Unknown,
        }
    }

    /// Chooses the provider of a format.
    pub fn select_format(&self, format: FormatId) -> (result: Result<usize, ArchiveError>)
        ensures
            match result {
                Ok(place) => format_place(self.providers@, format, 0) == Some(place as nat),
                Err(error) => format_place(self.providers@, format, 0) is None && error@
                    == plain_fault(
                    ErrorKind::Unsupported,
                    "no registered provider for format "@ + format_title(format),
                ),
            },
    {
        match self.find(format) {
            Some(place) => Ok(place),
            None => Err(
                ArchiveError::plain_text(
                    ErrorKind::Unsupported,
                    join("no registered provider for format ", format_label(format)),
                ),
            ),
        }
    }

    /// Makes the decoder of a choice. The provider makes it within the budgets, if
    /// it can decode at all.
    pub fn format_decoder(&self, selection: usize, limits: Limits) -> (result: Result<
        P::Decoder,
        ArchiveError,
    >)
        ensures
            selection >= self.providers@.len() ==> result is Err && (result->Err_0)@
                == plain_fault(ErrorKind::Protocol, "registry selection is out of bounds"@),
            selection < self.providers@.len() && !self.providers@[selection as int].abilities().decode
                ==> result is Err && (result->Err_0)@ == unable_error(
                "format"@,
                self.providers@[selection as int].title(),
                "decode"@,
            ),
            selection < self.providers@.len() && self.providers@[selection as int].abilities().decode
                ==> call_ensures(
                P::decoder,
                (&self.providers@[selection as int], limits),
                result,
            ),
    {
        if selection >= self.providers.len() {
            return Err(invalid_selection());
        }
        let provider = &self.providers[selection];
        if !provider.capabilities().can_decode() {
            return Err(unable_provider("format", provider.name(), "decode"));
        }
        provider.decoder(limits)
    }

    /// Makes the encoder of a choice. The provider makes it within the budgets, if
    /// it can encode at all.
    pub fn format_encoder(&self, selection: usize, limits: Limits) -> (result: Result<
        P::Encoder,
        ArchiveError,
    >)
        ensures
            selection >= self.providers@.len() ==> result is Err && (result->Err_0)@
                == plain_fault(ErrorKind::Protocol, "registry selection is out of bounds"@),
            selection < self.providers@.len() && !self.providers@[selection as int].abilities().encode
                ==> result is Err && (result->Err_0)@ == unable_error(
                "format"@,
                self.providers@[selection as int].title(),
                "encode"@,
            ),
            selection < self.providers@.len() && self.providers@[selection as int].abilities().encode
                ==> call_ensures(
                P::encoder,
                (&self.providers@[selection as int], limits),
                result,
            ),
    {
        if selection >= self.providers.len() {
            return Err(invalid_selection());
        }
        let provider = &self.providers[selection];
        if !provider.capabilities().can_encode() {
            return Err(unable_provider("format", provider.name(), "encode"));
        }
        provider.encoder(limits)
    }
}

/// A failure behind a provider is the failure of all.
proof fn lemma_format_failure<P: FormatProvider>(
    providers: Seq<P>,
    prefix: Seq<u8>,
    at: nat,
    error: ErrorView,
)
    requires
        at < providers.len(),
        formats_probe(providers, prefix, at) == Err::<ProbeResult<(FormatId, usize)>, _>(error),
    ensures
        formats_probe(providers, prefix, 0) == Err::<ProbeResult<(FormatId, usize)>, _>(error),
    decreases at,
{
    if at > 0 {
        lemma_format_failure(providers, prefix, (at - 1) as nat, error);
    }
}

// ---------------------------------------------------------------------------
// Codecs
// ---------------------------------------------------------------------------

/// Where a filter stands among providers.
pub open spec fn codec_place<P: CodecProvider>(providers: Seq<P>, filter: FilterId, from: nat) -> Option<
    nat,
>
    decreases providers.len() - from,
{
    if from >= providers.len() {
        None
    } else if providers[from as int].id() == filter {
        Some(from)
    } else {
        codec_place(providers, filter, from + 1)
    }
}

/// What providers say about the beginning of an input, those from a place on.
pub open spec fn codecs_probe<P: CodecProvider>(providers: Seq<P>, prefix: Seq<u8>, from: nat) -> Result<
    ProbeResult<(FilterId, usize)>,
    ErrorView,
>
    decreases providers.len() - from,
{
    if from >= providers.len() {
        Ok(ProbeResult::NoMatch)
    } else {
        match codecs_probe(providers, prefix, from + 1) {
            Err(error) => Err(error),
            Ok(rest) => {
                let provider = providers[from as int];
                let own = provider.probed(prefix);
                if probe_error(own, prefix.len(), provider.title()) is Some {
                    Err(probe_error(own, prefix.len(), provider.title())->0)
                } else {
                    combined(own_probe(own, provider.id(), from as usize), rest, "codec"@)
                }
            },
        }
    }
}

/// What is known of a filter, by what its provider can do.
pub open spec fn codec_state(abilities: CodecCapabilities) -> ProviderCapability<CodecCapabilities> {
    if abilities.is_available() {
        ProviderCapability::Available(abilities)
    } else {
        ProviderCapability::Disabled
    }
}

/// The registered codec providers.
pub struct RegistryCodecs<P: CodecProvider> {
    pub providers: Vec<P>,
}

impl<P: CodecProvider> RegistryCodecs<P> {
    fn find(&self, filter: FilterId) -> (place: Option<usize>)
        ensures
            match place {
                Some(place) => codec_place(self.providers@, filter, 0) == Some(place as nat)
                    && place < self.providers@.len() && self.providers@[place as int].id()
                    == filter,
                None => codec_place(self.providers@, filter, 0) is None,
            },
    {
        let mut i: usize = 0;
        while i < self.providers.len()
            invariant
                i <= self.providers@.len(),
                codec_place(self.providers@, filter, 0) == codec_place(
                    self.providers@,
                    filter,
                    i as nat,
                ),
            decreases self.providers@.len() - i,
        {
            if self.providers[i].filter() == filter {
                return Some(i);
            }
            i += 1;
        }
        None
    }

    /// Looks at the beginning of an input.
    pub fn probe_codec(&self, prefix: &[u8]) -> (result: Result<
        ProbeResult<(FilterId, usize)>,
        ArchiveError,
    >)
        ensures
            match result {
                Ok(probe) => codecs_probe(self.providers@, prefix@, 0) == Ok::<_, ErrorView>(probe),
                Err(error) => codecs_probe(self.providers@, prefix@, 0) == Err::<
                    ProbeResult<(FilterId, usize)>,
                    _,
                >(error@),
            },
    {
        let mut probe: ProbeResult<(FilterId, usize)> = ProbeResult::NoMatch;
        let mut i: usize = self.providers.len();
        while i > 0
            invariant
                i <= self.providers@.len(),
                codecs_probe(self.providers@, prefix@, i as nat) == Ok::<_, ErrorView>(probe),
            decreases i,
        {
            let place: usize = i - 1;
            let provider = &self.providers[place];
            let own = match validate_probe(
                provider.probe(prefix),
                prefix.len(),
                provider.name(),
            ) {
                Ok(own) => own,
                Err(error) => {
                    proof {
                        lemma_codec_failure(self.providers@, prefix@, place as nat, error@);
                    }
                    return Err(error);
                },
            };
            match combine_codec_probes(number_probe(own, provider.filter(), place), probe) {
                Ok(joined) => {
                    probe = joined;
                },
                Err(error) => {
                    proof {
                        lemma_codec_failure(self.providers@, prefix@, place as nat, error@);
                    }
                    return Err(error);
                },
            }
            i = place;
        }
        Ok(probe)
    }

    /// What is known of a filter.
    pub fn codec_capability(&self, filter: FilterId) -> (capability: ProviderCapability<
        CodecCapabilities,
    >)
        ensures
            capability == match codec_place(self.providers@, filter, 0) {
                Some(place) => codec_state(self.providers@[place as int].abilities()),
                None => ProviderCapability::Unknown,
            },
    {
        match self.find(filter) {
            Some(place) => {
                let capabilities = self.providers[place].capabilities();
                if capabilities.available() {
                    ProviderCapability::Available(capabilities)
                } else {
                    ProviderCapability::Disabled
                }
            },
            None => ProviderCapability::Unknown,
        }
    }

    /// Chooses the provider of a filter.
    pub fn select_codec(&self, filter: FilterId) -> (result: Result<usize, ArchiveError>)
        ensures
            match result {
                Ok(place) => codec_place(self.providers@, filter, 0) == Some(place as nat),
                Err(error) => codec_place(self.providers@, filter, 0) is None && error@
                    == plain_fault(
                    ErrorKind::Unsupported,
                    "no registered provider for filter "@ + filter_title(filter),
                ),
            },
    {
        match self.find(filter) {
            Some(place) => Ok(place),
            None => Err(
                ArchiveError::plain_text(
                    ErrorKind::Unsupported,
                    join("no registered provider for filter ", filter_label(filter)),
                ),
            ),
        }
    }

    /// Makes the decoder of a choice. The provider makes it within the budgets, if
    /// it can decode at all.
    pub fn codec_decoder(&self, selection: usize, limits: Limits) -> (result: Result<
        P::Decoder,
        ArchiveError,
    >)
        ensures
            selection >= self.providers@.len() ==> result is Err && (result->Err_0)@
                == plain_fault(ErrorKind::Protocol, "registry selection is out of bounds"@),
            selection < self.providers@.len() && !self.providers@[selection as int].abilities().decode
                ==> result is Err && (result->Err_0)@ == unable_error(
                "codec"@,
                self.providers@[selection as int].title(),
                "decode"@,
            ),
            selection < self.providers@.len() && self.providers@[selection as int].abilities().decode
                ==> call_ensures(
                P::decoder,
                (&self.providers@[selection as int], limits),
                result,
            ),
    {
        if selection >= self.providers.len() {
            return Err(invalid_selection());
        }
        let provider = &self.providers[selection];
        if !provider.capabilities().can_decode() {
            return Err(unable_provider("codec", provider.name(), "decode"));
        }
        provider.decoder(limits)
    }

    /// Encodes one frame with a choice. Whether it is made lies with the
    /// provider, if it can encode at all; a frame is within its budget.
    pub fn encode_codec_frame(&self, selection: usize, input: &[u8], limits: Limits) -> (result:
        Result<Vec<u8>, ArchiveError>)
        ensures
            selection >= self.providers@.len() ==> result is Err && (result->Err_0)@
                == plain_fault(ErrorKind::Protocol, "registry selection is out of bounds"@),
            selection < self.providers@.len() && !self.providers@[selection as int].abilities().encode
                ==> result is Err && (result->Err_0)@ == unable_error(
                "codec"@,
                self.providers@[selection as int].title(),
                "encode"@,
            ),
            selection < self.providers@.len() && self.providers@[selection as int].abilities().encode
                ==> exists|reply: Result<Vec<u8>, ArchiveError>|
                #[trigger] call_ensures(
                    P::encode_frame,
                    (&self.providers@[selection as int], input, limits),
                    reply,
                ) && match reply {
                    Ok(frame) => match registry_frame_error(frame@.len(), limits) {
                        Some(error) => result is Err && (result->Err_0)@ == error,
                        None => result == reply,
                    },
                    Err(_) => result == reply,
                },
            result matches Ok(frame) ==> registry_frame_error(frame@.len(), limits) is None,
    {
        if selection >= self.providers.len() {
            return Err(invalid_selection());
        }
        let provider = &self.providers[selection];
        if !provider.capabilities().can_encode() {
            return Err(unable_provider("codec", provider.name(), "encode"));
        }
        let reply = provider.encode_frame(input, limits);
        proof {
            assert(call_ensures(
                P::encode_frame,
                (&self.providers@[selection as int], input, limits),
                reply,
            ));
        }
        match reply {
            Ok(encoded) => check_registry_frame(encoded, limits),
            Err(error) => Err(error),
        }
    }
}

/// A failure behind a provider is the failure of all.
proof fn lemma_codec_failure<P: CodecProvider>(
    providers: Seq<P>,
    prefix: Seq<u8>,
    at: nat,
    error: ErrorView,
)
    requires
        at < providers.len(),
        codecs_probe(providers, prefix, at) == Err::<ProbeResult<(FilterId, usize)>, _>(error),
    ensures
        codecs_probe(providers, prefix, 0) == Err::<ProbeResult<(FilterId, usize)>, _>(error),
    decreases at,
{
    if at > 0 {
        lemma_codec_failure(providers, prefix, (at - 1) as nat, error);
    }
}

// ---------------------------------------------------------------------------
// The registry
// ---------------------------------------------------------------------------

/// A format is registered, to be read in order or at any place.
pub open spec fn holds_format<F: FormatProvider, A: RandomAccessFormatProvider>(
    formats: Seq<F>,
    others: Seq<A>,
    format: FormatId,
) -> bool {
    ||| exists|i: int| 0 <= i < formats.len() && (#[trigger] formats[i]).id() == format
    ||| exists|i: int| 0 <= i < others.len() && (#[trigger] others[i]).id() == format
}

/// A provider reads a format at any place.
pub open spec fn can_read_anywhere(abilities: FormatCapabilities) -> bool {
    abilities.decode && abilities.seek
}

/// A filter is registered.
pub open spec fn holds_codec<C: CodecProvider>(codecs: Seq<C>, filter: FilterId) -> bool {
    exists|i: int| 0 <= i < codecs.len() && (#[trigger] codecs[i]).id() == filter
}

/// No format and no filter is registered twice.
pub open spec fn all_distinct<
    F: FormatProvider,
    A: RandomAccessFormatProvider,
    C: CodecProvider,
>(formats: Seq<F>, others: Seq<A>, codecs: Seq<C>) -> bool {
    &&& forall|i: int, j: int|
        0 <= i < j < formats.len() ==> (#[trigger] formats[i]).id() != (#[trigger] formats[j]).id()
    &&& forall|i: int, j: int|
        0 <= i < j < others.len() ==> (#[trigger] others[i]).id() != (#[trigger] others[j]).id()
    &&& forall|i: int, j: int|
        0 <= i < formats.len() && 0 <= j < others.len() ==> (#[trigger] formats[i]).id() != (
        #[trigger] others[j]).id()
    &&& forall|i: int, j: int|
        0 <= i < j < codecs.len() ==> (#[trigger] codecs[i]).id() != (#[trigger] codecs[j]).id()
}

/// A registered format is served by its own provider, wherever that stands.
pub proof fn law_registered_formats_are_found<
    F: FormatProvider,
    A: RandomAccessFormatProvider,
    C: CodecProvider,
>(formats: Seq<F>, others: Seq<A>, codecs: Seq<C>, at: int)
    requires
        all_distinct(formats, others, codecs),
        0 <= at < formats.len(),
    ensures
        format_place(formats, formats[at].id(), 0) == Some(at as nat),
{
    lemma_format_place(formats, at, 0);
}

proof fn lemma_format_place<F: FormatProvider>(formats: Seq<F>, at: int, from: nat)
    requires
        0 <= from <= at < formats.len(),
        forall|i: int, j: int|
            0 <= i < j < formats.len() ==> (#[trigger] formats[i]).id() != (
            #[trigger] formats[j]).id(),
    ensures
        format_place(formats, formats[at].id(), from) == Some(at as nat),
    decreases at - from,
{
    if from < at {
        lemma_format_place(formats, at, from + 1);
    }
}

/// A registered filter is served by its own provider, wherever that stands.
pub proof fn law_registered_codecs_are_found<
    F: FormatProvider,
    A: RandomAccessFormatProvider,
    C: CodecProvider,
>(formats: Seq<F>, others: Seq<A>, codecs: Seq<C>, at: int)
    requires
        all_distinct(formats, others, codecs),
        0 <= at < codecs.len(),
    ensures
        codec_place(codecs, codecs[at].id(), 0) == Some(at as nat),
{
    lemma_codec_place(codecs, at, 0);
}

proof fn lemma_codec_place<C: CodecProvider>(codecs: Seq<C>, at: int, from: nat)
    requires
        0 <= from <= at < codecs.len(),
        forall|i: int, j: int|
            0 <= i < j < codecs.len() ==> (#[trigger] codecs[i]).id() != (#[trigger] codecs[j]).id(),
    ensures
        codec_place(codecs, codecs[at].id(), from) == Some(at as nat),
    decreases at - from,
{
    if from < at {
        lemma_codec_place(codecs, at, from + 1);
    }
}

/// A registry while it is filled.
pub struct RegistryBuilder<F: FormatProvider, A: RandomAccessFormatProvider, C: CodecProvider> {
    pub formats: Vec<F>,
    pub random_access_formats: Vec<A>,
    pub codecs: Vec<C>,
}

impl<F: FormatProvider, A: RandomAccessFormatProvider, C: CodecProvider> RegistryBuilder<F, A, C> {
    /// Nothing is registered twice.
    pub open spec fn wf(&self) -> bool {
        all_distinct(self.formats@, self.random_access_formats@, self.codecs@)
    }

    /// Nothing is registered.
    pub fn new() -> (builder: Self)
        ensures
            builder.wf(),
            builder.formats@.len() == 0,
            builder.random_access_formats@.len() == 0,
            builder.codecs@.len() == 0,
    {
        RegistryBuilder {
            formats: Vec::new(),
            random_access_formats: Vec::new(),
            codecs: Vec::new(),
        }
    }

    /// Whether a format is registered.
    pub fn format_registered(&self, format: FormatId) -> (found: bool)
        ensures
            found == holds_format(self.formats@, self.random_access_formats@, format),
    {
        let mut i: usize = 0;
        while i < self.formats.len()
            invariant
                i <= self.formats@.len(),
                forall|j: int| 0 <= j < i ==> (#[trigger] self.formats@[j]).id() != format,
            decreases self.formats@.len() - i,
        {
            if self.formats[i].format() == format {
                return true;
            }
            i += 1;
        }
        let mut k: usize = 0;
        while k < self.random_access_formats.len()
            invariant
                k <= self.random_access_formats@.len(),
                forall|j: int|
                    0 <= j < self.formats@.len() ==> (#[trigger] self.formats@[j]).id() != format,
                forall|j: int|
                    0 <= j < k ==> (#[trigger] self.random_access_formats@[j]).id() != format,
            decreases self.random_access_formats@.len() - k,
        {
            if self.random_access_formats[k].format() == format {
                return true;
            }
            k += 1;
        }
        false
    }

    /// Registers a format.
    pub fn register_format(&mut self, provider: F) -> (result: Result<(), ArchiveError>)
        requires
            old(self).wf(),
        ensures
            final(self).wf(),
            final(self).random_access_formats == old(self).random_access_formats,
            final(self).codecs == old(self).codecs,
            match result {
                Ok(()) => {
                    &&& !holds_format(
                        old(self).formats@,
                        old(self).random_access_formats@,
                        provider.id(),
                    )
                    &&& final(self).formats@ == old(self).formats@.push(provider)
                },
                Err(error) => {
                    &&& holds_format(
                        old(self).formats@,
                        old(self).random_access_formats@,
                        provider.id(),
                    )
                    &&& error@ == duplicate_error("format"@, provider.title())
                    &&& final(self).formats == old(self).formats
                },
            },
    {
        if self.format_registered(provider.format()) {
            return Err(duplicate_provider("format", provider.name()));
        }
        self.formats.push(provider);
        Ok(())
    }

    /// Registers a format that is read at any place. Its provider must be able
    /// to do so.
    pub fn register_random_access_format(&mut self, provider: A) -> (result: Result<
        (),
        ArchiveError,
    >)
        requires
            old(self).wf(),
        ensures
            final(self).wf(),
            final(self).formats == old(self).formats,
            final(self).codecs == old(self).codecs,
            ({
                let known = holds_format(
                    old(self).formats@,
                    old(self).random_access_formats@,
                    provider.id(),
                );
                let able = can_read_anywhere(provider.abilities());
                match result {
                    Ok(()) => {
                        &&& !known && able
                        &&& final(self).random_access_formats@ == old(
                            self,
                        ).random_access_formats@.push(provider)
                    },
                    Err(error) => {
                        &&& known || !able
                        &&& final(self).random_access_formats == old(self).random_access_formats
                        &&& error@ == if known {
                            duplicate_error("format"@, provider.title())
                        } else {
                            named_error(
                                ErrorKind::Protocol,
                                provider.title(),
                                "random-access format provider must advertise seek-native read capability"@,
                            )
                        }
                    },
                }
            }),
    {
        if self.format_registered(provider.format()) {
            return Err(duplicate_provider("format", provider.name()));
        }
        let capabilities = provider.capabilities();
        if !capabilities.can_decode() || !capabilities.requires_seek() {
            return Err(
                ArchiveError::of_format(
                    ErrorKind::Protocol,
                    provider.name(),
                    "random-access format provider must advertise seek-native read capability",
                ),
            );
        }
        self.random_access_formats.push(provider);
        Ok(())
    }

    /// Registers a codec.
    pub fn register_codec(&mut self, provider: C) -> (result: Result<(), ArchiveError>)
        requires
            old(self).wf(),
        ensures
            final(self).wf(),
            final(self).formats == old(self).formats,
            final(self).random_access_formats == old(self).random_access_formats,
            match result {
                Ok(()) => {
                    &&& !holds_codec(old(self).codecs@, provider.id())
                    &&& final(self).codecs@ == old(self).codecs@.push(provider)
                },
                Err(error) => {
                    &&& holds_codec(old(self).codecs@, provider.id())
                    &&& error@ == duplicate_error("codec"@, provider.title())
                    &&& final(self).codecs == old(self).codecs
                },
            },
    {
        let filter = provider.filter();
        let mut i: usize = 0;
        while i < self.codecs.len()
            invariant
                i <= self.codecs@.len(),
                filter == provider.id(),
                *self == *old(self),
                self.wf(),
                forall|j: int| 0 <= j < i ==> (#[trigger] self.codecs@[j]).id() != filter,
            decreases self.codecs@.len() - i,
        {
            if self.codecs[i].filter() == filter {
                return Err(duplicate_provider("codec", provider.name()));
            }
            i += 1;
        }
        self.codecs.push(provider);
        Ok(())
    }

    /// Ends the registration.
    pub fn build(self) -> (registry: Registry<F, A, C>)
        requires
            self.wf(),
        ensures
            registry.wf(),
            registry.formats.providers@ == self.formats@,
            registry.random_access_formats@ == self.random_access_formats@,
            registry.codecs.providers@ == self.codecs@,
    {
        Registry {
            formats: RegistryFormats { providers: self.formats },
            random_access_formats: self.random_access_formats,
            codecs: RegistryCodecs { providers: self.codecs },
        }
    }
}

/// Registered providers.
pub struct Registry<F: FormatProvider, A: RandomAccessFormatProvider, C: CodecProvider> {
    pub formats: RegistryFormats<F>,
    pub random_access_formats: Vec<A>,
    pub codecs: RegistryCodecs<C>,
}

/// The formats that were recognized, given which providers recognize the source.
pub open spec fn recognized<A: RandomAccessFormatProvider>(
    providers: Seq<A>,
    hits: Seq<bool>,
) -> Seq<FormatId>
    decreases hits.len(),
{
    if hits.len() == 0 {
        Seq::empty()
    } else if hits.last() {
        recognized(providers, hits.drop_last()).push(providers[hits.len() - 1].id())
    } else {
        recognized(providers, hits.drop_last())
    }
}

/// What the first providers said when they looked at the source.
pub open spec fn have_looked<A: RandomAccessFormatProvider>(
    providers: Seq<A>,
    source: &A::Volumes,
    limits: Limits,
    hits: Seq<bool>,
) -> bool {
    hits.len() <= providers.len() && forall|i: int|
        0 <= i < hits.len() ==> call_ensures(
            A::probe,
            (&providers[i], source, limits),
            Ok::<bool, RangeFault>(#[trigger] hits[i]),
        )
}

/// What is made of recognized formats: at most one may be recognized.
#[derive(Clone, Copy, Debug, PartialEq, Eq, Structural)]
pub struct RandomAccessMatch {
    pub matched: Option<FormatId>,
}

impl RandomAccessMatch {
    /// Nothing is recognized.
    pub fn new() -> (state: Self)
        ensures
            state.matched is None,
    {
        RandomAccessMatch { matched: None }
    }

    /// Takes what a provider says.
    pub fn offer(&mut self, format: FormatId, hit: bool) -> (result: Result<(), ArchiveError>)
        ensures
            match result {
                Ok(()) => {
                    &&& !hit || old(self).matched is None
                    &&& final(self).matched == if hit {
                        Some(format)
                    } else {
                        old(self).matched
                    }
                },
                Err(error) => {
                    &&& hit && old(self).matched is Some
                    &&& error@ == plain_fault(
                        ErrorKind::Protocol,
                        "multiple random-access format providers matched the source"@,
                    )
                },
            },
    {
        if !hit {
            return Ok(());
        }
        if self.matched.is_some() {
            return Err(
                ArchiveError::plain(
                    ErrorKind::Protocol,
                    "multiple random-access format providers matched the source",
                ),
            );
        }
        self.matched = Some(format);
        Ok(())
    }
}

/// Why the volumes could not be looked at or opened.
pub enum RegistryFault {
    Archive(ArchiveError),
    Source(RangeFault),
}

impl<F: FormatProvider, A: RandomAccessFormatProvider, C: CodecProvider> Registry<F, A, C> {
    /// Nothing is registered twice.
    pub open spec fn wf(&self) -> bool {
        all_distinct(self.formats.providers@, self.random_access_formats@, self.codecs.providers@)
    }

    /// Begins a registration.
    pub fn builder() -> (builder: RegistryBuilder<F, A, C>)
        ensures
            builder.wf(),
            builder.formats@.len() == 0,
            builder.random_access_formats@.len() == 0,
            builder.codecs@.len() == 0,
    {
        RegistryBuilder::new()
    }

    /// The number of formats.
    pub fn format_count(&self) -> (count: usize)
        ensures
            count == self.formats.providers@.len(),
    {
        self.formats.providers.len()
    }

    /// The number of codecs.
    pub fn codec_count(&self) -> (count: usize)
        ensures
            count == self.codecs.providers@.len(),
    {
        self.codecs.providers.len()
    }

    /// The number of formats that are read at any place.
    pub fn random_access_format_count(&self) -> (count: usize)
        ensures
            count == self.random_access_formats@.len(),
    {
        self.random_access_formats.len()
    }

    fn find_random_access(&self, format: FormatId) -> (place: Option<usize>)
        ensures
            match place {
                Some(place) => place < self.random_access_formats@.len()
                    && self.random_access_formats@[place as int].id() == format,
                None => forall|i: int|
                    0 <= i < self.random_access_formats@.len() ==> (
                    #[trigger] self.random_access_formats@[i]).id() != format,
            },
    {
        let mut i: usize = 0;
        while i < self.random_access_formats.len()
            invariant
                i <= self.random_access_formats@.len(),
                forall|j: int|
                    0 <= j < i ==> (#[trigger] self.random_access_formats@[j]).id() != format,
            decreases self.random_access_formats@.len() - i,
        {
            if self.random_access_formats[i].format() == format {
                return Some(i);
            }
            i += 1;
        }
        None
    }

    /// What is known of a format.
    pub fn format_capability(&self, format: FormatId) -> (capability: ProviderCapability<
        FormatCapabilities,
    >)
        requires
            self.wf(),
        ensures
            match format_place(self.formats.providers@, format, 0) {
                Some(place) => capability == format_state(
                    self.formats.providers@[place as int].abilities(),
                ),
                None => {
                    &&& forall|i: int|
                        0 <= i < self.random_access_formats@.len() && (
                        #[trigger] self.random_access_formats@[i]).id() == format ==> capability
                            == format_state(self.random_access_formats@[i].abilities())
                    &&& (forall|i: int|
                        0 <= i < self.random_access_formats@.len() ==> (
                        #[trigger] self.random_access_formats@[i]).id() != format) ==> capability
                        is Unknown
                },
            },
    {
        match self.formats.format_capability(format) {
            ProviderCapability::Unknown => {},
            known => {
                return known;
            },
        }
        match self.find_random_access(format) {
            Some(place) => {
                let capabilities = self.random_access_formats[place].capabilities();
                if capabilities.available() {
                    ProviderCapability::Available(capabilities)
                } else {
                    ProviderCapability::Disabled
                }
            },
            None => ProviderCapability::Unknown,
        }
    }

    /// What is known of a filter.
    pub fn codec_capability(&self, filter: FilterId) -> (capability: ProviderCapability<
        CodecCapabilities,
    >)
        ensures
            capability == match codec_place(self.codecs.providers@, filter, 0) {
                Some(place) => codec_state(self.codecs.providers@[place as int].abilities()),
                None => ProviderCapability::Unknown,
            },
    {
        self.codecs.codec_capability(filter)
    }

    /// Recognizes the format of volumes. More than one is a failure, whatever
    /// the order of registration.
    pub fn detect_random_access(&self, source: &A::Volumes, limits: Limits) -> (result: Result<
        Option<FormatId>,
        RegistryFault,
    >)
        ensures
            exists|hits: Seq<bool>|
                {
                    let formats = recognized(self.random_access_formats@, hits);
                    &&& #[trigger] have_looked(self.random_access_formats@, source, limits, hits)
                    &&& match result {
                        Ok(matched) => hits.len() == self.random_access_formats@.len()
                            && match matched {
                            Some(format) => formats == seq![format],
                            None => formats.len() == 0,
                        },
                        Err(RegistryFault::Archive(error)) => formats.len() == 2 && error@
                            == plain_fault(
                            ErrorKind::Protocol,
                            "multiple random-access format providers matched the source"@,
                        ),
                        Err(RegistryFault::Source(fault)) => {
                            &&& formats.len() < 2
                            &&& hits.len() < self.random_access_formats@.len()
                            &&& call_ensures(
                                A::probe,
                                (&self.random_access_formats@[hits.len() as int], source, limits),
                                Err::<bool, RangeFault>(fault),
                            )
                        },
                    }
                },
            self.random_access_formats@.len() == 0 ==> result is Ok,
    {
        let mut state = RandomAccessMatch::new();
        let ghost mut hits = Seq::<bool>::empty();
        let mut i: usize = 0;
        while i < self.random_access_formats.len()
            invariant
                i <= self.random_access_formats@.len(),
                hits.len() == i,
                have_looked(self.random_access_formats@, source, limits, hits),
                match state.matched {
                    Some(format) => recognized(self.random_access_formats@, hits) =~= seq![format],
                    None => recognized(self.random_access_formats@, hits).len() == 0,
                },
            decreases self.random_access_formats@.len() - i,
        {
            let provider = &self.random_access_formats[i];
            let reply = provider.probe(source, limits);
            proof {
                assert(call_ensures(
                    A::probe,
                    (&self.random_access_formats@[i as int], source, limits),
                    reply,
                ));
            }
            let hit: bool = match reply {
                Ok(hit) => hit,
                Err(fault) => {
                    return Err(RegistryFault::Source(fault));
                },
            };
            proof {
                let before = hits;
                assert(hits.push(hit).drop_last() =~= hits);
                hits = hits.push(hit);
                assert forall|j: int| 0 <= j < hits.len() implies call_ensures(
                    A::probe,
                    (&self.random_access_formats@[j], source, limits),
                    Ok::<bool, RangeFault>(#[trigger] hits[j]),
                ) by {
                    if j < before.len() {
                        assert(hits[j] == before[j]);
                    }
                }
            }
            if let Err(error) = state.offer(provider.format(), hit) {
                proof {
                    assert(have_looked(self.random_access_formats@, source, limits, hits));
                    assert(recognized(self.random_access_formats@, hits).len() == 2);
                }
                return Err(RegistryFault::Archive(error));
            }
            i += 1;
        }
        Ok(state.matched)
    }

    /// Opens volumes as a format. The provider opens them within the budgets, if
    /// there is one and it can.
    pub fn open_random_access(&self, format: FormatId, source: A::Volumes, limits: Limits) -> (
    result: Result<A::Decoder, RegistryFault>)
        requires
            self.wf(),
        ensures
            forall|i: int|
                0 <= i < self.random_access_formats@.len() && (
                #[trigger] self.random_access_formats@[i]).id() == format
                    && !can_read_anywhere(self.random_access_formats@[i].abilities()) ==> (
                result matches Err(RegistryFault::Archive(error)) && error@ == named_error(
                    ErrorKind::Capability,
                    self.random_access_formats@[i].title(),
                    "registered random-access provider cannot decode"@,
                )),
            forall|i: int|
                0 <= i < self.random_access_formats@.len() && (
                #[trigger] self.random_access_formats@[i]).id() == format && can_read_anywhere(
                    self.random_access_formats@[i].abilities(),
                ) ==> exists|reply: Result<A::Decoder, RangeFault>|
                    #[trigger] call_ensures(
                        A::open,
                        (&self.random_access_formats@[i], source, limits),
                        reply,
                    ) && match reply {
                        Ok(decoder) => result == Ok::<A::Decoder, RegistryFault>(decoder),
                        Err(fault) => result == Err::<A::Decoder, RegistryFault>(
                            RegistryFault::Source(fault),
                        ),
                    },
            (forall|i: int|
                0 <= i < self.random_access_formats@.len() ==> (
                #[trigger] self.random_access_formats@[i]).id() != format) ==> (result matches Err(
                RegistryFault::Archive(error),
            ) && error@ == plain_fault(
                ErrorKind::Unsupported,
                "no random-access provider for format "@ + format_title(format),
            )),
    {
        let place: usize = match self.find_random_access(format) {
            Some(place) => place,
            None => {
                return Err(
                    RegistryFault::Archive(
                        ArchiveError::plain_text(
                            ErrorKind::Unsupported,
                            join("no random-access provider for format ", format_label(format)),
                        ),
                    ),
                );
            },
        };
        let provider = &self.random_access_formats[place];
        let capabilities = provider.capabilities();
        if !capabilities.can_decode() || !capabilities.requires_seek() {
            return Err(
                RegistryFault::Archive(
                    ArchiveError::of_format(
                        ErrorKind::Capability,
                        provider.name(),
                        "registered random-access provider cannot decode",
                    ),
                ),
            );
        }
        let reply = provider.open(source, limits);
        proof {
            assert(call_ensures(
                A::open,
                (&self.random_access_formats@[place as int], source, limits),
                reply,
            ));
        }
        match reply {
            Ok(decoder) => Ok(decoder),
            Err(fault) => Err(RegistryFault::Source(fault)),
        }
    }
}

} // verus!
