//! Chains of providers, made when the program is compiled.

use vstd::prelude::*;
use crate::error::{ArchiveError, ErrorKind, ErrorView};
use crate::filtered::detect::FilterId;
use crate::limits::Limits;
use crate::provider::{
    codec_name, codec_words, combine_codec_probes, combine_format_probes, combined, disabled,
    disabled_error, format_name, format_words, frame_error, probe_error, unknown_codec,
    unknown_codec_error, unknown_format, unknown_format_error, validate_encoded_frame,
    validate_probe, CodecCapabilities, CodecProvider, FormatCapabilities, FormatId, FormatProvider,
    ProbeResult, ProviderCapability,
};

verus! {

/// A choice in an empty chain. There is none: only this module could make one,
/// and does not.
#[derive(Clone, Copy, Debug, PartialEq, Eq)]
pub struct NoProviderSelection {
    nothing: (),
}

/// A choice in a chain.
#[derive(Clone, Copy, Debug, PartialEq, Eq, Structural)]
pub enum ProviderSelection<T> {
    /// The first provider.
    Head,
    /// One behind it.
    Tail(T),
}

/// The decoder of an empty chain.
#[derive(Debug)]
pub struct NoArchiveDecoder;

/// The encoder of an empty chain.
#[derive(Debug)]
pub struct NoArchiveEncoder;

/// The codec of an empty chain.
#[derive(Debug)]
pub struct NoCodecDecoder;

impl NoArchiveDecoder {
    /// There is nothing to decode.
    pub fn step(&self) -> (error: ArchiveError)
        ensures
            error@ == (ErrorView {
                kind: ErrorKind::Protocol,
                format: None,
                context: "empty format provider chain created a decoder"@,
            }),
    {
        ArchiveError::plain(
            ErrorKind::Protocol,
            "empty format provider chain created a decoder",
        )
    }
}

impl NoArchiveEncoder {
    /// There is nothing to encode.
    pub fn step(&self) -> (error: ArchiveError)
        ensures
            error@ == (ErrorView {
                kind: ErrorKind::Protocol,
                format: None,
                context: "empty format provider chain created an encoder"@,
            }),
    {
        ArchiveError::plain(
            ErrorKind::Protocol,
            "empty format provider chain created an encoder",
        )
    }
}

impl NoCodecDecoder {
    /// There is nothing to decode.
    pub fn process(&self) -> (error: ArchiveError)
        ensures
            error@ == (ErrorView {
                kind: ErrorKind::Protocol,
                format: None,
                context: "empty codec provider chain created a decoder"@,
            }),
    {
        ArchiveError::plain(
            ErrorKind::Protocol,
            "empty codec provider chain created a decoder",
        )
    }
}

/// A chain without formats.
#[derive(Clone, Copy, Debug, Default, PartialEq, Eq)]
pub struct NoFormatProviders;

/// A chain without codecs.
#[derive(Clone, Copy, Debug, Default, PartialEq, Eq)]
pub struct NoCodecProviders;

/// A format provider before a chain.
#[derive(Clone, Copy, Debug, PartialEq, Eq)]
pub struct FormatProviderNode<P, T> {
    pub head: P,
    pub tail: T,
}

/// A codec provider before a chain.
#[derive(Clone, Copy, Debug, PartialEq, Eq)]
pub struct CodecProviderNode<P, T> {
    pub head: P,
    pub tail: T,
}

/// The decoder of a chain of formats.
pub enum ChainedFormatDecoder<H, T> {
    Head(H),
    Tail(T),
}

/// The encoder of a chain of formats.
pub enum ChainedFormatEncoder<H, T> {
    Head(H),
    Tail(T),
}

/// The decoder of a chain of codecs.
pub enum ChainedCodecDecoder<H, T> {
    Head(H),
    Tail(T),
}

/// A chain of format providers.
pub trait StaticFormatProviders {
    /// A choice of a provider.
    type Selection;

    /// What decodes any of the formats.
    type Decoder;

    /// What encodes any of the formats.
    type Encoder;

    /// What is known of a format.
    spec fn known_format(&self, format: FormatId) -> ProviderCapability<FormatCapabilities>;

    /// The provider of a format.
    spec fn chosen_format(&self, format: FormatId) -> Result<Self::Selection, ErrorView>;

    /// Why a choice has no decoder.
    spec fn decoder_refusal(&self, selection: Self::Selection) -> Option<ErrorView>;

    /// Why a choice has no encoder.
    spec fn encoder_refusal(&self, selection: Self::Selection) -> Option<ErrorView>;

    /// What is known of a format.
    fn format_capability(&self, format: FormatId) -> (capability: ProviderCapability<
        FormatCapabilities,
    >)
        ensures
            capability == self.known_format(format),
    ;

    /// Chooses the provider of a format.
    fn select_format(&self, format: FormatId) -> (result: Result<Self::Selection, ArchiveError>)
        ensures
            match result {
                Ok(selection) => self.chosen_format(format) == Ok::<_, ErrorView>(selection),
                Err(error) => self.chosen_format(format) == Err::<Self::Selection, _>(error@),
            },
    ;

    /// Makes the decoder of a choice. Whether it is made lies with the provider,
    /// if the choice is not refused.
    fn format_decoder(&self, selection: Self::Selection, limits: Limits) -> (result: Result<
        Self::Decoder,
        ArchiveError,
    >)
        ensures
            self.decoder_refusal(selection) is Some ==> result is Err && (result->Err_0)@
                == self.decoder_refusal(selection)->0,
    ;

    /// Makes the encoder of a choice. Whether it is made lies with the provider,
    /// if the choice is not refused.
    fn format_encoder(&self, selection: Self::Selection, limits: Limits) -> (result: Result<
        Self::Encoder,
        ArchiveError,
    >)
        ensures
            self.encoder_refusal(selection) is Some ==> result is Err && (result->Err_0)@
                == self.encoder_refusal(selection)->0,
    ;
}

/// A chain of codec providers.
pub trait StaticCodecProviders {
    /// A choice of a provider.
    type Selection;

    /// What decodes any of the filters.
    type Decoder;

    /// What is known of a filter.
    spec fn known_codec(&self, filter: FilterId) -> ProviderCapability<CodecCapabilities>;

    /// The provider of a filter.
    spec fn chosen_codec(&self, filter: FilterId) -> Result<Self::Selection, ErrorView>;

    /// Why a choice has no decoder.
    spec fn decoder_refusal(&self, selection: Self::Selection) -> Option<ErrorView>;

    /// Why a choice has no encoder.
    spec fn encoder_refusal(&self, selection: Self::Selection) -> Option<ErrorView>;

    /// What is known of a filter.
    fn codec_capability(&self, filter: FilterId) -> (capability: ProviderCapability<
        CodecCapabilities,
    >)
        ensures
            capability == self.known_codec(filter),
    ;

    /// Chooses the provider of a filter.
    fn select_codec(&self, filter: FilterId) -> (result: Result<Self::Selection, ArchiveError>)
        ensures
            match result {
                Ok(selection) => self.chosen_codec(filter) == Ok::<_, ErrorView>(selection),
                Err(error) => self.chosen_codec(filter) == Err::<Self::Selection, _>(error@),
            },
    ;

    /// Makes the decoder of a choice. Whether it is made lies with the provider,
    /// if the choice is not refused.
    fn codec_decoder(&self, selection: Self::Selection, limits: Limits) -> (result: Result<
        Self::Decoder,
        ArchiveError,
    >)
        ensures
            self.decoder_refusal(selection) is Some ==> result is Err && (result->Err_0)@
                == self.decoder_refusal(selection)->0,
    ;

    /// Encodes one frame with a choice. Whether it is made lies with the
    /// provider, if the choice is not refused; a frame is within its budget.
    fn encode_codec_frame(&self, selection: Self::Selection, input: &[u8], limits: Limits) -> (
    result: Result<Vec<u8>, ArchiveError>)
        ensures
            self.encoder_refusal(selection) is Some ==> result is Err && (result->Err_0)@
                == self.encoder_refusal(selection)->0,
            result matches Ok(frame) ==> frame_error(frame@.len(), limits) is None,
    ;
}

/// A chain of format providers that looks at inputs.
pub trait FormatProbes: StaticFormatProviders {
    /// What the chain makes of the beginning of an input.
    spec fn probed_format(&self, prefix: Seq<u8>) -> Result<
        ProbeResult<(FormatId, Self::Selection)>,
        ErrorView,
    >;

    /// Looks at the beginning of an input.
    fn probe_format(&self, prefix: &[u8]) -> (result: Result<
        ProbeResult<(FormatId, Self::Selection)>,
        ArchiveError,
    >)
        ensures
            match result {
                Ok(probe) => self.probed_format(prefix@) == Ok::<_, ErrorView>(probe),
                Err(error) => self.probed_format(prefix@) == Err::<
                    ProbeResult<(FormatId, Self::Selection)>,
                    _,
                >(error@),
            },
    ;
}

/// A chain of codec providers that looks at inputs.
pub trait CodecProbes: StaticCodecProviders {
    /// What the chain makes of the beginning of an input.
    spec fn probed_codec(&self, prefix: Seq<u8>) -> Result<
        ProbeResult<(FilterId, Self::Selection)>,
        ErrorView,
    >;

    /// Looks at the beginning of an input.
    fn probe_codec(&self, prefix: &[u8]) -> (result: Result<
        ProbeResult<(FilterId, Self::Selection)>,
        ArchiveError,
    >)
        ensures
            match result {
                Ok(probe) => self.probed_codec(prefix@) == Ok::<_, ErrorView>(probe),
                Err(error) => self.probed_codec(prefix@) == Err::<
                    ProbeResult<(FilterId, Self::Selection)>,
                    _,
                >(error@),
            },
    ;
}

// ---------------------------------------------------------------------------
// Empty chains
// ---------------------------------------------------------------------------

impl StaticFormatProviders for NoFormatProviders {
    type Selection = NoProviderSelection;

    type Decoder = NoArchiveDecoder;

    type Encoder = NoArchiveEncoder;

    open spec fn known_format(&self, format: FormatId) -> ProviderCapability<FormatCapabilities> {
        ProviderCapability::Unknown
    }

    open spec fn chosen_format(&self, format: FormatId) -> Result<NoProviderSelection, ErrorView> {
        Err(unknown_format_error(format))
    }

    open spec fn decoder_refusal(&self, selection: NoProviderSelection) -> Option<ErrorView> {
        Some(
            ErrorView {
                kind: ErrorKind::Protocol,
                format: None,
                context: "empty format provider chain created a decoder"@,
            },
        )
    }

    open spec fn encoder_refusal(&self, selection: NoProviderSelection) -> Option<ErrorView> {
        Some(
            ErrorView {
                kind: ErrorKind::Protocol,
                format: None,
                context: "empty format provider chain created an encoder"@,
            },
        )
    }

    fn format_capability(&self, format: FormatId) -> (capability: ProviderCapability<
        FormatCapabilities,
    >) {
        ProviderCapability::Unknown
    }

    fn select_format(&self, format: FormatId) -> (result: Result<
        NoProviderSelection,
        ArchiveError,
    >) {
        Err(unknown_format(format))
    }

    fn format_decoder(&self, selection: NoProviderSelection, limits: Limits) -> (result: Result<
        NoArchiveDecoder,
        ArchiveError,
    >) {
        Err(NoArchiveDecoder.step())
    }

    fn format_encoder(&self, selection: NoProviderSelection, limits: Limits) -> (result: Result<
        NoArchiveEncoder,
        ArchiveError,
    >) {
        Err(NoArchiveEncoder.step())
    }
}

impl StaticCodecProviders for NoCodecProviders {
    type Selection = NoProviderSelection;

    type Decoder = NoCodecDecoder;

    open spec fn known_codec(&self, filter: FilterId) -> ProviderCapability<CodecCapabilities> {
        ProviderCapability::Unknown
    }

    open spec fn chosen_codec(&self, filter: FilterId) -> Result<NoProviderSelection, ErrorView> {
        Err(unknown_codec_error(filter))
    }

    open spec fn decoder_refusal(&self, selection: NoProviderSelection) -> Option<ErrorView> {
        Some(
            ErrorView {
                kind: ErrorKind::Protocol,
                format: None,
                context: "empty codec provider chain created a decoder"@,
            },
        )
    }

    open spec fn encoder_refusal(&self, selection: NoProviderSelection) -> Option<ErrorView> {
        Some(
            ErrorView {
                kind: ErrorKind::Protocol,
                format: None,
                context: "empty codec provider chain created a decoder"@,
            },
        )
    }

    fn codec_capability(&self, filter: FilterId) -> (capability: ProviderCapability<
        CodecCapabilities,
    >) {
        ProviderCapability::Unknown
    }

    fn select_codec(&self, filter: FilterId) -> (result: Result<
        NoProviderSelection,
        ArchiveError,
    >) {
        Err(unknown_codec(filter))
    }

    fn codec_decoder(&self, selection: NoProviderSelection, limits: Limits) -> (result: Result<
        NoCodecDecoder,
        ArchiveError,
    >) {
        Err(NoCodecDecoder.process())
    }

    fn encode_codec_frame(&self, selection: NoProviderSelection, input: &[u8], limits: Limits) -> (
    result: Result<Vec<u8>, ArchiveError>) {
        Err(NoCodecDecoder.process())
    }
}

impl FormatProbes for NoFormatProviders {
    open spec fn probed_format(&self, prefix: Seq<u8>) -> Result<
        ProbeResult<(FormatId, NoProviderSelection)>,
        ErrorView,
    > {
        Ok(ProbeResult::NoMatch)
    }

    fn probe_format(&self, prefix: &[u8]) -> (result: Result<
        ProbeResult<(FormatId, NoProviderSelection)>,
        ArchiveError,
    >) {
        Ok(ProbeResult::NoMatch)
    }
}

impl CodecProbes for NoCodecProviders {
    open spec fn probed_codec(&self, prefix: Seq<u8>) -> Result<
        ProbeResult<(FilterId, NoProviderSelection)>,
        ErrorView,
    > {
        Ok(ProbeResult::NoMatch)
    }

    fn probe_codec(&self, prefix: &[u8]) -> (result: Result<
        ProbeResult<(FilterId, NoProviderSelection)>,
        ArchiveError,
    >) {
        Ok(ProbeResult::NoMatch)
    }
}

// ---------------------------------------------------------------------------
// A provider before a chain
// ---------------------------------------------------------------------------

/// What a provider says, as a choice in a chain.
pub open spec fn head_probe<I, S>(result: ProbeResult<()>, id: I) -> ProbeResult<
    (I, ProviderSelection<S>),
> {
    match result {
        ProbeResult::Match(_) => ProbeResult::Match((id, ProviderSelection::Head)),
        ProbeResult::NeedMore { minimum } => ProbeResult::NeedMore { minimum },
        ProbeResult::NoMatch => ProbeResult::NoMatch,
    }
}

/// What the rest of a chain says, as a choice in the chain.
pub open spec fn tail_probe<I, S>(result: ProbeResult<(I, S)>) -> ProbeResult<
    (I, ProviderSelection<S>),
> {
    match result {
        ProbeResult::Match(value) => ProbeResult::Match((value.0, ProviderSelection::Tail(value.1))),
        ProbeResult::NeedMore { minimum } => ProbeResult::NeedMore { minimum },
        ProbeResult::NoMatch => ProbeResult::NoMatch,
    }
}

fn map_head<I, S>(result: ProbeResult<()>, id: I) -> (probe: ProbeResult<
    (I, ProviderSelection<S>),
>)
    ensures
        probe == head_probe::<I, S>(result, id),
{
    match result {
        ProbeResult::Match(_) => ProbeResult::Match((id, ProviderSelection::Head)),
        ProbeResult::NeedMore { minimum } => ProbeResult::NeedMore { minimum },
        ProbeResult::NoMatch => ProbeResult::NoMatch,
    }
}

fn map_tail<I, S>(result: ProbeResult<(I, S)>) -> (probe: ProbeResult<(I, ProviderSelection<S>)>)
    ensures
        probe == tail_probe(result),
{
    match result {
        ProbeResult::Match((id, selection)) => ProbeResult::Match(
            (id, ProviderSelection::Tail(selection)),
        ),
        ProbeResult::NeedMore { minimum } => ProbeResult::NeedMore { minimum },
        ProbeResult::NoMatch => ProbeResult::NoMatch,
    }
}

/// What becomes of the frame that a provider replied: it is handed on if it is
/// within its budget, and so is a failure.
pub open spec fn is_framed(
    reply: Result<Vec<u8>, ArchiveError>,
    limits: Limits,
    result: Result<Vec<u8>, ArchiveError>,
) -> bool {
    match reply {
        Ok(frame) => match frame_error(frame@.len(), limits) {
            Some(error) => result is Err && (result->Err_0)@ == error,
            None => result == reply,
        },
        Err(_) => result == reply,
    }
}

impl<P: FormatProvider, T: StaticFormatProviders> StaticFormatProviders for FormatProviderNode<
    P,
    T,
> {
    type Selection = ProviderSelection<T::Selection>;

    type Decoder = ChainedFormatDecoder<P::Decoder, T::Decoder>;

    type Encoder = ChainedFormatEncoder<P::Encoder, T::Encoder>;

    open spec fn known_format(&self, format: FormatId) -> ProviderCapability<FormatCapabilities> {
        if self.head.id() != format {
            self.tail.known_format(format)
        } else if self.head.abilities().is_available() {
            ProviderCapability::Available(self.head.abilities())
        } else {
            ProviderCapability::Disabled
        }
    }

    open spec fn chosen_format(&self, format: FormatId) -> Result<
        ProviderSelection<T::Selection>,
        ErrorView,
    > {
        if self.head.id() == format {
            Ok(ProviderSelection::Head)
        } else {
            match self.tail.chosen_format(format) {
                Ok(selection) => Ok(ProviderSelection::Tail(selection)),
                Err(error) => Err(error),
            }
        }
    }

    open spec fn decoder_refusal(&self, selection: ProviderSelection<T::Selection>) -> Option<
        ErrorView,
    > {
        match selection {
            ProviderSelection::Head => if self.head.abilities().decode {
                None
            } else {
                Some(disabled_error(format_words(self.head.id()), self.head.title(), "decode"@))
            },
            ProviderSelection::Tail(selection) => self.tail.decoder_refusal(selection),
        }
    }

    open spec fn encoder_refusal(&self, selection: ProviderSelection<T::Selection>) -> Option<
        ErrorView,
    > {
        match selection {
            ProviderSelection::Head => if self.head.abilities().encode {
                None
            } else {
                Some(disabled_error(format_words(self.head.id()), self.head.title(), "encode"@))
            },
            ProviderSelection::Tail(selection) => self.tail.encoder_refusal(selection),
        }
    }

    fn format_capability(&self, format: FormatId) -> (capability: ProviderCapability<
        FormatCapabilities,
    >) {
        if self.head.format() != format {
            return self.tail.format_capability(format);
        }
        let capabilities = self.head.capabilities();
        if capabilities.available() {
            ProviderCapability::Available(capabilities)
        } else {
            ProviderCapability::Disabled
        }
    }

    fn select_format(&self, format: FormatId) -> (result: Result<
        ProviderSelection<T::Selection>,
        ArchiveError,
    >) {
        if self.head.format() == format {
            return Ok(ProviderSelection::Head);
        }
        match self.tail.select_format(format) {
            Ok(selection) => Ok(ProviderSelection::Tail(selection)),
            Err(error) => Err(error),
        }
    }

    fn format_decoder(
        &self,
        selection: ProviderSelection<T::Selection>,
        limits: Limits,
    ) -> (result: Result<ChainedFormatDecoder<P::Decoder, T::Decoder>, ArchiveError>)
        ensures
            match selection {
                ProviderSelection::Head => self.head.abilities().decode ==> exists|
                    reply: Result<P::Decoder, ArchiveError>,
                |
                    #[trigger] call_ensures(P::decoder, (&self.head, limits), reply) && match reply {
                        Ok(made) => result matches Ok(ChainedFormatDecoder::Head(own)) && own == made,
                        Err(error) => result matches Err(own) && own == error,
                    },
                ProviderSelection::Tail(rest) => exists|reply: Result<T::Decoder, ArchiveError>|
                    #[trigger] call_ensures(T::format_decoder, (&self.tail, rest, limits), reply)
                        && match reply {
                        Ok(made) => result matches Ok(ChainedFormatDecoder::Tail(own)) && own == made,
                        Err(error) => result matches Err(own) && own == error,
                    },
            },
    {
        match selection {
            ProviderSelection::Head => {
                if !self.head.capabilities().can_decode() {
                    return Err(
                        disabled(format_name(self.head.format()), self.head.name(), "decode"),
                    );
                }
                match self.head.decoder(limits) {
                    Ok(decoder) => Ok(ChainedFormatDecoder::Head(decoder)),
                    Err(error) => Err(error),
                }
            },
            ProviderSelection::Tail(selection) => match self.tail.format_decoder(
                selection,
                limits,
            ) {
                Ok(decoder) => Ok(ChainedFormatDecoder::Tail(decoder)),
                Err(error) => Err(error),
            },
        }
    }

    fn format_encoder(
        &self,
        selection: ProviderSelection<T::Selection>,
        limits: Limits,
    ) -> (result: Result<ChainedFormatEncoder<P::Encoder, T::Encoder>, ArchiveError>)
        ensures
            match selection {
                ProviderSelection::Head => self.head.abilities().encode ==> exists|
                    reply: Result<P::Encoder, ArchiveError>,
                |
                    #[trigger] call_ensures(P::encoder, (&self.head, limits), reply) && match reply {
                        Ok(made) => result matches Ok(ChainedFormatEncoder::Head(own)) && own == made,
                        Err(error) => result matches Err(own) && own == error,
                    },
                ProviderSelection::Tail(rest) => exists|reply: Result<T::Encoder, ArchiveError>|
                    #[trigger] call_ensures(T::format_encoder, (&self.tail, rest, limits), reply)
                        && match reply {
                        Ok(made) => result matches Ok(ChainedFormatEncoder::Tail(own)) && own == made,
                        Err(error) => result matches Err(own) && own == error,
                    },
            },
    {
        match selection {
            ProviderSelection::Head => {
                if !self.head.capabilities().can_encode() {
                    return Err(
                        disabled(format_name(self.head.format()), self.head.name(), "encode"),
                    );
                }
                match self.head.encoder(limits) {
                    Ok(encoder) => Ok(ChainedFormatEncoder::Head(encoder)),
                    Err(error) => Err(error),
                }
            },
            ProviderSelection::Tail(selection) => match self.tail.format_encoder(
                selection,
                limits,
            ) {
                Ok(encoder) => Ok(ChainedFormatEncoder::Tail(encoder)),
                Err(error) => Err(error),
            },
        }
    }
}

impl<P: CodecProvider, T: StaticCodecProviders> StaticCodecProviders for CodecProviderNode<P, T> {
    type Selection = ProviderSelection<T::Selection>;

    type Decoder = ChainedCodecDecoder<P::Decoder, T::Decoder>;

    open spec fn known_codec(&self, filter: FilterId) -> ProviderCapability<CodecCapabilities> {
        if self.head.id() != filter {
            self.tail.known_codec(filter)
        } else if self.head.abilities().is_available() {
            ProviderCapability::Available(self.head.abilities())
        } else {
            ProviderCapability::Disabled
        }
    }

    open spec fn chosen_codec(&self, filter: FilterId) -> Result<
        ProviderSelection<T::Selection>,
        ErrorView,
    > {
        if self.head.id() == filter {
            Ok(ProviderSelection::Head)
        } else {
            match self.tail.chosen_codec(filter) {
                Ok(selection) => Ok(ProviderSelection::Tail(selection)),
                Err(error) => Err(error),
            }
        }
    }

    open spec fn decoder_refusal(&self, selection: ProviderSelection<T::Selection>) -> Option<
        ErrorView,
    > {
        match selection {
            ProviderSelection::Head => if self.head.abilities().decode {
                None
            } else {
                Some(disabled_error(codec_words(self.head.id()), self.head.title(), "decode"@))
            },
            ProviderSelection::Tail(selection) => self.tail.decoder_refusal(selection),
        }
    }

    open spec fn encoder_refusal(&self, selection: ProviderSelection<T::Selection>) -> Option<
        ErrorView,
    > {
        match selection {
            ProviderSelection::Head => if self.head.abilities().encode {
                None
            } else {
                Some(disabled_error(codec_words(self.head.id()), self.head.title(), "encode"@))
            },
            ProviderSelection::Tail(selection) => self.tail.encoder_refusal(selection),
        }
    }

    fn codec_capability(&self, filter: FilterId) -> (capability: ProviderCapability<
        CodecCapabilities,
    >) {
        if self.head.filter() != filter {
            return self.tail.codec_capability(filter);
        }
        let capabilities = self.head.capabilities();
        if capabilities.available() {
            ProviderCapability::Available(capabilities)
        } else {
            ProviderCapability::Disabled
        }
    }

    fn select_codec(&self, filter: FilterId) -> (result: Result<
        ProviderSelection<T::Selection>,
        ArchiveError,
    >) {
        if self.head.filter() == filter {
            return Ok(ProviderSelection::Head);
        }
        match self.tail.select_codec(filter) {
            Ok(selection) => Ok(ProviderSelection::Tail(selection)),
            Err(error) => Err(error),
        }
    }

    fn codec_decoder(&self, selection: ProviderSelection<T::Selection>, limits: Limits) -> (result:
        Result<ChainedCodecDecoder<P::Decoder, T::Decoder>, ArchiveError>)
        ensures
            match selection {
                ProviderSelection::Head => self.head.abilities().decode ==> exists|
                    reply: Result<P::Decoder, ArchiveError>,
                |
                    #[trigger] call_ensures(P::decoder, (&self.head, limits), reply) && match reply {
                        Ok(made) => result matches Ok(ChainedCodecDecoder::Head(own)) && own == made,
                        Err(error) => result matches Err(own) && own == error,
                    },
                ProviderSelection::Tail(rest) => exists|reply: Result<T::Decoder, ArchiveError>|
                    #[trigger] call_ensures(T::codec_decoder, (&self.tail, rest, limits), reply)
                        && match reply {
                        Ok(made) => result matches Ok(ChainedCodecDecoder::Tail(own)) && own == made,
                        Err(error) => result matches Err(own) && own == error,
                    },
            },
    {
        match selection {
            ProviderSelection::Head => {
                if !self.head.capabilities().can_decode() {
                    return Err(
                        disabled(codec_name(self.head.filter()), self.head.name(), "decode"),
                    );
                }
                match self.head.decoder(limits) {
                    Ok(decoder) => Ok(ChainedCodecDecoder::Head(decoder)),
                    Err(error) => Err(error),
                }
            },
            ProviderSelection::Tail(selection) => match self.tail.codec_decoder(
                selection,
                limits,
            ) {
                Ok(decoder) => Ok(ChainedCodecDecoder::Tail(decoder)),
                Err(error) => Err(error),
            },
        }
    }

    fn encode_codec_frame(
        &self,
        selection: ProviderSelection<T::Selection>,
        input: &[u8],
        limits: Limits,
    ) -> (result: Result<Vec<u8>, ArchiveError>)
        ensures
            match selection {
                ProviderSelection::Head => self.head.abilities().encode ==> exists|
                    reply: Result<Vec<u8>, ArchiveError>,
                |
                    #[trigger] call_ensures(P::encode_frame, (&self.head, input, limits), reply)
                        && is_framed(reply, limits, result),
                ProviderSelection::Tail(rest) => exists|reply: Result<Vec<u8>, ArchiveError>|
                    #[trigger] call_ensures(
                        T::encode_codec_frame,
                        (&self.tail, rest, input, limits),
                        reply,
                    ) && is_framed(reply, limits, result),
            },
    {
        let encoded = match selection {
            ProviderSelection::Head => {
                if !self.head.capabilities().can_encode() {
                    return Err(
                        disabled(codec_name(self.head.filter()), self.head.name(), "encode"),
                    );
                }
                self.head.encode_frame(input, limits)
            },
            ProviderSelection::Tail(selection) => self.tail.encode_codec_frame(
                selection,
                input,
                limits,
            ),
        };
        match encoded {
            Ok(encoded) => validate_encoded_frame(encoded, limits),
            Err(error) => Err(error),
        }
    }
}

impl<P: FormatProvider, T: FormatProbes> FormatProbes for FormatProviderNode<P, T> {
    open spec fn probed_format(&self, prefix: Seq<u8>) -> Result<
        ProbeResult<(FormatId, ProviderSelection<T::Selection>)>,
        ErrorView,
    > {
        let own = self.head.probed(prefix);
        if probe_error(own, prefix.len(), self.head.title()) is Some {
            Err(probe_error(own, prefix.len(), self.head.title())->0)
        } else {
            match self.tail.probed_format(prefix) {
                Err(error) => Err(error),
                Ok(rest) => combined(
                    head_probe(own, self.head.id()),
                    tail_probe(rest),
                    "format"@,
                ),
            }
        }
    }

    fn probe_format(&self, prefix: &[u8]) -> (result: Result<
        ProbeResult<(FormatId, ProviderSelection<T::Selection>)>,
        ArchiveError,
    >) {
        let own = match validate_probe(self.head.probe(prefix), prefix.len(), self.head.name()) {
            Ok(own) => own,
            Err(error) => {
                return Err(error);
            },
        };
        let rest = match self.tail.probe_format(prefix) {
            Ok(rest) => rest,
            Err(error) => {
                return Err(error);
            },
        };
        combine_format_probes(map_head(own, self.head.format()), map_tail(rest))
    }
}

impl<P: CodecProvider, T: CodecProbes> CodecProbes for CodecProviderNode<P, T> {
    open spec fn probed_codec(&self, prefix: Seq<u8>) -> Result<
        ProbeResult<(FilterId, ProviderSelection<T::Selection>)>,
        ErrorView,
    > {
        let own = self.head.probed(prefix);
        if probe_error(own, prefix.len(), self.head.title()) is Some {
            Err(probe_error(own, prefix.len(), self.head.title())->0)
        } else {
            match self.tail.probed_codec(prefix) {
                Err(error) => Err(error),
                Ok(rest) => combined(head_probe(own, self.head.id()), tail_probe(rest), "codec"@),
            }
        }
    }

    fn probe_codec(&self, prefix: &[u8]) -> (result: Result<
        ProbeResult<(FilterId, ProviderSelection<T::Selection>)>,
        ArchiveError,
    >) {
        let own = match validate_probe(self.head.probe(prefix), prefix.len(), self.head.name()) {
            Ok(own) => own,
            Err(error) => {
                return Err(error);
            },
        };
        let rest = match self.tail.probe_codec(prefix) {
            Ok(rest) => rest,
            Err(error) => {
                return Err(error);
            },
        };
        combine_codec_probes(map_head(own, self.head.filter()), map_tail(rest))
    }
}

// ---------------------------------------------------------------------------
// Sets
// ---------------------------------------------------------------------------

/// A chain of formats and a chain of codecs.
#[derive(Clone, Copy, Debug, PartialEq, Eq)]
pub struct ProviderSet<F, C> {
    pub formats: F,
    pub codecs: C,
}

impl ProviderSet<NoFormatProviders, NoCodecProviders> {
    /// A set without providers.
    pub fn empty() -> (set: Self)
        ensures
            set.formats == NoFormatProviders,
            set.codecs == NoCodecProviders,
    {
        ProviderSet { formats: NoFormatProviders, codecs: NoCodecProviders }
    }
}

impl<F, C> ProviderSet<F, C> {
    /// A set of two chains.
    pub fn from_chains(formats: F, codecs: C) -> (set: Self)
        ensures
            set.formats == formats,
            set.codecs == codecs,
    {
        ProviderSet { formats, codecs }
    }

    /// Puts a format provider before the others.
    pub fn with_format_provider<P: FormatProvider>(self, provider: P) -> (set: ProviderSet<
        FormatProviderNode<P, F>,
        C,
    >)
        ensures
            set.formats.head == provider,
            set.formats.tail == self.formats,
            set.codecs == self.codecs,
    {
        ProviderSet {
            formats: FormatProviderNode { head: provider, tail: self.formats },
            codecs: self.codecs,
        }
    }

    /// Puts a codec provider before the others.
    pub fn with_codec_provider<P: CodecProvider>(self, provider: P) -> (set: ProviderSet<
        F,
        CodecProviderNode<P, C>,
    >)
        ensures
            set.formats == self.formats,
            set.codecs.head == provider,
            set.codecs.tail == self.codecs,
    {
        ProviderSet {
            formats: self.formats,
            codecs: CodecProviderNode { head: provider, tail: self.codecs },
        }
    }

    /// The two chains.
    pub fn into_chains(self) -> (chains: (F, C))
        ensures
            chains == (self.formats, self.codecs),
    {
        (self.formats, self.codecs)
    }
}

impl<F: StaticFormatProviders, C: StaticCodecProviders> ProviderSet<F, C> {
    /// Whether a format is available.
    pub fn supports_format(&self, format: FormatId) -> (supported: bool)
        ensures
            supported == (self.formats.known_format(format) is Available),
    {
        match self.formats.format_capability(format) {
            ProviderCapability::Available(_) => true,
            _ => false,
        }
    }

    /// Whether a filter is available.
    pub fn supports_filter(&self, filter: FilterId) -> (supported: bool)
        ensures
            supported == (self.codecs.known_codec(filter) is Available),
    {
        match self.codecs.codec_capability(filter) {
            ProviderCapability::Available(_) => true,
            _ => false,
        }
    }

    /// What is known of a format.
    pub fn format_capability(&self, format: FormatId) -> (capability: ProviderCapability<
        FormatCapabilities,
    >)
        ensures
            capability == self.formats.known_format(format),
    {
        self.formats.format_capability(format)
    }

    /// What is known of a filter.
    pub fn codec_capability(&self, filter: FilterId) -> (capability: ProviderCapability<
        CodecCapabilities,
    >)
        ensures
            capability == self.codecs.known_codec(filter),
    {
        self.codecs.codec_capability(filter)
    }
}

/// A format is chosen exactly if something is known of it, in any chain that
/// a provider joins.
pub proof fn law_known_formats_are_chosen<P: FormatProvider, T: StaticFormatProviders>(
    chain: FormatProviderNode<P, T>,
    format: FormatId,
)
    requires
        chain.tail.chosen_format(format) is Ok <==> !(chain.tail.known_format(format) is Unknown),
    ensures
        chain.chosen_format(format) is Ok <==> !(chain.known_format(format) is Unknown),
{
}

} // verus!
