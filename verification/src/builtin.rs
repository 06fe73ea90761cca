//! The formats and codecs of the library itself.

use vstd::prelude::*;
use crate::chain::{ProviderSet, StaticCodecProviders, StaticFormatProviders};
use crate::codec::{CodecStatus, EndOfInput};
use crate::error::{fault, ArchiveError, ErrorKind, ErrorView};
use crate::filter::crc::crc32_of;
use crate::filter::gzip_encoder::{
    framed_body, law_member_is_framed, le_bytes4, member_so_far, EncodePhase, EncoderModel,
    GZIP_HEADER,
};
use crate::filtered::detect::FilterId;
use crate::filtered::frames::{
    bzip2_frame, encode_bzip2, encode_profile_frame, profile_frame, takes_length, GzipSink,
    XZ_TEXT_END,
};
use crate::io_fault::{io_fault, IoFault, IoFaultView, IoKind, IoReason};
use crate::limits::Limits;
use crate::provider::{
    codec_name, codec_words, format_name, format_words, frame_error, named_error, unknown_codec,
    unknown_codec_error, unknown_format, unknown_format_error, validate_encoded_frame,
    CodecCapabilities, FormatCapabilities, FormatId, ProviderCapability,
};

verus! {

/// The formats of the library.
#[derive(Clone, Copy, Debug, Default, PartialEq, Eq)]
pub struct BuiltinFormatProviders;

/// The codecs of the library.
#[derive(Clone, Copy, Debug, Default, PartialEq, Eq)]
pub struct BuiltinCodecProviders;

/// A decoder for a sequential input: of which format, with which budgets.
#[derive(Clone, Copy, Debug)]
pub struct BuiltinFormatDecoder {
    pub format: FormatId,
    pub limits: Limits,
}

/// An encoder for a sequential output: of which format, with which budgets.
#[derive(Clone, Copy, Debug)]
pub struct BuiltinFormatEncoder {
    pub format: FormatId,
    pub limits: Limits,
}

/// A decoder of a filter: of which, with which budgets.
#[derive(Clone, Copy, Debug)]
pub struct BuiltinCodecDecoder {
    pub filter: FilterId,
    pub limits: Limits,
}

/// Why a format cannot be decoded from a sequential input.
pub open spec fn sequential_decoder_error(format: FormatId) -> Option<ErrorView> {
    match format {
        FormatId::Tar | FormatId::Cpio | FormatId::Ar => None,
        FormatId::Zip | FormatId::SevenZip | FormatId::Iso9660 => Some(
            named_error(
                ErrorKind::Capability,
                format_words(format),
                "archive format requires Read + Seek"@,
            ),
        ),
        FormatId::Cab | FormatId::Xar => Some(unknown_format_error(format)),
    }
}

/// Why a format cannot be encoded to a sequential output.
pub open spec fn sequential_encoder_error(format: FormatId) -> Option<ErrorView> {
    match format {
        FormatId::Tar | FormatId::Cpio | FormatId::Ar | FormatId::Zip => None,
        FormatId::SevenZip | FormatId::Iso9660 => Some(
            named_error(
                ErrorKind::Capability,
                format_words(format),
                "format is not available through the sequential writer"@,
            ),
        ),
        FormatId::Cab | FormatId::Xar => Some(unknown_format_error(format)),
    }
}

impl BuiltinFormatDecoder {
    /// The decoder of a format for a sequential input.
    pub fn sequential(format: FormatId, limits: Limits) -> (result: Result<Self, ArchiveError>)
        ensures
            match result {
                Ok(decoder) => {
                    &&& sequential_decoder_error(format) is None
                    &&& decoder.format == format
                    &&& decoder.limits == limits
                },
                Err(error) => sequential_decoder_error(format) == Some(error@),
            },
    {
        match format {
            FormatId::Tar | FormatId::Cpio | FormatId::Ar => Ok(
                BuiltinFormatDecoder { format, limits },
            ),
            FormatId::Zip | FormatId::SevenZip | FormatId::Iso9660 => Err(
                ArchiveError::of_format(
                    ErrorKind::Capability,
                    format_name(format),
                    "archive format requires Read + Seek",
                ),
            ),
            FormatId::Cab | FormatId::Xar => Err(unknown_format(format)),
        }
    }
}

impl BuiltinFormatEncoder {
    /// The encoder of a format for a sequential output.
    pub fn sequential(format: FormatId, limits: Limits) -> (result: Result<Self, ArchiveError>)
        ensures
            match result {
                Ok(encoder) => {
                    &&& sequential_encoder_error(format) is None
                    &&& encoder.format == format
                    &&& encoder.limits == limits
                },
                Err(error) => sequential_encoder_error(format) == Some(error@),
            },
    {
        match format {
            FormatId::Tar | FormatId::Cpio | FormatId::Ar | FormatId::Zip => Ok(
                BuiltinFormatEncoder { format, limits },
            ),
            FormatId::SevenZip | FormatId::Iso9660 => Err(
                ArchiveError::of_format(
                    ErrorKind::Capability,
                    format_name(format),
                    "format is not available through the sequential writer",
                ),
            ),
            FormatId::Cab | FormatId::Xar => Err(unknown_format(format)),
        }
    }
}

impl StaticFormatProviders for BuiltinFormatProviders {
    type Selection = FormatId;

    type Decoder = BuiltinFormatDecoder;

    type Encoder = BuiltinFormatEncoder;

    open spec fn known_format(&self, format: FormatId) -> ProviderCapability<FormatCapabilities> {
        ProviderCapability::Available(
            FormatCapabilities {
                decode: true,
                encode: format != FormatId::Cab && format != FormatId::Xar,
                seek: format != FormatId::Tar && format != FormatId::Cpio && format
                    != FormatId::Ar,
            },
        )
    }

    open spec fn chosen_format(&self, format: FormatId) -> Result<FormatId, ErrorView> {
        Ok(format)
    }

    open spec fn decoder_refusal(&self, selection: FormatId) -> Option<ErrorView> {
        sequential_decoder_error(selection)
    }

    open spec fn encoder_refusal(&self, selection: FormatId) -> Option<ErrorView> {
        sequential_encoder_error(selection)
    }

    fn format_capability(&self, format: FormatId) -> (capability: ProviderCapability<
        FormatCapabilities,
    >) {
        match format {
            FormatId::Tar | FormatId::Cpio | FormatId::Ar => ProviderCapability::Available(
                FormatCapabilities::new(true, true, false),
            ),
            FormatId::Zip | FormatId::Iso9660 | FormatId::SevenZip => ProviderCapability::Available(
                FormatCapabilities::new(true, true, true),
            ),
            FormatId::Cab | FormatId::Xar => ProviderCapability::Available(
                FormatCapabilities::new(true, false, true),
            ),
        }
    }

    fn select_format(&self, format: FormatId) -> (result: Result<FormatId, ArchiveError>) {
        Ok(format)
    }

    fn format_decoder(&self, selection: FormatId, limits: Limits) -> (result: Result<
        BuiltinFormatDecoder,
        ArchiveError,
    >)
        ensures
            self.decoder_refusal(selection) is None ==> (result matches Ok(decoder)
                && decoder.format == selection && decoder.limits == limits),
    {
        BuiltinFormatDecoder::sequential(selection, limits)
    }

    fn format_encoder(&self, selection: FormatId, limits: Limits) -> (result: Result<
        BuiltinFormatEncoder,
        ArchiveError,
    >)
        ensures
            self.encoder_refusal(selection) is None ==> (result matches Ok(encoder)
                && encoder.format == selection && encoder.limits == limits),
    {
        BuiltinFormatEncoder::sequential(selection, limits)
    }
}

// ---------------------------------------------------------------------------
// gzip members
// ---------------------------------------------------------------------------

/// The room that a gzip writer has for one turn.
pub const GZIP_ROOM: usize = 65_536;

/// A gzip member while it is made.
#[verifier::ext_equal]
pub struct GzipRun {
    pub model: EncoderModel,
    /// The bytes that are still to be taken.
    pub rest: Seq<u8>,
    pub output: Seq<u8>,
    /// How it came to an end, if it did.
    pub end: Option<Result<(), IoFaultView>>,
}

/// A member before its first turn.
pub open spec fn gzip_start(input: Seq<u8>, limits: Limits) -> GzipRun {
    GzipRun {
        model: EncoderModel {
            phase: EncodePhase::Header,
            history: Seq::empty(),
            header_position: 0,
            trailer_position: 0,
            plain: Seq::empty(),
            input_size: 0,
            limits,
        },
        rest: input,
        output: Seq::empty(),
        end: None,
    }
}

impl GzipRun {
    /// The member after one more turn: bytes are taken until there are none, then
    /// the member is closed.
    #[verifier::opaque]
    pub open spec fn turned(self) -> GzipRun {
        let closing = self.rest.len() == 0;
        let end = if closing {
            EndOfInput::End
        } else {
            EndOfInput::More
        };
        if self.end is Some {
            self
        } else {
            match self.model.process(self.rest, GZIP_ROOM as nat, end) {
                Err(error) => GzipRun {
                    end: Some(Err(IoFaultView::Archive { kind: IoKind::InvalidData, error })),
                    ..self
                },
                Ok(step) => GzipRun {
                    model: step.model,
                    rest: self.rest.skip(step.consumed as int),
                    output: self.output + step.written,
                    end: if closing && step.status == CodecStatus::Done {
                        Some(Ok(()))
                    } else if (closing || step.consumed == 0) && step.written.len() == 0 {
                        Some(
                            Err(
                                io_fault(
                                    IoKind::InvalidData,
                                    if closing {
                                        "gzip encoder made no finish progress"@
                                    } else {
                                        "gzip encoder made no write progress"@
                                    },
                                ),
                            ),
                        )
                    } else {
                        None
                    },
                },
            }
        }
    }

    /// The member after some turns.
    pub open spec fn after(self, turns: nat) -> GzipRun
        decreases turns,
    {
        if turns == 0 {
            self
        } else {
            self.after((turns - 1) as nat).turned()
        }
    }
}

/// The bytes of a text are a whole member: a header, a body, and a trailer with
/// the checksum of the text.
pub open spec fn is_member_of(bytes: Seq<u8>, plain: Seq<u8>) -> bool {
    exists|body: Seq<u8>, size: u32| #[trigger]
        framed_body(bytes, body, le_bytes4(crc32_of(plain)) + le_bytes4(size))
}

fn room_for_turns() -> (buffer: Vec<u8>)
    ensures
        buffer@.len() == GZIP_ROOM,
{
    let mut buffer: Vec<u8> = Vec::new();
    let mut i: usize = 0;
    while i < GZIP_ROOM
        invariant
            i <= GZIP_ROOM,
            buffer@.len() == i,
        decreases GZIP_ROOM - i,
    {
        buffer.push(0);
        i += 1;
    }
    buffer
}

/// Makes one turn of a member and appends what it writes.
fn make_turn(
    sink: &mut GzipSink,
    rest: &[u8],
    buffer: &mut Vec<u8>,
    output: &mut Vec<u8>,
) -> (outcome: Option<Result<usize, IoFault>>)
    requires
        old(sink).encoder.wf(),
        old(buffer)@.len() == GZIP_ROOM,
        member_so_far(old(sink).encoder@, old(output)@),
    ensures
        final(buffer)@.len() == GZIP_ROOM,
        ({
            let before = GzipRun {
                model: old(sink).encoder@,
                rest: rest@,
                output: old(output)@,
                end: None,
            };
            let after = before.turned();
            match outcome {
                Some(Err(fault)) => after.end == Some(Err::<(), _>(fault@)),
                Some(Ok(count)) => {
                    &&& after == (GzipRun {
                        model: final(sink).encoder@,
                        rest: rest@.skip(count as int),
                        output: final(output)@,
                        end: if rest@.len() == 0 {
                            Some(Ok::<(), IoFaultView>(()))
                        } else {
                            None
                        },
                    })
                    &&& count <= rest@.len()
                    &&& rest@.len() > 0 ==> count > 0
                    &&& final(sink).encoder.wf()
                    &&& member_so_far(final(sink).encoder@, final(output)@)
                    &&& final(sink).encoder@.plain == old(sink).encoder@.plain + rest@.take(
                        count as int,
                    )
                    &&& rest@.len() == 0 ==> final(sink).encoder.phase is Done
                },
                None => {
                    &&& after == (GzipRun {
                        model: final(sink).encoder@,
                        rest: rest@,
                        output: final(output)@,
                        end: None,
                    })
                    &&& final(output)@.len() > old(output)@.len()
                    &&& final(sink).encoder.wf()
                    &&& member_so_far(final(sink).encoder@, final(output)@)
                    &&& final(sink).encoder@.plain == old(sink).encoder@.plain
                },
            }
        }),
{
    reveal(GzipRun::turned);
    let ghost model = sink.encoder@;
    let ghost emitted = output@;
    let closing: bool = rest.len() == 0;
    let ghost end = if closing {
        EndOfInput::End
    } else {
        EndOfInput::More
    };
    proof {
        if closing {
            assert(rest@ =~= Seq::<u8>::empty());
        }
    }
    let turn = if closing {
        sink.finish(buffer.as_mut_slice())
    } else {
        sink.write(rest, buffer.as_mut_slice())
    };
    let part = &buffer[0..turn.produced];
    proof {
        assert(part@ =~= buffer@.take(turn.produced as int));
        if model.process(rest@, GZIP_ROOM as nat, end) is Ok {
            law_member_is_framed(model, rest@, GZIP_ROOM as nat, end, emitted);
        }
        assert(rest@.skip(0) =~= rest@);
        assert(rest@.take(0) =~= Seq::<u8>::empty());
        assert(model.plain + Seq::<u8>::empty() =~= model.plain);
    }
    output.extend_from_slice(part);
    proof {
        assert(output@ =~= emitted + part@);
    }
    turn.outcome
}

/// The contents of what came of a frame.
pub open spec fn end_view(result: Result<Vec<u8>, IoFault>) -> Result<Seq<u8>, IoFaultView> {
    match result {
        Ok(frame) => Ok(frame@),
        Err(fault) => Err(fault@),
    }
}

/// Turns of the encoder on an input come to this end.
pub open spec fn gzip_ends(
    input: Seq<u8>,
    limits: Limits,
    end: Result<Seq<u8>, IoFaultView>,
) -> bool {
    exists|turns: nat|
        {
            let run = #[trigger] gzip_start(input, limits).after(turns);
            match end {
                Ok(frame) => run.end == Some(Ok::<(), IoFaultView>(())) && run.output == frame,
                Err(fault) => run.end == Some(Err::<(), _>(fault)),
            }
        }
}

/// Makes one gzip member of a text.
pub fn encode_gzip_frame(input: &[u8], limits: Limits) -> (result: Result<Vec<u8>, IoFault>)
    ensures
        gzip_ends(input@, limits, end_view(result)),
        result matches Ok(frame) ==> is_member_of(frame@, input@),
{
    let mut sink = GzipSink::new(limits);
    let mut buffer = room_for_turns();
    let mut output: Vec<u8> = Vec::new();
    let mut taken: usize = 0;
    let mut written: usize = 0;
    let total: usize = input.len();
    let ghost start = gzip_start(input@, limits);
    let ghost mut turns: nat = 0;
    proof {
        assert(input@.skip(0) =~= input@);
        assert(input@.take(0) =~= Seq::<u8>::empty());
        assert(output@ =~= Seq::<u8>::empty());
        assert(GZIP_HEADER@.take(0) =~= Seq::<u8>::empty());
    }
    loop
        invariant
            taken <= total,
            total == input@.len(),
            buffer@.len() == GZIP_ROOM,
            sink.encoder.wf(),
            written == output@.len(),
            start == gzip_start(input@, limits),
            start.after(turns) == (GzipRun {
                model: sink.encoder@,
                rest: input@.skip(taken as int),
                output: output@,
                end: None,
            }),
            sink.encoder@.plain == input@.take(taken as int),
            member_so_far(sink.encoder@, output@),
        decreases total - taken, usize::MAX - written,
    {
        let rest = &input[taken..total];
        proof {
            assert(rest@ =~= input@.skip(taken as int));
            assert(start.after(turns + 1) == start.after(turns).turned());
        }
        let outcome = make_turn(&mut sink, rest, &mut buffer, &mut output);
        written = output.len();
        match outcome {
            Some(Err(fault)) => {
                return Err(fault);
            },
            Some(Ok(count)) => {
                proof {
                    assert(input@.skip(taken as int).skip(count as int) =~= input@.skip(
                        taken + count,
                    ));
                    assert(input@.take(taken as int) + rest@.take(count as int) =~= input@.take(
                        taken + count,
                    ));
                }
                if taken == total {
                    proof {
                        assert(input@.take(total as int) =~= input@);
                        let model = sink.encoder@;
                        let body = choose|body: Seq<u8>| #[trigger]
                            framed_body(output@, body, model.trailer());
                        assert(framed_body(
                            output@,
                            body,
                            le_bytes4(crc32_of(input@)) + le_bytes4(model.input_size),
                        ));
                    }
                    return Ok(output);
                }
                taken = taken + count;
            },
            None => {},
        }
        proof {
            turns = turns + 1;
        }
    }
}

// ---------------------------------------------------------------------------
// Codecs
// ---------------------------------------------------------------------------

/// A filter that the library can decode and encode through a provider.
pub open spec fn is_builtin_codec(filter: FilterId) -> bool {
    match filter {
        FilterId::Gzip | FilterId::Bzip2 | FilterId::Zstd | FilterId::Xz | FilterId::Lz4 => true,
        _ => false,
    }
}

/// The text of an I/O failure.
pub open spec fn fault_words(fault: IoFaultView) -> Seq<char> {
    match fault {
        IoFaultView::Message { message, .. } => message,
        IoFaultView::Archive { error, .. } => error.context,
    }
}

/// The kind of an I/O failure.
pub open spec fn fault_kind(fault: IoFaultView) -> IoKind {
    match fault {
        IoFaultView::Message { kind, .. } => kind,
        IoFaultView::Archive { kind, .. } => kind,
    }
}

/// The error of a codec that failed to write.
pub open spec fn codec_io_fault(provider: Seq<char>, fault: IoFaultView) -> ErrorView {
    named_error(
        if fault_kind(fault) == IoKind::OutOfMemory {
            ErrorKind::Limit
        } else {
            ErrorKind::Protocol
        },
        provider,
        fault_words(fault),
    )
}

/// The error of a codec that failed to write.
pub fn codec_io_error(provider: &'static str, fault: IoFault) -> (error: ArchiveError)
    ensures
        error@ == codec_io_fault(provider@, fault@),
{
    let kind = if fault.kind == IoKind::OutOfMemory {
        ErrorKind::Limit
    } else {
        ErrorKind::Protocol
    };
    let text = match fault.reason {
        IoReason::Message(message) => message,
        IoReason::Archive(error) => error.context,
    };
    ArchiveError::of_format_text(kind, provider, text)
}

/// The frame that a filter makes of a text, for those that make one in one call, on
/// a machine with a byte order.
pub open spec fn whole_frame(filter: FilterId, plain: Seq<u8>, big_endian: bool) -> Option<
    Seq<u8>,
> {
    if filter == FilterId::Bzip2 {
        bzip2_frame(plain)
    } else {
        profile_frame(filter, plain, big_endian)
    }
}

/// Ends the making of a frame, given what came of it.
pub fn finish_frame(filter: FilterId, encoded: Result<Vec<u8>, IoFault>, limits: Limits) -> (result:
    Result<Vec<u8>, ArchiveError>)
    ensures
        match encoded {
            Ok(frame) => match result {
                Ok(same) => frame_error(frame@.len(), limits) is None && same == frame,
                Err(error) => frame_error(frame@.len(), limits) == Some(error@),
            },
            Err(fault) => result is Err && (result->Err_0)@ == codec_io_fault(
                codec_words(filter),
                fault@,
            ),
        },
{
    match encoded {
        Ok(frame) => validate_encoded_frame(frame, limits),
        Err(fault) => Err(codec_io_error(codec_name(filter), fault)),
    }
}

fn message_fault(message: String) -> (fault: IoFault)
    ensures
        fault.kind == IoKind::Other,
{
    IoFault { kind: IoKind::Other, reason: IoReason::Message(message) }
}

impl StaticCodecProviders for BuiltinCodecProviders {
    type Selection = FilterId;

    type Decoder = BuiltinCodecDecoder;

    open spec fn known_codec(&self, filter: FilterId) -> ProviderCapability<CodecCapabilities> {
        if is_builtin_codec(filter) {
            ProviderCapability::Available(CodecCapabilities { decode: true, encode: true })
        } else {
            ProviderCapability::Unknown
        }
    }

    open spec fn chosen_codec(&self, filter: FilterId) -> Result<FilterId, ErrorView> {
        if is_builtin_codec(filter) {
            Ok(filter)
        } else {
            Err(unknown_codec_error(filter))
        }
    }

    open spec fn decoder_refusal(&self, selection: FilterId) -> Option<ErrorView> {
        None
    }

    open spec fn encoder_refusal(&self, selection: FilterId) -> Option<ErrorView> {
        if is_builtin_codec(selection) {
            None
        } else {
            Some(unknown_codec_error(selection))
        }
    }

    fn codec_capability(&self, filter: FilterId) -> (capability: ProviderCapability<
        CodecCapabilities,
    >) {
        match filter {
            FilterId::Gzip
            | FilterId::Bzip2
            | FilterId::Zstd
            | FilterId::Xz
            | FilterId::Lz4 => ProviderCapability::Available(CodecCapabilities::new(true, true)),
            _ => ProviderCapability::Unknown,
        }
    }

    fn select_codec(&self, filter: FilterId) -> (result: Result<FilterId, ArchiveError>) {
        match self.codec_capability(filter) {
            ProviderCapability::Unknown => Err(unknown_codec(filter)),
            _ => Ok(filter),
        }
    }

    fn codec_decoder(&self, selection: FilterId, limits: Limits) -> (result: Result<
        BuiltinCodecDecoder,
        ArchiveError,
    >)
        ensures
            result matches Ok(decoder) && decoder.filter == selection && decoder.limits == limits,
    {
        Ok(BuiltinCodecDecoder { filter: selection, limits })
    }

    fn encode_codec_frame(&self, selection: FilterId, input: &[u8], limits: Limits) -> (result:
        Result<Vec<u8>, ArchiveError>)
        ensures
            selection == FilterId::Gzip ==> exists|end: Result<Seq<u8>, IoFaultView>|
                #[trigger] gzip_ends(input@, limits, end) && match end {
                    Ok(frame) => match result {
                        Ok(own) => frame_error(frame.len(), limits) is None && own@ == frame,
                        Err(error) => frame_error(frame.len(), limits) == Some(error@),
                    },
                    Err(fault) => result is Err && (result->Err_0)@ == codec_io_fault(
                        codec_words(selection),
                        fault,
                    ),
                },
            selection == FilterId::Gzip ==> (result matches Ok(frame) ==> is_member_of(
                frame@,
                input@,
            )),
            !takes_length(selection, input@.len()) ==> result is Err && (result->Err_0)@
                == codec_io_fault(
                codec_words(selection),
                io_fault(IoKind::Other, "text is too long for the encoder"@),
            ),
            is_builtin_codec(selection) && selection != FilterId::Gzip && takes_length(
                selection,
                input@.len(),
            ) ==> exists|big_endian: bool|
                match #[trigger] whole_frame(selection, input@, big_endian) {
                    Some(frame) => match result {
                        Ok(own) => frame_error(frame.len(), limits) is None && own@ == frame,
                        Err(error) => frame_error(frame.len(), limits) == Some(error@),
                    },
                    None => result is Err && (result->Err_0)@.kind == ErrorKind::Protocol && (
                    result->Err_0)@.format == Some(codec_words(selection)),
                },
    {
        let encoded = match selection {
            FilterId::Gzip => encode_gzip_frame(input, limits),
            FilterId::Bzip2 => match encode_bzip2(input) {
                Ok(frame) => Ok(frame),
                Err(message) => Err(message_fault(message)),
            },
            FilterId::Xz if input.len() >= XZ_TEXT_END => {
                let fault = IoFault::new(IoKind::Other, "text is too long for the encoder");
                return finish_frame(selection, Err(fault), limits);
            },
            FilterId::Zstd | FilterId::Xz | FilterId::Lz4 => encode_profile_frame(selection, input),
            _ => {
                return Err(unknown_codec(selection));
            },
        };
        let ghost end = end_view(encoded);
        let result = finish_frame(selection, encoded, limits);
        proof {
            assert(selection == FilterId::Gzip ==> gzip_ends(input@, limits, end));
            let big_endian = choose|big_endian: bool|
                match encoded {
                    Ok(frame) => #[trigger] profile_frame(selection, input@, big_endian) == Some(
                        frame@,
                    ),
                    Err(fault) => profile_frame(selection, input@, big_endian) is None,
                };
            assert(selection != FilterId::Bzip2 ==> whole_frame(selection, input@, big_endian)
                == profile_frame(selection, input@, big_endian));
            assert(selection == FilterId::Bzip2 ==> whole_frame(selection, input@, big_endian)
                == bzip2_frame(input@));
        }
        result
    }
}

impl Default for ProviderSet<BuiltinFormatProviders, BuiltinCodecProviders> {
    fn default() -> (set: Self)
        ensures
            set.formats == BuiltinFormatProviders,
            set.codecs == BuiltinCodecProviders,
    {
        ProviderSet::builtins()
    }
}

impl ProviderSet<BuiltinFormatProviders, BuiltinCodecProviders> {
    /// The providers of the library itself.
    pub fn builtins() -> (set: Self)
        ensures
            set.formats == BuiltinFormatProviders,
            set.codecs == BuiltinCodecProviders,
    {
        ProviderSet { formats: BuiltinFormatProviders, codecs: BuiltinCodecProviders }
    }
}

} // verus!
