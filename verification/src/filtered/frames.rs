//! Frame encoders and the writers that use them.

use vstd::prelude::*;
use crate::bytes::{copy_at, overlay};
use crate::codec::{CodecStatus, EndOfInput};
use crate::error::{plain_fault, ArchiveError, ErrorKind, ErrorView};
use crate::filter::gzip_encoder::{EncodePhase, EncoderModel, GzipEncoder};
use crate::filtered::detect::FilterId;
use crate::filtered::members::BUFFER;
use crate::io_fault::{io_fault, IoFault, IoFaultView, IoKind, IoReason};
use crate::limits::Limits;

verus! {

// ---------------------------------------------------------------------------
// Outside encoders
// ---------------------------------------------------------------------------

/// The Zstandard frame that `ruzstd` makes of a text at its fastest level.
pub uninterp spec fn zstd_frame(plain: Seq<u8>) -> Seq<u8>;

/// The XZ stream that `lzma_rust2` makes of a text at a preset; `None` if it
/// fails.
pub uninterp spec fn xz_frame(plain: Seq<u8>, preset: u32) -> Option<Seq<u8>>;

/// The LZ4 frame that `lz4_flex` makes of a text, with settings for the content
/// size, the size of blocks, and checksums of the blocks and of the content, on a
/// machine with pointers of some bits and a byte order; `None` if it fails. The
/// table that finds matches goes by the pointers and by the byte order.
pub uninterp spec fn lz4_frame(
    plain: Seq<u8>,
    content_size: Option<u64>,
    block_bytes: Option<u32>,
    block_checksums: bool,
    content_checksum: bool,
    pointer_bits: nat,
    big_endian: bool,
) -> Option<Seq<u8>>;

/// The bzip2 stream that `bzip2` makes of a text at its default level; `None`
/// if it fails.
pub uninterp spec fn bzip2_frame(plain: Seq<u8>) -> Option<Seq<u8>>;

/// `ruzstd::encoding::compress_to_vec` at the fastest level. Claimed: the frame
/// depends on the text alone.
#[verifier::external_body]
pub(crate) fn encode_zstd(plain: &[u8]) -> (frame: Vec<u8>)
    ensures
        frame@ == zstd_frame(plain@),
{
    ruzstd::encoding::compress_to_vec(plain, ruzstd::encoding::CompressionLevel::Fastest)
}

/// The length that a text for the XZ encoder stays below.
pub const XZ_TEXT_END: usize = 0x8000_0000;

/// A filter's encoder takes a text of this length.
pub open spec fn takes_length(filter: FilterId, length: nat) -> bool {
    filter == FilterId::Xz ==> length < XZ_TEXT_END
}

/// `lzma_rust2::XzWriter` at a preset, over the whole text. Claimed: whether it
/// fails and the stream depend on the text and the preset alone. Of the message of
/// a failure nothing is said. The length of the text is a positive `i32`, as the
/// encoder takes it to be.
#[verifier::external_body]
pub(crate) fn encode_xz(plain: &[u8], preset: u32) -> (result: Result<Vec<u8>, String>)
    requires
        plain@.len() < XZ_TEXT_END,
    ensures
        result is Ok <==> xz_frame(plain@, preset) is Some,
        result is Ok ==> xz_frame(plain@, preset) == Some(result->Ok_0@),
{
    let options = lzma_rust2::XzOptions::with_preset(preset);
    let mut writer = lzma_rust2::XzWriter::new(Vec::new(), options).map_err(|e| e.to_string())?;
    std::io::Write::write_all(&mut writer, plain).map_err(|e| e.to_string())?;
    writer.finish().map_err(|e| e.to_string())
}

/// The preset of XZ streams.
pub const XZ_PRESET: u32 = 6;

/// How large the blocks of an LZ4 frame are.
#[derive(Clone, Copy, Debug, PartialEq, Eq, Structural)]
pub enum Lz4Blocks {
    /// As the length of the text suggests.
    Auto,
    /// 64 KiB.
    Kib64,
}

/// How an LZ4 frame is made. Its blocks are independent.
#[derive(Clone, Copy, Debug, PartialEq, Eq, Structural)]
pub struct Lz4Settings {
    pub content_size: Option<u64>,
    pub blocks: Lz4Blocks,
    pub block_checksums: bool,
    pub content_checksum: bool,
}

impl Lz4Settings {
    /// Blocks of 64 KiB, checksums, and the size of a content.
    pub open spec fn sized(content_size: u64) -> Lz4Settings {
        Lz4Settings {
            content_size: Some(content_size),
            blocks: Lz4Blocks::Kib64,
            block_checksums: true,
            content_checksum: true,
        }
    }

    /// Nothing but the blocks.
    pub open spec fn bare() -> Lz4Settings {
        Lz4Settings {
            content_size: None,
            blocks: Lz4Blocks::Auto,
            block_checksums: false,
            content_checksum: false,
        }
    }

    /// The size of a block, if it is given.
    pub open spec fn block_bytes(self) -> Option<u32> {
        match self.blocks {
            Lz4Blocks::Auto => None,
            Lz4Blocks::Kib64 => Some(65_536u32),
        }
    }

    /// The frame of a text on a machine with a byte order.
    pub open spec fn frame(self, plain: Seq<u8>, big_endian: bool) -> Option<Seq<u8>> {
        lz4_frame(
            plain,
            self.content_size,
            self.block_bytes(),
            self.block_checksums,
            self.content_checksum,
            usize::BITS as nat,
            big_endian,
        )
    }
}

/// `lz4_flex::frame::FrameEncoder` over the whole text. Claimed: whether it fails
/// and the frame depend on the text, the settings, the width of pointers and the
/// byte order of the machine alone. Which byte order that is, and the message of a
/// failure, are left unsaid.
#[verifier::external_body]
pub(crate) fn encode_lz4(plain: &[u8], settings: Lz4Settings) -> (result: Result<Vec<u8>, String>)
    ensures
        exists|big_endian: bool|
            (match result {
                Ok(frame) => Some(frame@),
                Err(_) => None,
            }) == #[trigger] lz4_frame(
                plain@,
                settings.content_size,
                settings.block_bytes(),
                settings.block_checksums,
                settings.content_checksum,
                usize::BITS as nat,
                big_endian,
            ),
{
    let info = lz4_flex::frame::FrameInfo::new()
        .content_size(settings.content_size)
        .block_size(match settings.blocks {
            Lz4Blocks::Auto => lz4_flex::frame::BlockSize::Auto,
            Lz4Blocks::Kib64 => lz4_flex::frame::BlockSize::Max64KB,
        })
        .block_checksums(settings.block_checksums)
        .content_checksum(settings.content_checksum);
    let mut encoder = lz4_flex::frame::FrameEncoder::with_frame_info(info, Vec::new());
    std::io::Write::write_all(&mut encoder, plain).map_err(|e| e.to_string())?;
    encoder.finish().map_err(|e| e.to_string())
}

proof fn lemma_lz4_made(
    settings: Lz4Settings,
    plain: Seq<u8>,
    result: Result<Vec<u8>, String>,
) -> (big_endian: bool)
    requires
        exists|big_endian: bool|
            (match result {
                Ok(frame) => Some(frame@),
                Err(_) => None,
            }) == #[trigger] lz4_frame(
                plain,
                settings.content_size,
                settings.block_bytes(),
                settings.block_checksums,
                settings.content_checksum,
                usize::BITS as nat,
                big_endian,
            ),
    ensures
        settings.frame(plain, big_endian) == match result {
            Ok(frame) => Some(frame@),
            Err(_) => None,
        },
{
    choose|big_endian: bool|
        (match result {
            Ok(frame) => Some(frame@),
            Err(_) => None,
        }) == #[trigger] lz4_frame(
            plain,
            settings.content_size,
            settings.block_bytes(),
            settings.block_checksums,
            settings.content_checksum,
            usize::BITS as nat,
            big_endian,
        )
}

/// `bzip2::write::BzEncoder` at the default level, over the whole text.
/// Claimed: whether it fails and the stream depend on the text alone. Of the
/// message of a failure nothing is said.
#[verifier::external_body]
pub(crate) fn encode_bzip2(plain: &[u8]) -> (result: Result<Vec<u8>, String>)
    ensures
        result is Ok <==> bzip2_frame(plain@) is Some,
        result is Ok ==> bzip2_frame(plain@) == Some(result->Ok_0@),
{
    let level = bzip2::Compression::default();
    let mut encoder = bzip2::write::BzEncoder::new(Vec::new(), level);
    std::io::Write::write_all(&mut encoder, plain).map_err(|e| e.to_string())?;
    encoder.finish().map_err(|e| e.to_string())
}

/// The frame that a filter makes of a text on a machine with a byte order.
pub open spec fn profile_frame(filter: FilterId, plain: Seq<u8>, big_endian: bool) -> Option<
    Seq<u8>,
> {
    match filter {
        FilterId::Zstd => Some(zstd_frame(plain)),
        FilterId::Xz => xz_frame(plain, XZ_PRESET),
        FilterId::Lz4 => Lz4Settings::sized(plain.len() as u64).frame(plain, big_endian),
        _ => None,
    }
}

/// Whether a filter has a frame encoder.
pub open spec fn has_frames(filter: FilterId) -> bool {
    filter == FilterId::Zstd || filter == FilterId::Xz || filter == FilterId::Lz4
}

fn other_fault(message: String) -> (fault: IoFault)
    ensures
        fault.kind == IoKind::Other,
        fault@ == io_fault(IoKind::Other, message@),
{
    IoFault { kind: IoKind::Other, reason: IoReason::Message(message) }
}

/// Encodes a text as one frame of a filter.
pub fn encode_profile_frame(filter: FilterId, plain: &[u8]) -> (result: Result<Vec<u8>, IoFault>)
    requires
        takes_length(filter, plain@.len()),
    ensures
        exists|big_endian: bool|
            match result {
                Ok(frame) => #[trigger] profile_frame(filter, plain@, big_endian) == Some(frame@),
                Err(fault) => profile_frame(filter, plain@, big_endian) is None,
            },
        result matches Err(fault) ==> if has_frames(filter) {
            fault.kind == IoKind::Other
        } else {
            fault@ == io_fault(
                IoKind::Unsupported,
                "filter has no frame encoder in the selected codec profile"@,
            )
        },
{
    proof {
        assert(filter != FilterId::Lz4 ==> profile_frame(filter, plain@, false) == profile_frame(
            filter,
            plain@,
            true,
        ));
    }
    match filter {
        FilterId::Zstd => Ok(encode_zstd(plain)),
        FilterId::Xz => match encode_xz(plain, XZ_PRESET) {
            Ok(frame) => Ok(frame),
            Err(message) => Err(other_fault(message)),
        },
        FilterId::Lz4 => {
            let settings = Lz4Settings {
                content_size: Some(plain.len() as u64),
                blocks: Lz4Blocks::Kib64,
                block_checksums: true,
                content_checksum: true,
            };
            let encoded = encode_lz4(plain, settings);
            proof {
                let big_endian = lemma_lz4_made(settings, plain@, encoded);
                assert(settings == Lz4Settings::sized(plain@.len() as u64));
                assert(profile_frame(filter, plain@, big_endian) == settings.frame(
                    plain@,
                    big_endian,
                ));
            }
            match encoded {
                Ok(frame) => Ok(frame),
                Err(message) => Err(other_fault(message)),
            }
        },
        _ => Err(
            IoFault::new(
                IoKind::Unsupported,
                "filter has no frame encoder in the selected codec profile",
            ),
        ),
    }
}

// ---------------------------------------------------------------------------
// Frame writer
// ---------------------------------------------------------------------------

/// The texts of several frames, one behind the other.
pub open spec fn joined_texts(frames: Seq<Seq<u8>>) -> Seq<u8>
    decreases frames.len(),
{
    if frames.len() == 0 {
        Seq::empty()
    } else {
        joined_texts(frames.drop_last()) + frames.last()
    }
}

/// Collects a text and cuts it into frames of at most [`BUFFER`] bytes.
pub struct FrameWriter {
    pub filter: FilterId,
    pub input: Vec<u8>,
    pub wrote_frame: bool,
    /// All bytes taken so far.
    pub taken: Ghost<Seq<u8>>,
    /// The texts of the frames written so far.
    pub emitted: Ghost<Seq<Seq<u8>>>,
}

impl FrameWriter {
    /// The frames and what is collected make up what was taken; no frame is
    /// longer than it may be.
    pub open spec fn wf(self) -> bool {
        &&& self.input@.len() <= BUFFER
        &&& joined_texts(self.emitted@) + self.input@ == self.taken@
        &&& self.wrote_frame == (self.emitted@.len() > 0)
        &&& forall|i: int|
            0 <= i < self.emitted@.len() ==> (#[trigger] self.emitted@[i]).len() <= BUFFER
    }

    /// A writer before its first byte.
    pub fn new(filter: FilterId) -> (writer: Self)
        ensures
            writer.wf(),
            writer.filter == filter,
            writer.taken@.len() == 0,
            writer.emitted@.len() == 0,
    {
        let writer = FrameWriter {
            filter,
            input: Vec::new(),
            wrote_frame: false,
            taken: Ghost(Seq::empty()),
            emitted: Ghost(Seq::empty()),
        };
        proof {
            assert(joined_texts(writer.emitted@) + writer.input@ =~= writer.taken@);
        }
        writer
    }

    /// Whether a frame has to be written before more is taken.
    pub fn is_full(&self) -> (full: bool)
        requires
            self.wf(),
        ensures
            full == (self.input@.len() == BUFFER),
    {
        self.input.len() == BUFFER
    }

    /// Whether a flush has to write a frame.
    pub fn must_flush(&self) -> (must: bool)
        ensures
            must == (self.input@.len() > 0),
    {
        self.input.len() > 0
    }

    /// Whether the end has to write a frame: one that is begun, or the only one.
    pub fn must_finish(&self) -> (must: bool)
        requires
            self.wf(),
        ensures
            must == (self.input@.len() > 0 || self.emitted@.len() == 0),
    {
        self.input.len() > 0 || !self.wrote_frame
    }

    /// Encodes what is collected as a frame.
    pub fn frame(&self) -> (result: Result<Vec<u8>, IoFault>)
        requires
            self.wf(),
        ensures
            exists|big_endian: bool|
                match result {
                    Ok(frame) => #[trigger] profile_frame(self.filter, self.input@, big_endian)
                        == Some(frame@),
                    Err(_) => profile_frame(self.filter, self.input@, big_endian) is None,
                },
    {
        encode_profile_frame(self.filter, self.input.as_slice())
    }

    /// Records that the frame was written.
    pub fn emitted(&mut self)
        requires
            old(self).wf(),
        ensures
            final(self).wf(),
            final(self).filter == old(self).filter,
            final(self).input@.len() == 0,
            final(self).taken@ == old(self).taken@,
            final(self).emitted@ == old(self).emitted@.push(old(self).input@),
    {
        let ghost text = self.input@;
        let ghost frames = self.emitted@;
        self.input.clear();
        self.wrote_frame = true;
        self.emitted = Ghost(frames.push(text));
        proof {
            assert(frames.push(text).drop_last() =~= frames);
            assert(joined_texts(self.emitted@) + self.input@ =~= self.taken@);
        }
    }

    /// Takes bytes up to a full frame; returns how many.
    pub fn accept(&mut self, bytes: &[u8]) -> (count: usize)
        requires
            old(self).wf(),
        ensures
            final(self).wf(),
            final(self).filter == old(self).filter,
            final(self).emitted@ == old(self).emitted@,
            count == if bytes@.len() < BUFFER - old(self).input@.len() {
                bytes@.len() as int
            } else {
                BUFFER - old(self).input@.len()
            },
            final(self).input@ == old(self).input@ + bytes@.take(count as int),
            final(self).taken@ == old(self).taken@ + bytes@.take(count as int),
    {
        let room: usize = BUFFER - self.input.len();
        let count: usize = if bytes.len() < room {
            bytes.len()
        } else {
            room
        };
        let ghost before = *self;
        self.input.extend_from_slice(&bytes[0..count]);
        self.taken = Ghost(self.taken@ + bytes@.take(count as int));
        proof {
            assert(bytes@.subrange(0, count as int) =~= bytes@.take(count as int));
            assert(self.input@ =~= before.input@ + bytes@.take(count as int));
            assert(joined_texts(self.emitted@) + self.input@ =~= self.taken@);
        }
        count
    }
}

// ---------------------------------------------------------------------------
// gzip writer
// ---------------------------------------------------------------------------

/// What came of a turn of a gzip writer.
pub struct SinkTurn {
    /// Bytes at the start of the buffer that are to be written.
    pub produced: usize,
    /// The end of the call: bytes taken, or a failure. `None`: go on.
    pub outcome: Option<Result<usize, IoFault>>,
}

/// The outcome of a turn of a write.
pub open spec fn write_outcome(consumed: nat, produced: nat) -> Option<Result<nat, IoFaultView>> {
    if consumed > 0 {
        Some(Ok(consumed))
    } else if produced == 0 {
        Some(Err(io_fault(IoKind::InvalidData, "gzip encoder made no write progress"@)))
    } else {
        None
    }
}

/// The outcome of a turn of the end.
pub open spec fn finish_outcome(done: bool, produced: nat) -> Option<Result<nat, IoFaultView>> {
    if done {
        Some(Ok(0))
    } else if produced == 0 {
        Some(Err(io_fault(IoKind::InvalidData, "gzip encoder made no finish progress"@)))
    } else {
        None
    }
}

/// The content of an outcome.
pub open spec fn outcome_view(outcome: Option<Result<usize, IoFault>>) -> Option<
    Result<nat, IoFaultView>,
> {
    match outcome {
        None => None,
        Some(Ok(count)) => Some(Ok(count as nat)),
        Some(Err(fault)) => Some(Err(fault@)),
    }
}

fn encoder_fault(error: ArchiveError) -> (fault: IoFault)
    ensures
        fault@ == (IoFaultView::Archive { kind: IoKind::InvalidData, error: error@ }),
{
    IoFault { kind: IoKind::InvalidData, reason: IoReason::Archive(error) }
}

/// Writes one gzip member.
pub struct GzipSink {
    pub encoder: GzipEncoder,
}

impl GzipSink {
    /// A writer before its first byte.
    pub fn new(limits: Limits) -> (sink: Self)
        ensures
            sink.encoder.wf(),
            sink.encoder@ == (EncoderModel {
                phase: EncodePhase::Header,
                history: Seq::empty(),
                header_position: 0,
                trailer_position: 0,
                plain: Seq::empty(),
                input_size: 0,
                limits,
            }),
    {
        GzipSink { encoder: GzipEncoder::new(limits) }
    }

    fn turn(&mut self, bytes: &[u8], buffer: &mut [u8], end: EndOfInput, finishing: bool) -> (turn:
        SinkTurn)
        requires
            old(self).encoder.wf(),
        ensures
            final(buffer)@.len() == old(buffer)@.len(),
            match old(self).encoder@.process(bytes@, old(buffer)@.len(), end) {
                Ok(step) => {
                    &&& final(self).encoder.wf()
                    &&& final(self).encoder@ == step.model
                    &&& step.consumed <= bytes@.len()
                    &&& turn.produced == step.written.len() <= final(buffer)@.len()
                    &&& final(buffer)@.take(turn.produced as int) == step.written
                    &&& outcome_view(turn.outcome) == if finishing {
                        finish_outcome(step.status == CodecStatus::Done, step.written.len())
                    } else {
                        write_outcome(step.consumed, step.written.len())
                    }
                },
                Err(error) => turn.produced == 0 && outcome_view(turn.outcome) == Some(
                    Err::<nat, _>(IoFaultView::Archive { kind: IoKind::InvalidData, error }),
                ),
            },
    {
        let step = match self.encoder.process(bytes, buffer, end) {
            Ok(step) => step,
            Err(error) => {
                return SinkTurn { produced: 0, outcome: Some(Err(encoder_fault(error))) };
            },
        };
        let outcome = if finishing {
            if step.status == CodecStatus::Done {
                Some(Ok(0))
            } else if step.produced == 0 {
                Some(
                    Err(
                        IoFault::new(IoKind::InvalidData, "gzip encoder made no finish progress"),
                    ),
                )
            } else {
                None
            }
        } else if step.consumed > 0 {
            Some(Ok(step.consumed))
        } else if step.produced == 0 {
            Some(Err(IoFault::new(IoKind::InvalidData, "gzip encoder made no write progress")))
        } else {
            None
        };
        SinkTurn { produced: step.produced, outcome }
    }

    /// Makes one turn of a write: encodes into `buffer` what is to be written.
    pub fn write(&mut self, bytes: &[u8], buffer: &mut [u8]) -> (turn: SinkTurn)
        requires
            old(self).encoder.wf(),
            bytes@.len() > 0,
        ensures
            final(buffer)@.len() == old(buffer)@.len(),
            match old(self).encoder@.process(bytes@, old(buffer)@.len(), EndOfInput::More) {
                Ok(step) => {
                    &&& final(self).encoder.wf()
                    &&& final(self).encoder@ == step.model
                    &&& step.consumed <= bytes@.len()
                    &&& turn.produced == step.written.len() <= final(buffer)@.len()
                    &&& final(buffer)@.take(turn.produced as int) == step.written
                    &&& outcome_view(turn.outcome) == write_outcome(
                        step.consumed,
                        step.written.len(),
                    )
                },
                Err(error) => turn.produced == 0 && outcome_view(turn.outcome) == Some(
                    Err::<nat, _>(IoFaultView::Archive { kind: IoKind::InvalidData, error }),
                ),
            },
    {
        self.turn(bytes, buffer, EndOfInput::More, false)
    }

    /// Makes one turn of the end.
    pub fn finish(&mut self, buffer: &mut [u8]) -> (turn: SinkTurn)
        requires
            old(self).encoder.wf(),
        ensures
            final(buffer)@.len() == old(buffer)@.len(),
            match old(self).encoder@.process(
                Seq::empty(),
                old(buffer)@.len(),
                EndOfInput::End,
            ) {
                Ok(step) => {
                    &&& final(self).encoder.wf()
                    &&& final(self).encoder@ == step.model
                    &&& step.consumed == 0
                    &&& turn.produced == step.written.len() <= final(buffer)@.len()
                    &&& final(buffer)@.take(turn.produced as int) == step.written
                    &&& outcome_view(turn.outcome) == finish_outcome(
                        step.status == CodecStatus::Done,
                        step.written.len(),
                    )
                },
                Err(error) => turn.produced == 0 && outcome_view(turn.outcome) == Some(
                    Err::<nat, _>(IoFaultView::Archive { kind: IoKind::InvalidData, error }),
                ),
            },
    {
        let nothing: [u8; 0] = [];
        proof {
            assert(nothing@ =~= Seq::<u8>::empty());
        }
        self.turn(&nothing, buffer, EndOfInput::End, true)
    }
}

// ---------------------------------------------------------------------------
// Whole-text bridges
// ---------------------------------------------------------------------------

/// What a bridge says after a step.
#[derive(Clone, Copy, Debug, PartialEq, Eq, Structural)]
pub enum BridgeStatus {
    NeedInput,
    MoreOutput,
    Done,
}

/// One step of a bridge.
#[derive(Clone, Copy, Debug, PartialEq, Eq, Structural)]
pub struct BridgeStep {
    pub consumed: usize,
    pub produced: usize,
    pub status: BridgeStatus,
}

/// Collects a text, lets it be compressed once, and hands out the result.
pub enum PushBridge {
    /// Still taking the text.
    Buffering(Vec<u8>),
    /// Handing out the result.
    Draining { data: Vec<u8>, position: usize },
    /// All of the result has been handed out.
    Done,
}

/// The mathematical content of a [`PushBridge`].
pub enum PushView {
    Buffering(Seq<u8>),
    /// What is left of the result.
    Draining(Seq<u8>),
    Done,
}

impl View for PushBridge {
    type V = PushView;

    open spec fn view(&self) -> PushView {
        match self {
            PushBridge::Buffering(text) => PushView::Buffering(text@),
            PushBridge::Draining { data, position } => PushView::Draining(
                data@.skip(*position as int),
            ),
            PushBridge::Done => PushView::Done,
        }
    }
}

/// The bytes of a result that fit a buffer.
pub open spec fn fitting(data: Seq<u8>, room: nat) -> nat {
    if data.len() < room {
        data.len()
    } else {
        room
    }
}

impl PushBridge {
    /// The position lies within the result.
    pub open spec fn wf(self) -> bool {
        self matches PushBridge::Draining { data, position } ==> position <= data@.len()
    }

    /// A bridge before its first byte.
    pub fn new() -> (bridge: Self)
        ensures
            bridge.wf(),
            bridge@ == PushView::Buffering(Seq::empty()),
    {
        let text: Vec<u8> = Vec::new();
        proof {
            assert(text@ =~= Seq::<u8>::empty());
        }
        PushBridge::Buffering(text)
    }

    /// Takes text; refuses it once the result is being handed out.
    pub fn push(&mut self, input: &[u8]) -> (step: BridgeStep)
        requires
            old(self).wf(),
        ensures
            final(self).wf(),
            match old(self)@ {
                PushView::Buffering(text) => {
                    &&& final(self)@ == PushView::Buffering(text + input@)
                    &&& step == (BridgeStep {
                        consumed: input@.len() as usize,
                        produced: 0,
                        status: BridgeStatus::NeedInput,
                    })
                },
                _ => *final(self) == *old(self) && step == (BridgeStep {
                    consumed: 0,
                    produced: 0,
                    status: BridgeStatus::MoreOutput,
                }),
            },
    {
        match self {
            PushBridge::Buffering(text) => {
                let ghost before = text@;
                text.extend_from_slice(input);
                proof {
                    assert(text@ =~= before + input@);
                }
                BridgeStep {
                    consumed: input.len(),
                    produced: 0,
                    status: BridgeStatus::NeedInput,
                }
            },
            _ => BridgeStep { consumed: 0, produced: 0, status: BridgeStatus::MoreOutput },
        }
    }

    /// The text to compress, if that is still to be done.
    pub fn text(&self) -> (text: Option<&[u8]>)
        ensures
            match self@ {
                PushView::Buffering(bytes) => text is Some && text->Some_0@ == bytes,
                _ => text is None,
            },
    {
        match self {
            PushBridge::Buffering(text) => Some(text.as_slice()),
            _ => None,
        }
    }

    /// Records the outcome of the compression; a failure forgets the text.
    pub fn compressed(&mut self, result: Option<Vec<u8>>)
        requires
            old(self).wf(),
            old(self)@ is Buffering,
        ensures
            final(self).wf(),
            final(self)@ == match result {
                Some(data) => PushView::Draining(data@),
                None => PushView::Buffering(Seq::empty()),
            },
    {
        match result {
            Some(data) => {
                proof {
                    assert(data@.skip(0) =~= data@);
                }
                *self = PushBridge::Draining { data, position: 0 };
            },
            None => {
                *self = PushBridge::new();
            },
        }
    }

    /// Hands out a piece of the result.
    pub fn drain(&mut self, output: &mut [u8]) -> (step: BridgeStep)
        requires
            old(self).wf(),
            !(old(self)@ is Buffering),
        ensures
            final(self).wf(),
            match old(self)@ {
                PushView::Draining(data) => if data.len() == 0 {
                    final(self)@ is Done && final(output)@ == old(output)@ && step == (BridgeStep {
                        consumed: 0,
                        produced: 0,
                        status: BridgeStatus::Done,
                    })
                } else {
                    let count = fitting(data, old(output)@.len());
                    &&& final(self)@ == PushView::Draining(data.skip(count as int))
                    &&& final(output)@ == overlay(old(output)@, 0, data.take(count as int))
                    &&& step == (BridgeStep {
                        consumed: 0,
                        produced: count as usize,
                        status: BridgeStatus::MoreOutput,
                    })
                },
                _ => {
                    &&& final(self)@ is Done
                    &&& final(output)@ == old(output)@
                    &&& step == (BridgeStep {
                        consumed: 0,
                        produced: 0,
                        status: BridgeStatus::Done,
                    })
                },
            },
    {
        let done = BridgeStep { consumed: 0, produced: 0, status: BridgeStatus::Done };
        match self {
            PushBridge::Draining { data, position } => {
                let at: usize = *position;
                let remaining: usize = data.len() - at;
                let ghost left = data@.skip(at as int);
                if remaining == 0 {
                    *self = PushBridge::Done;
                    return done;
                }
                let count: usize = if remaining < output.len() {
                    remaining
                } else {
                    output.len()
                };
                copy_at(output, 0, data.as_slice(), at, count);
                *position = at + count;
                proof {
                    assert(data@.subrange(at as int, at + count) =~= left.take(count as int));
                    assert(data@.skip(at + count) =~= left.skip(count as int));
                }
                BridgeStep { consumed: 0, produced: count, status: BridgeStatus::MoreOutput }
            },
            _ => {
                *self = PushBridge::Done;
                done
            },
        }
    }
}

/// The result of a compression that a bridge hands out, on a machine with a byte
/// order.
pub open spec fn bridge_frame(filter: FilterId, plain: Seq<u8>, big_endian: bool) -> Option<
    Seq<u8>,
> {
    match filter {
        FilterId::Zstd => Some(zstd_frame(plain)),
        FilterId::Xz => xz_frame(plain, XZ_PRESET),
        FilterId::Lz4 => Lz4Settings::bare().frame(plain, big_endian),
        _ => None,
    }
}

/// The error of a text that could not be compressed.
pub open spec fn encode_failure(filter: FilterId) -> ErrorView {
    plain_fault(
        ErrorKind::Malformed,
        match filter {
            FilterId::Xz => "xz: encode failed"@,
            FilterId::Lz4 => "lz4: encode failed"@,
            _ => "no frame encoder"@,
        },
    )
}

/// What a bridge hands out: the text is compressed first, if it was not before.
pub open spec fn hands_out(
    filter: FilterId,
    big_endian: bool,
    before: PushView,
    after: PushView,
    room: Seq<u8>,
    output: Seq<u8>,
    result: Result<BridgeStep, ArchiveError>,
) -> bool {
    let begun = match before {
        PushView::Buffering(text) => match bridge_frame(filter, text, big_endian) {
            Some(data) => Some(PushView::Draining(data)),
            None => None,
        },
        other => Some(other),
    };
    match begun {
        None => {
            &&& result is Err
            &&& result->Err_0@ == encode_failure(filter)
            &&& after == PushView::Buffering(Seq::empty())
            &&& output == room
        },
        Some(PushView::Draining(data)) if data.len() > 0 => {
            let count = fitting(data, room.len());
            &&& after == PushView::Draining(data.skip(count as int))
            &&& output == overlay(room, 0, data.take(count as int))
            &&& result == Ok::<_, ArchiveError>(
                BridgeStep {
                    consumed: 0,
                    produced: count as usize,
                    status: BridgeStatus::MoreOutput,
                },
            )
        },
        _ => {
            &&& after is Done
            &&& output == room
            &&& result == Ok::<_, ArchiveError>(
                BridgeStep { consumed: 0, produced: 0, status: BridgeStatus::Done },
            )
        },
    }
}

/// Compresses a whole text with one of the frame encoders.
pub struct WholeEncoder {
    pub filter: FilterId,
    pub bridge: PushBridge,
}

impl WholeEncoder {
    /// An encoder before its first byte.
    pub fn new(filter: FilterId) -> (encoder: Self)
        ensures
            encoder.bridge.wf(),
            encoder.filter == filter,
            encoder.bridge@ == PushView::Buffering(Seq::empty()),
    {
        WholeEncoder { filter, bridge: PushBridge::new() }
    }

    /// Takes text.
    pub fn step(&mut self, input: &[u8]) -> (step: BridgeStep)
        requires
            old(self).bridge.wf(),
        ensures
            final(self).bridge.wf(),
            final(self).filter == old(self).filter,
            match old(self).bridge@ {
                PushView::Buffering(text) => {
                    &&& final(self).bridge@ == PushView::Buffering(text + input@)
                    &&& step.consumed == input@.len() && step.produced == 0 && step.status
                        == BridgeStatus::NeedInput
                },
                _ => final(self).bridge == old(self).bridge && step == (BridgeStep {
                    consumed: 0,
                    produced: 0,
                    status: BridgeStatus::MoreOutput,
                }),
            },
    {
        let count: usize = input.len();
        let step = self.bridge.push(input);
        proof {
            assert(count == input@.len());
        }
        step
    }

    /// Compresses the text on the first call; hands out pieces of the result.
    pub fn finish(&mut self, output: &mut [u8]) -> (result: Result<BridgeStep, ArchiveError>)
        requires
            old(self).bridge.wf(),
            old(self).bridge@ matches PushView::Buffering(text) ==> takes_length(
                old(self).filter,
                text.len(),
            ),
        ensures
            final(self).bridge.wf(),
            exists|big_endian: bool| #[trigger]
                hands_out(
                    old(self).filter,
                    big_endian,
                    old(self).bridge@,
                    final(self).bridge@,
                    old(output)@,
                    final(output)@,
                    result,
                ),
    {
        let mut compressed: Option<Option<Vec<u8>>> = None;
        let ghost mut big_endian = false;
        if let Some(text) = self.bridge.text() {
            compressed = Some(
                match self.filter {
                    FilterId::Zstd => Some(encode_zstd(text)),
                    FilterId::Xz => match encode_xz(text, XZ_PRESET) {
                        Ok(data) => Some(data),
                        Err(_) => None,
                    },
                    FilterId::Lz4 => {
                        let settings = Lz4Settings {
                            content_size: None,
                            blocks: Lz4Blocks::Auto,
                            block_checksums: false,
                            content_checksum: false,
                        };
                        let encoded = encode_lz4(text, settings);
                        proof {
                            big_endian = lemma_lz4_made(settings, text@, encoded);
                        }
                        match encoded {
                            Ok(data) => Some(data),
                            Err(_) => None,
                        }
                    },
                    _ => None,
                },
            );
        }
        if let Some(result) = compressed {
            let failed = result.is_none();
            self.bridge.compressed(result);
            if failed {
                let context = match self.filter {
                    FilterId::Xz => "xz: encode failed",
                    FilterId::Lz4 => "lz4: encode failed",
                    _ => "no frame encoder",
                };
                let error = ArchiveError::plain(ErrorKind::Malformed, context);
                proof {
                    assert(hands_out(
                        old(self).filter,
                        big_endian,
                        old(self).bridge@,
                        self.bridge@,
                        old(output)@,
                        output@,
                        Err(error),
                    ));
                }
                return Err(error);
            }
        }
        let step = self.bridge.drain(output);
        proof {
            assert(hands_out(
                old(self).filter,
                big_endian,
                old(self).bridge@,
                self.bridge@,
                old(output)@,
                output@,
                Ok(step),
            ));
        }
        Ok(step)
    }
}

/// Collects a compressed text, lets a decoder be made of it, and follows the
/// decoder to its end.
pub enum PullBridge {
    /// Still taking the text.
    Buffering(Vec<u8>),
    /// The decoder is running.
    Decoding,
    /// The decoder reached its end.
    Done,
}

/// The mathematical content of a [`PullBridge`].
pub enum PullView {
    Buffering(Seq<u8>),
    Decoding,
    Done,
}

impl View for PullBridge {
    type V = PullView;

    open spec fn view(&self) -> PullView {
        match self {
            PullBridge::Buffering(text) => PullView::Buffering(text@),
            PullBridge::Decoding => PullView::Decoding,
            PullBridge::Done => PullView::Done,
        }
    }
}

impl PullBridge {
    /// A bridge before its first byte.
    pub fn new() -> (bridge: Self)
        ensures
            bridge@ == PullView::Buffering(Seq::empty()),
    {
        let text: Vec<u8> = Vec::new();
        proof {
            assert(text@ =~= Seq::<u8>::empty());
        }
        PullBridge::Buffering(text)
    }

    /// Takes text; refuses it once the decoder is running.
    pub fn push(&mut self, input: &[u8]) -> (step: BridgeStep)
        ensures
            match old(self)@ {
                PullView::Buffering(text) => {
                    &&& final(self)@ == PullView::Buffering(text + input@)
                    &&& step == (BridgeStep {
                        consumed: input@.len() as usize,
                        produced: 0,
                        status: BridgeStatus::NeedInput,
                    })
                },
                _ => *final(self) == *old(self) && step == (BridgeStep {
                    consumed: 0,
                    produced: 0,
                    status: BridgeStatus::MoreOutput,
                }),
            },
    {
        match self {
            PullBridge::Buffering(text) => {
                let ghost before = text@;
                text.extend_from_slice(input);
                proof {
                    assert(text@ =~= before + input@);
                }
                BridgeStep {
                    consumed: input.len(),
                    produced: 0,
                    status: BridgeStatus::NeedInput,
                }
            },
            _ => BridgeStep { consumed: 0, produced: 0, status: BridgeStatus::MoreOutput },
        }
    }

    /// Hands the text to the decoder that is to be made; `None` if there is one
    /// already.
    pub fn take_text(&mut self) -> (text: Option<Vec<u8>>)
        ensures
            match old(self)@ {
                PullView::Buffering(bytes) => text is Some && text->Some_0@ == bytes
                    && final(self)@ == PullView::Buffering(Seq::empty()),
                _ => text is None && *final(self) == *old(self),
            },
    {
        match self {
            PullBridge::Buffering(text) => {
                let mut taken: Vec<u8> = Vec::new();
                std::mem::swap(&mut taken, text);
                proof {
                    assert(text@ =~= Seq::<u8>::empty());
                }
                Some(taken)
            },
            _ => None,
        }
    }

    /// Records that the decoder was made.
    pub fn decoding(&mut self)
        ensures
            final(self)@ is Decoding,
    {
        *self = PullBridge::Decoding;
    }

    /// Whether the decoder is to be read.
    pub fn is_decoding(&self) -> (decoding: bool)
        ensures
            decoding == (self@ is Decoding),
    {
        match self {
            PullBridge::Decoding => true,
            _ => false,
        }
    }

    /// Records that a read of the decoder gave `count` bytes.
    pub fn after_read(&mut self, count: usize) -> (step: BridgeStep)
        requires
            old(self)@ is Decoding,
        ensures
            final(self)@ == if count == 0 {
                PullView::Done
            } else {
                PullView::Decoding
            },
            step == (BridgeStep {
                consumed: 0,
                produced: count,
                status: if count == 0 {
                    BridgeStatus::Done
                } else {
                    BridgeStatus::MoreOutput
                },
            }),
    {
        if count == 0 {
            *self = PullBridge::Done;
            BridgeStep { consumed: 0, produced: 0, status: BridgeStatus::Done }
        } else {
            BridgeStep { consumed: 0, produced: count, status: BridgeStatus::MoreOutput }
        }
    }
}

} // verus!
