//! gzip decoding: RFC 1952 framing over raw DEFLATE.

use vstd::prelude::*;
use crate::bytes::{le32, le_u16, le_u32};
use crate::codec::{CodecStatus, CodecStep, EndOfInput};
use crate::error::{fault, ArchiveError, ErrorKind, ErrorView};
use crate::filter::crc::{crc32_of, Crc32};
use crate::filter::deflate::{inflate_result, CoderOutcome, CoderStatus, Inflater};
use crate::limits::Limits;

verus! {

/// Length of the gzip trailer: the checksum and the length of the plain bytes.
pub const TRAILER_LEN: usize = 8;

/// An error about gzip.
pub open spec fn gzip_fault(kind: ErrorKind, context: Seq<char>) -> ErrorView {
    fault(kind, "gzip", context)
}

pub(crate) fn gzip_error(kind: ErrorKind, context: &str) -> (error: ArchiveError)
    ensures
        error@ == gzip_fault(kind, context@),
{
    ArchiveError::of_format(kind, "gzip", context)
}

// ---------------------------------------------------------------------------
// The header
// ---------------------------------------------------------------------------

/// The offset behind the first zero byte from `start` on.
pub open spec fn nul_end(bytes: Seq<u8>, start: int) -> Option<int>
    decreases bytes.len() - start,
{
    if start >= bytes.len() {
        None
    } else if bytes[start] == 0 {
        Some(start + 1)
    } else {
        nul_end(bytes, start + 1)
    }
}

/// Skips a zero-terminated string that starts at `start`.
pub fn nul_terminated(bytes: &[u8], start: usize) -> (end: Option<usize>)
    ensures
        match end {
            Some(end) => nul_end(bytes@, start as int) == Some(end as int) && start < end
                <= bytes@.len(),
            None => nul_end(bytes@, start as int) is None,
        },
{
    let mut at: usize = start;
    while at < bytes.len()
        invariant
            start <= at,
            nul_end(bytes@, at as int) == nul_end(bytes@, start as int),
        decreases bytes@.len() - at,
    {
        if bytes[at] == 0 {
            return Some(at + 1);
        }
        at += 1;
    }
    None
}

/// Whether bit `1 << bit` of the header flags is set, by its weight.
pub open spec fn flag(flags: u8, weight: int) -> bool {
    (flags as int / weight) % 2 == 1
}

/// The offset behind the optional text of a header field.
pub open spec fn text_end(bytes: Seq<u8>, at: int, present: bool) -> Option<int> {
    if present {
        nul_end(bytes, at)
    } else {
        Some(at)
    }
}

/// The offset behind the optional extra field.
pub open spec fn extra_end(bytes: Seq<u8>) -> Option<int> {
    if flag(bytes[3], 4) {
        if bytes.len() < 12 {
            None
        } else {
            Some(12 + crate::bytes::le16(bytes, 10) as int)
        }
    } else {
        Some(10)
    }
}

/// The length of the gzip header that `bytes` begin with: ten fixed bytes, then
/// the extra field, the name, the comment and the header checksum, as far as the
/// flags announce them. `None` while the header is incomplete.
pub open spec fn header_len(bytes: Seq<u8>) -> Result<Option<nat>, ErrorView> {
    if bytes.len() < 10 {
        Ok(None)
    } else if bytes[0] != 0x1f || bytes[1] != 0x8b {
        Err(gzip_fault(ErrorKind::Malformed, "bad magic"@))
    } else if bytes[2] != 8 {
        Err(gzip_fault(ErrorKind::Unsupported, "non-deflate compression method"@))
    } else {
        match extra_end(bytes) {
            None => Ok(None),
            Some(name) => match text_end(bytes, name, flag(bytes[3], 8)) {
                None => Ok(None),
                Some(comment) => match text_end(bytes, comment, flag(bytes[3], 16)) {
                    None => Ok(None),
                    Some(check) => {
                        let end = if flag(bytes[3], 2) {
                            check + 2
                        } else {
                            check
                        };
                        if bytes.len() < end {
                            Ok(None)
                        } else {
                            Ok(Some(end as nat))
                        }
                    },
                },
            },
        }
    }
}

/// Finds the length of a gzip header.
pub fn gzip_header_len(bytes: &[u8]) -> (result: Result<Option<usize>, ArchiveError>)
    ensures
        match result {
            Ok(Some(length)) => header_len(bytes@) == Ok::<_, ErrorView>(Some(length as nat))
                && 10 <= length <= bytes@.len(),
            Ok(None) => header_len(bytes@) == Ok::<_, ErrorView>(None::<nat>),
            Err(error) => header_len(bytes@) == Err::<Option<nat>, _>(error@),
        },
{
    if bytes.len() < 10 {
        return Ok(None);
    }
    if bytes[0] != 0x1f || bytes[1] != 0x8b {
        return Err(gzip_error(ErrorKind::Malformed, "bad magic"));
    }
    if bytes[2] != 8 {
        return Err(gzip_error(ErrorKind::Unsupported, "non-deflate compression method"));
    }
    let flags: u8 = bytes[3];
    let mut pos: usize = 10;
    if (flags / 4) % 2 == 1 {
        if bytes.len() < 12 {
            return Ok(None);
        }
        pos = 12 + le_u16(bytes, 10) as usize;
    }
    if (flags / 8) % 2 == 1 {
        match nul_terminated(bytes, pos) {
            Some(next) => {
                pos = next;
            },
            None => {
                return Ok(None);
            },
        }
    }
    if (flags / 16) % 2 == 1 {
        match nul_terminated(bytes, pos) {
            Some(next) => {
                pos = next;
            },
            None => {
                return Ok(None);
            },
        }
    }
    if pos > bytes.len() {
        return Ok(None);
    }
    if (flags / 2) % 2 == 1 {
        if bytes.len() - pos < 2 {
            return Ok(None);
        }
        pos = pos + 2;
    }
    Ok(Some(pos))
}

proof fn lemma_nul_end_extends(bytes: Seq<u8>, more: Seq<u8>, start: int)
    requires
        0 <= start,
    ensures
        nul_end(bytes, start) matches Some(end) ==> nul_end(bytes + more, start) == Some(end)
            && start < end <= bytes.len(),
    decreases bytes.len() - start,
{
    if start < bytes.len() && bytes[start] != 0 {
        lemma_nul_end_extends(bytes, more, start + 1);
    }
}

/// A header that is complete stays the same header whatever follows it, and a
/// header that is refused stays refused.
pub proof fn law_header_ignores_what_follows(bytes: Seq<u8>, more: Seq<u8>)
    ensures
        header_len(bytes) matches Ok(Some(length)) ==> header_len(bytes + more) == Ok::<
            _,
            ErrorView,
        >(Some(length)) && length <= bytes.len(),
        header_len(bytes) matches Err(error) ==> header_len(bytes + more) == Err::<Option<nat>, _>(
            error,
        ),
{
    let all = bytes + more;
    if bytes.len() >= 10 {
        match extra_end(bytes) {
            Some(name) => {
                lemma_nul_end_extends(bytes, more, name);
                match text_end(bytes, name, flag(bytes[3], 8)) {
                    Some(comment) => {
                        lemma_nul_end_extends(bytes, more, comment);
                    },
                    None => {},
                }
            },
            None => {},
        }
    }
}

proof fn lemma_nul_end_within(bytes: Seq<u8>, more: Seq<u8>, start: int)
    requires
        0 <= start,
    ensures
        nul_end(bytes + more, start) matches Some(end) ==> start < end && (end <= bytes.len()
            ==> nul_end(bytes, start) == Some(end)),
    decreases bytes.len() + more.len() - start,
{
    let all = bytes + more;
    if start < all.len() && all[start] != 0 {
        lemma_nul_end_within(bytes, more, start + 1);
    }
}

/// A header that lies within the first piece is found in the first piece.
proof fn lemma_header_within(bytes: Seq<u8>, more: Seq<u8>)
    ensures
        header_len(bytes + more) matches Ok(Some(length)) ==> (length <= bytes.len() ==> header_len(
            bytes,
        ) == Ok::<_, ErrorView>(Some(length))),
{
    let all = bytes + more;
    match header_len(all) {
        Ok(Some(length)) => {
            let name = extra_end(all)->0;
            lemma_nul_end_within(bytes, more, name);
            let comment = text_end(all, name, flag(all[3], 8))->0;
            lemma_nul_end_within(bytes, more, comment);
        },
        _ => {},
    }
}

/// Adds to a 32-bit length, wrapping around.
pub(crate) fn wrapping_length(size: u32, count: usize) -> (sum: u32)
    ensures
        sum == add_length(size, count as nat),
{
    let added: u32 = if count as u64 > u32::MAX as u64 {
        u32::MAX
    } else {
        count as u32
    };
    let sum: u64 = size as u64 + added as u64;
    (sum % 0x1_0000_0000) as u32
}

// ---------------------------------------------------------------------------
// The decoder
// ---------------------------------------------------------------------------

/// Which part of a member comes next.
#[derive(Clone, Copy, Debug, PartialEq, Eq, Structural)]
pub enum Phase {
    Header,
    Body,
    Trailer,
    Done,
}

/// The mathematical content of a [`GzipDecoder`].
#[verifier::ext_equal]
pub struct GzipModel {
    pub phase: Phase,
    /// The calls that the DEFLATE decoder has seen.
    pub history: Seq<(Seq<u8>, nat, bool)>,
    /// The trailer bytes read so far.
    pub trailer: Seq<u8>,
    /// All bytes decoded so far.
    pub decoded: Seq<u8>,
    /// The length of the decoded bytes as the trailer counts it.
    pub output_size: u32,
    /// The bytes of an incomplete header.
    pub header: Seq<u8>,
    pub limits: Limits,
}

/// A 32-bit length after `count` more bytes.
pub open spec fn add_length(size: u32, count: nat) -> u32 {
    let added = if count > u32::MAX {
        u32::MAX as nat
    } else {
        count
    };
    ((size + added) % 0x1_0000_0000) as u32
}

impl GzipModel {
    /// The decoder with more decoded bytes, or the refusal of them.
    pub open spec fn account(self, bytes: Seq<u8>) -> Result<GzipModel, ErrorView> {
        if bytes.len() == 0 {
            Ok(self)
        } else if self.decoded.len() + bytes.len() > u64::MAX {
            Err(gzip_fault(ErrorKind::Limit, "decoded byte count overflow"@))
        } else if self.limits.decoded_total matches Some(maximum) && self.decoded.len()
            + bytes.len() > maximum {
            Err(gzip_fault(ErrorKind::Limit, "decoded stream exceeds configured limit"@))
        } else {
            Ok(
                GzipModel {
                    decoded: self.decoded + bytes,
                    output_size: add_length(self.output_size, bytes.len()),
                    ..self
                },
            )
        }
    }

    /// The refusal, if any, of a complete trailer.
    pub open spec fn trailer_fault(self) -> Option<ErrorView> {
        if crc32_of(self.decoded) != le32(self.trailer, 0) {
            Some(gzip_fault(ErrorKind::Malformed, "CRC32 mismatch"@))
        } else if self.output_size != le32(self.trailer, 4) {
            Some(gzip_fault(ErrorKind::Malformed, "ISIZE mismatch"@))
        } else {
            None
        }
    }
}

/// One step of the decoder.
#[verifier::ext_equal]
pub struct GzipMove {
    pub model: GzipModel,
    pub consumed: nat,
    pub written: Seq<u8>,
    pub status: CodecStatus,
}

impl GzipModel {
    pub open spec fn turn(self, consumed: nat, status: CodecStatus) -> GzipMove {
        GzipMove { model: self, consumed, written: Seq::empty(), status }
    }

    /// The step over header bytes.
    pub open spec fn header_step(self, input: Seq<u8>) -> Result<GzipMove, ErrorView> {
        let all = self.header + input;
        let over = self.limits.metadata_bytes matches Some(maximum) && all.len() > maximum;
        let refused = gzip_fault(ErrorKind::Limit, "gzip header exceeds metadata limit"@);
        if self.header.len() > 0 && all.len() > usize::MAX {
            Err(gzip_fault(ErrorKind::Limit, "gzip header length overflow"@))
        } else if self.header.len() > 0 && over {
            Err(refused)
        } else {
            match header_len(all) {
                Err(error) => Err(error),
                Ok(Some(length)) => Ok(
                    GzipModel { phase: Phase::Body, header: Seq::empty(), ..self }.turn(
                        (length - self.header.len()) as nat,
                        CodecStatus::NeedOutput,
                    ),
                ),
                Ok(None) => if over {
                    Err(refused)
                } else {
                    Ok(
                        GzipModel { header: all, ..self }.turn(
                            input.len(),
                            CodecStatus::NeedInput,
                        ),
                    )
                },
            }
        }
    }

    /// The step over body bytes, given what the DEFLATE decoder made of them.
    pub open spec fn body_step(self, result: (nat, Seq<u8>, CoderStatus), room: nat) -> Result<
        GzipMove,
        ErrorView,
    > {
        let (consumed, written, status) = result;
        if status is Starved || status is Broken {
            Err(gzip_fault(ErrorKind::Malformed, "inflate error"@))
        } else {
            match self.account(written) {
                Err(error) => Err(error),
                Ok(next) => Ok(
                    GzipMove {
                        model: GzipModel {
                            phase: if status is End {
                                Phase::Trailer
                            } else {
                                Phase::Body
                            },
                            ..next
                        },
                        consumed,
                        written,
                        status: if status is End || written.len() == room {
                            CodecStatus::NeedOutput
                        } else {
                            CodecStatus::NeedInput
                        },
                    },
                ),
            }
        }
    }

    /// The decoder after one more DEFLATE call.
    pub open spec fn called(self, input: Seq<u8>, room: nat, finish: bool) -> GzipModel {
        GzipModel { history: self.history.push((input, room, finish)), ..self }
    }

    /// The step over trailer bytes.
    pub open spec fn trailer_step(self, input: Seq<u8>) -> Result<GzipMove, ErrorView> {
        let missing = (TRAILER_LEN - self.trailer.len()) as nat;
        let take = if input.len() < missing {
            input.len()
        } else {
            missing
        };
        let next = GzipModel { trailer: self.trailer + input.take(take as int), ..self };
        if next.trailer.len() < TRAILER_LEN {
            Ok(next.turn(take, CodecStatus::NeedInput))
        } else {
            match next.trailer_fault() {
                Some(error) => Err(error),
                None => Ok(
                    GzipModel { phase: Phase::Done, ..next }.turn(take, CodecStatus::Done),
                ),
            }
        }
    }

    /// One step.
    pub open spec fn step(self, input: Seq<u8>, room: nat) -> Result<GzipMove, ErrorView> {
        match self.phase {
            Phase::Header => self.header_step(input),
            Phase::Body => if input.len() == 0 {
                Ok(self.turn(0, CodecStatus::NeedInput))
            } else {
                self.called(input, room, false).body_step(
                    inflate_result(self.history, input, room, false),
                    room,
                )
            },
            Phase::Trailer => self.trailer_step(input),
            Phase::Done => Ok(self.turn(0, CodecStatus::Done)),
        }
    }

    /// The end of the body, given what the DEFLATE decoder had left.
    pub open spec fn body_end(self, result: (nat, Seq<u8>, CoderStatus)) -> Result<
        GzipMove,
        ErrorView,
    > {
        let (_, written, status) = result;
        if status is Starved || status is Broken {
            Err(gzip_fault(ErrorKind::Malformed, "inflate error"@))
        } else {
            match self.account(written) {
                Err(error) => Err(error),
                Ok(next) => if status is More && written.len() == 0 {
                    Err(gzip_fault(ErrorKind::Malformed, "truncated deflate stream"@))
                } else {
                    Ok(
                        GzipMove {
                            model: GzipModel {
                                phase: if status is End {
                                    Phase::Trailer
                                } else {
                                    Phase::Body
                                },
                                ..next
                            },
                            consumed: 0,
                            written,
                            status: CodecStatus::NeedOutput,
                        },
                    )
                },
            }
        }
    }

    /// The end of the input.
    pub open spec fn finish(self, room: nat) -> Result<GzipMove, ErrorView> {
        match self.phase {
            Phase::Body => self.called(Seq::empty(), room, true).body_end(
                inflate_result(self.history, Seq::empty(), room, true),
            ),
            Phase::Header => Err(gzip_fault(ErrorKind::Malformed, "truncated header"@)),
            Phase::Trailer => Err(gzip_fault(ErrorKind::Malformed, "truncated trailer"@)),
            Phase::Done => Ok(self.turn(0, CodecStatus::Done)),
        }
    }

    /// One call: a step, and the end of the input once all of it is taken and
    /// nothing came out.
    pub open spec fn process(self, input: Seq<u8>, room: nat, end: EndOfInput) -> Result<
        GzipMove,
        ErrorView,
    > {
        match self.step(input, room) {
            Err(error) => Err(error),
            Ok(first) => if !(first.status is Done) && end is End && first.consumed == input.len()
                && first.written.len() == 0 {
                match first.model.finish(room) {
                    Err(error) => Err(error),
                    Ok(last) => Ok(GzipMove { consumed: first.consumed, ..last }),
                }
            } else {
                Ok(first)
            },
        }
    }
}

/// gzip decompressor for one member.
pub struct GzipDecoder {
    pub phase: Phase,
    pub inflater: Inflater,
    pub trailer: [u8; 8],
    pub trailer_len: usize,
    pub crc: Crc32,
    pub output_size: u32,
    pub decoded_total: u64,
    pub limits: Limits,
    pub header_buf: Vec<u8>,
    pub decoded: Ghost<Seq<u8>>,
}

impl View for GzipDecoder {
    type V = GzipModel;

    open spec fn view(&self) -> GzipModel {
        GzipModel {
            phase: self.phase,
            history: self.inflater.history(),
            trailer: self.trailer@.take(self.trailer_len as int),
            decoded: self.decoded@,
            output_size: self.output_size,
            header: self.header_buf@,
            limits: self.limits,
        }
    }
}

/// The result of a step in the form of its contract.
pub open spec fn step_matches(
    result: Result<CodecStep, ArchiveError>,
    model: GzipModel,
    output: Seq<u8>,
    expected: Result<GzipMove, ErrorView>,
) -> bool {
    match result {
        Ok(step) => step.produced <= output.len() && expected == Ok::<_, ErrorView>(
            GzipMove {
                model,
                consumed: step.consumed as nat,
                written: output.take(step.produced as int),
                status: step.status,
            },
        ),
        Err(error) => expected == Err::<GzipMove, _>(error@),
    }
}

impl GzipDecoder {
    /// The counters agree with the bytes decoded.
    pub open spec fn wf(self) -> bool {
        &&& self.trailer_len <= TRAILER_LEN
        &&& self.phase is Trailer ==> self.trailer_len < TRAILER_LEN
        &&& self.phase is Header || self.phase is Body ==> self.trailer_len == 0
        &&& self.phase is Header ==> header_len(self.header_buf@) == Ok::<_, ErrorView>(
            None::<nat>,
        )
        &&& self.crc.covers(self.decoded@)
        &&& self.decoded_total == self.decoded@.len()
    }

    /// A decoder before its first byte.
    pub fn new(limits: Limits) -> (decoder: Self)
        ensures
            decoder.wf(),
            decoder@ == (GzipModel {
                phase: Phase::Header,
                history: Seq::empty(),
                trailer: Seq::empty(),
                decoded: Seq::empty(),
                output_size: 0,
                header: Seq::empty(),
                limits,
            }),
    {
        let decoder = GzipDecoder {
            phase: Phase::Header,
            inflater: Inflater::new(),
            trailer: [0; 8],
            trailer_len: 0,
            crc: Crc32::new(),
            output_size: 0,
            decoded_total: 0,
            limits,
            header_buf: Vec::new(),
            decoded: Ghost(Seq::empty()),
        };
        proof {
            assert(decoder@.trailer =~= Seq::<u8>::empty());
            assert(decoder@.history =~= Seq::empty());
        }
        decoder
    }

    fn verify_trailer(&self) -> (result: Result<(), ArchiveError>)
        requires
            self.crc.covers(self.decoded@),
            self.trailer_len == TRAILER_LEN,
        ensures
            match result {
                Ok(()) => self@.trailer_fault() is None,
                Err(error) => self@.trailer_fault() == Some(error@),
            },
    {
        proof {
            assert(self@.trailer =~= self.trailer@);
        }
        if self.crc.finalize() != le_u32(self.trailer.as_slice(), 0) {
            return Err(gzip_error(ErrorKind::Malformed, "CRC32 mismatch"));
        }
        if self.output_size != le_u32(self.trailer.as_slice(), 4) {
            return Err(gzip_error(ErrorKind::Malformed, "ISIZE mismatch"));
        }
        Ok(())
    }

    fn account_output(&mut self, output: &[u8], count: usize) -> (result: Result<(), ArchiveError>)
        requires
            old(self).wf(),
            count <= output@.len(),
        ensures
            match result {
                Ok(()) => old(self)@.account(output@.take(count as int)) == Ok::<_, ErrorView>(
                    final(self)@,
                ) && final(self).wf(),
                Err(error) => old(self)@.account(output@.take(count as int)) == Err::<
                    GzipModel,
                    _,
                >(error@),
            },
    {
        if count == 0 {
            return Ok(());
        }
        let next: u64 = match self.decoded_total.checked_add(count as u64) {
            Some(next) => next,
            None => {
                return Err(gzip_error(ErrorKind::Limit, "decoded byte count overflow"));
            },
        };
        if let Some(maximum) = self.limits.decoded_total {
            if next > maximum {
                return Err(
                    gzip_error(ErrorKind::Limit, "decoded stream exceeds configured limit"),
                );
            }
        }
        proof {
            assert(output@.subrange(0, count as int) =~= output@.take(count as int));
        }
        self.crc.update(&output[0..count]);
        self.output_size = wrapping_length(self.output_size, count);
        self.decoded_total = next;
        self.decoded = Ghost(self.decoded@ + output@.take(count as int));
        Ok(())
    }

    fn step_header(&mut self, input: &[u8]) -> (result: Result<CodecStep, ArchiveError>)
        requires
            old(self).wf(),
            old(self).phase is Header,
        ensures
            match result {
                Ok(step) => old(self)@.header_step(input@) == Ok::<_, ErrorView>(
                    final(self)@.turn(step.consumed as nat, step.status),
                ) && step.produced == 0 && step.consumed <= input@.len() && final(self).wf()
                    && !(step.status is Done),
                Err(error) => old(self)@.header_step(input@) == Err::<GzipMove, _>(error@),
            },
    {
        let prev: usize = self.header_buf.len();
        let complete = if prev == 0 {
            proof {
                assert(self.header_buf@ + input@ =~= input@);
            }
            gzip_header_len(input)?
        } else {
            let next: usize = match prev.checked_add(input.len()) {
                Some(next) => next,
                None => {
                    return Err(gzip_error(ErrorKind::Limit, "gzip header length overflow"));
                },
            };
            if let Some(maximum) = self.limits.metadata_bytes {
                if next > maximum {
                    return Err(
                        gzip_error(ErrorKind::Limit, "gzip header exceeds metadata limit"),
                    );
                }
            }
            self.header_buf.extend_from_slice(input);
            proof {
                assert(self.header_buf@ =~= old(self).header_buf@ + input@);
            }
            gzip_header_len(self.header_buf.as_slice())?
        };
        match complete {
            Some(length) => {
                proof {
                    lemma_header_within(old(self).header_buf@, input@);
                }
                self.header_buf = Vec::new();
                self.phase = Phase::Body;
                Ok(CodecStep { consumed: length - prev, produced: 0, status: CodecStatus::NeedOutput })
            },
            None => {
                if prev == 0 {
                    if let Some(maximum) = self.limits.metadata_bytes {
                        if input.len() > maximum {
                            return Err(
                                gzip_error(ErrorKind::Limit, "gzip header exceeds metadata limit"),
                            );
                        }
                    }
                    self.header_buf.extend_from_slice(input);
                    proof {
                        assert(self.header_buf@ =~= old(self).header_buf@ + input@);
                    }
                }
                Ok(
                    CodecStep {
                        consumed: input.len(),
                        produced: 0,
                        status: CodecStatus::NeedInput,
                    },
                )
            },
        }
    }

    /// Goes on from what the DEFLATE decoder made of body bytes.
    pub fn apply_body(&mut self, outcome: CoderOutcome, output: &[u8]) -> (result: Result<
        CodecStep,
        ArchiveError,
    >)
        requires
            old(self).wf(),
            old(self).phase is Body,
            outcome.written <= output@.len(),
        ensures
            step_matches(
                result,
                final(self)@,
                output@,
                old(self)@.body_step(
                    (
                        outcome.consumed as nat,
                        output@.take(outcome.written as int),
                        outcome.status,
                    ),
                    output@.len(),
                ),
            ),
            result is Ok ==> final(self).wf() && !(result->Ok_0.status is Done),
            result is Ok ==> result->Ok_0.consumed == outcome.consumed,
    {
        if outcome.status == CoderStatus::Starved || outcome.status == CoderStatus::Broken {
            return Err(gzip_error(ErrorKind::Malformed, "inflate error"));
        }
        self.account_output(output, outcome.written)?;
        let status = if outcome.status == CoderStatus::End || outcome.written == output.len() {
            CodecStatus::NeedOutput
        } else {
            CodecStatus::NeedInput
        };
        if outcome.status == CoderStatus::End {
            self.phase = Phase::Trailer;
        }
        Ok(CodecStep { consumed: outcome.consumed, produced: outcome.written, status })
    }

    fn step_trailer(&mut self, input: &[u8]) -> (result: Result<CodecStep, ArchiveError>)
        requires
            old(self).wf(),
            old(self).phase is Trailer,
        ensures
            match result {
                Ok(step) => old(self)@.trailer_step(input@) == Ok::<_, ErrorView>(
                    final(self)@.turn(step.consumed as nat, step.status),
                ) && step.produced == 0 && step.consumed <= input@.len() && final(self).wf(),
                Err(error) => old(self)@.trailer_step(input@) == Err::<GzipMove, _>(error@),
            },
    {
        let missing: usize = TRAILER_LEN - self.trailer_len;
        let take: usize = if input.len() < missing {
            input.len()
        } else {
            missing
        };
        let start: usize = self.trailer_len;
        let mut i: usize = 0;
        while i < take
            invariant
                i <= take,
                take <= input@.len(),
                start + take <= 8,
                self.trailer@.len() == 8,
                forall|j: int| 0 <= j < start ==> self.trailer@[j] == old(self).trailer@[j],
                forall|j: int| 0 <= j < i ==> self.trailer@[start + j] == input@[j],
                *self == (GzipDecoder { trailer: self.trailer, ..*old(self) }),
            decreases take - i,
        {
            self.trailer[start + i] = input[i];
            i += 1;
        }
        self.trailer_len = start + take;
        proof {
            assert(self@.trailer =~= old(self)@.trailer + input@.take(take as int));
        }
        if self.trailer_len == TRAILER_LEN {
            self.verify_trailer()?;
            self.phase = Phase::Done;
            return Ok(CodecStep { consumed: take, produced: 0, status: CodecStatus::Done });
        }
        Ok(CodecStep { consumed: take, produced: 0, status: CodecStatus::NeedInput })
    }

    /// Takes one step.
    fn step(&mut self, input: &[u8], output: &mut [u8]) -> (result: Result<CodecStep, ArchiveError>)
        requires
            old(self).wf(),
        ensures
            step_matches(
                result,
                final(self)@,
                final(output)@,
                old(self)@.step(input@, old(output)@.len()),
            ),
            final(output)@.len() == old(output)@.len(),
            result is Ok ==> final(self).wf() && result->Ok_0.consumed <= input@.len(),
    {
        proof {
            assert(output@.take(0) =~= Seq::<u8>::empty());
        }
        match self.phase {
            Phase::Header => self.step_header(input),
            Phase::Body => {
                if input.len() == 0 {
                    return Ok(
                        CodecStep { consumed: 0, produced: 0, status: CodecStatus::NeedInput },
                    );
                }
                let outcome = self.inflater.run(input, output, false);
                self.apply_body(outcome, output)
            },
            Phase::Trailer => self.step_trailer(input),
            Phase::Done => Ok(
                CodecStep { consumed: 0, produced: 0, status: CodecStatus::Done },
            ),
        }
    }

    /// Goes on from what the DEFLATE decoder had left at the end of the input.
    pub fn apply_body_end(&mut self, outcome: CoderOutcome, output: &[u8]) -> (result: Result<
        CodecStep,
        ArchiveError,
    >)
        requires
            old(self).wf(),
            old(self).phase is Body,
            outcome.written <= output@.len(),
        ensures
            step_matches(
                result,
                final(self)@,
                output@,
                old(self)@.body_end(
                    (
                        outcome.consumed as nat,
                        output@.take(outcome.written as int),
                        outcome.status,
                    ),
                ),
            ),
            result is Ok ==> final(self).wf(),
    {
        if outcome.status == CoderStatus::Starved || outcome.status == CoderStatus::Broken {
            return Err(gzip_error(ErrorKind::Malformed, "inflate error"));
        }
        self.account_output(output, outcome.written)?;
        if outcome.status == CoderStatus::End {
            self.phase = Phase::Trailer;
        } else if outcome.written == 0 {
            return Err(gzip_error(ErrorKind::Malformed, "truncated deflate stream"));
        }
        Ok(
            CodecStep {
                consumed: 0,
                produced: outcome.written,
                status: CodecStatus::NeedOutput,
            },
        )
    }

    fn finish(&mut self, output: &mut [u8]) -> (result: Result<CodecStep, ArchiveError>)
        requires
            old(self).wf(),
        ensures
            step_matches(
                result,
                final(self)@,
                final(output)@,
                old(self)@.finish(old(output)@.len()),
            ),
            final(output)@.len() == old(output)@.len(),
            result is Ok ==> final(self).wf(),
    {
        proof {
            assert(output@.take(0) =~= Seq::<u8>::empty());
        }
        match self.phase {
            Phase::Body => {
                let empty: [u8; 0] = [];
                proof {
                    assert(empty@ =~= Seq::<u8>::empty());
                }
                let outcome = self.inflater.run(&empty, output, true);
                self.apply_body_end(outcome, output)
            },
            Phase::Header => Err(gzip_error(ErrorKind::Malformed, "truncated header")),
            Phase::Trailer => Err(gzip_error(ErrorKind::Malformed, "truncated trailer")),
            Phase::Done => Ok(
                CodecStep { consumed: 0, produced: 0, status: CodecStatus::Done },
            ),
        }
    }

    /// Decodes from `input` to `output`.
    pub fn process(&mut self, input: &[u8], output: &mut [u8], end: EndOfInput) -> (result: Result<
        CodecStep,
        ArchiveError,
    >)
        requires
            old(self).wf(),
        ensures
            step_matches(
                result,
                final(self)@,
                final(output)@,
                old(self)@.process(input@, old(output)@.len(), end),
            ),
            final(output)@.len() == old(output)@.len(),
            result is Ok ==> final(self).wf() && result->Ok_0.fits(
                input@.len(),
                old(output)@.len(),
            ),
    {
        let first = self.step(input, output)?;
        if first.status != CodecStatus::Done && end == EndOfInput::End && first.consumed
            == input.len() && first.produced == 0 {
            let last = self.finish(output)?;
            return Ok(
                CodecStep {
                    consumed: first.consumed,
                    produced: last.produced,
                    status: last.status,
                },
            );
        }
        Ok(first)
    }
}

/// What a call writes is what it adds to the decoded bytes, and the decoded
/// bytes never exceed the budget.
pub proof fn law_decoded_bytes_are_written_and_bounded(
    model: GzipModel,
    input: Seq<u8>,
    room: nat,
    end: EndOfInput,
)
    requires
        model.limits.decoded_total matches Some(maximum) ==> model.decoded.len() <= maximum,
    ensures
        model.process(input, room, end) matches Ok(step) ==> {
            &&& step.model.decoded == model.decoded + step.written
            &&& step.model.limits == model.limits
            &&& model.limits.decoded_total matches Some(maximum) ==> step.model.decoded.len()
                <= maximum
        },
{
    assert(model.decoded + Seq::<u8>::empty() =~= model.decoded);
    lemma_account(model.called(input, room, false), inflate_result(model.history, input, room, false).1);
    match model.step(input, room) {
        Ok(first) => {
            assert(first.model.decoded + Seq::<u8>::empty() =~= first.model.decoded);
            lemma_account(
                first.model.called(Seq::empty(), room, true),
                inflate_result(first.model.history, Seq::empty(), room, true).1,
            );
        },
        Err(_) => {},
    }
}

proof fn lemma_account(model: GzipModel, bytes: Seq<u8>)
    requires
        model.limits.decoded_total matches Some(maximum) ==> model.decoded.len() <= maximum,
    ensures
        model.account(bytes) matches Ok(next) ==> {
            &&& next.decoded == model.decoded + bytes
            &&& next.limits == model.limits
            &&& model.limits.decoded_total matches Some(maximum) ==> next.decoded.len() <= maximum
        },
{
    if bytes.len() == 0 {
        assert(model.decoded + bytes =~= model.decoded);
    }
}

/// A member is complete only if its trailer holds the checksum and the length
/// of the decoded bytes.
pub proof fn law_complete_member_matches_its_trailer(
    model: GzipModel,
    input: Seq<u8>,
    room: nat,
    end: EndOfInput,
)
    requires
        !(model.phase is Done),
        model.trailer.len() < TRAILER_LEN,
    ensures
        model.process(input, room, end) matches Ok(step) ==> (step.status is Done ==> {
            &&& step.model.trailer.len() == TRAILER_LEN
            &&& crc32_of(step.model.decoded) == le32(step.model.trailer, 0)
            &&& step.model.output_size == le32(step.model.trailer, 4)
        }),
{
}

} // verus!
