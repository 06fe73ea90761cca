//! gzip encoding: a fixed header, raw DEFLATE, and the trailer.

use vstd::arithmetic::div_mod::lemma_add_mod_noop_right;
use vstd::prelude::*;
use crate::bytes::{copy_at, le32, overlay};
use crate::codec::{CodecStatus, CodecStep, EndOfInput};
use crate::error::{ArchiveError, ErrorKind, ErrorView};
use crate::filter::crc::{crc32_of, Crc32};
use crate::filter::deflate::{deflate_result, inflate_result, CoderOutcome, CoderStatus, Deflater};
use crate::filter::gzip::{
    add_length, gzip_error, gzip_fault, header_len, wrapping_length, GzipModel, Phase,
};
use crate::limits::Limits;

verus! {

/// The header of every member: DEFLATE, no flags, no time, unknown system.
pub const GZIP_HEADER: [u8; 10] = [0x1f, 0x8b, 0x08, 0x00, 0, 0, 0, 0, 0x00, 0xff];

/// Which part of the member comes next.
#[derive(Clone, Copy, Debug, PartialEq, Eq, Structural)]
pub enum EncodePhase {
    Header,
    Body,
    Trailer,
    Done,
}

/// The four bytes of a number, least significant first.
pub open spec fn le_bytes4(value: u32) -> Seq<u8> {
    seq![
        (value % 256) as u8,
        (value / 256 % 256) as u8,
        (value / 0x1_0000 % 256) as u8,
        (value / 0x100_0000) as u8,
    ]
}

/// The mathematical content of a [`GzipEncoder`].
#[verifier::ext_equal]
pub struct EncoderModel {
    pub phase: EncodePhase,
    /// The calls that the DEFLATE encoder has seen.
    pub history: Seq<(Seq<u8>, nat, bool)>,
    pub header_position: nat,
    pub trailer_position: nat,
    /// All bytes encoded so far.
    pub plain: Seq<u8>,
    /// Their length as the trailer counts it.
    pub input_size: u32,
    pub limits: Limits,
}

/// One step of the encoder.
#[verifier::ext_equal]
pub struct EncoderMove {
    pub model: EncoderModel,
    pub consumed: nat,
    pub written: Seq<u8>,
    pub status: CodecStatus,
}

/// The smaller of two counts.
pub open spec fn least(a: nat, b: nat) -> nat {
    if a < b {
        a
    } else {
        b
    }
}

impl EncoderModel {
    /// The trailer of the bytes encoded: their checksum and their length.
    pub open spec fn trailer(self) -> Seq<u8> {
        le_bytes4(crc32_of(self.plain)) + le_bytes4(self.input_size)
    }

    pub open spec fn turn(self, consumed: nat, written: Seq<u8>, status: CodecStatus) -> EncoderMove {
        EncoderMove { model: self, consumed, written, status }
    }

    /// The encoder with more plain bytes taken, or the refusal of them.
    pub open spec fn account(self, bytes: Seq<u8>) -> Result<EncoderModel, ErrorView> {
        if self.plain.len() + bytes.len() > u64::MAX {
            Err(gzip_fault(ErrorKind::Limit, "encoded input byte count overflow"@))
        } else if self.limits.decoded_total matches Some(maximum) && self.plain.len() + bytes.len()
            > maximum {
            Err(gzip_fault(ErrorKind::Limit, "encoded input exceeds configured limit"@))
        } else {
            Ok(
                EncoderModel {
                    plain: self.plain + bytes,
                    input_size: add_length(self.input_size, bytes.len()),
                    ..self
                },
            )
        }
    }

    /// Writes what fits of the trailer behind `before`.
    pub open spec fn trailer_step(
        self,
        consumed: nat,
        input_len: nat,
        before: Seq<u8>,
        room: nat,
    ) -> Result<EncoderMove, ErrorView> {
        if consumed != input_len {
            Err(gzip_fault(ErrorKind::Protocol, "deflate finished with unconsumed plaintext"@))
        } else {
            let count = least((8 - self.trailer_position) as nat, (room - before.len()) as nat);
            let next = (self.trailer_position + count) as nat;
            let written = before + self.trailer().subrange(
                self.trailer_position as int,
                next as int,
            );
            if next == 8 {
                Ok(
                    EncoderModel {
                        phase: EncodePhase::Done,
                        trailer_position: next,
                        ..self
                    }.turn(consumed, written, CodecStatus::Done),
                )
            } else {
                Ok(
                    EncoderModel { trailer_position: next, ..self }.turn(
                        consumed,
                        written,
                        CodecStatus::NeedOutput,
                    ),
                )
            }
        }
    }

    /// Goes on behind `before` from what the DEFLATE encoder made of `input`.
    pub open spec fn body_step(
        self,
        input: Seq<u8>,
        before: Seq<u8>,
        room: nat,
        end: EndOfInput,
        result: (nat, Seq<u8>, CoderStatus),
    ) -> Result<EncoderMove, ErrorView> {
        let (consumed, bytes, status) = result;
        let written = before + bytes;
        match self.account(input.take(consumed as int)) {
            Err(error) => Err(error),
            Ok(next) => match status {
                CoderStatus::End => {
                    let closing = EncoderModel { phase: EncodePhase::Trailer, ..next };
                    if written.len() == room {
                        Ok(closing.turn(consumed, written, CodecStatus::NeedOutput))
                    } else {
                        closing.trailer_step(consumed, input.len(), written, room)
                    }
                },
                CoderStatus::More => Ok(
                    next.turn(
                        consumed,
                        written,
                        if written.len() == room || end is End {
                            CodecStatus::NeedOutput
                        } else {
                            CodecStatus::NeedInput
                        },
                    ),
                ),
                CoderStatus::Starved => if input.len() == 0 && end is More {
                    Ok(next.turn(consumed, written, CodecStatus::NeedInput))
                } else {
                    Err(gzip_fault(ErrorKind::Malformed, "deflate encoder failed"@))
                },
                CoderStatus::Broken => Err(
                    gzip_fault(ErrorKind::Malformed, "deflate encoder failed"@),
                ),
            },
        }
    }

    /// The encoder after one more DEFLATE call.
    pub open spec fn called(self, input: Seq<u8>, room: nat, finish: bool) -> EncoderModel {
        EncoderModel { history: self.history.push((input, room, finish)), ..self }
    }

    /// Encodes body bytes behind `before`.
    pub open spec fn body(self, input: Seq<u8>, before: Seq<u8>, room: nat, end: EndOfInput) -> Result<
        EncoderMove,
        ErrorView,
    > {
        let left = (room - before.len()) as nat;
        self.called(input, left, end is End).body_step(
            input,
            before,
            room,
            end,
            deflate_result(self.history, input, left, end is End),
        )
    }

    /// One call.
    pub open spec fn process(self, input: Seq<u8>, room: nat, end: EndOfInput) -> Result<
        EncoderMove,
        ErrorView,
    > {
        match self.phase {
            EncodePhase::Done => if input.len() != 0 {
                Err(gzip_fault(ErrorKind::Protocol, "input supplied after gzip completion"@))
            } else {
                Ok(self.turn(0, Seq::empty(), CodecStatus::Done))
            },
            EncodePhase::Header => {
                let count = least((10 - self.header_position) as nat, room);
                let next = (self.header_position + count) as nat;
                let written = GZIP_HEADER@.subrange(self.header_position as int, next as int);
                let open = EncoderModel { header_position: next, ..self };
                if next != 10 {
                    Ok(open.turn(0, written, CodecStatus::NeedOutput))
                } else {
                    let ready = EncoderModel { phase: EncodePhase::Body, ..open };
                    if count == room {
                        Ok(ready.turn(0, written, CodecStatus::NeedOutput))
                    } else {
                        ready.body(input, written, room, end)
                    }
                }
            },
            EncodePhase::Body => self.body(input, Seq::empty(), room, end),
            EncodePhase::Trailer => self.trailer_step(0, input.len(), Seq::empty(), room),
        }
    }
}

/// Some bytes are a header, a body, and the beginning of a trailer.
pub open spec fn framed_body(emitted: Seq<u8>, body: Seq<u8>, trailer: Seq<u8>) -> bool {
    emitted == GZIP_HEADER@ + body + trailer
}

/// What an encoder has written so far: the beginning of a header; the header and
/// more; or the header, a body and as much of the trailer as was due.
pub open spec fn member_so_far(model: EncoderModel, emitted: Seq<u8>) -> bool {
    match model.phase {
        EncodePhase::Header => model.header_position <= 10 && emitted == GZIP_HEADER@.take(
            model.header_position as int,
        ),
        EncodePhase::Body => model.trailer_position == 0 && emitted.len() >= 10 && emitted.take(10)
            == GZIP_HEADER@,
        EncodePhase::Trailer => model.trailer_position <= 8 && exists|body: Seq<u8>| #[trigger]
            framed_body(emitted, body, model.trailer().take(model.trailer_position as int)),
        EncodePhase::Done => exists|body: Seq<u8>| #[trigger]
            framed_body(emitted, body, model.trailer()),
    }
}

proof fn lemma_trailer_step(
    model: EncoderModel,
    consumed: nat,
    input_len: nat,
    before: Seq<u8>,
    room: nat,
    emitted: Seq<u8>,
    body: Seq<u8>,
)
    requires
        model.phase is Trailer,
        model.trailer_position <= 8,
        before.len() <= room,
        framed_body(emitted + before, body, model.trailer().take(model.trailer_position as int)),
    ensures
        model.trailer_step(consumed, input_len, before, room) matches Ok(step) ==> {
            &&& member_so_far(step.model, emitted + step.written)
            &&& step.model.plain == model.plain
            &&& step.model.input_size == model.input_size
            &&& step.consumed == consumed
        },
{
    if let Ok(step) = model.trailer_step(consumed, input_len, before, room) {
        let trailer = model.trailer();
        let at = model.trailer_position as int;
        let next = step.model.trailer_position as int;
        assert(step.model.trailer() == trailer);
        assert(trailer.take(next) =~= trailer.take(at) + trailer.subrange(at, next));
        let sub = trailer.subrange(at, next);
        assert(emitted + step.written =~= (emitted + before) + sub);
        assert(emitted + step.written =~= GZIP_HEADER@ + body + (trailer.take(at) + sub));
        if next == 8 {
            assert(trailer.take(8) =~= trailer);
            assert(framed_body(emitted + step.written, body, step.model.trailer()));
        } else {
            assert(framed_body(emitted + step.written, body, step.model.trailer().take(next)));
        }
    }
}

proof fn lemma_body(
    model: EncoderModel,
    input: Seq<u8>,
    before: Seq<u8>,
    room: nat,
    end: EndOfInput,
    emitted: Seq<u8>,
)
    requires
        model.phase is Body,
        model.trailer_position == 0,
        before.len() <= room,
        (emitted + before).len() >= 10,
        (emitted + before).take(10) == GZIP_HEADER@,
        model.body(input, before, room, end) matches Ok(step) ==> step.consumed <= input.len()
            && step.written.len() <= room,
    ensures
        model.body(input, before, room, end) matches Ok(step) ==> {
            &&& member_so_far(step.model, emitted + step.written)
            &&& step.model.plain == model.plain + input.take(step.consumed as int)
            &&& step.model.input_size == add_length(model.input_size, step.consumed)
        },
{
    if let Ok(step) = model.body(input, before, room, end) {
        let left = (room - before.len()) as nat;
        let (consumed, bytes, status) = deflate_result(model.history, input, left, end is End);
        let called = model.called(input, left, end is End);
        let written = before + bytes;
        let part = input.take(consumed as int);
        assert(called.account(part) is Ok);
        let next = called.account(part)->Ok_0;
        let all = emitted + written;
        assert(all =~= (emitted + before) + bytes);
        assert(all.take(10) =~= GZIP_HEADER@);
        match status {
            CoderStatus::End => {
                let closing = EncoderModel { phase: EncodePhase::Trailer, ..next };
                let body = all.skip(10);
                assert(closing.trailer().take(0) =~= Seq::<u8>::empty());
                assert(framed_body(all, body, closing.trailer().take(0))) by {
                    assert(all =~= GZIP_HEADER@ + body + Seq::<u8>::empty());
                }
                if written.len() != room {
                    if written.len() < room {
                        lemma_trailer_step(
                            closing,
                            consumed,
                            input.len(),
                            written,
                            room,
                            emitted,
                            body,
                        );
                    }
                }
            },
            _ => {},
        }
    }
}

/// What an encoder writes is the frame of a member: at every step a header, a
/// body and a trailer as far as they are due. The trailer tells of exactly the
/// bytes that were taken.
pub proof fn law_member_is_framed(
    model: EncoderModel,
    input: Seq<u8>,
    room: nat,
    end: EndOfInput,
    emitted: Seq<u8>,
)
    requires
        member_so_far(model, emitted),
        model.phase is Header ==> model.header_position < 10 && model.trailer_position == 0,
        model.process(input, room, end) matches Ok(step) ==> step.consumed <= input.len()
            && step.written.len() <= room,
    ensures
        model.process(input, room, end) matches Ok(step) ==> {
            &&& member_so_far(step.model, emitted + step.written)
            &&& step.model.plain == model.plain + input.take(step.consumed as int)
        },
{
    assert(input.take(0) =~= Seq::<u8>::empty());
    assert(model.plain + Seq::<u8>::empty() =~= model.plain);
    assert(emitted + Seq::<u8>::empty() =~= emitted);
    match model.phase {
        EncodePhase::Done => {},
        EncodePhase::Header => {
            let count = least((10 - model.header_position) as nat, room);
            let next = (model.header_position + count) as nat;
            let written = GZIP_HEADER@.subrange(model.header_position as int, next as int);
            assert(emitted + written =~= GZIP_HEADER@.take(next as int));
            if next == 10 {
                assert(GZIP_HEADER@.take(10) =~= GZIP_HEADER@);
                assert((emitted + written).take(10) =~= GZIP_HEADER@);
                if count != room {
                    let ready = EncoderModel {
                        phase: EncodePhase::Body,
                        header_position: next,
                        ..model
                    };
                    lemma_body(ready, input, written, room, end, emitted);
                }
            }
        },
        EncodePhase::Body => {
            lemma_body(model, input, Seq::empty(), room, end, emitted);
        },
        EncodePhase::Trailer => {
            let tail = model.trailer().take(model.trailer_position as int);
            let body = choose|body: Seq<u8>| #[trigger] framed_body(emitted, body, tail);
            lemma_trailer_step(model, 0, input.len(), Seq::empty(), room, emitted, body);
        },
    }
}

/// The trailer counts the bytes taken, in 32 bits.
pub open spec fn counted(model: EncoderModel) -> bool {
    model.input_size == model.plain.len() % 0x1_0000_0000
}

/// The count in the trailer stays right over every call that takes no more than
/// 32 bits can count.
pub proof fn law_input_stays_counted(
    model: EncoderModel,
    input: Seq<u8>,
    room: nat,
    end: EndOfInput,
)
    requires
        counted(model),
        input.len() <= u32::MAX,
        model.process(input, room, end) matches Ok(step) ==> step.consumed <= input.len(),
    ensures
        model.process(input, room, end) matches Ok(step) ==> counted(step.model),
{
    lemma_added_lengths(model.input_size, model.plain.len());
}

proof fn lemma_added_lengths(size: u32, total: nat)
    requires
        size == total % 0x1_0000_0000,
    ensures
        forall|count: nat|
            count <= u32::MAX ==> #[trigger] add_length(size, count) == (total + count)
                % 0x1_0000_0000,
{
    assert forall|count: nat| count <= u32::MAX implies #[trigger] add_length(size, count) == (total
        + count) % 0x1_0000_0000 by {
        lemma_add_mod_noop_right(count as int, total as int, 0x1_0000_0000);
    }
}

proof fn lemma_le_bytes4(value: u32, bytes: Seq<u8>, at: int)
    requires
        0 <= at,
        at + 4 <= bytes.len(),
        bytes.subrange(at, at + 4) == le_bytes4(value),
    ensures
        le32(bytes, at) == value,
{
    let part = bytes.subrange(at, at + 4);
    assert(bytes[at] == part[0]);
    assert(bytes[at + 1] == part[1]);
    assert(bytes[at + 2] == part[2]);
    assert(bytes[at + 3] == part[3]);
}

proof fn lemma_header_is_read(emitted: Seq<u8>, more: Seq<u8>)
    requires
        emitted =~= GZIP_HEADER@ + more,
    ensures
        header_len(emitted) == Ok::<Option<nat>, ErrorView>(Some(10)),
{
    assert(emitted[0] == GZIP_HEADER@[0]);
    assert(emitted[1] == GZIP_HEADER@[1]);
    assert(emitted[2] == GZIP_HEADER@[2]);
    assert(emitted[3] == GZIP_HEADER@[3]);
}

/// A trailer is accepted by every decoder that got the encoder's bytes out of the
/// body, however the body was cut into calls.
pub proof fn law_trailer_reads_back(encoder: EncoderModel, decoder: GzipModel)
    requires
        decoder.phase is Trailer,
        decoder.trailer.len() == 0,
        decoder.decoded == encoder.plain,
        decoder.output_size == encoder.input_size,
    ensures
        decoder.trailer_step(encoder.trailer()) matches Ok(step) && {
            &&& step.consumed == 8
            &&& step.written.len() == 0
            &&& step.status is Done
            &&& step.model.decoded == encoder.plain
        },
{
    let trailer = encoder.trailer();
    assert(decoder.trailer + trailer.take(8) =~= trailer);
    assert(trailer.subrange(0, 4) =~= le_bytes4(crc32_of(encoder.plain)));
    assert(trailer.subrange(4, 8) =~= le_bytes4(encoder.input_size));
    lemma_le_bytes4(crc32_of(encoder.plain), trailer, 0);
    lemma_le_bytes4(encoder.input_size, trailer, 4);
}

/// A finished member reads back: a new decoder takes its header and stops at the
/// body; if its DEFLATE decoder then ends with the body and gives the bytes that
/// the encoder took, those bytes come out, the trailer is accepted, and every
/// byte of the member has been consumed. Left out are members of more bytes than
/// the trailer can count.
pub proof fn law_written_members_read_back(
    encoder: EncoderModel,
    emitted: Seq<u8>,
    body: Seq<u8>,
    decoder: GzipModel,
    room: nat,
)
    requires
        encoder.phase is Done,
        framed_body(emitted, body, encoder.trailer()),
        counted(encoder),
        encoder.plain.len() <= u32::MAX,
        decoder.phase is Header,
        decoder.header.len() == 0,
        decoder.trailer.len() == 0,
        decoder.decoded.len() == 0,
        decoder.output_size == 0,
        decoder.limits.decoded_total matches Some(maximum) ==> encoder.plain.len() <= maximum,
    ensures
        decoder.step(emitted, room) matches Ok(first) && {
            &&& first.consumed == 10
            &&& first.written.len() == 0
            &&& inflate_result(decoder.history, emitted.skip(10), room, false) == (
                body.len(),
                encoder.plain,
                CoderStatus::End,
            ) ==> (first.model.step(emitted.skip(10), room) matches Ok(second) && {
                &&& second.consumed == body.len()
                &&& second.written == encoder.plain
                &&& second.model.step(emitted.skip((10 + body.len()) as int), room) matches Ok(
                    third,
                ) && {
                    &&& third.consumed == 8
                    &&& third.written.len() == 0
                    &&& third.status is Done
                    &&& third.model.decoded == encoder.plain
                }
            })
        },
{
    let trailer = encoder.trailer();
    assert(decoder.header + emitted =~= emitted);
    lemma_header_is_read(emitted, body + trailer);
    let rest = emitted.skip((10 + body.len()) as int);
    assert(rest =~= trailer);
    assert(decoder.decoded + encoder.plain =~= encoder.plain);
    let closing = GzipModel {
        phase: Phase::Trailer,
        header: Seq::empty(),
        history: decoder.history.push((emitted.skip(10), room, false)),
        decoded: encoder.plain,
        output_size: encoder.input_size,
        ..decoder
    };
    law_trailer_reads_back(encoder, closing);
}

/// Incremental gzip compressor.
pub struct GzipEncoder {
    pub phase: EncodePhase,
    pub deflater: Deflater,
    pub header_position: usize,
    pub trailer: [u8; 8],
    pub trailer_position: usize,
    pub crc: Crc32,
    pub input_size: u32,
    pub encoded_input: u64,
    pub limits: Limits,
    pub plain: Ghost<Seq<u8>>,
}

impl View for GzipEncoder {
    type V = EncoderModel;

    open spec fn view(&self) -> EncoderModel {
        EncoderModel {
            phase: self.phase,
            history: self.deflater.history(),
            header_position: self.header_position as nat,
            trailer_position: self.trailer_position as nat,
            plain: self.plain@,
            input_size: self.input_size,
            limits: self.limits,
        }
    }
}

/// The result of a call in the form of its contract.
pub open spec fn encode_matches(
    result: Result<CodecStep, ArchiveError>,
    model: EncoderModel,
    output: Seq<u8>,
    expected: Result<EncoderMove, ErrorView>,
) -> bool {
    match result {
        Ok(step) => step.produced <= output.len() && expected == Ok::<_, ErrorView>(
            EncoderMove {
                model,
                consumed: step.consumed as nat,
                written: output.take(step.produced as int),
                status: step.status,
            },
        ),
        Err(error) => expected == Err::<EncoderMove, _>(error@),
    }
}

fn set_le4(target: &mut [u8; 8], at: usize, value: u32)
    requires
        at <= 4,
    ensures
        final(target)@ == overlay(old(target)@, at as int, le_bytes4(value)),
{
    target[at] = (value % 256) as u8;
    target[at + 1] = (value / 256 % 256) as u8;
    target[at + 2] = (value / 0x1_0000 % 256) as u8;
    target[at + 3] = (value / 0x100_0000) as u8;
    proof {
        assert(target@ =~= overlay(old(target)@, at as int, le_bytes4(value)));
    }
}

impl GzipEncoder {
    /// The counters agree with the bytes encoded, and the trailer with them once
    /// it is due.
    pub open spec fn wf(self) -> bool {
        &&& self.header_position <= 10
        &&& self.trailer_position <= 8
        &&& self.crc.covers(self.plain@)
        &&& self.encoded_input == self.plain@.len()
        &&& self.phase is Header ==> self.header_position < 10
        &&& self.phase is Trailer ==> self.trailer@ == self@.trailer() && self.trailer_position < 8
        &&& self.phase is Header || self.phase is Body ==> self.trailer_position == 0
    }

    /// An encoder before its first call.
    pub fn new(limits: Limits) -> (encoder: Self)
        ensures
            encoder.wf(),
            encoder@ == (EncoderModel {
                phase: EncodePhase::Header,
                history: Seq::empty(),
                header_position: 0,
                trailer_position: 0,
                plain: Seq::empty(),
                input_size: 0,
                limits,
            }),
    {
        let encoder = GzipEncoder {
            phase: EncodePhase::Header,
            deflater: Deflater::new(),
            header_position: 0,
            trailer: [0; 8],
            trailer_position: 0,
            crc: Crc32::new(),
            input_size: 0,
            encoded_input: 0,
            limits,
            plain: Ghost(Seq::empty()),
        };
        proof {
            assert(encoder@.history =~= Seq::empty());
        }
        encoder
    }

    fn account_input(&mut self, input: &[u8], count: usize) -> (result: Result<(), ArchiveError>)
        requires
            old(self).wf(),
            old(self).phase is Body,
            count <= input@.len(),
        ensures
            match result {
                Ok(()) => old(self)@.account(input@.take(count as int)) == Ok::<_, ErrorView>(
                    final(self)@,
                ) && final(self).wf() && final(self).phase is Body,
                Err(error) => old(self)@.account(input@.take(count as int)) == Err::<
                    EncoderModel,
                    _,
                >(error@),
            },
    {
        let next: u64 = match self.encoded_input.checked_add(count as u64) {
            Some(next) => next,
            None => {
                return Err(gzip_error(ErrorKind::Limit, "encoded input byte count overflow"));
            },
        };
        if let Some(maximum) = self.limits.decoded_total {
            if next > maximum {
                return Err(gzip_error(ErrorKind::Limit, "encoded input exceeds configured limit"));
            }
        }
        proof {
            assert(input@.subrange(0, count as int) =~= input@.take(count as int));
        }
        self.crc.update(&input[0..count]);
        self.input_size = wrapping_length(self.input_size, count);
        self.encoded_input = next;
        self.plain = Ghost(self.plain@ + input@.take(count as int));
        Ok(())
    }

    fn write_trailer(
        &mut self,
        consumed: usize,
        input_len: usize,
        output: &mut [u8],
        produced: usize,
    ) -> (result: Result<CodecStep, ArchiveError>)
        requires
            old(self).wf(),
            old(self).phase is Trailer,
            produced <= old(output)@.len(),
            consumed <= input_len,
        ensures
            encode_matches(
                result,
                final(self)@,
                final(output)@,
                old(self)@.trailer_step(
                    consumed as nat,
                    input_len as nat,
                    old(output)@.take(produced as int),
                    old(output)@.len(),
                ),
            ),
            final(output)@.len() == old(output)@.len(),
            result is Ok ==> final(self).wf() && result->Ok_0.consumed <= input_len,
    {
        if consumed != input_len {
            return Err(
                gzip_error(ErrorKind::Protocol, "deflate finished with unconsumed plaintext"),
            );
        }
        let missing: usize = 8 - self.trailer_position;
        let left: usize = output.len() - produced;
        let count: usize = if missing < left {
            missing
        } else {
            left
        };
        let start: usize = self.trailer_position;
        copy_at(output, produced, self.trailer.as_slice(), start, count);
        self.trailer_position = start + count;
        proof {
            let before = old(output)@.take(produced as int);
            let piece = old(self)@.trailer().subrange(start as int, start + count);
            assert(output@.take(produced + count) =~= before + piece);
        }
        if self.trailer_position == 8 {
            self.phase = EncodePhase::Done;
            return Ok(
                CodecStep { consumed, produced: produced + count, status: CodecStatus::Done },
            );
        }
        Ok(CodecStep { consumed, produced: produced + count, status: CodecStatus::NeedOutput })
    }

    /// Goes on from what the DEFLATE encoder made of `input`: `output` holds
    /// `before` bytes of the header, then the bytes that it wrote.
    pub fn apply_body(
        &mut self,
        outcome: CoderOutcome,
        input: &[u8],
        output: &mut [u8],
        before: usize,
        end: EndOfInput,
    ) -> (result: Result<CodecStep, ArchiveError>)
        requires
            old(self).wf(),
            old(self).phase is Body,
            outcome.consumed <= input@.len(),
            before + outcome.written <= old(output).len(),
        ensures
            encode_matches(
                result,
                final(self)@,
                final(output)@,
                old(self)@.body_step(
                    input@,
                    old(output)@.take(before as int),
                    old(output)@.len(),
                    end,
                    (
                        outcome.consumed as nat,
                        old(output)@.subrange(before as int, before + outcome.written),
                        outcome.status,
                    ),
                ),
            ),
            final(output)@.len() == old(output)@.len(),
            result is Ok ==> final(self).wf() && result->Ok_0.consumed <= input@.len(),
    {
        let consumed: usize = outcome.consumed;
        self.account_input(input, consumed)?;
        let produced: usize = before + outcome.written;
        proof {
            assert(output@.take(produced as int) =~= output@.take(before as int)
                + output@.subrange(before as int, produced as int));
        }
        match outcome.status {
            CoderStatus::End => {
                let crc: u32 = self.crc.finalize();
                set_le4(&mut self.trailer, 0, crc);
                set_le4(&mut self.trailer, 4, self.input_size);
                proof {
                    assert(self.trailer@ =~= self@.trailer());
                }
                self.phase = EncodePhase::Trailer;
                if produced == output.len() {
                    return Ok(
                        CodecStep { consumed, produced, status: CodecStatus::NeedOutput },
                    );
                }
                self.write_trailer(consumed, input.len(), output, produced)
            },
            CoderStatus::More => {
                let status = if produced == output.len() || end == EndOfInput::End {
                    CodecStatus::NeedOutput
                } else {
                    CodecStatus::NeedInput
                };
                Ok(CodecStep { consumed, produced, status })
            },
            CoderStatus::Starved => {
                if input.len() == 0 && end == EndOfInput::More {
                    Ok(CodecStep { consumed: 0, produced, status: CodecStatus::NeedInput })
                } else {
                    Err(gzip_error(ErrorKind::Malformed, "deflate encoder failed"))
                }
            },
            CoderStatus::Broken => Err(
                gzip_error(ErrorKind::Malformed, "deflate encoder failed"),
            ),
        }
    }

    fn write_body(
        &mut self,
        input: &[u8],
        output: &mut [u8],
        before: usize,
        end: EndOfInput,
    ) -> (result: Result<CodecStep, ArchiveError>)
        requires
            old(self).wf(),
            old(self).phase is Body,
            before <= old(output)@.len(),
        ensures
            encode_matches(
                result,
                final(self)@,
                final(output)@,
                old(self)@.body(
                    input@,
                    old(output)@.take(before as int),
                    old(output)@.len(),
                    end,
                ),
            ),
            final(output)@.len() == old(output)@.len(),
            result is Ok ==> final(self).wf() && result->Ok_0.consumed <= input@.len(),
    {
        let finish = end == EndOfInput::End;
        let outcome;
        let ghost mut tail: Seq<u8> = Seq::empty();
        {
            let (_head, rest) = output.split_at_mut(before);
            outcome = self.deflater.run(input, rest, finish);
            proof {
                tail = rest@;
            }
        }
        proof {
            assert(output@.skip(before as int) =~= tail);
            assert(output@.take(before as int) =~= old(output)@.take(before as int));
            assert(output@.subrange(before as int, before + outcome.written) =~= output@.skip(
                before as int,
            ).take(outcome.written as int));
        }
        self.apply_body(outcome, input, output, before, end)
    }

    /// Encodes from `input` to `output`.
    pub fn process(&mut self, input: &[u8], output: &mut [u8], end: EndOfInput) -> (result: Result<
        CodecStep,
        ArchiveError,
    >)
        requires
            old(self).wf(),
        ensures
            encode_matches(
                result,
                final(self)@,
                final(output)@,
                old(self)@.process(input@, old(output)@.len(), end),
            ),
            final(output)@.len() == old(output)@.len(),
            result is Ok ==> final(self).wf() && result->Ok_0.fits(
                input@.len(),
                old(output)@.len(),
            ),
    {
        proof {
            assert(output@.take(0) =~= Seq::<u8>::empty());
        }
        match self.phase {
            EncodePhase::Done => {
                if input.len() != 0 {
                    return Err(
                        gzip_error(ErrorKind::Protocol, "input supplied after gzip completion"),
                    );
                }
                Ok(CodecStep { consumed: 0, produced: 0, status: CodecStatus::Done })
            },
            EncodePhase::Header => {
                let missing: usize = 10 - self.header_position;
                let count: usize = if missing < output.len() {
                    missing
                } else {
                    output.len()
                };
                let start: usize = self.header_position;
                copy_at(output, 0, &GZIP_HEADER, start, count);
                self.header_position = start + count;
                proof {
                    assert(output@.take(count as int) =~= GZIP_HEADER@.subrange(
                        start as int,
                        start + count,
                    ));
                }
                if self.header_position != 10 {
                    return Ok(
                        CodecStep { consumed: 0, produced: count, status: CodecStatus::NeedOutput },
                    );
                }
                self.phase = EncodePhase::Body;
                if count == output.len() {
                    return Ok(
                        CodecStep { consumed: 0, produced: count, status: CodecStatus::NeedOutput },
                    );
                }
                self.write_body(input, output, count, end)
            },
            EncodePhase::Body => self.write_body(input, output, 0, end),
            EncodePhase::Trailer => self.write_trailer(0, input.len(), output, 0),
        }
    }
}

} // verus!
