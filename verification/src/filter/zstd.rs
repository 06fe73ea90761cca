//! Zstandard decoding of concatenated frames.
//!
//! The frame decoder takes whole blocks, so at most one block and its framing
//! are retained.

use vstd::prelude::*;
use ruzstd::decoding::FrameDecoder;
use crate::bytes::starts_with;
use crate::codec::{CodecStatus, CodecStep, EndOfInput};
use crate::error::{fault, ArchiveError, ErrorKind, ErrorView};
use crate::limits::Limits;
use vstd::arithmetic::power2::{lemma2_to64, lemma_pow2_strictly_increases, lemma_pow2_unfold, pow2};

verus! {

/// The four bytes that open a frame.
pub const MAGIC: [u8; 4] = [0x28, 0xb5, 0x2f, 0xfd];

/// Frame bytes that are retained at most: one block, the frame header, the block
/// header and the checksum.
pub const MAX_PENDING: usize = 128 * 1024 + 18 + 3 + 4;

/// A malformed-frame error.
pub open spec fn zstd_malformed(context: Seq<char>) -> ErrorView {
    fault(ErrorKind::Malformed, "zstd", context)
}

fn malformed(context: &str) -> (error: ArchiveError)
    ensures
        error@ == zstd_malformed(context@),
{
    ArchiveError::of_format(ErrorKind::Malformed, "zstd", context)
}

// ---------------------------------------------------------------------------
// The frame decoder
// ---------------------------------------------------------------------------

/// What `FrameDecoder::decode_from_to` returns after the calls of `history`: the
/// number of source bytes read and the bytes written, or its error's message.
pub uninterp spec fn zstd_result(history: Seq<(Seq<u8>, nat)>, source: Seq<u8>, room: nat) -> Result<
    (nat, Seq<u8>),
    Seq<char>,
>;

/// What `FrameDecoder::is_finished` returns after the calls of `history`.
pub uninterp spec fn zstd_finished(history: Seq<(Seq<u8>, nat)>) -> bool;

/// What `FrameDecoder::can_collect` returns after the calls of `history`.
pub uninterp spec fn zstd_collectable(history: Seq<(Seq<u8>, nat)>) -> nat;

/// What `FrameDecoder::get_checksum_from_data` returns after the calls of
/// `history`.
pub uninterp spec fn zstd_stored_checksum(history: Seq<(Seq<u8>, nat)>) -> Option<u32>;

/// What `FrameDecoder::get_calculated_checksum` returns after the calls of
/// `history`.
pub uninterp spec fn zstd_computed_checksum(history: Seq<(Seq<u8>, nat)>) -> Option<u32>;

/// The decoder of one frame.
#[verifier::external_type_specification]
#[verifier::external_body]
pub struct ExFrameDecoder(ruzstd::decoding::FrameDecoder);

/// The decoder of one frame with the calls that it has seen.
pub struct FrameState {
    decoder: FrameDecoder,
    history: Ghost<Seq<(Seq<u8>, nat)>>,
}

/// A result of the frame decoder as a named result.
pub open spec fn zstd_outcome(result: Result<(usize, usize), String>, output: Seq<u8>) -> Result<
    (nat, Seq<u8>),
    Seq<char>,
> {
    match result {
        Ok((read, written)) => Ok((read as nat, output.take(written as int))),
        Err(message) => Err(message@),
    }
}

impl FrameState {
    /// The calls made so far.
    pub closed spec fn history(&self) -> Seq<(Seq<u8>, nat)> {
        self.history@
    }

    /// `ruzstd::decoding::FrameDecoder::new`. Claimed: the decoder has seen no
    /// call.
    #[verifier::external_body]
    pub(crate) fn new() -> (state: Self)
        ensures
            state.history().len() == 0,
    {
        FrameState { decoder: FrameDecoder::new(), history: Ghost(Seq::empty()) }
    }

    /// `FrameDecoder::decode_from_to`. Claimed: what is written lies within the
    /// output, and the counts and bytes or the error's message are the named
    /// result of the calls so far and of these arguments. The number of bytes
    /// read is not claimed to lie within the source.
    #[verifier::external_body]
    pub(crate) fn run(&mut self, source: &[u8], output: &mut [u8]) -> (result: Result<
        (usize, usize),
        String,
    >)
        ensures
            final(self).history() == old(self).history().push((source@, old(output)@.len())),
            final(output)@.len() == old(output)@.len(),
            result matches Ok((read, written)) ==> written <= old(output)@.len(),
            zstd_outcome(result, final(output)@) == zstd_result(
                old(self).history(),
                source@,
                old(output)@.len(),
            ),
    {
        self.decoder.decode_from_to(source, output).map_err(|error| error.to_string())
    }

    /// `FrameDecoder::is_finished`, by its name.
    #[verifier::external_body]
    pub(crate) fn is_finished(&self) -> (finished: bool)
        ensures
            finished == zstd_finished(self.history()),
    {
        self.decoder.is_finished()
    }

    /// `FrameDecoder::can_collect`, by its name.
    #[verifier::external_body]
    pub(crate) fn can_collect(&self) -> (count: usize)
        ensures
            count == zstd_collectable(self.history()),
    {
        self.decoder.can_collect()
    }

    /// `FrameDecoder::get_checksum_from_data`, by its name.
    #[verifier::external_body]
    pub(crate) fn stored_checksum(&self) -> (checksum: Option<u32>)
        ensures
            checksum == zstd_stored_checksum(self.history()),
    {
        self.decoder.get_checksum_from_data()
    }

    /// `FrameDecoder::get_calculated_checksum`, by its name.
    #[verifier::external_body]
    pub(crate) fn computed_checksum(&self) -> (checksum: Option<u32>)
        ensures
            checksum == zstd_computed_checksum(self.history()),
    {
        self.decoder.get_calculated_checksum()
    }

    /// Where the frame stands.
    fn probe(&self) -> (probe: FrameProbe)
        ensures
            probe == FrameProbe::of(self.history()),
    {
        FrameProbe {
            finished: self.is_finished(),
            drained: self.can_collect() == 0,
            stored: self.stored_checksum(),
            computed: self.computed_checksum(),
        }
    }
}

/// Where a frame stands after a call.
#[derive(Clone, Copy, Debug, PartialEq, Eq, Structural)]
pub struct FrameProbe {
    /// The last block has been decoded.
    pub finished: bool,
    /// No decoded byte is left to collect.
    pub drained: bool,
    /// The checksum in the frame.
    pub stored: Option<u32>,
    /// The checksum of the decoded bytes.
    pub computed: Option<u32>,
}

impl FrameProbe {
    /// Where a frame stands after the calls of `history`.
    pub open spec fn of(history: Seq<(Seq<u8>, nat)>) -> FrameProbe {
        FrameProbe {
            finished: zstd_finished(history),
            drained: zstd_collectable(history) == 0,
            stored: zstd_stored_checksum(history),
            computed: zstd_computed_checksum(history),
        }
    }
}

// ---------------------------------------------------------------------------
// Model
// ---------------------------------------------------------------------------

/// The mathematical content of a [`ZstdDecoder`].
#[verifier::ext_equal]
pub struct ZstdModel {
    /// The calls that the decoder of this frame has seen.
    pub history: Seq<(Seq<u8>, nat)>,
    /// Frame bytes not read yet.
    pub pending: Seq<u8>,
    pub frame_active: bool,
    pub saw_frame: bool,
    pub done: bool,
}

/// One call of the decoder.
#[verifier::ext_equal]
pub struct ZstdMove {
    pub model: ZstdModel,
    pub consumed: nat,
    pub written: Seq<u8>,
    pub status: CodecStatus,
}

impl ZstdModel {
    pub open spec fn turn(self, consumed: nat, written: Seq<u8>, status: CodecStatus) -> ZstdMove {
        ZstdMove { model: self, consumed, written, status }
    }

    /// The decoder behind a frame that is complete; a frame with a wrong
    /// checksum is refused.
    pub open spec fn close_frame(self, probe: FrameProbe) -> Result<ZstdModel, ErrorView> {
        if probe.finished && probe.drained {
            if probe.stored is Some && probe.computed is None {
                Err(zstd_malformed("Zstandard checksum state was not available"@))
            } else if probe.stored is Some && probe.stored != probe.computed {
                Err(zstd_malformed("Zstandard frame checksum mismatch"@))
            } else {
                Ok(
                    ZstdModel {
                        history: Seq::empty(),
                        saw_frame: true,
                        frame_active: false,
                        ..self
                    },
                )
            }
        } else {
            Ok(self)
        }
    }

    /// What the caller has to supply next, once `produced` bytes came out.
    pub open spec fn next_status(
        self,
        drained: bool,
        produced: nat,
        room: nat,
        end: EndOfInput,
    ) -> Result<CodecStatus, ErrorView> {
        if !self.frame_active {
            if self.pending.len() == 0 {
                if end is End {
                    Ok(CodecStatus::Done)
                } else {
                    Ok(CodecStatus::NeedInput)
                }
            } else if self.pending.len() >= 4 && self.pending.take(4) != MAGIC@ {
                Err(zstd_malformed("non-frame trailing filter data"@))
            } else if end is End && self.pending.len() < 4 {
                Err(zstd_malformed("truncated Zstandard frame header"@))
            } else {
                Ok(CodecStatus::NeedInput)
            }
        } else if end is End && produced == 0 && self.pending.len() > 0 {
            Err(zstd_malformed("Zstandard frame ended before its terminal block"@))
        } else if !drained || self.pending.len() > 0 || (room != 0 && produced == room) {
            Ok(CodecStatus::NeedOutput)
        } else if end is End {
            Err(zstd_malformed("Zstandard frame ended before its terminal block"@))
        } else {
            Ok(CodecStatus::NeedInput)
        }
    }

    /// The end of a call that has read from the frame.
    pub open spec fn settle(
        self,
        probe: FrameProbe,
        consumed: nat,
        written: Seq<u8>,
        room: nat,
        end: EndOfInput,
    ) -> Result<ZstdMove, ErrorView> {
        match self.close_frame(probe) {
            Err(error) => Err(error),
            Ok(next) => match next.next_status(
                probe.drained || !next.frame_active,
                written.len(),
                room,
                end,
            ) {
                Err(error) => Err(error),
                Ok(status) => Ok(
                    ZstdModel { done: next.done || status is Done, ..next }.turn(
                        consumed,
                        written,
                        status,
                    ),
                ),
            },
        }
    }

    /// Goes on from what the frame decoder returned and where the frame stands.
    pub open spec fn apply(
        self,
        result: Result<(nat, Seq<u8>), Seq<char>>,
        probe: FrameProbe,
        consumed: nat,
        room: nat,
        end: EndOfInput,
    ) -> Result<ZstdMove, ErrorView> {
        match result {
            Err(message) => if end is More && self.pending.len() < MAX_PENDING && consumed != 0 {
                Ok(self.turn(consumed, Seq::empty(), CodecStatus::NeedInput))
            } else {
                Err(zstd_malformed(message))
            },
            Ok((read, written)) => if read > self.pending.len() {
                if end is End {
                    Err(zstd_malformed("truncated Zstandard frame checksum"@))
                } else {
                    Ok(self.turn(consumed, Seq::empty(), CodecStatus::NeedInput))
                }
            } else {
                ZstdModel { pending: self.pending.skip(read as int), ..self }.settle(
                    probe,
                    consumed,
                    written,
                    room,
                    end,
                )
            },
        }
    }

    /// The frame decoder is called on all bytes retained.
    pub open spec fn decode(self, consumed: nat, room: nat, end: EndOfInput) -> Result<
        ZstdMove,
        ErrorView,
    > {
        let called = ZstdModel { history: self.history.push((self.pending, room)), ..self };
        called.apply(
            zstd_result(self.history, self.pending, room),
            FrameProbe::of(called.history),
            consumed,
            room,
            end,
        )
    }

    /// The bytes of input that one call takes.
    pub open spec fn acceptable(self, input_len: nat) -> nat {
        let free = if self.pending.len() >= MAX_PENDING {
            0
        } else {
            (MAX_PENDING - self.pending.len()) as nat
        };
        if free < input_len {
            free
        } else {
            input_len
        }
    }

    /// One call.
    pub open spec fn process(self, input: Seq<u8>, room: nat, end: EndOfInput) -> Result<
        ZstdMove,
        ErrorView,
    > {
        if self.done {
            if input.len() == 0 {
                Ok(self.turn(0, Seq::empty(), CodecStatus::Done))
            } else {
                Err(zstd_malformed("data follows the completed Zstandard stream"@))
            }
        } else {
            let consumed = self.acceptable(input.len());
            let fed = ZstdModel { pending: self.pending + input.take(consumed as int), ..self };
            if fed.frame_active {
                fed.decode(consumed, room, end)
            } else if fed.pending.len() < 4 {
                if end is End {
                    if fed.saw_frame && fed.pending.len() == 0 {
                        Ok(
                            ZstdModel { done: true, ..fed }.turn(
                                consumed,
                                Seq::empty(),
                                CodecStatus::Done,
                            ),
                        )
                    } else {
                        Err(zstd_malformed("truncated Zstandard frame header"@))
                    }
                } else {
                    Ok(fed.turn(consumed, Seq::empty(), CodecStatus::NeedInput))
                }
            } else if fed.pending.take(4) != MAGIC@ {
                Err(zstd_malformed("invalid Zstandard frame magic"@))
            } else {
                ZstdModel { frame_active: true, ..fed }.decode(consumed, room, end)
            }
        }
    }
}

// ---------------------------------------------------------------------------
// Decoder
// ---------------------------------------------------------------------------

/// Incremental Zstandard decoder.
pub struct ZstdDecoder {
    pub frame: FrameState,
    pub pending: Vec<u8>,
    pub frame_active: bool,
    pub saw_frame: bool,
    pub done: bool,
}

impl View for ZstdDecoder {
    type V = ZstdModel;

    open spec fn view(&self) -> ZstdModel {
        ZstdModel {
            history: self.frame.history(),
            pending: self.pending@,
            frame_active: self.frame_active,
            saw_frame: self.saw_frame,
            done: self.done,
        }
    }
}

/// The result of a call in the form of its contract.
pub open spec fn zstd_matches(
    result: Result<CodecStep, ArchiveError>,
    model: ZstdModel,
    output: Seq<u8>,
    expected: Result<ZstdMove, ErrorView>,
) -> bool {
    match result {
        Ok(step) => step.produced <= output.len() && expected == Ok::<_, ErrorView>(
            ZstdMove {
                model,
                consumed: step.consumed as nat,
                written: output.take(step.produced as int),
                status: step.status,
            },
        ),
        Err(error) => expected == Err::<ZstdMove, _>(error@),
    }
}

impl Default for ZstdDecoder {
    fn default() -> (decoder: Self)
        ensures
            decoder.wf(),
            decoder@ == (ZstdModel {
                history: Seq::empty(),
                pending: Seq::empty(),
                frame_active: false,
                saw_frame: false,
                done: false,
            }),
    {
        ZstdDecoder::new()
    }
}

impl ZstdDecoder {
    /// The bytes retained are bounded.
    pub open spec fn wf(self) -> bool {
        self.pending@.len() <= MAX_PENDING
    }

    /// A decoder before its first byte.
    pub fn new() -> (decoder: Self)
        ensures
            decoder.wf(),
            decoder@ == (ZstdModel {
                history: Seq::empty(),
                pending: Seq::empty(),
                frame_active: false,
                saw_frame: false,
                done: false,
            }),
    {
        let decoder = ZstdDecoder {
            frame: FrameState::new(),
            pending: Vec::new(),
            frame_active: false,
            saw_frame: false,
            done: false,
        };
        proof {
            assert(decoder@.history =~= Seq::empty());
        }
        decoder
    }

    fn close_frame(&mut self, probe: FrameProbe) -> (result: Result<(), ArchiveError>)
        ensures
            match result {
                Ok(()) => old(self)@.close_frame(probe) == Ok::<_, ErrorView>(final(self)@),
                Err(error) => old(self)@.close_frame(probe) == Err::<ZstdModel, _>(error@),
            },
    {
        if probe.finished && probe.drained {
            if let Some(expected) = probe.stored {
                match probe.computed {
                    None => {
                        return Err(malformed("Zstandard checksum state was not available"));
                    },
                    Some(computed) => {
                        if computed != expected {
                            return Err(malformed("Zstandard frame checksum mismatch"));
                        }
                    },
                }
            }
            self.saw_frame = true;
            self.frame_active = false;
            self.frame = FrameState::new();
            proof {
                assert(self@.history =~= Seq::empty());
            }
        }
        Ok(())
    }

    /// What the caller has to supply next.
    fn next_status(&self, drained: bool, produced: usize, room: usize, end: EndOfInput) -> (result:
        Result<CodecStatus, ArchiveError>)
        ensures
            match result {
                Ok(status) => self@.next_status(drained, produced as nat, room as nat, end)
                    == Ok::<_, ErrorView>(status),
                Err(error) => self@.next_status(drained, produced as nat, room as nat, end)
                    == Err::<CodecStatus, _>(error@),
            },
    {
        let at_end = end == EndOfInput::End;
        if !self.frame_active {
            if self.pending.len() == 0 {
                if at_end {
                    return Ok(CodecStatus::Done);
                }
                return Ok(CodecStatus::NeedInput);
            }
            proof {
                let p = self.pending@;
                if p.len() >= 4 {
                    assert(p.subrange(0, 4) =~= p.take(4));
                }
            }
            if self.pending.len() >= 4 && !starts_with(self.pending.as_slice(), &MAGIC) {
                return Err(malformed("non-frame trailing filter data"));
            }
            if at_end && self.pending.len() < 4 {
                return Err(malformed("truncated Zstandard frame header"));
            }
            return Ok(CodecStatus::NeedInput);
        }
        if at_end && produced == 0 && self.pending.len() > 0 {
            return Err(malformed("Zstandard frame ended before its terminal block"));
        }
        if !drained || self.pending.len() > 0 || (room != 0 && produced == room) {
            Ok(CodecStatus::NeedOutput)
        } else if at_end {
            Err(malformed("Zstandard frame ended before its terminal block"))
        } else {
            Ok(CodecStatus::NeedInput)
        }
    }

    /// Goes on from what the frame decoder returned and where the frame stands.
    pub fn apply(
        &mut self,
        result: Result<(usize, usize), String>,
        probe: FrameProbe,
        consumed: usize,
        output: &[u8],
        end: EndOfInput,
    ) -> (step: Result<CodecStep, ArchiveError>)
        requires
            old(self).wf(),
            result matches Ok((_, written)) ==> written <= output@.len(),
        ensures
            zstd_matches(
                step,
                final(self)@,
                output@,
                old(self)@.apply(
                    zstd_outcome(result, output@),
                    probe,
                    consumed as nat,
                    output@.len(),
                    end,
                ),
            ),
            step is Ok ==> final(self).wf() && step->Ok_0.consumed == consumed,
    {
        proof {
            assert(output@.take(0) =~= Seq::<u8>::empty());
        }
        match result {
            Err(message) => {
                if end == EndOfInput::More && self.pending.len() < MAX_PENDING && consumed != 0 {
                    Ok(CodecStep { consumed, produced: 0, status: CodecStatus::NeedInput })
                } else {
                    Err(ArchiveError::of_format_text(ErrorKind::Malformed, "zstd", message))
                }
            },
            Ok((read, produced)) => {
                if read > self.pending.len() {
                    if end == EndOfInput::End {
                        return Err(malformed("truncated Zstandard frame checksum"));
                    }
                    return Ok(
                        CodecStep { consumed, produced: 0, status: CodecStatus::NeedInput },
                    );
                }
                let rest = self.pending.split_off(read);
                proof {
                    assert(rest@ =~= old(self).pending@.skip(read as int));
                }
                self.pending = rest;
                self.close_frame(probe)?;
                let drained = probe.drained || !self.frame_active;
                let status = self.next_status(drained, produced, output.len(), end)?;
                if status == CodecStatus::Done {
                    self.done = true;
                }
                Ok(CodecStep { consumed, produced, status })
            },
        }
    }

    fn decode(&mut self, consumed: usize, output: &mut [u8], end: EndOfInput) -> (step: Result<
        CodecStep,
        ArchiveError,
    >)
        requires
            old(self).wf(),
        ensures
            zstd_matches(
                step,
                final(self)@,
                final(output)@,
                old(self)@.decode(consumed as nat, old(output)@.len(), end),
            ),
            final(output)@.len() == old(output)@.len(),
            step is Ok ==> final(self).wf() && step->Ok_0.consumed == consumed,
    {
        let result = self.frame.run(self.pending.as_slice(), output);
        let probe = self.frame.probe();
        self.apply(result, probe, consumed, output, end)
    }

    /// Decodes from `input` to `output`.
    pub fn process(&mut self, input: &[u8], output: &mut [u8], end: EndOfInput) -> (step: Result<
        CodecStep,
        ArchiveError,
    >)
        requires
            old(self).wf(),
        ensures
            zstd_matches(
                step,
                final(self)@,
                final(output)@,
                old(self)@.process(input@, old(output)@.len(), end),
            ),
            final(output)@.len() == old(output)@.len(),
            step is Ok ==> final(self).wf() && step->Ok_0.fits(input@.len(), old(output)@.len()),
    {
        proof {
            assert(output@.take(0) =~= Seq::<u8>::empty());
        }
        if self.done {
            if input.len() == 0 {
                return Ok(CodecStep { consumed: 0, produced: 0, status: CodecStatus::Done });
            }
            return Err(malformed("data follows the completed Zstandard stream"));
        }
        let free: usize = if self.pending.len() >= MAX_PENDING {
            0
        } else {
            MAX_PENDING - self.pending.len()
        };
        let consumed: usize = if free < input.len() {
            free
        } else {
            input.len()
        };
        self.pending.extend_from_slice(&input[0..consumed]);
        proof {
            assert(self.pending@ =~= old(self).pending@ + input@.take(consumed as int));
        }
        if !self.frame_active {
            if self.pending.len() < 4 {
                if end == EndOfInput::End {
                    if self.saw_frame && self.pending.len() == 0 {
                        self.done = true;
                        return Ok(
                            CodecStep { consumed, produced: 0, status: CodecStatus::Done },
                        );
                    }
                    return Err(malformed("truncated Zstandard frame header"));
                }
                return Ok(CodecStep { consumed, produced: 0, status: CodecStatus::NeedInput });
            }
            proof {
                let p = self.pending@;
                assert(p.subrange(0, 4) =~= p.take(4));
            }
            if !starts_with(self.pending.as_slice(), &MAGIC) {
                return Err(malformed("invalid Zstandard frame magic"));
            }
            self.frame_active = true;
        }
        self.decode(consumed, output, end)
    }
}

// ---------------------------------------------------------------------------
// The window limit
// ---------------------------------------------------------------------------

/// The window that a memory limit allows: the largest power of two within it, at
/// most two gibibytes.
pub open spec fn is_window_log(memory: nat, log: nat) -> bool {
    &&& 10 <= log <= 31
    &&& pow2(log) <= memory
    &&& log < 31 ==> memory < pow2(log + 1)
}

/// The base-two logarithm of the largest window that is allowed, if there is a
/// limit on the memory of a codec.
pub fn window_log_limit(limits: Limits) -> (result: Result<Option<u32>, ArchiveError>)
    ensures
        match limits.codec_memory {
            None => result matches Ok(log) && log is None,
            Some(memory) => if memory < 1024 {
                result matches Err(error) && error@ == fault(
                    ErrorKind::Limit,
                    "zstd",
                    "Zstandard codec memory limit is below the minimum 1 KiB window"@,
                )
            } else {
                result matches Ok(Some(log)) && is_window_log(memory as nat, log as nat)
            },
        },
{
    let memory: usize = match limits.codec_memory {
        Some(memory) => memory,
        None => {
            return Ok(None);
        },
    };
    if memory < 1024 {
        return Err(
            ArchiveError::of_format(
                ErrorKind::Limit,
                "zstd",
                "Zstandard codec memory limit is below the minimum 1 KiB window",
            ),
        );
    }
    let mut log: u32 = 10;
    let mut power: u64 = 1024;
    proof {
        lemma2_to64();
    }
    while log < 31 && power * 2 <= memory as u64
        invariant
            10 <= log <= 31,
            power == pow2(log as nat),
            power <= memory,
            power <= 0x8000_0000,
        decreases 31 - log,
    {
        proof {
            lemma_pow2_unfold((log + 1) as nat);
            lemma2_to64();
            if log < 30 {
                lemma_pow2_strictly_increases((log + 1) as nat, 31);
            }
        }
        power = power * 2;
        log = log + 1;
    }
    proof {
        lemma_pow2_unfold((log + 1) as nat);
    }
    Ok(Some(log))
}

} // verus!
