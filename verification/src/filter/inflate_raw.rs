//! Raw DEFLATE decoding without framing.

use vstd::prelude::*;
use crate::codec::{CodecStatus, CodecStep, EndOfInput};
use crate::error::{ArchiveError, ErrorKind, ErrorView};
use crate::filter::deflate::{inflate_result, CoderOutcome, CoderStatus, Inflater};
use crate::filter::gzip::{gzip_error, gzip_fault};
use crate::limits::Limits;

verus! {

/// The mathematical content of a [`RawInflateDecoder`].
#[verifier::ext_equal]
pub struct RawModel {
    /// The calls that the DEFLATE decoder has seen.
    pub history: Seq<(Seq<u8>, nat, bool)>,
    pub limits: Limits,
    pub decoded_total: u64,
    pub done: bool,
}

/// One step of the decoder.
#[verifier::ext_equal]
pub struct RawMove {
    pub model: RawModel,
    pub consumed: nat,
    pub written: Seq<u8>,
    pub status: CodecStatus,
}

impl RawModel {
    /// The decoder with `count` more decoded bytes, or the refusal of them.
    pub open spec fn account(self, count: nat) -> Result<RawModel, ErrorView> {
        if count == 0 {
            Ok(self)
        } else if self.decoded_total + count > u64::MAX {
            Err(gzip_fault(ErrorKind::Limit, "decoded byte count overflow"@))
        } else if self.limits.decoded_total matches Some(maximum) && self.decoded_total + count
            > maximum {
            Err(gzip_fault(ErrorKind::Limit, "decoded stream exceeds configured limit"@))
        } else {
            Ok(RawModel { decoded_total: (self.decoded_total + count) as u64, ..self })
        }
    }

    /// The decoder after one more DEFLATE call.
    pub open spec fn called(self, input: Seq<u8>, room: nat, finish: bool) -> RawModel {
        RawModel { history: self.history.push((input, room, finish)), ..self }
    }

    /// The end of the input, given what the DEFLATE decoder had left.
    pub open spec fn tail(self, result: (nat, Seq<u8>, CoderStatus)) -> Result<RawMove, ErrorView> {
        let (_, written, status) = result;
        match self.account(written.len()) {
            Err(error) => Err(error),
            Ok(next) => if status is End {
                Ok(
                    RawMove {
                        model: RawModel { done: true, ..next },
                        consumed: 0,
                        written,
                        status: CodecStatus::Done,
                    },
                )
            } else if status is More && written.len() > 0 {
                Ok(RawMove { model: next, consumed: 0, written, status: CodecStatus::NeedOutput })
            } else {
                Err(gzip_fault(ErrorKind::Malformed, "truncated deflate stream"@))
            },
        }
    }

    /// A step over input, given what the DEFLATE decoder made of it.
    pub open spec fn body(
        self,
        result: (nat, Seq<u8>, CoderStatus),
        input_len: nat,
        room: nat,
    ) -> Result<RawMove, ErrorView> {
        let (consumed, written, status) = result;
        match self.account(written.len()) {
            Err(error) => Err(error),
            Ok(next) => if status is End {
                Ok(
                    RawMove {
                        model: RawModel { done: true, ..next },
                        consumed,
                        written,
                        status: CodecStatus::Done,
                    },
                )
            } else if status is Broken {
                Err(gzip_fault(ErrorKind::Malformed, "inflate error"@))
            } else if written.len() == room {
                Ok(RawMove { model: next, consumed, written, status: CodecStatus::NeedOutput })
            } else if consumed == input_len {
                Ok(RawMove { model: next, consumed, written, status: CodecStatus::NeedInput })
            } else if consumed == 0 && written.len() == 0 {
                Err(gzip_fault(ErrorKind::Malformed, "deflate stream stalled"@))
            } else {
                Ok(RawMove { model: next, consumed, written, status: CodecStatus::NeedOutput })
            },
        }
    }

    /// One call.
    pub open spec fn process(self, input: Seq<u8>, room: nat, end: EndOfInput) -> Result<
        RawMove,
        ErrorView,
    > {
        if self.done {
            if input.len() == 0 {
                Ok(
                    RawMove {
                        model: self,
                        consumed: 0,
                        written: Seq::empty(),
                        status: CodecStatus::Done,
                    },
                )
            } else {
                Err(
                    gzip_fault(ErrorKind::Malformed, "data follows the completed deflate stream"@),
                )
            }
        } else if input.len() == 0 {
            if end is End {
                self.called(Seq::empty(), room, true).tail(
                    inflate_result(self.history, Seq::empty(), room, true),
                )
            } else {
                Ok(
                    RawMove {
                        model: self,
                        consumed: 0,
                        written: Seq::empty(),
                        status: CodecStatus::NeedInput,
                    },
                )
            }
        } else {
            self.called(input, room, false).body(
                inflate_result(self.history, input, room, false),
                input.len(),
                room,
            )
        }
    }
}

/// Raw DEFLATE decompressor.
pub struct RawInflateDecoder {
    pub inflater: Inflater,
    pub limits: Limits,
    pub decoded_total: u64,
    pub done: bool,
}

impl View for RawInflateDecoder {
    type V = RawModel;

    open spec fn view(&self) -> RawModel {
        RawModel {
            history: self.inflater.history(),
            limits: self.limits,
            decoded_total: self.decoded_total,
            done: self.done,
        }
    }
}

/// The result of a call in the form of its contract.
pub open spec fn raw_matches(
    result: Result<CodecStep, ArchiveError>,
    model: RawModel,
    output: Seq<u8>,
    expected: Result<RawMove, ErrorView>,
) -> bool {
    match result {
        Ok(step) => step.produced <= output.len() && expected == Ok::<_, ErrorView>(
            RawMove {
                model,
                consumed: step.consumed as nat,
                written: output.take(step.produced as int),
                status: step.status,
            },
        ),
        Err(error) => expected == Err::<RawMove, _>(error@),
    }
}

impl RawInflateDecoder {
    /// A decoder before its first byte.
    pub fn new(limits: Limits) -> (decoder: Self)
        ensures
            decoder@ == (RawModel {
                history: Seq::empty(),
                limits,
                decoded_total: 0,
                done: false,
            }),
    {
        let decoder = RawInflateDecoder {
            inflater: Inflater::new(),
            limits,
            decoded_total: 0,
            done: false,
        };
        proof {
            assert(decoder@.history =~= Seq::empty());
        }
        decoder
    }

    fn account_output(&mut self, produced: usize) -> (result: Result<(), ArchiveError>)
        ensures
            match result {
                Ok(()) => old(self)@.account(produced as nat) == Ok::<_, ErrorView>(final(self)@),
                Err(error) => old(self)@.account(produced as nat) == Err::<RawModel, _>(error@),
            },
    {
        if produced == 0 {
            return Ok(());
        }
        let next: u64 = match self.decoded_total.checked_add(produced as u64) {
            Some(next) => next,
            None => {
                return Err(gzip_error(ErrorKind::Limit, "decoded byte count overflow"));
            },
        };
        if let Some(maximum) = self.limits.decoded_total {
            if next > maximum {
                return Err(
                    gzip_error(ErrorKind::Limit, "decoded stream exceeds configured limit"),
                );
            }
        }
        self.decoded_total = next;
        Ok(())
    }

    /// Goes on from what the DEFLATE decoder had left at the end of the input.
    pub fn apply_tail(&mut self, outcome: CoderOutcome, output: &[u8]) -> (result: Result<
        CodecStep,
        ArchiveError,
    >)
        requires
            outcome.written <= output@.len(),
        ensures
            raw_matches(
                result,
                final(self)@,
                output@,
                old(self)@.tail(
                    (
                        outcome.consumed as nat,
                        output@.take(outcome.written as int),
                        outcome.status,
                    ),
                ),
            ),
            result is Ok ==> result->Ok_0.consumed == 0,
    {
        let produced: usize = outcome.written;
        self.account_output(produced)?;
        if outcome.status == CoderStatus::End {
            self.done = true;
            Ok(CodecStep { consumed: 0, produced, status: CodecStatus::Done })
        } else if outcome.status == CoderStatus::More && produced > 0 {
            Ok(CodecStep { consumed: 0, produced, status: CodecStatus::NeedOutput })
        } else {
            Err(gzip_error(ErrorKind::Malformed, "truncated deflate stream"))
        }
    }

    /// Goes on from what the DEFLATE decoder made of the input.
    pub fn apply_body(&mut self, outcome: CoderOutcome, input_len: usize, output: &[u8]) -> (result:
        Result<CodecStep, ArchiveError>)
        requires
            outcome.written <= output@.len(),
        ensures
            raw_matches(
                result,
                final(self)@,
                output@,
                old(self)@.body(
                    (
                        outcome.consumed as nat,
                        output@.take(outcome.written as int),
                        outcome.status,
                    ),
                    input_len as nat,
                    output@.len(),
                ),
            ),
            result is Ok ==> result->Ok_0.consumed == outcome.consumed,
    {
        let consumed: usize = outcome.consumed;
        let produced: usize = outcome.written;
        self.account_output(produced)?;
        if outcome.status == CoderStatus::End {
            self.done = true;
            return Ok(CodecStep { consumed, produced, status: CodecStatus::Done });
        }
        if outcome.status == CoderStatus::Broken {
            return Err(gzip_error(ErrorKind::Malformed, "inflate error"));
        }
        let status = if produced == output.len() {
            CodecStatus::NeedOutput
        } else if consumed == input_len {
            CodecStatus::NeedInput
        } else if consumed == 0 && produced == 0 {
            return Err(gzip_error(ErrorKind::Malformed, "deflate stream stalled"));
        } else {
            CodecStatus::NeedOutput
        };
        Ok(CodecStep { consumed, produced, status })
    }

    /// Decodes from `input` to `output`.
    pub fn process(&mut self, input: &[u8], output: &mut [u8], end: EndOfInput) -> (result: Result<
        CodecStep,
        ArchiveError,
    >)
        ensures
            raw_matches(
                result,
                final(self)@,
                final(output)@,
                old(self)@.process(input@, old(output)@.len(), end),
            ),
            final(output)@.len() == old(output)@.len(),
            result is Ok ==> result->Ok_0.fits(input@.len(), old(output)@.len()),
    {
        proof {
            assert(output@.take(0) =~= Seq::<u8>::empty());
        }
        if self.done {
            if input.len() == 0 {
                return Ok(CodecStep { consumed: 0, produced: 0, status: CodecStatus::Done });
            }
            return Err(
                gzip_error(ErrorKind::Malformed, "data follows the completed deflate stream"),
            );
        }
        if input.len() == 0 {
            if end != EndOfInput::End {
                return Ok(CodecStep { consumed: 0, produced: 0, status: CodecStatus::NeedInput });
            }
            let empty: [u8; 0] = [];
            proof {
                assert(empty@ =~= Seq::<u8>::empty());
            }
            let outcome = self.inflater.run(&empty, output, true);
            return self.apply_tail(outcome, output);
        }
        let outcome = self.inflater.run(input, output, false);
        self.apply_body(outcome, input.len(), output)
    }
}

} // verus!
