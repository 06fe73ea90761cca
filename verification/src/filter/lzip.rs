//! Caller-driven lzip decoding.
//!
//! The members are decoded by a worker that reads its input from a queue. This
//! module decides, one step at a time, what to exchange with that worker. It
//! keeps input that the worker has not taken yet and hands decoded bytes to the
//! caller in order. The driver performs each [`LzipAction`] and reports an
//! [`LzipReply`].

use vstd::prelude::*;
use crate::bytes::{copy_at, overlay};
use crate::codec::{CodecStatus, CodecStep, EndOfInput};
use crate::error::{fault, ArchiveError, ErrorKind, ErrorView};

verus! {

/// Bytes that may be staged for the worker at any time.
pub const MAX_STAGED: usize = 64 * 1024;

/// An error about malformed lzip data.
pub open spec fn lzip_malformed(context: Seq<char>) -> ErrorView {
    fault(ErrorKind::Malformed, "lzip", context)
}

/// An error about malformed lzip data.
fn malformed(context: &str) -> (error: ArchiveError)
    ensures
        error@ == lzip_malformed(context@),
{
    ArchiveError::of_format(ErrorKind::Malformed, "lzip", context)
}

/// Which question the decoder has put to its driver.
#[derive(Clone, Copy, Debug, PartialEq, Eq, Structural)]
pub enum LzipStage {
    /// Between calls.
    Idle,
    /// Looking for decoded output before input is taken.
    PollTop,
    /// Offering bytes that an earlier call left over.
    FlushBefore,
    /// Offering bytes that this call has taken.
    FlushAfter,
    /// Offering the last bytes.
    FlushEnd,
    /// Announcing the end of input.
    SendEnd,
    /// Looking for decoded output after input was taken.
    PollTail,
    /// Waiting for the worker.
    Waiting,
}

/// What the driver has to do next.
pub enum LzipAction {
    /// Look for a worker event without waiting.
    Poll,
    /// Wait for a worker event, or ask to be woken for one and look once.
    Pump,
    /// Offer these bytes to the worker without waiting.
    Send(Vec<u8>),
    /// Offer the end of input to the worker without waiting.
    SendEnd,
    /// End the call with this result.
    Return(Result<CodecStep, ArchiveError>),
    /// End the call for now: the caller is woken when an event is there.
    Yield,
}

/// What came of an action.
pub enum LzipReply {
    /// No worker event is there.
    NoEvent,
    /// The worker asks for input.
    NeedInput,
    /// The worker decoded these bytes.
    Output(Vec<u8>),
    /// The worker ended without an error.
    Finished,
    /// The worker ended with an error.
    Failed { out_of_memory: bool, message: String },
    /// The worker panicked.
    Panicked,
    /// There is no worker.
    Gone,
    /// The worker's queue took what was offered.
    Accepted,
    /// The worker's queue is full; the offered bytes come back.
    Full(Vec<u8>),
    /// The worker's queue is closed; the offered bytes come back.
    Closed(Vec<u8>),
    /// The queue gave back something else than was offered.
    Misdelivered { closed: bool },
    /// The event queue was poisoned.
    ReceiverPoisoned,
    /// The worker's handle was poisoned.
    HandlePoisoned,
}

/// The mathematical content of an [`LzipAction`].
pub enum LzipActionView {
    Poll,
    Pump,
    Send(Seq<u8>),
    SendEnd,
    Return(Result<CodecStep, ErrorView>),
    Yield,
}

impl View for LzipAction {
    type V = LzipActionView;

    open spec fn view(&self) -> LzipActionView {
        match self {
            LzipAction::Poll => LzipActionView::Poll,
            LzipAction::Pump => LzipActionView::Pump,
            LzipAction::Send(bytes) => LzipActionView::Send(bytes@),
            LzipAction::SendEnd => LzipActionView::SendEnd,
            LzipAction::Yield => LzipActionView::Yield,
            LzipAction::Return(result) => LzipActionView::Return(
                match result {
                    Ok(step) => Ok(*step),
                    Err(error) => Err(error@),
                },
            ),
        }
    }
}

/// The mathematical content of an [`LzipReply`].
pub enum LzipReplyView {
    NoEvent,
    NeedInput,
    Output(Seq<u8>),
    Finished,
    Failed { out_of_memory: bool, message: Seq<char> },
    Panicked,
    Gone,
    Accepted,
    Full(Seq<u8>),
    Closed(Seq<u8>),
    Misdelivered { closed: bool },
    ReceiverPoisoned,
    HandlePoisoned,
}

impl View for LzipReply {
    type V = LzipReplyView;

    open spec fn view(&self) -> LzipReplyView {
        match self {
            LzipReply::NoEvent => LzipReplyView::NoEvent,
            LzipReply::NeedInput => LzipReplyView::NeedInput,
            LzipReply::Output(bytes) => LzipReplyView::Output(bytes@),
            LzipReply::Finished => LzipReplyView::Finished,
            LzipReply::Failed { out_of_memory, message } => LzipReplyView::Failed {
                out_of_memory: *out_of_memory,
                message: message@,
            },
            LzipReply::Panicked => LzipReplyView::Panicked,
            LzipReply::Gone => LzipReplyView::Gone,
            LzipReply::Accepted => LzipReplyView::Accepted,
            LzipReply::Full(bytes) => LzipReplyView::Full(bytes@),
            LzipReply::Closed(bytes) => LzipReplyView::Closed(bytes@),
            LzipReply::Misdelivered { closed } => LzipReplyView::Misdelivered { closed: *closed },
            LzipReply::ReceiverPoisoned => LzipReplyView::ReceiverPoisoned,
            LzipReply::HandlePoisoned => LzipReplyView::HandlePoisoned,
        }
    }
}

/// The buffers of one call.
pub struct LzipIo {
    pub input: Seq<u8>,
    pub room: nat,
    pub end: EndOfInput,
}

/// The mathematical content of an [`LzipDecoder`].
#[verifier::ext_equal]
pub struct LzipModel {
    /// Bytes that the worker has not taken.
    pub pending_input: Seq<u8>,
    /// Decoded bytes that the caller has not taken.
    pub pending_output: Seq<u8>,
    pub input_open: bool,
    /// The worker takes no more input.
    pub input_disconnected: bool,
    pub end_sent: bool,
    pub done: bool,
    pub failure: Option<ErrorView>,
    pub stage: LzipStage,
    pub consumed: nat,
    pub produced: nat,
}

/// One step of the decoder: go on with an action, or end the stream with an
/// error. `written` are the bytes that went to the caller.
pub enum LzipMove {
    Go { model: LzipModel, action: LzipActionView, written: Seq<u8> },
    Fail { error: ErrorView, written: Seq<u8> },
}

impl LzipMove {
    /// The same step with `bytes` handed to the caller first.
    pub open spec fn writing(self, bytes: Seq<u8>) -> LzipMove {
        match self {
            LzipMove::Go { model, action, written } => LzipMove::Go {
                model,
                action,
                written: bytes + written,
            },
            LzipMove::Fail { error, written } => LzipMove::Fail { error, written: bytes + written },
        }
    }

    /// The bytes that the step hands to the caller.
    pub open spec fn bytes(self) -> Seq<u8> {
        match self {
            LzipMove::Go { written, .. } => written,
            LzipMove::Fail { written, .. } => written,
        }
    }
}

/// A step that asks the driver something.
pub open spec fn ask(model: LzipModel, stage: LzipStage, action: LzipActionView) -> LzipMove {
    LzipMove::Go { model: LzipModel { stage, ..model }, action, written: Seq::empty() }
}

/// A step that ends the call.
pub open spec fn give(model: LzipModel, consumed: nat, produced: nat, status: CodecStatus) -> LzipMove {
    LzipMove::Go {
        model: LzipModel { stage: LzipStage::Idle, ..model },
        action: LzipActionView::Return(
            Ok(CodecStep { consumed: consumed as usize, produced: produced as usize, status }),
        ),
        written: Seq::empty(),
    }
}

/// A step that ends the stream.
pub open spec fn stop(error: ErrorView) -> LzipMove {
    LzipMove::Fail { error, written: Seq::empty() }
}

/// Which replies an open question can have.
pub open spec fn reply_fits(stage: LzipStage, reply: LzipReplyView) -> bool {
    let queue = reply is Accepted || reply is Full || reply is Closed || reply is Misdelivered;
    match stage {
        LzipStage::Idle => false,
        LzipStage::PollTop | LzipStage::PollTail | LzipStage::Waiting => !queue,
        _ => queue,
    }
}

impl LzipModel {
    /// Whether this call has taken the last input.
    pub open spec fn at_end(self, io: LzipIo) -> bool {
        io.end is End && self.consumed == io.input.len()
    }

    /// How many decoded bytes fit the caller's buffer.
    pub open spec fn drainable(self, room: nat) -> nat {
        if self.pending_output.len() <= room - self.produced {
            self.pending_output.len()
        } else {
            (room - self.produced) as nat
        }
    }

    /// The decoder after decoded bytes went to the caller.
    pub open spec fn drained(self, room: nat) -> LzipModel {
        let count = self.drainable(room);
        LzipModel {
            pending_output: self.pending_output.skip(count as int),
            produced: self.produced + count,
            ..self
        }
    }

    /// The bytes that go to the caller then.
    pub open spec fn drain_bytes(self, room: nat) -> Seq<u8> {
        self.pending_output.take(self.drainable(room) as int)
    }

    /// The start of a call.
    pub open spec fn begin(self, io: LzipIo) -> LzipMove {
        match self.failure {
            Some(error) => stop(error),
            None => if self.done {
                if io.input.len() == 0 {
                    give(
                        LzipModel { consumed: 0, produced: 0, ..self },
                        0,
                        0,
                        CodecStatus::Done,
                    )
                } else {
                    stop(lzip_malformed("data follows the completed lzip stream"@))
                }
            } else {
                let fresh = LzipModel { consumed: 0, produced: 0, ..self };
                fresh.drained(io.room).top(io).writing(fresh.drain_bytes(io.room))
            },
        }
    }

    /// The top of the exchange.
    pub open spec fn top(self, io: LzipIo) -> LzipMove {
        if self.done {
            give(self, self.consumed, self.produced, CodecStatus::Done)
        } else {
            self.poll_top(io)
        }
    }

    pub open spec fn poll_top(self, io: LzipIo) -> LzipMove {
        if self.produced < io.room {
            ask(self, LzipStage::PollTop, LzipActionView::Poll)
        } else {
            self.flush_before(io)
        }
    }

    /// Offers the staged bytes.
    pub open spec fn offer(self, stage: LzipStage) -> LzipMove {
        if !self.input_open {
            stop(lzip_malformed("lzip decoder input is closed"@))
        } else {
            ask(
                LzipModel { pending_input: Seq::empty(), ..self },
                stage,
                LzipActionView::Send(self.pending_input),
            )
        }
    }

    pub open spec fn flush_before(self, io: LzipIo) -> LzipMove {
        if self.pending_input.len() == 0 {
            self.accept(io)
        } else if self.input_disconnected {
            self.finish_input(io)
        } else {
            self.offer(LzipStage::FlushBefore)
        }
    }

    /// How many bytes of input this call takes.
    pub open spec fn acceptable(self, io: LzipIo) -> nat {
        let left = (io.input.len() - self.consumed) as nat;
        if (MAX_STAGED as nat) < left {
            MAX_STAGED as nat
        } else {
            left
        }
    }

    /// Takes input once nothing is staged.
    pub open spec fn accept(self, io: LzipIo) -> LzipMove {
        if self.consumed < io.input.len() {
            let count = self.acceptable(io);
            LzipModel {
                pending_input: io.input.subrange(
                    self.consumed as int,
                    (self.consumed + count) as int,
                ),
                consumed: self.consumed + count,
                ..self
            }.flush_after(io)
        } else {
            self.finish_input(io)
        }
    }

    pub open spec fn flush_after(self, io: LzipIo) -> LzipMove {
        if self.input_disconnected {
            self.finish_input(io)
        } else {
            self.offer(LzipStage::FlushAfter)
        }
    }

    /// Ends the input once all of it has been taken.
    pub open spec fn finish_input(self, io: LzipIo) -> LzipMove {
        if !self.at_end(io) {
            self.poll_tail(io)
        } else if self.pending_input.len() == 0 {
            self.send_end(io)
        } else if self.input_disconnected {
            self.poll_tail(io)
        } else {
            self.offer(LzipStage::FlushEnd)
        }
    }

    pub open spec fn send_end(self, io: LzipIo) -> LzipMove {
        if self.end_sent || self.input_disconnected {
            self.poll_tail(io)
        } else if !self.input_open {
            stop(lzip_malformed("lzip decoder input is closed"@))
        } else {
            ask(self, LzipStage::SendEnd, LzipActionView::SendEnd)
        }
    }

    pub open spec fn poll_tail(self, io: LzipIo) -> LzipMove {
        if self.produced < io.room {
            ask(self, LzipStage::PollTail, LzipActionView::Poll)
        } else {
            self.decide(io)
        }
    }

    /// What the caller is told it has to supply next.
    pub open spec fn status(self, io: LzipIo) -> CodecStatus {
        if self.pending_output.len() > 0 || self.pending_input.len() > 0 || self.consumed
            != io.input.len() || (self.at_end(io) && !self.end_sent) || self.produced == io.room {
            CodecStatus::NeedOutput
        } else {
            CodecStatus::NeedInput
        }
    }

    /// Ends the call if it made progress; waits for the worker if it may yet.
    pub open spec fn decide(self, io: LzipIo) -> LzipMove {
        if self.at_end(io) && self.produced == 0 && self.pending_output.len() == 0 && io.room > 0 {
            ask(self, LzipStage::Waiting, LzipActionView::Pump)
        } else if self.produced != 0 || self.consumed != 0 {
            give(self, self.consumed, self.produced, self.status(io))
        } else if self.at_end(io) {
            if io.room == 0 && self.pending_output.len() > 0 {
                give(self, 0, 0, CodecStatus::NeedOutput)
            } else {
                ask(self, LzipStage::Waiting, LzipActionView::Pump)
            }
        } else if io.input.len() > 0 || self.pending_input.len() > 0 {
            ask(self, LzipStage::Waiting, LzipActionView::Pump)
        } else {
            give(
                self,
                0,
                self.produced,
                if io.room == 0 && self.pending_output.len() > 0 {
                    CodecStatus::NeedOutput
                } else {
                    CodecStatus::NeedInput
                },
            )
        }
    }

    /// Goes on after looking for output.
    pub open spec fn after_poll(self, io: LzipIo) -> LzipMove {
        match self.stage {
            LzipStage::PollTop => self.flush_before(io),
            LzipStage::PollTail => self.decide(io),
            _ => ask(self, LzipStage::Idle, LzipActionView::Yield),
        }
    }

    /// Goes on after an event: the same question again while there is room.
    pub open spec fn after_event(self, io: LzipIo) -> LzipMove {
        match self.stage {
            LzipStage::Waiting => self.top(io),
            LzipStage::PollTop => if self.pending_output.len() > 0 {
                self.flush_before(io)
            } else {
                self.poll_top(io)
            },
            _ => if self.pending_output.len() > 0 {
                self.decide(io)
            } else {
                self.poll_tail(io)
            },
        }
    }

    /// Goes on after bytes were offered: `self` holds what came back.
    pub open spec fn after_offer(self, taken: bool, io: LzipIo) -> LzipMove {
        match self.stage {
            LzipStage::FlushBefore => if taken {
                self.accept(io)
            } else {
                self.finish_input(io)
            },
            LzipStage::FlushAfter => self.finish_input(io),
            LzipStage::FlushEnd => if taken {
                self.send_end(io)
            } else {
                self.poll_tail(io)
            },
            _ => LzipModel { end_sent: self.end_sent || taken, ..self }.poll_tail(io),
        }
    }

    /// The step that a reply leads to.
    pub open spec fn resume(self, reply: LzipReplyView, io: LzipIo) -> LzipMove {
        match reply {
            LzipReplyView::NoEvent => self.after_poll(io),
            LzipReplyView::NeedInput => self.after_event(io),
            LzipReplyView::Output(bytes) => {
                let fresh = LzipModel { pending_output: bytes, ..self };
                fresh.drained(io.room).after_event(io).writing(fresh.drain_bytes(io.room))
            },
            LzipReplyView::Finished => {
                let ended = LzipModel { done: true, input_open: false, ..self };
                give(ended, ended.consumed, ended.produced, CodecStatus::Done)
            },
            LzipReplyView::Failed { out_of_memory, message } => stop(
                fault(
                    if out_of_memory {
                        ErrorKind::Limit
                    } else {
                        ErrorKind::Malformed
                    },
                    "lzip",
                    message,
                ),
            ),
            LzipReplyView::Panicked => stop(lzip_malformed("lzip decoder worker panicked"@)),
            LzipReplyView::Gone => stop(lzip_malformed("lzip decoder worker disconnected"@)),
            LzipReplyView::Accepted => self.after_offer(true, io),
            LzipReplyView::Full(bytes) => if self.stage is SendEnd {
                self.after_offer(false, io)
            } else {
                LzipModel { pending_input: bytes, ..self }.after_offer(false, io)
            },
            LzipReplyView::Closed(bytes) => self.cut(bytes).after_offer(false, io),
            LzipReplyView::Misdelivered { closed } => stop(
                lzip_malformed(
                    match (self.stage is SendEnd, closed) {
                        (
                            true,
                            true,
                        ) => "lzip decoder input queue returned the wrong disconnected end marker"@,
                        (true, false) => "lzip decoder input queue returned the wrong end marker"@,
                        (
                            false,
                            true,
                        ) => "lzip decoder input queue returned the wrong disconnected message"@,
                        (
                            false,
                            false,
                        ) => "lzip decoder input queue returned the wrong full message"@,
                    },
                ),
            ),
            LzipReplyView::ReceiverPoisoned => stop(
                lzip_malformed("lzip event receiver was poisoned"@),
            ),
            LzipReplyView::HandlePoisoned => stop(
                lzip_malformed("lzip worker handle was poisoned"@),
            ),
        }
    }

    /// The decoder after the worker stopped to take input; `bytes` came back.
    pub open spec fn cut(self, bytes: Seq<u8>) -> LzipModel {
        LzipModel {
            pending_input: if self.stage is SendEnd {
                self.pending_input
            } else {
                bytes
            },
            input_disconnected: true,
            input_open: false,
            ..self
        }
    }
}

/// Bounded caller-driven lzip decoder.
pub struct LzipDecoder {
    pub pending_input: Vec<u8>,
    pub pending_output: Vec<u8>,
    pub output_position: usize,
    pub input_open: bool,
    /// The worker takes no more input.
    pub input_disconnected: bool,
    pub end_sent: bool,
    pub done: bool,
    pub failure: Option<ArchiveError>,
    pub stage: LzipStage,
    pub consumed: usize,
    pub produced: usize,
}

impl View for LzipDecoder {
    type V = LzipModel;

    open spec fn view(&self) -> LzipModel {
        LzipModel {
            pending_input: self.pending_input@,
            pending_output: self.pending_output@.skip(self.output_position as int),
            input_open: self.input_open,
            input_disconnected: self.input_disconnected,
            end_sent: self.end_sent,
            done: self.done,
            failure: match self.failure {
                Some(error) => Some(error@),
                None => None,
            },
            stage: self.stage,
            consumed: self.consumed as nat,
            produced: self.produced as nat,
        }
    }
}

impl LzipDecoder {
    /// The fields fit each other. Nothing is promised of a failed decoder but
    /// that it stays failed.
    pub open spec fn wf(self) -> bool {
        self.failure is None ==> self.output_position <= self.pending_output@.len()
    }

    /// The counts of this call lie within its buffers.
    pub open spec fn call_fits(self, io: LzipIo) -> bool {
        self.consumed <= io.input.len() && self.produced <= io.room
    }

    /// `self` and `action` are what `step` asks for.
    pub open spec fn performs(self, action: LzipAction, step: LzipMove) -> bool {
        &&& self.wf()
        &&& match step {
            LzipMove::Go { model, action: asked, .. } => self@ == model && action@ == asked
                && self.failure is None,
            LzipMove::Fail { error, .. } => {
                &&& action@ == LzipActionView::Return(Err(error))
                &&& self@.failure == Some(error)
                &&& !self.input_open
            },
        }
    }

    /// A decoder before its first call.
    pub fn new() -> (decoder: Self)
        ensures
            decoder.wf(),
            decoder@ == (LzipModel {
                pending_input: Seq::empty(),
                pending_output: Seq::empty(),
                input_open: true,
                input_disconnected: false,
                end_sent: false,
                done: false,
                failure: None,
                stage: LzipStage::Idle,
                consumed: 0,
                produced: 0,
            }),
    {
        let decoder = LzipDecoder {
            pending_input: Vec::new(),
            pending_output: Vec::new(),
            output_position: 0,
            input_open: true,
            input_disconnected: false,
            end_sent: false,
            done: false,
            failure: None,
            stage: LzipStage::Idle,
            consumed: 0,
            produced: 0,
        };
        proof {
            assert(decoder@.pending_output =~= Seq::<u8>::empty());
        }
        decoder
    }

    fn fail(&mut self, error: ArchiveError) -> (action: LzipAction)
        ensures
            final(self).performs(action, stop(error@)),
    {
        self.input_open = false;
        self.failure = Some(error.duplicate());
        LzipAction::Return(Err(error))
    }

    fn complete(&mut self, consumed: usize, produced: usize, status: CodecStatus) -> (action:
        LzipAction)
        requires
            old(self).wf(),
            old(self).failure is None,
        ensures
            final(self).performs(
                action,
                give(old(self)@, consumed as nat, produced as nat, status),
            ),
    {
        self.stage = LzipStage::Idle;
        LzipAction::Return(Ok(CodecStep { consumed, produced, status }))
    }

    /// Copies decoded bytes to the caller.
    fn drain_output(&mut self, output: &mut [u8])
        requires
            old(self).wf(),
            old(self).failure is None,
            old(self).produced <= old(output)@.len(),
        ensures
            final(self).wf(),
            final(self)@ == old(self)@.drained(old(output)@.len()),
            final(output)@ == overlay(
                old(output)@,
                old(self).produced as int,
                old(self)@.drain_bytes(old(output)@.len()),
            ),
            final(self).produced <= final(output)@.len(),
            final(output)@.len() == old(output)@.len(),
    {
        let available: usize = self.pending_output.len() - self.output_position;
        let room: usize = output.len() - self.produced;
        let copied: usize = if available <= room {
            available
        } else {
            room
        };
        copy_at(output, self.produced, self.pending_output.as_slice(), self.output_position, copied);
        proof {
            let whole = self.pending_output@;
            let at = self.output_position as int;
            assert(whole.skip(at).take(copied as int) =~= whole.subrange(at, at + copied));
            assert(whole.skip(at).skip(copied as int) =~= whole.skip(at + copied));
        }
        self.output_position = self.output_position + copied;
        self.produced = self.produced + copied;
        if self.output_position == self.pending_output.len() {
            self.pending_output.clear();
            self.output_position = 0;
            proof {
                assert(self@.pending_output =~= old(self)@.drained(old(output)@.len()).pending_output);
            }
        }
        proof {
            assert(self@ =~= old(self)@.drained(old(output)@.len()));
        }
    }

    fn offer(&mut self, stage: LzipStage) -> (action: LzipAction)
        requires
            old(self).wf(),
            old(self).failure is None,
        ensures
            final(self).performs(action, old(self)@.offer(stage)),
    {
        if !self.input_open {
            return self.fail(malformed("lzip decoder input is closed"));
        }
        let mut bytes: Vec<u8> = Vec::new();
        std::mem::swap(&mut bytes, &mut self.pending_input);
        self.stage = stage;
        LzipAction::Send(bytes)
    }

    fn decide(&mut self, input: &[u8], room: usize, end: EndOfInput) -> (action: LzipAction)
        requires
            old(self).wf(),
            old(self).failure is None,
        ensures
            final(self).performs(
                action,
                old(self)@.decide(LzipIo { input: input@, room: room as nat, end }),
            ),
    {
        let at_end = end == EndOfInput::End && self.consumed == input.len();
        let waiting_output = self.output_position != self.pending_output.len();
        if at_end && self.produced == 0 && !waiting_output && room > 0 {
            self.stage = LzipStage::Waiting;
            return LzipAction::Pump;
        }
        let consumed: usize = self.consumed;
        let produced: usize = self.produced;
        if produced != 0 || consumed != 0 {
            let status = if waiting_output || self.pending_input.len() > 0 || consumed
                != input.len() || (at_end && !self.end_sent) || produced == room {
                CodecStatus::NeedOutput
            } else {
                CodecStatus::NeedInput
            };
            return self.complete(consumed, produced, status);
        }
        if at_end && room == 0 && waiting_output {
            return self.complete(0, 0, CodecStatus::NeedOutput);
        }
        if at_end || input.len() > 0 || self.pending_input.len() > 0 {
            self.stage = LzipStage::Waiting;
            return LzipAction::Pump;
        }
        let status = if room == 0 && waiting_output {
            CodecStatus::NeedOutput
        } else {
            CodecStatus::NeedInput
        };
        self.complete(0, produced, status)
    }

    fn poll_tail(&mut self, input: &[u8], room: usize, end: EndOfInput) -> (action: LzipAction)
        requires
            old(self).wf(),
            old(self).failure is None,
        ensures
            final(self).performs(
                action,
                old(self)@.poll_tail(LzipIo { input: input@, room: room as nat, end }),
            ),
    {
        if self.produced < room {
            self.stage = LzipStage::PollTail;
            LzipAction::Poll
        } else {
            self.decide(input, room, end)
        }
    }

    fn send_end(&mut self, input: &[u8], room: usize, end: EndOfInput) -> (action: LzipAction)
        requires
            old(self).wf(),
            old(self).failure is None,
        ensures
            final(self).performs(
                action,
                old(self)@.send_end(LzipIo { input: input@, room: room as nat, end }),
            ),
    {
        if self.end_sent || self.input_disconnected {
            self.poll_tail(input, room, end)
        } else if !self.input_open {
            self.fail(malformed("lzip decoder input is closed"))
        } else {
            self.stage = LzipStage::SendEnd;
            LzipAction::SendEnd
        }
    }

    fn finish_input(&mut self, input: &[u8], room: usize, end: EndOfInput) -> (action: LzipAction)
        requires
            old(self).wf(),
            old(self).failure is None,
        ensures
            final(self).performs(
                action,
                old(self)@.finish_input(LzipIo { input: input@, room: room as nat, end }),
            ),
    {
        if !(end == EndOfInput::End && self.consumed == input.len()) {
            self.poll_tail(input, room, end)
        } else if self.pending_input.len() == 0 {
            self.send_end(input, room, end)
        } else if self.input_disconnected {
            self.poll_tail(input, room, end)
        } else {
            self.offer(LzipStage::FlushEnd)
        }
    }

    fn accept(&mut self, input: &[u8], room: usize, end: EndOfInput) -> (action: LzipAction)
        requires
            old(self).wf(),
            old(self).failure is None,
            old(self).consumed <= input@.len(),
            old(self).pending_input@.len() == 0,
        ensures
            final(self).performs(
                action,
                old(self)@.accept(LzipIo { input: input@, room: room as nat, end }),
            ),
    {
        if self.consumed < input.len() {
            let left: usize = input.len() - self.consumed;
            let count: usize = if MAX_STAGED < left {
                MAX_STAGED
            } else {
                left
            };
            let start: usize = self.consumed;
            self.pending_input.extend_from_slice(&input[start..start + count]);
            self.consumed = start + count;
            proof {
                assert(self.pending_input@ =~= input@.subrange(start as int, start + count));
            }
            if self.input_disconnected {
                self.finish_input(input, room, end)
            } else {
                self.offer(LzipStage::FlushAfter)
            }
        } else {
            self.finish_input(input, room, end)
        }
    }

    fn flush_before(&mut self, input: &[u8], room: usize, end: EndOfInput) -> (action: LzipAction)
        requires
            old(self).wf(),
            old(self).failure is None,
            old(self).consumed <= input@.len(),
        ensures
            final(self).performs(
                action,
                old(self)@.flush_before(LzipIo { input: input@, room: room as nat, end }),
            ),
    {
        if self.pending_input.len() == 0 {
            self.accept(input, room, end)
        } else if self.input_disconnected {
            self.finish_input(input, room, end)
        } else {
            self.offer(LzipStage::FlushBefore)
        }
    }

    fn poll_top(&mut self, input: &[u8], room: usize, end: EndOfInput) -> (action: LzipAction)
        requires
            old(self).wf(),
            old(self).failure is None,
            old(self).consumed <= input@.len(),
        ensures
            final(self).performs(
                action,
                old(self)@.poll_top(LzipIo { input: input@, room: room as nat, end }),
            ),
    {
        if self.produced < room {
            self.stage = LzipStage::PollTop;
            LzipAction::Poll
        } else {
            self.flush_before(input, room, end)
        }
    }

    fn top(&mut self, input: &[u8], room: usize, end: EndOfInput) -> (action: LzipAction)
        requires
            old(self).wf(),
            old(self).failure is None,
            old(self).consumed <= input@.len(),
        ensures
            final(self).performs(
                action,
                old(self)@.top(LzipIo { input: input@, room: room as nat, end }),
            ),
    {
        if self.done {
            let consumed: usize = self.consumed;
            let produced: usize = self.produced;
            self.complete(consumed, produced, CodecStatus::Done)
        } else {
            self.poll_top(input, room, end)
        }
    }

    /// Starts a call.
    pub fn begin(&mut self, input: &[u8], output: &mut [u8], end: EndOfInput) -> (action: LzipAction)
        requires
            old(self).wf(),
        ensures
            final(self).performs(
                action,
                old(self)@.begin(LzipIo { input: input@, room: old(output)@.len(), end }),
            ),
            final(output)@ == overlay(
                old(output)@,
                0,
                old(self)@.begin(LzipIo { input: input@, room: old(output)@.len(), end }).bytes(),
            ),
    {
        let ghost unchanged = overlay(old(output)@, 0, Seq::empty());
        proof {
            assert(unchanged =~= old(output)@);
        }
        if let Some(error) = &self.failure {
            let error = error.duplicate();
            return self.fail(error);
        }
        self.consumed = 0;
        self.produced = 0;
        if self.done {
            if input.len() == 0 {
                return self.complete(0, 0, CodecStatus::Done);
            }
            return self.fail(malformed("data follows the completed lzip stream"));
        }
        self.drain_output(output);
        let room: usize = output.len();
        let action = self.top(input, room, end);
        proof {
            let io = LzipIo { input: input@, room: old(output)@.len(), end };
            let fresh = LzipModel { consumed: 0, produced: 0, ..old(self)@ };
            lemma_top_writes_nothing(fresh.drained(io.room), io);
            assert(old(self)@.begin(io).bytes() =~= fresh.drain_bytes(io.room));
        }
        action
    }

    fn after_event(&mut self, input: &[u8], room: usize, end: EndOfInput) -> (action: LzipAction)
        requires
            old(self).wf(),
            old(self).failure is None,
            old(self).consumed <= input@.len(),
        ensures
            final(self).performs(
                action,
                old(self)@.after_event(LzipIo { input: input@, room: room as nat, end }),
            ),
    {
        let waiting_output = self.output_position != self.pending_output.len();
        match self.stage {
            LzipStage::Waiting => self.top(input, room, end),
            LzipStage::PollTop => if waiting_output {
                self.flush_before(input, room, end)
            } else {
                self.poll_top(input, room, end)
            },
            _ => if waiting_output {
                self.decide(input, room, end)
            } else {
                self.poll_tail(input, room, end)
            },
        }
    }

    fn after_offer(&mut self, taken: bool, input: &[u8], room: usize, end: EndOfInput) -> (action:
        LzipAction)
        requires
            old(self).wf(),
            old(self).failure is None,
            old(self).consumed <= input@.len(),
            taken && old(self).stage is FlushBefore ==> old(self).pending_input@.len() == 0,
        ensures
            final(self).performs(
                action,
                old(self)@.after_offer(taken, LzipIo { input: input@, room: room as nat, end }),
            ),
    {
        match self.stage {
            LzipStage::FlushBefore => if taken {
                self.accept(input, room, end)
            } else {
                self.finish_input(input, room, end)
            },
            LzipStage::FlushAfter => self.finish_input(input, room, end),
            LzipStage::FlushEnd => if taken {
                self.send_end(input, room, end)
            } else {
                self.poll_tail(input, room, end)
            },
            _ => {
                self.end_sent = self.end_sent || taken;
                self.poll_tail(input, room, end)
            },
        }
    }

    /// Goes on with a call after a reply. Decoded bytes come only when the
    /// caller has taken the earlier ones.
    pub fn resume(
        &mut self,
        reply: LzipReply,
        input: &[u8],
        output: &mut [u8],
        end: EndOfInput,
    ) -> (action: LzipAction)
        requires
            old(self).wf(),
            old(self).failure is None,
            old(self).call_fits(LzipIo { input: input@, room: old(output)@.len(), end }),
            reply_fits(old(self).stage, reply@),
            reply is Output ==> old(self)@.pending_output.len() == 0,
            old(self).stage is FlushBefore ==> old(self).pending_input@.len() == 0,
        ensures
            final(self).performs(
                action,
                old(self)@.resume(reply@, LzipIo { input: input@, room: old(output)@.len(), end }),
            ),
            final(output)@ == overlay(
                old(output)@,
                old(self).produced as int,
                old(self)@.resume(
                    reply@,
                    LzipIo { input: input@, room: old(output)@.len(), end },
                ).bytes(),
            ),
    {
        let room: usize = output.len();
        let ghost io = LzipIo { input: input@, room: old(output)@.len(), end };
        proof {
            assert(overlay(old(output)@, old(self).produced as int, Seq::empty()) =~= old(
                output,
            )@);
            lemma_resume_writes(old(self)@, reply@, io);
        }
        match reply {
            LzipReply::NoEvent => {
                if self.stage == LzipStage::PollTop {
                    self.flush_before(input, room, end)
                } else if self.stage == LzipStage::PollTail {
                    self.decide(input, room, end)
                } else {
                    self.stage = LzipStage::Idle;
                    LzipAction::Yield
                }
            },
            LzipReply::NeedInput => self.after_event(input, room, end),
            LzipReply::Output(bytes) => {
                self.pending_output = bytes;
                self.output_position = 0;
                let ghost fresh = LzipModel { pending_output: bytes@, ..old(self)@ };
                proof {
                    assert(self@.pending_output =~= bytes@);
                    assert(self@ =~= fresh);
                }
                self.drain_output(output);
                self.after_event(input, room, end)
            },
            LzipReply::Finished => {
                self.input_open = false;
                self.done = true;
                let consumed: usize = self.consumed;
                let produced: usize = self.produced;
                self.complete(consumed, produced, CodecStatus::Done)
            },
            LzipReply::Failed { out_of_memory, message } => {
                let kind = if out_of_memory {
                    ErrorKind::Limit
                } else {
                    ErrorKind::Malformed
                };
                self.fail(ArchiveError::of_format_text(kind, "lzip", message))
            },
            LzipReply::Panicked => self.fail(malformed("lzip decoder worker panicked")),
            LzipReply::Gone => self.fail(malformed("lzip decoder worker disconnected")),
            LzipReply::Accepted => self.after_offer(true, input, room, end),
            LzipReply::Full(bytes) => {
                if self.stage != LzipStage::SendEnd {
                    self.pending_input = bytes;
                }
                self.after_offer(false, input, room, end)
            },
            LzipReply::Closed(bytes) => {
                if self.stage != LzipStage::SendEnd {
                    self.pending_input = bytes;
                }
                self.input_disconnected = true;
                self.input_open = false;
                self.after_offer(false, input, room, end)
            },
            LzipReply::Misdelivered { closed } => {
                let end_marker = self.stage == LzipStage::SendEnd;
                if end_marker && closed {
                    self.fail(
                        malformed(
                            "lzip decoder input queue returned the wrong disconnected end marker",
                        ),
                    )
                } else if end_marker {
                    self.fail(malformed("lzip decoder input queue returned the wrong end marker"))
                } else if closed {
                    self.fail(
                        malformed(
                            "lzip decoder input queue returned the wrong disconnected message",
                        ),
                    )
                } else {
                    self.fail(malformed("lzip decoder input queue returned the wrong full message"))
                }
            },
            LzipReply::ReceiverPoisoned => self.fail(malformed("lzip event receiver was poisoned")),
            LzipReply::HandlePoisoned => self.fail(malformed("lzip worker handle was poisoned")),
        }
    }
}

proof fn lemma_top_writes_nothing(model: LzipModel, io: LzipIo)
    ensures
        model.top(io).bytes().len() == 0,
        model.flush_before(io).bytes().len() == 0,
        model.accept(io).bytes().len() == 0,
        model.finish_input(io).bytes().len() == 0,
        model.poll_tail(io).bytes().len() == 0,
        model.send_end(io).bytes().len() == 0,
        model.decide(io).bytes().len() == 0,
        model.poll_top(io).bytes().len() == 0,
{
}

proof fn lemma_resume_writes(model: LzipModel, reply: LzipReplyView, io: LzipIo)
    ensures
        model.resume(reply, io).bytes() == match reply {
            LzipReplyView::Output(bytes) => (LzipModel { pending_output: bytes, ..model }).drain_bytes(
                io.room,
            ),
            _ => Seq::empty(),
        },
{
    lemma_top_writes_nothing(model, io);
    match reply {
        LzipReplyView::Output(bytes) => {
            let fresh = LzipModel { pending_output: bytes, ..model };
            let drained = fresh.drained(io.room);
            lemma_top_writes_nothing(drained, io);
            assert(drained.after_event(io).bytes().len() == 0);
            assert(model.resume(reply, io).bytes() =~= fresh.drain_bytes(io.room));
        },
        LzipReplyView::Full(bytes) => {
            let back = LzipModel { pending_input: bytes, ..model };
            lemma_top_writes_nothing(back, io);
            assert(model.resume(reply, io).bytes().len() == 0);
            assert(model.resume(reply, io).bytes() =~= Seq::<u8>::empty());
        },
        LzipReplyView::Closed(bytes) => {
            lemma_top_writes_nothing(model.cut(bytes), io);
            assert(model.resume(reply, io).bytes().len() == 0);
            assert(model.resume(reply, io).bytes() =~= Seq::<u8>::empty());
        },
        _ => {
            let told = LzipModel { end_sent: true, ..model };
            lemma_top_writes_nothing(told, io);
            assert(model.resume(reply, io).bytes().len() == 0);
            assert(model.resume(reply, io).bytes() =~= Seq::<u8>::empty());
        },
    }
}

/// The bytes on offer in an action.
pub open spec fn on_offer(action: LzipActionView) -> Seq<u8> {
    match action {
        LzipActionView::Send(bytes) => bytes,
        _ => Seq::empty(),
    }
}

/// Bytes that the worker has not taken.
pub open spec fn staged(model: LzipModel, offered: Seq<u8>) -> Seq<u8> {
    offered + model.pending_input
}

/// The bytes that a reply says the worker has taken.
pub open spec fn taken_by(reply: LzipReplyView, offered: Seq<u8>) -> Seq<u8> {
    match reply {
        LzipReplyView::Accepted => offered,
        _ => Seq::empty(),
    }
}

/// The step goes on with `staged` bytes and input up to `consumed` on top.
spec fn carries(step: LzipMove, before: Seq<u8>, consumed: nat, io: LzipIo) -> bool {
    step matches LzipMove::Go { model, action, .. } ==> {
        &&& consumed <= model.consumed <= io.input.len()
        &&& staged(model, on_offer(action)) == before + io.input.subrange(
            consumed as int,
            model.consumed as int,
        )
    }
}

proof fn lemma_carries(model: LzipModel, io: LzipIo)
    requires
        model.consumed <= io.input.len(),
    ensures
        ({
            let before = staged(model, Seq::empty());
            &&& carries(model.decide(io), before, model.consumed, io)
            &&& carries(model.poll_tail(io), before, model.consumed, io)
            &&& carries(model.send_end(io), before, model.consumed, io)
            &&& carries(model.finish_input(io), before, model.consumed, io)
            &&& model.pending_input.len() == 0 ==> carries(
                model.accept(io),
                before,
                model.consumed,
                io,
            )
            &&& carries(model.flush_before(io), before, model.consumed, io)
            &&& carries(model.top(io), before, model.consumed, io)
            &&& carries(model.poll_top(io), before, model.consumed, io)
        }),
{
    let before = staged(model, Seq::empty());
    let c = model.consumed as int;
    assert(io.input.subrange(c, c) =~= Seq::<u8>::empty());
    assert(before + io.input.subrange(c, c) =~= before);
    assert(before =~= model.pending_input);
    assert(model.pending_input + Seq::<u8>::empty() =~= before);
    assert(carries(model.decide(io), before, model.consumed, io));
    assert(carries(model.finish_input(io), before, model.consumed, io));
    if model.pending_input.len() == 0 && model.consumed < io.input.len() {
        let count = model.acceptable(io);
        let chunk = io.input.subrange(c, c + count);
        assert(before + chunk =~= chunk);
        assert(chunk + Seq::<u8>::empty() =~= chunk);
        assert(Seq::<u8>::empty() + chunk =~= chunk);
        assert(carries(model.accept(io), before, model.consumed, io));
    }
}

/// No input byte is lost, repeated or reordered on its way to the worker: what
/// the worker has taken, followed by what is on offer and staged, is what was
/// there before, followed by the input that the step consumed. This holds when
/// a full or closed queue gives back the bytes that were offered.
#[verifier::rlimit(50)]
#[verifier::spinoff_prover]
pub proof fn law_input_reaches_the_worker_in_order(
    model: LzipModel,
    offered: Seq<u8>,
    reply: LzipReplyView,
    io: LzipIo,
)
    requires
        model.consumed <= io.input.len(),
        reply_fits(model.stage, reply),
        model.stage is FlushBefore || model.stage is FlushAfter || model.stage is FlushEnd
            ==> model.pending_input.len() == 0,
        !(model.stage is FlushBefore || model.stage is FlushAfter || model.stage is FlushEnd)
            ==> offered.len() == 0,
        !(model.stage is SendEnd) ==> {
            &&& reply matches LzipReplyView::Full(bytes) ==> bytes == offered
            &&& reply matches LzipReplyView::Closed(bytes) ==> bytes == offered
        },
    ensures
        model.resume(reply, io) matches LzipMove::Go { model: next, action, .. } ==> {
            &&& model.consumed <= next.consumed <= io.input.len()
            &&& taken_by(reply, offered) + staged(next, on_offer(action)) == staged(model, offered)
                + io.input.subrange(model.consumed as int, next.consumed as int)
        },
{
    let base = staged(model, offered);
    match reply {
        LzipReplyView::Full(bytes) => {
            let back = if model.stage is SendEnd {
                model
            } else {
                LzipModel { pending_input: bytes, ..model }
            };
            lemma_carries(back, io);
            assert(staged(back, Seq::empty()) =~= base);
            match model.resume(reply, io) {
                LzipMove::Go { model: next, action, .. } => {
                    assert(taken_by(reply, offered) + staged(next, on_offer(action)) =~= staged(
                        next,
                        on_offer(action),
                    ));
                },
                _ => {},
            }
        },
        LzipReplyView::Accepted => {
            let told = LzipModel { end_sent: model.end_sent || model.stage is SendEnd, ..model };
            lemma_carries(told, io);
            assert(told =~= model || model.stage is SendEnd);
            assert(offered + staged(told, Seq::empty()) =~= base);
            match model.resume(reply, io) {
                LzipMove::Go { model: next, action, .. } => {
                    let more = io.input.subrange(model.consumed as int, next.consumed as int);
                    assert(offered + (staged(told, Seq::empty()) + more) =~= base + more);
                },
                _ => {},
            }
        },
        LzipReplyView::Output(bytes) => {
            let fresh = LzipModel { pending_output: bytes, ..model };
            let drained = fresh.drained(io.room);
            lemma_carries(drained, io);
            assert(staged(drained, Seq::empty()) =~= base);
            match model.resume(reply, io) {
                LzipMove::Go { model: next, action, .. } => {
                    assert(taken_by(reply, offered) + staged(next, on_offer(action)) =~= staged(
                        next,
                        on_offer(action),
                    ));
                },
                _ => {},
            }
        },
        LzipReplyView::Closed(bytes) => {
            let back = model.cut(bytes);
            lemma_carries(back, io);
            assert(staged(back, Seq::empty()) =~= base);
            match model.resume(reply, io) {
                LzipMove::Go { model: next, action, .. } => {
                    assert(taken_by(reply, offered) + staged(next, on_offer(action)) =~= staged(
                        next,
                        on_offer(action),
                    ));
                },
                _ => {},
            }
        },
        LzipReplyView::Misdelivered { .. } => {},
        _ => {
            lemma_carries(model, io);
            assert(staged(model, Seq::empty()) =~= base);
            let c = model.consumed as int;
            assert(io.input.subrange(c, c) =~= Seq::<u8>::empty());
            match model.resume(reply, io) {
                LzipMove::Go { model: next, action, .. } => {
                    assert(taken_by(reply, offered) + staged(next, on_offer(action)) =~= staged(
                        next,
                        on_offer(action),
                    ));
                    assert(base + io.input.subrange(c, c) =~= base);
                },
                _ => {},
            }
        },
    }
}

/// The step goes on with no more staged than the decoder may stage.
spec fn stays_bounded(step: LzipMove) -> bool {
    step matches LzipMove::Go { model, action, .. } ==> staged(model, on_offer(action)).len()
        <= MAX_STAGED
}

proof fn lemma_stays_bounded(model: LzipModel, io: LzipIo)
    requires
        model.consumed <= io.input.len(),
        staged(model, Seq::empty()).len() <= MAX_STAGED,
    ensures
        stays_bounded(model.decide(io)),
        stays_bounded(model.poll_tail(io)),
        stays_bounded(model.send_end(io)),
        stays_bounded(model.finish_input(io)),
        model.pending_input.len() == 0 ==> stays_bounded(model.accept(io)),
        stays_bounded(model.flush_before(io)),
        stays_bounded(model.top(io)),
        stays_bounded(model.poll_top(io)),
{
}

/// Input never piles up: what is on offer and staged together stays within
/// `MAX_STAGED` over every call and every reply of the worker, as long
/// as a full or closed queue gives back no more than was offered.
#[verifier::rlimit(50)]
#[verifier::spinoff_prover]
pub proof fn law_staged_input_is_bounded(
    model: LzipModel,
    offered: Seq<u8>,
    reply: LzipReplyView,
    io: LzipIo,
)
    requires
        staged(model, offered).len() <= MAX_STAGED,
    ensures
        offered.len() == 0 ==> (model.begin(io) matches LzipMove::Go { model: next, action, .. }
            ==> staged(next, on_offer(action)).len() <= MAX_STAGED),
        ({
            &&& model.consumed <= io.input.len()
            &&& reply_fits(model.stage, reply)
            &&& model.stage is FlushBefore || model.stage is FlushAfter || model.stage is FlushEnd
                ==> model.pending_input.len() == 0
            &&& !(model.stage is SendEnd) ==> {
                &&& reply matches LzipReplyView::Full(bytes) ==> bytes.len() <= offered.len()
                &&& reply matches LzipReplyView::Closed(bytes) ==> bytes.len() <= offered.len()
            }
        }) ==> (model.resume(reply, io) matches LzipMove::Go { model: next, action, .. } ==> staged(
            next,
            on_offer(action),
        ).len() <= MAX_STAGED),
{
    let fresh = LzipModel { consumed: 0, produced: 0, ..model };
    lemma_stays_bounded(fresh.drained(io.room), io);
    if model.consumed <= io.input.len() {
        lemma_stays_bounded(model, io);
        match reply {
            LzipReplyView::Full(bytes) => {
                let back = LzipModel { pending_input: bytes, ..model };
                if staged(back, Seq::empty()).len() <= MAX_STAGED {
                    lemma_stays_bounded(back, io);
                }
            },
            LzipReplyView::Closed(bytes) => {
                let back = model.cut(bytes);
                if staged(back, Seq::empty()).len() <= MAX_STAGED {
                    lemma_stays_bounded(back, io);
                }
            },
            LzipReplyView::Accepted => {
                lemma_stays_bounded(LzipModel { end_sent: true, ..model }, io);
            },
            LzipReplyView::Output(bytes) => {
                let given = LzipModel { pending_output: bytes, ..model };
                lemma_stays_bounded(given.drained(io.room), io);
            },
            _ => {},
        }
    }
}

spec fn keeps_output(step: LzipMove, output: Seq<u8>) -> bool {
    step matches LzipMove::Go { model, .. } ==> model.pending_output == output
}

proof fn lemma_output_untouched(model: LzipModel, io: LzipIo)
    ensures
        keeps_output(model.top(io), model.pending_output),
        keeps_output(model.flush_before(io), model.pending_output),
        keeps_output(model.accept(io), model.pending_output),
        keeps_output(model.finish_input(io), model.pending_output),
        keeps_output(model.poll_tail(io), model.pending_output),
        keeps_output(model.send_end(io), model.pending_output),
        keeps_output(model.decide(io), model.pending_output),
        keeps_output(model.poll_top(io), model.pending_output),
{
}

/// Decoded bytes reach the caller in the order in which the worker gave them:
/// what a step writes, followed by what it keeps, is what it kept before, or
/// what the worker sent.
#[verifier::rlimit(50)]
#[verifier::spinoff_prover]
pub proof fn law_output_reaches_the_caller_in_order(model: LzipModel, reply: LzipReplyView, io: LzipIo)
    requires
        model.produced <= io.room,
        reply is Output ==> model.pending_output.len() == 0,
    ensures
        model.resume(reply, io) matches LzipMove::Go { model: next, written, .. } ==> written
            + next.pending_output == match reply {
            LzipReplyView::Output(bytes) => bytes,
            _ => model.pending_output,
        },
{
    lemma_resume_writes(model, reply, io);
    match reply {
        LzipReplyView::Output(bytes) => {
            let fresh = LzipModel { pending_output: bytes, ..model };
            let drained = fresh.drained(io.room);
            lemma_output_untouched(drained, io);
            assert(fresh.drain_bytes(io.room) + drained.pending_output =~= bytes);
        },
        LzipReplyView::Full(bytes) => {
            lemma_output_untouched(LzipModel { pending_input: bytes, ..model }, io);
            lemma_output_untouched(model, io);
            assert(Seq::<u8>::empty() + model.pending_output =~= model.pending_output);
        },
        LzipReplyView::Closed(bytes) => {
            lemma_output_untouched(model.cut(bytes), io);
            assert(Seq::<u8>::empty() + model.pending_output =~= model.pending_output);
        },
        _ => {
            lemma_output_untouched(LzipModel { end_sent: true, ..model }, io);
            lemma_output_untouched(model, io);
            assert(Seq::<u8>::empty() + model.pending_output =~= model.pending_output);
        },
    }
}

} // verus!
