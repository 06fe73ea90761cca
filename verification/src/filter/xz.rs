//! Caller-driven XZ decoding.
//!
//! The decoder proper is a pull decoder that runs on a worker of its own. This
//! module decides, one step at a time, what to exchange with that worker: it
//! validates input before it is offered, keeps what the worker has not taken
//! yet, and hands decoded bytes to the caller in order. The driver performs each
//! [`XzAction`] and reports an [`XzReply`].

use vstd::prelude::*;
use crate::bytes::{copy_at, overlay};
use crate::codec::{CodecStatus, CodecStep, EndOfInput};
use crate::error::{fault, ArchiveError, ErrorKind, ErrorView};
use crate::filter::xz_envelope::{
    envelope_after, law_held_bytes_are_the_latest, malformed, xz_malformed, Envelope, XzValidator,
};

verus! {

/// Bytes that may be staged for the worker at any time.
pub const MAX_STAGED: usize = 64 * 1024 + 1024 + 32;

/// Which question the decoder has put to its driver.
#[derive(Clone, Copy, Debug, PartialEq, Eq, Structural)]
pub enum XzStage {
    /// Between calls.
    Idle,
    /// Looking for decoded output before input is taken.
    PollTop,
    /// Offering bytes that an earlier call left over.
    FlushBefore,
    /// Offering bytes that this call has taken.
    FlushAfter,
    /// Offering the last bytes.
    FlushEnd,
    /// Announcing the end of input.
    SendEnd,
    /// Looking for decoded output after input was taken.
    PollTail,
    /// Waiting for the worker.
    Waiting,
}

/// What the driver has to do next.
pub enum XzAction {
    /// Look for a worker event without waiting.
    Poll,
    /// Wait for a worker event.
    Wait,
    /// Offer these bytes to the worker without waiting.
    Send(Vec<u8>),
    /// Offer the end of input to the worker without waiting.
    SendEnd,
    /// End the call with this result.
    Return(Result<CodecStep, ArchiveError>),
}

/// What came of an action.
pub enum XzReply {
    /// No worker event is there.
    NoEvent,
    /// The worker asks for input.
    NeedInput,
    /// The worker decoded these bytes.
    Output(Vec<u8>),
    /// The worker ended without an error.
    Finished,
    /// The worker ended with an error.
    Failed { out_of_memory: bool, message: String },
    /// The worker panicked.
    Panicked,
    /// There is no worker.
    Gone,
    /// The worker's queue took what was offered.
    Accepted,
    /// The worker's queue is full; the offered bytes come back.
    Full(Vec<u8>),
    /// The worker's queue is closed.
    Closed,
}

/// The mathematical content of an [`XzAction`].
pub enum XzActionView {
    Poll,
    Wait,
    Send(Seq<u8>),
    SendEnd,
    Return(Result<CodecStep, ErrorView>),
}

impl View for XzAction {
    type V = XzActionView;

    open spec fn view(&self) -> XzActionView {
        match self {
            XzAction::Poll => XzActionView::Poll,
            XzAction::Wait => XzActionView::Wait,
            XzAction::Send(bytes) => XzActionView::Send(bytes@),
            XzAction::SendEnd => XzActionView::SendEnd,
            XzAction::Return(result) => XzActionView::Return(
                match result {
                    Ok(step) => Ok(*step),
                    Err(error) => Err(error@),
                },
            ),
        }
    }
}

/// The mathematical content of an [`XzReply`].
pub enum XzReplyView {
    NoEvent,
    NeedInput,
    Output(Seq<u8>),
    Finished,
    Failed { out_of_memory: bool, message: Seq<char> },
    Panicked,
    Gone,
    Accepted,
    Full(Seq<u8>),
    Closed,
}

impl View for XzReply {
    type V = XzReplyView;

    open spec fn view(&self) -> XzReplyView {
        match self {
            XzReply::NoEvent => XzReplyView::NoEvent,
            XzReply::NeedInput => XzReplyView::NeedInput,
            XzReply::Output(bytes) => XzReplyView::Output(bytes@),
            XzReply::Finished => XzReplyView::Finished,
            XzReply::Failed { out_of_memory, message } => XzReplyView::Failed {
                out_of_memory: *out_of_memory,
                message: message@,
            },
            XzReply::Panicked => XzReplyView::Panicked,
            XzReply::Gone => XzReplyView::Gone,
            XzReply::Accepted => XzReplyView::Accepted,
            XzReply::Full(bytes) => XzReplyView::Full(bytes@),
            XzReply::Closed => XzReplyView::Closed,
        }
    }
}

/// The buffers of one call.
pub struct XzIo {
    pub input: Seq<u8>,
    pub room: nat,
    pub end: EndOfInput,
}

/// The mathematical content of an [`XzDecoder`].
#[verifier::ext_equal]
pub struct XzModel {
    pub envelope: Envelope,
    pub codec_memory: Option<usize>,
    /// Checked bytes that the worker has not taken.
    pub pending_input: Seq<u8>,
    /// Decoded bytes that the caller has not taken.
    pub pending_output: Seq<u8>,
    pub input_open: bool,
    pub end_sent: bool,
    pub done: bool,
    pub failure: Option<ErrorView>,
    pub stage: XzStage,
    pub consumed: nat,
    pub produced: nat,
}

/// One step of the decoder: go on with an action, or end the stream with an
/// error. `written` are the bytes that went to the caller.
pub enum XzMove {
    Go { model: XzModel, action: XzActionView, written: Seq<u8> },
    Fail { error: ErrorView, written: Seq<u8> },
}

impl XzMove {
    /// The same step with `bytes` handed to the caller first.
    pub open spec fn writing(self, bytes: Seq<u8>) -> XzMove {
        match self {
            XzMove::Go { model, action, written } => XzMove::Go {
                model,
                action,
                written: bytes + written,
            },
            XzMove::Fail { error, written } => XzMove::Fail { error, written: bytes + written },
        }
    }

    /// The bytes that the step hands to the caller.
    pub open spec fn bytes(self) -> Seq<u8> {
        match self {
            XzMove::Go { written, .. } => written,
            XzMove::Fail { written, .. } => written,
        }
    }
}

/// A step that asks the driver something.
pub open spec fn ask(model: XzModel, stage: XzStage, action: XzActionView) -> XzMove {
    XzMove::Go { model: XzModel { stage, ..model }, action, written: Seq::empty() }
}

/// A step that ends the call.
pub open spec fn give(model: XzModel, consumed: nat, produced: nat, status: CodecStatus) -> XzMove {
    XzMove::Go {
        model: XzModel { stage: XzStage::Idle, ..model },
        action: XzActionView::Return(
            Ok(CodecStep { consumed: consumed as usize, produced: produced as usize, status }),
        ),
        written: Seq::empty(),
    }
}

/// A step that ends the stream.
pub open spec fn stop(error: ErrorView) -> XzMove {
    XzMove::Fail { error, written: Seq::empty() }
}

/// Which replies an open question can have.
pub open spec fn reply_fits(stage: XzStage, reply: XzReplyView) -> bool {
    match stage {
        XzStage::Idle => false,
        XzStage::PollTop | XzStage::PollTail => !(reply is Accepted || reply is Full
            || reply is Closed),
        XzStage::Waiting => !(reply is Accepted || reply is Full || reply is Closed
            || reply is NoEvent),
        _ => reply is Accepted || reply is Full || reply is Closed,
    }
}

impl XzModel {
    /// Whether this call has taken the last input.
    pub open spec fn at_end(self, io: XzIo) -> bool {
        io.end is End && self.consumed == io.input.len()
    }

    /// How many decoded bytes fit the caller's buffer.
    pub open spec fn drainable(self, room: nat) -> nat {
        if self.pending_output.len() <= room - self.produced {
            self.pending_output.len()
        } else {
            (room - self.produced) as nat
        }
    }

    /// The decoder after decoded bytes went to the caller.
    pub open spec fn drained(self, room: nat) -> XzModel {
        let count = self.drainable(room);
        XzModel {
            pending_output: self.pending_output.skip(count as int),
            produced: self.produced + count,
            ..self
        }
    }

    /// The bytes that go to the caller then.
    pub open spec fn drain_bytes(self, room: nat) -> Seq<u8> {
        self.pending_output.take(self.drainable(room) as int)
    }

    /// The start of a call.
    pub open spec fn begin(self, io: XzIo) -> XzMove {
        match self.failure {
            Some(error) => stop(error),
            None => if self.done {
                if io.input.len() == 0 {
                    give(
                        XzModel { consumed: 0, produced: 0, ..self },
                        0,
                        0,
                        CodecStatus::Done,
                    )
                } else {
                    stop(xz_malformed("data follows the completed XZ stream"@))
                }
            } else {
                let fresh = XzModel { consumed: 0, produced: 0, ..self };
                fresh.drained(io.room).top(io).writing(fresh.drain_bytes(io.room))
            },
        }
    }

    /// The top of the exchange.
    pub open spec fn top(self, io: XzIo) -> XzMove {
        if self.done {
            give(self, self.consumed, self.produced, CodecStatus::Done)
        } else {
            self.poll_top(io)
        }
    }

    pub open spec fn poll_top(self, io: XzIo) -> XzMove {
        if self.produced < io.room {
            ask(self, XzStage::PollTop, XzActionView::Poll)
        } else {
            self.flush_before(io)
        }
    }

    /// Offers the staged bytes.
    pub open spec fn offer(self, stage: XzStage) -> XzMove {
        if !self.input_open {
            stop(xz_malformed("XZ decoder input is closed"@))
        } else {
            ask(
                XzModel { pending_input: Seq::empty(), ..self },
                stage,
                XzActionView::Send(self.pending_input),
            )
        }
    }

    pub open spec fn flush_before(self, io: XzIo) -> XzMove {
        if self.pending_input.len() == 0 {
            self.accept(io)
        } else {
            self.offer(XzStage::FlushBefore)
        }
    }

    /// How many bytes of input this call takes.
    pub open spec fn acceptable(self, io: XzIo) -> nat {
        let free = (MAX_STAGED - self.envelope.held.len()) as nat;
        let left = (io.input.len() - self.consumed) as nat;
        if free < left {
            free
        } else {
            left
        }
    }

    /// Takes and checks input once nothing is staged.
    pub open spec fn accept(self, io: XzIo) -> XzMove {
        if self.consumed < io.input.len() {
            let count = self.acceptable(io);
            let chunk = io.input.subrange(self.consumed as int, (self.consumed + count) as int);
            match envelope_after(self.envelope, chunk, self.codec_memory) {
                Err(error) => stop(error),
                Ok(envelope) => {
                    let seen = self.envelope.held + chunk;
                    XzModel {
                        envelope,
                        pending_input: seen.take(seen.len() - envelope.held.len()),
                        consumed: self.consumed + count,
                        ..self
                    }.flush_after(io)
                },
            }
        } else {
            self.finish_input(io)
        }
    }

    pub open spec fn flush_after(self, io: XzIo) -> XzMove {
        if self.pending_input.len() == 0 {
            self.finish_input(io)
        } else {
            self.offer(XzStage::FlushAfter)
        }
    }

    /// Ends the input once all of it has been taken.
    pub open spec fn finish_input(self, io: XzIo) -> XzMove {
        if self.at_end(io) {
            if self.envelope.state is StreamPadding && self.envelope.stream_padding % 4 != 0 {
                stop(xz_malformed("XZ stream padding is not a multiple of four bytes"@))
            } else {
                XzModel {
                    envelope: self.envelope.released(),
                    pending_input: self.pending_input + self.envelope.held,
                    ..self
                }.flush_end(io)
            }
        } else {
            self.poll_tail(io)
        }
    }

    pub open spec fn flush_end(self, io: XzIo) -> XzMove {
        if self.pending_input.len() == 0 {
            self.send_end(io)
        } else {
            self.offer(XzStage::FlushEnd)
        }
    }

    pub open spec fn send_end(self, io: XzIo) -> XzMove {
        if self.end_sent {
            self.poll_tail(io)
        } else if !self.input_open {
            stop(xz_malformed("XZ decoder input is closed"@))
        } else {
            ask(self, XzStage::SendEnd, XzActionView::SendEnd)
        }
    }

    pub open spec fn poll_tail(self, io: XzIo) -> XzMove {
        if self.produced < io.room {
            ask(self, XzStage::PollTail, XzActionView::Poll)
        } else {
            self.decide(io)
        }
    }

    /// What the caller is told it has to supply next.
    pub open spec fn status(self, io: XzIo) -> CodecStatus {
        if self.pending_output.len() > 0 || self.pending_input.len() > 0 || self.consumed
            != io.input.len() || (self.at_end(io) && !self.end_sent) || self.produced == io.room {
            CodecStatus::NeedOutput
        } else {
            CodecStatus::NeedInput
        }
    }

    /// Ends the call if it made progress; waits for the worker if it may yet.
    pub open spec fn decide(self, io: XzIo) -> XzMove {
        if self.at_end(io) && self.end_sent && self.produced == 0 && self.pending_output.len() == 0
            && io.room > 0 {
            ask(self, XzStage::Waiting, XzActionView::Wait)
        } else if self.produced != 0 || self.consumed != 0 {
            give(self, self.consumed, self.produced, self.status(io))
        } else if (self.at_end(io) && self.end_sent) || io.input.len() > 0
            || self.pending_input.len() > 0 {
            ask(self, XzStage::Waiting, XzActionView::Wait)
        } else {
            give(
                self,
                0,
                self.produced,
                if io.room == 0 && self.pending_output.len() > 0 {
                    CodecStatus::NeedOutput
                } else {
                    CodecStatus::NeedInput
                },
            )
        }
    }

    /// Goes on after looking for output.
    pub open spec fn after_poll(self, io: XzIo) -> XzMove {
        if self.stage is PollTop {
            self.flush_before(io)
        } else {
            self.decide(io)
        }
    }

    /// Goes on after an event: the same question again while there is room.
    pub open spec fn after_event(self, io: XzIo) -> XzMove {
        match self.stage {
            XzStage::Waiting => self.top(io),
            XzStage::PollTop => if self.pending_output.len() > 0 {
                self.flush_before(io)
            } else {
                self.poll_top(io)
            },
            _ => if self.pending_output.len() > 0 {
                self.decide(io)
            } else {
                self.poll_tail(io)
            },
        }
    }

    /// Goes on after bytes were offered: `self` holds what came back.
    pub open spec fn after_offer(self, taken: bool, io: XzIo) -> XzMove {
        match self.stage {
            XzStage::FlushBefore => if taken {
                self.accept(io)
            } else {
                self.finish_input(io)
            },
            XzStage::FlushAfter => self.finish_input(io),
            XzStage::FlushEnd => if taken {
                self.send_end(io)
            } else {
                self.poll_tail(io)
            },
            _ => XzModel { end_sent: self.end_sent || taken, ..self }.poll_tail(io),
        }
    }

    /// The step that a reply leads to.
    pub open spec fn resume(self, reply: XzReplyView, io: XzIo) -> XzMove {
        match reply {
            XzReplyView::NoEvent => self.after_poll(io),
            XzReplyView::NeedInput => self.after_event(io),
            XzReplyView::Output(bytes) => {
                let fresh = XzModel { pending_output: bytes, ..self };
                fresh.drained(io.room).after_event(io).writing(fresh.drain_bytes(io.room))
            },
            XzReplyView::Finished => {
                let ended = XzModel { done: true, input_open: false, ..self };
                give(ended, ended.consumed, ended.produced, CodecStatus::Done)
            },
            XzReplyView::Failed { out_of_memory, message } => stop(
                fault(
                    if out_of_memory {
                        ErrorKind::Limit
                    } else {
                        ErrorKind::Malformed
                    },
                    "xz",
                    message,
                ),
            ),
            XzReplyView::Panicked => stop(xz_malformed("XZ decoder worker panicked"@)),
            XzReplyView::Gone => stop(xz_malformed("XZ decoder worker disconnected"@)),
            XzReplyView::Accepted => self.after_offer(true, io),
            XzReplyView::Full(bytes) => if self.stage is SendEnd {
                self.after_offer(false, io)
            } else {
                XzModel { pending_input: bytes, ..self }.after_offer(false, io)
            },
            XzReplyView::Closed => stop(
                if self.stage is SendEnd {
                    xz_malformed("XZ decoder worker stopped before end of input"@)
                } else {
                    xz_malformed("XZ decoder worker stopped accepting input"@)
                },
            ),
        }
    }
}

/// Bounded caller-driven XZ decoder.
pub struct XzDecoder {
    pub validator: XzValidator,
    pub pending_input: Vec<u8>,
    pub pending_output: Vec<u8>,
    pub output_position: usize,
    pub input_open: bool,
    pub end_sent: bool,
    pub done: bool,
    pub failure: Option<ArchiveError>,
    pub stage: XzStage,
    pub consumed: usize,
    pub produced: usize,
}

impl View for XzDecoder {
    type V = XzModel;

    open spec fn view(&self) -> XzModel {
        XzModel {
            envelope: self.validator@,
            codec_memory: self.validator.codec_memory,
            pending_input: self.pending_input@,
            pending_output: self.pending_output@.skip(self.output_position as int),
            input_open: self.input_open,
            end_sent: self.end_sent,
            done: self.done,
            failure: match self.failure {
                Some(error) => Some(error@),
                None => None,
            },
            stage: self.stage,
            consumed: self.consumed as nat,
            produced: self.produced as nat,
        }
    }
}

impl XzDecoder {
    /// The fields fit each other. Nothing is promised of a failed decoder but
    /// that it stays failed.
    pub open spec fn wf(self) -> bool {
        self.failure is None ==> {
            &&& self.validator@.wf()
            &&& self.output_position <= self.pending_output@.len()
        }
    }

    /// The counts of this call lie within its buffers.
    pub open spec fn call_fits(self, io: XzIo) -> bool {
        self.consumed <= io.input.len() && self.produced <= io.room
    }

    /// `self` and `action` are what `step` asks for.
    pub open spec fn performs(self, action: XzAction, step: XzMove) -> bool {
        &&& self.wf()
        &&& match step {
            XzMove::Go { model, action: asked, .. } => self@ == model && action@ == asked
                && self.failure is None,
            XzMove::Fail { error, .. } => {
                &&& action@ == XzActionView::Return(Err(error))
                &&& self@.failure == Some(error)
                &&& !self.input_open
            },
        }
    }

    /// A decoder before its first call.
    pub fn new(codec_memory: Option<usize>) -> (decoder: Self)
        ensures
            decoder.wf(),
            decoder@ == (XzModel {
                envelope: Envelope::start(),
                codec_memory,
                pending_input: Seq::empty(),
                pending_output: Seq::empty(),
                input_open: true,
                end_sent: false,
                done: false,
                failure: None,
                stage: XzStage::Idle,
                consumed: 0,
                produced: 0,
            }),
    {
        let decoder = XzDecoder {
            validator: XzValidator::new(codec_memory),
            pending_input: Vec::new(),
            pending_output: Vec::new(),
            output_position: 0,
            input_open: true,
            end_sent: false,
            done: false,
            failure: None,
            stage: XzStage::Idle,
            consumed: 0,
            produced: 0,
        };
        proof {
            assert(decoder@.pending_output =~= Seq::<u8>::empty());
        }
        decoder
    }

    fn fail(&mut self, error: ArchiveError) -> (action: XzAction)
        ensures
            final(self).performs(action, stop(error@)),
    {
        self.input_open = false;
        self.failure = Some(error.duplicate());
        XzAction::Return(Err(error))
    }

    fn complete(&mut self, consumed: usize, produced: usize, status: CodecStatus) -> (action:
        XzAction)
        requires
            old(self).wf(),
            old(self).failure is None,
        ensures
            final(self).performs(
                action,
                give(old(self)@, consumed as nat, produced as nat, status),
            ),
    {
        self.stage = XzStage::Idle;
        XzAction::Return(Ok(CodecStep { consumed, produced, status }))
    }

    /// Copies decoded bytes to the caller.
    fn drain_output(&mut self, output: &mut [u8])
        requires
            old(self).wf(),
            old(self).failure is None,
            old(self).produced <= old(output)@.len(),
        ensures
            final(self).wf(),
            final(self)@ == old(self)@.drained(old(output)@.len()),
            final(output)@ == overlay(
                old(output)@,
                old(self).produced as int,
                old(self)@.drain_bytes(old(output)@.len()),
            ),
            final(self).produced <= final(output)@.len(),
            final(output)@.len() == old(output)@.len(),
    {
        let available: usize = self.pending_output.len() - self.output_position;
        let room: usize = output.len() - self.produced;
        let copied: usize = if available <= room {
            available
        } else {
            room
        };
        copy_at(output, self.produced, self.pending_output.as_slice(), self.output_position, copied);
        proof {
            let whole = self.pending_output@;
            let at = self.output_position as int;
            assert(whole.skip(at).take(copied as int) =~= whole.subrange(at, at + copied));
            assert(whole.skip(at).skip(copied as int) =~= whole.skip(at + copied));
        }
        self.output_position = self.output_position + copied;
        self.produced = self.produced + copied;
        if self.output_position == self.pending_output.len() {
            self.pending_output.clear();
            self.output_position = 0;
            proof {
                assert(self@.pending_output =~= old(self)@.drained(old(output)@.len()).pending_output);
            }
        }
        proof {
            assert(self@ =~= old(self)@.drained(old(output)@.len()));
        }
    }

    fn offer(&mut self, stage: XzStage) -> (action: XzAction)
        requires
            old(self).wf(),
            old(self).failure is None,
        ensures
            final(self).performs(action, old(self)@.offer(stage)),
    {
        if !self.input_open {
            return self.fail(malformed("XZ decoder input is closed"));
        }
        let mut bytes: Vec<u8> = Vec::new();
        std::mem::swap(&mut bytes, &mut self.pending_input);
        self.stage = stage;
        XzAction::Send(bytes)
    }

    fn decide(&mut self, input: &[u8], room: usize, end: EndOfInput) -> (action: XzAction)
        requires
            old(self).wf(),
            old(self).failure is None,
        ensures
            final(self).performs(
                action,
                old(self)@.decide(XzIo { input: input@, room: room as nat, end }),
            ),
    {
        let at_end = end == EndOfInput::End && self.consumed == input.len();
        let waiting_output = self.output_position != self.pending_output.len();
        if at_end && self.end_sent && self.produced == 0 && !waiting_output && room > 0 {
            self.stage = XzStage::Waiting;
            return XzAction::Wait;
        }
        let consumed: usize = self.consumed;
        let produced: usize = self.produced;
        if produced != 0 || consumed != 0 {
            let status = if waiting_output || self.pending_input.len() > 0 || consumed
                != input.len() || (at_end && !self.end_sent) || produced == room {
                CodecStatus::NeedOutput
            } else {
                CodecStatus::NeedInput
            };
            return self.complete(consumed, produced, status);
        }
        if (at_end && self.end_sent) || input.len() > 0 || self.pending_input.len() > 0 {
            self.stage = XzStage::Waiting;
            return XzAction::Wait;
        }
        let status = if room == 0 && waiting_output {
            CodecStatus::NeedOutput
        } else {
            CodecStatus::NeedInput
        };
        self.complete(0, produced, status)
    }

    fn poll_tail(&mut self, input: &[u8], room: usize, end: EndOfInput) -> (action: XzAction)
        requires
            old(self).wf(),
            old(self).failure is None,
        ensures
            final(self).performs(
                action,
                old(self)@.poll_tail(XzIo { input: input@, room: room as nat, end }),
            ),
    {
        if self.produced < room {
            self.stage = XzStage::PollTail;
            XzAction::Poll
        } else {
            self.decide(input, room, end)
        }
    }

    fn send_end(&mut self, input: &[u8], room: usize, end: EndOfInput) -> (action: XzAction)
        requires
            old(self).wf(),
            old(self).failure is None,
        ensures
            final(self).performs(
                action,
                old(self)@.send_end(XzIo { input: input@, room: room as nat, end }),
            ),
    {
        if self.end_sent {
            self.poll_tail(input, room, end)
        } else if !self.input_open {
            self.fail(malformed("XZ decoder input is closed"))
        } else {
            self.stage = XzStage::SendEnd;
            XzAction::SendEnd
        }
    }

    fn finish_input(&mut self, input: &[u8], room: usize, end: EndOfInput) -> (action: XzAction)
        requires
            old(self).wf(),
            old(self).failure is None,
        ensures
            final(self).performs(
                action,
                old(self)@.finish_input(XzIo { input: input@, room: room as nat, end }),
            ),
    {
        if end == EndOfInput::End && self.consumed == input.len() {
            match self.validator.finish(&mut self.pending_input) {
                Err(error) => {
                    return self.fail(error);
                },
                Ok(()) => {},
            }
            if self.pending_input.len() == 0 {
                self.send_end(input, room, end)
            } else {
                self.offer(XzStage::FlushEnd)
            }
        } else {
            self.poll_tail(input, room, end)
        }
    }

    fn accept(&mut self, input: &[u8], room: usize, end: EndOfInput) -> (action: XzAction)
        requires
            old(self).wf(),
            old(self).failure is None,
            old(self).consumed <= input@.len(),
            old(self).pending_input@.len() == 0,
        ensures
            final(self).performs(
                action,
                old(self)@.accept(XzIo { input: input@, room: room as nat, end }),
            ),
    {
        if self.consumed < input.len() {
            let free: usize = MAX_STAGED - self.validator.retained();
            let left: usize = input.len() - self.consumed;
            let count: usize = if free < left {
                free
            } else {
                left
            };
            let start: usize = self.consumed;
            let ghost seen = self.validator@.held + input@.subrange(start as int, start + count);
            match self.validator.push_all(input, start, count, &mut self.pending_input) {
                Err(error) => {
                    return self.fail(error);
                },
                Ok(()) => {},
            }
            proof {
                assert(self.pending_input@ + self.validator@.held =~= seen);
                assert(self.pending_input@ =~= seen.take(
                    seen.len() - self.validator@.held.len(),
                ));
            }
            self.consumed = start + count;
            if self.pending_input.len() == 0 {
                self.finish_input(input, room, end)
            } else {
                self.offer(XzStage::FlushAfter)
            }
        } else {
            self.finish_input(input, room, end)
        }
    }

    fn flush_before(&mut self, input: &[u8], room: usize, end: EndOfInput) -> (action: XzAction)
        requires
            old(self).wf(),
            old(self).failure is None,
            old(self).consumed <= input@.len(),
        ensures
            final(self).performs(
                action,
                old(self)@.flush_before(XzIo { input: input@, room: room as nat, end }),
            ),
    {
        if self.pending_input.len() == 0 {
            self.accept(input, room, end)
        } else {
            self.offer(XzStage::FlushBefore)
        }
    }

    fn poll_top(&mut self, input: &[u8], room: usize, end: EndOfInput) -> (action: XzAction)
        requires
            old(self).wf(),
            old(self).failure is None,
            old(self).consumed <= input@.len(),
        ensures
            final(self).performs(
                action,
                old(self)@.poll_top(XzIo { input: input@, room: room as nat, end }),
            ),
    {
        if self.produced < room {
            self.stage = XzStage::PollTop;
            XzAction::Poll
        } else {
            self.flush_before(input, room, end)
        }
    }

    fn top(&mut self, input: &[u8], room: usize, end: EndOfInput) -> (action: XzAction)
        requires
            old(self).wf(),
            old(self).failure is None,
            old(self).consumed <= input@.len(),
        ensures
            final(self).performs(
                action,
                old(self)@.top(XzIo { input: input@, room: room as nat, end }),
            ),
    {
        if self.done {
            let consumed: usize = self.consumed;
            let produced: usize = self.produced;
            self.complete(consumed, produced, CodecStatus::Done)
        } else {
            self.poll_top(input, room, end)
        }
    }

    /// Starts a call.
    pub fn begin(&mut self, input: &[u8], output: &mut [u8], end: EndOfInput) -> (action: XzAction)
        requires
            old(self).wf(),
        ensures
            final(self).performs(
                action,
                old(self)@.begin(XzIo { input: input@, room: old(output)@.len(), end }),
            ),
            final(output)@ == overlay(
                old(output)@,
                0,
                old(self)@.begin(XzIo { input: input@, room: old(output)@.len(), end }).bytes(),
            ),
    {
        let ghost unchanged = overlay(old(output)@, 0, Seq::empty());
        proof {
            assert(unchanged =~= old(output)@);
        }
        if let Some(error) = &self.failure {
            let error = error.duplicate();
            return self.fail(error);
        }
        self.consumed = 0;
        self.produced = 0;
        if self.done {
            if input.len() == 0 {
                return self.complete(0, 0, CodecStatus::Done);
            }
            return self.fail(malformed("data follows the completed XZ stream"));
        }
        self.drain_output(output);
        let room: usize = output.len();
        let action = self.top(input, room, end);
        proof {
            let io = XzIo { input: input@, room: old(output)@.len(), end };
            let fresh = XzModel { consumed: 0, produced: 0, ..old(self)@ };
            lemma_top_writes_nothing(fresh.drained(io.room), io);
            assert(old(self)@.begin(io).bytes() =~= fresh.drain_bytes(io.room));
        }
        action
    }

    fn after_event(&mut self, input: &[u8], room: usize, end: EndOfInput) -> (action: XzAction)
        requires
            old(self).wf(),
            old(self).failure is None,
            old(self).consumed <= input@.len(),
        ensures
            final(self).performs(
                action,
                old(self)@.after_event(XzIo { input: input@, room: room as nat, end }),
            ),
    {
        let waiting_output = self.output_position != self.pending_output.len();
        match self.stage {
            XzStage::Waiting => self.top(input, room, end),
            XzStage::PollTop => if waiting_output {
                self.flush_before(input, room, end)
            } else {
                self.poll_top(input, room, end)
            },
            _ => if waiting_output {
                self.decide(input, room, end)
            } else {
                self.poll_tail(input, room, end)
            },
        }
    }

    fn after_offer(&mut self, taken: bool, input: &[u8], room: usize, end: EndOfInput) -> (action:
        XzAction)
        requires
            old(self).wf(),
            old(self).failure is None,
            old(self).consumed <= input@.len(),
            taken && old(self).stage is FlushBefore ==> old(self).pending_input@.len() == 0,
        ensures
            final(self).performs(
                action,
                old(self)@.after_offer(taken, XzIo { input: input@, room: room as nat, end }),
            ),
    {
        match self.stage {
            XzStage::FlushBefore => if taken {
                self.accept(input, room, end)
            } else {
                self.finish_input(input, room, end)
            },
            XzStage::FlushAfter => self.finish_input(input, room, end),
            XzStage::FlushEnd => if taken {
                self.send_end(input, room, end)
            } else {
                self.poll_tail(input, room, end)
            },
            _ => {
                self.end_sent = self.end_sent || taken;
                self.poll_tail(input, room, end)
            },
        }
    }

    /// Goes on with a call after a reply. Decoded bytes come only when the
    /// caller has taken the earlier ones.
    pub fn resume(
        &mut self,
        reply: XzReply,
        input: &[u8],
        output: &mut [u8],
        end: EndOfInput,
    ) -> (action: XzAction)
        requires
            old(self).wf(),
            old(self).failure is None,
            old(self).call_fits(XzIo { input: input@, room: old(output)@.len(), end }),
            reply_fits(old(self).stage, reply@),
            reply is Output ==> old(self)@.pending_output.len() == 0,
            old(self).stage is FlushBefore ==> old(self).pending_input@.len() == 0,
        ensures
            final(self).performs(
                action,
                old(self)@.resume(reply@, XzIo { input: input@, room: old(output)@.len(), end }),
            ),
            final(output)@ == overlay(
                old(output)@,
                old(self).produced as int,
                old(self)@.resume(
                    reply@,
                    XzIo { input: input@, room: old(output)@.len(), end },
                ).bytes(),
            ),
    {
        let room: usize = output.len();
        let ghost io = XzIo { input: input@, room: old(output)@.len(), end };
        proof {
            assert(overlay(old(output)@, old(self).produced as int, Seq::empty()) =~= old(
                output,
            )@);
            lemma_resume_writes(old(self)@, reply@, io);
        }
        match reply {
            XzReply::NoEvent => {
                if self.stage == XzStage::PollTop {
                    self.flush_before(input, room, end)
                } else {
                    self.decide(input, room, end)
                }
            },
            XzReply::NeedInput => self.after_event(input, room, end),
            XzReply::Output(bytes) => {
                self.pending_output = bytes;
                self.output_position = 0;
                let ghost fresh = XzModel { pending_output: bytes@, ..old(self)@ };
                proof {
                    assert(self@.pending_output =~= bytes@);
                    assert(self@ =~= fresh);
                }
                self.drain_output(output);
                self.after_event(input, room, end)
            },
            XzReply::Finished => {
                self.input_open = false;
                self.done = true;
                let consumed: usize = self.consumed;
                let produced: usize = self.produced;
                self.complete(consumed, produced, CodecStatus::Done)
            },
            XzReply::Failed { out_of_memory, message } => {
                let kind = if out_of_memory {
                    ErrorKind::Limit
                } else {
                    ErrorKind::Malformed
                };
                self.fail(ArchiveError::of_format_text(kind, "xz", message))
            },
            XzReply::Panicked => self.fail(malformed("XZ decoder worker panicked")),
            XzReply::Gone => self.fail(malformed("XZ decoder worker disconnected")),
            XzReply::Accepted => self.after_offer(true, input, room, end),
            XzReply::Full(bytes) => {
                if self.stage != XzStage::SendEnd {
                    self.pending_input = bytes;
                }
                self.after_offer(false, input, room, end)
            },
            XzReply::Closed => {
                if self.stage == XzStage::SendEnd {
                    self.fail(malformed("XZ decoder worker stopped before end of input"))
                } else {
                    self.fail(malformed("XZ decoder worker stopped accepting input"))
                }
            },
        }
    }
}

proof fn lemma_top_writes_nothing(model: XzModel, io: XzIo)
    ensures
        model.top(io).bytes().len() == 0,
        model.flush_before(io).bytes().len() == 0,
        model.accept(io).bytes().len() == 0,
        model.finish_input(io).bytes().len() == 0,
        model.poll_tail(io).bytes().len() == 0,
        model.send_end(io).bytes().len() == 0,
        model.decide(io).bytes().len() == 0,
        model.poll_top(io).bytes().len() == 0,
{
}

proof fn lemma_resume_writes(model: XzModel, reply: XzReplyView, io: XzIo)
    ensures
        model.resume(reply, io).bytes() == match reply {
            XzReplyView::Output(bytes) => (XzModel { pending_output: bytes, ..model }).drain_bytes(
                io.room,
            ),
            _ => Seq::empty(),
        },
{
    lemma_top_writes_nothing(model, io);
    match reply {
        XzReplyView::Output(bytes) => {
            let fresh = XzModel { pending_output: bytes, ..model };
            let drained = fresh.drained(io.room);
            lemma_top_writes_nothing(drained, io);
            assert(drained.after_event(io).bytes().len() == 0);
            assert(model.resume(reply, io).bytes() =~= fresh.drain_bytes(io.room));
        },
        XzReplyView::Full(bytes) => {
            let back = XzModel { pending_input: bytes, ..model };
            lemma_top_writes_nothing(back, io);
            assert(model.resume(reply, io).bytes().len() == 0);
            assert(model.resume(reply, io).bytes() =~= Seq::<u8>::empty());
        },
        _ => {
            let told = XzModel { end_sent: true, ..model };
            lemma_top_writes_nothing(told, io);
            assert(model.resume(reply, io).bytes().len() == 0);
            assert(model.resume(reply, io).bytes() =~= Seq::<u8>::empty());
        },
    }
}

/// The bytes on offer in an action.
pub open spec fn on_offer(action: XzActionView) -> Seq<u8> {
    match action {
        XzActionView::Send(bytes) => bytes,
        _ => Seq::empty(),
    }
}

/// Checked and withheld bytes that the worker has not taken.
pub open spec fn staged(model: XzModel, offered: Seq<u8>) -> Seq<u8> {
    offered + model.pending_input + model.envelope.held
}

/// The bytes that a reply says the worker has taken.
pub open spec fn taken_by(reply: XzReplyView, offered: Seq<u8>) -> Seq<u8> {
    match reply {
        XzReplyView::Accepted => offered,
        _ => Seq::empty(),
    }
}

/// The step goes on with `staged` bytes and input up to `consumed` on top.
spec fn carries(step: XzMove, before: Seq<u8>, consumed: nat, io: XzIo) -> bool {
    step matches XzMove::Go { model, action, .. } ==> {
        &&& consumed <= model.consumed <= io.input.len()
        &&& staged(model, on_offer(action)) == before + io.input.subrange(
            consumed as int,
            model.consumed as int,
        )
        &&& model.envelope.wf()
    }
}

proof fn lemma_carries(model: XzModel, io: XzIo)
    requires
        model.consumed <= io.input.len(),
        model.envelope.wf(),
    ensures
        ({
            let before = staged(model, Seq::empty());
            &&& carries(model.decide(io), before, model.consumed, io)
            &&& carries(model.poll_tail(io), before, model.consumed, io)
            &&& carries(model.send_end(io), before, model.consumed, io)
            &&& carries(model.finish_input(io), before, model.consumed, io)
            &&& carries(model.flush_after(io), before, model.consumed, io)
            &&& model.pending_input.len() == 0 ==> carries(
                model.accept(io),
                before,
                model.consumed,
                io,
            )
            &&& carries(model.flush_before(io), before, model.consumed, io)
            &&& carries(model.top(io), before, model.consumed, io)
            &&& carries(model.poll_top(io), before, model.consumed, io)
        }),
{
    let before = staged(model, Seq::empty());
    let c = model.consumed as int;
    assert(io.input.subrange(c, c) =~= Seq::<u8>::empty());
    assert(before + io.input.subrange(c, c) =~= before);
    let plain = model.pending_input + model.envelope.held;
    assert(before =~= plain);
    assert(model.pending_input + Seq::<u8>::empty() + model.envelope.held =~= plain);
    assert(carries(model.decide(io), before, model.consumed, io));
    assert(carries(model.poll_tail(io), before, model.consumed, io));
    assert(carries(model.send_end(io), before, model.consumed, io));
    let ended = XzModel {
        envelope: model.envelope.released(),
        pending_input: plain,
        ..model
    };
    assert(staged(ended, Seq::empty()) =~= plain);
    assert(plain + Seq::<u8>::empty() + Seq::<u8>::empty() =~= plain);
    assert(carries(ended.decide(io), before, model.consumed, io));
    assert(carries(ended.flush_end(io), before, model.consumed, io));
    assert(carries(model.finish_input(io), before, model.consumed, io));
    assert(carries(model.flush_after(io), before, model.consumed, io));
    if model.pending_input.len() == 0 && model.consumed < io.input.len() {
        let count = model.acceptable(io);
        let chunk = io.input.subrange(c, c + count);
        law_held_bytes_are_the_latest(model.envelope, chunk, model.codec_memory);
        match envelope_after(model.envelope, chunk, model.codec_memory) {
            Ok(envelope) => {
                let seen = model.envelope.held + chunk;
                let next = XzModel {
                    envelope,
                    pending_input: seen.take(seen.len() - envelope.held.len()),
                    consumed: model.consumed + count,
                    ..model
                };
                assert(next.pending_input + envelope.held =~= seen);
                lemma_carries_after_accept(next, io);
                let after = staged(next, Seq::empty());
                assert(after =~= before + chunk);
                let n = next.consumed as int;
                match next.flush_after(io) {
                    XzMove::Go { model: m, action, .. } => {
                        assert(chunk + io.input.subrange(n, m.consumed as int)
                            =~= io.input.subrange(c, m.consumed as int));
                        assert(before + io.input.subrange(c, m.consumed as int) =~= before + chunk
                            + io.input.subrange(n, m.consumed as int));
                    },
                    _ => {},
                }
                assert(carries(model.accept(io), before, model.consumed, io));
            },
            Err(_) => {},
        }
    }
}

proof fn lemma_carries_after_accept(model: XzModel, io: XzIo)
    requires
        model.consumed <= io.input.len(),
        model.envelope.wf(),
    ensures
        carries(model.flush_after(io), staged(model, Seq::empty()), model.consumed, io),
{
    let before = staged(model, Seq::empty());
    let c = model.consumed as int;
    assert(io.input.subrange(c, c) =~= Seq::<u8>::empty());
    assert(before + io.input.subrange(c, c) =~= before);
    let plain = model.pending_input + model.envelope.held;
    assert(before =~= plain);
    assert(model.pending_input + Seq::<u8>::empty() + model.envelope.held =~= plain);
    let ended = XzModel {
        envelope: model.envelope.released(),
        pending_input: plain,
        ..model
    };
    assert(staged(ended, Seq::empty()) =~= plain);
    assert(plain + Seq::<u8>::empty() + Seq::<u8>::empty() =~= plain);
    assert(carries(ended.flush_end(io), before, model.consumed, io));
    assert(carries(model.poll_tail(io), before, model.consumed, io));
}

/// No input byte is lost, repeated or reordered on its way to the worker: what
/// the worker has taken, followed by what is on offer, staged and withheld, is
/// what was there before, followed by the input that the step consumed. This
/// holds when a full queue gives back the bytes that were offered.
#[verifier::rlimit(50)]
#[verifier::spinoff_prover]
pub proof fn law_input_reaches_the_worker_in_order(
    model: XzModel,
    offered: Seq<u8>,
    reply: XzReplyView,
    io: XzIo,
)
    requires
        model.envelope.wf(),
        model.consumed <= io.input.len(),
        reply_fits(model.stage, reply),
        model.stage is FlushBefore || model.stage is FlushAfter || model.stage is FlushEnd
            ==> model.pending_input.len() == 0,
        !(model.stage is FlushBefore || model.stage is FlushAfter || model.stage is FlushEnd)
            ==> offered.len() == 0,
        !(model.stage is SendEnd) ==> (reply matches XzReplyView::Full(bytes) ==> bytes == offered),
    ensures
        model.resume(reply, io) matches XzMove::Go { model: next, action, .. } ==> {
            &&& model.consumed <= next.consumed <= io.input.len()
            &&& taken_by(reply, offered) + staged(next, on_offer(action)) == staged(model, offered)
                + io.input.subrange(model.consumed as int, next.consumed as int)
        },
{
    let base = staged(model, offered);
    match reply {
        XzReplyView::Full(bytes) => {
            let back = if model.stage is SendEnd {
                model
            } else {
                XzModel { pending_input: bytes, ..model }
            };
            lemma_carries(back, io);
            assert(staged(back, Seq::empty()) =~= base);
            match model.resume(reply, io) {
                XzMove::Go { model: next, action, .. } => {
                    assert(taken_by(reply, offered) + staged(next, on_offer(action)) =~= staged(
                        next,
                        on_offer(action),
                    ));
                },
                _ => {},
            }
        },
        XzReplyView::Accepted => {
            let told = XzModel { end_sent: model.end_sent || model.stage is SendEnd, ..model };
            lemma_carries(told, io);
            assert(told =~= model || model.stage is SendEnd);
            assert(offered + staged(told, Seq::empty()) =~= base);
            match model.resume(reply, io) {
                XzMove::Go { model: next, action, .. } => {
                    let more = io.input.subrange(model.consumed as int, next.consumed as int);
                    assert(offered + (staged(told, Seq::empty()) + more) =~= base + more);
                },
                _ => {},
            }
        },
        XzReplyView::Output(bytes) => {
            let fresh = XzModel { pending_output: bytes, ..model };
            let drained = fresh.drained(io.room);
            lemma_carries(drained, io);
            assert(staged(drained, Seq::empty()) =~= base);
            match model.resume(reply, io) {
                XzMove::Go { model: next, action, .. } => {
                    assert(taken_by(reply, offered) + staged(next, on_offer(action)) =~= staged(
                        next,
                        on_offer(action),
                    ));
                },
                _ => {},
            }
        },
        XzReplyView::Closed => {},
        _ => {
            lemma_carries(model, io);
            assert(staged(model, Seq::empty()) =~= base);
            let c = model.consumed as int;
            assert(io.input.subrange(c, c) =~= Seq::<u8>::empty());
            match model.resume(reply, io) {
                XzMove::Go { model: next, action, .. } => {
                    assert(taken_by(reply, offered) + staged(next, on_offer(action)) =~= staged(
                        next,
                        on_offer(action),
                    ));
                    assert(base + io.input.subrange(c, c) =~= base);
                },
                _ => {},
            }
        },
    }
}

/// The step goes on with no more staged than the decoder may stage.
spec fn stays_bounded(step: XzMove) -> bool {
    step matches XzMove::Go { model, action, .. } ==> staged(model, on_offer(action)).len()
        <= MAX_STAGED
}

proof fn lemma_stays_bounded(model: XzModel, io: XzIo)
    requires
        model.consumed <= io.input.len(),
        model.envelope.wf(),
        staged(model, Seq::empty()).len() <= MAX_STAGED,
    ensures
        stays_bounded(model.decide(io)),
        stays_bounded(model.poll_tail(io)),
        stays_bounded(model.send_end(io)),
        stays_bounded(model.finish_input(io)),
        stays_bounded(model.flush_after(io)),
        model.pending_input.len() == 0 ==> stays_bounded(model.accept(io)),
        stays_bounded(model.flush_before(io)),
        stays_bounded(model.top(io)),
        stays_bounded(model.poll_top(io)),
{
    if model.pending_input.len() == 0 && model.consumed < io.input.len() {
        let c = model.consumed as int;
        let count = model.acceptable(io);
        let chunk = io.input.subrange(c, c + count);
        law_held_bytes_are_the_latest(model.envelope, chunk, model.codec_memory);
        match envelope_after(model.envelope, chunk, model.codec_memory) {
            Ok(envelope) => {
                let seen = model.envelope.held + chunk;
                let next = XzModel {
                    envelope,
                    pending_input: seen.take(seen.len() - envelope.held.len()),
                    consumed: model.consumed + count,
                    ..model
                };
                assert(staged(next, Seq::empty()).len() <= MAX_STAGED);
                assert(stays_bounded(next.flush_after(io)));
            },
            Err(_) => {},
        }
    }
}

/// Input never piles up: what is on offer, staged and withheld together stays
/// within `MAX_STAGED` over every call and every reply of the worker, as long
/// as a full queue gives back no more than was offered.
#[verifier::rlimit(50)]
#[verifier::spinoff_prover]
pub proof fn law_staged_input_is_bounded(
    model: XzModel,
    offered: Seq<u8>,
    reply: XzReplyView,
    io: XzIo,
)
    requires
        model.envelope.wf(),
        staged(model, offered).len() <= MAX_STAGED,
    ensures
        offered.len() == 0 ==> (model.begin(io) matches XzMove::Go { model: next, action, .. }
            ==> staged(next, on_offer(action)).len() <= MAX_STAGED),
        ({
            &&& model.consumed <= io.input.len()
            &&& reply_fits(model.stage, reply)
            &&& model.stage is FlushBefore || model.stage is FlushAfter || model.stage is FlushEnd
                ==> model.pending_input.len() == 0
            &&& !(model.stage is SendEnd) ==> (reply matches XzReplyView::Full(bytes)
                ==> bytes.len() <= offered.len())
        }) ==> (model.resume(reply, io) matches XzMove::Go { model: next, action, .. } ==> staged(
            next,
            on_offer(action),
        ).len() <= MAX_STAGED),
{
    let fresh = XzModel { consumed: 0, produced: 0, ..model };
    lemma_stays_bounded(fresh.drained(io.room), io);
    if model.consumed <= io.input.len() {
        lemma_stays_bounded(model, io);
        match reply {
            XzReplyView::Full(bytes) => {
                let back = XzModel { pending_input: bytes, ..model };
                if staged(back, Seq::empty()).len() <= MAX_STAGED {
                    lemma_stays_bounded(back, io);
                }
            },
            XzReplyView::Accepted => {
                lemma_stays_bounded(XzModel { end_sent: true, ..model }, io);
            },
            XzReplyView::Output(bytes) => {
                let given = XzModel { pending_output: bytes, ..model };
                lemma_stays_bounded(given.drained(io.room), io);
            },
            _ => {},
        }
    }
}

spec fn keeps_output(step: XzMove, output: Seq<u8>) -> bool {
    step matches XzMove::Go { model, .. } ==> model.pending_output == output
}

proof fn lemma_output_untouched(model: XzModel, io: XzIo)
    ensures
        keeps_output(model.top(io), model.pending_output),
        keeps_output(model.flush_before(io), model.pending_output),
        keeps_output(model.accept(io), model.pending_output),
        keeps_output(model.finish_input(io), model.pending_output),
        keeps_output(model.poll_tail(io), model.pending_output),
        keeps_output(model.send_end(io), model.pending_output),
        keeps_output(model.decide(io), model.pending_output),
        keeps_output(model.poll_top(io), model.pending_output),
{
}

/// Decoded bytes reach the caller in the order in which the worker gave them:
/// what a step writes, followed by what it keeps, is what it kept before, or
/// what the worker sent.
#[verifier::rlimit(50)]
#[verifier::spinoff_prover]
pub proof fn law_output_reaches_the_caller_in_order(model: XzModel, reply: XzReplyView, io: XzIo)
    requires
        model.produced <= io.room,
        reply is Output ==> model.pending_output.len() == 0,
    ensures
        model.resume(reply, io) matches XzMove::Go { model: next, written, .. } ==> written
            + next.pending_output == match reply {
            XzReplyView::Output(bytes) => bytes,
            _ => model.pending_output,
        },
{
    lemma_resume_writes(model, reply, io);
    match reply {
        XzReplyView::Output(bytes) => {
            let fresh = XzModel { pending_output: bytes, ..model };
            let drained = fresh.drained(io.room);
            lemma_output_untouched(drained, io);
            assert(fresh.drain_bytes(io.room) + drained.pending_output =~= bytes);
        },
        XzReplyView::Full(bytes) => {
            lemma_output_untouched(XzModel { pending_input: bytes, ..model }, io);
            lemma_output_untouched(model, io);
            assert(Seq::<u8>::empty() + model.pending_output =~= model.pending_output);
        },
        _ => {
            lemma_output_untouched(XzModel { end_sent: true, ..model }, io);
            lemma_output_untouched(model, io);
            assert(Seq::<u8>::empty() + model.pending_output =~= model.pending_output);
        },
    }
}

} // verus!
