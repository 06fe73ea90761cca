//! The worker's side of the input queue: pieces arrive as messages and are read
//! as one stream.

use vstd::prelude::*;
use crate::bytes::{copy_at, overlay};

verus! {

/// A message of the input queue.
pub enum InputMessage {
    /// The next piece of input.
    Data(Vec<u8>),
    /// The input is complete.
    End,
}

/// What a read comes to.
#[derive(Clone, Copy, Debug, PartialEq, Eq, Structural)]
pub enum PipeStep {
    /// The read is over; it has delivered this many bytes.
    Filled(usize),
    /// A message is needed; this many bytes have been delivered so far.
    NeedMessage(usize),
}

/// The mathematical content of an [`InputPipe`].
#[verifier::ext_equal]
pub struct PipeModel {
    /// Bytes of the current piece not read yet.
    pub queue: Seq<u8>,
    pub ended: bool,
    /// A read has met the end of the input without delivering a byte.
    pub eof_read: bool,
}

impl PipeModel {
    /// The bytes that go to a reader with `room` bytes left.
    pub open spec fn fitting(self, room: nat) -> nat {
        if self.queue.len() < room {
            self.queue.len()
        } else {
            room
        }
    }

    /// A reader of `total` bytes that has `written` of them goes on.
    pub open spec fn fill(self, total: nat, written: nat) -> (PipeModel, PipeStep) {
        let count = self.fitting((total - written) as nat);
        let now = written + count;
        let left = PipeModel { queue: self.queue.skip(count as int), ..self };
        if now == total {
            (left, PipeStep::Filled(now as usize))
        } else if self.ended {
            (
                PipeModel { eof_read: self.eof_read || now == 0, ..left },
                PipeStep::Filled(now as usize),
            )
        } else {
            (left, PipeStep::NeedMessage(now as usize))
        }
    }

    /// A message arrives for a reader that has `written` bytes.
    pub open spec fn supply(self, message: Option<Seq<u8>>, written: nat) -> (
        PipeModel,
        Option<usize>,
    ) {
        match message {
            Some(bytes) => (
                if bytes.len() == 0 {
                    self
                } else {
                    PipeModel { queue: bytes, ..self }
                },
                None,
            ),
            None => (
                PipeModel { ended: true, eof_read: self.eof_read || written == 0, ..self },
                Some(written as usize),
            ),
        }
    }
}

/// The worker's end of the input queue.
pub struct InputPipe {
    pub current: Vec<u8>,
    pub position: usize,
    pub ended: bool,
    pub eof_read: bool,
}

impl View for InputPipe {
    type V = PipeModel;

    open spec fn view(&self) -> PipeModel {
        PipeModel {
            queue: self.current@.skip(self.position as int),
            ended: self.ended,
            eof_read: self.eof_read,
        }
    }
}

impl InputPipe {
    /// The position lies within the piece.
    pub open spec fn wf(self) -> bool {
        self.position <= self.current@.len()
    }

    /// A pipe before its first message.
    pub fn new() -> (pipe: Self)
        ensures
            pipe.wf(),
            pipe@ == (PipeModel { queue: Seq::empty(), ended: false, eof_read: false }),
    {
        let pipe = InputPipe { current: Vec::new(), position: 0, ended: false, eof_read: false };
        proof {
            assert(pipe@.queue =~= Seq::<u8>::empty());
        }
        pipe
    }

    /// Forgets that a read met the end of the input.
    pub fn clear_eof(&mut self)
        ensures
            *final(self) == (InputPipe { eof_read: false, ..*old(self) }),
    {
        self.eof_read = false;
    }

    /// Goes on with a read into `output`, of which `written` bytes are there.
    pub fn fill(&mut self, output: &mut [u8], written: usize) -> (step: PipeStep)
        requires
            old(self).wf(),
            written <= old(output)@.len(),
        ensures
            final(self).wf(),
            (final(self)@, step) == old(self)@.fill(old(output)@.len(), written as nat),
            final(output)@ == overlay(
                old(output)@,
                written as int,
                old(self)@.queue.take(
                    old(self)@.fitting((old(output)@.len() - written) as nat) as int,
                ),
            ),
    {
        let available: usize = self.current.len() - self.position;
        let room: usize = output.len() - written;
        let count: usize = if available < room {
            available
        } else {
            room
        };
        let ghost whole = self.current@;
        let ghost at = self.position as int;
        copy_at(output, written, self.current.as_slice(), self.position, count);
        proof {
            assert(whole.subrange(at, at + count) =~= whole.skip(at).take(count as int));
            assert(whole.skip(at).skip(count as int) =~= whole.skip(at + count));
        }
        self.position = self.position + count;
        if self.position == self.current.len() {
            self.current.clear();
            self.position = 0;
        }
        proof {
            assert(self@.queue =~= whole.skip(at + count));
        }
        let now: usize = written + count;
        if now == output.len() {
            return PipeStep::Filled(now);
        }
        if self.ended {
            if now == 0 {
                self.eof_read = true;
            }
            return PipeStep::Filled(now);
        }
        PipeStep::NeedMessage(now)
    }

    /// Takes a message for a read that has delivered `written` bytes. Returns
    /// the count if the read is over.
    pub fn supply(&mut self, message: InputMessage, written: usize) -> (over: Option<usize>)
        requires
            old(self).wf(),
            old(self)@.queue.len() == 0,
        ensures
            final(self).wf(),
            (final(self)@, over) == old(self)@.supply(
                match message {
                    InputMessage::Data(bytes) => Some(bytes@),
                    InputMessage::End => None,
                },
                written as nat,
            ),
    {
        match message {
            InputMessage::Data(bytes) => {
                if bytes.len() > 0 {
                    self.current = bytes;
                    self.position = 0;
                    proof {
                        assert(self@.queue =~= bytes@);
                    }
                }
                None
            },
            InputMessage::End => {
                self.ended = true;
                if written == 0 {
                    self.eof_read = true;
                }
                Some(written)
            },
        }
    }
}

/// A read delivers the bytes of the queue in their order and loses none.
pub proof fn law_pipe_delivers_in_order(pipe: PipeModel, total: nat, written: nat)
    requires
        written <= total,
    ensures
        pipe.queue.take(pipe.fitting((total - written) as nat) as int) + pipe.fill(
            total,
            written,
        ).0.queue == pipe.queue,
{
    let count = pipe.fitting((total - written) as nat);
    assert(pipe.queue.take(count as int) + pipe.queue.skip(count as int) =~= pipe.queue);
}

} // verus!
