//! Readers of concatenated gzip and XZ members.
//!
//! A reader decides what to do next; its driver reads input, and for XZ runs the
//! codec, and reports back.

use vstd::prelude::*;
use crate::bytes::{has_prefix, starts_with};
use crate::codec::{CodecStatus, CodecStep, EndOfInput};
use crate::error::{ArchiveError, ErrorView};
use crate::filter::gzip::{GzipDecoder, GzipModel, GzipMove, Phase};
use crate::io_fault::{
    archive_io, codec_archive_io, io_fault, reader_fault, IoFault, IoFaultView, IoKind,
};
use crate::limits::Limits;

verus! {

/// Bytes that a reader buffers at most.
pub const BUFFER: usize = 64 * 1024;

// ---------------------------------------------------------------------------
// Input window
// ---------------------------------------------------------------------------

/// Input that was read and not consumed yet.
pub struct InputWindow {
    pub buffer: Vec<u8>,
    pub start: usize,
    pub eof: bool,
}

impl View for InputWindow {
    type V = Seq<u8>;

    open spec fn view(&self) -> Seq<u8> {
        self.buffer@.skip(self.start as int)
    }
}

impl InputWindow {
    /// The start lies within the buffer, and no more is held than may be.
    pub open spec fn wf(self) -> bool {
        self.start <= self.buffer@.len() && self@.len() <= BUFFER
    }

    /// A window before the first read.
    pub fn new() -> (window: Self)
        ensures
            window.wf(),
            window@ == Seq::<u8>::empty(),
            !window.eof,
    {
        let window = InputWindow { buffer: Vec::new(), start: 0, eof: false };
        proof {
            assert(window@ =~= Seq::<u8>::empty());
        }
        window
    }

    /// The number of bytes held.
    pub fn len(&self) -> (len: usize)
        requires
            self.wf(),
        ensures
            len == self@.len(),
    {
        self.buffer.len() - self.start
    }

    /// How many bytes may be read.
    pub fn room(&self) -> (room: usize)
        requires
            self.wf(),
        ensures
            room == BUFFER - self@.len(),
    {
        BUFFER - (self.buffer.len() - self.start)
    }

    /// The bytes held.
    pub fn bytes(&self) -> (bytes: &[u8])
        requires
            self.wf(),
        ensures
            bytes@ == self@,
    {
        proof {
            assert(self.buffer@.subrange(self.start as int, self.buffer@.len() as int) =~= self@);
        }
        &self.buffer.as_slice()[self.start..self.buffer.len()]
    }

    /// Drops consumed bytes.
    pub fn consume(&mut self, count: usize)
        requires
            old(self).wf(),
            count <= old(self)@.len(),
        ensures
            final(self).wf(),
            final(self)@ == old(self)@.skip(count as int),
            final(self).eof == old(self).eof,
    {
        let end: usize = self.buffer.len();
        self.start = self.start + count;
        proof {
            assert(self@ =~= old(self)@.skip(count as int));
        }
    }

    /// Takes what a read gave; nothing means that the input has ended.
    pub fn supply(&mut self, bytes: &[u8])
        requires
            old(self).wf(),
            bytes@.len() <= BUFFER - old(self)@.len(),
        ensures
            final(self).wf(),
            final(self)@ == old(self)@ + bytes@,
            final(self).eof == (old(self).eof || bytes@.len() == 0),
    {
        let ghost held = self@;
        if self.start > 0 {
            let rest = self.buffer.split_off(self.start);
            self.buffer = rest;
            self.start = 0;
            proof {
                assert(self@ =~= held);
            }
        }
        if bytes.len() == 0 {
            self.eof = true;
            proof {
                assert(held + bytes@ =~= held);
            }
        } else {
            self.buffer.extend_from_slice(bytes);
            proof {
                assert(self@ =~= held + bytes@);
            }
        }
    }
}

/// The end-of-input mark for a window.
pub open spec fn end_mark(eof: bool) -> EndOfInput {
    if eof {
        EndOfInput::End
    } else {
        EndOfInput::More
    }
}

// ---------------------------------------------------------------------------
// gzip
// ---------------------------------------------------------------------------

/// What a member reader's driver has to do next.
pub enum ReadAction {
    /// Read input and supply it.
    Fill,
    /// Go on.
    Again,
    /// End the read with this result.
    Return(Result<usize, IoFault>),
}

/// The mathematical content of a [`ReadAction`].
pub enum ReadActionView {
    Fill,
    Again,
    Return(Result<usize, IoFaultView>),
}

impl View for ReadAction {
    type V = ReadActionView;

    open spec fn view(&self) -> ReadActionView {
        match self {
            ReadAction::Fill => ReadActionView::Fill,
            ReadAction::Again => ReadActionView::Again,
            ReadAction::Return(result) => ReadActionView::Return(
                match result {
                    Ok(count) => Ok(*count),
                    Err(fault) => Err(fault@),
                },
            ),
        }
    }
}

/// A read that ends with a failure.
pub open spec fn failed(message: Seq<char>) -> ReadActionView {
    ReadActionView::Return(Err(io_fault(IoKind::InvalidData, message)))
}

fn fail_read(message: &str) -> (action: ReadAction)
    ensures
        action@ == failed(message@),
{
    ReadAction::Return(Err(IoFault::new(IoKind::InvalidData, message)))
}

/// The mathematical content of a [`GzipReader`].
#[verifier::ext_equal]
pub struct GzipReadModel {
    pub window: Seq<u8>,
    pub eof: bool,
    pub between_members: bool,
    pub done: bool,
    pub limits: Limits,
    pub decoder: GzipModel,
}

/// A decoder before its first byte.
pub open spec fn fresh_member(limits: Limits) -> GzipModel {
    GzipModel {
        phase: Phase::Header,
        history: Seq::empty(),
        trailer: Seq::empty(),
        decoded: Seq::empty(),
        output_size: 0,
        header: Seq::empty(),
        limits,
    }
}

/// One turn of a reader: its state afterwards, what it wrote, what comes next.
pub struct GzipTurn {
    pub model: GzipReadModel,
    pub written: Seq<u8>,
    pub action: ReadActionView,
}

impl GzipReadModel {
    pub open spec fn idle(self, action: ReadActionView) -> GzipTurn {
        GzipTurn { model: self, written: Seq::empty(), action }
    }

    /// The reader after its decoder made a step.
    pub open spec fn decoded(self, step: GzipMove) -> GzipTurn {
        let ended = step.status == CodecStatus::Done;
        let next = GzipReadModel {
            window: self.window.skip(step.consumed as int),
            between_members: ended,
            decoder: step.model,
            ..self
        };
        let action = if step.written.len() > 0 {
            ReadActionView::Return(Ok(step.written.len() as usize))
        } else if step.consumed > 0 || ended {
            ReadActionView::Again
        } else if step.status == CodecStatus::NeedInput && !self.eof {
            if self.window.len() == BUFFER {
                ReadActionView::Again
            } else {
                ReadActionView::Fill
            }
        } else {
            failed("gzip reader made no progress"@)
        };
        GzipTurn { model: next, written: step.written, action }
    }

    /// Decodes from the window.
    pub open spec fn decode(self, room: nat) -> Result<GzipTurn, IoFaultView> {
        match self.decoder.process(self.window, room, end_mark(self.eof)) {
            Err(error) => Err(reader_fault(error, IoKind::Other)),
            Ok(step) => Ok(self.decoded(step)),
        }
    }

    /// One turn of a read into `room` bytes.
    pub open spec fn turn(self, room: nat) -> Result<GzipTurn, IoFaultView> {
        if room == 0 || self.done {
            Ok(self.idle(ReadActionView::Return(Ok(0))))
        } else if self.between_members {
            if self.window.len() < 2 && !self.eof {
                Ok(self.idle(ReadActionView::Fill))
            } else if self.window.len() == 0 {
                Ok((GzipReadModel { done: true, ..self }).idle(ReadActionView::Return(Ok(0))))
            } else if self.window.len() < 2 {
                Ok(self.idle(failed("trailing byte after gzip member"@)))
            } else if !has_prefix(self.window, seq![0x1fu8, 0x8bu8]) {
                Ok(self.idle(failed("trailing data after gzip member"@)))
            } else {
                (GzipReadModel {
                    between_members: false,
                    decoder: fresh_member(self.limits),
                    ..self
                }).decode(room)
            }
        } else if self.window.len() == 0 && !self.eof {
            Ok(self.idle(ReadActionView::Fill))
        } else {
            self.decode(room)
        }
    }
}

/// Reads concatenated gzip members.
pub struct GzipReader {
    pub window: InputWindow,
    pub between_members: bool,
    pub done: bool,
    pub limits: Limits,
    pub decoder: GzipDecoder,
}

impl View for GzipReader {
    type V = GzipReadModel;

    open spec fn view(&self) -> GzipReadModel {
        GzipReadModel {
            window: self.window@,
            eof: self.window.eof,
            between_members: self.between_members,
            done: self.done,
            limits: self.limits,
            decoder: self.decoder@,
        }
    }
}

impl GzipReader {
    /// Window and decoder are well formed.
    pub open spec fn wf(self) -> bool {
        self.window.wf() && self.decoder.wf()
    }

    /// A reader before its first read.
    pub fn new(limits: Limits) -> (reader: Self)
        ensures
            reader.wf(),
            reader@ == (GzipReadModel {
                window: Seq::empty(),
                eof: false,
                between_members: false,
                done: false,
                limits,
                decoder: fresh_member(limits),
            }),
    {
        GzipReader {
            window: InputWindow::new(),
            between_members: false,
            done: false,
            limits,
            decoder: GzipDecoder::new(limits),
        }
    }

    /// Takes what the driver read.
    pub fn supply(&mut self, bytes: &[u8])
        requires
            old(self).wf(),
            bytes@.len() <= BUFFER - old(self)@.window.len(),
        ensures
            final(self).wf(),
            final(self)@ == (GzipReadModel {
                window: old(self)@.window + bytes@,
                eof: old(self)@.eof || bytes@.len() == 0,
                ..old(self)@
            }),
    {
        self.window.supply(bytes);
    }

    fn decode(&mut self, output: &mut [u8]) -> (action: ReadAction)
        requires
            old(self).wf(),
        ensures
            final(output)@.len() == old(output)@.len(),
            match old(self)@.decode(old(output)@.len()) {
                Ok(turn) => {
                    &&& final(self).wf()
                    &&& final(self)@ == turn.model
                    &&& action@ == turn.action
                    &&& turn.written.len() <= final(output)@.len()
                    &&& final(output)@.take(turn.written.len() as int) == turn.written
                },
                Err(fault) => action@ == ReadActionView::Return(Err(fault)),
            },
    {
        let end = if self.window.eof {
            EndOfInput::End
        } else {
            EndOfInput::More
        };
        let held: usize = self.window.len();
        let eof = self.window.eof;
        let step = match self.decoder.process(self.window.bytes(), output, end) {
            Ok(step) => step,
            Err(error) => {
                return ReadAction::Return(Err(archive_io(error)));
            },
        };
        self.window.consume(step.consumed);
        let ended = step.status == CodecStatus::Done;
        self.between_members = ended;
        proof {
            let moved = old(self)@.decoder.process(
                old(self)@.window,
                old(output)@.len(),
                end,
            )->Ok_0;
            assert(self@ =~= old(self)@.decoded(moved).model);
        }
        if step.produced > 0 {
            ReadAction::Return(Ok(step.produced))
        } else if step.consumed > 0 || ended {
            ReadAction::Again
        } else if step.status == CodecStatus::NeedInput && !eof {
            if held == BUFFER {
                ReadAction::Again
            } else {
                ReadAction::Fill
            }
        } else {
            fail_read("gzip reader made no progress")
        }
    }

    /// Makes one turn of a read.
    pub fn turn(&mut self, output: &mut [u8]) -> (action: ReadAction)
        requires
            old(self).wf(),
        ensures
            final(output)@.len() == old(output)@.len(),
            match old(self)@.turn(old(output)@.len()) {
                Ok(turn) => {
                    &&& final(self).wf()
                    &&& final(self)@ == turn.model
                    &&& action@ == turn.action
                    &&& turn.written.len() <= final(output)@.len()
                    &&& final(output)@.take(turn.written.len() as int) == turn.written
                },
                Err(fault) => action@ == ReadActionView::Return(Err(fault)),
            },
    {
        proof {
            assert(output@.take(0) =~= Seq::<u8>::empty());
        }
        if output.len() == 0 || self.done {
            return ReadAction::Return(Ok(0));
        }
        let held: usize = self.window.len();
        if self.between_members {
            if held < 2 && !self.window.eof {
                return ReadAction::Fill;
            }
            if held == 0 {
                self.done = true;
                return ReadAction::Return(Ok(0));
            }
            if held < 2 {
                return fail_read("trailing byte after gzip member");
            }
            let magic: [u8; 2] = [0x1f, 0x8b];
            proof {
                assert(magic@ =~= seq![0x1fu8, 0x8bu8]);
            }
            if !starts_with(self.window.bytes(), &magic) {
                return fail_read("trailing data after gzip member");
            }
            self.decoder = GzipDecoder::new(self.limits);
            self.between_members = false;
        } else if held == 0 && !self.window.eof {
            return ReadAction::Fill;
        }
        self.decode(output)
    }
}

// ---------------------------------------------------------------------------
// XZ
// ---------------------------------------------------------------------------

/// Where a reader of XZ streams is.
#[derive(Clone, Copy, Debug, PartialEq, Eq, Structural)]
pub enum XzReadState {
    Running,
    /// Behind a stream and this much padding.
    Between { padding: usize },
    Done,
    Failed,
}

/// What an XZ reader's driver has to do next.
pub enum XzReadAction {
    /// Read input and supply it.
    Fill,
    /// Begin to decode a new stream.
    Restart,
    /// Decode from the window.
    Decode(EndOfInput),
    /// Go on.
    Again,
    /// End the read with this result.
    Return(Result<usize, IoFault>),
}

/// The mathematical content of an [`XzReadAction`].
pub enum XzReadActionView {
    Fill,
    Restart,
    Decode(EndOfInput),
    Again,
    Return(Result<usize, IoFaultView>),
}

impl View for XzReadAction {
    type V = XzReadActionView;

    open spec fn view(&self) -> XzReadActionView {
        match self {
            XzReadAction::Fill => XzReadActionView::Fill,
            XzReadAction::Restart => XzReadActionView::Restart,
            XzReadAction::Decode(end) => XzReadActionView::Decode(*end),
            XzReadAction::Again => XzReadActionView::Again,
            XzReadAction::Return(result) => XzReadActionView::Return(
                match result {
                    Ok(count) => Ok(*count),
                    Err(fault) => Err(fault@),
                },
            ),
        }
    }
}

/// The zero bytes that a text begins with.
pub open spec fn leading_zeros(text: Seq<u8>) -> nat
    decreases text.len(),
{
    if text.len() > 0 && text[0] == 0 {
        1 + leading_zeros(text.skip(1))
    } else {
        0
    }
}

/// The mathematical content of an [`XzReader`].
#[verifier::ext_equal]
pub struct XzReadModel {
    pub window: Seq<u8>,
    pub eof: bool,
    pub state: XzReadState,
    /// The decoder asked for input and consumed none.
    pub starved: bool,
}

/// A turn that ends in failure, after which the reader stays failed.
pub open spec fn xz_failed(model: XzReadModel, message: Seq<char>) -> (
    XzReadModel,
    XzReadActionView,
) {
    (
        XzReadModel { state: XzReadState::Failed, ..model },
        XzReadActionView::Return(Err(io_fault(IoKind::InvalidData, message))),
    )
}

impl XzReadModel {
    /// Between streams: skips padding and looks for the next stream.
    pub open spec fn between(self, padding: usize) -> (XzReadModel, XzReadActionView) {
        let zeros = leading_zeros(self.window);
        if padding + zeros > usize::MAX {
            let counted = usize::MAX - padding;
            (
                XzReadModel {
                    window: self.window.skip(counted + 1),
                    state: XzReadState::Between { padding: usize::MAX },
                    ..self
                },
                XzReadActionView::Return(
                    Err(io_fault(IoKind::OutOfMemory, "XZ padding count overflow"@)),
                ),
            )
        } else {
            let total = (padding + zeros) as usize;
            let next = XzReadModel {
                window: self.window.skip(zeros as int),
                state: XzReadState::Between { padding: total },
                ..self
            };
            if next.window.len() == 0 {
                if !self.eof {
                    (next, XzReadActionView::Fill)
                } else if total % 4 != 0 {
                    xz_failed(next, "XZ stream padding is not a multiple of four bytes"@)
                } else {
                    (
                        XzReadModel { state: XzReadState::Done, ..next },
                        XzReadActionView::Return(Ok(0)),
                    )
                }
            } else if total % 4 != 0 {
                xz_failed(next, "XZ stream padding is not a multiple of four bytes"@)
            } else if next.window.len() < 6 && !self.eof {
                (next, XzReadActionView::Fill)
            } else if !has_prefix(next.window, seq![0xfdu8, 0x37u8, 0x7au8, 0x58u8, 0x5au8, 0u8]) {
                xz_failed(next, "non-member trailing filter data"@)
            } else {
                (next, XzReadActionView::Restart)
            }
        }
    }

    /// One turn of a read into `room` bytes.
    pub open spec fn turn(self, room: nat) -> (XzReadModel, XzReadActionView) {
        if room == 0 || self.state is Done {
            (self, XzReadActionView::Return(Ok(0)))
        } else {
            match self.state {
                XzReadState::Failed => xz_failed(self, "XZ reader is in a failed state"@),
                XzReadState::Between { padding } => self.between(padding),
                _ => if self.window.len() == 0 && !self.eof {
                    (self, XzReadActionView::Fill)
                } else {
                    (self, XzReadActionView::Decode(end_mark(self.eof)))
                },
            }
        }
    }

    /// The reader after input came.
    pub open spec fn supplied(self, bytes: Seq<u8>) -> (XzReadModel, XzReadActionView) {
        let next = XzReadModel {
            window: self.window + bytes,
            eof: self.eof || bytes.len() == 0,
            starved: false,
            ..self
        };
        if self.starved && bytes.len() == 0 {
            xz_failed(next, "XZ reader could not make input progress"@)
        } else {
            (next, XzReadActionView::Again)
        }
    }

    /// The reader after a new decoder was made.
    pub open spec fn restarted(self) -> XzReadModel {
        XzReadModel { state: XzReadState::Running, ..self }
    }

    /// The reader after the codec's reply.
    pub open spec fn decoded(self, reply: Result<CodecStep, ErrorView>) -> (
        XzReadModel,
        XzReadActionView,
    ) {
        match reply {
            Err(error) => (
                XzReadModel { state: XzReadState::Failed, ..self },
                XzReadActionView::Return(Err(reader_fault(error, IoKind::OutOfMemory))),
            ),
            Ok(step) => {
                let ended = step.status == CodecStatus::Done;
                let next = XzReadModel {
                    window: self.window.skip(step.consumed as int),
                    state: if ended {
                        XzReadState::Between { padding: 0 }
                    } else {
                        self.state
                    },
                    ..self
                };
                if step.produced > 0 {
                    (next, XzReadActionView::Return(Ok(step.produced)))
                } else if step.consumed > 0 || ended {
                    (next, XzReadActionView::Again)
                } else if step.status == CodecStatus::NeedInput && !self.eof {
                    if self.window.len() == BUFFER {
                        xz_failed(next, "XZ reader could not make input progress"@)
                    } else {
                        (XzReadModel { starved: true, ..next }, XzReadActionView::Fill)
                    }
                } else {
                    xz_failed(next, "XZ reader made no progress"@)
                }
            },
        }
    }
}

/// Reads concatenated XZ streams.
pub struct XzReader {
    pub window: InputWindow,
    pub state: XzReadState,
    pub starved: bool,
}

impl View for XzReader {
    type V = XzReadModel;

    open spec fn view(&self) -> XzReadModel {
        XzReadModel {
            window: self.window@,
            eof: self.window.eof,
            state: self.state,
            starved: self.starved,
        }
    }
}

impl XzReader {
    /// The window is well formed.
    pub open spec fn wf(self) -> bool {
        self.window.wf()
    }

    /// A reader before its first read.
    pub fn new() -> (reader: Self)
        ensures
            reader.wf(),
            reader@ == (XzReadModel {
                window: Seq::empty(),
                eof: false,
                state: XzReadState::Running,
                starved: false,
            }),
    {
        XzReader { window: InputWindow::new(), state: XzReadState::Running, starved: false }
    }

    fn fail(&mut self, message: &str) -> (action: XzReadAction)
        requires
            old(self).wf(),
        ensures
            final(self).wf(),
            (final(self)@, action@) == xz_failed(old(self)@, message@),
    {
        self.state = XzReadState::Failed;
        XzReadAction::Return(Err(IoFault::new(IoKind::InvalidData, message)))
    }

    fn drive_between_members(&mut self, padding: usize) -> (action: XzReadAction)
        requires
            old(self).wf(),
        ensures
            final(self).wf(),
            (final(self)@, action@) == old(self)@.between(padding),
    {
        let mut counted: usize = padding;
        let ghost whole = self@.window;
        let ghost mut taken: nat = 0;
        proof {
            assert(whole.skip(0) =~= whole);
        }
        while self.window.len() > 0 && self.window.bytes()[0] == 0
            invariant
                self.wf(),
                whole == old(self)@.window,
                self@ == (XzReadModel { window: whole.skip(taken as int), ..old(self)@ }),
                taken <= whole.len(),
                counted == padding + taken,
                leading_zeros(whole) == taken + leading_zeros(whole.skip(taken as int)),
            decreases self@.window.len(),
        {
            proof {
                let rest = whole.skip(taken as int);
                assert(rest.skip(1) =~= whole.skip(taken as int + 1));
            }
            self.window.consume(1);
            match counted.checked_add(1) {
                Some(count) => {
                    counted = count;
                },
                None => {
                    self.state = XzReadState::Between { padding: usize::MAX };
                    proof {
                        assert(self@.window =~= whole.skip(usize::MAX - padding + 1));
                    }
                    return XzReadAction::Return(
                        Err(IoFault::new(IoKind::OutOfMemory, "XZ padding count overflow")),
                    );
                },
            }
            proof {
                taken = taken + 1;
            }
        }
        self.state = XzReadState::Between { padding: counted };
        proof {
            assert(leading_zeros(whole) == taken);
        }
        if self.window.len() == 0 {
            if !self.window.eof {
                return XzReadAction::Fill;
            }
            if counted % 4 != 0 {
                return self.fail("XZ stream padding is not a multiple of four bytes");
            }
            self.state = XzReadState::Done;
            return XzReadAction::Return(Ok(0));
        }
        if counted % 4 != 0 {
            return self.fail("XZ stream padding is not a multiple of four bytes");
        }
        if self.window.len() < 6 && !self.window.eof {
            return XzReadAction::Fill;
        }
        let magic: [u8; 6] = [0xfd, 0x37, 0x7a, 0x58, 0x5a, 0];
        proof {
            assert(magic@ =~= seq![0xfdu8, 0x37u8, 0x7au8, 0x58u8, 0x5au8, 0u8]);
        }
        if !starts_with(self.window.bytes(), &magic) {
            return self.fail("non-member trailing filter data");
        }
        XzReadAction::Restart
    }

    /// Makes one turn of a read into `room` bytes.
    pub fn turn(&mut self, room: usize) -> (action: XzReadAction)
        requires
            old(self).wf(),
        ensures
            final(self).wf(),
            (final(self)@, action@) == old(self)@.turn(room as nat),
    {
        if room == 0 || self.state == XzReadState::Done {
            return XzReadAction::Return(Ok(0));
        }
        match self.state {
            XzReadState::Failed => self.fail("XZ reader is in a failed state"),
            XzReadState::Between { padding } => self.drive_between_members(padding),
            _ => {
                if self.window.len() == 0 && !self.window.eof {
                    return XzReadAction::Fill;
                }
                XzReadAction::Decode(
                    if self.window.eof {
                        EndOfInput::End
                    } else {
                        EndOfInput::More
                    },
                )
            },
        }
    }

    /// Takes what the driver read.
    pub fn supply(&mut self, bytes: &[u8]) -> (action: XzReadAction)
        requires
            old(self).wf(),
            bytes@.len() <= BUFFER - old(self)@.window.len(),
        ensures
            final(self).wf(),
            (final(self)@, action@) == old(self)@.supplied(bytes@),
    {
        let starved = self.starved;
        self.window.supply(bytes);
        self.starved = false;
        if starved && bytes.len() == 0 {
            return self.fail("XZ reader could not make input progress");
        }
        XzReadAction::Again
    }

    /// Records that a new decoder was made.
    pub fn restart(&mut self)
        requires
            old(self).wf(),
        ensures
            final(self).wf(),
            final(self)@ == old(self)@.restarted(),
    {
        self.state = XzReadState::Running;
    }

    /// Takes the codec's reply.
    pub fn decoded(&mut self, reply: Result<CodecStep, ArchiveError>) -> (action: XzReadAction)
        requires
            old(self).wf(),
            reply matches Ok(step) ==> step.consumed <= old(self)@.window.len(),
        ensures
            final(self).wf(),
            (final(self)@, action@) == old(self)@.decoded(
                match reply {
                    Ok(step) => Ok(step),
                    Err(error) => Err(error@),
                },
            ),
    {
        let step = match reply {
            Ok(step) => step,
            Err(error) => {
                self.state = XzReadState::Failed;
                return XzReadAction::Return(Err(codec_archive_io(error)));
            },
        };
        let held: usize = self.window.len();
        let eof = self.window.eof;
        let ended = step.status == CodecStatus::Done;
        self.window.consume(step.consumed);
        if ended {
            self.state = XzReadState::Between { padding: 0 };
        }
        if step.produced > 0 {
            return XzReadAction::Return(Ok(step.produced));
        }
        if step.consumed > 0 || ended {
            return XzReadAction::Again;
        }
        if step.status == CodecStatus::NeedInput && !eof {
            if held == BUFFER {
                return self.fail("XZ reader could not make input progress");
            }
            self.starved = true;
            return XzReadAction::Fill;
        }
        self.fail("XZ reader made no progress")
    }
}

/// A reader that has failed fails every further read, and one that is done
/// reads nothing more.
pub proof fn law_xz_reader_stays_ended(model: XzReadModel, room: nat)
    requires
        room > 0,
        model.state is Failed || model.state is Done,
    ensures
        ({
            let (next, action) = model.turn(room);
            &&& next == model
            &&& match model.state {
                XzReadState::Done => action == XzReadActionView::Return(Ok(0usize)),
                _ => action matches XzReadActionView::Return(Err(_)),
            }
        }),
{
}

} // verus!
