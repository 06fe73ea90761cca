//! Failures of readers and writers.

use vstd::prelude::*;
use crate::error::{ArchiveError, ErrorKind, ErrorView};

verus! {

/// The kind of an I/O failure.
#[derive(Clone, Copy, Debug, PartialEq, Eq, Structural)]
pub enum IoKind {
    InvalidData,
    InvalidInput,
    UnexpectedEof,
    Unsupported,
    OutOfMemory,
    NotFound,
    FileTooLarge,
    Other,
}

/// Why an operation failed.
#[derive(Debug)]
pub enum IoReason {
    Message(String),
    Archive(ArchiveError),
}

/// An I/O failure.
#[derive(Debug)]
pub struct IoFault {
    pub kind: IoKind,
    pub reason: IoReason,
}

/// The mathematical content of an [`IoFault`].
pub enum IoFaultView {
    Message { kind: IoKind, message: Seq<char> },
    Archive { kind: IoKind, error: ErrorView },
}

impl View for IoFault {
    type V = IoFaultView;

    open spec fn view(&self) -> IoFaultView {
        match self.reason {
            IoReason::Message(message) => IoFaultView::Message { kind: self.kind, message: message@ },
            IoReason::Archive(error) => IoFaultView::Archive { kind: self.kind, error: error@ },
        }
    }
}

/// A failure with a message.
pub open spec fn io_fault(kind: IoKind, message: Seq<char>) -> IoFaultView {
    IoFaultView::Message { kind, message }
}

impl IoFault {
    /// A failure with a message.
    pub fn new(kind: IoKind, message: &str) -> (fault: Self)
        ensures
            fault@ == io_fault(kind, message@),
    {
        IoFault { kind, reason: IoReason::Message(message.to_string()) }
    }
}

/// The kind of a failure of the reader behind an archive error.
pub open spec fn reader_kind(kind: ErrorKind, limit: IoKind) -> IoKind {
    match kind {
        ErrorKind::Limit => limit,
        ErrorKind::Unsupported => IoKind::Unsupported,
        _ => IoKind::InvalidData,
    }
}

/// The failure of a reader that met an archive error.
pub open spec fn reader_fault(error: ErrorView, limit: IoKind) -> IoFaultView {
    IoFaultView::Archive { kind: reader_kind(error.kind, limit), error }
}

fn wrap(error: ArchiveError, limit: IoKind) -> (fault: IoFault)
    ensures
        fault@ == reader_fault(error@, limit),
{
    let kind = match error.kind {
        ErrorKind::Limit => limit,
        ErrorKind::Unsupported => IoKind::Unsupported,
        _ => IoKind::InvalidData,
    };
    IoFault { kind, reason: IoReason::Archive(error) }
}

/// An archive error as a reader reports it: budgets are other failures.
pub fn archive_io(error: ArchiveError) -> (fault: IoFault)
    ensures
        fault@ == reader_fault(error@, IoKind::Other),
{
    wrap(error, IoKind::Other)
}

/// An archive error as a codec reports it: budgets are want of memory.
pub fn codec_archive_io(error: ArchiveError) -> (fault: IoFault)
    ensures
        fault@ == reader_fault(error@, IoKind::OutOfMemory),
{
    wrap(error, IoKind::OutOfMemory)
}

/// The kind of the archive error behind a failure of a filter's writer.
pub fn filter_writer_kind(unsupported: bool) -> (kind: ErrorKind)
    ensures
        kind == if unsupported {
            ErrorKind::Capability
        } else {
            ErrorKind::Protocol
        },
{
    if unsupported {
        ErrorKind::Capability
    } else {
        ErrorKind::Protocol
    }
}

} // verus!
