//! The calling protocol of caller-driven codecs.

use vstd::prelude::*;

verus! {

/// Whether more input may follow the bytes of this call.
#[derive(Clone, Copy, Debug, PartialEq, Eq, Structural)]
pub enum EndOfInput {
    /// More input may follow.
    More,
    /// The bytes of this call are the last.
    End,
}

/// What a codec needs next.
#[derive(Clone, Copy, Debug, PartialEq, Eq, Structural)]
pub enum CodecStatus {
    /// Input has to be supplied.
    NeedInput,
    /// Output space has to be supplied.
    NeedOutput,
    /// The stream is complete.
    Done,
}

/// Progress made by one codec call.
#[derive(Clone, Copy, Debug, PartialEq, Eq, Structural)]
pub struct CodecStep {
    /// Input bytes taken.
    pub consumed: usize,
    /// Output bytes written.
    pub produced: usize,
    /// What the codec needs next.
    pub status: CodecStatus,
}

impl CodecStep {
    /// Whether the counts lie within the buffers of the call.
    pub open spec fn fits(self, input_len: nat, output_len: nat) -> bool {
        self.consumed <= input_len && self.produced <= output_len
    }
}

} // verus!
