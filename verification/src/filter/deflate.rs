//! The raw DEFLATE coder behind gzip framing.
//!
//! Both directions keep their state in the coder, so what a call returns is a
//! function of the calls before it and of its own arguments. The calls made so
//! far are kept as a ghost value beside the state.

use vstd::prelude::*;
use miniz_oxide::deflate::stream::deflate;
use miniz_oxide::inflate::stream::{inflate, InflateState};
use miniz_oxide::{DataFormat, MZError, MZFlush, MZStatus};

verus! {

/// How one coder call ended.
#[derive(Clone, Copy, Debug, PartialEq, Eq, Structural)]
pub enum CoderStatus {
    /// Progress was made; the stream goes on.
    More,
    /// The stream is complete.
    End,
    /// No progress was possible with these buffers.
    Starved,
    /// The stream or the call is broken.
    Broken,
}

/// The counts and the status of one coder call.
#[derive(Clone, Copy, Debug, PartialEq, Eq, Structural)]
pub struct CoderOutcome {
    /// Input bytes taken.
    pub consumed: usize,
    /// Output bytes written.
    pub written: usize,
    /// How the call ended.
    pub status: CoderStatus,
}

/// The decoder state of the DEFLATE coder.
#[verifier::external_type_specification]
#[verifier::external_body]
pub struct ExInflateState(miniz_oxide::inflate::stream::InflateState);

/// The encoder state of the DEFLATE coder.
#[verifier::external_type_specification]
#[verifier::external_body]
pub struct ExCompressorOxide(miniz_oxide::deflate::core::CompressorOxide);

/// What `miniz_oxide::inflate::stream::inflate` returns on a raw stream after
/// the calls of `history`, each of which had an input, an output length and the
/// choice to finish: the bytes taken, the bytes written and the status.
pub uninterp spec fn inflate_result(
    history: Seq<(Seq<u8>, nat, bool)>,
    input: Seq<u8>,
    room: nat,
    finish: bool,
) -> (nat, Seq<u8>, CoderStatus);

/// What `miniz_oxide::deflate::stream::deflate` returns on a raw stream of
/// level six after the calls of `history`: the bytes taken, the bytes written
/// and the status.
pub uninterp spec fn deflate_result(
    history: Seq<(Seq<u8>, nat, bool)>,
    input: Seq<u8>,
    room: nat,
    finish: bool,
) -> (nat, Seq<u8>, CoderStatus);

/// A raw DEFLATE decoder.
pub struct Inflater {
    state: Box<InflateState>,
    history: Ghost<Seq<(Seq<u8>, nat, bool)>>,
}

impl Inflater {
    /// The calls made so far.
    pub closed spec fn history(&self) -> Seq<(Seq<u8>, nat, bool)> {
        self.history@
    }

    /// `miniz_oxide::inflate::stream::InflateState::new` for raw DEFLATE, on the
    /// heap. Claimed: the state has seen no call.
    #[verifier::external_body]
    pub(crate) fn new() -> (inflater: Self)
        ensures
            inflater.history().len() == 0,
    {
        let state = Box::new(InflateState::new(DataFormat::Raw));
        Inflater { state, history: Ghost(Seq::empty()) }
    }

    /// `miniz_oxide::inflate::stream::inflate`, with `MZFlush::Finish` or
    /// `MZFlush::None`. Claimed: the counts lie within the buffers, and what is
    /// taken, written and reported is the named result of the calls so far and
    /// of these arguments. Of the output behind the bytes written nothing is
    /// claimed.
    #[verifier::external_body]
    pub(crate) fn run(&mut self, input: &[u8], output: &mut [u8], finish: bool) -> (outcome:
        CoderOutcome)
        ensures
            final(self).history() == old(self).history().push(
                (input@, old(output)@.len(), finish),
            ),
            outcome.consumed <= input@.len(),
            outcome.written <= old(output)@.len(),
            final(output)@.len() == old(output)@.len(),
            (
                outcome.consumed as nat,
                final(output)@.take(outcome.written as int),
                outcome.status,
            ) == inflate_result(old(self).history(), input@, old(output)@.len(), finish),
    {
        let flush = if finish { MZFlush::Finish } else { MZFlush::None };
        let result = inflate(&mut self.state, input, output, flush);
        let status = match result.status {
            Ok(MZStatus::Ok) => CoderStatus::More,
            Ok(MZStatus::StreamEnd) => CoderStatus::End,
            Ok(MZStatus::NeedDict) => CoderStatus::More,
            Err(MZError::Buf) => CoderStatus::Starved,
            Err(_) => CoderStatus::Broken,
        };
        CoderOutcome { consumed: result.bytes_consumed, written: result.bytes_written, status }
    }
}

/// A raw DEFLATE encoder of level six.
pub struct Deflater {
    state: Box<miniz_oxide::deflate::core::CompressorOxide>,
    history: Ghost<Seq<(Seq<u8>, nat, bool)>>,
}

impl Deflater {
    /// The calls made so far.
    pub closed spec fn history(&self) -> Seq<(Seq<u8>, nat, bool)> {
        self.history@
    }

    /// `miniz_oxide::deflate::core::CompressorOxide::new` for raw DEFLATE of level
    /// six, on the heap. Claimed: the state has seen no call.
    #[verifier::external_body]
    pub(crate) fn new() -> (deflater: Self)
        ensures
            deflater.history().len() == 0,
    {
        let flags = miniz_oxide::deflate::core::create_comp_flags_from_zip_params(6, 0, 0);
        let state = Box::new(miniz_oxide::deflate::core::CompressorOxide::new(flags));
        Deflater { state, history: Ghost(Seq::empty()) }
    }

    /// `miniz_oxide::deflate::stream::deflate`, with `MZFlush::Finish` or
    /// `MZFlush::None`. Claimed: the counts lie within the buffers, and what is
    /// taken, written and reported is the named result of the calls so far and
    /// of these arguments. Of the output behind the bytes written nothing is
    /// claimed.
    #[verifier::external_body]
    pub(crate) fn run(&mut self, input: &[u8], output: &mut [u8], finish: bool) -> (outcome:
        CoderOutcome)
        ensures
            final(self).history() == old(self).history().push(
                (input@, old(output)@.len(), finish),
            ),
            outcome.consumed <= input@.len(),
            outcome.written <= old(output)@.len(),
            final(output)@.len() == old(output)@.len(),
            (
                outcome.consumed as nat,
                final(output)@.take(outcome.written as int),
                outcome.status,
            ) == deflate_result(old(self).history(), input@, old(output)@.len(), finish),
    {
        let flush = if finish { MZFlush::Finish } else { MZFlush::None };
        let result = deflate(&mut self.state, input, output, flush);
        let status = match result.status {
            Ok(MZStatus::Ok) => CoderStatus::More,
            Ok(MZStatus::StreamEnd) => CoderStatus::End,
            Ok(MZStatus::NeedDict) => CoderStatus::More,
            Err(MZError::Buf) => CoderStatus::Starved,
            Err(_) => CoderStatus::Broken,
        };
        CoderOutcome { consumed: result.bytes_consumed, written: result.bytes_written, status }
    }
}

} // verus!
