//! Laws on decoders that take their input piece by piece.

use vstd::prelude::*;
use crate::codec::EndOfInput;
use crate::error::ErrorView;
use crate::filter::frame_layout::{law_gzip_headers_end, WrittenGzipHeader};
use crate::filter::gzip::{header_len, GzipModel};
use crate::filter::lz4::Lz4Model;
use crate::filter::zstd::{FrameProbe, ZstdModel};

verus! {

// ---------------------------------------------------------------------------
// gzip
// ---------------------------------------------------------------------------

/// The length that a trailer is held against is that of all decoded bytes, modulo two
/// to the thirty-second power.
pub proof fn law_lengths_are_counted(model: GzipModel, bytes: Seq<u8>)
    requires
        model.output_size == model.decoded.len() % 0x1_0000_0000,
        bytes.len() <= u32::MAX,
    ensures
        model.account(bytes) matches Ok(next) ==> next.decoded == model.decoded + bytes
            && next.output_size == next.decoded.len() % 0x1_0000_0000,
{
    if bytes.len() == 0 {
        assert(model.decoded + bytes =~= model.decoded);
    } else {
        vstd::arithmetic::div_mod::lemma_add_mod_noop_right(
            bytes.len() as int,
            model.decoded.len() as int,
            0x1_0000_0000,
        );
    }
}

/// Decoded bytes are refused exactly if they go over the budget or cannot be counted.
pub proof fn law_budgets_are_exact(model: GzipModel, bytes: Seq<u8>)
    requires
        model.decoded.len() + bytes.len() <= u64::MAX,
        bytes.len() > 0,
    ensures
        model.account(bytes) is Err <==> (model.limits.decoded_total matches Some(maximum)
            && model.decoded.len() + bytes.len() > maximum),
{
}

/// A trailer may come in pieces: it is judged once its eight bytes are there, as if
/// they had come at once, and takes no byte more.
pub proof fn law_trailers_may_come_in_pieces(model: GzipModel, first: Seq<u8>, second: Seq<u8>)
    requires
        model.trailer.len() + first.len() < 8,
    ensures
        model.trailer_step(first) matches Ok(step) && {
            &&& step.consumed == first.len()
            &&& step.status is NeedInput
            &&& match (step.model.trailer_step(second), model.trailer_step(first + second)) {
                (Ok(two), Ok(both)) => {
                    &&& two.model == both.model
                    &&& two.status == both.status
                    &&& first.len() + two.consumed == both.consumed
                    &&& both.consumed <= 8 - model.trailer.len()
                    &&& both.status is Done <==> model.trailer.len() + first.len() + second.len()
                        >= 8
                },
                (Err(two), Err(both)) => two == both,
                _ => false,
            }
        },
{
    let step = model.trailer_step(first)->Ok_0;
    let have = model.trailer.len();
    assert(first.take(first.len() as int) =~= first);
    let missing = (8 - have - first.len()) as int;
    if second.len() < missing {
        assert(second.take(second.len() as int) =~= second);
        assert((first + second).take((first + second).len() as int) =~= first + second);
        assert(model.trailer + first + second =~= model.trailer + (first + second));
    } else {
        assert((first + second).take(8 - have) =~= first + second.take(missing));
        assert(model.trailer + first + second.take(missing) =~= model.trailer + (first + second).take(
            8 - have,
        ));
    }
}

/// A header may come in pieces too: as long as a byte of it is missing it is kept, and
/// the body begins right behind its last byte.
pub proof fn law_headers_may_come_in_pieces(
    model: GzipModel,
    header: WrittenGzipHeader,
    cut: int,
    rest: Seq<u8>,
)
    requires
        header.is_allowed(),
        model.phase is Header,
        model.header.len() == 0,
        0 < cut < header.bytes().len(),
        header.bytes().len() + rest.len() <= usize::MAX,
        model.limits.metadata_bytes is None,
    ensures
        model.header_step(header.bytes().take(cut)) matches Ok(one) && {
            &&& one.consumed == cut
            &&& one.status is NeedInput
            &&& one.model.header_step(header.bytes().skip(cut) + rest) matches Ok(two) && {
                &&& two.consumed == header.bytes().len() - cut
                &&& two.model.phase is Body
                &&& two.model.header.len() == 0
                &&& two.model.decoded == model.decoded
            }
        },
{
    let bytes = header.bytes();
    law_gzip_headers_end(header, rest, cut);
    assert(model.header + bytes.take(cut) =~= bytes.take(cut));
    let one = model.header_step(bytes.take(cut))->Ok_0.model;
    assert(one.header == bytes.take(cut));
    assert(one.header + (bytes.skip(cut) + rest) =~= bytes + rest);
}

// ---------------------------------------------------------------------------
// Zstandard
// ---------------------------------------------------------------------------

/// A text is what is left of another.
pub open spec fn is_rest(part: Seq<u8>, whole: Seq<u8>) -> bool {
    part.len() <= whole.len() && part == whole.skip(whole.len() - part.len())
}

proof fn lemma_rest(whole: Seq<u8>, count: int)
    requires
        0 <= count <= whole.len(),
    ensures
        is_rest(whole.skip(count), whole),
{
    assert(whole.skip(whole.len() - whole.skip(count).len()) =~= whole.skip(count));
}

/// No byte is lost or taken twice: what a call holds back is the end of what it held
/// before together with the input that it took, and what it does not take stays with
/// the caller.
pub proof fn law_zstd_input_is_kept(model: ZstdModel, input: Seq<u8>, room: nat, end: EndOfInput)
    ensures
        model.process(input, room, end) matches Ok(step) ==> {
            &&& step.consumed <= input.len()
            &&& is_rest(step.model.pending, model.pending + input.take(step.consumed as int))
        },
{
    if let Ok(step) = model.process(input, room, end) {
        let consumed = step.consumed as int;
        if model.done {
            assert(model.pending + input.take(0) =~= model.pending);
            lemma_rest(model.pending, 0);
            assert(model.pending.skip(0) =~= model.pending);
        } else {
            let all = model.pending + input.take(consumed);
            lemma_rest(all, 0);
            assert(all.skip(0) =~= all);
            lemma_rest(all, all.len() - step.model.pending.len());
        }
    }
}

/// A frame whose checksum is stored is left only if it is the one that was computed;
/// one without a checksum is left as it is. Nothing of the old frame stays behind.
pub proof fn law_zstd_checksums_are_held(model: ZstdModel, probe: FrameProbe)
    requires
        probe.finished,
        probe.drained,
    ensures
        model.close_frame(probe) is Ok <==> (probe.stored is Some ==> probe.computed
            == probe.stored),
        model.close_frame(probe) matches Ok(next) ==> {
            &&& !next.frame_active
            &&& next.saw_frame
            &&& next.history.len() == 0
            &&& next.pending == model.pending
        },
{
}

/// A stream is done only at the end of the input, outside of a frame, with nothing
/// held back and after at least one frame; data behind it are refused.
pub proof fn law_zstd_ends_between_frames(
    model: ZstdModel,
    input: Seq<u8>,
    room: nat,
    end: EndOfInput,
)
    requires
        !model.done,
        model.frame_active || model.saw_frame || model.pending.len() < 4,
    ensures
        model.process(input, room, end) matches Ok(step) ==> step.status is Done ==> {
            &&& end is End
            &&& step.model.pending.len() == 0
            &&& !step.model.frame_active
            &&& step.model.saw_frame
            &&& step.model.done
        },
        (ZstdModel { done: true, ..model }).process(input, room, end) is Ok <==> input.len() == 0,
{
}

// ---------------------------------------------------------------------------
// Budgets and ends
// ---------------------------------------------------------------------------

/// A header that is not complete is kept exactly as long as it is within the budget for
/// metadata; the byte that goes over it is refused.
pub proof fn law_headers_stay_within_the_budget(model: GzipModel, input: Seq<u8>, maximum: usize)
    requires
        model.limits.metadata_bytes == Some(maximum),
        header_len(model.header + input) == Ok::<Option<nat>, ErrorView>(None),
        (model.header + input).len() <= usize::MAX,
    ensures
        model.header_step(input) is Ok <==> (model.header + input).len() <= maximum,
        model.header_step(input) matches Ok(step) ==> step.model.header == model.header + input
            && step.consumed == input.len(),
{
}

/// An LZ4 stream is done only at the end of the input, all of which was taken, between
/// frames, with nothing held back or left to hand out, and after at least one frame.
pub proof fn law_lz4_ends_between_frames(
    model: Lz4Model,
    input: Seq<u8>,
    room: nat,
    end: EndOfInput,
)
    requires
        !model.done,
    ensures
        model.process(input, room, end) matches Ok(step) ==> step.status is Done ==> {
            &&& end is End
            &&& step.consumed == input.len()
            &&& step.model.pending.len() == 0
            &&& step.model.ready.len() == 0
            &&& step.model.state is Header
            &&& step.model.saw_frame
            &&& step.model.done
        },
        (Lz4Model { done: true, ..model }).process(input, room, end) is Ok <==> input.len() == 0,
{
}

} // verus!
