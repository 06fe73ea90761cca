//! Laws on readers of concatenated streams.

use vstd::prelude::*;
use crate::codec::{CodecStatus, CodecStep};
use crate::error::ErrorView;
use crate::filter::xz_stream::written_start;
use crate::filtered::members::{leading_zeros, XzReadActionView, XzReadModel, XzReadState};
use crate::layout::zeros;

verus! {

proof fn lemma_zeros_are_counted(count: nat, rest: Seq<u8>)
    requires
        rest.len() == 0 || rest[0] != 0,
    ensures
        leading_zeros(zeros(count) + rest) == count,
    decreases count,
{
    let text = zeros(count) + rest;
    if count == 0 {
        assert(text =~= rest);
    } else {
        assert(text[0] == 0);
        assert(text.skip(1) =~= zeros((count - 1) as nat) + rest);
        lemma_zeros_are_counted((count - 1) as nat, rest);
    }
}

/// Between streams, zeros are passed over; a stream that follows a multiple of four of
/// them is read next, from its first byte on, and after any other number of zeros the
/// reader fails.
pub proof fn law_streams_follow_words_of_padding(
    model: XzReadModel,
    padding: usize,
    count: nat,
    kind: u8,
    crc: Seq<u8>,
    rest: Seq<u8>,
)
    requires
        padding + count <= usize::MAX,
        model.window == zeros(count) + (written_start(kind, crc) + rest),
    ensures
        ({
            let (next, action) = model.between(padding);
            &&& (padding + count) % 4 == 0 ==> {
                &&& action is Restart
                &&& next.window == written_start(kind, crc) + rest
                &&& next.restarted().state == XzReadState::Running
            }
            &&& (padding + count) % 4 != 0 ==> next.state == XzReadState::Failed && (action matches
                XzReadActionView::Return(result) && result is Err)
        }),
{
    let stream = written_start(kind, crc) + rest;
    assert(stream[0] == 0xfd);
    lemma_zeros_are_counted(count, stream);
    assert(model.window.skip(count as int) =~= stream);
    assert(stream.take(6) =~= seq![0xfdu8, 0x37u8, 0x7au8, 0x58u8, 0x5au8, 0u8]);
}

/// Padding may come in pieces, and the input may end behind a multiple of four zeros;
/// elsewhere its end is a failure.
pub proof fn law_padding_may_end_the_input(model: XzReadModel, padding: usize, count: nat)
    requires
        padding + count <= usize::MAX,
        model.window == zeros(count),
    ensures
        ({
            let (next, action) = model.between(padding);
            &&& !model.eof ==> {
                &&& action is Fill
                &&& next.window.len() == 0
                &&& next.state == (XzReadState::Between { padding: (padding + count) as usize })
            }
            &&& model.eof && (padding + count) % 4 == 0 ==> {
                &&& next.state == XzReadState::Done
                &&& action matches XzReadActionView::Return(result) && result == Ok::<
                    usize,
                    crate::io_fault::IoFaultView,
                >(0)
            }
            &&& model.eof && (padding + count) % 4 != 0 ==> next.state == XzReadState::Failed
        }),
{
    assert(zeros(count) =~= zeros(count) + Seq::<u8>::empty());
    lemma_zeros_are_counted(count, Seq::empty());
    assert(model.window.skip(count as int) =~= Seq::<u8>::empty());
}

/// What the decoder took leaves the window and nothing else does; what it gave is
/// handed out, and its end leads between streams.
pub proof fn law_readers_take_what_was_decoded(model: XzReadModel, step: CodecStep)
    ensures
        ({
            let (next, action) = model.decoded(Ok::<CodecStep, ErrorView>(step));
            &&& next.window == model.window.skip(step.consumed as int)
            &&& next.eof == model.eof
            &&& step.produced > 0 ==> (action matches XzReadActionView::Return(result) && result
                == Ok::<usize, crate::io_fault::IoFaultView>(step.produced))
            &&& step.status == CodecStatus::Done ==> next.state == (XzReadState::Between {
                padding: 0,
            })
            &&& step.produced == 0 && step.consumed == 0 && step.status == CodecStatus::NeedOutput
                ==> next.state == XzReadState::Failed
        }),
{
}

} // verus!
