//! Incremental branch filter decoding.

use vstd::prelude::*;
use vstd::arithmetic::div_mod::lemma_add_mod_noop_right;
use crate::bytes::copy_at;
use crate::codec::{CodecStatus, CodecStep, EndOfInput};
use crate::filter::bcj::{
    advance, bcj_decoded, first_address, law_scan_chunking, law_scan_leaves_less_than_a_window,
    lemma_advance_none, scan, BcjFilter, BranchKind,
};

verus! {

/// The mathematical content of a [`BcjDecoder`].
#[verifier::ext_equal]
pub struct BcjModel {
    pub filter: BcjFilter,
    /// Bytes taken that do not form a whole window yet.
    pub tail: Seq<u8>,
    /// Decoded bytes that the caller has not taken.
    pub pending: Seq<u8>,
    pub finished: bool,
}

/// One step of the decoder.
#[verifier::ext_equal]
pub struct BcjMove {
    pub model: BcjModel,
    pub consumed: nat,
    pub written: Seq<u8>,
    pub status: CodecStatus,
}

impl BcjModel {
    /// The step that hands decoded bytes out.
    pub open spec fn emit(self, consumed: nat, room: nat, status: CodecStatus) -> BcjMove {
        let count = if self.pending.len() < room {
            self.pending.len()
        } else {
            room
        };
        BcjMove {
            model: BcjModel { pending: self.pending.skip(count as int), ..self },
            consumed,
            written: self.pending.take(count as int),
            status,
        }
    }

    /// The decoder with `input` taken and all whole windows decoded.
    pub open spec fn taking(self, input: Seq<u8>) -> BcjModel {
        let all = self.tail + input;
        let done = scan(self.filter.kind, self.filter.mask, self.filter.pos, all);
        BcjModel {
            filter: BcjFilter {
                kind: self.filter.kind,
                pos: advance(self.filter.pos, done.bytes.len()),
                mask: done.mask,
            },
            tail: all.skip(done.bytes.len() as int),
            pending: done.bytes,
            finished: false,
        }
    }

    /// One call. Decoded bytes go out first; then input is taken; an empty call
    /// at the end of input sends the tail out as it was stored.
    pub open spec fn process(self, input: Seq<u8>, room: nat, end: EndOfInput) -> BcjMove {
        if self.pending.len() > 0 {
            self.emit(0, room, CodecStatus::NeedOutput)
        } else if self.finished {
            self.emit(0, room, CodecStatus::Done)
        } else if end is End && input.len() == 0 {
            let last = BcjModel {
                tail: Seq::empty(),
                pending: self.tail,
                finished: true,
                ..self
            };
            last.emit(
                0,
                room,
                if last.pending.len() == 0 {
                    CodecStatus::Done
                } else {
                    CodecStatus::NeedInput
                },
            )
        } else {
            self.taking(input).emit(input.len(), room, CodecStatus::NeedInput)
        }
    }
}

proof fn lemma_advance_twice(pc: u32, first: nat, second: nat)
    ensures
        advance(advance(pc, first), second) == advance(pc, first + second),
{
    reveal(advance);
    lemma_add_mod_noop_right(second as int, pc + first, 0x1_0000_0000);
}

proof fn lemma_more_input(kind: BranchKind, origin: u32, taken: Seq<u8>, input: Seq<u8>)
    ensures
        ({
            let so_far = scan(kind, 0, origin, taken);
            let n = so_far.bytes.len();
            let all = taken.skip(n as int) + input;
            let done = scan(kind, so_far.mask, advance(origin, n), all);
            let c = done.bytes.len();
            let whole = scan(kind, 0, origin, taken + input);
            &&& n <= taken.len()
            &&& c <= all.len()
            &&& whole.bytes == so_far.bytes + done.bytes
            &&& whole.mask == done.mask
            &&& whole.bytes.len() <= (taken + input).len()
            &&& (taken + input).skip(whole.bytes.len() as int) == all.skip(c as int)
            &&& advance(advance(origin, n), c) == advance(origin, whole.bytes.len())
        }),
{
    let so_far = scan(kind, 0, origin, taken);
    let n = so_far.bytes.len();
    let all = taken.skip(n as int) + input;
    law_scan_chunking(kind, 0, origin, taken, input);
    law_scan_leaves_less_than_a_window(kind, 0, origin, taken);
    law_scan_leaves_less_than_a_window(kind, 0, origin, taken + input);
    law_scan_leaves_less_than_a_window(kind, so_far.mask, advance(origin, n), all);
    let done = scan(kind, so_far.mask, advance(origin, n), all);
    lemma_advance_twice(origin, n, done.bytes.len());
    assert((taken + input).skip((n + done.bytes.len()) as int) =~= all.skip(
        done.bytes.len() as int,
    ));
}

/// Branch filter decoder with a carry for windows that straddle two calls.
pub struct BcjDecoder {
    pub filter: BcjFilter,
    pub buf: Vec<u8>,
    pub out: Vec<u8>,
    pub out_pos: usize,
    pub finished: bool,
    /// Where the code begins, all input taken and all output given so far.
    pub start: Ghost<nat>,
    pub taken: Ghost<Seq<u8>>,
    pub given: Ghost<Seq<u8>>,
}

impl View for BcjDecoder {
    type V = BcjModel;

    open spec fn view(&self) -> BcjModel {
        BcjModel {
            filter: self.filter,
            tail: self.buf@,
            pending: self.out@.skip(self.out_pos as int),
            finished: self.finished,
        }
    }
}

impl BcjDecoder {
    /// Whatever the pieces were: what was given out and what waits to be given
    /// out is what the input taken so far decodes to.
    pub open spec fn wf(self) -> bool {
        &&& self.filter.wf()
        &&& self.out_pos <= self.out@.len()
        &&& if self.finished {
            &&& self.buf@.len() == 0
            &&& self.given@ + self@.pending == bcj_decoded(
                self.filter.kind,
                self.start@,
                self.taken@,
            )
        } else {
            let done = scan(
                self.filter.kind,
                0,
                first_address(self.filter.kind, self.start@),
                self.taken@,
            );
            &&& self.given@ + self@.pending == done.bytes
            &&& done.bytes.len() <= self.taken@.len()
            &&& self.buf@ == self.taken@.skip(done.bytes.len() as int)
            &&& self.filter.mask == done.mask
            &&& self.filter.pos == advance(
                first_address(self.filter.kind, self.start@),
                done.bytes.len(),
            )
        }
    }

    /// A decoder of `kind` for code that begins at `start`.
    pub fn new(kind: BranchKind, start: usize) -> (decoder: Self)
        ensures
            decoder.wf(),
            decoder@ == (BcjModel {
                filter: BcjFilter { kind, pos: first_address(kind, start as nat), mask: 0 },
                tail: Seq::empty(),
                pending: Seq::empty(),
                finished: false,
            }),
            decoder.start@ == start,
            decoder.taken@.len() == 0,
            decoder.given@.len() == 0,
    {
        let decoder = BcjDecoder {
            filter: BcjFilter::new(kind, start),
            buf: Vec::new(),
            out: Vec::new(),
            out_pos: 0,
            finished: false,
            start: Ghost(start as nat),
            taken: Ghost(Seq::empty()),
            given: Ghost(Seq::empty()),
        };
        proof {
            lemma_advance_none(first_address(kind, start as nat));
            assert(decoder@.pending =~= Seq::<u8>::empty());
            let done = scan(kind, 0, first_address(kind, start as nat), Seq::<u8>::empty());
            law_scan_leaves_less_than_a_window(
                kind,
                0,
                first_address(kind, start as nat),
                Seq::<u8>::empty(),
            );
            reveal(scan);
            assert(done.bytes =~= Seq::<u8>::empty());
            assert(decoder.given@ + decoder@.pending =~= done.bytes);
            assert(decoder.buf@ =~= decoder.taken@.skip(0));
        }
        decoder
    }

    fn emit(&mut self, consumed: usize, output: &mut [u8], status: CodecStatus) -> (step: CodecStep)
        requires
            old(self).wf(),
        ensures
            final(self).wf(),
            step.produced <= old(output)@.len(),
            final(self)@ == old(self)@.emit(
                consumed as nat,
                old(output)@.len(),
                status,
            ).model,
            final(output)@.take(step.produced as int) == old(self)@.emit(
                consumed as nat,
                old(output)@.len(),
                status,
            ).written,
            final(output)@.len() == old(output)@.len(),
            step.consumed == consumed,
            step.status == status,
            final(self).start == old(self).start,
            final(self).taken == old(self).taken,
            final(self).given@ == old(self).given@ + final(output)@.take(step.produced as int),
    {
        let available: usize = self.out.len() - self.out_pos;
        let count: usize = if available < output.len() {
            available
        } else {
            output.len()
        };
        let ghost before = self@.pending;
        copy_at(output, 0, self.out.as_slice(), self.out_pos, count);
        proof {
            let piece = self.out@.subrange(self.out_pos as int, self.out_pos + count);
            assert(output@.take(count as int) =~= piece);
            assert(before.take(count as int) =~= piece);
        }
        self.out_pos = self.out_pos + count;
        self.given = Ghost(self.given@ + before.take(count as int));
        proof {
            assert(self@.pending =~= before.skip(count as int));
        }
        if self.out_pos == self.out.len() {
            self.out.clear();
            self.out_pos = 0;
            proof {
                assert(self@.pending =~= before.skip(count as int));
            }
        }
        proof {
            assert(old(self).given@ + before =~= self.given@ + self@.pending);
        }
        CodecStep { consumed, produced: count, status }
    }

    #[verifier::rlimit(40)]
    #[verifier::spinoff_prover]
    fn take_input(&mut self, input: &[u8])
        requires
            old(self).wf(),
            !old(self).finished,
            old(self)@.pending.len() == 0,
        ensures
            final(self).wf(),
            final(self)@ == old(self)@.taking(input@),
            final(self).start == old(self).start,
            final(self).taken@ == old(self).taken@ + input@,
            final(self).given == old(self).given,
    {
        let ghost origin = first_address(self.filter.kind, self.start@);
        let ghost before = self.filter;
        proof {
            lemma_more_input(self.filter.kind, origin, self.taken@, input@);
            assert(self.given@ + self@.pending =~= self.given@);
        }
        let mut work: Vec<u8> = Vec::new();
        std::mem::swap(&mut work, &mut self.buf);
        work.extend_from_slice(input);
        let ghost all = work@;
        proof {
            assert(all =~= old(self).buf@ + input@);
        }
        let count: usize = self.filter.decode(work.as_mut_slice());
        let ghost done = scan(before.kind, before.mask, before.pos, all);
        self.buf = work.split_off(count);
        self.out = work;
        self.out_pos = 0;
        self.taken = Ghost(self.taken@ + input@);
        proof {
            assert(self.out@ =~= done.bytes);
            assert(self.buf@ =~= all.skip(count as int));
            assert(self@.pending =~= done.bytes);
            assert(self@ =~= old(self)@.taking(input@));
        }
    }

    /// Decodes from `input` to `output`. When the result is `Done`, what was
    /// given out in all calls is what all input taken decodes to.
    pub fn process(&mut self, input: &[u8], output: &mut [u8], end: EndOfInput) -> (step: CodecStep)
        requires
            old(self).wf(),
        ensures
            final(self).wf(),
            step.fits(input@.len(), old(output)@.len()),
            final(output)@.len() == old(output)@.len(),
            old(self)@.process(input@, old(output)@.len(), end) == (BcjMove {
                model: final(self)@,
                consumed: step.consumed as nat,
                written: final(output)@.take(step.produced as int),
                status: step.status,
            }),
            final(self).start == old(self).start,
            final(self).taken@ == old(self).taken@ + input@.take(step.consumed as int),
            final(self).given@ == old(self).given@ + final(output)@.take(step.produced as int),
            step.status is Done ==> final(self).given@ == bcj_decoded(
                old(self).filter.kind,
                final(self).start@,
                final(self).taken@,
            ),
    {
        proof {
            assert(input@.take(0) =~= Seq::<u8>::empty());
            assert(input@.take(input@.len() as int) =~= input@);
            assert(self.taken@ + Seq::<u8>::empty() =~= self.taken@);
        }
        if self.out_pos < self.out.len() {
            return self.emit(0, output, CodecStatus::NeedOutput);
        }
        if self.finished {
            let step = self.emit(0, output, CodecStatus::Done);
            proof {
                assert(self.given@ + self@.pending =~= self.given@);
            }
            return step;
        }
        let consumed: usize = input.len();
        if end == EndOfInput::End && consumed == 0 {
            proof {
                let done = scan(
                    self.filter.kind,
                    0,
                    first_address(self.filter.kind, self.start@),
                    self.taken@,
                );
                assert(self.given@ + self@.pending =~= self.given@);
                assert(self.given@ + self.buf@ =~= bcj_decoded(
                    self.filter.kind,
                    self.start@,
                    self.taken@,
                ));
            }
            let mut last: Vec<u8> = Vec::new();
            std::mem::swap(&mut last, &mut self.buf);
            self.out = last;
            self.out_pos = 0;
            self.finished = true;
            proof {
                assert(self@.pending =~= self.out@);
            }
            let status = if self.out.len() == 0 {
                CodecStatus::Done
            } else {
                CodecStatus::NeedInput
            };
            let step = self.emit(0, output, status);
            proof {
                if step.status is Done {
                    assert(self.given@ + self@.pending =~= self.given@);
                }
            }
            return step;
        }
        self.take_input(input);
        self.emit(consumed, output, CodecStatus::NeedInput)
    }
}

} // verus!
