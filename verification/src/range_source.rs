//! Random-access sources and a reader over them.

use vstd::prelude::*;
use std::sync::Arc;
use crate::bytes::{copy_at, overlay};
use crate::limits::Limits;
use crate::io_fault::IoKind;
use crate::range_error::{
    length_error, plain_range_error, range_error_at, validate_source_length, RangeFault,
    RangeMetrics, RangeReadError, RangeReadErrorKind, SourceIdentity, SourceLimits,
};

verus! {

/// How much is read ahead at most.
pub const DEFAULT_READ_AHEAD: usize = 131_072;

/// A source of bytes that can be read at any place.
///
/// A source may give fewer bytes than there is room for. What it gives is
/// checked: it may be broken, or may change while it is read.
pub trait ReadAt {
    /// The bytes of this version of the source.
    open spec fn content(&self) -> Seq<u8> {
        arbitrary()
    }

    /// The identity of this version of the source.
    open spec fn version(&self) -> Seq<u8> {
        arbitrary()
    }

    /// The source does not change, and gives what it holds.
    open spec fn is_faithful(&self) -> bool {
        false
    }

    /// The declared length.
    fn len(&self) -> (length: u64)
        ensures
            self.is_faithful() ==> length == self.content().len(),
    ;

    /// Whether the declared length is zero.
    fn is_empty(&self) -> (empty: bool)
        ensures
            self.is_faithful() ==> empty == (self.content().len() == 0),
            exists|length: u64| #[trigger]
                call_ensures(Self::len, (self,), length) && empty == (length == 0),
    {
        self.len() == 0
    }

    /// The identity of this version.
    fn identity(&self) -> (identity: &SourceIdentity)
        ensures
            self.is_faithful() ==> identity@ == self.version(),
    ;

    /// Reads bytes at a place.
    fn read_at(&self, offset: u64, output: &mut [u8]) -> (result: Result<usize, RangeFault>)
        ensures
            final(output)@.len() == old(output)@.len(),
            self.is_faithful() && result is Ok && result->Ok_0 <= old(output)@.len() ==> offset
                + result->Ok_0 <= self.content().len() && final(output)@.take(result->Ok_0 as int)
                == self.content().subrange(offset as int, offset + result->Ok_0),
    ;
}

// ---------------------------------------------------------------------------
// Bytes in memory
// ---------------------------------------------------------------------------

/// A source in memory.
#[derive(Clone, Debug)]
pub struct MemoryReadAt {
    pub bytes: MemoryBytes,
    pub identity: SourceIdentity,
}

/// Bytes in memory that nobody changes.
#[derive(Clone, Debug)]
pub enum MemoryBytes {
    Owned(Vec<u8>),
    Shared(Arc<[u8]>),
}

impl View for MemoryBytes {
    type V = Seq<u8>;

    open spec fn view(&self) -> Seq<u8> {
        match self {
            MemoryBytes::Owned(bytes) => bytes@,
            MemoryBytes::Shared(bytes) => (**bytes)@,
        }
    }
}

impl MemoryBytes {
    /// The bytes.
    pub fn as_slice(&self) -> (bytes: &[u8])
        ensures
            bytes@ == self@,
    {
        match self {
            MemoryBytes::Owned(bytes) => bytes.as_slice(),
            MemoryBytes::Shared(bytes) => &**bytes,
        }
    }
}

impl MemoryReadAt {
    /// A source of bytes.
    pub fn new(bytes: Vec<u8>, identity: SourceIdentity) -> (source: Self)
        ensures
            source.content() == bytes@,
            source.version() == identity@,
    {
        MemoryReadAt { bytes: MemoryBytes::Owned(bytes), identity }
    }

    /// A source of shared bytes, which are not copied.
    pub fn from_arc(bytes: Arc<[u8]>, identity: SourceIdentity) -> (source: Self)
        ensures
            source.content() == (*bytes)@,
            source.version() == identity@,
    {
        MemoryReadAt { bytes: MemoryBytes::Shared(bytes), identity }
    }

    /// The bytes.
    pub fn as_bytes(&self) -> (bytes: &[u8])
        ensures
            bytes@ == self.content(),
    {
        self.bytes.as_slice()
    }
}

/// What reading a source in memory at a place gives: a number of bytes, or the
/// refusal of a place outside of memory or of the source.
pub open spec fn memory_count(length: nat, offset: nat, room: nat) -> Result<nat, RangeReadError> {
    if offset > usize::MAX {
        Err(range_error_at(RangeReadErrorKind::OffsetOverflow, offset, room))
    } else if offset > length {
        Err(range_error_at(RangeReadErrorKind::OffsetOutOfBounds, offset, room))
    } else if length - offset < room {
        Ok((length - offset) as nat)
    } else {
        Ok(room)
    }
}

impl ReadAt for MemoryReadAt {
    open spec fn content(&self) -> Seq<u8> {
        self.bytes@
    }

    open spec fn version(&self) -> Seq<u8> {
        self.identity@
    }

    open spec fn is_faithful(&self) -> bool {
        true
    }

    fn len(&self) -> (length: u64) {
        self.bytes.as_slice().len() as u64
    }

    fn identity(&self) -> (identity: &SourceIdentity) {
        &self.identity
    }

    fn read_at(&self, offset: u64, output: &mut [u8]) -> (result: Result<usize, RangeFault>)
        ensures
            match result {
                Ok(count) => {
                    &&& memory_count(
                        self.content().len(),
                        offset as nat,
                        old(output)@.len(),
                    ) == Ok::<nat, RangeReadError>(count as nat)
                    &&& final(output)@ == overlay(
                        old(output)@,
                        0,
                        self.content().subrange(offset as int, offset + count),
                    )
                },
                Err(fault) => {
                    &&& final(output)@ == old(output)@
                    &&& exists|error: RangeReadError|
                        fault == RangeFault::Range(error) && memory_count(
                            self.content().len(),
                            offset as nat,
                            old(output)@.len(),
                        ) == Err::<nat, RangeReadError>(error)
                },
            },
    {
        let length: usize = self.bytes.as_slice().len();
        let room: usize = output.len();
        if offset > usize::MAX as u64 {
            let error = RangeReadError::new(RangeReadErrorKind::OffsetOverflow).at(
                offset,
                room as u64,
            );
            return Err(RangeFault::Range(error));
        }
        if offset > length as u64 {
            let error = RangeReadError::new(RangeReadErrorKind::OffsetOutOfBounds).at(
                offset,
                room as u64,
            );
            return Err(RangeFault::Range(error));
        }
        let start: usize = offset as usize;
        let count: usize = if length - start < room {
            length - start
        } else {
            room
        };
        copy_at(output, 0, self.bytes.as_slice(), start, count);
        proof {
            let part = self.bytes@.subrange(start as int, start + count);
            assert(output@.take(count as int) =~= part);
        }
        Ok(count)
    }
}

// ---------------------------------------------------------------------------
// Sources behind a pointer
// ---------------------------------------------------------------------------

impl<T: ReadAt> ReadAt for Arc<T> {
    open spec fn content(&self) -> Seq<u8> {
        (**self).content()
    }

    open spec fn version(&self) -> Seq<u8> {
        (**self).version()
    }

    open spec fn is_faithful(&self) -> bool {
        (**self).is_faithful()
    }

    fn len(&self) -> (length: u64)
        ensures
            call_ensures(T::len, (&**self,), length),
    {
        (**self).len()
    }

    fn identity(&self) -> (identity: &SourceIdentity)
        ensures
            call_ensures(T::identity, (&**self,), identity),
    {
        (**self).identity()
    }

    fn read_at(&self, offset: u64, output: &mut [u8]) -> (result: Result<usize, RangeFault>)
        ensures
            exists|part: &mut [u8]|
                {
                    &&& #[trigger] call_ensures(T::read_at, (&**self, offset, part), result)
                    &&& (*part)@ == old(output)@
                    &&& (*final(part))@ == final(output)@
                },
    {
        (**self).read_at(offset, output)
    }
}

impl<T: ReadAt> ReadAt for Box<T> {
    open spec fn content(&self) -> Seq<u8> {
        (**self).content()
    }

    open spec fn version(&self) -> Seq<u8> {
        (**self).version()
    }

    open spec fn is_faithful(&self) -> bool {
        (**self).is_faithful()
    }

    fn len(&self) -> (length: u64)
        ensures
            call_ensures(T::len, (&**self,), length),
    {
        (**self).len()
    }

    fn identity(&self) -> (identity: &SourceIdentity)
        ensures
            call_ensures(T::identity, (&**self,), identity),
    {
        (**self).identity()
    }

    fn read_at(&self, offset: u64, output: &mut [u8]) -> (result: Result<usize, RangeFault>)
        ensures
            exists|part: &mut [u8]|
                {
                    &&& #[trigger] call_ensures(T::read_at, (&**self, offset, part), result)
                    &&& (*part)@ == old(output)@
                    &&& (*final(part))@ == final(output)@
                },
    {
        (**self).read_at(offset, output)
    }
}

// ---------------------------------------------------------------------------
// What a read gives
// ---------------------------------------------------------------------------

/// What came of one read of a source.
#[derive(Clone, Copy, Debug, PartialEq, Eq, Structural)]
pub enum ReadOutcome {
    /// A number of bytes.
    Count(usize),
    /// The source has ended.
    Ended,
}

/// The number of bytes that a read has given, or why it is refused.
pub open spec fn judged(outcome: ReadOutcome, offset: nat, remaining: nat) -> Result<
    nat,
    RangeReadError,
> {
    match outcome {
        ReadOutcome::Ended => Err(
            range_error_at(RangeReadErrorKind::ShortRead, offset, remaining),
        ),
        ReadOutcome::Count(count) => if count > remaining {
            Err(range_error_at(RangeReadErrorKind::InvalidReadCount, offset, remaining))
        } else if count == 0 {
            Err(range_error_at(RangeReadErrorKind::NoProgress, offset, remaining))
        } else {
            Ok(count as nat)
        },
    }
}

/// Judges one read of a source.
pub fn judge_read(outcome: ReadOutcome, offset: u64, remaining: usize) -> (result: Result<
    usize,
    RangeReadError,
>)
    ensures
        match result {
            Ok(count) => judged(outcome, offset as nat, remaining as nat) == Ok::<
                _,
                RangeReadError,
            >(count as nat),
            Err(error) => judged(outcome, offset as nat, remaining as nat) == Err::<nat, _>(error),
        },
{
    let kind = match outcome {
        ReadOutcome::Ended => RangeReadErrorKind::ShortRead,
        ReadOutcome::Count(count) => if count > remaining {
            RangeReadErrorKind::InvalidReadCount
        } else if count == 0 {
            RangeReadErrorKind::NoProgress
        } else {
            return Ok(count);
        },
    };
    Err(RangeReadError::new(kind).at(offset, remaining as u64))
}

/// The number of bytes that a source's own reply stands for, or the failure. A
/// source that reports an early end has been read short.
pub open spec fn reply_judged(
    reply: Result<usize, RangeFault>,
    offset: nat,
    remaining: nat,
) -> Result<nat, RangeFault> {
    let outcome = match reply {
        Ok(count) => ReadOutcome::Count(count),
        Err(_) => ReadOutcome::Ended,
    };
    if reply is Err && reply->Err_0.io() != IoKind::UnexpectedEof {
        Err(reply->Err_0)
    } else {
        match judged(outcome, offset, remaining) {
            Ok(count) => Ok(count),
            Err(error) => Err(RangeFault::Range(error)),
        }
    }
}

/// What a read says is how the source's reply is judged.
pub open spec fn says(
    result: Result<usize, RangeFault>,
    reply: Result<usize, RangeFault>,
    offset: nat,
    remaining: nat,
) -> bool {
    match result {
        Ok(count) => reply_judged(reply, offset, remaining) == Ok::<nat, RangeFault>(count as nat),
        Err(fault) => reply_judged(reply, offset, remaining) == Err::<nat, RangeFault>(fault),
    }
}

/// Judges the reply of a source.
pub fn judge_reply(reply: Result<usize, RangeFault>, offset: u64, remaining: usize) -> (result:
    Result<usize, RangeFault>)
    ensures
        says(result, reply, offset as nat, remaining as nat),
{
    let outcome = match reply {
        Ok(count) => ReadOutcome::Count(count),
        Err(fault) => {
            if fault.io_kind() == IoKind::UnexpectedEof {
                ReadOutcome::Ended
            } else {
                return Err(fault);
            }
        },
    };
    match judge_read(outcome, offset, remaining) {
        Ok(count) => Ok(count),
        Err(error) => Err(RangeFault::Range(error)),
    }
}

/// A reply that the source gives when it is read at `offset` into that many
/// bytes.
pub open spec fn replies_so<S: ReadAt>(
    source: &S,
    offset: u64,
    room: nat,
    reply: Result<usize, RangeFault>,
) -> bool {
    exists|part: &mut [u8]|
        #[trigger] call_ensures(S::read_at, (source, offset, part), reply) && (*part)@.len() == room
}

/// A length that the source reports.
pub open spec fn reports_length<S: ReadAt>(source: &S, length: u64) -> bool {
    call_ensures(S::len, (source,), length)
}

/// The number of bytes that some replies count.
pub open spec fn counted(replies: Seq<Result<usize, RangeFault>>) -> nat
    decreases replies.len(),
{
    if replies.len() == 0 {
        0
    } else {
        counted(replies.drop_last()) + match replies.last() {
            Ok(count) => count as nat,
            Err(_) => 0,
        }
    }
}

/// The source was read on from `offset` for `total` bytes, reply after reply,
/// and each of these replies moved on.
pub open spec fn moved_on<S: ReadAt>(
    source: &S,
    offset: nat,
    total: nat,
    replies: Seq<Result<usize, RangeFault>>,
) -> bool
    decreases replies.len(),
{
    if replies.len() == 0 {
        true
    } else {
        let at = counted(replies.drop_last());
        &&& moved_on(source, offset, total, replies.drop_last())
        &&& at < total
        &&& replies_so(source, (offset + at) as u64, (total - at) as nat, replies.last())
        &&& reply_judged(replies.last(), offset + at, (total - at) as nat) is Ok
    }
}

/// The last of these replies failed, and those before moved on.
pub open spec fn broke_off<S: ReadAt>(
    source: &S,
    offset: nat,
    total: nat,
    replies: Seq<Result<usize, RangeFault>>,
    fault: RangeFault,
) -> bool {
    let at = counted(replies.drop_last());
    &&& replies.len() > 0
    &&& moved_on(source, offset, total, replies.drop_last())
    &&& at < total
    &&& replies_so(source, (offset + at) as u64, (total - at) as nat, replies.last())
    &&& reply_judged(replies.last(), offset + at, (total - at) as nat) == Err::<nat, RangeFault>(
        fault,
    )
}

/// What a read of a whole range comes to, by the replies of the source.
pub open spec fn range_result<S: ReadAt>(
    source: &S,
    offset: nat,
    total: nat,
    replies: Seq<Result<usize, RangeFault>>,
    result: Result<(), RangeFault>,
) -> bool {
    match result {
        Ok(()) => moved_on(source, offset, total, replies) && counted(replies) == total,
        Err(fault) => broke_off(source, offset, total, replies, fault),
    }
}

/// The source gives bytes wherever it has some.
pub open spec fn serves<S: ReadAt>(source: &S) -> bool {
    forall|offset: u64, room: nat, reply: Result<usize, RangeFault>| #[trigger]
        replies_so(source, offset, room, reply) && 0 < room && offset + room
            <= source.content().len() ==> (reply matches Ok(count) && 0 < count <= room)
}

/// Reads once into the end of a buffer and judges what came: the source gets the
/// bytes behind the filled ones and is read at `offset`, and its reply decides.
fn read_once<S: ReadAt>(
    source: &S,
    offset: u64,
    buffer: &mut [u8],
    filled: usize,
) -> (result: Result<usize, RangeFault>)
    requires
        filled < old(buffer)@.len(),
    ensures
        final(buffer)@.len() == old(buffer)@.len(),
        final(buffer)@.take(filled as int) == old(buffer)@.take(filled as int),
        exists|part: &mut [u8], reply: Result<usize, RangeFault>|
            {
                &&& #[trigger] call_ensures(S::read_at, (source, offset, part), reply)
                &&& (*part)@ == old(buffer)@.skip(filled as int)
                &&& (*final(part))@ == final(buffer)@.skip(filled as int)
                &&& says(result, reply, offset as nat, (old(buffer)@.len() - filled) as nat)
            },
        exists|reply: Result<usize, RangeFault>| #[trigger]
            replies_so(source, offset, (old(buffer)@.len() - filled) as nat, reply) && says(
                result,
                reply,
                offset as nat,
                (old(buffer)@.len() - filled) as nat,
            ),
        match result {
            Ok(count) => {
                &&& 0 < count <= old(buffer)@.len() - filled
                &&& source.is_faithful() ==> offset + count <= source.content().len()
                    && final(buffer)@.subrange(filled as int, filled + count)
                    == source.content().subrange(offset as int, offset + count)
            },
            Err(_) => true,
        },
{
    let total: usize = buffer.len();
    let (head, tail) = buffer.split_at_mut(filled);
    let reply = source.read_at(offset, tail);
    proof {
        assert(replies_so(source, offset, (total - filled) as nat, reply));
    }
    let result = judge_reply(reply, offset, total - filled);
    proof {
        if let Ok(count) = result {
            assert(tail@.take(count as int) =~= buffer@.subrange(filled as int, filled + count));
        }
    }
    result
}

/// Why a range cannot be read at all.
pub open spec fn range_refusal(length: nat, offset: nat, requested: nat) -> Option<RangeReadError> {
    if offset + requested > u64::MAX {
        Some(range_error_at(RangeReadErrorKind::OffsetOverflow, offset, requested))
    } else if offset + requested > length {
        Some(range_error_at(RangeReadErrorKind::OffsetOutOfBounds, offset, requested))
    } else {
        None
    }
}

/// Checks a range against the length of a source.
pub fn check_range(length: u64, offset: u64, requested: usize) -> (refusal: Option<RangeReadError>)
    ensures
        refusal == range_refusal(length as nat, offset as nat, requested as nat),
{
    match offset.checked_add(requested as u64) {
        None => Some(
            RangeReadError::new(RangeReadErrorKind::OffsetOverflow).at(offset, requested as u64),
        ),
        Some(end) => if end > length {
            Some(
                RangeReadError::new(RangeReadErrorKind::OffsetOutOfBounds).at(
                    offset,
                    requested as u64,
                ),
            )
        } else {
            None
        },
    }
}

proof fn lemma_moved_on<S: ReadAt>(
    source: &S,
    offset: nat,
    total: nat,
    replies: Seq<Result<usize, RangeFault>>,
    reply: Result<usize, RangeFault>,
)
    requires
        moved_on(source, offset, total, replies),
        counted(replies) < total,
        replies_so(
            source,
            (offset + counted(replies)) as u64,
            (total - counted(replies)) as nat,
            reply,
        ),
    ensures
        reply_judged(reply, offset + counted(replies), (total - counted(replies)) as nat) matches Ok(
            count,
        ) ==> moved_on(source, offset, total, replies.push(reply)) && counted(replies.push(reply))
            == counted(replies) + count && counted(replies.push(reply)) <= total,
        reply_judged(reply, offset + counted(replies), (total - counted(replies)) as nat) matches Err(
            fault,
        ) ==> broke_off(source, offset, total, replies.push(reply), fault),
        replies.push(reply).drop_last() == replies,
{
    assert(replies.push(reply).drop_last() =~= replies);
}

/// Fills a buffer from an exact range of a source.
pub fn read_exact_at<S: ReadAt>(source: &S, offset: u64, output: &mut [u8]) -> (result: Result<
    (),
    RangeFault,
>)
    ensures
        final(output)@.len() == old(output)@.len(),
        exists|length: u64| #[trigger]
            reports_length(source, length) && match range_refusal(
                length as nat,
                offset as nat,
                old(output)@.len(),
            ) {
                Some(error) => result == Err::<(), RangeFault>(RangeFault::Range(error))
                    && final(output)@ == old(output)@,
                None => exists|replies: Seq<Result<usize, RangeFault>>| #[trigger]
                    range_result(source, offset as nat, old(output)@.len(), replies, result),
            },
        source.is_faithful() && range_refusal(
            source.content().len(),
            offset as nat,
            old(output)@.len(),
        ) is Some ==> result == Err::<(), _>(
            RangeFault::Range(
                range_refusal(source.content().len(), offset as nat, old(output)@.len())->0,
            ),
        ),
        source.is_faithful() && result is Ok ==> final(output)@ == source.content().subrange(
            offset as int,
            offset + old(output)@.len(),
        ),
        source.is_faithful() && (serves(source) || old(output)@.len() == 0) && offset + old(
            output,
        )@.len() <= source.content().len() ==> result is Ok,
{
    let total: usize = output.len();
    let length: u64 = source.len();
    proof {
        assert(reports_length(source, length));
    }
    if let Some(error) = check_range(length, offset, total) {
        return Err(RangeFault::Range(error));
    }
    let mut filled: usize = 0;
    let ghost mut replies: Seq<Result<usize, RangeFault>> = Seq::empty();
    while filled < total
        invariant
            filled <= total,
            total == output@.len(),
            total == old(output)@.len(),
            offset + total <= u64::MAX,
            reports_length(source, length),
            range_refusal(length as nat, offset as nat, total as nat) is None,
            moved_on(source, offset as nat, total as nat, replies),
            counted(replies) == filled,
            source.is_faithful() ==> length == source.content().len() && output@.take(filled as int)
                == source.content().subrange(offset as int, offset + filled),
        decreases total - filled,
    {
        let ghost before = output@;
        let place: u64 = offset + filled as u64;
        let result = read_once(source, place, output, filled);
        let ghost reply = choose|reply: Result<usize, RangeFault>| #[trigger]
            replies_so(source, place, (total - filled) as nat, reply) && says(
                result,
                reply,
                place as nat,
                (total - filled) as nat,
            );
        proof {
            lemma_moved_on(source, offset as nat, total as nat, replies, reply);
            replies = replies.push(reply);
        }
        match result {
            Ok(count) => {
                proof {
                    if source.is_faithful() {
                        assert(output@.take(filled + count) =~= before.take(filled as int)
                            + output@.subrange(filled as int, filled + count));
                        assert(source.content().subrange(offset as int, offset + filled + count)
                            =~= source.content().subrange(offset as int, offset + filled)
                            + source.content().subrange(place as int, place + count));
                    }
                }
                filled += count;
            },
            Err(fault) => {
                proof {
                    assert(range_result(source, offset as nat, total as nat, replies, Err(fault)));
                }
                return Err(fault);
            },
        }
    }
    proof {
        assert(output@.take(filled as int) =~= output@);
        assert(range_result(source, offset as nat, total as nat, replies, Ok(())));
    }
    Ok(())
}

impl MemoryReadAt {
    /// Fills a buffer from an exact range of the bytes. Inside of them this always
    /// succeeds.
    pub fn read_exact_at(&self, offset: u64, output: &mut [u8]) -> (result: Result<(), RangeFault>)
        ensures
            match range_refusal(self.content().len(), offset as nat, old(output)@.len()) {
                None => result is Ok && final(output)@ == self.content().subrange(
                    offset as int,
                    offset + old(output)@.len(),
                ),
                Some(error) => result == Err::<(), RangeFault>(RangeFault::Range(error))
                    && final(output)@ == old(output)@,
            },
    {
        proof {
            law_memory_serves(self);
        }
        read_exact_at(self, offset, output)
    }
}

/// A source in memory gives bytes wherever it has some, so that an exact read
/// inside of it succeeds and gives back what the source was made of.
pub proof fn law_memory_serves(source: &MemoryReadAt)
    ensures
        source.is_faithful(),
        serves(source),
{
    match source.bytes {
        MemoryBytes::Owned(bytes) => {
            assert(bytes.len() <= usize::MAX);
        },
        MemoryBytes::Shared(bytes) => {
            assert(bytes.len() <= usize::MAX);
        },
    }
    assert forall|offset: u64, room: nat, reply: Result<usize, RangeFault>| #[trigger]
        replies_so(source, offset, room, reply) && 0 < room && offset + room
            <= source.content().len() implies (reply matches Ok(count) && 0 < count <= room) by {
        let part = choose|part: &mut [u8]|
            #[trigger] call_ensures(MemoryReadAt::read_at, (source, offset, part), reply) && (
            *part)@.len() == room;
        assert(memory_count(source.content().len(), offset as nat, room) is Ok);
    }
}

// ---------------------------------------------------------------------------
// The reader
// ---------------------------------------------------------------------------

/// Why a source is not the one that was opened.
pub open spec fn snapshot_error(
    identity_now: Seq<u8>,
    length_now: nat,
    identity: Seq<u8>,
    length: nat,
) -> Option<RangeReadError> {
    if identity_now != identity {
        Some(plain_range_error(RangeReadErrorKind::IdentityChanged))
    } else if length_now != length {
        Some(plain_range_error(RangeReadErrorKind::LengthChanged))
    } else {
        None
    }
}

/// Checks that a source is the one that was opened.
pub fn check_snapshot(
    identity_now: &SourceIdentity,
    length_now: u64,
    identity: &SourceIdentity,
    length: u64,
) -> (error: Option<RangeReadError>)
    ensures
        error == snapshot_error(identity_now@, length_now as nat, identity@, length as nat),
{
    if !identity_now.same(identity) {
        Some(RangeReadError::new(RangeReadErrorKind::IdentityChanged))
    } else if length_now != length {
        Some(RangeReadError::new(RangeReadErrorKind::LengthChanged))
    } else {
        None
    }
}

/// How many bytes are to be cached for a request, or why the request is refused.
pub open spec fn fill_plan(
    position: nat,
    length: nat,
    requested: nat,
    read_ahead: nat,
    cache_limit: Option<usize>,
) -> Result<nat, RangeReadError> {
    if position >= length {
        Err(range_error_at(RangeReadErrorKind::OffsetOutOfBounds, position, requested))
    } else if cache_limit is Some && requested > cache_limit->0 {
        Err(
            RangeReadError {
                declared: Some(requested as u64),
                limit: Some(cache_limit->0 as u64),
                ..range_error_at(RangeReadErrorKind::CacheBudgetExceeded, position, requested)
            },
        )
    } else {
        let wanted = if requested > read_ahead {
            requested
        } else {
            read_ahead
        };
        let desired = if wanted > length - position {
            (length - position) as nat
        } else {
            wanted
        };
        if cache_limit is Some && desired > cache_limit->0 {
            Ok(cache_limit->0 as nat)
        } else {
            Ok(desired)
        }
    }
}

/// Plans how many bytes are to be cached for a request.
pub fn plan_fill(
    position: u64,
    length: u64,
    requested: usize,
    read_ahead: usize,
    cache_limit: Option<usize>,
) -> (result: Result<usize, RangeReadError>)
    ensures
        match result {
            Ok(count) => fill_plan(
                position as nat,
                length as nat,
                requested as nat,
                read_ahead as nat,
                cache_limit,
            ) == Ok::<_, RangeReadError>(count as nat),
            Err(error) => fill_plan(
                position as nat,
                length as nat,
                requested as nat,
                read_ahead as nat,
                cache_limit,
            ) == Err::<nat, _>(error),
        },
{
    if position >= length {
        return Err(
            RangeReadError::new(RangeReadErrorKind::OffsetOutOfBounds).at(
                position,
                requested as u64,
            ),
        );
    }
    if let Some(limit) = cache_limit {
        if requested > limit {
            return Err(
                RangeReadError::new(RangeReadErrorKind::CacheBudgetExceeded).at(
                    position,
                    requested as u64,
                ).with_budget(requested as u64, limit as u64),
            );
        }
    }
    let wanted: usize = if requested > read_ahead {
        requested
    } else {
        read_ahead
    };
    let rest: u64 = length - position;
    let desired: usize = if wanted as u64 > rest {
        rest as usize
    } else {
        wanted
    };
    match cache_limit {
        Some(limit) => if desired > limit {
            Ok(limit)
        } else {
            Ok(desired)
        },
        None => Ok(desired),
    }
}

/// Where a reader is to go.
#[derive(Clone, Copy, Debug, PartialEq, Eq, Structural)]
pub enum SeekTarget {
    Start(u64),
    Current(i64),
    End(i64),
}

/// Where a reader goes, or why it cannot.
pub open spec fn sought(position: nat, length: nat, target: SeekTarget) -> Result<
    nat,
    RangeReadError,
> {
    let next: int = match target {
        SeekTarget::Start(place) => place as int,
        SeekTarget::Current(delta) => position + delta,
        SeekTarget::End(delta) => length + delta,
    };
    if next < 0 || next > u64::MAX {
        Err(range_error_at(RangeReadErrorKind::OffsetOverflow, position, 0))
    } else if next > length {
        Err(range_error_at(RangeReadErrorKind::OffsetOutOfBounds, next as nat, 0))
    } else {
        Ok(next as nat)
    }
}

fn shift(place: u64, delta: i64) -> (moved: Option<u64>)
    ensures
        match moved {
            Some(moved) => moved == place + delta,
            None => place + delta < 0 || place + delta > u64::MAX,
        },
{
    let moved: i128 = place as i128 + delta as i128;
    if moved < 0 || moved > u64::MAX as i128 {
        None
    } else {
        Some(moved as u64)
    }
}

/// Finds where a reader goes.
pub fn find_target(position: u64, length: u64, target: SeekTarget) -> (result: Result<
    u64,
    RangeReadError,
>)
    ensures
        match result {
            Ok(next) => sought(position as nat, length as nat, target) == Ok::<_, RangeReadError>(
                next as nat,
            ),
            Err(error) => sought(position as nat, length as nat, target) == Err::<nat, _>(error),
        },
{
    let next = match target {
        SeekTarget::Start(place) => Some(place),
        SeekTarget::Current(delta) => shift(position, delta),
        SeekTarget::End(delta) => shift(length, delta),
    };
    match next {
        None => Err(RangeReadError::new(RangeReadErrorKind::OffsetOverflow).at(position, 0)),
        Some(next) => if next > length {
            Err(RangeReadError::new(RangeReadErrorKind::OffsetOutOfBounds).at(next, 0))
        } else {
            Ok(next)
        },
    }
}

/// What the source says of itself is held against what was opened: the verdict.
pub open spec fn snapshot_says<S: ReadAt>(
    source: &S,
    identity: Seq<u8>,
    length: nat,
    verdict: Option<RangeReadError>,
) -> bool {
    exists|identity_now: &SourceIdentity, length_now: u64|
        #![trigger call_ensures(S::identity, (source,), identity_now), reports_length(source, length_now)]
        call_ensures(S::identity, (source,), identity_now) && reports_length(source, length_now)
            && verdict == snapshot_error(identity_now@, length_now as nat, identity, length)
}

/// The accounts after some more requests and bytes.
pub open spec fn is_account(
    after: RangeMetrics,
    before: RangeMetrics,
    requests: nat,
    bytes: nat,
) -> bool {
    after.requests == before.requests + requests && after.transferred_bytes
        == before.transferred_bytes + bytes
}

/// How filling a cache of `count` bytes ends, given the replies of the source:
/// all of it was read; or the source no longer was the one that was opened; or
/// the accounts are full; or a reply failed. Each reply is a request, and the
/// bytes of those that moved on are accounted for.
pub open spec fn fill_result<S: ReadAt>(
    source: &S,
    identity: Seq<u8>,
    length: nat,
    position: nat,
    count: nat,
    replies: Seq<Result<usize, RangeFault>>,
    before: RangeMetrics,
    after: RangeMetrics,
    result: Result<(), RangeFault>,
) -> bool {
    let full = RangeFault::Range(plain_range_error(RangeReadErrorKind::MetricsOverflow));
    match result {
        Ok(()) => {
            &&& moved_on(source, position, count, replies)
            &&& counted(replies) == count
            &&& is_account(after, before, replies.len(), count)
        },
        Err(fault) => {
            ||| {
                &&& moved_on(source, position, count, replies)
                &&& exists|error: RangeReadError|
                    fault == RangeFault::Range(error) && #[trigger] snapshot_says(
                        source,
                        identity,
                        length,
                        Some(error),
                    )
                &&& is_account(after, before, replies.len(), counted(replies))
            }
            ||| {
                &&& moved_on(source, position, count, replies)
                &&& counted(replies) < count
                &&& fault == full
                &&& before.requests + replies.len() == u64::MAX
                &&& is_account(after, before, replies.len(), counted(replies))
            }
            ||| {
                &&& broke_off(source, position, count, replies, fault)
                &&& is_account(after, before, replies.len(), counted(replies.drop_last()))
            }
            ||| {
                &&& moved_on(source, position, count, replies)
                &&& replies.len() > 0
                &&& fault == full
                &&& before.transferred_bytes + counted(replies) > u64::MAX
                &&& is_account(after, before, replies.len(), counted(replies.drop_last()))
            }
        },
    }
}

/// Filling a cache of `count` bytes ends so by some replies of the source.
pub open spec fn filled_so<S: ReadAt>(
    source: &S,
    identity: Seq<u8>,
    length: nat,
    position: nat,
    count: nat,
    before: RangeMetrics,
    after: RangeMetrics,
    result: Result<(), RangeFault>,
) -> bool {
    exists|replies: Seq<Result<usize, RangeFault>>| #[trigger]
        fill_result(source, identity, length, position, count, replies, before, after, result)
}

/// How the cache comes to be filled for a request: the source is held against
/// what was opened, the fill is planned, and then the source is read.
pub open spec fn fetched<S: ReadAt>(
    source: &S,
    identity: Seq<u8>,
    length: nat,
    position: nat,
    plan: Result<nat, RangeReadError>,
    before: RangeMetrics,
    after: RangeMetrics,
    result: Result<(), RangeFault>,
) -> bool {
    ||| {
        &&& result matches Err(RangeFault::Range(error)) && snapshot_says(
            source,
            identity,
            length,
            Some(error),
        )
        &&& after == before
    }
    ||| {
        &&& snapshot_says(source, identity, length, None)
        &&& match plan {
            Err(error) => result == Err::<(), RangeFault>(RangeFault::Range(error)) && after
                == before,
            Ok(count) => filled_so(
                source,
                identity,
                length,
                position,
                count,
                before,
                after,
                result,
            ),
        }
    }
}

/// A reader with a position over a source.
#[derive(Debug)]
pub struct RangeReader<S: ReadAt> {
    pub source: S,
    pub identity: SourceIdentity,
    pub length: u64,
    pub position: u64,
    pub cache_offset: u64,
    pub cache: Vec<u8>,
    pub cache_limit: Option<usize>,
    pub read_ahead: usize,
    pub metrics: RangeMetrics,
}

fn zeros(count: usize) -> (bytes: Vec<u8>)
    ensures
        bytes@.len() == count,
{
    let mut bytes: Vec<u8> = Vec::new();
    let mut i: usize = 0;
    while i < count
        invariant
            i <= count,
            bytes@.len() == i,
        decreases count - i,
    {
        bytes.push(0);
        i += 1;
    }
    bytes
}

/// The number of bytes that a read gives.
pub open spec fn available(position: nat, length: nat, room: nat) -> nat {
    if length - position < room {
        (length - position) as nat
    } else {
        room
    }
}

/// How far a reader reads ahead.
pub open spec fn ahead(limits: Limits) -> usize {
    match limits.in_flight_bytes {
        Some(limit) => if limit == 0 {
            1
        } else if limit < DEFAULT_READ_AHEAD {
            limit
        } else {
            DEFAULT_READ_AHEAD
        },
        None => DEFAULT_READ_AHEAD,
    }
}

/// What opening a source comes to, by what it says of itself: the length is held
/// against the budgets, and the reader keeps the length and the identity.
pub open spec fn opened<S: ReadAt>(
    source: &S,
    source_limits: SourceLimits,
    result: Result<RangeReader<S>, RangeFault>,
) -> bool {
    exists|identity_now: &SourceIdentity, length_now: u64|
        #![trigger call_ensures(S::identity, (source,), identity_now), reports_length(source, length_now)]
        {
            &&& call_ensures(S::identity, (source,), identity_now)
            &&& reports_length(source, length_now)
            &&& match length_error(length_now as nat, source_limits, None) {
                Some(error) => result == Err::<RangeReader<S>, RangeFault>(
                    RangeFault::Range(error),
                ),
                None => result matches Ok(reader) && reader.length == length_now
                    && reader.identity@ == identity_now@,
            }
        }
}

impl<S: ReadAt> RangeReader<S> {
    /// The position is inside the source.
    pub open spec fn wf(&self) -> bool {
        self.position <= self.length && self.read_ahead > 0
    }

    /// The source is faithful and the one that was opened.
    pub open spec fn is_sound(&self) -> bool {
        &&& self.source.is_faithful()
        &&& self.length == self.source.content().len()
        &&& self.identity@ == self.source.version()
    }

    /// The cache holds what the source holds at its place. A cache whose filling
    /// has failed need not.
    pub open spec fn cache_is_true(&self) -> bool {
        &&& self.cache_offset + self.cache@.len() <= self.source.content().len()
        &&& self.cache@ == self.source.content().subrange(
            self.cache_offset as int,
            self.cache_offset + self.cache@.len(),
        )
    }

    /// Whether a read can be answered from the cache.
    pub open spec fn is_cached(&self, count: nat) -> bool {
        self.position >= self.cache_offset && self.position - self.cache_offset + count
            <= self.cache@.len()
    }

    /// Everything but the cache and the accounts.
    pub open spec fn same_place(&self, other: &Self) -> bool {
        &&& self.source == other.source
        &&& self.identity == other.identity
        &&& self.length == other.length
        &&& self.cache_limit == other.cache_limit
        &&& self.read_ahead == other.read_ahead
    }

    /// Opens a source with budgets.
    pub fn with_source_limits(source: S, limits: Limits, source_limits: SourceLimits) -> (result:
        Result<Self, RangeFault>)
        ensures
            opened(&source, source_limits, result),
            source.is_faithful() ==> match result {
                Ok(reader) => {
                    &&& length_error(source.content().len(), source_limits, None) is None
                    &&& reader.is_sound()
                },
                Err(fault) => length_error(source.content().len(), source_limits, None) is Some
                    && fault == RangeFault::Range(
                    length_error(source.content().len(), source_limits, None)->0,
                ),
            },
            result matches Ok(reader) ==> {
                &&& reader.wf()
                &&& reader.source == source
                &&& reader.position == 0
                &&& reader.cache_offset == 0
                &&& reader.cache@.len() == 0
                &&& reader.cache_limit == limits.metadata_bytes
                &&& reader.read_ahead == ahead(limits)
                &&& reader.metrics == (RangeMetrics { requests: 0, transferred_bytes: 0 })
            },
    {
        let identity_now = source.identity();
        let identity = identity_now.duplicate();
        let length: u64 = source.len();
        proof {
            assert(call_ensures(S::identity, (&source,), identity_now));
            assert(reports_length(&source, length));
        }
        if let Err(error) = validate_source_length(length, source_limits, None) {
            return Err(RangeFault::Range(error));
        }
        let read_ahead: usize = match limits.in_flight_bytes {
            Some(limit) => if limit == 0 {
                1
            } else if limit < DEFAULT_READ_AHEAD {
                limit
            } else {
                DEFAULT_READ_AHEAD
            },
            None => DEFAULT_READ_AHEAD,
        };
        Ok(
            RangeReader {
                source,
                identity,
                length,
                position: 0,
                cache_offset: 0,
                cache: Vec::new(),
                cache_limit: limits.metadata_bytes,
                read_ahead,
                metrics: RangeMetrics::new(),
            },
        )
    }

    /// Opens a source with budgets for the archive and the safe ones for sources.
    pub fn with_limits(source: S, limits: Limits) -> (result: Result<Self, RangeFault>)
        ensures
            opened(
                &source,
                (SourceLimits {
                    source_bytes: Some(68_719_476_736),
                    volumes: Some(256),
                    volume_bytes: Some(274_877_906_944),
                }),
                result,
            ),
            result matches Ok(reader) ==> reader.metrics == (RangeMetrics {
                requests: 0,
                transferred_bytes: 0,
            }) && reader.cache@.len() == 0,
            result matches Ok(reader) ==> {
                &&& reader.wf()
                &&& reader.source == source
                &&& reader.position == 0
                &&& reader.cache_offset == 0
                &&& reader.cache_limit == limits.metadata_bytes
                &&& reader.read_ahead == ahead(limits)
                &&& source.is_faithful() ==> reader.is_sound()
            },
            source.is_faithful() ==> (result is Ok <==> source.content().len() <= 68_719_476_736),
    {
        RangeReader::with_source_limits(source, limits, SourceLimits::safe())
    }

    /// The identity that was opened.
    pub fn identity(&self) -> (identity: &SourceIdentity)
        ensures
            identity@ == self.identity@,
    {
        &self.identity
    }

    /// The length that was opened.
    pub fn len(&self) -> (length: u64)
        ensures
            length == self.length,
    {
        self.length
    }

    /// Whether the source is empty.
    pub fn is_empty(&self) -> (empty: bool)
        ensures
            empty == (self.length == 0),
    {
        self.length == 0
    }

    /// What was asked of the source.
    pub fn metrics(&self) -> (metrics: RangeMetrics)
        ensures
            metrics == self.metrics,
    {
        self.metrics
    }

    /// The source.
    pub fn into_inner(self) -> (source: S)
        ensures
            source == self.source,
    {
        self.source
    }

    /// Checks that the source is the one that was opened.
    pub fn validate_source(&self) -> (result: Result<(), RangeFault>)
        ensures
            match result {
                Ok(()) => snapshot_says(&self.source, self.identity@, self.length as nat, None),
                Err(fault) => exists|error: RangeReadError|
                    fault == RangeFault::Range(error) && #[trigger] snapshot_says(
                        &self.source,
                        self.identity@,
                        self.length as nat,
                        Some(error),
                    ),
            },
            self.is_sound() ==> result is Ok,
            self.source.is_faithful() ==> match result {
                Ok(()) => self.is_sound(),
                Err(fault) => snapshot_error(
                    self.source.version(),
                    self.source.content().len(),
                    self.identity@,
                    self.length as nat,
                ) is Some && fault == RangeFault::Range(
                    snapshot_error(
                        self.source.version(),
                        self.source.content().len(),
                        self.identity@,
                        self.length as nat,
                    )->0,
                ),
            },
    {
        let identity_now = self.source.identity();
        let length_now: u64 = self.source.len();
        let verdict = check_snapshot(identity_now, length_now, &self.identity, self.length);
        proof {
            assert(call_ensures(S::identity, (&self.source,), identity_now));
            assert(reports_length(&self.source, length_now));
            assert(snapshot_says(&self.source, self.identity@, self.length as nat, verdict));
        }
        match verdict {
            Some(error) => Err(RangeFault::Range(error)),
            None => Ok(()),
        }
    }

    /// What is planned for a request at the position.
    pub open spec fn plan(&self, requested: nat) -> Result<nat, RangeReadError> {
        fill_plan(
            self.position as nat,
            self.length as nat,
            requested,
            self.read_ahead as nat,
            self.cache_limit,
        )
    }

    /// Nothing but a full account can keep the cache from being filled.
    pub open spec fn can_fill(&self, requested: nat) -> bool {
        &&& self.is_sound()
        &&& serves(&self.source)
        &&& self.plan(requested) matches Ok(count) && self.metrics.requests + count <= u64::MAX
            && self.metrics.transferred_bytes + count <= u64::MAX
    }

    /// Fills the cache at the position, for a request.
    fn fill_cache(&mut self, requested: usize) -> (result: Result<(), RangeFault>)
        requires
            old(self).wf(),
            0 < requested <= old(self).length - old(self).position,
        ensures
            final(self).wf(),
            final(self).same_place(old(self)),
            final(self).position == old(self).position,
            fetched(
                &old(self).source,
                old(self).identity@,
                old(self).length as nat,
                old(self).position as nat,
                old(self).plan(requested as nat),
                old(self).metrics,
                final(self).metrics,
                result,
            ),
            old(self).is_sound() && old(self).plan(requested as nat) is Err ==> result == Err::<
                (),
                _,
            >(RangeFault::Range(old(self).plan(requested as nat)->Err_0)) && final(self).cache
                == old(self).cache,
            old(self).can_fill(requested as nat) ==> result is Ok,
            result is Ok ==> {
                &&& final(self).cache_offset == old(self).position
                &&& old(self).plan(requested as nat) == Ok::<_, RangeReadError>(
                    final(self).cache@.len(),
                )
                &&& final(self).cache@.len() >= requested
                &&& old(self).is_sound() ==> final(self).cache_is_true()
            },
    {
        if let Err(fault) = self.validate_source() {
            return Err(fault);
        }
        let count: usize = match plan_fill(
            self.position,
            self.length,
            requested,
            self.read_ahead,
            self.cache_limit,
        ) {
            Ok(count) => count,
            Err(error) => {
                return Err(RangeFault::Range(error));
            },
        };
        self.cache = zeros(count);
        self.cache_offset = self.position;
        let mut filled: usize = 0;
        let ghost mut replies: Seq<Result<usize, RangeFault>> = Seq::empty();
        let ghost start = old(self).position as nat;
        while filled < count
            invariant
                filled <= count,
                self.wf(),
                self.same_place(old(self)),
                self.position == old(self).position,
                start == old(self).position,
                self.cache_offset == old(self).position,
                self.cache@.len() == count,
                count >= requested,
                self.position + count <= self.length,
                old(self).plan(requested as nat) == Ok::<_, RangeReadError>(count as nat),
                snapshot_says(
                    &old(self).source,
                    old(self).identity@,
                    old(self).length as nat,
                    None,
                ),
                moved_on(&old(self).source, start, count as nat, replies),
                counted(replies) == filled,
                replies.len() <= filled,
                is_account(self.metrics, old(self).metrics, replies.len(), filled as nat),
                old(self).is_sound() ==> self.cache@.take(filled as int)
                    == self.source.content().subrange(
                    self.cache_offset as int,
                    self.cache_offset + filled,
                ),
            decreases count - filled,
        {
            if let Err(fault) = self.validate_source() {
                proof {
                    old(self).lemma_fetched(count as nat, replies, self.metrics, Err(fault));
                }
                return Err(fault);
            }
            let offset: u64 = self.cache_offset + filled as u64;
            if let Err(error) = self.metrics.record_request() {
                proof {
                    old(self).lemma_fetched(
                        count as nat,
                        replies,
                        self.metrics,
                        Err(RangeFault::Range(error)),
                    );
                }
                return Err(RangeFault::Range(error));
            }
            let ghost before = self.cache@;
            let reading = read_once(&self.source, offset, self.cache.as_mut_slice(), filled);
            let ghost reply = choose|reply: Result<usize, RangeFault>| #[trigger]
                replies_so(&old(self).source, offset, (count - filled) as nat, reply) && says(
                    reading,
                    reply,
                    offset as nat,
                    (count - filled) as nat,
                );
            proof {
                lemma_moved_on(&old(self).source, start, count as nat, replies, reply);
                replies = replies.push(reply);
            }
            let read = match reading {
                Ok(read) => read,
                Err(fault) => {
                    proof {
                        old(self).lemma_fetched(count as nat, replies, self.metrics, Err(fault));
                    }
                    return Err(fault);
                },
            };
            proof {
                if old(self).is_sound() {
                    let content = self.source.content();
                    assert(self.cache@.take(filled + read) =~= before.take(filled as int)
                        + self.cache@.subrange(filled as int, filled + read));
                    assert(content.subrange(
                        self.cache_offset as int,
                        self.cache_offset + filled + read,
                    ) =~= content.subrange(self.cache_offset as int, self.cache_offset + filled)
                        + content.subrange(offset as int, offset + read));
                }
            }
            if let Err(error) = self.metrics.record_bytes(read) {
                proof {
                    old(self).lemma_fetched(
                        count as nat,
                        replies,
                        self.metrics,
                        Err(RangeFault::Range(error)),
                    );
                }
                return Err(RangeFault::Range(error));
            }
            filled += read;
            if let Err(fault) = self.validate_source() {
                proof {
                    old(self).lemma_fetched(count as nat, replies, self.metrics, Err(fault));
                }
                return Err(fault);
            }
        }
        proof {
            assert(self.cache@.take(filled as int) =~= self.cache@);
            old(self).lemma_fetched(count as nat, replies, self.metrics, Ok(()));
        }
        Ok(())
    }

    proof fn lemma_fetched(
        &self,
        count: nat,
        replies: Seq<Result<usize, RangeFault>>,
        after: RangeMetrics,
        result: Result<(), RangeFault>,
    )
        requires
            snapshot_says(&self.source, self.identity@, self.length as nat, None),
            fill_result(
                &self.source,
                self.identity@,
                self.length as nat,
                self.position as nat,
                count,
                replies,
                self.metrics,
                after,
                result,
            ),
        ensures
            fetched(
                &self.source,
                self.identity@,
                self.length as nat,
                self.position as nat,
                Ok(count),
                self.metrics,
                after,
                result,
            ),
    {
        assert(filled_so(
            &self.source,
            self.identity@,
            self.length as nat,
            self.position as nat,
            count,
            self.metrics,
            after,
            result,
        ));
    }

    /// What a read answers, and how the accounts change. Without room nothing is
    /// asked. Else the source is held against what was opened; at the end and
    /// within the cache nothing more is asked, and otherwise the source is read.
    pub open spec fn answers(
        &self,
        room: nat,
        result: Result<usize, RangeFault>,
        after: RangeMetrics,
    ) -> bool {
        let count = available(self.position as nat, self.length as nat, room);
        if room == 0 {
            result is Ok && after == self.metrics
        } else {
            ||| {
                &&& result matches Err(RangeFault::Range(error)) && snapshot_says(
                    &self.source,
                    self.identity@,
                    self.length as nat,
                    Some(error),
                )
                &&& after == self.metrics
            }
            ||| {
                &&& snapshot_says(&self.source, self.identity@, self.length as nat, None)
                &&& if self.position == self.length || self.is_cached(count) {
                    result is Ok && after == self.metrics
                } else {
                    fetched(
                        &self.source,
                        self.identity@,
                        self.length as nat,
                        self.position as nat,
                        self.plan(count),
                        self.metrics,
                        after,
                        match result {
                            Ok(_) => Ok(()),
                            Err(fault) => Err(fault),
                        },
                    )
                }
            }
        }
    }

    /// Reads at the position and moves it on.
    pub fn read(&mut self, output: &mut [u8]) -> (result: Result<usize, RangeFault>)
        requires
            old(self).wf(),
        ensures
            final(self).wf(),
            final(self).same_place(old(self)),
            final(output)@.len() == old(output)@.len(),
            old(output)@.len() == 0 ==> result == Ok::<usize, RangeFault>(0),
            match result {
                Ok(count) => {
                    let given = available(
                        old(self).position as nat,
                        old(self).length as nat,
                        old(output)@.len(),
                    );
                    &&& count == given
                    &&& final(self).position == old(self).position + count
                    &&& final(output)@.skip(count as int) == old(output)@.skip(count as int)
                    &&& count > 0 ==> final(output)@.take(count as int)
                        == final(self).cache@.subrange(
                        old(self).position - final(self).cache_offset,
                        old(self).position - final(self).cache_offset + count,
                    )
                    &&& count > 0 && old(self).is_cached(given) ==> final(self).cache == old(
                        self,
                    ).cache && final(self).cache_offset == old(self).cache_offset
                    &&& old(self).is_sound() && old(self).cache_is_true() ==> {
                        &&& final(self).cache_is_true()
                        &&& final(output)@.take(count as int)
                            == old(self).source.content().subrange(
                            old(self).position as int,
                            old(self).position + count,
                        )
                    }
                },
                Err(_) => final(self).position == old(self).position && final(output)@ == old(
                    output,
                )@,
            },
            old(self).answers(old(output)@.len(), result, final(self).metrics),
            old(self).is_sound() && (old(self).is_cached(
                available(
                    old(self).position as nat,
                    old(self).length as nat,
                    old(output)@.len(),
                ),
            ) || old(self).can_fill(
                available(
                    old(self).position as nat,
                    old(self).length as nat,
                    old(output)@.len(),
                ),
            )) ==> result is Ok,
            old(self).is_sound() && old(self).is_cached(
                available(
                    old(self).position as nat,
                    old(self).length as nat,
                    old(output)@.len(),
                ),
            ) ==> result is Ok && final(self).cache == old(self).cache && final(self).metrics
                == old(self).metrics,
            old(self).is_sound() && old(self).position == old(self).length ==> result == Ok::<
                usize,
                RangeFault,
            >(0),
    {
        let room: usize = output.len();
        if room == 0 {
            return Ok(0);
        }
        if let Err(fault) = self.validate_source() {
            return Err(fault);
        }
        if self.position == self.length {
            return Ok(0);
        }
        let rest: u64 = self.length - self.position;
        let count: usize = if rest < room as u64 {
            rest as usize
        } else {
            room
        };
        let held: usize = self.cache.len();
        let is_cached: bool = self.position >= self.cache_offset && self.position
            - self.cache_offset <= held as u64 && count <= held - (self.position
            - self.cache_offset) as usize;
        let relative: usize = if is_cached {
            (self.position - self.cache_offset) as usize
        } else {
            match self.fill_cache(count) {
                Ok(done) => {
                    assert(done == ());
                    assert(fetched(
                        &old(self).source,
                        old(self).identity@,
                        old(self).length as nat,
                        old(self).position as nat,
                        old(self).plan(count as nat),
                        old(self).metrics,
                        self.metrics,
                        Ok(()),
                    ));
                },
                Err(fault) => {
                    return Err(fault);
                },
            }
            0
        };
        let ghost before = output@;
        let ghost start = self.position;
        copy_at(output, 0, self.cache.as_slice(), relative, count);
        proof {
            let part = self.cache@.subrange(relative as int, relative + count);
            assert(output@.take(count as int) =~= part);
            assert(output@.skip(count as int) =~= before.skip(count as int));
            if self.cache_is_true() {
                assert(part =~= self.source.content().subrange(start as int, start + count));
            }
        }
        self.position = self.position + count as u64;
        Ok(count)
    }

    /// Moves the position.
    pub fn seek(&mut self, target: SeekTarget) -> (result: Result<u64, RangeFault>)
        requires
            old(self).wf(),
        ensures
            final(self).wf(),
            final(self).same_place(old(self)),
            final(self).cache == old(self).cache,
            final(self).cache_offset == old(self).cache_offset,
            final(self).metrics == old(self).metrics,
            match result {
                Ok(next) => {
                    &&& sought(
                        old(self).position as nat,
                        old(self).length as nat,
                        target,
                    ) == Ok::<_, RangeReadError>(next as nat)
                    &&& final(self).position == next
                    &&& snapshot_says(
                        &old(self).source,
                        old(self).identity@,
                        old(self).length as nat,
                        None,
                    )
                },
                Err(fault) => {
                    &&& final(self).position == old(self).position
                    &&& ({
                        ||| exists|error: RangeReadError|
                            fault == RangeFault::Range(error) && #[trigger] snapshot_says(
                                &old(self).source,
                                old(self).identity@,
                                old(self).length as nat,
                                Some(error),
                            )
                        ||| snapshot_says(
                            &old(self).source,
                            old(self).identity@,
                            old(self).length as nat,
                            None,
                        ) && sought(old(self).position as nat, old(self).length as nat, target)
                            is Err && fault == RangeFault::Range(
                            sought(
                                old(self).position as nat,
                                old(self).length as nat,
                                target,
                            )->Err_0,
                        )
                    })
                    &&& old(self).is_sound() ==> sought(
                        old(self).position as nat,
                        old(self).length as nat,
                        target,
                    ) is Err && fault == RangeFault::Range(
                        sought(
                            old(self).position as nat,
                            old(self).length as nat,
                            target,
                        )->Err_0,
                    )
                },
            },
    {
        if let Err(fault) = self.validate_source() {
            return Err(fault);
        }
        match find_target(self.position, self.length, target) {
            Ok(next) => {
                self.position = next;
                Ok(next)
            },
            Err(error) => Err(RangeFault::Range(error)),
        }
    }
}

/// At a step of its history a reader keeps its source and its settings, as it does
/// when it is read or moved.
pub open spec fn keeps_its_place<S: ReadAt>(history: Seq<RangeReader<S>>, step: int) -> bool {
    history[step].same_place(&history[step - 1])
}

/// However often a reader is read and moved, its length and its identity are those
/// that were opened.
pub proof fn law_opening_is_kept<S: ReadAt>(history: Seq<RangeReader<S>>, at: int)
    requires
        0 <= at < history.len(),
        forall|step: int| 0 < step < history.len() ==> #[trigger] keeps_its_place(history, step),
    ensures
        history[at].length == history[0].length,
        history[at].identity == history[0].identity,
    decreases at,
{
    if at > 0 {
        assert(keeps_its_place(history, at));
        law_opening_is_kept(history, at - 1);
    }
}

/// What is done with a reader.
pub enum ReaderMove {
    /// It is read into some room.
    Read { room: nat, result: Result<usize, RangeFault> },
    /// Its position is moved.
    Seek,
}

/// The replies that the source gave while a cache of `total` bytes was filled.
pub struct Asked {
    pub total: nat,
    pub replies: Seq<Result<usize, RangeFault>>,
}

/// The bytes of those replies that moved the filling of `total` bytes on.
pub open spec fn accepted(total: nat, replies: Seq<Result<usize, RangeFault>>) -> nat
    decreases replies.len(),
{
    if replies.len() == 0 {
        0
    } else {
        let before = accepted(total, replies.drop_last());
        match replies.last() {
            Ok(count) => if 0 < count && before + count <= total {
                before + count as nat
            } else {
                before
            },
            Err(_) => before,
        }
    }
}

/// All replies of a log.
pub open spec fn all_requests(log: Seq<Asked>) -> nat
    decreases log.len(),
{
    if log.len() == 0 {
        0
    } else {
        all_requests(log.drop_last()) + log.last().replies.len()
    }
}

/// The bytes of all replies of a log that moved on.
pub open spec fn all_accepted(log: Seq<Asked>) -> nat
    decreases log.len(),
{
    if log.len() == 0 {
        0
    } else {
        all_accepted(log.drop_last()) + accepted(log.last().total, log.last().replies)
    }
}

/// A step of a history is a read or a seek.
pub open spec fn makes_move<S: ReadAt>(
    history: Seq<RangeReader<S>>,
    moves: Seq<ReaderMove>,
    step: int,
) -> bool {
    let before = history[step];
    let after = history[step + 1];
    &&& after.same_place(&before)
    &&& match moves[step] {
        ReaderMove::Read { room, result } => before.answers(room, result, after.metrics),
        ReaderMove::Seek => after.metrics == before.metrics,
    }
}

/// The source gave these replies at a step of a history: none, or those with which
/// the cache was filled as planned.
pub open spec fn gave<S: ReadAt>(
    history: Seq<RangeReader<S>>,
    moves: Seq<ReaderMove>,
    step: int,
    asked: Asked,
) -> bool {
    let before = history[step];
    let after = history[step + 1];
    ||| asked.replies.len() == 0 && after.metrics == before.metrics
    ||| {
        &&& moves[step] matches ReaderMove::Read { room, result }
        &&& before.plan(available(before.position as nat, before.length as nat, room)) == Ok::<
            _,
            RangeReadError,
        >(asked.total)
        &&& fill_result(
            &before.source,
            before.identity@,
            before.length as nat,
            before.position as nat,
            asked.total,
            asked.replies,
            before.metrics,
            after.metrics,
            match result {
                Ok(_) => Ok(()),
                Err(fault) => Err(fault),
            },
        )
    }
}

proof fn lemma_accepted<S: ReadAt>(
    source: &S,
    offset: nat,
    total: nat,
    replies: Seq<Result<usize, RangeFault>>,
)
    requires
        moved_on(source, offset, total, replies),
    ensures
        accepted(total, replies) == counted(replies),
        counted(replies) <= total,
    decreases replies.len(),
{
    if replies.len() > 0 {
        lemma_accepted(source, offset, total, replies.drop_last());
    }
}

proof fn lemma_account<S: ReadAt>(
    history: Seq<RangeReader<S>>,
    moves: Seq<ReaderMove>,
    step: int,
    asked: Asked,
)
    requires
        gave(history, moves, step, asked),
    ensures
        history[step + 1].metrics.requests == history[step].metrics.requests + asked.replies.len(),
        ({
            let bytes = accepted(asked.total, asked.replies);
            let before = history[step].metrics.transferred_bytes;
            before + bytes <= u64::MAX ==> history[step + 1].metrics.transferred_bytes == before
                + bytes
        }),
        history[step + 1].metrics.transferred_bytes >= history[step].metrics.transferred_bytes,
{
    let before = history[step];
    let replies = asked.replies;
    if moved_on(&before.source, before.position as nat, asked.total, replies) {
        lemma_accepted(&before.source, before.position as nat, asked.total, replies);
    } else if replies.len() > 0 && moved_on(
        &before.source,
        before.position as nat,
        asked.total,
        replies.drop_last(),
    ) {
        lemma_accepted(&before.source, before.position as nat, asked.total, replies.drop_last());
    }
}

proof fn lemma_move_is_answered<S: ReadAt>(
    history: Seq<RangeReader<S>>,
    moves: Seq<ReaderMove>,
    step: int,
) -> (asked: Asked)
    requires
        makes_move(history, moves, step),
    ensures
        gave(history, moves, step, asked),
{
    let before = history[step];
    let after = history[step + 1];
    let nothing = Asked { total: 0, replies: Seq::empty() };
    match moves[step] {
        ReaderMove::Seek => nothing,
        ReaderMove::Read { room, result } => {
            if after.metrics == before.metrics {
                nothing
            } else {
                let count = available(before.position as nat, before.length as nat, room);
                let total = before.plan(count)->Ok_0;
                let end: Result<(), RangeFault> = match result {
                    Ok(_) => Ok(()),
                    Err(fault) => Err(fault),
                };
                assert(filled_so(
                    &before.source,
                    before.identity@,
                    before.length as nat,
                    before.position as nat,
                    total,
                    before.metrics,
                    after.metrics,
                    end,
                ));
                let replies = choose|replies: Seq<Result<usize, RangeFault>>| #[trigger]
                    fill_result(
                        &before.source,
                        before.identity@,
                        before.length as nat,
                        before.position as nat,
                        total,
                        replies,
                        before.metrics,
                        after.metrics,
                        end,
                    );
                Asked { total, replies }
            }
        },
    }
}

/// However a reader that was just opened is read and moved, its requests are all
/// the replies that the source gave since, and its bytes are those of the replies
/// that moved on, as far as 64 bits can count them. `log` holds the replies of each
/// step.
pub proof fn law_accounts_are_the_replies<S: ReadAt>(
    history: Seq<RangeReader<S>>,
    moves: Seq<ReaderMove>,
) -> (log: Seq<Asked>)
    requires
        history.len() == moves.len() + 1,
        history[0].metrics == (RangeMetrics { requests: 0, transferred_bytes: 0 }),
        forall|step: int| 0 <= step < moves.len() ==> #[trigger] makes_move(history, moves, step),
    ensures
        log.len() == moves.len(),
        forall|step: int|
            0 <= step < moves.len() ==> #[trigger] gave(history, moves, step, log[step]),
        history.last().metrics.requests == all_requests(log),
        all_accepted(log) <= u64::MAX ==> history.last().metrics.transferred_bytes == all_accepted(
            log,
        ),
    decreases moves.len(),
{
    if moves.len() == 0 {
        Seq::empty()
    } else {
        let last = moves.len() - 1;
        let past = history.drop_last();
        let made = moves.drop_last();
        assert forall|step: int| 0 <= step < made.len() implies #[trigger] makes_move(
            past,
            made,
            step,
        ) by {
            assert(makes_move(history, moves, step));
        }
        let earlier = law_accounts_are_the_replies(past, made);
        assert(makes_move(history, moves, last));
        let asked = lemma_move_is_answered(history, moves, last);
        lemma_account(history, moves, last, asked);
        let log = earlier.push(asked);
        assert(log.drop_last() =~= earlier);
        assert forall|step: int| 0 <= step < moves.len() implies #[trigger] gave(
            history,
            moves,
            step,
            log[step],
        ) by {
            if step < last {
                assert(gave(past, made, step, earlier[step]));
            }
        }
        log
    }
}

/// The accounts of a reader begin at zero and only grow: by a read that asks the
/// source, and by no other.
pub proof fn law_accounts_only_grow<S: ReadAt>(
    reader: RangeReader<S>,
    room: nat,
    result: Result<usize, RangeFault>,
    after: RangeMetrics,
)
    requires
        reader.wf(),
        reader.answers(room, result, after),
    ensures
        after.requests >= reader.metrics.requests,
        after.transferred_bytes >= reader.metrics.transferred_bytes,
        room == 0 || reader.position == reader.length || reader.is_cached(
            available(reader.position as nat, reader.length as nat, room),
        ) ==> after == reader.metrics,
{
}

} // verus!
