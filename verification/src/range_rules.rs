//! Laws on places, counts and budgets of sources that are read in ranges.

use vstd::prelude::*;
use crate::io_fault::IoKind;
use crate::limits::Limits;
use crate::range_error::{length_error, RangeReadErrorKind, SourceLimits, VolumeId};
use crate::range_source::{
    ahead, available, fill_plan, judged, memory_count, range_refusal, snapshot_error, sought,
    ReadOutcome, SeekTarget,
};
use crate::volumes::{primary_refusal, LedgerView};

verus! {

// ---------------------------------------------------------------------------
// Places
// ---------------------------------------------------------------------------

/// A place from the start is taken as it is, up to the end of the source; where the
/// reader stood before does not matter, neither for it nor for one from the end.
pub proof fn law_fixed_places_do_not_depend_on_the_reader(
    first: nat,
    second: nat,
    length: u64,
    place: u64,
    delta: i64,
)
    ensures
        sought(first, length as nat, SeekTarget::Start(place)) is Ok <==> place <= length,
        place <= length ==> sought(first, length as nat, SeekTarget::Start(place)) == Ok::<
            nat,
            crate::range_error::RangeReadError,
        >(place as nat),
        sought(first, length as nat, SeekTarget::End(delta)) is Ok == sought(
            second,
            length as nat,
            SeekTarget::End(delta),
        ) is Ok,
        sought(first, length as nat, SeekTarget::End(delta)) matches Ok(next) ==> next == length
            + delta && delta <= 0,
{
}

/// Two moves in a row lead where one move by their sum leads.
pub proof fn law_moves_add_up(position: u64, length: u64, first: i64, second: i64)
    requires
        i64::MIN <= first + second <= i64::MAX,
        sought(position as nat, length as nat, SeekTarget::Current(first)) is Ok,
    ensures
        ({
            let middle = sought(position as nat, length as nat, SeekTarget::Current(first))->Ok_0;
            let both = sought(
                position as nat,
                length as nat,
                SeekTarget::Current((first + second) as i64),
            );
            let end = sought(middle, length as nat, SeekTarget::Current(second));
            &&& end is Ok <==> both is Ok
            &&& end is Ok ==> end->Ok_0 == both->Ok_0
        }),
        sought(position as nat, length as nat, SeekTarget::Current(0)) is Ok <==> position
            <= length,
{
}

/// A refused move tells where: a place outside of all numbers by where the reader
/// stands, a place behind the end by itself.
pub proof fn law_refused_moves_tell_where(position: u64, length: u64, delta: i64)
    ensures
        ({
            let next = position + delta;
            let target = SeekTarget::Current(delta);
            sought(position as nat, length as nat, target) matches Err(error) ==> {
                &&& error.kind == RangeReadErrorKind::OffsetOverflow <==> (next < 0 || next
                    > u64::MAX)
                &&& error.kind == RangeReadErrorKind::OffsetOverflow ==> error.offset == Some(
                    position,
                )
                &&& error.kind != RangeReadErrorKind::OffsetOverflow ==> error.kind
                    == RangeReadErrorKind::OffsetOutOfBounds && error.offset == Some(next as u64)
                    && next > length
                &&& error.requested == Some(0u64)
            }
        }),
{
}

/// A range is read exactly if it ends within the source, the empty one at the end too.
pub proof fn law_ranges_end_within_the_source(length: u64, offset: u64, requested: usize)
    ensures
        range_refusal(length as nat, offset as nat, requested as nat) is None <==> offset
            + requested <= length,
        range_refusal(length as nat, offset as nat, requested as nat) matches Some(error)
            ==> error.offset == Some(offset) && error.requested == Some(requested as u64),
{
}

// ---------------------------------------------------------------------------
// Counts
// ---------------------------------------------------------------------------

/// A source in memory gives as much as there is room for, unless it ends before; it
/// refuses only places behind its end.
pub proof fn law_memory_gives_what_there_is(length: usize, offset: u64, room: usize)
    ensures
        memory_count(length as nat, offset as nat, room as nat) is Ok <==> offset <= length,
        memory_count(length as nat, offset as nat, room as nat) matches Ok(count) ==> {
            &&& count <= room
            &&& offset + count <= length
            &&& count == room || offset + count == length
        },
{
}

/// A reply is taken exactly if it gives at least one byte and no more than were asked
/// for.
pub proof fn law_replies_are_judged_by_their_count(
    outcome: ReadOutcome,
    offset: u64,
    remaining: usize,
)
    ensures
        judged(outcome, offset as nat, remaining as nat) matches Ok(count) ==> outcome
            == ReadOutcome::Count(count as usize) && 0 < count <= remaining,
        judged(outcome, offset as nat, remaining as nat) is Ok <==> (outcome matches
            ReadOutcome::Count(count) && 0 < count <= remaining),
        judged(outcome, offset as nat, remaining as nat) matches Err(error) ==> {
            &&& error.offset == Some(offset)
            &&& error.requested == Some(remaining as u64)
            &&& error.kind == RangeReadErrorKind::ShortRead <==> outcome is Ended
            &&& error.kind == RangeReadErrorKind::NoProgress <==> outcome == ReadOutcome::Count(0)
        },
{
}

/// A request is served unless nothing is left or it alone is over the budget of the
/// cache. What is cached then lies within the source and the budget, covers the request
/// as far as the source goes, and covers the distance to read ahead too unless the
/// source or the budget ends before.
pub proof fn law_fills_cover_the_request(
    position: u64,
    length: u64,
    requested: usize,
    read_ahead: usize,
    cache_limit: Option<usize>,
)
    ensures
        ({
            let plan = fill_plan(
                position as nat,
                length as nat,
                requested as nat,
                read_ahead as nat,
                cache_limit,
            );
            let rest = length - position;
            &&& plan is Ok <==> rest > 0 && (cache_limit matches Some(limit) ==> requested
                <= limit)
            &&& plan matches Ok(count) ==> {
                &&& count <= rest
                &&& cache_limit matches Some(limit) ==> count <= limit
                &&& count >= requested || count == rest
                &&& count >= read_ahead || count == rest || cache_limit == Some(count as usize)
                &&& count <= requested || count <= read_ahead
            }
            &&& plan matches Err(error) ==> error.offset == Some(position) && error.requested
                == Some(requested as u64)
            &&& plan matches Err(error) ==> rest > 0 ==> {
                &&& error.kind == RangeReadErrorKind::CacheBudgetExceeded
                &&& error.declared == Some(requested as u64)
                &&& error.limit == Some(cache_limit->0 as u64)
            }
        }),
{
}

/// A read gives as much as there is room for, unless the source ends before.
pub proof fn law_reads_stop_at_the_end(position: nat, length: nat, room: nat)
    requires
        position <= length,
    ensures
        available(position, length, room) <= room,
        position + available(position, length, room) <= length,
        available(position, length, room) == room || position + available(position, length, room)
            == length,
{
}

/// A reader always reads ahead by something, and never by more than it may hold.
pub proof fn law_reading_ahead_stays_in_flight(limits: Limits)
    ensures
        1 <= ahead(limits) <= 0x2_0000,
        limits.in_flight_bytes matches Some(limit) ==> limit > 0 ==> ahead(limits) <= limit,
        limits.in_flight_bytes is None ==> ahead(limits) == 0x2_0000,
        limits.in_flight_bytes matches Some(limit) ==> 0 < limit <= 0x2_0000 ==> ahead(limits)
            == limit,
{
}

/// A source is taken for the one that was opened exactly if neither its identity nor
/// its length has changed; a changed identity is told first.
pub proof fn law_snapshots_hold_identity_and_length(
    identity_now: Seq<u8>,
    length_now: u64,
    identity: Seq<u8>,
    length: u64,
)
    ensures
        snapshot_error(identity_now, length_now as nat, identity, length as nat) is None
            <==> identity_now == identity && length_now == length,
        snapshot_error(identity_now, length_now as nat, identity, length as nat) matches Some(error)
            ==> (error.kind == RangeReadErrorKind::IdentityChanged <==> identity_now != identity)
            && (error.kind == RangeReadErrorKind::LengthChanged <==> identity_now == identity),
{
}

// ---------------------------------------------------------------------------
// Budgets
// ---------------------------------------------------------------------------

/// A source is refused for its length exactly if it is longer than its budget; the
/// refusal tells the length, the budget and the volume.
pub proof fn law_lengths_are_held_against_the_budget(
    length: u64,
    limits: SourceLimits,
    volume: Option<VolumeId>,
)
    ensures
        length_error(length as nat, limits, volume) is Some <==> (limits.source_bytes matches Some(
            limit,
        ) && length > limit),
        length_error(length as nat, limits, volume) matches Some(error) ==> {
            &&& error.declared == Some(length)
            &&& error.limit == limits.source_bytes
            &&& error.volume == volume
            &&& error.kind == RangeReadErrorKind::SourceSizeExceeded
        },
{
}

/// A primary source is taken exactly if its length is within both budgets and at least
/// one volume is allowed; it counts as the first volume.
pub proof fn law_primary_sources_are_the_first_volume(length: u64, limits: SourceLimits)
    ensures
        primary_refusal(length as nat, limits) is None <==> {
            &&& limits.source_bytes matches Some(limit) ==> length <= limit
            &&& limits.volumes matches Some(count) ==> 1 <= count
            &&& limits.volume_bytes matches Some(limit) ==> length <= limit
        },
        primary_refusal(length as nat, limits) matches Some(error) ==> error.kind
            != RangeReadErrorKind::VolumeCountExceeded ==> error.volume == Some(
            VolumeId { index: 0 },
        ) && error.declared == Some(length),
{
}

/// A further volume is taken exactly if it is within its own budget, the number of all
/// volumes with the primary source and with this one is within theirs, and so is the
/// sum of all their lengths.
pub proof fn law_volumes_are_taken_within_all_budgets(
    ledger: LedgerView,
    volume: VolumeId,
    primary: u64,
    length: u64,
)
    requires
        ledger.asked.len() + 2 < u32::MAX,
    ensures
        ledger.refusal(volume, primary, Some(length)) is None <==> {
            &&& ledger.limits.source_bytes matches Some(limit) ==> length <= limit
            &&& ledger.limits.volumes matches Some(count) ==> ledger.asked.len() + 2 <= count
            &&& ledger.limits.volume_bytes matches Some(limit) ==> primary + ledger.total_bytes
                + length <= limit
            &&& primary + ledger.total_bytes + length <= u64::MAX
        },
        ledger.refusal(volume, primary, Some(length)) matches Some(error) ==> error.volume == Some(
            volume,
        ),
        ledger.refusal(volume, primary, None) is None <==> (ledger.limits.volumes matches Some(
            count,
        ) ==> ledger.asked.len() + 2 <= count),
        ledger.with(volume, Some(length)).total_bytes == ledger.total_bytes + length,
        ledger.with(volume, None).total_bytes == ledger.total_bytes,
{
}

/// A failure at the boundary of a source tells what kind it is: a place that is wrong
/// is an invalid input, a source that ends is an unexpected end, a source that changed
/// is invalid data, and a source over a budget is too large.
pub proof fn law_failures_tell_their_kind(kind: RangeReadErrorKind)
    ensures
        kind.io() == IoKind::InvalidInput <==> kind is OffsetOutOfBounds || kind is OffsetOverflow,
        kind.io() == IoKind::UnexpectedEof <==> kind is ShortRead || kind is NoProgress,
        kind.io() == IoKind::InvalidData <==> kind is IdentityChanged || kind is LengthChanged,
        kind.io() == IoKind::NotFound <==> kind is MissingVolume,
        kind.io() == IoKind::FileTooLarge <==> kind is SourceSizeExceeded || kind
            is VolumeCountExceeded || kind is VolumeBytesExceeded,
{
}

} // verus!
