//! Archives of several volumes.

use vstd::prelude::*;
use crate::range_error::{
    length_error, plain_range_error, validate_source_length, RangeFault, RangeReadError,
    RangeReadErrorKind, SourceLimits, VolumeId,
};
use crate::range_source::{reports_length, ReadAt};

verus! {

/// Finds additional volumes.
pub trait VolumeResolver {
    /// What a volume is read from.
    type Source: ReadAt;

    /// The source of a volume; `None` if there is none.
    fn resolve(&self, volume: VolumeId) -> (result: Result<Option<Self::Source>, RangeFault>);
}

/// Which volumes have been found, and how large they are.
#[derive(Debug)]
pub struct VolumeLedger {
    pub limits: SourceLimits,
    /// The numbers of the volumes that were asked for, in order.
    pub asked: Vec<u32>,
    /// The bytes of the volumes that were found, without the primary source.
    pub total_bytes: u64,
}

/// The mathematical content of a [`VolumeLedger`].
#[verifier::ext_equal]
pub struct LedgerView {
    pub limits: SourceLimits,
    pub asked: Seq<u32>,
    pub total_bytes: nat,
}

impl View for VolumeLedger {
    type V = LedgerView;

    open spec fn view(&self) -> LedgerView {
        LedgerView {
            limits: self.limits,
            asked: self.asked@,
            total_bytes: self.total_bytes as nat,
        }
    }
}

/// Why a primary source is refused.
pub open spec fn primary_refusal(length: nat, limits: SourceLimits) -> Option<RangeReadError> {
    let zero = VolumeId { index: 0 };
    if length_error(length, limits, Some(zero)) is Some {
        length_error(length, limits, Some(zero))
    } else if limits.volumes == Some(0u32) {
        Some(
            RangeReadError {
                declared: Some(1),
                limit: Some(0),
                ..plain_range_error(RangeReadErrorKind::VolumeCountExceeded)
            },
        )
    } else if limits.volume_bytes is Some && length > limits.volume_bytes->0 {
        Some(
            RangeReadError {
                volume: Some(zero),
                declared: Some(length as u64),
                limit: limits.volume_bytes,
                ..plain_range_error(RangeReadErrorKind::VolumeBytesExceeded)
            },
        )
    } else {
        None
    }
}

impl LedgerView {
    /// How many volumes there are with one more, at most what 32 bits hold.
    pub open spec fn observed(self) -> nat {
        if self.asked.len() + 2 > u32::MAX {
            u32::MAX as nat
        } else {
            self.asked.len() + 2
        }
    }

    /// Why one more volume is refused before it is looked for.
    pub open spec fn count_refusal(self, volume: VolumeId) -> Option<RangeReadError> {
        if self.limits.volumes is Some && self.observed() > self.limits.volumes->0 {
            Some(
                RangeReadError {
                    volume: Some(volume),
                    declared: Some(self.observed() as u64),
                    limit: Some(self.limits.volumes->0 as u64),
                    ..plain_range_error(RangeReadErrorKind::VolumeCountExceeded)
                },
            )
        } else {
            None
        }
    }

    /// Why a volume of a length is refused beside a primary source.
    pub open spec fn size_refusal(self, volume: VolumeId, primary: nat, length: nat) -> Option<
        RangeReadError,
    > {
        let total = primary + self.total_bytes + length;
        if total > u64::MAX {
            Some(
                RangeReadError {
                    volume: Some(volume),
                    ..plain_range_error(RangeReadErrorKind::VolumeBytesExceeded)
                },
            )
        } else if self.limits.volume_bytes is Some && total > self.limits.volume_bytes->0 {
            Some(
                RangeReadError {
                    volume: Some(volume),
                    declared: Some(total as u64),
                    limit: self.limits.volume_bytes,
                    ..plain_range_error(RangeReadErrorKind::VolumeBytesExceeded)
                },
            )
        } else {
            None
        }
    }

    /// Why a volume that was looked for is refused. A volume that was found has a
    /// length.
    pub open spec fn refusal(self, volume: VolumeId, primary: u64, length: Option<u64>) -> Option<
        RangeReadError,
    > {
        let own = match length {
            Some(length) => length_error(length as nat, self.limits, Some(volume)),
            None => None,
        };
        if own is Some {
            own
        } else if self.count_refusal(volume) is Some {
            self.count_refusal(volume)
        } else {
            match length {
                Some(length) => self.size_refusal(volume, primary as nat, length as nat),
                None => None,
            }
        }
    }

    /// The ledger with one more volume.
    pub open spec fn with(self, volume: VolumeId, length: Option<u64>) -> LedgerView {
        LedgerView {
            asked: self.asked.push(volume.index),
            total_bytes: match length {
                Some(length) => self.total_bytes + length as nat,
                None => self.total_bytes,
            },
            ..self
        }
    }

    /// The volumes are within their budgets, and none was asked for twice.
    pub open spec fn within_budgets(self) -> bool {
        &&& self.limits.volumes matches Some(limit) ==> self.asked.len() + 1 <= limit
        &&& self.limits.volume_bytes matches Some(limit) ==> self.total_bytes <= limit
        &&& forall|i: int, j: int|
            0 <= i < j < self.asked.len() ==> #[trigger] self.asked[i] != #[trigger] self.asked[j]
    }
}

/// Volumes stay within their budgets, whatever is found. The bytes of a volume
/// that was found fit beside those of the primary source and of the others.
pub proof fn law_volumes_stay_within_budgets(
    ledger: LedgerView,
    volume: VolumeId,
    primary: u64,
    length: Option<u64>,
)
    requires
        ledger.within_budgets(),
        ledger.asked.len() + 1 < u32::MAX,
        !ledger.asked.contains(volume.index),
        ledger.refusal(volume, primary, length) is None,
    ensures
        ledger.with(volume, length).within_budgets(),
        length is Some ==> (ledger.limits.volume_bytes matches Some(limit) ==> primary
            + ledger.with(volume, length).total_bytes <= limit),
{
    let next = ledger.with(volume, length);
    assert forall|i: int, j: int| 0 <= i < j < next.asked.len() implies #[trigger] next.asked[i]
        != #[trigger] next.asked[j] by {
        assert(next.asked[i] == ledger.asked[i]);
        if j < ledger.asked.len() {
            assert(next.asked[j] == ledger.asked[j]);
        }
    }
}

impl VolumeLedger {
    /// Begins with the primary source.
    pub fn open(primary_bytes: u64, limits: SourceLimits) -> (result: Result<Self, RangeReadError>)
        ensures
            match result {
                Ok(ledger) => {
                    &&& primary_refusal(primary_bytes as nat, limits) is None
                    &&& ledger@.within_budgets()
                    &&& ledger@ == (LedgerView {
                        limits,
                        asked: Seq::empty(),
                        total_bytes: 0,
                    })
                },
                Err(error) => primary_refusal(primary_bytes as nat, limits) == Some(error),
            },
    {
        let zero = VolumeId::new(0);
        if let Err(error) = validate_source_length(primary_bytes, limits, Some(zero)) {
            return Err(error);
        }
        if let Some(limit) = limits.volumes {
            if limit == 0 {
                return Err(
                    RangeReadError::new(RangeReadErrorKind::VolumeCountExceeded).with_budget(1, 0),
                );
            }
        }
        if let Some(limit) = limits.volume_bytes {
            if primary_bytes > limit {
                return Err(
                    RangeReadError::new(RangeReadErrorKind::VolumeBytesExceeded).for_volume(
                        zero,
                    ).with_budget(primary_bytes, limit),
                );
            }
        }
        Ok(VolumeLedger { limits, asked: Vec::new(), total_bytes: 0 })
    }

    /// Where a volume stands among those that were asked for.
    pub fn find(&self, volume: VolumeId) -> (found: Option<usize>)
        ensures
            match found {
                Some(at) => at < self.asked@.len() && self.asked@[at as int] == volume.index
                    && forall|i: int| 0 <= i < at ==> self.asked@[i] != volume.index,
                None => !self.asked@.contains(volume.index),
            },
    {
        let mut i: usize = 0;
        while i < self.asked.len()
            invariant
                i <= self.asked@.len(),
                forall|j: int| 0 <= j < i ==> self.asked@[j] != volume.index,
            decreases self.asked@.len() - i,
        {
            if self.asked[i] == volume.index {
                return Some(i);
            }
            i += 1;
        }
        None
    }

    /// Checks that one more volume may be looked for.
    pub fn check_count(&self, volume: VolumeId) -> (result: Result<(), RangeReadError>)
        ensures
            match result {
                Ok(()) => self@.count_refusal(volume) is None,
                Err(error) => self@.count_refusal(volume) == Some(error),
            },
    {
        let count: usize = self.asked.len();
        let observed: u32 = if count as u64 > 0xffff_fffd {
            u32::MAX
        } else {
            count as u32 + 2
        };
        if let Some(limit) = self.limits.volumes {
            if observed > limit {
                return Err(
                    RangeReadError::new(RangeReadErrorKind::VolumeCountExceeded).for_volume(
                        volume,
                    ).with_budget(observed as u64, limit as u64),
                );
            }
        }
        Ok(())
    }

    /// Enters a volume that was looked for, with its length if it was found, and
    /// with the length of the primary source.
    pub fn enter(&mut self, volume: VolumeId, primary: u64, length: Option<u64>) -> (result: Result<
        (),
        RangeReadError,
    >)
        ensures
            match result {
                Ok(()) => old(self)@.refusal(volume, primary, length) is None && final(self)@
                    == old(self)@.with(volume, length),
                Err(error) => old(self)@.refusal(volume, primary, length) == Some(error)
                    && final(self)@ == old(self)@,
            },
    {
        if let Some(length) = length {
            if let Err(error) = validate_source_length(length, self.limits, Some(volume)) {
                return Err(error);
            }
        }
        if let Err(error) = self.check_count(volume) {
            return Err(error);
        }
        if let Some(length) = length {
            let overflow = RangeReadError::new(
                RangeReadErrorKind::VolumeBytesExceeded,
            ).for_volume(volume);
            let held: u64 = match primary.checked_add(self.total_bytes) {
                Some(held) => held,
                None => {
                    return Err(overflow);
                },
            };
            let total: u64 = match held.checked_add(length) {
                Some(total) => total,
                None => {
                    return Err(overflow);
                },
            };
            if let Some(limit) = self.limits.volume_bytes {
                if total > limit {
                    return Err(overflow.with_budget(total, limit));
                }
            }
            self.total_bytes = self.total_bytes + length;
        }
        self.asked.push(volume.index);
        Ok(())
    }
}

/// What was asked of a resolver for a volume, and what came of it: its reply, the
/// length that a source that was found reports, and that of the primary source.
pub open spec fn answers_so<R: VolumeResolver>(
    resolver: &R,
    primary: &R::Source,
    volume: VolumeId,
    reply: Result<Option<R::Source>, RangeFault>,
    primary_bytes: u64,
    length: Option<u64>,
) -> bool {
    &&& call_ensures(R::resolve, (resolver, volume), reply)
    &&& match reply {
        Ok(Some(source)) => length matches Some(length) && reports_length(&source, length)
            && reports_length(primary, primary_bytes),
        _ => length is None,
    }
}

/// The volumes of an archive, found as they are asked for.
pub struct VolumeSet<R: VolumeResolver> {
    pub primary: R::Source,
    pub resolver: R,
    pub ledger: VolumeLedger,
    /// What was found, for each volume that was asked for.
    pub sources: Vec<Option<R::Source>>,
}

impl<R: VolumeResolver> VolumeSet<R> {
    /// Each volume that was asked for has its source.
    pub open spec fn wf(&self) -> bool {
        &&& self.sources@.len() == self.ledger.asked@.len()
        &&& self.ledger.asked@.len() < u32::MAX ==> self.ledger@.within_budgets()
        &&& !self.ledger.asked@.contains(0u32)
    }

    /// The two sets hold the same.
    pub open spec fn is_same(&self, other: &Self) -> bool {
        &&& self.primary == other.primary
        &&& self.resolver == other.resolver
        &&& self.ledger@ == other.ledger@
        &&& self.sources@ == other.sources@
    }

    /// A volume was asked for before, and this is what was found.
    pub open spec fn keeps(&self, volume: VolumeId, found: Option<R::Source>) -> bool {
        exists|at: int|
            0 <= at < self.sources@.len() && #[trigger] self.ledger.asked@[at] == volume.index
                && self.sources@[at] == found
    }

    /// What asking for a volume comes to: the primary source for the volume zero;
    /// what was kept for a volume that was asked for before; a refusal, before
    /// anything is asked, of too many volumes; else what the resolver replies. A
    /// failure keeps nothing, and a volume that exceeds a budget is a failure.
    pub open spec fn comes_to(
        &self,
        after: &Self,
        volume: VolumeId,
        result: Result<Option<R::Source>, RangeFault>,
    ) -> bool {
        if volume.index == 0 {
            after.is_same(self) && result == Ok::<Option<R::Source>, RangeFault>(
                Some(self.primary),
            )
        } else if self.ledger.asked@.contains(volume.index) {
            after.is_same(self) && result is Ok && self.keeps(volume, result->Ok_0)
        } else if let Some(error) = self.ledger@.count_refusal(volume) {
            after.is_same(self) && result == Err::<Option<R::Source>, RangeFault>(
                RangeFault::Range(error),
            )
        } else {
            exists|
                reply: Result<Option<R::Source>, RangeFault>,
                primary_bytes: u64,
                length: Option<u64>,
            |
                #[trigger] answers_so(
                    &self.resolver,
                    &self.primary,
                    volume,
                    reply,
                    primary_bytes,
                    length,
                ) && self.takes(after, volume, reply, primary_bytes, length, result)
        }
    }

    /// What is made of the reply of the resolver.
    pub open spec fn takes(
        &self,
        after: &Self,
        volume: VolumeId,
        reply: Result<Option<R::Source>, RangeFault>,
        primary_bytes: u64,
        length: Option<u64>,
        result: Result<Option<R::Source>, RangeFault>,
    ) -> bool {
        match reply {
            Err(fault) => result == reply && after.is_same(self),
            Ok(found) => match self.ledger@.refusal(volume, primary_bytes, length) {
                Some(error) => result == Err::<Option<R::Source>, RangeFault>(
                    RangeFault::Range(error),
                ) && after.is_same(self),
                None => {
                    &&& result == reply
                    &&& after.primary == self.primary
                    &&& after.resolver == self.resolver
                    &&& after.ledger@ == self.ledger@.with(volume, length)
                    &&& after.sources@ == self.sources@.push(found)
                },
            },
        }
    }

    /// A set with its primary source.
    pub fn new(primary: R::Source, resolver: R, limits: SourceLimits) -> (result: Result<
        Self,
        RangeFault,
    >)
        ensures
            result matches Ok(set) ==> {
                &&& set.wf()
                &&& set.primary == primary
                &&& set.resolver == resolver
                &&& set.ledger.limits == limits
                &&& set.ledger.total_bytes == 0
                &&& set.sources@.len() == 0
            },
            exists|length: u64| #[trigger]
                reports_length(&primary, length) && match primary_refusal(length as nat, limits) {
                    Some(error) => result == Err::<Self, RangeFault>(RangeFault::Range(error)),
                    None => result is Ok,
                },
            limits.source_bytes is None && limits.volumes is None && limits.volume_bytes is None
                ==> result is Ok,
            primary.is_faithful() ==> match result {
                Ok(set) => primary_refusal(primary.content().len(), limits) is None,
                Err(fault) => primary_refusal(primary.content().len(), limits) is Some && fault
                    == RangeFault::Range(primary_refusal(primary.content().len(), limits)->0),
            },
    {
        let length: u64 = primary.len();
        proof {
            assert(reports_length(&primary, length));
        }
        match VolumeLedger::open(length, limits) {
            Ok(ledger) => Ok(VolumeSet { primary, resolver, ledger, sources: Vec::new() }),
            Err(error) => Err(RangeFault::Range(error)),
        }
    }

    /// The primary source.
    pub fn primary(&self) -> (source: &R::Source)
        ensures
            *source == self.primary,
    {
        &self.primary
    }

    /// Looks for a volume, unless it was asked for before. The volume stands at
    /// its place in `sources` then; the primary source, for which the result is
    /// `None`, stands alone.
    pub fn place(&mut self, volume: VolumeId) -> (result: Result<Option<usize>, RangeFault>)
        requires
            old(self).wf(),
        ensures
            final(self).wf(),
            match result {
                Ok(None) => volume.index == 0 && old(self).comes_to(
                    final(self),
                    volume,
                    Ok(Some(old(self).primary)),
                ),
                Ok(Some(at)) => {
                    &&& volume.index != 0
                    &&& at < final(self).sources@.len()
                    &&& final(self).ledger.asked@[at as int] == volume.index
                    &&& old(self).comes_to(
                        final(self),
                        volume,
                        Ok(final(self).sources@[at as int]),
                    )
                },
                Err(fault) => {
                    &&& volume.index != 0
                    &&& !old(self).ledger.asked@.contains(volume.index)
                    &&& old(self).comes_to(final(self), volume, Err(fault))
                },
            },
    {
        if volume.index == 0 {
            return Ok(None);
        }
        if let Some(at) = self.ledger.find(volume) {
            proof {
                assert(self.keeps(volume, self.sources@[at as int]));
            }
            return Ok(Some(at));
        }
        if let Err(error) = self.ledger.check_count(volume) {
            return Err(RangeFault::Range(error));
        }
        let reply = self.resolver.resolve(volume);
        let ghost given = reply;
        let found = match reply {
            Ok(found) => found,
            Err(fault) => {
                proof {
                    assert(answers_so(
                        &old(self).resolver,
                        &old(self).primary,
                        volume,
                        given,
                        0u64,
                        None,
                    ));
                }
                return Err(fault);
            },
        };
        let mut primary_bytes: u64 = 0;
        let length = match &found {
            Some(source) => {
                primary_bytes = self.primary.len();
                Some(source.len())
            },
            None => None,
        };
        proof {
            assert(answers_so(
                &old(self).resolver,
                &old(self).primary,
                volume,
                given,
                primary_bytes,
                length,
            ));
        }
        let ghost before = self.ledger@;
        if let Err(error) = self.ledger.enter(volume, primary_bytes, length) {
            proof {
                assert(old(self).takes(
                    self,
                    volume,
                    given,
                    primary_bytes,
                    length,
                    Err(RangeFault::Range(error)),
                ));
            }
            return Err(RangeFault::Range(error));
        }
        proof {
            if before.asked.len() + 1 < u32::MAX {
                law_volumes_stay_within_budgets(before, volume, primary_bytes, length);
            }
            assert(!self.ledger.asked@.contains(0u32)) by {
                assert forall|i: int| 0 <= i < self.ledger.asked@.len() implies #[trigger]
                    self.ledger.asked@[i] != 0 by {
                    if i < before.asked.len() {
                        assert(before.asked[i] == self.ledger.asked@[i]);
                        assert(before.asked.contains(before.asked[i]));
                    }
                }
            }
        }
        let at: usize = self.sources.len();
        let ghost sources = self.sources@;
        self.sources.push(found);
        proof {
            assert(self.sources@ =~= sources.push(found));
            assert(old(self).takes(self, volume, given, primary_bytes, length, Ok(found)));
        }
        Ok(Some(at))
    }

    /// Looks for a volume, unless it was asked for before. `None` if there is no
    /// such volume.
    pub fn resolve(&mut self, volume: VolumeId) -> (result: Result<Option<&R::Source>, RangeFault>)
        requires
            old(self).wf(),
        ensures
            final(self).wf(),
            old(self).comes_to(
                final(self),
                volume,
                match result {
                    Ok(Some(source)) => Ok(Some(*source)),
                    Ok(None) => Ok(None),
                    Err(fault) => Err(fault),
                },
            ),
            result is Ok && volume.index != 0 ==> final(self).keeps(
                volume,
                match result->Ok_0 {
                    Some(source) => Some(*source),
                    None => None,
                },
            ),
    {
        let place = match self.place(volume) {
            Ok(place) => place,
            Err(fault) => {
                return Err(fault);
            },
        };
        match place {
            None => Ok(Some(&self.primary)),
            Some(at) => match &self.sources[at] {
                Some(source) => Ok(Some(source)),
                None => Ok(None),
            },
        }
    }

    /// Looks for a volume that must be there.
    pub fn resolve_required(&mut self, volume: VolumeId) -> (result: Result<
        &R::Source,
        RangeFault,
    >)
        requires
            old(self).wf(),
        ensures
            final(self).wf(),
            exists|found: Result<Option<R::Source>, RangeFault>| #[trigger]
                old(self).comes_to(final(self), volume, found) && match found {
                    Ok(Some(source)) => result matches Ok(given) && *given == source,
                    Ok(None) => result matches Err(fault) && fault == missing(volume),
                    Err(failure) => result matches Err(fault) && fault == failure,
                },
            volume.index == 0 ==> (result matches Ok(given) && *given == old(self).primary),
    {
        let place = match self.place(volume) {
            Ok(place) => place,
            Err(fault) => {
                return Err(fault);
            },
        };
        match place {
            None => Ok(&self.primary),
            Some(at) => match &self.sources[at] {
                Some(source) => Ok(source),
                None => Err(
                    RangeFault::Range(
                        RangeReadError::new(RangeReadErrorKind::MissingVolume).for_volume(volume),
                    ),
                ),
            },
        }
    }
}

/// The failure of a volume that is not there.
pub open spec fn missing(volume: VolumeId) -> RangeFault {
    RangeFault::Range(
        RangeReadError {
            volume: Some(volume),
            ..plain_range_error(RangeReadErrorKind::MissingVolume)
        },
    )
}

/// A volume that was asked for is not looked for again, and the answer stays.
pub proof fn law_answers_are_kept<R: VolumeResolver>(
    set: VolumeSet<R>,
    later: VolumeSet<R>,
    volume: VolumeId,
    first: Option<R::Source>,
    second: Result<Option<R::Source>, RangeFault>,
)
    requires
        set.wf(),
        set.ledger.asked@.len() < u32::MAX,
        volume.index != 0,
        set.keeps(volume, first),
        set.comes_to(&later, volume, second),
    ensures
        second == Ok::<Option<R::Source>, RangeFault>(first),
        later.is_same(&set),
{
    let at = choose|at: int|
        0 <= at < set.sources@.len() && #[trigger] set.ledger.asked@[at] == volume.index
            && set.sources@[at] == first;
    assert(set.ledger.asked@.contains(volume.index));
    let found = second->Ok_0;
    let other = choose|at: int|
        0 <= at < set.sources@.len() && #[trigger] set.ledger.asked@[at] == volume.index
            && set.sources@[at] == found;
    assert(set.ledger@.asked[at] == set.ledger@.asked[other]);
    assert(at == other) by {
        if at < other {
            assert(set.ledger@.asked[at] != set.ledger@.asked[other]);
        } else if other < at {
            assert(set.ledger@.asked[other] != set.ledger@.asked[at]);
        }
    }
}

} // verus!
