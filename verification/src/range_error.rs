//! Failures at the boundary of a random-access source, and its budgets.

use vstd::prelude::*;
use crate::bytes::{same_bytes, to_vec};
use crate::io_fault::{IoFault, IoKind};
use crate::text::{decimal, decimal_digits};

verus! {

/// The longest identity of a source.
pub const MAX_SOURCE_IDENTITY_BYTES: usize = 1024;

/// The identity of one version of a source.
#[derive(Clone, Debug)]
pub struct SourceIdentity {
    pub bytes: Vec<u8>,
}

impl View for SourceIdentity {
    type V = Seq<u8>;

    open spec fn view(&self) -> Seq<u8> {
        self.bytes@
    }
}

/// Why bytes are no identity.
#[derive(Clone, Copy, Debug, PartialEq, Eq, Structural)]
pub enum SourceIdentityError {
    /// There are none.
    Empty,
    /// There are too many.
    TooLong { length: usize, maximum: usize },
}

impl SourceIdentityError {
    /// The error in words.
    pub fn message(self) -> (text: String)
        ensures
            text@ == match self {
                SourceIdentityError::Empty => "source identity must not be empty"@,
                SourceIdentityError::TooLong { length, maximum } => "source identity is "@
                    + decimal_digits(length as nat) + " bytes; maximum is "@ + decimal_digits(
                    maximum as nat,
                ),
            },
    {
        match self {
            SourceIdentityError::Empty => "source identity must not be empty".to_string(),
            SourceIdentityError::TooLong { length, maximum } => {
                let mut text = "source identity is ".to_string();
                text.append(decimal(length as u64).as_str());
                text.append(" bytes; maximum is ");
                text.append(decimal(maximum as u64).as_str());
                text
            },
        }
    }
}

impl SourceIdentity {
    /// Takes bytes as an identity: some, but not too many.
    pub fn try_new(identity: Vec<u8>) -> (result: Result<Self, SourceIdentityError>)
        ensures
            match result {
                Ok(own) => 0 < identity@.len() <= MAX_SOURCE_IDENTITY_BYTES && own@ == identity@,
                Err(SourceIdentityError::Empty) => identity@.len() == 0,
                Err(SourceIdentityError::TooLong { length, maximum }) => {
                    &&& length == identity@.len()
                    &&& maximum == MAX_SOURCE_IDENTITY_BYTES
                    &&& length > maximum
                },
            },
    {
        let length: usize = identity.len();
        if length == 0 {
            Err(SourceIdentityError::Empty)
        } else if length > MAX_SOURCE_IDENTITY_BYTES {
            Err(SourceIdentityError::TooLong { length, maximum: MAX_SOURCE_IDENTITY_BYTES })
        } else {
            Ok(SourceIdentity { bytes: identity })
        }
    }

    /// The bytes.
    pub fn as_bytes(&self) -> (bytes: &[u8])
        ensures
            bytes@ == self@,
    {
        self.bytes.as_slice()
    }

    /// The same identity again.
    pub fn duplicate(&self) -> (copy: Self)
        ensures
            copy@ == self@,
    {
        SourceIdentity { bytes: to_vec(self.bytes.as_slice()) }
    }

    /// Whether two identities are the same.
    pub fn same(&self, other: &SourceIdentity) -> (same: bool)
        ensures
            same == (self@ == other@),
    {
        same_bytes(self.bytes.as_slice(), other.bytes.as_slice())
    }
}

/// The number of a volume; that of the primary source is zero.
#[derive(Clone, Copy, Debug, PartialEq, Eq, PartialOrd, Ord, Hash, Structural)]
pub struct VolumeId {
    pub index: u32,
}

impl VolumeId {
    /// The volume with a number.
    pub fn new(index: u32) -> (volume: Self)
        ensures
            volume.index == index,
    {
        VolumeId { index }
    }

    /// The number.
    pub fn get(self) -> (index: u32)
        ensures
            index == self.index,
    {
        self.index
    }
}

/// What went wrong at the boundary of a source.
#[derive(Clone, Copy, Debug, PartialEq, Eq, Structural)]
pub enum RangeReadErrorKind {
    /// The identity of the source has changed.
    IdentityChanged,
    /// The length of the source has changed.
    LengthChanged,
    /// A place is outside the source.
    OffsetOutOfBounds,
    /// A place does not fit its number.
    OffsetOverflow,
    /// The source returned nothing too early.
    NoProgress,
    /// The source ended before its declared length.
    ShortRead,
    /// The source claims more bytes than there is room for.
    InvalidReadCount,
    /// The accounts do not fit their numbers.
    MetricsOverflow,
    /// A request is over the cache budget.
    CacheBudgetExceeded,
    /// A source is over its size budget.
    SourceSizeExceeded,
    /// There are too many volumes.
    VolumeCountExceeded,
    /// The volumes are over their size budget.
    VolumeBytesExceeded,
    /// A required volume is missing.
    MissingVolume,
    /// The source can no longer be used.
    SourceUnavailable,
}

impl RangeReadErrorKind {
    /// The kind in words.
    pub open spec fn words(self) -> Seq<char> {
        match self {
            RangeReadErrorKind::IdentityChanged => "random-access source identity changed"@,
            RangeReadErrorKind::LengthChanged => "random-access source length changed"@,
            RangeReadErrorKind::OffsetOutOfBounds => "random-access source offset is out of bounds"@,
            RangeReadErrorKind::OffsetOverflow => "random-access source offset arithmetic overflowed"@,
            RangeReadErrorKind::NoProgress => "random-access source made no progress"@,
            RangeReadErrorKind::ShortRead => "random-access source ended before its declared length"@,
            RangeReadErrorKind::InvalidReadCount => "random-access source returned an invalid byte count"@,
            RangeReadErrorKind::MetricsOverflow => "random-access source metrics overflowed"@,
            RangeReadErrorKind::CacheBudgetExceeded => "random-access request exceeds the configured cache budget"@,
            RangeReadErrorKind::SourceSizeExceeded => "random-access source exceeds the configured size budget"@,
            RangeReadErrorKind::VolumeCountExceeded => "multi-volume source exceeds the configured volume-count budget"@,
            RangeReadErrorKind::VolumeBytesExceeded => "multi-volume source exceeds the configured total-byte budget"@,
            RangeReadErrorKind::MissingVolume => "required archive volume is unavailable"@,
            RangeReadErrorKind::SourceUnavailable => "random-access source is no longer available"@,
        }
    }

    /// The kind of I/O failure that it is.
    pub open spec fn io(self) -> IoKind {
        match self {
            RangeReadErrorKind::OffsetOutOfBounds
            | RangeReadErrorKind::OffsetOverflow => IoKind::InvalidInput,
            RangeReadErrorKind::ShortRead
            | RangeReadErrorKind::NoProgress => IoKind::UnexpectedEof,
            RangeReadErrorKind::IdentityChanged
            | RangeReadErrorKind::LengthChanged => IoKind::InvalidData,
            RangeReadErrorKind::MissingVolume => IoKind::NotFound,
            RangeReadErrorKind::SourceSizeExceeded
            | RangeReadErrorKind::VolumeCountExceeded
            | RangeReadErrorKind::VolumeBytesExceeded => IoKind::FileTooLarge,
            RangeReadErrorKind::InvalidReadCount
            | RangeReadErrorKind::MetricsOverflow
            | RangeReadErrorKind::CacheBudgetExceeded
            | RangeReadErrorKind::SourceUnavailable => IoKind::Other,
        }
    }

    /// The kind in words.
    pub fn label(self) -> (label: &'static str)
        ensures
            label@ == self.words(),
    {
        match self {
            RangeReadErrorKind::IdentityChanged => "random-access source identity changed",
            RangeReadErrorKind::LengthChanged => "random-access source length changed",
            RangeReadErrorKind::OffsetOutOfBounds => "random-access source offset is out of bounds",
            RangeReadErrorKind::OffsetOverflow => "random-access source offset arithmetic overflowed",
            RangeReadErrorKind::NoProgress => "random-access source made no progress",
            RangeReadErrorKind::ShortRead => "random-access source ended before its declared length",
            RangeReadErrorKind::InvalidReadCount => "random-access source returned an invalid byte count",
            RangeReadErrorKind::MetricsOverflow => "random-access source metrics overflowed",
            RangeReadErrorKind::CacheBudgetExceeded => "random-access request exceeds the configured cache budget",
            RangeReadErrorKind::SourceSizeExceeded => "random-access source exceeds the configured size budget",
            RangeReadErrorKind::VolumeCountExceeded => "multi-volume source exceeds the configured volume-count budget",
            RangeReadErrorKind::VolumeBytesExceeded => "multi-volume source exceeds the configured total-byte budget",
            RangeReadErrorKind::MissingVolume => "required archive volume is unavailable",
            RangeReadErrorKind::SourceUnavailable => "random-access source is no longer available",
        }
    }

    /// The kind of I/O failure that it is.
    pub fn io_kind(self) -> (kind: IoKind)
        ensures
            kind == self.io(),
    {
        match self {
            RangeReadErrorKind::OffsetOutOfBounds
            | RangeReadErrorKind::OffsetOverflow => IoKind::InvalidInput,
            RangeReadErrorKind::ShortRead
            | RangeReadErrorKind::NoProgress => IoKind::UnexpectedEof,
            RangeReadErrorKind::IdentityChanged
            | RangeReadErrorKind::LengthChanged => IoKind::InvalidData,
            RangeReadErrorKind::MissingVolume => IoKind::NotFound,
            RangeReadErrorKind::SourceSizeExceeded
            | RangeReadErrorKind::VolumeCountExceeded
            | RangeReadErrorKind::VolumeBytesExceeded => IoKind::FileTooLarge,
            RangeReadErrorKind::InvalidReadCount
            | RangeReadErrorKind::MetricsOverflow
            | RangeReadErrorKind::CacheBudgetExceeded
            | RangeReadErrorKind::SourceUnavailable => IoKind::Other,
        }
    }
}

/// A failure at the boundary of a source.
#[derive(Clone, Copy, Debug, PartialEq, Eq, Structural)]
pub struct RangeReadError {
    pub kind: RangeReadErrorKind,
    pub offset: Option<u64>,
    pub requested: Option<u64>,
    pub volume: Option<VolumeId>,
    pub declared: Option<u64>,
    pub limit: Option<u64>,
}

/// A failure without more about it.
pub open spec fn plain_range_error(kind: RangeReadErrorKind) -> RangeReadError {
    RangeReadError {
        kind,
        offset: None,
        requested: None,
        volume: None,
        declared: None,
        limit: None,
    }
}

/// A failure of a range.
pub open spec fn range_error_at(kind: RangeReadErrorKind, offset: nat, requested: nat) -> RangeReadError {
    RangeReadError {
        offset: Some(offset as u64),
        requested: Some(requested as u64),
        ..plain_range_error(kind)
    }
}

/// The volume of a failure in words.
pub open spec fn volume_words(error: RangeReadError) -> Seq<char> {
    match error.volume {
        Some(volume) => " (volume "@ + decimal_digits(volume.index as nat) + ")"@,
        None => Seq::empty(),
    }
}

/// The range of a failure in words.
pub open spec fn range_words(error: RangeReadError) -> Seq<char> {
    match (error.offset, error.requested) {
        (Some(offset), Some(requested)) => " (offset "@ + decimal_digits(offset as nat)
            + ", requested "@ + decimal_digits(requested as nat) + " bytes)"@,
        _ => Seq::empty(),
    }
}

/// The budget of a failure in words.
pub open spec fn budget_words(error: RangeReadError) -> Seq<char> {
    match (error.declared, error.limit) {
        (Some(declared), Some(limit)) => " (observed "@ + decimal_digits(declared as nat)
            + ", limit "@ + decimal_digits(limit as nat) + ")"@,
        _ => Seq::empty(),
    }
}

fn pair_text(before: &str, first: u64, between: &str, second: u64, after: &str) -> (text: String)
    ensures
        text@ == before@ + decimal_digits(first as nat) + between@ + decimal_digits(second as nat)
            + after@,
{
    let mut text = before.to_string();
    text.append(decimal(first).as_str());
    text.append(between);
    text.append(decimal(second).as_str());
    text.append(after);
    text
}

impl RangeReadError {
    /// A failure without more about it.
    pub fn new(kind: RangeReadErrorKind) -> (error: Self)
        ensures
            error == plain_range_error(kind),
    {
        RangeReadError {
            kind,
            offset: None,
            requested: None,
            volume: None,
            declared: None,
            limit: None,
        }
    }

    /// The failure of a range.
    pub fn at(self, offset: u64, requested: u64) -> (error: Self)
        ensures
            error == (RangeReadError { offset: Some(offset), requested: Some(requested), ..self }),
    {
        RangeReadError { offset: Some(offset), requested: Some(requested), ..self }
    }

    /// The failure of a volume.
    pub fn for_volume(self, volume: VolumeId) -> (error: Self)
        ensures
            error == (RangeReadError { volume: Some(volume), ..self }),
    {
        RangeReadError { volume: Some(volume), ..self }
    }

    /// The failure of a budget.
    pub fn with_budget(self, declared: u64, limit: u64) -> (error: Self)
        ensures
            error == (RangeReadError { declared: Some(declared), limit: Some(limit), ..self }),
    {
        RangeReadError { declared: Some(declared), limit: Some(limit), ..self }
    }

    /// What went wrong.
    pub fn kind(self) -> (kind: RangeReadErrorKind)
        ensures
            kind == self.kind,
    {
        self.kind
    }

    /// The place and the length of the range, if it was about one.
    pub fn range(self) -> (range: Option<(u64, u64)>)
        ensures
            range == match (self.offset, self.requested) {
                (Some(offset), Some(requested)) => Some((offset, requested)),
                _ => None,
            },
    {
        match (self.offset, self.requested) {
            (Some(offset), Some(requested)) => Some((offset, requested)),
            _ => None,
        }
    }

    /// The volume, if it was about one.
    pub fn volume(self) -> (volume: Option<VolumeId>)
        ensures
            volume == self.volume,
    {
        self.volume
    }

    /// What was observed and what is allowed, if it was about a budget.
    pub fn budget(self) -> (budget: Option<(u64, u64)>)
        ensures
            budget == match (self.declared, self.limit) {
                (Some(declared), Some(limit)) => Some((declared, limit)),
                _ => None,
            },
    {
        match (self.declared, self.limit) {
            (Some(declared), Some(limit)) => Some((declared, limit)),
            _ => None,
        }
    }

    fn volume_text(self) -> (text: String)
        ensures
            text@ == volume_words(self),
    {
        match self.volume {
            Some(volume) => {
                let mut text = " (volume ".to_string();
                text.append(decimal(volume.index as u64).as_str());
                text.append(")");
                text
            },
            None => {
                let text = String::new();
                proof {
                    assert(text@ =~= Seq::<char>::empty());
                }
                text
            },
        }
    }

    fn range_text(self) -> (text: String)
        ensures
            text@ == range_words(self),
    {
        match self.range() {
            Some((offset, requested)) => pair_text(
                " (offset ",
                offset,
                ", requested ",
                requested,
                " bytes)",
            ),
            None => {
                let text = String::new();
                proof {
                    assert(text@ =~= Seq::<char>::empty());
                }
                text
            },
        }
    }

    fn budget_text(self) -> (text: String)
        ensures
            text@ == budget_words(self),
    {
        match self.budget() {
            Some((declared, limit)) => pair_text(" (observed ", declared, ", limit ", limit, ")"),
            None => {
                let text = String::new();
                proof {
                    assert(text@ =~= Seq::<char>::empty());
                }
                text
            },
        }
    }

    /// The failure in words.
    pub fn message(self) -> (text: String)
        ensures
            text@ == self.kind.words() + volume_words(self) + range_words(self) + budget_words(
                self,
            ),
    {
        let mut text = self.kind.label().to_string();
        text.append(self.volume_text().as_str());
        text.append(self.range_text().as_str());
        text.append(self.budget_text().as_str());
        text
    }
}

/// Why a source could not be read.
#[derive(Debug)]
pub enum RangeFault {
    /// The boundary was broken.
    Range(RangeReadError),
    /// The source itself has failed.
    Io(IoFault),
}

impl RangeFault {
    /// The kind of I/O failure that it is.
    pub open spec fn io(self) -> IoKind {
        match self {
            RangeFault::Range(error) => error.kind.io(),
            RangeFault::Io(fault) => fault.kind,
        }
    }

    /// The kind of I/O failure that it is.
    pub fn io_kind(&self) -> (kind: IoKind)
        ensures
            kind == self.io(),
    {
        match self {
            RangeFault::Range(error) => error.kind.io_kind(),
            RangeFault::Io(fault) => fault.kind,
        }
    }
}

/// What a reader asked of its source.
#[derive(Clone, Copy, Debug, PartialEq, Eq, Structural)]
pub struct RangeMetrics {
    pub requests: u64,
    pub transferred_bytes: u64,
}

impl Default for RangeMetrics {
    fn default() -> (metrics: Self)
        ensures
            metrics == (RangeMetrics { requests: 0, transferred_bytes: 0 }),
    {
        RangeMetrics::new()
    }
}

impl RangeMetrics {
    /// Nothing was asked.
    pub fn new() -> (metrics: Self)
        ensures
            metrics == (RangeMetrics { requests: 0, transferred_bytes: 0 }),
    {
        RangeMetrics { requests: 0, transferred_bytes: 0 }
    }

    /// The number of requests.
    pub fn requests(self) -> (count: u64)
        ensures
            count == self.requests,
    {
        self.requests
    }

    /// The number of bytes that came back.
    pub fn transferred_bytes(self) -> (count: u64)
        ensures
            count == self.transferred_bytes,
    {
        self.transferred_bytes
    }

    /// Counts a request.
    pub fn record_request(&mut self) -> (result: Result<(), RangeReadError>)
        ensures
            match result {
                Ok(()) => *final(self) == (RangeMetrics {
                    requests: (old(self).requests + 1) as u64,
                    ..*old(self)
                }) && old(self).requests < u64::MAX,
                Err(error) => {
                    &&& old(self).requests == u64::MAX
                    &&& *final(self) == *old(self)
                    &&& error == plain_range_error(RangeReadErrorKind::MetricsOverflow)
                },
            },
    {
        match self.requests.checked_add(1) {
            Some(requests) => {
                self.requests = requests;
                Ok(())
            },
            None => Err(RangeReadError::new(RangeReadErrorKind::MetricsOverflow)),
        }
    }

    /// Counts bytes.
    pub fn record_bytes(&mut self, bytes: usize) -> (result: Result<(), RangeReadError>)
        ensures
            match result {
                Ok(()) => *final(self) == (RangeMetrics {
                    transferred_bytes: (old(self).transferred_bytes + bytes) as u64,
                    ..*old(self)
                }) && old(self).transferred_bytes + bytes <= u64::MAX,
                Err(error) => {
                    &&& old(self).transferred_bytes + bytes > u64::MAX
                    &&& *final(self) == *old(self)
                    &&& error == plain_range_error(RangeReadErrorKind::MetricsOverflow)
                },
            },
    {
        match self.transferred_bytes.checked_add(bytes as u64) {
            Some(transferred) => {
                self.transferred_bytes = transferred;
                Ok(())
            },
            None => Err(RangeReadError::new(RangeReadErrorKind::MetricsOverflow)),
        }
    }
}

/// Budgets for sources and volumes. `None` removes the budget it stands for.
#[derive(Clone, Copy, Debug, PartialEq, Eq, Structural)]
pub struct SourceLimits {
    pub source_bytes: Option<u64>,
    pub volumes: Option<u32>,
    pub volume_bytes: Option<u64>,
}

impl Default for SourceLimits {
    fn default() -> (limits: Self)
        ensures
            limits == (SourceLimits {
                source_bytes: Some(68_719_476_736),
                volumes: Some(256),
                volume_bytes: Some(274_877_906_944),
            }),
    {
        SourceLimits::safe()
    }
}

impl SourceLimits {
    /// 64 GiB for one source, 256 volumes, 256 GiB for all of them.
    pub fn safe() -> (limits: Self)
        ensures
            limits == (SourceLimits {
                source_bytes: Some(68_719_476_736),
                volumes: Some(256),
                volume_bytes: Some(274_877_906_944),
            }),
    {
        SourceLimits {
            source_bytes: Some(68_719_476_736),
            volumes: Some(256),
            volume_bytes: Some(274_877_906_944),
        }
    }

    /// No budget.
    pub fn unlimited() -> (limits: Self)
        ensures
            limits == (SourceLimits { source_bytes: None, volumes: None, volume_bytes: None }),
    {
        SourceLimits { source_bytes: None, volumes: None, volume_bytes: None }
    }

    /// The budget for one source.
    pub fn source_bytes(self) -> (limit: Option<u64>)
        ensures
            limit == self.source_bytes,
    {
        self.source_bytes
    }

    /// The number of volumes, the primary source among them.
    pub fn volumes(self) -> (limit: Option<u32>)
        ensures
            limit == self.volumes,
    {
        self.volumes
    }

    /// The budget for all volumes.
    pub fn volume_bytes(self) -> (limit: Option<u64>)
        ensures
            limit == self.volume_bytes,
    {
        self.volume_bytes
    }

    /// These budgets with another one for one source.
    pub fn with_source_bytes(self, value: Option<u64>) -> (limits: Self)
        ensures
            limits == (SourceLimits { source_bytes: value, ..self }),
    {
        SourceLimits { source_bytes: value, ..self }
    }

    /// These budgets with another number of volumes.
    pub fn with_volumes(self, value: Option<u32>) -> (limits: Self)
        ensures
            limits == (SourceLimits { volumes: value, ..self }),
    {
        SourceLimits { volumes: value, ..self }
    }

    /// These budgets with another one for all volumes.
    pub fn with_volume_bytes(self, value: Option<u64>) -> (limits: Self)
        ensures
            limits == (SourceLimits { volume_bytes: value, ..self }),
    {
        SourceLimits { volume_bytes: value, ..self }
    }
}

/// A source is over its budget.
pub open spec fn length_error(length: nat, limits: SourceLimits, volume: Option<VolumeId>) -> Option<
    RangeReadError,
> {
    match limits.source_bytes {
        Some(limit) => if length <= limit {
            None
        } else {
            Some(
                RangeReadError {
                    declared: Some(length as u64),
                    limit: Some(limit),
                    volume,
                    ..plain_range_error(RangeReadErrorKind::SourceSizeExceeded)
                },
            )
        },
        None => None,
    }
}

/// Checks the length of a source.
pub fn validate_source_length(
    length: u64,
    limits: SourceLimits,
    volume: Option<VolumeId>,
) -> (result: Result<(), RangeReadError>)
    ensures
        match result {
            Ok(()) => length_error(length as nat, limits, volume) is None,
            Err(error) => length_error(length as nat, limits, volume) == Some(error),
        },
{
    let limit: u64 = match limits.source_bytes {
        Some(limit) => limit,
        None => {
            return Ok(());
        },
    };
    if length <= limit {
        return Ok(());
    }
    let error = RangeReadError::new(RangeReadErrorKind::SourceSizeExceeded).with_budget(
        length,
        limit,
    );
    match volume {
        Some(volume) => Err(error.for_volume(volume)),
        None => Err(error),
    }
}

} // verus!
