use libarchive_oxide::io_fault::{IoFault, IoKind};
use libarchive_oxide::limits::Limits;
use libarchive_oxide::range_error::{
    RangeFault, RangeMetrics, RangeReadError, RangeReadErrorKind, SourceIdentity,
    SourceIdentityError, SourceLimits, VolumeId,
};
use libarchive_oxide::range_source::{
    check_range, find_target, judge_read, judge_reply, plan_fill, read_exact_at, MemoryReadAt,
    RangeReader, ReadAt, ReadOutcome, SeekTarget,
};
use libarchive_oxide::secret::SecretBytes;
use libarchive_oxide::volumes::{VolumeLedger, VolumeResolver, VolumeSet};

fn identity(text: &[u8]) -> SourceIdentity {
    SourceIdentity::try_new(text.to_vec()).ok().unwrap()
}

fn memory(bytes: &[u8]) -> MemoryReadAt {
    MemoryReadAt::new(bytes.to_vec(), identity(b"id"))
}

fn range_error(fault: RangeFault) -> RangeReadError {
    match fault {
        RangeFault::Range(error) => error,
        RangeFault::Io(_) => panic!("not a range error"),
    }
}

struct Volumes;

impl VolumeResolver for Volumes {
    type Source = MemoryReadAt;

    fn resolve(&self, volume: VolumeId) -> Result<Option<MemoryReadAt>, RangeFault> {
        if volume.get() < 4 {
            Ok(Some(memory(&vec![volume.get() as u8; 10])))
        } else {
            Ok(None)
        }
    }
}

#[test]
fn identities_have_a_bounded_length() {
    assert!(matches!(SourceIdentity::try_new(Vec::new()), Err(SourceIdentityError::Empty)));
    let error = SourceIdentity::try_new(vec![1; 1025]).err().unwrap();
    assert_eq!(error.message(), "source identity is 1025 bytes; maximum is 1024");
    assert_eq!(identity(b"ab").as_bytes(), b"ab");
    assert!(identity(b"ab").same(&identity(b"ab").duplicate()));
    assert!(!identity(b"ab").same(&identity(b"ac")));
}

#[test]
fn errors_describe_themselves() {
    let error = RangeReadError::new(RangeReadErrorKind::ShortRead).at(7, 3).for_volume(VolumeId::new(2));
    assert_eq!(error.range(), Some((7, 3)));
    assert_eq!(error.volume().unwrap().get(), 2);
    assert_eq!(
        error.message(),
        "random-access source ended before its declared length (volume 2) (offset 7, requested 3 bytes)"
    );
    let error = RangeReadError::new(RangeReadErrorKind::SourceSizeExceeded).with_budget(9, 8);
    assert_eq!(
        error.message(),
        "random-access source exceeds the configured size budget (observed 9, limit 8)"
    );
    assert_eq!(RangeReadErrorKind::MissingVolume.io_kind(), IoKind::NotFound);
    assert_eq!(RangeReadErrorKind::ShortRead.io_kind(), IoKind::UnexpectedEof);
}

#[test]
fn exact_reads_fill_the_output() {
    let source = memory(b"0123456789");
    let mut room = [0u8; 4];
    assert!(read_exact_at(&source, 3, &mut room).is_ok());
    assert_eq!(&room, b"3456");
    let error = range_error(read_exact_at(&source, 7, &mut room).err().unwrap());
    assert_eq!(error.kind(), RangeReadErrorKind::OffsetOutOfBounds);
    assert!(check_range(10, u64::MAX, 2).is_some());
    assert!(check_range(10, 10, 0).is_none());
    assert_eq!(
        judge_read(ReadOutcome::Count(5), 0, 4).err().unwrap().kind(),
        RangeReadErrorKind::InvalidReadCount
    );
    assert_eq!(
        judge_read(ReadOutcome::Count(0), 0, 4).err().unwrap().kind(),
        RangeReadErrorKind::NoProgress
    );
    assert_eq!(
        judge_read(ReadOutcome::Ended, 0, 4).err().unwrap().kind(),
        RangeReadErrorKind::ShortRead
    );
    let mut past = [0u8; 2];
    assert_eq!(source.read_at(10, &mut past).ok().unwrap(), 0);
}

#[test]
fn replies_of_sources_are_judged() {
    assert_eq!(judge_reply(Ok(3), 7, 4).ok().unwrap(), 3);
    let error = range_error(judge_reply(Ok(0), 7, 4).err().unwrap());
    assert_eq!(error.kind(), RangeReadErrorKind::NoProgress);
    let error = range_error(judge_reply(Ok(5), 7, 4).err().unwrap());
    assert_eq!(error.kind(), RangeReadErrorKind::InvalidReadCount);
    let early = RangeFault::Io(IoFault::new(IoKind::UnexpectedEof, "cut"));
    let error = range_error(judge_reply(Err(early), 7, 4).err().unwrap());
    assert_eq!(error.kind(), RangeReadErrorKind::ShortRead);
    let broken = RangeFault::Io(IoFault::new(IoKind::Other, "broken"));
    let fault = judge_reply(Err(broken), 7, 4).err().unwrap();
    assert!(matches!(fault, RangeFault::Io(_)));
    assert_eq!(fault.io_kind(), IoKind::Other);
}

#[test]
fn readers_read_and_seek() {
    let mut reader = RangeReader::with_limits(memory(b"0123456789"), Limits::unlimited()).ok().unwrap();
    assert_eq!(reader.len(), 10);
    let mut room = [0u8; 4];
    assert_eq!(reader.read(&mut room).ok().unwrap(), 4);
    assert_eq!(&room, b"0123");
    assert_eq!(reader.seek(SeekTarget::End(-3)).ok().unwrap(), 7);
    assert_eq!(reader.read(&mut room).ok().unwrap(), 3);
    assert_eq!(&room[..3], b"789");
    assert_eq!(reader.read(&mut room).ok().unwrap(), 0);
    assert_eq!(reader.seek(SeekTarget::Start(2)).ok().unwrap(), 2);
    assert_eq!(reader.read(&mut room).ok().unwrap(), 4);
    assert_eq!(&room, b"2345");
    assert!(reader.seek(SeekTarget::Current(-100)).is_err());
    assert_eq!(reader.metrics().requests(), 1);
    assert_eq!(reader.metrics().transferred_bytes(), 10);
    assert!(reader.validate_source().is_ok());
}

#[test]
fn readers_keep_source_budgets() {
    let limits = SourceLimits::unlimited().with_source_bytes(Some(9));
    let fault = RangeReader::with_source_limits(memory(b"0123456789"), Limits::unlimited(), limits)
        .err()
        .unwrap();
    assert_eq!(range_error(fault).budget(), Some((10, 9)));
    assert_eq!(find_target(5, 10, SeekTarget::Current(-2)).ok().unwrap(), 3);
    assert_eq!(
        plan_fill(0, 100, 8, 64, Some(4)).err().unwrap().kind(),
        RangeReadErrorKind::CacheBudgetExceeded
    );
    assert_eq!(plan_fill(0, 100, 8, 64, None).ok().unwrap(), 64);
    assert_eq!(plan_fill(90, 100, 8, 64, None).ok().unwrap(), 10);
    let mut metrics = RangeMetrics { requests: u64::MAX, transferred_bytes: 0 };
    assert_eq!(
        metrics.record_request().err().unwrap().kind(),
        RangeReadErrorKind::MetricsOverflow
    );
}

#[test]
fn shared_bytes_are_read_in_place() {
    let bytes: std::sync::Arc<[u8]> = std::sync::Arc::from(&b"shared"[..]);
    let source = MemoryReadAt::from_arc(bytes.clone(), identity(b"v"));
    assert_eq!(source.as_bytes().as_ptr(), bytes.as_ptr());
    assert_eq!(source.len(), 6);
    let mut output = [0u8; 4];
    assert_eq!(source.read_at(3, &mut output).ok().unwrap(), 3);
    assert_eq!(&output[..3], b"red");
    let fault = source.read_at(7, &mut output).err().unwrap();
    assert_eq!(range_error(fault).kind(), RangeReadErrorKind::OffsetOutOfBounds);
}

#[test]
fn memory_serves_every_range_within_it() {
    let source = memory(b"0123456789");
    let mut room = [0u8; 10];
    assert!(source.read_exact_at(0, &mut room).is_ok());
    assert_eq!(&room, b"0123456789");
    let mut none = [0u8; 0];
    assert!(source.read_exact_at(10, &mut none).is_ok());
    let fault = source.read_exact_at(1, &mut room).err().unwrap();
    assert_eq!(range_error(fault).range(), Some((1, 10)));
}

#[test]
fn sources_may_be_shared_or_boxed() {
    let shared = std::sync::Arc::new(memory(b"shared"));
    assert!(!ReadAt::is_empty(&shared));
    assert_eq!(ReadAt::len(&shared), 6);
    let mut room = [0u8; 3];
    assert!(read_exact_at(&shared, 3, &mut room).is_ok());
    assert_eq!(&room, b"red");
    let boxed = Box::new(memory(b""));
    assert!(ReadAt::is_empty(&boxed));
    assert!(RangeReader::with_limits(boxed, Limits::unlimited()).ok().unwrap().is_empty());
    let mut reader = RangeReader::with_limits(shared, Limits::unlimited()).ok().unwrap();
    assert_eq!(reader.read(&mut room).ok().unwrap(), 3);
    assert_eq!(&room, b"sha");
}

#[test]
fn default_limits_are_the_safe_ones() {
    assert!(SourceLimits::default() == SourceLimits::safe());
    assert_eq!(SourceLimits::default().volumes, Some(256));
    assert_eq!(RangeMetrics::default().requests(), 0);
    let mut reader = RangeReader::with_limits(memory(b"ab"), Limits::unlimited()).ok().unwrap();
    assert_eq!(reader.metrics().transferred_bytes(), 0);
    let mut room = [0u8; 1];
    assert_eq!(reader.read(&mut room).ok().unwrap(), 1);
    assert_eq!(reader.metrics().transferred_bytes(), 2);
    assert_eq!(reader.read(&mut room).ok().unwrap(), 1);
    assert_eq!(reader.metrics().requests(), 1);
}

struct Dribble {
    inner: MemoryReadAt,
    broken_from: u64,
}

impl ReadAt for Dribble {
    fn len(&self) -> u64 {
        self.inner.len()
    }

    fn identity(&self) -> &SourceIdentity {
        self.inner.identity()
    }

    fn read_at(&self, offset: u64, output: &mut [u8]) -> Result<usize, RangeFault> {
        if offset >= self.broken_from {
            return Err(RangeFault::Io(IoFault::new(IoKind::Other, "broken")));
        }
        let count = output.len().min(3);
        self.inner.read_at(offset, &mut output[..count])
    }
}

#[test]
fn accounts_are_the_replies_of_the_source() {
    let source = Dribble { inner: memory(b"0123456789"), broken_from: 100 };
    let mut reader = RangeReader::with_limits(source, Limits::unlimited()).ok().unwrap();
    let mut room = [0u8; 10];
    assert_eq!(reader.read(&mut room).ok().unwrap(), 10);
    assert_eq!(&room, b"0123456789");
    assert_eq!((reader.metrics().requests(), reader.metrics().transferred_bytes()), (4, 10));
    assert!(reader.seek(SeekTarget::Start(5)).is_ok());
    assert_eq!(reader.read(&mut room[..2]).ok().unwrap(), 2);
    assert_eq!((reader.metrics().requests(), reader.metrics().transferred_bytes()), (4, 10));

    let source = Dribble { inner: memory(b"0123456789"), broken_from: 6 };
    let mut reader = RangeReader::with_limits(source, Limits::unlimited()).ok().unwrap();
    assert!(reader.read(&mut room).is_err());
    assert_eq!((reader.metrics().requests(), reader.metrics().transferred_bytes()), (3, 6));
}

#[test]
fn volumes_are_resolved_once_and_within_budgets() {
    let mut set = VolumeSet::new(memory(b"primary"), Volumes, SourceLimits::unlimited()).ok().unwrap();
    assert_eq!(set.primary().as_bytes(), b"primary");
    assert_eq!(set.resolve(VolumeId::new(0)).ok().unwrap().unwrap().as_bytes(), b"primary");
    assert_eq!(set.resolve(VolumeId::new(2)).ok().unwrap().unwrap().as_bytes(), [2u8; 10]);
    assert_eq!(set.resolve(VolumeId::new(2)).ok().unwrap().unwrap().as_bytes(), [2u8; 10]);
    assert!(set.resolve(VolumeId::new(9)).ok().unwrap().is_none());
    let fault = set.resolve_required(VolumeId::new(9)).err().unwrap();
    assert_eq!(range_error(fault).kind(), RangeReadErrorKind::MissingVolume);

    let limits = SourceLimits::unlimited().with_volumes(Some(2));
    let mut set = VolumeSet::new(memory(b"primary"), Volumes, limits).ok().unwrap();
    assert!(set.resolve(VolumeId::new(1)).is_ok());
    let fault = set.resolve(VolumeId::new(2)).err().unwrap();
    assert_eq!(range_error(fault).kind(), RangeReadErrorKind::VolumeCountExceeded);

    let limits = SourceLimits::unlimited().with_volume_bytes(Some(16));
    let mut set = VolumeSet::new(memory(b"primary"), Volumes, limits).ok().unwrap();
    let fault = set.resolve(VolumeId::new(1)).err().unwrap();
    assert_eq!(range_error(fault).kind(), RangeReadErrorKind::VolumeBytesExceeded);
    assert!(VolumeLedger::open(17, limits).is_err());
}

#[test]
fn secrets_are_wiped() {
    let mut secret = SecretBytes::from_slice(b"key");
    assert_eq!(secret.expose(), b"key");
    let copy = secret.duplicate();
    secret.wipe();
    assert_eq!(secret.expose(), b"");
    assert_eq!(copy.expose(), b"key");
}
