use libarchive_oxide::builtin::{BuiltinCodecProviders, BuiltinFormatProviders};
use libarchive_oxide::chain::{
    CodecProbes, FormatProbes, NoCodecProviders, NoFormatProviders, ProviderSelection, ProviderSet,
    StaticCodecProviders, StaticFormatProviders,
};
use libarchive_oxide::entry::ArchiveMetadata;
use libarchive_oxide::error::{ArchiveError, ErrorKind};
use libarchive_oxide::filtered::detect::FilterId;
use libarchive_oxide::limits::Limits;
use libarchive_oxide::provider::{
    combine_format_probes, refuse_archive_metadata, validate_encoded_frame, validate_probe,
    CodecCapabilities, CodecProvider, FormatCapabilities, FormatId, FormatProvider, ProbeResult,
    ProviderCapability,
};
use libarchive_oxide::range_error::RangeFault;
use libarchive_oxide::registry::{
    RandomAccessArchiveDecoder, RandomAccessFormatProvider, RandomAccessMatch, Registry,
    RegistryBuilder, RegistryFault,
};

struct Letters {
    format: FormatId,
    first: u8,
    able: bool,
}

impl FormatProvider for Letters {
    type Decoder = u8;

    type Encoder = u8;

    fn format(&self) -> FormatId {
        self.format
    }

    fn name(&self) -> &'static str {
        "letters"
    }

    fn probe(&self, prefix: &[u8]) -> ProbeResult<()> {
        if prefix.is_empty() {
            ProbeResult::NeedMore { minimum: 1 }
        } else if prefix[0] == self.first {
            ProbeResult::Match(())
        } else {
            ProbeResult::NoMatch
        }
    }

    fn capabilities(&self) -> FormatCapabilities {
        FormatCapabilities::new(self.able, false, false)
    }

    fn decoder(&self, _limits: Limits) -> Result<u8, ArchiveError> {
        Ok(self.first)
    }

    fn encoder(&self, _limits: Limits) -> Result<u8, ArchiveError> {
        Ok(self.first)
    }
}

struct Doubler;

impl CodecProvider for Doubler {
    type Decoder = ();

    fn filter(&self) -> FilterId {
        FilterId::Compress
    }

    fn name(&self) -> &'static str {
        "doubler"
    }

    fn probe(&self, prefix: &[u8]) -> ProbeResult<()> {
        if prefix.first() == Some(&0x1f) {
            ProbeResult::Match(())
        } else {
            ProbeResult::NoMatch
        }
    }

    fn capabilities(&self) -> CodecCapabilities {
        CodecCapabilities::new(true, true)
    }

    fn decoder(&self, _limits: Limits) -> Result<(), ArchiveError> {
        Ok(())
    }

    fn encode_frame(&self, input: &[u8], _limits: Limits) -> Result<Vec<u8>, ArchiveError> {
        let mut out = input.to_vec();
        out.extend_from_slice(input);
        Ok(out)
    }
}

struct Nothing;

impl RandomAccessArchiveDecoder for Nothing {
    type Event = ();

    type Fault = ();

    fn next_event(&mut self) -> Result<(), ()> {
        Ok(())
    }

    fn skip_entry(&mut self) -> Result<(), ()> {
        Ok(())
    }
}

struct Anywhere {
    format: FormatId,
    first: u8,
    seek: bool,
}

impl RandomAccessFormatProvider for Anywhere {
    type Volumes = Vec<u8>;

    type Decoder = Nothing;

    fn format(&self) -> FormatId {
        self.format
    }

    fn name(&self) -> &'static str {
        "anywhere"
    }

    fn capabilities(&self) -> FormatCapabilities {
        FormatCapabilities::new(true, false, self.seek)
    }

    fn probe(&self, source: &Vec<u8>, _limits: Limits) -> Result<bool, RangeFault> {
        Ok(source.first() == Some(&self.first))
    }

    fn open(&self, _source: Vec<u8>, _limits: Limits) -> Result<Nothing, RangeFault> {
        Ok(Nothing)
    }
}

fn letters(format: FormatId, first: u8) -> Letters {
    Letters { format, first, able: true }
}

#[test]
fn empty_sets_know_nothing() {
    let set: ProviderSet<NoFormatProviders, NoCodecProviders> = ProviderSet::empty();
    assert!(!set.supports_format(FormatId::Tar));
    assert!(!set.supports_filter(FilterId::Gzip));
    assert!(matches!(set.format_capability(FormatId::Tar), ProviderCapability::Unknown));
    let error = set.formats.select_format(FormatId::Tar).err().unwrap();
    assert_eq!(error.kind, ErrorKind::Unsupported);
    assert_eq!(error.context, "no registered format provider recognizes the identifier");
    assert!(matches!(set.formats.probe_format(b"x"), Ok(ProbeResult::NoMatch)));
    assert!(matches!(set.codecs.probe_codec(b"x"), Ok(ProbeResult::NoMatch)));
}

#[test]
fn chains_choose_the_first_that_knows() {
    let set = ProviderSet::empty()
        .with_format_provider(letters(FormatId::Tar, b't'))
        .with_format_provider(letters(FormatId::Zip, b'z'))
        .with_codec_provider(Doubler);
    assert!(set.supports_format(FormatId::Tar) && set.supports_format(FormatId::Zip));
    let choice = set.formats.select_format(FormatId::Tar).ok().unwrap();
    assert!(matches!(choice, ProviderSelection::Tail(ProviderSelection::Head)));
    assert!(matches!(
        set.formats.probe_format(b"zip"),
        Ok(ProbeResult::Match((FormatId::Zip, ProviderSelection::Head)))
    ));
    assert!(matches!(set.formats.probe_format(b""), Ok(ProbeResult::NeedMore { minimum: 1 })));
    let choice = set.codecs.select_codec(FilterId::Compress).ok().unwrap();
    let frame = set.codecs.encode_codec_frame(choice, b"ab", Limits::unlimited()).ok().unwrap();
    assert_eq!(frame, b"abab");
}

#[test]
fn chains_refuse_ambiguity() {
    let set = ProviderSet::empty()
        .with_format_provider(letters(FormatId::Tar, b'x'))
        .with_format_provider(letters(FormatId::Zip, b'x'));
    let error = set.formats.probe_format(b"x").err().unwrap();
    assert_eq!(error.context, "multiple format providers matched the same prefix");
    let head: ProbeResult<(FormatId, u8)> = ProbeResult::NeedMore { minimum: 9 };
    let tail: ProbeResult<(FormatId, u8)> = ProbeResult::NeedMore { minimum: 4 };
    assert!(matches!(
        combine_format_probes(head, tail),
        Ok(ProbeResult::NeedMore { minimum: 4 }) | Ok(ProbeResult::NeedMore { minimum: 9 })
    ));
    let error = validate_probe::<()>(ProbeResult::NeedMore { minimum: 3 }, 3, "p").err().unwrap();
    assert_eq!(error.context, "provider probe requested no additional input");
}

#[test]
fn the_builtin_set_encodes_frames() {
    let set: ProviderSet<BuiltinFormatProviders, BuiltinCodecProviders> = ProviderSet::builtins();
    assert!(set.supports_format(FormatId::Tar));
    assert!(set.supports_filter(FilterId::Gzip));
    for (filter, magic) in [
        (FilterId::Gzip, &b"\x1f\x8b"[..]),
        (FilterId::Bzip2, b"BZh"),
        (FilterId::Zstd, b"\x28\xb5\x2f\xfd"),
        (FilterId::Xz, b"\xfd7zXZ"),
        (FilterId::Lz4, b"\x04\x22\x4d\x18"),
    ] {
        let choice = set.codecs.select_codec(filter).ok().unwrap();
        let frame = set.codecs.encode_codec_frame(choice, b"text", Limits::unlimited()).ok().unwrap();
        assert!(frame.starts_with(magic));
        let mut limits = Limits::unlimited();
        limits.in_flight_bytes = Some(3);
        let error = set.codecs.encode_codec_frame(choice, b"text", limits).err().unwrap();
        assert_eq!(error.kind, ErrorKind::Limit);
    }
    assert!(set.codecs.select_codec(FilterId::Lzip).is_err());
    let error = set
        .codecs
        .encode_codec_frame(FilterId::Lzip, b"", Limits::unlimited())
        .err()
        .unwrap();
    assert_eq!(error.context, "no registered codec provider recognizes the identifier");
}

#[test]
fn bzip2_frames_read_back() {
    let set = ProviderSet::builtins();
    let frame = set
        .codecs
        .encode_codec_frame(FilterId::Bzip2, b"bzip2 text", Limits::unlimited())
        .ok()
        .unwrap();
    let mut out = Vec::new();
    let mut reader = bzip2::read::BzDecoder::new(&frame[..]);
    std::io::Read::read_to_end(&mut reader, &mut out).unwrap();
    assert_eq!(out, b"bzip2 text");
}

#[test]
fn archive_metadata_is_refused_where_it_has_no_place() {
    assert!(refuse_archive_metadata(&ArchiveMetadata::new()).is_ok());
    let mut metadata = ArchiveMetadata::new();
    metadata.comment = Some(b"c".to_vec());
    let error = refuse_archive_metadata(&metadata).err().unwrap();
    assert_eq!(error.context, "format provider has no archive-level metadata representation");
    let mut limits = Limits::unlimited();
    limits.in_flight_bytes = Some(1);
    assert!(validate_encoded_frame(vec![1], limits).is_ok());
    assert!(validate_encoded_frame(vec![1, 2], limits).is_err());
}

type Filled = RegistryBuilder<Letters, Anywhere, Doubler>;

fn filled() -> Filled {
    let mut builder: Filled = Registry::<Letters, Anywhere, Doubler>::builder();
    assert!(builder.register_format(letters(FormatId::Tar, b't')).is_ok());
    assert!(builder
        .register_format(Letters { format: FormatId::Cpio, first: b'c', able: false })
        .is_ok());
    assert!(builder.register_codec(Doubler).is_ok());
    assert!(builder
        .register_random_access_format(Anywhere { format: FormatId::Iso9660, first: b'i', seek: true })
        .is_ok());
    builder
}

#[test]
fn the_registry_refuses_duplicates() {
    let mut builder = filled();
    let error = builder.register_format(letters(FormatId::Tar, b'q')).err().unwrap();
    assert_eq!(error.context, "duplicate format provider identifier");
    assert_eq!(error.format, Some("letters"));
    assert!(builder.register_format(letters(FormatId::Iso9660, b'q')).is_err());
    assert_eq!(
        builder.register_codec(Doubler).err().unwrap().context,
        "duplicate codec provider identifier"
    );
    let error = builder
        .register_random_access_format(Anywhere { format: FormatId::Cab, first: 0, seek: false })
        .err()
        .unwrap();
    assert_eq!(
        error.context,
        "random-access format provider must advertise seek-native read capability"
    );
}

#[test]
fn the_registry_serves_what_was_registered() {
    let registry = filled().build();
    assert_eq!(registry.format_count(), 2);
    assert_eq!(registry.codec_count(), 1);
    assert_eq!(registry.random_access_format_count(), 1);
    assert!(matches!(registry.format_capability(FormatId::Cpio), ProviderCapability::Disabled));
    assert!(matches!(registry.format_capability(FormatId::Iso9660), ProviderCapability::Available(_)));
    assert!(matches!(registry.format_capability(FormatId::Xar), ProviderCapability::Unknown));
    assert!(matches!(registry.codec_capability(FilterId::Compress), ProviderCapability::Available(_)));
    assert!(matches!(
        registry.formats.probe_format(b"tar"),
        Ok(ProbeResult::Match((FormatId::Tar, 0)))
    ));
    assert!(matches!(
        registry.codecs.probe_codec(b"\x1f"),
        Ok(ProbeResult::Match((FilterId::Compress, 0)))
    ));
    let place = registry.formats.select_format(FormatId::Tar).ok().unwrap();
    assert_eq!(registry.formats.format_decoder(place, Limits::unlimited()).ok().unwrap(), b't');
    let error = registry.formats.format_encoder(place, Limits::unlimited()).err().unwrap();
    assert_eq!(error.context, "registered format provider cannot encode");
    assert_eq!(error.kind, ErrorKind::Capability);
    let error = registry.formats.format_decoder(9, Limits::unlimited()).err().unwrap();
    assert_eq!(error.context, "registry selection is out of bounds");
    let error = registry.formats.select_format(FormatId::Xar).err().unwrap();
    assert_eq!(error.context, "no registered provider for format Xar");
    let error = registry.codecs.select_codec(FilterId::Lzip).err().unwrap();
    assert_eq!(error.context, "no registered provider for filter Lzip");
    let frame = registry.codecs.encode_codec_frame(0, b"ab", Limits::unlimited()).ok().unwrap();
    assert_eq!(frame, b"abab");
    let mut limits = Limits::unlimited();
    limits.in_flight_bytes = Some(3);
    let error = registry.codecs.encode_codec_frame(0, b"ab", limits).err().unwrap();
    assert_eq!(error.context, "encoded codec frame exceeds in-flight byte limit");
}

#[test]
fn the_registry_opens_what_it_recognizes() {
    let mut builder = filled();
    assert!(builder
        .register_random_access_format(Anywhere { format: FormatId::Cab, first: b'i', seek: true })
        .is_ok());
    let registry = builder.build();
    assert!(matches!(
        registry.detect_random_access(&b"iso".to_vec(), Limits::unlimited()),
        Err(RegistryFault::Archive(error))
            if error.context == "multiple random-access format providers matched the source"
    ));
    assert!(matches!(
        registry.detect_random_access(&b"other".to_vec(), Limits::unlimited()),
        Ok(None)
    ));
    let registry = filled().build();
    assert!(matches!(
        registry.detect_random_access(&b"iso".to_vec(), Limits::unlimited()),
        Ok(Some(FormatId::Iso9660))
    ));
    assert!(registry.open_random_access(FormatId::Iso9660, b"i".to_vec(), Limits::unlimited()).is_ok());
    assert!(matches!(
        registry.open_random_access(FormatId::Xar, Vec::new(), Limits::unlimited()),
        Err(RegistryFault::Archive(error))
            if error.context == "no random-access provider for format Xar"
    ));
    let mut state = RandomAccessMatch::new();
    assert!(state.offer(FormatId::Tar, true).is_ok());
    assert!(state.offer(FormatId::Zip, false).is_ok());
    assert!(state.offer(FormatId::Zip, true).is_err());
}
