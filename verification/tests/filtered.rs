use libarchive_oxide::builtin::encode_gzip_frame;
use libarchive_oxide::codec::{CodecStatus, CodecStep, EndOfInput};
use libarchive_oxide::error::{ArchiveError, ErrorKind};
use libarchive_oxide::filter::zstd::ZstdDecoder;
use libarchive_oxide::filtered::detect::{
    choose_codec, choose_input_codec, choose_output_codec, detect_filter, filter_for_extension,
    filter_for_name, filter_name, Allowance, Backend, BackendPreference, DecodedBudget, FilterId, OutputFilter,
    Prefix,
};
use libarchive_oxide::filtered::frames::{
    encode_profile_frame, BridgeStatus, FrameWriter, GzipSink, PullBridge, WholeEncoder,
};
use libarchive_oxide::filtered::members::{
    GzipReader, ReadAction, XzReadAction, XzReader,
};
use libarchive_oxide::io_fault::{IoFault, IoKind, IoReason};
use libarchive_oxide::limits::Limits;

fn gzip(plain: &[u8]) -> Vec<u8> {
    encode_gzip_frame(plain, Limits::unlimited()).ok().expect("frame")
}

fn words(fault: IoFault) -> String {
    match fault.reason {
        IoReason::Message(message) => message,
        IoReason::Archive(error) => error.context,
    }
}

fn read_gzip(data: &[u8], chunk: usize, room: usize) -> Result<Vec<u8>, IoFault> {
    let mut reader = GzipReader::new(Limits::unlimited());
    let mut out = Vec::new();
    let mut buffer = vec![0u8; room];
    let mut at = 0;
    loop {
        match reader.turn(&mut buffer) {
            ReadAction::Fill => {
                let next = (at + chunk).min(data.len());
                reader.supply(&data[at..next]);
                at = next;
            },
            ReadAction::Again => {},
            ReadAction::Return(Ok(0)) => return Ok(out),
            ReadAction::Return(Ok(count)) => out.extend_from_slice(&buffer[..count]),
            ReadAction::Return(Err(fault)) => return Err(fault),
        }
    }
}

#[test]
fn recognizes_filters_by_their_first_bytes() {
    assert_eq!(detect_filter(b"\x1f\x8b\x08\0\0\0"), Some(FilterId::Gzip));
    assert_eq!(detect_filter(b"\x1f\x9d\x90"), Some(FilterId::Compress));
    assert_eq!(detect_filter(b"BZh9xx"), Some(FilterId::Bzip2));
    assert_eq!(detect_filter(b"\x28\xb5\x2f\xfd\0\0"), Some(FilterId::Zstd));
    assert_eq!(detect_filter(b"\xfd7zXZ\0"), Some(FilterId::Xz));
    assert_eq!(detect_filter(b"\x04\x22\x4d\x18"), Some(FilterId::Lz4));
    assert_eq!(detect_filter(b"LZIP\x01\x0c"), Some(FilterId::Lzip));
    assert_eq!(detect_filter(b"plain!"), None);
    assert_eq!(detect_filter(b""), None);
}

#[test]
fn chooses_codecs_by_backend() {
    let portable = || Ok::<Backend, ArchiveError>(Backend::Portable);
    let choice = choose_codec(FilterId::Zstd, BackendPreference::Auto, portable()).ok().unwrap();
    assert_eq!(choice.filter, FilterId::Zstd);
    assert_eq!(choice.backend, Backend::Portable);
    let error = choose_codec(FilterId::Lzip, BackendPreference::Native, Ok(Backend::Native))
        .err()
        .unwrap();
    assert_eq!(error.context, "the lzip filter has no native backend");
    let none = choose_input_codec(b"plain!", BackendPreference::Auto, portable()).ok().unwrap();
    assert!(none.is_none());
    assert!(matches!(choose_output_codec(None, portable()), Ok(OutputFilter::Plain)));
    let error = choose_output_codec(Some(FilterId::Lzip), portable()).err().unwrap();
    assert_eq!(error.context, "lzip filter is read-only");
    assert_eq!(error.kind, ErrorKind::Capability);
    assert_eq!(filter_name(FilterId::Lz4), "lz4");
}

#[test]
fn file_names_choose_filters() {
    assert_eq!(filter_for_extension(b"GZ"), Some(FilterId::Gzip));
    assert_eq!(filter_for_extension(b"tgz"), Some(FilterId::Gzip));
    assert_eq!(filter_for_extension(b"xz"), Some(FilterId::Xz));
    assert_eq!(filter_for_extension(b"tar"), None);
    assert_eq!(filter_for_name("release.tar.GZ"), Some(FilterId::Gzip));
    assert_eq!(filter_for_name("some/dir.xz/release.tbz2"), Some(FilterId::Bzip2));
    assert_eq!(filter_for_name("some/dir.xz/release"), None);
    assert_eq!(filter_for_name("a.zst"), Some(FilterId::Zstd));
    assert_eq!(filter_for_name("a.lz4"), Some(FilterId::Lz4));
    assert_eq!(filter_for_name("a.Z"), Some(FilterId::Compress));
    assert_eq!(filter_for_name("a.lz"), Some(FilterId::Lzip));
    assert_eq!(filter_for_name(".gz"), None);
    assert_eq!(filter_for_name("..gz"), Some(FilterId::Gzip));
    assert_eq!(filter_for_name("gz."), None);
    assert_eq!(filter_for_name(""), None);
    assert_eq!(filter_for_name("/srv/a.tar.gz"), Some(FilterId::Gzip));
    assert_eq!(filter_for_name("/"), None);
    assert_eq!(filter_for_name("a.gz/"), Some(FilterId::Gzip));
    assert_eq!(filter_for_name("./a.gz//."), Some(FilterId::Gzip));
    assert_eq!(filter_for_name("a.gz/.."), None);
    assert_eq!(filter_for_name("at:noon.xz"), Some(FilterId::Xz));
}

#[test]
fn the_prefix_is_read_before_the_rest() {
    let mut prefix = Prefix::new(*b"abcdef", 5);
    let mut room = [0u8; 3];
    assert_eq!(prefix.read(&mut room), Some(3));
    assert_eq!(&room, b"abc");
    assert_eq!(prefix.read(&mut room), Some(2));
    assert_eq!(&room[..2], b"de");
    assert_eq!(prefix.read(&mut room), None);
}

#[test]
fn the_decoded_budget_is_exact() {
    let mut budget = DecodedBudget::new(Some(5));
    assert!(matches!(budget.allowance(3), Allowance::Read(3)));
    assert_eq!(budget.record(3).ok().unwrap(), 3);
    assert!(matches!(budget.allowance(10), Allowance::Read(2)));
    assert_eq!(budget.record(2).ok().unwrap(), 2);
    assert!(matches!(budget.allowance(10), Allowance::Probe));
    assert_eq!(budget.probed(0).ok().unwrap(), 0);
    let fault = budget.probed(1).err().unwrap();
    assert_eq!(words(fault), "decoded stream exceeds configured limit");
}

#[test]
fn gzip_members_are_read_as_one_stream() {
    let mut data = gzip(b"first ");
    data.extend_from_slice(&gzip(b""));
    data.extend_from_slice(&gzip(b"second"));
    for (chunk, room) in [(1, 1), (7, 3), (1000, 1000)] {
        assert_eq!(read_gzip(&data, chunk, room).ok().unwrap(), b"first second");
    }
    data.push(0x1f);
    assert_eq!(words(read_gzip(&data, 1000, 10).err().unwrap()), "trailing byte after gzip member");
    data.push(0);
    let fault = read_gzip(&data, 1000, 10).err().unwrap();
    assert_eq!(fault.kind, IoKind::InvalidData);
}

#[test]
fn xz_streams_are_separated_by_padding() {
    let mut reader = XzReader::new();
    let stream = encode_profile_frame(FilterId::Xz, b"x").ok().unwrap();
    assert!(matches!(reader.turn(10), XzReadAction::Fill));
    let mut action = reader.supply(&stream);
    loop {
        match action {
            XzReadAction::Again => action = reader.turn(10),
            XzReadAction::Decode(_) => break,
            _ => panic!("unexpected action"),
        }
    }
    let step = CodecStep { consumed: stream.len(), produced: 0, status: CodecStatus::Done };
    action = reader.decoded(Ok(step));
    loop {
        match action {
            XzReadAction::Again => action = reader.turn(10),
            XzReadAction::Fill => action = reader.supply(b""),
            XzReadAction::Return(result) => {
                assert_eq!(result.ok().unwrap(), 0);
                return;
            },
            _ => panic!("unexpected action"),
        }
    }
}

#[test]
fn frames_are_written_for_what_was_taken() {
    let mut writer = FrameWriter::new(FilterId::Zstd);
    assert!(writer.must_finish());
    assert!(!writer.must_flush());
    assert_eq!(writer.accept(b"hello"), 5);
    assert!(writer.must_flush());
    let frame = writer.frame().ok().unwrap();
    writer.emitted();
    assert!(!writer.must_finish());
    let mut decoder = ZstdDecoder::new();
    let mut room = [0u8; 16];
    let step = decoder.process(&frame, &mut room, EndOfInput::End).ok().unwrap();
    assert_eq!(&room[..step.produced], b"hello");
}

#[test]
fn profile_frames_need_an_encoder() {
    let fault = encode_profile_frame(FilterId::Lzip, b"").err().unwrap();
    assert_eq!(fault.kind, IoKind::Unsupported);
    assert_eq!(words(fault), "filter has no frame encoder in the selected codec profile");
}

#[test]
fn the_gzip_sink_writes_and_finishes() {
    let mut sink = GzipSink::new(Limits::unlimited());
    let mut buffer = vec![0u8; 64];
    let mut out = Vec::new();
    let mut taken = 0;
    let text = b"written through a sink";
    while taken < text.len() {
        let turn = sink.write(&text[taken..], &mut buffer);
        out.extend_from_slice(&buffer[..turn.produced]);
        if let Some(result) = turn.outcome {
            taken += result.ok().unwrap();
        }
    }
    loop {
        let turn = sink.finish(&mut buffer);
        out.extend_from_slice(&buffer[..turn.produced]);
        if turn.outcome.is_some() {
            break;
        }
    }
    assert_eq!(read_gzip(&out, 10, 10).ok().unwrap(), text);
}

#[test]
fn whole_encoders_collect_and_drain() {
    for filter in [FilterId::Zstd, FilterId::Xz, FilterId::Lz4] {
        let mut encoder = WholeEncoder::new(filter);
        assert_eq!(encoder.step(b"abc").consumed, 3);
        assert_eq!(encoder.step(b"def").consumed, 3);
        let mut out = Vec::new();
        let mut room = [0u8; 5];
        loop {
            let step = encoder.finish(&mut room).ok().unwrap();
            out.extend_from_slice(&room[..step.produced]);
            if step.status == BridgeStatus::Done {
                break;
            }
        }
        assert_eq!(detect_filter(&out), Some(filter));
        assert!(out.len() > 6);
    }
    let mut encoder = WholeEncoder::new(FilterId::Compress);
    let mut room = [0u8; 5];
    assert!(encoder.finish(&mut room).is_err());
}

#[test]
fn pull_bridges_hold_the_text_until_it_is_taken() {
    let mut bridge = PullBridge::new();
    assert_eq!(bridge.push(b"ab").consumed, 2);
    assert_eq!(bridge.push(b"c").consumed, 1);
    assert_eq!(bridge.take_text().unwrap(), b"abc");
    bridge.decoding();
    assert!(bridge.is_decoding());
    assert_eq!(bridge.after_read(4).status, BridgeStatus::MoreOutput);
    assert_eq!(bridge.after_read(0).status, BridgeStatus::Done);
}
