use libarchive_oxide::builtin::encode_gzip_frame;
use libarchive_oxide::codec::{CodecStatus, CodecStep, EndOfInput};
use libarchive_oxide::error::{ArchiveError, ErrorKind};
use libarchive_oxide::filter::crc::{crc32, Crc32};
use libarchive_oxide::filter::gzip::{gzip_header_len, nul_terminated, GzipDecoder};
use libarchive_oxide::filter::gzip_encoder::{GzipEncoder, GZIP_HEADER};
use libarchive_oxide::filter::inflate_raw::RawInflateDecoder;
use libarchive_oxide::filter::lz4::Lz4Decoder;
use libarchive_oxide::filter::zstd::{window_log_limit, ZstdDecoder};
use libarchive_oxide::filtered::detect::FilterId;
use libarchive_oxide::filtered::frames::encode_profile_frame;
use libarchive_oxide::io_fault::IoFault;
use libarchive_oxide::limits::Limits;

fn sample(len: usize) -> Vec<u8> {
    (0..len).map(|i| ((i * i / 7 + i) % 251) as u8).collect()
}

/// Drives a decoder over input handed over in pieces.
fn drive<F>(mut process: F, data: &[u8], chunk: usize, room: usize) -> Result<Vec<u8>, ArchiveError>
where
    F: FnMut(&[u8], &mut [u8], EndOfInput) -> Result<CodecStep, ArchiveError>,
{
    let mut out = Vec::new();
    let mut buffer = vec![0u8; room];
    let mut at = 0;
    loop {
        let next = (at + chunk).min(data.len());
        let end = if next == data.len() { EndOfInput::End } else { EndOfInput::More };
        let step = process(&data[at..next], &mut buffer, end)?;
        out.extend_from_slice(&buffer[..step.produced]);
        at += step.consumed;
        if step.status == CodecStatus::Done {
            assert_eq!(at, data.len());
            return Ok(out);
        }
    }
}

fn gunzip(data: &[u8], chunk: usize, room: usize) -> Result<Vec<u8>, ArchiveError> {
    let mut decoder = GzipDecoder::new(Limits::unlimited());
    drive(|i, o, e| decoder.process(i, o, e), data, chunk, room)
}

fn frame(filter: FilterId, plain: &[u8]) -> Vec<u8> {
    let result: Result<Vec<u8>, IoFault> = encode_profile_frame(filter, plain);
    result.ok().expect("frame")
}

fn gzip(plain: &[u8]) -> Vec<u8> {
    encode_gzip_frame(plain, Limits::unlimited()).ok().expect("frame")
}

fn refused(result: Result<Vec<u8>, ArchiveError>, kind: ErrorKind, context: &str) {
    let error = result.err().expect("an error");
    assert_eq!(error.kind, kind);
    assert_eq!(error.context, context);
}

#[test]
fn computes_the_checksum_of_known_texts() {
    assert_eq!(crc32(b"123456789"), 0xcbf4_3926);
    assert_eq!(crc32(b""), 0);
    let mut crc = Crc32::new();
    crc.update(b"1234");
    crc.update(b"56789");
    assert_eq!(crc.finalize(), 0xcbf4_3926);
}

#[test]
fn gzip_round_trips_in_any_pieces() {
    for len in [0usize, 1, 100, 70_000] {
        let plain = sample(len);
        let member = gzip(&plain);
        assert_eq!(member[..10], GZIP_HEADER);
        let tail = member.len() - 8;
        assert_eq!(member[tail..tail + 4], crc32(&plain).to_le_bytes());
        assert_eq!(member[tail + 4..], (len as u32).to_le_bytes());
        for (chunk, room) in [(1, 7), (13, 1), (100_000, 100_000)] {
            assert_eq!(gunzip(&member, chunk, room).ok().unwrap(), plain);
        }
    }
}

#[test]
fn gzip_encoder_keeps_the_input_budget() {
    let mut limits = Limits::unlimited();
    limits.decoded_total = Some(3);
    let fault = encode_gzip_frame(b"four", limits).err().unwrap();
    assert!(matches!(
        fault.reason,
        libarchive_oxide::io_fault::IoReason::Archive(ref error)
            if error.kind == ErrorKind::Limit
                && error.context == "encoded input exceeds configured limit"
    ));
    let mut encoder = GzipEncoder::new(Limits::unlimited());
    let mut room = vec![0u8; 64];
    let step = encoder.process(b"", &mut room, EndOfInput::End).ok().unwrap();
    assert_eq!(step.status, CodecStatus::Done);
    let error = encoder.process(b"x", &mut room, EndOfInput::End).err().unwrap();
    assert_eq!(error.context, "input supplied after gzip completion");
    assert_eq!(error.kind, ErrorKind::Protocol);
}

#[test]
fn gzip_refuses_damage() {
    let member = gzip(b"hello, hello, hello");
    let mut bad = member.clone();
    let last = bad.len() - 1;
    bad[last] ^= 1;
    refused(gunzip(&bad, 5, 5), ErrorKind::Malformed, "ISIZE mismatch");
    let mut bad = member.clone();
    bad[last - 4] ^= 1;
    refused(gunzip(&bad, 5, 5), ErrorKind::Malformed, "CRC32 mismatch");
    refused(gunzip(&member[..last], 5, 50), ErrorKind::Malformed, "truncated trailer");
    refused(gunzip(&member[..12], 5, 50), ErrorKind::Malformed, "inflate error");
    refused(gunzip(&member[..6], 5, 50), ErrorKind::Malformed, "truncated header");
    refused(gunzip(b"\x1f\x8c\x08\0\0\0\0\0\0\0", 50, 5), ErrorKind::Malformed, "bad magic");
    refused(
        gunzip(b"\x1f\x8b\x07\0\0\0\0\0\0\0", 50, 5),
        ErrorKind::Unsupported,
        "non-deflate compression method",
    );
    let mut bad = member.clone();
    bad[10] = 0x07;
    refused(gunzip(&bad, 5, 50), ErrorKind::Malformed, "inflate error");
}

#[test]
fn gzip_keeps_budgets() {
    let member = gzip(&sample(1000));
    let mut limits = Limits::unlimited();
    limits.decoded_total = Some(999);
    let mut decoder = GzipDecoder::new(limits);
    refused(
        drive(|i, o, e| decoder.process(i, o, e), &member, 64, 64),
        ErrorKind::Limit,
        "decoded stream exceeds configured limit",
    );
    let mut limits = Limits::unlimited();
    limits.metadata_bytes = Some(4);
    let mut decoder = GzipDecoder::new(limits);
    refused(
        drive(|i, o, e| decoder.process(i, o, e), &member, 1, 64),
        ErrorKind::Limit,
        "gzip header exceeds metadata limit",
    );
}

#[test]
fn gzip_header_takes_optional_fields() {
    let plain = b"\x1f\x8b\x08\0\0\0\0\0\0\xff";
    assert_eq!(gzip_header_len(plain).ok().unwrap(), Some(10));
    let named = b"\x1f\x8b\x08\x08\0\0\0\0\0\xffab\0rest";
    assert_eq!(gzip_header_len(named).ok().unwrap(), Some(13));
    assert_eq!(gzip_header_len(&named[..12]).ok().unwrap(), None);
    let full = b"\x1f\x8b\x08\x1e\0\0\0\0\0\xff\x02\0xyn\0c\0\x11\x22";
    assert_eq!(gzip_header_len(full).ok().unwrap(), Some(full.len()));
    assert_eq!(nul_terminated(b"ab\0c", 1), Some(3));
    assert_eq!(nul_terminated(b"ab", 0), None);
}

#[test]
fn raw_deflate_ends_with_the_stream() {
    let member = gzip(b"raw stream raw stream");
    let body = &member[10..member.len() - 8];
    let mut decoder = RawInflateDecoder::new(Limits::unlimited());
    let out = drive(|i, o, e| decoder.process(i, o, e), body, 3, 4).ok().unwrap();
    assert_eq!(out, b"raw stream raw stream");
    let mut room = [0u8; 4];
    let error = decoder.process(b"x", &mut room, EndOfInput::End).err().unwrap();
    assert_eq!(error.context, "data follows the completed deflate stream");
    let mut decoder = RawInflateDecoder::new(Limits::unlimited());
    refused(
        drive(|i, o, e| decoder.process(i, o, e), &body[..body.len() - 1], 100, 100),
        ErrorKind::Malformed,
        "truncated deflate stream",
    );
    let mut limits = Limits::unlimited();
    limits.decoded_total = Some(20);
    let mut decoder = RawInflateDecoder::new(limits);
    refused(
        drive(|i, o, e| decoder.process(i, o, e), body, 100, 100),
        ErrorKind::Limit,
        "decoded stream exceeds configured limit",
    );
}

fn unlz4(data: &[u8], chunk: usize, room: usize) -> Result<Vec<u8>, ArchiveError> {
    let mut decoder = Lz4Decoder::new();
    drive(|i, o, e| decoder.process(i, o, e), data, chunk, room)
}

#[test]
fn lz4_round_trips_in_any_pieces() {
    for len in [0usize, 1, 1000, 200_000] {
        let plain = sample(len);
        let encoded = frame(FilterId::Lz4, &plain);
        assert_ne!(encoded, plain);
        for (chunk, room) in [(1000, 999), (7, 13), (1_000_000, 1_000_000)] {
            assert_eq!(unlz4(&encoded, chunk, room).ok().unwrap(), plain);
        }
        let mut twice = encoded.clone();
        twice.extend_from_slice(&encoded);
        let mut doubled = plain.clone();
        doubled.extend_from_slice(&plain);
        assert_eq!(unlz4(&twice, 5000, 5000).ok().unwrap(), doubled);
    }
}

#[test]
fn lz4_reads_linked_blocks() {
    let plain: Vec<u8> = sample(500).into_iter().cycle().take(300_000).collect();
    let info = lz4_flex::frame::FrameInfo::new()
        .block_size(lz4_flex::frame::BlockSize::Max64KB)
        .block_mode(lz4_flex::frame::BlockMode::Linked);
    let mut encoder = lz4_flex::frame::FrameEncoder::with_frame_info(info, Vec::new());
    std::io::Write::write_all(&mut encoder, &plain).unwrap();
    let encoded = encoder.finish().unwrap();
    assert_eq!(unlz4(&encoded, 4096, 4096).ok().unwrap(), plain);
}

#[test]
fn lz4_refuses_damage() {
    let plain = sample(1000);
    let encoded = frame(FilterId::Lz4, &plain);
    let end = encoded.len();
    let mut bad = encoded.clone();
    bad[end - 1] ^= 1;
    refused(unlz4(&bad, 64, 64), ErrorKind::Malformed, "LZ4 content checksum mismatch");
    let mut bad = encoded.clone();
    bad[6] ^= 1;
    assert!(unlz4(&bad, 64, 64).is_err());
    let mut bad = encoded.clone();
    bad[end - 9] ^= 1;
    refused(unlz4(&bad, 64, 64), ErrorKind::Malformed, "LZ4 block checksum mismatch");
    refused(
        unlz4(&encoded[..end - 4], 64, 64),
        ErrorKind::Malformed,
        "LZ4 frame ended before its terminal block",
    );
    refused(unlz4(&encoded[..5], 64, 64), ErrorKind::Malformed, "truncated LZ4 frame header");
    let mut bad = encoded.clone();
    bad[4] |= 1;
    refused(
        unlz4(&bad, 64, 64),
        ErrorKind::Unsupported,
        "LZ4 frame dictionaries are not supported",
    );
    let mut bad = encoded.clone();
    bad.push(9);
    refused(unlz4(&bad, 6400, 6400), ErrorKind::Malformed, "truncated LZ4 frame header");
    bad.extend_from_slice(b"trailing");
    refused(unlz4(&bad, 6400, 6400), ErrorKind::Malformed, "non-frame trailing filter data");
}

fn unzstd(data: &[u8], chunk: usize, room: usize) -> Result<Vec<u8>, ArchiveError> {
    let mut decoder = ZstdDecoder::new();
    drive(|i, o, e| decoder.process(i, o, e), data, chunk, room)
}

#[test]
fn zstd_round_trips_in_any_pieces() {
    for len in [1usize, 1000, 300_000] {
        let plain = sample(len);
        let encoded = frame(FilterId::Zstd, &plain);
        for (chunk, room) in [(1000, 999), (64, 13), (1_000_000, 1_000_000)] {
            assert_eq!(unzstd(&encoded, chunk, room).ok().unwrap(), plain);
        }
        let mut twice = encoded.clone();
        twice.extend_from_slice(&encoded);
        let mut doubled = plain.clone();
        doubled.extend_from_slice(&plain);
        assert_eq!(unzstd(&twice, 5000, 5000).ok().unwrap(), doubled);
    }
}

#[test]
fn zstd_refuses_damage() {
    let encoded = frame(FilterId::Zstd, &sample(1000));
    refused(
        unzstd(b"\x28\xb5\x2f\xfe\0\0\0\0", 100, 100),
        ErrorKind::Malformed,
        "invalid Zstandard frame magic",
    );
    refused(unzstd(&encoded[..3], 100, 100), ErrorKind::Malformed, "truncated Zstandard frame header");
    let mut bad = encoded.clone();
    bad.extend_from_slice(b"tail");
    refused(unzstd(&bad, 10_000, 10_000), ErrorKind::Malformed, "non-frame trailing filter data");
}

#[test]
fn zstd_window_follows_the_memory_limit() {
    let mut limits = Limits::unlimited();
    assert_eq!(window_log_limit(limits).ok().unwrap(), None);
    for (memory, log) in [(1024, 10), (2047, 10), (2048, 11), (1 << 27, 27), (usize::MAX, 31)] {
        limits.codec_memory = Some(memory);
        assert_eq!(window_log_limit(limits).ok().unwrap(), Some(log));
    }
    limits.codec_memory = Some(1023);
    let error = window_log_limit(limits).err().unwrap();
    assert_eq!(error.kind, ErrorKind::Limit);
    assert_eq!(error.format, Some("zstd"));
}
