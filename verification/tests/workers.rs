use libarchive_oxide::codec::{CodecStatus, EndOfInput};
use libarchive_oxide::error::ErrorKind;
use libarchive_oxide::filter::crc::crc32;
use libarchive_oxide::filter::lzip::{LzipAction, LzipDecoder, LzipReply};
use libarchive_oxide::filter::lzip_member::{
    decode_dictionary_size, read_member_header, validate_dictionary_memory, LzipStream,
};
use libarchive_oxide::filter::pipe::{InputMessage, InputPipe, PipeStep};
use libarchive_oxide::filter::xz::{XzAction, XzDecoder, XzReply};
use libarchive_oxide::filter::xz_envelope::{
    decode_dictionary, parse_vli, validate_block_memory, validate_index_memory, Vli, XzValidator,
};
use libarchive_oxide::filtered::detect::FilterId;
use libarchive_oxide::filtered::frames::encode_profile_frame;

fn xz_frame(plain: &[u8]) -> Vec<u8> {
    encode_profile_frame(FilterId::Xz, plain).ok().expect("frame")
}

#[test]
fn the_envelope_passes_whole_streams_unchanged() {
    for plain in [&b""[..], b"x", &[7u8; 100_000]] {
        let stream = xz_frame(plain);
        let mut validator = XzValidator::new(None);
        let mut pending = Vec::new();
        for byte in &stream {
            assert!(validator.push(*byte, &mut pending).is_ok());
        }
        assert!(validator.finish(&mut pending).is_ok());
        assert_eq!(pending, stream);
        let mut twice = stream.clone();
        twice.extend_from_slice(&[0; 4]);
        twice.extend_from_slice(&stream);
        let mut validator = XzValidator::new(None);
        let mut pending = Vec::new();
        assert!(validator.push_all(&twice, 0, twice.len(), &mut pending).is_ok());
        assert!(validator.finish(&mut pending).is_ok());
        assert_eq!(pending, twice);
    }
}

#[test]
fn the_envelope_refuses_large_dictionaries_before_decoding() {
    let stream = xz_frame(b"some text");
    let mut validator = XzValidator::new(Some(1000));
    let mut pending = Vec::new();
    let error = validator.push_all(&stream, 0, stream.len(), &mut pending).err().unwrap();
    assert_eq!(error.kind, ErrorKind::Limit);
    assert!(error.context.starts_with("LZMA2 workspace requires "));
    // The block header is not handed on.
    assert!(pending.len() <= 12);
}

#[test]
fn the_envelope_refuses_damage() {
    let stream = xz_frame(b"some text");
    let mut bad = stream.clone();
    bad[0] = 0;
    let mut validator = XzValidator::new(None);
    let mut pending = Vec::new();
    let error = validator.push_all(&bad, 0, bad.len(), &mut pending).err().unwrap();
    assert_eq!(error.context, "invalid XZ stream magic");
    let mut padded = stream.clone();
    padded.push(0);
    let mut validator = XzValidator::new(None);
    let mut pending = Vec::new();
    assert!(validator.push_all(&padded, 0, padded.len(), &mut pending).is_ok());
    let error = validator.finish(&mut pending).err().unwrap();
    assert_eq!(error.context, "XZ stream padding is not a multiple of four bytes");
}

#[test]
fn multibyte_integers_hold_seven_bits_a_byte() {
    let mut at = 0;
    assert_eq!(parse_vli(&[0xac, 0x02], &mut at, 2).ok().unwrap(), 300);
    assert_eq!(at, 2);
    let mut at = 0;
    assert_eq!(
        parse_vli(&[0x80; 10], &mut at, 10).err().unwrap().context,
        "XZ multibyte integer is too long"
    );
    let mut at = 0;
    assert_eq!(
        parse_vli(&[0x80], &mut at, 1).err().unwrap().context,
        "incomplete XZ multibyte integer"
    );
    let mut vli = Vli::new();
    assert_eq!(vli.push(0xac).ok().unwrap(), None);
    assert_eq!(vli.push(0x02).ok().unwrap(), Some(300));
}

#[test]
fn dictionary_sizes_follow_their_property() {
    assert_eq!(decode_dictionary(0).ok().unwrap(), 4096);
    assert_eq!(decode_dictionary(1).ok().unwrap(), 6144);
    assert_eq!(decode_dictionary(39).ok().unwrap(), 3 << 30);
    assert_eq!(decode_dictionary(40).ok().unwrap(), u32::MAX);
    assert_eq!(
        decode_dictionary(41).err().unwrap().context,
        "invalid LZMA2 dictionary size"
    );
    assert!(validate_index_memory(10, Some(160)).is_ok());
    assert_eq!(
        validate_index_memory(11, Some(160)).err().unwrap().context,
        "XZ index requires 176 bytes, codec workspace limit was exceeded"
    );
}

#[test]
fn block_headers_declare_their_memory() {
    // One LZMA2 filter with a dictionary of 4096 bytes.
    let header = [2u8, 0, 0x21, 1, 0, 0, 0, 0, 0, 0, 0, 0];
    assert!(validate_block_memory(&header, None).is_ok());
    let error = validate_block_memory(&header, Some(1)).err().unwrap();
    let kib = lzma_rust2::lzma2_get_memory_usage(4096);
    let need = u64::from(kib) * 1024;
    assert_eq!(
        error.context,
        format!("LZMA2 workspace requires {need} bytes, limit is 1")
    );
}

#[test]
fn lzip_dictionary_sizes_follow_their_byte() {
    assert_eq!(decode_dictionary_size(12).ok().unwrap(), 4096);
    assert_eq!(decode_dictionary_size(29).ok().unwrap(), 1 << 29);
    assert_eq!(decode_dictionary_size(0x20 | 13).ok().unwrap(), 8192 - 512);
    assert!(decode_dictionary_size(11).is_err());
    assert!(decode_dictionary_size(30).is_err());
    assert!(decode_dictionary_size(0x20 | 12).is_err());
}

#[test]
fn lzip_headers_begin_members() {
    let header = [0x4c, 0x5a, 0x49, 0x50, 1, 12];
    assert_eq!(read_member_header(&header, 6, 0).ok().unwrap(), Some(4096));
    assert_eq!(read_member_header(&header, 0, 1).ok().unwrap(), None);
    assert_eq!(read_member_header(&header, 0, 0).err().unwrap().message, "empty lzip stream");
    assert_eq!(
        read_member_header(&header, 3, 1).err().unwrap().message,
        "truncated lzip member header"
    );
    let wrong = [0x4c, 0x5a, 0x49, 0x51, 1, 12];
    assert_eq!(
        read_member_header(&wrong, 6, 0).err().unwrap().message,
        "invalid lzip member magic"
    );
    let wrong = [0x4c, 0x5a, 0x49, 0x50, 2, 12];
    assert_eq!(
        read_member_header(&wrong, 6, 0).err().unwrap().message,
        "unsupported lzip member version"
    );
    assert!(validate_dictionary_memory(4096, None).is_ok());
    let fault = validate_dictionary_memory(4096, Some(1)).err().unwrap();
    assert!(fault.out_of_memory);
}

#[test]
fn lzip_trailers_close_members() {
    let mut stream = LzipStream::new(Some(10));
    assert_eq!(stream.capacity(100), 10);
    assert_eq!(stream.capacity(7), 7);
    assert!(stream.accept_chunk(false, b"hello").ok().unwrap());
    assert!(!stream.accept_chunk(false, b"").ok().unwrap());
    let mut trailer = [0u8; 20];
    trailer[..4].copy_from_slice(&crc32(b"hello").to_le_bytes());
    trailer[4] = 5;
    trailer[12] = 46;
    assert!(stream.finish_member(&trailer, 20, 20).is_ok());
    assert_eq!(stream.member_index, 1);
    assert!(stream.accept_chunk(false, b"again").ok().unwrap());
    assert_eq!(stream.capacity(100), 1);
    let fault = stream.accept_chunk(false, b"x").err().unwrap();
    assert!(fault.out_of_memory);
    assert_eq!(fault.message, "lzip decoded stream exceeds configured limit");
    let mut stream = LzipStream::new(None);
    assert!(stream.accept_chunk(false, b"hellp").ok().unwrap());
    assert_eq!(
        stream.finish_member(&trailer, 20, 20).err().unwrap().message,
        "lzip CRC32 mismatch"
    );
    let mut stream = LzipStream::new(None);
    assert_eq!(
        stream.finish_member(&trailer, 19, 20).err().unwrap().message,
        "truncated lzip member trailer"
    );
}

#[test]
fn the_pipe_hands_over_bytes_in_order() {
    let mut pipe = InputPipe::new();
    let mut output = [0u8; 4];
    assert!(matches!(pipe.fill(&mut output, 0), PipeStep::NeedMessage(0)));
    assert!(pipe.supply(InputMessage::Data(b"abcdef".to_vec()), 0).is_none());
    assert!(matches!(pipe.fill(&mut output, 0), PipeStep::Filled(4)));
    assert_eq!(&output, b"abcd");
    assert!(matches!(pipe.fill(&mut output, 0), PipeStep::NeedMessage(2)));
    assert_eq!(&output[..2], b"ef");
    assert_eq!(pipe.supply(InputMessage::End, 2), Some(2));
    assert!(matches!(pipe.fill(&mut output, 0), PipeStep::Filled(0)));
}

#[test]
fn the_xz_decoder_stages_and_delivers() {
    let stream = xz_frame(b"x");
    let mut decoder = XzDecoder::new(None);
    let mut output = [0u8; 8];
    let mut sent: Vec<u8> = Vec::new();
    let mut ended = false;
    let mut action = decoder.begin(&stream, &mut output, EndOfInput::End);
    let mut delivered = false;
    let step = loop {
        let reply = match action {
            XzAction::Poll => {
                if ended && !delivered {
                    delivered = true;
                    XzReply::Output(b"x".to_vec())
                } else if ended {
                    XzReply::Finished
                } else {
                    XzReply::NoEvent
                }
            },
            XzAction::Wait => {
                if delivered {
                    XzReply::Finished
                } else {
                    delivered = true;
                    XzReply::Output(b"x".to_vec())
                }
            },
            XzAction::Send(bytes) => {
                sent.extend_from_slice(&bytes);
                XzReply::Accepted
            },
            XzAction::SendEnd => {
                ended = true;
                XzReply::Accepted
            },
            XzAction::Return(result) => break result.ok().unwrap(),
        };
        action = decoder.resume(reply, &stream, &mut output, EndOfInput::End);
    };
    assert_eq!(step.produced, 1);
    assert_eq!(output[0], b'x');
    assert_eq!(sent, stream[..sent.len()]);
}

#[test]
fn the_xz_decoder_reports_a_lost_worker() {
    let mut decoder = XzDecoder::new(None);
    let mut output = [0u8; 8];
    let mut action = decoder.begin(b"", &mut output, EndOfInput::End);
    loop {
        match action {
            XzAction::Poll | XzAction::Wait => {
                action = decoder.resume(XzReply::Gone, b"", &mut output, EndOfInput::End);
            },
            XzAction::Return(result) => {
                let error = result.err().unwrap();
                assert_eq!(error.context, "XZ decoder worker disconnected");
                return;
            },
            _ => panic!("unexpected action"),
        }
    }
}

#[test]
fn the_lzip_decoder_reports_a_failed_worker() {
    let mut decoder = LzipDecoder::new();
    let mut output = [0u8; 8];
    let mut action = decoder.begin(b"LZIP", &mut output, EndOfInput::End);
    loop {
        match action {
            LzipAction::Poll => {
                let reply = LzipReply::Failed { out_of_memory: true, message: "no room".to_string() };
                action = decoder.resume(reply, b"LZIP", &mut output, EndOfInput::End);
            },
            LzipAction::Return(result) => {
                let error = result.err().unwrap();
                assert_eq!(error.kind, ErrorKind::Limit);
                assert_eq!(error.context, "no room");
                return;
            },
            _ => panic!("unexpected action"),
        }
    }
}

#[test]
fn the_lzip_decoder_stages_and_delivers() {
    let mut decoder = LzipDecoder::new();
    let mut output = [0u8; 8];
    let mut sent: Vec<u8> = Vec::new();
    let mut ended = false;
    let mut delivered = false;
    let mut action = decoder.begin(b"LZIPdata", &mut output, EndOfInput::End);
    let step = loop {
        let reply = match action {
            LzipAction::Poll | LzipAction::Pump => {
                if ended && !delivered {
                    delivered = true;
                    LzipReply::Output(b"plain".to_vec())
                } else if ended {
                    LzipReply::Finished
                } else {
                    LzipReply::NoEvent
                }
            },
            LzipAction::Send(bytes) => {
                sent.extend_from_slice(&bytes);
                LzipReply::Accepted
            },
            LzipAction::SendEnd => {
                ended = true;
                LzipReply::Accepted
            },
            LzipAction::Return(result) => break result.ok().unwrap(),
            LzipAction::Yield => panic!("unexpected yield"),
        };
        action = decoder.resume(reply, b"LZIPdata", &mut output, EndOfInput::End);
    };
    assert_eq!(sent, b"LZIPdata");
    assert_eq!(&output[..step.produced], b"plain");
    assert!(matches!(step.status, CodecStatus::NeedOutput | CodecStatus::Done));
}

#[test]
fn staged_input_stays_bounded_while_the_queue_is_full() {
    let input = vec![b'L'; 200_000];
    let mut decoder = LzipDecoder::new();
    let mut output = [0u8; 8];
    let mut offers = 0;
    let mut action = decoder.begin(&input, &mut output, EndOfInput::More);
    let step = loop {
        let reply = match action {
            LzipAction::Poll | LzipAction::Pump => LzipReply::NoEvent,
            LzipAction::Send(bytes) => {
                offers += 1;
                assert_eq!(bytes.len(), 65_536);
                LzipReply::Full(bytes)
            },
            LzipAction::Return(result) => break result.ok().unwrap(),
            LzipAction::SendEnd | LzipAction::Yield => panic!("unexpected action"),
        };
        action = decoder.resume(reply, &input, &mut output, EndOfInput::More);
    };
    assert!(offers > 0);
    assert_eq!(step.consumed, 65_536);

    let mut stream = xz_frame(b"x");
    stream.resize(stream.len() + 200_000, 0);
    let mut decoder = XzDecoder::new(None);
    let mut action = decoder.begin(&stream, &mut output, EndOfInput::More);
    let step = loop {
        let reply = match action {
            XzAction::Poll | XzAction::Wait => XzReply::NoEvent,
            XzAction::Send(bytes) => {
                assert!(bytes.len() <= 66_592);
                XzReply::Full(bytes)
            },
            XzAction::Return(result) => break result.ok().unwrap(),
            XzAction::SendEnd => panic!("unexpected action"),
        };
        action = decoder.resume(reply, &stream, &mut output, EndOfInput::More);
    };
    assert_eq!(step.consumed, 66_592);
}
