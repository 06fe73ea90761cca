use libarchive_oxide::codec::{CodecStatus, EndOfInput};
use libarchive_oxide::filter::bcj::{test_86_ms_byte, BcjFilter, BranchKind};
use libarchive_oxide::filter::bcj_decoder::BcjDecoder;
use lzma_rust2::filter::bcj::{BcjReader, BcjWriter};
use std::io::{Cursor, Read, Write};

fn pseudo_random(len: usize) -> Vec<u8> {
    let mut state: u64 = 0x1234_5678_9abc_def1;
    (0..len)
        .map(|_| {
            state ^= state << 13;
            state ^= state >> 7;
            state ^= state << 17;
            (state >> 24) as u8
        })
        .collect()
}

fn encode(kind: BranchKind, data: &[u8]) -> Vec<u8> {
    let cursor = Cursor::new(Vec::new());
    let mut writer = match kind {
        BranchKind::X86 => BcjWriter::new_x86(cursor, 0),
        BranchKind::Arm => BcjWriter::new_arm(cursor, 0),
        BranchKind::ArmThumb => BcjWriter::new_arm_thumb(cursor, 0),
        BranchKind::Arm64 => BcjWriter::new_arm64(cursor, 0),
        BranchKind::Ppc => BcjWriter::new_ppc(cursor, 0),
        BranchKind::Sparc => BcjWriter::new_sparc(cursor, 0),
        BranchKind::Ia64 => BcjWriter::new_ia64(cursor, 0),
        BranchKind::RiscV => BcjWriter::new_riscv(cursor, 0),
    };
    writer.write_all(data).unwrap();
    writer.finish().unwrap().into_inner()
}

fn reference_decode(kind: BranchKind, encoded: &[u8]) -> Vec<u8> {
    let cursor = Cursor::new(encoded.to_vec());
    let mut reader = match kind {
        BranchKind::X86 => BcjReader::new_x86(cursor, 0),
        BranchKind::Arm => BcjReader::new_arm(cursor, 0),
        BranchKind::ArmThumb => BcjReader::new_arm_thumb(cursor, 0),
        BranchKind::Arm64 => BcjReader::new_arm64(cursor, 0),
        BranchKind::Ppc => BcjReader::new_ppc(cursor, 0),
        BranchKind::Sparc => BcjReader::new_sparc(cursor, 0),
        BranchKind::Ia64 => BcjReader::new_ia64(cursor, 0),
        BranchKind::RiscV => BcjReader::new_riscv(cursor, 0),
    };
    let mut out = Vec::new();
    reader.read_to_end(&mut out).unwrap();
    out
}

/// Decodes input handed over in pieces of `in_chunk` into a buffer of
/// `out_chunk` bytes.
fn arca_decode(kind: BranchKind, encoded: &[u8], out_chunk: usize, in_chunk: usize) -> Vec<u8> {
    let mut decoder = BcjDecoder::new(kind, 0);
    let mut out = Vec::new();
    let mut buffer = vec![0u8; out_chunk];
    let mut at = 0;
    loop {
        let next = (at + in_chunk).min(encoded.len());
        let end = if next == encoded.len() { EndOfInput::End } else { EndOfInput::More };
        let step = decoder.process(&encoded[at..next], &mut buffer, end);
        out.extend_from_slice(&buffer[..step.produced]);
        at += step.consumed;
        if step.status == CodecStatus::Done {
            return out;
        }
    }
}

#[test]
fn every_branch_kind_round_trips_against_lzma_rust2() {
    let data = pseudo_random(150_003);
    for kind in [
        BranchKind::X86,
        BranchKind::Arm,
        BranchKind::ArmThumb,
        BranchKind::Arm64,
        BranchKind::Ppc,
        BranchKind::Sparc,
        BranchKind::Ia64,
        BranchKind::RiscV,
    ] {
        let encoded = encode(kind, &data);
        assert_eq!(
            reference_decode(kind, &encoded),
            data,
            "reference round trip failed for {kind:?}"
        );
        if kind == BranchKind::X86 {
            assert_ne!(encoded, data, "x86 encoder made no change");
        }
        for (out_chunk, in_chunk) in [(1, 1), (3, 7), (64, 5), (4096, 64), (200_000, 200_000)] {
            assert_eq!(
                arca_decode(kind, &encoded, out_chunk, in_chunk),
                data,
                "arca decode mismatch for {kind:?} at out={out_chunk} in={in_chunk}"
            );
        }
    }
}

#[test]
fn tiny_output_matches_bulk_output() {
    for len in [0usize, 1, 4, 5, 6, 8, 4095, 4096, 4097] {
        let data = pseudo_random(len);
        let encoded = encode(BranchKind::X86, &data);
        let bulk = arca_decode(
            BranchKind::X86,
            &encoded,
            usize::max(len, 1),
            usize::max(len, 1),
        );
        let single = arca_decode(BranchKind::X86, &encoded, 1, 1);
        assert_eq!(bulk, data, "bulk decode mismatch at len {len}");
        assert_eq!(single, data, "single-byte decode mismatch at len {len}");
    }
}

#[test]
fn decodes_one_arm_branch() {
    // A branch at address 8 to the absolute target 0x20, in units of four bytes.
    let mut code = [0x00, 0, 0, 0, 0x08, 0, 0, 0xeb];
    let mut filter = BcjFilter::new(BranchKind::Arm, 0);
    assert_eq!(filter.decode(&mut code), 8);
    assert_eq!(code, [0x00, 0, 0, 0, 0x05, 0, 0, 0xeb]);
}

#[test]
fn keeps_a_partial_window() {
    let mut filter = BcjFilter::new(BranchKind::X86, 0);
    let mut code = [0xe8, 0, 0, 0];
    assert_eq!(filter.decode(&mut code), 0);
    assert_eq!(code, [0xe8, 0, 0, 0]);
    assert!(test_86_ms_byte(0) && test_86_ms_byte(0xff) && !test_86_ms_byte(1));
}
