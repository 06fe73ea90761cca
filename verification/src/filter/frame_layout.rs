//! The gzip, lzip, LZ4 and 7z AES formats as writers lay them out, and the laws on
//! how they are read.

use vstd::prelude::*;
use vstd::arithmetic::power2::pow2;
use crate::error::ErrorView;
use crate::filter::aes7z::{
    counter_bytes, derived_key, key_material, padded_block, sha256, AesParams,
};
use crate::filter::crc::crc32_of;
use crate::filter::gzip::{
    extra_end, flag, header_len, law_header_ignores_what_follows, nul_end, text_end, GzipModel,
};
use crate::filter::lz4::{
    bit, block_limit, last_bytes, lz4_block, lz4_linked_block, xxh32, Lz4Model, State, MAGIC,
};
use crate::filter::lzip_member::{
    lzip_dictionary, member_start, LzipFaultView, LzipStreamModel, LZIP_MAGIC,
};
use crate::layout::{
    law_low2_is_read, law_low4_is_read, law_low8_is_read, lemma_byte_at, low2, low4, low8,
    stands_at, zeros,
};

verus! {

// ---------------------------------------------------------------------------
// gzip
// ---------------------------------------------------------------------------

/// A gzip header as a writer lays it out.
pub struct WrittenGzipHeader {
    pub is_text: bool,
    pub time: u32,
    pub extra_flags: u8,
    pub system: u8,
    pub extra: Option<Seq<u8>>,
    pub name: Option<Seq<u8>>,
    pub comment: Option<Seq<u8>>,
    pub check: Option<u16>,
}

/// A text that ends with a zero byte, if it is there.
pub open spec fn ended(text: Option<Seq<u8>>) -> Seq<u8> {
    match text {
        Some(text) => text + seq![0u8],
        None => Seq::empty(),
    }
}

impl WrittenGzipHeader {
    /// The flags: one bit for each part that may be there.
    pub open spec fn flags(self) -> u8 {
        ((if self.is_text {
            1int
        } else {
            0
        }) + (if self.check is Some {
            2int
        } else {
            0
        }) + (if self.extra is Some {
            4int
        } else {
            0
        }) + (if self.name is Some {
            8int
        } else {
            0
        }) + (if self.comment is Some {
            16int
        } else {
            0
        })) as u8
    }

    /// The ten bytes that are always there.
    pub open spec fn fixed(self) -> Seq<u8> {
        seq![0x1fu8, 0x8b, 8, self.flags()] + low4(self.time) + seq![self.extra_flags, self.system]
    }

    /// The extra field behind its length.
    pub open spec fn extra_part(self) -> Seq<u8> {
        match self.extra {
            Some(extra) => low2(extra.len() as u16) + extra,
            None => Seq::empty(),
        }
    }

    /// The checksum of the header.
    pub open spec fn check_part(self) -> Seq<u8> {
        match self.check {
            Some(check) => low2(check),
            None => Seq::empty(),
        }
    }

    /// The bytes of the header: the fixed ones, the extra field, the name, the comment
    /// and the checksum.
    pub open spec fn bytes(self) -> Seq<u8> {
        self.fixed() + self.extra_part() + ended(self.name) + ended(self.comment)
            + self.check_part()
    }

    /// A header that the format allows: texts hold no zero byte, and the length of the
    /// extra field fits two bytes.
    pub open spec fn is_allowed(self) -> bool {
        &&& self.extra matches Some(extra) ==> extra.len() <= 0xffff
        &&& self.name matches Some(name) ==> !name.contains(0)
        &&& self.comment matches Some(comment) ==> !comment.contains(0)
    }
}

proof fn lemma_gzip_flags(header: WrittenGzipHeader)
    ensures
        flag(header.flags(), 2) <==> header.check is Some,
        flag(header.flags(), 4) <==> header.extra is Some,
        flag(header.flags(), 8) <==> header.name is Some,
        flag(header.flags(), 16) <==> header.comment is Some,
{
}

proof fn lemma_nul_end(bytes: Seq<u8>, start: int, at: int)
    requires
        0 <= start <= at < bytes.len(),
        forall|i: int| start <= i < at ==> bytes[i] != 0,
        bytes[at] == 0,
    ensures
        nul_end(bytes, start) == Some(at + 1),
    decreases at - start,
{
    if start < at {
        lemma_nul_end(bytes, start + 1, at);
    }
}

proof fn lemma_text_is_passed(bytes: Seq<u8>, at: int, text: Option<Seq<u8>>)
    requires
        stands_at(bytes, at, ended(text)),
        text matches Some(text) ==> !text.contains(0),
    ensures
        text_end(bytes, at, text is Some) == Some(at + ended(text).len()),
{
    if let Some(own) = text {
        let whole = own + seq![0u8];
        assert forall|i: int| at <= i < at + own.len() implies bytes[i] != 0 by {
            lemma_byte_at(bytes, at, whole, i - at);
            assert(own[i - at] == whole[i - at]);
        }
        lemma_byte_at(bytes, at, whole, own.len() as int);
        lemma_nul_end(bytes, at, at + own.len());
    }
}

proof fn lemma_parts_stand(a: Seq<u8>, b: Seq<u8>, c: Seq<u8>, d: Seq<u8>, e: Seq<u8>, f: Seq<u8>)
    ensures
        ({
            let all = a + b + c + d + e + f;
            &&& stands_at(all, 0, a)
            &&& stands_at(all, a.len() as int, b)
            &&& stands_at(all, (a.len() + b.len()) as int, c)
            &&& stands_at(all, (a.len() + b.len() + c.len()) as int, d)
            &&& all.len() == a.len() + b.len() + c.len() + d.len() + e.len() + f.len()
        }),
{
    let all = a + b + c + d + e + f;
    assert(all.subrange(0, a.len() as int) =~= a);
    assert(all.subrange(a.len() as int, (a.len() + b.len()) as int) =~= b);
    assert(all.subrange((a.len() + b.len()) as int, (a.len() + b.len() + c.len()) as int) =~= c);
    assert(all.subrange(
        (a.len() + b.len() + c.len()) as int,
        (a.len() + b.len() + c.len() + d.len()) as int,
    ) =~= d);
}

/// A gzip header ends where it was written to end, whichever of its parts are there
/// and whatever follows; as long as a byte of it is missing, it is incomplete.
#[verifier::rlimit(40)]
#[verifier::spinoff_prover]
pub proof fn law_gzip_headers_end(header: WrittenGzipHeader, rest: Seq<u8>, cut: int)
    requires
        header.is_allowed(),
        0 <= cut < header.bytes().len(),
    ensures
        header_len(header.bytes() + rest) == Ok::<Option<nat>, ErrorView>(
            Some(header.bytes().len()),
        ),
        header_len(header.bytes().take(cut)) == Ok::<Option<nat>, ErrorView>(None),
{
    let fixed = header.fixed();
    let extra = header.extra_part();
    let name = ended(header.name);
    let comment = ended(header.comment);
    let check = header.check_part();
    let all = header.bytes() + rest;
    assert(fixed.len() == 10);
    lemma_parts_stand(fixed, extra, name, comment, check, rest);
    lemma_gzip_flags(header);
    lemma_byte_at(all, 0, fixed, 0);
    lemma_byte_at(all, 0, fixed, 1);
    lemma_byte_at(all, 0, fixed, 2);
    lemma_byte_at(all, 0, fixed, 3);
    assert(extra_end(all) == Some(10 + extra.len() as int)) by {
        if let Some(own) = header.extra {
            let size = low2(own.len() as u16);
            lemma_byte_at(all, 10, extra, 0);
            lemma_byte_at(all, 10, extra, 1);
            assert(extra[0] == size[0] && extra[1] == size[1]);
            assert(all.subrange(10, 12) =~= size);
            law_low2_is_read(all, 10, own.len() as u16);
        }
    }
    lemma_text_is_passed(all, 10 + extra.len() as int, header.name);
    lemma_text_is_passed(all, 10 + (extra.len() + name.len()) as int, header.comment);
    let part = header.bytes().take(cut);
    law_header_ignores_what_follows(part, header.bytes().skip(cut) + rest);
    assert(part + (header.bytes().skip(cut) + rest) =~= all);
}

/// A gzip trailer holds the checksum of what was decoded and its length modulo two to
/// the thirty-second power, and is accepted exactly if both are right.
pub proof fn law_gzip_trailers_are_judged(model: GzipModel, crc: u32, size: u32)
    requires
        model.trailer == low4(crc) + low4(size),
    ensures
        model.trailer_fault() is None <==> crc == crc32_of(model.decoded) && size
            == model.output_size,
{
    assert(model.trailer.subrange(0, 4) =~= low4(crc));
    assert(model.trailer.subrange(4, 8) =~= low4(size));
    law_low4_is_read(model.trailer, 0, crc);
    law_low4_is_read(model.trailer, 4, size);
}

// ---------------------------------------------------------------------------
// lzip
// ---------------------------------------------------------------------------

/// The size that a byte stands for: the low five bits are the logarithm of a power of
/// two, from which the high three bits take sixteenths. One more in the low bits
/// doubles it, and one more in the high bits takes a sixteenth of the power away.
pub proof fn law_lzip_dictionaries(log2: u8, sixteenths: u8)
    requires
        12 <= log2 <= 29,
        sixteenths <= 7,
    ensures
        ({
            let byte = (log2 + 32 * sixteenths) as u8;
            let size = pow2(log2 as nat) - sixteenths * (pow2((log2 - 4) as nat) as int);
            &&& size >= 4096 ==> lzip_dictionary(byte) == Ok::<nat, LzipFaultView>(size as nat)
            &&& size < 4096 ==> lzip_dictionary(byte) is Err
        }),
        lzip_dictionary(12) == Ok::<nat, LzipFaultView>(4096),
{
    vstd::arithmetic::power2::lemma2_to64();
    let byte = (log2 + 32 * sixteenths) as u8;
    assert(byte % 32 == log2 && byte / 32 == sixteenths);
    vstd::arithmetic::power2::lemma_pow2_adds(4, (log2 - 4) as nat);
    let base = pow2(log2 as nat) as int;
    let step = pow2((log2 - 4) as nat) as int;
    assert(base == 16 * step);
    assert(base / 16 == step);
    assert(step * sixteenths == sixteenths * step) by (nonlinear_arith);
    assert(pow2(12) == 4096);
    assert((4096int / 16) * 0 == 0);
}

/// A member begins with its four letters, the version one and the byte of its
/// dictionary.
pub proof fn law_lzip_headers_are_read(code: u8, member_index: u64)
    ensures
        ({
            let header = seq![0x4cu8, 0x5a, 0x49, 0x50, 1, code];
            &&& lzip_dictionary(code) matches Ok(size) ==> member_start(header, 6, member_index)
                == Ok::<Option<nat>, LzipFaultView>(Some(size))
            &&& lzip_dictionary(code) is Err ==> member_start(header, 6, member_index) is Err
        }),
{
    let header = seq![0x4cu8, 0x5a, 0x49, 0x50, 1, code];
    assert(header.take(4) =~= LZIP_MAGIC@);
}

/// A member's trailer holds the checksum of its data, the length of its data and the
/// length of the whole member, header and trailer included; it is accepted exactly if
/// all three are right.
pub proof fn law_lzip_trailers_are_judged(
    stream: LzipStreamModel,
    crc: u32,
    size: u64,
    member: u64,
    compressed: u64,
)
    requires
        stream.member_index < u64::MAX,
    ensures
        stream.close(low4(crc) + low8(size) + low8(member), compressed) is Ok <==> crc
            == crc32_of(stream.data) && size == stream.data.len() && member == 6 + compressed + 20,
{
    let trailer = low4(crc) + low8(size) + low8(member);
    assert(trailer.subrange(0, 4) =~= low4(crc));
    assert(trailer.subrange(4, 12) =~= low8(size));
    assert(trailer.subrange(12, 20) =~= low8(member));
    law_low4_is_read(trailer, 0, crc);
    law_low8_is_read(trailer, 4, size);
    law_low8_is_read(trailer, 12, member);
}

// ---------------------------------------------------------------------------
// LZ4
// ---------------------------------------------------------------------------

/// A frame header as a writer lays it out.
pub struct WrittenLz4Header {
    pub independent: bool,
    pub block_checksums: bool,
    pub content_size: Option<u64>,
    pub content_checksum: bool,
    /// The code of the largest block: two to the power of eight and twice the code.
    pub block_code: u8,
}

impl WrittenLz4Header {
    /// The flags: the version one, and a bit for each property.
    pub open spec fn flags(self) -> u8 {
        (0x40 + (if self.independent {
            0x20int
        } else {
            0
        }) + (if self.block_checksums {
            0x10int
        } else {
            0
        }) + (if self.content_size is Some {
            8int
        } else {
            0
        }) + (if self.content_checksum {
            4int
        } else {
            0
        })) as u8
    }

    /// The descriptor: flags, block size, and the content size if it is known.
    pub open spec fn descriptor(self) -> Seq<u8> {
        seq![self.flags(), (0x10 * self.block_code) as u8] + match self.content_size {
            Some(size) => low8(size),
            None => Seq::empty(),
        }
    }

    /// The bytes of the header: the magic, the descriptor, and a byte of its hash.
    pub open spec fn bytes(self) -> Seq<u8> {
        seq![0x04u8, 0x22, 0x4d, 0x18] + self.descriptor() + seq![
            (xxh32(self.descriptor()) / 256 % 256) as u8,
        ]
    }
}

proof fn lemma_lz4_flags(header: WrittenLz4Header)
    ensures
        bit(header.flags(), 32) <==> header.independent,
        bit(header.flags(), 16) <==> header.block_checksums,
        bit(header.flags(), 8) <==> header.content_size is Some,
        bit(header.flags(), 4) <==> header.content_checksum,
        !bit(header.flags(), 2),
        !bit(header.flags(), 1),
        header.flags() / 64 == 1,
{
}

/// The code of a block size stands for 64 KiB, and each further one for four times as
/// much, up to 4 MiB.
pub proof fn law_lz4_block_sizes(code: int)
    ensures
        block_limit(4) == Some(0x1_0000nat),
        4 <= code < 7 ==> block_limit(code + 1) == Some(4 * block_limit(code)->0),
        4 <= code <= 7 <==> block_limit(code) is Some,
{
}

/// A frame header that is laid out by the format is taken as it was written, and what
/// follows it is parsed next.
#[verifier::rlimit(40)]
#[verifier::spinoff_prover]
pub proof fn law_lz4_headers_are_read(model: Lz4Model, header: WrittenLz4Header, rest: Seq<u8>)
    requires
        4 <= header.block_code <= 7,
        model.pending == header.bytes() + rest,
    ensures
        model.parse_header() matches Ok(Some(next)) && {
            &&& next.state == State::Blocks
            &&& next.pending == rest
            &&& next.content_size == header.content_size
            &&& next.independent() == header.independent
            &&& next.block_checksum() == header.block_checksums
            &&& next.content_checksum() == header.content_checksum
            &&& Some(next.max_block) == block_limit(header.block_code as int)
            &&& next.content_length == 0
            &&& next.content.len() == 0
            &&& next.dictionary.len() == 0
            &&& next.ready == model.ready
        },
{
    let p = model.pending;
    let magic = seq![0x04u8, 0x22, 0x4d, 0x18];
    let descriptor = header.descriptor();
    let length = (5 + descriptor.len()) as int;
    lemma_lz4_flags(header);
    assert(descriptor.len() == if header.content_size is Some {
        10int
    } else {
        2
    });
    assert(p.take(4) =~= MAGIC@);
    assert(p[4] == descriptor[0]);
    assert(p[5] == descriptor[1]);
    assert(descriptor[1] / 16 == header.block_code);
    assert(descriptor[1] % 16 == 0 && descriptor[1] / 128 == 0);
    assert(p.subrange(4, length - 1) =~= descriptor);
    assert(p[length - 1] == (xxh32(descriptor) / 256 % 256) as u8);
    assert(p.skip(length) =~= rest);
    if let Some(size) = header.content_size {
        assert(p.subrange(6, 14) =~= low8(size));
        law_low8_is_read(p, 6, size);
    }
}

/// A block of a frame as a writer lays it out: its length, with the top bit set if it
/// is stored as it is, its bytes, and the hash of these bytes if blocks have one.
pub open spec fn written_lz4_block(block: Seq<u8>, stored: bool, checksum: bool) -> Seq<u8> {
    low4(
        (block.len() + if stored {
            0x8000_0000int
        } else {
            0
        }) as u32,
    ) + block + if checksum {
        low4(xxh32(block))
    } else {
        Seq::empty()
    }
}

/// What a block decodes to: itself if it is stored, else by itself or behind what was
/// decoded last.
pub open spec fn decoded_block(model: Lz4Model, block: Seq<u8>, stored: bool) -> Result<
    Seq<u8>,
    Seq<char>,
> {
    if stored {
        Ok(block)
    } else if model.independent() {
        lz4_block(block, model.max_block)
    } else {
        lz4_linked_block(block, model.max_block, model.dictionary)
    }
}

/// The content of a frame may grow by some bytes.
pub open spec fn may_grow(model: Lz4Model, count: nat) -> bool {
    &&& model.content_length + count <= u64::MAX
    &&& model.content_size matches Some(size) ==> model.content_length + count <= size
}

/// A block is decoded from exactly its own bytes, a stored one to these bytes, and
/// what follows it is parsed next. The length of the content grows by what it decodes
/// to, and may not grow beyond the declared size. Where blocks are linked, the next one
/// is decoded behind the last 64 KiB.
#[verifier::rlimit(40)]
#[verifier::spinoff_prover]
pub proof fn law_lz4_blocks_are_read(
    model: Lz4Model,
    block: Seq<u8>,
    stored: bool,
    rest: Seq<u8>,
)
    requires
        0 < block.len() <= model.max_block,
        model.max_block < 0x8000_0000,
        model.pending == written_lz4_block(block, stored, model.block_checksum()) + rest,
    ensures
        match decoded_block(model, block, stored) {
            Ok(bytes) => {
                &&& may_grow(model, bytes.len()) ==> (model.parse_block() matches Ok(Some(next))
                    && {
                    &&& next.ready == bytes
                    &&& next.pending == rest
                    &&& next.content_length == model.content_length + bytes.len()
                    &&& next.state == model.state
                    &&& next.content_size == model.content_size
                    &&& next.max_block == model.max_block
                    &&& next.independent() == model.independent()
                    &&& next.block_checksum() == model.block_checksum()
                    &&& next.content_checksum() == model.content_checksum()
                    &&& model.content_checksum() ==> next.content == model.content + bytes
                    &&& !model.independent() ==> is_last_part(
                        next.dictionary,
                        model.dictionary + bytes,
                        0x1_0000,
                    )
                })
                &&& !may_grow(model, bytes.len()) ==> model.parse_block() is Err
            },
            Err(_) => model.parse_block() is Err,
        },
{
    let p = model.pending;
    let size = (block.len() + if stored {
        0x8000_0000int
    } else {
        0
    }) as u32;
    let check = if model.block_checksum() {
        low4(xxh32(block))
    } else {
        Seq::empty()
    };
    assert(p =~= low4(size) + block + check + rest);
    assert(p.subrange(0, 4) =~= low4(size));
    law_low4_is_read(p, 0, size);
    assert(size % 0x8000_0000 == block.len());
    let end = 4 + block.len() as int;
    assert(p.subrange(4, end) =~= block);
    if let Ok(bytes) = decoded_block(model, block, stored) {
        lemma_last_part(model.dictionary + bytes);
    }
    if model.block_checksum() {
        assert(p.subrange(end, end + 4) =~= low4(xxh32(block)));
        law_low4_is_read(p, end, xxh32(block));
        assert(p.skip(end + 4) =~= rest);
    } else {
        assert(p.skip(end) =~= rest);
    }
}

/// A text is the end of another: all of it, or as many bytes as are kept.
pub open spec fn is_last_part(part: Seq<u8>, whole: Seq<u8>, kept: nat) -> bool {
    &&& part.len() == if whole.len() < kept {
        whole.len()
    } else {
        kept
    }
    &&& part == whole.skip(whole.len() - part.len())
}

proof fn lemma_last_part(whole: Seq<u8>)
    ensures
        is_last_part(last_bytes(whole, 0x1_0000), whole, 0x1_0000),
{
    assert(whole.skip(0) =~= whole);
}

/// A record of a block with a wrong hash is refused.
pub proof fn law_lz4_block_hashes_are_held(model: Lz4Model, block: Seq<u8>, hash: u32, rest: Seq<u8>)
    requires
        0 < block.len() <= model.max_block,
        model.max_block < 0x8000_0000,
        model.block_checksum(),
        hash != xxh32(block),
        model.pending == low4((block.len() + 0x8000_0000) as u32) + block + low4(hash) + rest,
    ensures
        model.parse_block() is Err,
{
    let p = model.pending;
    let size = (block.len() + 0x8000_0000) as u32;
    assert(p.subrange(0, 4) =~= low4(size));
    law_low4_is_read(p, 0, size);
    let end = 4 + block.len() as int;
    assert(p.subrange(4, end) =~= block);
    assert(p.subrange(end, end + 4) =~= low4(hash));
    law_low4_is_read(p, end, hash);
}

/// The end mark of a frame, four zero bytes and the hash of the content if the frame
/// has one, ends it exactly if the content has the length that was declared and that
/// hash; the next frame may follow.
pub proof fn law_lz4_frames_end(model: Lz4Model, hash: u32, rest: Seq<u8>)
    requires
        model.pending == low4(0) + (if model.content_checksum() {
            low4(hash)
        } else {
            Seq::empty()
        }) + rest,
    ensures
        ({
            let is_right = (model.content_checksum() ==> hash == xxh32(model.content)) && (
            model.content_size matches Some(size) ==> model.content_length == size);
            &&& is_right ==> (model.parse_block() matches Ok(Some(next)) && {
                &&& next.pending == rest
                &&& next.state == State::Header
                &&& next.saw_frame
                &&& next.ready == model.ready
            })
            &&& !is_right ==> model.parse_block() is Err
        }),
{
    let p = model.pending;
    assert(p.subrange(0, 4) =~= low4(0));
    law_low4_is_read(p, 0, 0);
    if model.content_checksum() {
        assert(p.subrange(4, 8) =~= low4(hash));
        law_low4_is_read(p, 4, hash);
        assert(p.skip(8) =~= rest);
    } else {
        assert(p.skip(4) =~= rest);
    }
}

/// Stored blocks one behind the other.
pub open spec fn written_stored(blocks: Seq<Seq<u8>>, checksum: bool) -> Seq<u8>
    decreases blocks.len(),
{
    if blocks.len() == 0 {
        Seq::empty()
    } else {
        written_lz4_block(blocks[0], true, checksum) + written_stored(blocks.skip(1), checksum)
    }
}

/// The content of blocks that are stored.
pub open spec fn joined_blocks(blocks: Seq<Seq<u8>>) -> Seq<u8>
    decreases blocks.len(),
{
    if blocks.len() == 0 {
        Seq::empty()
    } else {
        blocks[0] + joined_blocks(blocks.skip(1))
    }
}

/// The end of a frame.
pub open spec fn written_lz4_end(checksum: bool, hash: u32) -> Seq<u8> {
    low4(0) + if checksum {
        low4(hash)
    } else {
        Seq::empty()
    }
}

proof fn lemma_pump_goes_on(model: Lz4Model, next: Lz4Model, room: nat, last: Lz4Model, more: Seq<u8>)
    requires
        room > next.ready.len(),
        model.parse() == Ok::<Option<Lz4Model>, ErrorView>(Some(next)),
        next.pending.len() < model.pending.len(),
        (Lz4Model { ready: Seq::empty(), ..next }).pump((room - next.ready.len()) as nat) == Ok::<
            (Lz4Model, Seq<u8>),
            ErrorView,
        >((last, more)),
    ensures
        model.pump(room) == Ok::<(Lz4Model, Seq<u8>), ErrorView>((last, next.ready + more)),
{
    assert(next.ready.take(next.ready.len() as int) =~= next.ready);
    assert(next.ready.skip(next.ready.len() as int) =~= Seq::<u8>::empty());
    assert(next.drained(room) == Lz4Model { ready: Seq::empty(), ..next });
}

proof fn lemma_pump_rests(model: Lz4Model, room: nat)
    requires
        model.state == State::Header,
        model.pending.len() == 0,
    ensures
        model.pump(room) == Ok::<(Lz4Model, Seq<u8>), ErrorView>((model, Seq::empty())),
{
}

/// A decoder stands at blocks that are stored and at the end of their frame.
pub open spec fn holds_stored(model: Lz4Model, blocks: Seq<Seq<u8>>, whole: Seq<u8>) -> bool {
    &&& model.state == State::Blocks
    &&& model.ready.len() == 0
    &&& 0 < model.max_block < 0x8000_0000
    &&& forall|i: int| 0 <= i < blocks.len() ==> 0 < (#[trigger] blocks[i]).len() <= model.max_block
    &&& model.content_length + joined_blocks(blocks).len() <= u64::MAX
    &&& model.content_size matches Some(size) ==> model.content_length + joined_blocks(blocks).len()
        == size
    &&& model.content_checksum() ==> whole == model.content + joined_blocks(blocks)
    &&& model.pending == written_stored(blocks, model.block_checksum()) + written_lz4_end(
        model.content_checksum(),
        xxh32(whole),
    )
}

proof fn lemma_stored_end(model: Lz4Model, whole: Seq<u8>, room: nat) -> (last: Lz4Model)
    requires
        holds_stored(model, Seq::empty(), whole),
        room > 0,
    ensures
        model.pump(room) == Ok::<(Lz4Model, Seq<u8>), ErrorView>((last, Seq::empty())),
        last.state == State::Header,
        last.pending.len() == 0,
        last.saw_frame,
{
    let hash = if model.content_checksum() {
        low4(xxh32(whole))
    } else {
        Seq::empty()
    };
    assert(model.pending =~= low4(0) + hash + Seq::<u8>::empty());
    assert(model.content_checksum() ==> whole =~= model.content);
    law_lz4_frames_end(model, xxh32(whole), Seq::empty());
    let next = model.parse()->Ok_0->0;
    let last = Lz4Model { ready: Seq::empty(), ..next };
    assert(next.ready =~= Seq::<u8>::empty());
    lemma_pump_rests(last, room);
    lemma_pump_goes_on(model, next, room, last, Seq::empty());
    assert(Seq::<u8>::empty() + Seq::<u8>::empty() =~= Seq::<u8>::empty());
    last
}

proof fn lemma_stored_step(model: Lz4Model, blocks: Seq<Seq<u8>>, whole: Seq<u8>) -> (next: Lz4Model)
    requires
        blocks.len() > 0,
        holds_stored(model, blocks, whole),
    ensures
        model.parse() == Ok::<Option<Lz4Model>, ErrorView>(Some(next)),
        next.ready == blocks[0],
        next.pending.len() < model.pending.len(),
        holds_stored(Lz4Model { ready: Seq::empty(), ..next }, blocks.skip(1), whole),
{
    let first = blocks[0];
    let others = blocks.skip(1);
    let end = written_lz4_end(model.content_checksum(), xxh32(whole));
    let own = written_lz4_block(first, true, model.block_checksum());
    let tail = written_stored(others, model.block_checksum());
    let rest = tail + end;
    assert(written_stored(blocks, model.block_checksum()) == own + tail);
    lemma_join(own, tail, end);
    assert(own.len() > 0);
    assert(joined_blocks(blocks) == first + joined_blocks(others));
    law_lz4_blocks_are_read(model, first, true, rest);
    let next = model.parse()->Ok_0->0;
    let after = Lz4Model { ready: Seq::empty(), ..next };
    assert forall|i: int| 0 <= i < others.len() implies 0 < (#[trigger] others[i]).len()
        <= after.max_block by {
        assert(others[i] == blocks[i + 1]);
    }
    lemma_join(model.content, first, joined_blocks(others));
    next
}

proof fn lemma_join(a: Seq<u8>, b: Seq<u8>, c: Seq<u8>)
    ensures
        a + b + c == a + (b + c),
{
    assert(a + b + c =~= a + (b + c));
}

proof fn lemma_stored_blocks(
    model: Lz4Model,
    blocks: Seq<Seq<u8>>,
    room: nat,
    whole: Seq<u8>,
) -> (last: Lz4Model)
    requires
        holds_stored(model, blocks, whole),
        room > joined_blocks(blocks).len(),
    ensures
        model.pump(room) == Ok::<(Lz4Model, Seq<u8>), ErrorView>((last, joined_blocks(blocks))),
        last.state == State::Header,
        last.pending.len() == 0,
        last.saw_frame,
    decreases blocks.len(),
{
    if blocks.len() == 0 {
        assert(blocks =~= Seq::<Seq<u8>>::empty());
        lemma_stored_end(model, whole, room)
    } else {
        let next = lemma_stored_step(model, blocks, whole);
        let after = Lz4Model { ready: Seq::empty(), ..next };
        let left = (room - blocks[0].len()) as nat;
        let last = lemma_stored_blocks(after, blocks.skip(1), left, whole);
        lemma_pump_goes_on(model, next, room, last, joined_blocks(blocks.skip(1)));
        last
    }
}

/// A frame of stored blocks is decoded to what the blocks hold, one behind the other,
/// whichever of its checks are there; nothing of it is left then, and another frame may
/// follow.
#[verifier::rlimit(40)]
#[verifier::spinoff_prover]
pub proof fn law_stored_frames_are_decoded(
    model: Lz4Model,
    header: WrittenLz4Header,
    blocks: Seq<Seq<u8>>,
    room: nat,
)
    requires
        model.state == State::Header,
        model.ready.len() == 0,
        4 <= header.block_code <= 7,
        forall|i: int|
            0 <= i < blocks.len() ==> 0 < (#[trigger] blocks[i]).len() <= 0x1_0000,
        joined_blocks(blocks).len() <= u64::MAX,
        header.content_size matches Some(size) ==> joined_blocks(blocks).len() == size,
        model.pending == header.bytes() + (written_stored(blocks, header.block_checksums)
            + written_lz4_end(header.content_checksum, xxh32(joined_blocks(blocks)))),
        room > joined_blocks(blocks).len(),
    ensures
        model.pump(room) matches Ok((last, bytes)) && {
            &&& bytes == joined_blocks(blocks)
            &&& last.state == State::Header
            &&& last.pending.len() == 0
            &&& last.saw_frame
        },
{
    let rest = written_stored(blocks, header.block_checksums) + written_lz4_end(
        header.content_checksum,
        xxh32(joined_blocks(blocks)),
    );
    law_lz4_headers_are_read(model, header, rest);
    law_lz4_block_sizes(4);
    law_lz4_block_sizes(5);
    law_lz4_block_sizes(6);
    let next = model.parse()->Ok_0->0;
    let after = Lz4Model { ready: Seq::empty(), ..next };
    assert(next.ready =~= Seq::<u8>::empty());
    assert(after.content + joined_blocks(blocks) =~= joined_blocks(blocks));
    let last = lemma_stored_blocks(after, blocks, room, joined_blocks(blocks));
    assert(header.bytes().len() > 0);
    lemma_pump_goes_on(model, next, room, last, joined_blocks(blocks));
    assert(Seq::<u8>::empty() + joined_blocks(blocks) =~= joined_blocks(blocks));
}

// ---------------------------------------------------------------------------
// 7z AES
// ---------------------------------------------------------------------------

/// The properties of an AES coder as a writer lays them out: the work factor with a
/// bit each for a salt and a vector, one less than their lengths in half a byte each,
/// the salt and the vector.
pub open spec fn written_aes(cycles: u8, salt: Seq<u8>, vector: Seq<u8>) -> Seq<u8> {
    seq![
        (cycles + (if salt.len() > 0 {
            0x80int
        } else {
            0
        }) + (if vector.len() > 0 {
            0x40int
        } else {
            0
        })) as u8,
        (16 * (if salt.len() > 0 {
            salt.len() - 1
        } else {
            0
        }) + (if vector.len() > 0 {
            vector.len() - 1
        } else {
            0
        })) as u8,
    ] + salt + vector
}

/// Properties that are laid out by the format are accepted exactly if the work factor
/// is at most twenty-four, and give back the work factor, the salt and the vector, the
/// two latter with zeros up to a block.
pub proof fn law_aes_properties_are_read(
    props: &[u8],
    params: Option<AesParams>,
    cycles: u8,
    salt: Seq<u8>,
    vector: Seq<u8>,
)
    requires
        cycles < 64,
        salt.len() <= 16,
        vector.len() <= 16,
        props@ == written_aes(cycles, salt, vector),
        call_ensures(AesParams::parse, (props,), params),
    ensures
        params is Some <==> cycles <= 24,
        params matches Some(params) ==> {
            &&& params.ncp == cycles
            &&& params.salt_len == salt.len()
            &&& params.salt@ == salt + zeros((16 - salt.len()) as nat)
            &&& params.iv@ == vector + zeros((16 - vector.len()) as nat)
        },
{
    let bytes = props@;
    lemma_aes_bits(cycles, salt.len(), vector.len());
    assert(bytes.subrange(2, (2 + salt.len()) as int) =~= salt);
    assert(bytes.subrange((2 + salt.len()) as int, (2 + salt.len() + vector.len()) as int)
        =~= vector);
    assert(padded_block(salt) =~= salt + zeros((16 - salt.len()) as nat));
    assert(padded_block(vector) =~= vector + zeros((16 - vector.len()) as nat));
}

proof fn lemma_aes_bits(cycles: u8, salt: nat, vector: nat)
    requires
        cycles < 64,
        salt <= 16,
        vector <= 16,
    ensures
        ({
            let first = (cycles + (if salt > 0 {
                0x80int
            } else {
                0
            }) + (if vector > 0 {
                0x40int
            } else {
                0
            })) as u8;
            let second = (16 * (if salt > 0 {
                salt - 1
            } else {
                0
            }) + (if vector > 0 {
                vector - 1
            } else {
                0
            })) as u8;
            &&& first % 64 == cycles
            &&& first / 128 + second / 16 == salt
            &&& (first / 64) % 2 + second % 16 == vector
        }),
{
}

/// One round of what is hashed for a key.
pub open spec fn key_round(salt: Seq<u8>, password: Seq<u8>, round: nat) -> Seq<u8> {
    salt + password + low8(round as u64)
}

proof fn lemma_digit_of_low(low: int, high: int, weight: int, factor: int)
    requires
        weight > 0,
        weight * factor == 0x1_0000_0000,
        factor % 0x100 == 0,
    ensures
        ((low + 0x1_0000_0000 * high) / weight) % 0x100 == (low / weight) % 0x100,
{
    let step = factor / 0x100;
    assert(0x1_0000_0000 * high == (factor * high) * weight) by (nonlinear_arith)
        requires
            weight * factor == 0x1_0000_0000,
    ;
    vstd::arithmetic::div_mod::lemma_hoist_over_denominator(low, factor * high, weight as nat);
    assert(factor * high == 0x100 * (step * high)) by (nonlinear_arith)
        requires
            factor == 0x100 * step,
    ;
    vstd::arithmetic::div_mod::lemma_mod_multiples_vanish(step * high, low / weight, 0x100);
}

proof fn lemma_digit_of_high(low: int, high: int, weight: int)
    requires
        0 <= low < 0x1_0000_0000,
        weight > 0,
        0 <= high,
    ensures
        (low + 0x1_0000_0000 * high) / (0x1_0000_0000 * weight) == high / weight,
{
    let value = low + 0x1_0000_0000 * high;
    vstd::arithmetic::div_mod::lemma_div_denominator(value, 0x1_0000_0000, weight);
    assert(value / 0x1_0000_0000 == high);
}

proof fn lemma_counter(value: u64)
    ensures
        counter_bytes(value as nat) == low8(value),
{
    let low = (value % 0x1_0000_0000) as int;
    let high = (value / 0x1_0000_0000) as int;
    assert(value == low + 0x1_0000_0000 * high);
    lemma_digit_of_low(low, high, 1, 0x1_0000_0000);
    lemma_digit_of_low(low, high, 0x100, 0x100_0000);
    lemma_digit_of_low(low, high, 0x1_0000, 0x1_0000);
    lemma_digit_of_low(low, high, 0x100_0000, 0x100);
    lemma_digit_of_high(low, high, 1);
    lemma_digit_of_high(low, high, 0x100);
    lemma_digit_of_high(low, high, 0x1_0000);
    lemma_digit_of_high(low, high, 0x100_0000);
    assert(counter_bytes(value as nat) =~= low8(value));
}

proof fn lemma_round_stands(salt: Seq<u8>, password: Seq<u8>, rounds: nat, round: nat)
    requires
        round < rounds <= 0x1_0000_0000_0000_0000,
    ensures
        ({
            let width = salt.len() + password.len() + 8;
            &&& key_material(salt, password, rounds).len() == rounds * width
            &&& stands_at(
                key_material(salt, password, rounds),
                (round * width) as int,
                key_round(salt, password, round),
            )
        }),
    decreases rounds,
{
    let width = salt.len() + password.len() + 8;
    let last = (rounds - 1) as nat;
    let before = key_material(salt, password, last);
    lemma_counter(last as u64);
    let own = key_round(salt, password, last);
    let all = key_material(salt, password, rounds);
    assert(all =~= before + own);
    assert(own.len() == width);
    assert(rounds * width == last * width + width) by (nonlinear_arith)
        requires
            rounds == last + 1,
    ;
    if last == 0 {
        assert(0 * width == 0) by (nonlinear_arith);
        assert(before.len() == 0);
        assert(round * width == 0) by (nonlinear_arith)
            requires
                round == 0,
        ;
        assert(all.subrange(0, width as int) =~= own);
    } else {
        lemma_round_stands(
            salt,
            password,
            last,
            if round < last {
                round
            } else {
                0
            },
        );
        if round == last {
            assert(all.subrange((last * width) as int, (last * width + width) as int) =~= own);
        } else {
            assert(round * width + width <= last * width) by (nonlinear_arith)
                requires
                    round + 1 <= last,
            ;
            assert(all.subrange((round * width) as int, (round * width + width) as int)
                =~= before.subrange((round * width) as int, (round * width + width) as int));
        }
    }
}

/// A key is the hash of as many rounds as two to the power of the work factor says,
/// one behind the other, each made of the salt, the password and its number in eight
/// bytes.
pub proof fn law_keys_hash_all_rounds(cycles: u8, salt: Seq<u8>, password: Seq<u8>, round: nat)
    requires
        cycles < 64,
        round < pow2(cycles as nat),
    ensures
        exists|material: Seq<u8>|
            {
                let width = salt.len() + password.len() + 8;
                &&& derived_key(cycles, salt, password) == #[trigger] sha256(material)
                &&& material.len() == pow2(cycles as nat) * width
                &&& stands_at(material, (round * width) as int, key_round(salt, password, round))
            },
{
    vstd::arithmetic::power2::lemma2_to64();
    vstd::arithmetic::power2::lemma2_to64_rest();
    if cycles < 63 {
        vstd::arithmetic::power2::lemma_pow2_strictly_increases(cycles as nat, 63);
    }
    lemma_round_stands(salt, password, pow2(cycles as nat), round);
    assert(derived_key(cycles, salt, password) == sha256(
        key_material(salt, password, pow2(cycles as nat)),
    ));
}

} // verus!
