//! XZ streams as writers lay them out, and the laws on how their parts are passed.

use vstd::prelude::*;
use crate::error::ErrorView;
use crate::filter::xz_envelope::{
    envelope_after, law_envelope_chunking, place, Envelope, ValidationState, Vli,
    XZ_MAGIC,
};
use crate::filter::xz_layout::{
    filter_fits, law_block_headers_are_judged_by_their_filters, lemma_vli_step, written_vli,
    WrittenBlockHeader,
};

verus! {

/// Some bytes lead from one place of a container to another.
#[verifier::opaque]
pub open spec fn leads(from: Envelope, bytes: Seq<u8>, memory: Option<usize>, to: Envelope) -> bool {
    envelope_after(from, bytes, memory) == Ok::<Envelope, ErrorView>(to)
}

proof fn lemma_leads_on(
    from: Envelope,
    first: Seq<u8>,
    middle: Envelope,
    second: Seq<u8>,
    to: Envelope,
    memory: Option<usize>,
)
    requires
        leads(from, first, memory, middle),
        leads(middle, second, memory, to),
    ensures
        leads(from, first + second, memory, to),
{
    reveal(leads);
    law_envelope_chunking(from, first, second, memory);
}

proof fn lemma_leads_nowhere(from: Envelope, memory: Option<usize>)
    ensures
        leads(from, Seq::empty(), memory, from),
{
    reveal(leads);
}

proof fn lemma_leads_by_one(from: Envelope, byte: u8, memory: Option<usize>, to: Envelope)
    requires
        from.step(byte, memory) == Ok::<Envelope, ErrorView>(to),
    ensures
        leads(from, seq![byte], memory, to),
{
    reveal(leads);
    assert(seq![byte].drop_last() =~= Seq::<u8>::empty());
    assert(envelope_after(from, Seq::empty(), memory) == Ok::<Envelope, ErrorView>(from));
}

proof fn lemma_leads_by_last(
    from: Envelope,
    bytes: Seq<u8>,
    middle: Envelope,
    memory: Option<usize>,
    to: Envelope,
)
    requires
        bytes.len() > 0,
        leads(from, bytes.drop_last(), memory, middle),
        middle.step(bytes.last(), memory) == Ok::<Envelope, ErrorView>(to),
    ensures
        leads(from, bytes, memory, to),
{
    reveal(leads);
}

// ---------------------------------------------------------------------------
// The stream header
// ---------------------------------------------------------------------------

/// A stream header: the magic, a zero, the type of the checksums and a checksum.
pub open spec fn written_start(kind: u8, crc: Seq<u8>) -> Seq<u8> {
    seq![0xfdu8, 0x37, 0x7a, 0x58, 0x5a, 0, 0, kind] + crc
}

/// The lengths of the checksums that a stream may have: none, CRC32, CRC64 and
/// SHA-256.
pub open spec fn is_check(kind: u8, length: usize) -> bool {
    ||| kind == 0x00 && length == 0
    ||| kind == 0x01 && length == 4
    ||| kind == 0x04 && length == 8
    ||| kind == 0x0a && length == 32
}

proof fn lemma_header_is_held(from: Envelope, bytes: Seq<u8>, memory: Option<usize>)
    requires
        from.state == ValidationState::StreamHeader,
        from.held.len() + bytes.len() < 12,
    ensures
        leads(from, bytes, memory, Envelope { held: from.held + bytes, ..from }),
    decreases bytes.len(),
{
    if bytes.len() == 0 {
        lemma_leads_nowhere(from, memory);
        assert(bytes =~= Seq::<u8>::empty());
        assert(from.held + bytes =~= from.held);
    } else {
        lemma_header_is_held(from, bytes.drop_last(), memory);
        let middle = Envelope { held: from.held + bytes.drop_last(), ..from };
        let to = Envelope { held: from.held + bytes, ..from };
        assert(middle.held.push(bytes.last()) =~= to.held);
        lemma_leads_by_last(from, bytes, middle, memory, to);
    }
}

/// A stream header leads to the first block; the checksums of the blocks have the
/// length that its type says.
pub proof fn law_stream_headers_are_passed(
    from: Envelope,
    kind: u8,
    length: usize,
    crc: Seq<u8>,
    memory: Option<usize>,
)
    requires
        from.state == ValidationState::StreamHeader,
        from.held.len() == 0,
        is_check(kind, length),
        crc.len() == 4,
    ensures
        leads(
            from,
            written_start(kind, crc),
            memory,
            Envelope {
                state: ValidationState::BlockHeaderSize,
                check_size: length,
                ..from
            },
        ),
{
    let bytes = written_start(kind, crc);
    let before = bytes.drop_last();
    lemma_header_is_held(from, before, memory);
    let middle = Envelope { held: from.held + before, ..from };
    let held = middle.held.push(bytes.last());
    assert(held =~= bytes);
    assert(bytes.subrange(0, 6) =~= XZ_MAGIC@);
    let to = Envelope { state: ValidationState::BlockHeaderSize, check_size: length, ..from };
    assert(from.held =~= Seq::<u8>::empty());
    lemma_leads_by_last(from, bytes, middle, memory, to);
}

// ---------------------------------------------------------------------------
// Blocks
// ---------------------------------------------------------------------------

proof fn lemma_block_header_is_held(
    from: Envelope,
    bytes: Seq<u8>,
    memory: Option<usize>,
    total: usize,
)
    requires
        from.state == ValidationState::BlockHeaderSize,
        from.held.len() == 0,
        0 < bytes.len() < total,
        bytes[0] != 0,
        total == 4 * (bytes[0] + 1),
    ensures
        leads(
            from,
            bytes,
            memory,
            Envelope { state: ValidationState::BlockHeader { total }, held: bytes, ..from },
        ),
    decreases bytes.len(),
{
    let to = Envelope { state: ValidationState::BlockHeader { total }, held: bytes, ..from };
    if bytes.len() == 1 {
        assert(bytes =~= seq![bytes[0]]);
        assert(from.held.push(bytes[0]) =~= bytes);
        lemma_leads_by_one(from, bytes[0], memory, to);
    } else {
        let before = bytes.drop_last();
        lemma_block_header_is_held(from, before, memory, total);
        let middle = Envelope { state: ValidationState::BlockHeader { total }, held: before, ..from };
        assert(before.push(bytes.last()) =~= bytes);
        lemma_leads_by_last(from, bytes, middle, memory, to);
    }
}

/// A block header leads to the first chunk of the block, unless a filter that it lists
/// is over the budget; nothing of the block is counted then.
pub proof fn law_block_headers_are_passed(
    from: Envelope,
    header: WrittenBlockHeader,
    memory: Option<usize>,
)
    requires
        from.state == ValidationState::BlockHeaderSize,
        from.held.len() == 0,
        header.is_allowed(),
        memory matches Some(limit) ==> forall|i: int|
            0 <= i < header.filters.len() ==> filter_fits(
                #[trigger] header.filters[i],
                limit as nat,
            ),
    ensures
        leads(
            from,
            header.bytes(),
            memory,
            Envelope { state: ValidationState::LzmaControl, block_data_bytes: 0, ..from },
        ),
{
    let bytes = header.bytes();
    let before = bytes.drop_last();
    let total = bytes.len() as usize;
    assert(bytes[0] == before[0]);
    lemma_block_header_is_held(from, before, memory, total);
    law_block_headers_are_judged_by_their_filters(header, memory);
    let middle = Envelope { state: ValidationState::BlockHeader { total }, held: before, ..from };
    assert(before.push(bytes.last()) =~= bytes);
    assert(from.held =~= Seq::<u8>::empty());
    let to = Envelope { state: ValidationState::LzmaControl, block_data_bytes: 0, ..from };
    lemma_leads_by_last(from, bytes, middle, memory, to);
}

/// A chunk of LZMA2 data.
pub enum WrittenChunk {
    /// Data as it is; `reset` tells whether the dictionary is emptied first.
    Stored { reset: bool, data: Seq<u8> },
    /// Compressed data that keeps the properties; the top bits of the size before
    /// compression stand in the control byte.
    Packed { control: u8, size: (u8, u8), data: Seq<u8> },
    /// Compressed data with new properties.
    Renewed { control: u8, size: (u8, u8), properties: u8, data: Seq<u8> },
}

/// A length as two bytes, the highest first, one less than what it counts.
pub open spec fn written_length(length: nat) -> Seq<u8> {
    seq![((length - 1) / 256) as u8, ((length - 1) % 256) as u8]
}

impl WrittenChunk {
    /// The data of the chunk.
    pub open spec fn data(self) -> Seq<u8> {
        match self {
            WrittenChunk::Stored { data, .. } => data,
            WrittenChunk::Packed { data, .. } => data,
            WrittenChunk::Renewed { data, .. } => data,
        }
    }

    /// What stands before the data.
    pub open spec fn head(self) -> Seq<u8> {
        match self {
            WrittenChunk::Stored { reset, data } => seq![
                if reset {
                    1u8
                } else {
                    2u8
                },
            ] + written_length(data.len()),
            WrittenChunk::Packed { control, size, data } => seq![control, size.0, size.1]
                + written_length(data.len()),
            WrittenChunk::Renewed { control, size, properties, data } => seq![
                control,
                size.0,
                size.1,
            ] + written_length(data.len()) + seq![properties],
        }
    }

    /// A chunk that the format allows: one to 65536 bytes of data, and control bytes
    /// from 0x80 on for compressed data, from 0xc0 on with properties.
    pub open spec fn is_allowed(self) -> bool {
        &&& 1 <= self.data().len() <= 0x1_0000
        &&& self matches WrittenChunk::Packed { control, .. } ==> 0x80 <= control < 0xc0
        &&& self matches WrittenChunk::Renewed { control, .. } ==> 0xc0 <= control
    }
}

/// A place inside a block.
pub open spec fn in_block(from: Envelope, state: ValidationState, count: int) -> Envelope {
    Envelope { state, block_data_bytes: (from.block_data_bytes + count) as u64, ..from }
}

proof fn lemma_payload_is_passed(from: Envelope, data: Seq<u8>, memory: Option<usize>, length: usize)
    requires
        from.state == (ValidationState::LzmaPayload { remaining: length }),
        0 <= data.len() <= length,
        0 < length,
        from.block_data_bytes + data.len() <= u64::MAX,
    ensures
        leads(
            from,
            data,
            memory,
            in_block(
                from,
                if data.len() == length {
                    ValidationState::LzmaControl
                } else {
                    ValidationState::LzmaPayload { remaining: (length - data.len()) as usize }
                },
                data.len() as int,
            ),
        ),
    decreases data.len(),
{
    if data.len() == 0 {
        lemma_leads_nowhere(from, memory);
        assert(data =~= Seq::<u8>::empty());
        assert(in_block(from, ValidationState::LzmaPayload { remaining: length }, 0) == from);
    } else {
        let before = data.drop_last();
        lemma_payload_is_passed(from, before, memory, length);
        let remaining = (length - before.len()) as usize;
        let middle = in_block(
            from,
            ValidationState::LzmaPayload { remaining },
            before.len() as int,
        );
        let to = in_block(
            from,
            if data.len() == length {
                ValidationState::LzmaControl
            } else {
                ValidationState::LzmaPayload { remaining: (length - data.len()) as usize }
            },
            data.len() as int,
        );
        lemma_leads_by_last(from, data, middle, memory, to);
    }
}

proof fn lemma_stored_head(from: Envelope, chunk: WrittenChunk, memory: Option<usize>)
    requires
        from.state == ValidationState::LzmaControl,
        chunk is Stored,
        chunk.is_allowed(),
        from.block_data_bytes + 3 <= u64::MAX,
    ensures
        leads(
            from,
            chunk.head(),
            memory,
            in_block(
                from,
                ValidationState::LzmaPayload { remaining: chunk.data().len() as usize },
                3,
            ),
        ),
{
    let head = chunk.head();
    let high = head[1];
    let one = in_block(from, ValidationState::LzmaUncompressedSize { high: 0, used: 0 }, 1);
    let two = in_block(from, ValidationState::LzmaUncompressedSize { high, used: 1 }, 2);
    let three = in_block(
        from,
        ValidationState::LzmaPayload { remaining: chunk.data().len() as usize },
        3,
    );
    lemma_leads_by_one(from, head[0], memory, one);
    lemma_leads_by_one(one, head[1], memory, two);
    lemma_leads_by_one(two, head[2], memory, three);
    lemma_leads_on(from, seq![head[0]], one, seq![head[1]], two, memory);
    lemma_leads_on(from, seq![head[0]] + seq![head[1]], two, seq![head[2]], three, memory);
    assert(head =~= seq![head[0]] + seq![head[1]] + seq![head[2]]);
}

proof fn lemma_packed_head(from: Envelope, chunk: WrittenChunk, memory: Option<usize>)
    requires
        from.state == ValidationState::LzmaControl,
        !(chunk is Stored),
        chunk.is_allowed(),
        from.block_data_bytes + 6 <= u64::MAX,
    ensures
        leads(
            from,
            chunk.head(),
            memory,
            in_block(
                from,
                ValidationState::LzmaPayload { remaining: chunk.data().len() as usize },
                chunk.head().len() as int,
            ),
        ),
{
    let head = chunk.head();
    let control = head[0];
    let high = head[3];
    let low = head[4];
    let zero = in_block(
        from,
        ValidationState::LzmaCompressedHeader { control, high: 0, low: 0, used: 0 },
        1,
    );
    let one = in_block(
        from,
        ValidationState::LzmaCompressedHeader { control, high: 0, low: 0, used: 1 },
        2,
    );
    let two = in_block(
        from,
        ValidationState::LzmaCompressedHeader { control, high: 0, low: 0, used: 2 },
        3,
    );
    let three = in_block(
        from,
        ValidationState::LzmaCompressedHeader { control, high, low: 0, used: 3 },
        4,
    );
    let to = in_block(
        from,
        ValidationState::LzmaPayload { remaining: chunk.data().len() as usize },
        head.len() as int,
    );
    lemma_leads_by_one(from, head[0], memory, zero);
    lemma_leads_by_one(zero, head[1], memory, one);
    lemma_leads_by_one(one, head[2], memory, two);
    lemma_leads_by_one(two, head[3], memory, three);
    let a = seq![head[0]];
    let b = a + seq![head[1]];
    let c = b + seq![head[2]];
    let d = c + seq![head[3]];
    lemma_leads_on(from, a, zero, seq![head[1]], one, memory);
    lemma_leads_on(from, b, one, seq![head[2]], two, memory);
    lemma_leads_on(from, c, two, seq![head[3]], three, memory);
    if chunk is Packed {
        lemma_leads_by_one(three, head[4], memory, to);
        lemma_leads_on(from, d, three, seq![head[4]], to, memory);
        assert(head =~= d + seq![head[4]]);
    } else {
        let four = in_block(
            from,
            ValidationState::LzmaCompressedHeader { control, high, low, used: 4 },
            5,
        );
        lemma_leads_by_one(three, head[4], memory, four);
        lemma_leads_by_one(four, head[5], memory, to);
        lemma_leads_on(from, d, three, seq![head[4]], four, memory);
        lemma_leads_on(from, d + seq![head[4]], four, seq![head[5]], to, memory);
        assert(head =~= d + seq![head[4]] + seq![head[5]]);
    }
}

/// A chunk is passed to its last byte, whatever its data are, and counts as data of
/// the block with all its bytes.
pub proof fn law_chunks_are_passed(from: Envelope, chunk: WrittenChunk, memory: Option<usize>)
    requires
        from.state == ValidationState::LzmaControl,
        chunk.is_allowed(),
        from.block_data_bytes + 0x1_0006 <= u64::MAX,
    ensures
        leads(
            from,
            chunk.head() + chunk.data(),
            memory,
            in_block(
                from,
                ValidationState::LzmaControl,
                (chunk.head() + chunk.data()).len() as int,
            ),
        ),
{
    let length = chunk.data().len() as usize;
    let count = chunk.head().len() as int;
    let middle = in_block(from, ValidationState::LzmaPayload { remaining: length }, count);
    if chunk is Stored {
        lemma_stored_head(from, chunk, memory);
    } else {
        lemma_packed_head(from, chunk, memory);
    }
    lemma_payload_is_passed(middle, chunk.data(), memory, length);
    let to = in_block(from, ValidationState::LzmaControl, count + chunk.data().len());
    assert(in_block(middle, ValidationState::LzmaControl, chunk.data().len() as int) == to);
    lemma_leads_on(from, chunk.head(), middle, chunk.data(), to, memory);
}

proof fn lemma_checksum_is_passed(
    from: Envelope,
    bytes: Seq<u8>,
    memory: Option<usize>,
    length: usize,
)
    requires
        from.state == (ValidationState::BlockChecksum { remaining: length }),
        0 < bytes.len() <= length,
    ensures
        leads(
            from,
            bytes,
            memory,
            from.at(
                if bytes.len() == length {
                    ValidationState::BlockHeaderSize
                } else {
                    ValidationState::BlockChecksum { remaining: (length - bytes.len()) as usize }
                },
            ),
        ),
    decreases bytes.len(),
{
    let to = from.at(
        if bytes.len() == length {
            ValidationState::BlockHeaderSize
        } else {
            ValidationState::BlockChecksum { remaining: (length - bytes.len()) as usize }
        },
    );
    if bytes.len() == 1 {
        assert(bytes =~= seq![bytes[0]]);
        lemma_leads_by_one(from, bytes[0], memory, to);
    } else {
        let before = bytes.drop_last();
        lemma_checksum_is_passed(from, before, memory, length);
        let middle = from.at(
            ValidationState::BlockChecksum { remaining: (length - before.len()) as usize },
        );
        lemma_leads_by_last(from, bytes, middle, memory, to);
    }
}

proof fn lemma_padding_is_passed(
    from: Envelope,
    bytes: Seq<u8>,
    memory: Option<usize>,
    length: usize,
)
    requires
        from.state == (ValidationState::BlockPadding { remaining: length }),
        0 < bytes.len() <= length,
    ensures
        leads(
            from,
            bytes,
            memory,
            from.at(
                if bytes.len() < length {
                    ValidationState::BlockPadding { remaining: (length - bytes.len()) as usize }
                } else if from.check_size == 0 {
                    ValidationState::BlockHeaderSize
                } else {
                    ValidationState::BlockChecksum { remaining: from.check_size }
                },
            ),
        ),
    decreases bytes.len(),
{
    let to = from.at(
        if bytes.len() < length {
            ValidationState::BlockPadding { remaining: (length - bytes.len()) as usize }
        } else if from.check_size == 0 {
            ValidationState::BlockHeaderSize
        } else {
            ValidationState::BlockChecksum { remaining: from.check_size }
        },
    );
    if bytes.len() == 1 {
        assert(bytes =~= seq![bytes[0]]);
        lemma_leads_by_one(from, bytes[0], memory, to);
    } else {
        let before = bytes.drop_last();
        lemma_padding_is_passed(from, before, memory, length);
        let middle = from.at(
            ValidationState::BlockPadding { remaining: (length - before.len()) as usize },
        );
        lemma_leads_by_last(from, bytes, middle, memory, to);
    }
}

/// The end of a block, a zero, padding up to a multiple of four bytes of data and its
/// checksum, leads to the next block.
pub proof fn law_blocks_end(
    from: Envelope,
    padding: Seq<u8>,
    check: Seq<u8>,
    memory: Option<usize>,
)
    requires
        from.state == ValidationState::LzmaControl,
        from.block_data_bytes < u64::MAX,
        padding.len() < 4,
        (from.block_data_bytes + 1 + padding.len()) % 4 == 0,
        check.len() == from.check_size,
    ensures
        leads(
            from,
            seq![0u8] + padding + check,
            memory,
            in_block(from, ValidationState::BlockHeaderSize, 1),
        ),
{
    let rest = if check.len() == 0 {
        ValidationState::BlockHeaderSize
    } else {
        ValidationState::BlockChecksum { remaining: from.check_size }
    };
    let width = padding.len() as usize;
    let one = in_block(
        from,
        if width == 0 {
            rest
        } else {
            ValidationState::BlockPadding { remaining: width }
        },
        1,
    );
    lemma_leads_by_one(from, 0, memory, one);
    let two = in_block(from, rest, 1);
    if width == 0 {
        assert(seq![0u8] + padding =~= seq![0u8]);
    } else {
        lemma_padding_is_passed(one, padding, memory, width);
        lemma_leads_on(from, seq![0u8], one, padding, two, memory);
    }
    let to = in_block(from, ValidationState::BlockHeaderSize, 1);
    if check.len() == 0 {
        assert(seq![0u8] + padding + check =~= seq![0u8] + padding);
    } else {
        lemma_checksum_is_passed(two, check, memory, from.check_size);
        lemma_leads_on(from, seq![0u8] + padding, two, check, to, memory);
    }
}

// ---------------------------------------------------------------------------
// The index and the end
// ---------------------------------------------------------------------------

/// A place inside an index, behind some of its bytes.
pub open spec fn in_index(from: Envelope, state: ValidationState, count: int) -> Envelope {
    Envelope { state, index_bytes: (from.index_bytes + count) as u64, held: Seq::empty(), ..from }
}

/// Where the records of an index end: at its padding up to a multiple of four bytes,
/// or at its checksum.
pub open spec fn at_index_end(from: Envelope, count: int, padding: nat) -> Envelope {
    in_index(
        from,
        if padding == 0 {
            ValidationState::IndexCrc { remaining: 4 }
        } else {
            ValidationState::IndexPadding { remaining: padding as usize }
        },
        count,
    )
}

/// The padding that a length takes: less than four bytes, up to a multiple of four.
pub open spec fn pads(length: int, padding: nat) -> bool {
    padding < 4 && (length + padding) % 4 == 0
}

proof fn lemma_count_is_passed(
    from: Envelope,
    vli: Vli,
    value: nat,
    records: u64,
    padding: nat,
    memory: Option<usize>,
)
    requires
        from.state == (ValidationState::IndexCount { vli }),
        vli.wf(),
        vli.bytes < 9,
        value * place(vli.bytes as int) < place(9),
        records == vli.value + value * place(vli.bytes as int),
        from.index_bytes + written_vli(value).len() <= u64::MAX,
        16 * records <= usize::MAX,
        memory matches Some(limit) ==> 16 * records <= limit,
        pads(from.index_bytes + written_vli(value).len(), padding),
    ensures
        leads(
            from,
            written_vli(value),
            memory,
            if records == 0 {
                at_index_end(from, written_vli(value).len() as int, padding)
            } else {
                in_index(
                    from,
                    ValidationState::IndexRecord {
                        remaining: records,
                        second: false,
                        vli: Vli { value: 0, bytes: 0 },
                    },
                    written_vli(value).len() as int,
                )
            },
        ),
    decreases value,
{
    let next = lemma_vli_step(vli, value);
    let to = if records == 0 {
        at_index_end(from, written_vli(value).len() as int, padding)
    } else {
        in_index(
            from,
            ValidationState::IndexRecord {
                remaining: records,
                second: false,
                vli: Vli { value: 0, bytes: 0 },
            },
            written_vli(value).len() as int,
        )
    };
    if value < 128 {
        lemma_leads_by_one(from, value as u8, memory, to);
    } else {
        let byte = (128 + value % 128) as u8;
        let rest = written_vli(value / 128);
        let middle = Envelope {
            state: ValidationState::IndexCount { vli: next },
            index_bytes: (from.index_bytes + 1) as u64,
            held: from.held.push(byte),
            ..from
        };
        assert(written_vli(value) == seq![byte] + rest);
        lemma_leads_by_one(from, byte, memory, middle);
        lemma_count_is_passed(middle, next, value / 128, records, padding, memory);
        lemma_leads_on(from, seq![byte], middle, rest, to, memory);
    }
}

proof fn lemma_number_is_passed(
    from: Envelope,
    remaining: u64,
    second: bool,
    vli: Vli,
    value: nat,
    padding: nat,
    memory: Option<usize>,
)
    requires
        from.state == (ValidationState::IndexRecord { remaining, second, vli }),
        from.held.len() == 0,
        remaining > 0,
        vli.wf(),
        vli.bytes < 9,
        value * place(vli.bytes as int) < place(9),
        from.index_bytes + written_vli(value).len() <= u64::MAX,
        pads(from.index_bytes + written_vli(value).len(), padding),
    ensures
        leads(
            from,
            written_vli(value),
            memory,
            if second && remaining == 1 {
                at_index_end(from, written_vli(value).len() as int, padding)
            } else {
                in_index(
                    from,
                    ValidationState::IndexRecord {
                        remaining: if second {
                            (remaining - 1) as u64
                        } else {
                            remaining
                        },
                        second: !second,
                        vli: Vli { value: 0, bytes: 0 },
                    },
                    written_vli(value).len() as int,
                )
            },
        ),
    decreases value,
{
    let next = lemma_vli_step(vli, value);
    let count = written_vli(value).len() as int;
    let to = if second && remaining == 1 {
        at_index_end(from, count, padding)
    } else {
        in_index(
            from,
            ValidationState::IndexRecord {
                remaining: if second {
                    (remaining - 1) as u64
                } else {
                    remaining
                },
                second: !second,
                vli: Vli { value: 0, bytes: 0 },
            },
            count,
        )
    };
    assert(from.held =~= Seq::<u8>::empty());
    if value < 128 {
        lemma_leads_by_one(from, value as u8, memory, to);
    } else {
        let byte = (128 + value % 128) as u8;
        let rest = written_vli(value / 128);
        let middle = in_index(
            from,
            ValidationState::IndexRecord { remaining, second, vli: next },
            1,
        );
        assert(written_vli(value) == seq![byte] + rest);
        lemma_leads_by_one(from, byte, memory, middle);
        lemma_number_is_passed(middle, remaining, second, next, value / 128, padding, memory);
        lemma_leads_on(from, seq![byte], middle, rest, to, memory);
    }
}

/// Records of an index, two numbers each.
pub open spec fn written_records(records: Seq<(nat, nat)>) -> Seq<u8>
    decreases records.len(),
{
    if records.len() == 0 {
        Seq::empty()
    } else {
        written_vli(records[0].0) + written_vli(records[0].1) + written_records(records.skip(1))
    }
}

proof fn lemma_some_padding(length: int) -> (padding: nat)
    ensures
        pads(length, padding),
{
    ((4 - length % 4) % 4) as nat
}

proof fn lemma_records_are_passed(
    from: Envelope,
    records: Seq<(nat, nat)>,
    padding: nat,
    memory: Option<usize>,
)
    requires
        0 < records.len() <= u64::MAX,
        from.state == (ValidationState::IndexRecord {
            remaining: records.len() as u64,
            second: false,
            vli: Vli { value: 0, bytes: 0 },
        }),
        from.held.len() == 0,
        forall|i: int|
            0 <= i < records.len() ==> (#[trigger] records[i]).0 < 0x8000_0000_0000_0000
                && records[i].1 < 0x8000_0000_0000_0000,
        from.index_bytes + written_records(records).len() <= u64::MAX,
        pads(from.index_bytes + written_records(records).len(), padding),
    ensures
        leads(
            from,
            written_records(records),
            memory,
            at_index_end(from, written_records(records).len() as int, padding),
        ),
    decreases records.len(),
{
    let zero = Vli { value: 0, bytes: 0 };
    let remaining = records.len() as u64;
    let one = written_vli(records[0].0);
    let two = written_vli(records[0].1);
    let rest = records.skip(1);
    let middle = in_index(
        from,
        ValidationState::IndexRecord { remaining, second: true, vli: zero },
        one.len() as int,
    );
    assert(place(0) == 1 && place(9) == 0x8000_0000_0000_0000);
    assert(records[0].0 * place(0) == records[0].0);
    assert(records[0].1 * place(0) == records[0].1);
    assert(written_records(records) =~= one + two + written_records(rest));
    let some = lemma_some_padding(from.index_bytes + one.len());
    lemma_number_is_passed(from, remaining, false, zero, records[0].0, some, memory);
    let to = at_index_end(from, written_records(records).len() as int, padding);
    if records.len() == 1 {
        assert(written_records(rest) =~= Seq::<u8>::empty());
        assert(written_records(records) =~= one + two);
        lemma_number_is_passed(middle, remaining, true, zero, records[0].1, padding, memory);
        assert(at_index_end(middle, two.len() as int, padding) == to);
        lemma_leads_on(from, one, middle, two, to, memory);
    } else {
        let some = lemma_some_padding(middle.index_bytes + two.len());
        lemma_number_is_passed(middle, remaining, true, zero, records[0].1, some, memory);
        let next = in_index(
            middle,
            ValidationState::IndexRecord {
                remaining: (remaining - 1) as u64,
                second: false,
                vli: zero,
            },
            two.len() as int,
        );
        lemma_leads_on(from, one, middle, two, next, memory);
        assert forall|i: int| 0 <= i < rest.len() implies (#[trigger] rest[i]).0
            < 0x8000_0000_0000_0000 && rest[i].1 < 0x8000_0000_0000_0000 by {
            assert(rest[i] == records[i + 1]);
        }
        lemma_records_are_passed(next, rest, padding, memory);
        assert(at_index_end(next, written_records(rest).len() as int, padding) == to);
        lemma_leads_on(from, one + two, next, written_records(rest), to, memory);
    }
}

proof fn lemma_index_padding_is_passed(
    from: Envelope,
    bytes: Seq<u8>,
    memory: Option<usize>,
    length: usize,
)
    requires
        from.state == (ValidationState::IndexPadding { remaining: length }),
        0 < bytes.len() <= length,
    ensures
        leads(
            from,
            bytes,
            memory,
            from.at(
                if bytes.len() < length {
                    ValidationState::IndexPadding { remaining: (length - bytes.len()) as usize }
                } else {
                    ValidationState::IndexCrc { remaining: 4 }
                },
            ),
        ),
    decreases bytes.len(),
{
    let to = from.at(
        if bytes.len() < length {
            ValidationState::IndexPadding { remaining: (length - bytes.len()) as usize }
        } else {
            ValidationState::IndexCrc { remaining: 4 }
        },
    );
    if bytes.len() == 1 {
        assert(bytes =~= seq![bytes[0]]);
        lemma_leads_by_one(from, bytes[0], memory, to);
    } else {
        let before = bytes.drop_last();
        lemma_index_padding_is_passed(from, before, memory, length);
        let middle = from.at(
            ValidationState::IndexPadding { remaining: (length - before.len()) as usize },
        );
        lemma_leads_by_last(from, bytes, middle, memory, to);
    }
}

proof fn lemma_index_crc_is_passed(from: Envelope, bytes: Seq<u8>, memory: Option<usize>)
    requires
        from.state == (ValidationState::IndexCrc { remaining: 4 }),
        0 < bytes.len() <= 4,
    ensures
        leads(
            from,
            bytes,
            memory,
            from.at(
                if bytes.len() < 4 {
                    ValidationState::IndexCrc { remaining: (4 - bytes.len()) as usize }
                } else {
                    ValidationState::Footer { remaining: 12 }
                },
            ),
        ),
    decreases bytes.len(),
{
    let to = from.at(
        if bytes.len() < 4 {
            ValidationState::IndexCrc { remaining: (4 - bytes.len()) as usize }
        } else {
            ValidationState::Footer { remaining: 12 }
        },
    );
    if bytes.len() == 1 {
        assert(bytes =~= seq![bytes[0]]);
        lemma_leads_by_one(from, bytes[0], memory, to);
    } else {
        let before = bytes.drop_last();
        lemma_index_crc_is_passed(from, before, memory);
        let middle = from.at(ValidationState::IndexCrc { remaining: (4 - before.len()) as usize });
        lemma_leads_by_last(from, bytes, middle, memory, to);
    }
}

proof fn lemma_footer_is_passed(from: Envelope, bytes: Seq<u8>, memory: Option<usize>)
    requires
        from.state == (ValidationState::Footer { remaining: 12 }),
        0 < bytes.len() <= 12,
    ensures
        leads(
            from,
            bytes,
            memory,
            if bytes.len() < 12 {
                from.at(ValidationState::Footer { remaining: (12 - bytes.len()) as usize })
            } else {
                Envelope { stream_padding: 0, ..from }.at(ValidationState::StreamPadding)
            },
        ),
    decreases bytes.len(),
{
    let to = if bytes.len() < 12 {
        from.at(ValidationState::Footer { remaining: (12 - bytes.len()) as usize })
    } else {
        Envelope { stream_padding: 0, ..from }.at(ValidationState::StreamPadding)
    };
    if bytes.len() == 1 {
        assert(bytes =~= seq![bytes[0]]);
        lemma_leads_by_one(from, bytes[0], memory, to);
    } else {
        let before = bytes.drop_last();
        lemma_footer_is_passed(from, before, memory);
        let middle = from.at(ValidationState::Footer { remaining: (12 - before.len()) as usize });
        lemma_leads_by_last(from, bytes, middle, memory, to);
    }
}

/// An index as a writer lays it out.
pub struct WrittenIndex {
    pub records: Seq<(nat, nat)>,
    pub padding: Seq<u8>,
    pub crc: Seq<u8>,
}

impl WrittenIndex {
    /// A zero, the number of records and the records.
    pub open spec fn head(self) -> Seq<u8> {
        seq![0u8] + written_vli(self.records.len()) + written_records(self.records)
    }

    /// The bytes of the index: the head, padding and a checksum.
    pub open spec fn bytes(self) -> Seq<u8> {
        self.head() + self.padding + self.crc
    }

    /// An index that the format allows: numbers of 63 bits, padding up to a multiple
    /// of four bytes, and a checksum of four bytes.
    pub open spec fn is_allowed(self) -> bool {
        &&& self.records.len() < 0x8000_0000_0000_0000
        &&& forall|i: int|
            0 <= i < self.records.len() ==> (#[trigger] self.records[i]).0 < 0x8000_0000_0000_0000
                && self.records[i].1 < 0x8000_0000_0000_0000
        &&& self.head().len() <= u64::MAX
        &&& pads(self.head().len() as int, self.padding.len())
        &&& self.crc.len() == 4
    }

    /// The records fit the memory, at sixteen bytes each.
    pub open spec fn fits(self, memory: Option<usize>) -> bool {
        &&& 16 * self.records.len() <= usize::MAX
        &&& memory matches Some(limit) ==> 16 * self.records.len() <= limit
    }
}

/// An index and the twelve bytes of a footer lead behind the stream, where padding or
/// another stream may follow.
pub proof fn law_indexes_end_a_stream(
    from: Envelope,
    index: WrittenIndex,
    footer: Seq<u8>,
    memory: Option<usize>,
)
    requires
        from.state == ValidationState::BlockHeaderSize,
        from.held.len() == 0,
        index.is_allowed(),
        index.fits(memory),
        footer.len() == 12,
    ensures
        leads(
            from,
            index.bytes() + footer,
            memory,
            Envelope {
                state: ValidationState::StreamPadding,
                index_bytes: index.head().len() as u64,
                stream_padding: 0,
                ..from
            },
        ),
{
    let zero = Vli { value: 0, bytes: 0 };
    let count = written_vli(index.records.len());
    let list = written_records(index.records);
    let padding = index.padding.len();
    assert(place(0) == 1 && place(9) == 0x8000_0000_0000_0000);
    assert(index.records.len() * place(0) == index.records.len());
    assert(from.held =~= Seq::<u8>::empty());
    let one = Envelope { index_bytes: 1, ..from }.at(ValidationState::IndexCount { vli: zero });
    lemma_leads_by_one(from, 0, memory, one);
    let records = index.records.len() as u64;
    let end = at_index_end(one, (count.len() + list.len()) as int, padding);
    if records == 0 {
        assert(list =~= Seq::<u8>::empty());
        assert(index.head() =~= seq![0u8] + count);
        lemma_count_is_passed(one, zero, index.records.len(), records, padding, memory);
        lemma_leads_on(from, seq![0u8], one, count, end, memory);
    } else {
        let some = lemma_some_padding((1 + count.len()) as int);
        lemma_count_is_passed(one, zero, index.records.len(), records, some, memory);
        let two = in_index(
            one,
            ValidationState::IndexRecord { remaining: records, second: false, vli: zero },
            count.len() as int,
        );
        lemma_leads_on(from, seq![0u8], one, count, two, memory);
        lemma_records_are_passed(two, index.records, padding, memory);
        assert(at_index_end(two, list.len() as int, padding) == end);
        lemma_leads_on(from, seq![0u8] + count, two, list, end, memory);
    }
    let three = end.at(ValidationState::IndexCrc { remaining: 4 });
    if padding == 0 {
        assert(index.head() + index.padding =~= index.head());
    } else {
        lemma_index_padding_is_passed(end, index.padding, memory, padding as usize);
        lemma_leads_on(from, index.head(), end, index.padding, three, memory);
    }
    lemma_index_crc_is_passed(three, index.crc, memory);
    let four = end.at(ValidationState::Footer { remaining: 12 });
    lemma_leads_on(from, index.head() + index.padding, three, index.crc, four, memory);
    lemma_footer_is_passed(four, footer, memory);
    let to = Envelope { stream_padding: 0, ..four }.at(ValidationState::StreamPadding);
    lemma_leads_on(from, index.bytes(), four, footer, to, memory);
}

proof fn lemma_count_is_refused(
    from: Envelope,
    vli: Vli,
    value: nat,
    records: u64,
    memory: usize,
)
    requires
        from.state == (ValidationState::IndexCount { vli }),
        vli.wf(),
        vli.bytes < 9,
        value * place(vli.bytes as int) < place(9),
        records == vli.value + value * place(vli.bytes as int),
        from.index_bytes + written_vli(value).len() <= u64::MAX,
        16 * records > memory,
    ensures
        envelope_after(from, written_vli(value), Some(memory)) is Err,
    decreases value,
{
    let next = lemma_vli_step(vli, value);
    if value < 128 {
        assert(written_vli(value).drop_last() =~= Seq::<u8>::empty());
        assert(envelope_after(from, Seq::empty(), Some(memory)) == Ok::<Envelope, ErrorView>(from));
    } else {
        let byte = (128 + value % 128) as u8;
        let rest = written_vli(value / 128);
        let middle = Envelope {
            state: ValidationState::IndexCount { vli: next },
            index_bytes: (from.index_bytes + 1) as u64,
            held: from.held.push(byte),
            ..from
        };
        assert(written_vli(value) == seq![byte] + rest);
        lemma_leads_by_one(from, byte, Some(memory), middle);
        lemma_count_is_refused(middle, next, value / 128, records, memory);
        reveal(leads);
        law_envelope_chunking(from, seq![byte], rest, Some(memory));
    }
}

/// An index with more records than the memory holds, at sixteen bytes each, is
/// refused at its count, before any record is read.
pub proof fn law_large_indexes_are_refused(from: Envelope, records: u64, memory: usize)
    requires
        from.state == (ValidationState::IndexCount { vli: Vli { value: 0, bytes: 0 } }),
        from.index_bytes + written_vli(records as nat).len() <= u64::MAX,
        records < 0x8000_0000_0000_0000,
        16 * records > memory,
    ensures
        envelope_after(from, written_vli(records as nat), Some(memory)) is Err,
{
    assert(place(0) == 1 && place(9) == 0x8000_0000_0000_0000);
    assert(records * place(0) == records);
    lemma_count_is_refused(from, Vli { value: 0, bytes: 0 }, records as nat, records, memory);
}

// ---------------------------------------------------------------------------
// Whole streams
// ---------------------------------------------------------------------------

/// A block as a writer lays it out.
pub struct WrittenBlock {
    pub header: WrittenBlockHeader,
    pub chunks: Seq<WrittenChunk>,
    pub padding: Seq<u8>,
    pub check: Seq<u8>,
}

/// Chunks one behind the other.
pub open spec fn written_chunks(chunks: Seq<WrittenChunk>) -> Seq<u8>
    decreases chunks.len(),
{
    if chunks.len() == 0 {
        Seq::empty()
    } else {
        written_chunks(chunks.drop_last()) + (chunks.last().head() + chunks.last().data())
    }
}

impl WrittenBlock {
    /// The bytes of the block: the header, the chunks and a zero, padding and a
    /// checksum.
    pub open spec fn bytes(self) -> Seq<u8> {
        self.header.bytes() + written_chunks(self.chunks) + (seq![0u8] + self.padding + self.check)
    }

    /// A block that the format allows in a stream whose checksums have a length, and
    /// whose filters fit the memory.
    pub open spec fn is_allowed(self, length: usize, memory: Option<usize>) -> bool {
        &&& self.header.is_allowed()
        &&& memory matches Some(limit) ==> forall|i: int|
            0 <= i < self.header.filters.len() ==> filter_fits(
                #[trigger] self.header.filters[i],
                limit as nat,
            )
        &&& forall|i: int| 0 <= i < self.chunks.len() ==> (#[trigger] self.chunks[i]).is_allowed()
        &&& written_chunks(self.chunks).len() <= 0x8000_0000_0000_0000
        &&& pads((written_chunks(self.chunks).len() + 1) as int, self.padding.len())
        &&& self.check.len() == length
    }
}

proof fn lemma_chunks_are_passed(from: Envelope, chunks: Seq<WrittenChunk>, memory: Option<usize>)
    requires
        from.state == ValidationState::LzmaControl,
        from.block_data_bytes == 0,
        forall|i: int| 0 <= i < chunks.len() ==> (#[trigger] chunks[i]).is_allowed(),
        written_chunks(chunks).len() <= 0x8000_0000_0000_0000,
    ensures
        leads(
            from,
            written_chunks(chunks),
            memory,
            in_block(from, ValidationState::LzmaControl, written_chunks(chunks).len() as int),
        ),
    decreases chunks.len(),
{
    if chunks.len() == 0 {
        lemma_leads_nowhere(from, memory);
        assert(in_block(from, ValidationState::LzmaControl, 0) == from);
    } else {
        let before = chunks.drop_last();
        let last = chunks.last();
        let bytes = last.head() + last.data();
        assert(last == chunks[chunks.len() - 1]);
        assert forall|i: int| 0 <= i < before.len() implies (#[trigger] before[i]).is_allowed() by {
            assert(before[i] == chunks[i]);
        }
        lemma_chunks_are_passed(from, before, memory);
        let middle = in_block(
            from,
            ValidationState::LzmaControl,
            written_chunks(before).len() as int,
        );
        law_chunks_are_passed(middle, last, memory);
        let to = in_block(from, ValidationState::LzmaControl, written_chunks(chunks).len() as int);
        assert(in_block(middle, ValidationState::LzmaControl, bytes.len() as int) == to);
        lemma_leads_on(from, written_chunks(before), middle, bytes, to, memory);
    }
}

/// A block leads to the next one, whatever its chunks are.
pub proof fn law_blocks_are_passed(from: Envelope, block: WrittenBlock, memory: Option<usize>)
    requires
        from.state == ValidationState::BlockHeaderSize,
        from.held.len() == 0,
        block.is_allowed(from.check_size, memory),
    ensures
        leads(
            from,
            block.bytes(),
            memory,
            Envelope {
                block_data_bytes: (written_chunks(block.chunks).len() + 1) as u64,
                ..from
            },
        ),
{
    let one = Envelope { state: ValidationState::LzmaControl, block_data_bytes: 0, ..from };
    law_block_headers_are_passed(from, block.header, memory);
    let data = written_chunks(block.chunks);
    let two = in_block(one, ValidationState::LzmaControl, data.len() as int);
    lemma_chunks_are_passed(one, block.chunks, memory);
    lemma_leads_on(from, block.header.bytes(), one, data, two, memory);
    law_blocks_end(two, block.padding, block.check, memory);
    let to = in_block(two, ValidationState::BlockHeaderSize, 1);
    lemma_leads_on(
        from,
        block.header.bytes() + data,
        two,
        seq![0u8] + block.padding + block.check,
        to,
        memory,
    );
    assert(to == Envelope { block_data_bytes: (data.len() + 1) as u64, ..from });
}

/// Blocks one behind the other.
pub open spec fn written_blocks(blocks: Seq<WrittenBlock>) -> Seq<u8>
    decreases blocks.len(),
{
    if blocks.len() == 0 {
        Seq::empty()
    } else {
        written_blocks(blocks.drop_last()) + blocks.last().bytes()
    }
}

proof fn lemma_blocks_are_passed(
    from: Envelope,
    blocks: Seq<WrittenBlock>,
    memory: Option<usize>,
) -> (to: Envelope)
    requires
        from.state == ValidationState::BlockHeaderSize,
        from.held.len() == 0,
        forall|i: int|
            0 <= i < blocks.len() ==> (#[trigger] blocks[i]).is_allowed(from.check_size, memory),
    ensures
        leads(from, written_blocks(blocks), memory, to),
        to == (Envelope { block_data_bytes: to.block_data_bytes, ..from }),
    decreases blocks.len(),
{
    if blocks.len() == 0 {
        lemma_leads_nowhere(from, memory);
        from
    } else {
        let before = blocks.drop_last();
        let last = blocks.last();
        assert(last == blocks[blocks.len() - 1]);
        assert forall|i: int| 0 <= i < before.len() implies (#[trigger] before[i]).is_allowed(
            from.check_size,
            memory,
        ) by {
            assert(before[i] == blocks[i]);
        }
        let middle = lemma_blocks_are_passed(from, before, memory);
        law_blocks_are_passed(middle, last, memory);
        let to = Envelope {
            block_data_bytes: (written_chunks(last.chunks).len() + 1) as u64,
            ..middle
        };
        lemma_leads_on(from, written_blocks(before), middle, last.bytes(), to, memory);
        to
    }
}

/// A stream that is laid out by the format, a header, any blocks, an index and a
/// footer, is accepted to its last byte, if its filters and its index fit the memory;
/// nothing of it is withheld then, and another stream may follow.
pub proof fn law_streams_are_accepted(
    kind: u8,
    length: usize,
    crc: Seq<u8>,
    blocks: Seq<WrittenBlock>,
    index: WrittenIndex,
    footer: Seq<u8>,
    memory: Option<usize>,
)
    requires
        is_check(kind, length),
        crc.len() == 4,
        forall|i: int| 0 <= i < blocks.len() ==> (#[trigger] blocks[i]).is_allowed(length, memory),
        index.is_allowed(),
        index.fits(memory),
        footer.len() == 12,
    ensures
        envelope_after(
            Envelope::start(),
            written_start(kind, crc) + written_blocks(blocks) + (index.bytes() + footer),
            memory,
        ) matches Ok(end) && {
            &&& end.state == ValidationState::StreamPadding
            &&& end.held.len() == 0
            &&& end.stream_padding == 0
            &&& end.check_size == length
        },
{
    reveal(leads);
    let from = Envelope::start();
    law_stream_headers_are_passed(from, kind, length, crc, memory);
    let one = Envelope { state: ValidationState::BlockHeaderSize, check_size: length, ..from };
    let two = lemma_blocks_are_passed(one, blocks, memory);
    lemma_leads_on(from, written_start(kind, crc), one, written_blocks(blocks), two, memory);
    law_indexes_end_a_stream(two, index, footer, memory);
    let end = Envelope {
        state: ValidationState::StreamPadding,
        index_bytes: index.head().len() as u64,
        stream_padding: 0,
        ..two
    };
    lemma_leads_on(
        from,
        written_start(kind, crc) + written_blocks(blocks),
        two,
        index.bytes() + footer,
        end,
        memory,
    );
}

/// Behind a stream, zeros in words of four bytes may stand before the next one; in
/// any other number they may not.
pub proof fn law_padding_between_streams_comes_in_words(
    from: Envelope,
    byte: u8,
    memory: Option<usize>,
)
    requires
        from.state == ValidationState::StreamPadding,
        from.stream_padding < usize::MAX,
        from.held.len() == 0,
    ensures
        leads(
            from,
            seq![0u8],
            memory,
            Envelope { stream_padding: (from.stream_padding + 1) as usize, ..from },
        ),
        byte != 0 && from.stream_padding % 4 == 0 ==> leads(
            from,
            seq![byte],
            memory,
            Envelope { state: ValidationState::StreamHeader, held: seq![byte], ..from },
        ),
        byte != 0 && from.stream_padding % 4 != 0 ==> from.step(byte, memory) is Err,
{
    lemma_leads_by_one(
        from,
        0,
        memory,
        Envelope { stream_padding: (from.stream_padding + 1) as usize, ..from },
    );
    if byte != 0 && from.stream_padding % 4 == 0 {
        assert(from.held.push(byte) =~= seq![byte]);
        lemma_leads_by_one(
            from,
            byte,
            memory,
            Envelope { state: ValidationState::StreamHeader, held: seq![byte], ..from },
        );
    }
}

} // verus!
