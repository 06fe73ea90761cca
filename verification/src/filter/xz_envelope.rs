//! Incremental check of the XZ container around LZMA2 data.
//!
//! The validator sees every byte before the decoder does. It withholds the
//! stream header, each block header and the index record count until the memory
//! that they ask for has passed the codec budget, and hands every other byte on
//! at once.

use vstd::prelude::*;
use vstd::arithmetic::power2::pow2;
use vstd::string::*;
use crate::bytes::starts_with;
use crate::error::{fault, ArchiveError, ErrorKind, ErrorView};
use crate::text::{decimal, decimal_digits};

verus! {

/// Longest block header: the size byte counts words of four bytes.
pub const MAX_HEADER: usize = 1024;

/// The six bytes that open an XZ stream.
pub const XZ_MAGIC: [u8; 6] = [0xfd, 0x37, 0x7a, 0x58, 0x5a, 0x00];

/// Bytes of decoder memory that one index record takes.
pub const INDEX_RECORD_BYTES: usize = 16;

/// A malformed-stream error about XZ.
pub open spec fn xz_malformed(context: Seq<char>) -> ErrorView {
    fault(ErrorKind::Malformed, "xz", context)
}

/// A budget error about XZ.
pub open spec fn xz_limit(context: Seq<char>) -> ErrorView {
    fault(ErrorKind::Limit, "xz", context)
}

pub(crate) fn malformed(context: &str) -> (error: ArchiveError)
    ensures
        error@ == xz_malformed(context@),
{
    ArchiveError::of_format(ErrorKind::Malformed, "xz", context)
}

fn over_limit(context: String) -> (error: ArchiveError)
    ensures
        error@ == xz_limit(context@),
{
    ArchiveError::of_format_text(ErrorKind::Limit, "xz", context)
}

// ---------------------------------------------------------------------------
// Multibyte integers
// ---------------------------------------------------------------------------

/// A multibyte integer of which `bytes` bytes have been read.
#[derive(Clone, Copy, Debug, PartialEq, Eq, Structural)]
pub struct Vli {
    pub value: u64,
    pub bytes: u8,
}

/// The weight of the `index`-th base-128 digit, for the digits that fit.
pub open spec fn place(index: int) -> nat {
    if index <= 0 {
        1
    } else if index == 1 {
        0x80
    } else if index == 2 {
        0x4000
    } else if index == 3 {
        0x20_0000
    } else if index == 4 {
        0x1000_0000
    } else if index == 5 {
        0x8_0000_0000
    } else if index == 6 {
        0x400_0000_0000
    } else if index == 7 {
        0x2_0000_0000_0000
    } else if index == 8 {
        0x100_0000_0000_0000
    } else {
        0x8000_0000_0000_0000
    }
}

fn place_value(index: u8) -> (weight: u64)
    requires
        index <= 9,
    ensures
        weight == place(index as int),
{
    match index {
        0 => 1,
        1 => 0x80,
        2 => 0x4000,
        3 => 0x20_0000,
        4 => 0x1000_0000,
        5 => 0x8_0000_0000,
        6 => 0x400_0000_0000,
        7 => 0x2_0000_0000_0000,
        8 => 0x100_0000_0000_0000,
        _ => 0x8000_0000_0000_0000,
    }
}

/// What reading one more byte of a multibyte integer does: the next state and,
/// at its last byte, the value.
pub open spec fn vli_next(vli: Vli, byte: u8) -> Result<(Vli, Option<u64>), ErrorView> {
    if vli.bytes >= 9 {
        Err(xz_malformed("XZ multibyte integer is too large"@))
    } else {
        let next = Vli {
            value: (vli.value + (byte % 128) * place(vli.bytes as int)) as u64,
            bytes: (vli.bytes + 1) as u8,
        };
        if byte < 128 {
            Ok((next, Some(next.value)))
        } else if next.bytes == 9 {
            Err(xz_malformed("XZ multibyte integer is too long"@))
        } else {
            Ok((next, None))
        }
    }
}

impl Vli {
    /// The digits read so far fit the value.
    pub open spec fn wf(self) -> bool {
        self.bytes <= 9 && self.value < place(self.bytes as int)
    }

    /// No byte read yet.
    pub open spec fn zero() -> Vli {
        Vli { value: 0, bytes: 0 }
    }

    /// Starts a multibyte integer.
    pub fn new() -> (vli: Self)
        ensures
            vli == Vli::zero(),
            vli.wf(),
    {
        Vli { value: 0, bytes: 0 }
    }

    /// Reads one byte; returns the value at the integer's last byte.
    pub fn push(&mut self, byte: u8) -> (result: Result<Option<u64>, ArchiveError>)
        requires
            old(self).wf(),
        ensures
            match result {
                Ok(value) => vli_next(*old(self), byte) == Ok::<_, ErrorView>(
                    (*final(self), value),
                ) && final(self).wf(),
                Err(error) => vli_next(*old(self), byte) == Err::<(Vli, Option<u64>), _>(error@),
            },
    {
        if self.bytes >= 9 {
            return Err(malformed("XZ multibyte integer is too large"));
        }
        let weight: u64 = place_value(self.bytes);
        let digit: u64 = (byte % 128) as u64;
        proof {
            assert(digit * weight <= 127 * weight) by (nonlinear_arith)
                requires
                    digit <= 127,
            ;
        }
        self.value = self.value + digit * weight;
        self.bytes = self.bytes + 1;
        if byte < 128 {
            Ok(Some(self.value))
        } else if self.bytes == 9 {
            Err(malformed("XZ multibyte integer is too long"))
        } else {
            Ok(None)
        }
    }
}

/// Reading a multibyte integer out of `data[offset..end]` from state `vli` on:
/// its value and the offset behind it.
pub open spec fn vli_scan(data: Seq<u8>, offset: int, end: int, vli: Vli) -> Result<
    (u64, int),
    ErrorView,
>
    decreases end - offset,
{
    if offset >= end {
        Err(xz_malformed("incomplete XZ multibyte integer"@))
    } else {
        match vli_next(vli, data[offset]) {
            Err(error) => Err(error),
            Ok((_, Some(value))) => Ok((value, offset + 1)),
            Ok((next, None)) => vli_scan(data, offset + 1, end, next),
        }
    }
}

/// The number that a run of base-128 digits stands for, least significant first.
pub open spec fn base128(digits: Seq<u8>) -> nat
    decreases digits.len(),
{
    if digits.len() == 0 {
        0
    } else {
        ((digits[0] % 128) + 128 * base128(digits.drop_first())) as nat
    }
}

/// A multibyte integer that is read from its first byte on stands for the
/// base-128 number of its bytes, of which only the last has its top bit clear.
pub proof fn law_vli_is_base128(data: Seq<u8>, offset: int, end: int)
    requires
        0 <= offset,
        end <= data.len(),
    ensures
        vli_scan(data, offset, end, Vli::zero()) matches Ok((value, next)) ==> {
            &&& offset < next <= end
            &&& next - offset <= 9
            &&& data[next - 1] < 128
            &&& forall|i: int| offset <= i < next - 1 ==> data[i] >= 128
            &&& value == base128(data.subrange(offset, next))
        },
{
    if offset < end {
        lemma_vli_scan(data, offset, offset, end, Vli::zero());
    }
}

proof fn lemma_base128_push(digits: Seq<u8>, byte: u8)
    requires
        digits.len() <= 8,
    ensures
        base128(digits.push(byte)) == base128(digits) + (byte % 128) * place(digits.len() as int),
    decreases digits.len(),
{
    if digits.len() == 0 {
        assert(digits.push(byte).drop_first() =~= digits);
        assert(base128(digits) == 0);
        assert(base128(digits.push(byte)) == byte % 128);
        let d: int = (byte % 128) as int;
        let p: int = place(digits.len() as int) as int;
        assert(d * p == d) by (nonlinear_arith)
            requires
                p == 1,
        ;
    } else {
        let rest = digits.drop_first();
        lemma_base128_push(rest, byte);
        assert(digits.push(byte).drop_first() =~= rest.push(byte));
        let d: int = (byte % 128) as int;
        let p: int = place(rest.len() as int) as int;
        let q: int = place(digits.len() as int) as int;
        assert(128 * (d * p) == d * q) by (nonlinear_arith)
            requires
                q == 128 * p,
        ;
        assert(digits.push(byte)[0] == digits[0]);
        assert(base128(digits.push(byte)) == (digits[0] % 128) + 128 * base128(rest.push(byte)));
        assert(base128(digits) == (digits[0] % 128) + 128 * base128(rest));
        assert(base128(rest.push(byte)) == base128(rest) + d * p);
    }
}

proof fn lemma_vli_scan(data: Seq<u8>, start: int, offset: int, end: int, vli: Vli)
    requires
        0 <= start <= offset,
        end <= data.len(),
        vli.wf(),
        vli.bytes < 9,
        vli.bytes == offset - start,
        offset <= end,
        vli.value == base128(data.subrange(start, offset)),
        forall|i: int| start <= i < offset ==> data[i] >= 128,
    ensures
        vli_scan(data, offset, end, vli) matches Ok((value, next)) ==> {
            &&& offset < next <= end
            &&& next - start <= 9
            &&& data[next - 1] < 128
            &&& forall|i: int| start <= i < next - 1 ==> data[i] >= 128
            &&& value == base128(data.subrange(start, next))
        },
    decreases end - offset,
{
    if offset < end {
        let byte = data[offset];
        let digits = data.subrange(start, offset);
        lemma_base128_push(digits, byte);
        assert(digits.push(byte) =~= data.subrange(start, offset + 1));
        let d: int = (byte % 128) as int;
        let p: int = place(vli.bytes as int) as int;
        assert(0 <= d * p <= 127 * p) by (nonlinear_arith)
            requires
                0 <= d <= 127,
                0 <= p,
        ;
        match vli_next(vli, byte) {
            Ok((next, None)) => {
                lemma_vli_scan(data, start, offset + 1, end, next);
            },
            _ => {},
        }
    }
}

/// Reads a multibyte integer out of `data[offset..end]` and moves `offset`
/// behind it.
pub fn parse_vli(data: &[u8], offset: &mut usize, end: usize) -> (result: Result<u64, ArchiveError>)
    requires
        end <= data@.len(),
    ensures
        match result {
            Ok(value) => vli_scan(data@, *old(offset) as int, end as int, Vli::zero()) == Ok::<
                _,
                ErrorView,
            >((value, *final(offset) as int)) && *old(offset) < *final(offset) <= end,
            Err(error) => vli_scan(data@, *old(offset) as int, end as int, Vli::zero()) == Err::<
                (u64, int),
                _,
            >(error@),
        },
{
    let mut vli = Vli::new();
    while *offset < end
        invariant
            end <= data@.len(),
            vli.wf(),
            *old(offset) <= *offset,
            vli_scan(data@, *offset as int, end as int, vli) == vli_scan(
                data@,
                *old(offset) as int,
                end as int,
                Vli::zero(),
            ),
        decreases end - *offset,
    {
        let byte: u8 = data[*offset];
        *offset = *offset + 1;
        match vli.push(byte) {
            Err(error) => {
                return Err(error);
            },
            Ok(Some(value)) => {
                return Ok(value);
            },
            Ok(None) => {},
        }
    }
    Err(malformed("incomplete XZ multibyte integer"))
}

// ---------------------------------------------------------------------------
// Memory that headers ask for
// ---------------------------------------------------------------------------

/// The LZMA2 dictionary size that a property byte stands for.
pub open spec fn dictionary_size(property: u8) -> Option<nat> {
    if property > 40 {
        None
    } else if property == 40 {
        Some(u32::MAX as nat)
    } else {
        Some(((2 + property % 2) * pow2((property / 2 + 11) as nat)) as nat)
    }
}

/// Decodes an LZMA2 dictionary size.
pub fn decode_dictionary(property: u8) -> (result: Result<u32, ArchiveError>)
    ensures
        match result {
            Ok(size) => dictionary_size(property) == Some(size as nat),
            Err(error) => dictionary_size(property) is None && error@ == xz_malformed(
                "invalid LZMA2 dictionary size"@,
            ),
        },
{
    if property > 40 {
        return Err(malformed("invalid LZMA2 dictionary size"));
    }
    if property == 40 {
        return Ok(u32::MAX);
    }
    let base: u32 = 2 + (property % 2) as u32;
    let shift: u32 = (property / 2) as u32 + 11;
    proof {
        vstd::arithmetic::power2::lemma2_to64();
        if shift < 30 {
            vstd::arithmetic::power2::lemma_pow2_strictly_increases(shift as nat, 30);
        }
        let weight: int = pow2(shift as nat) as int;
        assert(base * weight <= 3 * weight) by (nonlinear_arith)
            requires
                base <= 3,
                weight >= 0,
        ;
        vstd::bits::lemma_u32_shl_is_mul(base, shift);
    }
    Ok(base << shift)
}

/// KiB that decoding LZMA2 data with a dictionary of `dict_size` bytes takes:
/// the fixed part, one compressed chunk, and the dictionary rounded up to 16
/// bytes.
pub open spec fn lzma2_kib(dict_size: u32) -> nat {
    if dict_size >= u32::MAX - 15 {
        (104 + u32::MAX / 1024) as nat
    } else {
        (104 + ((dict_size + 15) / 16 * 16) / 1024) as nat
    }
}

/// `lzma_rust2::lzma2_get_memory_usage`: claimed to be `40` KiB, `64` KiB for
/// one chunk, and the KiB of the dictionary rounded up to a multiple of 16
/// bytes, where the largest sizes count as `u32::MAX`.
pub assume_specification[ lzma_rust2::lzma2_get_memory_usage ](dict_size: u32) -> (kib: u32)
    ensures
        kib == lzma2_kib(dict_size),
;

/// The refusal, if any, of `count` filters listed from `offset` on under a
/// budget of `limit` bytes.
pub open spec fn filter_list_fault(
    header: Seq<u8>,
    offset: int,
    end: int,
    count: nat,
    limit: nat,
) -> Option<ErrorView>
    decreases count,
{
    if count == 0 {
        None
    } else {
        match vli_scan(header, offset, end, Vli::zero()) {
            Err(error) => Some(error),
            Ok((id, sized)) => match vli_scan(header, sized, end, Vli::zero()) {
                Err(error) => Some(error),
                Ok((size, start)) => if size > usize::MAX {
                    Some(xz_malformed("XZ filter properties are too large"@))
                } else if start + size > end {
                    Some(xz_malformed("truncated XZ filter properties"@))
                } else if id == 0x21 && size != 1 {
                    Some(xz_malformed("invalid LZMA2 properties size"@))
                } else {
                    let refused = if id == 0x21 {
                        lzma2_fault(header[start], limit)
                    } else {
                        None
                    };
                    match refused {
                        Some(error) => Some(error),
                        None => filter_list_fault(
                            header,
                            start + size,
                            end,
                            (count - 1) as nat,
                            limit,
                        ),
                    }
                },
            },
        }
    }
}

/// The refusal, if any, of an LZMA2 filter with the given property byte.
pub open spec fn lzma2_fault(property: u8, limit: nat) -> Option<ErrorView> {
    match dictionary_size(property) {
        None => Some(xz_malformed("invalid LZMA2 dictionary size"@)),
        Some(size) => {
            let required = lzma2_kib(size as u32) * 1024;
            if required > limit {
                Some(xz_limit(workspace_text(required, limit)))
            } else {
                None
            }
        },
    }
}

/// The message about a workspace of `required` bytes.
pub open spec fn workspace_text(required: nat, limit: nat) -> Seq<char> {
    "LZMA2 workspace requires "@ + decimal_digits(required) + " bytes, limit is "@
        + decimal_digits(limit)
}

/// The offset behind a multibyte integer at `offset` if one is present there.
pub open spec fn skip_vli(header: Seq<u8>, offset: int, end: int, present: bool) -> Result<
    int,
    ErrorView,
> {
    if present {
        match vli_scan(header, offset, end, Vli::zero()) {
            Ok((_, next)) => Ok(next),
            Err(error) => Err(error),
        }
    } else {
        Ok(offset)
    }
}

/// The refusal, if any, of a block header under a codec budget: bit 6 and bit 7
/// of the flags announce two sizes, the low two bits count the filters.
pub open spec fn block_fault(header: Seq<u8>, codec_memory: Option<usize>) -> Option<ErrorView> {
    match codec_memory {
        None => None,
        Some(limit) => if header.len() < 8 || header.len() > MAX_HEADER {
            Some(xz_malformed("invalid XZ block header size"@))
        } else {
            let flags = header[1];
            let end = header.len() - 4;
            match skip_vli(header, 2, end, (flags / 64) % 2 == 1) {
                Err(error) => Some(error),
                Ok(second) => match skip_vli(header, second, end, flags / 128 == 1) {
                    Err(error) => Some(error),
                    Ok(filters) => filter_list_fault(
                        header,
                        filters,
                        end,
                        (flags % 4 + 1) as nat,
                        limit as nat,
                    ),
                },
            }
        },
    }
}

fn check_lzma2(property: u8, limit: usize) -> (result: Result<(), ArchiveError>)
    ensures
        match result {
            Ok(()) => lzma2_fault(property, limit as nat) is None,
            Err(error) => lzma2_fault(property, limit as nat) == Some(error@),
        },
{
    let dictionary: u32 = decode_dictionary(property)?;
    let required: u64 = (lzma_rust2::lzma2_get_memory_usage(dictionary) as u64) * 1024;
    if required > limit as u64 {
        let mut text = "LZMA2 workspace requires ".to_string();
        text.append(decimal(required).as_str());
        text.append(" bytes, limit is ");
        text.append(decimal(limit as u64).as_str());
        return Err(over_limit(text));
    }
    Ok(())
}

/// Checks the memory that the filters of a block header ask for.
pub fn validate_block_memory(header: &[u8], codec_memory: Option<usize>) -> (result: Result<
    (),
    ArchiveError,
>)
    ensures
        match result {
            Ok(()) => block_fault(header@, codec_memory) is None,
            Err(error) => block_fault(header@, codec_memory) == Some(error@),
        },
{
    let limit: usize = match codec_memory {
        Some(limit) => limit,
        None => {
            return Ok(());
        },
    };
    if header.len() < 8 || header.len() > MAX_HEADER {
        return Err(malformed("invalid XZ block header size"));
    }
    let flags: u8 = header[1];
    let filters: u8 = flags % 4 + 1;
    let data_end: usize = header.len() - 4;
    let mut offset: usize = 2;
    if (flags / 64) % 2 == 1 {
        let _ = parse_vli(header, &mut offset, data_end)?;
    }
    if flags / 128 == 1 {
        let _ = parse_vli(header, &mut offset, data_end)?;
    }
    let mut left: u8 = filters;
    while left > 0
        invariant
            codec_memory == Some(limit),
            header@.len() >= 8,
            data_end == header@.len() - 4,
            block_fault(header@, codec_memory) == filter_list_fault(
                header@,
                offset as int,
                data_end as int,
                left as nat,
                limit as nat,
            ),
        decreases left,
    {
        let id: u64 = parse_vli(header, &mut offset, data_end)?;
        let declared: u64 = parse_vli(header, &mut offset, data_end)?;
        let size: usize = match usize::try_from(declared) {
            Ok(size) => size,
            Err(_) => {
                return Err(malformed("XZ filter properties are too large"));
            },
        };
        if size > data_end - offset {
            return Err(malformed("truncated XZ filter properties"));
        }
        if id == 0x21 {
            if size != 1 {
                return Err(malformed("invalid LZMA2 properties size"));
            }
            check_lzma2(header[offset], limit)?;
        }
        offset = offset + size;
        left = left - 1;
    }
    Ok(())
}

/// The refusal, if any, of an index of `records` records.
pub open spec fn index_fault(records: u64, codec_memory: Option<usize>) -> Option<ErrorView> {
    let required = records * INDEX_RECORD_BYTES;
    if records > usize::MAX {
        Some(xz_limit("XZ index record count exceeds the platform address space"@))
    } else if required > usize::MAX {
        Some(xz_limit("XZ index allocation size overflow"@))
    } else if codec_memory matches Some(limit) && required > limit {
        Some(xz_limit(index_text(required as nat)))
    } else {
        None
    }
}

/// The message about an index of `required` bytes.
pub open spec fn index_text(required: nat) -> Seq<char> {
    "XZ index requires "@ + decimal_digits(required)
        + " bytes, codec workspace limit was exceeded"@
}

/// Checks the memory that the index asks for.
pub fn validate_index_memory(records: u64, codec_memory: Option<usize>) -> (result: Result<
    (),
    ArchiveError,
>)
    ensures
        match result {
            Ok(()) => index_fault(records, codec_memory) is None,
            Err(error) => index_fault(records, codec_memory) == Some(error@),
        },
{
    let count: usize = match usize::try_from(records) {
        Ok(count) => count,
        Err(_) => {
            return Err(
                ArchiveError::of_format(
                    ErrorKind::Limit,
                    "xz",
                    "XZ index record count exceeds the platform address space",
                ),
            );
        },
    };
    let required: usize = match count.checked_mul(INDEX_RECORD_BYTES) {
        Some(required) => required,
        None => {
            return Err(
                ArchiveError::of_format(
                    ErrorKind::Limit,
                    "xz",
                    "XZ index allocation size overflow",
                ),
            );
        },
    };
    if let Some(limit) = codec_memory {
        if required > limit {
            let mut text = "XZ index requires ".to_string();
            text.append(decimal(required as u64).as_str());
            text.append(" bytes, codec workspace limit was exceeded");
            return Err(over_limit(text));
        }
    }
    Ok(())
}

// ---------------------------------------------------------------------------
// The envelope
// ---------------------------------------------------------------------------

/// Where in the container the next byte stands.
#[allow(inconsistent_fields)]
#[derive(Clone, Copy, Debug, PartialEq, Eq, Structural)]
pub enum ValidationState {
    /// In the twelve bytes of a stream header.
    StreamHeader,
    /// At the size byte of a block header, or at the index marker.
    BlockHeaderSize,
    /// In a block header of `total` bytes.
    BlockHeader { total: usize },
    /// At an LZMA2 control byte.
    LzmaControl,
    /// In the two size bytes of an uncompressed chunk, `used` of them read.
    LzmaUncompressedSize { high: u8, used: u8 },
    /// In the sizes of a compressed chunk, `used` bytes of them read.
    LzmaCompressedHeader { control: u8, high: u8, low: u8, used: u8 },
    /// In a chunk's data.
    LzmaPayload { remaining: usize },
    /// In the padding behind a block's data.
    BlockPadding { remaining: usize },
    /// In a block's checksum.
    BlockChecksum { remaining: usize },
    /// In the number of index records.
    IndexCount { vli: Vli },
    /// In the records of the index; `second` tells its two numbers apart.
    IndexRecord { remaining: u64, second: bool, vli: Vli },
    /// In the padding of the index.
    IndexPadding { remaining: usize },
    /// In the checksum of the index.
    IndexCrc { remaining: usize },
    /// In the stream footer.
    Footer { remaining: usize },
    /// In the padding between streams.
    StreamPadding,
    /// Behind a control byte that the decoder will refuse.
    OpaqueMalformed,
}

/// The mathematical content of an [`XzValidator`].
#[verifier::ext_equal]
pub struct Envelope {
    pub state: ValidationState,
    pub held: Seq<u8>,
    pub check_size: usize,
    pub block_data_bytes: u64,
    pub index_bytes: u64,
    pub stream_padding: usize,
}

/// The length of a block checksum of the given type.
pub open spec fn check_length(kind: u8) -> Option<usize> {
    if kind == 0 {
        Some(0)
    } else if kind == 1 {
        Some(4)
    } else if kind == 4 {
        Some(8)
    } else if kind == 10 {
        Some(32)
    } else {
        None
    }
}

/// Zero bytes up to the next multiple of four.
pub open spec fn padding4(length: u64) -> usize {
    ((4 - length % 4) % 4) as usize
}

/// What follows a block's padding: its checksum, unless that is empty.
pub open spec fn after_padding(check_size: usize) -> ValidationState {
    if check_size == 0 {
        ValidationState::BlockHeaderSize
    } else {
        ValidationState::BlockChecksum { remaining: check_size }
    }
}

/// What follows a block's last LZMA2 byte.
pub open spec fn after_block(block_data_bytes: u64, check_size: usize) -> ValidationState {
    if padding4(block_data_bytes) == 0 {
        after_padding(check_size)
    } else {
        ValidationState::BlockPadding { remaining: padding4(block_data_bytes) }
    }
}

/// What follows the last index record.
pub open spec fn after_records(index_bytes: u64) -> ValidationState {
    if padding4(index_bytes) == 0 {
        ValidationState::IndexCrc { remaining: 4 }
    } else {
        ValidationState::IndexPadding { remaining: padding4(index_bytes) }
    }
}

/// What an LZMA2 control byte announces.
pub open spec fn after_control(byte: u8, block_data_bytes: u64, check_size: usize) -> ValidationState {
    if byte == 0 {
        after_block(block_data_bytes, check_size)
    } else if byte <= 2 {
        ValidationState::LzmaUncompressedSize { high: 0, used: 0 }
    } else if byte < 0x80 {
        ValidationState::OpaqueMalformed
    } else {
        ValidationState::LzmaCompressedHeader { control: byte, high: 0, low: 0, used: 0 }
    }
}

/// The bytes of a chunk whose length field holds `high` and `low`.
pub open spec fn chunk_length(high: u8, low: u8) -> usize {
    (256 * high + low + 1) as usize
}

/// Counts a run down by one byte.
pub open spec fn countdown(remaining: usize, rest: ValidationState, next: ValidationState) -> ValidationState {
    if remaining == 1 {
        next
    } else {
        rest
    }
}

impl Envelope {
    /// The envelope in another state.
    pub open spec fn at(self, state: ValidationState) -> Envelope {
        Envelope { state, ..self }
    }

    /// The envelope with nothing withheld.
    pub open spec fn released(self) -> Envelope {
        Envelope { held: Seq::empty(), ..self }
    }

    /// The envelope with one more byte of block data counted.
    pub open spec fn block_byte(self) -> Result<Envelope, ErrorView> {
        if self.block_data_bytes == u64::MAX {
            Err(xz_malformed("XZ block length overflow"@))
        } else {
            Ok(Envelope { block_data_bytes: (self.block_data_bytes + 1) as u64, ..self })
        }
    }

    /// The envelope with one more byte of the index counted.
    pub open spec fn index_byte(self) -> Result<Envelope, ErrorView> {
        if self.index_bytes == u64::MAX {
            Err(xz_malformed("XZ index length overflow"@))
        } else {
            Ok(Envelope { index_bytes: (self.index_bytes + 1) as u64, ..self })
        }
    }

    /// The step over a byte of a stream header.
    pub open spec fn header_step(self, byte: u8) -> Result<Envelope, ErrorView> {
        let held = self.held.push(byte);
        if held.len() < 12 {
            Ok(Envelope { held, ..self })
        } else if held.subrange(0, 6) != XZ_MAGIC@ {
            Err(xz_malformed("invalid XZ stream magic"@))
        } else if held[6] != 0 {
            Err(xz_malformed("invalid XZ stream flags"@))
        } else {
            match check_length(held[7]) {
                None => Err(xz_malformed("unsupported XZ check type"@)),
                Some(check_size) => Ok(
                    Envelope { check_size, ..self }.released().at(ValidationState::BlockHeaderSize),
                ),
            }
        }
    }

    /// The step over a byte of the index record count.
    pub open spec fn count_step(self, vli: Vli, byte: u8, codec_memory: Option<usize>) -> Result<
        Envelope,
        ErrorView,
    > {
        match self.index_byte() {
            Err(error) => Err(error),
            Ok(counted) => match vli_next(vli, byte) {
                Err(error) => Err(error),
                Ok((next, None)) => Ok(
                    Envelope { held: self.held.push(byte), ..counted }.at(
                        ValidationState::IndexCount { vli: next },
                    ),
                ),
                Ok((_, Some(records))) => match index_fault(records, codec_memory) {
                    Some(error) => Err(error),
                    None => Ok(
                        counted.released().at(
                            if records == 0 {
                                after_records(counted.index_bytes)
                            } else {
                                ValidationState::IndexRecord {
                                    remaining: records,
                                    second: false,
                                    vli: Vli::zero(),
                                }
                            },
                        ),
                    ),
                },
            },
        }
    }

    /// The step over a byte of an index record.
    pub open spec fn record_step(self, remaining: u64, second: bool, vli: Vli, byte: u8) -> Result<
        Envelope,
        ErrorView,
    > {
        match self.index_byte() {
            Err(error) => Err(error),
            Ok(counted) => match vli_next(vli, byte) {
                Err(error) => Err(error),
                Ok((next, None)) => Ok(
                    counted.at(ValidationState::IndexRecord { remaining, second, vli: next }),
                ),
                Ok((_, Some(_))) => Ok(
                    counted.at(
                        if !second {
                            ValidationState::IndexRecord {
                                remaining,
                                second: true,
                                vli: Vli::zero(),
                            }
                        } else if remaining == 1 {
                            after_records(counted.index_bytes)
                        } else {
                            ValidationState::IndexRecord {
                                remaining: (remaining - 1) as u64,
                                second: false,
                                vli: Vli::zero(),
                            }
                        },
                    ),
                ),
            },
        }
    }

    /// The step over one byte of block data.
    pub open spec fn block_step(self, byte: u8) -> Result<Envelope, ErrorView> {
        match self.block_byte() {
            Err(error) => Err(error),
            Ok(counted) => Ok(
                counted.at(
                    match self.state {
                        ValidationState::LzmaUncompressedSize { high, used } => if used == 0 {
                            ValidationState::LzmaUncompressedSize { high: byte, used: 1 }
                        } else {
                            ValidationState::LzmaPayload { remaining: chunk_length(high, byte) }
                        },
                        ValidationState::LzmaCompressedHeader { control, high, low, used } => {
                            let high = if used == 2 {
                                byte
                            } else {
                                high
                            };
                            let low = if used == 3 {
                                byte
                            } else {
                                low
                            };
                            if used + 1 == if control >= 0xc0 {
                                5int
                            } else {
                                4int
                            } {
                                ValidationState::LzmaPayload { remaining: chunk_length(high, low) }
                            } else {
                                ValidationState::LzmaCompressedHeader {
                                    control,
                                    high,
                                    low,
                                    used: (used + 1) as u8,
                                }
                            }
                        },
                        ValidationState::LzmaPayload { remaining } => countdown(
                            remaining,
                            ValidationState::LzmaPayload { remaining: (remaining - 1) as usize },
                            ValidationState::LzmaControl,
                        ),
                        _ => after_control(byte, counted.block_data_bytes, self.check_size),
                    },
                ),
            ),
        }
    }

    /// The step over one byte of the container.
    pub open spec fn step(self, byte: u8, codec_memory: Option<usize>) -> Result<
        Envelope,
        ErrorView,
    > {
        match self.state {
            ValidationState::StreamHeader => self.header_step(byte),
            ValidationState::BlockHeaderSize => if byte == 0 {
                Ok(
                    Envelope { index_bytes: 1, ..self }.at(
                        ValidationState::IndexCount { vli: Vli::zero() },
                    ),
                )
            } else {
                Ok(
                    Envelope { held: self.held.push(byte), ..self }.at(
                        ValidationState::BlockHeader { total: ((byte + 1) * 4) as usize },
                    ),
                )
            },
            ValidationState::BlockHeader { total } => {
                let held = self.held.push(byte);
                if held.len() < total {
                    Ok(Envelope { held, ..self })
                } else {
                    match block_fault(held, codec_memory) {
                        Some(error) => Err(error),
                        None => Ok(
                            Envelope { block_data_bytes: 0, ..self }.released().at(
                                ValidationState::LzmaControl,
                            ),
                        ),
                    }
                }
            },
            ValidationState::LzmaControl => self.block_step(byte),
            ValidationState::LzmaUncompressedSize { .. } => self.block_step(byte),
            ValidationState::LzmaCompressedHeader { .. } => self.block_step(byte),
            ValidationState::LzmaPayload { .. } => self.block_step(byte),
            ValidationState::BlockPadding { remaining } => Ok(
                self.at(
                    countdown(
                        remaining,
                        ValidationState::BlockPadding { remaining: (remaining - 1) as usize },
                        after_padding(self.check_size),
                    ),
                ),
            ),
            ValidationState::BlockChecksum { remaining } => Ok(
                self.at(
                    countdown(
                        remaining,
                        ValidationState::BlockChecksum { remaining: (remaining - 1) as usize },
                        ValidationState::BlockHeaderSize,
                    ),
                ),
            ),
            ValidationState::IndexCount { vli } => self.count_step(vli, byte, codec_memory),
            ValidationState::IndexRecord { remaining, second, vli } => self.record_step(
                remaining,
                second,
                vli,
                byte,
            ),
            ValidationState::IndexPadding { remaining } => Ok(
                self.at(
                    countdown(
                        remaining,
                        ValidationState::IndexPadding { remaining: (remaining - 1) as usize },
                        ValidationState::IndexCrc { remaining: 4 },
                    ),
                ),
            ),
            ValidationState::IndexCrc { remaining } => Ok(
                self.at(
                    countdown(
                        remaining,
                        ValidationState::IndexCrc { remaining: (remaining - 1) as usize },
                        ValidationState::Footer { remaining: 12 },
                    ),
                ),
            ),
            ValidationState::Footer { remaining } => if remaining == 1 {
                Ok(Envelope { stream_padding: 0, ..self }.at(ValidationState::StreamPadding))
            } else {
                Ok(self.at(ValidationState::Footer { remaining: (remaining - 1) as usize }))
            },
            ValidationState::StreamPadding => if byte == 0 {
                if self.stream_padding == usize::MAX {
                    Err(xz_malformed("XZ stream padding length overflow"@))
                } else {
                    Ok(Envelope { stream_padding: (self.stream_padding + 1) as usize, ..self })
                }
            } else if self.stream_padding % 4 != 0 {
                Err(xz_malformed("XZ stream padding is not a multiple of four bytes"@))
            } else {
                Ok(
                    Envelope { held: self.held.push(byte), ..self }.at(
                        ValidationState::StreamHeader,
                    ),
                )
            },
            ValidationState::OpaqueMalformed => Ok(self),
        }
    }

    /// The bytes withheld and the counters fit the state.
    pub open spec fn wf(self) -> bool {
        &&& self.held.len() < MAX_HEADER
        &&& self.check_size <= 32
        &&& match self.state {
            ValidationState::StreamHeader => self.held.len() < 12,
            ValidationState::BlockHeader { total } => self.held.len() < total <= MAX_HEADER,
            ValidationState::IndexCount { vli } => vli.wf() && vli.bytes < 9 && self.held.len()
                <= vli.bytes,
            state => self.held.len() == 0 && match state {
                ValidationState::LzmaUncompressedSize { high, used } => used < 2,
                ValidationState::LzmaCompressedHeader { control, high, low, used } => used
                    < if control >= 0xc0 {
                    5int
                } else {
                    4int
                },
                ValidationState::LzmaPayload { remaining } => remaining > 0,
                ValidationState::BlockPadding { remaining } => remaining > 0,
                ValidationState::BlockChecksum { remaining } => remaining > 0,
                ValidationState::IndexRecord { remaining, second, vli } => remaining > 0
                    && vli.wf() && vli.bytes < 9,
                ValidationState::IndexPadding { remaining } => remaining > 0,
                ValidationState::IndexCrc { remaining } => remaining > 0,
                ValidationState::Footer { remaining } => remaining > 0,
                _ => true,
            },
        }
    }
}

/// Incremental validator of the XZ container.
#[derive(Debug)]
pub struct XzValidator {
    pub state: ValidationState,
    pub held: Vec<u8>,
    pub codec_memory: Option<usize>,
    pub check_size: usize,
    pub block_data_bytes: u64,
    pub index_bytes: u64,
    pub stream_padding: usize,
}

impl View for XzValidator {
    type V = Envelope;

    open spec fn view(&self) -> Envelope {
        Envelope {
            state: self.state,
            held: self.held@,
            check_size: self.check_size,
            block_data_bytes: self.block_data_bytes,
            index_bytes: self.index_bytes,
            stream_padding: self.stream_padding,
        }
    }
}

impl Envelope {
    /// The envelope before the first byte.
    pub open spec fn start() -> Envelope {
        Envelope {
            state: ValidationState::StreamHeader,
            held: Seq::empty(),
            check_size: 0,
            block_data_bytes: 0,
            index_bytes: 0,
            stream_padding: 0,
        }
    }
}

fn padding_to_four(length: u64) -> (padding: usize)
    ensures
        padding == padding4(length),
        padding < 4,
{
    ((4 - length % 4) % 4) as usize
}

impl XzValidator {
    /// A validator before the first byte.
    pub fn new(codec_memory: Option<usize>) -> (validator: Self)
        ensures
            validator@ == Envelope::start(),
            validator.codec_memory == codec_memory,
            validator@.wf(),
    {
        XzValidator {
            state: ValidationState::StreamHeader,
            held: Vec::new(),
            codec_memory,
            check_size: 0,
            block_data_bytes: 0,
            index_bytes: 0,
            stream_padding: 0,
        }
    }

    /// The number of bytes withheld.
    pub fn retained(&self) -> (count: usize)
        ensures
            count == self@.held.len(),
    {
        self.held.len()
    }

    /// Hands the withheld bytes on.
    pub fn release_held(&mut self, pending: &mut Vec<u8>)
        ensures
            final(self)@ == old(self)@.released(),
            final(self).codec_memory == old(self).codec_memory,
            final(pending)@ == old(pending)@ + old(self)@.held,
    {
        pending.append(&mut self.held);
        proof {
            assert(self.held@ =~= Seq::<u8>::empty());
        }
    }

    /// Ends the input: hands the withheld bytes on, unless the stream padding
    /// has a wrong length.
    pub fn finish(&mut self, pending: &mut Vec<u8>) -> (result: Result<(), ArchiveError>)
        ensures
            match result {
                Ok(()) => {
                    &&& !(old(self)@.state is StreamPadding && old(self)@.stream_padding % 4 != 0)
                    &&& final(self)@ == old(self)@.released()
                    &&& final(pending)@ == old(pending)@ + old(self)@.held
                    &&& old(self)@.wf() ==> final(self)@.wf()
                },
                Err(error) => {
                    &&& old(self)@.state is StreamPadding && old(self)@.stream_padding % 4 != 0
                    &&& error@ == xz_malformed(
                        "XZ stream padding is not a multiple of four bytes"@,
                    )
                    &&& *final(self) == *old(self)
                    &&& *final(pending) == *old(pending)
                },
            },
            final(self).codec_memory == old(self).codec_memory,
    {
        if let ValidationState::StreamPadding = self.state {
            if self.stream_padding % 4 != 0 {
                return Err(malformed("XZ stream padding is not a multiple of four bytes"));
            }
        }
        self.release_held(pending);
        Ok(())
    }

    fn count_block_byte(&mut self) -> (result: Result<(), ArchiveError>)
        ensures
            match result {
                Ok(()) => old(self)@.block_byte() == Ok::<_, ErrorView>(final(self)@),
                Err(error) => old(self)@.block_byte() == Err::<Envelope, _>(error@),
            },
            final(self).codec_memory == old(self).codec_memory,
    {
        match self.block_data_bytes.checked_add(1) {
            Some(count) => {
                self.block_data_bytes = count;
                Ok(())
            },
            None => Err(malformed("XZ block length overflow")),
        }
    }

    fn count_index_byte(&mut self) -> (result: Result<(), ArchiveError>)
        ensures
            match result {
                Ok(()) => old(self)@.index_byte() == Ok::<_, ErrorView>(final(self)@),
                Err(error) => old(self)@.index_byte() == Err::<Envelope, _>(error@),
            },
            final(self).codec_memory == old(self).codec_memory,
    {
        match self.index_bytes.checked_add(1) {
            Some(count) => {
                self.index_bytes = count;
                Ok(())
            },
            None => Err(malformed("XZ index length overflow")),
        }
    }

    /// Passes over a block checksum of no bytes.
    pub fn skip_empty_block_tail(&mut self)
        ensures
            final(self)@ == old(self)@.at(
                if old(self)@.state == (ValidationState::BlockChecksum { remaining: 0 }) {
                    ValidationState::BlockHeaderSize
                } else {
                    old(self)@.state
                },
            ),
            final(self).codec_memory == old(self).codec_memory,
    {
        if let ValidationState::BlockChecksum { remaining } = self.state {
            if remaining == 0 {
                self.state = ValidationState::BlockHeaderSize;
            }
        }
    }

    /// Goes to what follows the last index record.
    pub fn begin_index_padding(&mut self)
        ensures
            final(self)@ == old(self)@.at(after_records(old(self)@.index_bytes)),
            final(self).codec_memory == old(self).codec_memory,
    {
        let remaining: usize = padding_to_four(self.index_bytes);
        self.state = if remaining == 0 {
            ValidationState::IndexCrc { remaining: 4 }
        } else {
            ValidationState::IndexPadding { remaining }
        };
    }

    fn push_stream_header(&mut self, byte: u8, pending: &mut Vec<u8>) -> (result: Result<
        (),
        ArchiveError,
    >)
        requires
            old(self)@.wf(),
            old(self)@.state is StreamHeader,
        ensures
            match result {
                Ok(()) => {
                    &&& old(self)@.header_step(byte) == Ok::<_, ErrorView>(final(self)@)
                    &&& final(pending)@ + final(self)@.held == old(pending)@ + old(
                        self,
                    )@.held.push(byte)
                    &&& final(self)@.wf()
                },
                Err(error) => old(self)@.header_step(byte) == Err::<Envelope, _>(error@),
            },
            final(self).codec_memory == old(self).codec_memory,
    {
        self.held.push(byte);
        if self.held.len() == 12 {
            proof {
                let held = self.held@;
                assert(crate::bytes::has_prefix(held, XZ_MAGIC@) == (held.subrange(0, 6)
                    == XZ_MAGIC@));
            }
            if !starts_with(self.held.as_slice(), &XZ_MAGIC) {
                return Err(malformed("invalid XZ stream magic"));
            }
            if self.held[6] != 0 {
                return Err(malformed("invalid XZ stream flags"));
            }
            let kind: u8 = self.held[7];
            self.check_size = if kind == 0 {
                0
            } else if kind == 1 {
                4
            } else if kind == 4 {
                8
            } else if kind == 10 {
                32
            } else {
                return Err(malformed("unsupported XZ check type"));
            };
            self.release_held(pending);
            self.state = ValidationState::BlockHeaderSize;
            proof {
                assert(pending@ + self@.held =~= old(pending)@ + old(self)@.held.push(byte));
            }
        } else {
            proof {
                assert(pending@ + self@.held =~= old(pending)@ + old(self)@.held.push(byte));
            }
        }
        Ok(())
    }

    fn push_block_data(&mut self, byte: u8) -> (result: Result<(), ArchiveError>)
        requires
            old(self)@.wf(),
            old(self)@.state is LzmaControl || old(self)@.state is LzmaUncompressedSize || old(
                self,
            )@.state is LzmaCompressedHeader || old(self)@.state is LzmaPayload,
        ensures
            match result {
                Ok(()) => {
                    &&& old(self)@.block_step(byte) == Ok::<_, ErrorView>(final(self)@)
                    &&& final(self)@.held == old(self)@.held
                    &&& final(self)@.wf()
                },
                Err(error) => old(self)@.block_step(byte) == Err::<Envelope, _>(error@),
            },
            final(self).codec_memory == old(self).codec_memory,
    {
        self.count_block_byte()?;
        match self.state {
            ValidationState::LzmaUncompressedSize { high, used } => {
                if used == 0 {
                    self.state = ValidationState::LzmaUncompressedSize { high: byte, used: 1 };
                } else {
                    self.state = ValidationState::LzmaPayload {
                        remaining: 256 * (high as usize) + (byte as usize) + 1,
                    };
                }
            },
            ValidationState::LzmaCompressedHeader { control, high, low, used } => {
                let high: u8 = if used == 2 {
                    byte
                } else {
                    high
                };
                let low: u8 = if used == 3 {
                    byte
                } else {
                    low
                };
                let needed: u8 = if control >= 0xc0 {
                    5
                } else {
                    4
                };
                if used + 1 == needed {
                    self.state = ValidationState::LzmaPayload {
                        remaining: 256 * (high as usize) + (low as usize) + 1,
                    };
                } else {
                    self.state = ValidationState::LzmaCompressedHeader {
                        control,
                        high,
                        low,
                        used: used + 1,
                    };
                }
            },
            ValidationState::LzmaPayload { remaining } => {
                self.state = if remaining == 1 {
                    ValidationState::LzmaControl
                } else {
                    ValidationState::LzmaPayload { remaining: remaining - 1 }
                };
            },
            _ => {
                if byte == 0 {
                    let remaining: usize = padding_to_four(self.block_data_bytes);
                    self.state = if remaining == 0 {
                        ValidationState::BlockChecksum { remaining: self.check_size }
                    } else {
                        ValidationState::BlockPadding { remaining }
                    };
                    self.skip_empty_block_tail();
                } else if byte <= 2 {
                    self.state = ValidationState::LzmaUncompressedSize { high: 0, used: 0 };
                } else if byte < 0x80 {
                    self.state = ValidationState::OpaqueMalformed;
                } else {
                    self.state = ValidationState::LzmaCompressedHeader {
                        control: byte,
                        high: 0,
                        low: 0,
                        used: 0,
                    };
                }
            },
        }
        Ok(())
    }

    fn push_index_count(&mut self, vli: Vli, byte: u8, pending: &mut Vec<u8>) -> (result: Result<
        (),
        ArchiveError,
    >)
        requires
            old(self)@.wf(),
            old(self)@.state == (ValidationState::IndexCount { vli }),
        ensures
            match result {
                Ok(()) => {
                    &&& old(self)@.count_step(vli, byte, old(self).codec_memory) == Ok::<
                        _,
                        ErrorView,
                    >(final(self)@)
                    &&& final(pending)@ + final(self)@.held == old(pending)@ + old(
                        self,
                    )@.held.push(byte)
                    &&& final(self)@.wf()
                },
                Err(error) => old(self)@.count_step(vli, byte, old(self).codec_memory) == Err::<
                    Envelope,
                    _,
                >(error@),
            },
            final(self).codec_memory == old(self).codec_memory,
    {
        self.count_index_byte()?;
        self.held.push(byte);
        let mut next = vli;
        match next.push(byte)? {
            None => {
                self.state = ValidationState::IndexCount { vli: next };
            },
            Some(records) => {
                validate_index_memory(records, self.codec_memory)?;
                self.release_held(pending);
                if records == 0 {
                    self.begin_index_padding();
                } else {
                    self.state = ValidationState::IndexRecord {
                        remaining: records,
                        second: false,
                        vli: Vli::new(),
                    };
                }
            },
        }
        proof {
            assert(pending@ + self@.held =~= old(pending)@ + old(self)@.held.push(byte));
        }
        Ok(())
    }

    fn push_index_record(&mut self, remaining: u64, second: bool, vli: Vli, byte: u8) -> (result:
        Result<(), ArchiveError>)
        requires
            old(self)@.wf(),
            old(self)@.state == (ValidationState::IndexRecord { remaining, second, vli }),
        ensures
            match result {
                Ok(()) => {
                    &&& old(self)@.record_step(remaining, second, vli, byte) == Ok::<_, ErrorView>(
                        final(self)@,
                    )
                    &&& final(self)@.held == old(self)@.held
                    &&& final(self)@.wf()
                },
                Err(error) => old(self)@.record_step(remaining, second, vli, byte) == Err::<
                    Envelope,
                    _,
                >(error@),
            },
            final(self).codec_memory == old(self).codec_memory,
    {
        self.count_index_byte()?;
        let mut next = vli;
        match next.push(byte)? {
            None => {
                self.state = ValidationState::IndexRecord { remaining, second, vli: next };
            },
            Some(_) => {
                if !second {
                    self.state = ValidationState::IndexRecord {
                        remaining,
                        second: true,
                        vli: Vli::new(),
                    };
                } else if remaining == 1 {
                    self.begin_index_padding();
                } else {
                    self.state = ValidationState::IndexRecord {
                        remaining: remaining - 1,
                        second: false,
                        vli: Vli::new(),
                    };
                }
            },
        }
        Ok(())
    }

    /// Reads one byte of the container. Every byte read so far is either in
    /// `pending` or withheld, in the order in which it came.
    pub fn push(&mut self, byte: u8, pending: &mut Vec<u8>) -> (result: Result<(), ArchiveError>)
        requires
            old(self)@.wf(),
        ensures
            match result {
                Ok(()) => {
                    &&& old(self)@.step(byte, old(self).codec_memory) == Ok::<_, ErrorView>(
                        final(self)@,
                    )
                    &&& final(pending)@ + final(self)@.held == old(pending)@ + old(
                        self,
                    )@.held.push(byte)
                    &&& final(self)@.wf()
                },
                Err(error) => old(self)@.step(byte, old(self).codec_memory) == Err::<Envelope, _>(
                    error@,
                ),
            },
            final(self).codec_memory == old(self).codec_memory,
    {
        match self.state {
            ValidationState::StreamHeader => {
                return self.push_stream_header(byte, pending);
            },
            ValidationState::BlockHeaderSize => {
                self.held.push(byte);
                if byte == 0 {
                    self.release_held(pending);
                    self.index_bytes = 1;
                    self.state = ValidationState::IndexCount { vli: Vli::new() };
                } else {
                    self.state = ValidationState::BlockHeader { total: (byte as usize + 1) * 4 };
                }
            },
            ValidationState::BlockHeader { total } => {
                self.held.push(byte);
                if self.held.len() == total {
                    validate_block_memory(self.held.as_slice(), self.codec_memory)?;
                    self.release_held(pending);
                    self.block_data_bytes = 0;
                    self.state = ValidationState::LzmaControl;
                }
            },
            ValidationState::LzmaControl | ValidationState::LzmaUncompressedSize { .. }
            | ValidationState::LzmaCompressedHeader { .. } | ValidationState::LzmaPayload { .. } => {
                pending.push(byte);
                self.push_block_data(byte)?;
            },
            ValidationState::BlockPadding { remaining } => {
                pending.push(byte);
                if remaining == 1 {
                    self.state = ValidationState::BlockChecksum { remaining: self.check_size };
                    self.skip_empty_block_tail();
                } else {
                    self.state = ValidationState::BlockPadding { remaining: remaining - 1 };
                }
            },
            ValidationState::BlockChecksum { remaining } => {
                pending.push(byte);
                self.state = if remaining == 1 {
                    ValidationState::BlockHeaderSize
                } else {
                    ValidationState::BlockChecksum { remaining: remaining - 1 }
                };
            },
            ValidationState::IndexCount { vli } => {
                return self.push_index_count(vli, byte, pending);
            },
            ValidationState::IndexRecord { remaining, second, vli } => {
                pending.push(byte);
                self.push_index_record(remaining, second, vli, byte)?;
            },
            ValidationState::IndexPadding { remaining } => {
                pending.push(byte);
                self.state = if remaining == 1 {
                    ValidationState::IndexCrc { remaining: 4 }
                } else {
                    ValidationState::IndexPadding { remaining: remaining - 1 }
                };
            },
            ValidationState::IndexCrc { remaining } => {
                pending.push(byte);
                self.state = if remaining == 1 {
                    ValidationState::Footer { remaining: 12 }
                } else {
                    ValidationState::IndexCrc { remaining: remaining - 1 }
                };
            },
            ValidationState::Footer { remaining } => {
                pending.push(byte);
                if remaining == 1 {
                    self.stream_padding = 0;
                    self.state = ValidationState::StreamPadding;
                } else {
                    self.state = ValidationState::Footer { remaining: remaining - 1 };
                }
            },
            ValidationState::StreamPadding => {
                if byte == 0 {
                    pending.push(byte);
                    self.stream_padding = match self.stream_padding.checked_add(1) {
                        Some(count) => count,
                        None => {
                            return Err(malformed("XZ stream padding length overflow"));
                        },
                    };
                } else {
                    if self.stream_padding % 4 != 0 {
                        return Err(malformed("XZ stream padding is not a multiple of four bytes"));
                    }
                    self.held.push(byte);
                    self.state = ValidationState::StreamHeader;
                }
            },
            ValidationState::OpaqueMalformed => {
                pending.push(byte);
            },
        }
        proof {
            assert(pending@ + self@.held =~= old(pending)@ + old(self)@.held.push(byte));
            let next = old(self)@.step(byte, old(self).codec_memory)->Ok_0;
            assert(self@.held =~= next.held);
            assert(self@ =~= next);
        }
        Ok(())
    }

    /// Reads `count` bytes of the container, from `input[start]` on.
    pub fn push_all(&mut self, input: &[u8], start: usize, count: usize, pending: &mut Vec<u8>) -> (result:
        Result<(), ArchiveError>)
        requires
            old(self)@.wf(),
            start + count <= input.len(),
        ensures
            match result {
                Ok(()) => {
                    &&& envelope_after(
                        old(self)@,
                        input@.subrange(start as int, start + count),
                        old(self).codec_memory,
                    ) == Ok::<_, ErrorView>(final(self)@)
                    &&& final(pending)@ + final(self)@.held == old(pending)@ + old(self)@.held
                        + input@.subrange(start as int, start + count)
                    &&& final(self)@.wf()
                },
                Err(error) => envelope_after(
                    old(self)@,
                    input@.subrange(start as int, start + count),
                    old(self).codec_memory,
                ) == Err::<Envelope, _>(error@),
            },
            final(self).codec_memory == old(self).codec_memory,
    {
        let ghost chunk = input@.subrange(start as int, start + count);
        let ghost memory = self.codec_memory;
        let mut i: usize = 0;
        proof {
            assert(chunk.take(0) =~= Seq::<u8>::empty());
            assert(pending@ + self@.held =~= old(pending)@ + old(self)@.held + chunk.take(0));
        }
        while i < count
            invariant
                i <= count,
                start + count <= input.len(),
                chunk == input@.subrange(start as int, start + count),
                self@.wf(),
                self.codec_memory == memory,
                memory == old(self).codec_memory,
                envelope_after(old(self)@, chunk.take(i as int), memory) == Ok::<_, ErrorView>(
                    self@,
                ),
                pending@ + self@.held == old(pending)@ + old(self)@.held + chunk.take(i as int),
            decreases count - i,
        {
            let byte: u8 = input[start + i];
            let ghost before = pending@ + self@.held;
            proof {
                assert(chunk.take(i + 1).drop_last() =~= chunk.take(i as int));
                assert(chunk.take(i + 1).last() == byte);
                assert(chunk.take(i + 1) =~= chunk.take(i as int).push(byte));
                assert(pending@ + self@.held.push(byte) =~= before.push(byte));
                assert((old(pending)@ + old(self)@.held + chunk.take(i as int)).push(byte)
                    =~= old(pending)@ + old(self)@.held + chunk.take(i + 1));
            }
            match self.push(byte, pending) {
                Err(error) => {
                    proof {
                        law_envelope_chunking(
                            old(self)@,
                            chunk.take(i + 1),
                            chunk.skip(i + 1),
                            memory,
                        );
                        assert(chunk.take(i + 1) + chunk.skip(i + 1) =~= chunk);
                    }
                    return Err(error);
                },
                Ok(()) => {},
            }
            i += 1;
        }
        proof {
            assert(chunk.take(count as int) =~= chunk);
        }
        Ok(())
    }
}

/// The envelope after a run of bytes.
pub open spec fn envelope_after(start: Envelope, bytes: Seq<u8>, codec_memory: Option<usize>) -> Result<
    Envelope,
    ErrorView,
>
    decreases bytes.len(),
{
    if bytes.len() == 0 {
        Ok(start)
    } else {
        match envelope_after(start, bytes.drop_last(), codec_memory) {
            Ok(envelope) => envelope.step(bytes.last(), codec_memory),
            Err(error) => Err(error),
        }
    }
}

/// How a stream is cut into pieces does not matter to its check.
pub proof fn law_envelope_chunking(
    start: Envelope,
    first: Seq<u8>,
    second: Seq<u8>,
    codec_memory: Option<usize>,
)
    ensures
        envelope_after(start, first + second, codec_memory) == match envelope_after(
            start,
            first,
            codec_memory,
        ) {
            Ok(middle) => envelope_after(middle, second, codec_memory),
            Err(error) => Err(error),
        },
    decreases second.len(),
{
    if second.len() == 0 {
        assert(first + second =~= first);
    } else {
        law_envelope_chunking(start, first, second.drop_last(), codec_memory);
        assert((first + second).drop_last() =~= first + second.drop_last());
        assert((first + second).last() == second.last());
    }
}

proof fn lemma_vli_next_wf(vli: Vli, byte: u8)
    requires
        vli.wf(),
    ensures
        vli_next(vli, byte) matches Ok((next, value)) ==> next.wf() && (value is None ==> next.bytes
            < 9),
{
    let d: int = (byte % 128) as int;
    let p: int = place(vli.bytes as int) as int;
    assert(0 <= d * p <= 127 * p) by (nonlinear_arith)
        requires
            0 <= d <= 127,
            0 <= p,
    ;
}

proof fn lemma_step_wf(envelope: Envelope, byte: u8, codec_memory: Option<usize>)
    requires
        envelope.wf(),
    ensures
        envelope.step(byte, codec_memory) matches Ok(next) ==> next.wf() && (next.held
            == envelope.held.push(byte) || next.held.len() == 0),
{
    match envelope.state {
        ValidationState::IndexCount { vli } => {
            lemma_vli_next_wf(vli, byte);
        },
        ValidationState::IndexRecord { remaining, second, vli } => {
            lemma_vli_next_wf(vli, byte);
        },
        _ => {},
    }
}

/// What the validator withholds is always the end of what it has read.
pub proof fn law_held_bytes_are_the_latest(
    start: Envelope,
    bytes: Seq<u8>,
    codec_memory: Option<usize>,
)
    requires
        start.wf(),
    ensures
        envelope_after(start, bytes, codec_memory) matches Ok(end) ==> end.wf()
            && crate::bytes::has_suffix(start.held + bytes, end.held),
    decreases bytes.len(),
{
    if bytes.len() == 0 {
        let whole = start.held + bytes;
        assert(whole.subrange(0, whole.len() as int) =~= start.held);
    } else {
        law_held_bytes_are_the_latest(start, bytes.drop_last(), codec_memory);
        match envelope_after(start, bytes.drop_last(), codec_memory) {
            Ok(middle) => {
                lemma_step_wf(middle, bytes.last(), codec_memory);
                let shorter = start.held + bytes.drop_last();
                let whole = start.held + bytes;
                assert(whole =~= shorter.push(bytes.last()));
                match middle.step(bytes.last(), codec_memory) {
                    Ok(end) => {
                        if end.held.len() > 0 {
                            let cut = whole.len() - end.held.len();
                            assert(shorter.subrange(cut, shorter.len() as int) =~= middle.held);
                            assert(whole.subrange(cut, whole.len() as int) =~= end.held);
                        } else {
                            assert(whole.subrange(whole.len() as int, whole.len() as int)
                                =~= end.held);
                        }
                    },
                    Err(_) => {},
                }
            },
            Err(_) => {},
        }
    }
}

/// A complete block header leaves the validator only if the memory that its
/// filters ask for is within the budget.
pub proof fn law_block_header_is_checked_before_release(
    envelope: Envelope,
    byte: u8,
    codec_memory: Option<usize>,
)
    requires
        envelope.wf(),
        envelope.state is BlockHeader,
    ensures
        match envelope.step(byte, codec_memory) {
            Ok(next) => next.held == envelope.held.push(byte) || (next.held.len() == 0
                && block_fault(envelope.held.push(byte), codec_memory) is None),
            Err(error) => block_fault(envelope.held.push(byte), codec_memory) == Some(error),
        },
{
}

} // verus!
