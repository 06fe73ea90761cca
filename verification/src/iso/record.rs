//! The records of an image: directory records, system-use fields, path table
//! records and their layout in sectors.

use vstd::prelude::*;
use vstd::string::*;
use crate::bytes::{be16, be32, le16, le32};
use crate::error::{fault, ArchiveError, ErrorKind, ErrorView};
use crate::parts::texts;
use crate::utf8::{law_utf16_is_even, lossy_utf16, to_lossy_utf16};

verus! {

/// Bytes of a sector.
pub const SECTOR: usize = 2048;

/// An error of the image writer.
pub open spec fn iso_fault(kind: ErrorKind, context: Seq<char>) -> ErrorView {
    fault(kind, "iso9660", context)
}

/// An error of the image writer.
pub(crate) fn iso_error(kind: ErrorKind, context: &str) -> (error: ArchiveError)
    ensures
        error@ == iso_fault(kind, context@),
{
    ArchiveError::of_format(kind, "iso9660", context)
}

/// `result` is the outcome that `wanted` states.
pub open spec fn bytes_match(
    result: Result<Vec<u8>, ArchiveError>,
    wanted: Result<Seq<u8>, ErrorView>,
) -> bool {
    match result {
        Ok(bytes) => wanted == Ok::<_, ErrorView>(bytes@),
        Err(error) => wanted == Err::<Seq<u8>, _>(error@),
    }
}

// ---------------------------------------------------------------------------
// Numbers
// ---------------------------------------------------------------------------

/// A number in two bytes, least significant first.
pub open spec fn little16(value: u16) -> Seq<u8> {
    seq![(value % 256) as u8, (value / 256) as u8]
}

/// A number in two bytes, most significant first.
pub open spec fn big16(value: u16) -> Seq<u8> {
    seq![(value / 256) as u8, (value % 256) as u8]
}

/// A number in four bytes, least significant first.
pub open spec fn little32(value: u32) -> Seq<u8> {
    little16((value % 0x1_0000) as u16) + little16((value / 0x1_0000) as u16)
}

/// A number in four bytes, most significant first.
pub open spec fn big32(value: u32) -> Seq<u8> {
    big16((value / 0x1_0000) as u16) + big16((value % 0x1_0000) as u16)
}

/// A number in both byte orders.
pub open spec fn both_endian16(value: u16) -> Seq<u8> {
    little16(value) + big16(value)
}

/// A number in both byte orders.
pub open spec fn both_endian32(value: u32) -> Seq<u8> {
    little32(value) + big32(value)
}

/// Both halves of a number in both byte orders read back as the number.
pub proof fn law_both_endian_reads_back(value: u32, short: u16)
    ensures
        both_endian32(value).len() == 8,
        le32(both_endian32(value), 0) == value,
        be32(both_endian32(value), 4) == value,
        both_endian16(short).len() == 4,
        le16(both_endian16(short), 0) == short,
        be16(both_endian16(short), 2) == short,
{
}

/// A number in both byte orders.
pub fn both_endian_u32(value: u32) -> (bytes: [u8; 8])
    ensures
        bytes@ == both_endian32(value),
{
    let low: u32 = value % 0x1_0000;
    let high: u32 = value / 0x1_0000;
    let bytes: [u8; 8] = [
        (low % 256) as u8,
        (low / 256) as u8,
        (high % 256) as u8,
        (high / 256) as u8,
        (high / 256) as u8,
        (high % 256) as u8,
        (low / 256) as u8,
        (low % 256) as u8,
    ];
    proof {
        assert(bytes@ =~= both_endian32(value));
    }
    bytes
}

/// A number in both byte orders.
pub fn both_endian_u16(value: u16) -> (bytes: [u8; 4])
    ensures
        bytes@ == both_endian16(value),
{
    let low: u8 = (value % 256) as u8;
    let high: u8 = (value / 256) as u8;
    let bytes: [u8; 4] = [low, high, high, low];
    proof {
        assert(bytes@ =~= both_endian16(value));
    }
    bytes
}

/// Appends a number in four bytes.
pub(crate) fn push_u32(output: &mut Vec<u8>, value: u32, big_endian: bool)
    ensures
        final(output)@ == old(output)@ + if big_endian {
            big32(value)
        } else {
            little32(value)
        },
{
    let low: u32 = value % 0x1_0000;
    let high: u32 = value / 0x1_0000;
    if big_endian {
        output.push((high / 256) as u8);
        output.push((high % 256) as u8);
        output.push((low / 256) as u8);
        output.push((low % 256) as u8);
    } else {
        output.push((low % 256) as u8);
        output.push((low / 256) as u8);
        output.push((high % 256) as u8);
        output.push((high / 256) as u8);
    }
    proof {
        assert(output@ =~= old(output)@ + if big_endian {
            big32(value)
        } else {
            little32(value)
        });
    }
}

/// Appends a number in two bytes.
pub(crate) fn push_u16(output: &mut Vec<u8>, value: u16, big_endian: bool)
    ensures
        final(output)@ == old(output)@ + if big_endian {
            big16(value)
        } else {
            little16(value)
        },
{
    let low: u8 = (value % 256) as u8;
    let high: u8 = (value / 256) as u8;
    if big_endian {
        output.push(high);
        output.push(low);
    } else {
        output.push(low);
        output.push(high);
    }
    proof {
        assert(output@ =~= old(output)@ + if big_endian {
            big16(value)
        } else {
            little16(value)
        });
    }
}

/// A number that must fit four bytes.
pub fn u32_value(value: u64, context: &str) -> (result: Result<u32, ArchiveError>)
    ensures
        match result {
            Ok(number) => number == value,
            Err(error) => value > u32::MAX && error@ == iso_fault(
                ErrorKind::Unsupported,
                context@,
            ),
        },
{
    if value > u32::MAX as u64 {
        return Err(iso_error(ErrorKind::Unsupported, context));
    }
    Ok(value as u32)
}

// ---------------------------------------------------------------------------
// Names
// ---------------------------------------------------------------------------

/// A byte of a name in the primary tree: upper case letters, digits, dots and
/// underscores stay, lower case letters are raised, all else is an underscore.
pub open spec fn primary_byte(byte: u8) -> u8 {
    if 0x61 <= byte <= 0x7a {
        (byte - 0x20) as u8
    } else if 0x41 <= byte <= 0x5a || 0x30 <= byte <= 0x39 || byte == 0x5f || byte == 0x2e {
        byte
    } else {
        0x5f
    }
}

/// A name in the primary tree.
pub open spec fn primary_identifier(name: Seq<u8>) -> Seq<u8> {
    if name.len() == 0 {
        seq![0x5fu8]
    } else {
        Seq::new(name.len(), |i: int| primary_byte(name[i]))
    }
}

/// The name of a node in the primary tree.
pub fn primary_name(name: &[u8]) -> (result: Vec<u8>)
    ensures
        result@ == primary_identifier(name@),
{
    let mut result: Vec<u8> = Vec::new();
    let mut i: usize = 0;
    while i < name.len()
        invariant
            i <= name@.len(),
            result@ =~= Seq::new(i as nat, |j: int| primary_byte(name@[j])),
        decreases name@.len() - i,
    {
        let byte: u8 = name[i];
        if 0x61 <= byte && byte <= 0x7a {
            result.push(byte - 0x20);
        } else if (0x41 <= byte && byte <= 0x5a) || (0x30 <= byte && byte <= 0x39) || byte == 0x5f
            || byte == 0x2e {
            result.push(byte);
        } else {
            result.push(0x5f);
        }
        i += 1;
    }
    if result.len() == 0 {
        result.push(0x5f);
    }
    proof {
        assert(result@ =~= primary_identifier(name@));
    }
    result
}

/// Whether Joliet forbids a UTF-16 unit: `*`, `/`, `:`, `;`, `?`, `\` and
/// control characters.
pub open spec fn joliet_forbids(unit: nat) -> bool {
    unit == 0x2a || unit == 0x2f || unit == 0x3a || unit == 0x3b || unit == 0x3f || unit == 0x5c
        || unit <= 31
}

/// A unit of a Joliet name.
pub open spec fn joliet_unit(unit: nat) -> nat {
    if joliet_forbids(unit) {
        0x5f
    } else {
        unit
    }
}

/// A name in the Joliet tree: UTF-16, most significant byte first.
pub open spec fn joliet_identifier(name: Seq<u8>) -> Seq<u8> {
    let units = lossy_utf16(name);
    Seq::new(
        units.len(),
        |i: int|
            if i % 2 == 0 {
                (joliet_unit(le16(units, i)) / 256) as u8
            } else {
                (joliet_unit(le16(units, i - 1)) % 256) as u8
            },
    )
}

/// The name of a node in the Joliet tree.
pub fn joliet_name(name: &[u8]) -> (result: Vec<u8>)
    ensures
        result@ == joliet_identifier(name@),
{
    let units = to_lossy_utf16(name);
    proof {
        law_utf16_is_even(name@);
    }
    let mut result: Vec<u8> = Vec::new();
    let mut i: usize = 0;
    while i < units.len()
        invariant
            units@ == lossy_utf16(name@),
            units@.len() % 2 == 0,
            i % 2 == 0,
            i <= units@.len(),
            result@ =~= joliet_identifier(name@).take(i as int),
        decreases units@.len() - i,
    {
        let mut unit: u16 = (units[i] as u16) + 256 * (units[i + 1] as u16);
        if unit == 0x2a || unit == 0x2f || unit == 0x3a || unit == 0x3b || unit == 0x3f || unit
            == 0x5c || unit <= 31 {
            unit = 0x5f;
        }
        result.push((unit / 256) as u8);
        result.push((unit % 256) as u8);
        i += 2;
    }
    result
}

// ---------------------------------------------------------------------------
// Directory records
// ---------------------------------------------------------------------------

/// The recording time of an entry whose time is unknown: 2020-01-01.
pub const RECORDING_TIME: [u8; 7] = [120, 1, 1, 0, 0, 0, 0];

/// A zero byte if it is needed to make `33 + len` even.
pub open spec fn record_pad(len: nat) -> Seq<u8> {
    if len % 2 == 0 {
        seq![0u8]
    } else {
        Seq::empty()
    }
}

/// The length of a directory record.
pub open spec fn record_length(identifier: nat, system_use: nat) -> nat {
    33 + identifier + record_pad(identifier).len() + system_use
}

/// A directory record.
pub open spec fn record_of(
    identifier: Seq<u8>,
    lba: u32,
    size: u32,
    directory: bool,
    recording_time: Seq<u8>,
    system_use: Seq<u8>,
) -> Result<Seq<u8>, ErrorView> {
    let length = record_length(identifier.len(), system_use.len());
    if length > usize::MAX {
        Err(iso_fault(ErrorKind::Limit, "ISO directory record length overflow"@))
    } else if length > 255 {
        Err(
            iso_fault(
                ErrorKind::Unsupported,
                "ISO directory record requires an unsupported continuation area"@,
            ),
        )
    } else {
        Ok(
            seq![length as u8, 0u8] + both_endian32(lba) + both_endian32(size) + recording_time
                + seq![
                if directory {
                    2u8
                } else {
                    0u8
                },
                0u8,
                0u8,
            ] + both_endian16(1) + seq![identifier.len() as u8] + identifier + record_pad(
                identifier.len(),
            ) + system_use,
        )
    }
}

/// Writes a directory record.
pub fn directory_record(
    identifier: &[u8],
    lba: u32,
    size: u32,
    directory: bool,
    recording_time: [u8; 7],
    system_use: &[u8],
) -> (result: Result<Vec<u8>, ArchiveError>)
    ensures
        bytes_match(
            result,
            record_of(identifier@, lba, size, directory, recording_time@, system_use@),
        ),
        result matches Ok(record) ==> record@.len() == record_length(
            identifier@.len(),
            system_use@.len(),
        ) <= 255,
{
    let pad: usize = if identifier.len() % 2 == 0 {
        1
    } else {
        0
    };
    let padded: usize = match identifier.len().checked_add(33 + pad) {
        Some(length) => length,
        None => {
            return Err(iso_error(ErrorKind::Limit, "ISO directory record length overflow"));
        },
    };
    let length: usize = match padded.checked_add(system_use.len()) {
        Some(length) => length,
        None => {
            return Err(iso_error(ErrorKind::Limit, "ISO directory record length overflow"));
        },
    };
    if length > 255 {
        return Err(
            iso_error(
                ErrorKind::Unsupported,
                "ISO directory record requires an unsupported continuation area",
            ),
        );
    }
    let mut record: Vec<u8> = Vec::new();
    record.push(length as u8);
    record.push(0);
    record.extend_from_slice(&both_endian_u32(lba));
    record.extend_from_slice(&both_endian_u32(size));
    record.extend_from_slice(&recording_time);
    record.push(
        if directory {
            2
        } else {
            0
        },
    );
    record.push(0);
    record.push(0);
    record.extend_from_slice(&both_endian_u16(1));
    record.push(identifier.len() as u8);
    record.extend_from_slice(identifier);
    if pad == 1 {
        record.push(0);
    }
    record.extend_from_slice(system_use);
    proof {
        law_both_endian_reads_back(lba, 1);
        law_both_endian_reads_back(size, 1);
        assert(record@ =~= record_of(
            identifier@,
            lba,
            size,
            directory,
            recording_time@,
            system_use@,
        )->Ok_0);
    }
    Ok(record)
}

// ---------------------------------------------------------------------------
// Layout
// ---------------------------------------------------------------------------

/// Where a record of `len` bytes goes when `position` bytes are taken: behind
/// them, or in the next sector if it would cross the end of this one.
pub open spec fn place(position: nat, len: nat) -> nat {
    if position % SECTOR as nat + len > SECTOR {
        (position + SECTOR - position % SECTOR as nat) as nat
    } else {
        position
    }
}

/// The bytes that the first `count` records take.
pub open spec fn cursor(lens: Seq<nat>, count: nat) -> nat
    decreases count,
{
    if count == 0 {
        0
    } else {
        place(cursor(lens, (count - 1) as nat), lens[count - 1]) + lens[count - 1]
    }
}

/// The sectors that `bytes` bytes take.
pub open spec fn sectors(bytes: nat) -> nat {
    (bytes + SECTOR - 1) as nat / SECTOR as nat
}

/// The length of an extent that holds records of these lengths.
pub open spec fn extent_length(lens: Seq<nat>) -> nat {
    let taken = sectors(cursor(lens, lens.len()));
    (if taken == 0 {
        1
    } else {
        taken
    }) * SECTOR as nat
}

/// The lengths of records.
pub open spec fn lengths(records: Seq<Seq<u8>>) -> Seq<nat> {
    Seq::new(records.len(), |i: int| records[i].len())
}

/// Zero bytes.
pub open spec fn zeros(count: nat) -> Seq<u8> {
    Seq::new(count, |i: int| 0u8)
}

/// The first `count` records in their places.
pub open spec fn laid_out(records: Seq<Seq<u8>>, count: nat) -> Seq<u8>
    decreases count,
{
    if count == 0 {
        Seq::empty()
    } else {
        let before = laid_out(records, (count - 1) as nat);
        let record = records[count - 1];
        before + zeros((place(before.len(), record.len()) - before.len()) as nat) + record
    }
}

/// An extent that holds the records.
pub open spec fn extent(records: Seq<Seq<u8>>) -> Seq<u8> {
    let taken = laid_out(records, records.len());
    taken + zeros((extent_length(lengths(records)) - taken.len()) as nat)
}

pub proof fn lemma_laid_out_length(records: Seq<Seq<u8>>, count: nat)
    requires
        count <= records.len(),
    ensures
        laid_out(records, count).len() == cursor(lengths(records), count),
    decreases count,
{
    if count > 0 {
        lemma_laid_out_length(records, (count - 1) as nat);
    }
}

proof fn lemma_cursor_grows(lens: Seq<nat>, low: nat, high: nat)
    requires
        low <= high <= lens.len(),
    ensures
        cursor(lens, low) <= cursor(lens, high),
    decreases high,
{
    if low < high {
        lemma_cursor_grows(lens, low, (high - 1) as nat);
    }
}

/// An extent is a whole number of sectors, at least one, and as long as its
/// records' lengths say.
pub proof fn law_extent_fills_sectors(records: Seq<Seq<u8>>)
    ensures
        extent(records).len() == extent_length(lengths(records)),
        extent(records).len() % SECTOR as nat == 0,
        extent(records).len() >= SECTOR,
{
    lemma_laid_out_length(records, records.len());
    let taken = cursor(lengths(records), records.len());
    assert(taken <= sectors(taken) * SECTOR as nat);
}

/// Every record stands in the extent at its place, and none crosses the end of
/// a sector, as long as it fits one.
pub proof fn law_records_stay_within_sectors(records: Seq<Seq<u8>>, index: int)
    requires
        0 <= index < records.len(),
        records[index].len() <= SECTOR,
    ensures
        ({
            let start = place(
                cursor(lengths(records), index as nat),
                records[index].len(),
            ) as int;
            let end = start + records[index].len();
            &&& end <= extent(records).len()
            &&& extent(records).subrange(start, end) == records[index]
            &&& start % SECTOR as int + records[index].len() <= SECTOR
        }),
{
    law_extent_fills_sectors(records);
    lemma_laid_out_length(records, records.len());
    lemma_laid_out_prefix(records, (index + 1) as nat, records.len());
    lemma_last_record(records, index);
    let start = place(cursor(lengths(records), index as nat), records[index].len()) as int;
    let end = start + records[index].len();
    let head = laid_out(records, (index + 1) as nat);
    let all = laid_out(records, records.len());
    assert(extent(records).take(head.len() as int) =~= all.take(head.len() as int));
    assert(extent(records).subrange(start, end) =~= extent(records).take(
        head.len() as int,
    ).subrange(start, end));
}

proof fn lemma_last_record(records: Seq<Seq<u8>>, index: int)
    requires
        0 <= index < records.len(),
        records[index].len() <= SECTOR,
    ensures
        ({
            let start = place(
                cursor(lengths(records), index as nat),
                records[index].len(),
            ) as int;
            let end = start + records[index].len();
            let head = laid_out(records, (index + 1) as nat);
            &&& head.len() == end
            &&& head.subrange(start, end) == records[index]
            &&& start % SECTOR as int + records[index].len() <= SECTOR
        }),
{
    lemma_laid_out_length(records, index as nat);
    let before = laid_out(records, index as nat);
    let record = records[index];
    let start = place(before.len(), record.len()) as int;
    let head = laid_out(records, (index + 1) as nat);
    assert(head == before + zeros((start - before.len()) as nat) + record);
    assert(head.subrange(start, start + record.len()) =~= record);
}

proof fn lemma_laid_out_prefix(records: Seq<Seq<u8>>, low: nat, high: nat)
    requires
        low <= high <= records.len(),
    ensures
        laid_out(records, low).len() <= laid_out(records, high).len(),
        laid_out(records, high).take(laid_out(records, low).len() as int) == laid_out(records, low),
    decreases high,
{
    let part = laid_out(records, low);
    if low < high {
        lemma_laid_out_prefix(records, low, (high - 1) as nat);
        let before = laid_out(records, (high - 1) as nat);
        let all = laid_out(records, high);
        assert(all.take(part.len() as int) =~= before.take(part.len() as int));
    } else {
        assert(part.take(part.len() as int) =~= part);
    }
}

/// The lengths of records in memory.
pub open spec fn lengths_of(records: Seq<Vec<u8>>) -> Seq<nat> {
    lengths(texts(records))
}

/// The length of the extent that the records take, if it can be counted.
pub fn layout_length(records: &[Vec<u8>]) -> (length: Option<usize>)
    ensures
        match length {
            Some(length) => length == extent_length(lengths_of(records@)),
            None => extent_length(lengths_of(records@)) > usize::MAX,
        },
{
    let mut position: usize = 0;
    let mut i: usize = 0;
    let ghost lens = lengths_of(records@);
    while i < records.len()
        invariant
            lens == lengths_of(records@),
            i <= records@.len(),
            position == cursor(lens, i as nat),
        decreases records@.len() - i,
    {
        let len: usize = records[i].len();
        let offset: usize = position % SECTOR;
        proof {
            assert(lens[i as int] == len);
            lemma_cursor_grows(lens, (i + 1) as nat, lens.len());
            let total = cursor(lens, lens.len());
            assert(total <= sectors(total) * SECTOR as nat);
        }
        if len > SECTOR - offset {
            position = match position.checked_add(SECTOR - offset) {
                Some(position) => position,
                None => {
                    return None;
                },
            };
        }
        position = match position.checked_add(len) {
            Some(position) => position,
            None => {
                return None;
            },
        };
        i += 1;
    }
    if position == 0 {
        return Some(SECTOR);
    }
    let whole: usize = position / SECTOR;
    let rest: usize = position % SECTOR;
    if rest == 0 {
        Some(position)
    } else {
        proof {
            assert(sectors(position as nat) == whole + 1);
        }
        (position - rest).checked_add(SECTOR)
    }
}

pub(crate) fn push_zeros(output: &mut Vec<u8>, count: usize)
    requires
        old(output)@.len() + count <= usize::MAX,
    ensures
        final(output)@ == old(output)@ + zeros(count as nat),
{
    let mut i: usize = 0;
    while i < count
        invariant
            i <= count,
            output@ =~= old(output)@ + zeros(i as nat),
        decreases count - i,
    {
        output.push(0);
        i += 1;
    }
}

/// Writes the extent that holds the records.
pub fn layout_records(records: &[Vec<u8>]) -> (bytes: Vec<u8>)
    requires
        extent_length(lengths_of(records@)) <= usize::MAX,
    ensures
        bytes@ == extent(texts(records@)),
{
    let ghost all = texts(records@);
    let ghost lens = lengths_of(records@);
    proof {
        law_extent_fills_sectors(all);
        let total = cursor(lens, lens.len());
        assert(total <= sectors(total) * SECTOR as nat);
    }
    let mut bytes: Vec<u8> = Vec::new();
    let mut i: usize = 0;
    while i < records.len()
        invariant
            all == texts(records@),
            lens == lengths_of(records@),
            i <= records@.len(),
            cursor(lens, lens.len()) <= usize::MAX,
            bytes@ == laid_out(all, i as nat),
            bytes@.len() == cursor(lens, i as nat),
        decreases records@.len() - i,
    {
        let len: usize = records[i].len();
        let offset: usize = bytes.len() % SECTOR;
        proof {
            assert(lens[i as int] == len);
            assert(all[i as int] == records@[i as int]@);
            lemma_cursor_grows(lens, (i + 1) as nat, lens.len());
            assert(bytes@ + zeros(0) =~= bytes@);
        }
        if len > SECTOR - offset {
            push_zeros(&mut bytes, SECTOR - offset);
        }
        bytes.extend_from_slice(records[i].as_slice());
        i += 1;
        proof {
            assert(bytes@ =~= laid_out(all, i as nat));
        }
    }
    let rest: usize = bytes.len() % SECTOR;
    if bytes.len() == 0 {
        push_zeros(&mut bytes, SECTOR);
    } else if rest > 0 {
        proof {
            let taken = bytes@.len();
            assert(sectors(taken) == taken / SECTOR as nat + 1);
        }
        push_zeros(&mut bytes, SECTOR - rest);
    }
    proof {
        assert(bytes@ =~= extent(all));
    }
    bytes
}

/// The length of a path table record.
pub open spec fn table_record_length(identifier: nat) -> nat {
    8 + identifier + identifier % 2
}

/// The length of a path table record.
pub fn path_table_record_length(identifier: usize) -> (length: usize)
    requires
        identifier <= usize::MAX - 9,
    ensures
        length == table_record_length(identifier as nat),
{
    let base: usize = 8 + identifier;
    if base % 2 == 0 {
        base
    } else {
        base + 1
    }
}

/// The block behind a region of `bytes` bytes that begins at block `lba`.
pub open spec fn advanced(lba: u32, bytes: nat) -> Result<u32, ErrorView> {
    if sectors(bytes) > u32::MAX {
        Err(iso_fault(ErrorKind::Limit, "ISO region exceeds u32 sectors"@))
    } else if lba + sectors(bytes) > u32::MAX {
        Err(iso_fault(ErrorKind::Limit, "ISO LBA overflow"@))
    } else {
        Ok((lba + sectors(bytes)) as u32)
    }
}

/// The block behind a region of `bytes` bytes that begins at block `lba`.
pub fn advance_lba(lba: u32, bytes: usize) -> (result: Result<u32, ArchiveError>)
    ensures
        match result {
            Ok(next) => advanced(lba, bytes as nat) == Ok::<_, ErrorView>(next),
            Err(error) => advanced(lba, bytes as nat) == Err::<u32, _>(error@),
        },
{
    let count: usize = bytes / SECTOR + if bytes % SECTOR == 0 {
        0
    } else {
        1
    };
    proof {
        assert(count == sectors(bytes as nat));
    }
    if count as u64 > u32::MAX as u64 {
        return Err(iso_error(ErrorKind::Limit, "ISO region exceeds u32 sectors"));
    }
    match lba.checked_add(count as u32) {
        Some(next) => Ok(next),
        None => Err(iso_error(ErrorKind::Limit, "ISO LBA overflow")),
    }
}

} // verus!
