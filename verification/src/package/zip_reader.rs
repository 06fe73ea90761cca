//! The central directory of a ZIP container.
//!
//! Nothing is unpacked. The bytes are read from outside: a [`DirectoryReader`]
//! says which bytes it needs next.

use vstd::prelude::*;
use vstd::utf8::valid_utf8;
use crate::bytes::{
    has_prefix, le16, le32, le64, le_u16, le_u32, le_u64, starts_with, to_vec,
};
use crate::entry::{ArchivePath, PathEncoding};
use crate::limits::Limits;
use crate::package::finding::{
    findings_view, found, report, FindingView, PackageFinding, PackageFindingCode,
};
use crate::parts::same_texts;
use crate::path::{
    decode_text, safe_on, sanitize_archive_path, utf8_of_utf16, PathRules, SafePath,
};
use crate::path_set::optional_path;
use crate::text::{decimal, decimal_digits};

verus! {

/// Stored members are not compressed.
pub const METHOD_STORE: u16 = 0;

/// Deflated members.
pub const METHOD_DEFLATE: u16 = 8;

/// Members under AES encryption.
pub const METHOD_AES: u16 = 99;

/// The length of a local header.
pub const LOCAL_HEADER_LEN: usize = 30;

/// The length of a header of the central directory.
pub const CENTRAL_HEADER_LEN: usize = 46;

/// The shortest end record.
pub const EOCD_MIN: usize = 22;

/// How far from the end the end record can begin.
pub const EOCD_SEARCH: u64 = 65557;

/// The length of the ZIP64 locator.
pub const ZIP64_LOCATOR_LEN: usize = 20;

/// The length of the ZIP64 end record.
pub const ZIP64_RECORD_LEN: usize = 56;

/// A member that the central directory lists.
#[derive(Clone, Debug)]
pub struct ZipEntry {
    pub name: Vec<u8>,
    pub encoding: PathEncoding,
    pub method: u16,
    pub flags: u16,
    pub uncompressed_size: u64,
    pub local_offset: u64,
}

/// The mathematical content of a [`ZipEntry`].
#[verifier::ext_equal]
pub struct ZipEntryView {
    pub name: Seq<u8>,
    pub encoding: PathEncoding,
    pub method: u16,
    pub flags: u16,
    pub uncompressed_size: nat,
    pub local_offset: nat,
}

impl View for ZipEntry {
    type V = ZipEntryView;

    open spec fn view(&self) -> ZipEntryView {
        ZipEntryView {
            name: self.name@,
            encoding: self.encoding,
            method: self.method,
            flags: self.flags,
            uncompressed_size: self.uncompressed_size as nat,
            local_offset: self.local_offset as nat,
        }
    }
}

/// The content of a list of members.
pub open spec fn entries_view(entries: Seq<ZipEntry>) -> Seq<ZipEntryView> {
    Seq::new(entries.len(), |i: int| entries[i]@)
}

impl ZipEntryView {
    /// The member is encrypted.
    pub open spec fn encrypted(self) -> bool {
        self.flags % 2 == 1 || self.method == METHOD_AES
    }

    /// Where the member would be unpacked to on a host.
    pub open spec fn destination(self, rules: PathRules) -> Option<Seq<Seq<u8>>> {
        match self.encoding {
            PathEncoding::Bytes | PathEncoding::Utf8 => safe_on(self.name, rules),
            PathEncoding::Utf16Le => match utf8_of_utf16(self.name) {
                Some(text) => safe_on(text, rules),
                None => None,
            },
            PathEncoding::Other => None,
        }
    }
}

impl ZipEntry {
    /// Whether the member is encrypted.
    pub fn is_encrypted(&self) -> (encrypted: bool)
        ensures
            encrypted == self@.encrypted(),
    {
        self.flags % 2 == 1 || self.method == METHOD_AES
    }

    /// Where the member would be unpacked to on a host.
    fn safe_name(&self, rules: PathRules) -> (path: Option<SafePath>)
        ensures
            match path {
                Some(path) => self@.destination(rules) == Some(path@),
                None => self@.destination(rules) is None,
            },
    {
        let path = ArchivePath { bytes: to_vec(self.name.as_slice()), encoding: self.encoding };
        sanitize_archive_path(&path, rules)
    }
}

// ---------------------------------------------------------------------------
// Records
// ---------------------------------------------------------------------------

/// `PK` and two numbers.
pub open spec fn signature(third: u8, fourth: u8) -> Seq<u8> {
    seq![0x50u8, 0x4b, third, fourth]
}

/// Whether bytes begin with `PK` and two numbers.
pub fn has_signature(bytes: &[u8], third: u8, fourth: u8) -> (found: bool)
    ensures
        found == has_prefix(bytes@, signature(third, fourth)),
{
    let wanted: [u8; 4] = [0x50, 0x4b, third, fourth];
    proof {
        assert(wanted@ =~= signature(third, fourth));
    }
    starts_with(bytes, wanted.as_slice())
}

/// Where the end record begins: its last signature in the tail.
pub open spec fn end_record_at(tail: Seq<u8>) -> Option<int>
    decreases tail.len(),
{
    if tail.len() < 4 {
        None
    } else if tail.skip(tail.len() - 4) == signature(5, 6) {
        Some(tail.len() - 4)
    } else {
        end_record_at(tail.drop_last())
    }
}

/// What the end record says: the number of members, where the directory begins,
/// and where the record itself stands.
#[derive(Clone, Copy, Debug, PartialEq, Eq, Structural)]
pub struct EndRecord {
    pub count: u64,
    pub central_offset: u64,
    pub position: u64,
}

impl EndRecord {
    /// The true numbers stand in a ZIP64 record.
    pub open spec fn is_zip64(self) -> bool {
        self.count == 0xffff || self.central_offset == 0xffff_ffff
    }
}

/// What the end record in a tail says, or what is wrong with it.
pub open spec fn end_record(tail: Seq<u8>, tail_start: nat) -> Result<EndRecord, Seq<char>> {
    match end_record_at(tail) {
        None => Err("end-of-central-directory record not found"@),
        Some(at) => if tail.len() - at < EOCD_MIN {
            Err("truncated end-of-central-directory record"@)
        } else {
            Ok(
                EndRecord {
                    count: le16(tail, at + 10) as u64,
                    central_offset: le32(tail, at + 16) as u64,
                    position: (tail_start + at) as u64,
                },
            )
        },
    }
}

proof fn lemma_end_record_at(tail: Seq<u8>)
    ensures
        end_record_at(tail) matches Some(at) ==> 0 <= at <= tail.len() - 4,
    decreases tail.len(),
{
    if tail.len() >= 4 && tail.skip(tail.len() - 4) != signature(5, 6) {
        lemma_end_record_at(tail.drop_last());
    }
}

/// Reads the end record in the tail of a container.
pub fn read_end_record(tail: &[u8], tail_start: u64) -> (result: Result<EndRecord, &'static str>)
    requires
        tail_start + tail@.len() <= u64::MAX,
    ensures
        match result {
            Ok(record) => end_record(tail@, tail_start as nat) == Ok::<_, Seq<char>>(record),
            Err(reason) => end_record(tail@, tail_start as nat) == Err::<EndRecord, _>(reason@),
        },
{
    let mut end: usize = tail.len();
    proof {
        assert(tail@.take(end as int) =~= tail@);
    }
    while end >= 4
        invariant
            end <= tail@.len(),
            end_record_at(tail@) == end_record_at(tail@.take(end as int)),
            tail_start + tail@.len() <= u64::MAX,
        decreases end,
    {
        let at: usize = end - 4;
        let ghost part = tail@.take(end as int);
        let found: bool = tail[at] == 0x50 && tail[at + 1] == 0x4b && tail[at + 2] == 5 && tail[at
            + 3] == 6;
        proof {
            let window = part.skip(part.len() - 4);
            assert(window.len() == 4);
            assert(window[0] == tail@[at as int] && window[1] == tail@[at + 1] && window[2]
                == tail@[at + 2] && window[3] == tail@[at + 3]);
            assert(found == (window == signature(5, 6))) by {
                if found {
                    assert(window =~= signature(5, 6));
                } else if window == signature(5, 6) {
                    assert(signature(5, 6)[0] == 0x50 && signature(5, 6)[1] == 0x4b && signature(
                        5,
                        6,
                    )[2] == 5 && signature(5, 6)[3] == 6);
                }
            }
            assert(part.drop_last() =~= tail@.take(end - 1));
        }
        if found {
            if tail.len() - at < EOCD_MIN {
                return Err("truncated end-of-central-directory record");
            }
            let at64: u64 = at as u64;
            return Ok(
                EndRecord {
                    count: le_u16(tail, at + 10) as u64,
                    central_offset: le_u32(tail, at + 16) as u64,
                    position: tail_start + at64,
                },
            );
        }
        end = end - 1;
    }
    Err("end-of-central-directory record not found")
}

/// What a header of the central directory says.
#[derive(Clone, Copy, Debug, PartialEq, Eq, Structural)]
pub struct CentralHeader {
    pub flags: u16,
    pub method: u16,
    pub compressed: u32,
    pub uncompressed: u32,
    pub name_length: u16,
    pub extra_length: u16,
    pub comment_length: u16,
    pub local: u32,
}

impl CentralHeader {
    /// How many bytes follow the header.
    pub open spec fn tail_length(self) -> int {
        self.name_length + self.extra_length + self.comment_length
    }
}

/// What the bytes of a header say.
pub open spec fn central_header(fixed: Seq<u8>) -> CentralHeader {
    CentralHeader {
        flags: le16(fixed, 8) as u16,
        method: le16(fixed, 10) as u16,
        compressed: le32(fixed, 20) as u32,
        uncompressed: le32(fixed, 24) as u32,
        name_length: le16(fixed, 28) as u16,
        extra_length: le16(fixed, 30) as u16,
        comment_length: le16(fixed, 32) as u16,
        local: le32(fixed, 42) as u32,
    }
}

fn read_central_header(fixed: &[u8]) -> (header: CentralHeader)
    requires
        fixed@.len() == CENTRAL_HEADER_LEN,
    ensures
        header == central_header(fixed@),
{
    CentralHeader {
        flags: le_u16(fixed, 8),
        method: le_u16(fixed, 10),
        compressed: le_u32(fixed, 20),
        uncompressed: le_u32(fixed, 24),
        name_length: le_u16(fixed, 28),
        extra_length: le_u16(fixed, 30),
        comment_length: le_u16(fixed, 32),
        local: le_u32(fixed, 42),
    }
}

/// The ZIP64 field among the extra fields of a member; empty if there is none.
pub open spec fn zip64_field(extra: Seq<u8>) -> Result<Seq<u8>, Seq<char>>
    decreases extra.len(),
{
    if extra.len() < 4 {
        Ok(Seq::empty())
    } else {
        let finish = 4 + le16(extra, 2);
        if finish > extra.len() {
            Err("truncated ZIP extra field"@)
        } else if le16(extra, 0) == 1 {
            Ok(extra.subrange(4, finish as int))
        } else {
            zip64_field(extra.skip(finish as int))
        }
    }
}

/// A number that stands in a header, or next in a ZIP64 field if the header
/// holds all ones; with the rest of the field.
pub open spec fn resolved(field: Seq<u8>, short: u32) -> Result<(nat, Seq<u8>), Seq<char>> {
    if short != u32::MAX {
        Ok((short as nat, field))
    } else if field.len() < 8 {
        Err("truncated ZIP64 value"@)
    } else {
        Ok((le64(field, 0), field.skip(8)))
    }
}

/// The uncompressed size of a member and where its local header stands.
pub open spec fn member_sizes(
    extra: Seq<u8>,
    uncompressed: u32,
    compressed: u32,
    local: u32,
) -> Result<(nat, nat), Seq<char>> {
    match zip64_field(extra) {
        Err(reason) => Err(reason),
        Ok(field) => match resolved(field, uncompressed) {
            Err(reason) => Err(reason),
            Ok((size, field)) => match resolved(field, compressed) {
                Err(reason) => Err(reason),
                Ok((_, field)) => match resolved(field, local) {
                    Err(reason) => Err(reason),
                    Ok((offset, _)) => Ok((size, offset)),
                },
            },
        },
    }
}

fn find_zip64_field(extra: &[u8]) -> (result: Result<(usize, usize), &'static str>)
    ensures
        match result {
            Ok((start, finish)) => start <= finish <= extra@.len() && zip64_field(extra@) == Ok::<
                _,
                Seq<char>,
            >(extra@.subrange(start as int, finish as int)),
            Err(reason) => zip64_field(extra@) == Err::<Seq<u8>, _>(reason@),
        },
{
    let count: usize = extra.len();
    let mut cursor: usize = 0;
    proof {
        assert(extra@.skip(0) =~= extra@);
    }
    while count - cursor >= 4
        invariant
            count == extra@.len(),
            cursor <= count,
            zip64_field(extra@) == zip64_field(extra@.skip(cursor as int)),
        decreases count - cursor,
    {
        let id: u16 = le_u16(extra, cursor);
        let length: usize = le_u16(extra, cursor + 2) as usize;
        let start: usize = cursor + 4;
        let ghost rest = extra@.skip(cursor as int);
        proof {
            assert(rest[0] == extra@[cursor as int] && rest[1] == extra@[cursor + 1] && rest[2]
                == extra@[cursor + 2] && rest[3] == extra@[cursor + 3]);
        }
        if length > count - start {
            return Err("truncated ZIP extra field");
        }
        let finish: usize = start + length;
        if id == 1 {
            proof {
                assert(rest.subrange(4, 4 + length as int) =~= extra@.subrange(
                    start as int,
                    finish as int,
                ));
            }
            return Ok((start, finish));
        }
        proof {
            assert(rest.skip(4 + length as int) =~= extra@.skip(finish as int));
        }
        cursor = finish;
    }
    proof {
        assert(extra@.subrange(0, 0) =~= Seq::<u8>::empty());
    }
    Ok((0, 0))
}

fn resolve<'a>(field: &'a [u8], short: u32) -> (result: Result<(u64, &'a [u8]), &'static str>)
    ensures
        match result {
            Ok((value, rest)) => resolved(field@, short) == Ok::<_, Seq<char>>(
                (value as nat, rest@),
            ),
            Err(reason) => resolved(field@, short) == Err::<(nat, Seq<u8>), _>(reason@),
        },
{
    if short != u32::MAX {
        return Ok((short as u64, field));
    }
    if field.len() < 8 {
        return Err("truncated ZIP64 value");
    }
    let rest = &field[8..field.len()];
    proof {
        assert(rest@ =~= field@.skip(8));
    }
    Ok((le_u64(field, 0), rest))
}

/// Reads the uncompressed size of a member and where its local header stands.
pub fn zip64_sizes(extra: &[u8], uncompressed: u32, compressed: u32, local: u32) -> (result: Result<
    (u64, u64),
    &'static str,
>)
    ensures
        match result {
            Ok((size, offset)) => member_sizes(extra@, uncompressed, compressed, local) == Ok::<
                _,
                Seq<char>,
            >((size as nat, offset as nat)),
            Err(reason) => member_sizes(extra@, uncompressed, compressed, local) == Err::<
                (nat, nat),
                _,
            >(reason@),
        },
{
    let (start, finish) = match find_zip64_field(extra) {
        Ok(place) => place,
        Err(reason) => {
            return Err(reason);
        },
    };
    let field = &extra[start..finish];
    proof {
        assert(field@ =~= extra@.subrange(start as int, finish as int));
    }
    let (size, field) = match resolve(field, uncompressed) {
        Ok(pair) => pair,
        Err(reason) => {
            return Err(reason);
        },
    };
    let (_, field) = match resolve(field, compressed) {
        Ok(pair) => pair,
        Err(reason) => {
            return Err(reason);
        },
    };
    match resolve(field, local) {
        Ok((offset, _)) => Ok((size, offset)),
        Err(reason) => Err(reason),
    }
}

/// How the name of a member is to be read.
pub open spec fn name_encoding(flags: u16, name: Seq<u8>) -> PathEncoding {
    if (flags / 0x800) % 2 == 1 || valid_utf8(name) {
        PathEncoding::Utf8
    } else {
        PathEncoding::Bytes
    }
}

/// The member that a header and the bytes behind it describe.
pub open spec fn described_member(
    header: CentralHeader,
    tail: Seq<u8>,
    path_bytes: Option<usize>,
) -> Result<ZipEntryView, Seq<char>> {
    let name = tail.take(header.name_length as int);
    let extra = tail.subrange(
        header.name_length as int,
        header.name_length + header.extra_length,
    );
    match member_sizes(extra, header.uncompressed, header.compressed, header.local) {
        Err(reason) => Err(reason),
        Ok((size, offset)) => if path_bytes is Some && name.len() > path_bytes->0 {
            Err("ZIP pathname exceeds configured limit"@)
        } else {
            Ok(
                ZipEntryView {
                    name,
                    encoding: name_encoding(header.flags, name),
                    method: header.method,
                    flags: header.flags,
                    uncompressed_size: size,
                    local_offset: offset,
                },
            )
        },
    }
}

fn read_member(header: &CentralHeader, tail: &[u8], path_bytes: Option<usize>) -> (result: Result<
    ZipEntry,
    &'static str,
>)
    requires
        tail@.len() == header.tail_length(),
    ensures
        match result {
            Ok(entry) => described_member(*header, tail@, path_bytes) == Ok::<_, Seq<char>>(
                entry@,
            ),
            Err(reason) => described_member(*header, tail@, path_bytes) == Err::<ZipEntryView, _>(
                reason@,
            ),
        },
{
    let name_length: usize = header.name_length as usize;
    let extra_length: usize = header.extra_length as usize;
    let name = &tail[0..name_length];
    let extra = &tail[name_length..name_length + extra_length];
    proof {
        assert(name@ =~= tail@.take(name_length as int));
        assert(extra@ =~= tail@.subrange(name_length as int, name_length + extra_length));
    }
    let (uncompressed_size, local_offset) = match zip64_sizes(
        extra,
        header.uncompressed,
        header.compressed,
        header.local,
    ) {
        Ok(sizes) => sizes,
        Err(reason) => {
            return Err(reason);
        },
    };
    if let Some(limit) = path_bytes {
        if name.len() > limit {
            return Err("ZIP pathname exceeds configured limit");
        }
    }
    let encoding = if (header.flags / 0x800) % 2 == 1 || decode_text(name).is_some() {
        PathEncoding::Utf8
    } else {
        PathEncoding::Bytes
    };
    Ok(
        ZipEntry {
            name: to_vec(name),
            encoding,
            method: header.method,
            flags: header.flags,
            uncompressed_size,
            local_offset,
        },
    )
}

// ---------------------------------------------------------------------------
// Reading the directory
// ---------------------------------------------------------------------------

/// What a [`DirectoryReader`] waits for.
#[derive(Clone, Copy, Debug, PartialEq, Eq, Structural)]
pub enum DirectoryStage {
    /// The tail of the container.
    Tail { start: u64, length: usize },
    /// The ZIP64 locator.
    Locator { position: u64 },
    /// The ZIP64 end record.
    Record { position: u64 },
    /// That the container is at the beginning of the directory; no bytes.
    Directory,
    /// The header of the next member.
    Header,
    /// What follows a header.
    Member { header: CentralHeader },
    /// Nothing: the directory is read.
    Done,
    /// Nothing: the container is broken.
    Failed,
}

/// Bytes that are needed: where they begin (`None`: where the last ones ended)
/// and how many there are.
#[derive(Clone, Copy, Debug, PartialEq, Eq, Structural)]
pub struct ReadRequest {
    pub at: Option<u64>,
    pub length: usize,
}

/// Reads a central directory, asking for its bytes.
#[derive(Debug)]
pub struct DirectoryReader {
    pub limits: Limits,
    pub stage: DirectoryStage,
    /// Members that are still to come.
    pub remaining: u64,
    /// Where the directory begins.
    pub central_offset: u64,
    /// Bytes of metadata in use.
    pub used: usize,
    pub entries: Vec<ZipEntry>,
}

/// The mathematical content of a [`DirectoryReader`].
#[verifier::ext_equal]
pub struct DirectoryView {
    pub limits: Limits,
    pub stage: DirectoryStage,
    pub remaining: nat,
    pub central_offset: nat,
    pub used: nat,
    pub entries: Seq<ZipEntryView>,
}

impl View for DirectoryReader {
    type V = DirectoryView;

    open spec fn view(&self) -> DirectoryView {
        DirectoryView {
            limits: self.limits,
            stage: self.stage,
            remaining: self.remaining as nat,
            central_offset: self.central_offset as nat,
            used: self.used as nat,
            entries: entries_view(self.entries@),
        }
    }
}

/// The bytes that one listed member takes in memory, besides its name.
pub open spec fn entry_cost() -> nat {
    vstd::layout::size_of::<ZipEntry>()
}

impl DirectoryView {
    /// The bytes that are needed next.
    pub open spec fn request(self) -> Option<ReadRequest> {
        match self.stage {
            DirectoryStage::Tail { start, length } => Some(ReadRequest { at: Some(start), length }),
            DirectoryStage::Locator { position } => Some(
                ReadRequest { at: Some(position), length: ZIP64_LOCATOR_LEN },
            ),
            DirectoryStage::Record { position } => Some(
                ReadRequest { at: Some(position), length: ZIP64_RECORD_LEN },
            ),
            DirectoryStage::Directory => Some(
                ReadRequest { at: Some(self.central_offset as u64), length: 0 },
            ),
            DirectoryStage::Header => Some(ReadRequest { at: None, length: CENTRAL_HEADER_LEN }),
            DirectoryStage::Member { header } => Some(
                ReadRequest { at: None, length: header.tail_length() as usize },
            ),
            DirectoryStage::Done | DirectoryStage::Failed => None,
        }
    }

    /// The reader with the members to come and the place of the directory.
    pub open spec fn located(self, count: nat, offset: nat) -> Result<DirectoryView, Seq<char>> {
        if self.limits.entries is Some && count > self.limits.entries->0 {
            Err("central-directory entry count exceeds limit"@)
        } else {
            Ok(
                DirectoryView {
                    stage: DirectoryStage::Directory,
                    remaining: count,
                    central_offset: offset,
                    ..self
                },
            )
        }
    }

    /// The reader after it got the bytes that it asked for.
    pub open spec fn supplied(self, bytes: Seq<u8>) -> Result<DirectoryView, Seq<char>> {
        match self.stage {
            DirectoryStage::Tail { start, .. } => match end_record(bytes, start as nat) {
                Err(reason) => Err(reason),
                Ok(record) => if !record.is_zip64() {
                    self.located(record.count as nat, record.central_offset as nat)
                } else if record.position < ZIP64_LOCATOR_LEN {
                    Err("ZIP64 locator is missing"@)
                } else {
                    Ok(
                        DirectoryView {
                            stage: DirectoryStage::Locator {
                                position: (record.position - ZIP64_LOCATOR_LEN) as u64,
                            },
                            ..self
                        },
                    )
                },
            },
            DirectoryStage::Locator { .. } => if !has_prefix(bytes, signature(6, 7)) {
                Err("bad ZIP64 locator"@)
            } else {
                Ok(
                    DirectoryView {
                        stage: DirectoryStage::Record { position: le64(bytes, 8) as u64 },
                        ..self
                    },
                )
            },
            DirectoryStage::Record { .. } => if !has_prefix(bytes, signature(6, 6)) {
                Err("bad ZIP64 end record"@)
            } else {
                self.located(le64(bytes, 32), le64(bytes, 48))
            },
            DirectoryStage::Directory => Ok(
                DirectoryView {
                    stage: if self.remaining == 0 {
                        DirectoryStage::Done
                    } else {
                        DirectoryStage::Header
                    },
                    ..self
                },
            ),
            DirectoryStage::Header => if !has_prefix(bytes, signature(1, 2)) {
                Err("bad central-directory signature"@)
            } else {
                let header = central_header(bytes);
                let used = self.used + header.tail_length() + entry_cost();
                if used > usize::MAX {
                    Err("metadata accounting overflow"@)
                } else if self.limits.metadata_bytes is Some && used
                    > self.limits.metadata_bytes->0 {
                    Err("central-directory metadata exceeds limit"@)
                } else {
                    Ok(
                        DirectoryView {
                            stage: DirectoryStage::Member { header },
                            used: used as nat,
                            ..self
                        },
                    )
                }
            },
            DirectoryStage::Member { header } => match described_member(
                header,
                bytes,
                self.limits.path_bytes,
            ) {
                Err(reason) => Err(reason),
                Ok(entry) => Ok(
                    DirectoryView {
                        stage: if self.remaining == 1 {
                            DirectoryStage::Done
                        } else {
                            DirectoryStage::Header
                        },
                        remaining: (self.remaining - 1) as nat,
                        entries: self.entries.push(entry),
                        ..self
                    },
                ),
            },
            DirectoryStage::Done | DirectoryStage::Failed => Ok(self),
        }
    }
}

/// The bytes that listed members take in memory.
pub open spec fn held(entries: Seq<ZipEntryView>) -> nat
    decreases entries.len(),
{
    if entries.len() == 0 {
        0
    } else {
        held(entries.drop_last()) + entries.last().name.len() + entry_cost()
    }
}

/// What is kept of a directory stays within its budgets: the bytes of all
/// members, their number, and the length of each name.
pub open spec fn within_budgets(reader: DirectoryView) -> bool {
    let coming: int = match reader.stage {
        DirectoryStage::Member { header } => header.tail_length() + entry_cost(),
        _ => 0,
    };
    &&& held(reader.entries) + coming <= reader.used
    &&& reader.limits.metadata_bytes matches Some(limit) ==> reader.used <= limit
    &&& reader.limits.entries matches Some(limit) ==> reader.entries.len() + reader.remaining
        <= limit
    &&& reader.limits.path_bytes matches Some(limit) ==> forall|i: int|
        0 <= i < reader.entries.len() ==> (#[trigger] reader.entries[i]).name.len() <= limit
    &&& reader.stage is Header || reader.stage is Member ==> reader.remaining > 0
    &&& reader.stage is Tail || reader.stage is Locator || reader.stage is Record
        || reader.stage is Directory ==> reader.entries.len() == 0
}

/// A directory stays within its budgets whatever the container holds.
pub proof fn law_directory_stays_within_budgets(reader: DirectoryView, bytes: Seq<u8>)
    requires
        within_budgets(reader),
        reader.request() matches Some(request) && bytes.len() == request.length,
    ensures
        reader.supplied(bytes) matches Ok(next) ==> within_budgets(next),
{
    if let Ok(next) = reader.supplied(bytes) {
        if let DirectoryStage::Member { header } = reader.stage {
            let entry = next.entries.last();
            assert(next.entries.drop_last() =~= reader.entries);
            assert(entry.name.len() == header.name_length);
            assert forall|i: int| 0 <= i < next.entries.len() && next.limits.path_bytes is Some implies (
            #[trigger] next.entries[i]).name.len() <= next.limits.path_bytes->0 by {
                if i < reader.entries.len() {
                    assert(next.entries[i] == reader.entries[i]);
                }
            }
        }
    }
}

/// How many bytes at the end of a container can hold its end record.
pub open spec fn tail_length(length: nat) -> nat {
    if length < EOCD_SEARCH {
        length
    } else {
        EOCD_SEARCH as nat
    }
}

impl DirectoryReader {
    /// The reader is in a state that it can get into.
    pub open spec fn wf(&self) -> bool {
        &&& self.stage matches DirectoryStage::Tail { start, length } ==> start + length <= u64::MAX
        &&& self.stage is Header || self.stage is Member ==> self.remaining > 0
    }

    /// A reader of a container of a length.
    pub fn new(length: u64, limits: Limits) -> (reader: Self)
        ensures
            reader.wf(),
            reader@ == (DirectoryView {
                limits,
                stage: DirectoryStage::Tail {
                    start: (length - tail_length(length as nat)) as u64,
                    length: tail_length(length as nat) as usize,
                },
                remaining: 0,
                central_offset: 0,
                used: 0,
                entries: Seq::empty(),
            }),
    {
        let tail: u64 = if length < EOCD_SEARCH {
            length
        } else {
            EOCD_SEARCH
        };
        let reader = DirectoryReader {
            limits,
            stage: DirectoryStage::Tail { start: length - tail, length: tail as usize },
            remaining: 0,
            central_offset: 0,
            used: 0,
            entries: Vec::new(),
        };
        proof {
            assert(entries_view(reader.entries@) =~= Seq::<ZipEntryView>::empty());
        }
        reader
    }

    /// The bytes that are needed next; `None` if the reader has ended.
    pub fn request(&self) -> (request: Option<ReadRequest>)
        ensures
            request == self@.request(),
    {
        match self.stage {
            DirectoryStage::Tail { start, length } => Some(ReadRequest { at: Some(start), length }),
            DirectoryStage::Locator { position } => Some(
                ReadRequest { at: Some(position), length: ZIP64_LOCATOR_LEN },
            ),
            DirectoryStage::Record { position } => Some(
                ReadRequest { at: Some(position), length: ZIP64_RECORD_LEN },
            ),
            DirectoryStage::Directory => Some(
                ReadRequest { at: Some(self.central_offset), length: 0 },
            ),
            DirectoryStage::Header => Some(ReadRequest { at: None, length: CENTRAL_HEADER_LEN }),
            DirectoryStage::Member { header } => Some(
                ReadRequest {
                    at: None,
                    length: header.name_length as usize + header.extra_length as usize
                        + header.comment_length as usize,
                },
            ),
            DirectoryStage::Done | DirectoryStage::Failed => None,
        }
    }

    /// What failed if the bytes that are needed next cannot be read.
    pub fn failure(&self) -> (text: &'static str)
        ensures
            text@ == match self.stage {
                DirectoryStage::Tail { .. } => "cannot read ZIP tail: "@,
                DirectoryStage::Locator { .. } => "cannot read ZIP64 locator: "@,
                DirectoryStage::Record { .. } => "cannot read ZIP64 end record: "@,
                DirectoryStage::Directory => "cannot seek to central directory: "@,
                DirectoryStage::Header => "cannot read central-directory header: "@,
                _ => "cannot read central-directory record: "@,
            },
    {
        match self.stage {
            DirectoryStage::Tail { .. } => "cannot read ZIP tail: ",
            DirectoryStage::Locator { .. } => "cannot read ZIP64 locator: ",
            DirectoryStage::Record { .. } => "cannot read ZIP64 end record: ",
            DirectoryStage::Directory => "cannot seek to central directory: ",
            DirectoryStage::Header => "cannot read central-directory header: ",
            _ => "cannot read central-directory record: ",
        }
    }

    /// Takes the bytes that were asked for.
    pub fn supply(&mut self, bytes: &[u8]) -> (result: Result<(), &'static str>)
        requires
            old(self).wf(),
            old(self)@.request() matches Some(request) && bytes@.len() == request.length,
        ensures
            final(self).wf(),
            match result {
                Ok(()) => old(self)@.supplied(bytes@) == Ok::<_, Seq<char>>(final(self)@),
                Err(reason) => {
                    &&& old(self)@.supplied(bytes@) == Err::<DirectoryView, _>(reason@)
                    &&& final(self).stage is Failed
                },
            },
    {
        let result = match self.stage {
            DirectoryStage::Tail { start, .. } => self.take_tail(bytes, start),
            DirectoryStage::Locator { .. } => {
                if has_signature(bytes, 6, 7) {
                    self.stage = DirectoryStage::Record { position: le_u64(bytes, 8) };
                    Ok(())
                } else {
                    Err("bad ZIP64 locator")
                }
            },
            DirectoryStage::Record { .. } => {
                if has_signature(bytes, 6, 6) {
                    self.locate(le_u64(bytes, 32), le_u64(bytes, 48))
                } else {
                    Err("bad ZIP64 end record")
                }
            },
            DirectoryStage::Directory => {
                self.stage = if self.remaining == 0 {
                    DirectoryStage::Done
                } else {
                    DirectoryStage::Header
                };
                Ok(())
            },
            DirectoryStage::Header => self.take_header(bytes),
            DirectoryStage::Member { header } => self.take_member(&header, bytes),
            DirectoryStage::Done | DirectoryStage::Failed => Ok(()),
        };
        if result.is_err() {
            self.stage = DirectoryStage::Failed;
        }
        result
    }

    fn locate(&mut self, count: u64, offset: u64) -> (result: Result<(), &'static str>)
        ensures
            match result {
                Ok(()) => {
                    &&& old(self)@.located(count as nat, offset as nat) == Ok::<_, Seq<char>>(
                        final(self)@,
                    )
                    &&& final(self).wf()
                },
                Err(reason) => old(self)@.located(count as nat, offset as nat) == Err::<
                    DirectoryView,
                    _,
                >(reason@),
            },
    {
        if let Some(limit) = self.limits.entries {
            if count > limit {
                return Err("central-directory entry count exceeds limit");
            }
        }
        self.remaining = count;
        self.central_offset = offset;
        self.stage = DirectoryStage::Directory;
        Ok(())
    }

    fn take_tail(&mut self, bytes: &[u8], start: u64) -> (result: Result<(), &'static str>)
        requires
            old(self).stage == (DirectoryStage::Tail { start, length: bytes@.len() as usize }),
            start + bytes@.len() <= u64::MAX,
        ensures
            match result {
                Ok(()) => {
                    &&& old(self)@.supplied(bytes@) == Ok::<_, Seq<char>>(final(self)@)
                    &&& final(self).wf()
                },
                Err(reason) => old(self)@.supplied(bytes@) == Err::<DirectoryView, _>(reason@),
            },
    {
        let record = match read_end_record(bytes, start) {
            Ok(record) => record,
            Err(reason) => {
                return Err(reason);
            },
        };
        if record.count == 0xffff || record.central_offset == 0xffff_ffff {
            if record.position < ZIP64_LOCATOR_LEN as u64 {
                return Err("ZIP64 locator is missing");
            }
            self.stage = DirectoryStage::Locator {
                position: record.position - ZIP64_LOCATOR_LEN as u64,
            };
            return Ok(());
        }
        self.locate(record.count, record.central_offset)
    }

    fn take_header(&mut self, bytes: &[u8]) -> (result: Result<(), &'static str>)
        requires
            old(self).wf(),
            old(self).stage is Header,
            bytes@.len() == CENTRAL_HEADER_LEN,
        ensures
            match result {
                Ok(()) => {
                    &&& old(self)@.supplied(bytes@) == Ok::<_, Seq<char>>(final(self)@)
                    &&& final(self).wf()
                },
                Err(reason) => old(self)@.supplied(bytes@) == Err::<DirectoryView, _>(reason@),
            },
    {
        if !has_signature(bytes, 1, 2) {
            return Err("bad central-directory signature");
        }
        let header = read_central_header(bytes);
        let variable: usize = header.name_length as usize + header.extra_length as usize
            + header.comment_length as usize;
        let cost: usize = core::mem::size_of::<ZipEntry>();
        let used: usize = match self.used.checked_add(variable) {
            Some(used) => match used.checked_add(cost) {
                Some(used) => used,
                None => {
                    return Err("metadata accounting overflow");
                },
            },
            None => {
                return Err("metadata accounting overflow");
            },
        };
        if let Some(limit) = self.limits.metadata_bytes {
            if used > limit {
                return Err("central-directory metadata exceeds limit");
            }
        }
        self.used = used;
        self.stage = DirectoryStage::Member { header };
        Ok(())
    }

    fn take_member(&mut self, header: &CentralHeader, bytes: &[u8]) -> (result: Result<
        (),
        &'static str,
    >)
        requires
            old(self).wf(),
            old(self).stage == (DirectoryStage::Member { header: *header }),
            bytes@.len() == header.tail_length(),
        ensures
            match result {
                Ok(()) => {
                    &&& old(self)@.supplied(bytes@) == Ok::<_, Seq<char>>(final(self)@)
                    &&& final(self).wf()
                },
                Err(reason) => old(self)@.supplied(bytes@) == Err::<DirectoryView, _>(reason@),
            },
    {
        let entry = match read_member(header, bytes, self.limits.path_bytes) {
            Ok(entry) => entry,
            Err(reason) => {
                return Err(reason);
            },
        };
        let ghost before = self.entries@;
        self.entries.push(entry);
        self.remaining = self.remaining - 1;
        self.stage = if self.remaining == 0 {
            DirectoryStage::Done
        } else {
            DirectoryStage::Header
        };
        proof {
            assert(entries_view(self.entries@) =~= entries_view(before).push(entry@));
        }
        Ok(())
    }
}

// ---------------------------------------------------------------------------
// Checks that every profile shares
// ---------------------------------------------------------------------------

/// A member would be unpacked to where an earlier one is.
pub open spec fn repeats(entries: Seq<ZipEntryView>, at: int, rules: PathRules) -> bool {
    exists|i: int|
        0 <= i < at && (#[trigger] entries[i]).destination(rules) is Some && entries[i].destination(rules)
            == entries[at].destination(rules)
}

/// The declared sizes of the first members together, at most what 64 bits hold.
pub open spec fn declared_total(entries: Seq<ZipEntryView>, count: nat) -> nat
    decreases count,
{
    if count == 0 {
        0
    } else {
        let sum = declared_total(entries, (count - 1) as nat) + entries[count
            - 1].uncompressed_size;
        if sum > u64::MAX {
            u64::MAX as nat
        } else {
            sum
        }
    }
}

/// What is to be said about a member's name.
pub open spec fn name_findings(
    label: Seq<char>,
    entries: Seq<ZipEntryView>,
    at: int,
    rules: PathRules,
) -> Seq<FindingView> {
    let name = Some(entries[at].name);
    if entries[at].destination(rules) is None {
        seq![
            found(
                label,
                name,
                PackageFindingCode::UnsafeEntryPath,
                "member name is absolute, traversing, or unrepresentable"@,
            ),
        ]
    } else if repeats(entries, at, rules) {
        seq![
            found(
                label,
                name,
                PackageFindingCode::DuplicateEntryPath,
                "member path repeats within the archive"@,
            ),
        ]
    } else {
        Seq::empty()
    }
}

/// What is to be said about how a member is stored.
pub open spec fn coding_findings(label: Seq<char>, entry: ZipEntryView) -> Seq<FindingView> {
    if entry.encrypted() {
        seq![
            found(
                label,
                Some(entry.name),
                PackageFindingCode::UnexpectedEncryption,
                "member is encrypted, which this profile forbids"@,
            ),
        ]
    } else if entry.method != METHOD_STORE && entry.method != METHOD_DEFLATE {
        seq![
            found(
                label,
                Some(entry.name),
                PackageFindingCode::UnsupportedCompression,
                "member uses compression method "@ + decimal_digits(entry.method as nat)
                    + " this build cannot decode"@,
            ),
        ]
    } else {
        Seq::empty()
    }
}

/// What is to be said when a total goes over its budget.
pub open spec fn over_budget(
    label: Seq<char>,
    before: nat,
    total: nat,
    budget: Option<u64>,
) -> Seq<FindingView> {
    if budget is Some && before <= budget->0 && total > budget->0 {
        seq![
            found(
                label,
                None,
                PackageFindingCode::DecompressionBomb,
                "declared uncompressed size exceeds the decompression budget"@,
            ),
        ]
    } else {
        Seq::empty()
    }
}

/// What is to be said where the declared sizes go over their budget, at the
/// member with which they do.
pub open spec fn budget_findings(
    label: Seq<char>,
    entries: Seq<ZipEntryView>,
    at: int,
    budget: Option<u64>,
) -> Seq<FindingView> {
    over_budget(
        label,
        declared_total(entries, at as nat),
        declared_total(entries, (at + 1) as nat),
        budget,
    )
}

/// What is to be said about the first members of a container.
pub open spec fn common_findings(
    label: Seq<char>,
    entries: Seq<ZipEntryView>,
    budget: Option<u64>,
    count: nat,
    rules: PathRules,
) -> Seq<FindingView>
    decreases count,
{
    if count == 0 {
        Seq::empty()
    } else {
        let at = count - 1;
        common_findings(label, entries, budget, at as nat, rules) + name_findings(
            label,
            entries,
            at,
            rules,
        )
            + coding_findings(label, entries[at]) + budget_findings(label, entries, at, budget)
    }
}

/// The declared sizes only grow.
proof fn lemma_declared_total_grows(entries: Seq<ZipEntryView>, first: nat, second: nat)
    requires
        first <= second,
    ensures
        declared_total(entries, first) <= declared_total(entries, second) <= u64::MAX,
    decreases second,
{
    if second > first {
        lemma_declared_total_grows(entries, first, (second - 1) as nat);
    } else if second > 0 {
        lemma_declared_total_grows(entries, (second - 1) as nat, (second - 1) as nat);
    }
}

/// A budget is reported at most once: at no two members do the declared sizes
/// go over it.
pub proof fn law_budget_is_reported_once(
    label: Seq<char>,
    entries: Seq<ZipEntryView>,
    budget: Option<u64>,
    first: int,
    second: int,
)
    requires
        0 <= first < second < entries.len(),
    ensures
        budget_findings(label, entries, first, budget).len() == 0 || budget_findings(
            label,
            entries,
            second,
            budget,
        ).len() == 0,
{
    lemma_declared_total_grows(entries, (first + 1) as nat, second as nat);
}

/// A list holds the destinations of the first members.
spec fn lists_destinations(
    list: Seq<Option<SafePath>>,
    entries: Seq<ZipEntryView>,
    rules: PathRules,
) -> bool {
    forall|i: int|
        #![trigger entries[i]]
        0 <= i < list.len() ==> optional_path(list[i]) == entries[i].destination(rules)
}

fn stands_before(
    seen: &Vec<Option<SafePath>>,
    path: &SafePath,
    rules: PathRules,
    entries: Ghost<Seq<ZipEntryView>>,
) -> (found: bool)
    requires
        seen@.len() < entries@.len(),
        lists_destinations(seen@, entries@, rules),
        entries@[seen@.len() as int].destination(rules) == Some(path@),
    ensures
        found == repeats(entries@, seen@.len() as int, rules),
{
    let mut i: usize = 0;
    while i < seen.len()
        invariant
            i <= seen@.len() < entries@.len(),
            lists_destinations(seen@, entries@, rules),
            entries@[seen@.len() as int].destination(rules) == Some(path@),
            forall|j: int|
                0 <= j < i ==> (#[trigger] entries@[j]).destination(rules) != Some(path@),
        decreases seen@.len() - i,
    {
        proof {
            assert(optional_path(seen@[i as int]) == entries@[i as int].destination(rules));
        }
        if let Some(other) = &seen[i] {
            if same_texts(other.parts.as_slice(), path.parts.as_slice()) {
                return true;
            }
        }
        i += 1;
    }
    false
}

fn check_name(
    label: &'static str,
    entries: &[ZipEntry],
    at: usize,
    rules: PathRules,
    seen: &mut Vec<Option<SafePath>>,
    findings: &mut Vec<PackageFinding>,
)
    requires
        at < entries@.len(),
        old(seen)@.len() == at,
        lists_destinations(old(seen)@, entries_view(entries@), rules),
    ensures
        final(seen)@.len() == at + 1,
        lists_destinations(final(seen)@, entries_view(entries@), rules),
        findings_view(final(findings)@) == findings_view(old(findings)@) + name_findings(
            label@,
            entries_view(entries@),
            at as int,
            rules,
        ),
{
    let ghost views = entries_view(entries@);
    let ghost before = findings_view(findings@);
    let ghost list = seen@;
    let entry = &entries[at];
    proof {
        assert(views[at as int] == entry@);
        assert(before + Seq::<FindingView>::empty() =~= before);
    }
    let path = entry.safe_name(rules);
    match &path {
        None => {
            let finding = PackageFinding::new(
                label,
                Some(to_vec(entry.name.as_slice())),
                PackageFindingCode::UnsafeEntryPath,
                "member name is absolute, traversing, or unrepresentable",
            );
            report(findings, finding);
            proof {
                assert(before.push(finding@) =~= before + seq![finding@]);
            }
        },
        Some(path) => {
            if stands_before(seen, path, rules, Ghost(views)) {
                let finding = PackageFinding::new(
                    label,
                    Some(to_vec(entry.name.as_slice())),
                    PackageFindingCode::DuplicateEntryPath,
                    "member path repeats within the archive",
                );
                report(findings, finding);
                proof {
                    assert(before.push(finding@) =~= before + seq![finding@]);
                }
            }
        },
    }
    seen.push(path);
    proof {
        assert forall|i: int| #![trigger views[i]] 0 <= i < seen@.len() implies optional_path(
            seen@[i],
        ) == views[i].destination(rules) by {
            if i < at {
                assert(seen@[i] == list[i]);
            }
        }
    }
}

fn check_coding(label: &'static str, entry: &ZipEntry, findings: &mut Vec<PackageFinding>)
    ensures
        findings_view(final(findings)@) == findings_view(old(findings)@) + coding_findings(
            label@,
            entry@,
        ),
{
    let ghost before = findings_view(findings@);
    proof {
        assert(before + Seq::<FindingView>::empty() =~= before);
    }
    if entry.is_encrypted() {
        let finding = PackageFinding::new(
            label,
            Some(to_vec(entry.name.as_slice())),
            PackageFindingCode::UnexpectedEncryption,
            "member is encrypted, which this profile forbids",
        );
        report(findings, finding);
        proof {
            assert(before.push(finding@) =~= before + seq![finding@]);
        }
    } else if entry.method != METHOD_STORE && entry.method != METHOD_DEFLATE {
        let mut detail = "member uses compression method ".to_string();
        detail.append(decimal(entry.method as u64).as_str());
        detail.append(" this build cannot decode");
        let finding = PackageFinding::unsupported_method(
            label,
            Some(to_vec(entry.name.as_slice())),
            detail.as_str(),
        );
        report(findings, finding);
        proof {
            assert(before.push(finding@) =~= before + seq![finding@]);
        }
    }
}

fn check_budget(
    label: &'static str,
    before: u64,
    total: u64,
    budget: Option<u64>,
    findings: &mut Vec<PackageFinding>,
)
    ensures
        findings_view(final(findings)@) == findings_view(old(findings)@) + over_budget(
            label@,
            before as nat,
            total as nat,
            budget,
        ),
{
    let ghost start = findings_view(findings@);
    proof {
        assert(start + Seq::<FindingView>::empty() =~= start);
    }
    if let Some(limit) = budget {
        if before <= limit && total > limit {
            let finding = PackageFinding::new(
                label,
                None,
                PackageFindingCode::DecompressionBomb,
                "declared uncompressed size exceeds the decompression budget",
            );
            report(findings, finding);
            proof {
                assert(start.push(finding@) =~= start + seq![finding@]);
            }
        }
    }
}

/// Reports what every profile forbids: unsafe names, members that stand twice,
/// encryption, unknown compression, and declared sizes over their budget.
pub fn check_common_structure(
    label: &'static str,
    entries: &[ZipEntry],
    limits: Limits,
    rules: PathRules,
    findings: &mut Vec<PackageFinding>,
)
    ensures
        findings_view(final(findings)@) == findings_view(old(findings)@) + common_findings(
            label@,
            entries_view(entries@),
            limits.decoded_total,
            entries@.len(),
            rules,
        ),
{
    let ghost views = entries_view(entries@);
    let ghost start = findings_view(findings@);
    let mut seen: Vec<Option<SafePath>> = Vec::new();
    let mut total: u64 = 0;
    let mut i: usize = 0;
    proof {
        assert(start + Seq::<FindingView>::empty() =~= start);
    }
    while i < entries.len()
        invariant
            i <= entries@.len(),
            views == entries_view(entries@),
            seen@.len() == i,
            lists_destinations(seen@, views, rules),
            total == declared_total(views, i as nat),
            findings_view(findings@) == start + common_findings(
                label@,
                views,
                limits.decoded_total,
                i as nat,
                rules,
            ),
        decreases entries@.len() - i,
    {
        let ghost so_far = common_findings(label@, views, limits.decoded_total, i as nat, rules);
        let ghost name = name_findings(label@, views, i as int, rules);
        let ghost coding = coding_findings(label@, views[i as int]);
        check_name(label, entries, i, rules, &mut seen, findings);
        check_coding(label, &entries[i], findings);
        let before: u64 = total;
        total = total.saturating_add(entries[i].uncompressed_size);
        proof {
            assert(views[i as int] == entries@[i as int]@);
            assert(total == declared_total(views, (i + 1) as nat));
        }
        check_budget(label, before, total, limits.decoded_total, findings);
        proof {
            let last = budget_findings(label@, views, i as int, limits.decoded_total);
            assert(start + so_far + name + coding + last =~= start + (so_far + name + coding
                + last));
        }
        i += 1;
    }
}

} // verus!
