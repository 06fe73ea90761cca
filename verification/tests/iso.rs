use libarchive_oxide::entry::{
    ArchiveMetadata, ArchivePath, Device, EntryKind, EntryMetadata, EntryTimes, Extension,
    Timestamp,
};
use libarchive_oxide::error::{ArchiveError, ErrorKind};
use libarchive_oxide::iso::order::{order_directories, stands_before};
use libarchive_oxide::iso::record::{
    advance_lba, both_endian_u16, both_endian_u32, directory_record, joliet_name, layout_length,
    layout_records, path_table_record_length, primary_name, RECORDING_TIME,
};
use libarchive_oxide::iso::rock_ridge::{full_mode, push_susp_field, symbolic_link_value};
use libarchive_oxide::iso::time::{long_timestamp, short_timestamp, timestamp_field, timestamp_parts};
use libarchive_oxide::iso::tree::{create_path, find_path, normalize_path, validate_tree_path, IsoNode};
use libarchive_oxide::iso::volume::descriptor_terminator;
use libarchive_oxide::iso::writer::{sector_padding, IsoTail, IsoWriter};
use libarchive_oxide::limits::Limits;

fn entry(path: &[u8], kind: EntryKind) -> EntryMetadata {
    EntryMetadata::new(ArchivePath::from_bytes(path), kind)
}

fn context<T>(result: Result<T, ArchiveError>) -> String {
    match result {
        Ok(_) => panic!("no error"),
        Err(error) => error.context,
    }
}

/// An image in memory: sixteen sectors for the system area, two descriptors and
/// their end, then what is written.
struct Image {
    writer: IsoWriter,
    bytes: Vec<u8>,
}

impl Image {
    fn new() -> Image {
        Image { writer: IsoWriter::new(Limits::unlimited()), bytes: vec![0; 19 * 2048] }
    }

    fn add(&mut self, metadata: EntryMetadata, body: &[u8]) -> Result<(), ArchiveError> {
        self.writer.start_entry(metadata, self.bytes.len() as u64)?;
        let plan = self.writer.check_data(body)?;
        if plan.write {
            self.bytes.extend_from_slice(body);
        }
        self.writer.commit_data(plan);
        let pending = self.writer.close_payload()?;
        let padding = sector_padding(self.bytes.len() as u64);
        self.bytes.extend(std::iter::repeat(0).take(padding));
        self.writer.insert_entry(pending)
    }

    fn finish(&mut self) -> Result<IsoTail, ArchiveError> {
        let tail = self.writer.finish(self.bytes.len() as u64)?;
        self.bytes.extend_from_slice(&tail.index);
        Ok(tail)
    }
}

fn u32_at(bytes: &[u8], at: usize) -> u32 {
    u32::from_le_bytes([bytes[at], bytes[at + 1], bytes[at + 2], bytes[at + 3]])
}

/// Identifier, location and size of the records of a directory.
fn list(image: &[u8], lba: u32, size: u32) -> Vec<(Vec<u8>, u32, u32)> {
    let start = lba as usize * 2048;
    let extent = &image[start..start + size as usize];
    let mut found = Vec::new();
    let mut at = 0;
    while at < extent.len() {
        let length = extent[at] as usize;
        if length == 0 {
            at = (at / 2048 + 1) * 2048;
            continue;
        }
        let name = extent[at + 32] as usize;
        found.push((
            extent[at + 33..at + 33 + name].to_vec(),
            u32_at(extent, at + 2),
            u32_at(extent, at + 10),
        ));
        at += length;
    }
    found
}

#[test]
fn numbers_are_stored_in_both_orders() {
    assert_eq!(both_endian_u32(0x0102_0304), [4, 3, 2, 1, 1, 2, 3, 4]);
    assert_eq!(both_endian_u16(0x0102), [2, 1, 1, 2]);
}

#[test]
fn names_are_reduced_to_what_the_volume_allows() {
    assert_eq!(primary_name(b"readme.txt"), b"README.TXT");
    assert_eq!(primary_name(b"a b"), b"A_B");
    assert_eq!(joliet_name("a\u{e9}".as_bytes()), [0, 0x61, 0, 0xe9]);
}

#[test]
fn directory_records_are_even() {
    let record = directory_record(b"A", 5, 7, false, RECORDING_TIME, b"").ok().unwrap();
    assert_eq!(record.len(), 34);
    assert_eq!(record[0], 34);
    assert_eq!(u32_at(&record, 2), 5);
    assert_eq!(u32_at(&record, 10), 7);
    assert_eq!(record[25], 0);
    assert_eq!(record[32], 1);
    let record = directory_record(b"AB", 5, 7, true, RECORDING_TIME, b"XY").ok().unwrap();
    assert_eq!(record.len(), 38);
    assert_eq!(record[25], 2);
    assert_eq!(&record[36..], b"XY");
    assert!(directory_record(b"A", 5, 7, false, RECORDING_TIME, &[0; 240]).is_err());
}

#[test]
fn records_do_not_cross_sectors() {
    let records = vec![vec![1u8; 200]; 11];
    let length = layout_length(&records).unwrap();
    let bytes = layout_records(&records);
    assert_eq!(length, 4096);
    assert_eq!(bytes.len(), length);
    assert_eq!(bytes[2000..2048], [0u8; 48]);
    assert_eq!(bytes[2048..2248], [1u8; 200]);
    assert_eq!(path_table_record_length(1), 10);
    assert_eq!(path_table_record_length(2), 10);
    assert_eq!(advance_lba(3, 2049).ok().unwrap(), 5);
    assert!(advance_lba(u32::MAX, 1).is_err());
}

#[test]
fn times_are_stored_by_the_calendar() {
    let civil = timestamp_parts(Timestamp { secs: 951_782_400, nanos: 0 }).unwrap();
    assert_eq!((civil.year, civil.month, civil.day), (2000, 2, 29));
    let civil = timestamp_parts(Timestamp { secs: -1, nanos: 0 }).unwrap();
    assert_eq!((civil.year, civil.month, civil.day), (1969, 12, 31));
    assert_eq!((civil.hour, civil.minute, civil.second), (23, 59, 59));
    let short = short_timestamp(Timestamp { secs: 951_782_400, nanos: 0 }).unwrap();
    assert_eq!(short, [100, 2, 29, 0, 0, 0, 0]);
    let long = long_timestamp(Timestamp { secs: 951_782_400, nanos: 990_000_000 }).unwrap();
    assert_eq!(long, b"2000022900000099\0");
    assert!(timestamp_field(EntryTimes::unknown()).is_none());
}

#[test]
fn names_are_ordered_by_their_bytes() {
    assert!(stands_before(b"a", b"b"));
    assert!(stands_before(b"a", b"aa"));
    assert!(!stands_before(b"a", b"a"));
    assert!(stands_before(b"", b"a"));
}

#[test]
fn paths_are_normalized() {
    let limits = Limits::unlimited();
    assert_eq!(
        normalize_path(b"a/b", limits).ok().unwrap(),
        vec![b"a".to_vec(), b"b".to_vec()]
    );
    assert_eq!(
        context(normalize_path(b"/a", limits)),
        "ISO path must be a non-empty relative byte path"
    );
    assert_eq!(
        context(normalize_path(b"a/../b", limits)),
        "ISO path contains an invalid component"
    );
    let mut small = limits;
    small.path_bytes = Some(2);
    assert_eq!(context(normalize_path(b"a/b", small)), "ISO path exceeds configured limit");
    let mut shallow = limits;
    shallow.nesting = Some(1);
    assert_eq!(
        context(normalize_path(b"a/b", shallow)),
        "ISO path nesting exceeds configured limit"
    );
}

#[test]
fn trees_hold_each_path_once() {
    let mut nodes = vec![IsoNode::root()];
    let parts = vec![b"a".to_vec(), b"b".to_vec()];
    let last = create_path(&mut nodes, &parts);
    assert_eq!(nodes.len(), 3);
    assert_eq!(find_path(&nodes, &parts), Some(last));
    assert_eq!(create_path(&mut nodes, &parts), last);
    assert_eq!(find_path(&nodes, &[b"c".to_vec()]), None);
    assert_eq!(validate_tree_path(&nodes, &[b"a".to_vec(), b"c".to_vec()]).ok().unwrap(), 1);
    let order = order_directories(&nodes).ok().unwrap();
    assert_eq!(order.len(), 3);
    assert_eq!(order[0].node, 0);
    assert_eq!(order[2].parent_number, 2);
}

#[test]
fn system_use_fields_carry_their_length() {
    let mut output = Vec::new();
    assert!(push_susp_field(&mut output, *b"RR", &[0x81]).is_ok());
    assert_eq!(output, [b'R', b'R', 5, 1, 0x81]);
    assert!(push_susp_field(&mut output, *b"RR", &[0; 252]).is_err());
    assert_eq!(full_mode(EntryKind::Dir, Some(0o755)), 0o040_755);
    assert_eq!(full_mode(EntryKind::Symlink, None) & 0o170_000, 0o120_000);
    assert_eq!(
        symbolic_link_value(b"/a/..").ok().unwrap(),
        [0, 8, 0, 0, 1, b'a', 4, 0]
    );
}

#[test]
fn images_list_what_was_added() {
    let mut image = Image::new();
    let mut file = entry(b"dir/file.txt", EntryKind::File);
    file.size = Some(5);
    assert!(image.add(file, b"hello").is_ok());
    assert!(image.add(entry(b"zero", EntryKind::File), b"").is_ok());
    let mut link = entry(b"link", EntryKind::Symlink);
    link.link_target = Some(ArchivePath::from_bytes(b"dir/file.txt"));
    assert!(image.add(link, b"").is_ok());
    let mut hard = entry(b"again", EntryKind::Hardlink);
    hard.link_target = Some(ArchivePath::from_bytes(b"dir/file.txt"));
    assert!(image.add(hard, b"").is_ok());
    let tail = image.finish().ok().unwrap();
    assert_eq!(image.bytes.len(), tail.total_sectors as usize * 2048);
    assert_eq!(&tail.primary[..6], b"\x01CD001");
    assert_eq!(&tail.supplementary[..6], b"\x02CD001");
    assert_eq!(u32_at(&tail.primary, 80), tail.total_sectors);
    let root = list(&image.bytes, u32_at(&tail.primary, 158), u32_at(&tail.primary, 166));
    let names: Vec<&[u8]> = root.iter().map(|item| &item.0[..]).collect();
    assert_eq!(names, [&b"\0"[..], b"\x01", b"AGAIN;1", b"DIR", b"LINK;1", b"ZERO;1"]);
    let (_, lba, size) = &root[3];
    let inner = list(&image.bytes, *lba, *size);
    assert_eq!(inner[2].0, b"FILE.TXT;1");
    assert_eq!(inner[2].2, 5);
    let start = inner[2].1 as usize * 2048;
    assert_eq!(&image.bytes[start..start + 5], b"hello");
    assert_eq!((root[2].1, root[2].2), (inner[2].1, 5));
    let wide = list(&image.bytes, u32_at(&tail.supplementary, 158), u32_at(&tail.supplementary, 166));
    assert_eq!(wide[3].0, [0, b'd', 0, b'i', 0, b'r']);
    assert_eq!(descriptor_terminator()[..6], *b"\xffCD001");
}

#[test]
fn writers_refuse_what_they_cannot_hold() {
    let mut image = Image::new();
    let mut file = entry(b"f", EntryKind::File);
    file.size = Some(3);
    assert_eq!(
        context(image.add(file, b"hello")),
        "ISO entry size does not match its declared size"
    );
    let mut image = Image::new();
    assert!(image.add(entry(b"f", EntryKind::File), b"x").is_ok());
    assert_eq!(context(image.add(entry(b"f", EntryKind::File), b"")), "duplicate ISO entry path");
    assert_eq!(
        context(image.add(entry(b"f/g", EntryKind::File), b"")),
        "ISO path traverses a non-directory entry"
    );
    assert_eq!(
        context(image.add(entry(b"l", EntryKind::Symlink), b"")),
        "ISO symbolic link requires a target"
    );
    assert_eq!(
        context(image.add(entry(b"c", EntryKind::Char), b"")),
        "ISO device entry requires major/minor numbers"
    );
    assert_eq!(
        context(image.writer.set_archive_metadata(ArchiveMetadata::new())),
        "ISO archive metadata must be set before the first entry"
    );
    let mut device = entry(b"null", EntryKind::Char);
    device.referenced_device = Some(Device { major: 1, minor: 3 });
    assert!(image.add(device, b"").is_ok());
    let mut odd = entry(b"odd", EntryKind::File);
    odd.has_acl = true;
    assert_eq!(
        context(image.add(odd, b"")),
        "ISO writer cannot represent sparse, xattr, ACL, or encrypted metadata"
    );
}

#[test]
fn writers_keep_their_budgets() {
    let mut limits = Limits::unlimited();
    limits.entry_bytes = Some(2);
    let mut image = Image { writer: IsoWriter::new(limits), bytes: vec![0; 19 * 2048] };
    assert_eq!(
        context(image.add(entry(b"f", EntryKind::File), b"abc")),
        "ISO entry exceeds configured size limit"
    );
    let mut limits = Limits::unlimited();
    limits.entries = Some(0);
    let mut image = Image { writer: IsoWriter::new(limits), bytes: vec![0; 19 * 2048] };
    assert_eq!(
        context(image.add(entry(b"f", EntryKind::File), b"")),
        "ISO entry count exceeds configured limit"
    );
    let mut limits = Limits::unlimited();
    limits.decoded_total = Some(1);
    let mut image = Image { writer: IsoWriter::new(limits), bytes: vec![0; 19 * 2048] };
    let error = image.add(entry(b"f", EntryKind::File), b"abc").err().unwrap();
    assert_eq!(error.kind, ErrorKind::Limit);
    assert_eq!(error.context, "ISO decoded total exceeds configured limit");
}

#[test]
fn volume_names_are_stored() {
    let mut image = Image::new();
    let mut metadata = ArchiveMetadata::new();
    metadata.volume_name = Some(b"DISK".to_vec());
    assert!(image.writer.set_archive_metadata(metadata).is_ok());
    let tail = image.finish().ok().unwrap();
    assert_eq!(&tail.primary[40..45], b"DISK ");
    assert_eq!(tail.terminator, descriptor_terminator());
    let mut metadata = ArchiveMetadata::new();
    metadata.extensions = vec![Extension {
        namespace: b"other".to_vec(),
        key: b"k".to_vec(),
        value: b"v".to_vec(),
    }];
    let mut image = Image::new();
    assert_eq!(
        context(image.writer.set_archive_metadata(metadata)),
        "ISO archive metadata contains an unrepresentable property"
    );
}
