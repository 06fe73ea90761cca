//! What a reader finds in an image: the laws on the places of its fields.

use vstd::prelude::*;
use vstd::utf8::encode_utf8;
use crate::bytes::{be16, be32, has_prefix, le16, le32};
use crate::entry::{ArchiveMetadata, EntryKind, EntryMetadata, EntryTimes, Timestamp};
use crate::error::ErrorView;
use crate::iso::finish::{path_table, table_record};
use crate::iso::image::{
    child_identifier, child_record, fields_of, own_record, parent_record, recording_stamp, Extents,
};
use crate::iso::layout::{
    directory_extent, law_directories_stand_where_planned, law_plans_are_feasible,
    law_tables_stand_where_planned, listed_once, planned,
};
use crate::iso::order::{directory_order, law_parents_come_first};
use crate::iso::record::{
    big16, big32, both_endian16, both_endian32, joliet_identifier, joliet_unit,
    law_both_endian_reads_back, little16, little32, primary_identifier, record_length, record_of,
    record_pad,
};
use crate::iso::rock_ridge::{
    device_field, field, first_fields, joined, last_fields, link_field, link_part, link_parts,
    link_value, mode_of, posix_field, posix_value, system_use,
};
use crate::iso::time::{
    civil, civil_date, day_number, days_before_month, days_before_year, law_civil_date_is_the_day,
    leap_year, long_stamp, month_length, short_stamp, stamp_field, stamp_of,
};
use crate::iso::tree::{is_tree, NodeView};
use crate::iso::volume::{
    descriptor_bytes, escapes, identifiers, law_descriptors_take_a_sector, VolumeDescriptor,
};
use crate::iso::writer::{law_image_length, IsoState};
use crate::layout::stands_at;
use crate::parts::{components, SLASH};
use crate::path_forms::{law_valid_text_is_not_replaced, written_utf16};
use crate::utf8::law_utf16_is_even;

verus! {

// ---------------------------------------------------------------------------
// System-use fields
// ---------------------------------------------------------------------------

/// The value of the first system-use field with a signature, as a reader finds it:
/// each field holds its signature, its length, a version, and its value.
#[verifier::opaque]
pub open spec fn susp_find(fields: Seq<u8>, wanted: Seq<u8>) -> Option<Seq<u8>>
    decreases fields.len(),
{
    if fields.len() < 4 || fields[2] < 4 || fields[2] > fields.len() {
        None
    } else if fields[0] == wanted[0] && fields[1] == wanted[1] {
        Some(fields.subrange(4, fields[2] as int))
    } else {
        susp_find(fields.skip(fields[2] as int), wanted)
    }
}

proof fn lemma_find_past(entry: Seq<u8>, rest: Seq<u8>, wanted: Seq<u8>)
    requires
        entry.len() >= 4,
        entry[2] == entry.len(),
        wanted.len() == 2,
    ensures
        susp_find(entry + rest, wanted) == if entry[0] == wanted[0] && entry[1] == wanted[1] {
            Some(entry.skip(4))
        } else {
            susp_find(rest, wanted)
        },
{
    reveal(susp_find);
    let all = entry + rest;
    assert(all[0] == entry[0] && all[1] == entry[1] && all[2] == entry[2]);
    assert(all.subrange(4, all[2] as int) =~= entry.skip(4));
    assert(all.skip(entry[2] as int) =~= rest);
}

proof fn lemma_find(signature: Seq<u8>, value: Seq<u8>, rest: Seq<u8>, wanted: Seq<u8>)
    requires
        field(signature, value) is Ok,
        signature.len() == 2,
        wanted.len() == 2,
    ensures
        susp_find(field(signature, value)->Ok_0 + rest, wanted) == if signature[0] == wanted[0]
            && signature[1] == wanted[1] {
            Some(value)
        } else {
            susp_find(rest, wanted)
        },
{
    let entry = field(signature, value)->Ok_0;
    assert(entry[0] == signature[0] && entry[1] == signature[1]);
    assert(entry[2] == entry.len());
    assert(entry.skip(4) =~= value);
    lemma_find_past(entry, rest, wanted);
}

/// The file type in the highest four bits of a POSIX mode.
pub open spec fn type_digit(kind: EntryKind) -> int {
    match kind {
        EntryKind::Fifo => 1,
        EntryKind::Char => 2,
        EntryKind::Dir => 4,
        EntryKind::Block => 6,
        EntryKind::File | EntryKind::Hardlink => 8,
        EntryKind::Symlink => 10,
        EntryKind::Socket => 12,
        EntryKind::Other => 0,
    }
}

/// A number stands in both byte orders at a place.
pub open spec fn holds_both(value: Seq<u8>, at: int, number: int) -> bool {
    at + 8 <= value.len() && le32(value, at) == number && be32(value, at + 4) == number
}

/// A number that may not be recorded.
pub open spec fn recorded_or(number: Option<u64>, default: int) -> int {
    match number {
        Some(number) => number as int,
        None => default,
    }
}

/// The POSIX attributes at their places: the mode at 0, the number of links at 8,
/// the user at 16, the group at 24 and the inode at 32.
pub open spec fn holds_attributes(
    value: Seq<u8>,
    kind: EntryKind,
    metadata: Option<EntryMetadata>,
    number: usize,
) -> bool {
    let links = if kind == EntryKind::Dir {
        2int
    } else {
        1
    };
    let permissions = if kind == EntryKind::Dir {
        0x1edint
    } else {
        0x1a4
    };
    &&& value.len() == 40
    &&& le32(value, 0) / 0x1000 == type_digit(kind)
    &&& be32(value, 4) == le32(value, 0)
    &&& match metadata {
        None => {
            &&& le32(value, 0) % 0x1000 == permissions
            &&& holds_both(value, 8, links)
            &&& holds_both(value, 16, 0)
            &&& holds_both(value, 24, 0)
            &&& holds_both(value, 32, number + 1)
        },
        Some(metadata) => {
            &&& le32(value, 0) % 0x1000 == match metadata.mode {
                Some(mode) => mode as int % 0x1000,
                None => permissions,
            }
            &&& holds_both(value, 8, recorded_or(metadata.links, links))
            &&& holds_both(value, 16, recorded_or(metadata.owner.uid, 0))
            &&& holds_both(value, 24, recorded_or(metadata.owner.gid, 0))
            &&& holds_both(value, 32, recorded_or(metadata.inode, number + 1))
        },
    }
}

proof fn lemma_number_stands(before: Seq<u8>, number: u32, after: Seq<u8>)
    ensures
        holds_both(before + both_endian32(number) + after, before.len() as int, number as int),
{
    let all = before + both_endian32(number) + after;
    let at = before.len() as int;
    let own = both_endian32(number);
    law_both_endian_reads_back(number, 0);
    assert(forall|i: int| 0 <= i < 8 ==> all[at + i] == own[i]);
    assert(all[at] == own[0] && all[at + 1] == own[1] && all[at + 2] == own[2] && all[at + 3]
        == own[3]);
    assert(all[at + 4] == own[4] && all[at + 5] == own[5] && all[at + 6] == own[6] && all[at + 7]
        == own[7]);
}

#[verifier::rlimit(40)]
#[verifier::spinoff_prover]
proof fn lemma_attributes(kind: EntryKind, metadata: Option<EntryMetadata>, number: usize)
    requires
        number < usize::MAX,
        posix_value(kind, metadata, number) is Ok,
    ensures
        holds_attributes(posix_value(kind, metadata, number)->Ok_0, kind, metadata, number),
{
    let value = posix_value(kind, metadata, number)->Ok_0;
    let m = le32(value, 0);
    let (mode, links, uid, gid, inode) = match metadata {
        Some(metadata) => (
            metadata.mode,
            metadata.links,
            metadata.owner.uid,
            metadata.owner.gid,
            metadata.inode,
        ),
        None => (None, None, None, None, None),
    };
    let links = match links {
        Some(links) => links,
        None => if kind == EntryKind::Dir {
            2u64
        } else {
            1u64
        },
    };
    let uid = match uid {
        Some(uid) => uid,
        None => 0u64,
    };
    let gid = match gid {
        Some(gid) => gid,
        None => 0u64,
    };
    let inode = match inode {
        Some(inode) => inode,
        None => (number + 1) as u64,
    };
    let full = crate::iso::rock_ridge::mode_of(kind, mode) as u32;
    let a = both_endian32(full);
    let b = both_endian32(links as u32);
    let c = both_endian32(uid as u32);
    let d = both_endian32(gid as u32);
    let e = both_endian32(inode as u32);
    law_both_endian_reads_back(full, 0);
    law_both_endian_reads_back(links as u32, 0);
    law_both_endian_reads_back(uid as u32, 0);
    law_both_endian_reads_back(gid as u32, 0);
    law_both_endian_reads_back(inode as u32, 0);
    assert(value =~= a + b + c + d + e);
    assert(value =~= Seq::<u8>::empty() + a + (b + c + d + e));
    lemma_number_stands(Seq::empty(), full, b + c + d + e);
    assert(value =~= a + b + (c + d + e));
    lemma_number_stands(a, links as u32, c + d + e);
    assert(value =~= (a + b) + c + (d + e));
    lemma_number_stands(a + b, uid as u32, d + e);
    assert(value =~= (a + b + c) + d + e);
    lemma_number_stands(a + b + c, gid as u32, e);
    assert(value =~= (a + b + c + d) + e + Seq::<u8>::empty());
    lemma_number_stands(a + b + c + d, inode as u32, Seq::empty());
}

proof fn lemma_joined(
    a: Result<Seq<u8>, ErrorView>,
    b: Result<Seq<u8>, ErrorView>,
    c: Result<Seq<u8>, ErrorView>,
    d: Result<Seq<u8>, ErrorView>,
    e: Result<Seq<u8>, ErrorView>,
)
    ensures
        joined(joined(joined(joined(a, b), c), d), e) matches Ok(all) ==> a is Ok && b is Ok
            && c is Ok && d is Ok && e is Ok && all == a->Ok_0 + (b->Ok_0 + (c->Ok_0 + (d->Ok_0
            + e->Ok_0))),
{
    if let Ok(all) = joined(joined(joined(joined(a, b), c), d), e) {
        assert(all =~= a->Ok_0 + (b->Ok_0 + (c->Ok_0 + (d->Ok_0 + e->Ok_0))));
    }
}

/// The fields of a node as a reader finds them: its name; its attributes at their
/// places; for a node with a device number, its major number at 0 and its minor
/// number at 8; for a symbolic link, a target; and the times that have a stamp. The
/// root begins with the mark of the protocol.
#[verifier::rlimit(40)]
#[verifier::spinoff_prover]
pub proof fn law_system_use_is_found(
    name: Seq<u8>,
    kind: EntryKind,
    metadata: Option<EntryMetadata>,
    number: usize,
    root: bool,
    dot_record: bool,
)
    requires
        number < usize::MAX,
        system_use(name, kind, metadata, number, root, dot_record) is Ok,
    ensures
        ({
            let fields = system_use(name, kind, metadata, number, root, dot_record)->Ok_0;
            &&& root ==> has_prefix(fields, seq![0x53u8, 0x50, 7, 1, 0xbe, 0xef, 0])
            &&& susp_find(fields, seq![0x50u8, 0x58]) matches Some(value) && holds_attributes(
                value,
                kind,
                metadata,
                number,
            )
            &&& !dot_record ==> susp_find(fields, seq![0x4eu8, 0x4d]) == Some(seq![0u8] + name)
            &&& metadata matches Some(own) ==> {
                &&& own.referenced_device matches Some(device) ==> {
                    &&& susp_find(fields, seq![0x50u8, 0x4e]) matches Some(value) && value.len()
                        == 16 && holds_both(value, 0, device.major as int) && holds_both(
                        value,
                        8,
                        device.minor as int,
                    )
                }
                &&& kind == EntryKind::Symlink ==> (own.link_target matches Some(target)
                    && susp_find(fields, seq![0x53u8, 0x4c]) matches Some(value) && link_value(
                    target.bytes@,
                ) == Ok::<_, ErrorView>(value))
                &&& stamp_field(own.times) matches Some(stamps) ==> susp_find(
                    fields,
                    seq![0x54u8, 0x46],
                ) == Some(stamps)
            }
        }),
{
    let fields = system_use(name, kind, metadata, number, root, dot_record)->Ok_0;
    let first = first_fields(name, kind, metadata, root, dot_record)->Ok_0;
    let posix = posix_field(kind, metadata, number)->Ok_0;
    let device = device_field(metadata)->Ok_0;
    let link = link_field(kind, metadata)->Ok_0;
    let last = last_fields(metadata)->Ok_0;
    lemma_joined(
        first_fields(name, kind, metadata, root, dot_record),
        posix_field(kind, metadata, number),
        device_field(metadata),
        link_field(kind, metadata),
        last_fields(metadata),
    );
    let value = posix_value(kind, metadata, number)->Ok_0;
    lemma_attributes(kind, metadata, number);
    lemma_first_fields(name, kind, metadata, root, dot_record, posix + (device + (link + last)));
    let px = seq![0x50u8, 0x58];
    let pn = seq![0x50u8, 0x4e];
    let sl = seq![0x53u8, 0x4c];
    let tf = seq![0x54u8, 0x46];
    lemma_find(px, value, device + (link + last), px);
    lemma_find(px, value, device + (link + last), pn);
    lemma_find(px, value, device + (link + last), sl);
    lemma_find(px, value, device + (link + last), tf);
    if root {
        let mark = seq![0x53u8, 0x50, 7, 1, 0xbe, 0xef, 0];
        assert(first.subrange(0, 7) =~= mark);
        assert(fields.subrange(0, 7) =~= mark);
    }
    lemma_later_fields(kind, metadata);
}

#[verifier::spinoff_prover]
proof fn lemma_later_fields(kind: EntryKind, metadata: Option<EntryMetadata>)
    requires
        device_field(metadata) is Ok,
        link_field(kind, metadata) is Ok,
        last_fields(metadata) is Ok,
    ensures
        metadata matches Some(own) ==> {
            let device = device_field(metadata)->Ok_0;
            let link = link_field(kind, metadata)->Ok_0;
            let last = last_fields(metadata)->Ok_0;
            let fields = device + (link + last);
            &&& own.referenced_device matches Some(device) ==> {
                &&& susp_find(fields, seq![0x50u8, 0x4e]) matches Some(value) && value.len() == 16
                    && holds_both(value, 0, device.major as int) && holds_both(
                    value,
                    8,
                    device.minor as int,
                )
            }
            &&& kind == EntryKind::Symlink ==> (own.link_target matches Some(target) && susp_find(
                fields,
                seq![0x53u8, 0x4c],
            ) matches Some(value) && link_value(target.bytes@) == Ok::<_, ErrorView>(value))
            &&& stamp_field(own.times) matches Some(stamps) ==> susp_find(
                fields,
                seq![0x54u8, 0x46],
            ) == Some(stamps)
        },
{
    let device = device_field(metadata)->Ok_0;
    let link = link_field(kind, metadata)->Ok_0;
    let last = last_fields(metadata)->Ok_0;
    let pn = seq![0x50u8, 0x4e];
    let sl = seq![0x53u8, 0x4c];
    let tf = seq![0x54u8, 0x46];
    if let Some(own) = metadata {
        match own.referenced_device {
            Some(numbers) => {
                let major = both_endian32(numbers.major as u32);
                let minor = both_endian32(numbers.minor as u32);
                law_both_endian_reads_back(numbers.major as u32, 0);
                law_both_endian_reads_back(numbers.minor as u32, 0);
                lemma_find(pn, major + minor, link + last, pn);
                lemma_find(pn, major + minor, link + last, sl);
                lemma_find(pn, major + minor, link + last, tf);
                assert(major + minor =~= Seq::<u8>::empty() + major + minor);
                lemma_number_stands(Seq::empty(), numbers.major as u32, minor);
                assert(major + minor =~= major + minor + Seq::<u8>::empty());
                lemma_number_stands(major, numbers.minor as u32, Seq::empty());
            },
            None => {
                assert(device + (link + last) =~= link + last);
            },
        }
        if kind == EntryKind::Symlink {
            let target = link_value(own.link_target->0.bytes@)->Ok_0;
            lemma_find(sl, target, last, sl);
            lemma_find(sl, target, last, tf);
        } else {
            assert(link + last =~= last);
        }
        if let Some(stamps) = stamp_field(own.times) {
            let raw = crate::iso::rock_ridge::raw_fields(
                own.extensions@,
                own.extensions@.len(),
            )->Ok_0;
            lemma_find(tf, stamps, raw, tf);
        }
    }
}

proof fn lemma_first_fields(
    name: Seq<u8>,
    kind: EntryKind,
    metadata: Option<EntryMetadata>,
    root: bool,
    dot_record: bool,
    rest: Seq<u8>,
)
    requires
        first_fields(name, kind, metadata, root, dot_record) is Ok,
    ensures
        ({
            let first = first_fields(name, kind, metadata, root, dot_record)->Ok_0;
            &&& susp_find(first + rest, seq![0x50u8, 0x58]) == susp_find(rest, seq![0x50u8, 0x58])
            &&& susp_find(first + rest, seq![0x50u8, 0x4e]) == susp_find(rest, seq![0x50u8, 0x4e])
            &&& susp_find(first + rest, seq![0x53u8, 0x4c]) == susp_find(rest, seq![0x53u8, 0x4c])
            &&& susp_find(first + rest, seq![0x54u8, 0x46]) == susp_find(rest, seq![0x54u8, 0x46])
            &&& !dot_record ==> susp_find(first + rest, seq![0x4eu8, 0x4d]) == Some(
                seq![0u8] + name,
            )
            &&& root ==> first.len() >= 7 && first.subrange(0, 7) == seq![
                0x53u8,
                0x50,
                7,
                1,
                0xbe,
                0xef,
                0,
            ]
        }),
{
    let mark = seq![0x53u8, 0x50, 7, 1, 0xbe, 0xef, 0];
    let head = if root {
        mark
    } else {
        Seq::empty()
    };
    let flags = seq![crate::iso::rock_ridge::field_flags(kind, metadata, dot_record)];
    let rr = seq![0x52u8, 0x52];
    let nm = seq![0x4eu8, 0x4d];
    let named = seq![0u8] + name;
    let second = field(rr, flags)->Ok_0;
    let third = if dot_record {
        Seq::empty()
    } else {
        field(nm, named)->Ok_0
    };
    let first = first_fields(name, kind, metadata, root, dot_record)->Ok_0;
    assert(first =~= head + second + third);
    assert(first + rest =~= head + (second + (third + rest)));
    if root {
        assert(first.subrange(0, 7) =~= mark);
    } else {
        assert(first + rest =~= second + (third + rest));
    }
    assert forall|wanted: Seq<u8>|
        wanted.len() == 2 && wanted[0] != 0x52 && !(wanted[0] == 0x53 && wanted[1]
            == 0x50) implies #[trigger] susp_find(first + rest, wanted) == (if !dot_record
        && wanted[0] == 0x4e && wanted[1] == 0x4d {
        Some(named)
    } else {
        susp_find(rest, wanted)
    }) by {
        if root {
            lemma_find_past(mark, second + (third + rest), wanted);
        }
        lemma_find(rr, flags, third + rest, wanted);
        if dot_record {
            assert(third + rest =~= rest);
        } else {
            lemma_find(nm, named, rest, wanted);
        }
    }
}

// ---------------------------------------------------------------------------
// Symbolic links
// ---------------------------------------------------------------------------

/// The components that the records of a symbolic link stand for, as a reader takes
/// them: flags, a length, and that many bytes; the flags 2 and 4 stand for the
/// directory itself and its parent.
pub open spec fn read_parts(records: Seq<u8>) -> Seq<Seq<u8>>
    decreases records.len(),
{
    if records.len() < 2 || 2 + records[1] > records.len() {
        Seq::empty()
    } else {
        let part = if records[0] == 2 {
            seq![0x2eu8]
        } else if records[0] == 4 {
            seq![0x2eu8, 0x2e]
        } else {
            records.subrange(2, 2 + records[1] as int)
        };
        seq![part] + read_parts(records.skip(2 + records[1] as int))
    }
}

proof fn lemma_parts_are_read(parts: Seq<Seq<u8>>, count: nat, rest: Seq<u8>)
    requires
        count <= parts.len(),
        link_parts(parts, count) is Ok,
    ensures
        read_parts(link_parts(parts, count)->Ok_0 + rest) == parts.take(count as int) + read_parts(
            rest,
        ),
    decreases count,
{
    if count == 0 {
        assert(Seq::<u8>::empty() + rest =~= rest);
        assert(parts.take(0) + read_parts(rest) =~= read_parts(rest));
    } else {
        let part = parts[count - 1];
        let record = link_part(part)->Ok_0;
        let before = link_parts(parts, (count - 1) as nat)->Ok_0;
        assert(before + record + rest =~= before + (record + rest));
        lemma_parts_are_read(parts, (count - 1) as nat, record + rest);
        let all = record + rest;
        assert(all[0] == record[0] && all[1] == record[1]);
        assert(record.len() == 2 + record[1]);
        assert(all.skip(2 + record[1] as int) =~= rest);
        if record[0] == 0 {
            assert(all.subrange(2, 2 + record[1] as int) =~= part);
        }
        assert(read_parts(all) == seq![part] + read_parts(rest));
        assert(parts.take(count as int) =~= parts.take(count - 1) + seq![part]);
        assert(parts.take(count - 1) + (seq![part] + read_parts(rest)) =~= parts.take(count as int)
            + read_parts(rest));
    }
}

/// A symbolic link field is read as its target: a root record first exactly if the
/// target is absolute, then the parts of the target in order.
pub proof fn law_link_targets_are_read(target: Seq<u8>)
    requires
        link_value(target) is Ok,
    ensures
        ({
            let value = link_value(target)->Ok_0;
            let absolute = target.len() > 0 && target[0] == 0x2f;
            let start = if absolute {
                3int
            } else {
                1
            };
            &&& value.len() >= start
            &&& value[0] == 0
            &&& absolute ==> value[1] == 8 && value[2] == 0
            &&& read_parts(value.skip(start)) == components(target)
        }),
{
    let value = link_value(target)->Ok_0;
    let parts = components(target);
    let records = link_parts(parts, parts.len())->Ok_0;
    let absolute = target.len() > 0 && target[0] == 0x2f;
    assert(has_prefix(target, seq![SLASH]) <==> absolute) by {
        if absolute {
            assert(target.subrange(0, 1) =~= seq![SLASH]);
        } else if target.len() > 0 {
            assert(target.subrange(0, 1)[0] == target[0]);
        }
    }
    let start = if absolute {
        3int
    } else {
        1
    };
    assert(value.skip(start) =~= records + Seq::<u8>::empty());
    lemma_parts_are_read(parts, parts.len(), Seq::empty());
    assert(parts.take(parts.len() as int) + read_parts(Seq::empty()) =~= parts);
}

// ---------------------------------------------------------------------------
// Records
// ---------------------------------------------------------------------------

/// A directory record at its places: its length, the block at 2 and the size at 10
/// in both byte orders, the time at 18, the flags at 25, the volume at 28, the name
/// behind its length at 32, and the system-use fields behind it at an even place.
pub open spec fn holds_record(
    record: Seq<u8>,
    name: Seq<u8>,
    lba: u32,
    size: u32,
    directory: bool,
    time: Seq<u8>,
    fields: Seq<u8>,
) -> bool {
    let after = record.len() - fields.len();
    &&& record[0] == record.len()
    &&& holds_both(record, 2, lba as int)
    &&& holds_both(record, 10, size as int)
    &&& record.subrange(18, 25) == time
    &&& record[25] == if directory {
        2u8
    } else {
        0u8
    }
    &&& le16(record, 28) == 1 && be16(record, 30) == 1
    &&& record[32] == name.len()
    &&& record.subrange(33, 33 + name.len() as int) == name
    &&& after % 2 == 0
    &&& 33 + name.len() <= after <= 34 + name.len()
    &&& record.skip(after) == fields
}

/// A directory record holds what it was made from, at the places where a reader
/// looks for it.
#[verifier::rlimit(40)]
#[verifier::spinoff_prover]
pub proof fn law_records_are_read(
    name: Seq<u8>,
    lba: u32,
    size: u32,
    directory: bool,
    time: Seq<u8>,
    fields: Seq<u8>,
)
    requires
        time.len() == 7,
        record_of(name, lba, size, directory, time, fields) is Ok,
    ensures
        holds_record(
            record_of(name, lba, size, directory, time, fields)->Ok_0,
            name,
            lba,
            size,
            directory,
            time,
            fields,
        ),
{
    let record = record_of(name, lba, size, directory, time, fields)->Ok_0;
    law_both_endian_reads_back(lba, 1);
    law_both_endian_reads_back(size, 1);
    let length = record_length(name.len(), fields.len());
    let pad = record_pad(name.len());
    let head = seq![length as u8, 0u8];
    let flags = seq![
        if directory {
            2u8
        } else {
            0u8
        },
        0u8,
        0u8,
    ];
    let tail = both_endian16(1) + seq![name.len() as u8] + name + pad + fields;
    assert(record =~= head + both_endian32(lba) + (both_endian32(size) + time + flags + tail));
    lemma_number_stands(head, lba, both_endian32(size) + time + flags + tail);
    assert(record =~= (head + both_endian32(lba)) + both_endian32(size) + (time + flags + tail));
    lemma_number_stands(head + both_endian32(lba), size, time + flags + tail);
    assert(record.subrange(18, 25) =~= time);
    assert(record[28] == both_endian16(1)[0] && record[29] == both_endian16(1)[1] && record[30]
        == both_endian16(1)[2] && record[31] == both_endian16(1)[3]);
    assert(record.subrange(33, 33 + name.len() as int) =~= name);
    assert(record.skip(record.len() - fields.len()) =~= fields);
}

/// The record of a node in its parent points to where the node lies: a directory
/// to its extent in that tree, all else to its data. The record that a directory
/// has of itself is named by a zero byte and points to its own extent; that of its
/// parent is named by a one and points to the parent's.
pub proof fn law_records_point_to_their_nodes(
    nodes: Seq<NodeView>,
    extents: Seq<Extents>,
    index: usize,
    joliet: bool,
)
    requires
        index < nodes.len(),
        nodes[index as int].parent < nodes.len(),
        extents.len() == nodes.len(),
    ensures
        child_record(nodes, extents, index, joliet) matches Ok(record) ==> {
            let node = nodes[index as int];
            let is_directory = node.kind == EntryKind::Dir;
            let place = extents[index as int];
            &&& record[25] == if is_directory {
                2u8
            } else {
                0u8
            }
            &&& holds_both(
                record,
                2,
                if !is_directory {
                    node.file_lba as int
                } else if joliet {
                    place.joliet_lba as int
                } else {
                    place.primary_lba as int
                },
            )
            &&& holds_both(
                record,
                10,
                if !is_directory {
                    node.file_size as int
                } else if joliet {
                    place.joliet_size as int
                } else {
                    place.primary_size as int
                },
            )
        },
        own_record(nodes, extents, index, joliet) matches Ok(record) ==> {
            let place = extents[index as int];
            &&& record[32] == 1 && record[33] == 0
            &&& record[25] == 2
            &&& holds_both(
                record,
                2,
                if joliet {
                    place.joliet_lba as int
                } else {
                    place.primary_lba as int
                },
            )
            &&& holds_both(
                record,
                10,
                if joliet {
                    place.joliet_size as int
                } else {
                    place.primary_size as int
                },
            )
        },
        parent_record(nodes, extents, index, joliet) matches Ok(record) ==> {
            let place = extents[nodes[index as int].parent as int];
            &&& record[32] == 1 && record[33] == 1
            &&& record[25] == 2
            &&& holds_both(
                record,
                2,
                if joliet {
                    place.joliet_lba as int
                } else {
                    place.primary_lba as int
                },
            )
            &&& holds_both(
                record,
                10,
                if joliet {
                    place.joliet_size as int
                } else {
                    place.primary_size as int
                },
            )
        },
{
    let node = nodes[index as int];
    lemma_recording_stamp(node);
    if child_record(nodes, extents, index, joliet) is Ok {
        let directory = node.kind == EntryKind::Dir;
        let (lba, size) = if directory {
            extents[index as int].spot(joliet)
        } else {
            (node.file_lba, node.file_size)
        };
        law_records_are_read(
            child_identifier(node, joliet),
            lba,
            size,
            directory,
            recording_stamp(node),
            fields_of(nodes, index, joliet, false)->Ok_0,
        );
    }
    if own_record(nodes, extents, index, joliet) is Ok {
        let (lba, size) = extents[index as int].spot(joliet);
        let record = own_record(nodes, extents, index, joliet)->Ok_0;
        law_records_are_read(
            seq![0u8],
            lba,
            size,
            true,
            recording_stamp(node),
            fields_of(nodes, index, joliet, true)->Ok_0,
        );
        assert(record.subrange(33, 34)[0] == record[33]);
    }
    let parent = nodes[index as int].parent as int;
    lemma_recording_stamp(nodes[parent]);
    if parent_record(nodes, extents, index, joliet) is Ok {
        let (lba, size) = extents[parent].spot(joliet);
        let record = parent_record(nodes, extents, index, joliet)->Ok_0;
        law_records_are_read(
            seq![1u8],
            lba,
            size,
            true,
            recording_stamp(nodes[parent]),
            Seq::empty(),
        );
        assert(record.subrange(33, 34)[0] == record[33]);
    }
}

proof fn lemma_recording_stamp(node: NodeView)
    ensures
        recording_stamp(node).len() == 7,
{
}

/// A path table record holds the length of the name, the block at 2, the number of
/// the parent at 6 and the name at 8, in the byte order of its table.
pub proof fn law_table_records_are_read(name: Seq<u8>, lba: u32, parent: u16)
    requires
        name.len() <= 255,
    ensures
        ({
            let little = table_record(name, lba, parent, false);
            let big = table_record(name, lba, parent, true);
            &&& little[0] == name.len() && big[0] == name.len()
            &&& le32(little, 2) == lba && be32(big, 2) == lba
            &&& le16(little, 6) == parent && be16(big, 6) == parent
            &&& little.subrange(8, 8 + name.len() as int) == name
            &&& big.subrange(8, 8 + name.len() as int) == name
            &&& little.len() % 2 == 0 && big.len() == little.len()
        }),
{
    let little = table_record(name, lba, parent, false);
    let big = table_record(name, lba, parent, true);
    assert(little32(lba).len() == 4 && big32(lba).len() == 4);
    assert(little16(parent).len() == 2 && big16(parent).len() == 2);
    assert(little.subrange(8, 8 + name.len() as int) =~= name);
    assert(big.subrange(8, 8 + name.len() as int) =~= name);
    assert(little[2] == little32(lba)[0] && little[3] == little32(lba)[1] && little[4]
        == little32(lba)[2] && little[5] == little32(lba)[3]);
    assert(big[2] == big32(lba)[0] && big[3] == big32(lba)[1] && big[4] == big32(lba)[2] && big[5]
        == big32(lba)[3]);
}

/// A volume descriptor holds at their places: the standard identifier, the number
/// of blocks at 80, the size of a block at 128, the size of the path table at 132,
/// the blocks of its two tables at 140 and 148, and the record of the root at 156.
#[verifier::rlimit(80)]
#[verifier::spinoff_prover]
pub proof fn law_descriptors_are_read(layout: VolumeDescriptor, metadata: ArchiveMetadata)
    requires
        descriptor_bytes(layout, metadata) is Ok,
    ensures
        ({
            let bytes = descriptor_bytes(layout, metadata)->Ok_0;
            &&& bytes.len() == 2048
            &&& bytes[0] == layout.descriptor_type
            &&& bytes.subrange(1, 7) == seq![0x43u8, 0x44, 0x30, 0x30, 0x31, 1]
            &&& holds_both(bytes, 80, layout.total_sectors as int)
            &&& le16(bytes, 128) == 2048 && be16(bytes, 130) == 2048
            &&& holds_both(bytes, 132, layout.path_table_size as int)
            &&& le32(bytes, 140) == layout.little_path_lba
            &&& be32(bytes, 148) == layout.big_path_lba
            &&& bytes[156] == 34
            &&& holds_both(bytes, 158, layout.root_lba as int)
            &&& holds_both(bytes, 166, layout.root_size as int)
            &&& bytes[181] == 2
            &&& bytes[188] == 1 && bytes[189] == 0
            &&& bytes[881] == 1
            &&& layout.joliet ==> bytes.subrange(88, 91) == seq![0x25u8, 0x2f, 0x45]
            &&& !layout.joliet ==> bytes.subrange(88, 91) == seq![0u8, 0, 0]
        }),
{
    let bytes = descriptor_bytes(layout, metadata)->Ok_0;
    law_descriptors_take_a_sector(layout, metadata);
    let root = record_of(
        seq![0u8],
        layout.root_lba,
        layout.root_size,
        true,
        crate::iso::record::RECORDING_TIME@,
        Seq::empty(),
    )->Ok_0;
    law_records_are_read(
        seq![0u8],
        layout.root_lba,
        layout.root_size,
        true,
        crate::iso::record::RECORDING_TIME@,
        Seq::empty(),
    );
    assert(root.len() == 34);
    assert(root.subrange(33, 34)[0] == root[33]);
    let ids = identifiers(layout.joliet, metadata);
    let marks = escapes(layout.joliet);
    assert(ids.len() == 64);
    assert(marks.len() == 32);
    let head = crate::iso::volume::descriptor_head(layout.descriptor_type)
        + crate::iso::record::zeros(1) + ids + crate::iso::record::zeros(8);
    let total = both_endian32(layout.total_sectors);
    let size = both_endian32(layout.path_table_size as u32);
    let shorts = both_endian16(1) + both_endian16(1) + both_endian16(2048);
    let little = little32(layout.little_path_lba);
    let big = big32(layout.big_path_lba);
    let filler = if layout.joliet {
        0u8
    } else {
        0x20u8
    };
    let end = crate::iso::volume::repeated(filler, 623) + crate::iso::record::zeros(68) + seq![1u8]
        + crate::iso::record::zeros(1166);
    let gap = crate::iso::record::zeros(4);
    law_both_endian_reads_back(layout.total_sectors, 1);
    law_both_endian_reads_back(layout.path_table_size as u32, 2048);
    assert(head.len() == 80);
    assert(shorts.len() == 12);
    let middle = little + gap + big + gap + root + end;
    assert(bytes =~= head + total + (marks + shorts + size + middle));
    lemma_number_stands(head, layout.total_sectors, marks + shorts + size + middle);
    assert(bytes =~= (head + total + marks + shorts) + size + middle);
    lemma_number_stands(head + total + marks + shorts, layout.path_table_size as u32, middle);
    let front = head + total + marks + shorts + size;
    assert(front.len() == 140);
    assert(bytes =~= front + middle);
    assert(forall|i: int| 0 <= i < middle.len() ==> bytes[140 + i] == middle[i]);
    assert(middle[0] == little[0] && middle[1] == little[1] && middle[2] == little[2] && middle[3]
        == little[3]);
    assert(middle[8] == big[0] && middle[9] == big[1] && middle[10] == big[2] && middle[11]
        == big[3]);
    assert(forall|i: int| 0 <= i < 34 ==> middle[16 + i] == root[i]);
    assert forall|i: int| 0 <= i < 34 implies #[trigger] bytes[156 + i] == root[i] by {
        assert(bytes[140 + (16 + i)] == middle[16 + i]);
    }
    assert(bytes[140] == middle[0] && bytes[141] == middle[1] && bytes[142] == middle[2]
        && bytes[143] == middle[3]);
    assert(bytes[148] == middle[8] && bytes[149] == middle[9] && bytes[150] == middle[10]
        && bytes[151] == middle[11]);
    assert(middle[741] == 1);
    assert(bytes[881] == middle[741]);
    assert(bytes.subrange(1, 7) =~= seq![0x43u8, 0x44, 0x30, 0x30, 0x31, 1]);
    assert(bytes.subrange(88, 91) =~= marks.subrange(0, 3));
    if layout.joliet {
        assert(marks.subrange(0, 3) =~= seq![0x25u8, 0x2f, 0x45]);
    } else {
        assert(marks.subrange(0, 3) =~= seq![0u8, 0, 0]);
    }
    let short = both_endian16(2048);
    assert(shorts[8] == short[0] && shorts[9] == short[1] && shorts[10] == short[2] && shorts[11]
        == short[3]);
    assert(bytes[128] == shorts[8] && bytes[129] == shorts[9] && bytes[130] == shorts[10]
        && bytes[131] == shorts[11]);
    lemma_both_at(bytes, 156, root, 2, layout.root_lba as int);
    lemma_both_at(bytes, 156, root, 10, layout.root_size as int);
}

proof fn lemma_both_at(bytes: Seq<u8>, start: int, part: Seq<u8>, at: int, number: int)
    requires
        0 <= start,
        0 <= at,
        start + part.len() <= bytes.len(),
        forall|i: int| 0 <= i < part.len() ==> #[trigger] bytes[start + i] == part[i],
        holds_both(part, at, number),
    ensures
        holds_both(bytes, start + at, number),
{
    assert(bytes[start + at] == part[at] && bytes[start + (at + 1)] == part[at + 1] && bytes[start
        + (at + 2)] == part[at + 2] && bytes[start + (at + 3)] == part[at + 3]);
    assert(bytes[start + (at + 4)] == part[at + 4] && bytes[start + (at + 5)] == part[at + 5]
        && bytes[start + (at + 6)] == part[at + 6] && bytes[start + (at + 7)] == part[at + 7]);
}

// ---------------------------------------------------------------------------
// Times
// ---------------------------------------------------------------------------

/// Days of a year.
pub open spec fn year_length(year: int) -> int {
    if leap_year(year) {
        366
    } else {
        365
    }
}

/// Days from the first of January 1970 to that of a year, year by year.
pub open spec fn days_to_year(year: int) -> int
    decreases
            if year >= 1970 {
                year - 1970
            } else {
                1970 - year
            },
{
    if year == 1970 {
        0
    } else if year > 1970 {
        days_to_year(year - 1) + year_length(year - 1)
    } else {
        days_to_year(year + 1) - year_length(year)
    }
}

/// Days of a year before one of its months, month by month.
pub open spec fn days_to_month(year: int, month: int) -> int
    decreases month,
{
    if month <= 1 {
        0
    } else {
        days_to_month(year, month - 1) + month_length(year, month - 1)
    }
}

proof fn lemma_first_of_year(q: int, r: int)
    requires
        0 <= r < 400,
    ensures
        day_number(400 * q + r + 1, 1, 1) == q * 146_097 + days_before_year(r) + 306 - 719_468,
{
    let a = 400 * q + r;
    assert(a / 400 == q);
    assert(a % 400 == r);
    assert(days_before_month(10) == 306);
}

proof fn lemma_year_step(year: int)
    ensures
        day_number(year + 1, 1, 1) - day_number(year, 1, 1) == year_length(year),
{
    let q = (year - 1) / 400;
    let r = (year - 1) % 400;
    assert(year == 400 * q + r + 1);
    lemma_first_of_year(q, r);
    if r < 399 {
        lemma_first_of_year(q, r + 1);
        lemma_era_step(r);
        lemma_leap_in_era(q, r);
    } else {
        lemma_first_of_year(q + 1, 0);
        assert(days_before_year(399) == 145_731);
        assert(days_before_year(0) == 0);
        assert(leap_year(year)) by {
            assert(year == 400 * (q + 1));
            assert(year % 400 == 0 && year % 4 == 0);
        }
    }
}

proof fn lemma_leap_in_era(q: int, r: int)
    requires
        0 <= r < 399,
    ensures
        leap_year(400 * q + r + 1) == ((r + 1) % 4 == 0 && (r + 1) % 100 != 0),
{
    let year = 400 * q + r + 1;
    vstd::arithmetic::div_mod::lemma_mod_multiples_vanish(100 * q, r + 1, 4);
    vstd::arithmetic::div_mod::lemma_mod_multiples_vanish(4 * q, r + 1, 100);
    vstd::arithmetic::div_mod::lemma_mod_multiples_vanish(q, r + 1, 400);
    assert(4 * (100 * q) + (r + 1) == year && 100 * (4 * q) + (r + 1) == year);
    vstd::arithmetic::div_mod::lemma_small_mod((r + 1) as nat, 400);
}

proof fn lemma_era_step(r: int)
    requires
        0 <= r < 399,
    ensures
        days_before_year(r + 1) - days_before_year(r) == if (r + 1) % 4 == 0 && (r + 1) % 100
            != 0 {
            366int
        } else {
            365
        },
{
    assert((r + 1) / 4 - r / 4 == if (r + 1) % 4 == 0 {
        1int
    } else {
        0
    });
    assert((r + 1) / 100 - r / 100 == if (r + 1) % 100 == 0 {
        1int
    } else {
        0
    });
    assert((r + 1) % 100 == 0 ==> (r + 1) % 4 == 0);
}

proof fn lemma_year_start(year: int)
    ensures
        day_number(year, 1, 1) == days_to_year(year),
    decreases
            if year >= 1970 {
                year - 1970
            } else {
                1970 - year
            },
{
    if year > 1970 {
        lemma_year_start(year - 1);
        lemma_year_step(year - 1);
    } else if year < 1970 {
        lemma_year_start(year + 1);
        lemma_year_step(year);
    } else {
        assert(day_number(1970, 1, 1) == 0);
    }
}

proof fn lemma_month_start(year: int, month: int)
    requires
        1 <= month <= 12,
    ensures
        day_number(year, month, 1) - day_number(year, 1, 1) == days_to_month(year, month),
{
    reveal_with_fuel(days_to_month, 13);
    lemma_year_step(year);
    if month > 2 {
        // The year that begins in March ends where the next one begins.
        assert(day_number(year + 1, 1, 1) - day_number(year, 3, 1) == 306);
    }
}

/// A day counted from 1970 has the date that one gets by counting the days of the
/// years, then those of the months, up to it.
pub proof fn law_dates_count_the_days(days: int)
    ensures
        ({
            let (year, month, date) = civil_date(days);
            &&& 1 <= month <= 12
            &&& 1 <= date <= month_length(year, month)
            &&& days == days_to_year(year) + days_to_month(year, month) + date - 1
        }),
{
    law_civil_date_is_the_day(days);
    let (year, month, date) = civil_date(days);
    lemma_year_start(year);
    lemma_month_start(year, month);
    assert(day_number(year, month, date) == day_number(year, month, 1) + date - 1);
}

/// The number that two digits stand for.
pub open spec fn read_digits(stamp: Seq<u8>, at: int) -> int {
    10 * (stamp[at] - 0x30) + (stamp[at + 1] - 0x30)
}

/// The seconds since 1970 that a date and a time of day stand for.
pub open spec fn seconds_of(
    year: int,
    month: int,
    date: int,
    hour: int,
    minute: int,
    second: int,
) -> int {
    86_400 * (days_to_year(year) + days_to_month(year, month) + date - 1) + 3600 * hour + 60
        * minute + second
}

proof fn lemma_civil_is_the_moment(time: Timestamp)
    requires
        civil(time) is Some,
    ensures
        ({
            let c = civil(time)->0;
            &&& 1 <= c.month <= 12 && 1 <= c.day <= 31 && c.hour < 24 && c.minute < 60 && c.second
                < 60
            &&& seconds_of(
                c.year as int,
                c.month as int,
                c.day as int,
                c.hour as int,
                c.minute as int,
                c.second as int,
            ) == time.secs
        }),
{
    let days = time.secs as int / 86_400;
    let rest = time.secs as int % 86_400;
    law_dates_count_the_days(days);
    assert(time.secs == 86_400 * days + rest);
    assert(rest == 3600 * (rest / 3600) + 60 * (rest % 3600 / 60) + rest % 60);
}

/// A long stamp reads as its moment: the digits of the year at 0, the month at 4,
/// the day at 6, the hour at 8, the minute at 10, the second at 12, hundredths at
/// 14, and no offset from GMT.
pub proof fn law_long_stamps_are_read(time: Timestamp)
    requires
        long_stamp(time) is Some,
    ensures
        ({
            let stamp = long_stamp(time)->0;
            &&& stamp.len() == 17
            &&& stamp[16] == 0
            &&& seconds_of(
                100 * read_digits(stamp, 0) + read_digits(stamp, 2),
                read_digits(stamp, 4),
                read_digits(stamp, 6),
                read_digits(stamp, 8),
                read_digits(stamp, 10),
                read_digits(stamp, 12),
            ) == time.secs
            &&& read_digits(stamp, 14) == time.nanos / 10_000_000
        }),
{
    lemma_civil_is_the_moment(time);
    let c = civil(time)->0;
    let stamp = long_stamp(time)->0;
    assert(read_digits(stamp, 0) == c.year as int / 100);
    assert(read_digits(stamp, 2) == c.year as int % 100);
    assert(read_digits(stamp, 4) == c.month);
    assert(read_digits(stamp, 6) == c.day);
    assert(read_digits(stamp, 8) == c.hour);
    assert(read_digits(stamp, 10) == c.minute);
    assert(read_digits(stamp, 12) == c.second);
    assert(read_digits(stamp, 14) == time.nanos as int / 10_000_000);
}

/// A short stamp reads as its moment: years since 1900, month, day, hour, minute,
/// second, and no offset from GMT.
pub proof fn law_short_stamps_are_read(time: Timestamp)
    requires
        short_stamp(time) is Some,
    ensures
        ({
            let stamp = short_stamp(time)->0;
            &&& stamp.len() == 7
            &&& stamp[6] == 0
            &&& seconds_of(
                1900 + stamp[0] as int,
                stamp[1] as int,
                stamp[2] as int,
                stamp[3] as int,
                stamp[4] as int,
                stamp[5] as int,
            ) == time.secs
        }),
{
    lemma_civil_is_the_moment(time);
}

/// The number of stamps among some times.
pub open spec fn stamps(times: Seq<Option<Timestamp>>) -> nat
    decreases times.len(),
{
    if times.len() == 0 {
        0
    } else {
        stamps(times.drop_last()) + if stamp_of(times.last()).len() > 0 {
            1nat
        } else {
            0nat
        }
    }
}

/// A time stamp field holds, in this order, the times of creation, modification,
/// access and change of attributes: a time has the bit of its place in the flags
/// exactly if its stamp is there, behind those of the earlier ones.
#[verifier::rlimit(40)]
#[verifier::spinoff_prover]
pub proof fn law_time_fields_are_read(times: EntryTimes, which: int)
    requires
        0 <= which < 4,
        stamp_field(times) is Some,
    ensures
        ({
            let value = stamp_field(times)->0;
            let all = seq![times.created, times.modified, times.accessed, times.changed];
            let bit: int = if which == 0 {
                1
            } else if which == 1 {
                2
            } else if which == 2 {
                4
            } else {
                8
            };
            let at = 1 + 17 * stamps(all.take(which));
            &&& value[0] >= 0x80
            &&& (value[0] as int / bit) % 2 == 1 <==> stamp_of(all[which]).len() > 0
            &&& stamp_of(all[which]).len() > 0 ==> at + 17 <= value.len() && value.subrange(
                at as int,
                (at + 17) as int,
            ) == stamp_of(all[which])
        }),
{
    let value = stamp_field(times)->0;
    let all = seq![times.created, times.modified, times.accessed, times.changed];
    lemma_stamp_length(times.created);
    lemma_stamp_length(times.modified);
    lemma_stamp_length(times.accessed);
    lemma_stamp_length(times.changed);
    let c = stamp_of(times.created);
    let m = stamp_of(times.modified);
    let a = stamp_of(times.accessed);
    let d = stamp_of(times.changed);
    lemma_flag_bits(c.len() > 0, m.len() > 0, a.len() > 0, d.len() > 0);
    lemma_stamp_count(all, which);
    lemma_stamps_stand(value[0], c, m, a, d);
    assert(value == seq![value[0]] + c + m + a + d);
}

proof fn lemma_stamps_stand(flags: u8, c: Seq<u8>, m: Seq<u8>, a: Seq<u8>, d: Seq<u8>)
    ensures
        ({
            let value = seq![flags] + c + m + a + d;
            &&& value.subrange(1, 1 + c.len() as int) == c
            &&& value.subrange(1 + c.len() as int, 1 + (c.len() + m.len()) as int) == m
            &&& value.subrange(
                1 + (c.len() + m.len()) as int,
                1 + (c.len() + m.len() + a.len()) as int,
            ) == a
            &&& value.subrange(
                1 + (c.len() + m.len() + a.len()) as int,
                1 + (c.len() + m.len() + a.len() + d.len()) as int,
            ) == d
        }),
{
    let value = seq![flags] + c + m + a + d;
    assert(value.subrange(1, 1 + c.len() as int) =~= c);
    assert(value.subrange(1 + c.len() as int, 1 + (c.len() + m.len()) as int) =~= m);
    assert(value.subrange(
        1 + (c.len() + m.len()) as int,
        1 + (c.len() + m.len() + a.len()) as int,
    ) =~= a);
    assert(value.subrange(
        1 + (c.len() + m.len() + a.len()) as int,
        1 + (c.len() + m.len() + a.len() + d.len()) as int,
    ) =~= d);
}

proof fn lemma_flag_bits(created: bool, modified: bool, accessed: bool, changed: bool)
    ensures
        ({
            let flags = 0x80 + (if created {
                1int
            } else {
                0
            }) + (if modified {
                2int
            } else {
                0
            }) + (if accessed {
                4int
            } else {
                0
            }) + (if changed {
                8int
            } else {
                0
            });
            &&& flags % 2 == 1 <==> created
            &&& (flags / 2) % 2 == 1 <==> modified
            &&& (flags / 4) % 2 == 1 <==> accessed
            &&& (flags / 8) % 2 == 1 <==> changed
        }),
{
}

proof fn lemma_stamp_count(all: Seq<Option<Timestamp>>, which: int)
    requires
        all.len() == 4,
        0 <= which < 4,
    ensures
        17 * stamps(all.take(which)) == (if which > 0 {
            stamp_of(all[0]).len() as int
        } else {
            0
        }) + (if which > 1 {
            stamp_of(all[1]).len() as int
        } else {
            0
        }) + (if which > 2 {
            stamp_of(all[2]).len() as int
        } else {
            0
        }),
    decreases which,
{
    if which > 0 {
        lemma_stamp_count(all, which - 1);
        lemma_stamp_length(all[which - 1]);
        assert(all.take(which).drop_last() =~= all.take(which - 1));
        assert(all.take(which).last() == all[which - 1]);
    }
}

proof fn lemma_stamp_length(time: Option<Timestamp>)
    ensures
        stamp_of(time).len() == 0 || stamp_of(time).len() == 17,
{
}

// ---------------------------------------------------------------------------
// Whole images
// ---------------------------------------------------------------------------

/// A descriptor points to the parts of an index that begins at a position: at the path
/// table with its numbers the lowest byte first, at the one with the highest first, and
/// at the extent of the root; and it tells how long the volume is.
pub open spec fn points_to(
    descriptor: Seq<u8>,
    index: Seq<u8>,
    position: u64,
    little: Seq<u8>,
    big: Seq<u8>,
    root: Seq<u8>,
) -> bool {
    &&& stands_at(index, le32(descriptor, 140) * 2048 - position, little)
    &&& stands_at(index, be32(descriptor, 148) * 2048 - position, big)
    &&& holds_both(descriptor, 132, little.len() as int)
    &&& stands_at(index, le32(descriptor, 158) * 2048 - position, root)
    &&& holds_both(descriptor, 166, root.len() as int)
    &&& le32(descriptor, 80) * 2048 == position + index.len()
}

/// The descriptors of a finished image point to what stands in its index: the first
/// one to the path tables and the root of the primary tree, the second one to those of
/// the Joliet tree.
#[verifier::rlimit(40)]
#[verifier::spinoff_prover]
pub proof fn law_descriptors_point_to_the_index(state: IsoState, position: u64)
    requires
        is_tree(state.nodes),
        directory_order(state.nodes) matches Ok(order) && listed_once(order),
    ensures
        state.finished(position) matches Ok(tail) ==> {
            let order = directory_order(state.nodes)->Ok_0;
            let plan = planned(state.nodes, order, state.limits.metadata_bytes, position)->Ok_0;
            let table = |joliet: bool, big: bool|
                path_table(state.nodes, plan.extents, order, joliet, big, order.len());
            &&& tail.primary[0] == 1
            &&& tail.supplementary[0] == 2
            &&& points_to(
                tail.primary,
                tail.index,
                position,
                table(false, false),
                table(false, true),
                directory_extent(state.nodes, plan.extents, 0, false),
            )
            &&& points_to(
                tail.supplementary,
                tail.index,
                position,
                table(true, false),
                table(true, true),
                directory_extent(state.nodes, plan.extents, 0, true),
            )
        },
{
    if let Ok(tail) = state.finished(position) {
        let order = directory_order(state.nodes)->Ok_0;
        let limit = state.limits.metadata_bytes;
        law_parents_come_first(state.nodes);
        law_tables_stand_where_planned(state.nodes, order, limit, position);
        law_directories_stand_where_planned(state.nodes, order, limit, position, 0);
        law_image_length(state, position);
        let plan = planned(state.nodes, order, limit, position)->Ok_0;
        law_plans_are_feasible(state.nodes, order, limit, position);
        crate::iso::finish::lemma_table_size_bound(state.nodes, order, false, order.len());
        crate::iso::finish::lemma_table_size_bound(state.nodes, order, true, order.len());
        let root = plan.extents[0];
        assert(order[0].node == 0);
        law_descriptors_are_read(
            VolumeDescriptor {
                descriptor_type: 1,
                joliet: false,
                root_lba: root.primary_lba,
                root_size: root.primary_size,
                path_table_size: plan.primary_path_size as usize,
                little_path_lba: plan.primary_l_path,
                big_path_lba: plan.primary_m_path,
                total_sectors: plan.total_sectors,
            },
            state.archive_metadata,
        );
        law_descriptors_are_read(
            VolumeDescriptor {
                descriptor_type: 2,
                joliet: true,
                root_lba: root.joliet_lba,
                root_size: root.joliet_size,
                path_table_size: plan.joliet_path_size as usize,
                little_path_lba: plan.joliet_l_path,
                big_path_lba: plan.joliet_m_path,
                total_sectors: plan.total_sectors,
            },
            state.archive_metadata,
        );
    }
}

// ---------------------------------------------------------------------------
// Names and modes
// ---------------------------------------------------------------------------

/// A name in the primary tree is as long as the name, made of capital letters, digits,
/// dots and underscores only; a name that is made of these is kept, and case alone
/// makes no difference.
pub proof fn law_primary_names_are_plain(name: Seq<u8>, i: int)
    requires
        0 <= i < name.len(),
    ensures
        ({
            let byte = primary_identifier(name)[i];
            let is_plain = |b: u8|
                0x41 <= b <= 0x5a || 0x30 <= b <= 0x39 || b == 0x2e || b == 0x5f;
            &&& primary_identifier(name).len() == name.len()
            &&& is_plain(byte)
            &&& is_plain(name[i]) ==> byte == name[i]
            &&& 0x61 <= name[i] <= 0x7a ==> byte + 0x20 == name[i]
            &&& !is_plain(name[i]) && !(0x61 <= name[i] <= 0x7a) ==> byte == 0x5f
        }),
{
}

/// A name in the Joliet tree is the text of the name in UTF-16, the highest byte of each
/// unit first, with an underscore for each unit that is not allowed.
pub proof fn law_joliet_names_are_text(text: Seq<char>, i: int)
    requires
        0 <= i < written_utf16(text).len() / 2,
    ensures
        ({
            let units = written_utf16(text);
            let name = joliet_identifier(encode_utf8(text));
            let unit = le16(units, 2 * i);
            &&& name.len() == units.len()
            &&& be16(name, 2 * i) == if unit < 0x20 || unit == 0x2a || unit == 0x2f || unit == 0x3a
                || unit == 0x3b || unit == 0x3f || unit == 0x5c {
                0x5f
            } else {
                unit
            }
        }),
{
    law_valid_text_is_not_replaced(text);
    law_utf16_is_even(encode_utf8(text));
    let units = written_utf16(text);
    let name = joliet_identifier(encode_utf8(text));
    assert((2 * i) % 2 == 0);
    assert((2 * i + 1) % 2 == 1);
    let unit = joliet_unit(le16(units, 2 * i));
    assert(unit < 0x1_0000);
    assert(name[2 * i] == unit / 256);
    assert(name[2 * i + 1] == unit % 256);
}

/// A mode tells the kind of an entry and keeps its twelve permission bits; hard links
/// are files.
pub proof fn law_modes_tell_kind_and_permissions(
    first: EntryKind,
    second: EntryKind,
    permissions: Option<u32>,
)
    ensures
        permissions matches Some(bits) ==> mode_of(first, permissions) % 0x1000 == bits % 0x1000,
        permissions is None ==> mode_of(first, permissions) % 0x1000 == if first is Dir {
            0o755int
        } else {
            0o644
        },
        mode_of(first, permissions) / 0x1000 == mode_of(second, permissions) / 0x1000 ==> first
            == second || (first is File || first is Hardlink) && (second is File || second
            is Hardlink),
        mode_of(EntryKind::File, permissions) / 0x1000 == 0o10,
        mode_of(EntryKind::Hardlink, permissions) / 0x1000 == 0o10,
        mode_of(EntryKind::Dir, permissions) / 0x1000 == 0o4,
        mode_of(EntryKind::Symlink, permissions) / 0x1000 == 0o12,
        mode_of(EntryKind::Socket, permissions) / 0x1000 == 0o14,
        mode_of(EntryKind::Block, permissions) / 0x1000 == 0o6,
        mode_of(EntryKind::Char, permissions) / 0x1000 == 0o2,
        mode_of(EntryKind::Fifo, permissions) / 0x1000 == 0o1,
{
}

} // verus!
