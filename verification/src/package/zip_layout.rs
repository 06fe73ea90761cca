//! The ZIP format as a writer lays it out, and the laws on how it is read.

use vstd::prelude::*;
use vstd::utf8::valid_utf8;
use crate::bytes::{has_prefix, le16};
use crate::entry::PathEncoding;
use crate::layout::{law_low2_is_read, law_low4_is_read, law_low8_is_read, low2, low4, low8};
use crate::package::zip_reader::{
    central_header, end_record, end_record_at, entry_cost, member_sizes, resolved, signature,
    tail_length, zip64_field, CentralHeader, DirectoryStage, DirectoryView, EndRecord, ReadRequest,
    ZipEntryView,
};

verus! {

// ---------------------------------------------------------------------------
// Extra fields
// ---------------------------------------------------------------------------

/// An extra field: what it is, and its data.
pub struct WrittenExtra {
    pub id: u16,
    pub data: Seq<u8>,
}

/// The bytes of an extra field.
pub open spec fn written_extra(field: WrittenExtra) -> Seq<u8> {
    low2(field.id) + low2(field.data.len() as u16) + field.data
}

/// The bytes of several extra fields.
pub open spec fn written_extras(fields: Seq<WrittenExtra>) -> Seq<u8>
    decreases fields.len(),
{
    if fields.len() == 0 {
        Seq::empty()
    } else {
        written_extra(fields[0]) + written_extras(fields.skip(1))
    }
}

/// Fields that a reader of sizes passes over.
pub open spec fn are_others(fields: Seq<WrittenExtra>) -> bool {
    forall|i: int|
        0 <= i < fields.len() ==> (#[trigger] fields[i]).id != 1 && fields[i].data.len() <= 0xffff
}

proof fn lemma_extra_head(field: WrittenExtra, rest: Seq<u8>)
    requires
        field.data.len() <= 0xffff,
    ensures
        ({
            let all = written_extra(field) + rest;
            &&& le16(all, 0) == field.id
            &&& le16(all, 2) == field.data.len()
            &&& all.subrange(4, 4 + field.data.len() as int) == field.data
            &&& all.skip(4 + field.data.len() as int) == rest
            &&& all.len() == 4 + field.data.len() + rest.len()
        }),
{
    let all = written_extra(field) + rest;
    assert(all.subrange(0, 2) =~= low2(field.id));
    assert(all.subrange(2, 4) =~= low2(field.data.len() as u16));
    law_low2_is_read(all, 0, field.id);
    law_low2_is_read(all, 2, field.data.len() as u16);
    assert(all.subrange(4, 4 + field.data.len() as int) =~= field.data);
    assert(all.skip(4 + field.data.len() as int) =~= rest);
}

proof fn lemma_others_are_passed(fields: Seq<WrittenExtra>, rest: Seq<u8>)
    requires
        are_others(fields),
    ensures
        zip64_field(written_extras(fields) + rest) == zip64_field(rest),
    decreases fields.len(),
{
    if fields.len() == 0 {
        assert(written_extras(fields) + rest =~= rest);
    } else {
        let later = fields.skip(1);
        assert forall|i: int| 0 <= i < later.len() implies (#[trigger] later[i]).id != 1
            && later[i].data.len() <= 0xffff by {
            assert(later[i] == fields[i + 1]);
        }
        assert(fields[0].id != 1);
        lemma_others_are_passed(later, rest);
        lemma_extra_head(fields[0], written_extras(later) + rest);
        assert(written_extras(fields) + rest =~= written_extra(fields[0]) + (written_extras(later)
            + rest));
    }
}

/// A number that does not fit 32 bits stands in a header as all ones.
pub open spec fn short_form(value: u64) -> u32 {
    if value >= 0xffff_ffff {
        0xffff_ffffu32
    } else {
        value as u32
    }
}

/// A number that does not fit 32 bits, in eight bytes.
pub open spec fn wide_form(value: u64) -> Seq<u8> {
    if value >= 0xffff_ffff {
        low8(value)
    } else {
        Seq::empty()
    }
}

// ---------------------------------------------------------------------------
// Members
// ---------------------------------------------------------------------------

/// A member as a writer lists it. The extra fields are those before the ZIP64 field
/// and the bytes behind it.
pub struct WrittenMember {
    pub made_by: u16,
    pub needed: u16,
    pub flags: u16,
    pub method: u16,
    pub time: u16,
    pub date: u16,
    pub crc: u32,
    pub packed: u64,
    pub size: u64,
    pub name: Seq<u8>,
    pub extras: Seq<WrittenExtra>,
    pub behind: Seq<u8>,
    pub comment: Seq<u8>,
    pub disk: u16,
    pub internal: u16,
    pub attributes: u32,
    pub offset: u64,
}

impl WrittenMember {
    /// The numbers that do not fit the header: the size, the packed size, the offset.
    pub open spec fn wide(self) -> Seq<u8> {
        wide_form(self.size) + wide_form(self.packed) + wide_form(self.offset)
    }

    /// All extra fields.
    pub open spec fn extra(self) -> Seq<u8> {
        if self.wide().len() == 0 {
            written_extras(self.extras)
        } else {
            written_extras(self.extras) + (written_extra(
                WrittenExtra { id: 1, data: self.wide() },
            ) + self.behind)
        }
    }

    /// The lengths fit their fields.
    pub open spec fn is_allowed(self) -> bool {
        &&& self.name.len() <= 0xffff
        &&& self.extra().len() <= 0xffff
        &&& self.comment.len() <= 0xffff
        &&& are_others(self.extras)
    }

    /// The header: signature, versions, flags at 8, method at 10, time and date, the
    /// checksum at 16, the packed size at 20, the size at 24, three lengths from 28 on,
    /// the disk, the attributes, and the offset at 42.
    pub open spec fn header(self) -> Seq<u8> {
        (seq![0x50u8, 0x4b, 1, 2] + low2(self.made_by) + low2(self.needed)) + (low2(self.flags)
            + low2(self.method) + low2(self.time) + low2(self.date)) + (low4(self.crc) + low4(
            short_form(self.packed),
        ) + low4(short_form(self.size))) + (low2(self.name.len() as u16) + low2(
            self.extra().len() as u16,
        ) + low2(self.comment.len() as u16) + low2(self.disk)) + (low2(self.internal) + low4(
            self.attributes,
        ) + low4(short_form(self.offset)))
    }

    /// What follows the header.
    pub open spec fn tail(self) -> Seq<u8> {
        self.name + self.extra() + self.comment
    }

    /// The member as it is to be listed.
    pub open spec fn listed(self) -> ZipEntryView {
        ZipEntryView {
            name: self.name,
            encoding: if (self.flags / 0x800) % 2 == 1 || valid_utf8(self.name) {
                PathEncoding::Utf8
            } else {
                PathEncoding::Bytes
            },
            method: self.method,
            flags: self.flags,
            uncompressed_size: self.size as nat,
            local_offset: self.offset as nat,
        }
    }
}

proof fn lemma_five(a: Seq<u8>, b: Seq<u8>, c: Seq<u8>, d: Seq<u8>, e: Seq<u8>)
    requires
        a.len() == 8,
        b.len() == 8,
        c.len() == 12,
        d.len() == 8,
        e.len() == 10,
    ensures
        ({
            let all = a + b + c + d + e;
            &&& all.len() == 46
            &&& all.subrange(0, 4) == a.subrange(0, 4)
            &&& all.subrange(8, 10) == b.subrange(0, 2)
            &&& all.subrange(10, 12) == b.subrange(2, 4)
            &&& all.subrange(20, 24) == c.subrange(4, 8)
            &&& all.subrange(24, 28) == c.subrange(8, 12)
            &&& all.subrange(28, 30) == d.subrange(0, 2)
            &&& all.subrange(30, 32) == d.subrange(2, 4)
            &&& all.subrange(32, 34) == d.subrange(4, 6)
            &&& all.subrange(42, 46) == e.subrange(6, 10)
        }),
{
    let all = a + b + c + d + e;
    assert(all.subrange(0, 4) =~= a.subrange(0, 4));
    assert(all.subrange(8, 10) =~= b.subrange(0, 2));
    assert(all.subrange(10, 12) =~= b.subrange(2, 4));
    assert(all.subrange(20, 24) =~= c.subrange(4, 8));
    assert(all.subrange(24, 28) =~= c.subrange(8, 12));
    assert(all.subrange(28, 30) =~= d.subrange(0, 2));
    assert(all.subrange(30, 32) =~= d.subrange(2, 4));
    assert(all.subrange(32, 34) =~= d.subrange(4, 6));
    assert(all.subrange(42, 46) =~= e.subrange(6, 10));
}

proof fn lemma_four_words(a: Seq<u8>, b: Seq<u8>, c: Seq<u8>, d: Seq<u8>)
    requires
        a.len() == 2,
        b.len() == 2,
        c.len() == 2,
        d.len() == 2,
    ensures
        (a + b + c + d).len() == 8,
        (a + b + c + d).subrange(0, 2) == a,
        (a + b + c + d).subrange(2, 4) == b,
        (a + b + c + d).subrange(4, 6) == c,
{
    assert((a + b + c + d).subrange(0, 2) =~= a);
    assert((a + b + c + d).subrange(2, 4) =~= b);
    assert((a + b + c + d).subrange(4, 6) =~= c);
}

proof fn lemma_three_parts(a: Seq<u8>, b: Seq<u8>, c: Seq<u8>)
    ensures
        (a + b + c).len() == a.len() + b.len() + c.len(),
        (a + b + c).subrange(0, a.len() as int) == a,
        (a + b + c).subrange(a.len() as int, (a.len() + b.len()) as int) == b,
        (a + b + c).subrange((a.len() + b.len()) as int, (a + b + c).len() as int) == c,
{
    assert((a + b + c).subrange(0, a.len() as int) =~= a);
    assert((a + b + c).subrange(a.len() as int, (a.len() + b.len()) as int) =~= b);
    assert((a + b + c).subrange((a.len() + b.len()) as int, (a + b + c).len() as int) =~= c);
}

/// A header that a writer lays out by the format is read as it was written: the
/// signature, the flags, the method, both sizes, the three lengths and the offset.
#[verifier::rlimit(40)]
#[verifier::spinoff_prover]
pub proof fn law_headers_are_read(member: WrittenMember)
    requires
        member.is_allowed(),
    ensures
        member.header().len() == 46,
        has_prefix(member.header(), signature(1, 2)),
        central_header(member.header()) == (CentralHeader {
            flags: member.flags,
            method: member.method,
            compressed: short_form(member.packed),
            uncompressed: short_form(member.size),
            name_length: member.name.len() as u16,
            extra_length: member.extra().len() as u16,
            comment_length: member.comment.len() as u16,
            local: short_form(member.offset),
        }),
{
    let a = seq![0x50u8, 0x4b, 1, 2] + low2(member.made_by) + low2(member.needed);
    let b = low2(member.flags) + low2(member.method) + low2(member.time) + low2(member.date);
    let c = low4(member.crc) + low4(short_form(member.packed)) + low4(short_form(member.size));
    let d = low2(member.name.len() as u16) + low2(member.extra().len() as u16) + low2(
        member.comment.len() as u16,
    ) + low2(member.disk);
    let e = low2(member.internal) + low4(member.attributes) + low4(short_form(member.offset));
    let all = member.header();
    lemma_three_parts(seq![0x50u8, 0x4b, 1, 2], low2(member.made_by), low2(member.needed));
    lemma_four_words(
        low2(member.flags),
        low2(member.method),
        low2(member.time),
        low2(member.date),
    );
    lemma_three_parts(
        low4(member.crc),
        low4(short_form(member.packed)),
        low4(short_form(member.size)),
    );
    lemma_four_words(
        low2(member.name.len() as u16),
        low2(member.extra().len() as u16),
        low2(member.comment.len() as u16),
        low2(member.disk),
    );
    lemma_three_parts(
        low2(member.internal),
        low4(member.attributes),
        low4(short_form(member.offset)),
    );
    lemma_five(a, b, c, d, e);
    assert(seq![0x50u8, 0x4b, 1, 2] =~= signature(1, 2));
    law_low2_is_read(all, 8, member.flags);
    law_low2_is_read(all, 10, member.method);
    law_low4_is_read(all, 20, short_form(member.packed));
    law_low4_is_read(all, 24, short_form(member.size));
    law_low2_is_read(all, 28, member.name.len() as u16);
    law_low2_is_read(all, 30, member.extra().len() as u16);
    law_low2_is_read(all, 32, member.comment.len() as u16);
    law_low4_is_read(all, 42, short_form(member.offset));
}

proof fn lemma_resolved(value: u64, rest: Seq<u8>)
    ensures
        resolved(wide_form(value) + rest, short_form(value)) == Ok::<(nat, Seq<u8>), Seq<char>>(
            (value as nat, rest),
        ),
{
    let field = wide_form(value) + rest;
    if value >= 0xffff_ffff {
        assert(field.subrange(0, 8) =~= low8(value));
        law_low8_is_read(field, 0, value);
        assert(field.skip(8) =~= rest);
    } else {
        assert(field =~= rest);
    }
}

/// The size of a member and the place of its header are found where they were
/// written: in the header itself, or in the ZIP64 field, which may stand behind
/// other fields and holds only the numbers that the header does not, in the order of
/// size, packed size and place.
pub proof fn law_sizes_are_found(member: WrittenMember)
    requires
        member.is_allowed(),
    ensures
        member_sizes(
            member.extra(),
            short_form(member.size),
            short_form(member.packed),
            short_form(member.offset),
        ) == Ok::<(nat, nat), Seq<char>>((member.size as nat, member.offset as nat)),
{
    lemma_wide_field_is_found(member);
    lemma_wide_numbers(member.size, member.packed, member.offset);
}

proof fn lemma_wide_field_is_found(member: WrittenMember)
    requires
        member.is_allowed(),
    ensures
        zip64_field(member.extra()) == Ok::<Seq<u8>, Seq<char>>(member.wide()),
{
    let wide = member.wide();
    let others = written_extras(member.extras);
    if wide.len() == 0 {
        assert(others =~= others + Seq::<u8>::empty());
        lemma_others_are_passed(member.extras, Seq::empty());
        assert(wide =~= Seq::<u8>::empty());
    } else {
        let own = WrittenExtra { id: 1, data: wide };
        lemma_wide_length(member.size, member.packed, member.offset);
        lemma_others_are_passed(member.extras, written_extra(own) + member.behind);
        lemma_extra_head(own, member.behind);
    }
}

proof fn lemma_wide_length(size: u64, packed: u64, offset: u64)
    ensures
        (wide_form(size) + wide_form(packed) + wide_form(offset)).len() <= 24,
{
    assert(wide_form(size).len() <= 8);
    assert(wide_form(packed).len() <= 8);
    assert(wide_form(offset).len() <= 8);
}

proof fn lemma_wide_numbers(size: u64, packed: u64, offset: u64)
    ensures
        ({
            let wide = wide_form(size) + wide_form(packed) + wide_form(offset);
            let middle = wide_form(packed) + wide_form(offset);
            &&& resolved(wide, short_form(size)) == Ok::<(nat, Seq<u8>), Seq<char>>(
                (size as nat, middle),
            )
            &&& resolved(middle, short_form(packed)) == Ok::<(nat, Seq<u8>), Seq<char>>(
                (packed as nat, wide_form(offset)),
            )
            &&& resolved(wide_form(offset), short_form(offset)) == Ok::<
                (nat, Seq<u8>),
                Seq<char>,
            >((offset as nat, Seq::empty()))
        }),
{
    let last = wide_form(offset);
    let middle = wide_form(packed) + last;
    assert(wide_form(size) + wide_form(packed) + last =~= wide_form(size) + middle);
    assert(last =~= last + Seq::<u8>::empty());
    lemma_resolved(size, middle);
    lemma_resolved(packed, last);
    lemma_resolved(offset, Seq::empty());
}

/// The budgets leave room for a member.
pub open spec fn has_room(reader: DirectoryView, member: WrittenMember) -> bool {
    let used = reader.used + member.tail().len() + entry_cost();
    &&& used <= usize::MAX
    &&& reader.limits.metadata_bytes matches Some(limit) ==> used <= limit
    &&& reader.limits.path_bytes matches Some(limit) ==> member.name.len() <= limit
}

/// A reader that stands at a member's header asks for its 46 bytes and then for what
/// follows it, and lists the member as it was written.
pub proof fn law_members_are_listed(reader: DirectoryView, member: WrittenMember)
    requires
        reader.stage is Header,
        reader.remaining > 0,
        member.is_allowed(),
        has_room(reader, member),
    ensures
        reader.request() == Some(ReadRequest { at: None, length: 46 }),
        reader.supplied(member.header()) matches Ok(middle) && {
            &&& middle.request() == Some(
                ReadRequest { at: None, length: member.tail().len() as usize },
            )
            &&& middle.supplied(member.tail()) matches Ok(next) && {
                &&& next.entries == reader.entries.push(member.listed())
                &&& next.remaining == reader.remaining - 1
                &&& next.used == reader.used + member.tail().len() + entry_cost()
                &&& next.limits == reader.limits
                &&& next.central_offset == reader.central_offset
                &&& next.stage == if reader.remaining == 1 {
                    DirectoryStage::Done
                } else {
                    DirectoryStage::Header
                }
            }
        },
{
    law_headers_are_read(member);
    law_sizes_are_found(member);
    let header = central_header(member.header());
    let tail = member.tail();
    assert(tail.len() == header.tail_length());
    assert(tail.take(header.name_length as int) =~= member.name);
    assert(tail.subrange(
        header.name_length as int,
        header.name_length + header.extra_length,
    ) =~= member.extra());
}

/// What a reader comes to that is given the header and the tail of a member.
#[verifier::opaque]
pub open spec fn read_member(reader: DirectoryView, member: WrittenMember) -> Result<
    DirectoryView,
    Seq<char>,
> {
    match reader.supplied(member.header()) {
        Err(reason) => Err(reason),
        Ok(middle) => middle.supplied(member.tail()),
    }
}

proof fn lemma_member_is_listed(reader: DirectoryView, member: WrittenMember)
    requires
        reader.stage is Header,
        reader.remaining > 0,
        member.is_allowed(),
        has_room(reader, member),
    ensures
        read_member(reader, member) matches Ok(next) && {
            &&& next.entries == reader.entries.push(member.listed())
            &&& next.remaining == reader.remaining - 1
            &&& next.used == reader.used + member.tail().len() + entry_cost()
            &&& next.limits == reader.limits
            &&& next.stage == if reader.remaining == 1 {
                DirectoryStage::Done
            } else {
                DirectoryStage::Header
            }
        },
{
    reveal(read_member);
    law_members_are_listed(reader, member);
}

/// What a reader comes to that is given the headers and tails of some members.
pub open spec fn read_members(reader: DirectoryView, members: Seq<WrittenMember>) -> Result<
    DirectoryView,
    Seq<char>,
>
    decreases members.len(),
{
    if members.len() == 0 {
        Ok(reader)
    } else {
        match read_member(reader, members[0]) {
            Err(reason) => Err(reason),
            Ok(next) => read_members(next, members.skip(1)),
        }
    }
}

/// The bytes that members take in memory.
pub open spec fn total_cost(members: Seq<WrittenMember>) -> nat
    decreases members.len(),
{
    if members.len() == 0 {
        0
    } else {
        members[0].tail().len() + entry_cost() + total_cost(members.skip(1))
    }
}

/// A directory that a writer lays out by the format is listed member by member, as it
/// was written, and is done after the last.
pub proof fn law_directories_are_listed(reader: DirectoryView, members: Seq<WrittenMember>)
    requires
        reader.stage == if members.len() == 0 {
            DirectoryStage::Done
        } else {
            DirectoryStage::Header
        },
        reader.remaining == members.len(),
        forall|i: int| 0 <= i < members.len() ==> (#[trigger] members[i]).is_allowed(),
        reader.used + total_cost(members) <= usize::MAX,
        reader.limits.metadata_bytes matches Some(limit) ==> reader.used + total_cost(members)
            <= limit,
        reader.limits.path_bytes matches Some(limit) ==> forall|i: int|
            0 <= i < members.len() ==> (#[trigger] members[i]).name.len() <= limit,
    ensures
        read_members(reader, members) matches Ok(end) && {
            &&& end.stage == DirectoryStage::Done
            &&& end.entries == reader.entries + Seq::new(
                members.len(),
                |i: int| members[i].listed(),
            )
        },
    decreases members.len(),
{
    if members.len() == 0 {
        assert(reader.entries =~= reader.entries + Seq::new(
            members.len(),
            |i: int| members[i].listed(),
        ));
    } else {
        let rest = members.skip(1);
        assert(members[0].is_allowed());
        lemma_member_is_listed(reader, members[0]);
        let next = read_member(reader, members[0])->Ok_0;
        assert forall|i: int| 0 <= i < rest.len() implies (#[trigger] rest[i]).is_allowed() by {
            assert(rest[i] == members[i + 1]);
        }
        if let Some(limit) = reader.limits.path_bytes {
            assert forall|i: int| 0 <= i < rest.len() implies (#[trigger] rest[i]).name.len()
                <= limit by {
                assert(rest[i] == members[i + 1]);
            }
        }
        law_directories_are_listed(next, rest);
        let end = read_members(next, rest)->Ok_0;
        assert(end.entries =~= reader.entries + Seq::new(
            members.len(),
            |i: int| members[i].listed(),
        ));
    }
}

// ---------------------------------------------------------------------------
// The end of a container
// ---------------------------------------------------------------------------

/// The end record as a writer lays it out.
pub struct WrittenEnd {
    pub disk: u16,
    pub start_disk: u16,
    pub count_here: u16,
    pub count: u16,
    pub size: u32,
    pub offset: u32,
    pub comment: Seq<u8>,
}

impl WrittenEnd {
    /// The bytes of the record: signature, disks, two counts, the size of the
    /// directory, its place, and a comment.
    pub open spec fn bytes(self) -> Seq<u8> {
        (seq![0x50u8, 0x4b, 5, 6] + low2(self.disk) + low2(self.start_disk)) + (low2(
            self.count_here,
        ) + low2(self.count) + low4(self.size)) + (low4(self.offset) + low2(
            self.comment.len() as u16,
        )) + self.comment
    }
}

/// No signature of an end record begins behind this place.
pub open spec fn no_later_signature(tail: Seq<u8>, at: int) -> bool {
    forall|i: int|
        at < i <= tail.len() - 4 ==> #[trigger] tail.subrange(i, i + 4) != signature(5, 6)
}

proof fn lemma_last_signature(tail: Seq<u8>, at: int)
    requires
        0 <= at <= tail.len() - 4,
        tail.subrange(at, at + 4) == signature(5, 6),
        no_later_signature(tail, at),
    ensures
        end_record_at(tail) == Some(at),
    decreases tail.len(),
{
    assert(tail.skip(tail.len() - 4) =~= tail.subrange(tail.len() - 4, tail.len() as int));
    if at < tail.len() - 4 {
        let front = tail.drop_last();
        assert(front.subrange(at, at + 4) =~= tail.subrange(at, at + 4));
        assert forall|i: int| at < i <= front.len() - 4 implies #[trigger] front.subrange(
            i,
            i + 4,
        ) != signature(5, 6) by {
            assert(front.subrange(i, i + 4) =~= tail.subrange(i, i + 4));
        }
        assert(tail.subrange(tail.len() - 4, tail.len() - 4 + 4) != signature(5, 6));
        lemma_last_signature(front, at);
    }
}

/// The end record is found behind whatever precedes it, and says how many members
/// there are in all, where the directory begins, and where it stands itself, however
/// long its comment is.
pub proof fn law_end_records_are_read(before: Seq<u8>, end: WrittenEnd, tail_start: u64)
    requires
        end.comment.len() <= 0xffff,
        tail_start + before.len() + 22 + end.comment.len() <= u64::MAX,
        no_later_signature(before + end.bytes(), before.len() as int),
    ensures
        end.bytes().len() == 22 + end.comment.len(),
        end_record(before + end.bytes(), tail_start as nat) == Ok::<EndRecord, Seq<char>>(
            EndRecord {
                count: end.count as u64,
                central_offset: end.offset as u64,
                position: (tail_start + before.len()) as u64,
            },
        ),
{
    let tail = before + end.bytes();
    let at = before.len() as int;
    let a = seq![0x50u8, 0x4b, 5, 6] + low2(end.disk) + low2(end.start_disk);
    let b = low2(end.count_here) + low2(end.count) + low4(end.size);
    let c = low4(end.offset) + low2(end.comment.len() as u16);
    let bytes = end.bytes();
    assert(bytes =~= a + b + c + end.comment);
    assert(a.subrange(0, 4) =~= signature(5, 6));
    assert(bytes.subrange(0, 4) =~= a.subrange(0, 4));
    assert(tail.subrange(at, at + 4) =~= bytes.subrange(0, 4));
    lemma_last_signature(tail, at);
    assert(b.subrange(2, 4) =~= low2(end.count));
    assert(bytes.subrange(10, 12) =~= b.subrange(2, 4));
    assert(tail.subrange(at + 10, at + 12) =~= bytes.subrange(10, 12));
    law_low2_is_read(tail, at + 10, end.count);
    assert(c.subrange(0, 4) =~= low4(end.offset));
    assert(bytes.subrange(16, 20) =~= c.subrange(0, 4));
    assert(tail.subrange(at + 16, at + 20) =~= bytes.subrange(16, 20));
    law_low4_is_read(tail, at + 16, end.offset);
}

/// The bytes that a reader asks for first reach to the end of the container and hold
/// its end record, however long the comment is.
pub proof fn law_tails_hold_the_end_record(length: u64, comment: nat)
    requires
        comment <= 0xffff,
        22 + comment <= length,
    ensures
        tail_length(length as nat) <= length,
        length - tail_length(length as nat) <= length - 22 - comment,
{
}

/// The ZIP64 locator as a writer lays it out.
pub open spec fn written_locator(disk: u32, position: u64, disks: u32) -> Seq<u8> {
    seq![0x50u8, 0x4b, 6, 7] + low4(disk) + low8(position) + low4(disks)
}

/// The ZIP64 locator says where the ZIP64 record stands.
pub proof fn law_locators_are_read(reader: DirectoryView, disk: u32, position: u64, disks: u32)
    requires
        reader.stage is Locator,
    ensures
        written_locator(disk, position, disks).len() == 20,
        reader.supplied(written_locator(disk, position, disks)) == Ok::<DirectoryView, Seq<char>>(
            DirectoryView { stage: DirectoryStage::Record { position }, ..reader },
        ),
{
    let locator = written_locator(disk, position, disks);
    assert(locator.subrange(0, 4) =~= signature(6, 7));
    assert(locator.subrange(8, 16) =~= low8(position));
    law_low8_is_read(locator, 8, position);
}

/// The ZIP64 end record as a writer lays it out.
pub struct WrittenZip64 {
    pub size: u64,
    pub versions: u32,
    pub disk: u32,
    pub start_disk: u32,
    pub count_here: u64,
    pub count: u64,
    pub directory: u64,
    pub offset: u64,
}

impl WrittenZip64 {
    /// The bytes of the record.
    pub open spec fn bytes(self) -> Seq<u8> {
        (seq![0x50u8, 0x4b, 6, 6] + low8(self.size) + low4(self.versions)) + (low4(self.disk)
            + low4(self.start_disk) + low8(self.count_here)) + (low8(self.count) + low8(
            self.directory,
        ) + low8(self.offset))
    }
}

proof fn lemma_eights(x: Seq<u8>, y: Seq<u8>, z: Seq<u8>)
    requires
        x.len() == 8,
        y.len() == 8,
        z.len() == 8,
    ensures
        (x + y + z).subrange(0, 8) == x,
        (x + y + z).subrange(16, 24) == z,
{
    assert((x + y + z).subrange(0, 8) =~= x);
    assert((x + y + z).subrange(16, 24) =~= z);
}

proof fn lemma_head(x: Seq<u8>, y: Seq<u8>)
    ensures
        (seq![0x50u8, 0x4b, 6, 6] + x + y).subrange(0, 4) == signature(6, 6),
{
    assert((seq![0x50u8, 0x4b, 6, 6] + x + y).subrange(0, 4) =~= signature(6, 6));
}

proof fn lemma_three(a: Seq<u8>, b: Seq<u8>, c: Seq<u8>)
    requires
        a.len() == 16,
        b.len() == 16,
        c.len() == 24,
    ensures
        (a + b + c).len() == 56,
        (a + b + c).subrange(0, 4) == a.subrange(0, 4),
        (a + b + c).subrange(32, 40) == c.subrange(0, 8),
        (a + b + c).subrange(48, 56) == c.subrange(16, 24),
{
    let all = a + b + c;
    assert(all.subrange(0, 4) =~= a.subrange(0, 4));
    assert(all.subrange(32, 40) =~= c.subrange(0, 8));
    assert(all.subrange(48, 56) =~= c.subrange(16, 24));
}

/// The ZIP64 record says how many members there are in all and where the directory
/// begins.
#[verifier::rlimit(40)]
#[verifier::spinoff_prover]
pub proof fn law_zip64_records_are_read(reader: DirectoryView, record: WrittenZip64)
    requires
        reader.stage is Record,
        reader.limits.entries matches Some(limit) ==> record.count <= limit,
    ensures
        record.bytes().len() == 56,
        reader.supplied(record.bytes()) == Ok::<DirectoryView, Seq<char>>(
            DirectoryView {
                stage: DirectoryStage::Directory,
                remaining: record.count as nat,
                central_offset: record.offset as nat,
                ..reader
            },
        ),
{
    let a = seq![0x50u8, 0x4b, 6, 6] + low8(record.size) + low4(record.versions);
    let b = low4(record.disk) + low4(record.start_disk) + low8(record.count_here);
    let c = low8(record.count) + low8(record.directory) + low8(record.offset);
    let bytes = record.bytes();
    lemma_eights(low8(record.count), low8(record.directory), low8(record.offset));
    lemma_head(low8(record.size), low4(record.versions));
    lemma_three(a, b, c);
    law_low8_is_read(bytes, 32, record.count);
    law_low8_is_read(bytes, 48, record.offset);
}

} // verus!
