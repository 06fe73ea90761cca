//! Rock Ridge system-use fields: POSIX names, modes, links and times.

use vstd::prelude::*;
use vstd::string::*;
use crate::bytes::{has_prefix, same_bytes, starts_with};
use crate::entry::{Device, EntryKind, EntryMetadata, EntryTimes, Extension};
use crate::error::{ArchiveError, ErrorKind, ErrorView};
use crate::iso::record::{
    both_endian32, both_endian_u32, iso_error, iso_fault, u32_value,
};
use crate::iso::time::{stamp_field, timestamp_field};
use crate::parts::{components, split_pieces, texts, SLASH};

verus! {

/// One outcome after the other: the first error, or all bytes.
pub open spec fn joined(
    first: Result<Seq<u8>, ErrorView>,
    second: Result<Seq<u8>, ErrorView>,
) -> Result<Seq<u8>, ErrorView> {
    match first {
        Err(error) => Err(error),
        Ok(head) => match second {
            Err(error) => Err(error),
            Ok(tail) => Ok(head + tail),
        },
    }
}

/// `result` appended to `output` what `wanted` states.
pub open spec fn appended(
    result: Result<(), ArchiveError>,
    before: Seq<u8>,
    after: Seq<u8>,
    wanted: Result<Seq<u8>, ErrorView>,
) -> bool {
    match result {
        Ok(()) => wanted matches Ok(bytes) && after == before + bytes,
        Err(error) => wanted == Err::<Seq<u8>, _>(error@),
    }
}

// ---------------------------------------------------------------------------
// Fields
// ---------------------------------------------------------------------------

/// A system-use field: signature, length, version and value.
pub open spec fn field(signature: Seq<u8>, value: Seq<u8>) -> Result<Seq<u8>, ErrorView> {
    let length = value.len() + 4;
    if length > usize::MAX {
        Err(iso_fault(ErrorKind::Limit, "system-use field length overflow"@))
    } else if length > 255 {
        Err(
            iso_fault(
                ErrorKind::Unsupported,
                "Rock Ridge field requires an unsupported continuation area"@,
            ),
        )
    } else {
        Ok(signature + seq![length as u8, 1u8] + value)
    }
}

/// Appends a system-use field.
pub fn push_susp_field(output: &mut Vec<u8>, signature: [u8; 2], value: &[u8]) -> (result: Result<
    (),
    ArchiveError,
>)
    ensures
        appended(result, old(output)@, final(output)@, field(signature@, value@)),
{
    let length: usize = match value.len().checked_add(4) {
        Some(length) => length,
        None => {
            return Err(iso_error(ErrorKind::Limit, "system-use field length overflow"));
        },
    };
    if length > 255 {
        return Err(
            iso_error(
                ErrorKind::Unsupported,
                "Rock Ridge field requires an unsupported continuation area",
            ),
        );
    }
    output.extend_from_slice(&signature);
    output.push(length as u8);
    output.push(1);
    output.extend_from_slice(value);
    proof {
        assert(output@ =~= old(output)@ + field(signature@, value@)->Ok_0);
    }
    Ok(())
}

/// Whether the writer makes the fields of a signature itself: `SP`, `RR`, `NM`,
/// `PX`, `PN`, `SL` and `TF`.
pub open spec fn reserved_signature(key: Seq<u8>) -> bool {
    key.len() == 2 && {
        ||| key[0] == 0x53 && key[1] == 0x50
        ||| key[0] == 0x52 && key[1] == 0x52
        ||| key[0] == 0x4e && key[1] == 0x4d
        ||| key[0] == 0x50 && key[1] == 0x58
        ||| key[0] == 0x50 && key[1] == 0x4e
        ||| key[0] == 0x53 && key[1] == 0x4c
        ||| key[0] == 0x54 && key[1] == 0x46
    }
}

fn is_reserved_signature(key: &[u8]) -> (reserved: bool)
    ensures
        reserved == reserved_signature(key@),
{
    if key.len() != 2 {
        return false;
    }
    let first: u8 = key[0];
    let second: u8 = key[1];
    (first == 0x53 && second == 0x50) || (first == 0x52 && second == 0x52) || (first == 0x4e
        && second == 0x4d) || (first == 0x50 && second == 0x58) || (first == 0x50 && second == 0x4e)
        || (first == 0x53 && second == 0x4c) || (first == 0x54 && second == 0x46)
}

/// The field that an extension stands for; nothing for other extensions and for
/// fields that the writer makes itself. A value that already is a whole field
/// is taken as it is.
pub open spec fn raw_field(extension: Extension) -> Result<Seq<u8>, ErrorView> {
    let key = extension.key@;
    let value = extension.value@;
    if extension.namespace@ != "iso-system-use".spec_bytes() || reserved_signature(key) {
        Ok(Seq::empty())
    } else if key.len() != 2 {
        Err(
            iso_fault(
                ErrorKind::Malformed,
                "raw ISO system-use signature must be two bytes"@,
            ),
        )
    } else if value.len() >= 4 && value.take(2) == key && value[2] == value.len() {
        Ok(value)
    } else {
        field(key, value)
    }
}

/// Appends the field that an extension stands for.
pub fn append_raw_system_use(output: &mut Vec<u8>, extension: &Extension) -> (result: Result<
    (),
    ArchiveError,
>)
    ensures
        appended(result, old(output)@, final(output)@, raw_field(*extension)),
{
    let key = extension.key.as_slice();
    let value = extension.value.as_slice();
    proof {
        assert(old(output)@ + Seq::<u8>::empty() =~= old(output)@);
    }
    if !same_bytes(extension.namespace.as_slice(), "iso-system-use".as_bytes())
        || is_reserved_signature(key) {
        return Ok(());
    }
    if key.len() != 2 {
        return Err(
            iso_error(
                ErrorKind::Malformed,
                "raw ISO system-use signature must be two bytes",
            ),
        );
    }
    proof {
        assert(value@.len() >= 2 ==> value@.take(2) =~= value@.subrange(0, 2));
    }
    if value.len() >= 4 && same_bytes(&value[0..2], key) && value[2] as usize == value.len() {
        output.extend_from_slice(value);
        proof {
            assert(output@ =~= old(output)@ + value@);
        }
        return Ok(());
    }
    let signature: [u8; 2] = [key[0], key[1]];
    proof {
        assert(signature@ =~= key@);
    }
    push_susp_field(output, signature, value)
}

/// The fields of the first `count` extensions.
pub open spec fn raw_fields(extensions: Seq<Extension>, count: nat) -> Result<Seq<u8>, ErrorView>
    decreases count,
{
    if count == 0 {
        Ok(Seq::empty())
    } else {
        joined(raw_fields(extensions, (count - 1) as nat), raw_field(extensions[count - 1]))
    }
}

proof fn lemma_raw_fields_fail(extensions: Seq<Extension>, low: nat, high: nat)
    requires
        low <= high,
        raw_fields(extensions, low) is Err,
    ensures
        raw_fields(extensions, high) == raw_fields(extensions, low),
    decreases high,
{
    if low < high {
        lemma_raw_fields_fail(extensions, low, (high - 1) as nat);
    }
}

fn append_raw_fields(output: &mut Vec<u8>, extensions: &[Extension]) -> (result: Result<
    (),
    ArchiveError,
>)
    ensures
        appended(
            result,
            old(output)@,
            final(output)@,
            raw_fields(extensions@, extensions@.len()),
        ),
{
    let mut i: usize = 0;
    proof {
        assert(output@ + Seq::<u8>::empty() =~= output@);
    }
    while i < extensions.len()
        invariant
            i <= extensions@.len(),
            raw_fields(extensions@, i as nat) is Ok,
            output@ == old(output)@ + raw_fields(extensions@, i as nat)->Ok_0,
        decreases extensions@.len() - i,
    {
        let ghost before = output@;
        match append_raw_system_use(output, &extensions[i]) {
            Ok(()) => {},
            Err(error) => {
                proof {
                    lemma_raw_fields_fail(extensions@, (i + 1) as nat, extensions@.len());
                }
                return Err(error);
            },
        }
        i += 1;
        proof {
            assert(output@ =~= old(output)@ + raw_fields(extensions@, i as nat)->Ok_0);
        }
    }
    Ok(())
}

// ---------------------------------------------------------------------------
// Links, modes and numbers
// ---------------------------------------------------------------------------

/// A component record of a symbolic link.
pub open spec fn link_part(component: Seq<u8>) -> Result<Seq<u8>, ErrorView> {
    if component == seq![0x2eu8] {
        Ok(seq![2u8, 0u8])
    } else if component == seq![0x2eu8, 0x2eu8] {
        Ok(seq![4u8, 0u8])
    } else if component.len() > 255 {
        Err(
            iso_fault(
                ErrorKind::Unsupported,
                "Rock Ridge symlink component exceeds u8"@,
            ),
        )
    } else {
        Ok(seq![0u8, component.len() as u8] + component)
    }
}

/// The records of the first `count` components.
pub open spec fn link_parts(parts: Seq<Seq<u8>>, count: nat) -> Result<Seq<u8>, ErrorView>
    decreases count,
{
    if count == 0 {
        Ok(Seq::empty())
    } else {
        joined(link_parts(parts, (count - 1) as nat), link_part(parts[count - 1]))
    }
}

/// The value of a symbolic link field.
pub open spec fn link_value(target: Seq<u8>) -> Result<Seq<u8>, ErrorView> {
    let parts = components(target);
    let head = if has_prefix(target, seq![SLASH]) {
        seq![0u8, 8u8, 0u8]
    } else {
        seq![0u8]
    };
    joined(Ok(head), link_parts(parts, parts.len()))
}

proof fn lemma_link_parts_fail(parts: Seq<Seq<u8>>, low: nat, high: nat)
    requires
        low <= high,
        link_parts(parts, low) is Err,
    ensures
        link_parts(parts, high) == link_parts(parts, low),
    decreases high,
{
    if low < high {
        lemma_link_parts_fail(parts, low, (high - 1) as nat);
    }
}

fn push_link_part(value: &mut Vec<u8>, component: &[u8]) -> (result: Result<(), ArchiveError>)
    ensures
        appended(result, old(value)@, final(value)@, link_part(component@)),
{
    if same_bytes(component, &[0x2eu8]) {
        proof {
            assert(component@ =~= seq![0x2eu8]);
        }
        value.push(2);
        value.push(0);
    } else if same_bytes(component, &[0x2eu8, 0x2eu8]) {
        proof {
            assert(component@ =~= seq![0x2eu8, 0x2eu8]);
            assert(component@.len() == 2);
        }
        value.push(4);
        value.push(0);
    } else {
        proof {
            assert([0x2eu8]@ =~= seq![0x2eu8]);
            assert([0x2eu8, 0x2eu8]@ =~= seq![0x2eu8, 0x2eu8]);
        }
        if component.len() > 255 {
            return Err(
                iso_error(ErrorKind::Unsupported, "Rock Ridge symlink component exceeds u8"),
            );
        }
        value.push(0);
        value.push(component.len() as u8);
        value.extend_from_slice(component);
    }
    proof {
        assert(value@ =~= old(value)@ + link_part(component@)->Ok_0);
    }
    Ok(())
}

/// The value of a symbolic link field.
pub fn symbolic_link_value(target: &[u8]) -> (result: Result<Vec<u8>, ArchiveError>)
    ensures
        match result {
            Ok(value) => link_value(target@) == Ok::<_, ErrorView>(value@),
            Err(error) => link_value(target@) == Err::<Seq<u8>, _>(error@),
        },
{
    let mut value: Vec<u8> = Vec::new();
    value.push(0);
    proof {
        assert([SLASH]@ =~= seq![SLASH]);
    }
    if starts_with(target, &[SLASH]) {
        value.push(8);
        value.push(0);
    }
    let ghost head = value@;
    let parts = split_pieces(target, SLASH);
    let ghost all = components(target@);
    let mut i: usize = 0;
    proof {
        assert(head =~= if has_prefix(target@, seq![SLASH]) {
            seq![0u8, 8u8, 0u8]
        } else {
            seq![0u8]
        });
        assert(value@ + Seq::<u8>::empty() =~= value@);
        assert(texts(parts@).len() == parts@.len());
    }
    while i < parts.len()
        invariant
            all == texts(parts@),
            all.len() == parts@.len(),
            i <= parts@.len(),
            link_parts(all, i as nat) is Ok,
            value@ == head + link_parts(all, i as nat)->Ok_0,
            link_value(target@) == joined(Ok(head), link_parts(all, all.len())),
        decreases parts@.len() - i,
    {
        proof {
            assert(all[i as int] == parts@[i as int]@);
        }
        match push_link_part(&mut value, parts[i].as_slice()) {
            Ok(()) => {},
            Err(error) => {
                proof {
                    lemma_link_parts_fail(all, (i + 1) as nat, all.len());
                }
                return Err(error);
            },
        }
        i += 1;
        proof {
            assert(value@ =~= head + link_parts(all, i as nat)->Ok_0);
        }
    }
    Ok(value)
}

/// The file type bits of a kind.
pub open spec fn type_bits(kind: EntryKind) -> int {
    match kind {
        EntryKind::File | EntryKind::Hardlink => 0x8000,
        EntryKind::Dir => 0x4000,
        EntryKind::Symlink => 0xa000,
        EntryKind::Block => 0x6000,
        EntryKind::Char => 0x2000,
        EntryKind::Fifo => 0x1000,
        EntryKind::Socket => 0xc000,
        EntryKind::Other => 0,
    }
}

/// The permissions of an entry that has none recorded.
pub open spec fn default_permissions(kind: EntryKind) -> int {
    if kind == EntryKind::Dir {
        0x1ed
    } else {
        0x1a4
    }
}

/// The POSIX mode of an entry: file type and the low twelve permission bits.
pub open spec fn mode_of(kind: EntryKind, permissions: Option<u32>) -> int {
    type_bits(kind) + match permissions {
        Some(bits) => bits as int % 0x1000,
        None => default_permissions(kind),
    }
}

/// The POSIX mode of an entry.
pub fn full_mode(kind: EntryKind, permissions: Option<u32>) -> (mode: u32)
    ensures
        mode == mode_of(kind, permissions),
{
    let file_type: u32 = match kind {
        EntryKind::File | EntryKind::Hardlink => 0x8000,
        EntryKind::Dir => 0x4000,
        EntryKind::Symlink => 0xa000,
        EntryKind::Block => 0x6000,
        EntryKind::Char => 0x2000,
        EntryKind::Fifo => 0x1000,
        EntryKind::Socket => 0xc000,
        EntryKind::Other => 0,
    };
    let bits: u32 = match permissions {
        Some(bits) => bits % 0x1000,
        None => if kind == EntryKind::Dir {
            0x1ed
        } else {
            0x1a4
        },
    };
    file_type + bits
}

/// A number in both byte orders, if it fits.
pub open spec fn number_field(value: u64, context: Seq<char>) -> Result<Seq<u8>, ErrorView> {
    if value > u32::MAX {
        Err(iso_fault(ErrorKind::Unsupported, context))
    } else {
        Ok(both_endian32(value as u32))
    }
}

fn push_number(output: &mut Vec<u8>, value: u64, context: &str) -> (result: Result<
    (),
    ArchiveError,
>)
    ensures
        appended(result, old(output)@, final(output)@, number_field(value, context@)),
{
    let number: u32 = u32_value(value, context)?;
    output.extend_from_slice(&both_endian_u32(number));
    proof {
        assert(output@ =~= old(output)@ + both_endian32(number));
    }
    Ok(())
}

// ---------------------------------------------------------------------------
// All fields of a node
// ---------------------------------------------------------------------------

/// What the fields of a node are made from.
pub struct NodeFacts<'a> {
    pub name: &'a [u8],
    pub kind: EntryKind,
    pub metadata: Option<&'a EntryMetadata>,
    pub number: usize,
    /// The node is the root of the tree.
    pub root: bool,
    /// The fields are for the record that a directory has of itself.
    pub dot_record: bool,
}

/// The flags that tell which fields a node has.
pub open spec fn field_flags(
    kind: EntryKind,
    metadata: Option<EntryMetadata>,
    dot_record: bool,
) -> u8 {
    let name = if dot_record {
        0int
    } else {
        8
    };
    let device = if kind == EntryKind::Char || kind == EntryKind::Block {
        2int
    } else {
        0
    };
    let link = if kind == EntryKind::Symlink {
        4int
    } else {
        0
    };
    let times = match metadata {
        Some(metadata) => if metadata.times == (EntryTimes {
            created: None,
            modified: None,
            accessed: None,
            changed: None,
        }) {
            0int
        } else {
            0x80
        },
        None => 0,
    };
    (1 + name + device + link + times) as u8
}

/// A recorded number, or a default.
pub open spec fn recorded(value: Option<u64>, default: int) -> u64 {
    match value {
        Some(value) => value,
        None => default as u64,
    }
}

/// The value of the POSIX attributes field: mode, links, user, group, inode.
pub open spec fn posix_value(
    kind: EntryKind,
    metadata: Option<EntryMetadata>,
    number: usize,
) -> Result<Seq<u8>, ErrorView> {
    let (mode, links, uid, gid, inode) = match metadata {
        Some(metadata) => (
            metadata.mode,
            metadata.links,
            metadata.owner.uid,
            metadata.owner.gid,
            metadata.inode,
        ),
        None => (None, None, None, None, None),
    };
    let links = recorded(
        links,
        if kind == EntryKind::Dir {
            2
        } else {
            1
        },
    );
    joined(
        joined(
            joined(
                joined(
                    Ok(both_endian32(mode_of(kind, mode) as u32)),
                    number_field(links, "Rock Ridge link count exceeds u32"@),
                ),
                number_field(recorded(uid, 0), "Rock Ridge uid exceeds u32"@),
            ),
            number_field(recorded(gid, 0), "Rock Ridge gid exceeds u32"@),
        ),
        number_field(recorded(inode, number + 1), "Rock Ridge inode exceeds u32"@),
    )
}

/// The device number field of a node.
pub open spec fn device_field(metadata: Option<EntryMetadata>) -> Result<Seq<u8>, ErrorView> {
    match metadata {
        Some(metadata) => match metadata.referenced_device {
            Some(device) => match joined(
                number_field(device.major, "Rock Ridge device major exceeds u32"@),
                number_field(device.minor, "Rock Ridge device minor exceeds u32"@),
            ) {
                Ok(value) => field(seq![0x50u8, 0x4eu8], value),
                Err(error) => Err(error),
            },
            None => Ok(Seq::empty()),
        },
        None => Ok(Seq::empty()),
    }
}

/// The symbolic link field of a node.
pub open spec fn link_field(kind: EntryKind, metadata: Option<EntryMetadata>) -> Result<
    Seq<u8>,
    ErrorView,
> {
    if kind != EntryKind::Symlink {
        Ok(Seq::empty())
    } else {
        match metadata {
            Some(EntryMetadata { link_target: Some(target), .. }) => match link_value(target.bytes@) {
                Ok(value) => field(seq![0x53u8, 0x4cu8], value),
                Err(error) => Err(error),
            },
            _ => Err(iso_fault(ErrorKind::Protocol, "ISO symlink target is missing"@)),
        }
    }
}

/// The time stamp field of a node and the fields of its extensions.
pub open spec fn last_fields(metadata: Option<EntryMetadata>) -> Result<Seq<u8>, ErrorView> {
    match metadata {
        Some(metadata) => joined(
            match stamp_field(metadata.times) {
                Some(value) => field(seq![0x54u8, 0x46u8], value),
                None => Ok(Seq::empty()),
            },
            raw_fields(metadata.extensions@, metadata.extensions@.len()),
        ),
        None => Ok(Seq::empty()),
    }
}

/// The POSIX attributes field of a node.
pub open spec fn posix_field(
    kind: EntryKind,
    metadata: Option<EntryMetadata>,
    number: usize,
) -> Result<Seq<u8>, ErrorView> {
    match posix_value(kind, metadata, number) {
        Ok(value) => field(seq![0x50u8, 0x58u8], value),
        Err(error) => Err(error),
    }
}

/// The fields that say which fields there are, and the name.
pub open spec fn first_fields(
    name: Seq<u8>,
    kind: EntryKind,
    metadata: Option<EntryMetadata>,
    root: bool,
    dot_record: bool,
) -> Result<Seq<u8>, ErrorView> {
    let head = if root {
        seq![0x53u8, 0x50u8, 7u8, 1u8, 0xbeu8, 0xefu8, 0u8]
    } else {
        Seq::empty()
    };
    let flags = joined(
        Ok(head),
        field(seq![0x52u8, 0x52u8], seq![field_flags(kind, metadata, dot_record)]),
    );
    if dot_record {
        flags
    } else {
        joined(flags, field(seq![0x4eu8, 0x4du8], seq![0u8] + name))
    }
}

/// The system-use fields of a node.
pub open spec fn system_use(
    name: Seq<u8>,
    kind: EntryKind,
    metadata: Option<EntryMetadata>,
    number: usize,
    root: bool,
    dot_record: bool,
) -> Result<Seq<u8>, ErrorView> {
    joined(
        joined(
            joined(
                joined(
                    first_fields(name, kind, metadata, root, dot_record),
                    posix_field(kind, metadata, number),
                ),
                device_field(metadata),
            ),
            link_field(kind, metadata),
        ),
        last_fields(metadata),
    )
}

/// What is recorded about a node.
pub open spec fn recorded_of(metadata: Option<&EntryMetadata>) -> Option<EntryMetadata> {
    match metadata {
        Some(metadata) => Some(*metadata),
        None => None,
    }
}

fn push_first_fields(fields: &mut Vec<u8>, facts: &NodeFacts<'_>) -> (result: Result<
    (),
    ArchiveError,
>)
    requires
        old(fields)@.len() == 0,
    ensures
        appended(
            result,
            old(fields)@,
            final(fields)@,
            first_fields(
                facts.name@,
                facts.kind,
                recorded_of(facts.metadata),
                facts.root,
                facts.dot_record,
            ),
        ),
{
    if facts.root {
        fields.push(0x53);
        fields.push(0x50);
        fields.push(7);
        fields.push(1);
        fields.push(0xbe);
        fields.push(0xef);
        fields.push(0);
    }
    let ghost head = fields@;
    proof {
        assert(head =~= if facts.root {
            seq![0x53u8, 0x50u8, 7u8, 1u8, 0xbeu8, 0xefu8, 0u8]
        } else {
            Seq::empty()
        });
    }
    let mut flags: u8 = 1;
    if !facts.dot_record {
        flags = flags + 8;
    }
    if facts.kind == EntryKind::Char || facts.kind == EntryKind::Block {
        flags = flags + 2;
    }
    if facts.kind == EntryKind::Symlink {
        flags = flags + 4;
    }
    if let Some(metadata) = facts.metadata {
        if metadata.times != EntryTimes::unknown() {
            flags = flags + 0x80;
        }
    }
    let value: [u8; 1] = [flags];
    let signature: [u8; 2] = [0x52, 0x52];
    proof {
        assert(value@ =~= seq![flags]);
        assert(signature@ =~= seq![0x52u8, 0x52u8]);
    }
    push_susp_field(fields, signature, &value)?;
    let ghost flagged = fields@;
    if !facts.dot_record {
        let mut name: Vec<u8> = Vec::new();
        name.push(0);
        name.extend_from_slice(facts.name);
        let signature: [u8; 2] = [0x4e, 0x4d];
        proof {
            assert(name@ =~= seq![0u8] + facts.name@);
            assert(signature@ =~= seq![0x4eu8, 0x4du8]);
        }
        push_susp_field(fields, signature, name.as_slice())?;
    }
    proof {
        assert(old(fields)@ =~= Seq::<u8>::empty());
        assert(fields@ =~= old(fields)@ + fields@);
    }
    Ok(())
}

fn push_posix_field(fields: &mut Vec<u8>, facts: &NodeFacts<'_>) -> (result: Result<
    (),
    ArchiveError,
>)
    requires
        facts.number < usize::MAX,
    ensures
        appended(
            result,
            old(fields)@,
            final(fields)@,
            posix_field(facts.kind, recorded_of(facts.metadata), facts.number),
        ),
{
    let mut mode: Option<u32> = None;
    let mut links: Option<u64> = None;
    let mut uid: Option<u64> = None;
    let mut gid: Option<u64> = None;
    let mut inode: Option<u64> = None;
    if let Some(metadata) = facts.metadata {
        mode = metadata.mode;
        links = metadata.links;
        uid = metadata.owner.uid;
        gid = metadata.owner.gid;
        inode = metadata.inode;
    }
    let links: u64 = match links {
        Some(links) => links,
        None => if facts.kind == EntryKind::Dir {
            2
        } else {
            1
        },
    };
    let uid: u64 = match uid {
        Some(uid) => uid,
        None => 0,
    };
    let gid: u64 = match gid {
        Some(gid) => gid,
        None => 0,
    };
    let inode: u64 = match inode {
        Some(inode) => inode,
        None => (facts.number + 1) as u64,
    };
    let mut value: Vec<u8> = Vec::new();
    value.extend_from_slice(&both_endian_u32(full_mode(facts.kind, mode)));
    proof {
        assert(value@ =~= both_endian32(mode_of(facts.kind, mode) as u32));
    }
    push_number(&mut value, links, "Rock Ridge link count exceeds u32")?;
    push_number(&mut value, uid, "Rock Ridge uid exceeds u32")?;
    push_number(&mut value, gid, "Rock Ridge gid exceeds u32")?;
    push_number(&mut value, inode, "Rock Ridge inode exceeds u32")?;
    let signature: [u8; 2] = [0x50, 0x58];
    proof {
        assert(signature@ =~= seq![0x50u8, 0x58u8]);
    }
    push_susp_field(fields, signature, value.as_slice())
}

fn push_device_field(fields: &mut Vec<u8>, metadata: Option<&EntryMetadata>) -> (result: Result<
    (),
    ArchiveError,
>)
    ensures
        appended(
            result,
            old(fields)@,
            final(fields)@,
            device_field(recorded_of(metadata)),
        ),
{
    proof {
        assert(old(fields)@ + Seq::<u8>::empty() =~= old(fields)@);
    }
    let device: Device = match metadata {
        Some(metadata) => match metadata.referenced_device {
            Some(device) => device,
            None => {
                return Ok(());
            },
        },
        None => {
            return Ok(());
        },
    };
    let mut value: Vec<u8> = Vec::new();
    let ghost empty = value@;
    push_number(&mut value, device.major, "Rock Ridge device major exceeds u32")?;
    proof {
        assert(value@ =~= both_endian32(device.major as u32));
    }
    push_number(&mut value, device.minor, "Rock Ridge device minor exceeds u32")?;
    let signature: [u8; 2] = [0x50, 0x4e];
    proof {
        assert(signature@ =~= seq![0x50u8, 0x4eu8]);
    }
    push_susp_field(fields, signature, value.as_slice())
}

fn push_link_field(fields: &mut Vec<u8>, facts: &NodeFacts<'_>) -> (result: Result<
    (),
    ArchiveError,
>)
    ensures
        appended(
            result,
            old(fields)@,
            final(fields)@,
            link_field(facts.kind, recorded_of(facts.metadata)),
        ),
{
    proof {
        assert(old(fields)@ + Seq::<u8>::empty() =~= old(fields)@);
    }
    if facts.kind != EntryKind::Symlink {
        return Ok(());
    }
    if let Some(metadata) = facts.metadata {
        if let Some(target) = &metadata.link_target {
            let value = symbolic_link_value(target.bytes.as_slice())?;
            let signature: [u8; 2] = [0x53, 0x4c];
            proof {
                assert(signature@ =~= seq![0x53u8, 0x4cu8]);
            }
            return push_susp_field(fields, signature, value.as_slice());
        }
    }
    Err(iso_error(ErrorKind::Protocol, "ISO symlink target is missing"))
}

fn push_last_fields(fields: &mut Vec<u8>, metadata: Option<&EntryMetadata>) -> (result: Result<
    (),
    ArchiveError,
>)
    ensures
        appended(result, old(fields)@, final(fields)@, last_fields(recorded_of(metadata))),
{
    proof {
        assert(old(fields)@ + Seq::<u8>::empty() =~= old(fields)@);
    }
    let metadata: &EntryMetadata = match metadata {
        Some(metadata) => metadata,
        None => {
            return Ok(());
        },
    };
    if let Some(value) = timestamp_field(metadata.times) {
        let signature: [u8; 2] = [0x54, 0x46];
        proof {
            assert(signature@ =~= seq![0x54u8, 0x46u8]);
        }
        push_susp_field(fields, signature, value.as_slice())?;
    }
    let ghost stamped = fields@;
    append_raw_fields(fields, metadata.extensions.as_slice())?;
    proof {
        assert(fields@ =~= old(fields)@ + last_fields(Some(*metadata))->Ok_0);
    }
    Ok(())
}

/// The system-use fields of a node.
pub fn rock_ridge_system_use(facts: &NodeFacts<'_>) -> (result: Result<Vec<u8>, ArchiveError>)
    requires
        facts.number < usize::MAX,
    ensures
        match result {
            Ok(fields) => system_use(
                facts.name@,
                facts.kind,
                recorded_of(facts.metadata),
                facts.number,
                facts.root,
                facts.dot_record,
            ) == Ok::<_, ErrorView>(fields@),
            Err(error) => system_use(
                facts.name@,
                facts.kind,
                recorded_of(facts.metadata),
                facts.number,
                facts.root,
                facts.dot_record,
            ) == Err::<Seq<u8>, _>(error@),
        },
{
    let mut fields: Vec<u8> = Vec::new();
    push_first_fields(&mut fields, facts)?;
    proof {
        assert(fields@ =~= first_fields(
            facts.name@,
            facts.kind,
            recorded_of(facts.metadata),
            facts.root,
            facts.dot_record,
        )->Ok_0);
    }
    push_posix_field(&mut fields, facts)?;
    push_device_field(&mut fields, facts.metadata)?;
    push_link_field(&mut fields, facts)?;
    push_last_fields(&mut fields, facts.metadata)?;
    Ok(fields)
}

} // verus!
