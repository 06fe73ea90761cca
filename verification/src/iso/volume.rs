//! Volume descriptors.

use vstd::prelude::*;
use vstd::string::*;
use crate::bytes::same_bytes;
use crate::entry::{ArchiveMetadata, Extension};
use crate::error::{ArchiveError, ErrorKind, ErrorView};
use crate::iso::record::{
    both_endian16, both_endian32, both_endian_u16, both_endian_u32, directory_record, iso_error,
    iso_fault, joliet_identifier, joliet_name, law_both_endian_reads_back, little32, big32,
    primary_identifier, primary_name, push_u32, record_of, zeros, RECORDING_TIME, SECTOR,
};

verus! {

/// What a volume descriptor says about an image.
#[derive(Clone, Copy, Debug, PartialEq, Eq, Structural)]
pub struct VolumeDescriptor {
    pub descriptor_type: u8,
    pub joliet: bool,
    pub root_lba: u32,
    pub root_size: u32,
    pub path_table_size: usize,
    pub little_path_lba: u32,
    pub big_path_lba: u32,
    pub total_sectors: u32,
}

/// The same byte many times.
pub open spec fn repeated(byte: u8, count: nat) -> Seq<u8> {
    Seq::new(count, |i: int| byte)
}

/// A value cut or filled up to `width` bytes.
pub open spec fn fitted(value: Seq<u8>, width: nat, fill: u8) -> Seq<u8> {
    if value.len() >= width {
        value.take(width as int)
    } else {
        value + repeated(fill, (width - value.len()) as nat)
    }
}

/// The value of the first volume property with a key; empty if there is none.
pub open spec fn volume_property(extensions: Seq<Extension>, key: Seq<u8>) -> Seq<u8>
    decreases extensions.len(),
{
    if extensions.len() == 0 {
        Seq::empty()
    } else if extensions[0].namespace@ == "iso9660-volume".spec_bytes() && extensions[0].key@
        == key {
        extensions[0].value@
    } else {
        volume_property(extensions.skip(1), key)
    }
}

/// The name of a volume.
pub open spec fn volume_name(metadata: ArchiveMetadata) -> Seq<u8> {
    match metadata.volume_name {
        Some(name) => name@,
        None => "LIBARCHIVE_OXIDE".spec_bytes(),
    }
}

/// The standard identifier and version behind the type of a descriptor.
pub open spec fn descriptor_head(descriptor_type: u8) -> Seq<u8> {
    seq![descriptor_type, 0x43u8, 0x44u8, 0x30u8, 0x30u8, 0x31u8, 1u8]
}

/// System and volume identifiers.
pub open spec fn identifiers(joliet: bool, metadata: ArchiveMetadata) -> Seq<u8> {
    if joliet {
        zeros(32) + fitted(joliet_identifier(volume_name(metadata)), 32, 0)
    } else {
        fitted(volume_property(metadata.extensions@, "system-id".spec_bytes()), 32, 0x20) + fitted(
            primary_identifier(volume_name(metadata)),
            32,
            0x20,
        )
    }
}

/// The escape sequence that marks a Joliet tree.
pub open spec fn escapes(joliet: bool) -> Seq<u8> {
    if joliet {
        fitted(seq![0x25u8, 0x2fu8, 0x45u8], 32, 0)
    } else {
        zeros(32)
    }
}

/// A volume descriptor.
pub open spec fn descriptor_bytes(layout: VolumeDescriptor, metadata: ArchiveMetadata) -> Result<
    Seq<u8>,
    ErrorView,
> {
    let filler = if layout.joliet {
        0u8
    } else {
        0x20u8
    };
    if layout.path_table_size > u32::MAX {
        Err(iso_fault(ErrorKind::Limit, "ISO path table exceeds u32"@))
    } else {
        match record_of(
            seq![0u8],
            layout.root_lba,
            layout.root_size,
            true,
            RECORDING_TIME@,
            Seq::empty(),
        ) {
            Err(error) => Err(error),
            Ok(root) => Ok(
                descriptor_head(layout.descriptor_type) + zeros(1) + identifiers(
                    layout.joliet,
                    metadata,
                ) + zeros(8) + both_endian32(layout.total_sectors) + escapes(layout.joliet)
                    + both_endian16(1) + both_endian16(1) + both_endian16(2048) + both_endian32(
                    layout.path_table_size as u32,
                ) + little32(layout.little_path_lba) + zeros(4) + big32(layout.big_path_lba)
                    + zeros(4) + root + repeated(filler, 623) + zeros(68) + seq![1u8] + zeros(1166),
            ),
        }
    }
}

/// The terminator of the volume descriptors.
pub open spec fn terminator_bytes() -> Seq<u8> {
    descriptor_head(255) + zeros(2041)
}

/// Every volume descriptor takes one sector.
pub proof fn law_descriptors_take_a_sector(layout: VolumeDescriptor, metadata: ArchiveMetadata)
    ensures
        descriptor_bytes(layout, metadata) matches Ok(bytes) ==> bytes.len() == SECTOR,
        descriptor_bytes(layout, metadata) is Ok <==> layout.path_table_size <= u32::MAX,
        terminator_bytes().len() == SECTOR,
{
    law_both_endian_reads_back(layout.total_sectors, 1);
    law_both_endian_reads_back(layout.path_table_size as u32, 2048);
    law_both_endian_reads_back(layout.root_lba, 1);
    law_both_endian_reads_back(layout.root_size, 1);
    assert(identifiers(layout.joliet, metadata).len() == 64);
    assert(escapes(layout.joliet).len() == 32);
}

fn push_repeated(output: &mut Vec<u8>, byte: u8, count: usize)
    ensures
        final(output)@ == old(output)@ + repeated(byte, count as nat),
{
    let mut i: usize = 0;
    while i < count
        invariant
            i <= count,
            output@ =~= old(output)@ + repeated(byte, i as nat),
        decreases count - i,
    {
        output.push(byte);
        i += 1;
    }
}

fn push_fitted(output: &mut Vec<u8>, value: &[u8], width: usize, fill: u8)
    ensures
        final(output)@ == old(output)@ + fitted(value@, width as nat, fill),
{
    if value.len() >= width {
        output.extend_from_slice(&value[0..width]);
        proof {
            assert(value@.subrange(0, width as int) =~= value@.take(width as int));
        }
    } else {
        output.extend_from_slice(value);
        push_repeated(output, fill, width - value.len());
    }
    proof {
        assert(output@ =~= old(output)@ + fitted(value@, width as nat, fill));
    }
}

fn find_property<'a>(extensions: &'a [Extension], key: &[u8]) -> (value: Option<&'a [u8]>)
    ensures
        match value {
            Some(value) => volume_property(extensions@, key@) == value@,
            None => volume_property(extensions@, key@).len() == 0,
        },
{
    let mut i: usize = 0;
    proof {
        assert(extensions@.skip(0) =~= extensions@);
    }
    while i < extensions.len()
        invariant
            i <= extensions@.len(),
            volume_property(extensions@, key@) == volume_property(
                extensions@.skip(i as int),
                key@,
            ),
        decreases extensions@.len() - i,
    {
        proof {
            assert(extensions@.skip(i as int).skip(1) =~= extensions@.skip(i + 1));
        }
        if same_bytes(extensions[i].namespace.as_slice(), "iso9660-volume".as_bytes())
            && same_bytes(extensions[i].key.as_slice(), key) {
            return Some(extensions[i].value.as_slice());
        }
        i += 1;
    }
    None
}

fn push_identifiers(output: &mut Vec<u8>, joliet: bool, metadata: &ArchiveMetadata)
    ensures
        final(output)@ == old(output)@ + identifiers(joliet, *metadata),
{
    let name: &[u8] = match &metadata.volume_name {
        Some(name) => name.as_slice(),
        None => "LIBARCHIVE_OXIDE".as_bytes(),
    };
    if joliet {
        push_repeated(output, 0, 32);
        push_fitted(output, joliet_name(name).as_slice(), 32, 0);
        proof {
            assert(repeated(0, 32) =~= zeros(32));
        }
    } else {
        let system: Option<&[u8]> = find_property(
            metadata.extensions.as_slice(),
            "system-id".as_bytes(),
        );
        match system {
            Some(value) => push_fitted(output, value, 32, 0x20),
            None => {
                push_repeated(output, 0x20, 32);
                proof {
                    let none = volume_property(metadata.extensions@, "system-id".spec_bytes());
                    assert(fitted(none, 32, 0x20) =~= repeated(0x20, 32));
                }
            },
        }
        push_fitted(output, primary_name(name).as_slice(), 32, 0x20);
    }
    proof {
        assert(output@ =~= old(output)@ + identifiers(joliet, *metadata));
    }
}

fn push_head(output: &mut Vec<u8>, descriptor_type: u8)
    ensures
        final(output)@ == old(output)@ + descriptor_head(descriptor_type),
{
    output.push(descriptor_type);
    output.push(0x43);
    output.push(0x44);
    output.push(0x30);
    output.push(0x30);
    output.push(0x31);
    output.push(1);
    proof {
        assert(output@ =~= old(output)@ + descriptor_head(descriptor_type));
    }
}

fn push_zero_bytes(output: &mut Vec<u8>, count: usize)
    ensures
        final(output)@ == old(output)@ + zeros(count as nat),
{
    push_repeated(output, 0, count);
    proof {
        assert(repeated(0, count as nat) =~= zeros(count as nat));
    }
}

fn push_sizes(output: &mut Vec<u8>, layout: VolumeDescriptor, path_size: u32)
    ensures
        final(output)@ == old(output)@ + both_endian32(layout.total_sectors) + escapes(
            layout.joliet,
        ) + both_endian16(1) + both_endian16(1) + both_endian16(2048) + both_endian32(path_size)
            + little32(layout.little_path_lba) + zeros(4) + big32(layout.big_path_lba) + zeros(4),
{
    output.extend_from_slice(&both_endian_u32(layout.total_sectors));
    if layout.joliet {
        let marks: [u8; 3] = [0x25, 0x2f, 0x45];
        proof {
            assert(marks@ =~= seq![0x25u8, 0x2fu8, 0x45u8]);
        }
        push_fitted(output, &marks, 32, 0);
    } else {
        push_zero_bytes(output, 32);
    }
    output.extend_from_slice(&both_endian_u16(1));
    output.extend_from_slice(&both_endian_u16(1));
    output.extend_from_slice(&both_endian_u16(2048));
    output.extend_from_slice(&both_endian_u32(path_size));
    push_u32(output, layout.little_path_lba, false);
    push_zero_bytes(output, 4);
    push_u32(output, layout.big_path_lba, true);
    push_zero_bytes(output, 4);
    proof {
        assert(output@ =~= old(output)@ + both_endian32(layout.total_sectors) + escapes(
            layout.joliet,
        ) + both_endian16(1) + both_endian16(1) + both_endian16(2048) + both_endian32(path_size)
            + little32(layout.little_path_lba) + zeros(4) + big32(layout.big_path_lba) + zeros(4));
    }
}

/// Writes a volume descriptor.
pub fn volume_descriptor(layout: VolumeDescriptor, metadata: &ArchiveMetadata) -> (result: Result<
    Vec<u8>,
    ArchiveError,
>)
    ensures
        match result {
            Ok(bytes) => descriptor_bytes(layout, *metadata) == Ok::<_, ErrorView>(bytes@),
            Err(error) => descriptor_bytes(layout, *metadata) == Err::<Seq<u8>, _>(error@),
        },
{
    if layout.path_table_size as u64 > u32::MAX as u64 {
        return Err(iso_error(ErrorKind::Limit, "ISO path table exceeds u32"));
    }
    let dot: [u8; 1] = [0];
    let nothing: [u8; 0] = [];
    proof {
        assert(dot@ =~= seq![0u8]);
        assert(nothing@ =~= Seq::<u8>::empty());
    }
    let root = directory_record(
        &dot,
        layout.root_lba,
        layout.root_size,
        true,
        RECORDING_TIME,
        &nothing,
    )?;
    let mut descriptor: Vec<u8> = Vec::new();
    push_head(&mut descriptor, layout.descriptor_type);
    push_zero_bytes(&mut descriptor, 1);
    push_identifiers(&mut descriptor, layout.joliet, metadata);
    push_zero_bytes(&mut descriptor, 8);
    push_sizes(&mut descriptor, layout, layout.path_table_size as u32);
    descriptor.extend_from_slice(root.as_slice());
    push_repeated(
        &mut descriptor,
        if layout.joliet {
            0
        } else {
            0x20
        },
        623,
    );
    push_zero_bytes(&mut descriptor, 68);
    descriptor.push(1);
    push_zero_bytes(&mut descriptor, 1166);
    proof {
        assert(descriptor@ =~= descriptor_bytes(layout, *metadata)->Ok_0);
    }
    Ok(descriptor)
}

/// Writes the terminator of the volume descriptors.
pub fn descriptor_terminator() -> (bytes: Vec<u8>)
    ensures
        bytes@ == terminator_bytes(),
{
    let mut bytes: Vec<u8> = Vec::new();
    push_head(&mut bytes, 255);
    push_zero_bytes(&mut bytes, 2041);
    proof {
        assert(bytes@ =~= terminator_bytes());
    }
    bytes
}

} // verus!
