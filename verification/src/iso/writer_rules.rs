//! Laws on what an image takes up, entry by entry.

use vstd::prelude::*;
use vstd::string::*;
use crate::entry::{ArchiveMetadata, EntryKind, EntryMetadata, Extension};
use crate::error::ErrorView;
use crate::iso::order::before;
use crate::iso::record::{joliet_identifier, place, primary_identifier};
use crate::iso::rock_ridge::{field, raw_field, reserved_signature};
use crate::iso::tree::{
    child, implicit, is_dots, is_tree, lemma_named_is_listed, missing_nodes, normalized, reached,
    with_child, with_path, NodeView,
};
use crate::iso::volume::{
    descriptor_bytes, descriptor_head, fitted, identifiers, law_descriptors_take_a_sector,
    volume_name, volume_property, VolumeDescriptor,
};
use crate::iso::writer::{entry_cost, entry_fault, IsoState, PendingView};
use crate::limits::Limits;
use crate::parts::SLASH;
use crate::path::{is_normal, slash_joined};
use crate::path_forms::lemma_normal_components;

verus! {

// ---------------------------------------------------------------------------
// Entries
// ---------------------------------------------------------------------------

/// An image holds an entry exactly if its kind is known and has what it points to: a
/// link its target, a device its numbers; only a file has a size; and nothing is
/// recorded that an image cannot hold.
pub proof fn law_entries_need_what_they_point_to(metadata: EntryMetadata)
    ensures
        entry_fault(metadata) is None <==> {
            &&& metadata.kind != EntryKind::Other
            &&& metadata.kind == EntryKind::Symlink || metadata.kind == EntryKind::Hardlink
                ==> metadata.link_target is Some
            &&& metadata.kind == EntryKind::Char || metadata.kind == EntryKind::Block
                ==> metadata.referenced_device is Some
            &&& metadata.kind != EntryKind::File ==> metadata.size is None || metadata.size
                == Some(0u64)
            &&& !metadata.has_sparse_extents
            &&& !metadata.has_xattrs
            &&& !metadata.has_acl
            &&& !metadata.encrypted
        },
{
}

/// A path of names with slashes between them is kept as these names, if it is within
/// the budgets.
pub proof fn law_plain_paths_are_placed(parts: Seq<Seq<u8>>, limits: Limits)
    requires
        parts.len() > 0,
        forall|i: int| 0 <= i < parts.len() ==> is_normal(#[trigger] parts[i]),
        limits.path_bytes matches Some(maximum) ==> slash_joined(parts).len() <= maximum,
        limits.nesting matches Some(maximum) ==> parts.len() <= maximum,
    ensures
        normalized(slash_joined(parts), limits) == Ok::<Seq<Seq<u8>>, ErrorView>(parts),
{
    lemma_normal_components(parts);
    let path = slash_joined(parts);
    assert(is_normal(parts[0]));
    assert(path[0] != SLASH) by {
        assert(parts[0].contains(parts[0][0]));
    }
    assert(path.take(1)[0] == path[0]);
    assert(seq![SLASH][0] == SLASH);
    assert forall|i: int| 0 <= i < parts.len() implies !is_dots(#[trigger] parts[i]) by {
        assert(is_normal(parts[i]));
    }
}

/// An entry that is started begins at the block of the output, has no bytes yet, and
/// is charged for; nothing is started while another entry is open.
pub proof fn law_entries_begin_at_their_block(
    state: IsoState,
    metadata: EntryMetadata,
    position: u64,
)
    ensures
        state.started(metadata, position).1 is None ==> {
            let next = state.started(metadata, position).0;
            &&& state.pending is None
            &&& next.pending matches Some(pending) && {
                &&& pending.file_lba * 2048 == position
                &&& pending.size == 0
                &&& pending.metadata == metadata
                &&& Ok::<Seq<Seq<u8>>, ErrorView>(pending.components) == normalized(
                    metadata.path.bytes@,
                    state.limits,
                )
            }
            &&& next.metadata_used >= state.metadata_used + entry_cost(metadata)
            &&& next.nodes == state.nodes
            &&& next.decoded_total == state.decoded_total
            &&& state.limits.metadata_bytes matches Some(maximum) ==> next.metadata_used <= maximum
        },
        state.pending is Some ==> state.started(metadata, position).1 is Some,
{
}

/// Payload is let through exactly for an open file, within 32 bits and within the
/// budgets of an entry and of all entries; it is counted in both.
pub proof fn law_payload_is_counted(state: IsoState, pending: PendingView, count: nat)
    requires
        state.pending == Some(pending),
        count > 0,
    ensures
        state.data(count) is Ok <==> {
            &&& pending.metadata.kind == EntryKind::File
            &&& pending.size + count <= u32::MAX
            &&& state.limits.entry_bytes matches Some(maximum) ==> pending.size + count <= maximum
            &&& state.decoded_total + count <= u64::MAX
            &&& state.limits.decoded_total matches Some(maximum) ==> state.decoded_total + count
                <= maximum
        },
        state.data(count) matches Ok(plan) ==> {
            &&& plan.write
            &&& plan.size == pending.size + count
            &&& plan.total == state.decoded_total + count
        },
        state.data(0) matches Ok(plan) && !plan.write && plan.size == pending.size && plan.total
            == state.decoded_total,
{
}

/// An entry ends exactly if it has the size that was declared, if one was, and nothing
/// but a file has bytes.
pub proof fn law_entries_end_at_their_size(state: IsoState, pending: PendingView)
    requires
        state.pending == Some(pending),
    ensures
        state.closing() is Ok <==> {
            &&& pending.metadata.size matches Some(declared) ==> pending.size == declared
            &&& pending.metadata.kind != EntryKind::File ==> pending.size == 0
        },
        state.closing() matches Ok(closed) ==> closed == pending,
{
}

/// A hard link has the bytes of what it points to, which is there already and is no
/// directory; every other entry has its own.
pub proof fn law_hard_links_share_their_bytes(state: IsoState, pending: PendingView)
    ensures
        pending.metadata.kind != EntryKind::Hardlink && pending.size <= u32::MAX ==> state.body(
            pending,
        ) == Ok::<(u32, u32), ErrorView>((pending.file_lba, pending.size as u32)),
        pending.metadata.kind == EntryKind::Hardlink ==> (state.body(pending) matches Ok(spot) ==> {
            let target = pending.metadata.link_target->0;
            let parts = normalized(target.bytes@, state.limits);
            &&& pending.metadata.link_target is Some
            &&& parts is Ok
            &&& reached(state.nodes, 0, parts->Ok_0) matches Some(index) && {
                let node = state.nodes[index as int];
                node.kind != EntryKind::Dir && spot == (node.file_lba, node.file_size)
            }
        }),
{
}

// ---------------------------------------------------------------------------
// Fields and records
// ---------------------------------------------------------------------------

/// A field that is taken over from elsewhere is a whole field: its signature, its own
/// length, its version and its value; fields that the writer makes are not taken over.
pub proof fn law_foreign_fields_are_whole(extension: Extension)
    requires
        extension.namespace@ == "iso-system-use".spec_bytes(),
        extension.key@.len() == 2,
        extension.value@.len() <= 251,
    ensures
        reserved_signature(extension.key@) ==> raw_field(extension) == Ok::<Seq<u8>, ErrorView>(
            Seq::empty(),
        ),
        !reserved_signature(extension.key@) ==> (raw_field(extension) matches Ok(bytes) && {
            &&& bytes.len() >= 4
            &&& bytes[0] == extension.key@[0]
            &&& bytes[1] == extension.key@[1]
            &&& bytes[2] == bytes.len()
            &&& bytes == extension.value@ || bytes.skip(4) == extension.value@ && bytes[3] == 1
        }),
{
    let value = extension.value@;
    let key = extension.key@;
    if value.len() >= 4 {
        assert(value.take(2)[0] == value[0]);
        assert(value.take(2)[1] == value[1]);
    }
    if let Ok(bytes) = field(key, value) {
        assert(bytes.skip(4) =~= value);
    }
}

/// A record goes right behind the one before it, unless it would cross the end of a
/// sector: then it goes to the beginning of the next one.
pub proof fn law_records_move_to_the_next_sector(position: nat, length: nat)
    requires
        length <= 2048,
    ensures
        ({
            let at = place(position, length);
            &&& at == position || at % 2048 == 0 && position < at < position + 2048
            &&& at == position <==> position % 2048 + length <= 2048
            &&& at / 2048 == (at + length - 1) / 2048 || length == 0
        }),
{
}

// ---------------------------------------------------------------------------
// The tree and its order
// ---------------------------------------------------------------------------

/// Names are ordered by the first byte in which they differ; a name stands before every
/// longer one that it begins.
pub proof fn law_names_are_ordered_by_their_bytes(
    common: Seq<u8>,
    first: Seq<u8>,
    second: Seq<u8>,
)
    ensures
        first.len() > 0 && second.len() > 0 && first[0] != second[0] ==> (before(
            common + first,
            common + second,
        ) <==> first[0] < second[0]),
        second.len() > 0 ==> before(common, common + second),
        !before(common, common),
        !before(common + first, common),
    decreases common.len(),
{
    if common.len() == 0 {
        assert(common + first =~= first);
        assert(common + second =~= second);
    } else {
        let rest = common.skip(1);
        law_names_are_ordered_by_their_bytes(rest, first, second);
        assert((common + first).skip(1) =~= rest + first);
        assert((common + second).skip(1) =~= rest + second);
    }
}

proof fn lemma_new_nodes(nodes: Seq<NodeView>, parent: usize, parts: Seq<Seq<u8>>)
    requires
        parent < nodes.len(),
        nodes[parent as int].children.len() == 0,
        nodes.len() + parts.len() <= usize::MAX,
    ensures
        with_path(nodes, parent, parts).0.len() == nodes.len() + parts.len(),
    decreases parts.len(),
{
    if parts.len() > 0 {
        let (next, index) = with_child(nodes, parent, parts[0]);
        assert(child(nodes, parent, parts[0]) is None);
        assert(next.len() == nodes.len() + 1);
        assert(next[index as int] == implicit(parts[0], parent));
        lemma_new_nodes(next, index, parts.skip(1));
    }
}

/// An entry is charged for exactly the nodes that its path adds to the tree.
pub proof fn law_missing_nodes_are_counted(
    nodes: Seq<NodeView>,
    parent: usize,
    parts: Seq<Seq<u8>>,
)
    requires
        is_tree(nodes),
        parent < nodes.len(),
        nodes.len() + parts.len() <= usize::MAX,
    ensures
        missing_nodes(nodes, parent, parts) matches Ok(missing) ==> with_path(
            nodes,
            parent,
            parts,
        ).0.len() == nodes.len() + missing,
    decreases parts.len(),
{
    if parts.len() > 0 {
        match child(nodes, parent, parts[0]) {
            Some(next) => {
                lemma_named_is_listed(nodes, nodes[parent as int].children, parts[0]);
                let list = nodes[parent as int].children;
                let k = choose|k: int| 0 <= k < list.len() && list[k] == next;
                assert(nodes[parent as int].children[k] == next);
                law_missing_nodes_are_counted(nodes, next, parts.skip(1));
            },
            None => {
                let (next, index) = with_child(nodes, parent, parts[0]);
                assert(next[index as int] == implicit(parts[0], parent));
                lemma_new_nodes(next, index, parts.skip(1));
            },
        }
    }
}

/// A path that leads through something that is no directory is refused, and so is one
/// that leads to an entry that is there already; directories that are only implied may
/// be recorded later.
pub proof fn law_taken_paths_are_refused(nodes: Seq<NodeView>, index: usize, name: Seq<u8>)
    requires
        child(nodes, 0, name) == Some(index),
    ensures
        nodes[index as int].metadata is Some <==> missing_nodes(nodes, 0, seq![name]) is Err,
        nodes[index as int].kind != EntryKind::Dir ==> missing_nodes(nodes, 0, seq![name, name])
            is Err,
{
    assert(seq![name].skip(1) =~= Seq::<Seq<u8>>::empty());
    reveal_with_fuel(missing_nodes, 2);
}

// ---------------------------------------------------------------------------
// Volume names
// ---------------------------------------------------------------------------

/// A value in a field of fixed width is cut to it, or filled up to it.
pub proof fn law_values_fit_their_fields(value: Seq<u8>, width: nat, fill: u8, i: int)
    requires
        0 <= i < width,
    ensures
        fitted(value, width, fill).len() == width,
        fitted(value, width, fill)[i] == if i < value.len() {
            value[i]
        } else {
            fill
        },
{
}

/// The names of a volume stand in its descriptors: in a primary one as plain letters at
/// offset 40, filled up with spaces, behind the name of the system; in a Joliet one as
/// UTF-16, filled up with zeros.
#[verifier::rlimit(40)]
#[verifier::spinoff_prover]
pub proof fn law_volumes_have_their_names(layout: VolumeDescriptor, metadata: ArchiveMetadata)
    requires
        descriptor_bytes(layout, metadata) is Ok,
    ensures
        ({
            let bytes = descriptor_bytes(layout, metadata)->Ok_0;
            let name = match metadata.volume_name {
                Some(name) => name@,
                None => "LIBARCHIVE_OXIDE".spec_bytes(),
            };
            &&& !layout.joliet ==> bytes.subrange(40, 72) == fitted(
                primary_identifier(name),
                32,
                0x20,
            )
            &&& !layout.joliet ==> bytes.subrange(8, 40) == fitted(
                volume_property(metadata.extensions@, "system-id".spec_bytes()),
                32,
                0x20,
            )
            &&& layout.joliet ==> bytes.subrange(40, 72) == fitted(
                joliet_identifier(name),
                32,
                0,
            )
        }),
{
    let bytes = descriptor_bytes(layout, metadata)->Ok_0;
    law_descriptors_take_a_sector(layout, metadata);
    let ids = identifiers(layout.joliet, metadata);
    let head = descriptor_head(layout.descriptor_type) + crate::iso::record::zeros(1);
    assert(head.len() == 8);
    lemma_identifiers(layout.joliet, metadata);
    lemma_ids_stand(layout, metadata);
    assert(bytes.subrange(8, 40) =~= bytes.subrange(8, 72).subrange(0, 32));
    assert(bytes.subrange(40, 72) =~= bytes.subrange(8, 72).subrange(32, 64));
}

proof fn lemma_identifiers(joliet: bool, metadata: ArchiveMetadata)
    ensures
        ({
            let ids = identifiers(joliet, metadata);
            &&& ids.len() == 64
            &&& !joliet ==> ids.subrange(0, 32) == fitted(
                volume_property(metadata.extensions@, "system-id".spec_bytes()),
                32,
                0x20,
            ) && ids.subrange(32, 64) == fitted(primary_identifier(volume_name(metadata)), 32, 0x20)
            &&& joliet ==> ids.subrange(32, 64) == fitted(
                joliet_identifier(volume_name(metadata)),
                32,
                0,
            )
        }),
{
    let ids = identifiers(joliet, metadata);
    if joliet {
        assert(ids.subrange(32, 64) =~= fitted(joliet_identifier(volume_name(metadata)), 32, 0));
    } else {
        assert(ids.subrange(0, 32) =~= fitted(
            volume_property(metadata.extensions@, "system-id".spec_bytes()),
            32,
            0x20,
        ));
        assert(ids.subrange(32, 64) =~= fitted(
            primary_identifier(volume_name(metadata)),
            32,
            0x20,
        ));
    }
}

proof fn lemma_ids_stand(layout: VolumeDescriptor, metadata: ArchiveMetadata)
    requires
        descriptor_bytes(layout, metadata) is Ok,
    ensures
        descriptor_bytes(layout, metadata)->Ok_0.len() >= 72,
        descriptor_bytes(layout, metadata)->Ok_0.subrange(8, 72) == identifiers(
            layout.joliet,
            metadata,
        ),
{
    let bytes = descriptor_bytes(layout, metadata)->Ok_0;
    lemma_identifiers(layout.joliet, metadata);
    law_descriptors_take_a_sector(layout, metadata);
    let ids = identifiers(layout.joliet, metadata);
    let head = descriptor_head(layout.descriptor_type) + crate::iso::record::zeros(1);
    assert(head.len() == 8);
    assert forall|i: int| 8 <= i < 72 implies #[trigger] bytes[i] == ids[i - 8] by {
        assert(bytes.take(72)[i] == bytes[i]);
    }
    assert(bytes.subrange(8, 72) =~= ids);
}

} // verus!
