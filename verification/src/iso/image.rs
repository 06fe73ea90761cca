//! The index of an image: directory extents, path tables and volume
//! descriptors.

use vstd::prelude::*;
use vstd::string::*;
use crate::entry::{EntryKind, EntryMetadata};
use crate::error::{ArchiveError, ErrorView};
use crate::iso::order::{by_name, law_by_name_sorts, sort_by_name};
use crate::iso::record::{
    directory_record, joliet_identifier, joliet_name, primary_identifier, primary_name, record_of,
    RECORDING_TIME,
};
use crate::iso::rock_ridge::{recorded_of, rock_ridge_system_use, system_use, NodeFacts};
use crate::iso::time::{short_stamp, short_timestamp};
use crate::iso::tree::{is_tree, tree, IsoNode, NodeView};
use crate::parts::texts;

verus! {

/// Where a directory lies in the primary and in the Joliet tree.
#[derive(Clone, Copy, Debug, PartialEq, Eq, Structural)]
pub struct Extents {
    pub primary_lba: u32,
    pub primary_size: u32,
    pub joliet_lba: u32,
    pub joliet_size: u32,
}

/// Nothing is known yet.
pub open spec fn unplaced() -> Extents {
    Extents { primary_lba: 0, primary_size: 0, joliet_lba: 0, joliet_size: 0 }
}

impl Extents {
    /// Block and size in one of the trees.
    pub open spec fn spot(self, joliet: bool) -> (u32, u32) {
        if joliet {
            (self.joliet_lba, self.joliet_size)
        } else {
            (self.primary_lba, self.primary_size)
        }
    }

    pub(crate) fn in_tree(&self, joliet: bool) -> (spot: (u32, u32))
        ensures
            spot == self.spot(joliet),
    {
        if joliet {
            (self.joliet_lba, self.joliet_size)
        } else {
            (self.primary_lba, self.primary_size)
        }
    }
}

// ---------------------------------------------------------------------------
// Identifiers and records
// ---------------------------------------------------------------------------

/// The name of a directory in one of the trees.
pub open spec fn directory_identifier(nodes: Seq<NodeView>, index: usize, joliet: bool) -> Seq<u8> {
    if index == 0 {
        seq![0u8]
    } else if joliet {
        joliet_identifier(nodes[index as int].name)
    } else {
        primary_identifier(nodes[index as int].name)
    }
}

/// The name under which a node is listed in its parent.
pub open spec fn child_identifier(node: NodeView, joliet: bool) -> Seq<u8> {
    if joliet {
        joliet_identifier(node.name)
    } else if node.kind == EntryKind::Dir {
        primary_identifier(node.name)
    } else {
        primary_identifier(node.name) + seq![0x3bu8, 0x31u8]
    }
}

/// The recording time of a node.
pub open spec fn recording_stamp(node: NodeView) -> Seq<u8> {
    match node.metadata {
        Some(metadata) => match metadata.times.modified {
            Some(time) => match short_stamp(time) {
                Some(bytes) => bytes,
                None => RECORDING_TIME@,
            },
            None => RECORDING_TIME@,
        },
        None => RECORDING_TIME@,
    }
}

pub(crate) fn name_of_directory(nodes: &[IsoNode], index: usize, joliet: bool) -> (identifier: Vec<u8>)
    requires
        index < nodes@.len(),
    ensures
        identifier@ == directory_identifier(tree(nodes@), index, joliet),
{
    proof {
        assert(tree(nodes@)[index as int] == nodes@[index as int]@);
    }
    if index == 0 {
        let mut identifier: Vec<u8> = Vec::new();
        identifier.push(0);
        proof {
            assert(identifier@ =~= seq![0u8]);
        }
        identifier
    } else if joliet {
        joliet_name(nodes[index].name.as_slice())
    } else {
        primary_name(nodes[index].name.as_slice())
    }
}

pub(crate) fn name_of_child(node: &IsoNode, joliet: bool) -> (identifier: Vec<u8>)
    ensures
        identifier@ == child_identifier(node@, joliet),
{
    if joliet {
        return joliet_name(node.name.as_slice());
    }
    let mut identifier = primary_name(node.name.as_slice());
    if node.kind != EntryKind::Dir {
        identifier.push(0x3b);
        identifier.push(0x31);
    }
    proof {
        assert(identifier@ =~= child_identifier(node@, joliet));
    }
    identifier
}

fn recording_time(node: &IsoNode) -> (stamp: [u8; 7])
    ensures
        stamp@ == recording_stamp(node@),
{
    if let Some(metadata) = &node.metadata {
        if let Some(time) = metadata.times.modified {
            if let Some(stamp) = short_timestamp(time) {
                return stamp;
            }
        }
    }
    RECORDING_TIME
}

/// The system-use fields of a node's record; the Joliet tree has none.
pub open spec fn fields_of(
    nodes: Seq<NodeView>,
    index: usize,
    joliet: bool,
    dot_record: bool,
) -> Result<Seq<u8>, ErrorView> {
    let node = nodes[index as int];
    if joliet {
        Ok(Seq::empty())
    } else {
        system_use(
            node.name,
            node.kind,
            node.metadata,
            index,
            dot_record && index == 0,
            dot_record,
        )
    }
}

/// The record of a node in its parent.
pub open spec fn child_record(
    nodes: Seq<NodeView>,
    extents: Seq<Extents>,
    index: usize,
    joliet: bool,
) -> Result<Seq<u8>, ErrorView> {
    let node = nodes[index as int];
    let directory = node.kind == EntryKind::Dir;
    let (lba, size) = if directory {
        extents[index as int].spot(joliet)
    } else {
        (node.file_lba, node.file_size)
    };
    match fields_of(nodes, index, joliet, false) {
        Ok(fields) => record_of(
            child_identifier(node, joliet),
            lba,
            size,
            directory,
            recording_stamp(node),
            fields,
        ),
        Err(error) => Err(error),
    }
}

/// The record that a directory has of itself.
pub open spec fn own_record(
    nodes: Seq<NodeView>,
    extents: Seq<Extents>,
    index: usize,
    joliet: bool,
) -> Result<Seq<u8>, ErrorView> {
    let (lba, size) = extents[index as int].spot(joliet);
    match fields_of(nodes, index, joliet, true) {
        Ok(fields) => record_of(
            seq![0u8],
            lba,
            size,
            true,
            recording_stamp(nodes[index as int]),
            fields,
        ),
        Err(error) => Err(error),
    }
}

/// The record that a directory has of its parent.
pub open spec fn parent_record(
    nodes: Seq<NodeView>,
    extents: Seq<Extents>,
    index: usize,
    joliet: bool,
) -> Result<Seq<u8>, ErrorView> {
    let parent = nodes[index as int].parent as int;
    let (lba, size) = extents[parent].spot(joliet);
    record_of(seq![1u8], lba, size, true, recording_stamp(nodes[parent]), Seq::empty())
}

/// One record behind others.
pub open spec fn with_record(
    records: Result<Seq<Seq<u8>>, ErrorView>,
    record: Result<Seq<u8>, ErrorView>,
) -> Result<Seq<Seq<u8>>, ErrorView> {
    match records {
        Err(error) => Err(error),
        Ok(list) => match record {
            Err(error) => Err(error),
            Ok(bytes) => Ok(list.push(bytes)),
        },
    }
}

/// The children of a directory, by name.
pub open spec fn sorted_children(nodes: Seq<NodeView>, index: usize) -> Seq<usize> {
    by_name(nodes, nodes[index as int].children)
}

/// The first records of a directory: its own, its parent's and those of its
/// first `count` children.
pub open spec fn first_records(
    nodes: Seq<NodeView>,
    extents: Seq<Extents>,
    index: usize,
    joliet: bool,
    count: nat,
) -> Result<Seq<Seq<u8>>, ErrorView>
    decreases count,
{
    if count == 0 {
        with_record(
            with_record(Ok(Seq::empty()), own_record(nodes, extents, index, joliet)),
            parent_record(nodes, extents, index, joliet),
        )
    } else {
        with_record(
            first_records(nodes, extents, index, joliet, (count - 1) as nat),
            child_record(nodes, extents, sorted_children(nodes, index)[count - 1], joliet),
        )
    }
}

/// All records of a directory.
pub open spec fn directory_records(
    nodes: Seq<NodeView>,
    extents: Seq<Extents>,
    index: usize,
    joliet: bool,
) -> Result<Seq<Seq<u8>>, ErrorView> {
    first_records(nodes, extents, index, joliet, sorted_children(nodes, index).len())
}

/// The parts of an image's index that are known so far fit the tree.
pub open spec fn index_fits(nodes: Seq<NodeView>, extents: Seq<Extents>) -> bool {
    is_tree(nodes) && extents.len() == nodes.len()
}

fn fields_of_node(nodes: &[IsoNode], index: usize, joliet: bool, dot_record: bool) -> (result:
    Result<Vec<u8>, ArchiveError>)
    requires
        index < nodes@.len(),
    ensures
        match result {
            Ok(fields) => fields_of(tree(nodes@), index, joliet, dot_record) == Ok::<_, ErrorView>(
                fields@,
            ),
            Err(error) => fields_of(tree(nodes@), index, joliet, dot_record) == Err::<Seq<u8>, _>(
                error@,
            ),
        },
{
    let count: usize = nodes.len();
    proof {
        assert(tree(nodes@)[index as int] == nodes@[index as int]@);
    }
    if joliet {
        let fields: Vec<u8> = Vec::new();
        proof {
            assert(fields@ =~= Seq::<u8>::empty());
        }
        return Ok(fields);
    }
    let node = &nodes[index];
    let metadata: Option<&EntryMetadata> = match &node.metadata {
        Some(metadata) => Some(metadata),
        None => None,
    };
    let facts = NodeFacts {
        name: node.name.as_slice(),
        kind: node.kind,
        metadata,
        number: index,
        root: dot_record && index == 0,
        dot_record,
    };
    proof {
        assert(recorded_of(facts.metadata) == node.metadata);
    }
    rock_ridge_system_use(&facts)
}

pub(crate) fn record_for_child(nodes: &[IsoNode], extents: &[Extents], index: usize, joliet: bool) -> (result:
    Result<Vec<u8>, ArchiveError>)
    requires
        index < nodes@.len(),
        extents@.len() == nodes@.len(),
    ensures
        match result {
            Ok(record) => child_record(tree(nodes@), extents@, index, joliet) == Ok::<_, ErrorView>(
                record@,
            ),
            Err(error) => child_record(tree(nodes@), extents@, index, joliet) == Err::<Seq<u8>, _>(
                error@,
            ),
        },
{
    proof {
        assert(tree(nodes@)[index as int] == nodes@[index as int]@);
    }
    let node = &nodes[index];
    let identifier = name_of_child(node, joliet);
    let directory = node.kind == EntryKind::Dir;
    let (lba, size) = if directory {
        extents[index].in_tree(joliet)
    } else {
        (node.file_lba, node.file_size)
    };
    let fields = fields_of_node(nodes, index, joliet, false)?;
    directory_record(
        identifier.as_slice(),
        lba,
        size,
        directory,
        recording_time(node),
        fields.as_slice(),
    )
}

proof fn lemma_first_records_fail(
    nodes: Seq<NodeView>,
    extents: Seq<Extents>,
    index: usize,
    joliet: bool,
    low: nat,
    high: nat,
)
    requires
        low <= high,
        first_records(nodes, extents, index, joliet, low) is Err,
    ensures
        first_records(nodes, extents, index, joliet, high) == first_records(
            nodes,
            extents,
            index,
            joliet,
            low,
        ),
    decreases high,
{
    if low < high {
        lemma_first_records_fail(nodes, extents, index, joliet, low, (high - 1) as nat);
    }
}

pub(crate) proof fn lemma_sorted_children(nodes: Seq<NodeView>, index: usize)
    requires
        is_tree(nodes),
        index < nodes.len(),
    ensures
        forall|k: int|
            0 <= k < sorted_children(nodes, index).len() ==> #[trigger] sorted_children(
                nodes,
                index,
            )[k] < nodes.len(),
{
    let list = nodes[index as int].children;
    law_by_name_sorts(nodes, list);
    assert forall|k: int| 0 <= k < sorted_children(nodes, index).len() implies #[trigger]
    sorted_children(nodes, index)[k] < nodes.len() by {
        let found = by_name(nodes, list)[k];
        assert(list.contains(found));
        let m = choose|m: int| 0 <= m < list.len() && list[m] == found;
        assert(nodes[index as int].children[m] == found);
    }
}

pub(crate) fn children_by_name(nodes: &[IsoNode], index: usize) -> (list: Vec<usize>)
    requires
        is_tree(tree(nodes@)),
        index < nodes@.len(),
    ensures
        list@ == sorted_children(tree(nodes@), index),
        forall|k: int| 0 <= k < list@.len() ==> #[trigger] list@[k] < nodes@.len(),
{
    let ghost all = tree(nodes@);
    proof {
        lemma_sorted_children(all, index);
        assert(all[index as int] == nodes@[index as int]@);
        assert forall|i: int| 0 <= i < nodes@[index as int].children@.len() implies (
        #[trigger] nodes@[index as int].children@[i]) < nodes@.len() by {
            assert(all[index as int].children[i] < all.len());
        }
    }
    sort_by_name(nodes, nodes[index].children.as_slice())
}

/// Writes the records of a directory.
pub fn build_directory_records(
    nodes: &[IsoNode],
    extents: &[Extents],
    index: usize,
    joliet: bool,
) -> (result: Result<Vec<Vec<u8>>, ArchiveError>)
    requires
        index_fits(tree(nodes@), extents@),
        index < nodes@.len(),
    ensures
        match result {
            Ok(records) => directory_records(tree(nodes@), extents@, index, joliet) == Ok::<
                _,
                ErrorView,
            >(texts(records@)),
            Err(error) => directory_records(tree(nodes@), extents@, index, joliet) == Err::<
                Seq<Seq<u8>>,
                _,
            >(error@),
        },
{
    let ghost all = tree(nodes@);
    proof {
        assert(all[index as int] == nodes@[index as int]@);
        assert(all[index as int].parent < all.len());
    }
    let children = children_by_name(nodes, index);
    let ghost sorted = sorted_children(all, index);
    let mut records: Vec<Vec<u8>> = Vec::new();
    let fields = match fields_of_node(nodes, index, joliet, true) {
        Ok(fields) => fields,
        Err(error) => {
            proof {
                lemma_first_records_fail(all, extents@, index, joliet, 0, sorted.len());
            }
            return Err(error);
        },
    };
    let dot: [u8; 1] = [0];
    let dots: [u8; 1] = [1];
    let nothing: [u8; 0] = [];
    proof {
        assert(dot@ =~= seq![0u8]);
        assert(dots@ =~= seq![1u8]);
        assert(nothing@ =~= Seq::<u8>::empty());
    }
    let (lba, size) = extents[index].in_tree(joliet);
    match directory_record(
        &dot,
        lba,
        size,
        true,
        recording_time(&nodes[index]),
        fields.as_slice(),
    ) {
        Ok(record) => {
            records.push(record);
        },
        Err(error) => {
            proof {
                lemma_first_records_fail(all, extents@, index, joliet, 0, sorted.len());
            }
            return Err(error);
        },
    }
    let parent: usize = nodes[index].parent;
    proof {
        assert(all[parent as int] == nodes@[parent as int]@);
    }
    let (lba, size) = extents[parent].in_tree(joliet);
    match directory_record(&dots, lba, size, true, recording_time(&nodes[parent]), &nothing) {
        Ok(record) => {
            records.push(record);
        },
        Err(error) => {
            proof {
                lemma_first_records_fail(all, extents@, index, joliet, 0, sorted.len());
            }
            return Err(error);
        },
    }
    proof {
        assert(texts(records@) =~= first_records(all, extents@, index, joliet, 0)->Ok_0);
    }
    let mut k: usize = 0;
    while k < children.len()
        invariant
            all == tree(nodes@),
            all.len() == nodes@.len(),
            extents@.len() == nodes@.len(),
            children@ == sorted,
            sorted == sorted_children(all, index),
            forall|k: int| 0 <= k < children@.len() ==> #[trigger] children@[k] < nodes@.len(),
            k <= children@.len(),
            first_records(all, extents@, index, joliet, k as nat) == Ok::<_, ErrorView>(
                texts(records@),
            ),
        decreases children@.len() - k,
    {
        let ghost held = records@;
        match record_for_child(nodes, extents, children[k], joliet) {
            Ok(record) => {
                records.push(record);
                proof {
                    assert(texts(records@) =~= texts(held).push(record@));
                }
            },
            Err(error) => {
                proof {
                    lemma_first_records_fail(
                        all,
                        extents@,
                        index,
                        joliet,
                        (k + 1) as nat,
                        sorted.len(),
                    );
                }
                return Err(error);
            },
        }
        k += 1;
    }
    Ok(records)
}

} // verus!
