//! Where the path tables and directories of an image go.

use vstd::prelude::*;
use crate::entry::EntryKind;
use crate::error::{ArchiveError, ErrorKind, ErrorView};
use crate::iso::finish::{
    build_path_table, law_path_table_length, names_fit, names_fault, path_table, path_table_size,
    size_directories, sized, table_size, validate_identifiers, with_sizes,
};
use crate::iso::finish::{lemma_checked_names, lemma_table_size_bound};
use crate::iso::image::{
    build_directory_records, child_identifier, child_record, directory_records, fields_of,
    first_records, index_fits, own_record, parent_record, recording_stamp, sorted_children,
    unplaced, with_record, Extents,
};
use crate::iso::order::{lists_nodes, Listed, MOST_DIRECTORIES};
use crate::iso::record::{
    advance_lba, advanced, extent, extent_length, iso_error, iso_fault, law_extent_fills_sectors,
    law_both_endian_reads_back, layout_records, lengths, record_of, sectors, zeros, SECTOR,
};
use crate::iso::tree::{is_tree, tree, IsoNode, NodeView};
use crate::layout::stands_at;

verus! {

// ---------------------------------------------------------------------------
// Lengths do not depend on places
// ---------------------------------------------------------------------------

/// Two records can be written alike, and are equally long.
spec fn alike(left: Result<Seq<u8>, ErrorView>, right: Result<Seq<u8>, ErrorView>) -> bool {
    match left {
        Ok(record) => right matches Ok(other) && other.len() == record.len(),
        Err(_) => right is Err,
    }
}

spec fn lists_alike(
    left: Result<Seq<Seq<u8>>, ErrorView>,
    right: Result<Seq<Seq<u8>>, ErrorView>,
) -> bool {
    match left {
        Ok(records) => right matches Ok(others) && lengths(others) == lengths(records),
        Err(_) => right is Err,
    }
}

proof fn lemma_record_alike(
    identifier: Seq<u8>,
    left: (u32, u32),
    right: (u32, u32),
    directory: bool,
    stamp: Seq<u8>,
    fields: Seq<u8>,
)
    ensures
        alike(
            record_of(identifier, left.0, left.1, directory, stamp, fields),
            record_of(identifier, right.0, right.1, directory, stamp, fields),
        ),
{
    law_both_endian_reads_back(left.0, 1);
    law_both_endian_reads_back(left.1, 1);
    law_both_endian_reads_back(right.0, 1);
    law_both_endian_reads_back(right.1, 1);
}

proof fn lemma_with_record_alike(
    left: Result<Seq<Seq<u8>>, ErrorView>,
    right: Result<Seq<Seq<u8>>, ErrorView>,
    record: Result<Seq<u8>, ErrorView>,
    other: Result<Seq<u8>, ErrorView>,
)
    requires
        lists_alike(left, right),
        alike(record, other),
    ensures
        lists_alike(with_record(left, record), with_record(right, other)),
{
    if left is Ok && record is Ok {
        let l = left->Ok_0.push(record->Ok_0);
        let r = right->Ok_0.push(other->Ok_0);
        assert(lengths(left->Ok_0).len() == lengths(right->Ok_0).len());
        assert forall|i: int| 0 <= i < l.len() implies lengths(l)[i] == lengths(r)[i] by {
            if i < left->Ok_0.len() {
                assert(lengths(left->Ok_0)[i] == lengths(right->Ok_0)[i]);
            }
        }
        assert(lengths(l) =~= lengths(r));
    }
}

proof fn lemma_same_lengths(
    nodes: Seq<NodeView>,
    left: Seq<Extents>,
    right: Seq<Extents>,
    index: usize,
    joliet: bool,
    count: nat,
)
    ensures
        lists_alike(
            first_records(nodes, left, index, joliet, count),
            first_records(nodes, right, index, joliet, count),
        ),
    decreases count,
{
    if count == 0 {
        if let Ok(fields) = fields_of(nodes, index, joliet, true) {
            lemma_record_alike(
                seq![0u8],
                left[index as int].spot(joliet),
                right[index as int].spot(joliet),
                true,
                recording_stamp(nodes[index as int]),
                fields,
            );
        }
        let parent = nodes[index as int].parent as int;
        lemma_record_alike(
            seq![1u8],
            left[parent].spot(joliet),
            right[parent].spot(joliet),
            true,
            recording_stamp(nodes[parent]),
            Seq::empty(),
        );
        let none = Ok::<Seq<Seq<u8>>, ErrorView>(Seq::empty());
        lemma_with_record_alike(
            none,
            none,
            own_record(nodes, left, index, joliet),
            own_record(nodes, right, index, joliet),
        );
        lemma_with_record_alike(
            with_record(none, own_record(nodes, left, index, joliet)),
            with_record(none, own_record(nodes, right, index, joliet)),
            parent_record(nodes, left, index, joliet),
            parent_record(nodes, right, index, joliet),
        );
    } else {
        lemma_same_lengths(nodes, left, right, index, joliet, (count - 1) as nat);
        let child = sorted_children(nodes, index)[count - 1];
        lemma_child_alike(nodes, left, right, child, joliet);
        lemma_with_record_alike(
            first_records(nodes, left, index, joliet, (count - 1) as nat),
            first_records(nodes, right, index, joliet, (count - 1) as nat),
            child_record(nodes, left, child, joliet),
            child_record(nodes, right, child, joliet),
        );
    }
}

proof fn lemma_child_alike(
    nodes: Seq<NodeView>,
    left: Seq<Extents>,
    right: Seq<Extents>,
    child: usize,
    joliet: bool,
)
    ensures
        alike(child_record(nodes, left, child, joliet), child_record(nodes, right, child, joliet)),
{
    let node = nodes[child as int];
    let directory = node.kind == EntryKind::Dir;
    if let Ok(fields) = fields_of(nodes, child, joliet, false) {
        let l = if directory {
            left[child as int].spot(joliet)
        } else {
            (node.file_lba, node.file_size)
        };
        let r = if directory {
            right[child as int].spot(joliet)
        } else {
            (node.file_lba, node.file_size)
        };
        lemma_record_alike(
            child_identifier(node, joliet),
            l,
            r,
            directory,
            recording_stamp(node),
            fields,
        );
    }
}

/// The records of a directory can be written, and its size is known.
#[verifier::opaque]
pub open spec fn directory_ready(
    nodes: Seq<NodeView>,
    extents: Seq<Extents>,
    index: usize,
    joliet: bool,
) -> bool {
    directory_records(nodes, extents, index, joliet) matches Ok(records) && extent_length(
        lengths(records),
    ) == extents[index as int].spot(joliet).1
}

/// All listed directories are ready.
pub open spec fn ready(
    nodes: Seq<NodeView>,
    extents: Seq<Extents>,
    order: Seq<Listed>,
    count: nat,
) -> bool {
    forall|i: int, joliet: bool|
        #![trigger directory_ready(nodes, extents, order[i].node, joliet)]
        0 <= i < count ==> directory_ready(nodes, extents, order[i].node, joliet)
}

/// Two states of the index agree on sizes.
pub open spec fn same_sizes(left: Seq<Extents>, right: Seq<Extents>) -> bool {
    &&& left.len() == right.len()
    &&& forall|i: int|
        0 <= i < left.len() ==> (#[trigger] left[i]).primary_size == right[i].primary_size
            && left[i].joliet_size == right[i].joliet_size
}

proof fn lemma_ready_moves(
    nodes: Seq<NodeView>,
    left: Seq<Extents>,
    right: Seq<Extents>,
    order: Seq<Listed>,
    count: nat,
)
    requires
        ready(nodes, left, order, count),
        same_sizes(left, right),
        count <= order.len(),
        forall|i: int| 0 <= i < order.len() ==> (#[trigger] order[i]).node < left.len(),
    ensures
        ready(nodes, right, order, count),
{
    assert forall|i: int, joliet: bool|
        #![trigger directory_ready(nodes, right, order[i].node, joliet)]
        0 <= i < count implies directory_ready(nodes, right, order[i].node, joliet) by {
        let index = order[i].node;
        assert(directory_ready(nodes, left, order[i].node, joliet));
        assert(left[index as int].primary_size == right[index as int].primary_size);
        lemma_directory_stays_ready(nodes, left, right, index, joliet);
    }
}

proof fn lemma_directory_stays_ready(
    nodes: Seq<NodeView>,
    left: Seq<Extents>,
    right: Seq<Extents>,
    index: usize,
    joliet: bool,
)
    requires
        directory_ready(nodes, left, index, joliet),
        left[index as int].spot(joliet).1 == right[index as int].spot(joliet).1,
    ensures
        directory_ready(nodes, right, index, joliet),
{
    reveal(directory_ready);
    lemma_same_lengths(nodes, left, right, index, joliet, sorted_children(nodes, index).len());
}

proof fn lemma_sized_directory_is_ready(
    nodes: Seq<NodeView>,
    held: Seq<Extents>,
    now: Seq<Extents>,
    index: usize,
    joliet: bool,
)
    requires
        with_sizes(nodes, held, index) == Ok::<_, ErrorView>(now),
        index < held.len(),
    ensures
        directory_ready(nodes, now, index, joliet),
        now.len() == held.len(),
        forall|i: int| 0 <= i < held.len() && i != index ==> #[trigger] now[i] == held[i],
{
    reveal(directory_ready);
    reveal(with_sizes);
    lemma_same_lengths(nodes, held, now, index, joliet, sorted_children(nodes, index).len());
}

proof fn lemma_sized_is_ready(
    nodes: Seq<NodeView>,
    extents: Seq<Extents>,
    order: Seq<Listed>,
    count: nat,
)
    requires
        sized(nodes, extents, order, count) is Ok,
        extents.len() == nodes.len(),
        lists_nodes(nodes.len(), order),
        count <= order.len(),
    ensures
        ready(nodes, sized(nodes, extents, order, count)->Ok_0, order, count),
        sized(nodes, extents, order, count)->Ok_0.len() == nodes.len(),
    decreases count,
{
    if count > 0 {
        lemma_sized_is_ready(nodes, extents, order, (count - 1) as nat);
        let held = sized(nodes, extents, order, (count - 1) as nat)->Ok_0;
        let now = sized(nodes, extents, order, count)->Ok_0;
        let last = order[count - 1].node;
        lemma_sized_directory_is_ready(nodes, held, now, last, false);
        assert forall|i: int, joliet: bool|
            #![trigger directory_ready(nodes, now, order[i].node, joliet)]
            0 <= i < count implies directory_ready(nodes, now, order[i].node, joliet) by {
            let index = order[i].node;
            lemma_sized_directory_is_ready(nodes, held, now, last, joliet);
            if index != last {
                assert(directory_ready(nodes, held, order[i].node, joliet));
                lemma_directory_stays_ready(nodes, held, now, index, joliet);
            }
        }
    }
}

// ---------------------------------------------------------------------------
// Places
// ---------------------------------------------------------------------------

/// The index with the first `count` directories placed in one of the trees,
/// one behind the other from block `lba` on, and the block behind them.
pub open spec fn placed(
    extents: Seq<Extents>,
    order: Seq<Listed>,
    lba: u32,
    joliet: bool,
    count: nat,
) -> Result<(Seq<Extents>, u32), ErrorView>
    decreases count,
{
    if count == 0 {
        Ok((extents, lba))
    } else {
        match placed(extents, order, lba, joliet, (count - 1) as nat) {
            Err(error) => Err(error),
            Ok((held, at)) => {
                let index = order[count - 1].node as int;
                match advanced(at, held[index].spot(joliet).1 as nat) {
                    Err(error) => Err(error),
                    Ok(next) => Ok(
                        (
                            held.update(
                                index,
                                if joliet {
                                    Extents { joliet_lba: at, ..held[index] }
                                } else {
                                    Extents { primary_lba: at, ..held[index] }
                                },
                            ),
                            next,
                        ),
                    ),
                }
            },
        }
    }
}

proof fn lemma_placed_fails(
    extents: Seq<Extents>,
    order: Seq<Listed>,
    lba: u32,
    joliet: bool,
    low: nat,
    high: nat,
)
    requires
        low <= high,
        placed(extents, order, lba, joliet, low) is Err,
    ensures
        placed(extents, order, lba, joliet, high) == placed(extents, order, lba, joliet, low),
    decreases high,
{
    if low < high {
        lemma_placed_fails(extents, order, lba, joliet, low, (high - 1) as nat);
    }
}

proof fn lemma_placed_keeps_sizes(
    extents: Seq<Extents>,
    order: Seq<Listed>,
    lba: u32,
    joliet: bool,
    count: nat,
)
    requires
        lists_nodes(extents.len(), order),
        count <= order.len(),
    ensures
        placed(extents, order, lba, joliet, count) matches Ok((held, _)) ==> same_sizes(
            extents,
            held,
        ),
    decreases count,
{
    if count > 0 {
        lemma_placed_keeps_sizes(extents, order, lba, joliet, (count - 1) as nat);
    }
}

fn place_directories(extents: &mut Vec<Extents>, order: &[Listed], lba: u32, joliet: bool) -> (
    result: Result<u32, ArchiveError>)
    requires
        lists_nodes(old(extents)@.len(), order@),
    ensures
        match result {
            Ok(next) => placed(old(extents)@, order@, lba, joliet, order@.len()) == Ok::<
                _,
                ErrorView,
            >((final(extents)@, next)),
            Err(error) => placed(old(extents)@, order@, lba, joliet, order@.len()) == Err::<
                (Seq<Extents>, u32),
                _,
            >(error@),
        },
        final(extents)@.len() == old(extents)@.len(),
{
    let ghost start = extents@;
    let mut at: u32 = lba;
    let mut k: usize = 0;
    while k < order.len()
        invariant
            start == old(extents)@,
            extents@.len() == start.len(),
            lists_nodes(start.len(), order@),
            k <= order@.len(),
            placed(start, order@, lba, joliet, k as nat) == Ok::<_, ErrorView>((extents@, at)),
        decreases order@.len() - k,
    {
        let index: usize = order[k].node;
        proof {
            assert(order@[k as int].node < start.len());
            if placed(start, order@, lba, joliet, (k + 1) as nat) is Err {
                lemma_placed_fails(start, order@, lba, joliet, (k + 1) as nat, order@.len());
            }
        }
        let held = extents[index];
        let next: u32 = advance_lba(at, held.in_tree(joliet).1 as usize)?;
        if joliet {
            extents.set(index, Extents { joliet_lba: at, ..held });
        } else {
            extents.set(index, Extents { primary_lba: at, ..held });
        }
        at = next;
        k += 1;
    }
    Ok(at)
}

/// The bytes of the extents of the first `count` directories.
pub open spec fn extents_total(extents: Seq<Extents>, order: Seq<Listed>, count: nat) -> nat
    decreases count,
{
    if count == 0 {
        0
    } else {
        let spot = extents[order[count - 1].node as int];
        extents_total(extents, order, (count - 1) as nat) + spot.primary_size as nat
            + spot.joliet_size as nat
    }
}

/// The fault of an index that takes too much memory.
pub open spec fn index_fault(total: nat, limit: Option<usize>) -> Option<ErrorView> {
    if total > usize::MAX {
        Some(iso_fault(ErrorKind::Limit, "ISO final metadata size overflow"@))
    } else if limit matches Some(maximum) && total > maximum {
        Some(iso_fault(ErrorKind::Limit, "ISO final index exceeds metadata limit"@))
    } else {
        None
    }
}

/// Checks the memory that the index takes.
pub fn check_final_metadata_size(
    extents: &[Extents],
    order: &[Listed],
    primary_path_size: usize,
    joliet_path_size: usize,
    limit: Option<usize>,
) -> (result: Result<(), ArchiveError>)
    requires
        lists_nodes(extents@.len(), order@),
        primary_path_size <= 264 * order@.len(),
        joliet_path_size <= 264 * order@.len(),
    ensures
        crate::error::error_of(result) == index_fault(
            2 * primary_path_size as nat + 2 * joliet_path_size as nat + extents_total(
                extents@,
                order@,
                order@.len(),
            ),
            limit,
        ),
{
    let mut total: u64 = 2 * (primary_path_size as u64) + 2 * (joliet_path_size as u64);
    let ghost base = total as nat;
    let mut k: usize = 0;
    while k < order.len()
        invariant
            lists_nodes(extents@.len(), order@),
            k <= order@.len(),
            base <= 4 * 264 * MOST_DIRECTORIES,
            total == base + extents_total(extents@, order@, k as nat),
            total <= base + k * 0x2_0000_0000,
        decreases order@.len() - k,
    {
        proof {
            assert(order@[k as int].node < extents@.len());
        }
        let spot = extents[order[k].node];
        total = total + (spot.primary_size as u64) + (spot.joliet_size as u64);
        k += 1;
    }
    if total > usize::MAX as u64 {
        return Err(iso_error(ErrorKind::Limit, "ISO final metadata size overflow"));
    }
    if let Some(maximum) = limit {
        if total > maximum as u64 {
            return Err(iso_error(ErrorKind::Limit, "ISO final index exceeds metadata limit"));
        }
    }
    Ok(())
}

// ---------------------------------------------------------------------------
// The plan
// ---------------------------------------------------------------------------

/// Where the parts of the index go.
pub struct IndexPlan {
    pub extents: Vec<Extents>,
    pub primary_path_size: usize,
    pub joliet_path_size: usize,
    pub start: u32,
    pub primary_l_path: u32,
    pub primary_m_path: u32,
    pub joliet_l_path: u32,
    pub joliet_m_path: u32,
    pub total_sectors: u32,
}

/// The mathematical content of an [`IndexPlan`].
#[verifier::ext_equal]
pub struct PlanView {
    pub extents: Seq<Extents>,
    pub primary_path_size: nat,
    pub joliet_path_size: nat,
    pub start: u32,
    pub primary_l_path: u32,
    pub primary_m_path: u32,
    pub joliet_l_path: u32,
    pub joliet_m_path: u32,
    pub total_sectors: u32,
}

impl View for IndexPlan {
    type V = PlanView;

    open spec fn view(&self) -> PlanView {
        PlanView {
            extents: self.extents@,
            primary_path_size: self.primary_path_size as nat,
            joliet_path_size: self.joliet_path_size as nat,
            start: self.start,
            primary_l_path: self.primary_l_path,
            primary_m_path: self.primary_m_path,
            joliet_l_path: self.joliet_l_path,
            joliet_m_path: self.joliet_m_path,
            total_sectors: self.total_sectors,
        }
    }
}

/// The block at a position of the output.
pub open spec fn block_at(position: u64) -> Result<u32, ErrorView> {
    if position % 2048 != 0 {
        Err(iso_fault(ErrorKind::Protocol, "ISO output cursor is not sector aligned"@))
    } else if position / 2048 > u32::MAX {
        Err(iso_fault(ErrorKind::Limit, "ISO image exceeds u32 LBA range"@))
    } else {
        Ok((position / 2048) as u32)
    }
}

/// The block at a position of the output.
pub fn current_lba(position: u64) -> (result: Result<u32, ArchiveError>)
    ensures
        match result {
            Ok(lba) => block_at(position) == Ok::<_, ErrorView>(lba),
            Err(error) => block_at(position) == Err::<u32, _>(error@),
        },
{
    if position % 2048 != 0 {
        return Err(iso_error(ErrorKind::Protocol, "ISO output cursor is not sector aligned"));
    }
    if position / 2048 > u32::MAX as u64 {
        return Err(iso_error(ErrorKind::Limit, "ISO image exceeds u32 LBA range"));
    }
    Ok((position / 2048) as u32)
}

/// A block `count` regions of `bytes` bytes behind `lba`.
pub open spec fn twice_advanced(lba: u32, bytes: nat) -> Result<(u32, u32), ErrorView> {
    match advanced(lba, bytes) {
        Err(error) => Err(error),
        Ok(middle) => match advanced(middle, bytes) {
            Err(error) => Err(error),
            Ok(end) => Ok((middle, end)),
        },
    }
}

fn advance_twice(lba: u32, bytes: usize) -> (result: Result<(u32, u32), ArchiveError>)
    ensures
        match result {
            Ok(blocks) => twice_advanced(lba, bytes as nat) == Ok::<_, ErrorView>(blocks),
            Err(error) => twice_advanced(lba, bytes as nat) == Err::<(u32, u32), _>(error@),
        },
{
    let middle: u32 = advance_lba(lba, bytes)?;
    let end: u32 = advance_lba(middle, bytes)?;
    Ok((middle, end))
}

/// Where the parts of the index go once the sizes of directories are known:
/// four path tables from block `start` on, then the directories of the primary
/// tree, then those of the Joliet tree.
pub open spec fn arranged(
    extents: Seq<Extents>,
    order: Seq<Listed>,
    primary_path_size: nat,
    joliet_path_size: nat,
    start: u32,
) -> Result<PlanView, ErrorView> {
    match twice_advanced(start, primary_path_size) {
        Err(error) => Err(error),
        Ok((primary_m_path, joliet_l_path)) => match twice_advanced(
            joliet_l_path,
            joliet_path_size,
        ) {
            Err(error) => Err(error),
            Ok((joliet_m_path, first)) => match placed(extents, order, first, false, order.len()) {
                Err(error) => Err(error),
                Ok((primary, second)) => match placed(primary, order, second, true, order.len()) {
                    Err(error) => Err(error),
                    Ok((all, total_sectors)) => Ok(
                        PlanView {
                            extents: all,
                            primary_path_size,
                            joliet_path_size,
                            start,
                            primary_l_path: start,
                            primary_m_path,
                            joliet_l_path,
                            joliet_m_path,
                            total_sectors,
                        },
                    ),
                },
            },
        },
    }
}

/// An index of which nothing is known.
pub open spec fn blank(count: nat) -> Seq<Extents> {
    Seq::new(count, |i: int| unplaced())
}

/// Where the parts of the index go, for a tree whose files end at `position`.
pub open spec fn planned(
    nodes: Seq<NodeView>,
    order: Seq<Listed>,
    limit: Option<usize>,
    position: u64,
) -> Result<PlanView, ErrorView> {
    let start = blank(nodes.len());
    let primary_path_size = table_size(nodes, order, false, order.len());
    let joliet_path_size = table_size(nodes, order, true, order.len());
    match names_fault(nodes, start, order, order.len()) {
        Some(error) => Err(error),
        None => match sized(nodes, start, order, order.len()) {
            Err(error) => Err(error),
            Ok(extents) => match index_fault(
                2 * primary_path_size + 2 * joliet_path_size + extents_total(
                    extents,
                    order,
                    order.len(),
                ),
                limit,
            ) {
                Some(error) => Err(error),
                None => match block_at(position) {
                    Err(error) => Err(error),
                    Ok(lba) => arranged(extents, order, primary_path_size, joliet_path_size, lba),
                },
            },
        },
    }
}

fn blank_extents(count: usize) -> (extents: Vec<Extents>)
    ensures
        extents@ == blank(count as nat),
{
    let mut extents: Vec<Extents> = Vec::new();
    let mut i: usize = 0;
    while i < count
        invariant
            i <= count,
            extents@ =~= blank(i as nat),
        decreases count - i,
    {
        extents.push(
            Extents { primary_lba: 0, primary_size: 0, joliet_lba: 0, joliet_size: 0 },
        );
        i += 1;
    }
    extents
}

fn arrange(
    extents: Vec<Extents>,
    order: &[Listed],
    primary_path_size: usize,
    joliet_path_size: usize,
    start: u32,
) -> (result: Result<IndexPlan, ArchiveError>)
    requires
        lists_nodes(extents@.len(), order@),
    ensures
        match result {
            Ok(plan) => arranged(
                extents@,
                order@,
                primary_path_size as nat,
                joliet_path_size as nat,
                start,
            ) == Ok::<_, ErrorView>(plan@),
            Err(error) => arranged(
                extents@,
                order@,
                primary_path_size as nat,
                joliet_path_size as nat,
                start,
            ) == Err::<PlanView, _>(error@),
        },
{
    let mut extents = extents;
    let (primary_m_path, joliet_l_path) = advance_twice(start, primary_path_size)?;
    let (joliet_m_path, first) = advance_twice(joliet_l_path, joliet_path_size)?;
    let second: u32 = place_directories(&mut extents, order, first, false)?;
    let total_sectors: u32 = place_directories(&mut extents, order, second, true)?;
    Ok(
        IndexPlan {
            extents,
            primary_path_size,
            joliet_path_size,
            start,
            primary_l_path: start,
            primary_m_path,
            joliet_l_path,
            joliet_m_path,
            total_sectors,
        },
    )
}

/// The plan can be carried out: every name fits, and every directory's records
/// can be written and have the planned size.
pub open spec fn feasible(nodes: Seq<NodeView>, order: Seq<Listed>, plan: PlanView) -> bool {
    &&& plan.extents.len() == nodes.len()
    &&& names_fit(nodes, order)
    &&& ready(nodes, plan.extents, order, order.len())
    &&& plan.primary_path_size == table_size(nodes, order, false, order.len())
    &&& plan.joliet_path_size == table_size(nodes, order, true, order.len())
}

/// Every plan can be carried out.
pub proof fn law_plans_are_feasible(
    nodes: Seq<NodeView>,
    order: Seq<Listed>,
    limit: Option<usize>,
    position: u64,
)
    requires
        lists_nodes(nodes.len(), order),
    ensures
        planned(nodes, order, limit, position) matches Ok(plan) ==> feasible(nodes, order, plan),
{
    if let Ok(plan) = planned(nodes, order, limit, position) {
        let start = blank(nodes.len());
        lemma_checked_names(nodes, start, order, order.len());
        lemma_sized_is_ready(nodes, start, order, order.len());
        let extents = sized(nodes, start, order, order.len())->Ok_0;
        let lba = block_at(position)->Ok_0;
        let joliet_l_path = twice_advanced(lba, plan.primary_path_size)->Ok_0.1;
        let first = twice_advanced(joliet_l_path, plan.joliet_path_size)->Ok_0.1;
        lemma_placed_keeps_sizes(extents, order, first, false, order.len());
        let (primary, second) = placed(extents, order, first, false, order.len())->Ok_0;
        lemma_placed_keeps_sizes(primary, order, second, true, order.len());
        lemma_ready_moves(nodes, extents, primary, order, order.len());
        lemma_ready_moves(nodes, primary, plan.extents, order, order.len());
    }
}

/// Decides where the parts of the index go.
pub fn plan_index(nodes: &[IsoNode], order: &[Listed], limit: Option<usize>, position: u64) -> (
    result: Result<IndexPlan, ArchiveError>)
    requires
        is_tree(tree(nodes@)),
        lists_nodes(nodes@.len(), order@),
    ensures
        match result {
            Ok(plan) => planned(tree(nodes@), order@, limit, position) == Ok::<_, ErrorView>(
                plan@,
            ) && feasible(tree(nodes@), order@, plan@),
            Err(error) => planned(tree(nodes@), order@, limit, position) == Err::<PlanView, _>(
                error@,
            ),
        },
{
    let ghost all = tree(nodes@);
    proof {
        law_plans_are_feasible(all, order@, limit, position);
    }
    let mut extents = blank_extents(nodes.len());
    validate_identifiers(nodes, extents.as_slice(), order)?;
    proof {
        lemma_checked_names(all, extents@, order@, order@.len());
    }
    size_directories(nodes, &mut extents, order)?;
    let primary_path_size: usize = path_table_size(nodes, order, false);
    let joliet_path_size: usize = path_table_size(nodes, order, true);
    check_final_metadata_size(
        extents.as_slice(),
        order,
        primary_path_size,
        joliet_path_size,
        limit,
    )?;
    let start: u32 = current_lba(position)?;
    arrange(extents, order, primary_path_size, joliet_path_size, start)
}

// ---------------------------------------------------------------------------
// The bytes
// ---------------------------------------------------------------------------

/// Bytes filled up to whole sectors.
pub open spec fn padded(bytes: Seq<u8>) -> Seq<u8> {
    bytes + zeros((sectors(bytes.len()) * SECTOR as nat - bytes.len()) as nat)
}

/// The extent of a directory.
#[verifier::opaque]
pub open spec fn directory_extent(
    nodes: Seq<NodeView>,
    extents: Seq<Extents>,
    index: usize,
    joliet: bool,
) -> Seq<u8> {
    extent(directory_records(nodes, extents, index, joliet)->Ok_0)
}

/// The extents of the first `count` directories.
pub open spec fn directory_extents(
    nodes: Seq<NodeView>,
    extents: Seq<Extents>,
    order: Seq<Listed>,
    joliet: bool,
    count: nat,
) -> Seq<u8>
    decreases count,
{
    if count == 0 {
        Seq::empty()
    } else {
        directory_extents(nodes, extents, order, joliet, (count - 1) as nat) + directory_extent(
            nodes,
            extents,
            order[count - 1].node,
            joliet,
        )
    }
}

/// The path tables of an index.
pub open spec fn path_tables(nodes: Seq<NodeView>, order: Seq<Listed>, plan: PlanView) -> Seq<u8> {
    let count = order.len();
    padded(path_table(nodes, plan.extents, order, false, false, count)) + padded(
        path_table(nodes, plan.extents, order, false, true, count),
    ) + padded(path_table(nodes, plan.extents, order, true, false, count)) + padded(
        path_table(nodes, plan.extents, order, true, true, count),
    )
}

/// The bytes of an index.
pub open spec fn index_bytes(nodes: Seq<NodeView>, order: Seq<Listed>, plan: PlanView) -> Seq<u8> {
    path_tables(nodes, order, plan) + directory_extents(
        nodes,
        plan.extents,
        order,
        false,
        order.len(),
    ) + directory_extents(nodes, plan.extents, order, true, order.len())
}

fn push_padded(output: &mut Vec<u8>, bytes: &[u8])
    requires
        bytes@.len() <= 264 * MOST_DIRECTORIES,
    ensures
        final(output)@ == old(output)@ + padded(bytes@),
{
    output.extend_from_slice(bytes);
    let rest: usize = bytes.len() % SECTOR;
    proof {
        assert(sectors(bytes@.len()) * SECTOR as nat - bytes@.len() == if rest == 0 {
            0
        } else {
            SECTOR - rest
        });
    }
    let mut i: usize = rest;
    if rest > 0 {
        let ghost held = output@;
        while i < SECTOR
            invariant
                rest <= i <= SECTOR,
                output@ =~= held + zeros((i - rest) as nat),
            decreases SECTOR - i,
        {
            output.push(0);
            i += 1;
        }
    }
    proof {
        assert(output@ =~= old(output)@ + padded(bytes@));
    }
}

fn push_directories(
    output: &mut Vec<u8>,
    nodes: &[IsoNode],
    extents: &[Extents],
    order: &[Listed],
    joliet: bool,
)
    requires
        index_fits(tree(nodes@), extents@),
        lists_nodes(nodes@.len(), order@),
        ready(tree(nodes@), extents@, order@, order@.len()),
    ensures
        final(output)@ == old(output)@ + directory_extents(
            tree(nodes@),
            extents@,
            order@,
            joliet,
            order@.len(),
        ),
{
    let ghost all = tree(nodes@);
    let mut k: usize = 0;
    proof {
        assert(output@ + Seq::<u8>::empty() =~= output@);
    }
    while k < order.len()
        invariant
            all == tree(nodes@),
            all.len() == nodes@.len(),
            index_fits(all, extents@),
            lists_nodes(nodes@.len(), order@),
            ready(all, extents@, order@, order@.len()),
            k <= order@.len(),
            output@ == old(output)@ + directory_extents(all, extents@, order@, joliet, k as nat),
        decreases order@.len() - k,
    {
        proof {
            assert(order@[k as int].node < nodes@.len());
            assert(directory_ready(all, extents@, order@[k as int].node, joliet));
        }
        let bytes = extent_of(nodes, extents, order[k].node, joliet);
        output.extend_from_slice(bytes.as_slice());
        k += 1;
        proof {
            assert(output@ =~= old(output)@ + directory_extents(
                all,
                extents@,
                order@,
                joliet,
                k as nat,
            ));
        }
    }
}

fn extent_of(nodes: &[IsoNode], extents: &[Extents], index: usize, joliet: bool) -> (bytes: Vec<u8>)
    requires
        index_fits(tree(nodes@), extents@),
        index < nodes@.len(),
        directory_ready(tree(nodes@), extents@, index, joliet),
    ensures
        bytes@ == directory_extent(tree(nodes@), extents@, index, joliet),
{
    proof {
        reveal(directory_ready);
        reveal(directory_extent);
    }
    match build_directory_records(nodes, extents, index, joliet) {
        Ok(records) => layout_records(records.as_slice()),
        Err(_) => Vec::new(),
    }
}

/// Writes the index.
pub fn write_index(nodes: &[IsoNode], order: &[Listed], plan: &IndexPlan) -> (bytes: Vec<u8>)
    requires
        is_tree(tree(nodes@)),
        lists_nodes(nodes@.len(), order@),
        feasible(tree(nodes@), order@, plan@),
    ensures
        bytes@ == index_bytes(tree(nodes@), order@, plan@),
{
    let ghost all = tree(nodes@);
    let extents = plan.extents.as_slice();
    proof {
        law_path_table_length(all, extents@, order@, false, false, order@.len());
        law_path_table_length(all, extents@, order@, false, true, order@.len());
        law_path_table_length(all, extents@, order@, true, false, order@.len());
        law_path_table_length(all, extents@, order@, true, true, order@.len());
        lemma_table_size_bound(all, order@, false, order@.len());
        lemma_table_size_bound(all, order@, true, order@.len());
    }
    let mut bytes: Vec<u8> = Vec::new();
    push_padded(&mut bytes, build_path_table(nodes, extents, order, false, false).as_slice());
    push_padded(&mut bytes, build_path_table(nodes, extents, order, false, true).as_slice());
    push_padded(&mut bytes, build_path_table(nodes, extents, order, true, false).as_slice());
    push_padded(&mut bytes, build_path_table(nodes, extents, order, true, true).as_slice());
    proof {
        assert(bytes@ =~= path_tables(all, order@, plan@));
    }
    push_directories(&mut bytes, nodes, extents, order, false);
    push_directories(&mut bytes, nodes, extents, order, true);
    bytes
}

proof fn lemma_extents_length(
    nodes: Seq<NodeView>,
    start: Seq<Extents>,
    extents: Seq<Extents>,
    order: Seq<Listed>,
    lba: u32,
    joliet: bool,
    count: nat,
)
    requires
        lists_nodes(start.len(), order),
        count <= order.len(),
        same_sizes(start, extents),
        ready(nodes, extents, order, order.len()),
        placed(start, order, lba, joliet, count) is Ok,
    ensures
        directory_extents(nodes, extents, order, joliet, count).len() == (placed(
            start,
            order,
            lba,
            joliet,
            count,
        )->Ok_0.1 - lba) * SECTOR,
        placed(start, order, lba, joliet, count)->Ok_0.1 >= lba,
    decreases count,
{
    if count > 0 {
        let before = (count - 1) as nat;
        lemma_extents_length(nodes, start, extents, order, lba, joliet, before);
        let (held, at) = placed(start, order, lba, joliet, before)->Ok_0;
        let index = order[count - 1].node;
        lemma_placed_keeps_sizes(start, order, lba, joliet, before);
        assert(start[index as int].primary_size == held[index as int].primary_size);
        assert(start[index as int].primary_size == extents[index as int].primary_size);
        assert(directory_ready(nodes, extents, order[count - 1].node, joliet));
        lemma_extent_is_sized(nodes, extents, index, joliet);
        let size = held[index as int].spot(joliet).1 as nat;
        assert(size == extents[index as int].spot(joliet).1);
        assert(sectors(size) * SECTOR as nat == size);
        let next = placed(start, order, lba, joliet, count)->Ok_0.1;
        assert(next == at + sectors(size));
        let bytes = directory_extents(nodes, extents, order, joliet, before);
        assert(bytes.len() == (at - lba) * SECTOR);
        assert(directory_extents(nodes, extents, order, joliet, count).len() == bytes.len() + size);
    }
}

proof fn lemma_extent_is_sized(
    nodes: Seq<NodeView>,
    extents: Seq<Extents>,
    index: usize,
    joliet: bool,
)
    requires
        directory_ready(nodes, extents, index, joliet),
    ensures
        directory_extent(nodes, extents, index, joliet).len() == extents[index as int].spot(
            joliet,
        ).1,
        extents[index as int].spot(joliet).1 % 2048 == 0,
{
    reveal(directory_ready);
    reveal(directory_extent);
    law_extent_fills_sectors(directory_records(nodes, extents, index, joliet)->Ok_0);
}

/// The index reaches exactly to the last planned sector: the volume is as long
/// as its descriptors say.
#[verifier::spinoff_prover]
pub proof fn law_index_fills_the_volume(
    nodes: Seq<NodeView>,
    order: Seq<Listed>,
    limit: Option<usize>,
    position: u64,
)
    requires
        lists_nodes(nodes.len(), order),
    ensures
        planned(nodes, order, limit, position) matches Ok(plan) ==> position + index_bytes(
            nodes,
            order,
            plan,
        ).len() == plan.total_sectors * 2048,
{
    if let Ok(plan) = planned(nodes, order, limit, position) {
        let blank = blank(nodes.len());
        law_plans_are_feasible(nodes, order, limit, position);
        lemma_sized_is_ready(nodes, blank, order, order.len());
        let extents = sized(nodes, blank, order, order.len())->Ok_0;
        let lba = block_at(position)->Ok_0;
        let joliet_l_path = twice_advanced(lba, plan.primary_path_size)->Ok_0.1;
        let first = twice_advanced(joliet_l_path, plan.joliet_path_size)->Ok_0.1;
        let (primary, second) = placed(extents, order, first, false, order.len())->Ok_0;
        lemma_placed_keeps_sizes(extents, order, first, false, order.len());
        lemma_placed_keeps_sizes(primary, order, second, true, order.len());
        lemma_same_sizes_chain(extents, primary, plan.extents);
        lemma_extents_length(nodes, extents, plan.extents, order, first, false, order.len());
        lemma_extents_length(nodes, primary, plan.extents, order, second, true, order.len());
        lemma_path_tables_length(nodes, order, plan);
    }
}

proof fn lemma_same_sizes_chain(left: Seq<Extents>, middle: Seq<Extents>, right: Seq<Extents>)
    requires
        same_sizes(left, middle),
        same_sizes(middle, right),
    ensures
        same_sizes(left, right),
{
    assert forall|i: int| 0 <= i < left.len() implies (#[trigger] left[i]).primary_size
        == right[i].primary_size && left[i].joliet_size == right[i].joliet_size by {
        assert(middle[i].primary_size == right[i].primary_size);
    }
}

proof fn lemma_path_tables_length(nodes: Seq<NodeView>, order: Seq<Listed>, plan: PlanView)
    requires
        feasible(nodes, order, plan),
    ensures
        path_tables(nodes, order, plan).len() == (2 * sectors(plan.primary_path_size) + 2 * sectors(
            plan.joliet_path_size,
        )) * SECTOR as nat,
{
    let count = order.len();
    law_path_table_length(nodes, plan.extents, order, false, false, count);
    law_path_table_length(nodes, plan.extents, order, false, true, count);
    law_path_table_length(nodes, plan.extents, order, true, false, count);
    law_path_table_length(nodes, plan.extents, order, true, true, count);
    assert(plan.primary_path_size <= sectors(plan.primary_path_size) * SECTOR as nat);
    assert(plan.joliet_path_size <= sectors(plan.joliet_path_size) * SECTOR as nat);
}

// ---------------------------------------------------------------------------
// What stands where
// ---------------------------------------------------------------------------

proof fn lemma_four_tables(a: Seq<u8>, b: Seq<u8>, c: Seq<u8>, d: Seq<u8>, rest: Seq<u8>)
    ensures
        ({
            let all = padded(a) + padded(b) + padded(c) + padded(d) + rest;
            let one = sectors(a.len()) * SECTOR;
            let two = one + sectors(b.len()) * SECTOR;
            let three = two + sectors(c.len()) * SECTOR;
            &&& stands_at(all, 0, a)
            &&& stands_at(all, one, b)
            &&& stands_at(all, two, c)
            &&& stands_at(all, three, d)
        }),
{
    let all = padded(a) + padded(b) + padded(c) + padded(d) + rest;
    lemma_padded(a);
    lemma_padded(b);
    lemma_padded(c);
    lemma_padded(d);
    let one = sectors(a.len()) * SECTOR;
    let two = one + sectors(b.len()) * SECTOR;
    let three = two + sectors(c.len()) * SECTOR;
    assert(all.subrange(0, a.len() as int) =~= a);
    assert(all.subrange(one, one + b.len()) =~= b);
    assert(all.subrange(two, two + c.len()) =~= c);
    assert(all.subrange(three, three + d.len()) =~= d);
}

proof fn lemma_padded(bytes: Seq<u8>)
    ensures
        padded(bytes).len() == sectors(bytes.len()) * SECTOR,
        bytes.len() <= padded(bytes).len(),
        padded(bytes).take(bytes.len() as int) == bytes,
{
    assert(bytes.len() <= sectors(bytes.len()) * SECTOR as nat);
    assert(padded(bytes).take(bytes.len() as int) =~= bytes);
}

/// In the index of an image the four path tables stand where the plan says, and so
/// where the descriptors point to: those of the primary tree and of the Joliet tree,
/// each with its numbers the lowest byte first and then the highest byte first.
pub proof fn law_tables_stand_where_planned(
    nodes: Seq<NodeView>,
    order: Seq<Listed>,
    limit: Option<usize>,
    position: u64,
)
    requires
        lists_nodes(nodes.len(), order),
    ensures
        planned(nodes, order, limit, position) matches Ok(plan) ==> {
            let index = index_bytes(nodes, order, plan);
            let count = order.len();
            &&& stands_at(
                index,
                plan.primary_l_path * 2048 - position,
                path_table(nodes, plan.extents, order, false, false, count),
            )
            &&& stands_at(
                index,
                plan.primary_m_path * 2048 - position,
                path_table(nodes, plan.extents, order, false, true, count),
            )
            &&& stands_at(
                index,
                plan.joliet_l_path * 2048 - position,
                path_table(nodes, plan.extents, order, true, false, count),
            )
            &&& stands_at(
                index,
                plan.joliet_m_path * 2048 - position,
                path_table(nodes, plan.extents, order, true, true, count),
            )
            &&& path_table(nodes, plan.extents, order, false, false, count).len()
                == plan.primary_path_size
            &&& path_table(nodes, plan.extents, order, true, false, count).len()
                == plan.joliet_path_size
        },
{
    if let Ok(plan) = planned(nodes, order, limit, position) {
        let count = order.len();
        let a = path_table(nodes, plan.extents, order, false, false, count);
        let b = path_table(nodes, plan.extents, order, false, true, count);
        let c = path_table(nodes, plan.extents, order, true, false, count);
        let d = path_table(nodes, plan.extents, order, true, true, count);
        law_path_table_length(nodes, plan.extents, order, false, false, count);
        law_path_table_length(nodes, plan.extents, order, false, true, count);
        law_path_table_length(nodes, plan.extents, order, true, false, count);
        law_path_table_length(nodes, plan.extents, order, true, true, count);
        let e = directory_extents(nodes, plan.extents, order, false, count);
        let f = directory_extents(nodes, plan.extents, order, true, count);
        lemma_four_tables(a, b, c, d, e + f);
        assert(index_bytes(nodes, order, plan) =~= padded(a) + padded(b) + padded(c) + padded(d) + (
        e + f));
    }
}

/// Every directory is listed once.
pub open spec fn listed_once(order: Seq<Listed>) -> bool {
    forall|i: int, j: int|
        0 <= i < j < order.len() ==> (#[trigger] order[i]).node != (#[trigger] order[j]).node
}

proof fn lemma_placed_at(
    extents: Seq<Extents>,
    order: Seq<Listed>,
    lba: u32,
    joliet: bool,
    at: nat,
    count: nat,
)
    requires
        lists_nodes(extents.len(), order),
        listed_once(order),
        at < count <= order.len(),
        placed(extents, order, lba, joliet, count) is Ok,
    ensures
        placed(extents, order, lba, joliet, at) is Ok,
        placed(extents, order, lba, joliet, count)->Ok_0.0[order[at as int].node as int].spot(
            joliet,
        ).0 == placed(extents, order, lba, joliet, at)->Ok_0.1,
    decreases count,
{
    lemma_placed_keeps_sizes(extents, order, lba, joliet, count);
    let before = (count - 1) as nat;
    lemma_placed_keeps_sizes(extents, order, lba, joliet, before);
    let index = order[before as int].node as int;
    if at < before {
        assert(order[at as int].node != order[before as int].node);
        lemma_placed_at(extents, order, lba, joliet, at, before);
    }
}

proof fn lemma_other_tree_stays(
    extents: Seq<Extents>,
    order: Seq<Listed>,
    lba: u32,
    joliet: bool,
    count: nat,
)
    requires
        lists_nodes(extents.len(), order),
        count <= order.len(),
        placed(extents, order, lba, joliet, count) is Ok,
    ensures
        forall|i: int|
            0 <= i < extents.len() ==> (#[trigger] placed(
                extents,
                order,
                lba,
                joliet,
                count,
            )->Ok_0.0[i]).spot(!joliet).0 == extents[i].spot(!joliet).0,
    decreases count,
{
    if count > 0 {
        lemma_other_tree_stays(extents, order, lba, joliet, (count - 1) as nat);
        lemma_placed_keeps_sizes(extents, order, lba, joliet, (count - 1) as nat);
    }
}

proof fn lemma_extent_stands(
    nodes: Seq<NodeView>,
    extents: Seq<Extents>,
    order: Seq<Listed>,
    joliet: bool,
    at: nat,
    count: nat,
)
    requires
        at < count <= order.len(),
    ensures
        stands_at(
            directory_extents(nodes, extents, order, joliet, count),
            directory_extents(nodes, extents, order, joliet, at).len() as int,
            directory_extent(nodes, extents, order[at as int].node, joliet),
        ),
    decreases count,
{
    let before = directory_extents(nodes, extents, order, joliet, (count - 1) as nat);
    let last = directory_extent(nodes, extents, order[count - 1].node, joliet);
    let all = directory_extents(nodes, extents, order, joliet, count);
    let start = directory_extents(nodes, extents, order, joliet, at).len() as int;
    let own = directory_extent(nodes, extents, order[at as int].node, joliet);
    if at == count - 1 {
        assert(all.subrange(start, start + own.len()) =~= own);
    } else {
        lemma_extent_stands(nodes, extents, order, joliet, at, (count - 1) as nat);
        assert(all.subrange(start, start + own.len()) =~= before.subrange(start, start + own.len()));
    }
}

proof fn lemma_part_behind(a: Seq<u8>, b: Seq<u8>, c: Seq<u8>, at: int, part: Seq<u8>)
    requires
        stands_at(b, at, part),
    ensures
        stands_at(a + b + c, a.len() + at, part),
{
    let all = a + b + c;
    assert(all.subrange(a.len() + at, a.len() + at + part.len()) =~= b.subrange(
        at,
        at + part.len(),
    ));
}

/// In the index of an image every directory stands where the plan says, and so where
/// the descriptors, the path tables and the records of directories point to: in the
/// primary tree and in the Joliet tree, with the length that they tell.
#[verifier::rlimit(40)]
#[verifier::spinoff_prover]
pub proof fn law_directories_stand_where_planned(
    nodes: Seq<NodeView>,
    order: Seq<Listed>,
    limit: Option<usize>,
    position: u64,
    at: int,
)
    requires
        lists_nodes(nodes.len(), order),
        listed_once(order),
        0 <= at < order.len(),
    ensures
        planned(nodes, order, limit, position) matches Ok(plan) ==> {
            let index = index_bytes(nodes, order, plan);
            let node = order[at].node;
            let spot = plan.extents[node as int];
            let primary = directory_extent(nodes, plan.extents, node, false);
            let joliet = directory_extent(nodes, plan.extents, node, true);
            &&& stands_at(index, spot.primary_lba * 2048 - position, primary)
            &&& primary.len() == spot.primary_size
            &&& stands_at(index, spot.joliet_lba * 2048 - position, joliet)
            &&& joliet.len() == spot.joliet_size
        },
{
    if let Ok(plan) = planned(nodes, order, limit, position) {
        let count = order.len();
        let blank = blank(nodes.len());
        law_plans_are_feasible(nodes, order, limit, position);
        lemma_sized_is_ready(nodes, blank, order, order.len());
        let extents = sized(nodes, blank, order, order.len())->Ok_0;
        let lba = block_at(position)->Ok_0;
        let joliet_l_path = twice_advanced(lba, plan.primary_path_size)->Ok_0.1;
        let first = twice_advanced(joliet_l_path, plan.joliet_path_size)->Ok_0.1;
        let (primary, second) = placed(extents, order, first, false, count)->Ok_0;
        lemma_placed_keeps_sizes(extents, order, first, false, count);
        lemma_placed_keeps_sizes(primary, order, second, true, count);
        lemma_same_sizes_chain(extents, primary, plan.extents);
        let tables = path_tables(nodes, order, plan);
        let a = directory_extents(nodes, plan.extents, order, false, count);
        let b = directory_extents(nodes, plan.extents, order, true, count);
        lemma_path_tables_length(nodes, order, plan);
        assert(tables.len() == (first - lba) * 2048);
        lemma_extents_length(nodes, extents, plan.extents, order, first, false, count);
        let node = order[at].node;
        // The primary tree.
        lemma_placed_at(extents, order, first, false, at as nat, count);
        lemma_other_tree_stays(primary, order, second, true, count);
        assert(plan.extents[node as int].spot(false).0 == primary[node as int].spot(false).0);
        lemma_extents_length(nodes, extents, plan.extents, order, first, false, at as nat);
        lemma_extent_stands(nodes, plan.extents, order, false, at as nat, count);
        assert(directory_ready(nodes, plan.extents, order[at].node, false));
        lemma_extent_is_sized(nodes, plan.extents, node, false);
        lemma_part_behind(
            tables,
            a,
            b,
            directory_extents(nodes, plan.extents, order, false, at as nat).len() as int,
            directory_extent(nodes, plan.extents, node, false),
        );
        // The Joliet tree.
        lemma_placed_at(primary, order, second, true, at as nat, count);
        lemma_extents_length(nodes, primary, plan.extents, order, second, true, at as nat);
        lemma_extent_stands(nodes, plan.extents, order, true, at as nat, count);
        assert(directory_ready(nodes, plan.extents, order[at].node, true));
        lemma_extent_is_sized(nodes, plan.extents, node, true);
        lemma_part_behind(
            tables + a,
            b,
            Seq::empty(),
            directory_extents(nodes, plan.extents, order, true, at as nat).len() as int,
            directory_extent(nodes, plan.extents, node, true),
        );
        assert(tables + a + b + Seq::<u8>::empty() =~= tables + a + b);
    }
}

} // verus!
