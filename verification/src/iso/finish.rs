//! Completing an image: where everything goes, and the bytes behind the files.

use vstd::prelude::*;
use crate::error::{ArchiveError, ErrorKind, ErrorView};
use crate::iso::image::{
    build_directory_records, child_identifier, child_record, children_by_name, directory_identifier,
    directory_records, index_fits, name_of_child, name_of_directory, record_for_child,
    sorted_children, Extents,
};
use crate::iso::order::{lists_nodes, Listed};
use crate::iso::record::{
    big16, big32, extent_length, iso_error, iso_fault, layout_length, lengths, little16, little32,
    path_table_record_length, push_u16, push_u32, table_record_length, zeros,
};
use crate::iso::tree::{is_tree, tree, IsoNode, NodeView};

verus! {

// ---------------------------------------------------------------------------
// Identifiers
// ---------------------------------------------------------------------------

/// The first of two faults.
pub open spec fn first_fault(first: Option<ErrorView>, second: Option<ErrorView>) -> Option<
    ErrorView,
> {
    match first {
        Some(error) => Some(error),
        None => second,
    }
}

/// The fault of a name that is too long.
pub open spec fn identifier_fault(identifier: Seq<u8>) -> Option<ErrorView> {
    if identifier.len() > 255 {
        Some(iso_fault(ErrorKind::Unsupported, "ISO identifier exceeds one-byte length"@))
    } else {
        None
    }
}

/// Checks the length of a name.
pub fn validate_identifier(identifier: &[u8]) -> (result: Result<(), ArchiveError>)
    ensures
        match result {
            Ok(()) => identifier_fault(identifier@) is None,
            Err(error) => identifier_fault(identifier@) == Some(error@),
        },
{
    if identifier.len() > 255 {
        return Err(iso_error(ErrorKind::Unsupported, "ISO identifier exceeds one-byte length"));
    }
    Ok(())
}

/// The fault of a result.
pub open spec fn fault_of<T>(result: Result<T, ErrorView>) -> Option<ErrorView> {
    match result {
        Ok(_) => None,
        Err(error) => Some(error),
    }
}

/// The first fault among the first `count` children of a directory.
pub open spec fn children_fault(
    nodes: Seq<NodeView>,
    extents: Seq<Extents>,
    index: usize,
    joliet: bool,
    count: nat,
) -> Option<ErrorView>
    decreases count,
{
    if count == 0 {
        None
    } else {
        let child = sorted_children(nodes, index)[count - 1];
        first_fault(
            children_fault(nodes, extents, index, joliet, (count - 1) as nat),
            first_fault(
                identifier_fault(child_identifier(nodes[child as int], joliet)),
                fault_of(child_record(nodes, extents, child, joliet)),
            ),
        )
    }
}

/// The first fault of a directory's names in one of the trees.
pub open spec fn directory_fault(
    nodes: Seq<NodeView>,
    extents: Seq<Extents>,
    index: usize,
    joliet: bool,
) -> Option<ErrorView> {
    first_fault(
        identifier_fault(directory_identifier(nodes, index, joliet)),
        children_fault(nodes, extents, index, joliet, sorted_children(nodes, index).len()),
    )
}

/// The first fault of the names of the first `count` directories.
pub open spec fn names_fault(
    nodes: Seq<NodeView>,
    extents: Seq<Extents>,
    order: Seq<Listed>,
    count: nat,
) -> Option<ErrorView>
    decreases count,
{
    if count == 0 {
        None
    } else {
        let index = order[count - 1].node;
        first_fault(
            names_fault(nodes, extents, order, (count - 1) as nat),
            first_fault(
                directory_fault(nodes, extents, index, false),
                directory_fault(nodes, extents, index, true),
            ),
        )
    }
}

proof fn lemma_children_fault_stays(
    nodes: Seq<NodeView>,
    extents: Seq<Extents>,
    index: usize,
    joliet: bool,
    low: nat,
    high: nat,
)
    requires
        low <= high,
        children_fault(nodes, extents, index, joliet, low) is Some,
    ensures
        children_fault(nodes, extents, index, joliet, high) == children_fault(
            nodes,
            extents,
            index,
            joliet,
            low,
        ),
    decreases high,
{
    if low < high {
        lemma_children_fault_stays(nodes, extents, index, joliet, low, (high - 1) as nat);
    }
}

proof fn lemma_names_fault_stays(
    nodes: Seq<NodeView>,
    extents: Seq<Extents>,
    order: Seq<Listed>,
    low: nat,
    high: nat,
)
    requires
        low <= high,
        names_fault(nodes, extents, order, low) is Some,
    ensures
        names_fault(nodes, extents, order, high) == names_fault(nodes, extents, order, low),
    decreases high,
{
    if low < high {
        lemma_names_fault_stays(nodes, extents, order, low, (high - 1) as nat);
    }
}

pub(crate) proof fn lemma_checked_names(
    nodes: Seq<NodeView>,
    extents: Seq<Extents>,
    order: Seq<Listed>,
    count: nat,
)
    requires
        names_fault(nodes, extents, order, count) is None,
    ensures
        forall|i: int, joliet: bool|
            #![trigger directory_identifier(nodes, order[i].node, joliet)]
            0 <= i < count ==> directory_identifier(nodes, order[i].node, joliet).len() <= 255,
    decreases count,
{
    if count > 0 {
        lemma_checked_names(nodes, extents, order, (count - 1) as nat);
        let index = order[count - 1].node;
        assert(directory_fault(nodes, extents, index, false) is None);
        assert(directory_fault(nodes, extents, index, true) is None);
        assert forall|i: int, joliet: bool|
            #![trigger directory_identifier(nodes, order[i].node, joliet)]
            0 <= i < count implies directory_identifier(nodes, order[i].node, joliet).len()
            <= 255 by {
            if i == count - 1 {
                assert(directory_fault(nodes, extents, index, joliet) is None);
            }
        }
    }
}

fn check_directory(nodes: &[IsoNode], extents: &[Extents], index: usize, joliet: bool) -> (result:
    Result<(), ArchiveError>)
    requires
        index_fits(tree(nodes@), extents@),
        index < nodes@.len(),
    ensures
        match result {
            Ok(()) => directory_fault(tree(nodes@), extents@, index, joliet) is None,
            Err(error) => directory_fault(tree(nodes@), extents@, index, joliet) == Some(error@),
        },
{
    let ghost all = tree(nodes@);
    let identifier = name_of_directory(nodes, index, joliet);
    validate_identifier(identifier.as_slice())?;
    let children = children_by_name(nodes, index);
    let mut k: usize = 0;
    while k < children.len()
        invariant
            all == tree(nodes@),
            all.len() == nodes@.len(),
            extents@.len() == nodes@.len(),
            identifier_fault(directory_identifier(all, index, joliet)) is None,
            children@ == sorted_children(all, index),
            forall|k: int| 0 <= k < children@.len() ==> #[trigger] children@[k] < nodes@.len(),
            k <= children@.len(),
            children_fault(all, extents@, index, joliet, k as nat) is None,
        decreases children@.len() - k,
    {
        let child: usize = children[k];
        proof {
            assert(all[child as int] == nodes@[child as int]@);
            if children_fault(all, extents@, index, joliet, (k + 1) as nat) is Some {
                lemma_children_fault_stays(
                    all,
                    extents@,
                    index,
                    joliet,
                    (k + 1) as nat,
                    children@.len(),
                );
            }
        }
        let identifier = name_of_child(&nodes[child], joliet);
        validate_identifier(identifier.as_slice())?;
        record_for_child(nodes, extents, child, joliet)?;
        k += 1;
    }
    Ok(())
}

/// Checks all names and records of the tree.
pub fn validate_identifiers(nodes: &[IsoNode], extents: &[Extents], order: &[Listed]) -> (result:
    Result<(), ArchiveError>)
    requires
        index_fits(tree(nodes@), extents@),
        lists_nodes(nodes@.len(), order@),
    ensures
        match result {
            Ok(()) => names_fault(tree(nodes@), extents@, order@, order@.len()) is None,
            Err(error) => names_fault(tree(nodes@), extents@, order@, order@.len()) == Some(
                error@,
            ),
        },
{
    let ghost all = tree(nodes@);
    let mut k: usize = 0;
    while k < order.len()
        invariant
            all == tree(nodes@),
            index_fits(all, extents@),
            lists_nodes(nodes@.len(), order@),
            k <= order@.len(),
            names_fault(all, extents@, order@, k as nat) is None,
        decreases order@.len() - k,
    {
        let index: usize = order[k].node;
        proof {
            assert(order@[k as int].node < nodes@.len());
            if names_fault(all, extents@, order@, (k + 1) as nat) is Some {
                lemma_names_fault_stays(all, extents@, order@, (k + 1) as nat, order@.len());
            }
        }
        check_directory(nodes, extents, index, false)?;
        check_directory(nodes, extents, index, true)?;
        k += 1;
    }
    Ok(())
}

// ---------------------------------------------------------------------------
// Sizes
// ---------------------------------------------------------------------------

/// The extents with the sizes of a directory filled in.
#[verifier::opaque]
pub open spec fn with_sizes(
    nodes: Seq<NodeView>,
    extents: Seq<Extents>,
    index: usize,
) -> Result<Seq<Extents>, ErrorView> {
    match directory_records(nodes, extents, index, false) {
        Err(error) => Err(error),
        Ok(primary) => match directory_records(nodes, extents, index, true) {
            Err(error) => Err(error),
            Ok(joliet) => {
                let primary_size = extent_length(lengths(primary));
                let joliet_size = extent_length(lengths(joliet));
                if primary_size > u32::MAX {
                    Err(iso_fault(ErrorKind::Limit, "ISO directory extent exceeds u32"@))
                } else if joliet_size > u32::MAX {
                    Err(iso_fault(ErrorKind::Limit, "Joliet directory extent exceeds u32"@))
                } else {
                    Ok(
                        extents.update(
                            index as int,
                            Extents {
                                primary_size: primary_size as u32,
                                joliet_size: joliet_size as u32,
                                ..extents[index as int]
                            },
                        ),
                    )
                }
            },
        },
    }
}

/// The extents with the sizes of the first `count` directories.
pub open spec fn sized(
    nodes: Seq<NodeView>,
    extents: Seq<Extents>,
    order: Seq<Listed>,
    count: nat,
) -> Result<Seq<Extents>, ErrorView>
    decreases count,
{
    if count == 0 {
        Ok(extents)
    } else {
        match sized(nodes, extents, order, (count - 1) as nat) {
            Err(error) => Err(error),
            Ok(held) => with_sizes(nodes, held, order[count - 1].node),
        }
    }
}

proof fn lemma_sized_fails(
    nodes: Seq<NodeView>,
    extents: Seq<Extents>,
    order: Seq<Listed>,
    low: nat,
    high: nat,
)
    requires
        low <= high,
        sized(nodes, extents, order, low) is Err,
    ensures
        sized(nodes, extents, order, high) == sized(nodes, extents, order, low),
    decreases high,
{
    if low < high {
        lemma_sized_fails(nodes, extents, order, low, (high - 1) as nat);
    }
}

/// The length of a directory's extent, if it fits 32 bits.
fn directory_length(nodes: &[IsoNode], extents: &[Extents], index: usize, joliet: bool) -> (result:
    Result<Option<u32>, ArchiveError>)
    requires
        index_fits(tree(nodes@), extents@),
        index < nodes@.len(),
    ensures
        match result {
            Ok(length) => directory_records(tree(nodes@), extents@, index, joliet) matches Ok(records)
                && match length {
                Some(length) => length == extent_length(lengths(records)),
                None => extent_length(lengths(records)) > u32::MAX,
            },
            Err(error) => directory_records(tree(nodes@), extents@, index, joliet) == Err::<
                Seq<Seq<u8>>,
                _,
            >(error@),
        },
{
    let records = build_directory_records(nodes, extents, index, joliet)?;
    match layout_length(records.as_slice()) {
        Some(length) if length as u64 <= u32::MAX as u64 => Ok(Some(length as u32)),
        _ => Ok(None),
    }
}

fn size_directory(nodes: &[IsoNode], extents: &mut Vec<Extents>, index: usize) -> (result: Result<
    (),
    ArchiveError,
>)
    requires
        index_fits(tree(nodes@), old(extents)@),
        index < nodes@.len(),
    ensures
        match result {
            Ok(()) => with_sizes(tree(nodes@), old(extents)@, index) == Ok::<_, ErrorView>(
                final(extents)@,
            ),
            Err(error) => with_sizes(tree(nodes@), old(extents)@, index) == Err::<Seq<Extents>, _>(
                error@,
            ),
        },
        final(extents)@.len() == old(extents)@.len(),
{
    proof {
        reveal(with_sizes);
    }
    let primary = directory_length(nodes, extents.as_slice(), index, false)?;
    let joliet = directory_length(nodes, extents.as_slice(), index, true)?;
    let primary: u32 = match primary {
        Some(length) => length,
        None => {
            return Err(iso_error(ErrorKind::Limit, "ISO directory extent exceeds u32"));
        },
    };
    let joliet: u32 = match joliet {
        Some(length) => length,
        None => {
            return Err(iso_error(ErrorKind::Limit, "Joliet directory extent exceeds u32"));
        },
    };
    let held = extents[index];
    extents.set(index, Extents { primary_size: primary, joliet_size: joliet, ..held });
    Ok(())
}

pub(crate) fn size_directories(nodes: &[IsoNode], extents: &mut Vec<Extents>, order: &[Listed]) -> (result:
    Result<(), ArchiveError>)
    requires
        index_fits(tree(nodes@), old(extents)@),
        lists_nodes(nodes@.len(), order@),
    ensures
        match result {
            Ok(()) => sized(tree(nodes@), old(extents)@, order@, order@.len()) == Ok::<
                _,
                ErrorView,
            >(final(extents)@),
            Err(error) => sized(tree(nodes@), old(extents)@, order@, order@.len()) == Err::<
                Seq<Extents>,
                _,
            >(error@),
        },
        final(extents)@.len() == old(extents)@.len(),
{
    let ghost all = tree(nodes@);
    let ghost start = extents@;
    let mut k: usize = 0;
    while k < order.len()
        invariant
            all == tree(nodes@),
            all.len() == nodes@.len(),
            start == old(extents)@,
            index_fits(all, extents@),
            extents@.len() == start.len(),
            lists_nodes(nodes@.len(), order@),
            k <= order@.len(),
            sized(all, start, order@, k as nat) == Ok::<_, ErrorView>(extents@),
        decreases order@.len() - k,
    {
        let index: usize = order[k].node;
        proof {
            assert(order@[k as int].node < nodes@.len());
            if sized(all, start, order@, (k + 1) as nat) is Err {
                lemma_sized_fails(all, start, order@, (k + 1) as nat, order@.len());
            }
        }
        size_directory(nodes, extents, index)?;
        k += 1;
    }
    Ok(())
}

// ---------------------------------------------------------------------------
// Path tables
// ---------------------------------------------------------------------------

/// The bytes that the records of the first `count` directories take.
pub open spec fn table_size(
    nodes: Seq<NodeView>,
    order: Seq<Listed>,
    joliet: bool,
    count: nat,
) -> nat
    decreases count,
{
    if count == 0 {
        0
    } else {
        table_size(nodes, order, joliet, (count - 1) as nat) + table_record_length(
            directory_identifier(nodes, order[count - 1].node, joliet).len(),
        )
    }
}

/// The path table record of a directory.
pub open spec fn table_record(
    identifier: Seq<u8>,
    lba: u32,
    parent_number: u16,
    big_endian: bool,
) -> Seq<u8> {
    seq![identifier.len() as u8, 0u8] + (if big_endian {
        big32(lba) + big16(parent_number)
    } else {
        little32(lba) + little16(parent_number)
    }) + identifier + zeros(identifier.len() % 2)
}

/// The path table records of the first `count` directories.
pub open spec fn path_table(
    nodes: Seq<NodeView>,
    extents: Seq<Extents>,
    order: Seq<Listed>,
    joliet: bool,
    big_endian: bool,
    count: nat,
) -> Seq<u8>
    decreases count,
{
    if count == 0 {
        Seq::empty()
    } else {
        let entry = order[count - 1];
        path_table(nodes, extents, order, joliet, big_endian, (count - 1) as nat) + table_record(
            directory_identifier(nodes, entry.node, joliet),
            extents[entry.node as int].spot(joliet).0,
            entry.parent_number,
            big_endian,
        )
    }
}

/// The names of all listed directories fit a path table.
pub open spec fn names_fit(nodes: Seq<NodeView>, order: Seq<Listed>) -> bool {
    forall|i: int, joliet: bool|
        #![trigger directory_identifier(nodes, order[i].node, joliet)]
        0 <= i < order.len() ==> directory_identifier(nodes, order[i].node, joliet).len() <= 255
}

/// A path table is as long as its records' lengths say.
pub proof fn law_path_table_length(
    nodes: Seq<NodeView>,
    extents: Seq<Extents>,
    order: Seq<Listed>,
    joliet: bool,
    big_endian: bool,
    count: nat,
)
    ensures
        path_table(nodes, extents, order, joliet, big_endian, count).len() == table_size(
            nodes,
            order,
            joliet,
            count,
        ),
    decreases count,
{
    if count > 0 {
        law_path_table_length(nodes, extents, order, joliet, big_endian, (count - 1) as nat);
    }
}

pub(crate) proof fn lemma_table_size_bound(nodes: Seq<NodeView>, order: Seq<Listed>, joliet: bool, count: nat)
    requires
        names_fit(nodes, order),
        count <= order.len(),
    ensures
        table_size(nodes, order, joliet, count) <= 264 * count,
    decreases count,
{
    if count > 0 {
        lemma_table_size_bound(nodes, order, joliet, (count - 1) as nat);
        assert(directory_identifier(nodes, order[count - 1].node, joliet).len() <= 255);
    }
}

/// The length of a path table.
pub fn path_table_size(nodes: &[IsoNode], order: &[Listed], joliet: bool) -> (size: usize)
    requires
        is_tree(tree(nodes@)),
        lists_nodes(nodes@.len(), order@),
        names_fit(tree(nodes@), order@),
    ensures
        size == table_size(tree(nodes@), order@, joliet, order@.len()),
        size <= 264 * order@.len(),
{
    let ghost all = tree(nodes@);
    let mut size: usize = 0;
    let mut k: usize = 0;
    while k < order.len()
        invariant
            all == tree(nodes@),
            all.len() == nodes@.len(),
            lists_nodes(nodes@.len(), order@),
            names_fit(all, order@),
            k <= order@.len(),
            size == table_size(all, order@, joliet, k as nat),
            size <= 264 * k,
        decreases order@.len() - k,
    {
        let index: usize = order[k].node;
        proof {
            assert(order@[k as int].node < nodes@.len());
            lemma_table_size_bound(all, order@, joliet, (k + 1) as nat);
            assert(directory_identifier(all, order@[k as int].node, joliet).len() <= 255);
        }
        let identifier = name_of_directory(nodes, index, joliet);
        size = size + path_table_record_length(identifier.len());
        k += 1;
    }
    size
}

fn push_table_record(
    table: &mut Vec<u8>,
    identifier: &[u8],
    lba: u32,
    parent_number: u16,
    big_endian: bool,
)
    requires
        identifier@.len() <= 255,
    ensures
        final(table)@ == old(table)@ + table_record(identifier@, lba, parent_number, big_endian),
{
    table.push(identifier.len() as u8);
    table.push(0);
    push_u32(table, lba, big_endian);
    push_u16(table, parent_number, big_endian);
    table.extend_from_slice(identifier);
    if identifier.len() % 2 != 0 {
        table.push(0);
    }
    proof {
        assert(table@ =~= old(table)@ + table_record(
            identifier@,
            lba,
            parent_number,
            big_endian,
        ));
    }
}

/// Writes a path table.
pub fn build_path_table(
    nodes: &[IsoNode],
    extents: &[Extents],
    order: &[Listed],
    joliet: bool,
    big_endian: bool,
) -> (table: Vec<u8>)
    requires
        index_fits(tree(nodes@), extents@),
        lists_nodes(nodes@.len(), order@),
        names_fit(tree(nodes@), order@),
    ensures
        table@ == path_table(tree(nodes@), extents@, order@, joliet, big_endian, order@.len()),
{
    let ghost all = tree(nodes@);
    let mut table: Vec<u8> = Vec::new();
    let mut k: usize = 0;
    proof {
        assert(table@ =~= Seq::<u8>::empty());
    }
    while k < order.len()
        invariant
            all == tree(nodes@),
            index_fits(all, extents@),
            all.len() == nodes@.len(),
            lists_nodes(nodes@.len(), order@),
            names_fit(all, order@),
            k <= order@.len(),
            table@ == path_table(all, extents@, order@, joliet, big_endian, k as nat),
        decreases order@.len() - k,
    {
        let entry = order[k];
        proof {
            assert(order@[k as int].node < nodes@.len());
            assert(directory_identifier(all, order@[k as int].node, joliet).len() <= 255);
        }
        let identifier = name_of_directory(nodes, entry.node, joliet);
        let (lba, _) = extents[entry.node].in_tree(joliet);
        push_table_record(
            &mut table,
            identifier.as_slice(),
            lba,
            entry.parent_number,
            big_endian,
        );
        k += 1;
    }
    table
}

} // verus!
