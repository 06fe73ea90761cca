//! The order of names in a directory and of directories in a path table.

use vstd::prelude::*;
use crate::entry::EntryKind;
use crate::error::{ArchiveError, ErrorKind, ErrorView};
use crate::iso::record::{iso_error, iso_fault};
use crate::iso::tree::{is_tree, tree, IsoNode, NodeView};

verus! {

/// `left` stands before `right` in a dictionary.
pub open spec fn before(left: Seq<u8>, right: Seq<u8>) -> bool
    decreases left.len(),
{
    if right.len() == 0 {
        false
    } else if left.len() == 0 {
        true
    } else if left[0] != right[0] {
        left[0] < right[0]
    } else {
        before(left.skip(1), right.skip(1))
    }
}

/// Compares two names.
pub fn stands_before(left: &[u8], right: &[u8]) -> (less: bool)
    ensures
        less == before(left@, right@),
{
    let mut i: usize = 0;
    proof {
        assert(left@.skip(0) =~= left@);
        assert(right@.skip(0) =~= right@);
    }
    while i < left.len() && i < right.len()
        invariant
            i <= left@.len(),
            i <= right@.len(),
            before(left@, right@) == before(left@.skip(i as int), right@.skip(i as int)),
        decreases left@.len() - i,
    {
        proof {
            assert(left@.skip(i as int).skip(1) =~= left@.skip(i + 1));
            assert(right@.skip(i as int).skip(1) =~= right@.skip(i + 1));
            assert(left@.skip(i as int)[0] == left@[i as int]);
            assert(right@.skip(i as int)[0] == right@[i as int]);
        }
        if left[i] != right[i] {
            return left[i] < right[i];
        }
        i += 1;
    }
    i < right.len()
}

proof fn lemma_before_is_asymmetric(left: Seq<u8>, right: Seq<u8>)
    requires
        before(left, right),
    ensures
        !before(right, left),
    decreases left.len(),
{
    if left.len() > 0 && left[0] == right[0] {
        lemma_before_is_asymmetric(left.skip(1), right.skip(1));
    }
}

/// What does not stand before something before `right` does not stand before
/// `right` either.
proof fn lemma_not_before_chains(low: Seq<u8>, middle: Seq<u8>, high: Seq<u8>)
    requires
        !before(middle, low),
        !before(high, middle),
    ensures
        !before(high, low),
    decreases low.len(),
{
    if low.len() > 0 && middle.len() > 0 && high.len() > 0 && low[0] == middle[0] && middle[0]
        == high[0] {
        lemma_not_before_chains(low.skip(1), middle.skip(1), high.skip(1));
    }
}

/// A list of nodes with one more put where its name belongs, behind nodes of
/// the same name.
pub open spec fn put(nodes: Seq<NodeView>, list: Seq<usize>, item: usize) -> Seq<usize>
    decreases list.len(),
{
    if list.len() > 0 && before(nodes[item as int].name, nodes[list.last() as int].name) {
        put(nodes, list.drop_last(), item).push(list.last())
    } else {
        list.push(item)
    }
}

/// A list of nodes in the order of their names.
pub open spec fn by_name(nodes: Seq<NodeView>, list: Seq<usize>) -> Seq<usize>
    decreases list.len(),
{
    if list.len() == 0 {
        list
    } else {
        put(nodes, by_name(nodes, list.drop_last()), list.last())
    }
}

/// No name stands before an earlier one.
pub open spec fn ordered(nodes: Seq<NodeView>, list: Seq<usize>) -> bool {
    forall|i: int, j: int|
        0 <= i < j < list.len() ==> !before(
            nodes[#[trigger] list[j] as int].name,
            nodes[#[trigger] list[i] as int].name,
        )
}

proof fn lemma_put(nodes: Seq<NodeView>, list: Seq<usize>, item: usize)
    requires
        ordered(nodes, list),
    ensures
        ordered(nodes, put(nodes, list, item)),
        put(nodes, list, item).to_multiset() == list.to_multiset().insert(item),
        put(nodes, list, item).len() == list.len() + 1,
        forall|i: int|
            0 <= i < put(nodes, list, item).len() ==> put(nodes, list, item)[i] == item
                || list.contains(#[trigger] put(nodes, list, item)[i]),
    decreases list.len(),
{
    broadcast use vstd::seq_lib::group_to_multiset_ensures;

    let result = put(nodes, list, item);
    if list.len() > 0 && before(nodes[item as int].name, nodes[list.last() as int].name) {
        let head = list.drop_last();
        let last = list.last();
        assert forall|i: int, j: int| 0 <= i < j < head.len() implies !before(
            nodes[#[trigger] head[j] as int].name,
            nodes[#[trigger] head[i] as int].name,
        ) by {
            assert(head[i] == list[i] && head[j] == list[j]);
        }
        lemma_put(nodes, head, item);
        let inner = put(nodes, head, item);
        lemma_before_is_asymmetric(nodes[item as int].name, nodes[last as int].name);
        assert forall|i: int, j: int| 0 <= i < j < result.len() implies !before(
            nodes[#[trigger] result[j] as int].name,
            nodes[#[trigger] result[i] as int].name,
        ) by {
            if j < inner.len() {
                assert(result[j] == inner[j] && result[i] == inner[i]);
            } else {
                assert(result[i] == inner[i] && result[j] == last);
                if inner[i] != item {
                    let k = choose|k: int| 0 <= k < head.len() && head[k] == inner[i];
                    assert(list[k] == inner[i]);
                    assert(list[list.len() - 1] == last);
                }
            }
        }
        assert forall|i: int| 0 <= i < result.len() implies result[i] == item || list.contains(
            #[trigger] result[i],
        ) by {
            if i < inner.len() {
                assert(result[i] == inner[i]);
                if inner[i] != item {
                    let k = choose|k: int| 0 <= k < head.len() && head[k] == inner[i];
                    assert(list[k] == inner[i]);
                }
            } else {
                assert(list[list.len() - 1] == result[i]);
            }
        }
        assert(list =~= head.push(last));
        assert(result.to_multiset() =~= list.to_multiset().insert(item));
    } else {
        assert forall|i: int, j: int| 0 <= i < j < result.len() implies !before(
            nodes[#[trigger] result[j] as int].name,
            nodes[#[trigger] result[i] as int].name,
        ) by {
            if j < list.len() {
                assert(result[j] == list[j] && result[i] == list[i]);
            } else {
                assert(result[i] == list[i]);
                let last = list[list.len() - 1];
                if i < list.len() - 1 {
                    assert(!before(nodes[last as int].name, nodes[list[i] as int].name));
                    lemma_not_before_chains(
                        nodes[list[i] as int].name,
                        nodes[last as int].name,
                        nodes[item as int].name,
                    );
                }
            }
        }
        assert forall|i: int| 0 <= i < result.len() implies result[i] == item || list.contains(
            #[trigger] result[i],
        ) by {
            if i < list.len() {
                assert(result[i] == list[i]);
            }
        }
    }
}

/// The list by name holds the same nodes, and no name stands before an earlier
/// one.
pub proof fn law_by_name_sorts(nodes: Seq<NodeView>, list: Seq<usize>)
    ensures
        ordered(nodes, by_name(nodes, list)),
        by_name(nodes, list).to_multiset() == list.to_multiset(),
        by_name(nodes, list).len() == list.len(),
        forall|i: int|
            0 <= i < by_name(nodes, list).len() ==> list.contains(
                #[trigger] by_name(nodes, list)[i],
            ),
    decreases list.len(),
{
    broadcast use vstd::seq_lib::group_to_multiset_ensures;

    if list.len() > 0 {
        let head = list.drop_last();
        law_by_name_sorts(nodes, head);
        let inner = by_name(nodes, head);
        lemma_put(nodes, inner, list.last());
        assert(list =~= head.push(list.last()));
        assert(by_name(nodes, list).to_multiset() =~= list.to_multiset());
        assert forall|i: int| 0 <= i < by_name(nodes, list).len() implies list.contains(
            #[trigger] by_name(nodes, list)[i],
        ) by {
            let found = by_name(nodes, list)[i];
            if found == list.last() {
                assert(list[list.len() - 1] == found);
            } else {
                let k = choose|k: int| 0 <= k < inner.len() && inner[k] == found;
                assert(head.contains(by_name(nodes, head)[k]));
                let m = choose|m: int| 0 <= m < head.len() && head[m] == found;
                assert(list[m] == found);
            }
        }
    }
}

proof fn lemma_put_position(nodes: Seq<NodeView>, list: Seq<usize>, item: usize, at: int)
    requires
        0 <= at <= list.len(),
        at == 0 || !before(nodes[item as int].name, nodes[list[at - 1] as int].name),
        forall|j: int|
            at <= j < list.len() ==> before(
                nodes[item as int].name,
                nodes[#[trigger] list[j] as int].name,
            ),
    ensures
        put(nodes, list, item) == list.insert(at, item),
    decreases list.len() - at,
{
    if at < list.len() {
        assert(before(nodes[item as int].name, nodes[list[list.len() - 1] as int].name));
        let head = list.drop_last();
        assert forall|j: int| at <= j < head.len() implies before(
            nodes[item as int].name,
            nodes[#[trigger] head[j] as int].name,
        ) by {
            assert(head[j] == list[j]);
        }
        lemma_put_position(nodes, head, item, at);
        assert(list.insert(at, item) =~= head.insert(at, item).push(list.last()));
    } else {
        assert(list.insert(at, item) =~= list.push(item));
    }
}

/// Sorts nodes by name.
pub fn sort_by_name(nodes: &[IsoNode], list: &[usize]) -> (sorted: Vec<usize>)
    requires
        forall|i: int| 0 <= i < list@.len() ==> #[trigger] list@[i] < nodes@.len(),
    ensures
        sorted@ == by_name(tree(nodes@), list@),
{
    let ghost all = tree(nodes@);
    let mut sorted: Vec<usize> = Vec::new();
    let mut k: usize = 0;
    proof {
        assert(list@.take(0) =~= sorted@);
    }
    while k < list.len()
        invariant
            all == tree(nodes@),
            all.len() == nodes@.len(),
            forall|i: int| 0 <= i < list@.len() ==> #[trigger] list@[i] < nodes@.len(),
            k <= list@.len(),
            sorted@ == by_name(all, list@.take(k as int)),
            sorted@.len() == k,
            forall|i: int| 0 <= i < sorted@.len() ==> #[trigger] sorted@[i] < nodes@.len(),
        decreases list@.len() - k,
    {
        let item: usize = list[k];
        let mut at: usize = sorted.len();
        let mut settled = false;
        while at > 0 && !settled
            invariant
                all == tree(nodes@),
                all.len() == nodes@.len(),
                item < nodes@.len(),
                at <= sorted@.len(),
                forall|i: int| 0 <= i < sorted@.len() ==> #[trigger] sorted@[i] < nodes@.len(),
                forall|j: int|
                    at <= j < sorted@.len() ==> before(
                        all[item as int].name,
                        all[#[trigger] sorted@[j] as int].name,
                    ),
                settled ==> at > 0 && !before(
                    all[item as int].name,
                    all[sorted@[at - 1] as int].name,
                ),
            decreases at + if settled { 0int } else { 1 },
        {
            let other: usize = sorted[at - 1];
            proof {
                assert(all[item as int] == nodes@[item as int]@);
                assert(all[other as int] == nodes@[other as int]@);
            }
            if stands_before(nodes[item].name.as_slice(), nodes[other].name.as_slice()) {
                at -= 1;
            } else {
                settled = true;
            }
        }
        let ghost held = sorted@;
        proof {
            lemma_put_position(all, held, item, at as int);
            assert(list@.take(k + 1).drop_last() =~= list@.take(k as int));
            assert(list@.take(k + 1).last() == item);
        }
        sorted.insert(at, item);
        k += 1;
    }
    proof {
        assert(list@.take(k as int) =~= list@);
    }
    sorted
}

// ---------------------------------------------------------------------------
// Directories
// ---------------------------------------------------------------------------

/// The directories in a list of nodes.
pub open spec fn directories(nodes: Seq<NodeView>, list: Seq<usize>) -> Seq<usize> {
    list.filter(|index: usize| nodes[index as int].kind == EntryKind::Dir)
}

/// The directories right below a node, by name.
pub open spec fn subdirectories(nodes: Seq<NodeView>, index: usize) -> Seq<usize> {
    by_name(nodes, directories(nodes, nodes[index as int].children))
}

/// A directory in the path table, and the number of its parent there.
#[derive(Clone, Copy, Debug, PartialEq, Eq, Structural)]
pub struct Listed {
    pub node: usize,
    pub parent_number: u16,
}

/// Entries for the directories below the directory of a number.
pub open spec fn listed(list: Seq<usize>, parent_number: int) -> Seq<Listed> {
    Seq::new(
        list.len(),
        |i: int| Listed { node: list[i], parent_number: parent_number as u16 },
    )
}

/// The most directories that can be numbered.
pub const MOST_DIRECTORIES: usize = 65534;

/// Goes on listing directories level by level: those below the one at `at`
/// come behind all that are listed.
pub open spec fn listing(nodes: Seq<NodeView>, list: Seq<Listed>, at: nat) -> Result<
    Seq<Listed>,
    ErrorView,
>
    decreases MOST_DIRECTORIES - at,
{
    if at >= list.len() {
        Ok(list)
    } else {
        let below = subdirectories(nodes, list[at as int].node);
        if list.len() + below.len() > MOST_DIRECTORIES {
            Err(iso_fault(ErrorKind::Limit, "too many ISO directories"@))
        } else {
            listing(nodes, list + listed(below, at as int + 1), at + 1)
        }
    }
}

/// The entry of the root, which is its own parent.
pub open spec fn root_entry() -> Listed {
    Listed { node: 0, parent_number: 1 }
}

/// All directories, level by level, each level by parent and name. A directory
/// has the number of its place in the list, counted from one.
pub open spec fn directory_order(nodes: Seq<NodeView>) -> Result<Seq<Listed>, ErrorView> {
    listing(nodes, seq![root_entry()], 0)
}

/// Entries are nodes of a tree with `count` nodes, and not too many.
pub open spec fn lists_nodes(count: nat, list: Seq<Listed>) -> bool {
    &&& list.len() <= MOST_DIRECTORIES
    &&& forall|i: int| 0 <= i < list.len() ==> (#[trigger] list[i]).node < count
}

/// The root comes first; every other entry comes behind its parent's and names
/// its parent's number.
pub open spec fn is_listing(nodes: Seq<NodeView>, list: Seq<Listed>) -> bool {
    &&& list.len() > 0
    &&& list[0] == root_entry()
    &&& forall|i: int|
        0 < i < list.len() ==> {
            let number = (#[trigger] list[i]).parent_number;
            1 <= number <= i && list[number - 1].node == nodes[list[i].node as int].parent
        }
}

proof fn lemma_subdirectories(nodes: Seq<NodeView>, index: usize)
    requires
        is_tree(nodes),
        index < nodes.len(),
    ensures
        forall|k: int|
            0 <= k < subdirectories(nodes, index).len() ==> {
                let found = #[trigger] subdirectories(nodes, index)[k];
                found < nodes.len() && nodes[found as int].parent == index && nodes[found as int].kind
                    == EntryKind::Dir
            },
{
    let all = nodes[index as int].children;
    let dirs = directories(nodes, all);
    law_by_name_sorts(nodes, dirs);
    let test = |node: usize| nodes[node as int].kind == EntryKind::Dir;
    assert forall|k: int| 0 <= k < subdirectories(nodes, index).len() implies {
        let found = #[trigger] subdirectories(nodes, index)[k];
        found < nodes.len() && nodes[found as int].parent == index && nodes[found as int].kind
            == EntryKind::Dir
    } by {
        let found = by_name(nodes, dirs)[k];
        assert(dirs.contains(found));
        all.lemma_filter_contains_rev(test, found);
        let d = choose|d: int| 0 <= d < dirs.len() && dirs[d] == found;
        broadcast use vstd::seq_lib::group_filter_ensures;

        assert(test(dirs[d]));
        let m = choose|m: int| 0 <= m < all.len() && all[m] == found;
        assert(nodes[index as int].children[m] == found);
    }
}

proof fn lemma_listing_step(nodes: Seq<NodeView>, list: Seq<Listed>, at: int)
    requires
        is_tree(nodes),
        is_listing(nodes, list),
        lists_nodes(nodes.len(), list),
        0 <= at < list.len(),
        list.len() + subdirectories(nodes, list[at].node).len() <= MOST_DIRECTORIES,
    ensures
        is_listing(nodes, list + listed(subdirectories(nodes, list[at].node), at + 1)),
        lists_nodes(
            nodes.len(),
            list + listed(subdirectories(nodes, list[at].node), at + 1),
        ),
{
    let below = subdirectories(nodes, list[at].node);
    let more = listed(below, at + 1);
    let all = list + more;
    assert(list[at].node < nodes.len());
    lemma_subdirectories(nodes, list[at].node);
    assert forall|i: int| 0 <= i < all.len() implies (#[trigger] all[i]).node < nodes.len() by {
        if i < list.len() {
            assert(all[i] == list[i]);
        } else {
            assert(all[i].node == below[i - list.len()]);
        }
    }
    assert forall|i: int| 0 < i < all.len() implies {
        let number = (#[trigger] all[i]).parent_number;
        1 <= number <= i && all[number - 1].node == nodes[all[i].node as int].parent
    } by {
        if i < list.len() {
            assert(all[i] == list[i]);
            let number = list[i].parent_number;
            assert(all[number - 1] == list[number - 1]);
        } else {
            assert(all[i].node == below[i - list.len()]);
            assert(all[i].parent_number == at + 1);
            assert(all[at] == list[at]);
        }
    }
}

proof fn lemma_listing(nodes: Seq<NodeView>, list: Seq<Listed>, at: nat)
    requires
        is_tree(nodes),
        is_listing(nodes, list),
        lists_nodes(nodes.len(), list),
        at <= list.len(),
    ensures
        listing(nodes, list, at) matches Ok(all) ==> is_listing(nodes, all) && lists_nodes(
            nodes.len(),
            all,
        ),
    decreases MOST_DIRECTORIES - at,
{
    if at < list.len() {
        let below = subdirectories(nodes, list[at as int].node);
        if list.len() + below.len() <= MOST_DIRECTORIES {
            lemma_listing_step(nodes, list, at as int);
            lemma_listing(nodes, list + listed(below, at as int + 1), at + 1);
        }
    }
}

/// In the list of directories the root comes first, and every other directory
/// comes behind its parent and names its parent's number.
pub proof fn law_parents_come_first(nodes: Seq<NodeView>)
    requires
        is_tree(nodes),
    ensures
        directory_order(nodes) matches Ok(list) ==> is_listing(nodes, list) && lists_nodes(
            nodes.len(),
            list,
        ),
{
    lemma_listing(nodes, seq![root_entry()], 0);
}

/// Picks the directories of a list.
fn pick_directories(nodes: &[IsoNode], list: &[usize]) -> (picked: Vec<usize>)
    requires
        forall|i: int| 0 <= i < list@.len() ==> #[trigger] list@[i] < nodes@.len(),
    ensures
        picked@ == directories(tree(nodes@), list@),
        forall|i: int| 0 <= i < picked@.len() ==> #[trigger] picked@[i] < nodes@.len(),
{
    let ghost all = tree(nodes@);
    let ghost test = |index: usize| all[index as int].kind == EntryKind::Dir;
    let mut picked: Vec<usize> = Vec::new();
    let mut k: usize = 0;
    proof {
        reveal(Seq::filter);
        assert(list@.take(0) =~= Seq::<usize>::empty());
        assert(picked@ =~= list@.take(0).filter(test));
    }
    while k < list.len()
        invariant
            all == tree(nodes@),
            all.len() == nodes@.len(),
            test == (|index: usize| all[index as int].kind == EntryKind::Dir),
            forall|i: int| 0 <= i < list@.len() ==> #[trigger] list@[i] < nodes@.len(),
            k <= list@.len(),
            picked@ == list@.take(k as int).filter(test),
            forall|i: int| 0 <= i < picked@.len() ==> #[trigger] picked@[i] < nodes@.len(),
        decreases list@.len() - k,
    {
        let index: usize = list[k];
        proof {
            reveal(Seq::filter);
            assert(all[index as int] == nodes@[index as int]@);
            assert(list@.take(k + 1).drop_last() =~= list@.take(k as int));
            assert(list@.take(k + 1).last() == index);
        }
        if nodes[index].kind == EntryKind::Dir {
            picked.push(index);
        }
        k += 1;
    }
    proof {
        assert(list@.take(k as int) =~= list@);
    }
    picked
}

/// Lists all directories, level by level.
pub fn order_directories(nodes: &[IsoNode]) -> (result: Result<Vec<Listed>, ArchiveError>)
    requires
        is_tree(tree(nodes@)),
    ensures
        match result {
            Ok(list) => directory_order(tree(nodes@)) == Ok::<_, ErrorView>(list@) && is_listing(
                tree(nodes@),
                list@,
            ) && lists_nodes(nodes@.len(), list@),
            Err(error) => directory_order(tree(nodes@)) == Err::<Seq<Listed>, _>(error@),
        },
{
    let ghost all = tree(nodes@);
    let mut list: Vec<Listed> = Vec::new();
    list.push(Listed { node: 0, parent_number: 1 });
    let mut at: usize = 0;
    proof {
        assert(list@ =~= seq![root_entry()]);
        law_parents_come_first(all);
    }
    while at < list.len()
        invariant
            all == tree(nodes@),
            all.len() == nodes@.len(),
            is_tree(all),
            at <= list@.len(),
            is_listing(all, list@),
            lists_nodes(all.len(), list@),
            directory_order(all) == listing(all, list@, at as nat),
        decreases MOST_DIRECTORIES - at,
    {
        let directory: usize = list[at].node;
        proof {
            assert(list@[at as int].node < nodes@.len());
            assert(all[directory as int] == nodes@[directory as int]@);
            assert forall|i: int| 0 <= i < nodes@[directory as int].children@.len() implies (
            #[trigger] nodes@[directory as int].children@[i]) < nodes@.len() by {
                assert(all[directory as int].children[i] < all.len());
            }
        }
        let picked = pick_directories(nodes, nodes[directory].children.as_slice());
        let below = sort_by_name(nodes, picked.as_slice());
        proof {
            assert(below@ == subdirectories(all, directory));
        }
        if below.len() > MOST_DIRECTORIES - list.len() {
            return Err(iso_error(ErrorKind::Limit, "too many ISO directories"));
        }
        let number: u16 = (at + 1) as u16;
        let ghost before = list@;
        let mut k: usize = 0;
        while k < below.len()
            invariant
                k <= below@.len(),
                number == at + 1,
                list@ =~= before + listed(below@.take(k as int), at as int + 1),
            decreases below@.len() - k,
        {
            list.push(Listed { node: below[k], parent_number: number });
            k += 1;
        }
        proof {
            assert(below@.take(k as int) =~= below@);
            lemma_listing_step(all, before, at as int);
        }
        at += 1;
    }
    Ok(list)
}

} // verus!
