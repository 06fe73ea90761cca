//! The tree of directories and files that an image will hold.

use vstd::prelude::*;
use crate::bytes::{contains_byte, has_prefix, same_bytes, starts_with, to_vec};
use crate::entry::{EntryKind, EntryMetadata};
use crate::error::{ArchiveError, ErrorKind, ErrorView};
use crate::iso::record::{iso_error, iso_fault};
use crate::limits::Limits;
use crate::parts::{components, split_pieces, texts, SLASH};

verus! {

// ---------------------------------------------------------------------------
// Paths
// ---------------------------------------------------------------------------

/// `.` or `..`.
pub open spec fn is_dots(component: Seq<u8>) -> bool {
    component == seq![0x2eu8] || component == seq![0x2eu8, 0x2eu8]
}

fn dots(component: &[u8]) -> (found: bool)
    ensures
        found == is_dots(component@),
{
    proof {
        if component@.len() == 1 && component@[0] == 0x2e {
            assert(component@ =~= seq![0x2eu8]);
        }
        if component@.len() == 2 && component@[0] == 0x2e && component@[1] == 0x2e {
            assert(component@ =~= seq![0x2eu8, 0x2eu8]);
        }
    }
    (component.len() == 1 && component[0] == 0x2e) || (component.len() == 2 && component[0] == 0x2e
        && component[1] == 0x2e)
}

/// Some component is `.` or `..`.
pub open spec fn has_dots(parts: Seq<Seq<u8>>) -> bool {
    exists|i: int| 0 <= i < parts.len() && is_dots(#[trigger] parts[i])
}

/// The components of a path that an image can hold.
pub open spec fn normalized(path: Seq<u8>, limits: Limits) -> Result<Seq<Seq<u8>>, ErrorView> {
    let parts = components(path);
    if path.len() == 0 || has_prefix(path, seq![SLASH]) || path.contains(0u8) {
        Err(
            iso_fault(
                ErrorKind::Protocol,
                "ISO path must be a non-empty relative byte path"@,
            ),
        )
    } else if limits.path_bytes matches Some(maximum) && path.len() > maximum {
        Err(iso_fault(ErrorKind::Limit, "ISO path exceeds configured limit"@))
    } else if parts.len() == 0 || has_dots(parts) {
        Err(iso_fault(ErrorKind::Protocol, "ISO path contains an invalid component"@))
    } else if limits.nesting matches Some(maximum) && parts.len() > maximum {
        Err(iso_fault(ErrorKind::Limit, "ISO path nesting exceeds configured limit"@))
    } else {
        Ok(parts)
    }
}

/// Splits a path into the components that an image can hold.
pub fn normalize_path(path: &[u8], limits: Limits) -> (result: Result<Vec<Vec<u8>>, ArchiveError>)
    ensures
        match result {
            Ok(parts) => normalized(path@, limits) == Ok::<_, ErrorView>(texts(parts@)),
            Err(error) => normalized(path@, limits) == Err::<Seq<Seq<u8>>, _>(error@),
        },
{
    proof {
        assert([SLASH]@ =~= seq![SLASH]);
    }
    if path.len() == 0 || starts_with(path, &[SLASH]) || contains_byte(path, 0) {
        return Err(
            iso_error(
                ErrorKind::Protocol,
                "ISO path must be a non-empty relative byte path",
            ),
        );
    }
    if let Some(maximum) = limits.path_bytes {
        if path.len() > maximum {
            return Err(iso_error(ErrorKind::Limit, "ISO path exceeds configured limit"));
        }
    }
    let parts = split_pieces(path, SLASH);
    let ghost all = components(path@);
    proof {
        assert(texts(parts@).len() == parts@.len());
    }
    let mut invalid = parts.len() == 0;
    let mut i: usize = 0;
    while i < parts.len()
        invariant
            all == texts(parts@),
            all.len() == parts@.len(),
            i <= parts@.len(),
            invalid == (parts@.len() == 0 || exists|j: int|
                0 <= j < i && is_dots(#[trigger] all[j])),
        decreases parts@.len() - i,
    {
        proof {
            assert(all[i as int] == parts@[i as int]@);
        }
        if dots(parts[i].as_slice()) {
            invalid = true;
        }
        i += 1;
    }
    if invalid {
        return Err(iso_error(ErrorKind::Protocol, "ISO path contains an invalid component"));
    }
    if let Some(maximum) = limits.nesting {
        if parts.len() > maximum {
            return Err(iso_error(ErrorKind::Limit, "ISO path nesting exceeds configured limit"));
        }
    }
    Ok(parts)
}

/// The components of a path that an image holds name no parent, and none is
/// empty, holds a slash or holds a zero byte.
pub proof fn law_normalized_paths_stay_inside(path: Seq<u8>, limits: Limits)
    ensures
        normalized(path, limits) matches Ok(parts) ==> {
            &&& parts.len() > 0
            &&& forall|i: int|
                0 <= i < parts.len() ==> {
                    &&& (#[trigger] parts[i]).len() > 0
                    &&& !parts[i].contains(SLASH)
                    &&& !is_dots(parts[i])
                }
        },
{
    crate::parts::law_pieces_are_plain(path, SLASH);
}

// ---------------------------------------------------------------------------
// Nodes
// ---------------------------------------------------------------------------

/// A node of the tree.
#[derive(Debug)]
pub struct IsoNode {
    pub name: Vec<u8>,
    pub kind: EntryKind,
    /// What is recorded about the node; nothing for a directory that is there
    /// only because something lies in it.
    pub metadata: Option<EntryMetadata>,
    pub children: Vec<usize>,
    pub parent: usize,
    pub file_lba: u32,
    pub file_size: u32,
}

/// The mathematical content of an [`IsoNode`].
#[verifier::ext_equal]
pub struct NodeView {
    pub name: Seq<u8>,
    pub kind: EntryKind,
    pub metadata: Option<EntryMetadata>,
    pub children: Seq<usize>,
    pub parent: usize,
    pub file_lba: u32,
    pub file_size: u32,
}

impl View for IsoNode {
    type V = NodeView;

    open spec fn view(&self) -> NodeView {
        NodeView {
            name: self.name@,
            kind: self.kind,
            metadata: self.metadata,
            children: self.children@,
            parent: self.parent,
            file_lba: self.file_lba,
            file_size: self.file_size,
        }
    }
}

/// The nodes of a tree.
pub open spec fn tree(nodes: Seq<IsoNode>) -> Seq<NodeView> {
    nodes.map_values(|node: IsoNode| node@)
}

/// A directory that nothing is recorded about.
pub open spec fn implicit(name: Seq<u8>, parent: usize) -> NodeView {
    NodeView {
        name,
        kind: EntryKind::Dir,
        metadata: None,
        children: Seq::empty(),
        parent,
        file_lba: 0,
        file_size: 0,
    }
}

impl IsoNode {
    /// A directory that nothing is recorded about.
    pub fn implicit_directory(name: Vec<u8>, parent: usize) -> (node: Self)
        ensures
            node@ == implicit(name@, parent),
    {
        let node = IsoNode {
            name,
            kind: EntryKind::Dir,
            metadata: None,
            children: Vec::new(),
            parent,
            file_lba: 0,
            file_size: 0,
        };
        proof {
            assert(node@.children =~= Seq::<usize>::empty());
        }
        node
    }

    /// The root of a tree.
    pub fn root() -> (node: Self)
        ensures
            node@ == implicit(Seq::empty(), 0),
    {
        let name: Vec<u8> = Vec::new();
        proof {
            assert(name@ =~= Seq::<u8>::empty());
        }
        IsoNode::implicit_directory(name, 0)
    }
}

/// The nodes make a tree: the first is its root, a directory; every child comes
/// behind its parent and knows it.
pub open spec fn is_tree(nodes: Seq<NodeView>) -> bool {
    &&& nodes.len() > 0
    &&& nodes[0].kind == EntryKind::Dir
    &&& nodes[0].parent == 0
    &&& forall|i: int| 0 <= i < nodes.len() ==> (#[trigger] nodes[i]).parent < nodes.len()
    &&& forall|i: int, k: int|
        0 <= i < nodes.len() && 0 <= k < nodes[i].children.len() ==> {
            let child = #[trigger] nodes[i].children[k];
            i < child < nodes.len() && nodes[child as int].parent == i
        }
}

/// The first of the listed nodes with a name.
pub open spec fn named(nodes: Seq<NodeView>, list: Seq<usize>, name: Seq<u8>) -> Option<usize>
    decreases list.len(),
{
    if list.len() == 0 {
        None
    } else if nodes[list[0] as int].name == name {
        Some(list[0])
    } else {
        named(nodes, list.skip(1), name)
    }
}

/// The child of a node with a name.
pub open spec fn child(nodes: Seq<NodeView>, parent: usize, name: Seq<u8>) -> Option<usize> {
    named(nodes, nodes[parent as int].children, name)
}

pub proof fn lemma_named_is_listed(nodes: Seq<NodeView>, list: Seq<usize>, name: Seq<u8>)
    ensures
        named(nodes, list, name) matches Some(index) ==> list.contains(index)
            && nodes[index as int].name == name,
    decreases list.len(),
{
    if list.len() > 0 && nodes[list[0] as int].name != name {
        lemma_named_is_listed(nodes, list.skip(1), name);
        if let Some(index) = named(nodes, list, name) {
            let k = choose|k: int| 0 <= k < list.skip(1).len() && list.skip(1)[k] == index;
            assert(list[k + 1] == index);
        }
    } else if list.len() > 0 {
        assert(list.contains(list[0]));
    }
}

pub(crate) proof fn lemma_child_is_inside(nodes: Seq<NodeView>, parent: usize, name: Seq<u8>)
    requires
        is_tree(nodes),
        parent < nodes.len(),
    ensures
        child(nodes, parent, name) matches Some(index) ==> parent < index < nodes.len(),
{
    let list = nodes[parent as int].children;
    lemma_named_is_listed(nodes, list, name);
    if let Some(index) = child(nodes, parent, name) {
        let k = choose|k: int| 0 <= k < list.len() && list[k] == index;
        assert(nodes[parent as int].children[k] == index);
    }
}

/// Finds the child of a node with a name.
pub fn find_child(nodes: &[IsoNode], parent: usize, name: &[u8]) -> (found: Option<usize>)
    requires
        is_tree(tree(nodes@)),
        parent < nodes@.len(),
    ensures
        found == child(tree(nodes@), parent, name@),
        found matches Some(index) ==> parent < index < nodes@.len(),
{
    let ghost all = tree(nodes@);
    let ghost list = all[parent as int].children;
    proof {
        lemma_child_is_inside(all, parent, name@);
        assert(list.skip(0) =~= list);
        assert(all[parent as int] == nodes@[parent as int]@);
    }
    let mut k: usize = 0;
    while k < nodes[parent].children.len()
        invariant
            is_tree(all),
            all == tree(nodes@),
            all.len() == nodes@.len(),
            parent < nodes@.len(),
            list == nodes@[parent as int].children@,
            list == all[parent as int].children,
            k <= list.len(),
            named(all, list, name@) == named(all, list.skip(k as int), name@),
        decreases list.len() - k,
    {
        let index: usize = nodes[parent].children[k];
        proof {
            assert(all[parent as int].children[k as int] == index);
            assert(all[index as int] == nodes@[index as int]@);
            assert(list.skip(k as int)[0] == index);
            assert(list.skip(k as int).skip(1) =~= list.skip(k + 1));
        }
        if same_bytes(nodes[index].name.as_slice(), name) {
            return Some(index);
        }
        k += 1;
    }
    None
}

/// How many nodes a path still needs below `current`.
pub open spec fn missing_nodes(
    nodes: Seq<NodeView>,
    current: usize,
    parts: Seq<Seq<u8>>,
) -> Result<nat, ErrorView>
    decreases parts.len(),
{
    if parts.len() == 0 {
        Ok(0)
    } else {
        match child(nodes, current, parts[0]) {
            None => Ok(parts.len()),
            Some(next) => if parts.len() != 1 && nodes[next as int].kind != EntryKind::Dir {
                Err(iso_fault(ErrorKind::Protocol, "ISO path traverses a non-directory entry"@))
            } else if parts.len() == 1 && nodes[next as int].metadata is Some {
                Err(iso_fault(ErrorKind::Protocol, "duplicate ISO entry path"@))
            } else {
                missing_nodes(nodes, next, parts.skip(1))
            },
        }
    }
}

/// Counts the nodes that a path still needs.
pub fn validate_tree_path(nodes: &[IsoNode], parts: &[Vec<u8>]) -> (result: Result<
    usize,
    ArchiveError,
>)
    requires
        is_tree(tree(nodes@)),
    ensures
        match result {
            Ok(missing) => missing_nodes(tree(nodes@), 0, texts(parts@)) == Ok::<_, ErrorView>(
                missing as nat,
            ) && missing <= parts@.len(),
            Err(error) => missing_nodes(tree(nodes@), 0, texts(parts@)) == Err::<nat, _>(error@),
        },
{
    let ghost all = tree(nodes@);
    let ghost wanted = texts(parts@);
    let mut current: usize = 0;
    let mut position: usize = 0;
    proof {
        assert(wanted.skip(0) =~= wanted);
    }
    while position < parts.len()
        invariant
            all == tree(nodes@),
            is_tree(all),
            all.len() == nodes@.len(),
            wanted == texts(parts@),
            wanted.len() == parts@.len(),
            position <= parts@.len(),
            current < nodes@.len(),
            missing_nodes(all, 0, wanted) == missing_nodes(
                all,
                current,
                wanted.skip(position as int),
            ),
        decreases parts@.len() - position,
    {
        proof {
            assert(wanted.skip(position as int)[0] == parts@[position as int]@);
            assert(wanted.skip(position as int).skip(1) =~= wanted.skip(position + 1));
        }
        let last = position + 1 == parts.len();
        match find_child(nodes, current, parts[position].as_slice()) {
            None => {
                return Ok(parts.len() - position);
            },
            Some(next) => {
                proof {
                    assert(all[next as int] == nodes@[next as int]@);
                }
                if !last && nodes[next].kind != EntryKind::Dir {
                    return Err(
                        iso_error(ErrorKind::Protocol, "ISO path traverses a non-directory entry"),
                    );
                }
                if last && nodes[next].metadata.is_some() {
                    return Err(iso_error(ErrorKind::Protocol, "duplicate ISO entry path"));
                }
                current = next;
            },
        }
        position += 1;
    }
    Ok(0)
}

/// The node that a path below `current` leads to.
pub open spec fn reached(nodes: Seq<NodeView>, current: usize, parts: Seq<Seq<u8>>) -> Option<usize>
    decreases parts.len(),
{
    if parts.len() == 0 {
        Some(current)
    } else {
        match child(nodes, current, parts[0]) {
            None => None,
            Some(next) => reached(nodes, next, parts.skip(1)),
        }
    }
}

/// Finds the node that a path leads to.
pub fn find_path(nodes: &[IsoNode], parts: &[Vec<u8>]) -> (found: Option<usize>)
    requires
        is_tree(tree(nodes@)),
    ensures
        found == reached(tree(nodes@), 0, texts(parts@)),
        found matches Some(index) ==> index < nodes@.len(),
{
    let ghost all = tree(nodes@);
    let ghost wanted = texts(parts@);
    let mut current: usize = 0;
    let mut position: usize = 0;
    proof {
        assert(wanted.skip(0) =~= wanted);
    }
    while position < parts.len()
        invariant
            all == tree(nodes@),
            is_tree(all),
            all.len() == nodes@.len(),
            wanted == texts(parts@),
            wanted.len() == parts@.len(),
            position <= parts@.len(),
            current < nodes@.len(),
            reached(all, 0, wanted) == reached(all, current, wanted.skip(position as int)),
        decreases parts@.len() - position,
    {
        proof {
            assert(wanted.skip(position as int)[0] == parts@[position as int]@);
            assert(wanted.skip(position as int).skip(1) =~= wanted.skip(position + 1));
        }
        match find_child(nodes, current, parts[position].as_slice()) {
            None => {
                return None;
            },
            Some(next) => {
                current = next;
            },
        }
        position += 1;
    }
    Some(current)
}

/// The tree with a child of this name below `parent`, and that child: the one
/// that is there, or a new directory.
pub open spec fn with_child(nodes: Seq<NodeView>, parent: usize, name: Seq<u8>) -> (
    Seq<NodeView>,
    usize,
) {
    match child(nodes, parent, name) {
        Some(index) => (nodes, index),
        None => {
            let index = nodes.len() as usize;
            let node = nodes[parent as int];
            (
                nodes.update(
                    parent as int,
                    NodeView { children: node.children.push(index), ..node },
                ).push(implicit(name, parent)),
                index,
            )
        },
    }
}

/// The tree with all nodes of a path below `parent`, and the last of them.
pub open spec fn with_path(nodes: Seq<NodeView>, parent: usize, parts: Seq<Seq<u8>>) -> (
    Seq<NodeView>,
    usize,
)
    decreases parts.len(),
{
    if parts.len() == 0 {
        (nodes, parent)
    } else {
        let (next, index) = with_child(nodes, parent, parts[0]);
        with_path(next, index, parts.skip(1))
    }
}

proof fn lemma_with_child_is_tree(nodes: Seq<NodeView>, parent: usize, name: Seq<u8>)
    requires
        is_tree(nodes),
        parent < nodes.len(),
        nodes.len() <= usize::MAX,
    ensures
        ({
            let (next, index) = with_child(nodes, parent, name);
            &&& is_tree(next)
            &&& nodes.len() <= next.len() <= nodes.len() + 1
            &&& 0 < index < next.len()
            &&& next[index as int].name == name
        }),
{
    lemma_child_is_inside(nodes, parent, name);
    lemma_named_is_listed(nodes, nodes[parent as int].children, name);
    let (next, index) = with_child(nodes, parent, name);
    if child(nodes, parent, name) is None {
        assert forall|i: int, k: int|
            0 <= i < next.len() && 0 <= k < next[i].children.len() implies {
            let c = #[trigger] next[i].children[k];
            i < c < next.len() && next[c as int].parent == i
        } by {
            if i < nodes.len() && k < nodes[i].children.len() {
                assert(next[i].children[k] == nodes[i].children[k]);
            }
        }
        assert forall|i: int| 0 <= i < next.len() implies (#[trigger] next[i]).parent
            < next.len() by {
            if i < nodes.len() {
                assert(nodes[i].parent < nodes.len());
            }
        }
    }
}

/// Makes sure that a node has a child of this name.
pub fn child_directory(nodes: &mut Vec<IsoNode>, parent: usize, name: &[u8]) -> (index: usize)
    requires
        is_tree(tree(old(nodes)@)),
        parent < old(nodes)@.len(),
    ensures
        (tree(final(nodes)@), index) == with_child(tree(old(nodes)@), parent, name@),
        is_tree(tree(final(nodes)@)),
        0 < index < final(nodes)@.len(),
{
    let ghost all = tree(nodes@);
    let index: usize = nodes.len();
    proof {
        lemma_with_child_is_tree(all, parent, name@);
    }
    match find_child(nodes.as_slice(), parent, name) {
        Some(index) => index,
        None => {
            let ghost before = nodes@;
            nodes[parent].children.push(index);
            nodes.push(IsoNode::implicit_directory(to_vec(name), parent));
            proof {
                let next = with_child(all, parent, name@).0;
                assert(tree(nodes@).len() == next.len());
                assert forall|i: int| 0 <= i < next.len() implies tree(nodes@)[i] == next[i] by {
                    if i < before.len() && i != parent {
                        assert(nodes@[i] == before[i]);
                        assert(all[i] == before[i]@);
                    }
                    if i == parent {
                        assert(all[i] == before[i]@);
                        assert(nodes@[i]@.children =~= next[i].children);
                        assert(nodes@[i]@ =~= next[i]);
                    }
                }
                assert(tree(nodes@) =~= next);
            }
            index
        },
    }
}

/// Makes sure that all nodes of a path are there; returns the last of them.
pub fn create_path(nodes: &mut Vec<IsoNode>, parts: &[Vec<u8>]) -> (index: usize)
    requires
        is_tree(tree(old(nodes)@)),
    ensures
        (tree(final(nodes)@), index) == with_path(tree(old(nodes)@), 0, texts(parts@)),
        is_tree(tree(final(nodes)@)),
        index < final(nodes)@.len(),
        parts@.len() > 0 ==> index > 0,
{
    let ghost all = tree(nodes@);
    let ghost wanted = texts(parts@);
    let mut current: usize = 0;
    let mut position: usize = 0;
    proof {
        assert(wanted.skip(0) =~= wanted);
    }
    while position < parts.len()
        invariant
            is_tree(tree(nodes@)),
            wanted == texts(parts@),
            wanted.len() == parts@.len(),
            position <= parts@.len(),
            current < nodes@.len(),
            position > 0 ==> current > 0,
            with_path(all, 0, wanted) == with_path(
                tree(nodes@),
                current,
                wanted.skip(position as int),
            ),
        decreases parts@.len() - position,
    {
        proof {
            assert(wanted.skip(position as int)[0] == parts@[position as int]@);
            assert(wanted.skip(position as int).skip(1) =~= wanted.skip(position + 1));
        }
        current = child_directory(nodes, current, parts[position].as_slice());
        position += 1;
    }
    current
}

/// The nodes of a path are found where they were created.
pub proof fn law_created_paths_are_reached(
    nodes: Seq<NodeView>,
    parent: usize,
    parts: Seq<Seq<u8>>,
)
    requires
        is_tree(nodes),
        parent < nodes.len(),
        nodes.len() + parts.len() <= usize::MAX,
    ensures
        ({
            let (next, index) = with_path(nodes, parent, parts);
            &&& is_tree(next)
            &&& reached(next, parent, parts) == Some(index)
        }),
    decreases parts.len(),
{
    if parts.len() > 0 {
        let (next, index) = with_child(nodes, parent, parts[0]);
        lemma_with_child_is_tree(nodes, parent, parts[0]);
        law_created_paths_are_reached(next, index, parts.skip(1));
        let (last, end) = with_path(nodes, parent, parts);
        lemma_child_after_creation(nodes, parent, parts[0]);
        lemma_with_path_keeps_children(next, index, parts.skip(1), parent, parts[0]);
    }
}

proof fn lemma_named_pushed(
    nodes: Seq<NodeView>,
    next: Seq<NodeView>,
    list: Seq<usize>,
    name: Seq<u8>,
)
    requires
        nodes.len() <= next.len(),
        forall|i: int| 0 <= i < nodes.len() ==> (#[trigger] next[i]).name == nodes[i].name,
        forall|k: int| 0 <= k < list.len() ==> #[trigger] list[k] < nodes.len(),
    ensures
        named(next, list, name) == named(nodes, list, name),
        forall|more: Seq<usize>|
            named(nodes, list, name) is Some ==> #[trigger] named(next, list + more, name) == named(
                nodes,
                list,
                name,
            ),
        forall|more: Seq<usize>|
            named(nodes, list, name) is None ==> #[trigger] named(next, list + more, name) == named(
                next,
                more,
                name,
            ),
    decreases list.len(),
{
    if list.len() == 0 {
        assert forall|more: Seq<usize>| #[trigger] named(next, list + more, name) == named(
            next,
            more,
            name,
        ) by {
            assert(list + more =~= more);
        }
    } else {
        assert(list[0] < nodes.len());
        assert forall|k: int| 0 <= k < list.skip(1).len() implies #[trigger] list.skip(1)[k]
            < nodes.len() by {
            assert(list[k + 1] < nodes.len());
        }
        lemma_named_pushed(nodes, next, list.skip(1), name);
        assert forall|more: Seq<usize>| #![trigger named(next, list + more, name)]
            (named(nodes, list, name) is Some ==> named(next, list + more, name) == named(
                nodes,
                list,
                name,
            )) && (named(nodes, list, name) is None ==> named(next, list + more, name) == named(
                next,
                more,
                name,
            )) by {
            assert((list + more).skip(1) =~= list.skip(1) + more);
            assert((list + more)[0] == list[0]);
            assert(named(next, list.skip(1) + more, name) == named(
                next,
                (list + more).skip(1),
                name,
            ));
        }
    }
}

proof fn lemma_child_after_creation(nodes: Seq<NodeView>, parent: usize, name: Seq<u8>)
    requires
        is_tree(nodes),
        parent < nodes.len(),
        nodes.len() < usize::MAX,
    ensures
        ({
            let (next, index) = with_child(nodes, parent, name);
            child(next, parent, name) == Some(index)
        }),
{
    let (next, index) = with_child(nodes, parent, name);
    let list = nodes[parent as int].children;
    if child(nodes, parent, name) is None {
        assert forall|k: int| 0 <= k < list.len() implies #[trigger] list[k] < nodes.len() by {
            assert(nodes[parent as int].children[k] < nodes.len());
        }
        lemma_named_pushed(nodes, next, list, name);
        assert(next[parent as int].children =~= list + seq![index]);
        assert(seq![index][0] == index);
        assert(named(next, list + seq![index], name) == named(next, seq![index], name));
        assert(next[index as int].name == name);
    }
}

/// Creating further nodes does not change which child has a name, once there
/// is one.
proof fn lemma_with_path_keeps_children(
    nodes: Seq<NodeView>,
    current: usize,
    parts: Seq<Seq<u8>>,
    parent: usize,
    name: Seq<u8>,
)
    requires
        is_tree(nodes),
        current < nodes.len(),
        parent < nodes.len(),
        nodes.len() + parts.len() <= usize::MAX,
        child(nodes, parent, name) is Some,
    ensures
        child(with_path(nodes, current, parts).0, parent, name) == child(nodes, parent, name),
    decreases parts.len(),
{
    if parts.len() > 0 {
        let (next, index) = with_child(nodes, current, parts[0]);
        lemma_with_child_is_tree(nodes, current, parts[0]);
        let list = nodes[parent as int].children;
        assert(child(next, parent, name) == child(nodes, parent, name)) by {
            if child(nodes, current, parts[0]) is None {
                assert forall|k: int| 0 <= k < list.len() implies #[trigger] list[k]
                    < nodes.len() by {
                    assert(nodes[parent as int].children[k] < nodes.len());
                }
                lemma_named_pushed(nodes, next, list, name);
                if parent == current {
                    assert(next[parent as int].children =~= list + seq![index]);
                    assert(named(next, list + seq![index], name) == named(nodes, list, name));
                } else {
                    assert(next[parent as int].children == list);
                }
            }
        }
        lemma_with_path_keeps_children(next, index, parts.skip(1), parent, name);
    }
}

} // verus!
