//! What applying a layer will do, entry by entry.

use std::collections::BTreeMap;
use vstd::prelude::*;
use vstd::string::*;
use crate::bytes::{has_prefix, same_bytes, starts_with, to_vec};
use crate::entry::{copy_text, ArchivePath, EntryKind, EntryMetadata, Owner, OwnerView};
use crate::parts::SLASH;
use crate::path::SafePath;

verus! {

broadcast use vstd::std_specs::btree::group_btree_axioms;

// ---------------------------------------------------------------------------
// Ownership
// ---------------------------------------------------------------------------

/// Maps the owner that an archive records to the owner on the host.
pub trait OwnershipMapper {
    /// The owner on the host.
    open spec fn mapped(&self, owner: OwnerView) -> OwnerView {
        arbitrary()
    }

    /// The owner on the host.
    fn map_owner(&self, owner: &Owner) -> (result: Owner)
        ensures
            result@ == self.mapped(owner@),
    ;
}

/// Every owner stays as it is.
#[derive(Clone, Copy, Debug, Default)]
pub struct IdentityOwnership;

impl OwnershipMapper for IdentityOwnership {
    open spec fn mapped(&self, owner: OwnerView) -> OwnerView {
        owner
    }

    fn map_owner(&self, owner: &Owner) -> (result: Owner) {
        owner.duplicate()
    }
}

/// User and group ids that are replaced by others.
#[derive(Clone, Debug)]
pub struct OwnershipTable {
    pub uid: BTreeMap<u64, u64>,
    pub gid: BTreeMap<u64, u64>,
}

/// An id after its replacement.
pub open spec fn replaced(table: Map<u64, u64>, id: Option<u64>) -> Option<u64> {
    match id {
        Some(id) => Some(
            if table.contains_key(id) {
                table[id]
            } else {
                id
            },
        ),
        None => None,
    }
}

fn replace_id(table: &BTreeMap<u64, u64>, id: Option<u64>) -> (result: Option<u64>)
    ensures
        result == replaced(table@, id),
{
    match id {
        Some(id) => match table.get(&id) {
            Some(other) => Some(*other),
            None => Some(id),
        },
        None => None,
    }
}

impl Default for OwnershipTable {
    fn default() -> (table: Self)
        ensures
            table.uid@ == Map::<u64, u64>::empty(),
            table.gid@ == Map::<u64, u64>::empty(),
    {
        OwnershipTable::new()
    }
}

impl OwnershipTable {
    /// A table that replaces nothing.
    pub fn new() -> (table: Self)
        ensures
            table.uid@ == Map::<u64, u64>::empty(),
            table.gid@ == Map::<u64, u64>::empty(),
    {
        OwnershipTable { uid: BTreeMap::new(), gid: BTreeMap::new() }
    }

    /// Replaces a user id.
    pub fn map_uid(self, from: u64, to: u64) -> (table: Self)
        ensures
            table.uid@ == self.uid@.insert(from, to),
            table.gid@ == self.gid@,
    {
        let mut table = self;
        table.uid.insert(from, to);
        table
    }

    /// Replaces a group id.
    pub fn map_gid(self, from: u64, to: u64) -> (table: Self)
        ensures
            table.uid@ == self.uid@,
            table.gid@ == self.gid@.insert(from, to),
    {
        let mut table = self;
        table.gid.insert(from, to);
        table
    }
}

impl OwnershipMapper for OwnershipTable {
    open spec fn mapped(&self, owner: OwnerView) -> OwnerView {
        OwnerView {
            uid: replaced(self.uid@, owner.uid),
            gid: replaced(self.gid@, owner.gid),
            ..owner
        }
    }

    fn map_owner(&self, owner: &Owner) -> (result: Owner) {
        Owner {
            uid: replace_id(&self.uid, owner.uid),
            gid: replace_id(&self.gid, owner.gid),
            user: copy_text(&owner.user),
            group: copy_text(&owner.group),
        }
    }
}

/// Mapping one more user, `from` to `to`, gives entries of `from` to `to`, and
/// leaves all other users, every group and the names as the table maps them.
pub proof fn law_mapped_users(
    table: OwnershipTable,
    from: u64,
    to: u64,
    other: OwnershipTable,
    owner: Owner,
    before: Owner,
    after: Owner,
)
    requires
        call_ensures(OwnershipTable::map_uid, (table, from, to), other),
        call_ensures(OwnershipTable::map_owner, (&table, &owner), before),
        call_ensures(OwnershipTable::map_owner, (&other, &owner), after),
    ensures
        owner.uid == Some(from) ==> after.uid == Some(to),
        owner.uid != Some(from) ==> after.uid == before.uid,
        after.gid == before.gid,
        after@.user == owner@.user,
        after@.group == owner@.group,
{
    assert(before@.uid == before.uid && before@.gid == before.gid);
    assert(after@.uid == after.uid && after@.gid == after.gid);
    assert(owner@.uid == owner.uid && owner@.gid == owner.gid);
}

/// Mapping one more group, `from` to `to`, gives entries of `from` to `to`, and
/// leaves all other groups, every user and the names as the table maps them.
pub proof fn law_mapped_groups(
    table: OwnershipTable,
    from: u64,
    to: u64,
    other: OwnershipTable,
    owner: Owner,
    before: Owner,
    after: Owner,
)
    requires
        call_ensures(OwnershipTable::map_gid, (table, from, to), other),
        call_ensures(OwnershipTable::map_owner, (&table, &owner), before),
        call_ensures(OwnershipTable::map_owner, (&other, &owner), after),
    ensures
        owner.gid == Some(from) ==> after.gid == Some(to),
        owner.gid != Some(from) ==> after.gid == before.gid,
        after.uid == before.uid,
        after@.user == owner@.user,
        after@.group == owner@.group,
{
    assert(before@.uid == before.uid && before@.gid == before.gid);
    assert(after@.uid == after.uid && after@.gid == after.gid);
    assert(owner@.uid == owner.uid && owner@.gid == owner.gid);
}

/// A new table, and the mapper that changes nothing, give every entry to the owner
/// that it has.
pub proof fn law_owners_stay(
    table: OwnershipTable,
    owner: Owner,
    kept: Owner,
    same: Owner,
)
    requires
        call_ensures(OwnershipTable::new, (), table),
        call_ensures(OwnershipTable::map_owner, (&table, &owner), kept),
        call_ensures(IdentityOwnership::map_owner, (&IdentityOwnership, &owner), same),
    ensures
        kept@ == owner@,
        same@ == owner@,
{
    assert(kept@ =~= owner@);
}

// ---------------------------------------------------------------------------
// Operations
// ---------------------------------------------------------------------------

/// What a caller lets a layer do.
#[derive(Clone, Copy, Debug, PartialEq, Eq, Structural)]
pub struct Policy {
    pub symlinks: bool,
    pub hardlinks: bool,
    pub special_files: bool,
    pub overwrite: bool,
}

/// Why an entry is refused.
#[derive(Clone, Copy, Debug, PartialEq, Eq, Structural)]
pub enum OciRejection {
    UnsafePath,
    Duplicate,
    UnsafeLinkTarget,
    UnsupportedKind,
    SymlinkEscape,
}

impl OciRejection {
    /// The reason in words.
    pub open spec fn words(self) -> Seq<char> {
        match self {
            OciRejection::UnsafePath => "unsafe or unrepresentable path"@,
            OciRejection::Duplicate => "duplicate path within the layer"@,
            OciRejection::UnsafeLinkTarget => "unsafe or uncommitted link target"@,
            OciRejection::UnsupportedKind => "entry kind disabled by policy or unsupported"@,
            OciRejection::SymlinkEscape => "destination escapes through a layer symlink"@,
        }
    }

    /// The reason in words.
    pub fn label(self) -> (label: &'static str)
        ensures
            label@ == self.words(),
    {
        match self {
            OciRejection::UnsafePath => "unsafe or unrepresentable path",
            OciRejection::Duplicate => "duplicate path within the layer",
            OciRejection::UnsafeLinkTarget => "unsafe or uncommitted link target",
            OciRejection::UnsupportedKind => "entry kind disabled by policy or unsupported",
            OciRejection::SymlinkEscape => "destination escapes through a layer symlink",
        }
    }
}

/// An entry that will be created.
#[derive(Clone, Debug)]
pub struct OciMaterialize {
    pub metadata: EntryMetadata,
    pub destination: SafePath,
    pub link_target: Option<SafePath>,
    /// The owner that the archive records, if it was mapped to another.
    pub original_owner: Option<Owner>,
}

/// Something that will be removed. An empty destination is the root.
#[derive(Clone, Debug)]
pub struct OciRemoval {
    pub path: ArchivePath,
    pub destination: SafePath,
}

/// An entry that is refused.
#[derive(Clone, Debug)]
pub struct OciReject {
    pub path: ArchivePath,
    pub reason: OciRejection,
}

impl OciMaterialize {
    /// What is recorded about the entry, with its mapped owner.
    pub fn metadata(&self) -> (metadata: &EntryMetadata)
        ensures
            *metadata == self.metadata,
    {
        &self.metadata
    }

    /// Where the entry goes.
    pub fn destination(&self) -> (destination: &SafePath)
        ensures
            *destination == self.destination,
    {
        &self.destination
    }

    /// Where a link leads.
    pub fn link_target(&self) -> (target: Option<&SafePath>)
        ensures
            match (target, self.link_target) {
                (Some(target), Some(path)) => *target == path,
                (None, None) => true,
                _ => false,
            },
    {
        match &self.link_target {
            Some(target) => Some(target),
            None => None,
        }
    }

    /// The owner before it was mapped to another.
    pub fn original_owner(&self) -> (owner: Option<&Owner>)
        ensures
            match (owner, self.original_owner) {
                (Some(owner), Some(original)) => *owner == original,
                (None, None) => true,
                _ => false,
            },
    {
        match &self.original_owner {
            Some(owner) => Some(owner),
            None => None,
        }
    }
}

impl OciRemoval {
    /// The path of the marker.
    pub fn path(&self) -> (path: &ArchivePath)
        ensures
            *path == self.path,
    {
        &self.path
    }

    /// What is removed.
    pub fn destination(&self) -> (destination: &SafePath)
        ensures
            *destination == self.destination,
    {
        &self.destination
    }
}

impl OciReject {
    /// The path of the entry.
    pub fn path(&self) -> (path: &ArchivePath)
        ensures
            *path == self.path,
    {
        &self.path
    }

    /// Why it is refused.
    pub fn reason(&self) -> (reason: OciRejection)
        ensures
            reason == self.reason,
    {
        self.reason
    }
}

/// One operation of a plan.
#[derive(Clone, Debug)]
pub enum OciPlanOperation {
    Materialize(OciMaterialize),
    /// Like `Materialize`, with an owner that was mapped to another.
    MapOwnership(OciMaterialize),
    Whiteout(OciRemoval),
    OpaqueDir(OciRemoval),
    Reject(OciReject),
}

// ---------------------------------------------------------------------------
// Markers
// ---------------------------------------------------------------------------

/// Whether an entry is the root directory itself, which needs no operation.
pub open spec fn is_root_entry(kind: EntryKind, path: Seq<u8>) -> bool {
    kind == EntryKind::Dir && (path == ".".spec_bytes() || path == "./".spec_bytes())
}

/// Whether an entry is the root directory itself.
pub fn is_structural_skip(metadata: &EntryMetadata) -> (skip: bool)
    ensures
        skip == is_root_entry(metadata.kind, metadata.path.bytes@),
{
    metadata.kind == EntryKind::Dir && (same_bytes(
        metadata.path.bytes.as_slice(),
        ".".as_bytes(),
    ) || same_bytes(metadata.path.bytes.as_slice(), "./".as_bytes()))
}

/// Where the last slash stands, if there is one.
pub open spec fn last_slash(path: Seq<u8>) -> Option<int>
    decreases path.len(),
{
    if path.len() == 0 {
        None
    } else if path.last() == SLASH {
        Some(path.len() - 1)
    } else {
        last_slash(path.drop_last())
    }
}

/// A path without one slash at its end.
pub open spec fn without_end_slash(path: Seq<u8>) -> Seq<u8> {
    if path.len() > 0 && path.last() == SLASH {
        path.drop_last()
    } else {
        path
    }
}

/// What comes before the last component of a path, and the component.
pub open spec fn split_path(path: Seq<u8>) -> (Seq<u8>, Seq<u8>) {
    let text = without_end_slash(path);
    match last_slash(text) {
        Some(at) => (text.take(at), text.skip(at + 1)),
        None => (Seq::empty(), text),
    }
}

proof fn lemma_last_slash(path: Seq<u8>)
    ensures
        last_slash(path) matches Some(at) ==> 0 <= at < path.len() && path[at] == SLASH,
    decreases path.len(),
{
    if path.len() > 0 && path.last() != SLASH {
        lemma_last_slash(path.drop_last());
    }
}

fn find_last_slash(path: &[u8], end: usize) -> (found: Option<usize>)
    requires
        end <= path@.len(),
    ensures
        match found {
            Some(at) => last_slash(path@.take(end as int)) == Some(at as int) && at < end,
            None => last_slash(path@.take(end as int)) is None,
        },
{
    let mut at: usize = end;
    while at > 0
        invariant
            at <= end <= path@.len(),
            last_slash(path@.take(end as int)) == last_slash(path@.take(at as int)),
        decreases at,
    {
        proof {
            assert(path@.take(at as int).last() == path@[at - 1]);
            assert(path@.take(at as int).drop_last() =~= path@.take(at - 1));
        }
        if path[at - 1] == SLASH {
            return Some(at - 1);
        }
        at -= 1;
    }
    None
}

/// Splits a path at its last component.
pub fn split_last(path: &[u8]) -> (parts: (&[u8], &[u8]))
    ensures
        (parts.0@, parts.1@) == split_path(path@),
{
    let mut end: usize = path.len();
    if end > 0 && path[end - 1] == SLASH {
        end = end - 1;
    }
    let ghost text = path@.take(end as int);
    proof {
        assert(text =~= without_end_slash(path@));
    }
    match find_last_slash(path, end) {
        Some(at) => {
            let parts = (&path[0..at], &path[at + 1..end]);
            proof {
                assert(parts.0@ =~= text.take(at as int));
                assert(parts.1@ =~= text.skip(at + 1));
            }
            parts
        },
        None => {
            let parts = (&path[0..0], &path[0..end]);
            proof {
                assert(parts.0@ =~= Seq::<u8>::empty());
                assert(parts.1@ =~= text);
            }
            parts
        },
    }
}

/// A path in a directory.
pub open spec fn below(parent: Seq<u8>, name: Seq<u8>) -> Seq<u8> {
    if parent.len() == 0 {
        name
    } else {
        parent + seq![SLASH] + name
    }
}

/// A path in a directory.
pub fn join(parent: &[u8], name: &[u8]) -> (path: Vec<u8>)
    ensures
        path@ == below(parent@, name@),
{
    if parent.len() == 0 {
        return to_vec(name);
    }
    let mut path = to_vec(parent);
    path.push(SLASH);
    path.extend_from_slice(name);
    proof {
        assert(path@ =~= below(parent@, name@));
    }
    path
}

/// What the path of an entry announces.
#[derive(Debug)]
pub enum Marker {
    /// An ordinary entry.
    Regular,
    /// The removal of a path.
    Whiteout(Vec<u8>),
    /// The removal of everything in a directory.
    Opaque(Vec<u8>),
    /// A marker without a name.
    Unsafe,
}

/// The mathematical content of a [`Marker`].
pub enum MarkerView {
    Regular,
    Whiteout(Seq<u8>),
    Opaque(Seq<u8>),
    Unsafe,
}

impl View for Marker {
    type V = MarkerView;

    open spec fn view(&self) -> MarkerView {
        match self {
            Marker::Regular => MarkerView::Regular,
            Marker::Whiteout(path) => MarkerView::Whiteout(path@),
            Marker::Opaque(path) => MarkerView::Opaque(path@),
            Marker::Unsafe => MarkerView::Unsafe,
        }
    }
}

/// What the path of an entry announces: `.wh..wh..opq` clears its directory,
/// `.wh.` and a name removes that name.
pub open spec fn announces(path: Seq<u8>) -> MarkerView {
    let (parent, name) = split_path(path);
    let prefix = ".wh.".spec_bytes();
    if name == ".wh..wh..opq".spec_bytes() {
        MarkerView::Opaque(parent)
    } else if has_prefix(name, prefix) {
        if name.len() == prefix.len() {
            MarkerView::Unsafe
        } else {
            MarkerView::Whiteout(below(parent, name.skip(prefix.len() as int)))
        }
    } else {
        MarkerView::Regular
    }
}

/// Tells what the path of an entry announces.
pub fn classify(path: &[u8]) -> (marker: Marker)
    ensures
        marker@ == announces(path@),
{
    let (parent, name) = split_last(path);
    if same_bytes(name, ".wh..wh..opq".as_bytes()) {
        return Marker::Opaque(to_vec(parent));
    }
    let prefix = ".wh.".as_bytes();
    if starts_with(name, prefix) {
        if name.len() == prefix.len() {
            return Marker::Unsafe;
        }
        let target = &name[prefix.len()..name.len()];
        proof {
            assert(target@ =~= name@.skip(prefix@.len() as int));
        }
        return Marker::Whiteout(join(parent, target));
    }
    Marker::Regular
}

} // verus!
