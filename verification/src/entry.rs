//! Entries of an archive and what is recorded about them.

use vstd::prelude::*;
use crate::bytes::{same_bytes, to_vec};

verus! {

/// What an entry is.
#[derive(Clone, Copy, Debug, PartialEq, Eq, Structural)]
pub enum EntryKind {
    File,
    Dir,
    Symlink,
    Hardlink,
    Char,
    Block,
    Fifo,
    Socket,
    /// A kind that only some formats know.
    Other,
}

/// How the bytes of an archive path are to be read.
#[derive(Clone, Copy, Debug, PartialEq, Eq, Structural)]
pub enum PathEncoding {
    Bytes,
    Utf8,
    Utf16Le,
    Other,
}

/// A path as an archive holds it.
#[derive(Clone, Debug)]
pub struct ArchivePath {
    pub bytes: Vec<u8>,
    pub encoding: PathEncoding,
}

impl View for ArchivePath {
    type V = (Seq<u8>, PathEncoding);

    open spec fn view(&self) -> (Seq<u8>, PathEncoding) {
        (self.bytes@, self.encoding)
    }
}

impl ArchivePath {
    /// A path of plain bytes.
    pub fn from_bytes(bytes: &[u8]) -> (path: Self)
        ensures
            path@ == (bytes@, PathEncoding::Bytes),
    {
        ArchivePath { bytes: to_vec(bytes), encoding: PathEncoding::Bytes }
    }

    /// A path in UTF-8.
    pub fn from_utf8(bytes: &[u8]) -> (path: Self)
        ensures
            path@ == (bytes@, PathEncoding::Utf8),
    {
        ArchivePath { bytes: to_vec(bytes), encoding: PathEncoding::Utf8 }
    }

    /// The same path again.
    pub fn duplicate(&self) -> (copy: Self)
        ensures
            copy@ == self@,
    {
        ArchivePath { bytes: to_vec(self.bytes.as_slice()), encoding: self.encoding }
    }
}

/// Who owns an entry, as far as it is known.
#[derive(Clone, Debug)]
pub struct Owner {
    pub uid: Option<u64>,
    pub gid: Option<u64>,
    pub user: Option<Vec<u8>>,
    pub group: Option<Vec<u8>>,
}

/// The mathematical content of an [`Owner`].
#[verifier::ext_equal]
pub struct OwnerView {
    pub uid: Option<u64>,
    pub gid: Option<u64>,
    pub user: Option<Seq<u8>>,
    pub group: Option<Seq<u8>>,
}

/// The content of a text that may be missing.
pub open spec fn optional_text(text: Option<Vec<u8>>) -> Option<Seq<u8>> {
    match text {
        Some(text) => Some(text@),
        None => None,
    }
}

impl View for Owner {
    type V = OwnerView;

    open spec fn view(&self) -> OwnerView {
        OwnerView {
            uid: self.uid,
            gid: self.gid,
            user: optional_text(self.user),
            group: optional_text(self.group),
        }
    }
}

/// A copy of a text that may be missing.
pub(crate) fn copy_text(text: &Option<Vec<u8>>) -> (copy: Option<Vec<u8>>)
    ensures
        optional_text(copy) == optional_text(*text),
{
    match text {
        Some(text) => Some(to_vec(text.as_slice())),
        None => None,
    }
}

fn same_text(left: &Option<Vec<u8>>, right: &Option<Vec<u8>>) -> (same: bool)
    ensures
        same == (optional_text(*left) == optional_text(*right)),
{
    match (left, right) {
        (Some(left), Some(right)) => same_bytes(left.as_slice(), right.as_slice()),
        (None, None) => true,
        _ => false,
    }
}

impl Owner {
    /// Nobody is known.
    pub fn unknown() -> (owner: Self)
        ensures
            owner@ == (OwnerView { uid: None, gid: None, user: None, group: None }),
    {
        Owner { uid: None, gid: None, user: None, group: None }
    }

    /// The same owner again.
    pub fn duplicate(&self) -> (copy: Self)
        ensures
            copy@ == self@,
    {
        Owner {
            uid: self.uid,
            gid: self.gid,
            user: copy_text(&self.user),
            group: copy_text(&self.group),
        }
    }

    /// Whether two owners are the same.
    pub fn same(&self, other: &Owner) -> (same: bool)
        ensures
            same == (self@ == other@),
    {
        self.uid == other.uid && self.gid == other.gid && same_text(&self.user, &other.user)
            && same_text(&self.group, &other.group)
    }
}

/// A point in time: seconds since 1970 and nanoseconds within the second.
#[derive(Clone, Copy, Debug, PartialEq, Eq, Structural)]
pub struct Timestamp {
    pub secs: i64,
    pub nanos: u32,
}

/// The times of an entry, as far as they are known.
#[derive(Clone, Copy, Debug, PartialEq, Eq, Structural)]
pub struct EntryTimes {
    pub created: Option<Timestamp>,
    pub modified: Option<Timestamp>,
    pub accessed: Option<Timestamp>,
    pub changed: Option<Timestamp>,
}

/// Major and minor number of a device.
#[derive(Clone, Copy, Debug, PartialEq, Eq, Structural)]
pub struct Device {
    pub major: u64,
    pub minor: u64,
}

/// A property that only some formats know.
#[derive(Clone, Debug)]
pub struct Extension {
    pub namespace: Vec<u8>,
    pub key: Vec<u8>,
    pub value: Vec<u8>,
}

/// What is recorded about an entry.
#[derive(Clone, Debug)]
pub struct EntryMetadata {
    pub path: ArchivePath,
    pub kind: EntryKind,
    pub link_target: Option<ArchivePath>,
    pub size: Option<u64>,
    pub mode: Option<u32>,
    pub links: Option<u64>,
    pub owner: Owner,
    pub inode: Option<u64>,
    pub referenced_device: Option<Device>,
    pub times: EntryTimes,
    pub has_sparse_extents: bool,
    pub has_xattrs: bool,
    pub has_acl: bool,
    pub encrypted: bool,
    pub extensions: Vec<Extension>,
}

/// What is recorded about an archive as a whole.
#[derive(Debug)]
pub struct ArchiveMetadata {
    pub volume_name: Option<Vec<u8>>,
    pub comment: Option<Vec<u8>>,
    pub extensions: Vec<Extension>,
}

impl EntryTimes {
    /// No time is known.
    pub fn unknown() -> (times: Self)
        ensures
            times == (EntryTimes { created: None, modified: None, accessed: None, changed: None }),
    {
        EntryTimes { created: None, modified: None, accessed: None, changed: None }
    }
}

impl EntryMetadata {
    /// An entry of which nothing but its path and kind is known.
    pub fn new(path: ArchivePath, kind: EntryKind) -> (metadata: Self)
        ensures
            metadata.path == path,
            metadata.kind == kind,
            metadata.link_target is None,
            metadata.size is None,
            metadata.mode is None,
            metadata.links is None,
            metadata.owner@ == (OwnerView { uid: None, gid: None, user: None, group: None }),
            metadata.inode is None,
            metadata.referenced_device is None,
            metadata.times == (EntryTimes {
                created: None,
                modified: None,
                accessed: None,
                changed: None,
            }),
            !metadata.has_sparse_extents,
            !metadata.has_xattrs,
            !metadata.has_acl,
            !metadata.encrypted,
            metadata.extensions@.len() == 0,
    {
        EntryMetadata {
            path,
            kind,
            link_target: None,
            size: None,
            mode: None,
            links: None,
            owner: Owner::unknown(),
            inode: None,
            referenced_device: None,
            times: EntryTimes::unknown(),
            has_sparse_extents: false,
            has_xattrs: false,
            has_acl: false,
            encrypted: false,
            extensions: Vec::new(),
        }
    }
}

impl ArchiveMetadata {
    /// An archive of which nothing is recorded.
    pub fn new() -> (metadata: Self)
        ensures
            metadata.volume_name is None,
            metadata.comment is None,
            metadata.extensions@.len() == 0,
    {
        ArchiveMetadata { volume_name: None, comment: None, extensions: Vec::new() }
    }
}

} // verus!
