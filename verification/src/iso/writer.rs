//! The writer of an image: it takes entries one by one, tells its driver where
//! their bytes go, and at the end hands over the index of the image.

use vstd::layout::size_of;
use vstd::prelude::*;
use vstd::string::*;
use crate::bytes::same_bytes;
use crate::entry::{ArchiveMetadata, ArchivePath, EntryKind, EntryMetadata, Extension};
use crate::error::{error_of, ArchiveError, ErrorKind, ErrorView};
use crate::iso::layout::{index_bytes, plan_index, planned, write_index};
use crate::iso::order::{directory_order, order_directories};
use crate::iso::record::{iso_error, iso_fault, SECTOR};
use crate::iso::tree::{
    create_path, find_path, implicit, is_tree, missing_nodes, normalize_path, normalized, reached,
    tree, validate_tree_path, with_path, IsoNode, NodeView,
};
use crate::iso::volume::{
    descriptor_bytes, descriptor_terminator, terminator_bytes, volume_descriptor, VolumeDescriptor,
};
use crate::limits::Limits;
use crate::parts::texts;

verus! {

/// An entry whose bytes are being written.
#[derive(Debug)]
pub struct PendingEntry {
    pub components: Vec<Vec<u8>>,
    pub metadata: EntryMetadata,
    pub size: u64,
    pub file_lba: u32,
}

/// The mathematical content of a [`PendingEntry`].
#[verifier::ext_equal]
pub struct PendingView {
    pub components: Seq<Seq<u8>>,
    pub metadata: EntryMetadata,
    pub size: u64,
    pub file_lba: u32,
}

impl View for PendingEntry {
    type V = PendingView;

    open spec fn view(&self) -> PendingView {
        PendingView {
            components: texts(self.components@),
            metadata: self.metadata,
            size: self.size,
            file_lba: self.file_lba,
        }
    }
}

/// The mathematical content of an [`IsoWriter`].
#[verifier::ext_equal]
pub struct IsoState {
    pub nodes: Seq<NodeView>,
    pub pending: Option<PendingView>,
    pub limits: Limits,
    pub metadata_used: usize,
    pub decoded_total: u64,
    pub archive_metadata: ArchiveMetadata,
}

/// The writer of an image.
#[derive(Debug)]
pub struct IsoWriter {
    pub nodes: Vec<IsoNode>,
    pub pending: Option<PendingEntry>,
    pub limits: Limits,
    pub metadata_used: usize,
    pub decoded_total: u64,
    pub archive_metadata: ArchiveMetadata,
}

impl View for IsoWriter {
    type V = IsoState;

    open spec fn view(&self) -> IsoState {
        IsoState {
            nodes: tree(self.nodes@),
            pending: match self.pending {
                Some(pending) => Some(pending@),
                None => None,
            },
            limits: self.limits,
            metadata_used: self.metadata_used,
            decoded_total: self.decoded_total,
            archive_metadata: self.archive_metadata,
        }
    }
}

// ---------------------------------------------------------------------------
// Checks
// ---------------------------------------------------------------------------

/// The bytes of the first `count` extensions.
pub open spec fn extensions_cost(extensions: Seq<Extension>, count: nat) -> nat
    decreases count,
{
    if count == 0 {
        0
    } else {
        let extension = extensions[count - 1];
        extensions_cost(extensions, (count - 1) as nat) + extension.namespace@.len()
            + extension.key@.len() + extension.value@.len()
    }
}

/// The length of a text that may be missing.
pub open spec fn optional_len(text: Option<Vec<u8>>) -> nat {
    match text {
        Some(text) => text@.len(),
        None => 0,
    }
}

/// The length of a link target that may be missing.
pub open spec fn target_len(target: Option<ArchivePath>) -> nat {
    match target {
        Some(target) => target.bytes@.len(),
        None => 0,
    }
}

/// The memory that is charged for what is recorded about an entry.
pub open spec fn entry_cost(metadata: EntryMetadata) -> nat {
    metadata.path.bytes@.len() + target_len(metadata.link_target) + size_of::<EntryMetadata>()
        + extensions_cost(metadata.extensions@, metadata.extensions@.len())
}

/// The memory that is charged for what is recorded about an archive.
pub open spec fn archive_cost(metadata: ArchiveMetadata) -> nat {
    size_of::<ArchiveMetadata>() + optional_len(metadata.volume_name) + optional_len(
        metadata.comment,
    ) + extensions_cost(metadata.extensions@, metadata.extensions@.len())
}

/// The fault of memory that cannot be counted.
pub open spec fn accounting_fault() -> ErrorView {
    iso_fault(ErrorKind::Limit, "metadata accounting overflow"@)
}

proof fn lemma_cost_grows(extensions: Seq<Extension>, low: nat, high: nat)
    requires
        low <= high,
    ensures
        extensions_cost(extensions, low) <= extensions_cost(extensions, high),
    decreases high,
{
    if low < high {
        lemma_cost_grows(extensions, low, (high - 1) as nat);
    }
}

/// Adds the bytes of extensions to a cost.
fn charge_extensions(base: usize, extensions: &[Extension]) -> (cost: Option<usize>)
    ensures
        match cost {
            Some(cost) => cost == base + extensions_cost(extensions@, extensions@.len()),
            None => base + extensions_cost(extensions@, extensions@.len()) > usize::MAX,
        },
{
    let mut cost: usize = base;
    let mut i: usize = 0;
    while i < extensions.len()
        invariant
            i <= extensions@.len(),
            cost == base + extensions_cost(extensions@, i as nat),
        decreases extensions@.len() - i,
    {
        let extension = &extensions[i];
        proof {
            lemma_cost_grows(extensions@, (i + 1) as nat, extensions@.len());
        }
        cost = cost.checked_add(extension.namespace.len())?;
        cost = cost.checked_add(extension.key.len())?;
        cost = cost.checked_add(extension.value.len())?;
        i += 1;
    }
    Some(cost)
}

fn text_len(text: &Option<Vec<u8>>) -> (len: usize)
    ensures
        len == optional_len(*text),
{
    match text {
        Some(text) => text.len(),
        None => 0,
    }
}

fn link_len(target: &Option<ArchivePath>) -> (len: usize)
    ensures
        len == target_len(*target),
{
    match target {
        Some(target) => target.bytes.len(),
        None => 0,
    }
}

/// The memory that is charged for what is recorded about an entry.
pub fn metadata_cost(metadata: &EntryMetadata) -> (cost: Option<usize>)
    ensures
        match cost {
            Some(cost) => cost == entry_cost(*metadata),
            None => entry_cost(*metadata) > usize::MAX,
        },
{
    let base: usize = metadata.path.bytes.len().checked_add(link_len(&metadata.link_target))?;
    let base: usize = base.checked_add(core::mem::size_of::<EntryMetadata>())?;
    charge_extensions(base, metadata.extensions.as_slice())
}

/// The memory that is charged for what is recorded about an archive.
pub fn archive_metadata_cost(metadata: &ArchiveMetadata) -> (cost: Option<usize>)
    ensures
        match cost {
            Some(cost) => cost == archive_cost(*metadata),
            None => archive_cost(*metadata) > usize::MAX,
        },
{
    let base: usize = core::mem::size_of::<ArchiveMetadata>().checked_add(
        text_len(&metadata.volume_name),
    )?;
    let base: usize = base.checked_add(text_len(&metadata.comment))?;
    charge_extensions(base, metadata.extensions.as_slice())
}

/// The fault of an entry that an image cannot hold.
pub open spec fn entry_fault(metadata: EntryMetadata) -> Option<ErrorView> {
    if metadata.kind == EntryKind::Symlink && metadata.link_target is None {
        Some(iso_fault(ErrorKind::Protocol, "ISO symbolic link requires a target"@))
    } else if metadata.kind == EntryKind::Hardlink && metadata.link_target is None {
        Some(iso_fault(ErrorKind::Protocol, "ISO hard link requires a target"@))
    } else if (metadata.kind == EntryKind::Char || metadata.kind == EntryKind::Block)
        && metadata.referenced_device is None {
        Some(iso_fault(ErrorKind::Protocol, "ISO device entry requires major/minor numbers"@))
    } else if metadata.kind == EntryKind::Other {
        Some(iso_fault(ErrorKind::Unsupported, "unsupported ISO entry kind"@))
    } else if metadata.kind != EntryKind::File && (metadata.size matches Some(size) && size != 0) {
        Some(
            iso_fault(ErrorKind::Protocol, "non-file ISO entry must have size zero or unknown"@),
        )
    } else if metadata.has_sparse_extents || metadata.has_xattrs || metadata.has_acl
        || metadata.encrypted {
        Some(
            iso_fault(
                ErrorKind::Unsupported,
                "ISO writer cannot represent sparse, xattr, ACL, or encrypted metadata"@,
            ),
        )
    } else {
        None
    }
}

/// Checks that an image can hold an entry.
pub fn validate_entry_metadata(metadata: &EntryMetadata) -> (result: Result<(), ArchiveError>)
    ensures
        error_of(result) == entry_fault(*metadata),
{
    match metadata.kind {
        EntryKind::File | EntryKind::Dir | EntryKind::Fifo | EntryKind::Socket => {},
        EntryKind::Symlink => {
            if metadata.link_target.is_none() {
                return Err(iso_error(ErrorKind::Protocol, "ISO symbolic link requires a target"));
            }
        },
        EntryKind::Hardlink => {
            if metadata.link_target.is_none() {
                return Err(iso_error(ErrorKind::Protocol, "ISO hard link requires a target"));
            }
        },
        EntryKind::Char | EntryKind::Block => {
            if metadata.referenced_device.is_none() {
                return Err(
                    iso_error(
                        ErrorKind::Protocol,
                        "ISO device entry requires major/minor numbers",
                    ),
                );
            }
        },
        EntryKind::Other => {
            return Err(iso_error(ErrorKind::Unsupported, "unsupported ISO entry kind"));
        },
    }
    if metadata.kind != EntryKind::File {
        if let Some(size) = metadata.size {
            if size != 0 {
                return Err(
                    iso_error(
                        ErrorKind::Protocol,
                        "non-file ISO entry must have size zero or unknown",
                    ),
                );
            }
        }
    }
    if metadata.has_sparse_extents || metadata.has_xattrs || metadata.has_acl
        || metadata.encrypted {
        return Err(
            iso_error(
                ErrorKind::Unsupported,
                "ISO writer cannot represent sparse, xattr, ACL, or encrypted metadata",
            ),
        );
    }
    Ok(())
}

// ---------------------------------------------------------------------------
// Transitions
// ---------------------------------------------------------------------------

/// Some extension is no property of a volume.
pub open spec fn foreign_extension(extensions: Seq<Extension>) -> bool {
    exists|i: int|
        0 <= i < extensions.len() && (#[trigger] extensions[i]).namespace@
            != "iso9660-volume".spec_bytes()
}

/// Bytes of a payload that were let through.
#[derive(Clone, Copy, Debug, PartialEq, Eq, Structural)]
pub struct DataPlan {
    /// There is something to write.
    pub write: bool,
    /// The size of the entry afterwards.
    pub size: u64,
    /// The size of all payloads afterwards.
    pub total: u64,
}

/// The rest of an image, in the order in which it is written.
pub struct IsoTail {
    /// The index, behind the files.
    pub index: Vec<u8>,
    /// The first volume descriptor, at block 16, and those behind it.
    pub primary: Vec<u8>,
    pub supplementary: Vec<u8>,
    pub terminator: Vec<u8>,
    pub total_sectors: u32,
}

/// The mathematical content of an [`IsoTail`].
#[verifier::ext_equal]
pub struct TailView {
    pub index: Seq<u8>,
    pub primary: Seq<u8>,
    pub supplementary: Seq<u8>,
    pub terminator: Seq<u8>,
    pub total_sectors: u32,
}

impl View for IsoTail {
    type V = TailView;

    open spec fn view(&self) -> TailView {
        TailView {
            index: self.index@,
            primary: self.primary@,
            supplementary: self.supplementary@,
            terminator: self.terminator@,
            total_sectors: self.total_sectors,
        }
    }
}

impl IsoState {
    /// The writer after the properties of the archive were set.
    pub open spec fn described(self, metadata: ArchiveMetadata) -> Result<IsoState, ErrorView> {
        let used = self.metadata_used + archive_cost(metadata);
        if self.pending is Some || self.nodes.len() != 1 || self.decoded_total != 0 {
            Err(
                iso_fault(
                    ErrorKind::Protocol,
                    "ISO archive metadata must be set before the first entry"@,
                ),
            )
        } else if metadata.comment is Some || foreign_extension(metadata.extensions@) {
            Err(
                iso_fault(
                    ErrorKind::Unsupported,
                    "ISO archive metadata contains an unrepresentable property"@,
                ),
            )
        } else if archive_cost(metadata) > usize::MAX {
            Err(accounting_fault())
        } else if self.limits.metadata_bytes matches Some(limit) && used > limit && limit
            < usize::MAX {
            Err(iso_fault(ErrorKind::Limit, "ISO archive metadata exceeds configured limit"@))
        } else if used > usize::MAX {
            Err(accounting_fault())
        } else {
            Ok(
                IsoState {
                    archive_metadata: metadata,
                    metadata_used: used as usize,
                    ..self
                },
            )
        }
    }

    /// The fault of an entry that cannot be started, or the components of its
    /// path and the memory in use with it.
    pub open spec fn admitted(self, metadata: EntryMetadata) -> Result<
        (Seq<Seq<u8>>, usize),
        ErrorView,
    > {
        if self.pending is Some {
            Err(iso_fault(ErrorKind::Protocol, "previous ISO entry is still open"@))
        } else {
            match normalized(metadata.path.bytes@, self.limits) {
                Err(error) => Err(error),
                Ok(parts) => match entry_fault(metadata) {
                    Some(error) => Err(error),
                    None => match missing_nodes(self.nodes, 0, parts) {
                        Err(error) => Err(error),
                        Ok(missing) => {
                            let projected = self.nodes.len() + missing;
                            let used = self.metadata_used + entry_cost(metadata) + missing
                                * size_of::<IsoNode>();
                            if projected > usize::MAX {
                                Err(iso_fault(ErrorKind::Limit, "ISO node count overflow"@))
                            } else if self.limits.entries matches Some(maximum) && projected - 1
                                > maximum {
                                Err(
                                    iso_fault(
                                        ErrorKind::Limit,
                                        "ISO entry count exceeds configured limit"@,
                                    ),
                                )
                            } else if used > usize::MAX {
                                Err(accounting_fault())
                            } else {
                                Ok((parts, used as usize))
                            }
                        },
                    },
                },
            }
        }
    }

    /// The writer after an entry was started with the output at `position`, and
    /// the fault if it could not be.
    pub open spec fn started(self, metadata: EntryMetadata, position: u64) -> (
        IsoState,
        Option<ErrorView>,
    ) {
        match self.admitted(metadata) {
            Err(error) => (self, Some(error)),
            Ok((components, used)) => {
                let charged = IsoState { metadata_used: used, ..self };
                if self.limits.metadata_bytes matches Some(maximum) && used > maximum {
                    (
                        charged,
                        Some(iso_fault(ErrorKind::Limit, "ISO metadata exceeds configured limit"@)),
                    )
                } else if position % 2048 != 0 {
                    (
                        charged,
                        Some(
                            iso_fault(
                                ErrorKind::Protocol,
                                "ISO payload cursor is not sector aligned"@,
                            ),
                        ),
                    )
                } else if position / 2048 > u32::MAX {
                    (
                        charged,
                        Some(iso_fault(ErrorKind::Limit, "ISO extent LBA exceeds u32"@)),
                    )
                } else {
                    (
                        IsoState {
                            pending: Some(
                                PendingView {
                                    components,
                                    metadata,
                                    size: 0,
                                    file_lba: (position / 2048) as u32,
                                },
                            ),
                            ..charged
                        },
                        None,
                    )
                }
            },
        }
    }

    /// What comes of `count` bytes of payload.
    pub open spec fn data(self, count: nat) -> Result<DataPlan, ErrorView> {
        match self.pending {
            None => Err(
                iso_fault(ErrorKind::Protocol, "ISO data was supplied outside an entry"@),
            ),
            Some(pending) => {
                let size = pending.size + count;
                let total = self.decoded_total + count;
                if count == 0 {
                    Ok(
                        DataPlan {
                            write: false,
                            size: pending.size,
                            total: self.decoded_total,
                        },
                    )
                } else if pending.metadata.kind != EntryKind::File {
                    Err(
                        iso_fault(
                            ErrorKind::Protocol,
                            "only regular ISO files accept payload data"@,
                        ),
                    )
                } else if size > u64::MAX {
                    Err(iso_fault(ErrorKind::Limit, "ISO entry size overflow"@))
                } else if size > u32::MAX {
                    Err(iso_fault(ErrorKind::Limit, "single-extent ISO file exceeds u32"@))
                } else if self.limits.entry_bytes matches Some(maximum) && size > maximum {
                    Err(iso_fault(ErrorKind::Limit, "ISO entry exceeds configured size limit"@))
                } else if total > u64::MAX {
                    Err(iso_fault(ErrorKind::Limit, "ISO decoded total overflow"@))
                } else if self.limits.decoded_total matches Some(maximum) && total > maximum {
                    Err(
                        iso_fault(
                            ErrorKind::Limit,
                            "ISO decoded total exceeds configured limit"@,
                        ),
                    )
                } else {
                    Ok(DataPlan { write: true, size: size as u64, total: total as u64 })
                }
            },
        }
    }

    /// The fault of an entry that ends.
    pub open spec fn closing(self) -> Result<PendingView, ErrorView> {
        match self.pending {
            None => Err(iso_fault(ErrorKind::Protocol, "no ISO entry is open"@)),
            Some(pending) => if pending.metadata.size matches Some(declared) && declared
                != pending.size {
                Err(
                    iso_fault(
                        ErrorKind::Protocol,
                        "ISO entry size does not match its declared size"@,
                    ),
                )
            } else if pending.metadata.kind != EntryKind::File && pending.size != 0 {
                Err(iso_fault(ErrorKind::Protocol, "non-file ISO entry carried payload"@))
            } else {
                Ok(pending)
            },
        }
    }

    /// Block and size of an entry's bytes; those of its target for a hard link.
    pub open spec fn body(self, pending: PendingView) -> Result<(u32, u32), ErrorView> {
        if pending.metadata.kind == EntryKind::Hardlink {
            match pending.metadata.link_target {
                None => Err(iso_fault(ErrorKind::Protocol, "ISO hard link target is missing"@)),
                Some(target) => match normalized(target.bytes@, self.limits) {
                    Err(error) => Err(error),
                    Ok(parts) => match reached(self.nodes, 0, parts) {
                        None => Err(
                            iso_fault(
                                ErrorKind::Protocol,
                                "ISO hard link target must precede the link"@,
                            ),
                        ),
                        Some(index) => {
                            let node = self.nodes[index as int];
                            if node.kind == EntryKind::Dir {
                                Err(
                                    iso_fault(
                                        ErrorKind::Protocol,
                                        "ISO hard link target is a directory"@,
                                    ),
                                )
                            } else {
                                Ok((node.file_lba, node.file_size))
                            }
                        },
                    },
                },
            }
        } else if pending.size > u32::MAX {
            Err(iso_fault(ErrorKind::Limit, "ISO file size exceeds u32"@))
        } else {
            Ok((pending.file_lba, pending.size as u32))
        }
    }

    /// The writer after an entry went into the tree, and the fault if it did
    /// not. The directories above it are there either way.
    pub open spec fn inserted(self, pending: PendingView) -> (IsoState, Option<ErrorView>) {
        if pending.components.len() == 0 {
            (self, Some(iso_fault(ErrorKind::Protocol, "ISO entry path is empty"@)))
        } else {
            let (nodes, index) = with_path(self.nodes, 0, pending.components);
            let grown = IsoState { nodes, ..self };
            match grown.body(pending) {
                Err(error) => (grown, Some(error)),
                Ok((file_lba, file_size)) => (
                    IsoState {
                        nodes: nodes.update(
                            index as int,
                            NodeView {
                                kind: pending.metadata.kind,
                                metadata: Some(pending.metadata),
                                file_lba,
                                file_size,
                                ..nodes[index as int]
                            },
                        ),
                        ..self
                    },
                    None,
                ),
            }
        }
    }

    /// The rest of the image when its files end at `position`.
    pub open spec fn finished(self, position: u64) -> Result<TailView, ErrorView> {
        if self.pending is Some {
            Err(iso_fault(ErrorKind::Protocol, "ISO entry is open at finish"@))
        } else {
            match directory_order(self.nodes) {
                Err(error) => Err(error),
                Ok(order) => match planned(
                    self.nodes,
                    order,
                    self.limits.metadata_bytes,
                    position,
                ) {
                    Err(error) => Err(error),
                    Ok(plan) => {
                        let root = plan.extents[0];
                        match descriptor_bytes(
                            VolumeDescriptor {
                                descriptor_type: 1,
                                joliet: false,
                                root_lba: root.primary_lba,
                                root_size: root.primary_size,
                                path_table_size: plan.primary_path_size as usize,
                                little_path_lba: plan.primary_l_path,
                                big_path_lba: plan.primary_m_path,
                                total_sectors: plan.total_sectors,
                            },
                            self.archive_metadata,
                        ) {
                            Err(error) => Err(error),
                            Ok(primary) => match descriptor_bytes(
                                VolumeDescriptor {
                                    descriptor_type: 2,
                                    joliet: true,
                                    root_lba: root.joliet_lba,
                                    root_size: root.joliet_size,
                                    path_table_size: plan.joliet_path_size as usize,
                                    little_path_lba: plan.joliet_l_path,
                                    big_path_lba: plan.joliet_m_path,
                                    total_sectors: plan.total_sectors,
                                },
                                self.archive_metadata,
                            ) {
                                Err(error) => Err(error),
                                Ok(supplementary) => Ok(
                                    TailView {
                                        index: index_bytes(self.nodes, order, plan),
                                        primary,
                                        supplementary,
                                        terminator: terminator_bytes(),
                                        total_sectors: plan.total_sectors,
                                    },
                                ),
                            },
                        }
                    },
                },
            }
        }
    }
}

impl IsoWriter {
    /// The nodes make a tree.
    pub open spec fn wf(self) -> bool {
        is_tree(self@.nodes)
    }

    /// A writer before its first entry.
    pub fn new(limits: Limits) -> (writer: Self)
        ensures
            writer.wf(),
            writer@.nodes == seq![implicit(Seq::empty(), 0)],
            writer@.pending is None,
            writer@.limits == limits,
            writer@.metadata_used == size_of::<IsoNode>(),
            writer@.decoded_total == 0,
            writer@.archive_metadata.volume_name is None,
            writer@.archive_metadata.comment is None,
            writer@.archive_metadata.extensions@.len() == 0,
    {
        let mut nodes: Vec<IsoNode> = Vec::new();
        nodes.push(IsoNode::root());
        proof {
            assert(tree(nodes@) =~= seq![implicit(Seq::empty(), 0)]);
        }
        IsoWriter {
            nodes,
            pending: None,
            limits,
            metadata_used: core::mem::size_of::<IsoNode>(),
            decoded_total: 0,
            archive_metadata: ArchiveMetadata::new(),
        }
    }

    /// Sets the properties of the archive.
    pub fn set_archive_metadata(&mut self, metadata: ArchiveMetadata) -> (result: Result<
        (),
        ArchiveError,
    >)
        requires
            old(self).wf(),
        ensures
            final(self).wf(),
            match result {
                Ok(()) => old(self)@.described(metadata) == Ok::<_, ErrorView>(final(self)@),
                Err(error) => old(self)@.described(metadata) == Err::<IsoState, _>(error@)
                    && *final(self) == *old(self),
            },
    {
        if self.pending.is_some() || self.nodes.len() != 1 || self.decoded_total != 0 {
            return Err(
                iso_error(
                    ErrorKind::Protocol,
                    "ISO archive metadata must be set before the first entry",
                ),
            );
        }
        let mut foreign = metadata.comment.is_some();
        let mut i: usize = 0;
        while i < metadata.extensions.len()
            invariant
                i <= metadata.extensions@.len(),
                foreign == (metadata.comment is Some || exists|j: int|
                    0 <= j < i && (#[trigger] metadata.extensions@[j]).namespace@
                        != "iso9660-volume".spec_bytes()),
            decreases metadata.extensions@.len() - i,
        {
            if !same_bytes(
                metadata.extensions[i].namespace.as_slice(),
                "iso9660-volume".as_bytes(),
            ) {
                foreign = true;
            }
            i += 1;
        }
        if foreign {
            return Err(
                iso_error(
                    ErrorKind::Unsupported,
                    "ISO archive metadata contains an unrepresentable property",
                ),
            );
        }
        let cost: usize = match archive_metadata_cost(&metadata) {
            Some(cost) => cost,
            None => {
                return Err(iso_error(ErrorKind::Limit, "metadata accounting overflow"));
            },
        };
        let used = self.metadata_used.checked_add(cost);
        if let Some(limit) = self.limits.metadata_bytes {
            let over = match used {
                Some(used) => used > limit,
                None => limit < usize::MAX,
            };
            if over {
                return Err(
                    iso_error(ErrorKind::Limit, "ISO archive metadata exceeds configured limit"),
                );
            }
        }
        match used {
            Some(used) => {
                self.archive_metadata = metadata;
                self.metadata_used = used;
                Ok(())
            },
            None => Err(iso_error(ErrorKind::Limit, "metadata accounting overflow")),
        }
    }

    fn check_entry(&self, metadata: &EntryMetadata) -> (result: Result<
        (Vec<Vec<u8>>, usize),
        ArchiveError,
    >)
        requires
            self.wf(),
        ensures
            match result {
                Ok((components, used)) => self@.admitted(*metadata) == Ok::<_, ErrorView>(
                    (texts(components@), used),
                ),
                Err(error) => self@.admitted(*metadata) == Err::<(Seq<Seq<u8>>, usize), _>(error@),
            },
    {
        if self.pending.is_some() {
            return Err(iso_error(ErrorKind::Protocol, "previous ISO entry is still open"));
        }
        let components = normalize_path(metadata.path.bytes.as_slice(), self.limits)?;
        validate_entry_metadata(metadata)?;
        let missing: usize = validate_tree_path(self.nodes.as_slice(), components.as_slice())?;
        let projected: usize = match self.nodes.len().checked_add(missing) {
            Some(projected) => projected,
            None => {
                return Err(iso_error(ErrorKind::Limit, "ISO node count overflow"));
            },
        };
        if let Some(maximum) = self.limits.entries {
            if (projected - 1) as u64 > maximum {
                return Err(
                    iso_error(ErrorKind::Limit, "ISO entry count exceeds configured limit"),
                );
            }
        }
        let node: usize = core::mem::size_of::<IsoNode>();
        proof {
            assert(missing * node >= 0) by (nonlinear_arith)
                requires
                    missing >= 0,
                    node >= 0,
            ;
        }
        if let Some(cost) = metadata_cost(metadata) {
            if let Some(nodes) = missing.checked_mul(node) {
                if let Some(sum) = cost.checked_add(nodes) {
                    if let Some(used) = self.metadata_used.checked_add(sum) {
                        return Ok((components, used));
                    }
                }
            }
        }
        Err(iso_error(ErrorKind::Limit, "metadata accounting overflow"))
    }

    /// Starts an entry whose bytes will go to `position` of the output.
    pub fn start_entry(&mut self, metadata: EntryMetadata, position: u64) -> (result: Result<
        (),
        ArchiveError,
    >)
        requires
            old(self).wf(),
        ensures
            final(self).wf(),
            (final(self)@, error_of(result)) == old(self)@.started(metadata, position),
    {
        let (components, used) = self.check_entry(&metadata)?;
        self.metadata_used = used;
        if let Some(maximum) = self.limits.metadata_bytes {
            if used > maximum {
                return Err(iso_error(ErrorKind::Limit, "ISO metadata exceeds configured limit"));
            }
        }
        if position % 2048 != 0 {
            return Err(iso_error(ErrorKind::Protocol, "ISO payload cursor is not sector aligned"));
        }
        if position / 2048 > u32::MAX as u64 {
            return Err(iso_error(ErrorKind::Limit, "ISO extent LBA exceeds u32"));
        }
        self.pending = Some(
            PendingEntry { components, metadata, size: 0, file_lba: (position / 2048) as u32 },
        );
        Ok(())
    }

    /// Checks bytes of payload before they are written.
    pub fn check_data(&self, bytes: &[u8]) -> (result: Result<DataPlan, ArchiveError>)
        ensures
            match result {
                Ok(plan) => self@.data(bytes@.len()) == Ok::<_, ErrorView>(plan),
                Err(error) => self@.data(bytes@.len()) == Err::<DataPlan, _>(error@),
            },
    {
        let pending = match &self.pending {
            Some(pending) => pending,
            None => {
                return Err(
                    iso_error(ErrorKind::Protocol, "ISO data was supplied outside an entry"),
                );
            },
        };
        if bytes.len() == 0 {
            return Ok(
                DataPlan { write: false, size: pending.size, total: self.decoded_total },
            );
        }
        if pending.metadata.kind != EntryKind::File {
            return Err(
                iso_error(ErrorKind::Protocol, "only regular ISO files accept payload data"),
            );
        }
        let additional: u64 = bytes.len() as u64;
        let size: u64 = match pending.size.checked_add(additional) {
            Some(size) => size,
            None => {
                return Err(iso_error(ErrorKind::Limit, "ISO entry size overflow"));
            },
        };
        if size > u32::MAX as u64 {
            return Err(iso_error(ErrorKind::Limit, "single-extent ISO file exceeds u32"));
        }
        if let Some(maximum) = self.limits.entry_bytes {
            if size > maximum {
                return Err(iso_error(ErrorKind::Limit, "ISO entry exceeds configured size limit"));
            }
        }
        let total: u64 = match self.decoded_total.checked_add(additional) {
            Some(total) => total,
            None => {
                return Err(iso_error(ErrorKind::Limit, "ISO decoded total overflow"));
            },
        };
        if let Some(maximum) = self.limits.decoded_total {
            if total > maximum {
                return Err(
                    iso_error(ErrorKind::Limit, "ISO decoded total exceeds configured limit"),
                );
            }
        }
        Ok(DataPlan { write: true, size, total })
    }

    /// Records that checked bytes were written.
    pub fn commit_data(&mut self, plan: DataPlan)
        requires
            old(self).wf(),
            old(self).pending is Some,
        ensures
            final(self).wf(),
            final(self)@ == (IsoState {
                pending: Some(PendingView { size: plan.size, ..old(self)@.pending->Some_0 }),
                decoded_total: plan.total,
                ..old(self)@
            }),
    {
        if let Some(pending) = self.pending.take() {
            self.pending = Some(PendingEntry { size: plan.size, ..pending });
        }
        self.decoded_total = plan.total;
    }

    /// Ends the entry that is open. Its output is padded to a sector if it is a
    /// file; then it goes into the tree.
    pub fn close_payload(&mut self) -> (result: Result<PendingEntry, ArchiveError>)
        requires
            old(self).wf(),
        ensures
            final(self).wf(),
            final(self)@ == (IsoState { pending: None, ..old(self)@ }),
            match result {
                Ok(pending) => old(self)@.closing() == Ok::<_, ErrorView>(pending@),
                Err(error) => old(self)@.closing() == Err::<PendingView, _>(error@),
            },
    {
        let pending = match self.pending.take() {
            Some(pending) => pending,
            None => {
                return Err(iso_error(ErrorKind::Protocol, "no ISO entry is open"));
            },
        };
        if let Some(declared) = pending.metadata.size {
            if declared != pending.size {
                return Err(
                    iso_error(
                        ErrorKind::Protocol,
                        "ISO entry size does not match its declared size",
                    ),
                );
            }
        }
        if pending.metadata.kind != EntryKind::File && pending.size != 0 {
            return Err(iso_error(ErrorKind::Protocol, "non-file ISO entry carried payload"));
        }
        Ok(pending)
    }

    fn body_of(&self, pending: &PendingEntry) -> (result: Result<(u32, u32), ArchiveError>)
        requires
            self.wf(),
        ensures
            match result {
                Ok(spot) => self@.body(pending@) == Ok::<_, ErrorView>(spot),
                Err(error) => self@.body(pending@) == Err::<(u32, u32), _>(error@),
            },
    {
        if pending.metadata.kind == EntryKind::Hardlink {
            let target = match &pending.metadata.link_target {
                Some(target) => target,
                None => {
                    return Err(iso_error(ErrorKind::Protocol, "ISO hard link target is missing"));
                },
            };
            let parts = normalize_path(target.bytes.as_slice(), self.limits)?;
            match find_path(self.nodes.as_slice(), parts.as_slice()) {
                None => Err(
                    iso_error(ErrorKind::Protocol, "ISO hard link target must precede the link"),
                ),
                Some(index) => {
                    let node = &self.nodes[index];
                    proof {
                        assert(self@.nodes[index as int] == self.nodes@[index as int]@);
                    }
                    if node.kind == EntryKind::Dir {
                        return Err(
                            iso_error(ErrorKind::Protocol, "ISO hard link target is a directory"),
                        );
                    }
                    Ok((node.file_lba, node.file_size))
                },
            }
        } else if pending.size > u32::MAX as u64 {
            Err(iso_error(ErrorKind::Limit, "ISO file size exceeds u32"))
        } else {
            Ok((pending.file_lba, pending.size as u32))
        }
    }

    /// Puts an entry into the tree.
    pub fn insert_entry(&mut self, pending: PendingEntry) -> (result: Result<(), ArchiveError>)
        requires
            old(self).wf(),
        ensures
            final(self).wf(),
            (final(self)@, error_of(result)) == old(self)@.inserted(pending@),
    {
        proof {
            assert(texts(pending.components@).len() == pending.components@.len());
        }
        if pending.components.len() == 0 {
            return Err(iso_error(ErrorKind::Protocol, "ISO entry path is empty"));
        }
        let index: usize = create_path(&mut self.nodes, pending.components.as_slice());
        let ghost grown = self@;
        let (file_lba, file_size) = self.body_of(&pending)?;
        let ghost before = self.nodes@;
        let kind = pending.metadata.kind;
        self.nodes[index].kind = kind;
        self.nodes[index].file_lba = file_lba;
        self.nodes[index].file_size = file_size;
        self.nodes[index].metadata = Some(pending.metadata);
        proof {
            let next = grown.nodes.update(
                index as int,
                NodeView {
                    kind,
                    metadata: Some(pending.metadata),
                    file_lba,
                    file_size,
                    ..grown.nodes[index as int]
                },
            );
            assert forall|i: int| 0 <= i < next.len() implies tree(self.nodes@)[i] == next[i] by {
                assert(grown.nodes[i] == before[i]@);
                if i != index {
                    assert(self.nodes@[i] == before[i]);
                } else {
                    assert(self.nodes@[i]@ =~= next[i]);
                }
            }
            assert(tree(self.nodes@) =~= next);
            assert(is_tree(next)) by {
                assert forall|i: int| 0 <= i < next.len() implies (#[trigger] next[i]).parent
                    < next.len() by {
                    assert(grown.nodes[i].parent < grown.nodes.len());
                }
                assert forall|i: int, k: int|
                    0 <= i < next.len() && 0 <= k < next[i].children.len() implies {
                    let child = #[trigger] next[i].children[k];
                    i < child < next.len() && next[child as int].parent == i
                } by {
                    assert(grown.nodes[i].children[k] == next[i].children[k]);
                }
            }
        }
        Ok(())
    }

    /// Completes the image whose files end at `position` of the output.
    pub fn finish(&self, position: u64) -> (result: Result<IsoTail, ArchiveError>)
        requires
            self.wf(),
        ensures
            match result {
                Ok(tail) => self@.finished(position) == Ok::<_, ErrorView>(tail@),
                Err(error) => self@.finished(position) == Err::<TailView, _>(error@),
            },
    {
        if self.pending.is_some() {
            return Err(iso_error(ErrorKind::Protocol, "ISO entry is open at finish"));
        }
        let nodes = self.nodes.as_slice();
        let order = order_directories(nodes)?;
        let plan = plan_index(nodes, order.as_slice(), self.limits.metadata_bytes, position)?;
        let index = write_index(nodes, order.as_slice(), &plan);
        let root = plan.extents[0];
        let primary = volume_descriptor(
            VolumeDescriptor {
                descriptor_type: 1,
                joliet: false,
                root_lba: root.primary_lba,
                root_size: root.primary_size,
                path_table_size: plan.primary_path_size,
                little_path_lba: plan.primary_l_path,
                big_path_lba: plan.primary_m_path,
                total_sectors: plan.total_sectors,
            },
            &self.archive_metadata,
        )?;
        let supplementary = volume_descriptor(
            VolumeDescriptor {
                descriptor_type: 2,
                joliet: true,
                root_lba: root.joliet_lba,
                root_size: root.joliet_size,
                path_table_size: plan.joliet_path_size,
                little_path_lba: plan.joliet_l_path,
                big_path_lba: plan.joliet_m_path,
                total_sectors: plan.total_sectors,
            },
            &self.archive_metadata,
        )?;
        Ok(
            IsoTail {
                index,
                primary,
                supplementary,
                terminator: descriptor_terminator(),
                total_sectors: plan.total_sectors,
            },
        )
    }
}

/// Zero bytes that bring a position to the end of a sector.
pub fn sector_padding(position: u64) -> (padding: usize)
    ensures
        padding < SECTOR,
        (position + padding) % 2048 == 0,
{
    ((2048 - position % 2048) % 2048) as usize
}

/// A finished image ends where its descriptors say, and every descriptor takes
/// one sector.
pub proof fn law_image_length(state: IsoState, position: u64)
    requires
        is_tree(state.nodes),
    ensures
        state.finished(position) matches Ok(tail) ==> {
            &&& position + tail.index.len() == tail.total_sectors * 2048
            &&& tail.primary.len() == 2048
            &&& tail.supplementary.len() == 2048
            &&& tail.terminator.len() == 2048
        },
{
    if let Ok(tail) = state.finished(position) {
        crate::iso::order::law_parents_come_first(state.nodes);
        let order = directory_order(state.nodes)->Ok_0;
        crate::iso::layout::law_index_fills_the_volume(
            state.nodes,
            order,
            state.limits.metadata_bytes,
            position,
        );
        let plan = planned(state.nodes, order, state.limits.metadata_bytes, position)->Ok_0;
        let root = plan.extents[0];
        crate::iso::volume::law_descriptors_take_a_sector(
            VolumeDescriptor {
                descriptor_type: 1,
                joliet: false,
                root_lba: root.primary_lba,
                root_size: root.primary_size,
                path_table_size: plan.primary_path_size as usize,
                little_path_lba: plan.primary_l_path,
                big_path_lba: plan.primary_m_path,
                total_sectors: plan.total_sectors,
            },
            state.archive_metadata,
        );
        crate::iso::volume::law_descriptors_take_a_sector(
            VolumeDescriptor {
                descriptor_type: 2,
                joliet: true,
                root_lba: root.joliet_lba,
                root_size: root.joliet_size,
                path_table_size: plan.joliet_path_size as usize,
                little_path_lba: plan.joliet_l_path,
                big_path_lba: plan.joliet_m_path,
                total_sectors: plan.total_sectors,
            },
            state.archive_metadata,
        );
    }
}

} // verus!
