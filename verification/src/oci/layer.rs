//! Entries of a layer and the check of its digests.

use vstd::prelude::*;
use crate::bytes::{same_bytes, to_vec};
use crate::entry::{EntryKind, EntryMetadata};
use crate::error::ArchiveError;
use crate::io_fault::IoFault;
use crate::limits::Limits;
use crate::oci::digest::{encode_hex, hex, LayerDigests};

verus! {

/// How the layers of images are read.
#[derive(Clone, Copy, Debug)]
pub struct OciLayerEngine {
    pub limits: Limits,
}

impl OciLayerEngine {
    /// An engine with budgets. They bound what the outer filter decodes, so that
    /// a layer cannot expand without limit while its digest is computed.
    pub fn with_limits(limits: Limits) -> (engine: Self)
        ensures
            engine.limits == limits,
    {
        OciLayerEngine { limits }
    }

    /// The budgets.
    pub fn limits(&self) -> (limits: Limits)
        ensures
            limits == self.limits,
    {
        self.limits
    }

    /// The budgets for the archive below the outer filter: no filter is looked
    /// for again, since what comes out of the first is plain.
    pub fn tar_limits(&self) -> (limits: Limits)
        ensures
            limits == (Limits { filter_depth: Some(0), ..self.limits }),
    {
        self.limits.with_filter_depth(Some(0))
    }
}

/// What a layer's listing says about an entry.
#[derive(Clone, Debug)]
pub struct OciLayerEntry {
    pub path: Vec<u8>,
    pub kind: EntryKind,
    pub size: Option<u64>,
    pub link_target: Option<Vec<u8>>,
    pub mode: Option<u32>,
    pub uid: Option<u64>,
    pub gid: Option<u64>,
}

impl OciLayerEntry {
    /// The listing of an entry.
    pub fn from_metadata(metadata: &EntryMetadata) -> (entry: Self)
        ensures
            entry.path@ == metadata.path.bytes@,
            entry.kind == metadata.kind,
            entry.size == metadata.size,
            match (entry.link_target, metadata.link_target) {
                (Some(bytes), Some(target)) => bytes@ == target.bytes@,
                (None, None) => true,
                _ => false,
            },
            entry.mode == metadata.mode,
            entry.uid == metadata.owner.uid,
            entry.gid == metadata.owner.gid,
    {
        OciLayerEntry {
            path: to_vec(metadata.path.bytes.as_slice()),
            kind: metadata.kind,
            size: metadata.size,
            link_target: match &metadata.link_target {
                Some(target) => Some(to_vec(target.bytes.as_slice())),
                None => None,
            },
            mode: metadata.mode,
            uid: metadata.owner.uid,
            gid: metadata.owner.gid,
        }
    }

    /// The path as the archive holds it.
    pub fn path(&self) -> (path: &[u8])
        ensures
            path@ == self.path@,
    {
        self.path.as_slice()
    }

    /// What the entry is.
    pub fn kind(&self) -> (kind: EntryKind)
        ensures
            kind == self.kind,
    {
        self.kind
    }

    /// The declared size.
    pub fn size(&self) -> (size: Option<u64>)
        ensures
            size == self.size,
    {
        self.size
    }

    /// The target of a link.
    pub fn link_target(&self) -> (target: Option<&[u8]>)
        ensures
            match (target, self.link_target) {
                (Some(target), Some(bytes)) => target@ == bytes@,
                (None, None) => true,
                _ => false,
            },
    {
        match &self.link_target {
            Some(target) => Some(target.as_slice()),
            None => None,
        }
    }

    /// The permission bits.
    pub fn mode(&self) -> (mode: Option<u32>)
        ensures
            mode == self.mode,
    {
        self.mode
    }

    /// The user id.
    pub fn uid(&self) -> (uid: Option<u64>)
        ensures
            uid == self.uid,
    {
        self.uid
    }

    /// The group id.
    pub fn gid(&self) -> (gid: Option<u64>)
        ensures
            gid == self.gid,
    {
        self.gid
    }
}

/// Which digest of a layer.
#[derive(Clone, Copy, Debug, PartialEq, Eq, Structural)]
pub enum DigestKind {
    /// That of the blob.
    Compressed,
    /// That of the uncompressed stream.
    DiffId,
}

impl DigestKind {
    /// The name of the digest.
    pub fn label(self) -> (label: &'static str)
        ensures
            label@ == match self {
                DigestKind::Compressed => "compressed digest"@,
                DigestKind::DiffId => "diffID"@,
            },
    {
        match self {
            DigestKind::Compressed => "compressed digest",
            DigestKind::DiffId => "diffID",
        }
    }
}

/// A digest that is not the expected one.
#[derive(Clone, Copy, Debug, PartialEq, Eq)]
pub struct DigestMismatch {
    pub kind: DigestKind,
    pub expected: [u8; 32],
    pub actual: [u8; 32],
}

impl DigestMismatch {
    /// Which digest differs.
    pub fn kind(self) -> (kind: DigestKind)
        ensures
            kind == self.kind,
    {
        self.kind
    }

    /// The expected digest.
    pub fn expected(&self) -> (digest: &[u8; 32])
        ensures
            *digest == self.expected,
    {
        &self.expected
    }

    /// The computed digest.
    pub fn actual(&self) -> (digest: &[u8; 32])
        ensures
            *digest == self.actual,
    {
        &self.actual
    }

    /// The mismatch in words.
    pub fn message(&self) -> (text: String)
        ensures
            text@ == (match self.kind {
                DigestKind::Compressed => "compressed digest"@,
                DigestKind::DiffId => "diffID"@,
            }) + " mismatch: expected sha256:"@ + hex(self.expected@) + ", computed sha256:"@ + hex(
                self.actual@,
            ),
    {
        let mut text = self.kind.label().to_string();
        text.append(" mismatch: expected sha256:");
        text.append(encode_hex(self.expected).as_str());
        text.append(", computed sha256:");
        text.append(encode_hex(self.actual).as_str());
        text
    }
}

/// Why a layer could not be read or applied.
#[derive(Debug)]
pub enum OciLayerError {
    /// The archive stream is broken.
    Stream(ArchiveError),
    /// The source could not be read.
    Io(IoFault),
    /// A digest is not the expected one.
    DigestMismatch(DigestMismatch),
    /// The filesystem failed.
    Adapter(String),
    /// A plan met the wrong session or the wrong stream.
    Session(&'static str),
}

/// What a check of digests comes to: that of the blob is checked first.
pub open spec fn is_verdict(
    actual: LayerDigests,
    expected: LayerDigests,
    result: Result<(), DigestMismatch>,
) -> bool {
    match result {
        Ok(()) => actual@ == expected@,
        Err(mismatch) => match mismatch.kind {
            DigestKind::Compressed => {
                &&& actual@.compressed != expected@.compressed
                &&& mismatch.expected == expected.compressed
                &&& mismatch.actual == actual.compressed
            },
            DigestKind::DiffId => {
                &&& actual@.compressed == expected@.compressed
                &&& actual@.diff_id != expected@.diff_id
                &&& mismatch.expected == expected.diff_id
                &&& mismatch.actual == actual.diff_id
            },
        },
    }
}

/// Checks the digests of a layer: that of the blob first.
pub fn verify_digests(actual: &LayerDigests, expected: &LayerDigests) -> (result: Result<
    (),
    DigestMismatch,
>)
    ensures
        is_verdict(*actual, *expected, result),
{
    if !same_bytes(actual.compressed.as_slice(), expected.compressed.as_slice()) {
        return Err(
            DigestMismatch {
                kind: DigestKind::Compressed,
                expected: expected.compressed,
                actual: actual.compressed,
            },
        );
    }
    if !same_bytes(actual.diff_id.as_slice(), expected.diff_id.as_slice()) {
        return Err(
            DigestMismatch {
                kind: DigestKind::DiffId,
                expected: expected.diff_id,
                actual: actual.diff_id,
            },
        );
    }
    Ok(())
}

} // verus!
