//! New layers.

use vstd::prelude::*;
use crate::entry::EntryMetadata;
use crate::filter::aes7z::{sha256, sha256_of};
use crate::filtered::detect::FilterId;
use crate::limits::Limits;
use crate::oci::digest::{DigestsView, LayerDigests};

verus! {

/// The outer filter of a new layer.
#[derive(Clone, Copy, Debug, PartialEq, Eq, Structural)]
pub enum OciLayerFilter {
    /// The stream as it is.
    Uncompressed,
    Gzip,
    Zstd,
}

impl OciLayerFilter {
    /// The filter, if there is one.
    pub open spec fn id(self) -> Option<FilterId> {
        match self {
            OciLayerFilter::Uncompressed => None,
            OciLayerFilter::Gzip => Some(FilterId::Gzip),
            OciLayerFilter::Zstd => Some(FilterId::Zstd),
        }
    }

    /// The filter, if there is one.
    pub fn filter_id(self) -> (filter: Option<FilterId>)
        ensures
            filter == self.id(),
    {
        match self {
            OciLayerFilter::Uncompressed => None,
            OciLayerFilter::Gzip => Some(FilterId::Gzip),
            OciLayerFilter::Zstd => Some(FilterId::Zstd),
        }
    }
}

/// An entry of a new layer.
#[derive(Clone, Debug)]
pub struct LayerEntry {
    pub metadata: EntryMetadata,
    pub body: Vec<u8>,
}

/// The entries of a new layer, in order.
#[derive(Clone, Debug)]
pub struct OciLayerBuilder {
    pub filter: OciLayerFilter,
    pub limits: Limits,
    pub entries: Vec<LayerEntry>,
}

impl OciLayerBuilder {
    /// A layer without entries.
    pub fn with_limits(filter: OciLayerFilter, limits: Limits) -> (builder: Self)
        ensures
            builder.filter == filter,
            builder.limits == limits,
            builder.entries@.len() == 0,
    {
        OciLayerBuilder { filter, limits, entries: Vec::new() }
    }

    /// The outer filter.
    pub fn filter(&self) -> (filter: OciLayerFilter)
        ensures
            filter == self.filter,
    {
        self.filter
    }

    /// The number of entries.
    pub fn len(&self) -> (len: usize)
        ensures
            len == self.entries@.len(),
    {
        self.entries.len()
    }

    /// Whether there is no entry yet.
    pub fn is_empty(&self) -> (empty: bool)
        ensures
            empty == (self.entries@.len() == 0),
    {
        self.entries.len() == 0
    }

    /// Adds an entry behind the others.
    pub fn push_entry(&mut self, metadata: EntryMetadata, body: Vec<u8>)
        ensures
            final(self).entries@ == old(self).entries@.push(LayerEntry { metadata, body }),
            final(self).filter == old(self).filter,
            final(self).limits == old(self).limits,
    {
        self.entries.push(LayerEntry { metadata, body });
    }
}

/// A layer that is ready to be stored.
#[derive(Clone, Debug)]
pub struct OciLayerBlob {
    pub blob: Vec<u8>,
    pub digests: LayerDigests,
}

impl OciLayerBlob {
    /// Seals a blob. `plain` is its uncompressed stream; it is not looked at if
    /// the layer has no filter.
    pub fn seal(filter: OciLayerFilter, blob: Vec<u8>, plain: &[u8]) -> (layer: Self)
        ensures
            layer.blob == blob,
            layer.digests@ == (DigestsView {
                compressed: sha256(blob@),
                diff_id: if filter == OciLayerFilter::Uncompressed {
                    sha256(blob@)
                } else {
                    sha256(plain@)
                },
            }),
    {
        let compressed: [u8; 32] = sha256_of(blob.as_slice());
        let diff_id: [u8; 32] = if filter == OciLayerFilter::Uncompressed {
            compressed
        } else {
            sha256_of(plain)
        };
        OciLayerBlob { blob, digests: LayerDigests::from_bytes(compressed, diff_id) }
    }

    /// The stored bytes.
    pub fn blob(&self) -> (blob: &[u8])
        ensures
            blob@ == self.blob@,
    {
        self.blob.as_slice()
    }

    /// The digests.
    pub fn digests(&self) -> (digests: LayerDigests)
        ensures
            digests == self.digests,
    {
        self.digests
    }

    /// The stored bytes.
    pub fn into_blob(self) -> (blob: Vec<u8>)
        ensures
            blob == self.blob,
    {
        self.blob
    }
}

} // verus!
