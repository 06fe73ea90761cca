//! Resource budgets for untrusted input.

use vstd::prelude::*;

verus! {

/// Resource budgets. `None` removes the budget it stands for.
#[derive(Clone, Copy, Debug, PartialEq, Eq, Structural)]
pub struct Limits {
    /// Bytes of working memory that one codec may ask for.
    pub codec_memory: Option<usize>,
    /// Decoded bytes that one input may expand to.
    pub decoded_total: Option<u64>,
    /// Bytes of archive metadata that may be retained.
    pub metadata_bytes: Option<usize>,
    /// Number of entries.
    pub entries: Option<u64>,
    /// Bytes of one entry's body.
    pub entry_bytes: Option<u64>,
    /// Bytes of one path name.
    pub path_bytes: Option<usize>,
    /// Components of one path name.
    pub nesting: Option<usize>,
    /// Number of nested outer filters.
    pub filter_depth: Option<u32>,
    /// Bytes buffered between a producer and its consumer.
    pub in_flight_bytes: Option<usize>,
}

impl Limits {
    /// No budget at all.
    pub fn unlimited() -> (limits: Self)
        ensures
            limits == (Limits {
                codec_memory: None,
                decoded_total: None,
                metadata_bytes: None,
                entries: None,
                entry_bytes: None,
                path_bytes: None,
                nesting: None,
                filter_depth: None,
                in_flight_bytes: None,
            }),
    {
        Limits {
            codec_memory: None,
            decoded_total: None,
            metadata_bytes: None,
            entries: None,
            entry_bytes: None,
            path_bytes: None,
            nesting: None,
            filter_depth: None,
            in_flight_bytes: None,
        }
    }

    /// These budgets with another decoded total.
    pub fn with_decoded_total(self, value: Option<u64>) -> (limits: Self)
        ensures
            limits == (Limits { decoded_total: value, ..self }),
    {
        Limits { decoded_total: value, ..self }
    }

    /// These budgets with another filter depth.
    pub fn with_filter_depth(self, value: Option<u32>) -> (limits: Self)
        ensures
            limits == (Limits { filter_depth: value, ..self }),
    {
        Limits { filter_depth: value, ..self }
    }
}

} // verus!
