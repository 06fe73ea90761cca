//! Readers and writers of outer filters.

pub mod detect;
pub mod frames;
pub mod members;
pub mod reading_rules;
pub mod recognition;
