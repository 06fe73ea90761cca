//! Container image layers: digests, plans and how they are applied.

pub mod apply;
pub mod create;
pub mod digest;
pub mod layer;
pub mod outcomes;
pub mod plan;
pub mod planner;
