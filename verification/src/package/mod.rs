//! Validation of packages without unpacking them.

pub mod app_profile;
pub mod deb;
pub mod finding;
pub mod nested;
pub mod profile_layout;
pub mod rpm;
pub mod rpm_layout;
pub mod verdicts;
pub mod zip_layout;
pub mod zip_profile;
pub mod zip_reader;
