//! Streaming archive filters, package validation and container layer handling,
//! with the behaviour of every function stated as a contract and proved.

pub mod builtin;
pub mod bytes;
pub mod chain;
pub mod codec;
pub mod entry;
pub mod error;
pub mod filter;
pub mod filtered;
pub mod io_fault;
pub mod iso;
pub mod layout;
pub mod limits;
pub mod oci;
pub mod package;
pub mod parts;
pub mod path;
pub mod path_forms;
pub mod path_set;
pub mod provider;
pub mod provider_rules;
pub mod range_error;
pub mod range_rules;
pub mod range_source;
pub mod registry;
pub mod secret;
pub mod text;
pub mod utf8;
pub mod volumes;
