//! ISO 9660 images with Joliet names and Rock Ridge properties.

pub mod finish;
pub mod image;
pub mod layout;
pub mod order;
pub mod read_back;
pub mod record;
pub mod rock_ridge;
pub mod time;
pub mod tree;
pub mod volume;
pub mod writer;
pub mod writer_rules;
