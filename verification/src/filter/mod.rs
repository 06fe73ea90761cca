//! Outer filters: decoders and encoders of compressed streams.

pub mod aes7z;
pub mod bcj;
pub mod bcj_decoder;
pub mod crc;
pub mod deflate;
pub mod frame_layout;
pub mod gzip;
pub mod gzip_encoder;
pub mod inflate_raw;
pub mod lz4;
pub mod lzip;
pub mod lzip_member;
pub mod pipe;
pub mod stream_rules;
pub mod xz;
pub mod xz_envelope;
pub mod xz_layout;
pub mod xz_stream;
pub mod zstd;

pub use crc::{crc32, Crc32};
