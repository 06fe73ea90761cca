[package]
name = "libarchive_oxide"
version = "0.1.0"
edition = "2021"
publish = false

[dependencies]
aes = "=0.9.4"
bzip2 = "=0.6.1"
cbc = "=0.2.1"
lz4_flex = "=0.14.0"
lzma-rust2 = "=0.25.0"
miniz_oxide = "=0.9.1"
ruzstd = "=0.9.1"
sha2 = "=0.11.1"
twox-hash = "=2.1.5"
unicode-normalization = "=0.1.26"
zeroize = "=1.9.1"
