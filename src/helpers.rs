//! Checksums, digests, decryption, text decoding and MS-DOS timestamps.
pub mod aes256cbc;
pub mod crc32;
pub mod msdos;
pub mod murmur3;
pub mod sha256;
pub mod text;
