//! A bit-exact binary codec and container framework for the save files of a
//! platform-game franchise across three console generations.
//!
//! Save data is stored as nested, self-describing binary chunks identified by
//! content hashes, inside fixed-size versioned containers, reachable through a
//! directory of file-absolute pointers, and validated by a whole-file
//! checksum. This crate decodes and re-encodes that format and proves the
//! codec's framing, budget and round-trip properties.

pub mod array;
pub mod bytes;
pub mod cli;
pub mod data1;
pub mod data2;
pub mod endian;
pub mod error;
pub mod event;
pub mod face;
pub mod framing;
pub mod hash;
pub mod mem;
pub mod ptr;
pub mod save;
pub mod string;
