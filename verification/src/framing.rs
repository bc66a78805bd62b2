//! The magic-tagged, hash-validated, length-prefixed chunk codec and the
//! fixed-budget chunk container.

use vstd::prelude::*;

pub mod chunk;
pub mod chunk_holder;
pub mod content;

verus! {

/// The largest buffer any codec entry point accepts. Keeps every position
/// and length computation inside `usize` and `u32` on any target.
pub const BUF_MAX: usize = 0x100_0000;

} // verus!
