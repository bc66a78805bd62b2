//! Errors surfaced by the binary codec.

use vstd::prelude::*;

verus! {

/// A structural decode or encode error. Each variant carries the byte offset
/// at which it was detected and, where applicable, the expected and actual
/// values.
#[derive(Debug, Clone, Copy, PartialEq, Eq, Structural)]
pub enum BinError {
    /// The input ended before the required number of bytes could be read.
    Eof { pos: usize },
    /// The content hash in a chunk header does not match the hash of the
    /// content type selected by the magic number.
    HashMismatch { pos: usize, expected: u32, found: u32 },
    /// A declared byte count does not match the number of bytes actually
    /// consumed or produced at a framing boundary.
    SizeMismatch { pos: usize, expected: u32, found: u32 },
    /// A chunk's magic number matches no variant of the closed content set.
    UnknownMagic { pos: usize, found: u32 },
    /// A one-byte enum discriminant matches no known variant.
    UnknownDiscriminant { pos: usize, byte: u8 },
    /// A directory entry's name matches none of the fixed container prefixes,
    /// or a fixed-width name field holds no terminator.
    InvalidName { pos: usize },
    /// A path record appeared before any zone escape byte.
    MissingZone { pos: usize },
    /// An encoded container is larger than its fixed byte budget.
    BudgetOverflow { budget: usize, size: usize },
}

} // verus!
