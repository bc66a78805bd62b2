//! Byte order selection for the wire format.

use vstd::prelude::*;

verus! {

/// The byte order of a serialized save file. The Wii variants of the format
/// are big-endian; the Switch variant is little-endian.
#[derive(Debug, Clone, Copy, PartialEq, Eq, Structural)]
pub enum Endian {
    /// Most significant byte first.
    Big,
    /// Least significant byte first.
    Little,
}

} // verus!
