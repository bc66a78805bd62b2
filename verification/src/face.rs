//! The unique identifier stamped on a Mii.

use vstd::prelude::*;

verus! {

/// A unique identifier for a Mii: eight opaque bytes carrying creation flags,
/// a timestamp and console address material. The codec treats it as a raw
/// byte blob, held here as the big-endian reading of those bytes.
#[derive(Debug, Clone, Copy, PartialEq, Eq, Structural)]
pub struct RFLCreateID {
    inner: u64,
}

impl RFLCreateID {
    /// The raw identifier bits, in the order the bytes appear on the wire.
    pub closed spec fn spec_raw(self) -> u64 {
        self.inner
    }

    /// Creates a new `RFLCreateID` from its raw bits.
    pub fn from_raw(id: u64) -> (r: Self)
        ensures
            r.spec_raw() == id,
    {
        Self { inner: id }
    }

    /// Consumes the `RFLCreateID`, returning the contained bits.
    pub fn into_raw(self) -> (r: u64)
        ensures
            r == self.spec_raw(),
    {
        self.inner
    }

    /// The identifier holding the given raw bits, for use in contracts.
    pub closed spec fn from_raw_spec(id: u64) -> Self {
        RFLCreateID { inner: id }
    }
}

/// `from_raw_spec` holds exactly the bits it was given, and an identifier is
/// determined by its bits.
pub broadcast proof fn lemma_rfl_create_id_raw(id: u64)
    ensures
        (#[trigger] RFLCreateID::from_raw_spec(id)).spec_raw() == id,
        forall|a: RFLCreateID| a.spec_raw() == id ==> a == RFLCreateID::from_raw_spec(id),
{
}

} // verus!
