//! A pointer relative to the start of a data buffer: an addressed value
//! whose file-absolute offset is written beside it on the wire. The offset
//! itself is not part of the value; decode follows it and forgets it, and
//! encode receives it from the enclosing layout.

use vstd::prelude::*;

verus! {

/// A value reached through a file-absolute offset.
#[derive(Debug, Clone, PartialEq, Eq)]
pub struct Ptr<T> {
    inner: T,
}

impl<T> Ptr<T> {
    /// The addressed value, for use in contracts.
    pub closed spec fn spec_inner(&self) -> T {
        self.inner
    }

    /// Creates a new `Ptr`.
    pub fn new(value: T) -> (r: Self)
        ensures
            r.spec_inner() == value,
    {
        Self { inner: value }
    }

    /// Returns a reference to the addressed value.
    pub fn get(&self) -> (r: &T)
        ensures
            r == self.spec_inner(),
    {
        &self.inner
    }

    /// Returns a mutable reference to the addressed value.
    pub fn get_mut(&mut self) -> (r: &mut T)
        ensures
            *r == old(self).spec_inner(),
            final(self).spec_inner() == *final(r),
    {
        &mut self.inner
    }

    /// Consumes the pointer, returning the addressed value.
    pub fn into_inner(self) -> (r: T)
        ensures
            r == self.spec_inner(),
    {
        self.inner
    }
}

} // verus!
