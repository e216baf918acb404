//! The error taxonomy of the buffer manager.

use vstd::prelude::*;

verus! {

/// Errors that the buffer manager surfaces to its callers.
///
/// Latch conflicts and failed optimistic validations are not listed here:
/// they are resolved internally by retrying and never leak to the caller.
#[derive(Debug, Clone, Copy, PartialEq, Eq, Structural)]
pub enum Error {
    /// A backing-store read or write failed.  The verified core never
    /// produces this variant itself; it is the slot through which an
    /// I/O-backed store surfaces its failures.
    Io,
    /// A page read back from the store fails a structural expectation:
    /// its header id does not match the id it was requested under.
    /// Carries the page id the read was issued for.
    Corruption(u64),
    /// A requested page id has no mapping in the store.
    NotFound,
    /// Eviction could not free a frame: every frame is pinned or
    /// exclusively latched.  Recoverable by backing off and retrying.
    OutOfMemory,
}

impl Error {
    /// True exactly on the exhaustion error.
    pub fn is_out_of_memory(&self) -> (r: bool)
        ensures
            r == (self is OutOfMemory),
    {
        matches!(self, Error::OutOfMemory)
    }

    /// True exactly on the missing-page error.
    pub fn is_not_found(&self) -> (r: bool)
        ensures
            r == (self is NotFound),
    {
        matches!(self, Error::NotFound)
    }

    /// True exactly on the corruption error.
    pub fn is_corruption(&self) -> (r: bool)
        ensures
            r == (self is Corruption),
    {
        matches!(self, Error::Corruption(_))
    }
}

} // verus!
