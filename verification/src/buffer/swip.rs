//! The swizzled pointer: a reference that is either a direct handle to a
//! resident buffer frame or a byte offset in the backing store.

use vstd::prelude::*;

verus! {

/// Swizzled pointer.
///
/// A `Hot` swip carries the index of the buffer frame holding the page,
/// so resolving it costs one array access and no pool interaction.  A
/// `Cold` swip carries the page's byte offset in the backing store and
/// must go through the pool's miss path.  These are the only two states:
/// in-flight loads are hidden behind the pool's own bookkeeping.
#[derive(Debug, Clone, Copy, PartialEq, Eq, Structural)]
pub enum Swip {
    /// Direct handle: index of the resident frame in the pool's arena.
    Hot(usize),
    /// Disk reference: byte offset of the page in the backing store,
    /// always a multiple of `PAGE_SIZE`.
    Cold(u64),
}

impl Swip {
    /// Create a cold (on-disk) swip from a byte offset.
    pub fn cold(offset: u64) -> (s: Swip)
        ensures
            s == Swip::Cold(offset),
    {
        Swip::Cold(offset)
    }

    /// Create a hot (in-memory) swip from a frame index.
    pub fn hot(frame: usize) -> (s: Swip)
        ensures
            s == Swip::Hot(frame),
    {
        Swip::Hot(frame)
    }

    /// Check whether this swip is a direct in-memory reference.
    pub fn is_hot(&self) -> (r: bool)
        ensures
            r == (self is Hot),
    {
        matches!(self, Swip::Hot(_))
    }

    /// Check whether this swip is a disk reference.
    pub fn is_cold(&self) -> (r: bool)
        ensures
            r == (self is Cold),
    {
        matches!(self, Swip::Cold(_))
    }
}

} // verus!
