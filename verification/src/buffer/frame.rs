//! The buffer frame: metadata wrapper around one resident page.

use vstd::prelude::*;

use crate::buffer::latch::locked;
use crate::buffer::page::Page;

verus! {

/// A slot of the pool's fixed arena.  A frame either holds one resident
/// page (its `owner` names the swip slot pointing Hot at it) or is free
/// (`owner` is `None`); the page buffer itself is kept either way so the
/// memory is reused.
pub struct BufferFrame {
    /// Optimistic latch: even means unlocked, odd means exclusively
    /// latched; grows monotonically across the frame's whole life.
    pub version: u64,
    /// Set when the resident page has changed since it was last flushed.
    pub dirty: bool,
    /// Number of pins: traversals that asked the frame not to be evicted.
    pub pins: u64,
    /// Back-reference: the swip slot currently pointing Hot at this
    /// frame, or `None` if the frame is free.  A lookup key only —
    /// eviction uses it to find the swip it must rewrite to Cold.
    pub owner: Option<usize>,
    /// Whether the frame sits in the pool's cooling queue.
    pub cooling: bool,
    /// The page buffer.
    pub page: Page,
}

impl BufferFrame {
    /// A frame is well formed when its page buffer is full-size.
    pub open spec fn wf(self) -> bool {
        self.page.wf()
    }

    /// Whether the frame holds a resident page.
    pub open spec fn resident(self) -> bool {
        self.owner is Some
    }

    /// Whether eviction may take this frame: resident, not pinned, and
    /// not exclusively latched (so the exclusive acquire will succeed),
    /// with room left on the version counter for one more acquire and
    /// release.
    pub open spec fn evictable(self) -> bool {
        self.resident() && self.pins == 0 && !locked(self.version) && self.version + 2
            <= u64::MAX
    }
}

} // verus!
