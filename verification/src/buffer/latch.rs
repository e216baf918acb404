//! The optimistic latch protocol: a per-frame version counter in place of
//! a reader-writer lock.
//!
//! An even counter means the frame is unlocked and safe to observe.  A
//! reader records the counter before reading and validates afterwards:
//! the read is trustworthy only if the counter is unchanged and even.
//! An exclusive party (a writer, or the eviction procedure) moves the
//! counter from even `N` to odd `N + 1` on acquisition and to `N + 2`
//! on release, so the counter only ever grows, and any reader that
//! started before the acquisition is guaranteed to fail validation.

use vstd::prelude::*;

verus! {

/// An odd version counter marks a frame as exclusively latched.
pub open spec fn locked(v: u64) -> bool {
    v % 2 == 1
}

/// A read validates exactly when the counter is unchanged since it was
/// recorded and the frame was unlocked the whole time (even counter).
pub open spec fn validates(before: u64, after: u64) -> bool {
    before == after && !locked(before)
}

/// Law: a reader that validates successfully saw no exclusive access.
/// Validation succeeding pins the counter down: it never moved, and it
/// was even (unlocked) both when recorded and when rechecked — so no
/// writer's acquisition or release fell in between.
pub proof fn lemma_validated_read_saw_no_writer(before: u64, after: u64)
    requires
        validates(before, after),
    ensures
        after == before,
        !locked(before),
        !locked(after),
{
}

/// Law: a reader overlapping a writer's exclusive section cannot
/// validate.  If the writer acquired at even `n` (counter `n + 1`) and
/// the reader recorded its version at or before that point, then once
/// the writer has released (counter at least `n + 2`, and counters only
/// grow) the reader's validation fails.
pub proof fn lemma_writer_excludes_reader(n: u64, recorded: u64, current: u64)
    requires
        !locked(n),
        recorded <= n + 1,
        current >= n + 2,
    ensures
        !validates(recorded, current),
{
}

/// Law: a reader that records its version while an exclusive section is
/// in progress (odd counter) can never validate, whatever it later
/// observes.
pub proof fn lemma_reader_inside_section_never_validates(recorded: u64, current: u64)
    requires
        locked(recorded),
    ensures
        !validates(recorded, current),
{
}

} // verus!
