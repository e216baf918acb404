//! The buffer pool: a fixed arena of frames, a free list, a cooling
//! queue for eviction candidates, the table of swips handed to clients,
//! and the backing store.
//!
//! The pool's well-formedness invariant ties the pieces together; its
//! centre is the swizzling invariant: a swip is Hot exactly when the
//! frame it names is owned by that swip, and the ownership is one-to-one
//! in both directions, so a dangling Hot swip is structurally impossible.

use vstd::prelude::*;

use crate::buffer::frame::BufferFrame;
use crate::buffer::latch::locked;
use crate::buffer::latch::validates;
use crate::buffer::page::MAX_PAGE_COUNT;
use crate::buffer::page::PAGE_SIZE;
use crate::buffer::page::PAGE_SIZE_U64;
use crate::buffer::page::Page;
use crate::buffer::page::PageId;
use crate::buffer::page::spec_pid_of;
use crate::buffer::store::Store;
use crate::buffer::swip::Swip;
use crate::error::Error;

verus! {

/// Byte identity of two pages.
pub open spec fn page_same(a: Page, b: Page) -> bool {
    a.id == b.id && a.data@ == b.data@
}

/// Frame identity up to the cooling flag (the one field the eviction
/// policy's bookkeeping may move on its own).
pub open spec fn frame_same_but_cooling(a: BufferFrame, b: BufferFrame) -> bool {
    &&& b.version == a.version
    &&& b.dirty == a.dirty
    &&& b.pins == a.pins
    &&& b.owner == a.owner
    &&& page_same(a.page, b.page)
}

/// The pool's observable content is unchanged: same swips, same store
/// bytes, same free list, and every frame the same up to cooling flags.
pub open spec fn same_content(pre: BufferPool, post: BufferPool) -> bool {
    &&& post.swips@ == pre.swips@
    &&& post.free@ == pre.free@
    &&& post.frames.len() == pre.frames.len()
    &&& forall|f: int|
        0 <= f < pre.frames.len() ==> frame_same_but_cooling(
            pre.frames[f],
            #[trigger] post.frames[f],
        )
    &&& post.store.len() == pre.store.len()
    &&& forall|i: int| 0 <= i < pre.store.len() ==> post.store.contents(i) == pre.store.contents(i)
}

/// What evicting frame `f` (owned by swip slot `slot`) does to the pool:
/// the swip is rewritten to Cold, the page's bytes end up in the store,
/// the frame is freed and its latch released two versions later, and
/// nothing else moves.  The frame was acquirable: unpinned and unlocked.
pub open spec fn evicted_frame(pre: BufferPool, post: BufferPool, f: usize, slot: usize) -> bool {
    &&& f < pre.frames.len()
    &&& pre.frames[f as int].owner == Some(slot)
    &&& pre.frames[f as int].evictable()
    &&& slot < pre.swips.len()
    &&& post.swips@ == pre.swips@.update(
        slot as int,
        Swip::Cold((pre.frames[f as int].page.id * PAGE_SIZE_U64) as u64),
    )
    &&& post.store.len() == pre.store.len()
    &&& post.store.contents(pre.frames[f as int].page.id as int) == Some(
        pre.frames[f as int].page.data@,
    )
    &&& forall|i: int|
        0 <= i < pre.store.len() && i != pre.frames[f as int].page.id ==> post.store.contents(i)
            == pre.store.contents(i)
    &&& post.frames.len() == pre.frames.len()
    &&& post.frames[f as int].owner is None
    &&& post.frames[f as int].version == pre.frames[f as int].version + 2
    &&& post.frames[f as int].pins == 0
    &&& !post.frames[f as int].dirty
    &&& forall|g: int|
        0 <= g < pre.frames.len() && g != f ==> frame_same_but_cooling(
            pre.frames[g],
            #[trigger] post.frames[g],
        )
    &&& post.free@ == pre.free@.push(f)
}

/// What resolving the cold swip in `slot` into frame `f` does to the
/// pool: the swip becomes Hot at `f`, the frame holds a clean copy of
/// exactly the bytes the store held for that page, no cold swip moves
/// (at most one hot swip may have been unswizzled to make room), and
/// every slot keeps the page it denotes.
pub open spec fn swizzled_in(pre: BufferPool, post: BufferPool, slot: usize, f: usize) -> bool {
    &&& slot < pre.swips.len()
    &&& pre.swips[slot as int] is Cold
    &&& f < post.frames.len()
    &&& post.swips.len() == pre.swips.len()
    &&& post.swips[slot as int] == Swip::Hot(f)
    &&& forall|s: int|
        0 <= s < pre.swips.len() && s != slot && (#[trigger] pre.swips[s]) is Cold
            ==> post.swips[s] == pre.swips[s]
    &&& forall|s: int| 0 <= s < pre.swips.len() ==> #[trigger] post.slot_pid(s) == pre.slot_pid(s)
    &&& post.frames[f as int].owner == Some(slot)
    &&& post.frames[f as int].page.id == pre.swips[slot as int]->Cold_0 / PAGE_SIZE_U64
    &&& Some(post.frames[f as int].page.data@) == pre.store.contents(
        (pre.swips[slot as int]->Cold_0 / PAGE_SIZE_U64) as int,
    )
    &&& !post.frames[f as int].dirty
    &&& post.frames[f as int].pins == 0
    &&& !locked(post.frames[f as int].version)
    &&& (post.frames[f as int].version == pre.frames[f as int].version || post.frames[
        f as int
    ].version == pre.frames[f as int].version + 2)
    &&& post.store.len() == pre.store.len()
}

/// How one frame relates to itself across `flush_all`: everything but
/// the dirty flag is untouched, the flag can only be cleared, and every
/// unlatched resident frame ends up clean.
pub open spec fn flushed_frame(a: BufferFrame, b: BufferFrame) -> bool {
    &&& b.version == a.version
    &&& b.pins == a.pins
    &&& b.owner == a.owner
    &&& b.cooling == a.cooling
    &&& page_same(a.page, b.page)
    &&& (b.dirty ==> a.dirty)
    &&& (a.resident() && !locked(a.version) ==> !b.dirty)
}

/// How the store relates to itself across `flush_all`: a slot either
/// kept its bytes or took exactly the bytes of the resident page with
/// that id.
pub open spec fn store_extends_with_frames(pre: BufferPool, post: BufferPool) -> bool {
    forall|k: int|
        0 <= k < pre.store.len() ==> ((#[trigger] post.store.contents(k)) == pre.store.contents(k)
            || (exists|g: int|
                0 <= g < pre.frames.len() && (#[trigger] pre.frames[g]).resident()
                    && pre.frames[g].page.id == k && post.store.contents(k) == Some(
                    pre.frames[g].page.data@,
                )))
}

/// The buffer pool.
pub struct BufferPool {
    /// The fixed arena of buffer frames.
    pub frames: Vec<BufferFrame>,
    /// Indices of the frames that hold no page.
    pub free: Vec<usize>,
    /// Eviction candidates, oldest first.
    pub cooling: Vec<usize>,
    /// The table of swips handed out to clients; a client refers to a
    /// swip by its slot index here.
    pub swips: Vec<Swip>,
    /// The backing store.
    pub store: Store,
}

impl BufferPool {
    /// The page id a swip slot denotes, whether it is Hot or Cold.
    pub open spec fn slot_pid(self, s: int) -> u64 {
        match self.swips[s] {
            Swip::Hot(f) => self.frames[f as int].page.id,
            Swip::Cold(off) => off / PAGE_SIZE_U64,
        }
    }

    /// Every frame's page buffer is full-size.
    pub open spec fn frames_wf(self) -> bool {
        forall|f: int| 0 <= f < self.frames.len() ==> (#[trigger] self.frames[f]).wf()
    }

    /// A Hot swip names a frame in range whose back-pointer names the
    /// swip in return: no dangling Hot swip.
    pub open spec fn hot_links_ok(self) -> bool {
        forall|s: int|
            0 <= s < self.swips.len() ==> (#[trigger] self.swips[s] matches Swip::Hot(f) ==> f
                < self.frames.len() && self.frames[f as int].owner == Some(s as usize))
    }

    /// An owned frame's back-pointer names a swip that is Hot at exactly
    /// this frame: no orphan frame.
    pub open spec fn owner_links_ok(self) -> bool {
        forall|f: int|
            0 <= f < self.frames.len() ==> ((#[trigger] self.frames[f]).owner matches Some(s)
                ==> s < self.swips.len() && self.swips[s as int] == Swip::Hot(f as usize))
    }

    /// The free list holds exactly the unowned frames, each once.
    pub open spec fn free_list_ok(self) -> bool {
        &&& forall|i: int|
            0 <= i < self.free.len() ==> (#[trigger] self.free[i]) < self.frames.len()
                && self.frames[self.free[i] as int].owner is None
        &&& forall|i: int, j: int| 0 <= i < j < self.free.len() ==> self.free[i] != self.free[j]
        &&& forall|f: int|
            0 <= f < self.frames.len() && (#[trigger] self.frames[f]).owner is None
                ==> self.free@.contains(f as usize)
    }

    /// A free frame is quiescent: unpinned, unlatched, clean, and not a
    /// cooling candidate.
    pub open spec fn free_frames_quiet(self) -> bool {
        forall|f: int|
            0 <= f < self.frames.len() && (#[trigger] self.frames[f]).owner is None ==> self.frames[
                f
            ].pins == 0 && !locked(self.frames[f].version) && !self.frames[f].dirty
                && !self.frames[f].cooling
    }

    /// The cooling queue and the per-frame cooling flags agree, and the
    /// queue holds no frame twice.
    pub open spec fn cooling_ok(self) -> bool {
        &&& forall|i: int|
            0 <= i < self.cooling.len() ==> (#[trigger] self.cooling[i]) < self.frames.len()
                && self.frames[self.cooling[i] as int].cooling
        &&& forall|f: int|
            0 <= f < self.frames.len() && (#[trigger] self.frames[f]).cooling
                ==> self.cooling@.contains(f as usize)
        &&& forall|i: int, j: int|
            0 <= i < j < self.cooling.len() ==> self.cooling[i] != self.cooling[j]
    }

    /// A resident page's id is allocated, and a clean resident page is
    /// byte-identical to its stored copy.
    pub open spec fn resident_ok(self) -> bool {
        forall|f: int|
            0 <= f < self.frames.len() && (#[trigger] self.frames[f]).resident() ==> self.frames[
                f
            ].page.id < self.store.len() && (!self.frames[f].dirty ==> self.store.contents(
                self.frames[f].page.id as int,
            ) == Some(self.frames[f].page.data@))
    }

    /// A Cold swip's offset is page-aligned and names a page the store
    /// actually holds, so resolving it cannot fail on a missing page.
    pub open spec fn cold_swips_ok(self) -> bool {
        forall|s: int|
            0 <= s < self.swips.len() ==> (#[trigger] self.swips[s] matches Swip::Cold(off) ==> off
                % PAGE_SIZE_U64 == 0 && off / PAGE_SIZE_U64 < self.store.len()
                && self.store.contents((off / PAGE_SIZE_U64) as int) is Some)
    }

    /// Distinct swip slots denote distinct pages.
    pub open spec fn pids_injective(self) -> bool {
        forall|s1: int, s2: int|
            0 <= s1 < s2 < self.swips.len() ==> #[trigger] self.slot_pid(s1)
                != #[trigger] self.slot_pid(s2)
    }

    /// The pool mid-allocation: well formed except that frame `f`,
    /// though unowned, has already been taken off the free list.
    pub open spec fn wf_holding_frame(self, f: usize) -> bool {
        &&& self.frames_wf()
        &&& self.store.wf()
        &&& self.hot_links_ok()
        &&& self.owner_links_ok()
        &&& forall|i: int|
            0 <= i < self.free.len() ==> (#[trigger] self.free[i]) < self.frames.len()
                && self.frames[self.free[i] as int].owner is None
        &&& forall|i: int, j: int| 0 <= i < j < self.free.len() ==> self.free[i] != self.free[j]
        &&& forall|g: int|
            0 <= g < self.frames.len() && (#[trigger] self.frames[g]).owner is None && g != f
                ==> self.free@.contains(g as usize)
        &&& !self.free@.contains(f)
        &&& f < self.frames.len()
        &&& self.frames[f as int].owner is None
        &&& self.free_frames_quiet()
        &&& self.cooling_ok()
        &&& self.resident_ok()
        &&& self.cold_swips_ok()
        &&& self.pids_injective()
    }

    /// Pool well-formedness: what every public operation preserves.
    pub open spec fn wf(self) -> bool {
        &&& self.frames_wf()
        &&& self.store.wf()
        &&& self.hot_links_ok()
        &&& self.owner_links_ok()
        &&& self.free_list_ok()
        &&& self.free_frames_quiet()
        &&& self.cooling_ok()
        &&& self.resident_ok()
        &&& self.cold_swips_ok()
        &&& self.pids_injective()
    }

    /// A frame can be handed out right now without evicting: the free
    /// list is not empty.
    pub open spec fn has_free_frame(self) -> bool {
        self.free.len() > 0
    }

    /// Some frame could be evicted: resident, unpinned, unlatched.
    pub open spec fn has_evictable_frame(self) -> bool {
        exists|f: int| 0 <= f < self.frames.len() && (#[trigger] self.frames[f]).evictable()
    }

    /// A new pool with `capacity` frames, all free, no pages allocated.
    pub fn new(capacity: usize) -> (p: BufferPool)
        ensures
            p.wf(),
            p.frames.len() == capacity,
            p.free.len() == capacity,
            p.swips.len() == 0,
            p.store.len() == 0,
            forall|f: int|
                0 <= f < capacity ==> (#[trigger] p.frames[f]).owner is None && p.frames[f].version
                    == 0 && p.frames[f].pins == 0,
    {
        let mut frames: Vec<BufferFrame> = Vec::new();
        let mut free: Vec<usize> = Vec::new();
        let mut i: usize = 0;
        while i < capacity
            invariant
                i <= capacity,
                frames.len() == i,
                free.len() == i,
                forall|f: int|
                    0 <= f < i ==> (#[trigger] frames[f]).wf() && frames[f].owner is None
                        && frames[f].pins == 0 && frames[f].version == 0 && !frames[f].dirty
                        && !frames[f].cooling,
                forall|k: int| 0 <= k < i ==> (#[trigger] free[k]) == k,
            decreases capacity - i,
        {
            frames.push(
                BufferFrame {
                    version: 0,
                    dirty: false,
                    pins: 0,
                    owner: None,
                    cooling: false,
                    page: Page::new(0),
                },
            );
            free.push(i);
            i = i + 1;
        }
        let p = BufferPool { frames, free, cooling: Vec::new(), swips: Vec::new(), store: Store::new() };
        proof {
            assert forall|f: int|
                0 <= f < p.frames.len() && (#[trigger] p.frames[f]).owner is None implies p.free@.contains(
                f as usize,
            ) by {
                assert(p.free[f] == f as usize);
            }
        }
        p
    }

    /// Number of frames in the arena.
    pub fn capacity(&self) -> (n: usize)
        ensures
            n == self.frames.len(),
    {
        self.frames.len()
    }

    /// Number of swip slots handed out so far.
    pub fn swip_count(&self) -> (n: usize)
        ensures
            n == self.swips.len(),
    {
        self.swips.len()
    }

    /// Read the swip in a slot.
    pub fn swip_at(&self, slot: usize) -> (s: Swip)
        requires
            slot < self.swips.len(),
        ensures
            s == self.swips[slot as int],
    {
        self.swips[slot]
    }

    /// The page id the swip in `slot` denotes, hot or cold.
    pub fn slot_pid_at(&self, slot: usize) -> (pid: u64)
        requires
            self.wf(),
            slot < self.swips.len(),
        ensures
            pid == self.slot_pid(slot as int),
    {
        match self.swips[slot] {
            Swip::Hot(f) => self.frames[f].page.id,
            Swip::Cold(off) => off / PAGE_SIZE_U64,
        }
    }

    /// Re-attach a page that already sits in the backing store: hand
    /// out a fresh Cold swip for its byte offset.  This is how pages
    /// found in a persisted store come back into reach after a restart.
    ///
    /// Succeeds exactly when the offset is page-aligned, the store
    /// holds a page there, and no existing swip already denotes that
    /// page; otherwise nothing changes and the page is `NotFound`.
    pub fn adopt_cold(&mut self, offset: u64) -> (r: Result<usize, Error>)
        requires
            old(self).wf(),
        ensures
            final(self).wf(),
            r is Ok <==> (offset % PAGE_SIZE_U64 == 0 && spec_pid_of(offset) < old(
                self,
            ).store.len() && old(self).store.contents(spec_pid_of(offset) as int) is Some
                && (forall|s: int|
                0 <= s < old(self).swips.len() ==> #[trigger] old(self).slot_pid(s)
                    != spec_pid_of(offset))),
            r matches Ok(slot) ==> ({
                &&& slot as int == old(self).swips.len()
                &&& final(self).swips@ == old(self).swips@.push(Swip::Cold(offset))
                &&& final(self).frames == old(self).frames
                &&& final(self).store == old(self).store
                &&& final(self).free == old(self).free
                &&& final(self).cooling == old(self).cooling
            }),
            r is Err ==> r == Err::<usize, Error>(Error::NotFound) && *final(self) == *old(self),
    {
        if offset % PAGE_SIZE_U64 != 0 {
            return Err(Error::NotFound);
        }
        let pid = offset / PAGE_SIZE_U64;
        if !self.store.has_page(pid) {
            return Err(Error::NotFound);
        }
        let n = self.swips.len();
        let mut s: usize = 0;
        while s < n
            invariant
                *self == *old(self),
                self.wf(),
                n == self.swips.len(),
                s <= n,
                pid == spec_pid_of(offset),
                forall|j: int| 0 <= j < s ==> #[trigger] self.slot_pid(j) != pid,
            decreases n - s,
        {
            if self.slot_pid_at(s) == pid {
                return Err(Error::NotFound);
            }
            s = s + 1;
        }
        self.swips.push(Swip::Cold(offset));
        proof {
            let pre = *old(self);
            let post = *self;
            assert forall|t: int|
                0 <= t < post.swips.len() implies (#[trigger] post.swips[t] matches Swip::Hot(fr)
                ==> fr < post.frames.len() && post.frames[fr as int].owner == Some(
                t as usize,
            )) by {
                if t < pre.swips.len() {
                    assert(post.swips[t] == pre.swips[t]);
                }
            }
            assert forall|g: int|
                0 <= g < post.frames.len() implies ((#[trigger] post.frames[g]).owner matches Some(
                t,
            ) ==> t < post.swips.len() && post.swips[t as int] == Swip::Hot(g as usize)) by {
                match post.frames[g].owner {
                    Some(t) => {
                        assert(pre.swips[t as int] == Swip::Hot(g as usize));
                        assert(post.swips[t as int] == pre.swips[t as int]);
                    },
                    None => {},
                }
            }
            assert forall|t: int|
                0 <= t < post.swips.len() implies (#[trigger] post.swips[t] matches Swip::Cold(o)
                ==> o % PAGE_SIZE_U64 == 0 && o / PAGE_SIZE_U64 < post.store.len()
                && post.store.contents((o / PAGE_SIZE_U64) as int) is Some) by {
                if t < pre.swips.len() {
                    assert(post.swips[t] == pre.swips[t]);
                }
            }
            assert forall|t: int|
                0 <= t < pre.swips.len() implies #[trigger] post.slot_pid(t) == pre.slot_pid(
                t,
            ) by {}
            assert(post.slot_pid(pre.swips.len() as int) == pid);
            assert forall|s1: int, s2: int|
                0 <= s1 < s2 < post.swips.len() implies #[trigger] post.slot_pid(s1)
                != #[trigger] post.slot_pid(s2) by {
                if s2 < pre.swips.len() {
                    assert(pre.slot_pid(s1) != pre.slot_pid(s2));
                } else {
                    assert(pre.slot_pid(s1) != pid);
                }
            }
            assert(post.wf());
        }
        Ok(n)
    }

    /// Pin a resident frame: while pinned it will not be evicted.
    pub fn pin(&mut self, f: usize)
        requires
            old(self).wf(),
            f < old(self).frames.len(),
            old(self).frames[f as int].resident(),
            old(self).frames[f as int].pins < u64::MAX,
        ensures
            final(self).wf(),
            final(self).frames@ == old(self).frames@.update(
                f as int,
                BufferFrame {
                    pins: (old(self).frames[f as int].pins + 1) as u64,
                    ..old(self).frames[f as int]
                },
            ),
            final(self).swips == old(self).swips,
            final(self).free == old(self).free,
            final(self).cooling == old(self).cooling,
            final(self).store == old(self).store,
    {
        let fr = frame_mut(&mut self.frames, f);
        fr.pins = fr.pins + 1;
        proof {
            lemma_wf_frame_field_update(*old(self), *self, f as int, self.frames@[f as int]);
        }
    }

    /// Drop one pin from a resident frame.
    pub fn unpin(&mut self, f: usize)
        requires
            old(self).wf(),
            f < old(self).frames.len(),
            old(self).frames[f as int].resident(),
            old(self).frames[f as int].pins > 0,
        ensures
            final(self).wf(),
            final(self).frames@ == old(self).frames@.update(
                f as int,
                BufferFrame {
                    pins: (old(self).frames[f as int].pins - 1) as u64,
                    ..old(self).frames[f as int]
                },
            ),
            final(self).swips == old(self).swips,
            final(self).free == old(self).free,
            final(self).cooling == old(self).cooling,
            final(self).store == old(self).store,
    {
        let fr = frame_mut(&mut self.frames, f);
        fr.pins = fr.pins - 1;
        proof {
            lemma_wf_frame_field_update(*old(self), *self, f as int, self.frames@[f as int]);
        }
    }

    /// Record that the resident page has been modified, so eviction must
    /// write it out before reusing the frame.
    pub fn mark_dirty(&mut self, f: usize)
        requires
            old(self).wf(),
            f < old(self).frames.len(),
            old(self).frames[f as int].resident(),
        ensures
            final(self).wf(),
            final(self).frames@ == old(self).frames@.update(
                f as int,
                BufferFrame { dirty: true, ..old(self).frames[f as int] },
            ),
            final(self).swips == old(self).swips,
            final(self).free == old(self).free,
            final(self).cooling == old(self).cooling,
            final(self).store == old(self).store,
    {
        let fr = frame_mut(&mut self.frames, f);
        fr.dirty = true;
        proof {
            lemma_wf_frame_field_update(*old(self), *self, f as int, self.frames@[f as int]);
        }
    }

    /// Record a frame's version counter before an optimistic read.
    pub fn read_version(&self, f: usize) -> (v: u64)
        requires
            f < self.frames.len(),
        ensures
            v == self.frames[f as int].version,
    {
        self.frames[f].version
    }

    /// Validate an optimistic read: the recorded version must be even
    /// and unchanged, else the read may have seen a torn page and must
    /// be discarded and retried from the swip-resolution step.
    pub fn validate(&self, f: usize, recorded: u64) -> (r: bool)
        requires
            f < self.frames.len(),
        ensures
            r == validates(recorded, self.frames[f as int].version),
    {
        let v = self.frames[f].version;
        recorded == v && v % 2 == 0
    }

    /// Try to enter an exclusive section on a resident frame: the
    /// version moves from even `N` to odd `N + 1`.  Fails (without
    /// blocking or changing anything) if the frame is already latched.
    pub fn try_acquire_exclusive(&mut self, f: usize) -> (r: bool)
        requires
            old(self).wf(),
            f < old(self).frames.len(),
            old(self).frames[f as int].resident(),
            old(self).frames[f as int].version + 2 <= u64::MAX,
        ensures
            final(self).wf(),
            r == !locked(old(self).frames[f as int].version),
            r ==> final(self).frames@ == old(self).frames@.update(
                f as int,
                BufferFrame {
                    version: (old(self).frames[f as int].version + 1) as u64,
                    ..old(self).frames[f as int]
                },
            ),
            r ==> locked(final(self).frames[f as int].version),
            !r ==> *final(self) == *old(self),
            final(self).swips == old(self).swips,
            final(self).free == old(self).free,
            final(self).cooling == old(self).cooling,
            final(self).store == old(self).store,
    {
        let v = self.frames[f].version;
        if v % 2 == 0 {
            let fr = frame_mut(&mut self.frames, f);
            fr.version = fr.version + 1;
            proof {
                lemma_wf_frame_field_update(*old(self), *self, f as int, self.frames@[f as int]);
            }
            true
        } else {
            false
        }
    }

    /// Leave an exclusive section: the version moves from odd `N + 1`
    /// to even `N + 2`, so any reader that recorded a version at or
    /// before the acquisition is guaranteed to fail validation.
    pub fn release_exclusive(&mut self, f: usize)
        requires
            old(self).wf(),
            f < old(self).frames.len(),
            old(self).frames[f as int].resident(),
            locked(old(self).frames[f as int].version),
            old(self).frames[f as int].version < u64::MAX,
        ensures
            final(self).wf(),
            final(self).frames@ == old(self).frames@.update(
                f as int,
                BufferFrame {
                    version: (old(self).frames[f as int].version + 1) as u64,
                    ..old(self).frames[f as int]
                },
            ),
            !locked(final(self).frames[f as int].version),
            final(self).swips == old(self).swips,
            final(self).free == old(self).free,
            final(self).cooling == old(self).cooling,
            final(self).store == old(self).store,
    {
        let fr = frame_mut(&mut self.frames, f);
        fr.version = fr.version + 1;
        proof {
            lemma_wf_frame_field_update(*old(self), *self, f as int, self.frames@[f as int]);
        }
    }

    /// Replace the bytes of a resident page.  The caller must hold the
    /// frame's exclusive latch; the frame is marked dirty.
    pub fn write_frame(&mut self, f: usize, data: Vec<u8>)
        requires
            old(self).wf(),
            f < old(self).frames.len(),
            old(self).frames[f as int].resident(),
            locked(old(self).frames[f as int].version),
            data.len() == PAGE_SIZE,
        ensures
            final(self).wf(),
            final(self).frames@ == old(self).frames@.update(
                f as int,
                BufferFrame {
                    dirty: true,
                    page: Page { id: old(self).frames[f as int].page.id, data },
                    ..old(self).frames[f as int]
                },
            ),
            final(self).frames[f as int].page.data@ == data@,
            final(self).swips == old(self).swips,
            final(self).free == old(self).free,
            final(self).cooling == old(self).cooling,
            final(self).store == old(self).store,
    {
        let fr = frame_mut(&mut self.frames, f);
        fr.page.data = data;
        fr.dirty = true;
        proof {
            lemma_wf_frame_field_update(*old(self), *self, f as int, self.frames@[f as int]);
        }
    }

    /// Evict one frame, if any can be evicted.
    ///
    /// Candidate selection is in two stages: every resident frame not
    /// yet cooling is first demoted into the cooling queue, then the
    /// queue is scanned oldest first.  A frame whose exclusive acquire
    /// would fail — pinned, or latched by someone else — is skipped,
    /// never waited on.  The victim is acquired exclusively, its owning
    /// swip rewritten to Cold, its page flushed if dirty, and the frame
    /// returned to the free list.
    ///
    /// Returns the evicted frame's index, or `None` exactly when no
    /// frame was evictable, in which case the pool's content is
    /// untouched.
    pub fn evict_one(&mut self) -> (r: Option<usize>)
        requires
            old(self).wf(),
        ensures
            final(self).wf(),
            r matches Some(f) ==> (old(self).frames[f as int].owner matches Some(slot)
                && evicted_frame(*old(self), *final(self), f, slot)),
            r is None ==> same_content(*old(self), *final(self)) && !old(
                self,
            ).has_evictable_frame(),
    {
        // Stage 1: demote every resident frame that is not yet cooling.
        let n = self.frames.len();
        let mut f: usize = 0;
        while f < n
            invariant
                old(self).wf(),
                self.wf(),
                n == self.frames.len(),
                f <= n,
                same_content(*old(self), *self),
                forall|g: int|
                    0 <= g < f ==> ((#[trigger] self.frames[g]).resident()
                        ==> self.frames[g].cooling),
            decreases n - f,
        {
            let resident = self.frames[f].owner.is_some();
            let cool = self.frames[f].cooling;
            if resident && !cool {
                let ghost mid = *self;
                let fr = frame_mut(&mut self.frames, f);
                fr.cooling = true;
                self.cooling.push(f);
                proof {
                    lemma_wf_after_demote(mid, *self, f as int);
                    lemma_same_content_trans(*old(self), mid, *self);
                }
            }
            f = f + 1;
        }
        // Stage 2: scan the queue oldest first, skipping busy frames.
        let m = self.cooling.len();
        let mut i: usize = 0;
        while i < m
            invariant
                old(self).wf(),
                self.wf(),
                m == self.cooling.len(),
                i <= m,
                same_content(*old(self), *self),
                forall|g: int|
                    0 <= g < self.frames.len() ==> ((#[trigger] self.frames[g]).resident()
                        ==> self.frames[g].cooling),
                forall|j: int|
                    0 <= j < i ==> !self.frames[(#[trigger] self.cooling[j]) as int].evictable(),
            decreases m - i,
        {
            let cand = self.cooling[i];
            let pins = self.frames[cand].pins;
            let version = self.frames[cand].version;
            if pins == 0 && version % 2 == 0 && version <= u64::MAX - 2 {
                let ghost a = *self;
                proof {
                    assert(a.frames[cand as int].resident());
                    assert(a.frames[cand as int].evictable());
                }
                // Exclusive acquire: guaranteed to succeed, the frame is
                // unpinned and unlatched.
                let acquired = self.try_acquire_exclusive(cand);
                proof {
                    assert(acquired);
                }
                let slot = if let Some(s) = self.frames[cand].owner {
                    s
                } else {
                    0
                };
                proof {
                    assert(self.frames@[cand as int].owner == Some(slot));
                    assert(a.swips[slot as int] == Swip::Hot(cand));
                }
                // Flush the page if it is dirty, so the store holds its
                // bytes before the frame is reused.
                let dirty = self.frames[cand].dirty;
                if dirty {
                    let copy = self.frames[cand].page.duplicate();
                    self.store.write_page(copy);
                    let fr = frame_mut(&mut self.frames, cand);
                    fr.dirty = false;
                }
                // Unswizzle: rewrite the owning swip to a cold reference.
                let pid = self.frames[cand].page.id;
                let off = crate::buffer::page::offset_of(pid);
                self.swips.set(slot, Swip::cold(off));
                // Free the frame and release the latch (even again, two
                // versions up).
                let fr = frame_mut(&mut self.frames, cand);
                fr.owner = None;
                fr.cooling = false;
                fr.version = fr.version + 1;
                self.cooling.remove(i);
                self.free.push(cand);
                proof {
                    lemma_evict_surgery(a, *self, cand, slot, i as int);
                    assert(evicted_frame(*old(self), *self, cand, slot)) by {
                        lemma_evicted_frame_shift(*old(self), a, *self, cand, slot);
                    }
                }
                return Some(cand);
            }
            i = i + 1;
        }
        proof {
            assert forall|g: int|
                0 <= g < old(self).frames.len() implies !(#[trigger] old(
                self,
            ).frames[g]).evictable() by {
                assert(frame_same_but_cooling(old(self).frames[g], self.frames[g]));
                if self.frames[g].resident() {
                    assert(self.frames[g].cooling);
                    assert(self.cooling@.contains(g as usize));
                    let j = choose|j: int|
                        0 <= j < self.cooling@.len() && self.cooling@[j] == g as usize;
                    assert(!self.frames[self.cooling[j] as int].evictable());
                }
            }
        }
        None
    }

    /// Allocate a brand-new page: take a frame (evicting one if the
    /// free list is empty), assign the next page id, zero-fill the
    /// page, mark it dirty, pin it once, and hand out a fresh Hot swip.
    ///
    /// Returns the page id, the new swip's slot, and the frame index.
    /// Fails with `OutOfMemory` exactly when no frame can be freed
    /// (every frame pinned or latched) or the page-id space is
    /// exhausted; the pool's content is then untouched.
    pub fn alloc_new(&mut self) -> (r: Result<(PageId, usize, usize), Error>)
        requires
            old(self).wf(),
        ensures
            final(self).wf(),
            r is Ok <==> (old(self).store.len() < MAX_PAGE_COUNT && (old(self).has_free_frame()
                || old(self).has_evictable_frame())),
            r matches Err(e) ==> e == Error::OutOfMemory && same_content(
                *old(self),
                *final(self),
            ),
            r matches Ok(t) ==> ({
                &&& t.0 == old(self).store.len()
                &&& t.1 as int == old(self).swips.len()
                &&& t.2 < final(self).frames.len()
                &&& final(self).swips.len() == old(self).swips.len() + 1
                &&& final(self).swips[t.1 as int] == Swip::Hot(t.2)
                &&& final(self).frames[t.2 as int].owner == Some(t.1)
                &&& final(self).frames[t.2 as int].dirty
                &&& final(self).frames[t.2 as int].pins == 1
                &&& final(self).frames[t.2 as int].page.id == t.0
                &&& !locked(final(self).frames[t.2 as int].version)
                &&& (final(self).frames[t.2 as int].version == old(self).frames[
                    t.2 as int
                ].version || final(self).frames[t.2 as int].version == old(self).frames[
                    t.2 as int
                ].version + 2)
                &&& forall|k: int|
                    0 <= k < PAGE_SIZE ==> final(self).frames[t.2 as int].page.data[k] == 0u8
                &&& final(self).store.len() == old(self).store.len() + 1
                &&& forall|s: int|
                    0 <= s < old(self).swips.len() ==> final(self).slot_pid(s) == old(
                        self,
                    ).slot_pid(s)
                &&& forall|s: int|
                    0 <= s < old(self).swips.len() && (#[trigger] old(self).swips[s]) is Cold
                        ==> final(self).swips[s] == old(self).swips[s]
            }),
    {
        if self.store.page_count() as u64 >= MAX_PAGE_COUNT {
            return Err(Error::OutOfMemory);
        }
        let f: usize;
        let popped = self.free.pop();
        if let Some(ff) = popped {
            f = ff;
            proof {
                lemma_take_free_frame(*old(self), *self, f);
            }
        } else {
            proof {
                assert(self.free@ == old(self).free@);
                lemma_slot_pids_same(*old(self), *self);
                assert(self.wf());
            }
            match self.evict_one() {
                Some(v) => {
                    let ghost se = *self;
                    let _replaced = self.free.pop();
                    f = v;
                    proof {
                        lemma_take_free_frame(se, *self, v);
                        lemma_evict_preserves_slot_pids(
                            *old(self),
                            se,
                            v,
                            old(self).frames[v as int].owner->0,
                        );
                    }
                },
                None => {
                    return Err(Error::OutOfMemory);
                },
            }
        }
        let ghost s1 = *self;
        let pid = self.store.page_count() as u64;
        self.store.push_empty_slot();
        let slot = self.swips.len();
        self.swips.push(Swip::Hot(f));
        let fr = frame_mut(&mut self.frames, f);
        fr.owner = Some(slot);
        fr.dirty = true;
        fr.pins = 1;
        fr.page = Page::new(pid);
        proof {
            lemma_alloc_install(s1, *self, f, slot, pid);
        }
        Ok((pid, slot, f))
    }

    /// Resolve a swip to a resident frame.
    ///
    /// A Hot swip resolves in O(1) with no pool interaction.  A Cold
    /// swip goes through the miss path: a frame is taken from the free
    /// list (or freed by eviction), the page is read from the backing
    /// store into it, and the swip is swapped to Hot.  The frame then
    /// holds a clean copy of exactly the bytes the store held.
    ///
    /// Fails with `NotFound` exactly when the slot does not exist, and
    /// with `OutOfMemory` exactly when a miss finds no frame free and
    /// none evictable; the pool's content is then untouched.
    pub fn resolve(&mut self, slot: usize) -> (r: Result<usize, Error>)
        requires
            old(self).wf(),
        ensures
            final(self).wf(),
            r == Err::<usize, Error>(Error::NotFound) <==> (slot as int) >= old(self).swips.len(),
            ((slot as int) < old(self).swips.len() && old(self).swips[slot as int] is Hot) ==> (
            *final(self) == *old(self) && r == Ok::<usize, Error>(
                old(self).swips[slot as int]->Hot_0,
            )),
            ((slot as int) < old(self).swips.len() && old(self).swips[slot as int] is Cold)
                ==> match r {
                Ok(f) => swizzled_in(*old(self), *final(self), slot, f),
                Err(e) => e == Error::OutOfMemory && same_content(*old(self), *final(self)) && !old(
                    self,
                ).has_free_frame() && !old(self).has_evictable_frame(),
            },
    {
        if slot >= self.swips.len() {
            return Err(Error::NotFound);
        }
        let sw = self.swips[slot];
        match sw {
            Swip::Hot(f) => Ok(f),
            Swip::Cold(off) => {
                let f: usize;
                let popped = self.free.pop();
                if let Some(ff) = popped {
                    f = ff;
                    proof {
                        lemma_take_free_frame(*old(self), *self, f);
                        lemma_slot_pids_same(*old(self), *self);
                    }
                } else {
                    proof {
                        assert(self.free@ == old(self).free@);
                        lemma_slot_pids_same(*old(self), *self);
                        assert(self.wf());
                    }
                    match self.evict_one() {
                        Some(v) => {
                            let ghost se = *self;
                            let _replaced = self.free.pop();
                            f = v;
                            proof {
                                lemma_take_free_frame(se, *self, v);
                                let sv = old(self).frames[v as int].owner->0;
                                lemma_evict_preserves_slot_pids(*old(self), se, v, sv);
                                lemma_slot_pids_same(se, *self);
                                // The victim held a different page than the
                                // one being resolved, so its flush left the
                                // resolved page's stored bytes untouched.
                                assert(old(self).swips[sv as int] == Swip::Hot(v));
                                assert(sv != slot);
                                assert(old(self).slot_pid(sv as int) == old(self).frames[
                                    v as int
                                ].page.id);
                                assert(old(self).slot_pid(slot as int) == off / PAGE_SIZE_U64);
                                if sv < slot {
                                    assert(old(self).slot_pid(sv as int) != old(self).slot_pid(
                                        slot as int,
                                    ));
                                } else {
                                    assert(old(self).slot_pid(slot as int) != old(self).slot_pid(
                                        sv as int,
                                    ));
                                }
                                assert(self.store.contents((off / PAGE_SIZE_U64) as int) == old(
                                    self,
                                ).store.contents((off / PAGE_SIZE_U64) as int));
                            }
                        },
                        None => {
                            return Err(Error::OutOfMemory);
                        },
                    }
                }
                let ghost s1 = *self;
                proof {
                    assert(forall|s: int|
                        0 <= s < old(self).swips.len() ==> #[trigger] s1.slot_pid(s) == old(
                            self,
                        ).slot_pid(s));
                    assert(s1.store.contents((off / PAGE_SIZE_U64) as int) == old(
                        self,
                    ).store.contents((off / PAGE_SIZE_U64) as int));
                    assert(s1.swips[slot as int] == Swip::Cold(off)) by {
                        if !old(self).has_free_frame() {
                            assert(old(self).frames[f as int].owner is Some);
                        }
                    }
                }
                let pid = crate::buffer::page::pid_of(off);
                proof {
                    assert(s1.store.has_valid_page(pid)) by {
                        assert(pid < s1.store.len());
                        assert(s1.store.contents(pid as int) is Some);
                    }
                }
                match self.store.read_page(pid) {
                    Ok(page) => {
                        let fr = frame_mut(&mut self.frames, f);
                        fr.owner = Some(slot);
                        fr.dirty = false;
                        fr.page = page;
                        self.swips.set(slot, Swip::Hot(f));
                        proof {
                            lemma_resolve_install(s1, *self, slot, f, off);
                            assert(swizzled_in(*old(self), *self, slot, f));
                        }
                        Ok(f)
                    },
                    Err(e) => {
                        proof {
                            assert(false);
                        }
                        Err(e)
                    },
                }
            },
        }
    }

    /// Write every dirty, unlatched resident page out to the store, for
    /// orderly shutdown.  Frames latched by a writer are left alone;
    /// everything else about the pool is untouched.
    pub fn flush_all(&mut self)
        requires
            old(self).wf(),
        ensures
            final(self).wf(),
            final(self).swips == old(self).swips,
            final(self).free == old(self).free,
            final(self).cooling == old(self).cooling,
            final(self).frames.len() == old(self).frames.len(),
            forall|g: int|
                0 <= g < old(self).frames.len() ==> flushed_frame(
                    old(self).frames[g],
                    #[trigger] final(self).frames[g],
                ),
            final(self).store.len() == old(self).store.len(),
            store_extends_with_frames(*old(self), *final(self)),
    {
        let n = self.frames.len();
        let mut f: usize = 0;
        while f < n
            invariant
                old(self).wf(),
                self.wf(),
                n == self.frames.len(),
                f <= n,
                self.swips == old(self).swips,
                self.free == old(self).free,
                self.cooling == old(self).cooling,
                self.frames.len() == old(self).frames.len(),
                forall|g: int|
                    0 <= g < f ==> flushed_frame(
                        old(self).frames[g],
                        #[trigger] self.frames[g],
                    ),
                forall|g: int|
                    f <= g < n ==> #[trigger] self.frames[g] == old(self).frames[g],
                self.store.len() == old(self).store.len(),
                store_extends_with_frames(*old(self), *self),
            decreases n - f,
        {
            let resident = self.frames[f].owner.is_some();
            let dirty = self.frames[f].dirty;
            let version = self.frames[f].version;
            if resident && dirty && version % 2 == 0 {
                let ghost a = *self;
                let copy = self.frames[f].page.duplicate();
                self.store.write_page(copy);
                let fr = frame_mut(&mut self.frames, f);
                fr.dirty = false;
                proof {
                    lemma_wf_after_flush(a, *self, f as int);
                    let pid = a.frames[f as int].page.id;
                    assert forall|k: int|
                        0 <= k < old(self).store.len() implies ((#[trigger] self.store.contents(k))
                        == old(self).store.contents(k) || (exists|g: int|
                        0 <= g < old(self).frames.len() && (#[trigger] old(
                            self,
                        ).frames[g]).resident() && old(self).frames[g].page.id == k
                            && self.store.contents(k) == Some(old(self).frames[g].page.data@))) by {
                        if k == pid {
                            assert(old(self).frames[f as int].resident());
                            assert(old(self).frames[f as int].page.id == k);
                            assert(self.store.contents(k) == Some(
                                old(self).frames[f as int].page.data@,
                            ));
                        } else {
                            assert(self.store.contents(k) == a.store.contents(k));
                        }
                    }
                }
            }
            f = f + 1;
        }
    }
}

/// Law: a swip is Hot exactly when its target frame is currently held
/// by the pool — no dangling Hot swip after eviction, and no frame
/// owned without its swip pointing Hot at it.
pub proof fn lemma_hot_iff_resident(p: BufferPool, s: int)
    requires
        p.wf(),
        0 <= s < p.swips.len(),
    ensures
        (p.swips[s] is Hot) <==> (exists|f: int|
            0 <= f < p.frames.len() && (#[trigger] p.frames[f]).owner == Some(s as usize)),
        p.swips[s] matches Swip::Hot(f) ==> f < p.frames.len() && p.frames[f as int].owner
            == Some(s as usize),
{
    match p.swips[s] {
        Swip::Hot(f) => {
            assert(p.frames[f as int].owner == Some(s as usize));
        },
        Swip::Cold(_) => {
            if exists|f: int|
                0 <= f < p.frames.len() && (#[trigger] p.frames[f]).owner == Some(s as usize) {
                let f = choose|f: int|
                    0 <= f < p.frames.len() && (#[trigger] p.frames[f]).owner == Some(s as usize);
                assert(p.swips[s] == Swip::Hot(f as usize));
            }
        },
    }
}

/// Law: a Hot swip's frame has exactly one owner — two frames owned by
/// the same swip slot are the same frame.
pub proof fn lemma_owning_frame_unique(p: BufferPool, f1: int, f2: int)
    requires
        p.wf(),
        0 <= f1 < p.frames.len(),
        0 <= f2 < p.frames.len(),
        p.frames[f1].owner is Some,
        p.frames[f1].owner == p.frames[f2].owner,
    ensures
        f1 == f2,
{
    let s = p.frames[f1].owner->0;
    assert(p.swips[s as int] == Swip::Hot(f1 as usize));
    assert(p.swips[s as int] == Swip::Hot(f2 as usize));
}

/// Law: eviction never selects a frame whose exclusive acquire would
/// fail.  Whatever frame an eviction freed was resident, unpinned and
/// unlatched when it was chosen — busy frames are skipped, not blocked
/// on.
pub proof fn lemma_eviction_selects_acquirable(
    pre: BufferPool,
    post: BufferPool,
    f: usize,
    slot: usize,
)
    requires
        evicted_frame(pre, post, f, slot),
    ensures
        pre.frames[f as int].resident(),
        pre.frames[f as int].pins == 0,
        !locked(pre.frames[f as int].version),
{
}

/// Law (round trip): evicting a page and then resolving its swip again
/// yields byte-identical content — what was flushed on the way out is
/// exactly what is read back in.
pub proof fn lemma_evict_resolve_round_trip(
    p0: BufferPool,
    p1: BufferPool,
    p2: BufferPool,
    f: usize,
    slot: usize,
    f2: usize,
)
    requires
        p0.wf(),
        evicted_frame(p0, p1, f, slot),
        swizzled_in(p1, p2, slot, f2),
    ensures
        p2.frames[f2 as int].page.id == p0.frames[f as int].page.id,
        p2.frames[f2 as int].page.data@ == p0.frames[f as int].page.data@,
{
    let pid = p0.frames[f as int].page.id;
    assert(p0.frames[f as int].resident());
    assert(pid < p0.store.len());
    crate::buffer::page::lemma_offset_round_trip(pid);
    assert(p1.swips[slot as int] == Swip::Cold((pid * PAGE_SIZE_U64) as u64));
    assert(p1.store.contents(pid as int) == Some(p0.frames[f as int].page.data@));
}

/// Same-content is transitive.
proof fn lemma_same_content_trans(a: BufferPool, b: BufferPool, c: BufferPool)
    requires
        same_content(a, b),
        same_content(b, c),
    ensures
        same_content(a, c),
{
    assert forall|f: int|
        0 <= f < a.frames.len() implies frame_same_but_cooling(
        a.frames[f],
        #[trigger] c.frames[f],
    ) by {
        assert(frame_same_but_cooling(a.frames[f], b.frames[f]));
        assert(frame_same_but_cooling(b.frames[f], c.frames[f]));
    }
}

/// Well-formedness survives demoting one resident frame into the
/// cooling queue.
proof fn lemma_wf_after_demote(pre: BufferPool, post: BufferPool, f: int)
    requires
        pre.wf(),
        0 <= f < pre.frames.len(),
        pre.frames[f].resident(),
        !pre.frames[f].cooling,
        post.frames@ == pre.frames@.update(
            f,
            BufferFrame { cooling: true, ..pre.frames[f] },
        ),
        post.cooling@ == pre.cooling@.push(f as usize),
        post.swips == pre.swips,
        post.free == pre.free,
        post.store == pre.store,
    ensures
        post.wf(),
{
    assert(post.frames.len() == pre.frames.len());
    assert forall|g: int| 0 <= g < post.frames.len() implies (#[trigger] post.frames[g]).wf() by {
        if g != f {
            assert(post.frames[g] == pre.frames[g]);
        }
    }
    assert forall|s: int|
        0 <= s < post.swips.len() implies (#[trigger] post.swips[s] matches Swip::Hot(fr) ==> fr
        < post.frames.len() && post.frames[fr as int].owner == Some(s as usize)) by {
        match post.swips[s] {
            Swip::Hot(fr) => {
                assert(pre.swips[s] is Hot);
                if fr as int != f {
                    assert(post.frames[fr as int] == pre.frames[fr as int]);
                }
            },
            Swip::Cold(_) => {},
        }
    }
    assert forall|g: int|
        0 <= g < post.frames.len() implies ((#[trigger] post.frames[g]).owner matches Some(s) ==> s
        < post.swips.len() && post.swips[s as int] == Swip::Hot(g as usize)) by {
        if g != f {
            assert(post.frames[g] == pre.frames[g]);
        }
    }
    assert forall|i: int|
        0 <= i < post.free.len() implies (#[trigger] post.free[i]) < post.frames.len()
        && post.frames[post.free[i] as int].owner is None by {
        assert(pre.free[i] < pre.frames.len() && pre.frames[pre.free[i] as int].owner is None);
        if post.free[i] as int != f {
            assert(post.frames[post.free[i] as int] == pre.frames[post.free[i] as int]);
        }
    }
    assert forall|g: int|
        0 <= g < post.frames.len() && (#[trigger] post.frames[g]).owner is None implies post.free@.contains(
        g as usize,
    ) && post.frames[g].pins == 0 && !locked(post.frames[g].version) && !post.frames[g].dirty
        && !post.frames[g].cooling by {
        assert(g != f);
        assert(post.frames[g] == pre.frames[g]);
    }
    assert forall|i: int|
        0 <= i < post.cooling.len() implies (#[trigger] post.cooling[i]) < post.frames.len()
        && post.frames[post.cooling[i] as int].cooling by {
        if i < pre.cooling.len() {
            assert(post.cooling[i] == pre.cooling[i]);
            assert(pre.frames[pre.cooling[i] as int].cooling);
            if post.cooling[i] as int != f {
                assert(post.frames[post.cooling[i] as int] == pre.frames[post.cooling[i] as int]);
            }
        } else {
            assert(post.cooling[i] == f as usize);
        }
    }
    assert forall|g: int|
        0 <= g < post.frames.len() && (#[trigger] post.frames[g]).cooling implies post.cooling@.contains(
        g as usize,
    ) by {
        if g == f {
            assert(post.cooling@[post.cooling@.len() - 1] == g as usize);
        } else {
            assert(post.frames[g] == pre.frames[g]);
            assert(pre.cooling@.contains(g as usize));
            let j = choose|j: int|
                0 <= j < pre.cooling@.len() && pre.cooling@[j] == g as usize;
            assert(post.cooling@[j] == g as usize);
        }
    }
    assert forall|i: int, j: int|
        0 <= i < j < post.cooling.len() implies post.cooling[i] != post.cooling[j] by {
        if j < pre.cooling.len() {
            assert(pre.cooling[i] != pre.cooling[j]);
        } else {
            assert(post.cooling[j] == f as usize);
            assert(pre.frames[pre.cooling[i] as int].cooling);
        }
    }
    assert forall|g: int|
        0 <= g < post.frames.len() && (#[trigger] post.frames[g]).resident() implies post.frames[
        g
    ].page.id < post.store.len() && (!post.frames[g].dirty ==> post.store.contents(
        post.frames[g].page.id as int,
    ) == Some(post.frames[g].page.data@)) by {
        if g != f {
            assert(post.frames[g] == pre.frames[g]);
        }
    }
    assert forall|s: int| 0 <= s < post.swips.len() implies #[trigger] post.slot_pid(s)
        == pre.slot_pid(s) by {
        match post.swips[s] {
            Swip::Hot(fr) => {
                if fr as int != f {
                    assert(post.frames[fr as int] == pre.frames[fr as int]);
                }
            },
            Swip::Cold(_) => {},
        }
    }
    assert(post.pids_injective());
}

/// Well-formedness survives updating one resident frame in place, as
/// long as the update keeps the ownership link, the cooling flag and
/// the page id, and only touches the bytes while marking the frame
/// dirty.
proof fn lemma_wf_frame_field_update(pre: BufferPool, post: BufferPool, f: int, nf: BufferFrame)
    requires
        pre.wf(),
        0 <= f < pre.frames.len(),
        pre.frames[f].resident(),
        post.frames@ == pre.frames@.update(f, nf),
        nf.wf(),
        nf.owner == pre.frames[f].owner,
        nf.cooling == pre.frames[f].cooling,
        nf.page.id == pre.frames[f].page.id,
        !nf.dirty ==> !pre.frames[f].dirty && nf.page.data@ == pre.frames[f].page.data@,
        post.swips == pre.swips,
        post.free == pre.free,
        post.cooling == pre.cooling,
        post.store == pre.store,
    ensures
        post.wf(),
{
    assert(post.frames.len() == pre.frames.len());
    assert forall|g: int| 0 <= g < post.frames.len() implies (#[trigger] post.frames[g]).wf() by {
        if g != f {
            assert(post.frames[g] == pre.frames[g]);
        }
    }
    assert forall|s: int|
        0 <= s < post.swips.len() implies (#[trigger] post.swips[s] matches Swip::Hot(fr) ==> fr
        < post.frames.len() && post.frames[fr as int].owner == Some(s as usize)) by {
        match post.swips[s] {
            Swip::Hot(fr) => {
                assert(pre.swips[s] is Hot);
                if fr as int != f {
                    assert(post.frames[fr as int] == pre.frames[fr as int]);
                }
            },
            Swip::Cold(_) => {},
        }
    }
    assert forall|g: int|
        0 <= g < post.frames.len() implies ((#[trigger] post.frames[g]).owner matches Some(s) ==> s
        < post.swips.len() && post.swips[s as int] == Swip::Hot(g as usize)) by {
        if g != f {
            assert(post.frames[g] == pre.frames[g]);
        }
    }
    assert forall|i: int|
        0 <= i < post.free.len() implies (#[trigger] post.free[i]) < post.frames.len()
        && post.frames[post.free[i] as int].owner is None by {
        assert(pre.free[i] < pre.frames.len() && pre.frames[pre.free[i] as int].owner is None);
        if post.free[i] as int != f {
            assert(post.frames[post.free[i] as int] == pre.frames[post.free[i] as int]);
        }
    }
    assert forall|g: int|
        0 <= g < post.frames.len() && (#[trigger] post.frames[g]).owner is None implies post.free@.contains(
        g as usize,
    ) && post.frames[g].pins == 0 && !locked(post.frames[g].version) && !post.frames[g].dirty
        && !post.frames[g].cooling by {
        assert(g != f);
        assert(post.frames[g] == pre.frames[g]);
    }
    assert forall|i: int|
        0 <= i < post.cooling.len() implies (#[trigger] post.cooling[i]) < post.frames.len()
        && post.frames[post.cooling[i] as int].cooling by {
        assert(pre.frames[pre.cooling[i] as int].cooling);
        if post.cooling[i] as int != f {
            assert(post.frames[post.cooling[i] as int] == pre.frames[post.cooling[i] as int]);
        }
    }
    assert forall|g: int|
        0 <= g < post.frames.len() && (#[trigger] post.frames[g]).cooling implies post.cooling@.contains(
        g as usize,
    ) by {
        if g != f {
            assert(post.frames[g] == pre.frames[g]);
        }
    }
    assert forall|g: int|
        0 <= g < post.frames.len() && (#[trigger] post.frames[g]).resident() implies post.frames[
        g
    ].page.id < post.store.len() && (!post.frames[g].dirty ==> post.store.contents(
        post.frames[g].page.id as int,
    ) == Some(post.frames[g].page.data@)) by {
        if g != f {
            assert(post.frames[g] == pre.frames[g]);
        }
    }
    assert forall|s: int| 0 <= s < post.swips.len() implies #[trigger] post.slot_pid(s)
        == pre.slot_pid(s) by {
        match post.swips[s] {
            Swip::Hot(fr) => {
                if fr as int != f {
                    assert(post.frames[fr as int] == pre.frames[fr as int]);
                }
            },
            Swip::Cold(_) => {},
        }
    }
    assert(post.pids_injective());
}

/// In a well-formed pool, two distinct resident frames hold distinct
/// pages: their owning slots are distinct, and distinct slots denote
/// distinct page ids.
proof fn lemma_resident_pids_distinct(a: BufferPool, g: int, cand: int)
    requires
        a.wf(),
        0 <= g < a.frames.len(),
        0 <= cand < a.frames.len(),
        g != cand,
        a.frames[g].resident(),
        a.frames[cand].resident(),
    ensures
        a.frames[g].page.id != a.frames[cand].page.id,
{
    let sg = a.frames[g].owner->0;
    let sc = a.frames[cand].owner->0;
    assert(a.swips[sg as int] == Swip::Hot(g as usize));
    assert(a.swips[sc as int] == Swip::Hot(cand as usize));
    assert(sg != sc);
    assert(a.slot_pid(sg as int) == a.frames[g].page.id);
    assert(a.slot_pid(sc as int) == a.frames[cand].page.id);
    if sg < sc {
        assert(a.slot_pid(sg as int) != a.slot_pid(sc as int));
    } else {
        assert(a.slot_pid(sc as int) != a.slot_pid(sg as int));
    }
}

/// The state change of completing an eviction, stated against the pool
/// `a` as it stood when the victim was chosen: the well-formedness of
/// the result, and the `evicted_frame` relation.
proof fn lemma_evict_surgery(a: BufferPool, post: BufferPool, cand: usize, slot: usize, i: int)
    requires
        a.wf(),
        cand < a.frames.len(),
        a.frames[cand as int].evictable(),
        a.frames[cand as int].owner == Some(slot),
        0 <= i < a.cooling.len(),
        a.cooling[i] == cand,
        post.swips@ == a.swips@.update(
            slot as int,
            Swip::Cold(crate::buffer::page::spec_offset_of(a.frames[cand as int].page.id)),
        ),
        post.store.wf(),
        post.store.len() == a.store.len(),
        post.store.contents(a.frames[cand as int].page.id as int) == Some(
            a.frames[cand as int].page.data@,
        ),
        forall|k: int|
            0 <= k < a.store.len() && k != a.frames[cand as int].page.id
                ==> post.store.contents(k) == a.store.contents(k),
        post.frames.len() == a.frames.len(),
        forall|g: int|
            0 <= g < a.frames.len() && g != cand ==> post.frames[g] == a.frames[g],
        post.frames[cand as int].owner is None,
        !post.frames[cand as int].cooling,
        !post.frames[cand as int].dirty,
        post.frames[cand as int].pins == 0,
        post.frames[cand as int].version == a.frames[cand as int].version + 2,
        page_same(post.frames[cand as int].page, a.frames[cand as int].page),
        post.cooling@ == a.cooling@.remove(i),
        post.free@ == a.free@.push(cand),
    ensures
        post.wf(),
        evicted_frame(a, post, cand, slot),
{
    let pid = a.frames[cand as int].page.id;
    assert(a.swips[slot as int] == Swip::Hot(cand));
    assert(pid < a.store.len());
    crate::buffer::page::lemma_offset_round_trip(pid);
    // Distinct resident frames hold distinct pages.
    assert forall|g: int|
        0 <= g < a.frames.len() && g != cand && (#[trigger] a.frames[g]).resident() implies a.frames[
        g
    ].page.id != pid by {
        lemma_resident_pids_distinct(a, g, cand as int);
    }
    // No other swip is Hot at the victim frame.
    assert forall|s: int|
        0 <= s < a.swips.len() && s != slot && (#[trigger] a.swips[s]) is Hot implies a.swips[
        s
    ]->Hot_0 != cand by {
        assert(a.frames[a.swips[s]->Hot_0 as int].owner == Some(s as usize));
    }
    a.cooling@.remove_ensures(i);
    // Well-formedness of the result, clause by clause.
    assert forall|g: int| 0 <= g < post.frames.len() implies (#[trigger] post.frames[g]).wf() by {
        if g != cand {
            assert(post.frames[g] == a.frames[g]);
        }
    }
    assert forall|s: int|
        0 <= s < post.swips.len() implies (#[trigger] post.swips[s] matches Swip::Hot(fr) ==> fr
        < post.frames.len() && post.frames[fr as int].owner == Some(s as usize)) by {
        match post.swips[s] {
            Swip::Hot(fr) => {
                assert(s != slot);
                assert(a.swips[s] == post.swips[s]);
                assert(fr != cand);
            },
            Swip::Cold(_) => {},
        }
    }
    assert forall|g: int|
        0 <= g < post.frames.len() implies ((#[trigger] post.frames[g]).owner matches Some(s) ==> s
        < post.swips.len() && post.swips[s as int] == Swip::Hot(g as usize)) by {
        if g != cand {
            assert(post.frames[g] == a.frames[g]);
            match post.frames[g].owner {
                Some(s) => {
                    assert(a.swips[s as int] == Swip::Hot(g as usize));
                    assert(s != slot);
                },
                None => {},
            }
        }
    }
    assert forall|k: int|
        0 <= k < post.free.len() implies (#[trigger] post.free[k]) < post.frames.len()
        && post.frames[post.free[k] as int].owner is None by {
        if k < a.free.len() {
            assert(post.free[k] == a.free[k]);
            assert(a.frames[a.free[k] as int].owner is None);
            assert(a.free[k] != cand);
        } else {
            assert(post.free[k] == cand);
        }
    }
    assert forall|k1: int, k2: int|
        0 <= k1 < k2 < post.free.len() implies post.free[k1] != post.free[k2] by {
        if k2 < a.free.len() {
            assert(a.free[k1] != a.free[k2]);
        } else {
            assert(post.free[k2] == cand);
            assert(a.frames[a.free[k1] as int].owner is None);
        }
    }
    assert forall|g: int|
        0 <= g < post.frames.len() && (#[trigger] post.frames[g]).owner is None implies post.free@.contains(
        g as usize,
    ) by {
        if g == cand {
            assert(post.free@[post.free@.len() - 1] == cand);
        } else {
            assert(post.frames[g] == a.frames[g]);
            assert(a.free@.contains(g as usize));
            let j = choose|j: int| 0 <= j < a.free@.len() && a.free@[j] == g as usize;
            assert(post.free@[j] == g as usize);
        }
    }
    assert forall|g: int|
        0 <= g < post.frames.len() && (#[trigger] post.frames[g]).owner is None implies post.frames[
        g
    ].pins == 0 && !locked(post.frames[g].version) && !post.frames[g].dirty
        && !post.frames[g].cooling by {
        if g != cand {
            assert(post.frames[g] == a.frames[g]);
        }
    }
    assert forall|k: int|
        0 <= k < post.cooling.len() implies (#[trigger] post.cooling[k]) < post.frames.len()
        && post.frames[post.cooling[k] as int].cooling by {
        let e = post.cooling[k];
        if k < i {
            assert(e == a.cooling[k]);
            assert(a.cooling[k] != a.cooling[i]);
        } else {
            assert(e == a.cooling[k + 1]);
            assert(a.cooling[i] != a.cooling[k + 1]);
        }
        assert(e != cand);
        assert(a.frames[e as int].cooling);
        assert(post.frames[e as int] == a.frames[e as int]);
    }
    assert forall|g: int|
        0 <= g < post.frames.len() && (#[trigger] post.frames[g]).cooling implies post.cooling@.contains(
        g as usize,
    ) by {
        assert(g != cand);
        assert(post.frames[g] == a.frames[g]);
        assert(a.cooling@.contains(g as usize));
        let j = choose|j: int| 0 <= j < a.cooling@.len() && a.cooling@[j] == g as usize;
        assert(j != i);
        if j < i {
            assert(post.cooling@[j] == g as usize);
        } else {
            assert(post.cooling@[j - 1] == g as usize);
        }
    }
    assert forall|k1: int, k2: int|
        0 <= k1 < k2 < post.cooling.len() implies post.cooling[k1] != post.cooling[k2] by {
        let o1: int = if k1 < i {
            k1
        } else {
            k1 + 1
        };
        let o2: int = if k2 < i {
            k2
        } else {
            k2 + 1
        };
        assert(post.cooling[k1] == a.cooling[o1]);
        assert(post.cooling[k2] == a.cooling[o2]);
        assert(o1 < o2);
        assert(a.cooling[o1] != a.cooling[o2]);
    }
    assert forall|g: int|
        0 <= g < post.frames.len() && (#[trigger] post.frames[g]).resident() implies post.frames[
        g
    ].page.id < post.store.len() && (!post.frames[g].dirty ==> post.store.contents(
        post.frames[g].page.id as int,
    ) == Some(post.frames[g].page.data@)) by {
        assert(g != cand);
        assert(post.frames[g] == a.frames[g]);
        if post.frames[g].page.id != pid {
            assert(post.store.contents(post.frames[g].page.id as int) == a.store.contents(
                post.frames[g].page.id as int,
            ));
        }
    }
    assert forall|s: int|
        0 <= s < post.swips.len() implies (#[trigger] post.swips[s] matches Swip::Cold(off) ==> off
        % PAGE_SIZE_U64 == 0 && off / PAGE_SIZE_U64 < post.store.len() && post.store.contents(
            (off / PAGE_SIZE_U64) as int,
        ) is Some) by {
        match post.swips[s] {
            Swip::Cold(off) => {
                if s == slot {
                    assert(off == crate::buffer::page::spec_offset_of(pid));
                } else {
                    assert(post.swips[s] == a.swips[s]);
                    if off / PAGE_SIZE_U64 != pid {
                        assert(post.store.contents((off / PAGE_SIZE_U64) as int)
                            == a.store.contents((off / PAGE_SIZE_U64) as int));
                    }
                }
            },
            Swip::Hot(_) => {},
        }
    }
    assert forall|s: int| 0 <= s < post.swips.len() implies #[trigger] post.slot_pid(s)
        == a.slot_pid(s) by {
        if s == slot {
            assert(post.slot_pid(s) == crate::buffer::page::spec_offset_of(pid)
                / PAGE_SIZE_U64);
        } else {
            assert(post.swips[s] == a.swips[s]);
            match post.swips[s] {
                Swip::Hot(fr) => {
                    assert(fr != cand);
                    assert(post.frames[fr as int] == a.frames[fr as int]);
                },
                Swip::Cold(_) => {},
            }
        }
    }
    assert(post.pids_injective());
    assert(post.wf());
    // The evicted-frame relation itself.
    assert forall|g: int|
        0 <= g < a.frames.len() && g != cand implies frame_same_but_cooling(
        a.frames[g],
        #[trigger] post.frames[g],
    ) by {
        assert(post.frames[g] == a.frames[g]);
    }
    assert(evicted_frame(a, post, cand, slot));
}

/// `evicted_frame` carries over from a pool to one with the same
/// content: the eviction's description does not depend on cooling
/// bookkeeping.
proof fn lemma_evicted_frame_shift(
    pre: BufferPool,
    a: BufferPool,
    post: BufferPool,
    cand: usize,
    slot: usize,
)
    requires
        same_content(pre, a),
        evicted_frame(a, post, cand, slot),
    ensures
        evicted_frame(pre, post, cand, slot),
{
    assert(frame_same_but_cooling(pre.frames[cand as int], a.frames[cand as int]));
    assert(pre.frames[cand as int].evictable());
    assert(pre.frames[cand as int].page.id == a.frames[cand as int].page.id);
    assert(pre.frames[cand as int].page.data@ == a.frames[cand as int].page.data@);
    assert(post.swips@ == pre.swips@.update(
        slot as int,
        Swip::Cold((pre.frames[cand as int].page.id * PAGE_SIZE_U64) as u64),
    ));
    assert forall|k: int|
        0 <= k < pre.store.len() && k != pre.frames[cand as int].page.id implies post.store.contents(
        k,
    ) == pre.store.contents(k) by {
        assert(a.store.contents(k) == pre.store.contents(k));
    }
    assert forall|g: int|
        0 <= g < pre.frames.len() && g != cand implies frame_same_but_cooling(
        pre.frames[g],
        #[trigger] post.frames[g],
    ) by {
        assert(frame_same_but_cooling(pre.frames[g], a.frames[g]));
        assert(frame_same_but_cooling(a.frames[g], post.frames[g]));
    }
}

/// Two pools with the same swips and frames denote the same page in
/// every slot.
proof fn lemma_slot_pids_same(a: BufferPool, b: BufferPool)
    requires
        b.swips == a.swips,
        b.frames == a.frames,
    ensures
        forall|s: int| #[trigger] b.slot_pid(s) == a.slot_pid(s),
        a.pids_injective() ==> b.pids_injective(),
{
    assert forall|s: int| true implies #[trigger] b.slot_pid(s) == a.slot_pid(s) by {}
    if a.pids_injective() {
        assert forall|s1: int, s2: int|
            0 <= s1 < s2 < b.swips.len() implies #[trigger] b.slot_pid(s1) != #[trigger] b.slot_pid(
            s2,
        ) by {
            assert(a.slot_pid(s1) != a.slot_pid(s2));
        }
    }
}

/// Popping the last free-list entry leaves the pool well formed except
/// for the frame now held by the caller.
proof fn lemma_take_free_frame(pre: BufferPool, post: BufferPool, f: usize)
    requires
        pre.wf(),
        pre.free.len() > 0,
        f == pre.free[pre.free.len() - 1],
        post.free@ == pre.free@.subrange(0, pre.free.len() - 1),
        post.frames == pre.frames,
        post.swips == pre.swips,
        post.cooling == pre.cooling,
        post.store == pre.store,
    ensures
        post.wf_holding_frame(f),
{
    let last = pre.free.len() - 1;
    assert(pre.frames[f as int].owner is None);
    assert(post.free@.len() == last);
    assert forall|i: int|
        0 <= i < post.free.len() implies (#[trigger] post.free[i]) < post.frames.len()
        && post.frames[post.free[i] as int].owner is None by {
        assert(post.free[i] == pre.free[i]);
        assert(pre.free[i] < pre.frames.len() && pre.frames[pre.free[i] as int].owner is None);
    }
    assert forall|i: int, j: int|
        0 <= i < j < post.free.len() implies post.free[i] != post.free[j] by {
        assert(post.free[i] == pre.free[i]);
        assert(post.free[j] == pre.free[j]);
        assert(pre.free[i] != pre.free[j]);
    }
    assert forall|g: int|
        0 <= g < post.frames.len() && (#[trigger] post.frames[g]).owner is None && g != f implies post.free@.contains(
        g as usize,
    ) by {
        assert(pre.free@.contains(g as usize));
        let j = choose|j: int| 0 <= j < pre.free@.len() && pre.free@[j] == g as usize;
        assert(j != last);
        assert(post.free@[j] == g as usize);
    }
    assert(!post.free@.contains(f)) by {
        if post.free@.contains(f) {
            let j = choose|j: int| 0 <= j < post.free@.len() && post.free@[j] == f;
            assert(pre.free@[j] == f);
            assert(pre.free@[last] == f);
            assert(pre.free[j] != pre.free[last]);
        }
    }
    lemma_slot_pids_same(pre, post);
}

/// Eviction changes no slot's page: the victim's swip now denotes on
/// disk exactly the page it denoted in memory, and every other swip is
/// untouched.
proof fn lemma_evict_preserves_slot_pids(pre: BufferPool, post: BufferPool, f: usize, slot: usize)
    requires
        pre.wf(),
        evicted_frame(pre, post, f, slot),
    ensures
        forall|s: int| 0 <= s < pre.swips.len() ==> post.slot_pid(s) == pre.slot_pid(s),
        forall|s: int|
            0 <= s < pre.swips.len() && (#[trigger] pre.swips[s]) is Cold ==> post.swips[s]
                == pre.swips[s],
{
    let pid = pre.frames[f as int].page.id;
    assert(pid < pre.store.len());
    crate::buffer::page::lemma_offset_round_trip(pid);
    assert forall|s: int| 0 <= s < pre.swips.len() implies #[trigger] post.slot_pid(s)
        == pre.slot_pid(s) by {
        if s == slot {
            assert(pre.swips[s] == Swip::Hot(f)) by {
                assert(pre.frames[f as int].owner == Some(slot));
            }
            assert(post.swips[s] == Swip::Cold((pid * PAGE_SIZE_U64) as u64));
        } else {
            assert(post.swips[s] == pre.swips[s]);
            match pre.swips[s] {
                Swip::Hot(fr) => {
                    assert(pre.frames[fr as int].owner == Some(s as usize));
                    assert(fr != f);
                    assert(frame_same_but_cooling(pre.frames[fr as int], post.frames[fr as int]));
                },
                Swip::Cold(_) => {},
            }
        }
    }
    assert forall|s: int|
        0 <= s < pre.swips.len() && (#[trigger] pre.swips[s]) is Cold implies post.swips[s]
        == pre.swips[s] by {
        assert(s != slot) by {
            assert(pre.frames[f as int].owner == Some(slot));
        }
    }
}

/// Installing a fresh page into a held frame restores well-formedness
/// and changes no existing slot's page.
proof fn lemma_alloc_install(pre: BufferPool, post: BufferPool, f: usize, slot: usize, pid: u64)
    requires
        pre.wf_holding_frame(f),
        pre.store.len() < MAX_PAGE_COUNT,
        pid == pre.store.len(),
        slot as int == pre.swips.len(),
        post.swips@ == pre.swips@.push(Swip::Hot(f)),
        post.store.wf(),
        post.store.len() == pre.store.len() + 1,
        forall|k: int| 0 <= k < pre.store.len() ==> post.store.contents(k) == pre.store.contents(k),
        post.frames.len() == pre.frames.len(),
        forall|g: int| 0 <= g < pre.frames.len() && g != f ==> post.frames[g] == pre.frames[g],
        post.frames[f as int].owner == Some(slot),
        post.frames[f as int].dirty,
        !post.frames[f as int].cooling,
        post.frames[f as int].page.id == pid,
        post.frames[f as int].wf(),
        post.free == pre.free,
        post.cooling == pre.cooling,
    ensures
        post.wf(),
        forall|s: int| 0 <= s < pre.swips.len() ==> post.slot_pid(s) == pre.slot_pid(s),
{
    // Every existing slot denotes a page id below the fresh one.
    assert forall|s: int| 0 <= s < pre.swips.len() implies #[trigger] pre.slot_pid(s) < pid by {
        match pre.swips[s] {
            Swip::Hot(fr) => {
                assert(pre.frames[fr as int].owner == Some(s as usize));
                assert(pre.frames[fr as int].resident());
                assert(pre.frames[fr as int].page.id < pre.store.len());
            },
            Swip::Cold(off) => {
                assert(off / PAGE_SIZE_U64 < pre.store.len());
            },
        }
    }
    assert forall|s: int| 0 <= s < pre.swips.len() implies #[trigger] post.slot_pid(s)
        == pre.slot_pid(s) by {
        assert(post.swips[s] == pre.swips[s]);
        match pre.swips[s] {
            Swip::Hot(fr) => {
                assert(pre.frames[fr as int].owner == Some(s as usize));
                assert(fr != f);
                assert(post.frames[fr as int] == pre.frames[fr as int]);
            },
            Swip::Cold(_) => {},
        }
    }
    assert forall|g: int| 0 <= g < post.frames.len() implies (#[trigger] post.frames[g]).wf() by {
        if g != f {
            assert(post.frames[g] == pre.frames[g]);
        }
    }
    assert forall|s: int|
        0 <= s < post.swips.len() implies (#[trigger] post.swips[s] matches Swip::Hot(fr) ==> fr
        < post.frames.len() && post.frames[fr as int].owner == Some(s as usize)) by {
        if s < pre.swips.len() {
            assert(post.swips[s] == pre.swips[s]);
            match pre.swips[s] {
                Swip::Hot(fr) => {
                    assert(pre.frames[fr as int].owner == Some(s as usize));
                    assert(fr != f);
                },
                Swip::Cold(_) => {},
            }
        } else {
            assert(post.swips[s] == Swip::Hot(f));
        }
    }
    assert forall|g: int|
        0 <= g < post.frames.len() implies ((#[trigger] post.frames[g]).owner matches Some(s) ==> s
        < post.swips.len() && post.swips[s as int] == Swip::Hot(g as usize)) by {
        if g != f {
            assert(post.frames[g] == pre.frames[g]);
            match pre.frames[g].owner {
                Some(s) => {
                    assert(pre.swips[s as int] == Swip::Hot(g as usize));
                    assert(post.swips[s as int] == pre.swips[s as int]);
                },
                None => {},
            }
        } else {
            assert(post.swips[slot as int] == Swip::Hot(f));
        }
    }
    assert forall|i: int|
        0 <= i < post.free.len() implies (#[trigger] post.free[i]) < post.frames.len()
        && post.frames[post.free[i] as int].owner is None by {
        assert(pre.free[i] < pre.frames.len() && pre.frames[pre.free[i] as int].owner is None);
        assert(pre.free[i] != f) by {
            if pre.free[i] == f {
                assert(pre.free@.contains(f));
            }
        }
        assert(post.frames[post.free[i] as int] == pre.frames[pre.free[i] as int]);
    }
    assert forall|g: int|
        0 <= g < post.frames.len() && (#[trigger] post.frames[g]).owner is None implies post.free@.contains(
        g as usize,
    ) && post.frames[g].pins == 0 && !locked(post.frames[g].version) && !post.frames[g].dirty
        && !post.frames[g].cooling by {
        assert(g != f);
        assert(post.frames[g] == pre.frames[g]);
    }
    assert forall|i: int|
        0 <= i < post.cooling.len() implies (#[trigger] post.cooling[i]) < post.frames.len()
        && post.frames[post.cooling[i] as int].cooling by {
        assert(pre.frames[pre.cooling[i] as int].cooling);
        assert(pre.cooling[i] != f) by {
            if pre.cooling[i] == f {
                assert(!pre.frames[f as int].cooling);
            }
        }
        assert(post.frames[post.cooling[i] as int] == pre.frames[pre.cooling[i] as int]);
    }
    assert forall|g: int|
        0 <= g < post.frames.len() && (#[trigger] post.frames[g]).cooling implies post.cooling@.contains(
        g as usize,
    ) by {
        assert(g != f);
        assert(post.frames[g] == pre.frames[g]);
    }
    assert forall|g: int|
        0 <= g < post.frames.len() && (#[trigger] post.frames[g]).resident() implies post.frames[
        g
    ].page.id < post.store.len() && (!post.frames[g].dirty ==> post.store.contents(
        post.frames[g].page.id as int,
    ) == Some(post.frames[g].page.data@)) by {
        if g != f {
            assert(post.frames[g] == pre.frames[g]);
            assert(pre.frames[g].resident());
            assert(pre.frames[g].page.id < pre.store.len());
        }
    }
    assert forall|s: int|
        0 <= s < post.swips.len() implies (#[trigger] post.swips[s] matches Swip::Cold(off) ==> off
        % PAGE_SIZE_U64 == 0 && off / PAGE_SIZE_U64 < post.store.len() && post.store.contents(
            (off / PAGE_SIZE_U64) as int,
        ) is Some) by {
        if s < pre.swips.len() {
            assert(post.swips[s] == pre.swips[s]);
            match pre.swips[s] {
                Swip::Cold(off) => {
                    assert(off / PAGE_SIZE_U64 < pre.store.len());
                    assert(post.store.contents((off / PAGE_SIZE_U64) as int) == pre.store.contents(
                        (off / PAGE_SIZE_U64) as int,
                    ));
                },
                Swip::Hot(_) => {},
            }
        }
    }
    assert forall|s1: int, s2: int|
        0 <= s1 < s2 < post.swips.len() implies #[trigger] post.slot_pid(s1)
        != #[trigger] post.slot_pid(s2) by {
        if s2 < pre.swips.len() {
            assert(pre.slot_pid(s1) != pre.slot_pid(s2));
        } else {
            assert(post.slot_pid(s2) == pid);
            assert(pre.slot_pid(s1) < pid);
        }
    }
    assert(post.wf());
}

/// Installing a page read back from the store into a held frame
/// restores well-formedness.
proof fn lemma_resolve_install(
    pre: BufferPool,
    post: BufferPool,
    slot: usize,
    f: usize,
    off: u64,
)
    requires
        pre.wf_holding_frame(f),
        slot < pre.swips.len(),
        pre.swips[slot as int] == Swip::Cold(off),
        post.swips@ == pre.swips@.update(slot as int, Swip::Hot(f)),
        post.frames.len() == pre.frames.len(),
        forall|g: int| 0 <= g < pre.frames.len() && g != f ==> post.frames[g] == pre.frames[g],
        post.frames[f as int].owner == Some(slot),
        !post.frames[f as int].dirty,
        !post.frames[f as int].cooling,
        post.frames[f as int].pins == pre.frames[f as int].pins,
        post.frames[f as int].version == pre.frames[f as int].version,
        post.frames[f as int].page.id == off / PAGE_SIZE_U64,
        Some(post.frames[f as int].page.data@) == pre.store.contents((off / PAGE_SIZE_U64) as int),
        post.frames[f as int].wf(),
        post.store == pre.store,
        post.free == pre.free,
        post.cooling == pre.cooling,
    ensures
        post.wf(),
        forall|s: int| 0 <= s < pre.swips.len() ==> #[trigger] post.slot_pid(s) == pre.slot_pid(s),
{
    let pid = off / PAGE_SIZE_U64;
    assert(pid < pre.store.len());
    assert forall|g: int| 0 <= g < post.frames.len() implies (#[trigger] post.frames[g]).wf() by {
        if g != f {
            assert(post.frames[g] == pre.frames[g]);
        }
    }
    assert forall|s: int|
        0 <= s < post.swips.len() implies (#[trigger] post.swips[s] matches Swip::Hot(fr) ==> fr
        < post.frames.len() && post.frames[fr as int].owner == Some(s as usize)) by {
        if s != slot {
            assert(post.swips[s] == pre.swips[s]);
            match pre.swips[s] {
                Swip::Hot(fr) => {
                    assert(pre.frames[fr as int].owner == Some(s as usize));
                    assert(fr != f);
                },
                Swip::Cold(_) => {},
            }
        }
    }
    assert forall|g: int|
        0 <= g < post.frames.len() implies ((#[trigger] post.frames[g]).owner matches Some(s) ==> s
        < post.swips.len() && post.swips[s as int] == Swip::Hot(g as usize)) by {
        if g != f {
            assert(post.frames[g] == pre.frames[g]);
            match pre.frames[g].owner {
                Some(s) => {
                    assert(pre.swips[s as int] == Swip::Hot(g as usize));
                    assert(s != slot);
                },
                None => {},
            }
        }
    }
    assert forall|i: int|
        0 <= i < post.free.len() implies (#[trigger] post.free[i]) < post.frames.len()
        && post.frames[post.free[i] as int].owner is None by {
        assert(pre.free[i] < pre.frames.len() && pre.frames[pre.free[i] as int].owner is None);
        assert(pre.free[i] != f) by {
            if pre.free[i] == f {
                assert(pre.free@.contains(f));
            }
        }
        assert(post.frames[post.free[i] as int] == pre.frames[pre.free[i] as int]);
    }
    assert forall|g: int|
        0 <= g < post.frames.len() && (#[trigger] post.frames[g]).owner is None implies post.free@.contains(
        g as usize,
    ) && post.frames[g].pins == 0 && !locked(post.frames[g].version) && !post.frames[g].dirty
        && !post.frames[g].cooling by {
        assert(g != f);
        assert(post.frames[g] == pre.frames[g]);
    }
    assert forall|i: int|
        0 <= i < post.cooling.len() implies (#[trigger] post.cooling[i]) < post.frames.len()
        && post.frames[post.cooling[i] as int].cooling by {
        assert(pre.frames[pre.cooling[i] as int].cooling);
        assert(pre.cooling[i] != f) by {
            if pre.cooling[i] == f {
                assert(!pre.frames[f as int].cooling);
            }
        }
        assert(post.frames[post.cooling[i] as int] == pre.frames[pre.cooling[i] as int]);
    }
    assert forall|g: int|
        0 <= g < post.frames.len() && (#[trigger] post.frames[g]).cooling implies post.cooling@.contains(
        g as usize,
    ) by {
        assert(g != f);
        assert(post.frames[g] == pre.frames[g]);
    }
    assert forall|g: int|
        0 <= g < post.frames.len() && (#[trigger] post.frames[g]).resident() implies post.frames[
        g
    ].page.id < post.store.len() && (!post.frames[g].dirty ==> post.store.contents(
        post.frames[g].page.id as int,
    ) == Some(post.frames[g].page.data@)) by {
        if g != f {
            assert(post.frames[g] == pre.frames[g]);
            assert(pre.frames[g].resident());
        }
    }
    assert forall|s: int|
        0 <= s < post.swips.len() implies (#[trigger] post.swips[s] matches Swip::Cold(o) ==> o
        % PAGE_SIZE_U64 == 0 && o / PAGE_SIZE_U64 < post.store.len() && post.store.contents(
            (o / PAGE_SIZE_U64) as int,
        ) is Some) by {
        if s != slot {
            assert(post.swips[s] == pre.swips[s]);
        }
    }
    assert forall|s: int| 0 <= s < post.swips.len() implies #[trigger] post.slot_pid(s)
        == pre.slot_pid(s) by {
        if s == slot {
            assert(post.slot_pid(s) == post.frames[f as int].page.id);
            assert(pre.slot_pid(s) == pid);
        } else {
            assert(post.swips[s] == pre.swips[s]);
            match pre.swips[s] {
                Swip::Hot(fr) => {
                    assert(pre.frames[fr as int].owner == Some(s as usize));
                    assert(fr != f);
                    assert(post.frames[fr as int] == pre.frames[fr as int]);
                },
                Swip::Cold(_) => {},
            }
        }
    }
    assert(post.pids_injective());
    assert(post.wf());
}

/// Flushing one resident frame's page to the store preserves
/// well-formedness.
proof fn lemma_wf_after_flush(pre: BufferPool, post: BufferPool, f: int)
    requires
        pre.wf(),
        0 <= f < pre.frames.len(),
        pre.frames[f].resident(),
        post.frames@ == pre.frames@.update(f, BufferFrame { dirty: false, ..pre.frames[f] }),
        post.store.wf(),
        post.store.len() == pre.store.len(),
        post.store.contents(pre.frames[f].page.id as int) == Some(pre.frames[f].page.data@),
        forall|k: int|
            0 <= k < pre.store.len() && k != pre.frames[f].page.id ==> post.store.contents(k)
                == pre.store.contents(k),
        post.swips == pre.swips,
        post.free == pre.free,
        post.cooling == pre.cooling,
    ensures
        post.wf(),
{
    let pid = pre.frames[f].page.id;
    assert forall|g: int| 0 <= g < post.frames.len() implies (#[trigger] post.frames[g]).wf() by {
        if g != f {
            assert(post.frames[g] == pre.frames[g]);
        }
    }
    assert forall|s: int|
        0 <= s < post.swips.len() implies (#[trigger] post.swips[s] matches Swip::Hot(fr) ==> fr
        < post.frames.len() && post.frames[fr as int].owner == Some(s as usize)) by {
        match post.swips[s] {
            Swip::Hot(fr) => {
                assert(pre.swips[s] is Hot);
                if fr as int != f {
                    assert(post.frames[fr as int] == pre.frames[fr as int]);
                }
            },
            Swip::Cold(_) => {},
        }
    }
    assert forall|g: int|
        0 <= g < post.frames.len() implies ((#[trigger] post.frames[g]).owner matches Some(s) ==> s
        < post.swips.len() && post.swips[s as int] == Swip::Hot(g as usize)) by {
        if g != f {
            assert(post.frames[g] == pre.frames[g]);
        }
    }
    assert forall|i: int|
        0 <= i < post.free.len() implies (#[trigger] post.free[i]) < post.frames.len()
        && post.frames[post.free[i] as int].owner is None by {
        assert(pre.free[i] < pre.frames.len() && pre.frames[pre.free[i] as int].owner is None);
        if post.free[i] as int != f {
            assert(post.frames[post.free[i] as int] == pre.frames[post.free[i] as int]);
        }
    }
    assert forall|g: int|
        0 <= g < post.frames.len() && (#[trigger] post.frames[g]).owner is None implies post.free@.contains(
        g as usize,
    ) && post.frames[g].pins == 0 && !locked(post.frames[g].version) && !post.frames[g].dirty
        && !post.frames[g].cooling by {
        assert(g != f);
        assert(post.frames[g] == pre.frames[g]);
    }
    assert forall|i: int|
        0 <= i < post.cooling.len() implies (#[trigger] post.cooling[i]) < post.frames.len()
        && post.frames[post.cooling[i] as int].cooling by {
        assert(pre.frames[pre.cooling[i] as int].cooling);
        if post.cooling[i] as int != f {
            assert(post.frames[post.cooling[i] as int] == pre.frames[post.cooling[i] as int]);
        }
    }
    assert forall|g: int|
        0 <= g < post.frames.len() && (#[trigger] post.frames[g]).cooling implies post.cooling@.contains(
        g as usize,
    ) by {
        if g != f {
            assert(post.frames[g] == pre.frames[g]);
        }
    }
    assert forall|g: int|
        0 <= g < post.frames.len() && (#[trigger] post.frames[g]).resident() implies post.frames[
        g
    ].page.id < post.store.len() && (!post.frames[g].dirty ==> post.store.contents(
        post.frames[g].page.id as int,
    ) == Some(post.frames[g].page.data@)) by {
        if g != f {
            assert(post.frames[g] == pre.frames[g]);
            assert(pre.frames[g].resident());
            if post.frames[g].page.id != pid {
                assert(post.store.contents(post.frames[g].page.id as int) == pre.store.contents(
                    post.frames[g].page.id as int,
                ));
            } else {
                lemma_resident_pids_distinct(pre, g, f);
            }
        }
    }
    assert forall|s: int|
        0 <= s < post.swips.len() implies (#[trigger] post.swips[s] matches Swip::Cold(o) ==> o
        % PAGE_SIZE_U64 == 0 && o / PAGE_SIZE_U64 < post.store.len() && post.store.contents(
            (o / PAGE_SIZE_U64) as int,
        ) is Some) by {
        match post.swips[s] {
            Swip::Cold(o) => {
                assert(pre.swips[s] == post.swips[s]);
                if o / PAGE_SIZE_U64 != pid {
                    assert(post.store.contents((o / PAGE_SIZE_U64) as int) == pre.store.contents(
                        (o / PAGE_SIZE_U64) as int,
                    ));
                }
            },
            Swip::Hot(_) => {},
        }
    }
    assert forall|s: int| 0 <= s < post.swips.len() implies #[trigger] post.slot_pid(s)
        == pre.slot_pid(s) by {
        match post.swips[s] {
            Swip::Hot(fr) => {
                if fr as int != f {
                    assert(post.frames[fr as int] == pre.frames[fr as int]);
                }
            },
            Swip::Cold(_) => {},
        }
    }
    assert(post.pids_injective());
}

/// Mutable access to one frame of the arena.
fn frame_mut(frames: &mut Vec<BufferFrame>, i: usize) -> (fr: &mut BufferFrame)
    requires
        i < old(frames).len(),
    ensures
        *fr == old(frames)@[i as int],
        final(frames)@ == old(frames)@.update(i as int, *final(fr)),
{
    &mut frames[i]
}

} // verus!
