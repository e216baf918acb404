//! The page: the fixed-size unit of I/O and of in-memory residency.

use vstd::prelude::*;

verus! {

/// Stable identity of a page for its lifetime; doubles as the disk
/// addressing key (the page's bytes live at offset `id * PAGE_SIZE`).
pub type PageId = u64;

/// Size of every page in bytes.
pub const PAGE_SIZE: usize = 4096;

/// `PAGE_SIZE` as the offset arithmetic needs it.
pub const PAGE_SIZE_U64: u64 = 4096;

/// Largest number of pages the store may address: keeps every byte
/// offset `id * PAGE_SIZE` representable in a `u64`.
pub const MAX_PAGE_COUNT: u64 = 0x10_0000_0000_0000;

/// The byte offset in the backing store where a page's bytes live.
pub open spec fn spec_offset_of(pid: PageId) -> u64 {
    (pid * PAGE_SIZE_U64) as u64
}

/// The page id a byte offset in the backing store denotes.
pub open spec fn spec_pid_of(off: u64) -> u64 {
    off / PAGE_SIZE_U64
}

/// An offset computed from an allocatable page id fits in a `u64`,
/// recovers its page id, and is page-aligned.
pub proof fn lemma_offset_round_trip(pid: PageId)
    requires
        pid < MAX_PAGE_COUNT,
    ensures
        spec_offset_of(pid) == pid * PAGE_SIZE_U64,
        spec_pid_of(spec_offset_of(pid)) == pid,
        spec_offset_of(pid) % PAGE_SIZE_U64 == 0,
{
    assert(pid as int * PAGE_SIZE_U64 as int <= (MAX_PAGE_COUNT - 1) as int
        * PAGE_SIZE_U64 as int) by (nonlinear_arith)
        requires
            pid as int <= (MAX_PAGE_COUNT - 1) as int,
    ;
    assert((pid as int * PAGE_SIZE_U64 as int) / (PAGE_SIZE_U64 as int) == pid as int)
        by (nonlinear_arith);
    assert((pid as int * PAGE_SIZE_U64 as int) % (PAGE_SIZE_U64 as int) == 0)
        by (nonlinear_arith);
}

/// Compute the byte offset of a page in the backing store.
pub fn offset_of(pid: PageId) -> (off: u64)
    requires
        pid < MAX_PAGE_COUNT,
    ensures
        off == spec_offset_of(pid),
        spec_pid_of(off) == pid,
        off % PAGE_SIZE_U64 == 0,
{
    proof {
        lemma_offset_round_trip(pid);
    }
    pid * PAGE_SIZE_U64
}

/// Recover the page id from a byte offset in the backing store.
pub fn pid_of(off: u64) -> (pid: u64)
    ensures
        pid == spec_pid_of(off),
{
    off / PAGE_SIZE_U64
}

/// An in-memory page: exactly `PAGE_SIZE` bytes plus its identity.
/// A page has no behavior beyond holding bytes; interpreting them is
/// the client's responsibility.
pub struct Page {
    /// Page identifier.
    pub id: PageId,
    /// Page data, always `PAGE_SIZE` bytes long.
    pub data: Vec<u8>,
}

impl Page {
    /// A page is well formed when it holds exactly `PAGE_SIZE` bytes.
    pub open spec fn wf(self) -> bool {
        self.data.len() == PAGE_SIZE
    }

    /// Create a new, zero-filled page.
    pub fn new(id: PageId) -> (p: Page)
        ensures
            p.wf(),
            p.id == id,
            forall|i: int| 0 <= i < PAGE_SIZE ==> p.data[i] == 0u8,
    {
        let mut data: Vec<u8> = Vec::new();
        let mut i: usize = 0;
        while i < PAGE_SIZE
            invariant
                i <= PAGE_SIZE,
                data.len() == i,
                forall|j: int| 0 <= j < i ==> data[j] == 0u8,
            decreases PAGE_SIZE - i,
        {
            data.push(0u8);
            i = i + 1;
        }
        Page { id, data }
    }

    /// Copy of this page: same identity, byte-identical content.
    pub fn duplicate(&self) -> (p: Page)
        ensures
            p.id == self.id,
            p.data@ == self.data@,
    {
        let mut data: Vec<u8> = Vec::new();
        let mut i: usize = 0;
        while i < self.data.len()
            invariant
                i <= self.data.len(),
                data.len() == i,
                forall|j: int| 0 <= j < i ==> data[j] == self.data[j],
            decreases self.data.len() - i,
        {
            data.push(self.data[i]);
            i = i + 1;
        }
        proof {
            assert(data@ =~= self.data@);
        }
        Page { id: self.id, data }
    }
}

} // verus!
