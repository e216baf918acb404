//! The backing store: fixed-size pages addressable by page id.
//!
//! The store holds the authoritative copy of every page that is not
//! resident (and of every resident page since it was last flushed).
//! One slot per allocated page id; a slot is empty until the page is
//! first written out.

use vstd::prelude::*;

use crate::buffer::page::MAX_PAGE_COUNT;
use crate::buffer::page::Page;
use crate::error::Error;

verus! {

/// In-memory backing store: slot `i` holds page id `i`, or nothing if
/// that page was never written out.
pub struct Store {
    /// One slot per allocated page id.
    pub pages: Vec<Option<Page>>,
}

impl Store {
    /// Number of page slots the store addresses.
    pub open spec fn len(self) -> int {
        self.pages.len() as int
    }

    /// The bytes stored for page id `i`, if any.
    pub open spec fn contents(self, i: int) -> Option<Seq<u8>> {
        match self.pages[i] {
            Some(p) => Some(p.data@),
            None => None,
        }
    }

    /// Well-formedness: every stored page is full-size and sits in the
    /// slot of its own id, and offsets `id * PAGE_SIZE` stay representable.
    pub open spec fn wf(self) -> bool {
        &&& self.pages.len() <= MAX_PAGE_COUNT
        &&& forall|i: int|
            0 <= i < self.pages.len() ==> ((#[trigger] self.pages[i]) matches Some(p) ==> p.wf()
                && p.id == i)
    }

    /// A slot exists for `pid` and holds a page whose header id matches.
    pub open spec fn has_valid_page(self, pid: u64) -> bool {
        &&& pid < self.len()
        &&& self.pages[pid as int] matches Some(p) && p.id == pid
    }

    /// No page is stored under `pid`.
    pub open spec fn missing(self, pid: u64) -> bool {
        pid >= self.len() || self.pages[pid as int] is None
    }

    /// A page is stored under `pid` but its header id disagrees.
    pub open spec fn mismatched(self, pid: u64) -> bool {
        &&& pid < self.len()
        &&& self.pages[pid as int] matches Some(p) && p.id != pid
    }

    /// An empty store: no page ids allocated yet.
    pub fn new() -> (s: Store)
        ensures
            s.wf(),
            s.len() == 0,
    {
        Store { pages: Vec::new() }
    }

    /// Number of page slots, as the callers count them.
    pub fn page_count(&self) -> (n: usize)
        ensures
            n == self.len(),
    {
        self.pages.len()
    }

    /// Allocate the next page id: adds an empty slot for it.
    pub fn push_empty_slot(&mut self)
        requires
            old(self).len() < MAX_PAGE_COUNT,
        ensures
            final(self).len() == old(self).len() + 1,
            final(self).pages@ == old(self).pages@.push(None),
            old(self).wf() ==> final(self).wf(),
    {
        self.pages.push(None);
    }

    /// Write a page into the slot of its id, replacing what was there.
    pub fn write_page(&mut self, page: Page)
        requires
            page.wf(),
            page.id < old(self).len(),
        ensures
            final(self).len() == old(self).len(),
            final(self).pages@ == old(self).pages@.update(page.id as int, Some(page)),
            final(self).contents(page.id as int) == Some(page.data@),
            forall|i: int|
                0 <= i < old(self).len() && i != page.id ==> final(self).contents(i) == old(
                    self,
                ).contents(i),
            old(self).wf() ==> final(self).wf(),
    {
        let idx: usize = page.id as usize;
        self.pages.set(idx, Some(page));
    }

    /// Whether a page is stored under `pid` (whatever its header says).
    pub fn has_page(&self, pid: u64) -> (r: bool)
        ensures
            r == (pid < self.len() && self.contents(pid as int) is Some),
    {
        if pid >= self.pages.len() as u64 {
            return false;
        }
        let idx: usize = pid as usize;
        self.pages[idx].is_some()
    }

    /// Read the page stored under `pid`, returning a copy of its bytes.
    ///
    /// Succeeds exactly when a page with a matching header id is stored
    /// under `pid`; an empty or absent slot is `NotFound`, a header
    /// mismatch is `Corruption`.
    pub fn read_page(&self, pid: u64) -> (r: Result<Page, Error>)
        ensures
            r is Ok <==> self.has_valid_page(pid),
            r matches Ok(p) ==> p.id == pid && Some(p.data@) == self.contents(pid as int),
            r == Err::<Page, Error>(Error::NotFound) <==> self.missing(pid),
            r == Err::<Page, Error>(Error::Corruption(pid)) <==> self.mismatched(pid),
    {
        if pid >= self.pages.len() as u64 {
            return Err(Error::NotFound);
        }
        let idx: usize = pid as usize;
        match &self.pages[idx] {
            None => Err(Error::NotFound),
            Some(p) => {
                if p.id != pid {
                    Err(Error::Corruption(pid))
                } else {
                    Ok(p.duplicate())
                }
            },
        }
    }
}

} // verus!
