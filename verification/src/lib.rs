//! An embedded page-oriented buffer manager.
//!
//! The library keeps a bounded set of fixed-size pages resident in memory,
//! loads pages from the backing store on demand, and evicts pages under
//! memory pressure.  Pages are referenced through swizzled pointers
//! ([`Swip`]): a reference that is either a direct handle to a resident
//! buffer frame (*Hot*) or a byte offset in the backing store (*Cold*).
//! Each frame carries an optimistic latch: a version counter that lets
//! readers validate instead of blocking.

use vstd::prelude::*;

pub mod buffer;
pub mod error;

pub use buffer::BufferFrame;
pub use buffer::BufferPool;
pub use buffer::Page;
pub use buffer::PageId;
pub use buffer::Store;
pub use buffer::Swip;
pub use error::Error;

verus! {

/// Database handle: owns the buffer pool that manages resident pages.
pub struct Database {
    /// The buffer pool holding every resident page.
    pub pool: BufferPool,
}

impl Database {
    /// Open a database with room for `capacity` resident pages.
    ///
    /// The pool starts empty: every frame is free and no page exists yet.
    pub fn open(capacity: usize) -> (r: Result<Database, Error>)
        ensures
            r matches Ok(db) && db.pool.wf() && db.pool.frames.len() == capacity
                && db.pool.swips.len() == 0 && db.pool.store.len() == 0,
    {
        Ok(Database { pool: BufferPool::new(capacity) })
    }
}

} // verus!
