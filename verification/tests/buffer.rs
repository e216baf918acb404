use qpdb::BufferPool;
use qpdb::Database;
use qpdb::Error;
use qpdb::Page;
use qpdb::Store;
use qpdb::Swip;

#[test]
fn placeholder_test() {
    assert_eq!(2 + 2, 4);
}

#[test]
fn page_new_zero_filled() {
    let p = Page::new(7);
    assert_eq!(p.id, 7);
    assert_eq!(p.data.len(), 4096);
    assert!(p.data.iter().all(|b| *b == 0));
}

#[test]
fn swip_constructors() {
    let c = Swip::cold(8192);
    assert!(c.is_cold());
    assert!(!c.is_hot());
    let h = Swip::hot(3);
    assert!(h.is_hot());
    assert!(!h.is_cold());
    assert_eq!(c, Swip::Cold(8192));
    assert_eq!(h, Swip::Hot(3));
}

#[test]
fn database_open() {
    let db = Database::open(4).unwrap();
    assert_eq!(db.pool.capacity(), 4);
    assert_eq!(db.pool.swip_count(), 0);
}

#[test]
fn alloc_assigns_sequential_page_ids() {
    let mut pool = BufferPool::new(3);
    let (p0, s0, _f0) = pool.alloc_new().unwrap();
    let (p1, s1, _f1) = pool.alloc_new().unwrap();
    assert_eq!(p0, 0);
    assert_eq!(p1, 1);
    assert_eq!(s0, 0);
    assert_eq!(s1, 1);
    assert!(pool.swip_at(s0).is_hot());
    assert!(pool.swip_at(s1).is_hot());
}

#[test]
fn swip_state_tracks_residency() {
    let mut pool = BufferPool::new(2);
    let (_pid, slot, f) = pool.alloc_new().unwrap();
    assert!(pool.swip_at(slot).is_hot());
    assert_eq!(pool.frames[f].owner, Some(slot));
    pool.unpin(f);
    let v = pool.evict_one().unwrap();
    assert_eq!(v, f);
    assert!(pool.swip_at(slot).is_cold());
    assert_eq!(pool.frames[f].owner, None);
    let f2 = pool.resolve(slot).unwrap();
    assert!(pool.swip_at(slot).is_hot());
    assert_eq!(pool.frames[f2].owner, Some(slot));
}

#[test]
fn resolve_hot_is_identity() {
    let mut pool = BufferPool::new(2);
    let (_pid, slot, f) = pool.alloc_new().unwrap();
    let r = pool.resolve(slot).unwrap();
    assert_eq!(r, f);
    assert!(pool.swip_at(slot).is_hot());
}

#[test]
fn resolve_unknown_slot_is_not_found() {
    let mut pool = BufferPool::new(1);
    let e = pool.resolve(3).unwrap_err();
    assert!(e.is_not_found());
    assert!(matches!(e, Error::NotFound));
}

#[test]
fn round_trip_evict_resolve() {
    let mut pool = BufferPool::new(2);
    let (pid, slot, frame) = pool.alloc_new().unwrap();
    assert!(pool.try_acquire_exclusive(frame));
    let mut data = vec![0u8; 4096];
    data[0] = 0xAB;
    data[1] = 0xCD;
    data[4095] = 0x7F;
    pool.write_frame(frame, data.clone());
    pool.release_exclusive(frame);
    pool.unpin(frame);
    let victim = pool.evict_one().unwrap();
    assert_eq!(victim, frame);
    assert!(pool.swip_at(slot).is_cold());
    let f2 = pool.resolve(slot).unwrap();
    assert!(pool.swip_at(slot).is_hot());
    assert_eq!(pool.frames[f2].page.id, pid);
    assert_eq!(pool.frames[f2].page.data, data);
}

#[test]
fn eviction_skips_pinned_frames() {
    let mut pool = BufferPool::new(2);
    let (_p1, s1, _f1) = pool.alloc_new().unwrap();
    let (_p2, s2, f2) = pool.alloc_new().unwrap();
    pool.unpin(f2);
    // the first frame stays pinned: eviction must pick the second
    let v = pool.evict_one().unwrap();
    assert_eq!(v, f2);
    assert!(pool.swip_at(s2).is_cold());
    assert!(pool.swip_at(s1).is_hot());
    // the only resident frame is pinned: nothing is evictable
    assert!(pool.evict_one().is_none());
    assert!(pool.swip_at(s1).is_hot());
}

#[test]
fn eviction_skips_latched_frames() {
    let mut pool = BufferPool::new(2);
    let (_p, s, f) = pool.alloc_new().unwrap();
    pool.unpin(f);
    assert!(pool.try_acquire_exclusive(f));
    // an exclusively latched frame is skipped, not blocked on
    assert!(pool.evict_one().is_none());
    assert!(pool.swip_at(s).is_hot());
    pool.release_exclusive(f);
    assert_eq!(pool.evict_one(), Some(f));
    assert!(pool.swip_at(s).is_cold());
}

#[test]
fn capacity_four_eviction_scenario() {
    let mut pool = BufferPool::new(4);
    let mut frames = Vec::new();
    for expected in 0..4u64 {
        let (pid, _slot, frame) = pool.alloc_new().unwrap();
        assert_eq!(pid, expected);
        frames.push(frame);
    }
    // all four frames are full; none pinned
    for &f in &frames {
        pool.unpin(f);
    }
    // a fifth allocation evicts one cooling candidate and succeeds
    let (pid5, slot5, _f5) = pool.alloc_new().unwrap();
    assert_eq!(pid5, 4);
    assert_eq!(slot5, 4);
    let cold = (0..4).filter(|&s| pool.swip_at(s).is_cold()).count();
    assert_eq!(cold, 1);
}

#[test]
fn exhaustion_all_pinned() {
    let mut pool = BufferPool::new(4);
    for _ in 0..4 {
        pool.alloc_new().unwrap();
    }
    // all four frames stay pinned: the fifth allocation must fail
    let e = pool.alloc_new().unwrap_err();
    assert!(e.is_out_of_memory());
    assert!(matches!(e, Error::OutOfMemory));
    // and nothing was dropped: all four swips are still hot
    for s in 0..4 {
        assert!(pool.swip_at(s).is_hot());
    }
}

#[test]
fn zero_capacity_pool_cannot_allocate() {
    let mut pool = BufferPool::new(0);
    assert!(pool.alloc_new().unwrap_err().is_out_of_memory());
}

#[test]
fn stale_reader_fails_validation() {
    let mut pool = BufferPool::new(1);
    let (_pid, _slot, f) = pool.alloc_new().unwrap();
    let n = pool.read_version(f);
    assert_eq!(n % 2, 0);
    // reader B records the version before writer A acquires
    let recorded = pool.read_version(f);
    // writer A's exclusive section: N -> N+1 -> N+2
    assert!(pool.try_acquire_exclusive(f));
    assert_eq!(pool.read_version(f), n + 1);
    let mid = pool.read_version(f);
    pool.release_exclusive(f);
    assert_eq!(pool.read_version(f), n + 2);
    // B finishes after A released: validation fails, forcing a retry
    assert!(!pool.validate(f, recorded));
    assert!(!pool.validate(f, mid));
    // a fresh read now validates
    let fresh = pool.read_version(f);
    assert!(pool.validate(f, fresh));
}

#[test]
fn validation_requires_even_unchanged() {
    let mut pool = BufferPool::new(1);
    let (_pid, _slot, f) = pool.alloc_new().unwrap();
    let v = pool.read_version(f);
    assert!(pool.validate(f, v));
    assert!(pool.try_acquire_exclusive(f));
    let odd = pool.read_version(f);
    // an odd version means a writer is mid-flight: never valid
    assert!(!pool.validate(f, odd));
    // a second exclusive acquire loses the race without blocking
    assert!(!pool.try_acquire_exclusive(f));
    pool.release_exclusive(f);
    assert!(!pool.validate(f, v));
}

#[test]
fn flush_all_writes_dirty_pages() {
    let mut pool = BufferPool::new(2);
    let (pid, _slot, f) = pool.alloc_new().unwrap();
    assert!(pool.try_acquire_exclusive(f));
    let mut data = vec![0u8; 4096];
    data[10] = 42;
    pool.write_frame(f, data.clone());
    pool.release_exclusive(f);
    pool.flush_all();
    assert!(!pool.frames[f].dirty);
    let stored = pool.store.read_page(pid).unwrap();
    assert_eq!(stored.id, pid);
    assert_eq!(stored.data, data);
}

#[test]
fn mark_dirty_sets_flag() {
    let mut pool = BufferPool::new(1);
    let (_pid, _slot, f) = pool.alloc_new().unwrap();
    // a fresh page starts dirty
    assert!(pool.frames[f].dirty);
    pool.flush_all();
    assert!(!pool.frames[f].dirty);
    pool.mark_dirty(f);
    assert!(pool.frames[f].dirty);
}

#[test]
fn pin_counts_nest() {
    let mut pool = BufferPool::new(1);
    let (_pid, _slot, f) = pool.alloc_new().unwrap();
    pool.pin(f);
    assert_eq!(pool.frames[f].pins, 2);
    pool.unpin(f);
    pool.unpin(f);
    assert_eq!(pool.frames[f].pins, 0);
}

#[test]
fn cold_swip_offset_is_page_aligned() {
    let mut pool = BufferPool::new(1);
    let (pid, slot, f) = pool.alloc_new().unwrap();
    pool.unpin(f);
    pool.evict_one().unwrap();
    match pool.swip_at(slot) {
        Swip::Cold(off) => assert_eq!(off, pid * 4096),
        Swip::Hot(_) => panic!("swip should be cold after eviction"),
    }
}

#[test]
fn store_detects_corruption() {
    let mut store = Store::new();
    // a page claiming id 1 sits in the slot of id 0
    store.pages.push(Some(Page::new(1)));
    let e = match store.read_page(0) {
        Err(e) => e,
        Ok(_) => panic!("expected a corruption error"),
    };
    assert!(e.is_corruption());
    assert!(matches!(e, Error::Corruption(0)));
}

#[test]
fn store_missing_page_is_not_found() {
    let mut store = Store::new();
    store.pages.push(None);
    assert!(matches!(store.read_page(0), Err(Error::NotFound)));
    assert!(matches!(store.read_page(9), Err(Error::NotFound)));
}

#[test]
fn adopt_cold_reattaches_persisted_page() {
    let mut pool = BufferPool::new(2);
    let (pid, _slot, f) = pool.alloc_new().unwrap();
    pool.unpin(f);
    pool.evict_one().unwrap();
    // the page is still denoted by its existing swip: refused
    assert!(matches!(pool.adopt_cold(pid * 4096), Err(Error::NotFound)));
    // a fresh pool over the same store can adopt it
    let mut pool2 = BufferPool::new(2);
    pool2.store = pool.store;
    let slot2 = pool2.adopt_cold(pid * 4096).unwrap();
    let f2 = pool2.resolve(slot2).unwrap();
    assert_eq!(pool2.frames[f2].page.id, pid);
    // misaligned or unknown offsets are refused
    assert!(matches!(pool2.adopt_cold(1), Err(Error::NotFound)));
    assert!(matches!(pool2.adopt_cold(99 * 4096), Err(Error::NotFound)));
}

#[test]
fn store_round_trip() {
    let mut store = Store::new();
    store.pages.push(None);
    let mut page = Page::new(0);
    page.data[0] = 9;
    store.write_page(page);
    let back = store.read_page(0).unwrap();
    assert_eq!(back.id, 0);
    assert_eq!(back.data[0], 9);
}
