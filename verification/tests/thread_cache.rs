//! Thread-cache tests: allocation and free through the tiers, batching,
//! and reuse from the cache.

use rtmalloc::central_free_list::CentralCache;
use rtmalloc::page_heap::PageHeap;
use rtmalloc::thread_cache::ThreadCache;

#[test]
fn test_allocate_and_deallocate() {
    let mut heap = PageHeap::new();
    let mut central = CentralCache::new();
    let mut tc = ThreadCache::new();

    // Allocate a small object (size class 1 = 8 bytes)
    let ptr = tc.allocate(1, &mut central, &mut heap);
    assert!(ptr.is_some());

    // Deallocate it
    tc.deallocate(ptr.unwrap(), 1, &mut central, &mut heap);
}

#[test]
fn test_allocate_many() {
    let mut heap = PageHeap::new();
    let mut central = CentralCache::new();
    let mut tc = ThreadCache::new();

    let mut ptrs = Vec::new();
    // Allocate 1000 objects of size class 4 = 32 bytes
    for _ in 0..1000 {
        let ptr = tc.allocate(4, &mut central, &mut heap);
        assert!(ptr.is_some());
        ptrs.push(ptr.unwrap());
    }
    // Free them all
    for ptr in ptrs {
        tc.deallocate(ptr, 4, &mut central, &mut heap);
    }
}

#[test]
fn test_mixed_sizes() {
    let mut heap = PageHeap::new();
    let mut central = CentralCache::new();
    let mut tc = ThreadCache::new();

    let mut allocs: Vec<(usize, usize)> = Vec::new();
    for cls in [1, 4, 8, 12, 16, 20, 24] {
        for _ in 0..50 {
            let ptr = tc.allocate(cls, &mut central, &mut heap);
            assert!(ptr.is_some());
            allocs.push((cls, ptr.unwrap()));
        }
    }
    for (cls, ptr) in allocs {
        tc.deallocate(ptr, cls, &mut central, &mut heap);
    }
}

#[test]
fn test_reuse_from_cache() {
    let mut heap = PageHeap::new();
    let mut central = CentralCache::new();
    let mut tc = ThreadCache::new();

    // Allocate and free to populate thread cache
    let ptr1 = tc.allocate(2, &mut central, &mut heap);
    assert!(ptr1.is_some());
    let ptr1 = ptr1.unwrap();
    tc.deallocate(ptr1, 2, &mut central, &mut heap);

    // Next allocation should come from thread cache (same pointer)
    let ptr2 = tc.allocate(2, &mut central, &mut heap);
    assert!(ptr2.is_some());
    let ptr2 = ptr2.unwrap();
    assert_eq!(ptr1, ptr2);

    tc.deallocate(ptr2, 2, &mut central, &mut heap);
}

#[test]
fn test_cache_distinct_objects() {
    let mut heap = PageHeap::new();
    let mut central = CentralCache::new();
    let mut tc = ThreadCache::new();

    // Two outstanding allocations of the same class never alias.
    let a = tc.allocate(4, &mut central, &mut heap).unwrap();
    let b = tc.allocate(4, &mut central, &mut heap).unwrap();
    assert_ne!(a, b);
    assert!(a.abs_diff(b) >= 32);
    tc.deallocate(a, 4, &mut central, &mut heap);
    tc.deallocate(b, 4, &mut central, &mut heap);
}
