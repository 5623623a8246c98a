//! End-to-end allocator tests: the dispatcher over all three tiers,
//! large allocations, reallocation, zeroing, alignment, and the byte and
//! span accounting the scenarios call for.

use rtmalloc::allocator::TcMalloc;
use rtmalloc::size_class::{class_to_size, size_to_class};
use rtmalloc::span::SpanState;

#[test]
fn test_large_allocation() {
    // Allocate > 256 KiB (goes through large allocation path)
    let mut m = TcMalloc::new();
    let p = m.allocate(512 * 1024, 8).unwrap();
    for i in 0..512 * 1024 {
        m.write_byte(p, i, 0xAB);
    }
    for i in 0..512 * 1024 {
        assert_eq!(m.read_byte(p, i), 0xAB);
    }
    m.dealloc(p, 512 * 1024, 8);
}

#[test]
fn test_various_sizes() {
    // Exercise different size classes
    let mut m = TcMalloc::new();
    for size in [1, 8, 16, 64, 256, 1024, 4096, 8192, 65536] {
        let p = m.allocate(size, 8).unwrap();
        m.write_byte(p, 0, 0x5A);
        m.write_byte(p, size - 1, 0x5A);
        m.dealloc(p, size, 8);
    }
}

#[test]
fn test_alloc_free_cycle() {
    let mut m = TcMalloc::new();
    for _ in 0..100 {
        // 100 eight-byte values at a time
        let p = m.allocate(100 * 8, 8).unwrap();
        m.dealloc(p, 100 * 8, 8);
    }
}

#[test]
fn scenario_single_object_round_trip() {
    // allocate, write, free, allocate again: the same slot comes back
    let mut m = TcMalloc::new();
    let p = m.allocate(8, 8).unwrap();
    for i in 0..8 {
        m.write_byte(p, i, 0xAA);
    }
    m.dealloc(p, 8, 8);
    let q = m.allocate(8, 8).unwrap();
    assert_eq!(q, p);
    m.dealloc(q, 8, 8);
}

#[test]
fn scenario_batch_refill() {
    // forty 32-byte objects (class 4, batch 32).  One span serves all of
    // them: a span of class 4 holds 256 objects, so the second refill
    // comes from the same span with no further page-heap interaction.
    let mut m = TcMalloc::new();
    let mut ptrs = Vec::new();
    for _ in 0..40 {
        ptrs.push(m.allocate(32, 8).unwrap());
    }
    assert_eq!(m.heap.span_alloc_count(), 1);
    for p in ptrs {
        m.dealloc(p, 32, 8);
    }
    // After a release of half at each overflow of the adaptive bound,
    // the class's list sits at its bound.
    assert_eq!(m.tcache.lists[4].objects.len(), 32);
}

#[test]
fn scenario_overflow_and_scavenge() {
    // 200 000 interleaved allocate/free of 64-byte objects.  The
    // thread cache's bytes stay bounded and the reservation never grows
    // past the first span plus the sentinel page.
    let mut m = TcMalloc::new();
    for i in 0..200_000 {
        let p = m.allocate(64, 8).unwrap();
        if i % 1000 == 0 {
            assert!(m.tcache.total_size <= 4 * 1024 * 1024 + 64);
        }
        m.dealloc(p, 64, 8);
    }
    assert!(m.tcache.total_size <= 4 * 1024 * 1024);
    assert!(m.heap.reserved_pages() <= 65);
}

#[test]
fn scenario_large_span_lookup() {
    // a 512 KiB allocation takes a whole 64-page span, findable
    // through the page map; freeing it leaves a span of at least 64
    // pages in the free pool.
    let mut m = TcMalloc::new();
    let p = m.allocate(512 * 1024, 8).unwrap();
    let id = m.heap.span_of_page(p >> 13).unwrap();
    assert_eq!(m.heap.spans[id].size_class, 0);
    assert_eq!(m.heap.spans[id].num_pages, 64);
    assert!(matches!(m.heap.spans[id].state, SpanState::Large));
    m.dealloc(p, 512 * 1024, 8);
    assert!(m.heap.has_free_span_at_least(64));
}

#[test]
fn scenario_realloc_in_place() {
    // growing within the same size class keeps the address; growing
    // past it moves the allocation and carries the bytes along.
    let mut m = TcMalloc::new();
    let p = m.allocate(17, 8).unwrap();
    for i in 0..17 {
        m.write_byte(p, i, i as u8 + 1);
    }
    // 17 and 24 bytes share the 24-byte class: same address
    let q = m.realloc(p, 17, 8, 24).unwrap();
    assert_eq!(q, p);
    // 80 bytes no longer fits the 24-byte slot: a new address, bytes
    // preserved
    let r = m.realloc(q, 24, 8, 80).unwrap();
    assert_ne!(r, q);
    for i in 0..17 {
        assert_eq!(m.read_byte(r, i), i as u8 + 1);
    }
    m.dealloc(r, 80, 8);
}

#[test]
fn test_alloc_zeroed_scrubs_reused_memory() {
    let mut m = TcMalloc::new();
    let p = m.allocate(64, 8).unwrap();
    for i in 0..64 {
        m.write_byte(p, i, 0xFF);
    }
    m.dealloc(p, 64, 8);
    let q = m.alloc_zeroed(64, 8).unwrap();
    assert_eq!(q, p);
    for i in 0..64 {
        assert_eq!(m.read_byte(q, i), 0);
    }
    m.dealloc(q, 64, 8);
}

#[test]
fn test_zero_sized_request_gets_sentinel() {
    let mut m = TcMalloc::new();
    let p = m.allocate(0, 16).unwrap();
    assert_eq!(p, 16);
    // freeing the sentinel is a no-op
    m.dealloc(p, 0, 16);
    assert_eq!(m.heap.reserved_pages(), 1);
}

#[test]
fn test_out_of_memory_returns_none() {
    // The provider caps the reservation at 256 MiB: a 300 MiB request
    // fails, and the allocator is untouched.
    let mut m = TcMalloc::new();
    let r = m.allocate(300 * 1024 * 1024, 8);
    assert!(r.is_none());
    assert_eq!(m.heap.reserved_pages(), 1);
}

#[test]
fn test_alignment_honoured() {
    let mut m = TcMalloc::new();
    for align in [1usize, 2, 4, 8, 16, 64, 256, 4096] {
        let p = m.allocate(100, align).unwrap();
        assert_eq!(p % align, 0);
        m.dealloc(p, 100, align);
    }
    // alignment beyond a page goes through the large path with an offset
    let p = m.allocate(100, 16384).unwrap();
    assert_eq!(p % 16384, 0);
    m.dealloc(p, 100, 16384);
}

#[test]
fn test_live_allocations_do_not_alias() {
    let mut m = TcMalloc::new();
    let mut ptrs: Vec<(usize, usize)> = Vec::new();
    for size in [8usize, 8, 24, 24, 100, 100, 5000, 300_000] {
        // usable bytes: the whole slot for a small object, the request
        // for a large one
        let usable = if size_to_class(size) != 0 {
            class_to_size(size_to_class(size))
        } else {
            size
        };
        ptrs.push((m.allocate(size, 8).unwrap(), usable));
    }
    for (i, &(p, pu)) in ptrs.iter().enumerate() {
        for (j, &(q, qu)) in ptrs.iter().enumerate() {
            if i != j {
                assert!(p + pu <= q || q + qu <= p);
            }
        }
    }
    // writes through one allocation never show through another
    let (a, _) = ptrs[0];
    let (b, _) = ptrs[1];
    m.write_byte(a, 0, 0x11);
    m.write_byte(b, 0, 0x22);
    assert_eq!(m.read_byte(a, 0), 0x11);
    assert_eq!(m.read_byte(b, 0), 0x22);
    let sizes = [8usize, 8, 24, 24, 100, 100, 5000, 300_000];
    for (k, &(p, _)) in ptrs.iter().enumerate() {
        m.dealloc(p, sizes[k], 8);
    }
}

#[test]
fn test_realloc_from_null_allocates() {
    let mut m = TcMalloc::new();
    let p = m.realloc(0, 0, 8, 48).unwrap();
    assert!(p != 0);
    assert_eq!(p % 8, 0);
    m.dealloc(p, 48, 8);
}

#[test]
fn test_realloc_to_zero_frees() {
    let mut m = TcMalloc::new();
    let p = m.allocate(48, 8).unwrap();
    let s = m.realloc(p, 48, 8, 0).unwrap();
    // the sentinel comes back and the object is reusable again
    assert_eq!(s, 8);
    let q = m.allocate(48, 8).unwrap();
    assert_eq!(q, p);
    m.dealloc(q, 48, 8);
}

#[test]
fn test_realloc_large_in_place() {
    // a large span has page-granular room: shrinking or growing within it
    // keeps the address, even shrinking below the small-size cutoff
    let mut m = TcMalloc::new();
    let p = m.allocate(300 * 1024, 8).unwrap();
    m.write_byte(p, 0, 0x77);
    let q = m.realloc(p, 300 * 1024, 8, 280 * 1024).unwrap();
    assert_eq!(q, p);
    let r = m.realloc(q, 280 * 1024, 8, 296 * 1024).unwrap();
    assert_eq!(r, p);
    let s = m.realloc(r, 296 * 1024, 8, 1024).unwrap();
    assert_eq!(s, p);
    assert_eq!(m.read_byte(s, 0), 0x77);
    m.dealloc(s, 1024, 8);
    assert!(m.heap.has_free_span_at_least(37));
}

#[test]
fn test_realloc_shrink_in_place() {
    // shrinking stays in the same block even when the new size maps to a
    // smaller class: the slot already fits it
    let mut m = TcMalloc::new();
    let p = m.allocate(32, 8).unwrap();
    m.write_byte(p, 0, 0x3C);
    let q = m.realloc(p, 32, 8, 8).unwrap();
    assert_eq!(q, p);
    assert_eq!(m.read_byte(q, 0), 0x3C);
    // growing back within the slot also stays put
    let r = m.realloc(q, 8, 8, 32).unwrap();
    assert_eq!(r, p);
    // freeing with the shrunk pair returns the block to its real class
    let s = m.realloc(r, 32, 8, 8).unwrap();
    m.dealloc(s, 8, 8);
    let t = m.allocate(32, 8).unwrap();
    assert_eq!(t, p);
    m.dealloc(t, 32, 8);
}

#[test]
fn test_coalesced_free_spans() {
    // Freeing two neighbouring large allocations leaves one coalesced
    // free span covering both.
    let mut m = TcMalloc::new();
    let p = m.allocate(300 * 1024, 8).unwrap();
    let q = m.allocate(300 * 1024, 8).unwrap();
    m.dealloc(p, 300 * 1024, 8);
    m.dealloc(q, 300 * 1024, 8);
    assert!(m.heap.has_free_span_at_least(74));
}
