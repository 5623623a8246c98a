//! Top-level allocator: classifies requests and ties the tiers together.
//!
//! `TcMalloc` owns the page heap, the central cache and the thread
//! front-end, and dispatches each request: zero-sized requests get a
//! never-dereferenced sentinel, small requests go through the thread
//! cache, and everything else takes whole spans from the page heap,
//! over-allocating and offsetting when the alignment exceeds a page.
//!
//! A ghost map records every live allocation with the size and alignment
//! it was made with.  `allocate` proves that what it hands out is
//! aligned, fresh, and backed by reserved memory; `dealloc` proves that the
//! allocation goes back to the tier it came from; and the invariant ties
//! every live address to the span that backs it, so that no two live
//! allocations ever overlap.

use vstd::prelude::*;
use crate::{PAGE_SIZE, MAX_PAGES};
use crate::size_class::{
    class_to_size, size_to_class, spec_class_pages, spec_class_size,
    spec_size_to_class, lemma_class_table_wf, lemma_size_to_class_fits,
    NUM_SIZE_CLASSES,
};
use crate::span::{lemma_addr_page_range, lemma_slot_index, SpanState};
use crate::page_heap::PageHeap;
use crate::central_free_list::{
    lemma_central_wf_frame, lemma_checked_out_preserved,
    lemma_checked_out_preserved_except, CentralCache,
};
use crate::thread_cache::ThreadCache;

verus! {

/// What one live allocation was made with.
pub struct AllocInfo {
    /// Requested byte count.
    pub size: usize,
    /// Requested alignment, a power of two.
    pub align: usize,
    /// The size class serving it, 0 for a large allocation.
    pub class: usize,
}

/// A positive power of two.
pub open spec fn is_pow2(a: int) -> bool
    decreases a,
{
    if a <= 0 {
        false
    } else if a == 1 {
        true
    } else {
        a % 2 == 0 && is_pow2(a / 2)
    }
}

/// The size class serving a request, or 0 when it goes straight to the
/// page heap: small enough for a class, and the class's size a multiple
/// of the alignment so objects land aligned.
pub open spec fn spec_request_class(size: int, align: int) -> int {
    if align <= 8 {
        spec_size_to_class(size)
    } else if align <= PAGE_SIZE {
        let c = spec_size_to_class(if size >= align { size } else { align });
        if c != 0 && spec_class_size(c) % align == 0 { c } else { 0 }
    } else {
        0
    }
}

/// Pages a large request takes: enough for the bytes, plus room to
/// offset up when the alignment exceeds a page.
pub open spec fn spec_large_pages(size: int, align: int) -> int {
    let base = (size + PAGE_SIZE - 1) / (PAGE_SIZE as int);
    if align > PAGE_SIZE { base + align / (PAGE_SIZE as int) } else { base }
}

/// Whether a request could not be served: the thread cache, the central
/// cache and the page heap were all out of inventory for it.
pub open spec fn spec_exhausted(m: TcMalloc, size: int, align: int) -> bool {
    let c = spec_request_class(size, align);
    if c != 0 {
        &&& m.tcache.lists@[c].objects.len() == 0
        &&& m.central.buckets@[c].nonempty.len() == 0
        &&& !m.heap.can_allocate(spec_class_pages(c))
    } else {
        !m.heap.can_allocate(spec_large_pages(size, align))
    }
}

/// A large allocation's placement: its address lies in a large span that
/// records it as the handed-out address, with the requested bytes fitting
/// before the span's end.
pub open spec fn large_placed(h: PageHeap, addr: usize, size: int) -> bool {
    let p = addr as int / (PAGE_SIZE as int);
    let id = h.owner_of(addr);
    &&& 1 <= p < h.page_map.len()
    &&& id < h.spans.len()
    &&& h.spans@[id].state == SpanState::Large
    &&& h.spans@[id].alloc_addr == addr
    &&& h.spans@[id].contains_page(p)
    &&& h.spans@[id].start_addr() <= addr
    &&& addr + size <= h.spans@[id].end_addr()
}

/// A large allocation survives any step that leaves its span's record
/// in place.
proof fn lemma_large_placed_step(h0: PageHeap, h1: PageHeap, addr: usize, size: int)
    requires
        h0.wf(),
        h1.wf(),
        large_placed(h0, addr, size),
        h1.spans.len() >= h0.spans.len(),
        h1.spans@[h0.owner_of(addr)] == h0.spans@[h0.owner_of(addr)],
        h1.page_map.len() >= h0.page_map.len(),
    ensures
        large_placed(h1, addr, size),
        h1.owner_of(addr) == h0.owner_of(addr),
{
    let p = addr as int / (PAGE_SIZE as int);
    let id = h0.owner_of(addr);
    assert(h1.wf_span(id));
    assert(h1.spans@[id].contains_page(p));
    assert(h1.page_map@[p] as int == id);
}

/// The allocator: the three tiers and the ghost record of what is live.
pub struct TcMalloc {
    pub heap: PageHeap,
    pub central: CentralCache,
    pub tcache: ThreadCache,
    /// Every live allocation, keyed by its address.
    pub live: Ghost<Map<usize, AllocInfo>>,
}

impl TcMalloc {
    /// Bytes usable at a live allocation's address: the whole object slot
    /// for a small allocation, the requested bytes for a large one.
    pub open spec fn usable_size(info: AllocInfo) -> int {
        if info.class != 0 { spec_class_size(info.class as int) } else { info.size as int }
    }

    /// One live allocation squares with the tiers: a small one is a
    /// checked-out slot of a span of its class, parked nowhere; a large
    /// one owns its whole span.
    pub open spec fn live_entry_wf(self, addr: usize, info: AllocInfo) -> bool {
        &&& is_pow2(info.align as int)
        &&& 1 <= info.size
        &&& (addr as int) % (info.align as int) == 0
        &&& if info.class != 0 {
            &&& self.tcache.user_owned(self.heap, addr, info.class as int)
            &&& info.size <= spec_class_size(info.class as int)
        } else {
            large_placed(self.heap, addr, info.size as int)
        }
    }

    /// The allocator's invariant: each tier well-formed against the heap,
    /// and every live allocation accounted for.
    pub open spec fn wf(self) -> bool {
        &&& self.heap.wf()
        &&& self.central.wf(self.heap)
        &&& self.tcache.wf(self.heap)
        &&& forall|addr: usize| #[trigger] self.live@.dom().contains(addr)
            ==> self.live_entry_wf(addr, self.live@[addr])
    }

    /// A fresh allocator: nothing reserved, nothing live.
    pub fn new() -> (m: TcMalloc)
        ensures
            m.wf(),
            m.live@ == Map::<usize, AllocInfo>::empty(),
            m.heap.page_map.len() == 1,
            m.heap.span_allocs == 0,
            m.tcache.total_size == 0,
    {
        let heap = PageHeap::new();
        let central = CentralCache::new();
        let tcache = ThreadCache::new();
        let m = TcMalloc { heap, central, tcache, live: Ghost(Map::empty()) };
        proof {
            assert forall|c: int| 1 <= c < NUM_SIZE_CLASSES
                implies #[trigger] m.central.bucket_wf(m.heap, c) by {
                assert(m.central.buckets@[c].nonempty.len() == 0);
                assert(m.central.buckets@[c].empty.len() == 0);
            }
            assert(m.central.wf(m.heap));
            assert(m.tcache.wf(m.heap));
        }
        m
    }
}

impl TcMalloc {
    /// Serve a request of `size` bytes aligned to `align`.  A zero-byte
    /// request gets the alignment value itself: a non-null sentinel that
    /// is never dereferenced and never owns memory.  Otherwise the address
    /// handed out is non-null, aligned, fresh — no live allocation
    /// contains it — and backed by at least `size` reserved writable
    /// bytes.  Fails only when every tier is exhausted, changing nothing.
    #[verifier::rlimit(100)]
    pub fn allocate(&mut self, size: usize, align: usize) -> (r: Option<usize>)
        requires
            old(self).wf(),
            is_pow2(align as int),
        ensures
            final(self).wf(),
            size == 0 ==> r == Some(align) && *final(self) == *old(self),
            r is None ==> *final(self) == *old(self) && size > 0
                && spec_exhausted(*old(self), size as int, align as int),
            size > 0 && !spec_exhausted(*old(self), size as int, align as int)
                ==> r is Some,
            size > 0 ==> (r matches Some(p) ==> {
                &&& p != 0
                &&& (p as int) % (align as int) == 0
                &&& !old(self).live@.dom().contains(p)
                &&& final(self).live@ == old(self).live@.insert(p, AllocInfo {
                    size,
                    align,
                    class: spec_request_class(size as int, align as int) as usize,
                })
                &&& size <= TcMalloc::usable_size(final(self).live@[p])
                &&& p + TcMalloc::usable_size(final(self).live@[p])
                    <= final(self).heap.mem.len()
                &&& final(self).heap.mem.len() >= old(self).heap.mem.len()
                &&& forall|b: int| 0 <= b < old(self).heap.mem.len()
                    ==> final(self).heap.mem@[b] == old(self).heap.mem@[b]
            }),
            // a large request takes a whole span of exactly the computed
            // page count
            size > 0 && spec_request_class(size as int, align as int) == 0
                ==> (r matches Some(p) ==>
                    final(self).heap.spans@[final(self).heap.owner_of(p)].num_pages
                        == spec_large_pages(size as int, align as int)),
            // warm small path: the pop is exact and the shared tiers are
            // untouched
            (size > 0 && spec_request_class(size as int, align as int) != 0
                && old(self).tcache.lists@[
                    spec_request_class(size as int, align as int)].objects.len() > 0)
                ==> {
                let c = spec_request_class(size as int, align as int);
                &&& r == Some(old(self).tcache.lists@[c].objects@.last())
                &&& final(self).heap == old(self).heap
                &&& final(self).central == old(self).central
                &&& final(self).tcache.lists@[c].objects@
                    == old(self).tcache.lists@[c].objects@.drop_last()
                &&& final(self).tcache.lists@[c].max_length
                    == old(self).tcache.lists@[c].max_length
                &&& (forall|c2: int| 0 <= c2 < NUM_SIZE_CLASSES && c2 != c
                    ==> final(self).tcache.lists@[c2] == old(self).tcache.lists@[c2])
                &&& final(self).tcache.total_size
                    == old(self).tcache.total_size - spec_class_size(c)
                &&& final(self).tcache.max_size == old(self).tcache.max_size
            },
    {
        if size == 0 {
            return Some(align);
        }
        let class = request_class(size, align);
        if class != 0 {
            let r = self.tcache.allocate(class, &mut self.central, &mut self.heap);
            match r {
                None => None,
                Some(p) => {
                    proof {
                        lemma_class_table_wf(class as int);
                        assert(self.tcache.user_owned(self.heap, p, class as int));
                        // freshness against the old live set
                        assert forall|a: usize| old(self).live@.dom().contains(a)
                            implies a != p by {
                            let inf = old(self).live@[a];
                            assert(old(self).live_entry_wf(a, inf));
                            if inf.class != 0 {
                                assert(old(self).tcache.user_owned(
                                    old(self).heap, a, inf.class as int));
                            } else {
                                let id0 = old(self).heap.owner_of(a);
                                assert(old(self).heap.spans@[id0].state
                                    == SpanState::Large);
                                lemma_large_placed_step(old(self).heap, self.heap,
                                    a, inf.size as int);
                                if a == p {
                                    assert(self.heap.owner_of(p) == id0);
                                    assert(self.heap.spans@[id0].state
                                        == SpanState::Small);
                                }
                            }
                        }
                        // the slot is aligned: the class size is a multiple
                        // of the alignment, and spans are page-aligned
                        if align <= 8 {
                            lemma_page_size_pow2();
                            lemma_pow2_divides(align as int, 8);
                            lemma_divides_through(align as int, 8,
                                spec_class_size(class as int));
                            lemma_size_to_class_fits(size as int);
                        } else {
                            lemma_size_to_class_fits(
                                if size >= align { size as int } else { align as int });
                        }
                        lemma_slot_aligned(self.heap, p, class as int, align as int);
                    }
                    self.live = Ghost(self.live@.insert(p,
                        AllocInfo { size, align, class }));
                    proof {
                        // the fresh slot lies whole inside reserved memory
                        let id = self.heap.owner_of(p);
                        let pg = p as int / (PAGE_SIZE as int);
                        assert(self.heap.page_owner_ok(pg));
                        assert(self.heap.wf_span(id));
                        let sp = self.heap.spans@[id];
                        lemma_slot_index(sp, p);
                        let k = sp.slot_index(p);
                        let csize = spec_class_size(class as int);
                        let cap = crate::size_class::spec_objects_per_span(class as int);
                        assert(p + csize <= sp.start_addr() + cap * csize)
                            by (nonlinear_arith)
                            requires
                                p == sp.start_addr() + k * csize,
                                k + 1 <= cap,
                                csize >= 0;
                        assert(cap * csize <= spec_class_pages(class as int) * PAGE_SIZE);
                        assert(sp.end_page() * PAGE_SIZE
                            <= self.heap.page_map.len() * PAGE_SIZE);
                        assert(p >= PAGE_SIZE) by {
                            assert(sp.start_addr() >= PAGE_SIZE);
                            assert(k * csize >= 0) by (nonlinear_arith)
                                requires k >= 0, csize >= 0;
                        }
                        // every old allocation is still accounted for
                        assert forall|a: usize| self.live@.dom().contains(a)
                            implies self.live_entry_wf(a, #[trigger] self.live@[a]) by {
                            if a != p {
                                let inf = old(self).live@[a];
                                assert(old(self).live_entry_wf(a, inf));
                                if inf.class != 0 {
                                    assert(old(self).tcache.user_owned(
                                        old(self).heap, a, inf.class as int));
                                } else {
                                    assert(old(self).heap.spans@[
                                        old(self).heap.owner_of(a)].state
                                        == SpanState::Large);
                                    lemma_large_placed_step(old(self).heap,
                                        self.heap, a, inf.size as int);
                                }
                            }
                        }
                    }
                    Some(p)
                },
            }
        } else {
            let pages = large_pages(size, align);
            let r0 = self.heap.allocate_span(pages);
            match r0 {
                None => None,
                Some(id) => {
                    let ghost hals = self.heap;
                    proof {
                        assert(self.heap.wf_span(id as int));
                    }
                    let start_page = self.heap.spans[id].start_page;
                    let num = self.heap.spans[id].num_pages;
                    proof {
                        assert(start_page + num <= MAX_PAGES);
                        assert(start_page * PAGE_SIZE + num * PAGE_SIZE
                            <= MAX_PAGES * PAGE_SIZE);
                    }
                    let start_addr = start_page * PAGE_SIZE;
                    let ghost al = align as int;
                    let p: usize;
                    if align > PAGE_SIZE {
                        proof {
                            // room to offset: the span carries align / PAGE_SIZE
                            // extra pages, and the alignment is page-granular
                            lemma_page_size_pow2();
                            lemma_pow2_divides(PAGE_SIZE as int, al);
                            vstd::arithmetic::div_mod::lemma_fundamental_div_mod(
                                al, PAGE_SIZE as int);
                            assert(al == (al / (PAGE_SIZE as int)) * PAGE_SIZE);
                            assert(al / (PAGE_SIZE as int) <= num);
                            assert((al / (PAGE_SIZE as int)) * PAGE_SIZE
                                <= num * PAGE_SIZE) by (nonlinear_arith)
                                requires al / (PAGE_SIZE as int) <= num;
                            assert(al <= num * PAGE_SIZE);
                            assert(num * PAGE_SIZE <= MAX_PAGES * PAGE_SIZE);
                            vstd::arithmetic::div_mod::lemma_mod_pos_bound(
                                start_addr as int, al);
                        }
                        let rem = start_addr % align;
                        if rem == 0 {
                            p = start_addr;
                        } else {
                            p = start_addr + (align - rem);
                        }
                        proof {
                            vstd::arithmetic::div_mod::lemma_fundamental_div_mod(
                                start_addr as int, al);
                            let qa = (start_addr as int) / al;
                            if start_addr % align == 0 {
                                assert(p as int == qa * al) by (nonlinear_arith)
                                    requires p == al * qa + 0;
                                vstd::arithmetic::div_mod::lemma_mod_multiples_basic(
                                    qa, al);
                                assert((qa * al) % al == 0);
                                assert((p as int) % al == 0);
                            } else {
                                assert(p as int == (qa + 1) * al) by (nonlinear_arith)
                                    requires
                                        start_addr as int == al * qa
                                            + (start_addr as int) % al,
                                        p as int == start_addr as int + al
                                            - (start_addr as int) % al;
                                vstd::arithmetic::div_mod::lemma_mod_multiples_basic(
                                    qa + 1, al);
                                assert(((qa + 1) * al) % al == 0);
                                assert((p as int) % al == 0);
                            }
                        }
                    } else {
                        p = start_addr;
                        proof {
                            lemma_page_size_pow2();
                            lemma_pow2_divides(al, PAGE_SIZE as int);
                            let qp = (PAGE_SIZE as int) / al;
                            vstd::arithmetic::div_mod::lemma_fundamental_div_mod(
                                PAGE_SIZE as int, al);
                            assert(p as int == (start_page * qp) * al)
                                by (nonlinear_arith)
                                requires
                                    p == start_page * (PAGE_SIZE as int),
                                    PAGE_SIZE as int == al * qp + 0;
                            vstd::arithmetic::div_mod::lemma_mod_multiples_basic(
                                start_page * qp, al);
                            assert(((start_page * qp) * al) % al == 0);
                            assert((p as int) % al == 0);
                        }
                    }
                    proof {
                        assert((p as int) % al == 0);
                        // the request fits between the handed-out address
                        // and the span's end
                        lemma_ceil_div(size as int);
                        let base = (size as int + PAGE_SIZE - 1) / (PAGE_SIZE as int);
                        assert(base * PAGE_SIZE + (pages - base) * PAGE_SIZE
                            == pages * PAGE_SIZE) by (nonlinear_arith);
                        if align > PAGE_SIZE {
                            assert((al / (PAGE_SIZE as int)) * PAGE_SIZE
                                <= (pages - base) * PAGE_SIZE) by (nonlinear_arith)
                                requires al / (PAGE_SIZE as int) <= pages - base;
                        }
                        assert(p + size <= start_addr + num * PAGE_SIZE);
                    }
                    self.heap.spans.set(id, crate::span::Span {
                        state: SpanState::Large,
                        start_page,
                        num_pages: num,
                        size_class: 0,
                        free_objects: Vec::new(),
                        alloc_addr: p,
                    });
                    proof {
                        crate::page_heap::lemma_replace_span_wf(hals, self.heap,
                            id as int);
                        // small spans are untouched through both steps
                        assert forall|j: int| 0 <= j < old(self).heap.spans.len()
                            && (#[trigger] old(self).heap.spans@[j]).state
                                == SpanState::Small
                            implies self.heap.spans@[j] == old(self).heap.spans@[j] by {
                            assert(hals.spans@[j] == old(self).heap.spans@[j]);
                            assert(j != id);
                        }
                        assert forall|j: int| 0 <= j < self.heap.spans.len()
                            && (#[trigger] self.heap.spans@[j]).state == SpanState::Small
                            implies 0 <= j < old(self).heap.spans.len()
                                && old(self).heap.spans@[j].state == SpanState::Small by {
                            assert(j != id);
                            assert(hals.spans@[j] == self.heap.spans@[j]);
                            if j >= old(self).heap.spans.len() {
                                assert(hals.spans@[j].state == SpanState::Free);
                            }
                        }
                        lemma_central_wf_frame(self.central, old(self).heap, self.heap);
                        assert forall|c2: int| 0 <= c2 < NUM_SIZE_CLASSES
                            implies #[trigger] self.tcache.list_wf(self.heap, c2) by {
                            assert(old(self).tcache.list_wf(old(self).heap, c2));
                            assert forall|k: int|
                                0 <= k < self.tcache.lists@[c2].objects.len()
                                implies self.heap.checked_out(
                                    #[trigger] self.tcache.lists@[c2].objects@[k],
                                    c2) by {
                                lemma_checked_out_preserved(old(self).heap, self.heap,
                                    self.tcache.lists@[c2].objects@[k], c2);
                            }
                        }
                        assert(self.tcache.wf(self.heap));
                        // the span's pages were free or fresh, so no live
                        // allocation lies there
                        let pg = p as int / (PAGE_SIZE as int);
                        assert(self.heap.spans@[id as int].contains_page(pg)) by {
                            lemma_addr_page_range(p as int, start_page as int,
                                start_page + num);
                        }
                        assert(self.heap.wf_span(id as int));
                        assert(self.heap.page_map@[pg] as int == id);
                        assert(old(self).heap.page_free_or_new(pg)) by {
                            assert(hals.spans@[id as int].contains_page(pg));
                        }
                        assert forall|a: usize| old(self).live@.dom().contains(a)
                            implies a != p by {
                            let inf = old(self).live@[a];
                            assert(old(self).live_entry_wf(a, inf));
                            if a == p {
                                if inf.class != 0 {
                                    assert(old(self).heap.checked_out(a, inf.class as int));
                                    assert(old(self).heap.spans@[
                                        old(self).heap.owner_of(a)].state
                                        == SpanState::Small);
                                } else {
                                    assert(old(self).heap.spans@[
                                        old(self).heap.owner_of(a)].state
                                        == SpanState::Large);
                                }
                            }
                        }
                    }
                    self.live = Ghost(self.live@.insert(p,
                        AllocInfo { size, align, class: 0 }));
                    proof {
                        assert forall|a: usize| self.live@.dom().contains(a)
                            implies self.live_entry_wf(a, #[trigger] self.live@[a]) by {
                            if a != p {
                                let inf = old(self).live@[a];
                                assert(old(self).live_entry_wf(a, inf));
                                if inf.class != 0 {
                                    assert(old(self).tcache.user_owned(
                                        old(self).heap, a, inf.class as int));
                                    lemma_checked_out_preserved(old(self).heap,
                                        self.heap, a, inf.class as int);
                                } else {
                                    let ido = old(self).heap.owner_of(a);
                                    assert(old(self).heap.spans@[ido].state
                                        == SpanState::Large);
                                    assert(ido != id as int) by {
                                        if (id as int) < old(self).heap.spans.len() {
                                            assert(old(self).heap.spans@[id as int].state
                                                == SpanState::Free);
                                        }
                                    }
                                    assert(hals.spans@[ido]
                                        == old(self).heap.spans@[ido]);
                                    assert(self.heap.spans@[ido]
                                        == old(self).heap.spans@[ido]);
                                    lemma_large_placed_step(old(self).heap,
                                        self.heap, a, inf.size as int);
                                }
                            } else {
                                assert((p as int) % al == 0);
                                assert(p >= PAGE_SIZE) by {
                                    assert(start_addr >= PAGE_SIZE);
                                }
                                assert(large_placed(self.heap, p, size as int)) by {
                                    assert(self.heap.owner_of(p) == id);
                                    assert(self.heap.spans@[id as int].end_addr()
                                        == start_addr + num * PAGE_SIZE);
                                }
                            }
                        }
                        assert(p + size <= self.heap.mem.len()) by {
                            assert(self.heap.spans@[id as int].end_page()
                                <= self.heap.page_map.len());
                            assert(self.heap.spans@[id as int].end_page() * PAGE_SIZE
                                <= self.heap.page_map.len() * PAGE_SIZE);
                        }
                    }
                    Some(p)
                },
            }
        }
    }
}

impl TcMalloc {
    /// Return an allocation.  A zero-byte request was served by the
    /// sentinel and frees nothing.  Otherwise `(size, align)` must be the
    /// pair the allocation was made with: a small object goes back to the
    /// thread cache under its class, a large one hands its whole span
    /// back to the page heap, where it coalesces with free neighbours.
    /// Memory contents are untouched.
    pub fn dealloc(&mut self, p: usize, size: usize, align: usize)
        requires
            old(self).wf(),
            size > 0 ==> old(self).live@.dom().contains(p)
                && old(self).live@[p].size == size
                && old(self).live@[p].align == align,
        ensures
            final(self).wf(),
            size == 0 ==> *final(self) == *old(self),
            size > 0 ==> final(self).live@ == old(self).live@.remove(p),
            final(self).heap.mem@ == old(self).heap.mem@,
            final(self).heap.page_map.len() == old(self).heap.page_map.len(),
            final(self).heap.spans.len() == old(self).heap.spans.len(),
            // a freed large allocation's span goes back to the free pool
            size > 0 && old(self).live@[p].class == 0
                ==> final(self).heap.page_free_or_new((p as int) / (PAGE_SIZE as int)),
            // a freed small object is parked in the thread cache or home
            // at the central tier: nobody holds it any more
            size > 0 && old(self).live@[p].class != 0
                ==> !final(self).tcache.user_owned(final(self).heap, p,
                    old(self).live@[p].class as int),
            // warm small path: under both thread-cache bounds the push is
            // exact and the shared tiers are untouched
            (size > 0 && old(self).live@[p].class != 0
                && old(self).tcache.lists@[old(self).live@[p].class as int]
                    .objects.len() + 1
                    <= old(self).tcache.lists@[old(self).live@[p].class as int]
                        .max_length
                && old(self).tcache.total_size
                    + spec_class_size(old(self).live@[p].class as int)
                    <= old(self).tcache.max_size) ==> {
                let c = old(self).live@[p].class as int;
                &&& final(self).heap == old(self).heap
                &&& final(self).central == old(self).central
                &&& final(self).tcache.lists@[c].objects@
                    == old(self).tcache.lists@[c].objects@.push(p)
                &&& final(self).tcache.lists@[c].max_length
                    == old(self).tcache.lists@[c].max_length
                &&& (forall|c2: int| 0 <= c2 < NUM_SIZE_CLASSES && c2 != c
                    ==> final(self).tcache.lists@[c2] == old(self).tcache.lists@[c2])
                &&& final(self).tcache.total_size
                    == old(self).tcache.total_size + spec_class_size(c)
                &&& final(self).tcache.max_size == old(self).tcache.max_size
            },
    {
        if size == 0 {
            return;
        }
        let ghost info = self.live@[p];
        proof {
            assert(self.live_entry_wf(p, info));
            lemma_exec_page(p);
            assert(self.heap.page_owner_ok(p as int / (PAGE_SIZE as int)));
            assert(self.heap.wf_span(self.heap.owner_of(p)));
        }
        // the block's class is whatever its span was carved for: after an
        // in-place shrink the requested size alone no longer names it
        let pg = p / PAGE_SIZE;
        let id = self.heap.page_map[pg];
        let class = self.heap.spans[id].size_class;
        proof {
            assert(self.heap.owner_of(p) == id);
            assert(class == info.class) by {
                if info.class == 0 {
                    assert(self.heap.spans@[id as int].state == SpanState::Large);
                    assert(self.heap.spans@[id as int].fields_wf());
                }
            }
        }
        if class != 0 {
            proof {
                assert(self.tcache.user_owned(self.heap, p, class as int));
            }
            self.live = Ghost(self.live@.remove(p));
            self.tcache.deallocate(p, class, &mut self.central, &mut self.heap);
            proof {
                assert forall|a: usize| self.live@.dom().contains(a)
                    implies self.live_entry_wf(a, #[trigger] self.live@[a]) by {
                    let inf = old(self).live@[a];
                    assert(old(self).live_entry_wf(a, inf));
                    assert(a != p);
                    if inf.class != 0 {
                        assert(old(self).tcache.user_owned(
                            old(self).heap, a, inf.class as int));
                    } else {
                        assert(old(self).heap.spans@[
                            old(self).heap.owner_of(a)].state == SpanState::Large);
                        lemma_large_placed_step(old(self).heap, self.heap,
                            a, inf.size as int);
                    }
                }
            }
        } else {
            proof {
                assert(large_placed(self.heap, p, size as int));
            }
            self.live = Ghost(self.live@.remove(p));
            let ghost hpre = self.heap;
            self.heap.deallocate_span(id);
            proof {
                assert(self.heap.page_free_or_new(pg as int)) by {
                    assert(self.heap.wf_span(id as int));
                    assert(self.heap.spans@[id as int].contains_page(pg as int));
                    assert(self.heap.page_map@[pg as int] as int == id);
                }
                lemma_central_wf_frame(self.central, hpre, self.heap);
                assert forall|c2: int| 0 <= c2 < NUM_SIZE_CLASSES
                    implies #[trigger] self.tcache.list_wf(self.heap, c2) by {
                    assert(old(self).tcache.list_wf(hpre, c2));
                    assert forall|k: int|
                        0 <= k < self.tcache.lists@[c2].objects.len()
                        implies self.heap.checked_out(
                            #[trigger] self.tcache.lists@[c2].objects@[k], c2) by {
                        let a = self.tcache.lists@[c2].objects@[k];
                        assert(hpre.checked_out(a, c2));
                        assert(hpre.owner_of(a) != id as int) by {
                            assert(hpre.spans@[id as int].state == SpanState::Large);
                        }
                        lemma_checked_out_preserved_except(hpre, self.heap,
                            a, c2, id as int);
                    }
                }
                assert(self.tcache.wf(self.heap));
                assert forall|a: usize| self.live@.dom().contains(a)
                    implies self.live_entry_wf(a, #[trigger] self.live@[a]) by {
                    let inf = old(self).live@[a];
                    assert(old(self).live_entry_wf(a, inf));
                    assert(a != p);
                    if inf.class != 0 {
                        assert(old(self).tcache.user_owned(
                            hpre, a, inf.class as int));
                        assert(hpre.owner_of(a) != id as int) by {
                            assert(hpre.spans@[id as int].state == SpanState::Large);
                        }
                        lemma_checked_out_preserved_except(hpre, self.heap,
                            a, inf.class as int, id as int);
                    } else {
                        let ido = hpre.owner_of(a);
                        assert(ido != id as int) by {
                            if ido == id as int {
                                assert(hpre.spans@[id as int].alloc_addr == a);
                                assert(hpre.spans@[id as int].alloc_addr == p);
                            }
                        }
                        assert(self.heap.spans@[ido] == hpre.spans@[ido]);
                        lemma_large_placed_step(hpre, self.heap, a, inf.size as int);
                    }
                }
            }
        }
    }

    /// Write one byte within a live allocation.
    pub fn write_byte(&mut self, p: usize, offset: usize, val: u8)
        requires
            old(self).wf(),
            old(self).live@.dom().contains(p),
            offset < TcMalloc::usable_size(old(self).live@[p]),
        ensures
            final(self).wf(),
            final(self).live@ == old(self).live@,
            final(self).heap.mem@ == old(self).heap.mem@.update(p + offset, val),
            final(self).heap.spans@ == old(self).heap.spans@,
            final(self).heap.page_map@ == old(self).heap.page_map@,
            final(self).central == old(self).central,
            final(self).tcache == old(self).tcache,
    {
        proof {
            lemma_live_in_reserved(*self, p);
        }
        self.heap.write_byte(p + offset, val);
        proof {
            lemma_wf_after_mem_step(*old(self), *self);
        }
    }

    /// Read one byte within a live allocation.
    pub fn read_byte(&self, p: usize, offset: usize) -> (r: u8)
        requires
            self.wf(),
            self.live@.dom().contains(p),
            offset < TcMalloc::usable_size(self.live@[p]),
        ensures
            r == self.heap.mem@[p + offset],
    {
        proof {
            lemma_live_in_reserved(*self, p);
        }
        self.heap.read_byte(p + offset)
    }
}

/// The new placement of a reallocation that stays where it is: a small
/// allocation whose new size still fits the block's class — the same
/// class, or a shrink within the slot — or a large one whose new size
/// still fits before its span's end.
pub open spec fn spec_realloc_in_place(m: TcMalloc, p: usize, new_size: int) -> bool {
    let info = m.live@[p];
    if info.class != 0 {
        new_size <= spec_class_size(info.class as int)
    } else {
        p + new_size <= m.heap.spans@[m.heap.owner_of(p)].end_addr()
    }
}

impl TcMalloc {
    /// Serve a request and zero its bytes: objects reused from free lists
    /// keep stale contents, so the zeroing is explicit.
    pub fn alloc_zeroed(&mut self, size: usize, align: usize) -> (r: Option<usize>)
        requires
            old(self).wf(),
            is_pow2(align as int),
        ensures
            final(self).wf(),
            size == 0 ==> r == Some(align) && *final(self) == *old(self),
            r is None ==> *final(self) == *old(self) && size > 0
                && spec_exhausted(*old(self), size as int, align as int),
            size > 0 && !spec_exhausted(*old(self), size as int, align as int)
                ==> r is Some,
            size > 0 ==> (r matches Some(p) ==> {
                &&& p != 0
                &&& (p as int) % (align as int) == 0
                &&& !old(self).live@.dom().contains(p)
                &&& final(self).live@ == old(self).live@.insert(p, AllocInfo {
                    size,
                    align,
                    class: spec_request_class(size as int, align as int) as usize,
                })
                &&& size <= TcMalloc::usable_size(final(self).live@[p])
                &&& p + TcMalloc::usable_size(final(self).live@[p])
                    <= final(self).heap.mem.len()
                &&& forall|i: int| 0 <= i < size ==> #[trigger] final(self).heap.mem@[p + i] == 0
            }),
            // warm small path: the same pop `allocate` pins, with only the
            // returned object's bytes changed
            (size > 0 && spec_request_class(size as int, align as int) != 0
                && old(self).tcache.lists@[
                    spec_request_class(size as int, align as int)].objects.len() > 0)
                ==> {
                let c = spec_request_class(size as int, align as int);
                let a = old(self).tcache.lists@[c].objects@.last();
                &&& r == Some(a)
                &&& final(self).heap.spans@ == old(self).heap.spans@
                &&& final(self).heap.page_map@ == old(self).heap.page_map@
                &&& final(self).heap.mem.len() == old(self).heap.mem.len()
                &&& (forall|b: int| #![trigger final(self).heap.mem@[b]]
                    0 <= b < final(self).heap.mem.len() && !(a <= b < a + size)
                    ==> final(self).heap.mem@[b] == old(self).heap.mem@[b])
                &&& final(self).central == old(self).central
                &&& final(self).tcache.lists@[c].objects@
                    == old(self).tcache.lists@[c].objects@.drop_last()
                &&& final(self).tcache.lists@[c].max_length
                    == old(self).tcache.lists@[c].max_length
                &&& (forall|c2: int| 0 <= c2 < NUM_SIZE_CLASSES && c2 != c
                    ==> final(self).tcache.lists@[c2] == old(self).tcache.lists@[c2])
                &&& final(self).tcache.total_size
                    == old(self).tcache.total_size - spec_class_size(c)
                &&& final(self).tcache.max_size == old(self).tcache.max_size
            },
    {
        let r = self.allocate(size, align);
        if size == 0 {
            return r;
        }
        match r {
            None => None,
            Some(p) => {
                let ghost mid = *self;
                proof {
                    lemma_live_in_reserved(mid, p);
                }
                let mut i: usize = 0;
                while i < size
                    invariant
                        i <= size,
                        self.wf(),
                        mid.wf(),
                        self.live@ == mid.live@,
                        mid.live@.dom().contains(p),
                        size <= TcMalloc::usable_size(mid.live@[p]),
                        self.live@[p] == mid.live@[p],
                        self.heap.spans@ == mid.heap.spans@,
                        self.heap.page_map@ == mid.heap.page_map@,
                        self.central == mid.central,
                        self.tcache == mid.tcache,
                        self.heap.mem.len() == mid.heap.mem.len(),
                        forall|b: int| #![trigger self.heap.mem@[b]]
                            0 <= b < self.heap.mem.len() && !(p <= b < p + i)
                            ==> self.heap.mem@[b] == mid.heap.mem@[b],
                        forall|b: int| #![trigger self.heap.mem@[b]]
                            p <= b < p + i ==> self.heap.mem@[b] == 0,
                        p + size <= self.heap.mem.len(),
                    decreases size - i,
                {
                    let ghost before = *self;
                    self.write_byte(p, i, 0);
                    i = i + 1;
                    proof {
                        assert forall|b: int| #![trigger self.heap.mem@[b]]
                            0 <= b < self.heap.mem.len() && !(p <= b < p + i)
                            implies self.heap.mem@[b] == mid.heap.mem@[b] by {
                            assert(self.heap.mem@[b] == before.heap.mem@[b]);
                        }
                    }
                }
                proof {
                    lemma_live_in_reserved(mid, p);
                }
                Some(p)
            },
        }
    }

    /// Resize an allocation.  A null or zero-sized old allocation makes
    /// this a plain allocation; a zero new size frees the old one and
    /// returns the sentinel.  When the new size is served by the current
    /// placement — the same size class, or a large span with room — the
    /// address comes back unchanged; otherwise a new allocation is made,
    /// the lesser of the two sizes copied over, and the old allocation
    /// freed.  The original stays intact when the new allocation fails.
    pub fn realloc(&mut self, p: usize, size: usize, align: usize, new_size: usize)
        -> (r: Option<usize>)
        requires
            old(self).wf(),
            is_pow2(align as int),
            p != 0 && size > 0 ==> old(self).live@.dom().contains(p)
                && old(self).live@[p].size == size
                && old(self).live@[p].align == align,
        ensures
            final(self).wf(),
            r is None ==> *final(self) == *old(self),
            // null only out of memory: a failed reallocation means the new
            // request found every tier exhausted
            r is None ==> new_size > 0
                && spec_exhausted(*old(self), new_size as int, align as int),
            (p == 0 || size == 0) && new_size > 0 ==> (r matches Some(q) ==> {
                &&& q != 0
                &&& (q as int) % (align as int) == 0
                &&& !old(self).live@.dom().contains(q)
                &&& final(self).live@ == old(self).live@.insert(q, AllocInfo {
                    size: new_size,
                    align,
                    class: spec_request_class(new_size as int, align as int) as usize,
                })
            }),
            (p == 0 || size == 0) && new_size == 0
                ==> r == Some(align) && *final(self) == *old(self),
            p != 0 && size > 0 && new_size == 0
                ==> r == Some(align) && final(self).live@ == old(self).live@.remove(p)
                    && final(self).heap.mem@ == old(self).heap.mem@,
            p != 0 && size > 0 && new_size > 0
                && spec_realloc_in_place(*old(self), p, new_size as int)
                ==> {
                &&& r == Some(p)
                &&& final(self).heap == old(self).heap
                &&& final(self).central == old(self).central
                &&& final(self).tcache == old(self).tcache
                &&& final(self).live@ == old(self).live@.insert(p, AllocInfo {
                    size: new_size,
                    align,
                    class: old(self).live@[p].class,
                })
            },
            p != 0 && size > 0 && new_size > 0
                && !spec_realloc_in_place(*old(self), p, new_size as int)
                ==> (r matches Some(q) ==> {
                &&& q != p
                &&& !old(self).live@.dom().contains(q)
                &&& (q as int) % (align as int) == 0
                &&& final(self).live@ == old(self).live@.remove(p).insert(q, AllocInfo {
                    size: new_size,
                    align,
                    class: spec_request_class(new_size as int, align as int) as usize,
                })
                &&& forall|i: int| 0 <= i < (if size <= new_size { size as int } else { new_size as int })
                    ==> #[trigger] final(self).heap.mem@[q + i] == old(self).heap.mem@[p + i]
            }),
    {
        if p == 0 || size == 0 {
            return self.allocate(new_size, align);
        }
        if new_size == 0 {
            self.dealloc(p, size, align);
            return Some(align);
        }
        let ghost info = self.live@[p];
        proof {
            assert(self.live_entry_wf(p, info));
            lemma_exec_page(p);
            assert(self.heap.page_owner_ok(p as int / (PAGE_SIZE as int)));
            assert(self.heap.wf_span(self.heap.owner_of(p)));
        }
        // the block's class comes from its span: after an earlier in-place
        // shrink the requested size alone no longer names it
        let pg = p / PAGE_SIZE;
        let id = self.heap.page_map[pg];
        let old_class = self.heap.spans[id].size_class;
        proof {
            assert(self.heap.owner_of(p) == id);
            assert(old_class == info.class) by {
                if info.class == 0 {
                    assert(self.heap.spans@[id as int].state == SpanState::Large);
                    assert(self.heap.spans@[id as int].fields_wf());
                }
            }
        }
        if old_class != 0 {
            let cur = class_to_size(old_class);
            if new_size <= cur {
                // the new size still fits the block's slot: stay in place
                self.live = Ghost(self.live@.insert(p, AllocInfo {
                    size: new_size,
                    align,
                    class: old_class,
                }));
                proof {
                    assert forall|a: usize| self.live@.dom().contains(a)
                        implies self.live_entry_wf(a, #[trigger] self.live@[a]) by {
                        if a != p {
                            assert(old(self).live_entry_wf(a, old(self).live@[a]));
                        }
                    }
                }
                return Some(p);
            }
        } else {
            proof {
                assert(large_placed(self.heap, p, size as int));
                assert(self.heap.spans@[id as int].end_page()
                    <= self.heap.page_map.len());
                assert(self.heap.spans@[id as int].end_page() * PAGE_SIZE
                    <= self.heap.page_map.len() * PAGE_SIZE);
                assert(self.heap.page_map.len() * PAGE_SIZE
                    <= MAX_PAGES * PAGE_SIZE);
            }
            let end_page = self.heap.spans[id].start_page + self.heap.spans[id].num_pages;
            let end_addr = end_page * PAGE_SIZE;
            if new_size <= end_addr - p {
                // the span still has room past the handed-out address:
                // stay in place
                self.live = Ghost(self.live@.insert(p, AllocInfo {
                    size: new_size,
                    align,
                    class: 0,
                }));
                proof {
                    assert forall|a: usize| self.live@.dom().contains(a)
                        implies self.live_entry_wf(a, #[trigger] self.live@[a]) by {
                        if a != p {
                            assert(old(self).live_entry_wf(a, old(self).live@[a]));
                        } else {
                            assert(large_placed(self.heap, p, new_size as int));
                        }
                    }
                }
                return Some(p);
            }
        }
        // allocate anew, copy the surviving bytes, free the old block
        let ghost pre = *self;
        let r2 = self.allocate(new_size, align);
        match r2 {
            None => None,
            Some(q) => {
                let copy = if size < new_size { size } else { new_size };
                let ghost mid = *self;
                proof {
                    assert(mid.live@.dom().contains(p));
                    assert(mid.live@[p] == info);
                    lemma_live_in_reserved(mid, p);
                    lemma_live_in_reserved(mid, q);
                    lemma_live_disjoint(mid, p, q);
                    assert(copy <= TcMalloc::usable_size(mid.live@[p]));
                    assert(copy <= TcMalloc::usable_size(mid.live@[q]));
                }
                let mut i: usize = 0;
                while i < copy
                    invariant
                        i <= copy,
                        p != q,
                        mid.wf(),
                        self.wf(),
                        self.live@ == mid.live@,
                        mid.live@.dom().contains(p),
                        mid.live@.dom().contains(q),
                        self.live@[p] == mid.live@[p],
                        self.live@[q] == mid.live@[q],
                        copy <= TcMalloc::usable_size(mid.live@[p]),
                        copy <= TcMalloc::usable_size(mid.live@[q]),
                        p + TcMalloc::usable_size(mid.live@[p]) <= q
                            || q + TcMalloc::usable_size(mid.live@[q]) <= p,
                        p + copy <= self.heap.mem.len(),
                        q + copy <= self.heap.mem.len(),
                        self.heap.spans@ == mid.heap.spans@,
                        self.heap.page_map@ == mid.heap.page_map@,
                        self.central == mid.central,
                        self.tcache == mid.tcache,
                        self.heap.mem.len() == mid.heap.mem.len(),
                        forall|b: int| 0 <= b < self.heap.mem.len() && !(q <= b < q + i)
                            ==> self.heap.mem@[b] == mid.heap.mem@[b],
                        forall|j: int| 0 <= j < i
                            ==> #[trigger] self.heap.mem@[q + j] == mid.heap.mem@[p + j],
                    decreases copy - i,
                {
                    let b = self.read_byte(p, i);
                    self.write_byte(q, i, b);
                    i = i + 1;
                }
                let ghost postcopy = *self;
                self.dealloc(p, size, align);
                proof {
                    assert(final(self).live@ =~= old(self).live@.remove(p).insert(q,
                        AllocInfo {
                            size: new_size,
                            align,
                            class: spec_request_class(new_size as int, align as int)
                                as usize,
                        }));
                    // the copied range of the source was never overwritten
                    assert forall|i2: int| 0 <= i2 < copy
                        implies #[trigger] final(self).heap.mem@[q + i2]
                            == old(self).heap.mem@[p + i2] by {
                        assert(postcopy.heap.mem@[q + i2] == mid.heap.mem@[p + i2]);
                        assert(mid.heap.mem@[p + i2] == old(self).heap.mem@[p + i2]) by {
                            lemma_live_in_reserved(pre, p);
                        }
                    }
                }
                Some(q)
            },
        }
    }
}

impl TcMalloc {
    /// Allocating and immediately freeing returns the allocator to the
    /// state it started in, observably: the same reserved pages and span
    /// records, the same central lists, the same cached objects and byte
    /// counts, and the same live set.  Stated here for a small request
    /// whose class is warm in the thread cache and whose byte counter is
    /// under its cap, so neither a refill nor a release intervenes; a
    /// cold pair instead leaves the warmed-up cache behind.
    pub fn alloc_free_round_trip(&mut self, size: usize, align: usize)
        requires
            old(self).wf(),
            is_pow2(align as int),
            1 <= size,
            spec_request_class(size as int, align as int) != 0,
            old(self).tcache.lists@[
                spec_request_class(size as int, align as int)].objects.len() > 0,
            old(self).tcache.total_size <= old(self).tcache.max_size,
        ensures
            final(self).wf(),
            final(self).heap == old(self).heap,
            final(self).central == old(self).central,
            final(self).live@ == old(self).live@,
            final(self).tcache.total_size == old(self).tcache.total_size,
            final(self).tcache.max_size == old(self).tcache.max_size,
            forall|c2: int| 0 <= c2 < NUM_SIZE_CLASSES ==> {
                &&& (#[trigger] final(self).tcache.lists@[c2]).objects@
                    == old(self).tcache.lists@[c2].objects@
                &&& final(self).tcache.lists@[c2].max_length
                    == old(self).tcache.lists@[c2].max_length
            },
    {
        let ghost c = spec_request_class(size as int, align as int);
        proof {
            if align <= 8 {
                if size <= crate::size_class::MAX_SMALL_SIZE {
                    lemma_size_to_class_fits(size as int);
                }
            } else {
                let eff: int = if size >= align { size as int } else { align as int };
                if eff <= crate::size_class::MAX_SMALL_SIZE {
                    lemma_size_to_class_fits(eff);
                }
            }
            assert(1 <= c < NUM_SIZE_CLASSES);
            assert(old(self).tcache.list_wf(old(self).heap, c));
        }
        let r = self.allocate(size, align);
        let p = match r {
            Some(p) => p,
            None => {
                proof {
                    assert(false);
                }
                0
            },
        };
        self.dealloc(p, size, align);
        proof {
            let objs0 = old(self).tcache.lists@[c].objects@;
            assert(objs0.drop_last().push(objs0.last()) =~= objs0);
            assert(final(self).live@ =~= old(self).live@);
            assert forall|c2: int| 0 <= c2 < NUM_SIZE_CLASSES implies {
                &&& (#[trigger] final(self).tcache.lists@[c2]).objects@
                    == old(self).tcache.lists@[c2].objects@
                &&& final(self).tcache.lists@[c2].max_length
                    == old(self).tcache.lists@[c2].max_length
            } by {}
        }
    }
}

/// Exec and spec page computations agree.
proof fn lemma_exec_page(p: usize)
    ensures
        p / PAGE_SIZE == p as int / (PAGE_SIZE as int),
{
    vstd::arithmetic::div_mod::lemma_div_pos_is_pos(p as int, PAGE_SIZE as int);
}

/// Every live allocation's usable bytes lie inside reserved memory, and
/// its address is non-null.
pub proof fn lemma_live_in_reserved(m: TcMalloc, p: usize)
    requires
        m.wf(),
        m.live@.dom().contains(p),
    ensures
        p + TcMalloc::usable_size(m.live@[p]) <= m.heap.mem.len(),
        p >= PAGE_SIZE,
{
    let info = m.live@[p];
    assert(m.live_entry_wf(p, info));
    if info.class != 0 {
        let c = info.class as int;
        lemma_class_table_wf(c);
        let id = m.heap.owner_of(p);
        let pg = p as int / (PAGE_SIZE as int);
        assert(m.heap.page_owner_ok(pg));
        assert(m.heap.wf_span(id));
        let sp = m.heap.spans@[id];
        lemma_slot_index(sp, p);
        let k = sp.slot_index(p);
        let csize = spec_class_size(c);
        let cap = crate::size_class::spec_objects_per_span(c);
        assert(p + csize <= sp.start_addr() + cap * csize) by (nonlinear_arith)
            requires
                p == sp.start_addr() + k * csize,
                k + 1 <= cap,
                csize >= 0;
        assert(cap * csize <= spec_class_pages(c) * PAGE_SIZE);
        assert(sp.end_page() * PAGE_SIZE <= m.heap.page_map.len() * PAGE_SIZE);
        assert(k * csize >= 0) by (nonlinear_arith)
            requires k >= 0, csize >= 0;
        assert(sp.start_addr() >= PAGE_SIZE);
    } else {
        let id = m.heap.owner_of(p);
        assert(m.heap.page_owner_ok(p as int / (PAGE_SIZE as int)));
        assert(m.heap.wf_span(id));
        assert(m.heap.spans@[id].end_page() * PAGE_SIZE
            <= m.heap.page_map.len() * PAGE_SIZE);
        assert(m.heap.spans@[id].start_addr() >= PAGE_SIZE);
    }
}

/// A step that only touches memory contents leaves the allocator
/// well-formed: no span, page-map entry, cache list or live record reads
/// the bytes.
proof fn lemma_wf_after_mem_step(m0: TcMalloc, m1: TcMalloc)
    requires
        m0.wf(),
        m1.heap.spans@ == m0.heap.spans@,
        m1.heap.page_map@ == m0.heap.page_map@,
        m1.heap.mem.len() == m0.heap.mem.len(),
        m1.heap.wf(),
        m1.central == m0.central,
        m1.tcache == m0.tcache,
        m1.live == m0.live,
    ensures
        m1.wf(),
{
    lemma_central_wf_frame(m1.central, m0.heap, m1.heap);
    assert forall|c2: int| 0 <= c2 < NUM_SIZE_CLASSES
        implies #[trigger] m1.tcache.list_wf(m1.heap, c2) by {
        assert(m0.tcache.list_wf(m0.heap, c2));
        assert forall|k: int| 0 <= k < m1.tcache.lists@[c2].objects.len()
            implies m1.heap.checked_out(
                #[trigger] m1.tcache.lists@[c2].objects@[k], c2) by {
            lemma_checked_out_preserved(m0.heap, m1.heap,
                m1.tcache.lists@[c2].objects@[k], c2);
        }
    }
    assert(m1.tcache.wf(m1.heap));
    assert forall|a: usize| m1.live@.dom().contains(a)
        implies m1.live_entry_wf(a, #[trigger] m1.live@[a]) by {
        let inf = m0.live@[a];
        assert(m0.live_entry_wf(a, inf));
        if inf.class != 0 {
            lemma_checked_out_preserved(m0.heap, m1.heap, a, inf.class as int);
        } else {
            assert(m0.heap.spans@[m0.heap.owner_of(a)].state == SpanState::Large);
            lemma_large_placed_step(m0.heap, m1.heap, a, inf.size as int);
        }
    }
}

/// No two live allocations overlap: their usable byte ranges are
/// disjoint.
pub proof fn lemma_live_disjoint(m: TcMalloc, p1: usize, p2: usize)
    requires
        m.wf(),
        m.live@.dom().contains(p1),
        m.live@.dom().contains(p2),
        p1 != p2,
    ensures
        p1 + TcMalloc::usable_size(m.live@[p1]) <= p2
            || p2 + TcMalloc::usable_size(m.live@[p2]) <= p1,
{
    let i1 = m.live@[p1];
    let i2 = m.live@[p2];
    assert(m.live_entry_wf(p1, i1));
    assert(m.live_entry_wf(p2, i2));
    let id1 = m.heap.owner_of(p1);
    let id2 = m.heap.owner_of(p2);
    assert(m.heap.page_owner_ok(p1 as int / (PAGE_SIZE as int)));
    assert(m.heap.page_owner_ok(p2 as int / (PAGE_SIZE as int)));
    assert(m.heap.wf_span(id1));
    assert(m.heap.wf_span(id2));
    let s1 = m.heap.spans@[id1];
    let s2 = m.heap.spans@[id2];
    // each usable range lies within its own span's bytes
    lemma_usable_within_span(m, p1);
    lemma_usable_within_span(m, p2);
    if id1 == id2 {
        // one span: both small (a large span holds one allocation), at
        // distinct slots, whose ranges are consecutive multiples apart
        assert(i1.class != 0 && i2.class != 0) by {
            if i1.class == 0 {
                assert(s1.alloc_addr == p1);
                if i2.class == 0 {
                    assert(s2.alloc_addr == p2);
                } else {
                    assert(s2.state == SpanState::Small);
                }
            } else {
                if i2.class == 0 {
                    assert(s2.state == SpanState::Small);
                }
            }
        }
        assert(i1.class == i2.class) by {
            assert(s1.size_class == i1.class);
            assert(s1.size_class == i2.class);
        }
        let c = i1.class as int;
        let csize = spec_class_size(c);
        lemma_class_table_wf(c);
        lemma_slot_index(s1, p1);
        lemma_slot_index(s1, p2);
        let k1 = s1.slot_index(p1);
        let k2 = s1.slot_index(p2);
        assert(k1 != k2);
        if k1 < k2 {
            assert(p1 + csize <= p2) by (nonlinear_arith)
                requires
                    p1 == s1.start_addr() + k1 * csize,
                    p2 == s1.start_addr() + k2 * csize,
                    k1 + 1 <= k2,
                    csize >= 1;
        } else {
            assert(p2 + csize <= p1) by (nonlinear_arith)
                requires
                    p1 == s1.start_addr() + k1 * csize,
                    p2 == s1.start_addr() + k2 * csize,
                    k2 + 1 <= k1,
                    csize >= 1;
        }
    } else {
        // two spans: their page runs are disjoint, so one ends before the
        // other starts
        assert(s1.end_page() <= s2.start_page || s2.end_page() <= s1.start_page) by {
            if s1.start_page < s2.end_page() && s2.start_page < s1.end_page() {
                let q: int = if s1.start_page >= s2.start_page {
                    s1.start_page as int
                } else {
                    s2.start_page as int
                };
                assert(s1.contains_page(q));
                assert(s2.contains_page(q));
                assert(m.heap.page_map@[q] as int == id1);
                assert(m.heap.page_map@[q] as int == id2);
            }
        }
        assert(s1.end_page() * PAGE_SIZE <= s2.start_page * PAGE_SIZE
            || s2.end_page() * PAGE_SIZE <= s1.start_page * PAGE_SIZE);
    }
}

/// A live allocation's usable bytes lie within its span's bytes.
proof fn lemma_usable_within_span(m: TcMalloc, p: usize)
    requires
        m.wf(),
        m.live@.dom().contains(p),
    ensures
        m.heap.spans@[m.heap.owner_of(p)].start_addr() <= p,
        p + TcMalloc::usable_size(m.live@[p])
            <= m.heap.spans@[m.heap.owner_of(p)].end_addr(),
{
    let info = m.live@[p];
    assert(m.live_entry_wf(p, info));
    let id = m.heap.owner_of(p);
    assert(m.heap.page_owner_ok(p as int / (PAGE_SIZE as int)));
    assert(m.heap.wf_span(id));
    let sp = m.heap.spans@[id];
    if info.class != 0 {
        let c = info.class as int;
        lemma_class_table_wf(c);
        lemma_slot_index(sp, p);
        let k = sp.slot_index(p);
        let csize = spec_class_size(c);
        let cap = crate::size_class::spec_objects_per_span(c);
        assert(p + csize <= sp.start_addr() + cap * csize) by (nonlinear_arith)
            requires
                p == sp.start_addr() + k * csize,
                k + 1 <= cap,
                csize >= 0;
        assert(cap * csize <= spec_class_pages(c) * PAGE_SIZE);
        assert(k * csize >= 0) by (nonlinear_arith)
            requires k >= 0, csize >= 0;
    }
}

/// The size class serving a request, computed as the dispatcher does.
pub fn request_class(size: usize, align: usize) -> (c: usize)
    ensures
        c == spec_request_class(size as int, align as int),
        c < NUM_SIZE_CLASSES,
{
    if align <= 8 {
        size_to_class(size)
    } else if align <= PAGE_SIZE {
        let eff = if size >= align { size } else { align };
        let c = size_to_class(eff);
        if c != 0 && class_to_size(c) % align == 0 {
            c
        } else {
            0
        }
    } else {
        0
    }
}

/// Pages a large request takes, computed as the dispatcher does.
fn large_pages(size: usize, align: usize) -> (n: usize)
    requires
        1 <= size,
        is_pow2(align as int),
    ensures
        n == spec_large_pages(size as int, align as int),
        1 <= n,
{
    proof {
        lemma_ceil_div(size as int);
    }
    let base = size / PAGE_SIZE + if size % PAGE_SIZE != 0 { 1 } else { 0 };
    if align > PAGE_SIZE {
        proof {
            vstd::arithmetic::div_mod::lemma_div_is_ordered(
                size as int, usize::MAX as int, PAGE_SIZE as int);
            vstd::arithmetic::div_mod::lemma_div_is_ordered(
                align as int, usize::MAX as int, PAGE_SIZE as int);
        }
        base + align / PAGE_SIZE
    } else {
        base
    }
}

/// Rounding a byte count up to pages: the two usual formulas agree.
proof fn lemma_ceil_div(size: int)
    requires
        1 <= size,
    ensures
        (size + PAGE_SIZE - 1) / (PAGE_SIZE as int)
            == size / (PAGE_SIZE as int)
                + (if size % (PAGE_SIZE as int) != 0 { 1int } else { 0int }),
        1 <= (size + PAGE_SIZE - 1) / (PAGE_SIZE as int),
        (size + PAGE_SIZE - 1) / (PAGE_SIZE as int) * PAGE_SIZE >= size,
{
    let ps = PAGE_SIZE as int;
    let q = size / ps;
    let r = size % ps;
    vstd::arithmetic::div_mod::lemma_fundamental_div_mod(size, ps);
    if r == 0 {
        vstd::arithmetic::div_mod::lemma_fundamental_div_mod_converse(
            size + ps - 1, ps, q, ps - 1);
        assert(q * ps >= size) by (nonlinear_arith)
            requires size == ps * q + 0;
    } else {
        vstd::arithmetic::div_mod::lemma_fundamental_div_mod_converse(
            size + ps - 1, ps, q + 1, r - 1);
        assert((q + 1) * ps >= size) by (nonlinear_arith)
            requires size == ps * q + r, r < ps;
    }
}

/// The page size and everything below it on the power-of-two ladder.
proof fn lemma_page_size_pow2()
    ensures
        is_pow2(1),
        is_pow2(2),
        is_pow2(4),
        is_pow2(8),
        is_pow2(PAGE_SIZE as int),
{
    assert(is_pow2(1));
    assert(is_pow2(2));
    assert(is_pow2(4));
    assert(is_pow2(8));
    assert(is_pow2(16));
    assert(is_pow2(32));
    assert(is_pow2(64));
    assert(is_pow2(128));
    assert(is_pow2(256));
    assert(is_pow2(512));
    assert(is_pow2(1024));
    assert(is_pow2(2048));
    assert(is_pow2(4096));
    assert(is_pow2(8192));
}

/// Divisibility passes through a middle divisor.
proof fn lemma_divides_through(a: int, b: int, x: int)
    requires
        1 <= a,
        1 <= b,
        x % b == 0,
        b % a == 0,
    ensures
        x % a == 0,
{
    let qx = x / b;
    let qb = b / a;
    vstd::arithmetic::div_mod::lemma_fundamental_div_mod(x, b);
    vstd::arithmetic::div_mod::lemma_fundamental_div_mod(b, a);
    assert(x == (qx * qb) * a) by (nonlinear_arith)
        requires x == b * qx + 0, b == a * qb + 0;
    vstd::arithmetic::div_mod::lemma_mod_multiples_basic(qx * qb, a);
}

/// A checked-out slot of a small span is aligned to any power of two
/// that divides both the class's object size and a page.
proof fn lemma_slot_aligned(h: PageHeap, addr: usize, c: int, align: int)
    requires
        h.wf(),
        h.checked_out(addr, c),
        1 <= c < NUM_SIZE_CLASSES,
        is_pow2(align),
        align <= PAGE_SIZE,
        spec_class_size(c) % align == 0,
    ensures
        (addr as int) % align == 0,
{
    let id = h.owner_of(addr);
    let p = addr as int / (PAGE_SIZE as int);
    assert(h.page_owner_ok(p)) by {
        assert(1 <= p < h.page_map.len());
    }
    assert(h.wf_span(id));
    let s = h.spans@[id];
    lemma_slot_index(s, addr);
    let k = s.slot_index(addr);
    let size = spec_class_size(c);
    lemma_page_size_pow2();
    lemma_pow2_divides(align, PAGE_SIZE as int);
    let qp = (PAGE_SIZE as int) / align;
    let qs = size / align;
    vstd::arithmetic::div_mod::lemma_fundamental_div_mod(PAGE_SIZE as int, align);
    vstd::arithmetic::div_mod::lemma_fundamental_div_mod(size, align);
    assert(addr == (s.start_page * qp + k * qs) * align) by (nonlinear_arith)
        requires
            addr == s.start_page * (PAGE_SIZE as int) + k * size,
            PAGE_SIZE as int == align * qp + 0,
            size == align * qs + 0;
    vstd::arithmetic::div_mod::lemma_mod_multiples_basic(
        s.start_page * qp + k * qs, align);
}

/// A power of two no larger than another power of two divides it.
pub proof fn lemma_pow2_divides(a: int, b: int)
    requires
        is_pow2(a),
        is_pow2(b),
        a <= b,
    ensures
        b % a == 0,
    decreases b,
{
    if a == 1 {
        assert(b % 1 == 0);
    } else {
        assert(a % 2 == 0 && is_pow2(a / 2));
        assert(b != 1);
        assert(b % 2 == 0 && is_pow2(b / 2));
        vstd::arithmetic::div_mod::lemma_div_is_ordered(a, b, 2);
        lemma_pow2_divides(a / 2, b / 2);
        let q = (b / 2) / (a / 2);
        vstd::arithmetic::div_mod::lemma_fundamental_div_mod(b / 2, a / 2);
        assert(b == a * q) by (nonlinear_arith)
            requires
                b / 2 == (a / 2) * q + 0,
                b == 2 * (b / 2) + 0,
                a == 2 * (a / 2) + 0;
        vstd::arithmetic::div_mod::lemma_mod_multiples_basic(q, a);
    }
}


} // verus!
