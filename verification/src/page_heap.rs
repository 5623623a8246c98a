//! Page heap: the span manager.
//!
//! The page heap owns the reserved address space.  It hands out spans of
//! requested page counts, splitting a larger free span when one fits, and
//! growing the reservation otherwise; on release it coalesces a span with
//! free neighbours so that no two free spans are ever adjacent.  The page
//! map — one entry per reserved page, giving the owning span — and the
//! backing memory are kept here, since every span operation updates them.
//!
//! The page provider is a bump reservation: pages are handed out from the
//! top of the reserved range, `GROW_PAGES` at a time to amortize requests,
//! and never returned.  Page 0 is never reserved, so no allocation has
//! address 0.

use vstd::prelude::*;
use crate::{MAX_PAGES, PAGE_SIZE};
use crate::span::{Span, SpanState};

verus! {

/// Page-map entry for the one page that belongs to no span (page 0).
pub const NO_SPAN: usize = usize::MAX;

/// Pages taken from the provider at once when the free pool is empty.
pub const GROW_PAGES: usize = 64;

/// A counter bumped by one, sticking at the top of its range: the span
/// statistics never overflow.
pub open spec fn sat_inc(x: usize) -> usize {
    if x < usize::MAX { (x + 1) as usize } else { x }
}

/// The span manager and the reservation backing it.
pub struct PageHeap {
    /// Arena of span records; retired slots stay in place.
    pub spans: Vec<Span>,
    /// One entry per reserved page: the index of the owning span.
    pub page_map: Vec<usize>,
    /// The reserved bytes themselves, `PAGE_SIZE` per reserved page.
    pub mem: Vec<u8>,
    /// How many spans have been handed out, a statistic for callers.
    pub span_allocs: usize,
}

impl PageHeap {
    /// Span record `id` is placed consistently: within the reservation,
    /// fields fitting its state, and every one of its pages mapping back
    /// to it.
    pub open spec fn wf_span(self, id: int) -> bool {
        self.spans@[id].is_live() ==> {
            &&& 1 <= self.spans@[id].start_page
            &&& self.spans@[id].end_page() <= self.page_map.len()
            &&& 1 <= self.spans@[id].num_pages
            &&& self.spans@[id].fields_wf()
            &&& forall|p: int| #![trigger self.page_map@[p]]
                self.spans@[id].contains_page(p) ==> self.page_map@[p] as int == id
        }
    }

    /// Page `p` maps to a live span that contains it.
    pub open spec fn page_owner_ok(self, p: int) -> bool {
        &&& (self.page_map@[p] as int) < self.spans.len()
        &&& self.spans@[self.page_map@[p] as int].is_live()
        &&& self.spans@[self.page_map@[p] as int].contains_page(p)
    }

    /// No free span ends where another free span starts: adjacent free
    /// spans are always coalesced.
    pub open spec fn no_adjacent_free(self) -> bool {
        forall|i: int, j: int| #![trigger self.spans@[i], self.spans@[j]]
            0 <= i < self.spans.len() && 0 <= j < self.spans.len() && i != j
            && self.spans@[i].state == SpanState::Free
            && self.spans@[j].state == SpanState::Free
            ==> self.spans@[i].end_page() != self.spans@[j].start_page
    }

    /// The page heap's invariant: bounds, the span/page-map partition, and
    /// coalescing.
    pub open spec fn wf(self) -> bool {
        &&& 1 <= self.page_map.len() <= MAX_PAGES
        &&& self.mem.len() == self.page_map.len() * PAGE_SIZE
        &&& self.page_map@[0] == NO_SPAN
        &&& forall|id: int| 0 <= id < self.spans.len() ==> #[trigger] self.wf_span(id)
        &&& forall|p: int| 1 <= p < self.page_map.len() ==> #[trigger] self.page_owner_ok(p)
        &&& self.no_adjacent_free()
    }

    /// Some free span of at least `n` pages exists, or the reservation can
    /// still grow by the amount a request of `n` pages would ask for.
    pub open spec fn can_allocate(self, n: int) -> bool {
        ||| exists|id: int| 0 <= id < self.spans.len()
            && (#[trigger] self.spans@[id]).state == SpanState::Free
            && self.spans@[id].num_pages >= n
        ||| self.page_map.len() + (if n >= GROW_PAGES { n } else { GROW_PAGES as int }) <= MAX_PAGES
    }

    /// Page `p` either lies beyond this heap's reservation or belongs to a
    /// free span: nothing handed out lives there.
    pub open spec fn page_free_or_new(self, p: int) -> bool {
        ||| p >= self.page_map.len()
        ||| self.spans@[self.page_map@[p] as int].state == SpanState::Free
    }

    /// A fresh heap: one never-reserved sentinel page, no spans.
    pub fn new() -> (h: PageHeap)
        ensures
            h.wf(),
            h.spans.len() == 0,
            h.page_map.len() == 1,
            h.span_allocs == 0,
    {
        let mut page_map: Vec<usize> = Vec::new();
        page_map.push(NO_SPAN);
        let mut mem: Vec<u8> = Vec::new();
        let mut b: usize = 0;
        while b < PAGE_SIZE
            invariant
                mem.len() == b,
                b <= PAGE_SIZE,
            decreases PAGE_SIZE - b,
        {
            mem.push(0);
            b = b + 1;
        }
        PageHeap { spans: Vec::new(), page_map, mem, span_allocs: 0 }
    }

    /// Reserve `n` fresh pages from the provider as one new span, owned by
    /// the caller.  Fails exactly when the reservation cap is passed.
    fn grow(&mut self, n: usize) -> (r: Option<usize>)
        requires
            old(self).wf(),
            1 <= n,
        ensures
            final(self).wf(),
            final(self).span_allocs == old(self).span_allocs,
            r is Some <==> old(self).page_map.len() + n <= MAX_PAGES,
            r is None ==> *final(self) == *old(self),
            r matches Some(id) ==> {
                &&& id == old(self).spans.len()
                &&& final(self).spans.len() == old(self).spans.len() + 1
                &&& forall|j: int| 0 <= j < old(self).spans.len()
                    ==> final(self).spans@[j] == old(self).spans@[j]
                &&& final(self).spans@[id as int].state == SpanState::Large
                &&& final(self).spans@[id as int].start_page == old(self).page_map.len()
                &&& final(self).spans@[id as int].num_pages == n
                &&& final(self).spans@[id as int].size_class == 0
                &&& final(self).spans@[id as int].free_objects.len() == 0
                &&& final(self).page_map.len() == old(self).page_map.len() + n
                &&& forall|p: int| 0 <= p < old(self).page_map.len()
                    ==> final(self).page_map@[p] == old(self).page_map@[p]
                &&& forall|b: int| 0 <= b < old(self).mem.len()
                    ==> final(self).mem@[b] == old(self).mem@[b]
            },
    {
        let start = self.page_map.len();
        if n > MAX_PAGES - start {
            return None;
        }
        let id = self.spans.len();
        self.spans.push(Span {
            state: SpanState::Large,
            start_page: start,
            num_pages: n,
            size_class: 0,
            free_objects: Vec::new(),
            alloc_addr: 0,
        });
        let mut p: usize = 0;
        while p < n
            invariant
                p <= n,
                self.page_map.len() == start + p,
                forall|q: int| 0 <= q < start ==> self.page_map@[q] == old(self).page_map@[q],
                forall|q: int| start <= q < start + p ==> self.page_map@[q] == id,
                self.spans@ == old(self).spans@.push(Span {
                    state: SpanState::Large,
                    start_page: start,
                    num_pages: n,
                    size_class: 0,
                    free_objects: self.spans@[id as int].free_objects,
                    alloc_addr: 0,
                }),
                self.spans@[id as int].free_objects.len() == 0,
                self.mem@ == old(self).mem@,
                self.span_allocs == old(self).span_allocs,
                start + n <= MAX_PAGES,
                id == old(self).spans.len(),
                start == old(self).page_map.len(),
            decreases n - p,
        {
            self.page_map.push(id);
            p = p + 1;
        }
        let mut b: usize = self.mem.len();
        let target: usize = (start + n) * PAGE_SIZE;
        proof {
            assert((start + n) * PAGE_SIZE <= MAX_PAGES * PAGE_SIZE) by (nonlinear_arith)
                requires start + n <= MAX_PAGES;
            assert(old(self).mem.len() == start * PAGE_SIZE);
            assert(start * PAGE_SIZE <= (start + n) * PAGE_SIZE) by (nonlinear_arith)
                requires n >= 0, PAGE_SIZE >= 1;
        }
        while b < target
            invariant
                self.mem.len() == b,
                old(self).mem.len() <= b <= target,
                target == (start + n) * PAGE_SIZE,
                forall|q: int| 0 <= q < old(self).mem.len() ==> self.mem@[q] == old(self).mem@[q],
                self.page_map.len() == start + n,
                forall|q: int| 0 <= q < start ==> self.page_map@[q] == old(self).page_map@[q],
                forall|q: int| start <= q < start + n ==> self.page_map@[q] == id,
                self.spans@ == old(self).spans@.push(Span {
                    state: SpanState::Large,
                    start_page: start,
                    num_pages: n,
                    size_class: 0,
                    free_objects: self.spans@[id as int].free_objects,
                    alloc_addr: 0,
                }),
                self.spans@[id as int].free_objects.len() == 0,
                id == old(self).spans.len(),
                start == old(self).page_map.len(),
                start + n <= MAX_PAGES,
                self.span_allocs == old(self).span_allocs,
            decreases target - b,
        {
            self.mem.push(0);
            b = b + 1;
        }
        proof {
            lemma_grow_wf(*old(self), *self, id as int, start as int, n as int);
        }
        Some(id)
    }

    /// Split the tail off span `id`: its first `n` pages stay with the
    /// caller, the remainder goes back to the free pool as a new span.
    /// The caller guarantees no free span starts at `id`'s end, so the
    /// free tail needs no coalescing.
    fn split_off_tail(&mut self, id: usize, n: usize)
        requires
            old(self).wf(),
            id < old(self).spans.len(),
            old(self).spans@[id as int].state == SpanState::Large,
            1 <= n < old(self).spans@[id as int].num_pages,
            forall|j: int| 0 <= j < old(self).spans.len()
                && (#[trigger] old(self).spans@[j]).state == SpanState::Free
                ==> old(self).spans@[j].start_page != old(self).spans@[id as int].end_page(),
        ensures
            final(self).wf(),
            final(self).spans.len() == old(self).spans.len() + 1,
            forall|j: int| 0 <= j < old(self).spans.len() && j != id
                ==> final(self).spans@[j] == old(self).spans@[j],
            final(self).spans@[id as int].state == SpanState::Large,
            final(self).spans@[id as int].start_page == old(self).spans@[id as int].start_page,
            final(self).spans@[id as int].num_pages == n,
            final(self).spans@[id as int].size_class == 0,
            final(self).spans@[id as int].free_objects.len() == 0,
            final(self).spans@[old(self).spans.len() as int].state == SpanState::Free,
            final(self).page_map.len() == old(self).page_map.len(),
            final(self).mem@ == old(self).mem@,
            final(self).span_allocs == old(self).span_allocs,
    {
        let start = self.spans[id].start_page;
        let num = self.spans[id].num_pages;
        let tid = self.spans.len();
        proof {
            assert(self.wf_span(id as int));
        }
        self.spans.set(id, Span {
            state: SpanState::Large,
            start_page: start,
            num_pages: n,
            size_class: 0,
            free_objects: Vec::new(),
            alloc_addr: 0,
        });
        self.spans.push(Span {
            state: SpanState::Free,
            start_page: start + n,
            num_pages: num - n,
            size_class: 0,
            free_objects: Vec::new(),
            alloc_addr: 0,
        });
        let mut p: usize = start + n;
        while p < start + num
            invariant
                start + n <= p <= start + num,
                start + num <= self.page_map.len(),
                self.page_map.len() == old(self).page_map.len(),
                tid == old(self).spans.len(),
                self.spans.len() == old(self).spans.len() + 1,
                forall|j: int| 0 <= j < old(self).spans.len() && j != id
                    ==> self.spans@[j] == old(self).spans@[j],
                self.spans@[id as int].state == SpanState::Large,
                self.spans@[id as int].start_page == start,
                self.spans@[id as int].num_pages == n,
                self.spans@[id as int].size_class == 0,
                self.spans@[id as int].free_objects.len() == 0,
                self.spans@[tid as int].state == SpanState::Free,
                self.spans@[tid as int].start_page == start + n,
                self.spans@[tid as int].num_pages == num - n,
                self.spans@[tid as int].size_class == 0,
                self.spans@[tid as int].free_objects.len() == 0,
                forall|q: int| 0 <= q < self.page_map.len() && !(start + n <= q < p)
                    ==> self.page_map@[q] == old(self).page_map@[q],
                forall|q: int| start + n <= q < p ==> self.page_map@[q] as int == tid,
                self.mem@ == old(self).mem@,
                self.span_allocs == old(self).span_allocs,
            decreases start + num - p,
        {
            self.page_map.set(p, tid);
            p = p + 1;
        }
        proof {
            lemma_split_wf(*old(self), *self, id as int, tid as int,
                start as int, n as int, num as int);
        }
    }

    /// Provide a span of exactly `n` pages, owned by the caller: from an
    /// exact-fit free span, by splitting a larger free span, or by growing
    /// the reservation.  Fails exactly when no free span fits and the
    /// reservation cap would be passed.  Every page of the returned span
    /// was free or fresh, so nothing handed out earlier lives there.
    pub fn allocate_span(&mut self, n: usize) -> (r: Option<usize>)
        requires
            old(self).wf(),
            1 <= n,
        ensures
            final(self).wf(),
            final(self).spans.len() >= old(self).spans.len(),
            forall|j: int| 0 <= j < old(self).spans.len()
                && ((#[trigger] old(self).spans@[j]).state == SpanState::Small
                    || old(self).spans@[j].state == SpanState::Large)
                ==> final(self).spans@[j] == old(self).spans@[j],
            final(self).page_map.len() >= old(self).page_map.len(),
            final(self).mem.len() >= old(self).mem.len(),
            forall|b: int| 0 <= b < old(self).mem.len()
                ==> final(self).mem@[b] == old(self).mem@[b],
            r is None <==> !old(self).can_allocate(n as int),
            r is None ==> *final(self) == *old(self),
            forall|j: int| 0 <= j < old(self).spans.len()
                && (#[trigger] old(self).spans@[j]).state != SpanState::Small
                ==> final(self).spans@[j].state != SpanState::Small,
            forall|j: int| old(self).spans.len() <= j < final(self).spans.len()
                && r != Some(j as usize)
                ==> (#[trigger] final(self).spans@[j]).state == SpanState::Free,
            r matches Some(id) ==> {
                &&& (id as int) < final(self).spans.len()
                &&& ((id as int) >= old(self).spans.len()
                    || old(self).spans@[id as int].state == SpanState::Free)
                &&& final(self).spans@[id as int].state == SpanState::Large
                &&& final(self).spans@[id as int].num_pages == n
                &&& final(self).spans@[id as int].size_class == 0
                &&& final(self).spans@[id as int].free_objects.len() == 0
                &&& forall|p: int| final(self).spans@[id as int].contains_page(p)
                    ==> old(self).page_free_or_new(p)
                &&& final(self).span_allocs == sat_inc(old(self).span_allocs)
            },
    {
        let count = self.spans.len();
        // Exact fit first.
        let mut i: usize = 0;
        while i < count
            invariant
                old(self).wf(),
                1 <= n,
                *self == *old(self),
                i <= count,
                count == self.spans.len(),
                forall|j: int| 0 <= j < i
                    ==> !((#[trigger] self.spans@[j]).state == SpanState::Free
                        && self.spans@[j].num_pages == n),
            decreases count - i,
        {
            if self.spans[i].state == SpanState::Free && self.spans[i].num_pages == n {
                let start = self.spans[i].start_page;
                self.spans.set(i, Span {
                    state: SpanState::Large,
                    start_page: start,
                    num_pages: n,
                    size_class: 0,
                    free_objects: Vec::new(),
                    alloc_addr: 0,
                });
                if self.span_allocs < usize::MAX {
                    self.span_allocs = self.span_allocs + 1;
                }
                proof {
                    lemma_replace_span_wf(*old(self), *self, i as int);
                    assert(old(self).wf_span(i as int));
                    assert forall|p: int| final(self).spans@[i as int].contains_page(p)
                        implies old(self).page_free_or_new(p) by {
                        assert(old(self).page_map@[p] as int == i);
                    }
                }
                return Some(i);
            }
            i = i + 1;
        }
        // Any larger free span, splitting off its tail.
        let mut i2: usize = 0;
        while i2 < count
            invariant
                old(self).wf(),
                1 <= n,
                *self == *old(self),
                i2 <= count,
                count == self.spans.len(),
                forall|j: int| 0 <= j < count
                    ==> !((#[trigger] self.spans@[j]).state == SpanState::Free
                        && self.spans@[j].num_pages == n),
                forall|j: int| 0 <= j < i2
                    ==> !((#[trigger] self.spans@[j]).state == SpanState::Free
                        && self.spans@[j].num_pages > n),
            decreases count - i2,
        {
            if self.spans[i2].state == SpanState::Free && self.spans[i2].num_pages > n {
                let start = self.spans[i2].start_page;
                let num = self.spans[i2].num_pages;
                self.spans.set(i2, Span {
                    state: SpanState::Large,
                    start_page: start,
                    num_pages: num,
                    size_class: 0,
                    free_objects: Vec::new(),
                    alloc_addr: 0,
                });
                proof {
                    lemma_replace_span_wf(*old(self), *self, i2 as int);
                    assert(old(self).wf_span(i2 as int));
                }
                self.split_off_tail(i2, n);
                let ghost post_split = *self;
                if self.span_allocs < usize::MAX {
                    self.span_allocs = self.span_allocs + 1;
                }
                proof {
                    lemma_wf_same_layout(post_split, *self);
                    assert forall|p: int| final(self).spans@[i2 as int].contains_page(p)
                        implies old(self).page_free_or_new(p) by {
                        assert(old(self).spans@[i2 as int].contains_page(p));
                        assert(old(self).page_map@[p] as int == i2);
                    }
                }
                return Some(i2);
            }
            i2 = i2 + 1;
        }
        // Nothing in the free pool fits: grow the reservation, splitting
        // the surplus of the amortized request back into the pool.
        let g: usize = if n >= GROW_PAGES { n } else { GROW_PAGES };
        let grown = self.grow(g);
        match grown {
            None => {
                proof {
                    assert(!old(self).can_allocate(n as int));
                }
                None
            },
            Some(gid) => {
                if g > n {
                    proof {
                        assert forall|j: int| 0 <= j < self.spans.len()
                            && (#[trigger] self.spans@[j]).state == SpanState::Free
                            implies self.spans@[j].start_page
                                != self.spans@[gid as int].end_page() by {
                            assert(self.wf_span(j));
                        }
                    }
                    self.split_off_tail(gid, n);
                }
                let ghost post_grow = *self;
                if self.span_allocs < usize::MAX {
                    self.span_allocs = self.span_allocs + 1;
                }
                proof {
                    lemma_wf_same_layout(post_grow, *self);
                    assert forall|p: int| final(self).spans@[gid as int].contains_page(p)
                        implies old(self).page_free_or_new(p) by {}
                }
                Some(gid)
            },
        }
    }

    /// Return span `id` to the free pool.  A free neighbour on either side
    /// is merged into `id`, so no two free spans are ever adjacent; the
    /// absorbed records are retired in place.
    pub fn deallocate_span(&mut self, id: usize)
        requires
            old(self).wf(),
            id < old(self).spans.len(),
            old(self).spans@[id as int].is_live(),
            old(self).spans@[id as int].state != SpanState::Free,
        ensures
            final(self).wf(),
            final(self).spans.len() == old(self).spans.len(),
            forall|j: int| 0 <= j < old(self).spans.len() && j != id
                && ((#[trigger] old(self).spans@[j]).state == SpanState::Small
                    || old(self).spans@[j].state == SpanState::Large)
                ==> final(self).spans@[j] == old(self).spans@[j],
            final(self).page_map.len() == old(self).page_map.len(),
            final(self).mem@ == old(self).mem@,
            final(self).span_allocs == old(self).span_allocs,
            final(self).spans@[id as int].state == SpanState::Free,
            final(self).spans@[id as int].start_page
                <= old(self).spans@[id as int].start_page,
            final(self).spans@[id as int].end_page()
                >= old(self).spans@[id as int].end_page(),
            forall|j: int| 0 <= j < final(self).spans.len()
                && (#[trigger] final(self).spans@[j]).state == SpanState::Small
                ==> j != id && 0 <= j < old(self).spans.len()
                    && old(self).spans@[j].state == SpanState::Small,
    {
        proof {
            assert(old(self).wf_span(id as int));
        }
        let ostart = self.spans[id].start_page;
        let onum = self.spans[id].num_pages;
        let orig_end = ostart + onum;
        let mut start = ostart;
        let mut num = onum;
        let ghost mut lmerge: Option<int> = None::<int>;
        let ghost mut rmerge: Option<int> = None::<int>;
        // Merge a free span ending where this one starts.
        if start > 1 {
            proof {
                assert(old(self).page_owner_ok(start - 1));
            }
            let lid = self.page_map[start - 1];
            if self.spans[lid].state == SpanState::Free {
                proof {
                    assert(old(self).wf_span(lid as int));
                    // the left neighbour ends exactly at this span's start
                    if old(self).spans@[lid as int].end_page() > ostart {
                        assert(old(self).spans@[lid as int].contains_page(ostart as int));
                        assert(old(self).page_map@[ostart as int] as int == lid);
                        assert(old(self).page_map@[ostart as int] as int == id);
                    }
                    lmerge = Some(lid as int);
                }
                let lstart = self.spans[lid].start_page;
                let lnum = self.spans[lid].num_pages;
                start = lstart;
                num = num + lnum;
                self.spans.set(lid, Span::retired());
            }
        }
        // Merge a free span starting where this one ends.
        if orig_end < self.page_map.len() {
            proof {
                assert(old(self).page_owner_ok(orig_end as int));
            }
            let rid = self.page_map[orig_end];
            if self.spans[rid].state == SpanState::Free {
                proof {
                    assert(old(self).spans@[rid as int] == self.spans@[rid as int]);
                    assert(old(self).wf_span(rid as int));
                    // the right neighbour starts exactly at this span's end
                    if old(self).spans@[rid as int].start_page < orig_end {
                        assert(old(self).spans@[rid as int].contains_page(orig_end - 1));
                        assert(old(self).spans@[id as int].contains_page(orig_end - 1));
                        assert(old(self).page_map@[orig_end - 1] as int == rid);
                        assert(old(self).page_map@[orig_end - 1] as int == id);
                    }
                    rmerge = Some(rid as int);
                }
                let rnum = self.spans[rid].num_pages;
                num = num + rnum;
                self.spans.set(rid, Span::retired());
            }
        }
        self.spans.set(id, Span {
            state: SpanState::Free,
            start_page: start,
            num_pages: num,
            size_class: 0,
            free_objects: Vec::new(),
            alloc_addr: 0,
        });
        let ghost mid = *self;
        // Point every page of the merged run at the surviving record.
        let mut p: usize = start;
        while p < start + num
            invariant
                start <= p <= start + num,
                start + num <= self.page_map.len(),
                self.spans@ == mid.spans@,
                self.mem@ == mid.mem@,
                self.span_allocs == mid.span_allocs,
                self.page_map.len() == mid.page_map.len(),
                forall|q: int| 0 <= q < self.page_map.len() && !(start <= q < p)
                    ==> self.page_map@[q] == mid.page_map@[q],
                forall|q: int| start <= q < p ==> self.page_map@[q] as int == id,
            decreases start + num - p,
        {
            self.page_map.set(p, id);
            p = p + 1;
        }
        proof {
            lemma_dealloc_wf(*old(self), *self, id as int, lmerge, rmerge,
                ostart as int, onum as int, start as int, num as int);
        }
    }

    /// Index of the span owning the page that `addr` lies in.
    pub open spec fn owner_of(self, addr: usize) -> int {
        self.page_map@[addr as int / (PAGE_SIZE as int)] as int
    }

    /// `addr` is an object slot of a live small span of class `c` and not
    /// on that span's free list: the object is checked out, held by a
    /// thread cache or by the caller it was handed to.
    pub open spec fn checked_out(self, addr: usize, c: int) -> bool {
        let p = addr as int / (PAGE_SIZE as int);
        &&& 1 <= p < self.page_map.len()
        &&& self.owner_of(addr) < self.spans.len()
        &&& self.spans@[self.owner_of(addr)].state == SpanState::Small
        &&& self.spans@[self.owner_of(addr)].size_class == c
        &&& self.spans@[self.owner_of(addr)].is_slot(addr as int)
        &&& !self.spans@[self.owner_of(addr)].free_objects@.contains(addr)
    }

    /// Write one byte of the reserved region.
    pub fn write_byte(&mut self, addr: usize, val: u8)
        requires
            old(self).wf(),
            addr < old(self).mem.len(),
        ensures
            final(self).wf(),
            final(self).mem@ == old(self).mem@.update(addr as int, val),
            final(self).spans@ == old(self).spans@,
            final(self).page_map@ == old(self).page_map@,
            final(self).span_allocs == old(self).span_allocs,
    {
        self.mem.set(addr, val);
        proof {
            lemma_wf_same_layout(*old(self), *self);
        }
    }

    /// Read one byte of the reserved region.
    pub fn read_byte(&self, addr: usize) -> (r: u8)
        requires
            addr < self.mem.len(),
        ensures
            r == self.mem@[addr as int],
    {
        self.mem[addr]
    }

    /// The span owning `page`, if that page is reserved.
    pub fn span_of_page(&self, page: usize) -> (r: Option<usize>)
        requires
            self.wf(),
        ensures
            match r {
                Some(id) => 1 <= page < self.page_map.len()
                    && id == self.page_map@[page as int]
                    && (id as int) < self.spans.len()
                    && self.spans@[id as int].is_live()
                    && self.spans@[id as int].contains_page(page as int),
                None => page == 0 || page >= self.page_map.len(),
            },
    {
        if page == 0 || page >= self.page_map.len() {
            return None;
        }
        proof {
            assert(self.page_owner_ok(page as int));
        }
        Some(self.page_map[page])
    }

    /// Whether the free pool holds a span of at least `n` pages.
    pub fn has_free_span_at_least(&self, n: usize) -> (r: bool)
        ensures
            r == exists|id: int| 0 <= id < self.spans.len()
                && (#[trigger] self.spans@[id]).state == SpanState::Free
                && self.spans@[id].num_pages >= n,
    {
        let count = self.spans.len();
        let mut i: usize = 0;
        while i < count
            invariant
                i <= count,
                count == self.spans.len(),
                forall|j: int| 0 <= j < i
                    ==> !((#[trigger] self.spans@[j]).state == SpanState::Free
                        && self.spans@[j].num_pages >= n),
            decreases count - i,
        {
            if self.spans[i].state == SpanState::Free && self.spans[i].num_pages >= n {
                return true;
            }
            i = i + 1;
        }
        false
    }

    /// Total pages reserved from the provider, the sentinel page included.
    pub fn reserved_pages(&self) -> (r: usize)
        ensures
            r == self.page_map.len(),
    {
        self.page_map.len()
    }

    /// How many spans have been handed out so far.
    pub fn span_alloc_count(&self) -> (r: usize)
        ensures
            r == self.span_allocs,
    {
        self.span_allocs
    }
}

/// After a release with coalescing, the heap is well-formed again: the
/// surviving record covers exactly its old run and both absorbed
/// neighbours, every page of that run points at it, and nothing else
/// moved.
proof fn lemma_dealloc_wf(h0: PageHeap, h1: PageHeap, id: int,
    lmerge: Option<int>, rmerge: Option<int>,
    ostart: int, onum: int, start: int, num: int)
    requires
        h0.wf(),
        0 <= id < h0.spans.len(),
        h0.spans@[id].is_live(),
        h0.spans@[id].state != SpanState::Free,
        h0.spans@[id].start_page == ostart,
        h0.spans@[id].num_pages == onum,
        match lmerge {
            Option::None => start == ostart
                && (ostart == 1
                    || h0.spans@[h0.page_map@[ostart - 1] as int].state != SpanState::Free),
            Option::Some(lid) => {
                &&& ostart > 1
                &&& lid == h0.page_map@[ostart - 1] as int
                &&& h0.spans@[lid].state == SpanState::Free
                &&& start == h0.spans@[lid].start_page
            },
        },
        match rmerge {
            Option::None => start + num == ostart + onum
                && (ostart + onum >= h0.page_map.len()
                    || h0.spans@[h0.page_map@[ostart + onum] as int].state != SpanState::Free
                    || lmerge == Some(h0.page_map@[ostart + onum] as int)),
            Option::Some(rid) => {
                &&& ostart + onum < h0.page_map.len()
                &&& rid == h0.page_map@[ostart + onum] as int
                &&& h0.spans@[rid].state == SpanState::Free
                &&& start + num == ostart + onum + h0.spans@[rid].num_pages
                &&& rmerge != lmerge
            },
        },
        h1.spans.len() == h0.spans.len(),
        forall|j: int| 0 <= j < h0.spans.len() && j != id
            && lmerge != Some(j) && rmerge != Some(j)
            ==> h1.spans@[j] == h0.spans@[j],
        forall|j: int| 0 <= j < h0.spans.len() && (lmerge == Some(j) || rmerge == Some(j))
            ==> !(#[trigger] h1.spans@[j]).is_live(),
        h1.spans@[id].state == SpanState::Free,
        h1.spans@[id].start_page == start,
        h1.spans@[id].num_pages == num,
        h1.spans@[id].size_class == 0,
        h1.spans@[id].free_objects.len() == 0,
        h1.page_map.len() == h0.page_map.len(),
        forall|q: int| 0 <= q < h1.page_map.len() && !(start <= q < start + num)
            ==> h1.page_map@[q] == h0.page_map@[q],
        forall|q: int| start <= q < start + num ==> h1.page_map@[q] as int == id,
        h1.mem.len() == h0.mem.len(),
    ensures
        h1.wf(),
{
    assert(h0.wf_span(id));
    let orig_end = ostart + onum;
    // The absorbed neighbours sit flush against the released run.
    if lmerge is Some {
        let lid = lmerge.unwrap();
        assert(h0.page_owner_ok(ostart - 1));
        assert(h0.wf_span(lid));
        assert(lid != id);
        if h0.spans@[lid].end_page() > ostart {
            assert(h0.spans@[lid].contains_page(ostart));
            assert(h0.page_map@[ostart] as int == lid);
            assert(h0.spans@[id].contains_page(ostart));
            assert(h0.page_map@[ostart] as int == id);
        }
        assert(h0.spans@[lid].end_page() == ostart);
    }
    if rmerge is Some {
        let rid = rmerge.unwrap();
        assert(h0.page_owner_ok(orig_end));
        assert(h0.wf_span(rid));
        assert(rid != id);
        if h0.spans@[rid].start_page < orig_end {
            assert(h0.spans@[rid].contains_page(orig_end - 1));
            assert(h0.page_map@[orig_end - 1] as int == rid);
            assert(h0.spans@[id].contains_page(orig_end - 1));
            assert(h0.page_map@[orig_end - 1] as int == id);
        }
        assert(h0.spans@[rid].start_page == orig_end);
    }
    // Any page of the merged run was owned by the released span or one of
    // the absorbed neighbours.
    assert forall|p: int| start <= p < start + num
        implies h0.page_map@[p] as int == id
            || lmerge == Some(h0.page_map@[p] as int)
            || rmerge == Some(h0.page_map@[p] as int) by {
        if p < ostart {
            let lid = lmerge.unwrap();
            assert(h0.spans@[lid].contains_page(p));
            assert(h0.page_map@[p] as int == lid);
        } else if p < orig_end {
            assert(h0.spans@[id].contains_page(p));
            assert(h0.page_map@[p] as int == id);
        } else {
            let rid = rmerge.unwrap();
            assert(h0.spans@[rid].contains_page(p));
            assert(h0.page_map@[p] as int == rid);
        }
    }
    assert(1 <= start);
    assert(start + num <= h0.page_map.len());
    assert forall|j: int| 0 <= j < h1.spans.len() implies #[trigger] h1.wf_span(j) by {
        if j == id {
            assert forall|p: int| #![trigger h1.page_map@[p]]
                h1.spans@[id].contains_page(p) implies h1.page_map@[p] as int == id by {}
        } else if h1.spans@[j].is_live() {
            assert(h1.spans@[j] == h0.spans@[j]);
            assert(h0.wf_span(j));
            assert forall|p: int| #![trigger h1.page_map@[p]]
                h1.spans@[j].contains_page(p) implies h1.page_map@[p] as int == j by {
                assert(h0.page_map@[p] as int == j);
                if start <= p < start + num {
                    assert(h0.page_map@[p] as int == id
                        || lmerge == Some(h0.page_map@[p] as int)
                        || rmerge == Some(h0.page_map@[p] as int));
                }
            }
        }
    }
    assert forall|p: int| 1 <= p < h1.page_map.len() implies #[trigger] h1.page_owner_ok(p) by {
        if start <= p < start + num {
            assert(h1.page_map@[p] as int == id);
            assert(h1.spans@[id].contains_page(p));
        } else {
            assert(h0.page_owner_ok(p));
            let o = h0.page_map@[p] as int;
            if o == id {
                assert(h0.spans@[id].contains_page(p));
                assert(start <= p < start + num);
            }
            if lmerge == Some(o) {
                assert(h0.spans@[o].contains_page(p));
                assert(start <= p < start + num);
            }
            if rmerge == Some(o) {
                assert(h0.spans@[o].contains_page(p));
                assert(start <= p < start + num);
            }
            assert(h1.spans@[o] == h0.spans@[o]);
        }
    }
    assert forall|i: int, j: int| #![trigger h1.spans@[i], h1.spans@[j]]
        0 <= i < h1.spans.len() && 0 <= j < h1.spans.len() && i != j
        && h1.spans@[i].state == SpanState::Free
        && h1.spans@[j].state == SpanState::Free
        implies h1.spans@[i].end_page() != h1.spans@[j].start_page by {
        if i != id && j != id {
            assert(h1.spans@[i] == h0.spans@[i]);
            assert(h1.spans@[j] == h0.spans@[j]);
        } else if i == id {
            // a free span at the merged run's right edge would have been
            // absorbed, or contradicts coalescing of the right neighbour
            assert(h1.spans@[j] == h0.spans@[j]);
            if h1.spans@[j].start_page == start + num {
                assert(h0.wf_span(j));
                if rmerge is Some {
                    let rid = rmerge.unwrap();
                    assert(h0.spans@[rid].end_page() == start + num);
                    assert(rid != j);
                } else {
                    assert(h0.spans@[j].contains_page(start + num));
                    assert(start + num < h0.page_map.len());
                    assert(h0.page_map@[start + num] as int == j);
                }
            }
        } else {
            // a free span at the merged run's left edge would have been
            // absorbed, or contradicts coalescing of the left neighbour
            assert(h1.spans@[i] == h0.spans@[i]);
            if h1.spans@[i].end_page() == start {
                assert(h0.wf_span(i));
                if lmerge is Some {
                    let lid = lmerge.unwrap();
                    assert(h0.spans@[lid].start_page == start);
                    assert(lid != i);
                } else {
                    assert(h0.spans@[i].contains_page(start - 1));
                    assert(h0.page_map@[start - 1] as int == i);
                }
            }
        }
    }
}

/// The invariant reads only the span arena, the page map and the byte
/// count: two heaps that agree on those are equally well-formed.
pub(crate) proof fn lemma_wf_same_layout(h0: PageHeap, h1: PageHeap)
    requires
        h0.wf(),
        h1.spans@ == h0.spans@,
        h1.page_map@ == h0.page_map@,
        h1.mem.len() == h0.mem.len(),
    ensures
        h1.wf(),
{
    assert forall|j: int| 0 <= j < h1.spans.len() implies #[trigger] h1.wf_span(j) by {
        assert(h0.wf_span(j));
        if h1.spans@[j].is_live() {
            assert forall|p: int| #![trigger h1.page_map@[p]]
                h1.spans@[j].contains_page(p) implies h1.page_map@[p] as int == j by {
                assert(h0.page_map@[p] as int == j);
            }
        }
    }
    assert forall|p: int| 1 <= p < h1.page_map.len() implies #[trigger] h1.page_owner_ok(p) by {
        assert(h0.page_owner_ok(p));
    }
    assert forall|i: int, j: int| #![trigger h1.spans@[i], h1.spans@[j]]
        0 <= i < h1.spans.len() && 0 <= j < h1.spans.len() && i != j
        && h1.spans@[i].state == SpanState::Free
        && h1.spans@[j].state == SpanState::Free
        implies h1.spans@[i].end_page() != h1.spans@[j].start_page by {
        assert(h0.spans@[i] == h1.spans@[i]);
        assert(h0.spans@[j] == h1.spans@[j]);
    }
}

/// Coalescing is complete: in a well-formed heap no free span ends where
/// another free span starts, so `deallocate_span` always leaves the free
/// pool without adjacent free spans.
pub proof fn lemma_no_adjacent_free_spans(h: PageHeap, i: int, j: int)
    requires
        h.wf(),
        0 <= i < h.spans.len(),
        0 <= j < h.spans.len(),
        i != j,
        h.spans@[i].state == SpanState::Free,
        h.spans@[j].state == SpanState::Free,
    ensures
        h.spans@[i].end_page() != h.spans@[j].start_page,
{
}

/// Every reserved page except the null sentinel is owned by exactly one
/// live span: reserved memory is partitioned among free, small and large
/// spans, with nothing lost and nothing counted twice.
pub proof fn lemma_page_ownership_unique(h: PageHeap, p: int, i: int, j: int)
    requires
        h.wf(),
        1 <= p < h.page_map.len(),
        0 <= i < h.spans.len(),
        0 <= j < h.spans.len(),
        h.spans@[i].is_live(),
        h.spans@[j].is_live(),
        h.spans@[i].contains_page(p),
        h.spans@[j].contains_page(p),
    ensures
        i == j,
        h.page_map@[p] as int == i,
        h.spans@[h.page_map@[p] as int].is_live(),
{
    assert(h.wf_span(i));
    assert(h.wf_span(j));
    assert(h.page_map@[p] as int == i);
    assert(h.page_map@[p] as int == j);
}

/// A small span's bytes decompose exactly: its free objects, its
/// checked-out objects, and the tail too small to hold another object
/// together account for every byte of its pages.
pub proof fn lemma_span_bytes_decompose(h: PageHeap, id: int)
    requires
        h.wf(),
        0 <= id < h.spans.len(),
        h.spans@[id].state == SpanState::Small,
    ensures
        ({
            let s = h.spans@[id];
            let c = s.size_class as int;
            let cap = crate::size_class::spec_objects_per_span(c);
            let size = crate::size_class::spec_class_size(c);
            let free_count = s.free_objects.len() as int;
            &&& 0 <= free_count <= cap
            &&& free_count * size + (cap - free_count) * size
                + (s.num_pages * PAGE_SIZE - cap * size)
                == s.num_pages * PAGE_SIZE
        }),
{
    assert(h.wf_span(id));
    let s = h.spans@[id];
    let c = s.size_class as int;
    crate::size_class::lemma_class_table_wf(c);
    let cap = crate::size_class::spec_objects_per_span(c);
    let size = crate::size_class::spec_class_size(c);
    let free_count = s.free_objects.len() as int;
    assert(free_count * size + (cap - free_count) * size == cap * size)
        by (nonlinear_arith);
}

/// Pages of the live spans among the first `n` records, summed.
pub open spec fn spans_pages_sum(spans: Seq<Span>, n: int) -> int
    decreases n,
{
    if n <= 0 {
        0
    } else {
        spans_pages_sum(spans, n - 1)
            + if spans[n - 1].is_live() { spans[n - 1].num_pages as int } else { 0 }
    }
}

/// Pages of the live spans among the first `n` records, as a set.
spec fn spans_pages_set(spans: Seq<Span>, n: int) -> Set<int>
    decreases n,
{
    if n <= 0 {
        Set::empty()
    } else {
        spans_pages_set(spans, n - 1) + (if spans[n - 1].is_live() {
            vstd::set_lib::set_int_range(spans[n - 1].start_page as int,
                spans[n - 1].end_page())
        } else {
            Set::<int>::empty()
        })
    }
}

/// Membership in the page set: some live record among the first `n`
/// contains the page.
proof fn lemma_spans_pages_set_membership(spans: Seq<Span>, n: int, p: int)
    requires
        0 <= n <= spans.len(),
    ensures
        spans_pages_set(spans, n).contains(p)
            <==> exists|id: int| 0 <= id < n
                && (#[trigger] spans[id]).is_live() && spans[id].contains_page(p),
    decreases n,
{
    if n > 0 {
        lemma_spans_pages_set_membership(spans, n - 1, p);
        if spans_pages_set(spans, n).contains(p) {
            if !spans_pages_set(spans, n - 1).contains(p) {
                assert(spans[n - 1].is_live() && spans[n - 1].contains_page(p));
            }
        }
        if exists|id: int| 0 <= id < n
            && (#[trigger] spans[id]).is_live() && spans[id].contains_page(p) {
            let id = choose|id: int| 0 <= id < n
                && (#[trigger] spans[id]).is_live() && spans[id].contains_page(p);
            if id < n - 1 {
                assert(spans_pages_set(spans, n - 1).contains(p));
            }
        }
    }
}

/// The page sets are finite.
proof fn lemma_spans_pages_set_finite(spans: Seq<Span>, n: int)
    requires
        0 <= n <= spans.len(),
    ensures
        spans_pages_set(spans, n).finite(),
    decreases n,
{
    broadcast use vstd::set::group_set_axioms;

    if n > 0 {
        lemma_spans_pages_set_finite(spans, n - 1);
        if spans[n - 1].is_live() {
            vstd::set_lib::lemma_int_range(spans[n - 1].start_page as int,
                spans[n - 1].end_page());
        }
    }
}

/// Under the heap's partition, the live spans' page counts sum to the
/// size of the set of pages they cover: no page is counted twice.
proof fn lemma_spans_pages_sum_card(h: PageHeap, n: int)
    requires
        h.wf(),
        0 <= n <= h.spans.len(),
    ensures
        spans_pages_set(h.spans@, n).len() == spans_pages_sum(h.spans@, n),
    decreases n,
{
    broadcast use vstd::set::group_set_axioms;

    let spans = h.spans@;
    if n > 0 {
        lemma_spans_pages_sum_card(h, n - 1);
        lemma_spans_pages_set_finite(spans, n - 1);
        if spans[n - 1].is_live() {
            assert(h.wf_span(n - 1));
            let rng = vstd::set_lib::set_int_range(spans[n - 1].start_page as int,
                spans[n - 1].end_page());
            vstd::set_lib::lemma_int_range(spans[n - 1].start_page as int,
                spans[n - 1].end_page());
            // the new record's pages are disjoint from the earlier ones:
            // each page points back to its one owner
            assert(spans_pages_set(spans, n - 1).disjoint(rng)) by {
                assert forall|p: int| spans_pages_set(spans, n - 1).contains(p)
                    implies !rng.contains(p) by {
                    lemma_spans_pages_set_membership(spans, n - 1, p);
                    let id = choose|id: int| 0 <= id < n - 1
                        && (#[trigger] spans[id]).is_live() && spans[id].contains_page(p);
                    assert(h.wf_span(id));
                    assert(h.page_map@[p] as int == id);
                    if rng.contains(p) {
                        assert(spans[n - 1].contains_page(p));
                        assert(h.page_map@[p] as int == n - 1);
                    }
                }
            }
            vstd::set_lib::lemma_set_disjoint_lens(
                spans_pages_set(spans, n - 1), rng);
        } else {
            assert(spans_pages_set(spans, n)
                =~= spans_pages_set(spans, n - 1));
        }
    }
}

/// Conservation of reserved memory: the pages of the live spans — free,
/// small and large together — sum to exactly the reserved pages (the
/// never-owned null sentinel page aside).  Nothing reserved is lost and
/// nothing is owned twice.
pub proof fn lemma_reserved_pages_conserved(h: PageHeap)
    requires
        h.wf(),
    ensures
        spans_pages_sum(h.spans@, h.spans.len() as int) == h.page_map.len() - 1,
{
    broadcast use vstd::set::group_set_axioms;

    let n = h.spans.len() as int;
    let all = spans_pages_set(h.spans@, n);
    let reserved = vstd::set_lib::set_int_range(1, h.page_map.len() as int);
    assert(all =~= reserved) by {
        assert forall|p: int| all.contains(p) implies reserved.contains(p) by {
            lemma_spans_pages_set_membership(h.spans@, n, p);
            let id = choose|id: int| 0 <= id < n
                && (#[trigger] h.spans@[id]).is_live() && h.spans@[id].contains_page(p);
            assert(h.wf_span(id));
        }
        assert forall|p: int| reserved.contains(p) implies all.contains(p) by {
            assert(h.page_owner_ok(p));
            lemma_spans_pages_set_membership(h.spans@, n, p);
            let id = h.page_map@[p] as int;
            assert(0 <= id < n && h.spans@[id].is_live()
                && h.spans@[id].contains_page(p));
        }
    }
    lemma_spans_pages_sum_card(h, n);
    vstd::set_lib::lemma_int_range(1, h.page_map.len() as int);
}

/// Replacing one span record with another of the same placement keeps the
/// heap well-formed, as long as the replacement's fields fit its state and
/// a replacement that is free was free before (so coalescing cannot be
/// newly violated).
pub(crate) proof fn lemma_replace_span_wf(h0: PageHeap, h1: PageHeap, id: int)
    requires
        h0.wf(),
        0 <= id < h0.spans.len(),
        h1.spans.len() == h0.spans.len(),
        forall|j: int| 0 <= j < h0.spans.len() && j != id
            ==> h1.spans@[j] == h0.spans@[j],
        h1.page_map@ == h0.page_map@,
        h1.mem.len() == h0.mem.len(),
        h0.spans@[id].is_live(),
        h1.spans@[id].is_live(),
        h1.spans@[id].start_page == h0.spans@[id].start_page,
        h1.spans@[id].num_pages == h0.spans@[id].num_pages,
        h1.spans@[id].fields_wf(),
        h1.spans@[id].state == SpanState::Free ==> h0.spans@[id].state == SpanState::Free,
    ensures
        h1.wf(),
{
    assert(h0.wf_span(id));
    assert forall|j: int| 0 <= j < h1.spans.len() implies #[trigger] h1.wf_span(j) by {
        assert(h0.wf_span(j));
        if j != id && h1.spans@[j].is_live() {
            assert(h1.spans@[j] == h0.spans@[j]);
        }
    }
    assert forall|p: int| 1 <= p < h1.page_map.len() implies #[trigger] h1.page_owner_ok(p) by {
        assert(h0.page_owner_ok(p));
        let o = h0.page_map@[p] as int;
        if o != id {
            assert(h1.spans@[o] == h0.spans@[o]);
        }
    }
    assert forall|i: int, j: int| #![trigger h1.spans@[i], h1.spans@[j]]
        0 <= i < h1.spans.len() && 0 <= j < h1.spans.len() && i != j
        && h1.spans@[i].state == SpanState::Free
        && h1.spans@[j].state == SpanState::Free
        implies h1.spans@[i].end_page() != h1.spans@[j].start_page by {
        assert(h0.spans@[i].state == SpanState::Free);
        assert(h0.spans@[j].state == SpanState::Free);
        assert(h0.spans@[i].end_page() == h1.spans@[i].end_page());
        assert(h0.spans@[j].start_page == h1.spans@[j].start_page);
    }
}

/// After splitting a tail off an owned span, the heap is well-formed
/// again: other spans' pages are untouched, the head keeps its prefix of
/// the page map, and the tail's pages now map to the new free span.
proof fn lemma_split_wf(h0: PageHeap, h1: PageHeap, id: int, tid: int,
    start: int, n: int, num: int)
    requires
        h0.wf(),
        0 <= id < h0.spans.len(),
        h0.spans@[id].state == SpanState::Large,
        h0.spans@[id].start_page == start,
        h0.spans@[id].num_pages == num,
        1 <= n < num,
        forall|j: int| 0 <= j < h0.spans.len()
            && (#[trigger] h0.spans@[j]).state == SpanState::Free
            ==> h0.spans@[j].start_page != start + num,
        tid == h0.spans.len(),
        h1.spans.len() == h0.spans.len() + 1,
        forall|j: int| 0 <= j < h0.spans.len() && j != id
            ==> h1.spans@[j] == h0.spans@[j],
        h1.spans@[id].state == SpanState::Large,
        h1.spans@[id].start_page == start,
        h1.spans@[id].num_pages == n,
        h1.spans@[id].size_class == 0,
        h1.spans@[id].free_objects.len() == 0,
        h1.spans@[tid].state == SpanState::Free,
        h1.spans@[tid].start_page == start + n,
        h1.spans@[tid].num_pages == num - n,
        h1.spans@[tid].size_class == 0,
        h1.spans@[tid].free_objects.len() == 0,
        h1.page_map.len() == h0.page_map.len(),
        forall|q: int| 0 <= q < h1.page_map.len() && !(start + n <= q < start + num)
            ==> h1.page_map@[q] == h0.page_map@[q],
        forall|q: int| start + n <= q < start + num ==> h1.page_map@[q] as int == tid,
        h1.mem@ == h0.mem@,
    ensures
        h1.wf(),
{
    assert(h0.wf_span(id));
    assert forall|j: int| 0 <= j < h1.spans.len() implies #[trigger] h1.wf_span(j) by {
        if j == id || j == tid {
            assert forall|p: int| #![trigger h1.page_map@[p]]
                h1.spans@[j].contains_page(p) implies h1.page_map@[p] as int == j by {
                if j == id {
                    assert(h0.page_map@[p] as int == id);
                }
            }
        } else if j < h0.spans.len() {
            assert(h0.wf_span(j));
            if h1.spans@[j].is_live() {
                assert forall|p: int| #![trigger h1.page_map@[p]]
                    h1.spans@[j].contains_page(p) implies h1.page_map@[p] as int == j by {
                    assert(h0.page_map@[p] as int == j);
                    if start + n <= p < start + num {
                        assert(h0.spans@[id].contains_page(p));
                        assert(h0.page_map@[p] as int == id);
                    }
                }
            }
        }
    }
    assert forall|p: int| 1 <= p < h1.page_map.len() implies #[trigger] h1.page_owner_ok(p) by {
        if start + n <= p < start + num {
            assert(h1.page_map@[p] as int == tid);
        } else {
            assert(h0.page_owner_ok(p));
            let o = h0.page_map@[p] as int;
            if o == id {
                assert(h0.spans@[id].contains_page(p));
                assert(h1.spans@[id].contains_page(p));
            } else {
                assert(h1.spans@[o] == h0.spans@[o]);
            }
        }
    }
    assert forall|i: int, j: int| #![trigger h1.spans@[i], h1.spans@[j]]
        0 <= i < h1.spans.len() && 0 <= j < h1.spans.len() && i != j
        && h1.spans@[i].state == SpanState::Free
        && h1.spans@[j].state == SpanState::Free
        implies h1.spans@[i].end_page() != h1.spans@[j].start_page by {
        if i == tid && j < h0.spans.len() {
            // no free span starts at the old span's end, by the caller's
            // guarantee
            assert(h0.spans@[j].state == SpanState::Free);
        } else if j == tid && i < h0.spans.len() {
            // a free span ending at the tail's start would have owned the
            // page before it, which belongs to the split span
            assert(h0.spans@[i] == h1.spans@[i]);
            if h1.spans@[i].end_page() == start + n {
                assert(h0.wf_span(i));
                assert(h0.spans@[i].contains_page(start + n - 1));
                assert(h0.page_map@[start + n - 1] as int == i);
                assert(h0.spans@[id].contains_page(start + n - 1));
                assert(h0.page_map@[start + n - 1] as int == id);
            }
        } else {
            assert(h0.spans@[i] == h1.spans@[i]);
            assert(h0.spans@[j] == h1.spans@[j]);
        }
    }
}

/// After a grow, the heap is well-formed again: the old partition is
/// untouched and the new pages all belong to the one new span.
proof fn lemma_grow_wf(h0: PageHeap, h1: PageHeap, id: int, start: int, n: int)
    requires
        h0.wf(),
        1 <= n,
        start == h0.page_map.len(),
        start + n <= MAX_PAGES,
        id == h0.spans.len(),
        h1.spans@ == h0.spans@.push(h1.spans@[id]),
        h1.spans@[id].state == SpanState::Large,
        h1.spans@[id].start_page == start,
        h1.spans@[id].num_pages == n,
        h1.spans@[id].size_class == 0,
        h1.spans@[id].free_objects.len() == 0,
        h1.page_map.len() == start + n,
        forall|q: int| 0 <= q < start ==> h1.page_map@[q] == h0.page_map@[q],
        forall|q: int| start <= q < start + n ==> h1.page_map@[q] == id,
        h1.mem.len() == (start + n) * PAGE_SIZE,
    ensures
        h1.wf(),
{
    assert forall|j: int| 0 <= j < h1.spans.len() implies #[trigger] h1.wf_span(j) by {
        if j < h0.spans.len() {
            assert(h0.wf_span(j));
            assert(h1.spans@[j] == h0.spans@[j]);
            if h1.spans@[j].is_live() {
                assert forall|p: int| #![trigger h1.page_map@[p]]
                    h1.spans@[j].contains_page(p) implies h1.page_map@[p] as int == j by {
                    assert(h0.page_map@[p] as int == j);
                }
            }
        }
    }
    assert forall|p: int| 1 <= p < h1.page_map.len() implies #[trigger] h1.page_owner_ok(p) by {
        if p < start {
            assert(h0.page_owner_ok(p));
            let o = h0.page_map@[p] as int;
            assert(h1.spans@[o] == h0.spans@[o]);
        } else {
            assert(h1.page_map@[p] as int == id);
        }
    }
    assert forall|i: int, j: int| #![trigger h1.spans@[i], h1.spans@[j]]
        0 <= i < h1.spans.len() && 0 <= j < h1.spans.len() && i != j
        && h1.spans@[i].state == SpanState::Free
        && h1.spans@[j].state == SpanState::Free
        implies h1.spans@[i].end_page() != h1.spans@[j].start_page by {
        assert(i < h0.spans.len() && j < h0.spans.len());
        assert(h0.spans@[i] == h1.spans@[i]);
        assert(h0.spans@[j] == h1.spans@[j]);
    }
}

} // verus!
