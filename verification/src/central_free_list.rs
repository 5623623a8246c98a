//! Central cache: per-size-class span inventory.
//!
//! Each size class has one bucket holding the spans carved for it, split
//! into a list of spans with free objects and a list of fully handed-out
//! spans.  The bucket serves batch requests from thread caches: it pops
//! objects from its spans' free lists, asking the page heap for a fresh
//! span when every span is exhausted, and it takes batches back, pushing
//! each object onto the free list of the span that owns it and returning
//! a span to the page heap once all of its objects are home.

use vstd::prelude::*;
use crate::PAGE_SIZE;
use crate::size_class::{
    class_info, spec_class_pages, spec_class_size, spec_objects_per_span,
    lemma_class_table_wf, NUM_SIZE_CLASSES,
};
use crate::span::{
    lemma_addr_page_range, lemma_missing_slot_room, Span, SpanState,
};
use crate::page_heap::{lemma_replace_span_wf, PageHeap};

verus! {

/// The spans of one size class, keyed by whether they still have free
/// objects.
pub struct CentralBucket {
    /// Spans with at least one free object.
    pub nonempty: Vec<usize>,
    /// Spans whose objects are all handed out.
    pub empty: Vec<usize>,
}

/// One bucket per size class (index 0 unused).
pub struct CentralCache {
    pub buckets: Vec<CentralBucket>,
}

impl CentralCache {
    /// Every entry of bucket `c` is a live small span of class `c`, on the
    /// list matching its free count, and no span is listed twice.
    pub open spec fn bucket_wf(self, h: PageHeap, c: int) -> bool {
        &&& forall|k: int| 0 <= k < self.buckets@[c].nonempty.len() ==> {
            &&& (#[trigger] self.buckets@[c].nonempty@[k] as int) < h.spans.len()
            &&& h.spans@[self.buckets@[c].nonempty@[k] as int].state == SpanState::Small
            &&& h.spans@[self.buckets@[c].nonempty@[k] as int].size_class == c
            &&& h.spans@[self.buckets@[c].nonempty@[k] as int].free_objects.len() > 0
        }
        &&& forall|k: int| 0 <= k < self.buckets@[c].empty.len() ==> {
            &&& (#[trigger] self.buckets@[c].empty@[k] as int) < h.spans.len()
            &&& h.spans@[self.buckets@[c].empty@[k] as int].state == SpanState::Small
            &&& h.spans@[self.buckets@[c].empty@[k] as int].size_class == c
            &&& h.spans@[self.buckets@[c].empty@[k] as int].free_objects.len() == 0
        }
        &&& self.buckets@[c].nonempty@.no_duplicates()
        &&& self.buckets@[c].empty@.no_duplicates()
    }

    /// Span `id` is tracked by its class's bucket, on the list matching
    /// its free count.
    pub open spec fn listed(self, h: PageHeap, id: int) -> bool {
        if h.spans@[id].free_objects.len() > 0 {
            self.buckets@[h.spans@[id].size_class as int].nonempty@.contains(id as usize)
        } else {
            self.buckets@[h.spans@[id].size_class as int].empty@.contains(id as usize)
        }
    }

    /// The central cache's invariant against a heap: every bucket entry is
    /// a matching small span, and every small span is tracked.
    pub open spec fn wf(self, h: PageHeap) -> bool {
        &&& self.buckets.len() == NUM_SIZE_CLASSES
        &&& forall|c: int| 1 <= c < NUM_SIZE_CLASSES ==> #[trigger] self.bucket_wf(h, c)
        &&& forall|id: int| 0 <= id < h.spans.len()
            && (#[trigger] h.spans@[id]).state == SpanState::Small
            ==> self.listed(h, id)
    }

    /// A fresh central cache: one empty bucket per size class.
    pub fn new() -> (cc: CentralCache)
        ensures
            cc.buckets.len() == NUM_SIZE_CLASSES,
            forall|c: int| 0 <= c < NUM_SIZE_CLASSES
                ==> (#[trigger] cc.buckets@[c]).nonempty.len() == 0
                    && cc.buckets@[c].empty.len() == 0,
    {
        let mut buckets: Vec<CentralBucket> = Vec::new();
        let mut c: usize = 0;
        while c < NUM_SIZE_CLASSES
            invariant
                buckets.len() == c,
                c <= NUM_SIZE_CLASSES,
                forall|j: int| 0 <= j < c
                    ==> (#[trigger] buckets@[j]).nonempty.len() == 0
                        && buckets@[j].empty.len() == 0,
            decreases NUM_SIZE_CLASSES - c,
        {
            buckets.push(CentralBucket { nonempty: Vec::new(), empty: Vec::new() });
            c = c + 1;
        }
        CentralCache { buckets }
    }
}

/// Detach the most recently freed object of small span `id` from its free
/// list: the object is then checked out.
fn pop_span_object(heap: &mut PageHeap, id: usize) -> (a: usize)
    requires
        old(heap).wf(),
        id < old(heap).spans.len(),
        old(heap).spans@[id as int].state == SpanState::Small,
        old(heap).spans@[id as int].free_objects.len() > 0,
    ensures
        final(heap).wf(),
        a == old(heap).spans@[id as int].free_objects@.last(),
        final(heap).spans.len() == old(heap).spans.len(),
        forall|j: int| 0 <= j < old(heap).spans.len() && j != id
            ==> final(heap).spans@[j] == old(heap).spans@[j],
        final(heap).spans@[id as int].state == SpanState::Small,
        final(heap).spans@[id as int].size_class == old(heap).spans@[id as int].size_class,
        final(heap).spans@[id as int].start_page == old(heap).spans@[id as int].start_page,
        final(heap).spans@[id as int].num_pages == old(heap).spans@[id as int].num_pages,
        final(heap).spans@[id as int].free_objects@
            == old(heap).spans@[id as int].free_objects@.drop_last(),
        final(heap).page_map@ == old(heap).page_map@,
        final(heap).mem@ == old(heap).mem@,
        final(heap).span_allocs == old(heap).span_allocs,
        final(heap).checked_out(a, old(heap).spans@[id as int].size_class as int),
{
    proof {
        assert(old(heap).wf_span(id as int));
    }
    let mut sp = Span::retired();
    heap.spans.set_and_swap(id, &mut sp);
    let a = sp.free_objects.pop().unwrap();
    heap.spans.set_and_swap(id, &mut sp);
    proof {
        let s0 = old(heap).spans@[id as int];
        let objs = s0.free_objects@;
        assert(heap.spans@[id as int].free_objects@ == objs.drop_last());
        assert forall|j: int| 0 <= j < objs.len() - 1 implies objs[j] != a by {}
        assert(!objs.drop_last().contains(a));
        lemma_replace_span_wf(*old(heap), *heap, id as int);
        // the popped address lies on one of the span's own pages
        let c = s0.size_class as int;
        lemma_class_table_wf(c);
        assert(objs.contains(a)) by {
            assert(objs.last() == objs[objs.len() - 1]);
        }
        assert(s0.is_slot(a as int));
        assert(spec_objects_per_span(c) * spec_class_size(c)
            <= spec_class_pages(c) * PAGE_SIZE);
        lemma_addr_page_range(a as int, s0.start_page as int, s0.end_page());
        assert(heap.page_map@[a as int / (PAGE_SIZE as int)] as int == id);
    }
    a
}

/// Thread a checked-out object of small span `id` back onto the span's
/// free list.
fn push_span_object(heap: &mut PageHeap, id: usize, a: usize)
    requires
        old(heap).wf(),
        id < old(heap).spans.len(),
        old(heap).spans@[id as int].state == SpanState::Small,
        old(heap).spans@[id as int].is_slot(a as int),
        !old(heap).spans@[id as int].free_objects@.contains(a),
    ensures
        final(heap).wf(),
        final(heap).spans.len() == old(heap).spans.len(),
        forall|j: int| 0 <= j < old(heap).spans.len() && j != id
            ==> final(heap).spans@[j] == old(heap).spans@[j],
        final(heap).spans@[id as int].state == SpanState::Small,
        final(heap).spans@[id as int].size_class == old(heap).spans@[id as int].size_class,
        final(heap).spans@[id as int].start_page == old(heap).spans@[id as int].start_page,
        final(heap).spans@[id as int].num_pages == old(heap).spans@[id as int].num_pages,
        final(heap).spans@[id as int].free_objects@
            == old(heap).spans@[id as int].free_objects@.push(a),
        final(heap).page_map@ == old(heap).page_map@,
        final(heap).mem@ == old(heap).mem@,
        final(heap).span_allocs == old(heap).span_allocs,
{
    proof {
        assert(old(heap).wf_span(id as int));
        lemma_missing_slot_room(old(heap).spans@[id as int], a);
    }
    let mut sp = Span::retired();
    heap.spans.set_and_swap(id, &mut sp);
    sp.free_objects.push(a);
    heap.spans.set_and_swap(id, &mut sp);
    proof {
        let s0 = old(heap).spans@[id as int];
        let objs = s0.free_objects@;
        assert forall|j1: int, j2: int|
            0 <= j1 < objs.push(a).len() && 0 <= j2 < objs.push(a).len() && j1 != j2
            implies objs.push(a)[j1] != objs.push(a)[j2] by {
            if j1 < objs.len() && j2 < objs.len() {
            } else if j1 == objs.len() {
                assert(objs.push(a)[j2] == objs[j2]);
                assert(objs.contains(objs[j2]));
            } else {
                assert(objs.push(a)[j1] == objs[j1]);
                assert(objs.contains(objs[j1]));
            }
        }
        lemma_replace_span_wf(*old(heap), *heap, id as int);
    }
}

/// Carve a freshly provided span into the objects of class `c`: assign
/// the class and build the span's free list, one entry per slot.
fn carve_span(heap: &mut PageHeap, id: usize, c: usize)
    requires
        old(heap).wf(),
        id < old(heap).spans.len(),
        old(heap).spans@[id as int].state == SpanState::Large,
        old(heap).spans@[id as int].free_objects.len() == 0,
        1 <= c < NUM_SIZE_CLASSES,
        old(heap).spans@[id as int].num_pages == spec_class_pages(c as int),
    ensures
        final(heap).wf(),
        final(heap).spans.len() == old(heap).spans.len(),
        forall|j: int| 0 <= j < old(heap).spans.len() && j != id
            ==> final(heap).spans@[j] == old(heap).spans@[j],
        final(heap).spans@[id as int].state == SpanState::Small,
        final(heap).spans@[id as int].size_class == c,
        final(heap).spans@[id as int].start_page == old(heap).spans@[id as int].start_page,
        final(heap).spans@[id as int].num_pages == old(heap).spans@[id as int].num_pages,
        final(heap).spans@[id as int].free_objects.len() == spec_objects_per_span(c as int),
        final(heap).page_map@ == old(heap).page_map@,
        final(heap).mem@ == old(heap).mem@,
        final(heap).span_allocs == old(heap).span_allocs,
    {
        proof {
            assert(old(heap).wf_span(id as int));
            lemma_class_table_wf(c as int);
        }
        let info = class_info(c);
        let size = info.size;
        let start_page = heap.spans[id].start_page;
        let num_pages = heap.spans[id].num_pages;
        let cap = info.objects_per_span();
        let base = start_page * PAGE_SIZE;
        let ghost cap_i = spec_objects_per_span(c as int);
        let ghost size_i = spec_class_size(c as int);
        proof {
            assert(cap_i * size_i <= spec_class_pages(c as int) * PAGE_SIZE);
            assert(base + spec_class_pages(c as int) * PAGE_SIZE
                == (start_page + num_pages) * PAGE_SIZE) by (nonlinear_arith)
                requires
                    base == start_page * PAGE_SIZE,
                    num_pages == spec_class_pages(c as int);
            assert((start_page + num_pages) * PAGE_SIZE
                <= crate::MAX_PAGES * PAGE_SIZE) by (nonlinear_arith)
                requires start_page + num_pages <= crate::MAX_PAGES;
        }
        let mut objs: Vec<usize> = Vec::new();
        let mut k: usize = 0;
        while k < cap
            invariant
                objs.len() == k,
                k <= cap,
                cap == cap_i,
                size == size_i,
                1 <= c < NUM_SIZE_CLASSES,
                size_i == spec_class_size(c as int),
                cap_i == spec_objects_per_span(c as int),
                8 <= size_i,
                base == start_page * PAGE_SIZE,
                base + cap_i * size_i <= crate::MAX_PAGES * PAGE_SIZE,
                forall|j: int| 0 <= j < k ==> objs@[j] == base + j * size_i,
            decreases cap - k,
        {
            proof {
                assert(k * size_i + size_i == (k + 1) * size_i) by (nonlinear_arith);
                assert((k + 1) * size_i <= cap_i * size_i) by (nonlinear_arith)
                    requires k + 1 <= cap_i, size_i >= 1;
            }
            objs.push(base + k * size);
            k = k + 1;
        }
        let mut sp = Span::retired();
        heap.spans.set_and_swap(id, &mut sp);
        sp = Span {
            state: SpanState::Small,
            start_page,
            num_pages,
            size_class: c,
            free_objects: objs,
            alloc_addr: 0,
        };
        heap.spans.set(id, sp);
        proof {
            let s1 = heap.spans@[id as int];
            assert forall|j: int| 0 <= j < s1.free_objects.len()
                implies s1.is_slot(#[trigger] s1.free_objects[j] as int) by {
                assert(s1.free_objects@[j] == base + j * size_i);
                vstd::arithmetic::div_mod::lemma_mod_multiples_basic(j, size_i);
                assert((base + j * size_i - base) % size_i == 0);
                assert(j * size_i < cap_i * size_i) by (nonlinear_arith)
                    requires j < cap_i, size_i >= 1;
                assert(j * size_i >= 0) by (nonlinear_arith)
                    requires j >= 0, size_i >= 1;
            }
            assert forall|j1: int, j2: int|
                0 <= j1 < s1.free_objects.len() && 0 <= j2 < s1.free_objects.len() && j1 != j2
                implies s1.free_objects@[j1] != s1.free_objects@[j2] by {
                assert(j1 * size_i != j2 * size_i) by (nonlinear_arith)
                    requires j1 != j2, size_i >= 1;
            }
            assert(s1.free_objects@.no_duplicates());
            lemma_replace_span_wf(*old(heap), *heap, id as int);
        }
    }

/// Remove the one occurrence of `id` from a duplicate-free list of span
/// indices.
fn remove_id(list: &mut Vec<usize>, id: usize)
    requires
        old(list)@.contains(id),
        old(list)@.no_duplicates(),
    ensures
        final(list)@.no_duplicates(),
        final(list).len() == old(list).len() - 1,
        forall|x: usize| #[trigger] final(list)@.contains(x)
            <==> (old(list)@.contains(x) && x != id),
{
    let n = list.len();
    let mut i: usize = 0;
    while i < n
        invariant
            i <= n,
            n == list.len(),
            *list == *old(list),
            old(list)@.contains(id),
            old(list)@.no_duplicates(),
            forall|j: int| 0 <= j < i ==> old(list)@[j] != id,
        decreases n - i,
    {
        if list[i] == id {
            list.remove(i);
            proof {
                let s0 = old(list)@;
                let s1 = list@;
                assert forall|x: usize| s1.contains(x) implies s0.contains(x) && x != id by {
                    let j = choose|j: int| 0 <= j < s1.len() && s1[j] == x;
                    if j < i {
                        assert(s0[j] == x);
                    } else {
                        assert(s0[j + 1] == x);
                    }
                }
                assert forall|x: usize| s0.contains(x) && x != id implies s1.contains(x) by {
                    let j = choose|j: int| 0 <= j < s0.len() && s0[j] == x;
                    if j < i {
                        assert(s1[j] == x);
                    } else {
                        assert(s1[j - 1] == x);
                    }
                }
                assert forall|j1: int, j2: int|
                    0 <= j1 < s1.len() && 0 <= j2 < s1.len() && j1 != j2
                    implies s1[j1] != s1[j2] by {
                    let k1: int = if j1 < i { j1 } else { j1 + 1 };
                    let k2: int = if j2 < i { j2 } else { j2 + 1 };
                    assert(s1[j1] == s0[k1]);
                    assert(s1[j2] == s0[k2]);
                }
            }
            return;
        }
        i = i + 1;
    }
    proof {
        let j = choose|j: int| 0 <= j < old(list)@.len() && old(list)@[j] == id;
        assert(false);
    }
}

/// Small spans kept intact keep the central cache well-formed: no bucket
/// entry names a span that moved, and no span became small behind the
/// cache's back.
pub(crate) proof fn lemma_central_wf_frame(cc: CentralCache, h0: PageHeap, h1: PageHeap)
    requires
        cc.wf(h0),
        h1.spans.len() >= h0.spans.len(),
        forall|id: int| 0 <= id < h0.spans.len()
            && (#[trigger] h0.spans@[id]).state == SpanState::Small
            ==> h1.spans@[id] == h0.spans@[id],
        forall|id: int| 0 <= id < h1.spans.len()
            && (#[trigger] h1.spans@[id]).state == SpanState::Small
            ==> 0 <= id < h0.spans.len() && h0.spans@[id].state == SpanState::Small,
    ensures
        cc.wf(h1),
{
    assert forall|c: int| 1 <= c < NUM_SIZE_CLASSES implies #[trigger] cc.bucket_wf(h1, c) by {
        assert(cc.bucket_wf(h0, c));
        assert forall|k: int| 0 <= k < cc.buckets@[c].nonempty.len() implies {
            &&& (#[trigger] cc.buckets@[c].nonempty@[k] as int) < h1.spans.len()
            &&& h1.spans@[cc.buckets@[c].nonempty@[k] as int].state == SpanState::Small
            &&& h1.spans@[cc.buckets@[c].nonempty@[k] as int].size_class == c
            &&& h1.spans@[cc.buckets@[c].nonempty@[k] as int].free_objects.len() > 0
        } by {
            let id = cc.buckets@[c].nonempty@[k] as int;
            assert(h0.spans@[id].state == SpanState::Small);
        }
        assert forall|k: int| 0 <= k < cc.buckets@[c].empty.len() implies {
            &&& (#[trigger] cc.buckets@[c].empty@[k] as int) < h1.spans.len()
            &&& h1.spans@[cc.buckets@[c].empty@[k] as int].state == SpanState::Small
            &&& h1.spans@[cc.buckets@[c].empty@[k] as int].size_class == c
            &&& h1.spans@[cc.buckets@[c].empty@[k] as int].free_objects.len() == 0
        } by {
            let id = cc.buckets@[c].empty@[k] as int;
            assert(h0.spans@[id].state == SpanState::Small);
        }
    }
    assert forall|id: int| 0 <= id < h1.spans.len()
        && (#[trigger] h1.spans@[id]).state == SpanState::Small
        implies cc.listed(h1, id) by {
        assert(h0.spans@[id].state == SpanState::Small);
        assert(cc.listed(h0, id));
        assert(h1.spans@[id] == h0.spans@[id]);
    }
}

impl CentralCache {
    /// Hand out up to `max_count` objects of class `c`, popping them from
    /// the class's spans and asking the page heap for a fresh span when
    /// all are drained.  Returns fewer objects only when the page heap is
    /// exhausted, and an empty batch only when it was exhausted from the
    /// start.  Nothing already checked out is disturbed or handed out
    /// again.
    pub fn remove_range(&mut self, c: usize, max_count: usize, heap: &mut PageHeap)
        -> (batch: Vec<usize>)
        requires
            old(heap).wf(),
            old(self).wf(*old(heap)),
            1 <= c < NUM_SIZE_CLASSES,
            1 <= max_count,
        ensures
            final(heap).wf(),
            final(self).wf(*final(heap)),
            batch.len() <= max_count,
            batch@.no_duplicates(),
            forall|k: int| 0 <= k < batch.len()
                ==> final(heap).checked_out(#[trigger] batch@[k], c as int),
            forall|a: usize, c2: int| old(heap).checked_out(a, c2)
                ==> final(heap).checked_out(a, c2) && !batch@.contains(a),
            forall|id: int| 0 <= id < old(heap).spans.len()
                && (#[trigger] old(heap).spans@[id]).state == SpanState::Large
                ==> final(heap).spans@[id] == old(heap).spans@[id],
            final(heap).spans.len() >= old(heap).spans.len(),
            final(heap).page_map.len() >= old(heap).page_map.len(),
            final(heap).mem.len() >= old(heap).mem.len(),
            forall|b: int| 0 <= b < old(heap).mem.len()
                ==> final(heap).mem@[b] == old(heap).mem@[b],
            // fewer than asked only when the class is drained and the page
            // heap cannot grow
            batch.len() < max_count
                ==> final(self).buckets@[c as int].nonempty.len() == 0
                    && !final(heap).can_allocate(spec_class_pages(c as int)),
            batch.len() == 0 ==> *final(heap) == *old(heap) && *final(self) == *old(self)
                && (old(self).buckets@[c as int].nonempty.len() == 0
                    && !old(heap).can_allocate(spec_class_pages(c as int))),
    {
        let ghost h0 = *old(heap);
        let mut batch: Vec<usize> = Vec::new();
        let mut done = false;
        let ghost mut untouched = true;
        while !done && batch.len() < max_count
            invariant
                h0 == *old(heap),
                h0.wf(),
                old(self).wf(h0),
                1 <= c < NUM_SIZE_CLASSES,
                1 <= max_count,
                heap.wf(),
                self.wf(*heap),
                self.buckets.len() == NUM_SIZE_CLASSES,
                batch.len() <= max_count,
                batch@.no_duplicates(),
                forall|k: int| 0 <= k < batch.len()
                    ==> heap.checked_out(#[trigger] batch@[k], c as int),
                forall|a: usize, c2: int| h0.checked_out(a, c2)
                    ==> heap.checked_out(a, c2) && !batch@.contains(a),
                forall|id: int| 0 <= id < h0.spans.len()
                    && (#[trigger] h0.spans@[id]).state == SpanState::Large
                    ==> heap.spans@[id] == h0.spans@[id],
                heap.spans.len() >= h0.spans.len(),
                heap.page_map.len() >= h0.page_map.len(),
                heap.mem.len() >= h0.mem.len(),
                forall|b: int| 0 <= b < h0.mem.len() ==> heap.mem@[b] == h0.mem@[b],
                untouched ==> *heap == h0 && *self == *old(self),
                !untouched && batch.len() == 0
                    ==> self.buckets@[c as int].nonempty.len() > 0,
                done ==> self.buckets@[c as int].nonempty.len() == 0
                    && !heap.can_allocate(spec_class_pages(c as int)),
                done ==> batch.len() > 0
                    || (untouched
                        && old(self).buckets@[c as int].nonempty.len() == 0
                        && !h0.can_allocate(spec_class_pages(c as int))),
            decreases
                max_count - batch.len(),
                (if done { 0int } else { 1int }),
                (if self.buckets@[c as int].nonempty.len() == 0 { 1int } else { 0int }),
        {
            let ghost pre = *heap;
            let ghost cpre = *self;
            if self.buckets[c].nonempty.len() == 0 {
                // Every span of this class is drained: fetch and carve a
                // fresh one.
                let info = class_info(c);
                match heap.allocate_span(info.pages) {
                    None => {
                        done = true;
                    },
                    Some(sid) => {
                        let ghost mid = *heap;
                        proof {
                            lemma_class_table_wf(c as int);
                            untouched = false;
                        }
                        carve_span(heap, sid, c);
                        proof {
                            // the carved span was fresh or free before, so
                            // every small span of the starting state is
                            // untouched and everything checked out stays so
                            assert forall|id2: int| 0 <= id2 < pre.spans.len()
                                && (#[trigger] pre.spans@[id2]).state == SpanState::Small
                                implies heap.spans@[id2] == pre.spans@[id2] by {
                                assert(mid.spans@[id2] == pre.spans@[id2]);
                                assert(id2 != sid);
                            }
                            assert forall|k: int| 0 <= k < batch.len()
                                implies heap.checked_out(#[trigger] batch@[k], c as int) by {
                                lemma_checked_out_preserved(pre, *heap, batch@[k], c as int);
                            }
                            assert forall|a2: usize, c2: int| h0.checked_out(a2, c2)
                                implies heap.checked_out(a2, c2) && !batch@.contains(a2) by {
                                assert(pre.checked_out(a2, c2));
                                lemma_checked_out_preserved(pre, *heap, a2, c2);
                            }
                            assert forall|id2: int| 0 <= id2 < h0.spans.len()
                                && (#[trigger] h0.spans@[id2]).state == SpanState::Large
                                implies heap.spans@[id2] == h0.spans@[id2] by {
                                assert(pre.spans@[id2] == h0.spans@[id2]);
                                assert(id2 != sid);
                                assert(mid.spans@[id2] == pre.spans@[id2]);
                            }
                            // the fresh span was large, so no list names it
                            assert forall|c2: int, k: int|
                                1 <= c2 < NUM_SIZE_CLASSES
                                && 0 <= k < cpre.buckets@[c2].nonempty.len()
                                implies (#[trigger] cpre.buckets@[c2].nonempty@[k]) != sid by {
                                assert(cpre.bucket_wf(pre, c2));
                                assert(pre.spans@[cpre.buckets@[c2].nonempty@[k] as int].state
                                    == SpanState::Small);
                            }
                            assert forall|c2: int, k: int|
                                1 <= c2 < NUM_SIZE_CLASSES
                                && 0 <= k < cpre.buckets@[c2].empty.len()
                                implies (#[trigger] cpre.buckets@[c2].empty@[k]) != sid by {
                                assert(cpre.bucket_wf(pre, c2));
                                assert(pre.spans@[cpre.buckets@[c2].empty@[k] as int].state
                                    == SpanState::Small);
                            }
                        }
                        let mut b = CentralBucket { nonempty: Vec::new(), empty: Vec::new() };
                        self.buckets.set_and_swap(c, &mut b);
                        b.nonempty.push(sid);
                        self.buckets.set(c, b);
                        proof {
                            lemma_remove_range_refill_wf(cpre, *self, pre, *heap,
                                c as int, sid as int);
                        }
                    },
                }
            } else {
                // Pop from the most recently filled span of the class.
                let nlen = self.buckets[c].nonempty.len();
                let id = self.buckets[c].nonempty[nlen - 1];
                proof {
                    assert(self.bucket_wf(*heap, c as int));
                    assert(self.buckets@[c as int].nonempty@[nlen - 1] == id);
                }
                let a = pop_span_object(heap, id);
                batch.push(a);
                proof {
                    untouched = false;
                }
                if heap.spans[id].free_objects.len() == 0 {
                    let mut b = CentralBucket { nonempty: Vec::new(), empty: Vec::new() };
                    self.buckets.set_and_swap(c, &mut b);
                    remove_id(&mut b.nonempty, id);
                    b.empty.push(id);
                    self.buckets.set(c, b);
                }
                proof {
                    // the popped object sat on its span's free list a
                    // moment ago, so nobody held it
                    assert(pre.wf_span(id as int));
                    let s = pre.spans@[id as int];
                    assert(s.free_objects@.last() == a);
                    assert(s.free_objects@.contains(a));
                    assert(s.is_slot(a as int));
                    lemma_class_table_wf(s.size_class as int);
                    assert(spec_objects_per_span(s.size_class as int)
                        * spec_class_size(s.size_class as int)
                        <= spec_class_pages(s.size_class as int) * PAGE_SIZE);
                    lemma_addr_page_range(a as int, s.start_page as int, s.end_page());
                    assert(pre.owner_of(a) == id);
                    assert forall|c2: int| !pre.checked_out(a, c2) by {}
                    lemma_remove_range_pop_wf(cpre, *self, pre, *heap, c as int, id as int);
                    assert forall|a2: usize, c2: int| h0.checked_out(a2, c2)
                        implies heap.checked_out(a2, c2) && !batch@.contains(a2) by {
                        assert(pre.checked_out(a2, c2));
                        assert(a2 != a);
                        lemma_checked_out_step(pre, *heap, a2, c2, id as int);
                        assert(!batch@.drop_last().contains(a2));
                        assert(batch@.last() == a);
                        assert forall|k: int| 0 <= k < batch.len()
                            implies (#[trigger] batch@[k]) != a2 by {
                            if k < batch.len() - 1 {
                                assert(batch@.drop_last()[k] == batch@[k]);
                                assert(batch@.drop_last().contains(batch@[k]));
                            }
                        }
                    }
                    assert forall|k: int| 0 <= k < batch.len()
                        implies heap.checked_out(#[trigger] batch@[k], c as int) by {
                        if k < batch.len() - 1 {
                            assert(batch@.drop_last()[k] == batch@[k]);
                            assert(pre.checked_out(batch@[k], c as int));
                            lemma_checked_out_step(pre, *heap, batch@[k], c as int,
                                id as int);
                        }
                    }
                    assert(batch@.no_duplicates()) by {
                        assert forall|j1: int, j2: int|
                            #![trigger batch@[j1], batch@[j2]]
                            0 <= j1 < batch.len() && 0 <= j2 < batch.len() && j1 != j2
                            implies batch@[j1] != batch@[j2] by {
                            if j1 < batch.len() - 1 && j2 == batch.len() - 1 {
                                assert(batch@.drop_last()[j1] == batch@[j1]);
                                assert(pre.checked_out(batch@[j1], c as int));
                            } else if j2 < batch.len() - 1 && j1 == batch.len() - 1 {
                                assert(batch@.drop_last()[j2] == batch@[j2]);
                                assert(pre.checked_out(batch@[j2], c as int));
                            } else {
                                assert(batch@.drop_last()[j1] == batch@[j1]);
                                assert(batch@.drop_last()[j2] == batch@[j2]);
                            }
                        }
                    }
                }
            }
        }
        batch
    }
}

impl CentralCache {
    /// Take a batch of checked-out objects of class `c` back.  Each object
    /// is pushed onto the free list of the span owning it, found through
    /// the page map; a span whose every object has come home is dropped
    /// from the bucket and returned to the page heap, where it coalesces
    /// with free neighbours.  Everything else checked out stays checked
    /// out.
    pub fn insert_range(&mut self, c: usize, objs: &Vec<usize>, heap: &mut PageHeap)
        requires
            old(heap).wf(),
            old(self).wf(*old(heap)),
            1 <= c < NUM_SIZE_CLASSES,
            forall|k: int| 0 <= k < objs.len()
                ==> old(heap).checked_out(#[trigger] objs@[k], c as int),
            objs@.no_duplicates(),
        ensures
            final(heap).wf(),
            final(self).wf(*final(heap)),
            forall|a: usize, c2: int|
                old(heap).checked_out(a, c2) && !objs@.contains(a)
                ==> final(heap).checked_out(a, c2),
            forall|k: int| 0 <= k < objs.len()
                ==> !final(heap).checked_out(#[trigger] objs@[k], c as int),
            small_spans_only_gained(*old(heap), *final(heap)),
            forall|id: int| 0 <= id < old(heap).spans.len()
                && (#[trigger] old(heap).spans@[id]).state == SpanState::Large
                ==> final(heap).spans@[id] == old(heap).spans@[id],
            final(heap).spans.len() == old(heap).spans.len(),
            final(heap).page_map.len() == old(heap).page_map.len(),
            final(heap).mem@ == old(heap).mem@,
    {
        let ghost h0 = *old(heap);
        let count = objs.len();
        let mut i: usize = 0;
        while i < count
            invariant
                h0 == *old(heap),
                h0.wf(),
                1 <= c < NUM_SIZE_CLASSES,
                count == objs.len(),
                i <= count,
                objs@.no_duplicates(),
                forall|k: int| 0 <= k < objs.len()
                    ==> h0.checked_out(#[trigger] objs@[k], c as int),
                heap.wf(),
                self.wf(*heap),
                self.buckets.len() == NUM_SIZE_CLASSES,
                forall|k: int| i <= k < count
                    ==> heap.checked_out(#[trigger] objs@[k], c as int),
                forall|a: usize, c2: int|
                    h0.checked_out(a, c2) && !objs@.contains(a)
                    ==> heap.checked_out(a, c2),
                forall|k: int| 0 <= k < i
                    ==> !heap.checked_out(#[trigger] objs@[k], c as int),
                small_spans_only_gained(h0, *heap),
                forall|id: int| 0 <= id < h0.spans.len()
                    && (#[trigger] h0.spans@[id]).state == SpanState::Large
                    ==> heap.spans@[id] == h0.spans@[id],
                heap.spans.len() == h0.spans.len(),
                heap.page_map.len() == h0.page_map.len(),
                heap.mem@ == h0.mem@,
            decreases count - i,
        {
            let ghost pre = *heap;
            let ghost cpre = *self;
            let a = objs[i];
            proof {
                assert(heap.checked_out(objs@[i as int], c as int));
                assert(a as int / (PAGE_SIZE as int) == a as usize as int / (PAGE_SIZE as int));
            }
            let page = a / PAGE_SIZE;
            proof {
                vstd::arithmetic::div_mod::lemma_div_is_ordered(0, a as int, PAGE_SIZE as int);
                assert(page as int == a as int / (PAGE_SIZE as int));
            }
            let id = heap.page_map[page];
            proof {
                assert(heap.owner_of(a) == id);
                assert(heap.wf_span(id as int));
            }
            let was_empty = heap.spans[id].free_objects.len() == 0;
            push_span_object(heap, id, a);
            let ghost hpush = *heap;
            if was_empty {
                // first object home: the span has free inventory again
                proof {
                    assert(cpre.bucket_wf(pre, c as int));
                    assert(cpre.listed(pre, id as int));
                }
                let mut b = CentralBucket { nonempty: Vec::new(), empty: Vec::new() };
                self.buckets.set_and_swap(c, &mut b);
                remove_id(&mut b.empty, id);
                b.nonempty.push(id);
                self.buckets.set(c, b);
            }
            proof {
                assert(cpre.listed(pre, id as int));
                lemma_insert_push_wf(cpre, *self, pre, *heap, c as int, id as int);
                assert forall|k: int| i + 1 <= k < count
                    implies heap.checked_out(#[trigger] objs@[k], c as int) by {
                    assert(pre.checked_out(objs@[k], c as int));
                    assert(objs@[k] != a);
                    lemma_checked_out_after_push(pre, *heap, objs@[k], c as int,
                        id as int, a);
                }
                assert forall|a2: usize, c2: int|
                    h0.checked_out(a2, c2) && !objs@.contains(a2)
                    implies heap.checked_out(a2, c2) by {
                    assert(pre.checked_out(a2, c2));
                    assert(a2 != a) by {
                        assert(objs@[i as int] == a);
                        assert(objs@.contains(objs@[i as int]));
                    }
                    lemma_checked_out_after_push(pre, *heap, a2, c2, id as int, a);
                }
                // small spans only gained an object in this step
                assert(small_spans_only_gained(pre, *heap)) by {
                    assert forall|j: int| 0 <= j < heap.spans.len()
                        && (#[trigger] heap.spans@[j]).state == SpanState::Small
                        implies pre.spans@[j].state == SpanState::Small
                            && (forall|x: usize| pre.spans@[j].free_objects@.contains(x)
                                ==> #[trigger] heap.spans@[j].free_objects@.contains(x)) by {
                        if j == id {
                            assert forall|x: usize|
                                pre.spans@[j].free_objects@.contains(x)
                                implies #[trigger] heap.spans@[j].free_objects@
                                    .contains(x) by {
                                let k0 = choose|k0: int|
                                    0 <= k0 < pre.spans@[j].free_objects.len()
                                    && pre.spans@[j].free_objects@[k0] == x;
                                assert(heap.spans@[j].free_objects@[k0] == x);
                            }
                        } else {
                            assert(heap.spans@[j] == pre.spans@[j]);
                        }
                    }
                }
                assert(small_spans_only_gained(h0, *heap)) by {
                    lemma_small_gained_trans(h0, pre, *heap);
                }
                // the object just taken home, and those before it, are no
                // longer checked out
                assert(!heap.checked_out(a, c as int)) by {
                    assert(heap.spans@[id as int].free_objects@.last() == a);
                    assert(heap.spans@[id as int].free_objects@.contains(a));
                }
                assert forall|k: int| 0 <= k < i
                    implies !heap.checked_out(#[trigger] objs@[k], c as int) by {
                    lemma_not_checked_out_preserved(pre, *heap, objs@[k], c as int);
                }
            }
            let info = class_info(c);
            let cap = info.objects_per_span();
            if heap.spans[id].free_objects.len() == cap {
                // every object of the span is home: give the span back to
                // the page heap
                proof {
                    assert(self.bucket_wf(*heap, c as int));
                    assert(self.listed(*heap, id as int));
                    lemma_class_table_wf(c as int);
                }
                let ghost cfull = *self;
                let mut b = CentralBucket { nonempty: Vec::new(), empty: Vec::new() };
                self.buckets.set_and_swap(c, &mut b);
                remove_id(&mut b.nonempty, id);
                self.buckets.set(c, b);
                let ghost hmid = *heap;
                heap.deallocate_span(id);
                proof {
                    // a full free list accounts for every slot, so nothing
                    // of this span is still held by anyone
                    assert forall|a2: usize, c2: int|
                        hmid.checked_out(a2, c2) implies hmid.owner_of(a2) != id as int by {
                        if hmid.owner_of(a2) == id as int {
                            lemma_missing_slot_room(hmid.spans@[id as int], a2);
                        }
                    }
                    lemma_insert_release_wf(cfull, *self, hmid, *heap, c as int, id as int);
                    assert forall|k: int| i + 1 <= k < count
                        implies heap.checked_out(#[trigger] objs@[k], c as int) by {
                        assert(hmid.checked_out(objs@[k], c as int));
                        lemma_checked_out_preserved_except(hmid, *heap, objs@[k],
                            c as int, id as int);
                    }
                    assert forall|a2: usize, c2: int|
                        h0.checked_out(a2, c2) && !objs@.contains(a2)
                        implies heap.checked_out(a2, c2) by {
                        assert(hmid.checked_out(a2, c2));
                        lemma_checked_out_preserved_except(hmid, *heap, a2, c2,
                            id as int);
                    }
                    assert forall|id2: int| 0 <= id2 < h0.spans.len()
                        && (#[trigger] h0.spans@[id2]).state == SpanState::Large
                        implies heap.spans@[id2] == h0.spans@[id2] by {
                        assert(hmid.spans@[id2] == h0.spans@[id2]);
                        assert(id2 != id as int);
                    }
                    // releasing the span keeps every object of it out of
                    // the checked-out state
                    assert(small_spans_only_gained(hmid, *heap)) by {
                        assert forall|j: int| 0 <= j < heap.spans.len()
                            && (#[trigger] heap.spans@[j]).state == SpanState::Small
                            implies hmid.spans@[j] == heap.spans@[j]
                                && hmid.spans@[j].state == SpanState::Small by {}
                    }
                    assert(small_spans_only_gained(h0, *heap)) by {
                        lemma_small_gained_trans(h0, hmid, *heap);
                    }
                    assert forall|k: int| 0 <= k < i + 1
                        implies !heap.checked_out(#[trigger] objs@[k], c as int) by {
                        lemma_not_checked_out_preserved(hmid, *heap, objs@[k], c as int);
                    }
                }
            }
            i = i + 1;
        }
    }
}

/// An object was pushed onto span `id`'s free list, and the span moved
/// from the empty list to the nonempty list if this was its first free
/// object: the cache matches the heap again.
proof fn lemma_insert_push_wf(cc0: CentralCache, cc1: CentralCache,
    h0: PageHeap, h1: PageHeap, c: int, id: int)
    requires
        h0.wf(),
        h1.wf(),
        cc0.wf(h0),
        cc0.buckets.len() == NUM_SIZE_CLASSES,
        1 <= c < NUM_SIZE_CLASSES,
        0 <= id < h0.spans.len(),
        h0.spans@[id].state == SpanState::Small,
        h0.spans@[id].size_class == c,
        h1.spans.len() == h0.spans.len(),
        forall|j: int| 0 <= j < h0.spans.len() && j != id
            ==> h1.spans@[j] == h0.spans@[j],
        h1.spans@[id].state == SpanState::Small,
        h1.spans@[id].size_class == c,
        h1.spans@[id].free_objects.len() == h0.spans@[id].free_objects.len() + 1,
        if h0.spans@[id].free_objects.len() > 0 {
            cc1 == cc0
        } else {
            &&& cc1.buckets.len() == NUM_SIZE_CLASSES
            &&& forall|c2: int| 0 <= c2 < NUM_SIZE_CLASSES && c2 != c
                ==> cc1.buckets@[c2] == cc0.buckets@[c2]
            &&& cc1.buckets@[c].empty@.no_duplicates()
            &&& (forall|x: usize| #[trigger] cc1.buckets@[c].empty@.contains(x)
                <==> (cc0.buckets@[c].empty@.contains(x) && x != id))
            &&& cc1.buckets@[c].nonempty@ == cc0.buckets@[c].nonempty@.push(id as usize)
        },
    ensures
        cc1.wf(h1),
{
    assert(cc0.bucket_wf(h0, c));
    if h0.spans@[id].free_objects.len() > 0 {
        assert forall|c2: int| 1 <= c2 < NUM_SIZE_CLASSES
            implies #[trigger] cc1.bucket_wf(h1, c2) by {
            assert(cc0.bucket_wf(h0, c2));
            assert forall|k: int| 0 <= k < cc1.buckets@[c2].nonempty.len() implies {
                &&& (#[trigger] cc1.buckets@[c2].nonempty@[k] as int) < h1.spans.len()
                &&& h1.spans@[cc1.buckets@[c2].nonempty@[k] as int].state == SpanState::Small
                &&& h1.spans@[cc1.buckets@[c2].nonempty@[k] as int].size_class == c2
                &&& h1.spans@[cc1.buckets@[c2].nonempty@[k] as int].free_objects.len() > 0
            } by {
                let e = cc1.buckets@[c2].nonempty@[k] as int;
                if e != id {
                    assert(h1.spans@[e] == h0.spans@[e]);
                }
            }
            assert forall|k: int| 0 <= k < cc1.buckets@[c2].empty.len() implies {
                &&& (#[trigger] cc1.buckets@[c2].empty@[k] as int) < h1.spans.len()
                &&& h1.spans@[cc1.buckets@[c2].empty@[k] as int].state == SpanState::Small
                &&& h1.spans@[cc1.buckets@[c2].empty@[k] as int].size_class == c2
                &&& h1.spans@[cc1.buckets@[c2].empty@[k] as int].free_objects.len() == 0
            } by {
                let e = cc1.buckets@[c2].empty@[k] as int;
                assert(h0.spans@[e].free_objects.len() == 0);
                assert(e != id);
                assert(h1.spans@[e] == h0.spans@[e]);
            }
        }
        assert forall|j: int| 0 <= j < h1.spans.len()
            && (#[trigger] h1.spans@[j]).state == SpanState::Small
            implies cc1.listed(h1, j) by {
            if j != id {
                assert(h1.spans@[j] == h0.spans@[j]);
            }
            assert(h0.spans@[j].state == SpanState::Small);
            assert(cc0.listed(h0, j));
        }
    } else {
        assert forall|c2: int| 1 <= c2 < NUM_SIZE_CLASSES
            implies #[trigger] cc1.bucket_wf(h1, c2) by {
            assert(cc0.bucket_wf(h0, c2));
            if c2 != c {
                assert(cc1.buckets@[c2] == cc0.buckets@[c2]);
                assert forall|k: int| 0 <= k < cc1.buckets@[c2].nonempty.len() implies {
                    &&& (#[trigger] cc1.buckets@[c2].nonempty@[k] as int) < h1.spans.len()
                    &&& h1.spans@[cc1.buckets@[c2].nonempty@[k] as int].state
                        == SpanState::Small
                    &&& h1.spans@[cc1.buckets@[c2].nonempty@[k] as int].size_class == c2
                    &&& h1.spans@[cc1.buckets@[c2].nonempty@[k] as int].free_objects.len() > 0
                } by {
                    let e = cc1.buckets@[c2].nonempty@[k] as int;
                    assert(e != id);
                    assert(h1.spans@[e] == h0.spans@[e]);
                }
                assert forall|k: int| 0 <= k < cc1.buckets@[c2].empty.len() implies {
                    &&& (#[trigger] cc1.buckets@[c2].empty@[k] as int) < h1.spans.len()
                    &&& h1.spans@[cc1.buckets@[c2].empty@[k] as int].state == SpanState::Small
                    &&& h1.spans@[cc1.buckets@[c2].empty@[k] as int].size_class == c2
                    &&& h1.spans@[cc1.buckets@[c2].empty@[k] as int].free_objects.len() == 0
                } by {
                    let e = cc1.buckets@[c2].empty@[k] as int;
                    assert(e != id);
                    assert(h1.spans@[e] == h0.spans@[e]);
                }
            } else {
                assert forall|k: int| 0 <= k < cc1.buckets@[c].nonempty.len() implies {
                    &&& (#[trigger] cc1.buckets@[c].nonempty@[k] as int) < h1.spans.len()
                    &&& h1.spans@[cc1.buckets@[c].nonempty@[k] as int].state
                        == SpanState::Small
                    &&& h1.spans@[cc1.buckets@[c].nonempty@[k] as int].size_class == c
                    &&& h1.spans@[cc1.buckets@[c].nonempty@[k] as int].free_objects.len() > 0
                } by {
                    let s0 = cc0.buckets@[c].nonempty@;
                    if k < s0.len() {
                        let e = cc1.buckets@[c].nonempty@[k] as int;
                        assert(cc1.buckets@[c].nonempty@[k] == s0[k]);
                        if e != id {
                            assert(h1.spans@[e] == h0.spans@[e]);
                        } else {
                            assert(h0.spans@[id].free_objects.len() > 0);
                        }
                    } else {
                        assert(cc1.buckets@[c].nonempty@[k] as int == id);
                    }
                }
                assert forall|k: int| 0 <= k < cc1.buckets@[c].empty.len() implies {
                    &&& (#[trigger] cc1.buckets@[c].empty@[k] as int) < h1.spans.len()
                    &&& h1.spans@[cc1.buckets@[c].empty@[k] as int].state == SpanState::Small
                    &&& h1.spans@[cc1.buckets@[c].empty@[k] as int].size_class == c
                    &&& h1.spans@[cc1.buckets@[c].empty@[k] as int].free_objects.len() == 0
                } by {
                    let e = cc1.buckets@[c].empty@[k];
                    assert(cc1.buckets@[c].empty@.contains(e));
                    assert(cc0.buckets@[c].empty@.contains(e) && e as int != id);
                    let k0 = choose|k0: int| 0 <= k0 < cc0.buckets@[c].empty.len()
                        && cc0.buckets@[c].empty@[k0] == e;
                    assert(h1.spans@[e as int] == h0.spans@[e as int]);
                }
                assert(cc1.buckets@[c].nonempty@.no_duplicates()) by {
                    let s0 = cc0.buckets@[c].nonempty@;
                    assert forall|j1: int, j2: int|
                        #![trigger s0.push(id as usize)[j1], s0.push(id as usize)[j2]]
                        0 <= j1 < s0.push(id as usize).len()
                        && 0 <= j2 < s0.push(id as usize).len() && j1 != j2
                        implies s0.push(id as usize)[j1] != s0.push(id as usize)[j2] by {
                        if j1 < s0.len() && j2 < s0.len() {
                        } else if j1 == s0.len() {
                            assert(s0.push(id as usize)[j2] == s0[j2]);
                            assert(h0.spans@[s0[j2] as int].free_objects.len() > 0);
                        } else {
                            assert(s0.push(id as usize)[j1] == s0[j1]);
                            assert(h0.spans@[s0[j1] as int].free_objects.len() > 0);
                        }
                    }
                }
            }
        }
        assert forall|j: int| 0 <= j < h1.spans.len()
            && (#[trigger] h1.spans@[j]).state == SpanState::Small
            implies cc1.listed(h1, j) by {
            assert(h0.spans@[j].state == SpanState::Small);
            assert(cc0.listed(h0, j));
            if j == id {
                assert(cc1.buckets@[c].nonempty@.last() == id as usize);
                assert(cc1.buckets@[c].nonempty@.contains(id as usize));
            } else {
                assert(h1.spans@[j] == h0.spans@[j]);
                assert(h0.wf_span(j));
                let c2 = h0.spans@[j].size_class as int;
                assert(1 <= c2 < NUM_SIZE_CLASSES);
                if c2 != c {
                    assert(cc1.buckets@[c2] == cc0.buckets@[c2]);
                } else {
                    if h0.spans@[j].free_objects.len() > 0 {
                        let k0 = choose|k0: int| 0 <= k0 < cc0.buckets@[c].nonempty.len()
                            && cc0.buckets@[c].nonempty@[k0] == j as usize;
                        assert(cc1.buckets@[c].nonempty@[k0] == j as usize);
                        assert(cc1.buckets@[c].nonempty@.contains(j as usize));
                    } else {
                        assert(cc0.buckets@[c].empty@.contains(j as usize));
                        assert(cc1.buckets@[c].empty@.contains(j as usize));
                    }
                }
            }
        }
    }
}

/// Span `id` went home to the page heap after its free list filled, and
/// the bucket dropped it: the cache matches the heap again.
proof fn lemma_insert_release_wf(cc0: CentralCache, cc1: CentralCache,
    h0: PageHeap, h1: PageHeap, c: int, id: int)
    requires
        h0.wf(),
        h1.wf(),
        cc0.wf(h0),
        cc0.buckets.len() == NUM_SIZE_CLASSES,
        1 <= c < NUM_SIZE_CLASSES,
        0 <= id < h0.spans.len(),
        h0.spans@[id].state == SpanState::Small,
        h0.spans@[id].size_class == c,
        h0.spans@[id].free_objects.len() > 0,
        h1.spans.len() == h0.spans.len(),
        forall|j: int| 0 <= j < h0.spans.len() && j != id
            && (h0.spans@[j].state == SpanState::Small
                || (#[trigger] h0.spans@[j]).state == SpanState::Large)
            ==> h1.spans@[j] == h0.spans@[j],
        forall|j: int| 0 <= j < h1.spans.len()
            && (#[trigger] h1.spans@[j]).state == SpanState::Small
            ==> j != id && h0.spans@[j].state == SpanState::Small,
        cc1.buckets.len() == NUM_SIZE_CLASSES,
        forall|c2: int| 0 <= c2 < NUM_SIZE_CLASSES && c2 != c
            ==> cc1.buckets@[c2] == cc0.buckets@[c2],
        cc1.buckets@[c].nonempty@.no_duplicates(),
        forall|x: usize| #[trigger] cc1.buckets@[c].nonempty@.contains(x)
            <==> (cc0.buckets@[c].nonempty@.contains(x) && x != id),
        cc1.buckets@[c].empty@ == cc0.buckets@[c].empty@,
    ensures
        cc1.wf(h1),
{
    assert(cc0.bucket_wf(h0, c));
    assert forall|c2: int| 1 <= c2 < NUM_SIZE_CLASSES
        implies #[trigger] cc1.bucket_wf(h1, c2) by {
        assert(cc0.bucket_wf(h0, c2));
        assert forall|k: int| 0 <= k < cc1.buckets@[c2].nonempty.len() implies {
            &&& (#[trigger] cc1.buckets@[c2].nonempty@[k] as int) < h1.spans.len()
            &&& h1.spans@[cc1.buckets@[c2].nonempty@[k] as int].state == SpanState::Small
            &&& h1.spans@[cc1.buckets@[c2].nonempty@[k] as int].size_class == c2
            &&& h1.spans@[cc1.buckets@[c2].nonempty@[k] as int].free_objects.len() > 0
        } by {
            let e = cc1.buckets@[c2].nonempty@[k];
            assert(cc1.buckets@[c2].nonempty@.contains(e));
            if c2 == c {
                assert(cc0.buckets@[c].nonempty@.contains(e) && e as int != id);
            }
            let k0 = choose|k0: int| 0 <= k0 < cc0.buckets@[c2].nonempty.len()
                && cc0.buckets@[c2].nonempty@[k0] == e;
            assert(e as int != id);
            assert(h1.spans@[e as int] == h0.spans@[e as int]);
        }
        assert forall|k: int| 0 <= k < cc1.buckets@[c2].empty.len() implies {
            &&& (#[trigger] cc1.buckets@[c2].empty@[k] as int) < h1.spans.len()
            &&& h1.spans@[cc1.buckets@[c2].empty@[k] as int].state == SpanState::Small
            &&& h1.spans@[cc1.buckets@[c2].empty@[k] as int].size_class == c2
            &&& h1.spans@[cc1.buckets@[c2].empty@[k] as int].free_objects.len() == 0
        } by {
            let e = cc1.buckets@[c2].empty@[k] as int;
            assert(cc1.buckets@[c2].empty@[k] == cc0.buckets@[c2].empty@[k]);
            assert(h0.spans@[e].free_objects.len() == 0);
            assert(e != id);
            assert(h1.spans@[e] == h0.spans@[e]);
        }
    }
    assert forall|j: int| 0 <= j < h1.spans.len()
        && (#[trigger] h1.spans@[j]).state == SpanState::Small
        implies cc1.listed(h1, j) by {
        assert(j != id && h0.spans@[j].state == SpanState::Small);
        assert(cc0.listed(h0, j));
        assert(h1.spans@[j] == h0.spans@[j]);
        assert(h0.wf_span(j));
        let c2 = h0.spans@[j].size_class as int;
        assert(1 <= c2 < NUM_SIZE_CLASSES);
        if c2 != c {
            assert(cc1.buckets@[c2] == cc0.buckets@[c2]);
        } else {
            if h0.spans@[j].free_objects.len() > 0 {
                assert(cc0.buckets@[c].nonempty@.contains(j as usize));
                assert(cc1.buckets@[c].nonempty@.contains(j as usize));
            } else {
                assert(cc0.buckets@[c].empty@.contains(j as usize));
                assert(cc1.buckets@[c].empty@.contains(j as usize));
            }
        }
    }
}

/// Pushing one object onto a span's free list leaves every other
/// checked-out object checked out.
proof fn lemma_checked_out_after_push(h0: PageHeap, h1: PageHeap, a2: usize,
    c: int, id: int, a: usize)
    requires
        h0.wf(),
        h0.checked_out(a2, c),
        a2 != a,
        h1.spans.len() == h0.spans.len(),
        h1.page_map@ == h0.page_map@,
        forall|j: int| 0 <= j < h0.spans.len() && j != id
            ==> h1.spans@[j] == h0.spans@[j],
        0 <= id < h0.spans.len(),
        h1.spans@[id].state == h0.spans@[id].state,
        h1.spans@[id].size_class == h0.spans@[id].size_class,
        h1.spans@[id].start_page == h0.spans@[id].start_page,
        h1.spans@[id].num_pages == h0.spans@[id].num_pages,
        h1.spans@[id].free_objects@ == h0.spans@[id].free_objects@.push(a),
    ensures
        h1.checked_out(a2, c),
{
    let o = h0.owner_of(a2);
    if o == id {
        assert(!h0.spans@[id].free_objects@.contains(a2));
        let s1 = h1.spans@[id].free_objects@;
        assert forall|k: int| 0 <= k < s1.len()
            implies (#[trigger] s1[k]) != a2 by {
            if k < s1.len() - 1 {
                assert(h0.spans@[id].free_objects@[k] == s1[k]);
                assert(h0.spans@[id].free_objects@.contains(
                    h0.spans@[id].free_objects@[k]));
            } else {
                assert(s1[k] == a);
            }
        }
        assert(!s1.contains(a2));
    }
}

/// Dropping one span from the heap leaves every object of the other
/// spans checked out.
pub(crate) proof fn lemma_checked_out_preserved_except(h0: PageHeap, h1: PageHeap,
    a: usize, c: int, except: int)
    requires
        h0.wf(),
        h1.wf(),
        h0.checked_out(a, c),
        h0.owner_of(a) != except,
        h1.spans.len() >= h0.spans.len(),
        forall|id: int| 0 <= id < h0.spans.len() && id != except
            && (#[trigger] h0.spans@[id]).state == SpanState::Small
            ==> h1.spans@[id] == h0.spans@[id],
        h1.page_map.len() >= h0.page_map.len(),
    ensures
        h1.checked_out(a, c),
{
    let p = a as int / (PAGE_SIZE as int);
    let o = h0.owner_of(a);
    assert(h0.page_owner_ok(p));
    assert(h0.wf_span(o));
    assert(h1.spans@[o] == h0.spans@[o]);
    assert(h1.wf_span(o));
    assert(h1.spans@[o].contains_page(p));
    assert(h1.page_map@[p] as int == o);
}

/// One object was popped from span `id` of class `c`, and the bucket's
/// lists were updated if the span drained: the cache matches the heap
/// again.
proof fn lemma_remove_range_pop_wf(cc0: CentralCache, cc1: CentralCache,
    h0: PageHeap, h1: PageHeap, c: int, id: int)
    requires
        h0.wf(),
        h1.wf(),
        cc0.wf(h0),
        cc0.buckets.len() == NUM_SIZE_CLASSES,
        1 <= c < NUM_SIZE_CLASSES,
        0 <= id < h0.spans.len(),
        h0.spans@[id].state == SpanState::Small,
        h0.spans@[id].size_class == c,
        h0.spans@[id].free_objects.len() > 0,
        cc0.buckets@[c].nonempty@.contains(id as usize),
        h1.spans.len() == h0.spans.len(),
        forall|j: int| 0 <= j < h0.spans.len() && j != id
            ==> h1.spans@[j] == h0.spans@[j],
        h1.spans@[id].state == SpanState::Small,
        h1.spans@[id].size_class == c,
        h1.spans@[id].free_objects.len() == h0.spans@[id].free_objects.len() - 1,
        // lists: unchanged when the span still has objects; otherwise the
        // span moved from the nonempty to the empty list
        if h1.spans@[id].free_objects.len() > 0 {
            cc1 == cc0
        } else {
            &&& cc1.buckets.len() == NUM_SIZE_CLASSES
            &&& forall|c2: int| 0 <= c2 < NUM_SIZE_CLASSES && c2 != c
                ==> cc1.buckets@[c2] == cc0.buckets@[c2]
            &&& cc1.buckets@[c].nonempty@.no_duplicates()
            &&& (forall|x: usize| #[trigger] cc1.buckets@[c].nonempty@.contains(x)
                <==> (cc0.buckets@[c].nonempty@.contains(x) && x != id))
            &&& cc1.buckets@[c].empty@ == cc0.buckets@[c].empty@.push(id as usize)
        },
    ensures
        cc1.wf(h1),
{
    assert(cc0.bucket_wf(h0, c));
    if h1.spans@[id].free_objects.len() > 0 {
        assert forall|c2: int| 1 <= c2 < NUM_SIZE_CLASSES
            implies #[trigger] cc1.bucket_wf(h1, c2) by {
            assert(cc0.bucket_wf(h0, c2));
            assert forall|k: int| 0 <= k < cc1.buckets@[c2].nonempty.len() implies {
                &&& (#[trigger] cc1.buckets@[c2].nonempty@[k] as int) < h1.spans.len()
                &&& h1.spans@[cc1.buckets@[c2].nonempty@[k] as int].state == SpanState::Small
                &&& h1.spans@[cc1.buckets@[c2].nonempty@[k] as int].size_class == c2
                &&& h1.spans@[cc1.buckets@[c2].nonempty@[k] as int].free_objects.len() > 0
            } by {
                let e = cc1.buckets@[c2].nonempty@[k] as int;
                if e != id {
                    assert(h1.spans@[e] == h0.spans@[e]);
                }
            }
            assert forall|k: int| 0 <= k < cc1.buckets@[c2].empty.len() implies {
                &&& (#[trigger] cc1.buckets@[c2].empty@[k] as int) < h1.spans.len()
                &&& h1.spans@[cc1.buckets@[c2].empty@[k] as int].state == SpanState::Small
                &&& h1.spans@[cc1.buckets@[c2].empty@[k] as int].size_class == c2
                &&& h1.spans@[cc1.buckets@[c2].empty@[k] as int].free_objects.len() == 0
            } by {
                let e = cc1.buckets@[c2].empty@[k] as int;
                assert(h0.spans@[e].free_objects.len() == 0);
                assert(e != id);
                assert(h1.spans@[e] == h0.spans@[e]);
            }
        }
        assert forall|j: int| 0 <= j < h1.spans.len()
            && (#[trigger] h1.spans@[j]).state == SpanState::Small
            implies cc1.listed(h1, j) by {
            assert(h0.spans@[j].state == SpanState::Small);
            assert(cc0.listed(h0, j));
            if j != id {
                assert(h1.spans@[j] == h0.spans@[j]);
            }
        }
    } else {
        assert forall|c2: int| 1 <= c2 < NUM_SIZE_CLASSES
            implies #[trigger] cc1.bucket_wf(h1, c2) by {
            assert(cc0.bucket_wf(h0, c2));
            if c2 != c {
                assert(cc1.buckets@[c2] == cc0.buckets@[c2]);
                assert forall|k: int| 0 <= k < cc1.buckets@[c2].nonempty.len() implies {
                    &&& (#[trigger] cc1.buckets@[c2].nonempty@[k] as int) < h1.spans.len()
                    &&& h1.spans@[cc1.buckets@[c2].nonempty@[k] as int].state
                        == SpanState::Small
                    &&& h1.spans@[cc1.buckets@[c2].nonempty@[k] as int].size_class == c2
                    &&& h1.spans@[cc1.buckets@[c2].nonempty@[k] as int].free_objects.len() > 0
                } by {
                    let e = cc1.buckets@[c2].nonempty@[k] as int;
                    assert(e != id);
                    assert(h1.spans@[e] == h0.spans@[e]);
                }
                assert forall|k: int| 0 <= k < cc1.buckets@[c2].empty.len() implies {
                    &&& (#[trigger] cc1.buckets@[c2].empty@[k] as int) < h1.spans.len()
                    &&& h1.spans@[cc1.buckets@[c2].empty@[k] as int].state == SpanState::Small
                    &&& h1.spans@[cc1.buckets@[c2].empty@[k] as int].size_class == c2
                    &&& h1.spans@[cc1.buckets@[c2].empty@[k] as int].free_objects.len() == 0
                } by {
                    let e = cc1.buckets@[c2].empty@[k] as int;
                    assert(e != id);
                    assert(h1.spans@[e] == h0.spans@[e]);
                }
            } else {
                assert forall|k: int| 0 <= k < cc1.buckets@[c].nonempty.len() implies {
                    &&& (#[trigger] cc1.buckets@[c].nonempty@[k] as int) < h1.spans.len()
                    &&& h1.spans@[cc1.buckets@[c].nonempty@[k] as int].state
                        == SpanState::Small
                    &&& h1.spans@[cc1.buckets@[c].nonempty@[k] as int].size_class == c
                    &&& h1.spans@[cc1.buckets@[c].nonempty@[k] as int].free_objects.len() > 0
                } by {
                    let e = cc1.buckets@[c].nonempty@[k];
                    assert(cc1.buckets@[c].nonempty@.contains(e));
                    assert(cc0.buckets@[c].nonempty@.contains(e) && e as int != id);
                    let k0 = choose|k0: int| 0 <= k0 < cc0.buckets@[c].nonempty.len()
                        && cc0.buckets@[c].nonempty@[k0] == e;
                    assert(h1.spans@[e as int] == h0.spans@[e as int]);
                }
                assert forall|k: int| 0 <= k < cc1.buckets@[c].empty.len() implies {
                    &&& (#[trigger] cc1.buckets@[c].empty@[k] as int) < h1.spans.len()
                    &&& h1.spans@[cc1.buckets@[c].empty@[k] as int].state == SpanState::Small
                    &&& h1.spans@[cc1.buckets@[c].empty@[k] as int].size_class == c
                    &&& h1.spans@[cc1.buckets@[c].empty@[k] as int].free_objects.len() == 0
                } by {
                    let e = cc1.buckets@[c].empty@[k] as int;
                    if k < cc0.buckets@[c].empty.len() {
                        assert(cc1.buckets@[c].empty@[k] == cc0.buckets@[c].empty@[k]);
                        assert(e != id);
                        assert(h1.spans@[e] == h0.spans@[e]);
                    } else {
                        assert(e == id);
                    }
                }
                assert(cc1.buckets@[c].empty@.no_duplicates()) by {
                    let s0 = cc0.buckets@[c].empty@;
                    assert forall|j1: int, j2: int|
                        #![trigger s0.push(id as usize)[j1], s0.push(id as usize)[j2]]
                        0 <= j1 < s0.push(id as usize).len()
                        && 0 <= j2 < s0.push(id as usize).len() && j1 != j2
                        implies s0.push(id as usize)[j1] != s0.push(id as usize)[j2] by {
                        if j1 < s0.len() && j2 < s0.len() {
                        } else if j1 == s0.len() {
                            assert(s0.push(id as usize)[j2] == s0[j2]);
                            assert(h0.spans@[s0[j2] as int].free_objects.len() == 0);
                        } else {
                            assert(s0.push(id as usize)[j1] == s0[j1]);
                            assert(h0.spans@[s0[j1] as int].free_objects.len() == 0);
                        }
                    }
                }
            }
        }
        assert forall|j: int| 0 <= j < h1.spans.len()
            && (#[trigger] h1.spans@[j]).state == SpanState::Small
            implies cc1.listed(h1, j) by {
            assert(h0.spans@[j].state == SpanState::Small);
            assert(cc0.listed(h0, j));
            if j == id {
                assert(cc1.buckets@[c].empty@.last() == id as usize);
                assert(cc1.buckets@[c].empty@.contains(id as usize));
            } else {
                assert(h1.spans@[j] == h0.spans@[j]);
                assert(h0.wf_span(j));
                assert(1 <= h0.spans@[j].size_class < NUM_SIZE_CLASSES);
                if h0.spans@[j].size_class as int != c {
                    assert(cc1.buckets@[h0.spans@[j].size_class as int]
                        == cc0.buckets@[h0.spans@[j].size_class as int]);
                }
                if h0.spans@[j].size_class as int == c {
                    if h0.spans@[j].free_objects.len() > 0 {
                        assert(cc0.buckets@[c].nonempty@.contains(j as usize));
                        assert(cc1.buckets@[c].nonempty@.contains(j as usize));
                    } else {
                        assert(cc0.buckets@[c].empty@.contains(j as usize));
                        let k0 = choose|k0: int| 0 <= k0 < cc0.buckets@[c].empty.len()
                            && cc0.buckets@[c].empty@[k0] == j as usize;
                        assert(cc1.buckets@[c].empty@[k0] == j as usize);
                        assert(cc1.buckets@[c].empty@.contains(j as usize));
                    }
                }
            }
        }
    }
}

/// A fresh span of class `c` was carved and pushed onto the class's
/// nonempty list: the cache matches the heap again.
proof fn lemma_remove_range_refill_wf(cc0: CentralCache, cc1: CentralCache,
    h0: PageHeap, h1: PageHeap, c: int, sid: int)
    requires
        h0.wf(),
        h1.wf(),
        cc0.wf(h0),
        cc0.buckets.len() == NUM_SIZE_CLASSES,
        1 <= c < NUM_SIZE_CLASSES,
        0 <= sid < h1.spans.len(),
        h1.spans.len() >= h0.spans.len(),
        // every small span other than the carved one is unchanged, and
        // nothing else became small
        forall|id: int| 0 <= id < h0.spans.len()
            && (#[trigger] h0.spans@[id]).state == SpanState::Small
            ==> h1.spans@[id] == h0.spans@[id] && id != sid,
        forall|id: int| 0 <= id < h1.spans.len() && id != sid
            && (#[trigger] h1.spans@[id]).state == SpanState::Small
            ==> 0 <= id < h0.spans.len() && h0.spans@[id].state == SpanState::Small,
        h1.spans@[sid].state == SpanState::Small,
        h1.spans@[sid].size_class == c,
        h1.spans@[sid].free_objects.len() > 0,
        // the carved span is on no old list
        forall|c2: int, k: int| 1 <= c2 < NUM_SIZE_CLASSES
            && 0 <= k < cc0.buckets@[c2].nonempty.len()
            ==> (#[trigger] cc0.buckets@[c2].nonempty@[k]) as int != sid,
        forall|c2: int, k: int| 1 <= c2 < NUM_SIZE_CLASSES
            && 0 <= k < cc0.buckets@[c2].empty.len()
            ==> (#[trigger] cc0.buckets@[c2].empty@[k]) as int != sid,
        cc1.buckets.len() == NUM_SIZE_CLASSES,
        forall|c2: int| 0 <= c2 < NUM_SIZE_CLASSES && c2 != c
            ==> cc1.buckets@[c2] == cc0.buckets@[c2],
        cc1.buckets@[c].nonempty@ == cc0.buckets@[c].nonempty@.push(sid as usize),
        cc1.buckets@[c].empty@ == cc0.buckets@[c].empty@,
    ensures
        cc1.wf(h1),
{
    assert forall|c2: int| 1 <= c2 < NUM_SIZE_CLASSES
        implies #[trigger] cc1.bucket_wf(h1, c2) by {
        assert(cc0.bucket_wf(h0, c2));
        assert forall|k: int| 0 <= k < cc1.buckets@[c2].nonempty.len() implies {
            &&& (#[trigger] cc1.buckets@[c2].nonempty@[k] as int) < h1.spans.len()
            &&& h1.spans@[cc1.buckets@[c2].nonempty@[k] as int].state == SpanState::Small
            &&& h1.spans@[cc1.buckets@[c2].nonempty@[k] as int].size_class == c2
            &&& h1.spans@[cc1.buckets@[c2].nonempty@[k] as int].free_objects.len() > 0
        } by {
            if c2 == c && k == cc0.buckets@[c].nonempty.len() {
                assert(cc1.buckets@[c2].nonempty@[k] as int == sid);
            } else {
                let e = cc1.buckets@[c2].nonempty@[k] as int;
                assert(cc1.buckets@[c2].nonempty@[k] == cc0.buckets@[c2].nonempty@[k]);
                assert(h0.spans@[e].state == SpanState::Small);
                assert(h1.spans@[e] == h0.spans@[e]);
            }
        }
        assert forall|k: int| 0 <= k < cc1.buckets@[c2].empty.len() implies {
            &&& (#[trigger] cc1.buckets@[c2].empty@[k] as int) < h1.spans.len()
            &&& h1.spans@[cc1.buckets@[c2].empty@[k] as int].state == SpanState::Small
            &&& h1.spans@[cc1.buckets@[c2].empty@[k] as int].size_class == c2
            &&& h1.spans@[cc1.buckets@[c2].empty@[k] as int].free_objects.len() == 0
        } by {
            let e = cc1.buckets@[c2].empty@[k] as int;
            assert(cc1.buckets@[c2].empty@[k] == cc0.buckets@[c2].empty@[k]);
            assert(h0.spans@[e].state == SpanState::Small);
            assert(h1.spans@[e] == h0.spans@[e]);
        }
        if c2 == c {
            let s0 = cc0.buckets@[c].nonempty@;
            assert(cc1.buckets@[c].nonempty@.no_duplicates()) by {
                assert forall|j1: int, j2: int|
                    #![trigger s0.push(sid as usize)[j1], s0.push(sid as usize)[j2]]
                    0 <= j1 < s0.push(sid as usize).len()
                    && 0 <= j2 < s0.push(sid as usize).len() && j1 != j2
                    implies s0.push(sid as usize)[j1] != s0.push(sid as usize)[j2] by {
                    if j1 < s0.len() && j2 < s0.len() {
                    } else if j1 == s0.len() {
                        assert(s0.push(sid as usize)[j2] == s0[j2]);
                    } else {
                        assert(s0.push(sid as usize)[j1] == s0[j1]);
                    }
                }
            }
        }
    }
    assert forall|j: int| 0 <= j < h1.spans.len()
        && (#[trigger] h1.spans@[j]).state == SpanState::Small
        implies cc1.listed(h1, j) by {
        if j == sid {
            assert(cc1.buckets@[c].nonempty@.last() == sid as usize);
            assert(cc1.buckets@[c].nonempty@.contains(sid as usize));
        } else {
            assert(h0.spans@[j].state == SpanState::Small);
            assert(cc0.listed(h0, j));
            assert(h1.spans@[j] == h0.spans@[j]);
            assert(h0.wf_span(j));
            let c2 = h0.spans@[j].size_class as int;
            assert(1 <= c2 < NUM_SIZE_CLASSES);
            if c2 != c {
                assert(cc1.buckets@[c2] == cc0.buckets@[c2]);
            }
            if h0.spans@[j].free_objects.len() > 0 {
                if c2 == c {
                    let k0 = choose|k0: int| 0 <= k0 < cc0.buckets@[c].nonempty.len()
                        && cc0.buckets@[c].nonempty@[k0] == j as usize;
                    assert(cc1.buckets@[c].nonempty@[k0] == j as usize);
                    assert(cc1.buckets@[c].nonempty@.contains(j as usize));
                }
            }
        }
    }
}

/// Small spans of `h1` existed as small spans of `h0` with the same
/// placement, having only gained free objects: the shape of a step that
/// takes objects home.
pub open spec fn small_spans_only_gained(h0: PageHeap, h1: PageHeap) -> bool {
    &&& h1.page_map.len() == h0.page_map.len()
    &&& forall|id: int| 0 <= id < h1.spans.len()
        && (#[trigger] h1.spans@[id]).state == SpanState::Small ==> {
        &&& 0 <= id < h0.spans.len()
        &&& h0.spans@[id].state == SpanState::Small
        &&& h0.spans@[id].size_class == h1.spans@[id].size_class
        &&& h0.spans@[id].start_page == h1.spans@[id].start_page
        &&& h0.spans@[id].num_pages == h1.spans@[id].num_pages
        &&& forall|x: usize| h0.spans@[id].free_objects@.contains(x)
            ==> #[trigger] h1.spans@[id].free_objects@.contains(x)
    }
}

/// The only-gained relation is reflexive.
pub(crate) proof fn lemma_small_gained_refl(h: PageHeap)
    ensures
        small_spans_only_gained(h, h),
{
    assert forall|id: int| 0 <= id < h.spans.len()
        && (#[trigger] h.spans@[id]).state == SpanState::Small
        implies {
        &&& h.spans@[id].size_class == h.spans@[id].size_class
        &&& forall|x: usize| h.spans@[id].free_objects@.contains(x)
            ==> #[trigger] h.spans@[id].free_objects@.contains(x)
    } by {}
}

/// The only-gained relation between heaps composes.
pub(crate) proof fn lemma_small_gained_trans(h0: PageHeap, h1: PageHeap, h2: PageHeap)
    requires
        small_spans_only_gained(h0, h1),
        small_spans_only_gained(h1, h2),
    ensures
        small_spans_only_gained(h0, h2),
{
    assert forall|id: int| 0 <= id < h2.spans.len()
        && (#[trigger] h2.spans@[id]).state == SpanState::Small
        implies {
        &&& 0 <= id < h0.spans.len()
        &&& h0.spans@[id].state == SpanState::Small
        &&& h0.spans@[id].size_class == h2.spans@[id].size_class
        &&& h0.spans@[id].start_page == h2.spans@[id].start_page
        &&& h0.spans@[id].num_pages == h2.spans@[id].num_pages
        &&& forall|x: usize| h0.spans@[id].free_objects@.contains(x)
            ==> #[trigger] h2.spans@[id].free_objects@.contains(x)
    } by {
        assert(h1.spans@[id].state == SpanState::Small);
        assert(h0.spans@[id].state == SpanState::Small);
        assert forall|x: usize| h0.spans@[id].free_objects@.contains(x)
            implies #[trigger] h2.spans@[id].free_objects@.contains(x) by {
            assert(h1.spans@[id].free_objects@.contains(x));
        }
    }
}

/// An object that was not checked out stays not checked out across any
/// step where small spans only keep or gain free objects.
pub(crate) proof fn lemma_not_checked_out_preserved(h0: PageHeap, h1: PageHeap,
    a: usize, c: int)
    requires
        h0.wf(),
        h1.wf(),
        !h0.checked_out(a, c),
        small_spans_only_gained(h0, h1),
    ensures
        !h1.checked_out(a, c),
{
    if h1.checked_out(a, c) {
        let p = a as int / (PAGE_SIZE as int);
        let o = h1.owner_of(a);
        assert(h1.page_owner_ok(p));
        assert(h1.spans@[o].state == SpanState::Small);
        assert(h0.spans@[o].state == SpanState::Small);
        assert(h0.wf_span(o));
        assert(h0.spans@[o].contains_page(p));
        assert(h0.page_map@[p] as int == o);
        assert(h0.owner_of(a) == o);
        assert(!h0.spans@[o].free_objects@.contains(a));
        assert(h0.checked_out(a, c));
    }
}

/// A heap step that leaves every small span's record unchanged leaves
/// every checked-out object checked out.
pub(crate) proof fn lemma_checked_out_preserved(h0: PageHeap, h1: PageHeap, a: usize, c: int)
    requires
        h0.wf(),
        h1.wf(),
        h0.checked_out(a, c),
        h1.spans.len() >= h0.spans.len(),
        forall|id: int| 0 <= id < h0.spans.len()
            && (#[trigger] h0.spans@[id]).state == SpanState::Small
            ==> h1.spans@[id] == h0.spans@[id],
        h1.page_map.len() >= h0.page_map.len(),
    ensures
        h1.checked_out(a, c),
{
    let p = a as int / (PAGE_SIZE as int);
    let o = h0.owner_of(a);
    assert(h0.page_owner_ok(p));
    assert(h0.wf_span(o));
    assert(h1.spans@[o] == h0.spans@[o]);
    assert(h1.wf_span(o));
    assert(h1.spans@[o].contains_page(p));
    assert(h1.page_map@[p] as int == o);
}

/// Popping from one span leaves every other checked-out object checked
/// out.
proof fn lemma_checked_out_step(h0: PageHeap, h1: PageHeap, a: usize, c: int, id: int)
    requires
        h0.wf(),
        h0.checked_out(a, c),
        h1.spans.len() == h0.spans.len(),
        h1.page_map@ == h0.page_map@,
        forall|j: int| 0 <= j < h0.spans.len() && j != id
            ==> h1.spans@[j] == h0.spans@[j],
        0 <= id < h0.spans.len(),
        h1.spans@[id].state == h0.spans@[id].state,
        h1.spans@[id].size_class == h0.spans@[id].size_class,
        h1.spans@[id].start_page == h0.spans@[id].start_page,
        h1.spans@[id].num_pages == h0.spans@[id].num_pages,
        h1.spans@[id].free_objects@ == h0.spans@[id].free_objects@.drop_last(),
        h0.spans@[id].free_objects.len() > 0,
    ensures
        h1.checked_out(a, c),
{
    let o = h0.owner_of(a);
    if o == id {
        assert(!h0.spans@[id].free_objects@.contains(a));
        let s1 = h1.spans@[id].free_objects@;
        assert forall|k: int| 0 <= k < s1.len()
            implies (#[trigger] s1[k]) != a by {
            assert(h0.spans@[id].free_objects@[k] == s1[k]);
            assert(h0.spans@[id].free_objects@.contains(h0.spans@[id].free_objects@[k]));
        }
        assert(!s1.contains(a));
    }
}

} // verus!
