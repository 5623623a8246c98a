//! Thread cache (front-end): per-thread free lists for lock-free
//! allocation.
//!
//! Each thread owns one `ThreadCache` with a bounded free list per size
//! class.  The fast paths pop and push without touching the shared tiers;
//! when a list runs dry the cache refills with a batch from the central
//! cache, and when a list overflows its adaptive length bound, or the
//! cache's total bytes pass their cap, excess objects drain back to the
//! central cache.
//!
//! Every object parked here is checked out of its span: the cache's
//! invariant ties each entry to a live small span of the entry's class.

use vstd::prelude::*;
use crate::PAGE_SIZE;
use crate::size_class::{
    class_info, class_to_size, spec_class_info, spec_class_size,
    lemma_class_table_wf, NUM_SIZE_CLASSES,
};
use crate::span::SpanState;
use crate::page_heap::PageHeap;
use crate::central_free_list::{
    lemma_not_checked_out_preserved, lemma_small_gained_refl, lemma_small_gained_trans,
    small_spans_only_gained, CentralCache,
};

verus! {

/// Total bytes a thread cache may hold before it scavenges.
pub const MAX_THREAD_CACHE_SIZE: usize = 4 * 1024 * 1024;

/// Cap on a single list's adaptive length bound.  Refills never raise the
/// bound past the largest batch, and releases never raise it at all, so
/// the bound stays small and the cache's byte total cannot overflow.
pub const MAX_LIST_LENGTH: usize = 32;

/// Per-size-class free list within the thread cache.
pub struct FreeList {
    /// The parked objects, most recently freed last.
    pub objects: Vec<usize>,
    /// Adaptive bound: past this length the list drains to the central
    /// cache.
    pub max_length: usize,
}

impl FreeList {
    /// A fresh list: empty, with the smallest bound; it grows on demand.
    pub fn new() -> (l: FreeList)
        ensures
            l.objects.len() == 0,
            l.max_length == 1,
    {
        FreeList { objects: Vec::new(), max_length: 1 }
    }

    /// Detach the most recently parked object.
    fn pop(&mut self) -> (a: usize)
        requires
            old(self).objects.len() > 0,
        ensures
            a == old(self).objects@.last(),
            final(self).objects@ == old(self).objects@.drop_last(),
            final(self).max_length == old(self).max_length,
    {
        let a = self.objects.pop().unwrap();
        a
    }

    /// Park one object.
    fn push(&mut self, a: usize)
        ensures
            final(self).objects@ == old(self).objects@.push(a),
            final(self).max_length == old(self).max_length,
    {
        self.objects.push(a);
    }

    /// Park a whole batch.
    fn push_batch(&mut self, batch: &mut Vec<usize>)
        ensures
            final(self).objects@ == old(self).objects@ + old(batch)@,
            final(self).max_length == old(self).max_length,
            final(batch).len() == 0,
    {
        self.objects.append(batch);
    }

    /// Detach the `count` most recently parked objects, most recent
    /// first.
    fn pop_batch(&mut self, count: usize) -> (batch: Vec<usize>)
        requires
            count <= old(self).objects.len(),
        ensures
            final(self).objects@
                == old(self).objects@.subrange(0, old(self).objects.len() - count),
            final(self).max_length == old(self).max_length,
            batch.len() == count,
            forall|k: int| 0 <= k < count
                ==> #[trigger] batch@[k] == old(self).objects@[old(self).objects.len() - 1 - k],
            old(self).objects@.no_duplicates() ==> batch@.no_duplicates(),
    {
        let ghost objs0 = self.objects@;
        let mut batch: Vec<usize> = Vec::new();
        let mut taken: usize = 0;
        while taken < count
            invariant
                taken <= count,
                count <= objs0.len(),
                self.objects@ == objs0.subrange(0, objs0.len() - taken),
                self.max_length == old(self).max_length,
                batch.len() == taken,
                forall|k: int| 0 <= k < taken
                    ==> #[trigger] batch@[k] == objs0[objs0.len() - 1 - k],
            decreases count - taken,
        {
            let a = self.objects.pop().unwrap();
            batch.push(a);
            taken = taken + 1;
            proof {
                assert(self.objects@ =~= objs0.subrange(0, objs0.len() - taken));
            }
        }
        proof {
            if objs0.no_duplicates() {
                assert forall|j1: int, j2: int|
                    #![trigger batch@[j1], batch@[j2]]
                    0 <= j1 < batch.len() && 0 <= j2 < batch.len() && j1 != j2
                    implies batch@[j1] != batch@[j2] by {
                    assert(batch@[j1] == objs0[objs0.len() - 1 - j1]);
                    assert(batch@[j2] == objs0[objs0.len() - 1 - j2]);
                }
            }
        }
        batch
    }
}

/// Bytes parked in the lists below class `n`.
pub open spec fn tc_bytes_up_to(lists: Seq<FreeList>, n: int) -> int
    decreases n,
{
    if n <= 0 {
        0
    } else {
        tc_bytes_up_to(lists, n - 1) + lists[n - 1].objects.len() * spec_class_size(n - 1)
    }
}

/// Changing one list changes the byte total by that list's delta.
proof fn lemma_tc_bytes_update(l0: Seq<FreeList>, l1: Seq<FreeList>, c: int, n: int)
    requires
        0 <= c < n,
        n <= l0.len(),
        l1.len() == l0.len(),
        forall|j: int| 0 <= j < l0.len() && j != c ==> l1[j] == l0[j],
    ensures
        tc_bytes_up_to(l1, n) == tc_bytes_up_to(l0, n)
            + l1[c].objects.len() * spec_class_size(c)
            - l0[c].objects.len() * spec_class_size(c),
    decreases n,
{
    if c == n - 1 {
        lemma_tc_bytes_same(l0, l1, n - 1);
    } else {
        lemma_tc_bytes_update(l0, l1, c, n - 1);
    }
}

/// Lists that agree below `n` park the same bytes below `n`.
proof fn lemma_tc_bytes_same(l0: Seq<FreeList>, l1: Seq<FreeList>, n: int)
    requires
        forall|j: int| 0 <= j < n ==> l1[j] == l0[j],
    ensures
        tc_bytes_up_to(l1, n) == tc_bytes_up_to(l0, n),
    decreases n,
{
    if n > 0 {
        lemma_tc_bytes_same(l0, l1, n - 1);
    }
}

/// With every list bounded, the byte total is bounded: list lengths at
/// most `MAX_LIST_LENGTH` and object sizes at most `MAX_SMALL_SIZE` keep
/// the total far below any machine limit.
proof fn lemma_tc_bytes_bound(lists: Seq<FreeList>, n: int)
    requires
        0 <= n <= lists.len(),
        forall|c: int| 0 <= c < n
            ==> (#[trigger] lists[c].objects).len() <= MAX_LIST_LENGTH,
        forall|c: int| 0 <= c < n ==> 0 <= #[trigger] spec_class_size(c) <= 262144,
    ensures
        0 <= tc_bytes_up_to(lists, n) <= n * (MAX_LIST_LENGTH * 262144),
    decreases n,
{
    if n > 0 {
        lemma_tc_bytes_bound(lists, n - 1);
        assert(lists[n - 1].objects.len() * spec_class_size(n - 1)
            <= MAX_LIST_LENGTH * 262144) by (nonlinear_arith)
            requires
                0 <= lists[n - 1].objects.len() <= MAX_LIST_LENGTH,
                0 <= spec_class_size(n - 1) <= 262144;
        assert(lists[n - 1].objects.len() * spec_class_size(n - 1) >= 0)
            by (nonlinear_arith)
            requires
                lists[n - 1].objects.len() >= 0,
                spec_class_size(n - 1) >= 0;
        assert((n - 1) * (MAX_LIST_LENGTH * 262144) + (MAX_LIST_LENGTH * 262144)
            == n * (MAX_LIST_LENGTH * 262144)) by (nonlinear_arith);
    }
}

/// The byte total is at least what any one list below `n` parks.
proof fn lemma_tc_bytes_lower(lists: Seq<FreeList>, c: int, n: int)
    requires
        0 <= c < n <= lists.len(),
        forall|j: int| 0 <= j < n ==> 0 <= #[trigger] spec_class_size(j),
    ensures
        tc_bytes_up_to(lists, n) >= lists[c].objects.len() * spec_class_size(c),
        tc_bytes_up_to(lists, n) >= 0,
    decreases n,
{
    assert forall|j: int| 0 <= j < n implies
        (#[trigger] lists[j].objects).len() * spec_class_size(j) >= 0 by {
        assert(lists[j].objects.len() * spec_class_size(j) >= 0) by (nonlinear_arith)
            requires lists[j].objects.len() >= 0, spec_class_size(j) >= 0;
    }
    if c < n - 1 {
        lemma_tc_bytes_lower(lists, c, n - 1);
    } else {
        lemma_tc_bytes_nonneg(lists, n - 1);
    }
}

/// The byte total is never negative.
proof fn lemma_tc_bytes_nonneg(lists: Seq<FreeList>, n: int)
    requires
        n <= lists.len(),
        forall|j: int| 0 <= j < n ==> 0 <= #[trigger] spec_class_size(j),
    ensures
        tc_bytes_up_to(lists, n) >= 0,
    decreases n,
{
    if n > 0 {
        lemma_tc_bytes_nonneg(lists, n - 1);
        assert(lists[n - 1].objects.len() * spec_class_size(n - 1) >= 0)
            by (nonlinear_arith)
            requires lists[n - 1].objects.len() >= 0, spec_class_size(n - 1) >= 0;
    }
}

/// Per-thread cache holding one free list per size class.
pub struct ThreadCache {
    pub lists: Vec<FreeList>,
    /// Total bytes parked across all lists.
    pub total_size: usize,
    /// Byte cap past which the cache scavenges.
    pub max_size: usize,
}

impl ThreadCache {
    /// List `c` within its bounds, duplicate-free, every entry checked out
    /// of a live small span of class `c`.
    pub open spec fn list_wf(self, h: PageHeap, c: int) -> bool {
        &&& 1 <= self.lists@[c].max_length <= MAX_LIST_LENGTH
        &&& self.lists@[c].objects.len() <= self.lists@[c].max_length
        &&& self.lists@[c].objects@.no_duplicates()
        &&& forall|k: int| 0 <= k < self.lists@[c].objects.len()
            ==> h.checked_out(#[trigger] self.lists@[c].objects@[k], c)
    }

    /// The thread cache's invariant against a heap: one well-formed list
    /// per class, the sentinel class's list empty, and the byte counter
    /// exact.
    pub open spec fn wf(self, h: PageHeap) -> bool {
        &&& self.lists.len() == NUM_SIZE_CLASSES
        &&& self.lists@[0].objects.len() == 0
        &&& forall|c: int| 0 <= c < NUM_SIZE_CLASSES ==> #[trigger] self.list_wf(h, c)
        &&& self.total_size == tc_bytes_up_to(self.lists@, NUM_SIZE_CLASSES as int)
    }

    /// `addr` is checked out of its span and not parked in this cache:
    /// whoever asked for it still holds it.
    pub open spec fn user_owned(self, h: PageHeap, addr: usize, c: int) -> bool {
        &&& h.checked_out(addr, c)
        &&& !self.lists@[c].objects@.contains(addr)
    }

    /// A fresh thread cache: all lists empty.
    pub fn new() -> (tc: ThreadCache)
        ensures
            forall|h: PageHeap| #[trigger] tc.wf(h),
            tc.total_size == 0,
            tc.max_size == MAX_THREAD_CACHE_SIZE,
            forall|c: int| 0 <= c < NUM_SIZE_CLASSES
                ==> (#[trigger] tc.lists@[c].objects).len() == 0
                    && tc.lists@[c].max_length == 1,
    {
        let mut lists: Vec<FreeList> = Vec::new();
        let mut c: usize = 0;
        while c < NUM_SIZE_CLASSES
            invariant
                lists.len() == c,
                c <= NUM_SIZE_CLASSES,
                forall|j: int| 0 <= j < c
                    ==> (#[trigger] lists@[j].objects).len() == 0
                        && lists@[j].max_length == 1,
            decreases NUM_SIZE_CLASSES - c,
        {
            lists.push(FreeList::new());
            c = c + 1;
        }
        let tc = ThreadCache {
            lists,
            total_size: 0,
            max_size: MAX_THREAD_CACHE_SIZE,
        };
        proof {
            lemma_tc_bytes_empty(tc.lists@, NUM_SIZE_CLASSES as int);
            assert forall|h: PageHeap| #[trigger] tc.wf(h) by {
                assert forall|c2: int| 0 <= c2 < NUM_SIZE_CLASSES
                    implies #[trigger] tc.list_wf(h, c2) by {
                    assert(tc.lists@[c2].objects.len() == 0);
                    assert(tc.lists@[c2].max_length == 1);
                }
                assert(tc.lists@[0].objects.len() == 0);
            }
        }
        tc
    }
}

impl ThreadCache {
    /// Serve one object of `size_class`: from this cache's list when one
    /// is parked there, else by refilling with a batch from the central
    /// cache.  The object handed out is checked out of its span and held
    /// by nobody else; everything anyone else holds stays theirs.  Fails
    /// only when the whole upstream chain is exhausted, changing nothing.
    pub fn allocate(&mut self, size_class: usize, central: &mut CentralCache,
        heap: &mut PageHeap) -> (r: Option<usize>)
        requires
            old(heap).wf(),
            old(central).wf(*old(heap)),
            old(self).wf(*old(heap)),
            1 <= size_class < NUM_SIZE_CLASSES,
        ensures
            final(heap).wf(),
            final(central).wf(*final(heap)),
            final(self).wf(*final(heap)),
            r matches Some(a)
                ==> final(self).user_owned(*final(heap), a, size_class as int),
            forall|a2: usize, c2: int|
                old(self).user_owned(*old(heap), a2, c2)
                ==> final(self).user_owned(*final(heap), a2, c2) && r != Some(a2),
            forall|id: int| 0 <= id < old(heap).spans.len()
                && (#[trigger] old(heap).spans@[id]).state == SpanState::Large
                ==> final(heap).spans@[id] == old(heap).spans@[id],
            final(heap).spans.len() >= old(heap).spans.len(),
            final(heap).page_map.len() >= old(heap).page_map.len(),
            final(heap).mem.len() >= old(heap).mem.len(),
            forall|b: int| 0 <= b < old(heap).mem.len()
                ==> final(heap).mem@[b] == old(heap).mem@[b],
            final(self).max_size == old(self).max_size,
            r is None ==> *final(self) == *old(self) && *final(heap) == *old(heap)
                && *final(central) == *old(central)
                && old(self).lists@[size_class as int].objects.len() == 0
                && old(central).buckets@[size_class as int].nonempty.len() == 0
                && !old(heap).can_allocate(
                    crate::size_class::spec_class_pages(size_class as int)),
            // warm path: with an object parked, the pop is exact and the
            // shared tiers are untouched
            old(self).lists@[size_class as int].objects.len() > 0 ==> {
                &&& r == Some(old(self).lists@[size_class as int].objects@.last())
                &&& final(self).lists@[size_class as int].objects@
                    == old(self).lists@[size_class as int].objects@.drop_last()
                &&& final(self).lists@[size_class as int].max_length
                    == old(self).lists@[size_class as int].max_length
                &&& (forall|c2: int| 0 <= c2 < NUM_SIZE_CLASSES && c2 != size_class
                    ==> final(self).lists@[c2] == old(self).lists@[c2])
                &&& final(self).total_size
                    == old(self).total_size - spec_class_size(size_class as int)
                &&& *final(heap) == *old(heap)
                &&& *final(central) == *old(central)
            },
    {
        let c = size_class;
        if self.lists[c].objects.len() > 0 {
            proof {
                assert(self.list_wf(*heap, c as int));
                lemma_class_table_wf(c as int);
                lemma_tc_bytes_lower(self.lists@, c as int, NUM_SIZE_CLASSES as int);
                assert(self.lists@[c as int].objects.len() * spec_class_size(c as int)
                    >= spec_class_size(c as int)) by (nonlinear_arith)
                    requires
                        self.lists@[c as int].objects.len() >= 1,
                        spec_class_size(c as int) >= 0;
            }
            let mut l = FreeList::new();
            self.lists.set_and_swap(c, &mut l);
            let a = l.pop();
            self.lists.set_and_swap(c, &mut l);
            let sz = class_to_size(c);
            self.total_size = self.total_size - sz;
            proof {
                lemma_tc_bytes_update(old(self).lists@, self.lists@, c as int,
                    NUM_SIZE_CLASSES as int);
                let objs0 = old(self).lists@[c as int].objects@;
                assert((objs0.len() - 1) * spec_class_size(c as int)
                    == objs0.len() * spec_class_size(c as int)
                        - spec_class_size(c as int)) by (nonlinear_arith);
                assert(self.lists@[0].objects.len() == 0) by {
                    assert(self.lists@[0] == old(self).lists@[0]);
                }
                assert forall|c2: int| 0 <= c2 < NUM_SIZE_CLASSES
                    implies #[trigger] self.list_wf(*heap, c2) by {
                    assert(old(self).list_wf(*heap, c2));
                    if c2 == c {
                        assert forall|k: int|
                            0 <= k < self.lists@[c2].objects.len()
                            implies heap.checked_out(
                                #[trigger] self.lists@[c2].objects@[k], c2) by {
                            assert(self.lists@[c2].objects@[k] == objs0[k]);
                        }
                    }
                }
                assert(!objs0.drop_last().contains(a)) by {
                    assert forall|k: int| 0 <= k < objs0.len() - 1
                        implies (#[trigger] objs0.drop_last()[k]) != a by {
                        assert(objs0.drop_last()[k] == objs0[k]);
                    }
                }
                assert forall|a2: usize, c2: int|
                    old(self).user_owned(*old(heap), a2, c2)
                    implies self.user_owned(*heap, a2, c2) && Some(a) != Some(a2) by {
                    assert(a2 != a) by {
                        assert(objs0.contains(objs0.last()));
                    }
                    if c2 == c {
                        assert(!self.lists@[c2].objects@.contains(a2)) by {
                            assert forall|k: int| 0 <= k < objs0.len() - 1
                                implies (#[trigger] objs0.drop_last()[k]) != a2 by {
                                assert(objs0.drop_last()[k] == objs0[k]);
                                assert(objs0.contains(objs0[k]));
                            }
                        }
                    }
                }
            }
            return Some(a);
        }
        self.fetch_from_central(c, central, heap)
    }

    /// Refill from the central cache: fetch one batch, hand its most
    /// recently carved object to the caller and park the rest, raising
    /// the list's bound so the batch is not immediately drained back.
    fn fetch_from_central(&mut self, size_class: usize, central: &mut CentralCache,
        heap: &mut PageHeap) -> (r: Option<usize>)
        requires
            old(heap).wf(),
            old(central).wf(*old(heap)),
            old(self).wf(*old(heap)),
            1 <= size_class < NUM_SIZE_CLASSES,
            old(self).lists@[size_class as int].objects.len() == 0,
        ensures
            final(heap).wf(),
            final(central).wf(*final(heap)),
            final(self).wf(*final(heap)),
            r matches Some(a)
                ==> final(self).user_owned(*final(heap), a, size_class as int),
            forall|a2: usize, c2: int|
                old(self).user_owned(*old(heap), a2, c2)
                ==> final(self).user_owned(*final(heap), a2, c2) && r != Some(a2),
            forall|id: int| 0 <= id < old(heap).spans.len()
                && (#[trigger] old(heap).spans@[id]).state == SpanState::Large
                ==> final(heap).spans@[id] == old(heap).spans@[id],
            final(heap).spans.len() >= old(heap).spans.len(),
            final(heap).page_map.len() >= old(heap).page_map.len(),
            final(heap).mem.len() >= old(heap).mem.len(),
            forall|b: int| 0 <= b < old(heap).mem.len()
                ==> final(heap).mem@[b] == old(heap).mem@[b],
            final(self).max_size == old(self).max_size,
            r is None ==> *final(self) == *old(self) && *final(heap) == *old(heap)
                && *final(central) == *old(central)
                && old(central).buckets@[size_class as int].nonempty.len() == 0
                && !old(heap).can_allocate(
                    crate::size_class::spec_class_pages(size_class as int)),
            // batch accounting: one object to the caller, the k - 1 others
            // parked, the byte counter grown by them, the bound raised to
            // the batch, and a short batch only out of memory
            r is Some ==> ({
                let k = final(self).lists@[size_class as int].objects.len() + 1;
                &&& 1 <= k <= spec_class_info(size_class as int).batch_size
                &&& final(self).total_size == old(self).total_size
                    + (k - 1) * spec_class_size(size_class as int)
                &&& final(self).lists@[size_class as int].max_length as int
                    == (if old(self).lists@[size_class as int].max_length >= k {
                        old(self).lists@[size_class as int].max_length as int
                    } else {
                        k
                    })
                &&& (forall|c2: int| 0 <= c2 < NUM_SIZE_CLASSES && c2 != size_class
                    ==> final(self).lists@[c2] == old(self).lists@[c2])
                &&& (k < spec_class_info(size_class as int).batch_size
                    ==> !final(heap).can_allocate(
                        crate::size_class::spec_class_pages(size_class as int)))
            }),
    {
        let c = size_class;
        proof {
            lemma_class_table_wf(c as int);
        }
        let info = class_info(c);
        let mut batch = central.remove_range(c, info.batch_size, heap);
        if batch.len() == 0 {
            return None;
        }
        let ghost batch0 = batch@;
        let a = batch.pop().unwrap();
        let count = batch.len() + 1;
        let mut l = FreeList::new();
        self.lists.set_and_swap(c, &mut l);
        let ghost lmax0 = l.max_length;
        l.push_batch(&mut batch);
        if l.max_length < count {
            l.max_length = count;
        }
        self.lists.set_and_swap(c, &mut l);
        let sz = class_to_size(c);
        proof {
            assert forall|c2: int| 0 <= c2 < NUM_SIZE_CLASSES
                implies (#[trigger] old(self).lists@[c2].objects).len()
                    <= MAX_LIST_LENGTH by {
                assert(old(self).list_wf(*old(heap), c2));
            }
            assert forall|c2: int| 0 <= c2 < NUM_SIZE_CLASSES
                implies 0 <= #[trigger] spec_class_size(c2) <= 262144 by {
                if c2 >= 1 {
                    lemma_class_table_wf(c2);
                }
            }
            lemma_tc_bytes_bound(old(self).lists@, NUM_SIZE_CLASSES as int);
            assert((count - 1) * sz <= 32 * 262144) by (nonlinear_arith)
                requires 0 <= count - 1 <= 32, 0 <= sz <= 262144;
            assert((count - 1) * sz >= 0) by (nonlinear_arith)
                requires count >= 1, sz >= 0;
        }
        self.total_size = self.total_size + (count - 1) * sz;
        proof {
            lemma_tc_bytes_update(old(self).lists@, self.lists@, c as int,
                NUM_SIZE_CLASSES as int);
            assert(self.lists@[c as int].objects@ == batch0.drop_last());
            assert(batch0.last() == a);
            assert(batch0.contains(a));
            assert forall|c2: int| 0 <= c2 < NUM_SIZE_CLASSES
                implies #[trigger] self.list_wf(*heap, c2) by {
                assert(old(self).list_wf(*old(heap), c2));
                if c2 == c {
                    assert forall|k: int|
                        0 <= k < self.lists@[c2].objects.len()
                        implies heap.checked_out(
                            #[trigger] self.lists@[c2].objects@[k], c2) by {
                        assert(self.lists@[c2].objects@[k] == batch0[k]);
                    }
                    assert forall|j1: int, j2: int|
                        #![trigger self.lists@[c2].objects@[j1], self.lists@[c2].objects@[j2]]
                        0 <= j1 < self.lists@[c2].objects.len()
                        && 0 <= j2 < self.lists@[c2].objects.len() && j1 != j2
                        implies self.lists@[c2].objects@[j1]
                            != self.lists@[c2].objects@[j2] by {
                        assert(self.lists@[c2].objects@[j1] == batch0[j1]);
                        assert(self.lists@[c2].objects@[j2] == batch0[j2]);
                    }
                } else {
                    assert(self.lists@[c2] == old(self).lists@[c2]);
                    assert forall|k: int|
                        0 <= k < self.lists@[c2].objects.len()
                        implies heap.checked_out(
                            #[trigger] self.lists@[c2].objects@[k], c2) by {
                        assert(old(heap).checked_out(self.lists@[c2].objects@[k], c2));
                    }
                }
            }
            assert(self.lists@[0].objects.len() == 0) by {
                assert(self.lists@[0] == old(self).lists@[0]);
            }
            assert forall|a2: usize, c2: int|
                old(self).user_owned(*old(heap), a2, c2)
                implies self.user_owned(*heap, a2, c2) && Some(a) != Some(a2) by {
                assert(old(heap).checked_out(a2, c2));
                assert(!batch0.contains(a2));
                assert(a2 != a);
                if c2 == c {
                    assert forall|k: int| 0 <= k < self.lists@[c2].objects.len()
                        implies (#[trigger] self.lists@[c2].objects@[k]) != a2 by {
                        assert(self.lists@[c2].objects@[k] == batch0[k]);
                        assert(batch0.contains(batch0[k]));
                    }
                } else {
                    assert(self.lists@[c2] == old(self).lists@[c2]);
                }
            }
            assert(self.user_owned(*heap, a, c as int)) by {
                assert forall|k: int| 0 <= k < self.lists@[c as int].objects.len()
                    implies (#[trigger] self.lists@[c as int].objects@[k]) != a by {
                    assert(self.lists@[c as int].objects@[k] == batch0[k]);
                }
            }
        }
        Some(a)
    }
}

/// One drain pass over a list: half the objects (rounded down) left for
/// the central cache, and the bound rose to the remainder if it was
/// below it.
pub open spec fn list_drained(l0: FreeList, l1: FreeList) -> bool {
    let n = l0.objects.len() as int;
    let keep = n - n / 2;
    &&& l1.objects@ == l0.objects@.subrange(0, keep)
    &&& l1.max_length as int == if l0.max_length as int >= keep {
        l0.max_length as int
    } else {
        keep
    }
}

impl ThreadCache {
    /// The invariant with one list allowed a single object over its
    /// bound: the state right after a free is parked, before the list is
    /// drained.
    pub open spec fn wf_relaxed(self, h: PageHeap, c: int) -> bool {
        &&& self.lists.len() == NUM_SIZE_CLASSES
        &&& self.lists@[0].objects.len() == 0
        &&& forall|c2: int| 0 <= c2 < NUM_SIZE_CLASSES && c2 != c
            ==> #[trigger] self.list_wf(h, c2)
        &&& 1 <= self.lists@[c].max_length <= MAX_LIST_LENGTH
        &&& self.lists@[c].objects.len() <= self.lists@[c].max_length + 1
        &&& self.lists@[c].objects@.no_duplicates()
        &&& forall|k: int| 0 <= k < self.lists@[c].objects.len()
            ==> h.checked_out(#[trigger] self.lists@[c].objects@[k], c)
        &&& self.total_size == tc_bytes_up_to(self.lists@, NUM_SIZE_CLASSES as int)
    }

    /// Park a freed object on its class's list; past the list's bound,
    /// drain half the list to the central cache, and past the cache's
    /// byte cap, scavenge every class.
    pub fn deallocate(&mut self, ptr: usize, size_class: usize,
        central: &mut CentralCache, heap: &mut PageHeap)
        requires
            old(heap).wf(),
            old(central).wf(*old(heap)),
            old(self).wf(*old(heap)),
            1 <= size_class < NUM_SIZE_CLASSES,
            old(self).user_owned(*old(heap), ptr, size_class as int),
        ensures
            final(heap).wf(),
            final(central).wf(*final(heap)),
            final(self).wf(*final(heap)),
            forall|a2: usize, c2: int|
                old(self).user_owned(*old(heap), a2, c2) && a2 != ptr
                ==> final(self).user_owned(*final(heap), a2, c2),
            forall|id: int| 0 <= id < old(heap).spans.len()
                && (#[trigger] old(heap).spans@[id]).state == SpanState::Large
                ==> final(heap).spans@[id] == old(heap).spans@[id],
            final(heap).spans.len() == old(heap).spans.len(),
            final(heap).page_map.len() == old(heap).page_map.len(),
            final(heap).mem@ == old(heap).mem@,
            final(self).max_size == old(self).max_size,
            // the freed object really is home: parked in this cache or
            // threaded back through the central tier, never still held
            !final(self).user_owned(*final(heap), ptr, size_class as int),
            // overflow path: the push drains half the grown list to the
            // central cache, when the byte cap is not also crossed
            ({
                let c = size_class as int;
                let n = old(self).lists@[c].objects.len() as int + 1;
                (old(self).lists@[c].objects.len() + 1 > old(self).lists@[c].max_length
                    && old(self).total_size + spec_class_size(c)
                        - (n / 2) * spec_class_size(c) <= old(self).max_size) ==> {
                    let pushed = old(self).lists@[c].objects@.push(ptr);
                    let keep = n - n / 2;
                    &&& final(self).lists@[c].objects@ == pushed.subrange(0, keep)
                    &&& final(self).total_size == old(self).total_size
                        + spec_class_size(c) - (n / 2) * spec_class_size(c)
                    &&& final(self).lists@[c].max_length as int
                        == (if old(self).lists@[c].max_length as int >= keep {
                            old(self).lists@[c].max_length as int
                        } else {
                            keep
                        })
                    &&& (forall|c2: int| 0 <= c2 < NUM_SIZE_CLASSES && c2 != c
                        ==> final(self).lists@[c2] == old(self).lists@[c2])
                }
            }),
            // warm path: under both bounds, the push is exact and the
            // shared tiers are untouched
            (old(self).lists@[size_class as int].objects.len() + 1
                <= old(self).lists@[size_class as int].max_length
                && old(self).total_size + spec_class_size(size_class as int)
                    <= old(self).max_size) ==> {
                &&& final(self).lists@[size_class as int].objects@
                    == old(self).lists@[size_class as int].objects@.push(ptr)
                &&& final(self).lists@[size_class as int].max_length
                    == old(self).lists@[size_class as int].max_length
                &&& (forall|c2: int| 0 <= c2 < NUM_SIZE_CLASSES && c2 != size_class
                    ==> final(self).lists@[c2] == old(self).lists@[c2])
                &&& final(self).total_size
                    == old(self).total_size + spec_class_size(size_class as int)
                &&& *final(heap) == *old(heap)
                &&& *final(central) == *old(central)
            },
    {
        let c = size_class;
        proof {
            assert(self.list_wf(*heap, c as int));
            lemma_class_table_wf(c as int);
            assert forall|c2: int| 0 <= c2 < NUM_SIZE_CLASSES
                implies (#[trigger] self.lists@[c2].objects).len()
                    <= MAX_LIST_LENGTH by {
                assert(self.list_wf(*heap, c2));
            }
            assert forall|c2: int| 0 <= c2 < NUM_SIZE_CLASSES
                implies 0 <= #[trigger] spec_class_size(c2) <= 262144 by {
                if c2 >= 1 {
                    lemma_class_table_wf(c2);
                }
            }
            lemma_tc_bytes_bound(self.lists@, NUM_SIZE_CLASSES as int);
        }
        let mut l = FreeList::new();
        self.lists.set_and_swap(c, &mut l);
        l.push(ptr);
        let need_release = l.objects.len() > l.max_length;
        self.lists.set_and_swap(c, &mut l);
        let sz = class_to_size(c);
        self.total_size = self.total_size + sz;
        proof {
            lemma_tc_bytes_update(old(self).lists@, self.lists@, c as int,
                NUM_SIZE_CLASSES as int);
            let objs0 = old(self).lists@[c as int].objects@;
            assert((objs0.len() + 1) * spec_class_size(c as int)
                == objs0.len() * spec_class_size(c as int)
                    + spec_class_size(c as int)) by (nonlinear_arith);
            assert forall|j1: int, j2: int|
                #![trigger self.lists@[c as int].objects@[j1],
                    self.lists@[c as int].objects@[j2]]
                0 <= j1 < self.lists@[c as int].objects.len()
                && 0 <= j2 < self.lists@[c as int].objects.len() && j1 != j2
                implies self.lists@[c as int].objects@[j1]
                    != self.lists@[c as int].objects@[j2] by {
                if j1 < objs0.len() && j2 < objs0.len() {
                } else if j1 == objs0.len() {
                    assert(self.lists@[c as int].objects@[j2] == objs0[j2]);
                    assert(objs0.contains(objs0[j2]));
                } else {
                    assert(self.lists@[c as int].objects@[j1] == objs0[j1]);
                    assert(objs0.contains(objs0[j1]));
                }
            }
            assert(self.wf_relaxed(*heap, c as int)) by {
                assert forall|c2: int| 0 <= c2 < NUM_SIZE_CLASSES && c2 != c
                    implies #[trigger] self.list_wf(*heap, c2) by {
                    assert(old(self).list_wf(*old(heap), c2));
                    assert(self.lists@[c2] == old(self).lists@[c2]);
                }
                assert forall|k: int| 0 <= k < self.lists@[c as int].objects.len()
                    implies heap.checked_out(
                        #[trigger] self.lists@[c as int].objects@[k], c as int) by {
                    if k < objs0.len() {
                        assert(self.lists@[c as int].objects@[k] == objs0[k]);
                    }
                }
                assert(self.lists@[0] == old(self).lists@[0]);
            }
        }
        let ghost spush = *self;
        if need_release {
            self.release_to_central(c, central, heap);
        } else {
            proof {
                assert(self.list_wf(*heap, c as int));
                assert forall|c2: int| 0 <= c2 < NUM_SIZE_CLASSES
                    implies #[trigger] self.list_wf(*heap, c2) by {}
            }
        }
        let ghost srel = *self;
        let ghost hrel = *heap;
        if self.total_size > self.max_size {
            let _ = self.scavenge(central, heap);
            proof {
                assert(srel.lists@[c as int].objects@.contains(ptr)
                    ==> self.lists@[c as int].objects@.contains(ptr)
                        || !heap.checked_out(ptr, c as int));
                assert(small_spans_only_gained(hrel, *heap));
            }
        } else {
            proof {
                lemma_small_gained_refl(*heap);
                assert(small_spans_only_gained(hrel, *heap));
            }
        }
        proof {
            assert forall|a2: usize, c2: int|
                old(self).user_owned(*old(heap), a2, c2) && a2 != ptr
                implies final(self).user_owned(*final(heap), a2, c2) by {
                assert(old(heap).checked_out(a2, c2));
                assert(1 <= c2 < NUM_SIZE_CLASSES) by {
                    let o = old(heap).owner_of(a2);
                    assert(old(heap).page_owner_ok(a2 as int / (PAGE_SIZE as int)));
                    assert(old(heap).wf_span(o));
                }
                let objs0 = old(self).lists@[c as int].objects@;
                assert(spush.user_owned(*old(heap), a2, c2)) by {
                    if c2 == c {
                        assert(!objs0.contains(a2));
                        assert forall|k: int|
                            0 <= k < spush.lists@[c as int].objects.len()
                            implies (#[trigger] spush.lists@[c as int].objects@[k])
                                != a2 by {
                            if k < objs0.len() {
                                assert(spush.lists@[c as int].objects@[k] == objs0[k]);
                                assert(objs0.contains(objs0[k]));
                            } else {
                                assert(spush.lists@[c as int].objects@[k] == ptr);
                            }
                        }
                    } else {
                        assert(spush.lists@[c2] == old(self).lists@[c2]);
                    }
                }
                assert(srel.user_owned(hrel, a2, c2));
            }
            // the parked object ends up in this cache or at the central
            // tier, never checked out to a holder
            assert(spush.lists@[c as int].objects@.contains(ptr)) by {
                assert(spush.lists@[c as int].objects@.last() == ptr);
            }
            assert(srel.lists@[c as int].objects@.contains(ptr)
                || !hrel.checked_out(ptr, c as int));
            if srel.lists@[c as int].objects@.contains(ptr) {
                assert(self.lists@[c as int].objects@.contains(ptr)
                    || !heap.checked_out(ptr, c as int));
            } else {
                lemma_not_checked_out_preserved(hrel, *heap, ptr, c as int);
            }
            assert(!final(self).user_owned(*final(heap), ptr, c as int));
        }
    }

    /// Drain half of the class's list back to the central cache, and
    /// keep the adaptive bound at least at the list's remaining length
    /// so bursts do not thrash.
    fn release_to_central(&mut self, size_class: usize, central: &mut CentralCache,
        heap: &mut PageHeap)
        requires
            old(heap).wf(),
            old(central).wf(*old(heap)),
            old(self).wf_relaxed(*old(heap), size_class as int),
            1 <= size_class < NUM_SIZE_CLASSES,
        ensures
            final(heap).wf(),
            final(central).wf(*final(heap)),
            final(self).wf(*final(heap)),
            forall|a2: usize, c2: int|
                old(self).user_owned(*old(heap), a2, c2)
                ==> final(self).user_owned(*final(heap), a2, c2),
            forall|id: int| 0 <= id < old(heap).spans.len()
                && (#[trigger] old(heap).spans@[id]).state == SpanState::Large
                ==> final(heap).spans@[id] == old(heap).spans@[id],
            final(heap).spans.len() == old(heap).spans.len(),
            final(heap).page_map.len() == old(heap).page_map.len(),
            final(heap).mem@ == old(heap).mem@,
            final(self).max_size == old(self).max_size,
            final(self).total_size <= old(self).total_size,
            forall|a: usize|
                old(self).lists@[size_class as int].objects@.contains(a)
                ==> final(self).lists@[size_class as int].objects@.contains(a)
                    || !final(heap).checked_out(a, size_class as int),
            forall|c2: int| 0 <= c2 < NUM_SIZE_CLASSES && c2 != size_class
                ==> final(self).lists@[c2] == old(self).lists@[c2],
            small_spans_only_gained(*old(heap), *final(heap)),
            // the drain is exact: half the list (rounded down) goes to the
            // central cache in one batch, the bytes follow, and the bound
            // rises to the remainder if it was below it
            ({
                let n = old(self).lists@[size_class as int].objects.len() as int;
                let keep = n - n / 2;
                &&& final(self).lists@[size_class as int].objects@
                    == old(self).lists@[size_class as int].objects@.subrange(0, keep)
                &&& final(self).total_size == old(self).total_size
                    - (n / 2) * spec_class_size(size_class as int)
                &&& final(self).lists@[size_class as int].max_length as int
                    == (if old(self).lists@[size_class as int].max_length as int >= keep {
                        old(self).lists@[size_class as int].max_length as int
                    } else {
                        keep
                    })
            }),
    {
        let c = size_class;
        proof {
            lemma_class_table_wf(c as int);
        }
        let list_len = self.lists[c].objects.len();
        let to_release = list_len / 2;
        if to_release == 0 {
            proof {
                assert(self.list_wf(*heap, c as int));
                assert forall|c2: int| 0 <= c2 < NUM_SIZE_CLASSES
                    implies #[trigger] self.list_wf(*heap, c2) by {}
                assert forall|a2: usize, c2: int|
                    old(self).user_owned(*old(heap), a2, c2)
                    implies final(self).user_owned(*final(heap), a2, c2) by {}
                assert(small_spans_only_gained(*old(heap), *heap)) by {
                    lemma_small_gained_refl(*heap);
                }
                let objs0 = old(self).lists@[c as int].objects@;
                assert(objs0.subrange(0, objs0.len() as int) =~= objs0);
            }
            return;
        }
        let ghost objs0 = self.lists@[c as int].objects@;
        let mut l = FreeList::new();
        self.lists.set_and_swap(c, &mut l);
        let batch = l.pop_batch(to_release);
        let new_len = l.objects.len();
        if l.max_length < new_len {
            l.max_length = new_len;
        }
        self.lists.set_and_swap(c, &mut l);
        let sz = class_to_size(c);
        proof {
            assert forall|j: int| 0 <= j < NUM_SIZE_CLASSES
                implies 0 <= #[trigger] spec_class_size(j) by {
                if j >= 1 {
                    lemma_class_table_wf(j);
                }
            }
            lemma_tc_bytes_lower(old(self).lists@, c as int, NUM_SIZE_CLASSES as int);
            assert(to_release * sz <= objs0.len() * sz) by (nonlinear_arith)
                requires 0 <= to_release <= objs0.len(), sz >= 0;
            assert(to_release * sz >= 0) by (nonlinear_arith)
                requires to_release >= 0, sz >= 0;
        }
        self.total_size = self.total_size - to_release * sz;
        proof {
            lemma_tc_bytes_update(old(self).lists@, self.lists@, c as int,
                NUM_SIZE_CLASSES as int);
            assert((objs0.len() - to_release) * spec_class_size(c as int)
                == objs0.len() * spec_class_size(c as int)
                    - to_release * spec_class_size(c as int)) by (nonlinear_arith);
        }
        let ghost pre = *heap;
        proof {
            // the batch holds the most recently parked objects; all are
            // checked out, and none repeats
            assert forall|k: int| 0 <= k < batch.len()
                implies pre.checked_out(#[trigger] batch@[k], c as int) by {
                assert(batch@[k] == objs0[objs0.len() - 1 - k]);
            }
        }
        central.insert_range(c, &batch, heap);
        proof {
            // the kept prefix shares nothing with the batch, so its
            // objects are still checked out
            assert forall|k: int| 0 <= k < self.lists@[c as int].objects.len()
                implies !batch@.contains(#[trigger] self.lists@[c as int].objects@[k])
                    && heap.checked_out(self.lists@[c as int].objects@[k], c as int) by {
                assert(self.lists@[c as int].objects@[k] == objs0[k]);
                assert forall|j: int| 0 <= j < batch.len()
                    implies (#[trigger] batch@[j]) != objs0[k] by {
                    assert(batch@[j] == objs0[objs0.len() - 1 - j]);
                }
                assert(pre.checked_out(objs0[k], c as int));
            }
            assert forall|c2: int| 0 <= c2 < NUM_SIZE_CLASSES
                implies #[trigger] self.list_wf(*heap, c2) by {
                if c2 != c {
                    assert(old(self).list_wf(pre, c2));
                    assert(self.lists@[c2] == old(self).lists@[c2]);
                    assert forall|k: int| 0 <= k < self.lists@[c2].objects.len()
                        implies heap.checked_out(
                            #[trigger] self.lists@[c2].objects@[k], c2) by {
                        assert(pre.checked_out(self.lists@[c2].objects@[k], c2));
                        assert forall|j: int| 0 <= j < batch.len()
                            implies (#[trigger] batch@[j])
                                != self.lists@[c2].objects@[k] by {
                            assert(pre.checked_out(batch@[j], c as int));
                        }
                        assert(!batch@.contains(self.lists@[c2].objects@[k]));
                    }
                }
            }
            assert(self.lists@[0] == old(self).lists@[0]);
            assert forall|a2: usize, c2: int|
                old(self).user_owned(*old(heap), a2, c2)
                implies final(self).user_owned(*final(heap), a2, c2) by {
                assert(pre.checked_out(a2, c2));
                assert forall|j: int| 0 <= j < batch.len()
                    implies (#[trigger] batch@[j]) != a2 by {
                    assert(pre.checked_out(batch@[j], c as int));
                    if batch@[j] == a2 {
                        assert(c2 == c);
                        assert(objs0.contains(batch@[j]));
                    }
                }
                assert(!batch@.contains(a2));
                if c2 == c {
                    assert forall|k: int| 0 <= k < self.lists@[c as int].objects.len()
                        implies (#[trigger] self.lists@[c as int].objects@[k]) != a2 by {
                        assert(self.lists@[c as int].objects@[k] == objs0[k]);
                        assert(objs0.contains(objs0[k]));
                    }
                } else {
                    assert(self.lists@[c2] == old(self).lists@[c2]);
                }
            }
            // everything that left the list is home at the central cache
            assert forall|a2: usize| objs0.contains(a2)
                implies final(self).lists@[c as int].objects@.contains(a2)
                    || !final(heap).checked_out(a2, c as int) by {
                let k0 = choose|k0: int| 0 <= k0 < objs0.len() && objs0[k0] == a2;
                if k0 < objs0.len() - to_release {
                    assert(self.lists@[c as int].objects@[k0] == a2);
                    assert(self.lists@[c as int].objects@.contains(a2));
                } else {
                    let j = objs0.len() - 1 - k0;
                    assert(batch@[j] == a2);
                    assert(!heap.checked_out(batch@[j], c as int));
                }
            }
        }
    }

    /// Sweep the classes in order, draining half of each list, until the
    /// cache's byte total is back under half its cap or every class was
    /// swept.  Returns the sweep boundary: every class before it was
    /// drained once, every class from it on is untouched.
    fn scavenge(&mut self, central: &mut CentralCache, heap: &mut PageHeap)
        -> (swept: Ghost<int>)
        requires
            old(heap).wf(),
            old(central).wf(*old(heap)),
            old(self).wf(*old(heap)),
        ensures
            final(heap).wf(),
            final(central).wf(*final(heap)),
            final(self).wf(*final(heap)),
            forall|a2: usize, c2: int|
                old(self).user_owned(*old(heap), a2, c2)
                ==> final(self).user_owned(*final(heap), a2, c2),
            forall|id: int| 0 <= id < old(heap).spans.len()
                && (#[trigger] old(heap).spans@[id]).state == SpanState::Large
                ==> final(heap).spans@[id] == old(heap).spans@[id],
            final(heap).spans.len() == old(heap).spans.len(),
            final(heap).page_map.len() == old(heap).page_map.len(),
            final(heap).mem@ == old(heap).mem@,
            final(self).max_size == old(self).max_size,
            forall|c2: int, a: usize| 0 <= c2 < NUM_SIZE_CLASSES
                && old(self).lists@[c2].objects@.contains(a)
                ==> final(self).lists@[c2].objects@.contains(a)
                    || !final(heap).checked_out(a, c2),
            small_spans_only_gained(*old(heap), *final(heap)),
            1 <= swept@ <= NUM_SIZE_CLASSES,
            forall|c2: int| #![trigger final(self).lists@[c2]]
                1 <= c2 < swept@
                ==> list_drained(old(self).lists@[c2], final(self).lists@[c2]),
            forall|c2: int| #![trigger final(self).lists@[c2]]
                0 <= c2 < NUM_SIZE_CLASSES && !(1 <= c2 < swept@)
                ==> final(self).lists@[c2] == old(self).lists@[c2],
            swept@ < NUM_SIZE_CLASSES
                ==> final(self).total_size <= old(self).max_size / 2,
    {
        proof {
            lemma_small_gained_refl(*heap);
        }
        let target = self.max_size / 2;
        let ghost mut swept: int = 1;
        let mut c: usize = 1;
        while c < NUM_SIZE_CLASSES
            invariant
                1 <= c <= NUM_SIZE_CLASSES,
                1 <= swept <= NUM_SIZE_CLASSES,
                c as int == swept
                    || (c == NUM_SIZE_CLASSES && self.total_size <= target),
                target == old(self).max_size / 2,
                forall|c2: int| #![trigger self.lists@[c2]]
                    1 <= c2 < swept
                    ==> list_drained(old(self).lists@[c2], self.lists@[c2]),
                forall|c2: int| #![trigger self.lists@[c2]]
                    0 <= c2 < NUM_SIZE_CLASSES && !(1 <= c2 < swept)
                    ==> self.lists@[c2] == old(self).lists@[c2],
                heap.wf(),
                central.wf(*heap),
                self.wf(*heap),
                self.max_size == old(self).max_size,
                forall|a2: usize, c2: int|
                    old(self).user_owned(*old(heap), a2, c2)
                    ==> self.user_owned(*heap, a2, c2),
                forall|id: int| 0 <= id < old(heap).spans.len()
                    && (#[trigger] old(heap).spans@[id]).state == SpanState::Large
                    ==> heap.spans@[id] == old(heap).spans@[id],
                heap.spans.len() == old(heap).spans.len(),
                heap.page_map.len() == old(heap).page_map.len(),
                heap.mem@ == old(heap).mem@,
                forall|c2: int, a: usize| 0 <= c2 < NUM_SIZE_CLASSES
                    && old(self).lists@[c2].objects@.contains(a)
                    ==> self.lists@[c2].objects@.contains(a)
                        || !heap.checked_out(a, c2),
                small_spans_only_gained(*old(heap), *heap),
            decreases NUM_SIZE_CLASSES - c,
        {
            if self.total_size <= target {
                c = NUM_SIZE_CLASSES;
            } else {
                let ghost hpre = *heap;
                let ghost spre = *self;
                proof {
                    assert(self.list_wf(*heap, c as int));
                    assert(self.wf_relaxed(*heap, c as int)) by {
                        assert forall|c2: int|
                            0 <= c2 < NUM_SIZE_CLASSES && c2 != c
                            implies #[trigger] self.list_wf(*heap, c2) by {}
                    }
                }
                self.release_to_central(c, central, heap);
                proof {
                    assert(list_drained(old(self).lists@[c as int],
                        self.lists@[c as int])) by {
                        assert(spre.lists@[c as int] == old(self).lists@[c as int]);
                    }
                    assert forall|c2: int| #![trigger self.lists@[c2]]
                        1 <= c2 < swept
                        implies list_drained(old(self).lists@[c2], self.lists@[c2]) by {
                        assert(self.lists@[c2] == spre.lists@[c2]);
                    }
                    swept = swept + 1;
                    assert forall|a2: usize, c2: int|
                        old(self).user_owned(*old(heap), a2, c2)
                        implies self.user_owned(*heap, a2, c2) by {
                        assert(spre.user_owned(hpre, a2, c2));
                    }
                    lemma_small_gained_trans(*old(heap), hpre, *heap);
                    assert forall|c2: int, a: usize| 0 <= c2 < NUM_SIZE_CLASSES
                        && old(self).lists@[c2].objects@.contains(a)
                        implies self.lists@[c2].objects@.contains(a)
                            || !heap.checked_out(a, c2) by {
                        if spre.lists@[c2].objects@.contains(a) {
                            if c2 == c {
                            } else {
                                assert(self.lists@[c2] == spre.lists@[c2]);
                            }
                        } else {
                            assert(!hpre.checked_out(a, c2));
                            lemma_not_checked_out_preserved(hpre, *heap, a, c2);
                        }
                    }
                }
                c = c + 1;
            }
        }
        Ghost(swept)
    }
}

/// Empty lists park no bytes.
proof fn lemma_tc_bytes_empty(lists: Seq<FreeList>, n: int)
    requires
        n <= lists.len(),
        forall|c: int| 0 <= c < n ==> (#[trigger] lists[c].objects).len() == 0,
    ensures
        tc_bytes_up_to(lists, n) == 0,
    decreases n,
{
    if n > 0 {
        lemma_tc_bytes_empty(lists, n - 1);
        assert(lists[n - 1].objects.len() * spec_class_size(n - 1) == 0)
            by (nonlinear_arith)
            requires lists[n - 1].objects.len() == 0;
    }
}

} // verus!
