//! Spans: contiguous runs of pages owned as a unit.
//!
//! A span is owned by the page heap (free), by one central-cache bucket
//! (carved into small objects of one size class), or by a single large
//! allocation.  Span records live in one arena held by the page heap;
//! when two free spans coalesce, the absorbed record is retired in place
//! so indices stay stable.

use vstd::prelude::*;
use vstd::arithmetic::div_mod::{
    lemma_fundamental_div_mod, lemma_fundamental_div_mod_converse, lemma_div_is_ordered,
    lemma_div_multiples_vanish,
};
use vstd::set_lib::{set_int_range, lemma_int_range, lemma_len_subset};
use crate::PAGE_SIZE;
use crate::size_class::{
    spec_class_size, spec_objects_per_span, lemma_class_table_wf, NUM_SIZE_CLASSES,
};

verus! {

/// Who owns a span.
#[derive(Clone, Copy, PartialEq, Eq, Structural)]
pub enum SpanState {
    /// In the page heap's free pool.
    Free,
    /// Carved into objects of one size class, owned by that class's
    /// central-cache bucket.
    Small,
    /// Owned whole by one large allocation (or freshly carved out of the
    /// page heap and not yet assigned).
    Large,
    /// Dead arena slot, left behind when this span was merged into a
    /// neighbour.
    Retired,
}

/// A contiguous run of pages.
pub struct Span {
    pub state: SpanState,
    /// First page of the run.
    pub start_page: usize,
    /// Length of the run in pages.
    pub num_pages: usize,
    /// Size class the span is carved for; 0 for free and large spans.
    pub size_class: usize,
    /// Addresses of the objects of this span that are free, newest last.
    pub free_objects: Vec<usize>,
    /// For a large span: the address handed to the caller (the span's
    /// first byte, or offset up when the request's alignment exceeds a
    /// page).
    pub alloc_addr: usize,
}

impl Span {
    /// The record is an actual span, not a retired arena slot.
    pub open spec fn is_live(self) -> bool {
        self.state != SpanState::Retired
    }

    /// First byte of the run.
    pub open spec fn start_addr(self) -> int {
        self.start_page * PAGE_SIZE
    }

    /// One past the last page of the run.
    pub open spec fn end_page(self) -> int {
        self.start_page + self.num_pages
    }

    /// One past the last byte of the run.
    pub open spec fn end_addr(self) -> int {
        self.end_page() * PAGE_SIZE
    }

    pub open spec fn contains_page(self, p: int) -> bool {
        self.start_page <= p < self.end_page()
    }

    /// `addr` is one of the object slots this small span is carved into.
    pub open spec fn is_slot(self, addr: int) -> bool {
        let size = spec_class_size(self.size_class as int);
        let cap = spec_objects_per_span(self.size_class as int);
        &&& self.start_addr() <= addr
        &&& addr < self.start_addr() + cap * size
        &&& (addr - self.start_addr()) % size == 0
    }

    /// A span record consistent with its state, ignoring its placement in
    /// the page map: class bounds, capacity bound, and every free object a
    /// distinct slot of the span.
    pub open spec fn fields_wf(self) -> bool {
        &&& (self.state == SpanState::Free ==> self.size_class == 0
            && self.free_objects.len() == 0)
        &&& (self.state == SpanState::Large ==> self.size_class == 0
            && self.free_objects.len() == 0)
        &&& (self.state == SpanState::Small ==> {
            &&& 1 <= self.size_class < NUM_SIZE_CLASSES
            &&& self.num_pages == crate::size_class::spec_class_pages(self.size_class as int)
            &&& self.free_objects.len() <= spec_objects_per_span(self.size_class as int)
            &&& (forall|j: int| 0 <= j < self.free_objects.len()
                ==> self.is_slot(#[trigger] self.free_objects[j] as int))
            &&& self.free_objects@.no_duplicates()
        })
    }

    /// The index of slot `a` within this small span.
    pub open spec fn slot_index(self, a: usize) -> int {
        ((a as int) - self.start_addr()) / spec_class_size(self.size_class as int)
    }

    /// A fresh retired arena slot.
    pub fn retired() -> (s: Span)
        ensures
            s.state == SpanState::Retired,
    {
        Span {
            state: SpanState::Retired,
            start_page: 0,
            num_pages: 0,
            size_class: 0,
            free_objects: Vec::new(),
            alloc_addr: 0,
        }
    }
}

/// An object slot decomposes as the span base plus a whole number of
/// object sizes, with its index below the span's capacity.
pub proof fn lemma_slot_index(s: Span, a: usize)
    requires
        s.state == SpanState::Small,
        1 <= s.size_class < NUM_SIZE_CLASSES,
        s.is_slot(a as int),
    ensures
        a as int == s.start_addr() + s.slot_index(a) * spec_class_size(s.size_class as int),
        0 <= s.slot_index(a) < spec_objects_per_span(s.size_class as int),
{
    let c = s.size_class as int;
    lemma_class_table_wf(c);
    let size = spec_class_size(c);
    let cap = spec_objects_per_span(c);
    let base = s.start_addr();
    let x = (a as int) - base;
    lemma_fundamental_div_mod(x, size);
    let k = x / size;
    assert(x == size * k);
    assert(0 <= k) by (nonlinear_arith)
        requires x >= 0, size >= 1, x == size * k;
    assert(k < cap) by (nonlinear_arith)
        requires x < cap * size, size >= 1, x == size * k;
}

/// A small span with one of its slots absent from its free list has
/// room: strictly fewer free objects than capacity.  (Conversely, a full
/// free list accounts for every slot, so nothing of the span is still
/// checked out when it is released.)
pub proof fn lemma_missing_slot_room(s: Span, a: usize)
    requires
        s.state == SpanState::Small,
        s.fields_wf(),
        s.is_slot(a as int),
        !s.free_objects@.contains(a),
    ensures
        s.free_objects.len() < spec_objects_per_span(s.size_class as int),
{
    broadcast use vstd::set::group_set_axioms;

    let c = s.size_class as int;
    lemma_class_table_wf(c);
    let size = spec_class_size(c);
    let cap = spec_objects_per_span(c);
    let base = s.start_addr();
    let objs = s.free_objects@;
    let key = |o: usize| ((o as int) - base) / size;
    let ks = objs.map_values(key);
    assert forall|j: int| 0 <= j < objs.len() implies
        objs[j] as int == base + (#[trigger] ks[j]) * size && 0 <= ks[j] < cap by {
        lemma_slot_index(s, objs[j]);
        assert(ks[j] == key(objs[j]));
    }
    assert(ks.no_duplicates()) by {
        assert forall|i: int, j: int|
            0 <= i < ks.len() && 0 <= j < ks.len() && i != j
            implies ks[i] != ks[j] by {
            if ks[i] == ks[j] {
                assert(objs[i] as int == base + ks[i] * size);
                assert(objs[j] as int == base + ks[j] * size);
                assert(objs[i] == objs[j]);
            }
        }
    }
    lemma_slot_index(s, a);
    let ka = s.slot_index(a);
    let target = set_int_range(0, cap).remove(ka);
    assert forall|x: int| ks.to_set().contains(x) implies target.contains(x) by {
        let j = choose|j: int| 0 <= j < ks.len() && ks[j] == x;
        assert(0 <= x < cap);
        if x == ka {
            assert(objs[j] as int == base + ka * size);
            assert(objs[j] == a);
            assert(objs.contains(a));
        }
    }
    ks.unique_seq_to_set();
    lemma_int_range(0, cap);
    assert(set_int_range(0, cap).contains(ka));
    assert(target.len() == cap - 1);
    lemma_len_subset(ks.to_set(), target);
}

/// The page holding an address within a page-aligned run of pages.
pub proof fn lemma_addr_page_range(addr: int, p1: int, p2: int)
    requires
        0 <= p1,
        p1 * PAGE_SIZE <= addr,
        addr < p2 * PAGE_SIZE,
    ensures
        p1 <= addr / (PAGE_SIZE as int) < p2,
{
    let ps = PAGE_SIZE as int;
    lemma_div_is_ordered(p1 * ps, addr, ps);
    lemma_div_multiples_vanish(p1, ps);
    lemma_div_is_ordered(addr, p2 * ps - 1, ps);
    lemma_fundamental_div_mod_converse(p2 * ps - 1, ps, p2 - 1, ps - 1);
}

} // verus!
