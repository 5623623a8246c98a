//! A tcmalloc-style heap allocator, verified.
//!
//! The allocator manages a page-granular address space through three tiers:
//! a per-thread front-end of per-size-class free lists (`thread_cache`), a
//! central cache of spans per size class (`central_free_list`), and a page
//! heap that carves and coalesces spans of contiguous pages (`page_heap`).
//! A page map gives the owning span of every page, and a size-class table
//! (`size_class`) buckets small requests.
//!
//! All state is held as plain values: an address is a byte offset into the
//! allocator's reserved region, memory itself is a byte vector owned by the
//! page heap, and the page provider is a bump reservation over page numbers.
//! Every operation carries a contract; the top-level `TcMalloc` type keeps a
//! ghost map of live allocations and its `allocate` proves that each address it
//! hands out is aligned and disjoint from every other live allocation.

use vstd::prelude::*;

pub mod size_class;
pub mod span;
pub mod page_heap;
pub mod central_free_list;
pub mod thread_cache;
pub mod allocator;

verus! {

/// Log2 of the page size: all reservations are in 8 KiB pages.
pub const PAGE_SHIFT: usize = 13;

/// Page size in bytes (8 KiB).
pub const PAGE_SIZE: usize = 8192;

/// Cap on the number of pages the provider will ever hand out.  A request
/// that would push the reservation past this cap fails, which is how the
/// model surfaces out-of-memory.
pub const MAX_PAGES: usize = 32768;

} // verus!
