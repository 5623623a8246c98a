//! Size-class table and lookup functions.
//!
//! Small allocations are bucketed into size classes to bound fragmentation
//! and to let free lists be managed per class.  Class 0 is a sentinel
//! meaning "not a small allocation"; classes 1 through 45 cover sizes from
//! 8 bytes to 256 KiB in geometrically widening steps.  Each class carries
//! the object size, the number of pages per span of that class, and the
//! batch count used when objects move between the thread cache and the
//! central cache.

use vstd::prelude::*;
use crate::PAGE_SIZE;

verus! {

/// Number of defined size classes (index 0 is the sentinel).
pub const NUM_SIZE_CLASSES: usize = 46;

/// Largest allocation size served through size classes; anything bigger is
/// a "large" allocation handled directly by the page heap.
pub const MAX_SMALL_SIZE: usize = 262144;

/// Attributes of a single size class.
#[derive(Clone, Copy, PartialEq, Eq, Structural)]
pub struct SizeClassInfo {
    /// Bytes per object: every allocation in this class is rounded up to it.
    pub size: usize,
    /// Pages per span carved for this class.
    pub pages: usize,
    /// Objects moved at once between thread cache and central cache.
    pub batch_size: usize,
}

/// The size-class table.  Sizes step by 8 up to 64, by 16 up to 128, by 32
/// up to 256, and so on; batch counts shrink as objects grow.
pub open spec fn spec_class_info(c: int) -> SizeClassInfo {
    if c == 1 { SizeClassInfo { size: 8, pages: 1, batch_size: 32 } }
    else if c == 2 { SizeClassInfo { size: 16, pages: 1, batch_size: 32 } }
    else if c == 3 { SizeClassInfo { size: 24, pages: 1, batch_size: 32 } }
    else if c == 4 { SizeClassInfo { size: 32, pages: 1, batch_size: 32 } }
    else if c == 5 { SizeClassInfo { size: 40, pages: 1, batch_size: 32 } }
    else if c == 6 { SizeClassInfo { size: 48, pages: 1, batch_size: 32 } }
    else if c == 7 { SizeClassInfo { size: 56, pages: 1, batch_size: 32 } }
    else if c == 8 { SizeClassInfo { size: 64, pages: 1, batch_size: 32 } }
    else if c == 9 { SizeClassInfo { size: 80, pages: 1, batch_size: 32 } }
    else if c == 10 { SizeClassInfo { size: 96, pages: 1, batch_size: 32 } }
    else if c == 11 { SizeClassInfo { size: 112, pages: 1, batch_size: 32 } }
    else if c == 12 { SizeClassInfo { size: 128, pages: 1, batch_size: 32 } }
    else if c == 13 { SizeClassInfo { size: 160, pages: 1, batch_size: 32 } }
    else if c == 14 { SizeClassInfo { size: 192, pages: 1, batch_size: 32 } }
    else if c == 15 { SizeClassInfo { size: 224, pages: 1, batch_size: 32 } }
    else if c == 16 { SizeClassInfo { size: 256, pages: 1, batch_size: 32 } }
    else if c == 17 { SizeClassInfo { size: 320, pages: 1, batch_size: 16 } }
    else if c == 18 { SizeClassInfo { size: 384, pages: 1, batch_size: 16 } }
    else if c == 19 { SizeClassInfo { size: 448, pages: 1, batch_size: 16 } }
    else if c == 20 { SizeClassInfo { size: 512, pages: 1, batch_size: 16 } }
    else if c == 21 { SizeClassInfo { size: 640, pages: 1, batch_size: 16 } }
    else if c == 22 { SizeClassInfo { size: 768, pages: 1, batch_size: 16 } }
    else if c == 23 { SizeClassInfo { size: 896, pages: 1, batch_size: 16 } }
    else if c == 24 { SizeClassInfo { size: 1024, pages: 1, batch_size: 16 } }
    else if c == 25 { SizeClassInfo { size: 1280, pages: 1, batch_size: 8 } }
    else if c == 26 { SizeClassInfo { size: 1536, pages: 1, batch_size: 8 } }
    else if c == 27 { SizeClassInfo { size: 1792, pages: 1, batch_size: 8 } }
    else if c == 28 { SizeClassInfo { size: 2048, pages: 1, batch_size: 8 } }
    else if c == 29 { SizeClassInfo { size: 2560, pages: 1, batch_size: 4 } }
    else if c == 30 { SizeClassInfo { size: 3072, pages: 1, batch_size: 4 } }
    else if c == 31 { SizeClassInfo { size: 3584, pages: 1, batch_size: 4 } }
    else if c == 32 { SizeClassInfo { size: 4096, pages: 1, batch_size: 4 } }
    else if c == 33 { SizeClassInfo { size: 5120, pages: 1, batch_size: 4 } }
    else if c == 34 { SizeClassInfo { size: 6144, pages: 1, batch_size: 4 } }
    else if c == 35 { SizeClassInfo { size: 7168, pages: 1, batch_size: 4 } }
    else if c == 36 { SizeClassInfo { size: 8192, pages: 1, batch_size: 4 } }
    else if c == 37 { SizeClassInfo { size: 10240, pages: 2, batch_size: 2 } }
    else if c == 38 { SizeClassInfo { size: 12288, pages: 2, batch_size: 2 } }
    else if c == 39 { SizeClassInfo { size: 16384, pages: 2, batch_size: 2 } }
    else if c == 40 { SizeClassInfo { size: 20480, pages: 3, batch_size: 2 } }
    else if c == 41 { SizeClassInfo { size: 32768, pages: 4, batch_size: 2 } }
    else if c == 42 { SizeClassInfo { size: 40960, pages: 5, batch_size: 2 } }
    else if c == 43 { SizeClassInfo { size: 65536, pages: 8, batch_size: 2 } }
    else if c == 44 { SizeClassInfo { size: 131072, pages: 16, batch_size: 2 } }
    else if c == 45 { SizeClassInfo { size: 262144, pages: 32, batch_size: 2 } }
    else { SizeClassInfo { size: 0, pages: 0, batch_size: 0 } }
}

/// Object size of class `c`, 0 for the sentinel.
pub open spec fn spec_class_size(c: int) -> int {
    spec_class_info(c).size as int
}

/// Pages per span of class `c`.
pub open spec fn spec_class_pages(c: int) -> int {
    spec_class_info(c).pages as int
}

/// Objects a span of class `c` is carved into.
pub open spec fn spec_objects_per_span(c: int) -> int {
    spec_class_pages(c) * (PAGE_SIZE as int) / spec_class_size(c)
}

/// Smallest class at or above `c` whose size is at least `s`, or 0 when no
/// class fits.
pub open spec fn spec_smallest_fit(c: int, s: int) -> int
    decreases NUM_SIZE_CLASSES - c when c < NUM_SIZE_CLASSES
{
    if c < 1 || c >= NUM_SIZE_CLASSES {
        0
    } else if spec_class_size(c) >= s {
        c
    } else {
        spec_smallest_fit(c + 1, s)
    }
}

/// The class serving a request of `s` bytes: the smallest class whose size
/// is at least `s`, or 0 when `s` is beyond the largest class.  A request
/// of 0 bytes is served by class 1, the minimum allocation.
pub open spec fn spec_size_to_class(s: int) -> int {
    if s > MAX_SMALL_SIZE { 0 } else { spec_smallest_fit(1, s) }
}

/// A `SizeClassInfo` that is a row of the table for a non-sentinel class.
pub open spec fn is_table_entry(info: SizeClassInfo) -> bool {
    exists|c: int| 1 <= c < NUM_SIZE_CLASSES && info == spec_class_info(c)
}

impl SizeClassInfo {
    /// Total object capacity of one span of this class.
    pub fn objects_per_span(&self) -> (r: usize)
        requires
            is_table_entry(*self),
        ensures
            r == (self.pages * PAGE_SIZE) / self.size as int,
            r >= 1,
    {
        proof {
            let c = choose|c: int| 1 <= c < NUM_SIZE_CLASSES && *self == spec_class_info(c);
            lemma_class_table_wf(c);
        }
        (self.pages * PAGE_SIZE) / self.size
    }
}

/// Basic facts about one row of the table: the size is positive, a
/// multiple of 8, at most `MAX_SMALL_SIZE`; the page count is in [1, 32];
/// a span holds at least one object and the objects fit in the span; the
/// batch count is in [1, 32].
pub proof fn lemma_class_table_wf(c: int)
    requires
        1 <= c < NUM_SIZE_CLASSES,
    ensures
        8 <= spec_class_size(c) <= MAX_SMALL_SIZE,
        spec_class_size(c) % 8 == 0,
        1 <= spec_class_pages(c) <= 32,
        spec_class_pages(c) * PAGE_SIZE <= 262144,
        1 <= spec_objects_per_span(c) <= 1024,
        spec_objects_per_span(c) * spec_class_size(c) <= spec_class_pages(c) * PAGE_SIZE,
        1 <= spec_class_info(c).batch_size <= 32,
{
    lemma_pages_div(spec_class_pages(c) * (PAGE_SIZE as int), spec_class_size(c));
}

/// Division facts used for span capacities: `(b / s) * s <= b` and the
/// quotient's range, for the concrete bounds the table uses.
proof fn lemma_pages_div(b: int, s: int) by (nonlinear_arith)
    requires
        1 <= s,
        s <= b <= 262144,
    ensures
        1 <= b / s <= b,
        (b / s) * s <= b,
{
}

/// Sizes grow strictly from each class to the next.
pub proof fn lemma_class_sizes_strictly_increasing()
    ensures
        forall|c: int| 1 <= c < NUM_SIZE_CLASSES - 1 ==>
            #[trigger] spec_class_size(c) < spec_class_size(c + 1),
{
}

/// Map an allocation size to its size class.
///
/// Returns 1 for a zero-byte request (the minimum allocation is 8 bytes)
/// and 0 for any size beyond `MAX_SMALL_SIZE`, meaning a large allocation.
pub fn size_to_class(size: usize) -> (c: usize)
    ensures
        c == spec_size_to_class(size as int),
        c < NUM_SIZE_CLASSES,
        size <= MAX_SMALL_SIZE ==> 1 <= c && spec_class_size(c as int) >= size,
        size > MAX_SMALL_SIZE ==> c == 0,
{
    if size > MAX_SMALL_SIZE {
        return 0;
    }
    let mut cls: usize = 1;
    loop
        invariant
            1 <= cls < NUM_SIZE_CLASSES,
            size <= MAX_SMALL_SIZE,
            spec_smallest_fit(1, size as int) == spec_smallest_fit(cls as int, size as int),
            spec_class_size(cls as int - 1) < size || cls == 1,
        decreases NUM_SIZE_CLASSES - cls,
    {
        if class_to_size(cls) >= size {
            return cls;
        }
        assert(cls < NUM_SIZE_CLASSES - 1) by {
            assert(spec_class_size(45) == MAX_SMALL_SIZE);
        }
        cls = cls + 1;
    }
}

/// Allocation size for a given size class (0 for the sentinel class).
pub fn class_to_size(cls: usize) -> (r: usize)
    requires
        cls < NUM_SIZE_CLASSES,
    ensures
        r == spec_class_size(cls as int),
{
    class_info(cls).size
}

/// The table row for a given class index.
pub fn class_info(cls: usize) -> (r: SizeClassInfo)
    requires
        cls < NUM_SIZE_CLASSES,
    ensures
        r == spec_class_info(cls as int),
        cls >= 1 ==> is_table_entry(r),
{
    let r = match cls {
        1 => SizeClassInfo { size: 8, pages: 1, batch_size: 32 },
        2 => SizeClassInfo { size: 16, pages: 1, batch_size: 32 },
        3 => SizeClassInfo { size: 24, pages: 1, batch_size: 32 },
        4 => SizeClassInfo { size: 32, pages: 1, batch_size: 32 },
        5 => SizeClassInfo { size: 40, pages: 1, batch_size: 32 },
        6 => SizeClassInfo { size: 48, pages: 1, batch_size: 32 },
        7 => SizeClassInfo { size: 56, pages: 1, batch_size: 32 },
        8 => SizeClassInfo { size: 64, pages: 1, batch_size: 32 },
        9 => SizeClassInfo { size: 80, pages: 1, batch_size: 32 },
        10 => SizeClassInfo { size: 96, pages: 1, batch_size: 32 },
        11 => SizeClassInfo { size: 112, pages: 1, batch_size: 32 },
        12 => SizeClassInfo { size: 128, pages: 1, batch_size: 32 },
        13 => SizeClassInfo { size: 160, pages: 1, batch_size: 32 },
        14 => SizeClassInfo { size: 192, pages: 1, batch_size: 32 },
        15 => SizeClassInfo { size: 224, pages: 1, batch_size: 32 },
        16 => SizeClassInfo { size: 256, pages: 1, batch_size: 32 },
        17 => SizeClassInfo { size: 320, pages: 1, batch_size: 16 },
        18 => SizeClassInfo { size: 384, pages: 1, batch_size: 16 },
        19 => SizeClassInfo { size: 448, pages: 1, batch_size: 16 },
        20 => SizeClassInfo { size: 512, pages: 1, batch_size: 16 },
        21 => SizeClassInfo { size: 640, pages: 1, batch_size: 16 },
        22 => SizeClassInfo { size: 768, pages: 1, batch_size: 16 },
        23 => SizeClassInfo { size: 896, pages: 1, batch_size: 16 },
        24 => SizeClassInfo { size: 1024, pages: 1, batch_size: 16 },
        25 => SizeClassInfo { size: 1280, pages: 1, batch_size: 8 },
        26 => SizeClassInfo { size: 1536, pages: 1, batch_size: 8 },
        27 => SizeClassInfo { size: 1792, pages: 1, batch_size: 8 },
        28 => SizeClassInfo { size: 2048, pages: 1, batch_size: 8 },
        29 => SizeClassInfo { size: 2560, pages: 1, batch_size: 4 },
        30 => SizeClassInfo { size: 3072, pages: 1, batch_size: 4 },
        31 => SizeClassInfo { size: 3584, pages: 1, batch_size: 4 },
        32 => SizeClassInfo { size: 4096, pages: 1, batch_size: 4 },
        33 => SizeClassInfo { size: 5120, pages: 1, batch_size: 4 },
        34 => SizeClassInfo { size: 6144, pages: 1, batch_size: 4 },
        35 => SizeClassInfo { size: 7168, pages: 1, batch_size: 4 },
        36 => SizeClassInfo { size: 8192, pages: 1, batch_size: 4 },
        37 => SizeClassInfo { size: 10240, pages: 2, batch_size: 2 },
        38 => SizeClassInfo { size: 12288, pages: 2, batch_size: 2 },
        39 => SizeClassInfo { size: 16384, pages: 2, batch_size: 2 },
        40 => SizeClassInfo { size: 20480, pages: 3, batch_size: 2 },
        41 => SizeClassInfo { size: 32768, pages: 4, batch_size: 2 },
        42 => SizeClassInfo { size: 40960, pages: 5, batch_size: 2 },
        43 => SizeClassInfo { size: 65536, pages: 8, batch_size: 2 },
        44 => SizeClassInfo { size: 131072, pages: 16, batch_size: 2 },
        45 => SizeClassInfo { size: 262144, pages: 32, batch_size: 2 },
        _ => SizeClassInfo { size: 0, pages: 0, batch_size: 0 },
    };
    proof {
        if 1 <= cls {
            assert(r == spec_class_info(cls as int));
        }
    }
    r
}

/// Rounding up to a class loses nothing: the chosen class fits the request,
/// and no smaller class does.
pub proof fn lemma_size_to_class_fits(s: int)
    requires
        1 <= s <= MAX_SMALL_SIZE,
    ensures
        1 <= spec_size_to_class(s) < NUM_SIZE_CLASSES,
        spec_class_size(spec_size_to_class(s)) >= s,
        forall|c: int| 1 <= c < NUM_SIZE_CLASSES && spec_class_size(c) >= s ==>
            spec_size_to_class(s) <= c,
{
    lemma_smallest_fit_props(1, s);
}

/// For a start class whose predecessors all fail to fit, `spec_smallest_fit`
/// lands on a fitting class and no earlier one fits.
proof fn lemma_smallest_fit_props(c0: int, s: int)
    requires
        1 <= c0 < NUM_SIZE_CLASSES,
        1 <= s <= MAX_SMALL_SIZE,
    ensures
        c0 <= spec_smallest_fit(c0, s) < NUM_SIZE_CLASSES,
        spec_class_size(spec_smallest_fit(c0, s)) >= s,
        forall|c: int| c0 <= c < spec_smallest_fit(c0, s) ==> spec_class_size(c) < s,
    decreases NUM_SIZE_CLASSES - c0,
{
    if spec_class_size(c0) >= s {
    } else {
        assert(c0 < NUM_SIZE_CLASSES - 1) by {
            assert(spec_class_size(45) == MAX_SMALL_SIZE);
        }
        lemma_smallest_fit_props(c0 + 1, s);
    }
}

/// `size_to_class` is non-decreasing over the small range, and round-trips
/// with `class_to_size` on every class's own size.
pub proof fn lemma_size_to_class_monotonic(s1: int, s2: int)
    requires
        1 <= s1 <= s2 <= MAX_SMALL_SIZE,
    ensures
        spec_size_to_class(s1) <= spec_size_to_class(s2),
{
    lemma_size_to_class_fits(s1);
    lemma_size_to_class_fits(s2);
    assert(spec_class_size(spec_size_to_class(s2)) >= s1);
}

/// The class of a class's own size is that class again.
pub proof fn lemma_class_round_trip(c: int)
    requires
        1 <= c < NUM_SIZE_CLASSES,
    ensures
        spec_size_to_class(spec_class_size(c)) == c,
{
    lemma_class_table_wf(c);
    lemma_size_to_class_fits(spec_class_size(c));
    let found = spec_size_to_class(spec_class_size(c));
    lemma_class_sizes_strictly_increasing();
    if found < c {
        assert(spec_class_size(found) < spec_class_size(c)) by {
            lemma_class_size_monotonic_in_class(found, c);
        }
    }
}

/// Strict growth of sizes, extended from neighbours to any pair of classes.
pub proof fn lemma_class_size_monotonic_in_class(c1: int, c2: int)
    requires
        1 <= c1 < c2 < NUM_SIZE_CLASSES,
    ensures
        spec_class_size(c1) < spec_class_size(c2),
    decreases c2 - c1,
{
    lemma_class_sizes_strictly_increasing();
    if c1 + 1 < c2 {
        lemma_class_size_monotonic_in_class(c1 + 1, c2);
    }
}

} // verus!
