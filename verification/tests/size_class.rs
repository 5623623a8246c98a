//! Size-class lookup tests: exact sizes, rounding, the large cutoff, and
//! table sanity.

use rtmalloc::size_class::{class_info, class_to_size, size_to_class, NUM_SIZE_CLASSES};
use rtmalloc::PAGE_SIZE;

#[test]
fn test_size_to_class_zero() {
    let cls = size_to_class(0);
    assert_eq!(cls, 1);
    assert_eq!(class_to_size(cls), 8);
}

#[test]
fn test_size_to_class_exact() {
    assert_eq!(class_to_size(size_to_class(8)), 8);
    assert_eq!(class_to_size(size_to_class(16)), 16);
    assert_eq!(class_to_size(size_to_class(64)), 64);
    assert_eq!(class_to_size(size_to_class(128)), 128);
    assert_eq!(class_to_size(size_to_class(256)), 256);
    assert_eq!(class_to_size(size_to_class(512)), 512);
    assert_eq!(class_to_size(size_to_class(1024)), 1024);
    assert_eq!(class_to_size(size_to_class(2048)), 2048);
    assert_eq!(class_to_size(size_to_class(4096)), 4096);
    assert_eq!(class_to_size(size_to_class(8192)), 8192);
    assert_eq!(class_to_size(size_to_class(262144)), 262144);
}

#[test]
fn test_size_to_class_rounds_up() {
    assert_eq!(class_to_size(size_to_class(1)), 8);
    assert_eq!(class_to_size(size_to_class(7)), 8);
    assert_eq!(class_to_size(size_to_class(9)), 16);
    assert_eq!(class_to_size(size_to_class(15)), 16);
    assert_eq!(class_to_size(size_to_class(17)), 24);
    assert_eq!(class_to_size(size_to_class(65)), 80);
    assert_eq!(class_to_size(size_to_class(129)), 160);
    assert_eq!(class_to_size(size_to_class(257)), 320);
    assert_eq!(class_to_size(size_to_class(1025)), 1280);
}

#[test]
fn test_size_to_class_large() {
    assert_eq!(size_to_class(262145), 0);
    assert_eq!(size_to_class(1_000_000), 0);
}

#[test]
fn test_round_trip_all_classes() {
    for cls in 1..NUM_SIZE_CLASSES {
        let size = class_to_size(cls);
        assert!(size > 0, "class {} has zero size", cls);
        let found = size_to_class(size);
        assert_eq!(
            found, cls,
            "round-trip failed for class {} (size {})",
            cls, size
        );
    }
}

#[test]
fn test_classes_monotonically_increasing() {
    for i in 2..NUM_SIZE_CLASSES {
        assert!(
            class_info(i).size > class_info(i - 1).size,
            "class {} size {} not greater than class {} size {}",
            i,
            class_info(i).size,
            i - 1,
            class_info(i - 1).size
        );
    }
}

#[test]
fn test_all_sizes_8_aligned() {
    for cls in 1..NUM_SIZE_CLASSES {
        assert_eq!(
            class_info(cls).size % 8,
            0,
            "class {} size {} not 8-aligned",
            cls,
            class_info(cls).size
        );
    }
}

#[test]
fn test_objects_per_span() {
    for cls in 1..NUM_SIZE_CLASSES {
        let info = class_info(cls);
        let objs = info.objects_per_span();
        assert!(objs >= 1, "class {} has 0 objects per span", cls);
        // Verify objects fit in span
        assert!(objs * info.size <= info.pages * PAGE_SIZE);
    }
}
