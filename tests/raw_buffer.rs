use custom_vector::policy::{max_capacity, MIN_NON_ZERO_CAP};
use custom_vector::raw_vec::RawVec;

#[test]
fn test_raw_vec_new() {
    let raw: RawVec<i32> = RawVec::new();
    assert_eq!(raw.capacity(), 0);
    assert!(raw.ptr().is_none());
}

#[test]
fn test_raw_vec_with_capacity() {
    let raw: RawVec<i32> = RawVec::with_capacity(10);
    assert!(raw.capacity() >= 10);
    assert!(raw.ptr().is_some());
}

#[test]
fn test_raw_vec_zero_sized() {
    let raw: RawVec<()> = RawVec::with_capacity(10);
    assert_eq!(raw.capacity(), usize::MAX);
    assert!(raw.ptr().is_some());
}

#[test]
fn test_raw_vec_reserve() {
    let mut raw: RawVec<i32> = RawVec::new();
    raw.reserve(5);
    assert!(raw.capacity() >= 5);
    let old_cap = raw.capacity();
    raw.reserve(10);
    assert!(raw.capacity() > old_cap);
}

#[test]
fn test_raw_vec_read_write() {
    let mut raw: RawVec<i32> = RawVec::with_capacity(2);
    raw.write_at(0, 42);
    raw.write_at(1, 24);
    assert_eq!(raw.read_at(0), 42);
    assert_eq!(raw.read_at(1), 24);
}

#[test]
fn test_raw_vec_get_ref() {
    let mut raw: RawVec<String> = RawVec::with_capacity(1);
    raw.write_at(0, String::from("test"));
    assert_eq!(raw.get_ref(0), "test");
}

#[test]
fn test_raw_vec_get_mut() {
    let mut raw: RawVec<String> = RawVec::with_capacity(1);
    raw.write_at(0, String::from("test"));
    *raw.get_mut(0) = String::from("modified");
    assert_eq!(raw.read_at(0), "modified");
}

#[test]
fn test_raw_vec_shift_right() {
    let mut raw: RawVec<i32> = RawVec::with_capacity(4);
    raw.write_at(0, 1);
    raw.write_at(1, 2);
    raw.shift_right(0, 2, 1);
    raw.write_at(0, 0);
    assert_eq!(raw.read_at(0), 0);
    assert_eq!(raw.read_at(1), 1);
    assert_eq!(raw.read_at(2), 2);
}

#[test]
fn test_raw_vec_shift_left() {
    let mut raw: RawVec<i32> = RawVec::with_capacity(3);
    raw.write_at(0, 1);
    raw.write_at(1, 2);
    raw.write_at(2, 3);
    raw.shift_left(1, 2, 1);
    assert_eq!(raw.read_at(0), 2);
    assert_eq!(raw.read_at(1), 3);
}

#[test]
fn test_raw_vec_clone() {
    let mut raw: RawVec<i32> = RawVec::with_capacity(2);
    raw.write_at(0, 1);
    raw.write_at(1, 2);
    let mut cloned = raw.clone();
    assert_eq!(cloned.read_at(0), 1);
    assert_eq!(cloned.read_at(1), 2);
    assert_eq!(cloned.capacity(), raw.capacity());
}

#[test]
fn test_growth_properties() {
    let mut vec = RawVec::<i32>::new();

    // Test initial allocation is power of 2
    vec.reserve(1);
    assert!(vec.capacity().is_power_of_two());
    assert!(vec.capacity() >= MIN_NON_ZERO_CAP);

    // Test growth maintains minimum capacity
    let mut last_cap = vec.capacity();
    for i in 1..=10 {
        vec.reserve(i * 100);
        let new_cap = vec.capacity();
        assert!(new_cap >= last_cap, "Capacity should never decrease on reserve");
        assert!(new_cap >= i * 100, "Capacity should meet required size");
        last_cap = new_cap;
    }
}

#[test]
fn test_shrink_properties() {
    let mut vec = RawVec::<i32>::with_capacity(1024);
    let original_cap = vec.capacity();

    // Shrinking to 1/8th of capacity should trigger resize
    vec.shrink_to_fit(original_cap / 8);
    assert!(vec.capacity() < original_cap);
    assert!(vec.capacity() >= original_cap / 8);
    assert!(vec.capacity().is_power_of_two());

    // Shrinking to 90% of current shouldn't change capacity
    let current_cap = vec.capacity();
    vec.shrink_to_fit((current_cap * 9) / 10);
    assert_eq!(vec.capacity(), current_cap);
}

#[test]
fn test_zero_sized_type_handling() {
    let mut vec = RawVec::<()>::new();
    // Zero-sized elements report an unbounded capacity from the start.
    assert_eq!(vec.capacity(), usize::MAX);

    vec.reserve(100);
    assert_eq!(vec.capacity(), usize::MAX);

    vec.shrink_to_fit(50);
    assert_eq!(vec.capacity(), usize::MAX);
}

#[derive(Clone)]
#[allow(dead_code)]
struct MediumType([u8; 512]);

#[derive(Clone)]
#[allow(dead_code)]
struct LargeType([u8; 2048]);

#[allow(dead_code)]
struct TestType([u8; 1024]);

#[test]
fn test_type_size_aware_growth() {
    // Test small type (i32 = 4 bytes)
    let mut small_vec = RawVec::<i32>::new();
    small_vec.reserve(10);
    let small_cap1 = small_vec.capacity();
    small_vec.reserve(small_cap1 + 1);
    let small_cap2 = small_vec.capacity();
    // For small types, should grow by ~100%
    assert!(small_cap2 >= small_cap1 * 2);

    // Test medium type (512 bytes)
    let mut medium_vec = RawVec::<MediumType>::new();
    medium_vec.reserve(10);
    let med_cap1 = medium_vec.capacity();
    medium_vec.reserve(med_cap1 + 1);
    let med_cap2 = medium_vec.capacity();
    // For medium types, should grow by ~50%
    assert!(med_cap2 >= med_cap1 + med_cap1 / 2);
    // The request (16 + 17 slots) exceeds 50% growth: it is met exactly, never rounded up
    assert_eq!(med_cap2, med_cap1 * 2 + 1);

    // Test large type (2KB)
    let mut large_vec = RawVec::<LargeType>::new();
    large_vec.reserve(10);
    let large_cap1 = large_vec.capacity();
    large_vec.reserve(large_cap1 + 1);
    let large_cap2 = large_vec.capacity();
    // For large types, should grow by ~25%
    assert!(large_cap2 >= large_cap1 + large_cap1 / 4);
    // The request (16 + 17 slots) exceeds 25% growth: it is met exactly, never rounded up
    assert_eq!(large_cap2, large_cap1 * 2 + 1);
}

#[test]
fn test_memory_waste_control() {
    // Test that we don't round to power of 2 when it would waste too much memory
    let mut vec = RawVec::<[u8; 1024]>::new();
    vec.reserve(1000); // Just under 1024
    let cap = vec.capacity();
    // Should not round up to 2048 as it would waste >16KB
    assert!(cap < 2048);

    // Test with small type where rounding is acceptable
    let mut small_vec = RawVec::<u8>::new();
    small_vec.reserve(1000);
    let small_cap = small_vec.capacity();
    // Should round up to 1024 as waste is minimal
    assert_eq!(small_cap, 1024);
}

#[test]
fn test_shrink_memory_threshold() {
    // Create a vector with 1MB worth of elements
    let mut vec = RawVec::<TestType>::with_capacity(2048); // 2MB total

    // Shrinking to 1/4 capacity (512KB waste) should trigger shrink
    vec.shrink_to_fit(512); // Now using 512KB
    assert!(vec.capacity() < 2048);

    // Shrinking with less waste shouldn't trigger
    let cap = vec.capacity();
    vec.shrink_to_fit(cap - 1);
    assert_eq!(vec.capacity(), cap);
}

#[test]
fn test_platform_capacity_limits() {
    let mut vec = RawVec::<u8>::new();

    // Start with a small size
    vec.reserve(64);
    let initial_cap = vec.capacity();
    assert!(initial_cap >= 64);

    // Test moderate growth
    let test_sizes = [
        initial_cap * 2,  // Double
        initial_cap * 4,  // Quadruple
        initial_cap * 8,  // 8x
        initial_cap * 16, // 16x
        1024 * 1024,      // 1MB worth of elements
    ];

    for &size in &test_sizes {
        vec.reserve(size);
        assert!(vec.capacity() <= max_capacity());
        assert!(vec.capacity() >= initial_cap);
        // Ensure the storage covers every slot
        assert_eq!(vec.ptr().map(|s| s.len()), Some(vec.capacity()));
    }

    // Test with a medium-sized type
    let mut medium_vec = RawVec::<[u8; 64]>::new();
    medium_vec.reserve(64); // Try to allocate 4KB
    assert!(medium_vec.capacity() <= max_capacity());

    // Ensure we can still grow from non-zero capacity
    let cap_before = medium_vec.capacity();
    medium_vec.reserve(cap_before * 2);
    assert!(medium_vec.capacity() >= cap_before);
    assert!(medium_vec.capacity() <= max_capacity());
}
