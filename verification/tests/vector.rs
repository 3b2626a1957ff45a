//! Behaviour of the vector on concrete values.
#![allow(clippy::identity_op)]
use compact_vec::{BitWidth, CompactVec};

#[test]
fn starts_u8_and_stores_small_values() {
    let mut cv = CompactVec::new();
    cv.push(0);
    cv.push(255);
    assert_eq!(cv.width_bits(), 8);
    assert_eq!(cv.get(0), Some(0));
    assert_eq!(cv.get(1), Some(255));
    assert_eq!(cv.len(), 2);
}

#[test]
fn upgrades_u8_to_u16() {
    let mut cv = CompactVec::new();
    cv.push(10);
    assert_eq!(cv.width_bits(), 8);
    cv.push(256);
    assert_eq!(cv.width_bits(), 16);
    assert_eq!(cv.get(0), Some(10));
    assert_eq!(cv.get(1), Some(256));
}

#[test]
fn upgrades_u16_to_u24() {
    let mut cv = CompactVec::new();
    cv.push(1000);
    assert_eq!(cv.width_bits(), 16);
    cv.push(u16::MAX as u32 + 1);
    assert_eq!(cv.width_bits(), 24);
    assert_eq!(cv.get(0), Some(1000));
    assert_eq!(cv.get(1), Some(u16::MAX as u32 + 1));
}

#[test]
fn upgrades_u8_directly_to_u24() {
    let mut cv = CompactVec::new();
    cv.push(1);
    cv.push(100_000);
    assert_eq!(cv.width_bits(), 24);
    assert_eq!(cv.get(0), Some(1));
    assert_eq!(cv.get(1), Some(100_000));
}

#[test]
fn push_and_pop() {
    let mut cv = CompactVec::new();
    for i in 0..100u32 {
        cv.push(i);
    }
    assert_eq!(cv.len(), 100);
    for i in (0..100u32).rev() {
        assert_eq!(cv.pop(), Some(i));
    }
    assert!(cv.is_empty());
    assert_eq!(cv.pop(), None);
}

#[test]
fn set_upgrades_if_needed() {
    let mut cv = CompactVec::new();
    cv.push(1u32);
    cv.push(2u32);
    assert_eq!(cv.width_bits(), 8);
    cv.set(0, 70_000);
    assert_eq!(cv.width_bits(), 24);
    assert_eq!(cv.get(0), Some(70_000));
    assert_eq!(cv.get(1), Some(2));
}

#[test]
fn out_of_bounds_returns_none() {
    let cv = CompactVec::new();
    assert_eq!(cv.get(0), None);
    let mut cv2 = CompactVec::new();
    cv2.push(42);
    assert_eq!(cv2.get(1), None);
}

#[test]
fn iter_matches_pushes() {
    let vals: Vec<u32> = vec![0, 1, 255, 256, 65535, 65536, u32::MAX];
    let cv = CompactVec::from_iter(vals.iter().copied());
    let out: Vec<u32> = cv.iter().collect();
    assert_eq!(vals, out);
    assert_eq!(cv.width_bits(), 32);
}

#[test]
fn with_capacity_no_realloc_for_small_set() {
    let mut cv = CompactVec::with_capacity(64);
    assert!(cv.capacity() >= 64);
    for i in 0..64u32 {
        cv.push(i);
    }
    assert_eq!(cv.len(), 64);
    assert_eq!(cv.width_bits(), 8);
}

#[test]
fn from_iterator() {
    let cv = CompactVec::from_iter(0u32..257);
    assert_eq!(cv.len(), 257);
    assert_eq!(cv.width_bits(), 16);
    for i in 0u32..257 {
        assert_eq!(cv.get(i as usize), Some(i));
    }
}

#[test]
fn large_u32_values() {
    let mut cv = CompactVec::new();
    cv.push(u32::MAX);
    assert_eq!(cv.width_bits(), 32);
    assert_eq!(cv.get(0), Some(u32::MAX));
    cv.push(0);
    cv.push(u32::MAX - 1);
    assert_eq!(cv.get(1), Some(0));
    assert_eq!(cv.get(2), Some(u32::MAX - 1));
}

#[test]
fn debug_format() {
    let cv = CompactVec::from_iter(vec![1u32, 2, 3].into_iter());
    assert_eq!(format!("{cv:?}"), "[1, 2, 3]");
}

#[test]
fn exact_size_iterator() {
    let cv = CompactVec::from_iter(0u32..10);
    let mut it = cv.iter();
    assert_eq!(it.len(), 10);
    it.next();
    assert_eq!(it.len(), 9);
}

#[test]
fn get_unchecked_matches_get() {
    let cv = CompactVec::from_iter(vec![10u32, 20, 300, 70_000].into_iter());
    for i in 0..cv.len() {
        assert_eq!(cv.get_unchecked(i), cv.get(i).unwrap());
    }
}

#[test]
fn memory_u8_is_quarter_of_u32() {
    let mut cv = CompactVec::new();
    for i in 0u32..=255 {
        cv.push(i);
    }
    assert_eq!(cv.width_bits(), 8);
    let used_bytes = cv.capacity();
    let u32_equivalent = cv.capacity() * 4;
    assert_eq!(used_bytes * 4, u32_equivalent);
}

#[test]
fn u8_storage_is_4x_denser_than_vec_u32() {
    let n = 1024usize;
    let mut cv = CompactVec::with_capacity(n);
    for i in 0..n {
        cv.push(i as u32 % 256);
    }
    assert_eq!(cv.width_bits(), 8);
    let compact_bytes = cv.byte_capacity();
    let naive_bytes = cv.capacity() * 4;
    assert_eq!(compact_bytes * 4, naive_bytes);
}

#[test]
fn u16_storage_is_2x_denser_than_vec_u32() {
    let n = 1024usize;
    let mut cv = CompactVec::with_capacity(n);
    for i in 0..n {
        cv.push(256 + (i as u32 % (65535 - 256)));
    }
    assert_eq!(cv.width_bits(), 16);
    let compact_bytes = cv.byte_capacity();
    let naive_bytes = cv.capacity() * 4;
    assert_eq!(compact_bytes * 2, naive_bytes);
}

#[test]
fn test_u24_boundary_values() {
    let mut cv = CompactVec::new();
    let values = vec![
        0x000000, 0x000001, 0x00FFFF, 0x010000, 0xABCDEF, 0xFFFFFE, 0xFFFFFF,
    ];
    for &v in &values {
        cv.push(v);
    }
    assert_eq!(cv.width_bits(), 24);
    for (i, &expected) in values.iter().enumerate() {
        assert_eq!(cv.get(i), Some(expected), "Failed at index {i}");
    }
}

#[test]
fn test_u24_to_u32_transition() {
    let mut cv = CompactVec::new();
    cv.push(0xFFFFFF);
    assert_eq!(cv.width_bits(), 24);
    cv.push(0x1000000);
    assert_eq!(cv.width_bits(), 32);
    assert_eq!(cv.get(0), Some(0xFFFFFF));
    assert_eq!(cv.get(1), Some(0x1000000));
}

#[test]
fn test_u24_random_access_consistency() {
    let mut cv = CompactVec::new();
    cv.push(0x112233);
    cv.push(0x445566);
    cv.push(0x778899);
    assert_eq!(cv.get(0), Some(0x112233));
    assert_eq!(cv.get(1), Some(0x445566));
    assert_eq!(cv.get(2), Some(0x778899));
}

#[test]
fn test_u24_set_overwrite() {
    let mut cv = CompactVec::new();
    cv.push(0x123456);
    cv.push(0x654321);
    cv.set(0, 0xABCDEF);
    assert_eq!(cv.get(0), Some(0xABCDEF));
    assert_eq!(cv.get(1), Some(0x654321));
}

#[test]
fn test_shrink_capacity_only() {
    let mut cv = CompactVec::new();
    for i in 0..10 {
        cv.push(i);
    }
    let initial_cap = cv.capacity();
    assert!(initial_cap >= 10);
    cv.shrink_to_fit();
    assert_eq!(cv.len(), 10);
    assert_eq!(cv.capacity(), 10);
    assert_eq!(cv.width(), BitWidth::U8);
}

#[test]
fn test_shrink_width_and_capacity() {
    let mut cv = CompactVec::new();
    cv.push(1);
    cv.push(100000);
    assert!(cv.width() > BitWidth::U8);
    cv.pop();
    let high_width = cv.width();
    cv.shrink_to_fit();
    assert_eq!(cv.len(), 1);
    assert_eq!(cv.capacity(), 1);
    assert!(cv.width() < high_width);
    assert_eq!(cv.width(), BitWidth::U8);
    assert_eq!(cv.get(0), Some(1));
}

#[test]
fn test_shrink_empty() {
    let mut cv = CompactVec::with_capacity(100);
    assert_eq!(cv.capacity(), 100);
    cv.shrink_to_fit();
    assert_eq!(cv.len(), 0);
    assert_eq!(cv.capacity(), 0);
    assert_eq!(cv.width(), BitWidth::U8);
}

#[test]
fn test_shrink_no_op() {
    let mut cv = CompactVec::new();
    cv.push(10);
    cv.shrink_to_fit();
    let cap_before = cv.capacity();
    let width_before = cv.width();
    cv.shrink_to_fit();
    assert_eq!(cv.capacity(), cap_before);
    assert_eq!(cv.width(), width_before);
    assert_eq!(cv.get(0), Some(10));
}

#[test]
fn clone_u32_correct_allocation() {
    let mut cv = CompactVec::new();
    cv.push(u32::MAX); // width = U32, cap = 4
    cv.push(1); // len = 2, cap = 4
    let cloned = cv.clone();
    assert_eq!(cloned.get(0), Some(u32::MAX));
    assert_eq!(cloned.get(1), Some(1));
    assert_eq!(cloned.width(), BitWidth::U32);
}

#[test]
fn clear_and_shrink_width_then_refill() {
    let mut cv = CompactVec::new();
    cv.push(u32::MAX);
    while cv.len() < cv.capacity() {
        cv.push(0);
    }
    let cap = cv.capacity();
    cv.clear_and_shrink_width();
    assert_eq!(cv.capacity(), 0, "cap must be reset to 0");
    assert_eq!(cv.width(), BitWidth::U8);
    for i in 0..cap as u32 {
        cv.push(i % 256);
    }
    cv.push(42);
    assert_eq!(cv.len(), cap + 1);
}

#[test]
fn partial_eq_same_width() {
    let a = CompactVec::from_iter(vec![1u32, 2, 3].into_iter());
    let b = CompactVec::from_iter(vec![1u32, 2, 3].into_iter());
    assert_eq!(a, b);
}

#[test]
fn partial_eq_different_widths() {
    let mut a = CompactVec::new();
    a.push(1);
    let mut b = CompactVec::new();
    b.push(1);
    b.push(u32::MAX);
    b.pop();
    // a is U8, b is U32, both contain [1]
    assert_eq!(a, b);
}

#[test]
fn partial_eq_with_vec() {
    let cv = CompactVec::from_iter(vec![10u32, 20, 30].into_iter());
    assert_eq!(cv, vec![10u32, 20, 30]);
    assert_ne!(cv, vec![10u32, 20]);
}

#[test]
fn from_vec_u32() {
    let v = vec![0u32, 255, 256, 65536];
    let cv = CompactVec::from(v.clone());
    assert_eq!(cv, v);
}

#[test]
fn truncate_basic() {
    let mut cv = CompactVec::from_iter(0u32..10);
    cv.truncate(4);
    assert_eq!(cv.len(), 4);
    assert_eq!(cv.get(3), Some(3));
    assert_eq!(cv.get(4), None);
}

#[test]
fn truncate_noop_when_larger() {
    let mut cv = CompactVec::from_iter(0u32..5);
    cv.truncate(100);
    assert_eq!(cv.len(), 5);
}

#[test]
fn truncate_to_zero() {
    let mut cv = CompactVec::from_iter(0u32..8);
    cv.truncate(0);
    assert!(cv.is_empty());
    // Width and capacity are unchanged.
    assert!(cv.capacity() >= 8);
}

#[test]
fn truncate_preserves_width() {
    let mut cv = CompactVec::from_iter(vec![1u32, 70_000].into_iter());
    assert_eq!(cv.width_bits(), 24);
    cv.truncate(1);
    assert_eq!(cv.width_bits(), 24); // width never auto-downgrades
    assert_eq!(cv.get(0), Some(1));
}

// --- dedup ---

#[test]
fn dedup_removes_consecutive() {
    let mut cv = CompactVec::from_iter(vec![1u32, 1, 2, 3, 3, 3, 4].into_iter());
    cv.dedup();
    let v: Vec<u32> = cv.iter().collect();
    assert_eq!(v, [1, 2, 3, 4]);
}

#[test]
fn dedup_leaves_non_adjacent() {
    let mut cv = CompactVec::from_iter(vec![1u32, 2, 1].into_iter());
    cv.dedup();
    assert_eq!(cv.len(), 3);
}

#[test]
fn dedup_all_same() {
    let mut cv = CompactVec::from_iter(vec![7u32; 100].into_iter());
    cv.dedup();
    assert_eq!(cv.len(), 1);
    assert_eq!(cv.get(0), Some(7));
}

#[test]
fn dedup_empty_and_single() {
    let mut cv = CompactVec::new();
    cv.dedup();
    assert!(cv.is_empty());

    let mut cv2 = CompactVec::from_iter(vec![42u32].into_iter());
    cv2.dedup();
    assert_eq!(cv2.len(), 1);
}

#[test]
fn dedup_on_u32_width() {
    let mut cv = CompactVec::from_iter(vec![u32::MAX, u32::MAX, 1, 1, 2].into_iter());
    cv.dedup();
    let v: Vec<u32> = cv.iter().collect();
    assert_eq!(v, [u32::MAX, 1, 2]);
    assert_eq!(cv.width_bits(), 32);
}

// --- retain ---

#[test]
fn retain_evens() {
    let mut cv = CompactVec::from_iter(0u32..10);
    cv.retain(|v| v % 2 == 0);
    let v: Vec<u32> = cv.iter().collect();
    assert_eq!(v, [0, 2, 4, 6, 8]);
}

#[test]
fn retain_keep_all() {
    let mut cv = CompactVec::from_iter(0u32..5);
    cv.retain(|_| true);
    assert_eq!(cv.len(), 5);
}

#[test]
fn retain_keep_none() {
    let mut cv = CompactVec::from_iter(0u32..5);
    cv.retain(|_| false);
    assert!(cv.is_empty());
}

#[test]
fn retain_empty() {
    let mut cv = CompactVec::new();
    cv.retain(|_| true);
    assert!(cv.is_empty());
}

#[test]
fn retain_preserves_order_and_values() {
    let mut cv = CompactVec::from_iter(vec![10u32, 200, 3000, 40, 500].into_iter());
    cv.retain(|v| v > 100);
    let v: Vec<u32> = cv.iter().collect();
    assert_eq!(v, [200, 3000, 500]);
}

// --- extend_from_compact_vec ---

#[test]
fn extend_same_width_bulk_copy() {
    let mut a = CompactVec::from_iter(vec![1u32, 2, 3].into_iter());
    let b = CompactVec::from_iter(vec![4u32, 5, 6].into_iter());
    assert_eq!(a.width_bits(), 8);
    assert_eq!(b.width_bits(), 8);

    a.extend_from_compact_vec(&b);
    assert_eq!(a.len(), 6);
    let v: Vec<u32> = a.iter().collect();
    assert_eq!(v, [1, 2, 3, 4, 5, 6]);
    assert_eq!(a.width_bits(), 8);
}

#[test]
fn extend_upgrades_self_to_other_width() {
    let mut a = CompactVec::from_iter(vec![1u32, 2].into_iter()); // U8
    let b = CompactVec::from_iter(vec![300u32, 400].into_iter()); // U16

    a.extend_from_compact_vec(&b);
    assert_eq!(a.width_bits(), 16);
    assert_eq!(a.len(), 4);
    assert_eq!(a.get(0), Some(1));
    assert_eq!(a.get(2), Some(300));
}

#[test]
fn extend_self_wider_upcasts_other() {
    let mut a = CompactVec::from_iter(vec![300u32, 400].into_iter()); // U16
    let b = CompactVec::from_iter(vec![1u32, 2].into_iter()); // U8

    a.extend_from_compact_vec(&b);
    assert_eq!(a.width_bits(), 16); // self stays U16
    assert_eq!(a.len(), 4);
    assert_eq!(a.get(2), Some(1));
    assert_eq!(a.get(3), Some(2));
}

#[test]
fn extend_into_empty_self() {
    let mut a = CompactVec::new();
    let b = CompactVec::from_iter(vec![10u32, 20, 30].into_iter());
    a.extend_from_compact_vec(&b);
    assert_eq!(a.len(), 3);
    assert_eq!(a.get(2), Some(30));
}

#[test]
fn extend_from_empty_other_noop() {
    let mut a = CompactVec::from_iter(vec![1u32, 2].into_iter());
    a.extend_from_compact_vec(&CompactVec::new());
    assert_eq!(a.len(), 2);
}

// --- binary_search ---

#[test]
fn binary_search_found() {
    let cv = CompactVec::from_iter(vec![10u32, 20, 30, 40, 50].into_iter());
    assert_eq!(cv.binary_search(10), Ok(0));
    assert_eq!(cv.binary_search(30), Ok(2));
    assert_eq!(cv.binary_search(50), Ok(4));
}

#[test]
fn binary_search_not_found() {
    let cv = CompactVec::from_iter(vec![10u32, 20, 30, 40, 50].into_iter());
    assert_eq!(cv.binary_search(0), Err(0));
    assert_eq!(cv.binary_search(25), Err(2));
    assert_eq!(cv.binary_search(99), Err(5));
}

#[test]
fn binary_search_empty() {
    let cv = CompactVec::new();
    assert_eq!(cv.binary_search(0), Err(0));
}

#[test]
fn binary_search_u32_width() {
    let cv = CompactVec::from_iter(vec![0u32, u32::MAX / 2, u32::MAX].into_iter());
    assert_eq!(cv.binary_search(u32::MAX), Ok(2));
    assert_eq!(cv.binary_search(1), Err(1));
}

#[test]
fn binary_search_insert_position_is_sorted() {
    let mut cv = CompactVec::from_iter(vec![2u32, 5, 8, 11].into_iter());
    let Err(pos) = cv.binary_search(7) else {
        panic!()
    };
    // Inserting at pos must maintain sort order.
    cv.push(7);
    cv.sort_unstable();
    assert_eq!(cv.get(pos), Some(7));
}

#[test]
fn sort_unstable_u8() {
    let mut cv = CompactVec::from_iter(vec![3u32, 1, 4, 1, 5, 9, 2, 6].into_iter());
    assert_eq!(cv.width_bits(), 8);
    cv.sort_unstable();
    let v: Vec<u32> = cv.iter().collect();
    assert_eq!(v, [1, 1, 2, 3, 4, 5, 6, 9]);
}

#[test]
fn sort_unstable_u16() {
    let mut cv = CompactVec::from_iter(vec![1000u32, 300, 500, 256].into_iter());
    assert_eq!(cv.width_bits(), 16);
    cv.sort_unstable();
    let v: Vec<u32> = cv.iter().collect();
    assert_eq!(v, [256, 300, 500, 1000]);
}

#[test]
fn sort_unstable_u32() {
    let mut cv = CompactVec::from_iter(vec![u32::MAX, 0u32, u32::MAX / 2].into_iter());
    cv.sort_unstable();
    assert_eq!(cv.get(0), Some(0));
    assert_eq!(cv.get(2), Some(u32::MAX));
}

#[test]
fn sort_stable_preserves_equal() {
    // Can't easily distinguish stable vs unstable with u32 alone,
    // but correctness is verifiable.
    let mut cv = CompactVec::from_iter(vec![5u32, 2, 2, 1].into_iter());
    cv.sort();
    let v: Vec<u32> = cv.iter().collect();
    assert_eq!(v, [1, 2, 2, 5]);
}

#[test]
fn sort_already_sorted_is_noop() {
    let mut cv = CompactVec::from_iter(0u32..10);
    cv.sort_unstable();
    let v: Vec<u32> = cv.iter().collect();
    assert_eq!(v, (0u32..10).collect::<Vec<_>>());
}

#[test]
fn sort_single_element() {
    let mut cv = CompactVec::from_iter(vec![42u32].into_iter());
    cv.sort_unstable();
    assert_eq!(cv.get(0), Some(42));
}

#[test]
fn into_iter_forward() {
    let cv = CompactVec::from_iter(vec![10u32, 20, 30].into_iter());
    let v: Vec<u32> = cv.into_iter().collect();
    assert_eq!(v, [10, 20, 30]);
}

#[test]
fn into_iter_reverse() {
    let cv = CompactVec::from_iter(vec![10u32, 20, 30].into_iter());
    let v: Vec<u32> = cv.into_iter().rev().collect();
    assert_eq!(v, [30, 20, 10]);
}

#[test]
fn into_iter_exact_size() {
    let cv = CompactVec::from_iter(0u32..7);
    let mut it = cv.into_iter();
    assert_eq!(it.len(), 7);
    it.next();
    assert_eq!(it.len(), 6);
}

#[test]
fn into_iter_partial_drop_frees_memory() {
    // Drop after consuming only 1 element — no leak or double-free.
    let cv = CompactVec::from_iter(0u32..100);
    let mut it = cv.into_iter();
    assert_eq!(it.next(), Some(0));
    drop(it); // should release allocation cleanly
}

#[test]
fn into_iter_sum() {
    let cv = CompactVec::from_iter(0u32..=100);
    let sum: u32 = cv.into_iter().sum();
    assert_eq!(sum, 5050);
}

#[test]
fn byte_len_matches_width() {
    let mut cv = CompactVec::new();
    assert_eq!(cv.byte_len(), 0);

    for i in 0u32..4 {
        cv.push(i);
    }
    assert_eq!(cv.width_bits(), 8);
    assert_eq!(cv.byte_len(), 4);

    cv.push(300);
    assert_eq!(cv.width_bits(), 16);
    assert_eq!(cv.byte_len(), 10); // 5 × 2
}

#[test]
fn byte_capacity_equals_cap_times_elem_size() {
    let cv = CompactVec::with_capacity(8);
    assert_eq!(cv.byte_capacity(), cv.capacity() * 1); // U8 by default
}

#[test]
fn as_ref_u8_slice() {
    let cv = CompactVec::from_iter(vec![1u32, 2, 3].into_iter());
    let bytes: &[u8] = cv.as_ref();
    assert_eq!(bytes, &[1u8, 2, 3]);
}

#[test]
fn as_ref_u16_little_endian() {
    let mut cv = CompactVec::new();
    cv.push(256u32); // 0x0100 in LE → [0x00, 0x01]
    cv.push(1u32); //              → [0x01, 0x00]
    assert_eq!(cv.width_bits(), 16);
    let bytes: &[u8] = cv.as_ref();
    assert_eq!(bytes, &[0x00, 0x01, 0x01, 0x00]);
}

#[test]
fn as_ref_empty_is_empty_slice() {
    let cv = CompactVec::new();
    let bytes: &[u8] = cv.as_ref();
    assert!(bytes.is_empty());
}

#[test]
fn from_sorted_iter_u8() {
    let cv = CompactVec::from_sorted_iter(0u32..256);
    assert_eq!(cv.width_bits(), 8);
    assert_eq!(cv.len(), 256);
    assert_eq!(cv.get(255), Some(255));
}

#[test]
fn from_sorted_iter_u24() {
    let cv = CompactVec::from_sorted_iter([1u32, 1000, 100_000].into_iter());
    assert_eq!(cv.width_bits(), 24);
    assert_eq!(cv.len(), 3);
    assert_eq!(cv.get(2), Some(100_000));
}

#[test]
fn from_sorted_iter_u32() {
    let cv = CompactVec::from_sorted_iter([0u32, u32::MAX].into_iter());
    assert_eq!(cv.width_bits(), 32);
}

#[test]
fn from_sorted_iter_empty() {
    let cv = CompactVec::from_sorted_iter(core::iter::empty::<u32>());
    assert!(cv.is_empty());
}

#[test]
fn from_sorted_slice_matches_from_sorted_iter() {
    let data: Vec<u32> = (0u32..100).map(|i| i * 3).collect();
    let a = CompactVec::from_sorted_slice(&data);
    let b = CompactVec::from_sorted_iter(data.iter().copied());
    assert_eq!(a, b);
}

#[test]
fn from_sorted_vs_from_iter_same_values() {
    // The two constructors must produce identical logical content.
    let data: Vec<u32> = (0u32..=255).collect();
    let sorted = CompactVec::from_sorted_slice(&data);
    let regular = CompactVec::from_iter(data.into_iter());
    assert_eq!(sorted, regular);
}

#[test]
fn borrow_iter_rev() {
    let cv = CompactVec::from_iter(vec![1u32, 2, 3, 4, 5].into_iter());
    let v: Vec<u32> = cv.iter().rev().collect();
    assert_eq!(v, [5, 4, 3, 2, 1]);
}

#[test]
fn borrow_iter_double_ended_mixed() {
    let cv = CompactVec::from_iter(vec![1u32, 2, 3, 4, 5].into_iter());
    let mut it = cv.iter();
    assert_eq!(it.next(), Some(1));
    assert_eq!(it.next_back(), Some(5));
    assert_eq!(it.next(), Some(2));
    assert_eq!(it.next_back(), Some(4));
    assert_eq!(it.next(), Some(3));
    assert_eq!(it.next(), None);
}
