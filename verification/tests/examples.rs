//! Short uses of the library from start to end.
use compact_vec::CompactVec;

#[test]
fn ids_widen_when_one_is_above_a_byte() {
    let mut cv = CompactVec::new();
    for id in 0u32..=255 {
        cv.push(id);
    }
    assert_eq!(cv.width_bits(), 8);
    cv.push(256);
    assert_eq!(cv.width_bits(), 16);
    assert_eq!(cv.get(0), Some(0));
    assert_eq!(cv.len(), 257);
}

#[test]
fn a_million_small_ids_take_a_megabyte() {
    let cv = CompactVec::from_iter((0u32..1_000_000).map(|i| i % 256));
    assert_eq!(cv.byte_len(), 1_000_000);
}

#[test]
fn preallocated_room_is_used() {
    let mut cv = CompactVec::with_capacity(64);
    for i in 0u32..64 {
        cv.push(i % 128);
    }
    assert_eq!(cv.width_bits(), 8);
    assert_eq!(cv.capacity(), 64);
}

#[test]
fn no_capacity_is_no_allocation() {
    let cv = CompactVec::with_capacity(0);
    assert_eq!(cv.capacity(), 0);
    assert_eq!(cv.byte_capacity(), 0);
    assert_eq!(CompactVec::with_capacity(8).byte_capacity(), 8);
}

#[test]
fn narrowing_after_the_wide_element_is_gone() {
    let mut cv = CompactVec::from(vec![1, 100_000]);
    assert_eq!(cv.width_bits(), 24);
    cv.pop();
    assert_eq!(cv.width_bits(), 24);
    cv.shrink_to_fit();
    assert_eq!(cv.width_bits(), 8);
    assert_eq!(cv.capacity(), 1);
}

#[test]
fn hard_reset_and_refill() {
    let mut cv = CompactVec::from(vec![u32::MAX]);
    assert_eq!(cv.width_bits(), 32);
    cv.clear_and_shrink_width();
    assert_eq!(cv.capacity(), 0);
    assert_eq!(cv.width_bits(), 8);
    cv.push(1);
    assert_eq!(cv.get(0), Some(1));
}

#[test]
fn replacing_one_element_widens_all() {
    let mut cv = CompactVec::from(vec![1, 2, 3]);
    cv.set(1, 100_000);
    assert_eq!(cv.width_bits(), 24);
    assert_eq!(cv.get(1), Some(100_000));
    assert_eq!(cv.get(0), Some(1));
}

#[test]
fn removing_shifts_left() {
    let mut cv = CompactVec::from(vec![10, 20, 30]);
    assert_eq!(cv.remove(1), 20);
    assert_eq!(cv.len(), 2);
    assert_eq!(cv.get(1), Some(30));
}

#[test]
fn summing_an_iteration() {
    let cv = CompactVec::from(vec![10, 200, 3000]);
    let sum: u32 = cv.iter().sum();
    assert_eq!(sum, 3210);
}

#[test]
fn byte_lengths() {
    assert_eq!(CompactVec::from(vec![0; 4]).byte_len(), 4);
    assert_eq!(CompactVec::from(vec![300, 400]).byte_len(), 4);
}

#[test]
fn sorted_input_with_a_large_end() {
    let cv = CompactVec::from_sorted_iter([1u32, 100, u32::MAX].into_iter());
    assert_eq!(cv.width_bits(), 32);
    let data = [0u32, 10, 20, 100, 200, 255];
    let small = CompactVec::from_sorted_slice(&data);
    assert_eq!(small.width_bits(), 8);
    assert_eq!(small.len(), 6);
    assert_eq!(small.get(4), Some(200));
}
