//! The laws of the library on concrete values.
use compact_vec::{BitWidth, CompactVec};

const WIDTHS: [BitWidth; 4] = [BitWidth::U8, BitWidth::U16, BitWidth::U24, BitWidth::U32];

fn of(values: &[u32]) -> CompactVec {
    CompactVec::from(values.to_vec())
}

fn list(cv: &CompactVec) -> Vec<u32> {
    cv.iter().collect()
}

#[test]
fn widths_are_ordered_by_size() {
    for i in 0..4 {
        for j in 0..4 {
            assert_eq!(WIDTHS[i] < WIDTHS[j], i < j);
            assert_eq!(WIDTHS[i] == WIDTHS[j], i == j);
            assert_eq!(WIDTHS[i].max(WIDTHS[j]), WIDTHS[if i > j { i } else { j }]);
            assert_eq!(WIDTHS[i].cmp(&WIDTHS[j]), i.cmp(&j));
        }
    }
}

#[test]
fn element_sizes() {
    let sizes: Vec<usize> = WIDTHS.iter().map(|w| w.elem_size()).collect();
    assert_eq!(sizes, vec![1, 2, 3, 4]);
}

#[test]
fn width_for_is_the_narrowest() {
    assert_eq!(BitWidth::width_for(0), BitWidth::U8);
    assert_eq!(BitWidth::width_for(255), BitWidth::U8);
    assert_eq!(BitWidth::width_for(256), BitWidth::U16);
    assert_eq!(BitWidth::width_for(65_535), BitWidth::U16);
    assert_eq!(BitWidth::width_for(65_536), BitWidth::U24);
    assert_eq!(BitWidth::width_for(16_777_215), BitWidth::U24);
    assert_eq!(BitWidth::width_for(16_777_216), BitWidth::U32);
    assert_eq!(BitWidth::width_for(u32::MAX), BitWidth::U32);
}

#[test]
fn max_value_is_the_last_that_does_not_widen() {
    for seed in [0u32, 300, 70_000] {
        let mut cv = of(&[seed]);
        let max = cv.max_value();
        let width = cv.width();
        cv.push(max);
        assert_eq!(cv.width(), width);
        cv.push(max + 1);
        assert!(cv.width() > width);
    }
    assert_eq!(of(&[u32::MAX]).max_value(), u32::MAX);
    assert_eq!(of(&[70_000]).max_value(), 0xFF_FFFF);
}

#[test]
fn widening_reaches_every_width_and_keeps_the_elements() {
    let mut cv = CompactVec::new();
    let mut bits = Vec::new();
    for v in [1, 1_000, 100_000, u32::MAX] {
        cv.push(v);
        bits.push(cv.width_bits());
    }
    assert_eq!(bits, vec![8, 16, 24, 32]);
    assert_eq!(list(&cv), vec![1, 1_000, 100_000, u32::MAX]);
}

#[test]
fn capacity_starts_at_four_and_doubles() {
    let mut cv = CompactVec::new();
    let mut seen = vec![cv.capacity()];
    for i in 0..17 {
        cv.push(i);
        if seen[seen.len() - 1] != cv.capacity() {
            seen.push(cv.capacity());
        }
    }
    assert_eq!(seen, vec![0, 4, 8, 16, 32]);
}

#[test]
fn widening_a_full_buffer_doubles_it_too() {
    let mut cv = of(&[1, 2, 3, 4]);
    assert_eq!(cv.capacity(), 4);
    cv.push(70_000);
    assert_eq!(cv.capacity(), 8);
    assert_eq!(cv.byte_capacity(), 24);
    let mut half = of(&[1, 2]);
    half.push(300);
    assert_eq!(half.capacity(), 4);
}

#[test]
fn appending_moves_few_elements_in_all() {
    let values = [1u32, 2, 300, 4, 70_000, 6, 7, 8, u32::MAX, 10];
    let mut cv = CompactVec::new();
    let mut moved = 0;
    for v in values {
        let before = (cv.len(), cv.capacity(), cv.width());
        cv.push(v);
        if (cv.capacity(), cv.width()) != (before.1, before.2) {
            moved += before.0;
        }
    }
    // Widening after 2, 4 and 8 elements, doubling after 4 and 8.
    assert_eq!(moved, 2 + 4 + 8);
    assert!(moved < 5 * values.len());
}

#[test]
fn a_write_touches_only_its_own_bytes() {
    for big in [9u32, 0x0102, 0x01_0203, 0x0102_0304] {
        let cv = of(&[big, big, big]);
        let es = cv.width().elem_size();
        let before: Vec<u8> = cv.as_ref().to_vec();
        for at in 0..3 {
            let mut changed = cv.clone();
            changed.set(at, 0);
            let after: Vec<u8> = changed.as_ref().to_vec();
            for k in 0..before.len() {
                let inside = at * es <= k && k < (at + 1) * es;
                assert_eq!(after[k], if inside { 0 } else { before[k] });
            }
        }
    }
}

#[test]
fn odd_capacities_double_as_they_are() {
    let mut cv = CompactVec::with_capacity(3);
    for i in 0..4 {
        cv.push(i);
    }
    assert_eq!(cv.capacity(), 6);
}

#[test]
fn can_push_says_yes_to_ordinary_values() {
    let cv = of(&[1, 2, 3, 4]);
    assert!(cv.can_push(5));
    assert!(cv.can_push(u32::MAX));
    assert!(CompactVec::new().can_push(0));
}

#[test]
fn set_keeps_the_capacity() {
    let mut cv = of(&[1, 2, 3]);
    cv.set(2, u32::MAX);
    assert_eq!(cv.capacity(), 4);
    assert_eq!(list(&cv), vec![1, 2, u32::MAX]);
    cv.set(0, 7);
    assert_eq!(cv.width_bits(), 32);
    assert_eq!(list(&cv), vec![7, 2, u32::MAX]);
}

#[test]
fn pop_undoes_push() {
    for v in [0u32, 256, 65_536, u32::MAX] {
        let mut cv = of(&[9, 8]);
        cv.push(v);
        assert_eq!(cv.pop(), Some(v));
        assert_eq!(list(&cv), vec![9, 8]);
    }
    assert_eq!(CompactVec::new().pop(), None);
}

#[test]
fn remove_first_middle_last_at_every_width() {
    for big in [1u32, 300, 70_000, u32::MAX] {
        for at in 0..4 {
            let mut expect = vec![10, big, 30, 40];
            let mut cv = of(&expect);
            assert_eq!(cv.remove(at), expect.remove(at));
            assert_eq!(cv, expect);
            assert_eq!(cv.capacity(), 4);
        }
    }
}

#[test]
fn clear_keeps_width_and_capacity() {
    let mut cv = of(&[1, 70_000]);
    cv.clear();
    assert!(cv.is_empty());
    assert_eq!(cv.capacity(), 4);
    assert_eq!(cv.width(), BitWidth::U24);
}

#[test]
fn shrink_gives_the_least_buffer() {
    let mut cv = of(&[1, 2, 300, 70_000]);
    cv.truncate(3);
    cv.shrink_to_fit();
    assert_eq!(cv.width(), BitWidth::U16);
    assert_eq!(cv.capacity(), 3);
    assert_eq!(cv.byte_capacity(), 6);
    assert_eq!(list(&cv), vec![1, 2, 300]);
    let mut wide = of(&[u32::MAX, 1]);
    wide.shrink_to_fit();
    assert_eq!((wide.width(), wide.capacity()), (BitWidth::U32, 2));
}

#[test]
fn shrink_of_emptied_wide_vector_resets_the_width() {
    let mut cv = of(&[u32::MAX]);
    cv.clear();
    cv.shrink_to_fit();
    assert_eq!((cv.width(), cv.capacity()), (BitWidth::U8, 0));
}

#[test]
fn bytes_are_little_endian_at_every_width() {
    let bytes = |cv: &CompactVec| -> Vec<u8> { cv.as_ref().to_vec() };
    assert_eq!(bytes(&of(&[1, 254])), vec![1, 254]);
    assert_eq!(bytes(&of(&[0x0102, 3])), vec![2, 1, 3, 0]);
    assert_eq!(bytes(&of(&[0x01_0203, 4])), vec![3, 2, 1, 4, 0, 0]);
    assert_eq!(bytes(&of(&[0x0102_0304])), vec![4, 3, 2, 1]);
    let cv = of(&[0x01_0203, 4, 5]);
    assert_eq!(bytes(&cv).len(), cv.byte_len());
    assert_eq!(&bytes(&cv)[3..6], &[4, 0, 0]);
}

#[test]
fn savings_against_four_bytes_each() {
    for (v, percent) in [(1u32, 75usize), (300, 50), (70_000, 25), (u32::MAX, 0)] {
        let cv = of(&vec![v; 8]);
        assert_eq!(100 * (4 * cv.len() - cv.byte_len()), percent * 4 * cv.len());
    }
}

#[test]
fn equality_ignores_width_and_capacity() {
    let mut wide = of(&[1, 2, u32::MAX]);
    wide.pop();
    let narrow = CompactVec::from_sorted_slice(&[1, 2]);
    assert_ne!(wide.width(), narrow.width());
    assert_eq!(wide, narrow);
    assert_eq!(narrow, wide);
    assert_eq!(vec![1u32, 2], wide);
    assert_ne!(wide, of(&[1, 3]));
    assert_ne!(wide, of(&[1, 2, 3]));
    assert_ne!(vec![1u32, 3], wide);
}

#[test]
fn clone_keeps_width_and_capacity() {
    let mut cv = of(&[1, 2, 70_000]);
    let copy = cv.clone();
    assert_eq!(copy, cv);
    assert_eq!((copy.width(), copy.capacity()), (BitWidth::U24, 4));
    cv.clear();
    let empty = cv.clone();
    assert_eq!((empty.width(), empty.capacity(), empty.len()), (BitWidth::U24, 4, 0));
    assert_eq!(copy.len(), 3);
}

#[test]
fn clone_from_reuses_a_fitting_buffer() {
    let source = of(&[1, 2, 3]);
    let mut roomy = CompactVec::with_capacity(10);
    roomy.push(9);
    roomy.clone_from(&source);
    assert_eq!(roomy, source);
    assert_eq!(roomy.capacity(), 10);
    let mut wide = of(&[u32::MAX, 5]);
    wide.clone_from(&source);
    assert_eq!(wide, source);
    assert_eq!((wide.width(), wide.capacity()), (BitWidth::U8, 4));
    let mut small = CompactVec::with_capacity(2);
    small.clone_from(&source);
    assert_eq!(small.capacity(), 4);
}

#[test]
fn bulk_append_rounds_up_to_a_power_of_two() {
    let mut cv = CompactVec::from_sorted_slice(&[1, 2, 3]);
    cv.extend_from_compact_vec(&of(&[4, 5]));
    assert_eq!(cv.capacity(), 8);
    let mut roomy = CompactVec::with_capacity(100);
    roomy.extend_from_compact_vec(&of(&[1, 2]));
    assert_eq!(roomy.capacity(), 100);
    roomy.extend_from_compact_vec(&of(&[300]));
    assert_eq!((roomy.capacity(), roomy.width()), (100, BitWidth::U16));
    let mut some = CompactVec::with_capacity(5);
    some.push(1);
    some.extend_from_compact_vec(&of(&[300, 301, 302, 303]));
    assert_eq!((some.capacity(), some.width()), (8, BitWidth::U16));
    assert_eq!(list(&some), vec![1, 300, 301, 302, 303]);
}

#[test]
fn bulk_append_of_an_empty_wide_vector_changes_nothing() {
    let mut other = of(&[u32::MAX]);
    other.clear();
    let mut cv = of(&[1]);
    cv.extend_from_compact_vec(&other);
    assert_eq!((cv.width(), cv.capacity(), cv.len()), (BitWidth::U8, 4, 1));
}

#[test]
fn bulk_append_over_all_pairs_of_widths() {
    let tops = [5u32, 500, 70_000, u32::MAX];
    for a in tops {
        for b in tops {
            let mut cv = of(&[1, a]);
            cv.extend_from_compact_vec(&of(&[2, b, 3]));
            assert_eq!(list(&cv), vec![1, a, 2, b, 3]);
            assert_eq!(cv.width(), BitWidth::width_for(if a > b { a } else { b }));
        }
    }
}

#[test]
fn extend_appends_and_widens() {
    let mut cv = of(&[1, 2]);
    cv.extend([3u32, 400, 5].into_iter());
    assert_eq!(list(&cv), vec![1, 2, 3, 400, 5]);
    assert_eq!((cv.width(), cv.capacity()), (BitWidth::U16, 8));
}

#[test]
fn dedup_of_sorted_leaves_each_value_once() {
    let mut cv = of(&[70_000, 1, 2, 2, 1, 70_000, 1]);
    cv.sort();
    cv.dedup();
    assert_eq!(list(&cv), vec![1, 2, 70_000]);
    cv.dedup();
    assert_eq!(list(&cv), vec![1, 2, 70_000]);
}

#[test]
fn retain_is_a_filter_at_every_width() {
    for big in [7u32, 301, 70_001, u32::MAX] {
        let values = vec![2, big, 4, 5, 6];
        let mut cv = of(&values);
        cv.retain(|v| v % 2 == 1);
        let expect: Vec<u32> = values.into_iter().filter(|v| v % 2 == 1).collect();
        assert_eq!(cv, expect);
        assert_eq!(cv.width(), BitWidth::width_for(big));
    }
}

#[test]
fn retain_visits_in_order() {
    let mut seen = Vec::new();
    let mut cv = of(&[3, 1, 2]);
    cv.retain(|v| {
        seen.push(v);
        v != 1
    });
    assert_eq!(seen, vec![3, 1, 2]);
    assert_eq!(list(&cv), vec![3, 2]);
}

#[test]
fn both_sorts_agree_at_every_width() {
    for big in [9u32, 300, 70_000, u32::MAX] {
        let mut expect = vec![5, big, 0, 3, big, 1];
        let mut stable = of(&expect);
        let mut unstable = of(&expect);
        stable.sort();
        unstable.sort_unstable();
        expect.sort();
        assert_eq!(stable, expect);
        assert_eq!(unstable, expect);
        assert_eq!(stable.width(), BitWidth::width_for(big));
        assert_eq!(stable.capacity(), 8);
    }
}

#[test]
fn sorting_leaves_unused_slots_out() {
    let mut cv = of(&[9, 8, 7, 1]);
    cv.truncate(3);
    cv.sort();
    assert_eq!(list(&cv), vec![7, 8, 9]);
}

#[test]
fn search_among_equal_elements_finds_one() {
    let cv = of(&[1, 4, 4, 4, 9]);
    let Ok(i) = cv.binary_search(4) else { panic!() };
    assert_eq!(cv.get(i), Some(4));
    assert_eq!(cv.binary_search(5), Err(4));
}

#[test]
fn search_of_an_unsorted_vector_stays_in_bounds() {
    let cv = of(&[5, 1, 9, 2, 7]);
    for v in 0..12 {
        match cv.binary_search(v) {
            Ok(i) => assert_eq!(cv.get(i), Some(v)),
            Err(i) => assert!(i <= cv.len()),
        }
    }
}

#[test]
fn sorted_input_gets_its_exact_buffer() {
    let cv = CompactVec::from_sorted_slice(&[1, 2, 70_000]);
    assert_eq!((cv.width(), cv.capacity()), (BitWidth::U24, 3));
    let empty = CompactVec::from_sorted_slice(&[]);
    assert_eq!((empty.width(), empty.capacity()), (BitWidth::U8, 0));
}

#[test]
fn iterators_meet_in_the_middle() {
    let mut it = of(&[1, 2, 3]).into_iter();
    assert_eq!(it.next_back(), Some(3));
    assert_eq!(it.size_hint(), (2, Some(2)));
    assert_eq!(it.next(), Some(1));
    assert_eq!(it.next_back(), Some(2));
    assert_eq!(it.next_back(), None);
    assert_eq!(it.next(), None);
    assert_eq!(it.len(), 0);
    let cv = of(&[4, 5]);
    let mut sum: u32 = 0;
    for v in &cv {
        sum += v;
    }
    assert_eq!(sum, 9);
    assert_eq!(cv.iter().size_hint(), (2, Some(2)));
}

#[test]
fn vec_round_trip() {
    let values = vec![0u32, 255, 256, 65_536, u32::MAX];
    assert_eq!(CompactVec::from(values.clone()).to_vec(), values);
    let back: Vec<u32> = CompactVec::from(values.clone()).into();
    assert_eq!(back, values);
}

#[test]
fn default_is_empty() {
    let cv = CompactVec::default();
    assert_eq!((cv.len(), cv.capacity(), cv.width()), (0, 0, BitWidth::U8));
}

#[test]
fn debug_output_is_that_of_a_vec() {
    let values = vec![7u32, 70_000, 1];
    assert_eq!(format!("{:?}", of(&values)), format!("{values:?}"));
    assert_eq!(format!("{:#?}", of(&values)), format!("{values:#?}"));
    assert_eq!(format!("{:?}", CompactVec::new()), "[]");
}

#[test]
fn vectors_can_cross_threads() {
    fn crosses<T: Send + Sync>(_: &T) {}
    crosses(&of(&[1]));
}
