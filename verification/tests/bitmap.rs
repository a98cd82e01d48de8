use boldos::bitmap::Bitmap;

fn bits_of<const N: usize>(b: &Bitmap<N>) -> Vec<bool> {
    (0..b.bit_capacity()).map(|i| b.get(i)).collect()
}

#[test]
fn new_bitmap_is_clear() {
    let b: Bitmap<4> = Bitmap::new();
    assert_eq!(b.bit_capacity(), 256);
    assert!(bits_of(&b).iter().all(|bit| !bit));
    assert_eq!(b.count_free(), 256);
}

#[test]
fn set_and_get_single_bits() {
    let mut b: Bitmap<2> = Bitmap::new();
    b.set(0, true);
    b.set(63, true);
    b.set(64, true);
    b.set(127, true);
    assert_eq!(b.bitmap[0], 0x8000_0000_0000_0001);
    assert_eq!(b.bitmap[1], 0x8000_0000_0000_0001);
    assert!(b.get(0) && b.get(63) && b.get(64) && b.get(127));
    assert!(!b.get(1) && !b.get(62) && !b.get(65));
    b.set(63, false);
    assert!(!b.get(63));
    assert_eq!(b.bitmap[0], 1);
    b.set(5, false);
    assert_eq!(b.bitmap[0], 1);
}

#[test]
fn find_hole_returns_lowest_index() {
    let mut b: Bitmap<2> = Bitmap::new();
    assert_eq!(b.find_hole(1), Some(0));
    assert_eq!(b.find_hole(128), Some(0));
    assert_eq!(b.find_hole(129), None);
    b.mark_allocated(0, 3);
    assert_eq!(b.find_hole(2), Some(3));
    b.mark_allocated(5, 1);
    // [3, 5) is a hole of two, [6, ..) is the first hole of three
    assert_eq!(b.find_hole(2), Some(3));
    assert_eq!(b.find_hole(3), Some(6));
    assert_eq!(b.find_hole(122), Some(6));
    assert_eq!(b.find_hole(123), None);
}

#[test]
fn find_hole_of_nothing_starts_at_zero() {
    let mut b: Bitmap<1> = Bitmap::new();
    assert_eq!(b.find_hole(0), Some(0));
    b.mark_allocated(0, 64);
    assert_eq!(b.find_hole(0), Some(0));
    assert_eq!(b.find_hole(1), None);
}

#[test]
fn find_hole_spans_cell_boundary() {
    let mut b: Bitmap<2> = Bitmap::new();
    b.mark_allocated(0, 60);
    b.mark_allocated(70, 58);
    assert_eq!(b.find_hole(10), Some(60));
    assert_eq!(b.find_hole(11), None);
}

#[test]
fn allocate_marks_the_hole_it_finds() {
    let mut b: Bitmap<2> = Bitmap::new();
    assert_eq!(b.allocate(5), Some(0));
    assert_eq!(b.allocate(70), Some(5));
    assert_eq!(b.allocate(1), Some(75));
    let bits = bits_of(&b);
    for i in 0..128 {
        assert_eq!(bits[i], i < 76, "bit {}", i);
    }
    assert_eq!(b.allocate(53), None);
    assert_eq!(bits_of(&b), bits);
    assert_eq!(b.allocate(52), Some(76));
    assert_eq!(b.count_free(), 0);
}

#[test]
fn allocate_nothing_changes_nothing() {
    let mut b: Bitmap<1> = Bitmap::new();
    b.mark_allocated(1, 2);
    let before = b.bitmap;
    assert_eq!(b.allocate(0), Some(0));
    assert_eq!(b.bitmap, before);
}

#[test]
fn after_allocate_the_next_hole_lies_behind() {
    // bits [i, i + n) go from 0 to 1, and the next hole of n starts at or
    // after i + n
    let mut b: Bitmap<2> = Bitmap::new();
    b.mark_allocated(2, 1);
    b.mark_allocated(10, 1);
    let before = bits_of(&b);
    let i = b.allocate(4).unwrap();
    assert_eq!(i, 3);
    let after = bits_of(&b);
    for k in 0..128 {
        if i <= k && k < i + 4 {
            assert!(!before[k] && after[k]);
        } else {
            assert_eq!(before[k], after[k]);
        }
    }
    let j = b.find_hole(4).unwrap();
    assert!(j >= i + 4);
    assert_eq!(j, 11);
}

#[test]
fn mark_then_free_restores_the_bitmap() {
    let mut b: Bitmap<3> = Bitmap::new();
    b.mark_allocated(0, 1);
    b.mark_allocated(190, 2);
    let before = b.bitmap;
    for (i, n) in [(1usize, 0usize), (1, 1), (1, 63), (1, 64), (5, 150), (64, 64), (63, 2), (100, 90)] {
        b.mark_allocated(i, n);
        for k in i..i + n {
            assert!(b.get(k));
        }
        b.free(i, n);
        assert_eq!(b.bitmap, before, "range ({}, {})", i, n);
    }
}

#[test]
fn mark_allocated_sets_exactly_the_range() {
    let mut b: Bitmap<3> = Bitmap::new();
    b.mark_allocated(60, 70);
    assert_eq!(b.bitmap[0], 0xf000_0000_0000_0000);
    assert_eq!(b.bitmap[1], 0xffff_ffff_ffff_ffff);
    assert_eq!(b.bitmap[2], 0x3);
    b.free(62, 4);
    assert_eq!(b.bitmap[0], 0x3000_0000_0000_0000);
    assert_eq!(b.bitmap[1], 0xffff_ffff_ffff_fffc);
}

#[test]
fn move_bit_range_forward_copies_bits() {
    let mut b: Bitmap<2> = Bitmap::new();
    for i in [0usize, 1, 3, 7, 8, 20] {
        b.set(i, true);
    }
    b.set(100, true);
    let before = bits_of(&b);
    b.move_bit_range_forward(0, 60, 21);
    let after = bits_of(&b);
    for k in 0..128 {
        if 60 <= k && k < 81 {
            assert_eq!(after[k], before[k - 60], "bit {}", k);
        } else {
            assert_eq!(after[k], before[k], "bit {}", k);
        }
    }
}

#[test]
fn move_bit_range_forward_handles_overlap() {
    let mut b: Bitmap<1> = Bitmap::new();
    for i in [0usize, 2, 3, 5, 9] {
        b.set(i, true);
    }
    let before = bits_of(&b);
    b.move_bit_range_forward(0, 3, 10);
    let after = bits_of(&b);
    for k in 0..64 {
        if 3 <= k && k < 13 {
            assert_eq!(after[k], before[k - 3], "bit {}", k);
        } else {
            assert_eq!(after[k], before[k], "bit {}", k);
        }
    }
}

#[test]
fn move_bit_range_forward_to_itself_is_a_no_op() {
    let mut b: Bitmap<1> = Bitmap::new();
    b.set(4, true);
    let before = b.bitmap;
    b.move_bit_range_forward(2, 2, 30);
    assert_eq!(b.bitmap, before);
    b.move_bit_range_forward(0, 10, 0);
    assert_eq!(b.bitmap, before);
}

#[test]
fn zero_bit_range_clears_only_the_range() {
    let cases = [
        (0usize, 0usize),
        (5, 0),
        (0, 1),
        (0, 64),
        (0, 192),
        (1, 62),
        (1, 63),
        (63, 1),
        (63, 2),
        (60, 10),
        (64, 64),
        (10, 150),
        (100, 92),
        (191, 1),
        (192, 0),
    ];
    for (i, n) in cases {
        let mut b: Bitmap<3> = Bitmap::new();
        b.bitmap = [0xffff_ffff_ffff_ffff, 0xa5a5_a5a5_5a5a_5a5a, 0xffff_0000_ffff_0000];
        let before = bits_of(&b);
        b.zero_bit_range(i, n);
        let after = bits_of(&b);
        for k in 0..192 {
            if i <= k && k < i + n {
                assert!(!after[k], "range ({}, {}) bit {}", i, n, k);
            } else {
                assert_eq!(after[k], before[k], "range ({}, {}) bit {}", i, n, k);
            }
        }
    }
}

#[test]
fn iterator_walks_all_slots_in_order() {
    let mut b: Bitmap<2> = Bitmap::new();
    b.set(1, true);
    b.set(64, true);
    b.set(127, true);
    let mut it = b.iter();
    let mut seen = Vec::new();
    while let Some(bit) = it.next() {
        seen.push(bit);
    }
    assert_eq!(seen.len(), 128);
    assert_eq!(seen, bits_of(&b));
    assert_eq!(it.next(), None);
}

#[test]
fn count_free_counts_clear_slots() {
    let mut b: Bitmap<2> = Bitmap::new();
    b.mark_allocated(3, 100);
    assert_eq!(b.count_free(), 28);
    b.free(50, 10);
    assert_eq!(b.count_free(), 38);
}
