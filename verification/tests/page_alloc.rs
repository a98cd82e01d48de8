use boldos::mmu::PageTable;
use boldos::page_alloc::{
    add_memory_node, allocate, check_memory_node, init_early_heap, BitmapPageAlloc, PageBox,
    PhyAddr, PhySlice, EARLY_HEAP_SIZE, PAGE_ALLOC_CELLS, PAGE_ALLOC_PAGES, PAGE_SIZE,
};

const HIGH: u64 = 0xffff_ff00_0000_0000;
const HIGH_DEV: u64 = 0xffff_ff80_0000_0000;

fn bits_of<const N: usize>(a: &BitmapPageAlloc<N>) -> Vec<bool> {
    (0..a.bitmap_alloc.bit_capacity()).map(|i| a.bitmap_alloc.get(i)).collect()
}

#[test]
fn page_alloc_constants() {
    assert_eq!(PAGE_SIZE, 4096);
    assert_eq!(PAGE_ALLOC_CELLS, 1024);
    assert_eq!(PAGE_ALLOC_PAGES, 65536);
    assert_eq!(EARLY_HEAP_SIZE, 1024 * 1024);
}

#[test]
fn phy_addr_views() {
    let p = PhyAddr(0x4000_1234);
    assert_eq!(p.virt(), 0xffff_ff00_4000_1234);
    assert_eq!(p.virt_mut(), 0xffff_ff00_4000_1234);
    assert_eq!(p.virt_dev(), 0xffff_ff80_4000_1234);
    assert_eq!(p.virt_dev_mut(), 0xffff_ff80_4000_1234);
    assert_eq!(PhyAddr::from_virt(0xffff_ff00_4000_1234).0, 0x4000_1234);
    assert_eq!(PhyAddr::from_virt(0x4000_1234).0, 0x4000_1234);
    assert_eq!(PhyAddr::from_virt(0xffff_ffff_ffff_ffff).0, 0x0000_00ff_ffff_ffff);
}

#[test]
fn phy_addr_round_trip_below_2_pow_39() {
    for p in [0u64, 1, 0xfff, 0x1000, 0x4000_0000, 0x7f_ffff_ffff] {
        assert_eq!(PhyAddr::from_virt(PhyAddr(p).virt()).0, p);
        assert_eq!(PhyAddr(p).virt(), p | HIGH);
        assert_eq!(PhyAddr(p).virt_dev(), p | HIGH_DEV);
        assert_eq!(PhyAddr(p).virt_dev() & 0x7f_ffff_ffff, p);
    }
}

#[test]
fn phy_slice_views() {
    let s = PhySlice { base: PhyAddr(0x900_0000), len: 0x2000 };
    assert_eq!(s.virt(), (0xffff_ff00_0900_0000, 0x2000));
    assert_eq!(s.virt_mut(), (0xffff_ff00_0900_0000, 0x2000));
    assert_eq!(s.virt_dev(), (0xffff_ff80_0900_0000, 0x2000));
    assert_eq!(s.virt_dev_mut(), (0xffff_ff80_0900_0000, 0x2000));
}

#[test]
fn new_allocator_has_every_frame_free() {
    let a: BitmapPageAlloc<4> = BitmapPageAlloc::new(0x4000_0000);
    assert_eq!(a.ram_base, 0x4000_0000);
    assert_eq!(a.free_count(), 256);
    assert!(bits_of(&a).iter().all(|b| !b));
}

#[test]
fn allocate_hands_out_aligned_frames_inside_the_window() {
    let base = 0x4000_0000;
    let mut a: BitmapPageAlloc<4> = BitmapPageAlloc::new(base);
    let cap = 256u64;
    let mut expected = base;
    for n in [1usize, 3, 0, 64, 100, 88] {
        let s = a.allocate(n).unwrap();
        // a run of no frames is found at the very start of the window
        assert_eq!(s.as_ptr(), if n == 0 { base } else { expected });
        assert_eq!(s.len(), n * 4096);
        assert_eq!(s.as_slice().len(), n * 4096);
        assert_eq!(s.as_ptr() % 4096, 0);
        assert!(s.as_ptr() >= base);
        assert!(s.as_ptr() + s.len() as u64 <= base + cap * 4096);
        expected += n as u64 * 4096;
    }
    assert_eq!(a.free_count(), 0);
    assert!(a.allocate(1).is_none());
    assert_eq!(a.ram_base, base);
}

#[test]
fn allocate_fails_on_fragmentation() {
    let mut a: BitmapPageAlloc<1> = BitmapPageAlloc::new(0x1000);
    for i in 0..16u64 {
        a.mark_allocated(0x1000 + (4 * i + 3) * 4096, 1);
    }
    assert_eq!(a.free_count(), 48);
    let before = bits_of(&a);
    assert!(a.allocate(4).is_none());
    assert_eq!(bits_of(&a), before);
    let s = a.allocate(3).unwrap();
    assert_eq!(s.as_ptr(), 0x1000);
}

#[test]
fn alloc_zeroed_gives_zero_bytes() {
    let mut a: BitmapPageAlloc<1> = BitmapPageAlloc::new(0x10_0000);
    let first = a.allocate(1).unwrap();
    assert_eq!(first.as_ptr(), 0x10_0000);
    let s = a.alloc_zeroed(2).unwrap();
    assert_eq!(s.as_ptr(), 0x10_1000);
    assert_eq!(s.len(), 8192);
    assert_eq!(s.as_slice().len(), 8192);
    assert!(s.as_slice().iter().all(|b| *b == 0));
    assert!(a.bitmap_alloc.get(1) && a.bitmap_alloc.get(2) && !a.bitmap_alloc.get(3));
}

#[test]
fn page_slice_bytes_can_be_written_and_zeroed() {
    let mut a: BitmapPageAlloc<1> = BitmapPageAlloc::new(0);
    let mut s = a.allocate(1).unwrap();
    assert_eq!(s.as_mut_ptr(), 0);
    s.as_mut_slice()[17] = 0x5a;
    s.as_mut_slice()[4095] = 0x11;
    assert_eq!(s.as_slice()[17], 0x5a);
    assert_eq!(s.as_slice()[4095], 0x11);
    assert_eq!(s.len(), 4096);
    s.zero();
    assert_eq!(s.len(), 4096);
    assert!(s.as_slice().iter().all(|b| *b == 0));
    s.poison();
    assert!(s.as_slice().iter().all(|b| *b == 0xa1));
    assert_eq!(s.as_slice().len(), 4096);
}

#[test]
fn release_gives_the_frames_back() {
    let mut a: BitmapPageAlloc<1> = BitmapPageAlloc::new(0x8000);
    let keep = a.allocate(2).unwrap();
    let s = a.allocate(3).unwrap();
    assert_eq!(a.free_count(), 59);
    let left = s.release(&mut a);
    assert_eq!(left.len(), 3 * 4096);
    assert!(left.iter().all(|b| *b == 0xa1));
    assert_eq!(a.free_count(), 62);
    assert!(a.bitmap_alloc.get(0) && a.bitmap_alloc.get(1));
    assert!(!a.bitmap_alloc.get(2) && !a.bitmap_alloc.get(3) && !a.bitmap_alloc.get(4));
    assert_eq!(keep.as_ptr(), 0x8000);
}

#[test]
fn mark_allocated_and_free_by_address() {
    let base = 0x4000_0000u64;
    let mut a: BitmapPageAlloc<2> = BitmapPageAlloc::new(base);
    a.mark_allocated(base, 1);
    a.mark_allocated(base + 5 * 4096, 70);
    a.mark_allocated(base + 127 * 4096, 1);
    a.mark_allocated(base + 128 * 4096, 0);
    let bits = bits_of(&a);
    for i in 0..128 {
        assert_eq!(bits[i], i == 0 || (5 <= i && i < 75) || i == 127, "bit {}", i);
    }
    a.free(base + 6 * 4096, 2);
    assert!(a.bitmap_alloc.get(5) && !a.bitmap_alloc.get(6) && !a.bitmap_alloc.get(7));
    assert!(a.bitmap_alloc.get(8));
    a.free(base, 1);
    assert!(!a.bitmap_alloc.get(0));
}

#[test]
fn free_pages_lists_free_frames_in_order() {
    let base = 0x2000u64;
    let mut a: BitmapPageAlloc<1> = BitmapPageAlloc::new(base);
    a.mark_allocated(base, 60);
    a.free(base + 10 * 4096, 2);
    let free = a.free_pages();
    let want: Vec<u64> = [10u64, 11, 60, 61, 62, 63].iter().map(|i| base + i * 4096).collect();
    assert_eq!(free, want);
    assert_eq!(a.free_count(), 6);
}

#[test]
fn rebase_keeps_the_bitmap() {
    let mut a: BitmapPageAlloc<1> = BitmapPageAlloc::new(0);
    a.mark_allocated(0x3000, 4);
    let before = bits_of(&a);
    a.rebase(0x4020_0000);
    assert_eq!(a.ram_base, 0x4020_0000);
    assert_eq!(bits_of(&a), before);
    let s = a.allocate(1).unwrap();
    assert_eq!(s.as_ptr(), 0x4020_0000);
}

#[test]
fn expand_to_moves_tracked_frames_and_frees_the_rest() {
    // the window grows downwards by 8 pages and upwards to 64 pages
    let old_base = 0x4010_0000u64;
    let delta = 8usize;
    let prev = 16usize;
    let total = 64usize;
    let mut a: BitmapPageAlloc<4> = BitmapPageAlloc::new(old_base);
    a.mark_allocated(old_base, 3);
    a.mark_allocated(old_base + 10 * 4096, 1);
    a.mark_allocated(old_base + 15 * 4096, 1);
    a.mark_allocated(old_base + 20 * 4096, 5);
    a.mark_allocated(old_base + 100 * 4096, 2);
    let before = bits_of(&a);
    let new_base = old_base - delta as u64 * 4096;
    a.expand_to(new_base, total as u64 * 4096, prev as u64 * 4096);
    assert_eq!(a.ram_base, new_base);
    let after = bits_of(&a);
    for k in 0..256 {
        let want = if k < delta {
            false
        } else if k < delta + prev {
            before[k - delta]
        } else if k < total {
            false
        } else {
            before[k]
        };
        assert_eq!(after[k], want, "bit {}", k);
    }
    // every address that was tracked keeps its state
    for page in 0..prev as u64 {
        let addr = old_base + page * 4096 + 123;
        let old_state = before[((addr - old_base) / 4096) as usize];
        let new_state = after[((addr - new_base) / 4096) as usize];
        assert_eq!(old_state, new_state);
    }
}

#[test]
fn expand_to_in_place_only_clears_behind_the_old_window() {
    let base = 0x4000_0000u64;
    let mut a: BitmapPageAlloc<1> = BitmapPageAlloc::new(base);
    a.mark_allocated(base, 64);
    a.free(base + 4096, 2);
    a.expand_to(base, 32 * 4096, 8 * 4096);
    let after = bits_of(&a);
    for k in 0..64 {
        let want = if k < 8 { k != 1 && k != 2 } else if k < 32 { false } else { true };
        assert_eq!(after[k], want, "bit {}", k);
    }
}

#[test]
fn early_heap_is_free_and_the_rest_allocated() {
    let heap = 0x4020_0000;
    let mut a: BitmapPageAlloc<1024> = BitmapPageAlloc::new(0);
    init_early_heap(&mut a, heap);
    assert_eq!(a.ram_base, heap);
    assert_eq!(a.free_count(), 256);
    let bits = bits_of(&a);
    for k in 0..65536 {
        assert_eq!(bits[k], k >= 256);
    }
    let s = allocate(&mut a, 256);
    assert_eq!(s.as_ptr(), heap);
    assert_eq!(s.len(), 1024 * 1024);
    assert!(a.allocate(1).is_none());
}

#[test]
fn add_memory_node_grows_the_allocator() {
    let heap = 0x4020_0000;
    let kernel_start = 0x4008_0000;
    let kernel_end = 0x4040_0000;
    let mut a: BitmapPageAlloc<1024> = BitmapPageAlloc::new(0);
    init_early_heap(&mut a, heap);
    let first = a.allocate(3).unwrap();
    assert_eq!(first.as_ptr(), heap);
    assert!(check_memory_node(&a, PhyAddr(0x4000_0000), 0x1000_0000, kernel_start, kernel_end, heap));
    add_memory_node(&mut a, PhyAddr(0x4000_0000), 0x1000_0000, kernel_start, kernel_end, heap);
    // slot i stands for the frame at physical 0x4000_0000 + i * 4096
    assert_eq!(a.ram_base, 0x4000_0000);
    assert!(a.bitmap_alloc.bit_capacity() >= 0x1000_0000 / 4096);
    let bits = bits_of(&a);
    for k in 0..65536usize {
        let in_kernel = 0x80 <= k && k < 0x400;
        let in_heap = 0x200 <= k && k < 0x300;
        let want = if in_heap { k < 0x203 } else { in_kernel };
        assert_eq!(bits[k], want, "bit {:#x}", k);
    }
    // the lowest free frame is now the start of the memory node
    let s = a.allocate(1).unwrap();
    assert_eq!(s.as_ptr(), 0x4000_0000);
}

#[test]
fn add_memory_node_keeps_the_early_heap_and_marks_the_kernel() {
    let heap = 0x4020_0000u64;
    let ks = 0x4010_0000u64;
    let ke = 0x4038_0000u64;
    let mut a: BitmapPageAlloc<1024> = BitmapPageAlloc::new(0);
    init_early_heap(&mut a, heap);
    a.mark_allocated(heap + 7 * 4096, 2);
    a.mark_allocated(heap + 255 * 4096, 1);
    let state_before = |addr: u64| addr == heap + 7 * 4096 || addr == heap + 8 * 4096
        || addr == heap + 255 * 4096;
    add_memory_node(&mut a, PhyAddr(0x4008_0000), 0x800_0000, ks, ke, heap);
    assert_eq!(a.ram_base, 0x4008_0000);
    for page in 0..0x8000u64 {
        let addr = 0x4008_0000 + page * 4096;
        let allocated = a.bitmap_alloc.get(((addr - a.ram_base) / 4096) as usize);
        let want = if heap <= addr && addr < heap + 0x10_0000 {
            state_before(addr)
        } else {
            ks <= addr && addr < ke
        };
        assert_eq!(allocated, want, "frame {:#x}", addr);
    }
}

#[test]
fn check_memory_node_refuses_what_does_not_fit() {
    let heap = 0x4020_0000;
    let ks = 0x4008_0000;
    let ke = 0x4040_0000;
    let mut a: BitmapPageAlloc<1024> = BitmapPageAlloc::new(0);
    init_early_heap(&mut a, heap);
    // not page-aligned
    assert!(!check_memory_node(&a, PhyAddr(0x4000_0010), 0x1000_0000, ks, ke, heap));
    assert!(!check_memory_node(&a, PhyAddr(0x4000_0000), 0x1000_0100, ks, ke, heap));
    // does not contain the early heap
    assert!(!check_memory_node(&a, PhyAddr(0x4000_0000), 0x20_0000, ks, ke, heap));
    assert!(!check_memory_node(&a, PhyAddr(0x4030_0000), 0x1000_0000, ks, ke, heap));
    // larger than the bitmap
    assert!(!check_memory_node(&a, PhyAddr(0x4000_0000), 0x1000_1000, ks, ke, heap));
    // the allocator does not track the early heap
    assert!(!check_memory_node(&a, PhyAddr(0x4000_0000), 0x1000_0000, ks, ke, heap + 0x1000));
    // the kernel image does not contain the early heap
    assert!(!check_memory_node(&a, PhyAddr(0x4000_0000), 0x1000_0000, heap + 0x1000, ke, heap));
    assert!(!check_memory_node(&a, PhyAddr(0x4000_0000), 0x1000_0000, ks, heap + 0x1000, heap));
    // the kernel image is not in the memory region
    assert!(!check_memory_node(&a, PhyAddr(0x4010_0000), 0x1000_0000, ks, ke, heap));
    // addresses in the kernel's view of memory are not physical addresses
    assert!(!check_memory_node(&a, PhyAddr(HIGH | 0x4000_0000), 0x1000_0000, ks, ke, heap));
    assert!(check_memory_node(&a, PhyAddr(0x4008_0000), 0x38_0000, ks, ke, heap));
}

#[test]
fn page_box_holds_a_value_in_frames_of_its_own() {
    let base = 0x4000_0000;
    let mut a: BitmapPageAlloc<1> = BitmapPageAlloc::new(base);
    a.mark_allocated(base, 2);
    assert_eq!(PageBox::<PageTable>::page_count(), 1);
    let mut b = PageBox::<PageTable>::new_zeroed(&mut a);
    assert_eq!(b.buf, base + 2 * 4096);
    assert_eq!(b.len, 4096);
    assert!(b.as_ref().0.iter().all(|e| *e == 0));
    assert!(a.bitmap_alloc.get(2));
    b.as_mut().0[7] = 99;
    assert_eq!(b.as_ref().0[7], 99);
    let table = b.into_inner(&mut a);
    assert_eq!(table.0[7], 99);
    assert!(!a.bitmap_alloc.get(2));

    let mut t = PageTable::new();
    t.0[1] = 5;
    let b = PageBox::new(t, &mut a);
    assert_eq!(b.buf, base + 2 * 4096);
    let (table, addr) = PageBox::leak(b);
    assert_eq!(addr, base + 2 * 4096);
    assert_eq!(table.0[1], 5);
    assert!(a.bitmap_alloc.get(2));
}
