use boldos::api::KError;
use boldos::mmu::boot::{eject_lowmem, init, make_page_table_l1};
use boldos::mmu::{
    entry_addr, entry_kind, page_descriptor, table_descriptor, ContiguousRegion, EntryKind,
    PageGetMutResult, PageGetResult, PageTable, ADDR_MASK, COMMON_FLAGS, PT_AF, PT_BLOCK, PT_DEV,
    PT_ISH, PT_MEM, PT_PAGE, PT_RO_EL0, PT_RO_EL1, PT_RW_EL0, PT_RW_EL1, TABLE_FLAGS, TABLE_TOP,
    USER_TOP, VMAP_BASE,
};
use boldos::page_alloc::{BitmapPageAlloc, PhyAddr};

const RAM: u64 = 0x4000_0000;
const ATTRS: u64 = PT_ISH | PT_RW_EL0 | PT_MEM;

fn allocator() -> BitmapPageAlloc<16> {
    BitmapPageAlloc::new(RAM)
}

fn allocated(r: ContiguousRegion) -> Option<u64> {
    match r {
        ContiguousRegion::Allocated { len_bytes } => Some(len_bytes),
        ContiguousRegion::Free { .. } => None,
    }
}

fn free(r: ContiguousRegion) -> Option<u64> {
    match r {
        ContiguousRegion::Free { len_bytes } => Some(len_bytes),
        ContiguousRegion::Allocated { .. } => None,
    }
}

#[test]
fn descriptor_constants() {
    assert_eq!(PT_PAGE, 0b11);
    assert_eq!(PT_BLOCK, 0b01);
    assert_eq!(PT_AF, 1 << 10);
    assert_eq!(PT_RW_EL1, 0b00 << 6);
    assert_eq!(PT_RW_EL0, 0b01 << 6);
    assert_eq!(PT_RO_EL1, 0b10 << 6);
    assert_eq!(PT_RO_EL0, 0b11 << 6);
    assert_eq!(PT_ISH, 0b11 << 8);
    assert_eq!(PT_MEM, 0 << 2);
    assert_eq!(PT_DEV, 1 << 2);
    assert_eq!(COMMON_FLAGS, PT_PAGE | PT_AF);
    assert_eq!(TABLE_FLAGS, PT_PAGE | PT_AF | PT_ISH | PT_MEM);
    assert_eq!(USER_TOP, 1 << 39);
    assert_eq!(TABLE_TOP, 1 << 48);
    assert_eq!(VMAP_BASE, 0x5000_0000);
    assert_eq!(ADDR_MASK, 0x0000_ffff_ffff_f000);
}

#[test]
fn entries_are_free_block_or_table() {
    assert_eq!(entry_kind(0), EntryKind::Free);
    assert_eq!(entry_kind(0x4000_0701), EntryKind::Block);
    assert_eq!(entry_kind(0x1), EntryKind::Block);
    assert_eq!(entry_kind(0x4000_0000), EntryKind::Block);
    assert_eq!(entry_kind(0x4000_0703), EntryKind::Table);
    assert_eq!(entry_kind(0x2), EntryKind::Table);
    assert_eq!(entry_addr(0x0060_0000_4000_1703).0, 0x4000_1000);
    assert_eq!(page_descriptor(PhyAddr(0x8000_0000), ATTRS), 0x8000_0743);
    assert_eq!(page_descriptor(PhyAddr(0x9000_0000), PT_ISH | PT_RO_EL0 | PT_DEV), 0x9000_07c7);
    assert_eq!(table_descriptor(PhyAddr(0x4000_3000), TABLE_FLAGS), 0x4000_3703);
    assert_eq!(eject_lowmem(0x4008_0000), 0xffff_ff00_4008_0000);
}

#[test]
fn new_table_is_empty() {
    let t = PageTable::new();
    assert_eq!(t.0.len(), 512);
    assert!(t.0.iter().all(|e| *e == 0));
    assert_eq!(t.1.len(), 512);
    assert!(t.1.iter().all(|c| c.is_none()));
    assert!(matches!(t.get(0), PageGetResult::Free));
    assert!(matches!(t.get(511), PageGetResult::Free));
    assert_eq!(t.walk(0x5000_0000), 0);
    assert!(t.translate(0x5000_0000).is_none());
}

#[test]
fn vmap_at_installs_a_page_descriptor() {
    let mut a = allocator();
    let mut t = PageTable::new();
    t.vmap_at(0x1000, PhyAddr(0x8000_0000), ATTRS, &mut a);
    let entry = t.walk(0x1000);
    assert_eq!(entry, 0x8000_0743);
    // the top bits are the physical address, the attributes are all there
    assert_eq!(entry & ADDR_MASK, 0x8000_0000);
    assert_eq!(entry & (ATTRS | PT_PAGE | PT_AF), ATTRS | PT_PAGE | PT_AF);
    assert_eq!(t.walk(0x1fff), entry);
    assert_eq!(t.walk(0x0), 0);
    assert_eq!(t.walk(0x2000), 0);
    assert_eq!(t.translate(0x1abc).unwrap().0, 0x8000_0abc);
    // three tables were made, in the three lowest frames, highest table first
    assert_eq!(a.free_count(), 1024 - 3);
    assert_eq!(t.entry_at(0x1000, 3), 0x4000_0703);
    assert_eq!(t.entry_at(0x1000, 2), 0x4000_1703);
    assert_eq!(t.entry_at(0x1000, 1), 0x4000_2703);
    assert_eq!(t.0[0], 0x4000_0703);
    assert!(matches!(t.get(0), PageGetResult::PageTable(_)));
    // a second page next to it needs no table
    t.vmap_at(0x2000, PhyAddr(0x7000_0000), PT_ISH | PT_RO_EL0 | PT_DEV, &mut a);
    assert_eq!(t.walk(0x2000), 0x7000_07c7);
    assert_eq!(t.walk(0x1000), 0x8000_0743);
    assert_eq!(a.free_count(), 1024 - 3);
    // a page in another gibibyte needs two
    t.vmap_at(0x4000_0000, PhyAddr(0x6000_0000), ATTRS, &mut a);
    assert_eq!(t.walk(0x4000_0000), 0x6000_0743);
    assert_eq!(a.free_count(), 1024 - 5);
    assert_eq!(t.entry_at(0x4000_0000, 3), 0x4000_0703);
    assert_eq!(t.entry_at(0x4000_0000, 2), 0x4000_3703);
    assert_eq!(t.entry_at(0x4000_0000, 1), 0x4000_4703);
}

#[test]
fn vmap_at_round_trips_for_many_pages() {
    let mut a = allocator();
    let mut t = PageTable::new();
    let pairs = [
        (0u64, 0x1234_5000u64),
        (0x7f_ffff_f000, 0xffff_ffff_f000),
        (0x5000_0000, 0x4000_0000),
        (0x1_2345_6000, 0x0),
        (0x20_0000, 0x900_0000),
    ];
    for (v, p) in pairs {
        t.vmap_at(v, PhyAddr(p), ATTRS, &mut a);
    }
    for (v, p) in pairs {
        let entry = t.walk(v);
        assert_eq!(entry & ADDR_MASK, p);
        assert_eq!(entry & (ATTRS | PT_PAGE | PT_AF), ATTRS | PT_PAGE | PT_AF);
        assert_eq!(entry, p | 0x743);
    }
}

#[test]
fn vmap_maps_a_range_into_the_lowest_window() {
    let mut a = allocator();
    let mut t = PageTable::new();
    let v = t.vmap(PhyAddr(0x9000_0000), 0x3000, ATTRS, &mut a);
    assert_eq!(v, 0x5000_0000);
    for k in 0..3u64 {
        let entry = t.walk(v + k * 4096);
        assert_eq!(entry, (0x9000_0000 + k * 4096) | 0x743);
        assert_eq!(entry & ADDR_MASK, 0x9000_0000 + k * 4096);
        assert_eq!(t.translate(v + k * 4096 + 5).unwrap().0, 0x9000_0005 + k * 4096);
    }
    assert_eq!(t.walk(v + 0x3000), 0);
    assert_eq!(t.walk(v - 0x1000), 0);
    assert_eq!(a.free_count(), 1024 - 3);
    let w = t.vmap(PhyAddr(0xa000_0000), 0x1000, PT_ISH | PT_RO_EL0, &mut a);
    assert_eq!(w, 0x5000_3000);
    assert_eq!(t.walk(w), 0xa000_07c3);
    assert_eq!(a.free_count(), 1024 - 3);
}

#[test]
fn vmap_crosses_table_boundaries() {
    let mut a = allocator();
    let mut t = PageTable::new();
    // fill all of the window below the last page of a table
    t.vmap_range(0x5000_0000, PhyAddr(0), 0x1f_f000, ATTRS, &mut a);
    assert_eq!(a.free_count(), 1024 - 3);
    let v = t.vmap(PhyAddr(0x8000_0000), 0x3000, ATTRS, &mut a);
    assert_eq!(v, 0x501f_f000);
    assert_eq!(a.free_count(), 1024 - 4);
    assert_eq!(t.walk(0x501f_f000), 0x8000_0743);
    assert_eq!(t.walk(0x5020_0000), 0x8000_1743);
    assert_eq!(t.walk(0x5020_1000), 0x8000_2743);
    assert_eq!(t.walk(0x5020_2000), 0);
    assert_eq!(t.walk(0x501f_e000), 0x1f_e743);
}

#[test]
fn find_hole_is_first_fit() {
    let mut a = allocator();
    let mut t = PageTable::new();
    assert_eq!(t.find_hole(0x5000_0000, 0x1000), Some(0x5000_0000));
    assert_eq!(t.find_hole(0x5000_0001, 0x1000), Some(0x5000_1000));
    assert_eq!(t.find_hole(0, 0x80_0000_0000), Some(0));
    assert_eq!(t.find_hole(0, 0x80_0000_0001), None);
    assert_eq!(t.find_hole(0x1000, 0x80_0000_0000), None);
    assert_eq!(t.find_hole(0x7f_ffff_f000, 0x1000), Some(0x7f_ffff_f000));
    assert_eq!(t.find_hole(0x7f_ffff_f001, 0x1000), None);
    assert_eq!(t.find_hole(0x80_0000_0000, 0x1000), None);
    assert_eq!(t.find_hole(u64::MAX, 0), None);
    t.vmap_at(0x5000_0000, PhyAddr(0), ATTRS, &mut a);
    t.vmap_at(0x5000_3000, PhyAddr(0), ATTRS, &mut a);
    t.vmap_at(0x5000_4000, PhyAddr(0), ATTRS, &mut a);
    assert_eq!(t.find_hole(0x5000_0000, 0x1000), Some(0x5000_1000));
    assert_eq!(t.find_hole(0x5000_0000, 0x2000), Some(0x5000_1000));
    assert_eq!(t.find_hole(0x5000_0000, 0x2001), Some(0x5000_5000));
    assert_eq!(t.find_hole(0x5000_0000, 0), Some(0x5000_1000));
    assert_eq!(t.find_hole(0x5000_2000, 0x1000), Some(0x5000_2000));
    assert_eq!(t.find_hole(0x5000_3000, 0x1000), Some(0x5000_5000));
    assert_eq!(t.find_hole(0x4fff_f000, 0x1000), Some(0x4fff_f000));
    assert_eq!(t.find_hole(0x4fff_f000, 0x2000), Some(0x5000_1000));
}

#[test]
fn find_hole_finds_nothing_in_a_full_address_space() {
    let mut t = PageTable::new();
    init(&mut t, 0x4008_1000, 0x4008_2000);
    assert_eq!(t.find_hole(0x5000_0000, 0x1000), None);
    assert_eq!(t.find_hole(0, 0), None);
    assert_eq!(allocated(t.measure_contiguous_region(0x5000_0000, u64::MAX, 0x1000)), Some((1 << 39) - 0x5000_0000));
}

#[test]
fn measure_in_an_empty_table() {
    let t = PageTable::new();
    assert_eq!(
        free(t.measure_contiguous_region(0x5000_0000, u64::MAX, u64::MAX)),
        Some((1 << 48) - 0x5000_0000)
    );
    // the cap is reached with the first entry, which counts whole
    assert_eq!(
        free(t.measure_contiguous_region(0x5000_0000, u64::MAX, 0x1000)),
        Some((1 << 39) - 0x5000_0000)
    );
    assert_eq!(free(t.measure_contiguous_region(0, 0, 0)), Some(1 << 39));
    assert_eq!(free(t.measure_contiguous_region(0, 0, (1 << 39) + 1)), Some(1 << 40));
    assert_eq!(free(t.measure_contiguous_region((1 << 48) - 0x1000, 0, 0)), Some(0x1000));
}

#[test]
fn measure_around_mapped_pages() {
    let mut a = allocator();
    let mut t = PageTable::new();
    let v = t.vmap(PhyAddr(0x9000_0000), 0x2000, ATTRS, &mut a);
    assert_eq!(v, 0x5000_0000);
    assert_eq!(allocated(t.measure_contiguous_region(v, u64::MAX, u64::MAX)), Some(0x2000));
    assert_eq!(allocated(t.measure_contiguous_region(v, 0x1000, u64::MAX)), Some(0x1000));
    assert_eq!(allocated(t.measure_contiguous_region(v, 0x1001, u64::MAX)), Some(0x2000));
    assert_eq!(allocated(t.measure_contiguous_region(v, 0, 0)), Some(0x1000));
    assert_eq!(allocated(t.measure_contiguous_region(v + 0x1000, u64::MAX, 0)), Some(0x1000));
    assert_eq!(free(t.measure_contiguous_region(v + 0x2000, u64::MAX, 0x1000)), Some(0x1000));
    assert_eq!(free(t.measure_contiguous_region(v + 0x2000, 0, 0x3000)), Some(0x3000));
    assert_eq!(free(t.measure_contiguous_region(v + 0x2000, 0, 0x2001)), Some(0x3000));
    // the rest of the table of pages, then whole entries of two mebibytes
    assert_eq!(free(t.measure_contiguous_region(v + 0x2000, 0, 0x1f_e000)), Some(0x1f_e000));
    assert_eq!(free(t.measure_contiguous_region(v + 0x2000, 0, 0x1f_e001)), Some(0x3f_e000));
    assert_eq!(
        free(t.measure_contiguous_region(v + 0x2000, u64::MAX, u64::MAX)),
        Some((1 << 48) - 0x5000_2000)
    );
    // a free run ends where the mapped pages start
    assert_eq!(free(t.measure_contiguous_region(0x4fff_f000, u64::MAX, u64::MAX)), Some(0x1000));
    assert_eq!(free(t.measure_contiguous_region(0x4000_0000, u64::MAX, u64::MAX)), Some(0x1000_0000));
    assert_eq!(free(t.measure_contiguous_region(0, u64::MAX, u64::MAX)), Some(0x5000_0000));
    assert_eq!(free(t.measure_contiguous_region(0, u64::MAX, 1)), Some(0x4000_0000));
    // from inside a page
    assert_eq!(allocated(t.measure_contiguous_region(v + 0x10, u64::MAX, u64::MAX)), Some(0x1ff0));
}

#[test]
fn measure_over_blocks() {
    let mut t = PageTable::new();
    init(&mut t, 0x4008_1000, 0x4008_2000);
    assert_eq!(allocated(t.measure_contiguous_region(0, u64::MAX, u64::MAX)), Some(1 << 39));
    assert_eq!(allocated(t.measure_contiguous_region(0, 1, u64::MAX)), Some(0x4000_0000));
    assert_eq!(allocated(t.measure_contiguous_region(0x1000, 1, u64::MAX)), Some(0x3fff_f000));
    assert_eq!(
        allocated(t.measure_contiguous_region(0x1000, 0x4000_0000, u64::MAX)),
        Some(0x7fff_f000)
    );
    assert_eq!(
        free(t.measure_contiguous_region(1 << 39, u64::MAX, u64::MAX)),
        Some(509 << 39)
    );
    assert_eq!(
        allocated(t.measure_contiguous_region(510 << 39, u64::MAX, u64::MAX)),
        Some(2 << 39)
    );
}

#[test]
fn vunmap_frees_the_window_again() {
    let mut a = allocator();
    let mut t = PageTable::new();
    let keep = t.vmap(PhyAddr(0x1000_0000), 0x1000, ATTRS, &mut a);
    let v = t.vmap(PhyAddr(0x9000_0000), 0x2000, ATTRS, &mut a);
    assert_eq!((keep, v), (0x5000_0000, 0x5000_1000));
    let frames = a.free_count();
    assert_eq!(t.find_hole(VMAP_BASE, 0x2000), Some(0x5000_3000));
    t.vunmap(v, 0x2000);
    assert_eq!(t.walk(v), 0);
    assert_eq!(t.walk(v + 0x1000), 0);
    assert_eq!(t.walk(keep), 0x1000_0743);
    assert_eq!(t.find_hole(VMAP_BASE, 0x2000), Some(v));
    // tables stay, and so do frames
    assert_ne!(t.entry_at(v, 1), 0);
    assert_eq!(a.free_count(), frames);
    let again = t.vmap(PhyAddr(0xb000_0000), 0x2000, ATTRS, &mut a);
    assert_eq!(again, v);
    assert_eq!(t.walk(v + 0x1000), 0xb000_1743);
}

#[test]
fn vunmap_clears_every_page_that_the_range_touches() {
    let mut a = allocator();
    let mut t = PageTable::new();
    let v = t.vmap(PhyAddr(0x9000_0000), 0x4000, ATTRS, &mut a);
    t.vunmap(v + 0x1000, 0);
    t.vunmap(v + 0x1010, 0);
    for k in 0..4 {
        assert_ne!(t.walk(v + k * 0x1000), 0);
    }
    t.vunmap(v + 0x1ff0, 0x20);
    assert_ne!(t.walk(v), 0);
    assert_eq!(t.walk(v + 0x1000), 0);
    assert_eq!(t.walk(v + 0x2000), 0);
    assert_ne!(t.walk(v + 0x3000), 0);
    // where no table is, nothing happens
    t.vunmap(0x1_0000_0000, 0x40_0000);
    t.vunmap(TABLE_TOP - 0x1000, 0x1000);
    assert_ne!(t.walk(v), 0);
}

#[test]
fn vunmap_leaves_blocks() {
    let mut t = PageTable::new();
    init(&mut t, 0x4008_1000, 0x4008_2000);
    let before = t.0;
    t.vunmap(0, 0x4000_0000);
    assert_eq!(t.0, before);
    assert_eq!(allocated(t.measure_contiguous_region(0, u64::MAX, u64::MAX)), Some(1 << 39));
}

#[test]
fn tables_needed_for_a_window() {
    let mut a = allocator();
    let mut t = PageTable::new();
    assert_eq!(t.count_tables_needed(0x5000_0000, 0), 0);
    assert_eq!(t.count_tables_needed(0x5000_0000, 0x1000), 3);
    assert_eq!(t.count_tables_needed(0x5000_0000, 0x20_0000), 3);
    assert_eq!(t.count_tables_needed(0x5000_0000, 0x20_1000), 4);
    assert_eq!(t.count_tables_needed(0x501f_f000, 0x2000), 4);
    assert_eq!(t.count_tables_needed(0x7fff_f000, 0x2000), 5);
    assert_eq!(t.count_tables_needed(0x5000_0000, 0xa0_0000), 7);
    t.vmap_at(0x5000_0000, PhyAddr(0), ATTRS, &mut a);
    assert_eq!(t.count_tables_needed(0x5000_1000, 0x1000), 0);
    assert_eq!(t.count_tables_needed(0x5000_1000, 0x20_0000), 1);
    assert_eq!(t.count_tables_needed(0x4000_0000, 0x1000), 1);
    assert_eq!(t.count_tables_needed(0x8000_0000, 0x1000), 2);
    assert_eq!(t.count_tables_needed(0x7fff_f000, 0x2000), 3);
}

#[test]
fn try_vmap_fails_without_frames_and_changes_nothing() {
    let mut a: BitmapPageAlloc<1> = BitmapPageAlloc::new(RAM);
    a.mark_allocated(RAM, 62);
    let mut t = PageTable::new();
    assert_eq!(t.try_vmap(PhyAddr(0x9000_0000), 0x1000, ATTRS, &mut a), Err(KError::OOM));
    assert_eq!(a.free_count(), 2);
    assert!(t.0.iter().all(|e| *e == 0));
    a.free(RAM, 1);
    assert_eq!(t.try_vmap(PhyAddr(0x9000_0000), 0x1000, ATTRS, &mut a), Ok(0x5000_0000));
    assert_eq!(a.free_count(), 0);
    assert_eq!(t.walk(0x5000_0000), 0x9000_0743);
    // the tables are there now, so the next page needs no frame
    assert_eq!(t.try_vmap(PhyAddr(0x9000_5000), 0x1000, ATTRS, &mut a), Ok(0x5000_1000));
    // but a window that runs into the next table does
    assert_eq!(t.try_vmap(PhyAddr(0), 0x20_0000, ATTRS, &mut a), Err(KError::OOM));
    assert_eq!(t.walk(0x5000_2000), 0);
}

#[test]
fn try_vmap_fails_without_a_window() {
    let mut a = allocator();
    let mut t = PageTable::new();
    init(&mut t, 0x4008_1000, 0x4008_2000);
    let before = t.0;
    assert_eq!(t.try_vmap(PhyAddr(0x9000_0000), 0x1000, ATTRS, &mut a), Err(KError::OOM));
    assert_eq!(t.0, before);
    assert_eq!(a.free_count(), 1024);
    let mut t = PageTable::new();
    assert_eq!(t.try_vmap(PhyAddr(0), 0x80_0000_0000, ATTRS, &mut a), Err(KError::OOM));
    assert_eq!(a.free_count(), 1024);
}

#[test]
fn get_mut_or_alloc_makes_a_table_once() {
    let mut a = allocator();
    a.mark_allocated(RAM, 1);
    let mut t = PageTable::new();
    {
        let child = t.get_mut_or_alloc(5, TABLE_FLAGS, &mut a);
        assert!(child.0.iter().all(|e| *e == 0));
        child.0[9] = 0x1234_5743;
    }
    assert_eq!(t.0[5], 0x4000_1703);
    assert_eq!(a.free_count(), 1022);
    {
        let child = t.get_mut_or_alloc(5, TABLE_FLAGS, &mut a);
        assert_eq!(child.0[9], 0x1234_5743);
    }
    assert_eq!(t.0[5], 0x4000_1703);
    assert_eq!(a.free_count(), 1022);
    match t.get(5) {
        PageGetResult::PageTable(child) => assert_eq!(child.0[9], 0x1234_5743),
        _ => panic!("entry 5 owns a table"),
    }
    match t.get_mut(5) {
        PageGetMutResult::PageTable(child) => child.0[9] = 0,
        _ => panic!("entry 5 owns a table"),
    }
    match t.get(5) {
        PageGetResult::PageTable(child) => assert_eq!(child.0[9], 0),
        _ => panic!("entry 5 owns a table"),
    }
    assert!(matches!(t.get_mut(4), PageGetMutResult::Free));
    assert!(matches!(t.get(4), PageGetResult::Free));
}

#[test]
fn first_level_table_maps_gibibytes_as_blocks() {
    let mut t = PageTable::new();
    make_page_table_l1(&mut t, PT_DEV);
    for i in 0..512u64 {
        assert_eq!(t.0[i as usize], (i << 30) | PT_BLOCK | PT_AF | PT_RW_EL1 | PT_ISH | PT_DEV);
    }
    assert_eq!(t.0[1], 0x4000_0705);
    assert!(t.1.iter().all(|c| c.is_none()));
    assert!(matches!(t.get(3), PageGetResult::Block));
    assert!(matches!(t.get_mut(3), PageGetMutResult::Block));
    make_page_table_l1(&mut t, PT_MEM);
    assert_eq!(t.0[511], (511 << 30) | 0x701);
}

#[test]
fn kernel_tables() {
    let mut t = PageTable::new();
    init(&mut t, 0x4008_1000, 0x4008_2000);
    for i in 0..512 {
        let want = match i {
            0 | 510 => 0x4008_1003,
            511 => 0x4008_2003,
            _ => 0,
        };
        assert_eq!(t.0[i], want);
    }
    for i in [0usize, 510] {
        match t.get(i) {
            PageGetResult::PageTable(l1) => {
                assert_eq!(l1.0[0], 0x701);
                assert_eq!(l1.0[1], 0x4000_0701);
                assert_eq!(l1.0[511], (511 << 30) | 0x701);
            }
            _ => panic!("entry {} owns a table", i),
        }
    }
    match t.get(511) {
        PageGetResult::PageTable(l1) => {
            assert_eq!(l1.0[0], 0x705);
            assert_eq!(l1.0[9], (9 << 30) | 0x705);
        }
        _ => panic!("entry 511 owns a table"),
    }
    // a block is where the translation ends: nothing below it
    assert_eq!(t.entry_at(0x4000_0000, 3), 0x4008_1003);
    assert_eq!(t.entry_at(0x4000_0000, 2), 0x4000_0701);
    assert_eq!(t.entry_at(0x4000_0000, 1), 0);
    assert_eq!(t.walk(0x4000_0000), 0);
    assert_eq!(t.entry_at(0xffff_ff80_0900_0000 & 0xffff_ffff_ffff, 2), 0x705);
    assert_eq!(t.entry_at(0xffff_ff00_4000_0000 & 0xffff_ffff_ffff, 2), 0x4000_0701);
}
