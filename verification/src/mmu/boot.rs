//! The translation tables that the kernel boots with.
use crate::layout::{index_of, lemma_slot};
use crate::mmu::{
    entry_is_table, PageTable, PT_AF, PT_BLOCK, PT_DEV, PT_ISH, PT_MEM, PT_PAGE, PT_RW_EL1,
};
use vstd::prelude::*;

verus! {

/// The entry of a first-level table that maps gibibyte `i` onto itself
/// with the memory attribute `attr`: a block, accessed, writable by the
/// kernel only, inner shareable.
pub open spec fn block_entry(i: int, attr: u64) -> u64 {
    ((i * 0x4000_0000) as u64) | 0x701 | attr
}

/// The entry of a block is a block.
proof fn lemma_block_entry(base: u64, attr: u64)
    by (bit_vector)
    requires
        attr & 2 == 0,
        base % 4 == 0,
    ensures
        (base | 0x701u64 | attr) & 2 == 0,
        (base | 0x701u64 | attr) != 0,
{
}

/// Fills a top-level table that has no entries yet: entry 0 and entry 510
/// lead to the two first-level tables for normal memory, which stand for
/// one table at `l1_mem_addr`, and entry 511 to the first-level table for
/// device memory at `l1_dev_addr`.
pub fn make_page_table_l0(
    page_table: &mut PageTable,
    l1_mem_low: PageTable,
    l1_mem_high: PageTable,
    l1_dev: PageTable,
    l1_mem_addr: u64,
    l1_dev_addr: u64,
)
    requires
        old(page_table).is_empty(),
        l1_mem_low.wf(2),
        l1_mem_high.wf(2),
        l1_dev.wf(2),
    ensures
        final(page_table).wf(3),
        final(page_table).0@ == old(page_table).0@.update(0, l1_mem_addr | PT_PAGE).update(
            510,
            l1_mem_addr | PT_PAGE,
        ).update(511, l1_dev_addr | PT_PAGE),
        final(page_table).1@ == old(page_table).1@.update(0, Some(Box::new(l1_mem_low))).update(
            510,
            Some(Box::new(l1_mem_high)),
        ).update(511, Some(Box::new(l1_dev))),
{
    proof {
        assert(0u64 & 2 == 0) by (bit_vector);
        assert((l1_mem_addr | 3u64) & 2 != 0) by (bit_vector);
        assert((l1_dev_addr | 3u64) & 2 != 0) by (bit_vector);
    }
    page_table.0[0] = l1_mem_addr | PT_PAGE;
    page_table.0[510] = l1_mem_addr | PT_PAGE;
    page_table.0[511] = l1_dev_addr | PT_PAGE;
    page_table.1[0] = Some(Box::new(l1_mem_low));
    page_table.1[510] = Some(Box::new(l1_mem_high));
    page_table.1[511] = Some(Box::new(l1_dev));
    proof {
        assert forall|i: int| 0 <= i < 512 implies if entry_is_table(page_table.0[i]) {
            &&& (#[trigger] page_table.1@[i]) is Some
            &&& page_table.1@[i]->0.wf(2)
        } else {
            page_table.1@[i] is None
        } by {
            if i != 0 && i != 510 && i != 511 {
                assert(page_table.0[i] == 0);
                assert(old(page_table).1@[i] is None);
            }
        }
    }
}

/// Fills a first-level table that owns no tables: entry `i` maps gibibyte
/// `i` onto itself as a block with the memory attribute `attr`.
pub fn make_page_table_l1(page_table: &mut PageTable, attr: u64)
    requires
        old(page_table).1@.len() == 512,
        forall|i: int| 0 <= i < 512 ==> (#[trigger] old(page_table).1@[i]) is None,
        attr & 2 == 0,
    ensures
        final(page_table).wf(2),
        final(page_table).1@ == old(page_table).1@,
        forall|i: int| 0 <= i < 512 ==> #[trigger] final(page_table).0[i] == block_entry(i, attr),
        forall|va: int|
            0 <= va ==> #[trigger] final(page_table).leaf(2, va) == (
                block_entry(index_of(va, 2), attr),
                2nat,
            ),
{
    let mut i: usize = 0;
    while i < 512
        invariant
            i <= 512,
            attr & 2 == 0,
            page_table.1@ == old(page_table).1@,
            forall|k: int| 0 <= k < i ==> #[trigger] page_table.0[k] == block_entry(k, attr),
        decreases 512 - i,
    {
        page_table.0[i] = ((i as u64) * 0x4000_0000) | PT_BLOCK | PT_AF | PT_RW_EL1 | PT_ISH | attr;
        proof {
            let b: u64 = ((i as u64) * 0x4000_0000) as u64;
            assert(b | 1u64 | 0x400u64 | 0u64 | 0x300u64 | attr == b | 0x701u64 | attr)
                by (bit_vector);
        }
        i += 1;
    }
    proof {
        assert forall|k: int| 0 <= k < 512 implies !entry_is_table(#[trigger] page_table.0[k]) by {
            lemma_block_entry((k * 0x4000_0000) as u64, attr);
        }
        assert forall|va: int| 0 <= va implies #[trigger] page_table.leaf(2, va) == (
            block_entry(index_of(va, 2), attr),
            2nat,
        ) by {
            lemma_slot(2, va);
        }
    }
}

/// Builds the kernel's translation tables in the top-level table
/// `table_l0`, which has no entries yet: the low half and the high half
/// for normal memory map each gibibyte onto itself as normal memory, the
/// high half for device memory as device memory.
pub fn init(table_l0: &mut PageTable, l1_mem_addr: u64, l1_dev_addr: u64)
    requires
        old(table_l0).is_empty(),
    ensures
        final(table_l0).wf(3),
        forall|i: int|
            0 <= i < 512 ==> #[trigger] final(table_l0).0[i] == (if i == 0 || i == 510 {
                l1_mem_addr | PT_PAGE
            } else if i == 511 {
                l1_dev_addr | PT_PAGE
            } else {
                0
            }),
        forall|va: int|
            0 <= va && (index_of(va, 3) == 0 || index_of(va, 3) == 510) ==> #[trigger] final(table_l0).leaf(3, va) == (block_entry(index_of(va, 2), PT_MEM), 2nat),
        forall|va: int|
            0 <= va && index_of(va, 3) == 511 ==> #[trigger] final(table_l0).leaf(3, va) == (
                block_entry(index_of(va, 2), PT_DEV),
                2nat,
            ),
{
    proof {
        assert(0u64 & 2 == 0) by (bit_vector);
        assert(4u64 & 2 == 0) by (bit_vector);
        assert((l1_mem_addr | 3u64) & 2 != 0) by (bit_vector);
        assert((l1_dev_addr | 3u64) & 2 != 0) by (bit_vector);
    }
    let mut l1_mem_low = PageTable::new();
    make_page_table_l1(&mut l1_mem_low, PT_MEM);
    let mut l1_mem_high = PageTable::new();
    make_page_table_l1(&mut l1_mem_high, PT_MEM);
    let mut l1_dev = PageTable::new();
    make_page_table_l1(&mut l1_dev, PT_DEV);
    make_page_table_l0(table_l0, l1_mem_low, l1_mem_high, l1_dev, l1_mem_addr, l1_dev_addr);
    proof {
        assert forall|i: int| 0 <= i < 512 implies #[trigger] table_l0.0[i] == (if i == 0 || i
            == 510 {
            l1_mem_addr | PT_PAGE
        } else if i == 511 {
            l1_dev_addr | PT_PAGE
        } else {
            0
        }) by {
            assert(old(table_l0).1@[i] is None);
            assert(old(table_l0).0[i] == 0);
        }
        assert forall|va: int|
            0 <= va && (index_of(va, 3) == 0 || index_of(va, 3) == 510) implies #[trigger] table_l0.leaf(
            3,
            va,
        ) == (block_entry(index_of(va, 2), PT_MEM), 2nat) by {
            let i = index_of(va, 3);
            assert(entry_is_table(table_l0.0[i]));
            if i == 0 {
                assert(*table_l0.1@[i]->0 == l1_mem_low);
                assert(l1_mem_low.leaf(2, va) == (block_entry(index_of(va, 2), PT_MEM), 2nat));
            } else {
                assert(*table_l0.1@[i]->0 == l1_mem_high);
                assert(l1_mem_high.leaf(2, va) == (block_entry(index_of(va, 2), PT_MEM), 2nat));
            }
        }
        assert forall|va: int| 0 <= va && index_of(va, 3) == 511 implies #[trigger] table_l0.leaf(
            3,
            va,
        ) == (block_entry(index_of(va, 2), PT_DEV), 2nat) by {
            assert(entry_is_table(table_l0.0[511]));
            assert(*table_l0.1@[511]->0 == l1_dev);
            assert(l1_dev.leaf(2, va) == (block_entry(index_of(va, 2), PT_DEV), 2nat));
        }
    }
}

/// The stack pointer after the kernel has left the low half: its alias in
/// the high half for normal memory.
pub fn eject_lowmem(sp: u64) -> (r: u64)
    ensures
        r == sp | crate::page_alloc::HIGH_HALF_MEM,
{
    sp | crate::page_alloc::HIGH_HALF_MEM
}

} // verus!
