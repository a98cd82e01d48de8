//! Mapping pages: one page at a given address, and ranges of pages at a
//! given address or in the lowest free window.
use crate::api::KError;
use crate::bitmap::{
    count_clear, is_first_hole, lemma_count_after_set, lemma_count_positive, lemma_first_clear,
    lemma_some_first_hole, lemma_take_frames_add, lemma_take_frames_count,
    lemma_take_frames_shift, no_hole, nth_free, take_frames,
};
use crate::layout::{
    first_in_slot, first_page_in_slot, index_of, lemma_first_page, lemma_same_slot, lemma_slot,
    lemma_slot_nested, lemma_slot_same_index, lemma_slot_up, lemma_touched_step, shift_height,
    slot_base, slot_end, slot_start, table_index, touched, valid_shift,
};
use crate::mmu::{
    entry_is_table, page_descriptor, path_entry_clear, table_descriptor, PageTable, COMMON_FLAGS,
    TABLE_FLAGS, TABLE_TOP, USER_TOP, VMAP_BASE,
};
use crate::page_alloc::{BitmapPageAlloc, PageBox, PhyAddr, PHYS_MASK};
use vstd::prelude::*;

verus! {

/// The descriptor of the table in the frame that the `k`-th of a series of
/// single allocations takes from an allocator at `base` with the frame
/// flags `bits`.
pub open spec fn new_table_entry(base: u64, bits: Seq<bool>, k: nat, flags: u64) -> u64 {
    (((base + nth_free(bits, k) * 4096) as u64) & PHYS_MASK) | flags
}

/// The entry that the translation of `va` passes at height `at` after the
/// page at `vaddr` has been given the descriptor `desc`, where `prev` was
/// the entry before and `created` tables had to be made: entries off the
/// path of `vaddr` stay; the lowest entry on it is `desc`; the `created`
/// entries above it are new table descriptors, the highest in the first
/// frame taken; the entries above those stay.
pub open spec fn entry_after_map(
    prev: u64,
    va: int,
    at: nat,
    vaddr: int,
    desc: u64,
    created: nat,
    base: u64,
    bits: Seq<bool>,
) -> u64 {
    if slot_start(va, at) != slot_start(vaddr, at) {
        prev
    } else if at == 0 {
        desc
    } else if at <= created {
        new_table_entry(base, bits, (created - at) as nat, TABLE_FLAGS)
    } else {
        prev
    }
}

/// The descriptor of the page at physical address `paddr` with the
/// attributes `attrs`.
pub open spec fn page_entry(paddr: int, attrs: u64) -> u64 {
    (paddr as u64) | COMMON_FLAGS | attrs
}

/// 1 where a table has to be made for an entry, 0 where not.
pub open spec fn fresh_one(entry: u64, first: bool) -> nat {
    if !entry_is_table(entry) && first {
        1
    } else {
        0
    }
}

/// The descriptor of a new table is a table descriptor.
pub proof fn lemma_new_table_entry(base: u64, bits: Seq<bool>, k: nat)
    ensures
        entry_is_table(new_table_entry(base, bits, k, TABLE_FLAGS)),
        new_table_entry(base, bits, k, TABLE_FLAGS) != 0,
{
    let x = ((base + nth_free(bits, k) * 4096) as u64) & PHYS_MASK;
    assert((x | 0x703u64) & 2 != 0 && (x | 0x703u64) != 0) by (bit_vector);
}

impl PageTable {
    /// The table that entry `idx` owns, for writing. Where the entry is
    /// free, a zeroed table is first put into a frame of its own and the
    /// entry made its descriptor with the flags `flags`.
    pub fn get_mut_or_alloc<const SIZE: usize>(
        &mut self,
        idx: usize,
        flags: u64,
        page_alloc: &mut BitmapPageAlloc<SIZE>,
    ) -> (r: &mut Self)
        requires
            idx < 512,
            old(self).1@.len() == 512,
            old(page_alloc).wf(),
            old(self).0[idx as int] != 0 ==> old(self).1@[idx as int] is Some,
            old(self).0[idx as int] == 0 ==> !no_hole(old(page_alloc).bits(), 1),
        ensures
            final(page_alloc).wf(),
            final(page_alloc).ram_base == old(page_alloc).ram_base,
            final(self).1@ == old(self).1@.update(idx as int, Some(Box::new(*final(r)))),
            old(self).0[idx as int] != 0 ==> {
                &&& *r == *old(self).1@[idx as int]->0
                &&& final(self).0 == old(self).0
                &&& final(page_alloc).bits() == old(page_alloc).bits()
            },
            old(self).0[idx as int] == 0 ==> {
                &&& r.is_empty()
                &&& final(self).0@ == old(self).0@.update(
                    idx as int,
                    new_table_entry(old(page_alloc).ram_base, old(page_alloc).bits(), 0, flags),
                )
                &&& final(page_alloc).bits() == take_frames(old(page_alloc).bits(), 1)
            },
    {
        let raw = self.0[idx];
        if raw == 0 {
            let ghost bits = page_alloc.bits();
            let new_box = PageBox::<PageTable>::new_zeroed(page_alloc);
            proof {
                lemma_first_clear(bits, page_alloc.frame_index(new_box.buf as int));
                assert(take_frames(bits, 0) == bits);
            }
            let (new_table, addr) = PageBox::leak(new_box);
            let phy_addr = PhyAddr::from_virt(addr);
            self.0[idx] = table_descriptor(phy_addr, flags);
            self.1[idx] = Some(Box::new(new_table));
        }
        match &mut self.1[idx] {
            Some(b) => &mut **b,
            None => vstd::pervasive::unreached(),
        }
    }

    /// Gives the page at `vaddr` the descriptor `desc` in this table, which
    /// indexes addresses by `addr_shift`, making the tables that are
    /// missing on the way.
    fn map_in<const SIZE: usize>(
        &mut self,
        vaddr: u64,
        desc: u64,
        addr_shift: usize,
        page_alloc: &mut BitmapPageAlloc<SIZE>,
    )
        requires
            valid_shift(addr_shift),
            old(self).wf(shift_height(addr_shift)),
            vaddr < TABLE_TOP,
            old(self).leaf(shift_height(addr_shift), vaddr as int).0 == 0,
            old(page_alloc).wf(),
            old(self).leaf(shift_height(addr_shift), vaddr as int).1 <= old(page_alloc).spec_free_count(),
        ensures
            final(self).wf(shift_height(addr_shift)),
            final(page_alloc).wf(),
            final(page_alloc).ram_base == old(page_alloc).ram_base,
            final(page_alloc).bits() == take_frames(
                old(page_alloc).bits(),
                old(self).leaf(shift_height(addr_shift), vaddr as int).1,
            ),
            forall|at: nat, va: int|
                at <= shift_height(addr_shift) && slot_start(
                    vaddr as int,
                    shift_height(addr_shift) + 1,
                ) <= va < slot_end(vaddr as int, shift_height(addr_shift) + 1) ==> #[trigger] final(self).entry_on_path(shift_height(addr_shift), at, va) == entry_after_map(
                    old(self).entry_on_path(shift_height(addr_shift), at, va),
                    va,
                    at,
                    vaddr as int,
                    desc,
                    old(self).leaf(shift_height(addr_shift), vaddr as int).1,
                    old(page_alloc).ram_base,
                    old(page_alloc).bits(),
                ),
        decreases addr_shift,
    {
        let ghost h = shift_height(addr_shift);
        let ghost v = vaddr as int;
        let ghost before = *self;
        let ghost bits = page_alloc.bits();
        let ghost base = page_alloc.ram_base;
        let ghost created = before.leaf(h, v).1;
        let idx = table_index(vaddr, addr_shift);
        proof {
            lemma_slot(h, v);
            lemma_slot(h + 1, v);
        }
        if addr_shift == 12 {
            self.0[idx] = desc;
            proof {
                assert(take_frames(bits, 0) == bits);
                assert forall|i: int| 0 <= i < 512 implies (#[trigger] self.1@[i]) is None by {
                    assert(before.1@[i] is None);
                }
                assert forall|at: nat, va: int|
                    at <= h && slot_start(v, h + 1) <= va < slot_end(v, h + 1) implies (
                #[trigger] self.entry_on_path(h, at, va)) == entry_after_map(
                    before.entry_on_path(h, at, va),
                    va,
                    at,
                    v,
                    desc,
                    created,
                    base,
                    bits,
                ) by {
                    lemma_slot(0, va);
                    lemma_slot(1, va);
                    lemma_same_slot(1, v, va);
                    if index_of(va, 0) == idx {
                        lemma_slot_same_index(0, va, v);
                    } else {
                        if slot_start(va, 0) == slot_start(v, 0) {
                            lemma_slot_up(0, va, v);
                        }
                    }
                }
            }
            return ;
        }
        let ghost fresh = self.0[idx as int] == 0;
        proof {
            if fresh {
                assert(0u64 & 2 == 0) by (bit_vector);
                assert(before.leaf(h, v) == (0u64, h));
                lemma_count_positive(bits, (SIZE * 64) as int);
            } else {
                assert(entry_is_table(self.0[idx as int]));
                before.lemma_leaf_below(h, v);
            }
        }
        let child = self.get_mut_or_alloc(idx, TABLE_FLAGS, page_alloc);
        let ghost child_before = *child;
        let ghost bits_below = page_alloc.bits();
        proof {
            if fresh {
                child_before.lemma_empty((h - 1) as nat, v);
                let i = nth_free(bits, 0);
                assert(take_frames(bits, 0) == bits);
                assert(is_first_hole(bits, i, 1)) by {
                    let w = choose|w: int| crate::bitmap::hole_at(bits, w, 1);
                    lemma_some_first_hole(bits, w);
                }
                assert(!bits[i]);
                lemma_count_after_set(bits, i, (SIZE * 64) as int);
            }
        }
        child.map_in(vaddr, desc, addr_shift - 9, page_alloc);
        proof {
            let g = (h - 1) as nat;
            let child_after = *self.1@[idx as int]->0;
            let entry = self.0[idx as int];
            if fresh {
                lemma_take_frames_shift(bits, g);
                let f = nth_free(bits, 0);
                let x = ((base + f * 4096) as u64) & PHYS_MASK;
                assert((x | 0x703u64) & 2 != 0) by (bit_vector);
            }
            assert(entry_is_table(entry));
            assert(self.1@.len() == 512);
            assert forall|i: int| 0 <= i < 512 implies if h > 0 && entry_is_table(self.0[i]) {
                &&& (#[trigger] self.1@[i]) is Some
                &&& self.1@[i]->0.wf((h - 1) as nat)
            } else {
                self.1@[i] is None
            } by {
                if i != idx {
                    assert(self.0[i] == before.0[i]);
                    assert(self.1@[i] == before.1@[i]);
                }
            }
            assert forall|at: nat, va: int|
                at <= h && slot_start(v, h + 1) <= va < slot_end(v, h + 1) implies (
            #[trigger] self.entry_on_path(h, at, va)) == entry_after_map(
                before.entry_on_path(h, at, va),
                va,
                at,
                v,
                desc,
                created,
                base,
                bits,
            ) by {
                lemma_slot((h + 1) as nat, va);
                lemma_same_slot((h + 1) as nat, v, va);
                lemma_slot(h, va);
                let i = index_of(va, h);
                if i != idx {
                    assert(self.0[i] == before.0[i]);
                    assert(self.1@[i] == before.1@[i]);
                    if slot_start(va, at) == slot_start(v, at) {
                        lemma_slot_nested(at, h, va, v);
                    }
                } else {
                    lemma_slot_same_index(h, va, v);
                    lemma_same_slot(h, v, va);
                    child_before.lemma_leaf_height(g, v);
                    if at == h {
                        assert(self.entry_on_path(h, at, va) == entry);
                        assert(before.entry_on_path(h, at, va) == before.0[idx as int]);
                    } else {
                        assert(self.entry_on_path(h, at, va) == child_after.entry_on_path(
                            g,
                            at,
                            va,
                        ));
                        assert(child_after.entry_on_path(g, at, va) == entry_after_map(
                            child_before.entry_on_path(g, at, va),
                            va,
                            at,
                            v,
                            desc,
                            child_before.leaf(g, v).1,
                            base,
                            bits_below,
                        ));
                        if fresh {
                            child_before.lemma_empty(g, va);
                            assert(before.entry_on_path(h, at, va) == 0);
                            if at >= 1 && slot_start(va, at) == slot_start(v, at) {
                                lemma_take_frames_shift(bits, (g - at) as nat);
                                assert(nth_free(bits_below, (g - at) as nat) == nth_free(
                                    bits,
                                    (h - at) as nat,
                                ));
                            }
                        } else {
                            assert(before.entry_on_path(h, at, va) == child_before.entry_on_path(
                                g,
                                at,
                                va,
                            ));
                        }
                    }
                }
            }
        }
    }

    /// Maps the page at `vaddr` to the physical page at `paddr` with the
    /// attributes `attrs`. Tables that are missing on the way are made,
    /// each in a frame of its own. The page must not be mapped yet, and the
    /// allocator must have a frame for each missing table.
    pub fn vmap_at<const SIZE: usize>(
        &mut self,
        vaddr: u64,
        paddr: PhyAddr,
        attrs: u64,
        page_alloc: &mut BitmapPageAlloc<SIZE>,
    )
        requires
            old(self).wf(3),
            vaddr < USER_TOP,
            vaddr % 4096 == 0,
            !old(self).is_mapped(3, vaddr as int),
            old(page_alloc).wf(),
            old(self).leaf(3, vaddr as int).1 <= old(page_alloc).spec_free_count(),
        ensures
            final(self).wf(3),
            final(page_alloc).wf(),
            final(page_alloc).ram_base == old(page_alloc).ram_base,
            final(page_alloc).bits() == take_frames(
                old(page_alloc).bits(),
                old(self).leaf(3, vaddr as int).1,
            ),
            final(self).entry_on_path(3, 0, vaddr as int) == paddr.0 | COMMON_FLAGS | attrs,
            forall|at: nat, va: int|
                at <= 3 && 0 <= va < TABLE_TOP ==> #[trigger] final(self).entry_on_path(3, at, va)
                    == entry_after_map(
                    old(self).entry_on_path(3, at, va),
                    va,
                    at,
                    vaddr as int,
                    paddr.0 | COMMON_FLAGS | attrs,
                    old(self).leaf(3, vaddr as int).1,
                    old(page_alloc).ram_base,
                    old(page_alloc).bits(),
                ),
    {
        let desc = page_descriptor(paddr, attrs);
        proof {
            lemma_slot(4, vaddr as int);
        }
        self.map_in(vaddr, desc, 39, page_alloc);
    }

    /// Tables that have to be made for page `k` of the pages from `v` on,
    /// when the pages before it have been mapped: one for each entry on its
    /// path that is no table descriptor and that none of those pages
    /// shares.
    pub open spec fn fresh_tables(&self, v: int, k: int) -> nat {
        let va = v + k * 4096;
        fresh_one(self.entry_on_path(3, 3, va), first_in_slot(v, k, 3)) + fresh_one(
            self.entry_on_path(3, 2, va),
            first_in_slot(v, k, 2),
        ) + fresh_one(self.entry_on_path(3, 1, va), first_in_slot(v, k, 1))
    }

    /// Tables that have to be made to map the `pages` pages from `v` on.
    pub open spec fn tables_needed(&self, v: int, pages: int) -> nat
        decreases pages,
    {
        if pages <= 0 {
            0
        } else {
            self.tables_needed(v, pages - 1) + self.fresh_tables(v, pages - 1)
        }
    }

    /// Tables that are made for page `k` of the pages from `v` on before
    /// the one under its entry of height `at`: the ones under its entries
    /// further up.
    pub open spec fn fresh_above(&self, v: int, k: int, at: nat) -> nat {
        let va = v + k * 4096;
        (if at < 3 {
            fresh_one(self.entry_on_path(3, 3, va), first_in_slot(v, k, 3))
        } else {
            0
        }) + (if at < 2 {
            fresh_one(self.entry_on_path(3, 2, va), first_in_slot(v, k, 2))
        } else {
            0
        })
    }

    /// The place that the table under the entry of height `at` on the path
    /// of `va` has in the series of tables made to map the pages from `v`
    /// on: behind the tables for the pages before the first one in its slot,
    /// and behind the tables further up for that page.
    pub open spec fn table_order(&self, v: int, at: nat, va: int) -> nat {
        let k = first_page_in_slot(v, at, va);
        self.tables_needed(v, k) + self.fresh_above(v, k, at)
    }

    /// This table is `before` with the `k` pages from `v` on mapped to the
    /// physical pages from `paddr` on, the tables for it taken from an
    /// allocator at `base` with the frame flags `bits`: each of those pages
    /// has its page descriptor and every other page the one it had; an
    /// entry above the lowest level that one of those pages passes and that
    /// was no table descriptor is the descriptor of a new table, in the
    /// frame that its place in the series of allocations gives it; every
    /// other entry above the lowest level is what it was.
    pub open spec fn maps_window(
        &self,
        before: &PageTable,
        v: int,
        k: int,
        paddr: int,
        attrs: u64,
        base: u64,
        bits: Seq<bool>,
    ) -> bool {
        &&& forall|va: int|
            0 <= va < TABLE_TOP ==> #[trigger] self.entry_on_path(3, 0, va) == (if v <= va < v + k
                * 4096 {
                page_entry(paddr + (slot_start(va, 0) - v), attrs)
            } else {
                before.entry_on_path(3, 0, va)
            })
        &&& forall|at: nat, va: int|
            1 <= at <= 3 && 0 <= va < TABLE_TOP ==> #[trigger] self.entry_on_path(3, at, va) == (
            if touched(v, k, at, va) && !entry_is_table(before.entry_on_path(3, at, va)) {
                new_table_entry(base, bits, before.table_order(v, at, va), TABLE_FLAGS)
            } else {
                before.entry_on_path(3, at, va)
            })
    }

    /// The sums of tables needed grow with the number of pages.
    proof fn lemma_tables_needed_mono(&self, v: int, a: int, b: int)
        requires
            a <= b,
        ensures
            self.tables_needed(v, a) <= self.tables_needed(v, b),
        decreases b - a,
    {
        if a < b {
            self.lemma_tables_needed_mono(v, a, b - 1);
        }
    }

    /// With `k` pages of a free window mapped, page `k` is still free, and
    /// the tables missing on its path are the ones counted for it: one
    /// under each of its lowest entries above the pages.
    proof fn lemma_vmap_ready(
        &self,
        before: &PageTable,
        v: int,
        k: int,
        paddr: int,
        attrs: u64,
        base: u64,
        bits: Seq<bool>,
        size: int,
    )
        requires
            self.maps_window(before, v, k, paddr, attrs, base, bits),
            forall|va: int| v <= va < v + size ==> !(#[trigger] before.is_mapped(3, va)),
            0 <= v,
            v % 4096 == 0,
            0 <= k,
            (k + 1) * 4096 <= size,
            v + size <= USER_TOP,
        ensures
            !self.is_mapped(3, v + k * 4096),
            self.leaf(3, v + k * 4096).1 == before.fresh_tables(v, k),
            self.leaf(3, v + k * 4096).1 <= 3,
            forall|at: nat|
                1 <= at <= 3 ==> (#[trigger] fresh_one(
                    before.entry_on_path(3, at, v + k * 4096),
                    first_in_slot(v, k, at),
                ) == 1 <==> at <= self.leaf(3, v + k * 4096).1),
    {
        let va = v + k * 4096;
        before.lemma_unmapped_by_path(3, va);
        assert(!before.is_mapped(3, va));
        assert forall|at: nat| at <= 3 implies path_entry_clear(
            #[trigger] self.entry_on_path(3, at, va),
            at,
        ) by {
            assert(path_entry_clear(before.entry_on_path(3, at, va), at));
            if at >= 1 {
                lemma_new_table_entry(base, bits, before.table_order(v, at, va));
            }
        }
        self.lemma_unmapped_by_path(3, va);
        self.lemma_above_leaf(3, va);
        assert forall|at: nat| 1 <= at <= 3 implies (#[trigger] fresh_one(
            before.entry_on_path(3, at, va),
            first_in_slot(v, k, at),
        ) == 1 <==> at <= self.leaf(3, va).1) by {
            lemma_touched_step(v, k, at, va);
            lemma_new_table_entry(base, bits, before.table_order(v, at, va));
            let e = self.entry_on_path(3, at, va);
            assert(entry_is_table(e) <==> entry_is_table(before.entry_on_path(3, at, va))
                || touched(v, k, at, va));
        }
        assert(fresh_one(before.entry_on_path(3, 3, va), first_in_slot(v, k, 3)) == 1 <==> 3
            <= self.leaf(3, va).1);
        assert(fresh_one(before.entry_on_path(3, 2, va), first_in_slot(v, k, 2)) == 1 <==> 2
            <= self.leaf(3, va).1);
        assert(fresh_one(before.entry_on_path(3, 1, va), first_in_slot(v, k, 1)) == 1 <==> 1
            <= self.leaf(3, va).1);
    }

    /// Mapping page `k` of a window takes the table from `k` pages mapped
    /// to `k + 1` pages mapped.
    proof fn lemma_vmap_step(
        &self,
        before: &PageTable,
        next: &PageTable,
        v: int,
        k: int,
        paddr: int,
        attrs: u64,
        created: nat,
        base: u64,
        bits: Seq<bool>,
        used: nat,
    )
        requires
            self.maps_window(before, v, k, paddr, attrs, base, bits),
            0 <= v,
            v % 4096 == 0,
            0 <= k,
            v + (k + 1) * 4096 <= USER_TOP,
            created == self.leaf(3, v + k * 4096).1,
            created <= 3,
            used == before.tables_needed(v, k),
            forall|at: nat|
                1 <= at <= 3 ==> (#[trigger] fresh_one(
                    before.entry_on_path(3, at, v + k * 4096),
                    first_in_slot(v, k, at),
                ) == 1 <==> at <= created),
            forall|at: nat, va: int|
                at <= 3 && 0 <= va < TABLE_TOP ==> #[trigger] next.entry_on_path(3, at, va)
                    == entry_after_map(
                    self.entry_on_path(3, at, va),
                    va,
                    at,
                    v + k * 4096,
                    page_entry(paddr + k * 4096, attrs),
                    created,
                    base,
                    take_frames(bits, used),
                ),
        ensures
            next.maps_window(before, v, k + 1, paddr, attrs, base, bits),
    {
        let cur = v + k * 4096;
        self.lemma_above_leaf(3, cur);
        assert forall|va: int| 0 <= va < TABLE_TOP implies #[trigger] next.entry_on_path(3, 0, va)
            == (if v <= va < v + (k + 1) * 4096 {
            page_entry(paddr + (slot_start(va, 0) - v), attrs)
        } else {
            before.entry_on_path(3, 0, va)
        }) by {
            lemma_slot(0, va);
            lemma_slot(0, cur);
        }
        let f3 = fresh_one(before.entry_on_path(3, 3, cur), first_in_slot(v, k, 3));
        let f2 = fresh_one(before.entry_on_path(3, 2, cur), first_in_slot(v, k, 2));
        let f1 = fresh_one(before.entry_on_path(3, 1, cur), first_in_slot(v, k, 1));
        assert(f3 == 1 <==> 3 <= created);
        assert(f2 == 1 <==> 2 <= created);
        assert(f1 == 1 <==> 1 <= created);
        assert forall|at: nat, va: int| 1 <= at <= 3 && 0 <= va < TABLE_TOP implies (
        #[trigger] next.entry_on_path(3, at, va)) == (if touched(v, k + 1, at, va)
            && !entry_is_table(before.entry_on_path(3, at, va)) {
            new_table_entry(base, bits, before.table_order(v, at, va), TABLE_FLAGS)
        } else {
            before.entry_on_path(3, at, va)
        }) by {
            lemma_touched_step(v, k, at, va);
            lemma_new_table_entry(base, bits, before.table_order(v, at, va));
            let e = self.entry_on_path(3, at, va);
            assert(e == (if touched(v, k, at, va) && !entry_is_table(
                before.entry_on_path(3, at, va),
            ) {
                new_table_entry(base, bits, before.table_order(v, at, va), TABLE_FLAGS)
            } else {
                before.entry_on_path(3, at, va)
            }));
            if slot_start(va, at) == slot_start(cur, at) {
                self.lemma_path_same_slot(3, at, va, cur);
                before.lemma_path_same_slot(3, at, va, cur);
                if at <= created {
                    assert(!entry_is_table(e));
                    assert(!touched(v, k, at, va));
                    lemma_touched_step(v, k, at, cur);
                    assert(touched(v, k, at, cur) == touched(v, k, at, va));
                    lemma_first_page(v, k, at, va);
                    assert(before.fresh_above(v, k, at) == created - at);
                    assert(before.table_order(v, at, va) == used + (created - at));
                    lemma_take_frames_add(bits, used, (created - at) as nat);
                    assert(nth_free(take_frames(bits, used), (created - at) as nat) == nth_free(
                        bits,
                        before.table_order(v, at, va),
                    ));
                } else {
                    assert(entry_is_table(self.entry_on_path(3, at, cur)));
                }
            }
        }
    }

    /// `maps_window`, kept shut while the pages of a window are mapped one
    /// after another.
    #[verifier::opaque]
    spec fn progress(
        &self,
        before: &PageTable,
        v: int,
        k: int,
        paddr: int,
        attrs: u64,
        base: u64,
        bits: Seq<bool>,
    ) -> bool {
        self.maps_window(before, v, k, paddr, attrs, base, bits)
    }

    /// With no page mapped yet the table is what it was.
    proof fn lemma_progress_start(&self, v: int, paddr: int, attrs: u64, base: u64, bits: Seq<bool>)
        requires
            0 <= v,
        ensures
            self.progress(self, v, 0, paddr, attrs, base, bits),
    {
        reveal(PageTable::progress);
    }

    /// `lemma_vmap_ready` for `progress`.
    proof fn lemma_progress_ready(
        &self,
        before: &PageTable,
        v: int,
        k: int,
        paddr: int,
        attrs: u64,
        base: u64,
        bits: Seq<bool>,
        size: int,
    )
        requires
            self.progress(before, v, k, paddr, attrs, base, bits),
            forall|va: int| v <= va < v + size ==> !(#[trigger] before.is_mapped(3, va)),
            0 <= v,
            v % 4096 == 0,
            0 <= k,
            (k + 1) * 4096 <= size,
            v + size <= USER_TOP,
        ensures
            !self.is_mapped(3, v + k * 4096),
            self.leaf(3, v + k * 4096).1 == before.fresh_tables(v, k),
            before.tables_needed(v, k + 1) == before.tables_needed(v, k) + before.fresh_tables(
                v,
                k,
            ),
    {
        reveal(PageTable::progress);
        self.lemma_vmap_ready(before, v, k, paddr, attrs, base, bits, size);
    }

    /// `lemma_vmap_step` for `progress`.
    proof fn lemma_progress_step(
        &self,
        before: &PageTable,
        next: &PageTable,
        v: int,
        k: int,
        paddr: int,
        attrs: u64,
        created: nat,
        base: u64,
        bits: Seq<bool>,
        used: nat,
        size: int,
    )
        requires
            self.progress(before, v, k, paddr, attrs, base, bits),
            forall|va: int| v <= va < v + size ==> !(#[trigger] before.is_mapped(3, va)),
            0 <= v,
            v % 4096 == 0,
            0 <= k,
            (k + 1) * 4096 <= size,
            v + size <= USER_TOP,
            created == self.leaf(3, v + k * 4096).1,
            used == before.tables_needed(v, k),
            forall|at: nat, va: int|
                at <= 3 && 0 <= va < TABLE_TOP ==> #[trigger] next.entry_on_path(3, at, va)
                    == entry_after_map(
                    self.entry_on_path(3, at, va),
                    va,
                    at,
                    v + k * 4096,
                    page_entry(paddr + k * 4096, attrs),
                    created,
                    base,
                    take_frames(bits, used),
                ),
        ensures
            next.progress(before, v, k + 1, paddr, attrs, base, bits),
    {
        reveal(PageTable::progress);
        self.lemma_vmap_ready(before, v, k, paddr, attrs, base, bits, size);
        self.lemma_vmap_step(before, next, v, k, paddr, attrs, created, base, bits, used);
    }

    /// Maps the `size_bytes` bytes from `vaddr` on to the physical bytes
    /// from `paddr` on, page by page. None of the pages may be mapped yet,
    /// and the allocator must have a frame for each table that is missing.
    pub fn vmap_range<const SIZE: usize>(
        &mut self,
        vaddr: u64,
        paddr: PhyAddr,
        size_bytes: u64,
        attrs: u64,
        page_alloc: &mut BitmapPageAlloc<SIZE>,
    )
        requires
            old(self).wf(3),
            old(page_alloc).wf(),
            size_bytes % 4096 == 0,
            vaddr % 4096 == 0,
            vaddr + size_bytes <= USER_TOP,
            paddr.0 + size_bytes <= u64::MAX,
            forall|va: int|
                vaddr <= va < vaddr + size_bytes ==> !(#[trigger] old(self).is_mapped(3, va)),
            old(self).tables_needed(vaddr as int, size_bytes as int / 4096) <= old(page_alloc).spec_free_count(),
        ensures
            final(self).wf(3),
            final(page_alloc).wf(),
            final(page_alloc).ram_base == old(page_alloc).ram_base,
            final(page_alloc).bits() == take_frames(
                old(page_alloc).bits(),
                old(self).tables_needed(vaddr as int, size_bytes as int / 4096),
            ),
            final(self).maps_window(
                old(self),
                vaddr as int,
                size_bytes as int / 4096,
                paddr.0 as int,
                attrs,
                old(page_alloc).ram_base,
                old(page_alloc).bits(),
            ),
    {
        let ghost before = *self;
        let ghost bits = page_alloc.bits();
        let ghost base = page_alloc.ram_base;
        let ghost v = vaddr as int;
        let ghost pages = size_bytes as int / 4096;
        let ghost free = page_alloc.spec_free_count();
        let ghost phys = paddr.0 as int;
        let mut offset: u64 = 0;
        proof {
            assert(take_frames(bits, 0) == bits);
            before.lemma_progress_start(v, phys, attrs, base, bits);
        }
        while offset < size_bytes
            invariant
                self.wf(3),
                page_alloc.wf(),
                page_alloc.ram_base == base,
                v == vaddr as int,
                phys == paddr.0 as int,
                pages == size_bytes as int / 4096,
                size_bytes % 4096 == 0,
                vaddr % 4096 == 0,
                vaddr + size_bytes <= USER_TOP,
                paddr.0 + size_bytes <= u64::MAX,
                offset % 4096 == 0,
                offset <= size_bytes,
                bits.len() == SIZE * 64,
                free == count_clear(bits, (SIZE * 64) as int),
                before.tables_needed(v, pages) <= free,
                forall|va: int| v <= va < v + size_bytes ==> !(#[trigger] before.is_mapped(3, va)),
                page_alloc.bits() == take_frames(bits, before.tables_needed(v, offset as int / 4096)),
                self.progress(&before, v, offset as int / 4096, phys, attrs, base, bits),
            decreases size_bytes - offset,
        {
            let ghost k = offset as int / 4096;
            let ghost cur = *self;
            let ghost created = before.fresh_tables(v, k);
            let ghost used = before.tables_needed(v, k);
            proof {
                cur.lemma_progress_ready(&before, v, k, phys, attrs, base, bits, size_bytes as int);
                before.lemma_tables_needed_mono(v, k + 1, pages);
                lemma_take_frames_count(bits, used);
            }
            self.vmap_at(vaddr + offset, PhyAddr(paddr.0 + offset), attrs, page_alloc);
            proof {
                lemma_take_frames_add(bits, used, created);
                cur.lemma_progress_step(
                    &before,
                    &*self,
                    v,
                    k,
                    phys,
                    attrs,
                    created,
                    base,
                    bits,
                    used,
                    size_bytes as int,
                );
            }
            offset += 4096;
        }
        proof {
            reveal(PageTable::progress);
        }
    }

    /// Maps the `size_bytes` physical bytes from `paddr` on into the lowest
    /// free window of the user range from `VMAP_BASE` on, and gives the
    /// address of the window. There must be such a window, and the
    /// allocator must have a frame for each table that is missing.
    pub fn vmap<const SIZE: usize>(
        &mut self,
        paddr: PhyAddr,
        size_bytes: u64,
        attrs: u64,
        page_alloc: &mut BitmapPageAlloc<SIZE>,
    ) -> (vaddr: u64)
        requires
            old(self).wf(3),
            old(page_alloc).wf(),
            size_bytes % 4096 == 0,
            paddr.0 + size_bytes <= u64::MAX,
            exists|v: int| old(self).window_free(VMAP_BASE as int, v, size_bytes as int),
            old(self).tables_needed(
                old(self).first_window(VMAP_BASE as int, size_bytes as int),
                size_bytes as int / 4096,
            ) <= old(page_alloc).spec_free_count(),
        ensures
            old(self).is_first_window(VMAP_BASE as int, vaddr as int, size_bytes as int),
            final(self).wf(3),
            final(page_alloc).wf(),
            final(page_alloc).ram_base == old(page_alloc).ram_base,
            final(page_alloc).bits() == take_frames(
                old(page_alloc).bits(),
                old(self).tables_needed(vaddr as int, size_bytes as int / 4096),
            ),
            final(self).maps_window(
                old(self),
                vaddr as int,
                size_bytes as int / 4096,
                paddr.0 as int,
                attrs,
                old(page_alloc).ram_base,
                old(page_alloc).bits(),
            ),
    {
        let found = self.find_hole(VMAP_BASE, size_bytes);
        let vaddr = match found {
            Some(v) => v,
            None => {
                proof {
                    let v = choose|v: int|
                        self.window_free(VMAP_BASE as int, v, size_bytes as int);
                    assert(!self.window_free(VMAP_BASE as int, v, size_bytes as int));
                }
                vstd::pervasive::unreached()
            },
        };
        proof {
            self.lemma_first_window(VMAP_BASE as int, vaddr as int, size_bytes as int);
        }
        self.vmap_range(vaddr, paddr, size_bytes, attrs, page_alloc);
        vaddr
    }

    /// Counts the tables that have to be made to map the `size_bytes` bytes
    /// from `vaddr` on.
    pub fn count_tables_needed(&self, vaddr: u64, size_bytes: u64) -> (r: u64)
        requires
            self.wf(3),
            vaddr % 4096 == 0,
            size_bytes % 4096 == 0,
            vaddr + size_bytes <= USER_TOP,
        ensures
            r == self.tables_needed(vaddr as int, size_bytes as int / 4096),
    {
        let ghost v = vaddr as int;
        let mut n: u64 = 0;
        let mut offset: u64 = 0;
        while offset < size_bytes
            invariant
                self.wf(3),
                v == vaddr as int,
                vaddr % 4096 == 0,
                size_bytes % 4096 == 0,
                vaddr + size_bytes <= USER_TOP,
                offset % 4096 == 0,
                offset <= size_bytes,
                n == self.tables_needed(v, offset as int / 4096),
                n <= 3 * (offset as int / 4096),
            decreases size_bytes - offset,
        {
            let ghost k = offset as int / 4096;
            let va = vaddr + offset;
            let mut level: usize = 1;
            let mut fresh: u64 = 0;
            while level <= 3
                invariant
                    self.wf(3),
                    1 <= level <= 4,
                    v == vaddr as int,
                    va == v + k * 4096,
                    k == offset as int / 4096,
                    offset % 4096 == 0,
                    fresh <= level - 1,
                    fresh == (if level > 1 {
                        fresh_one(self.entry_on_path(3, 1, va as int), first_in_slot(v, k, 1))
                    } else {
                        0
                    }) + (if level > 2 {
                        fresh_one(self.entry_on_path(3, 2, va as int), first_in_slot(v, k, 2))
                    } else {
                        0
                    }) + (if level > 3 {
                        fresh_one(self.entry_on_path(3, 3, va as int), first_in_slot(v, k, 3))
                    } else {
                        0
                    }),
                decreases 4 - level,
            {
                let entry = self.entry_at(va, level);
                let first = if offset == 0 {
                    true
                } else {
                    slot_base(va, 12 + 9 * level) != slot_base(va - 4096, 12 + 9 * level)
                };
                if entry & 2 == 0 && first {
                    fresh += 1;
                }
                level += 1;
            }
            n += fresh;
            offset += 4096;
        }
        n
    }

    /// As `vmap`, but where there is no window or the allocator lacks a
    /// frame for a table, nothing changes and the error is `OOM`.
    pub fn try_vmap<const SIZE: usize>(
        &mut self,
        paddr: PhyAddr,
        size_bytes: u64,
        attrs: u64,
        page_alloc: &mut BitmapPageAlloc<SIZE>,
    ) -> (r: Result<u64, KError>)
        requires
            old(self).wf(3),
            old(page_alloc).wf(),
            size_bytes % 4096 == 0,
            paddr.0 + size_bytes <= u64::MAX,
        ensures
            final(self).wf(3),
            final(page_alloc).wf(),
            final(page_alloc).ram_base == old(page_alloc).ram_base,
            r is Ok <==> (exists|v: int|
                old(self).window_free(VMAP_BASE as int, v, size_bytes as int)) && old(self).tables_needed(
                old(self).first_window(VMAP_BASE as int, size_bytes as int),
                size_bytes as int / 4096,
            ) <= old(page_alloc).spec_free_count(),
            match r {
                Ok(vaddr) => {
                    &&& old(self).is_first_window(
                        VMAP_BASE as int,
                        vaddr as int,
                        size_bytes as int,
                    )
                    &&& final(page_alloc).bits() == take_frames(
                        old(page_alloc).bits(),
                        old(self).tables_needed(vaddr as int, size_bytes as int / 4096),
                    )
                    &&& final(self).maps_window(
                        old(self),
                        vaddr as int,
                        size_bytes as int / 4096,
                        paddr.0 as int,
                        attrs,
                        old(page_alloc).ram_base,
                        old(page_alloc).bits(),
                    )
                },
                Err(e) => {
                    &&& e == KError::OOM
                    &&& *final(self) == *old(self)
                    &&& *final(page_alloc) == *old(page_alloc)
                },
            },
    {
        match self.find_hole(VMAP_BASE, size_bytes) {
            None => {
                proof {
                    if exists|v: int| self.window_free(VMAP_BASE as int, v, size_bytes as int) {
                        let v = choose|v: int|
                            self.window_free(VMAP_BASE as int, v, size_bytes as int);
                        assert(!self.window_free(VMAP_BASE as int, v, size_bytes as int));
                    }
                }
                Err(KError::OOM)
            },
            Some(vaddr) => {
                proof {
                    self.lemma_first_window(VMAP_BASE as int, vaddr as int, size_bytes as int);
                }
                let need = self.count_tables_needed(vaddr, size_bytes);
                let free = page_alloc.free_count();
                if need > free as u64 {
                    Err(KError::OOM)
                } else {
                    self.vmap_range(vaddr, paddr, size_bytes, attrs, page_alloc);
                    Ok(vaddr)
                }
            },
        }
    }
}

} // verus!
