//! Unmapping pages.
use crate::layout::{
    index_of, lemma_same_slot, lemma_slot, lemma_slot_fixed, lemma_slot_nested, lemma_slot_order,
    lemma_slot_same_index, lemma_slot_up, page_in_range, shift_height, slot_end, slot_rest,
    slot_start, table_index, valid_shift,
};
use crate::mmu::{entry_is_table, PageTable, TABLE_TOP};
use vstd::prelude::*;

verus! {

impl PageTable {
    /// Clears the entry of the page at `vaddr` in this table, which indexes
    /// addresses by `addr_shift`, if a table for it is there. Where none is
    /// there, no page is mapped up to the end of the entry at which the
    /// translation ends. Gives the address up to which all is clear.
    fn unmap_in(&mut self, vaddr: u64, addr_shift: usize) -> (r: u64)
        requires
            valid_shift(addr_shift),
            old(self).wf(shift_height(addr_shift)),
            vaddr < TABLE_TOP,
        ensures
            final(self).wf(shift_height(addr_shift)),
            slot_end(vaddr as int, 0) <= r <= slot_end(vaddr as int, shift_height(addr_shift)),
            r % 4096 == 0,
            forall|va: int|
                slot_end(vaddr as int, 0) <= va < r ==> #[trigger] old(self).entry_on_path(
                    shift_height(addr_shift),
                    0,
                    va,
                ) == 0,
            forall|at: nat, va: int|
                at <= shift_height(addr_shift) && slot_start(
                    vaddr as int,
                    shift_height(addr_shift) + 1,
                ) <= va < slot_end(vaddr as int, shift_height(addr_shift) + 1)
                    ==> #[trigger] final(self).entry_on_path(shift_height(addr_shift), at, va)
                    == (if at == 0 && slot_start(va, 0) == slot_start(vaddr as int, 0) {
                    0
                } else {
                    old(self).entry_on_path(shift_height(addr_shift), at, va)
                }),
        decreases addr_shift,
    {
        let ghost h = shift_height(addr_shift);
        let ghost v = vaddr as int;
        let ghost before = *self;
        let idx = table_index(vaddr, addr_shift);
        proof {
            lemma_slot(h, v);
            lemma_slot(h + 1, v);
            lemma_slot(0, v);
            lemma_slot_order(0, slot_start(v, h), v);
        }
        if addr_shift == 12 {
            self.0[idx] = 0;
            proof {
                assert forall|i: int| 0 <= i < 512 implies (#[trigger] self.1@[i]) is None by {
                    assert(before.1@[i] is None);
                }
                assert forall|at: nat, va: int|
                    at <= h && slot_start(v, h + 1) <= va < slot_end(v, h + 1) implies (
                #[trigger] self.entry_on_path(h, at, va)) == (if at == 0 && slot_start(va, 0)
                    == slot_start(v, 0) {
                    0
                } else {
                    before.entry_on_path(h, at, va)
                }) by {
                    lemma_slot(0, va);
                    lemma_slot(1, va);
                    lemma_same_slot(1, v, va);
                    if index_of(va, 0) == idx {
                        lemma_slot_same_index(0, va, v);
                    } else {
                        if slot_start(va, 0) == slot_start(v, 0) {
                            lemma_slot_up(0, va, v);
                        }
                    }
                }
            }
            return vaddr + slot_rest(vaddr, addr_shift);
        }
        let next = match &mut self.1[idx] {
            Some(child) => child.unmap_in(vaddr, addr_shift - 9),
            None => vaddr + slot_rest(vaddr, addr_shift),
        };
        proof {
            let g = (h - 1) as nat;
            lemma_slot(g, v);
            assert(self.0 == before.0);
            assert forall|i: int| 0 <= i < 512 implies if h > 0 && entry_is_table(self.0[i]) {
                &&& (#[trigger] self.1@[i]) is Some
                &&& self.1@[i]->0.wf((h - 1) as nat)
            } else {
                self.1@[i] is None
            } by {
                if i != idx {
                    assert(self.1@[i] == before.1@[i]);
                } else {
                    assert(before.1@[i] is Some <==> self.1@[i] is Some);
                }
            }
            assert forall|va: int| slot_end(v, 0) <= va < next implies #[trigger] before.entry_on_path(
                h,
                0,
                va,
            ) == 0 by {
                lemma_same_slot(h, v, va);
                if entry_is_table(before.0[idx as int]) {
                    let child_before = *before.1@[idx as int]->0;
                    assert(before.entry_on_path(h, 0, va) == child_before.entry_on_path(g, 0, va));
                }
            }
            assert forall|at: nat, va: int|
                at <= h && slot_start(v, h + 1) <= va < slot_end(v, h + 1) implies (
            #[trigger] self.entry_on_path(h, at, va)) == (if at == 0 && slot_start(va, 0)
                == slot_start(v, 0) {
                0
            } else {
                before.entry_on_path(h, at, va)
            }) by {
                lemma_slot((h + 1) as nat, va);
                lemma_same_slot((h + 1) as nat, v, va);
                lemma_slot(h, va);
                let i = index_of(va, h);
                if i != idx {
                    assert(self.1@[i] == before.1@[i]);
                    if slot_start(va, 0) == slot_start(v, 0) {
                        lemma_slot_nested(0, h, va, v);
                    }
                } else {
                    lemma_slot_same_index(h, va, v);
                    lemma_same_slot(h, v, va);
                    if at < h && entry_is_table(self.0[i]) {
                        let child_before = *before.1@[i]->0;
                        let child_after = *self.1@[i]->0;
                        assert(self.entry_on_path(h, at, va) == child_after.entry_on_path(
                            g,
                            at,
                            va,
                        ));
                        assert(before.entry_on_path(h, at, va) == child_before.entry_on_path(
                            g,
                            at,
                            va,
                        ));
                    }
                }
            }
        }
        next
    }

    /// Clears the page entries of every page that has a byte in
    /// `[vaddr, vaddr + size_bytes)`. Tables stay where they are, empty or
    /// not, and so do blocks.
    pub fn vunmap(&mut self, vaddr: u64, size_bytes: u64)
        requires
            old(self).wf(3),
            vaddr + size_bytes <= TABLE_TOP,
        ensures
            final(self).wf(3),
            forall|at: nat, va: int|
                at <= 3 && 0 <= va < TABLE_TOP ==> #[trigger] final(self).entry_on_path(3, at, va)
                    == (if at == 0 && page_in_range(va, vaddr as int, size_bytes as int) {
                    0
                } else {
                    old(self).entry_on_path(3, at, va)
                }),
    {
        if size_bytes == 0 {
            return ;
        }
        let ghost before = *self;
        let ghost v = vaddr as int;
        let ghost size = size_bytes as int;
        let end = vaddr + size_bytes;
        let mut page = vaddr - vaddr % 4096;
        proof {
            lemma_slot(0, v);
            assert forall|va: int| 0 <= va && page_in_range(va, v, size) implies slot_start(va, 0)
                >= page by {
                lemma_slot_order(0, slot_start(v, 0), va);
                lemma_slot_fixed(0, v);
            }
        }
        while page < end
            invariant
                self.wf(3),
                end == vaddr + size_bytes,
                v == vaddr as int,
                size == size_bytes as int,
                size_bytes > 0,
                end <= TABLE_TOP,
                page % 4096 == 0,
                page >= slot_start(v, 0),
                page <= TABLE_TOP,
                forall|at: nat, va: int|
                    at <= 3 && 0 <= va < TABLE_TOP ==> #[trigger] self.entry_on_path(3, at, va)
                        == (if at == 0 && page_in_range(va, v, size) && slot_start(va, 0) < page {
                        0
                    } else {
                        before.entry_on_path(3, at, va)
                    }),
            decreases TABLE_TOP - page,
        {
            let ghost mid = *self;
            let ghost p = page as int;
            proof {
                lemma_slot(4, p);
                lemma_slot(3, p);
                lemma_slot(0, p);
                assert(slot_start(p, 0) == p);
                assert(slot_end(p, 0) == p + 4096);
            }
            let next = self.unmap_in(page, 39);
            proof {
                assert(p + 4096 <= next <= TABLE_TOP);
                assert forall|at: nat, va: int| at <= 3 && 0 <= va < TABLE_TOP implies (
                #[trigger] self.entry_on_path(3, at, va)) == (if at == 0 && page_in_range(
                    va,
                    v,
                    size,
                ) && slot_start(va, 0) < next {
                    0
                } else {
                    before.entry_on_path(3, at, va)
                }) by {
                    lemma_slot(0, va);
                    let s = slot_start(va, 0);
                    assert(s <= va < s + 4096);
                    assert(s % 4096 == 0);
                    assert(mid.entry_on_path(3, at, va) == (if at == 0 && page_in_range(va, v, size)
                        && s < p {
                        0
                    } else {
                        before.entry_on_path(3, at, va)
                    }));
                    assert(self.entry_on_path(3, at, va) == (if at == 0 && s == p {
                        0
                    } else {
                        mid.entry_on_path(3, at, va)
                    }));
                    if at == 0 {
                        if s == p {
                            assert(page_in_range(va, v, size));
                        } else if s > p {
                            assert(s >= p + 4096);
                            if s < next {
                                assert(s + 4096 <= next);
                                assert(mid.entry_on_path(3, 0, va) == 0);
                            }
                        }
                    }
                }
            }
            page = next;
        }
        proof {
            assert forall|at: nat, va: int| at <= 3 && 0 <= va < TABLE_TOP implies (
            #[trigger] self.entry_on_path(3, at, va)) == (if at == 0 && page_in_range(
                va,
                v,
                size,
            ) {
                0
            } else {
                before.entry_on_path(3, at, va)
            }) by {}
        }
    }
}

} // verus!
