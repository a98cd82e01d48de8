//! Measuring runs of allocated or free virtual memory, and finding a free
//! window.
use crate::layout::{
    index_of, lemma_next_slot, lemma_same_slot, lemma_slot, shift_height, slot_end, slot_rest,
    table_index, valid_shift,
};
use crate::mmu::{entry_is_table, ContiguousRegion, PageGetResult, PageTable, TABLE_TOP, USER_TOP};
use vstd::prelude::*;

verus! {

/// The run of `len` bytes of the given kind.
pub open spec fn region(allocated: bool, len: u64) -> ContiguousRegion {
    if allocated {
        ContiguousRegion::Allocated { len_bytes: len }
    } else {
        ContiguousRegion::Free { len_bytes: len }
    }
}

/// The cap that applies to a run of the given kind.
pub open spec fn cap_of(allocated: bool, max_alloc: int, max_free: int) -> int {
    if allocated {
        max_alloc
    } else {
        max_free
    }
}

/// What is left of a cap after `used` bytes.
pub open spec fn sub_cap(cap: int, used: int) -> int {
    if cap > used {
        cap - used
    } else {
        0
    }
}

impl PageTable {
    /// `r` is the run that starts at `start` and is measured inside the
    /// `span(within)`-sized slot around `start`: it is not empty; it is
    /// allocated exactly if `start` is; every address in it is of that one
    /// kind; it ends on the boundary of the entry that holds its last byte;
    /// it ends at the end of the slot, or where the kind changes, or when
    /// its length has reached the cap of its kind; and it had not reached
    /// that cap before the entry that holds its last byte was added.
    pub open spec fn run_ok(
        &self,
        h: nat,
        within: nat,
        start: int,
        max_alloc: int,
        max_free: int,
        r: ContiguousRegion,
    ) -> bool {
        let mapped = self.is_mapped(h, start);
        let len = r.len();
        let cap = cap_of(mapped, max_alloc, max_free);
        let last = start + len - 1;
        &&& len > 0
        &&& (r is Allocated) == mapped
        &&& forall|va: int| start <= va < start + len ==> #[trigger] self.is_mapped(h, va) == mapped
        &&& start + len <= slot_end(start, within)
        &&& start + len == self.leaf_end(h, last)
        &&& (start + len == slot_end(start, within) || self.is_mapped(h, start + len) != mapped
            || len >= cap)
        &&& (self.leaf_start(h, last) <= start || self.leaf_start(h, last) - start < cap)
    }

    /// `r` is the run that `measure_contiguous_region` finds at `start` in
    /// a table of height `h`.
    pub open spec fn measured(
        &self,
        h: nat,
        start: int,
        max_alloc: int,
        max_free: int,
        r: ContiguousRegion,
    ) -> bool {
        self.run_ok(h, h + 1, start, max_alloc, max_free, r)
    }

    /// The part of a run that has been measured so far, when it is not
    /// empty and has not reached its cap.
    spec fn prefix_ok(
        &self,
        h: nat,
        start: int,
        cur: int,
        kind: bool,
        max_alloc: int,
        max_free: int,
    ) -> bool {
        &&& start < cur
        &&& kind == self.is_mapped(h, start)
        &&& forall|va: int| start <= va < cur ==> #[trigger] self.is_mapped(h, va) == kind
        &&& cur == self.leaf_end(h, cur - 1)
        &&& cur - start < cap_of(kind, max_alloc, max_free)
    }

    /// An entry that is free or a block is one run from any address in it
    /// to its end.
    proof fn lemma_leaf_segment(&self, h: nat, cur: int, max_alloc: int, max_free: int)
        requires
            h <= 3,
            0 <= cur,
            !(h > 0 && entry_is_table(self.0[index_of(cur, h)])),
        ensures
            self.run_ok(
                h,
                h,
                cur,
                max_alloc,
                max_free,
                region(self.0[index_of(cur, h)] != 0, (slot_end(cur, h) - cur) as u64),
            ),
    {
        lemma_slot(h, cur);
        let e = self.0[index_of(cur, h)];
        let end = slot_end(cur, h);
        assert forall|va: int| cur <= va < end implies self.leaf(h, va) == (e, h) by {
            lemma_same_slot(h, cur, va);
        }
        lemma_same_slot(h, cur, end - 1);
        assert(self.is_mapped(h, cur) == (e != 0));
        assert forall|va: int| cur <= va < end implies #[trigger] self.is_mapped(h, va) == (e
            != 0) by {
            assert(self.leaf(h, va) == (e, h));
        }
    }

    /// A run measured in the table that an entry owns is the same run in
    /// the table that holds the entry.
    proof fn lemma_inner_segment(
        &self,
        h: nat,
        cur: int,
        max_alloc: int,
        max_free: int,
        r: ContiguousRegion,
    )
        requires
            0 < h <= 3,
            0 <= cur,
            entry_is_table(self.0[index_of(cur, h)]),
            self.1@[index_of(cur, h)]->0.run_ok((h - 1) as nat, h, cur, max_alloc, max_free, r),
        ensures
            self.run_ok(h, h, cur, max_alloc, max_free, r),
    {
        lemma_slot(h, cur);
        let inner = self.1@[index_of(cur, h)]->0;
        let g = (h - 1) as nat;
        let end = slot_end(cur, h);
        assert forall|va: int| cur <= va < end implies self.leaf(h, va) == inner.leaf(g, va) by {
            lemma_same_slot(h, cur, va);
        }
        let len = r.len();
        assert(self.leaf(h, cur) == inner.leaf(g, cur));
        assert(self.leaf(h, cur + len - 1) == inner.leaf(g, cur + len - 1));
        assert forall|va: int| cur <= va < cur + len implies #[trigger] self.is_mapped(h, va)
            == self.is_mapped(h, cur) by {
            assert(self.leaf(h, va) == inner.leaf(g, va));
            assert(inner.is_mapped(g, va) == inner.is_mapped(g, cur));
        }
        if cur + len < end {
            assert(self.leaf(h, cur + len) == inner.leaf(g, cur + len));
        }
    }

    /// What has been measured so far is the whole run when the kind changes
    /// behind it or the table ends there.
    proof fn lemma_run_stops(
        &self,
        h: nat,
        start: int,
        cur: int,
        kind: bool,
        max_alloc: int,
        max_free: int,
    )
        requires
            h <= 3,
            0 <= start,
            self.prefix_ok(h, start, cur, kind, max_alloc, max_free),
            cur <= slot_end(start, h + 1),
            cur - start <= u64::MAX,
            kind != self.is_mapped(h, cur) || cur == slot_end(start, h + 1),
        ensures
            self.run_ok(h, h + 1, start, max_alloc, max_free, region(kind, (cur - start) as u64)),
    {
        self.lemma_leaf_height(h, cur - 1);
        lemma_slot(self.leaf(h, cur - 1).1, cur - 1);
    }

    /// What has been measured so far together with the run measured in the
    /// next entry: either the whole run, or again a run that goes on.
    proof fn lemma_run_extends(
        &self,
        h: nat,
        start: int,
        cur: int,
        kind: bool,
        max_alloc: int,
        max_free: int,
        seg: ContiguousRegion,
    )
        requires
            h <= 3,
            0 <= start <= cur,
            cur - start <= u64::MAX,
            slot_end(cur, h + 1) == slot_end(start, h + 1),
            cur > start ==> self.prefix_ok(h, start, cur, kind, max_alloc, max_free),
            cur > start ==> kind == (seg is Allocated),
            self.run_ok(
                h,
                h,
                cur,
                sub_cap(max_alloc, cur - start),
                sub_cap(max_free, cur - start),
                seg,
            ),
            cur - start + seg.len() <= u64::MAX,
        ensures
            ({
                let k = seg is Allocated;
                let total = cur - start + seg.len();
                if cur + seg.len() < slot_end(cur, h) || total >= cap_of(k, max_alloc, max_free)
                    || slot_end(cur, h) == slot_end(start, h + 1) {
                    self.run_ok(h, h + 1, start, max_alloc, max_free, region(k, total as u64))
                } else {
                    self.prefix_ok(h, start, cur + seg.len(), k, max_alloc, max_free)
                }
            }),
    {
        let k = seg is Allocated;
        let len = seg.len();
        let last = cur + len - 1;
        lemma_slot(h, cur);
        lemma_slot(h + 1, cur);
        self.lemma_leaf_height(h, last);
        lemma_slot(self.leaf(h, last).1, last);
        assert(k == self.is_mapped(h, start));
        assert forall|va: int| start <= va < cur + len implies #[trigger] self.is_mapped(h, va)
            == k by {
            if va < cur {
            } else {
                assert(self.is_mapped(h, va) == self.is_mapped(h, cur));
            }
        }
    }

    /// Measures the run that starts at `start_vaddr` inside this table,
    /// which indexes addresses by `addr_shift`.
    fn measure_contiguous_region_helper(
        &self,
        start_vaddr: u64,
        max_alloc_bytes: u64,
        max_free_bytes: u64,
        addr_shift: usize,
    ) -> (r: ContiguousRegion)
        requires
            valid_shift(addr_shift),
            self.wf(shift_height(addr_shift)),
            start_vaddr < TABLE_TOP,
        ensures
            self.measured(
                shift_height(addr_shift),
                start_vaddr as int,
                max_alloc_bytes as int,
                max_free_bytes as int,
                r,
            ),
        decreases addr_shift,
    {
        let ghost h = shift_height(addr_shift);
        let ghost start = start_vaddr as int;
        let ghost table_end = slot_end(start, h + 1);
        let ghost ma = max_alloc_bytes as int;
        let ghost mf = max_free_bytes as int;
        let mut current_vaddr = start_vaddr;
        let mut current_len: u64 = 0;
        let mut is_allocated = false;
        let mut idx = table_index(start_vaddr, addr_shift);
        proof {
            lemma_slot(h, start);
            lemma_slot(h + 1, start);
        }
        while idx < 512
            invariant
                valid_shift(addr_shift),
                h == shift_height(addr_shift),
                self.wf(h),
                start == start_vaddr as int,
                ma == max_alloc_bytes as int,
                mf == max_free_bytes as int,
                table_end == slot_end(start, h + 1),
                table_end <= TABLE_TOP,
                idx <= 512,
                current_vaddr == start + current_len,
                idx < 512 ==> idx == index_of(current_vaddr as int, h) && slot_end(
                    current_vaddr as int,
                    h + 1,
                ) == table_end && current_vaddr < table_end,
                idx == 512 ==> current_vaddr == table_end && current_len > 0,
                current_len > 0 ==> self.prefix_ok(
                    h,
                    start,
                    current_vaddr as int,
                    is_allocated,
                    ma,
                    mf,
                ),
            decreases 512 - idx,
        {
            let ghost cur = current_vaddr as int;
            let rest = slot_rest(current_vaddr, addr_shift);
            let inner_alloc = if max_alloc_bytes > current_len {
                max_alloc_bytes - current_len
            } else {
                0
            };
            let inner_free = if max_free_bytes > current_len {
                max_free_bytes - current_len
            } else {
                0
            };
            proof {
                lemma_slot(h, cur);
                lemma_slot(h + 1, cur);
            }
            let seg = match self.get(idx) {
                PageGetResult::Free => {
                    proof {
                        assert(0u64 & 2 == 0) by (bit_vector);
                        self.lemma_leaf_segment(h, cur, inner_alloc as int, inner_free as int);
                    }
                    ContiguousRegion::Free { len_bytes: rest }
                },
                PageGetResult::Block => {
                    proof {
                        self.lemma_leaf_segment(h, cur, inner_alloc as int, inner_free as int);
                    }
                    ContiguousRegion::Allocated { len_bytes: rest }
                },
                PageGetResult::PageTable(inner_table) => {
                    let inner = inner_table.measure_contiguous_region_helper(
                        current_vaddr,
                        inner_alloc,
                        inner_free,
                        addr_shift - 9,
                    );
                    proof {
                        self.lemma_inner_segment(
                            h,
                            cur,
                            inner_alloc as int,
                            inner_free as int,
                            inner,
                        );
                    }
                    inner
                },
            };
            let (kind, seg_len) = match seg {
                ContiguousRegion::Allocated { len_bytes } => (true, len_bytes),
                ContiguousRegion::Free { len_bytes } => (false, len_bytes),
            };
            if current_len != 0 && kind != is_allocated {
                proof {
                    self.lemma_run_stops(h, start, cur, is_allocated, ma, mf);
                }
                if is_allocated {
                    return ContiguousRegion::Allocated { len_bytes: current_len };
                } else {
                    return ContiguousRegion::Free { len_bytes: current_len };
                }
            }
            proof {
                self.lemma_run_extends(h, start, cur, is_allocated, ma, mf, seg);
            }
            is_allocated = kind;
            if seg_len != rest {
                if is_allocated {
                    return ContiguousRegion::Allocated { len_bytes: current_len + seg_len };
                } else {
                    return ContiguousRegion::Free { len_bytes: current_len + seg_len };
                }
            }
            current_len += rest;
            current_vaddr += rest;
            if is_allocated && current_len >= max_alloc_bytes {
                return ContiguousRegion::Allocated { len_bytes: current_len };
            } else if !is_allocated && current_len >= max_free_bytes {
                return ContiguousRegion::Free { len_bytes: current_len };
            }
            proof {
                if idx < 511 {
                    lemma_next_slot(h, cur);
                }
            }
            idx += 1;
        }
        proof {
            self.lemma_run_stops(h, start, current_vaddr as int, is_allocated, ma, mf);
        }
        if is_allocated {
            ContiguousRegion::Allocated { len_bytes: current_len }
        } else {
            ContiguousRegion::Free { len_bytes: current_len }
        }
    }

    /// Measures the run of virtual memory that starts at `start_vaddr` and
    /// is either allocated or free throughout. A free entry or a block
    /// counts whole without a look below it. The run ends where the kind
    /// changes, at the end of the table, or at the end of the first entry
    /// with which its length reaches the cap of its kind.
    pub fn measure_contiguous_region(
        &self,
        start_vaddr: u64,
        max_alloc_bytes: u64,
        max_free_bytes: u64,
    ) -> (r: ContiguousRegion)
        requires
            self.wf(3),
            start_vaddr < TABLE_TOP,
        ensures
            self.measured(3, start_vaddr as int, max_alloc_bytes as int, max_free_bytes as int, r),
    {
        self.measure_contiguous_region_helper(start_vaddr, max_alloc_bytes, max_free_bytes, 39)
    }

    /// `[v, v + size)` is a place for a mapping searched from `start`: `v`
    /// is page-aligned and not below `start`, the window ends inside the
    /// user range, and every address in it is free. A window of no bytes
    /// counts as one of one byte.
    pub open spec fn window_free(&self, start: int, v: int, size: int) -> bool {
        let n = if size > 0 {
            size
        } else {
            1
        };
        &&& v % 4096 == 0
        &&& start <= v
        &&& v + n <= USER_TOP
        &&& forall|va: int| v <= va < v + n ==> !(#[trigger] self.is_mapped(3, va))
    }

    /// The lowest page-aligned address from `start_vaddr` on at which
    /// `size_bytes` bytes of the user range are free, if there is one.
    pub fn find_hole(&self, start_vaddr: u64, size_bytes: u64) -> (r: Option<u64>)
        requires
            self.wf(3),
        ensures
            match r {
                Some(v) => self.is_first_window(start_vaddr as int, v as int, size_bytes as int),
                None => forall|w: int|
                    !self.window_free(start_vaddr as int, w, size_bytes as int),
            },
    {
        if start_vaddr >= USER_TOP {
            return None;
        }
        let need = if size_bytes == 0 {
            1
        } else {
            size_bytes
        };
        let ghost start = start_vaddr as int;
        let ghost size = size_bytes as int;
        let mut current_vaddr = start_vaddr + (4096 - start_vaddr % 4096) % 4096;
        while current_vaddr < USER_TOP
            invariant
                self.wf(3),
                start == start_vaddr as int,
                size == size_bytes as int,
                need == (if size_bytes == 0 {
                    1
                } else {
                    size_bytes
                }),
                current_vaddr % 4096 == 0,
                start <= current_vaddr <= TABLE_TOP,
                forall|w: int| w < current_vaddr ==> !self.window_free(start, w, size),
            decreases TABLE_TOP - current_vaddr,
        {
            let ghost cur = current_vaddr as int;
            let found = self.measure_contiguous_region(current_vaddr, u64::MAX, size_bytes);
            proof {
                let last = cur + found.len() - 1;
                self.lemma_leaf_height(3, last);
                lemma_slot(self.leaf(3, last).1, last);
                lemma_slot(4, cur);
            }
            match found {
                ContiguousRegion::Allocated { len_bytes } => {
                    proof {
                        assert forall|w: int| w < cur + len_bytes implies !self.window_free(
                            start,
                            w,
                            size,
                        ) by {
                            if w >= cur {
                                assert(self.is_mapped(3, w));
                            }
                        }
                    }
                    current_vaddr += len_bytes;
                },
                ContiguousRegion::Free { len_bytes } => {
                    if len_bytes >= need {
                        if USER_TOP - current_vaddr >= need {
                            proof {
                                assert forall|va: int| cur <= va < cur + need implies !(
                                #[trigger] self.is_mapped(3, va)) by {}
                            }
                            return Some(current_vaddr);
                        } else {
                            return None;
                        }
                    }
                    proof {
                        assert forall|w: int| w < cur + len_bytes implies !self.window_free(
                            start,
                            w,
                            size,
                        ) by {
                            if w >= cur && w + need <= USER_TOP {
                                assert(self.is_mapped(3, cur + len_bytes));
                            }
                        }
                    }
                    current_vaddr += len_bytes;
                },
            }
        }
        None
    }

    /// `v` is the lowest place for a mapping of `size` bytes searched from
    /// `start`.
    pub open spec fn is_first_window(&self, start: int, v: int, size: int) -> bool {
        &&& self.window_free(start, v, size)
        &&& forall|w: int| w < v ==> !self.window_free(start, w, size)
    }

    /// The lowest place for a mapping of `size` bytes searched from
    /// `start`, where there is one.
    pub open spec fn first_window(&self, start: int, size: int) -> int {
        choose|v: int| self.is_first_window(start, v, size)
    }

    /// There is only one lowest window.
    pub proof fn lemma_first_window(&self, start: int, v: int, size: int)
        requires
            self.is_first_window(start, v, size),
        ensures
            self.first_window(start, size) == v,
    {
        let w = self.first_window(start, size);
        assert(self.is_first_window(start, w, size));
        if w < v {
            assert(!self.window_free(start, w, size));
        } else if v < w {
            assert(!self.window_free(start, v, size));
        }
    }
}

} // verus!
