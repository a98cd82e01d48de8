//! The four-level translation table.
//!
//! A table has 512 entries. An entry is free (zero), a block (bit 1 clear),
//! or a table descriptor (bit 1 set) whose table the entry owns. A table of
//! height `h` stands `h` levels above the tables whose entries describe
//! single pages: the top-level table has height 3, and an entry of a table
//! of height `h` covers `span(h)` bytes.
use crate::layout::{
    index_of, lemma_slot, lemma_slot_nested, shift_height, slot_end, slot_start, table_index,
    valid_shift,
};
use crate::page_alloc::{PageResident, PhyAddr};
use vstd::prelude::*;

pub mod boot;
pub mod map;
pub mod measure;
pub mod unmap;

verus! {

/// Descriptor of a page, or of a table: present, and not a block.
pub const PT_PAGE: u64 = 0b11;

/// Descriptor of a block: present.
pub const PT_BLOCK: u64 = 0b01;

/// Accessed flag. An access through a descriptor without it faults.
pub const PT_AF: u64 = 0x400;

/// Readable and writable by the kernel only.
pub const PT_RW_EL1: u64 = 0x00;

/// Readable and writable by the kernel and by the user.
pub const PT_RW_EL0: u64 = 0x40;

/// Readable by the kernel only.
pub const PT_RO_EL1: u64 = 0x80;

/// Readable by the kernel and by the user.
pub const PT_RO_EL0: u64 = 0xc0;

/// Inner shareable.
pub const PT_ISH: u64 = 0x300;

/// Normal memory.
pub const PT_MEM: u64 = 0x0;

/// Device memory.
pub const PT_DEV: u64 = 0x4;

/// Flags of every page descriptor: present, mapped by pages, accessed.
pub const COMMON_FLAGS: u64 = 0x403;

/// Flags of every table descriptor: a page descriptor's, inner shareable,
/// normal memory.
pub const TABLE_FLAGS: u64 = 0x703;

/// The bits of a descriptor that hold a physical address.
pub const ADDR_MASK: u64 = 0x0000_ffff_ffff_f000;

/// First address above the range that user mappings may use.
pub const USER_TOP: u64 = 0x80_0000_0000;

/// First address above the range that a top-level table translates.
pub const TABLE_TOP: u64 = 0x1_0000_0000_0000;

/// Lowest address at which `vmap` places a mapping.
pub const VMAP_BASE: u64 = 0x5000_0000;

/// The entry is free.
pub open spec fn entry_is_free(raw: u64) -> bool {
    raw == 0
}

/// The entry is a table descriptor, or in a table of pages a page
/// descriptor.
pub open spec fn entry_is_table(raw: u64) -> bool {
    raw & 2 != 0
}

/// The entry is a block.
pub open spec fn entry_is_block(raw: u64) -> bool {
    raw != 0 && raw & 2 == 0
}

/// What a raw entry is.
#[derive(Copy, Clone, PartialEq, Eq, Structural, Debug)]
pub enum EntryKind {
    Free,
    Block,
    Table,
}

/// Tells the three kinds of entry apart.
pub fn entry_kind(raw: u64) -> (r: EntryKind)
    ensures
        r == EntryKind::Free <==> entry_is_free(raw),
        r == EntryKind::Block <==> entry_is_block(raw),
        r == EntryKind::Table <==> entry_is_table(raw),
{
    proof {
        assert(0u64 & 2 == 0) by (bit_vector);
    }
    if raw == 0 {
        EntryKind::Free
    } else if raw & 2 == 0 {
        EntryKind::Block
    } else {
        EntryKind::Table
    }
}

/// The physical address that a descriptor holds.
pub fn entry_addr(raw: u64) -> (r: PhyAddr)
    ensures
        r.0 == raw & ADDR_MASK,
{
    PhyAddr(raw & ADDR_MASK)
}

/// The descriptor of the page at `paddr` with the attributes `attrs`.
pub fn page_descriptor(paddr: PhyAddr, attrs: u64) -> (r: u64)
    ensures
        r == paddr.0 | COMMON_FLAGS | attrs,
        entry_is_table(r),
{
    let r = paddr.0 | COMMON_FLAGS | attrs;
    proof {
        let p = paddr.0;
        assert((p | 0x403u64 | attrs) & 2 != 0) by (bit_vector);
    }
    r
}

/// The descriptor of the table at `addr` with the flags `flags`.
pub fn table_descriptor(addr: PhyAddr, flags: u64) -> (r: u64)
    ensures
        r == addr.0 | flags,
{
    addr.0 | flags
}

/// A page descriptor gives back the address and the attributes it was made
/// of, as long as the address is page-aligned and below 2^48 and the
/// attributes keep clear of the address bits.
pub proof fn lemma_page_descriptor_fields(paddr: u64, attrs: u64)
    by (bit_vector)
    requires
        paddr & 0x0000_ffff_ffff_f000u64 == paddr,
        attrs & 0x0000_ffff_ffff_f000u64 == 0,
    ensures
        (paddr | 0x403u64 | attrs) & 0x0000_ffff_ffff_f000u64 == paddr,
        (paddr | 0x403u64 | attrs) & (attrs | 0x403u64) == attrs | 0x403u64,
        (paddr | 0x403u64 | attrs) != 0,
{
}

/// A run of virtual memory that is allocated throughout or free throughout.
#[derive(Copy, Clone, Debug)]
pub enum ContiguousRegion {
    Allocated { len_bytes: u64 },
    Free { len_bytes: u64 },
}

impl ContiguousRegion {
    /// Length of the run in bytes.
    pub open spec fn len(&self) -> int {
        match *self {
            ContiguousRegion::Allocated { len_bytes } => len_bytes as int,
            ContiguousRegion::Free { len_bytes } => len_bytes as int,
        }
    }
}

/// What an entry of a table holds.
pub enum PageGetResult<'a> {
    Free,
    PageTable(&'a PageTable),
    Block,
}

/// What an entry of a table holds, for writing.
pub enum PageGetMutResult<'a> {
    Free,
    PageTable(&'a mut PageTable),
    Block,
}

/// A translation table: its 512 raw entries, and for each entry the table
/// that it owns, if it is a table descriptor.
pub struct PageTable(pub [u64; 512], pub Vec<Option<Box<PageTable>>>);

/// An entry that leaves the translation passing it free: zero, or a table
/// descriptor above the lowest level.
pub open spec fn path_entry_clear(entry: u64, at: nat) -> bool {
    entry == 0 || (at > 0 && entry_is_table(entry))
}

impl PageTable {
    /// The table has one owned-table slot per entry; an entry of a table
    /// above the lowest level owns a table exactly if it is a table
    /// descriptor, and that table is well-formed one level further down.
    pub open spec fn wf(&self, h: nat) -> bool
        decreases h,
    {
        &&& self.1@.len() == 512
        &&& forall|i: int|
            0 <= i < 512 ==> if h > 0 && entry_is_table(self.0[i]) {
                &&& (#[trigger] self.1@[i]) is Some
                &&& self.1@[i]->0.wf((h - 1) as nat)
            } else {
                self.1@[i] is None
            }
    }

    /// Every entry is free.
    pub open spec fn is_empty(&self) -> bool {
        &&& self.1@.len() == 512
        &&& forall|i: int| 0 <= i < 512 ==> self.0[i] == 0 && (#[trigger] self.1@[i]) is None
    }

    /// The entry at which the translation of `va` ends, and the height of
    /// the table that holds it.
    pub open spec fn leaf(&self, h: nat, va: int) -> (u64, nat)
        decreases h,
    {
        let i = index_of(va, h);
        if h > 0 && entry_is_table(self.0[i]) {
            self.1@[i]->0.leaf((h - 1) as nat, va)
        } else {
            (self.0[i], h)
        }
    }

    /// The entry that the translation of `va` passes in the table of height
    /// `at`, or 0 if the translation ends above that table.
    pub open spec fn entry_on_path(&self, h: nat, at: nat, va: int) -> u64
        decreases h,
    {
        let i = index_of(va, h);
        if at == h {
            self.0[i]
        } else if at < h && entry_is_table(self.0[i]) {
            self.1@[i]->0.entry_on_path((h - 1) as nat, at, va)
        } else {
            0
        }
    }

    /// Whether `va` is allocated: its translation ends at an entry that is
    /// not free.
    pub open spec fn is_mapped(&self, h: nat, va: int) -> bool {
        self.leaf(h, va).0 != 0
    }

    /// First address of the slot of the entry at which the translation of
    /// `va` ends.
    pub open spec fn leaf_start(&self, h: nat, va: int) -> int {
        slot_start(va, self.leaf(h, va).1)
    }

    /// First address behind the slot of the entry at which the translation
    /// of `va` ends.
    pub open spec fn leaf_end(&self, h: nat, va: int) -> int {
        slot_end(va, self.leaf(h, va).1)
    }

    /// A table with every entry free.
    pub fn new() -> (r: Self)
        ensures
            r.is_empty(),
            forall|h: nat| r.wf(h),
    {
        let entries = [0u64;512];
        let mut tables: Vec<Option<Box<PageTable>>> = Vec::new();
        let mut i: usize = 0;
        while i < 512
            invariant
                i <= 512,
                tables@.len() == i,
                forall|k: int| 0 <= k < i ==> (#[trigger] tables@[k]) is None,
            decreases 512 - i,
        {
            tables.push(None);
            i += 1;
        }
        let r = PageTable(entries, tables);
        proof {
            assert(0u64 & 2 == 0) by (bit_vector);
            assert forall|h: nat| r.wf(h) by {
                assert forall|i: int| 0 <= i < 512 implies (#[trigger] r.1@[i]) is None by {}
            }
        }
        r
    }

    /// What the entry `idx` holds: nothing, a table that it owns, or a
    /// block.
    pub fn get(&self, idx: usize) -> (r: PageGetResult<'_>)
        requires
            idx < 512,
            self.1@.len() == 512,
        ensures
            match r {
                PageGetResult::Free => self.0[idx as int] == 0,
                PageGetResult::PageTable(t) => self.0[idx as int] != 0 && self.1@[idx as int]
                    == Some(Box::new(*t)),
                PageGetResult::Block => self.0[idx as int] != 0 && self.1@[idx as int] is None,
            },
    {
        let raw = self.0[idx];
        if raw == 0 {
            PageGetResult::Free
        } else {
            match &self.1[idx] {
                Some(t) => PageGetResult::PageTable(&**t),
                None => PageGetResult::Block,
            }
        }
    }

    /// A translation ends in this table or below it.
    pub(crate) proof fn lemma_leaf_height(&self, h: nat, va: int)
        requires
            h <= 3,
        ensures
            self.leaf(h, va).1 <= h,
        decreases h,
    {
        let i = index_of(va, h);
        if h > 0 && entry_is_table(self.0[i]) {
            self.1@[i]->0.lemma_leaf_height((h - 1) as nat, va);
        }
    }

    /// In a table of no entries every translation ends at once, at a free
    /// entry.
    pub proof fn lemma_empty(&self, h: nat, va: int)
        requires
            h <= 3,
            0 <= va,
            self.is_empty(),
        ensures
            self.wf(h),
            self.leaf(h, va) == (0u64, h),
            forall|at: nat| at <= h ==> #[trigger] self.entry_on_path(h, at, va) == 0,
    {
        lemma_slot(h, va);
        assert(0u64 & 2 == 0) by (bit_vector);
        assert forall|i: int| 0 <= i < 512 implies (#[trigger] self.1@[i]) is None by {}
    }

    /// The height at which a translation ends is the number of tables that
    /// are missing below that entry.
    pub(crate) proof fn lemma_leaf_below(&self, h: nat, va: int)
        requires
            0 < h <= 3,
            0 <= va,
            self.wf(h),
            entry_is_table(self.0[index_of(va, h)]),
        ensures
            self.1@[index_of(va, h)] is Some,
            self.1@[index_of(va, h)]->0.wf((h - 1) as nat),
            self.leaf(h, va) == self.1@[index_of(va, h)]->0.leaf((h - 1) as nat, va),
    {
        lemma_slot(h, va);
    }

    /// An address is free exactly if every entry that its translation
    /// passes is zero or, above the lowest level, a table descriptor.
    pub proof fn lemma_unmapped_by_path(&self, h: nat, va: int)
        requires
            h <= 3,
        ensures
            !self.is_mapped(h, va) <==> (forall|at: nat|
                at <= h ==> path_entry_clear(#[trigger] self.entry_on_path(h, at, va), at)),
            self.is_mapped(h, va) ==> self.leaf(h, va).0 == self.entry_on_path(
                h,
                self.leaf(h, va).1,
                va,
            ),
            self.leaf(h, va).1 <= h,
        decreases h,
    {
        assert(0u64 & 2 == 0) by (bit_vector);
        let i = index_of(va, h);
        let e = self.0[i];
        if h > 0 && entry_is_table(e) {
            let child = self.1@[i]->0;
            let g = (h - 1) as nat;
            child.lemma_unmapped_by_path(g, va);
            if !self.is_mapped(h, va) {
                assert forall|at: nat| at <= h implies path_entry_clear(
                    #[trigger] self.entry_on_path(h, at, va),
                    at,
                ) by {
                    if at < h {
                        assert(path_entry_clear(child.entry_on_path(g, at, va), at));
                    }
                }
            } else {
                let at = choose|at: nat|
                    at <= g && !path_entry_clear(#[trigger] child.entry_on_path(g, at, va), at);
                assert(!path_entry_clear(self.entry_on_path(h, at, va), at));
            }
        } else {
            if e == 0 {
                assert forall|at: nat| at <= h implies path_entry_clear(
                    #[trigger] self.entry_on_path(h, at, va),
                    at,
                ) by {}
            } else {
                assert(!path_entry_clear(self.entry_on_path(h, h, va), h));
            }
        }
    }

    /// Two addresses in one slot of height `at` pass the same entry there.
    pub proof fn lemma_path_same_slot(&self, h: nat, at: nat, a: int, b: int)
        requires
            at <= h <= 3,
            0 <= a,
            0 <= b,
            slot_start(a, at) == slot_start(b, at),
        ensures
            self.entry_on_path(h, at, a) == self.entry_on_path(h, at, b),
        decreases h,
    {
        lemma_slot_nested(at, h, a, b);
        if at < h {
            let i = index_of(a, h);
            if entry_is_table(self.0[i]) {
                self.1@[i]->0.lemma_path_same_slot((h - 1) as nat, at, a, b);
            }
        }
    }

    /// The entries above the one at which a translation ends are table
    /// descriptors; that one and the ones below it are not, the lowest
    /// level apart.
    pub(crate) proof fn lemma_above_leaf(&self, h: nat, va: int)
        requires
            h <= 3,
        ensures
            forall|at: nat|
                self.leaf(h, va).1 < at <= h ==> entry_is_table(
                    #[trigger] self.entry_on_path(h, at, va),
                ),
            forall|at: nat|
                1 <= at <= self.leaf(h, va).1 ==> !entry_is_table(
                    #[trigger] self.entry_on_path(h, at, va),
                ),
            self.leaf(h, va).1 <= h,
        decreases h,
    {
        assert(0u64 & 2 == 0) by (bit_vector);
        let i = index_of(va, h);
        if h > 0 && entry_is_table(self.0[i]) {
            let child = self.1@[i]->0;
            let g = (h - 1) as nat;
            child.lemma_above_leaf(g, va);
            assert forall|at: nat| self.leaf(h, va).1 < at <= h implies entry_is_table(
                #[trigger] self.entry_on_path(h, at, va),
            ) by {
                if at < h {
                    assert(entry_is_table(child.entry_on_path(g, at, va)));
                }
            }
            assert forall|at: nat| 1 <= at <= self.leaf(h, va).1 implies !entry_is_table(
                #[trigger] self.entry_on_path(h, at, va),
            ) by {
                assert(!entry_is_table(child.entry_on_path(g, at, va)));
            }
        }
    }

    /// The entry that the translation of `vaddr` passes at height `level`
    /// below this table, which indexes addresses by `addr_shift`.
    pub(crate) fn entry_in(&self, vaddr: u64, level: usize, addr_shift: usize) -> (r: u64)
        requires
            valid_shift(addr_shift),
            self.wf(shift_height(addr_shift)),
            level <= shift_height(addr_shift),
        ensures
            r == self.entry_on_path(shift_height(addr_shift), level as nat, vaddr as int),
        decreases addr_shift,
    {
        let idx = table_index(vaddr, addr_shift);
        if addr_shift == 12 + 9 * level {
            self.0[idx]
        } else {
            match self.get(idx) {
                PageGetResult::PageTable(t) => t.entry_in(vaddr, level, addr_shift - 9),
                PageGetResult::Free => {
                    proof {
                        assert(0u64 & 2 == 0) by (bit_vector);
                    }
                    0
                },
                PageGetResult::Block => 0,
            }
        }
    }

    /// The entry that the translation of `vaddr` passes in the table of
    /// height `level`, or 0 if the translation ends above that table.
    pub fn entry_at(&self, vaddr: u64, level: usize) -> (r: u64)
        requires
            self.wf(3),
            level <= 3,
        ensures
            r == self.entry_on_path(3, level as nat, vaddr as int),
    {
        self.entry_in(vaddr, level, 39)
    }

    /// The page entry that the translation of `vaddr` ends at, or 0 if it
    /// ends above the lowest level.
    pub fn walk(&self, vaddr: u64) -> (r: u64)
        requires
            self.wf(3),
        ensures
            r == self.entry_on_path(3, 0, vaddr as int),
    {
        self.entry_in(vaddr, 0, 39)
    }

    /// The physical address that the page mapping of `vaddr` leads to, if
    /// the page is mapped.
    pub fn translate(&self, vaddr: u64) -> (r: Option<PhyAddr>)
        requires
            self.wf(3),
        ensures
            self.entry_on_path(3, 0, vaddr as int) == 0 ==> r is None,
            self.entry_on_path(3, 0, vaddr as int) != 0 ==> r == Some(
                PhyAddr(
                    ((self.entry_on_path(3, 0, vaddr as int) & ADDR_MASK) + vaddr % 4096) as u64,
                ),
            ),
    {
        let entry = self.walk(vaddr);
        if entry == 0 {
            None
        } else {
            let page = entry_addr(entry).0;
            proof {
                assert(entry & 0x0000_ffff_ffff_f000u64 <= 0x0000_ffff_ffff_f000u64)
                    by (bit_vector);
            }
            Some(PhyAddr(page + vaddr % 4096))
        }
    }

    /// What the entry `idx` holds, for writing: nothing, the table that it
    /// owns, or a block.
    pub fn get_mut(&mut self, idx: usize) -> (r: PageGetMutResult<'_>)
        requires
            idx < 512,
            old(self).1@.len() == 512,
        ensures
            final(self).0 == old(self).0,
            match r {
                PageGetMutResult::Free => old(self).0[idx as int] == 0 && final(self).1@ == old(self).1@,
                PageGetMutResult::PageTable(t) => {
                    &&& old(self).0[idx as int] != 0
                    &&& old(self).1@[idx as int] == Some(Box::new(*t))
                    &&& final(self).1@ == old(self).1@.update(
                        idx as int,
                        Some(Box::new(*final(t))),
                    )
                },
                PageGetMutResult::Block => {
                    &&& old(self).0[idx as int] != 0
                    &&& old(self).1@[idx as int] is None
                    &&& final(self).1@ == old(self).1@
                },
            },
    {
        let raw = self.0[idx];
        if raw == 0 {
            PageGetMutResult::Free
        } else {
            match &mut self.1[idx] {
                Some(t) => PageGetMutResult::PageTable(&mut **t),
                None => PageGetMutResult::Block,
            }
        }
    }
}

/// A page whose entry has been cleared is free again, unless a block above
/// it covers it.
pub proof fn lemma_cleared_page_is_free(before: &PageTable, after: &PageTable, va: int)
    requires
        after.entry_on_path(3, 0, va) == 0,
        forall|at: nat|
            1 <= at <= 3 ==> #[trigger] after.entry_on_path(3, at, va) == before.entry_on_path(
                3,
                at,
                va,
            ),
        forall|at: nat|
            1 <= at <= 3 ==> path_entry_clear(#[trigger] before.entry_on_path(3, at, va), at),
    ensures
        !after.is_mapped(3, va),
{
    assert forall|at: nat| at <= 3 implies path_entry_clear(
        #[trigger] after.entry_on_path(3, at, va),
        at,
    ) by {
        if at >= 1 {
            assert(path_entry_clear(before.entry_on_path(3, at, va), at));
        }
    }
    after.lemma_unmapped_by_path(3, va);
}

/// A page that has been mapped translates to the physical page it was
/// mapped to, with the attributes it was given and the flags of every page
/// descriptor, as long as the physical address is page-aligned and below
/// 2^48 and the attributes keep clear of the address bits.
pub proof fn lemma_mapped_page_round_trip(table: &PageTable, vaddr: int, paddr: u64, attrs: u64)
    requires
        table.entry_on_path(3, 0, vaddr) == paddr | COMMON_FLAGS | attrs,
        paddr & ADDR_MASK == paddr,
        attrs & ADDR_MASK == 0,
    ensures
        table.entry_on_path(3, 0, vaddr) & ADDR_MASK == paddr,
        table.entry_on_path(3, 0, vaddr) & (attrs | COMMON_FLAGS) == attrs | COMMON_FLAGS,
        table.is_mapped(3, vaddr),
{
    lemma_page_descriptor_fields(paddr, attrs);
    table.lemma_unmapped_by_path(3, vaddr);
    assert(!path_entry_clear(table.entry_on_path(3, 0, vaddr), 0));
}

impl PageResident for PageTable {
    open spec fn spec_byte_size() -> nat {
        4096
    }

    open spec fn is_zeroed(&self) -> bool {
        self.is_empty()
    }

    fn byte_size() -> (r: usize) {
        4096
    }

    fn zeroed() -> (r: Self) {
        PageTable::new()
    }
}

} // verus!
