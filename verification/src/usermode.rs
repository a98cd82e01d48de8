//! The one user thread, and the services that it asks of the kernel.
//!
//! A system call arrives as the saved registers of the thread: the number
//! in `x8`, the arguments from `x0` on. `handle_syscall` decides what the
//! call changes and what the caller has to do next; the result goes back
//! in `x0`.
use crate::api::{
    KError, PhyMapFlags, Syscall, VirtMapFlags, PHY_MAP_ALL, PHY_MAP_DEVICE_MEM,
    PHY_MAP_READ_WRITE, VIRT_MAP_ALL, VIRT_MAP_READ_WRITE,
};
use crate::bitmap::{
    count_clear, fill_range, hole_at, is_first_hole, lemma_count_after_fill,
    lemma_mark_then_free_restores, no_hole, take_frames,
};
use crate::exceptions::ExceptionContext;
use crate::layout::{first_in_slot, first_page_in_slot, page_in_range, slot_start, touched};
use crate::mmu::map::{lemma_new_table_entry, page_entry};
use crate::mmu::map::new_table_entry;
use crate::mmu::{
    entry_is_table, path_entry_clear, PageTable, PT_DEV, PT_ISH, PT_MEM, PT_RO_EL0, PT_RW_EL0,
    TABLE_FLAGS, TABLE_TOP, USER_TOP, VMAP_BASE,
};
use crate::page_alloc::{
    add_memory_node, check_memory_node, memory_node_bits, memory_node_ok, BitmapPageAlloc,
    PageBox, PageResident, PageSlice, PhyAddr, EARLY_HEAP_SIZE, PHYS_MASK,
};
use vstd::prelude::*;

verus! {

/// Where a new thread starts to run.
pub const DEFAULT_PC: u64 = 0x1000_0000;

/// Where the stack of a new thread ends.
pub const DEFAULT_SP: u64 = 0x800_0000;

/// Bytes of stack that a new thread has.
pub const DEFAULT_STACK_SIZE: u64 = 0x4000;

/// Saved program status of a new thread: user mode, interrupts as at
/// reset.
pub const DEFAULT_SPSR: u64 = 0x140;

/// Offset of the stack in the memory of a thread.
pub const THREAD_STACK_OFFSET: u64 = 4096;

/// Words of stack that a thread has: as many as make `DEFAULT_STACK_SIZE`
/// bytes.
pub const THREAD_STACK_WORDS: usize = 2048;

/// Bytes that a thread takes up in memory: one page of translation table,
/// four of stack, and one for the saved registers.
pub const THREAD_SIZE: usize = 24576;

/// Frames that a thread takes up in memory.
pub const THREAD_PAGES: usize = 6;

/// Most bytes that one `Log` call writes.
pub const LOG_MAX: u64 = 256;

/// `zerocopy::FromZeros::zero` on an array of words. zerocopy overwrites
/// every byte of the array with zero, so every word is 0 afterwards.
#[verifier::external_body]
fn zero_words<const N: usize>(words: &mut [u64; N])
    ensures
        forall|i: int| 0 <= i < N ==> final(words)[i] == 0,
{
    zerocopy::FromZeros::zero(words)
}

/// A user thread: its translation table, its stack, and its saved
/// registers.
pub struct Thread {
    pub page_table: PageTable,
    pub stack: [u64; 2048],
    pub gprs: [u64; 31],
    pub lr: u64,
    pub pc: u64,
    pub sp: u64,
    pub spsr: u64,
}

/// What the processor is given to run a thread.
#[derive(Copy, Clone, PartialEq, Eq, Structural, Debug)]
pub struct EntryState {
    pub ttbr0_baddr: u64,
    pub spsr: u64,
    pub sp_el0: u64,
    pub elr: u64,
}

impl Thread {
    /// The translation table of the thread is well-formed.
    pub open spec fn wf(&self) -> bool {
        self.page_table.wf(3)
    }

    /// Everything in the thread is zero.
    pub open spec fn all_zero(&self) -> bool {
        &&& self.page_table.is_empty()
        &&& forall|i: int| 0 <= i < 2048 ==> self.stack[i] == 0
        &&& forall|i: int| 0 <= i < 31 ==> self.gprs[i] == 0
        &&& self.lr == 0
        &&& self.pc == 0
        &&& self.sp == 0
        &&& self.spsr == 0
    }

    /// Everything in the thread is zero, but that it starts at the default
    /// address with the default stack pointer and status.
    pub open spec fn fresh(&self) -> bool {
        &&& self.page_table.is_empty()
        &&& forall|i: int| 0 <= i < 2048 ==> self.stack[i] == 0
        &&& forall|i: int| 0 <= i < 31 ==> self.gprs[i] == 0
        &&& self.lr == 0
        &&& self.pc == DEFAULT_PC
        &&& self.sp == DEFAULT_SP
        &&& self.spsr == DEFAULT_SPSR
    }

    /// Everything but the translation table is the same in both threads.
    pub open spec fn same_registers(&self, other: &Thread) -> bool {
        &&& self.stack == other.stack
        &&& self.gprs == other.gprs
        &&& self.lr == other.lr
        &&& self.pc == other.pc
        &&& self.sp == other.sp
        &&& self.spsr == other.spsr
    }

    /// Makes the thread a new one: zero everywhere, then the default start
    /// address, stack pointer and status.
    pub fn init(&mut self)
        ensures
            final(self).fresh(),
            final(self).wf(),
    {
        self.page_table = PageTable::new();
        zero_words(&mut self.stack);
        zero_words(&mut self.gprs);
        self.lr = 0;
        self.pc = DEFAULT_PC;
        self.sp = DEFAULT_SP;
        self.spsr = DEFAULT_SPSR;
    }

    /// What the processor is given to run this thread, which lies at
    /// `thread_addr`, a physical address or the kernel's view of one: its
    /// translation table by physical address, and its saved status, stack
    /// pointer and program counter.
    pub fn enter(&self, thread_addr: u64) -> (r: EntryState)
        ensures
            r == (EntryState {
                ttbr0_baddr: thread_addr & PHYS_MASK,
                spsr: self.spsr,
                sp_el0: self.sp,
                elr: self.pc,
            }),
    {
        EntryState {
            ttbr0_baddr: PhyAddr::from_virt(thread_addr).0,
            spsr: self.spsr,
            sp_el0: self.sp,
            elr: self.pc,
        }
    }
}

impl PageResident for Thread {
    open spec fn spec_byte_size() -> nat {
        24576
    }

    open spec fn is_zeroed(&self) -> bool {
        self.all_zero()
    }

    fn byte_size() -> (r: usize) {
        THREAD_SIZE
    }

    fn zeroed() -> (r: Self) {
        Thread {
            page_table: PageTable::new(),
            stack: [0u64;2048],
            gprs: [0u64;31],
            lr: 0,
            pc: 0,
            sp: 0,
            spsr: 0,
        }
    }
}

/// Where the kernel image and the early heap lie, by physical address.
#[derive(Copy, Clone, Debug)]
pub struct KernelLayout {
    pub kernel_start: u64,
    pub kernel_end: u64,
    pub heap_start: u64,
}

/// What the caller of `handle_syscall` has to do next.
#[derive(Copy, Clone, PartialEq, Eq, Structural, Debug)]
pub enum SyscallAction {
    /// Return to the thread.
    Resume,
    /// Translations have changed: flush them, then return to the thread.
    FlushAndResume,
    /// Copy `len` bytes from the thread's memory at `ptr` to the console,
    /// then return to the thread.
    Log { ptr: u64, len: usize },
    /// The thread asks to end with the code `code`.
    Exit { code: u64 },
    /// The call breaks a rule of the kernel: stop for good.
    Halt,
}

/// The attributes of a mapping of physical memory with the flags `flags`:
/// inner shareable; writable or read-only for the user; device or normal
/// memory.
pub open spec fn phy_map_attrs(flags: PhyMapFlags) -> u64 {
    PT_ISH | (if flags.spec_contains(PHY_MAP_READ_WRITE) {
        PT_RW_EL0
    } else {
        PT_RO_EL0
    }) | (if flags.spec_contains(PHY_MAP_DEVICE_MEM) {
        PT_DEV
    } else {
        PT_MEM
    })
}

/// The attributes of a mapping of fresh memory with the flags `flags`:
/// inner shareable, normal memory; writable or read-only for the user.
pub open spec fn virt_map_attrs(flags: VirtMapFlags) -> u64 {
    PT_ISH | (if flags.spec_contains(VIRT_MAP_READ_WRITE) {
        PT_RW_EL0
    } else {
        PT_RO_EL0
    }) | PT_MEM
}

/// The attributes of a mapping of physical memory with the flags `flags`.
pub fn phy_map_page_flags(flags: PhyMapFlags) -> (r: u64)
    ensures
        r == phy_map_attrs(flags),
{
    let access = if flags.contains(PHY_MAP_READ_WRITE) {
        PT_RW_EL0
    } else {
        PT_RO_EL0
    };
    let kind = if flags.contains(PHY_MAP_DEVICE_MEM) {
        PT_DEV
    } else {
        PT_MEM
    };
    PT_ISH | access | kind
}

/// The attributes of a mapping of fresh memory with the flags `flags`.
pub fn virt_map_page_flags(flags: VirtMapFlags) -> (r: u64)
    ensures
        r == virt_map_attrs(flags),
{
    let access = if flags.contains(VIRT_MAP_READ_WRITE) {
        PT_RW_EL0
    } else {
        PT_RO_EL0
    };
    PT_ISH | access | PT_MEM
}

/// Number of pages that hold `len` bytes.
pub open spec fn pages_for(len: int) -> int {
    (len + 4095) / 4096
}

/// Number of pages that hold `len` bytes.
pub fn page_count_for(len: u64) -> (r: u64)
    ensures
        r == pages_for(len as int),
{
    len / 4096 + if len % 4096 != 0 {
        1
    } else {
        0
    }
}

/// Number of bytes that a `Log` call of `len` bytes writes.
pub fn log_len(len: u64) -> (r: usize)
    ensures
        r == (if len < LOG_MAX {
            len
        } else {
            LOG_MAX
        }),
{
    if len < LOG_MAX {
        len as usize
    } else {
        LOG_MAX as usize
    }
}

/// The `PhyMap` service: maps the `len` physical bytes from `phy_addr` on
/// into the lowest free window of the thread, with attributes made of
/// `flags`, and gives the address of the window.
///
/// Bits in `flags` that are no flags give the result `u64::MAX`. A length
/// that is no multiple of the page size, or a range that runs over the end
/// of the address space, makes the kernel halt. Where there is no window or
/// no frame for a table the result is the code of `OOM`.
pub fn sys_phy_map<const SIZE: usize>(
    thread: &mut Thread,
    page_alloc: &mut BitmapPageAlloc<SIZE>,
    phy_addr: u64,
    len: u64,
    flags: u64,
) -> (r: (u64, SyscallAction))
    requires
        old(thread).wf(),
        old(page_alloc).wf(),
    ensures
        final(thread).wf(),
        final(page_alloc).wf(),
        final(page_alloc).ram_base == old(page_alloc).ram_base,
        phy_map_post(*old(thread), *old(page_alloc), phy_addr, len, flags, *final(thread), *final(page_alloc), r),
{
    let flags = match PhyMapFlags::from_bits(flags) {
        Some(f) => f,
        None => {
            return (u64::MAX, SyscallAction::Resume);
        },
    };
    if len % 4096 != 0 || phy_addr > u64::MAX - len {
        return (phy_addr, SyscallAction::Halt);
    }
    let attrs = phy_map_page_flags(flags);
    match thread.page_table.try_vmap(PhyAddr(phy_addr), len, attrs, page_alloc) {
        Ok(vaddr) => (vaddr, SyscallAction::FlushAndResume),
        Err(e) => (e.to_return(), SyscallAction::Resume),
    }
}

/// What `sys_phy_map` does.
pub open spec fn phy_map_post<const SIZE: usize>(
    before: Thread,
    alloc_before: BitmapPageAlloc<SIZE>,
    phy_addr: u64,
    len: u64,
    flags: u64,
    after: Thread,
    alloc_after: BitmapPageAlloc<SIZE>,
    r: (u64, SyscallAction),
) -> bool {
    let table = before.page_table;
    if flags & !PHY_MAP_ALL != 0 {
        &&& r == (u64::MAX, SyscallAction::Resume)
        &&& after == before
        &&& alloc_after == alloc_before
    } else if len % 4096 != 0 || phy_addr + len > u64::MAX {
        &&& r == (phy_addr, SyscallAction::Halt)
        &&& after == before
        &&& alloc_after == alloc_before
    } else if (exists|v: int| table.window_free(VMAP_BASE as int, v, len as int))
        && table.tables_needed(table.first_window(VMAP_BASE as int, len as int), len as int / 4096)
        <= alloc_before.spec_free_count() {
        &&& r.1 == SyscallAction::FlushAndResume
        &&& table.is_first_window(VMAP_BASE as int, r.0 as int, len as int)
        &&& after.same_registers(&before)
        &&& alloc_after.ram_base == alloc_before.ram_base
        &&& alloc_after.bits() == take_frames(
            alloc_before.bits(),
            table.tables_needed(r.0 as int, len as int / 4096),
        )
        &&& after.page_table.maps_window(
            &table,
            r.0 as int,
            len as int / 4096,
            phy_addr as int,
            phy_map_attrs(PhyMapFlags { bits: flags }),
            alloc_before.ram_base,
            alloc_before.bits(),
        )
    } else {
        &&& r == (KError::spec_return_of(KError::OOM.spec_code()), SyscallAction::Resume)
        &&& after == before
        &&& alloc_after == alloc_before
    }
}

/// The `VirtMap` service: takes as many fresh frames as hold `len` bytes
/// and maps them into the lowest free window of the thread, with attributes
/// made of `flags`, and gives the address of the window.
///
/// Bits in `flags` that are no flags give the result `u64::MAX`. Where
/// there are no such frames, no window, or no frame for a table, nothing
/// changes and the result is the code of `OOM`.
pub fn sys_virt_map<const SIZE: usize>(
    thread: &mut Thread,
    page_alloc: &mut BitmapPageAlloc<SIZE>,
    len: u64,
    flags: u64,
) -> (r: (u64, SyscallAction))
    requires
        old(thread).wf(),
        old(page_alloc).wf(),
    ensures
        final(thread).wf(),
        final(page_alloc).wf(),
        final(page_alloc).ram_base == old(page_alloc).ram_base,
        virt_map_post(*old(thread), *old(page_alloc), len, flags, *final(thread), *final(page_alloc), r),
{
    let flags = match VirtMapFlags::from_bits(flags) {
        Some(f) => f,
        None => {
            return (u64::MAX, SyscallAction::Resume);
        },
    };
    let attrs = virt_map_page_flags(flags);
    let pages = page_count_for(len);
    let cap = page_alloc.bitmap_alloc.bit_capacity();
    let ghost bits = page_alloc.bits();
    if pages > cap as u64 {
        proof {
            assert forall|j: int| !hole_at(bits, j, pages as int) by {}
        }
        return (KError::OOM.to_return(), SyscallAction::Resume);
    }
    let slice = match page_alloc.allocate(pages as usize) {
        Some(slice) => slice,
        None => {
            return (KError::OOM.to_return(), SyscallAction::Resume);
        },
    };
    let ghost i = page_alloc.frame_index(slice.buf as int);
    proof {
        lemma_count_after_fill(bits, i, pages as int, (SIZE * 64) as int);
        crate::bitmap::lemma_first_hole_unique(
            bits,
            i,
            crate::bitmap::first_hole(bits, pages as int),
            pages as int,
        );
    }
    let paddr = PhyAddr::from_virt(slice.buf);
    let size = pages * 4096;
    proof {
        let b = slice.buf;
        assert(b & 0x0000_00ff_ffff_ffffu64 <= b) by (bit_vector);
    }
    match thread.page_table.try_vmap(paddr, size, attrs, page_alloc) {
        Ok(vaddr) => (vaddr, SyscallAction::FlushAndResume),
        Err(e) => {
            proof {
                lemma_mark_then_free_restores(bits, i, pages as int);
            }
            let _ = slice.release(page_alloc);
            (e.to_return(), SyscallAction::Resume)
        },
    }
}

/// What `sys_virt_map` does.
pub open spec fn virt_map_post<const SIZE: usize>(
    before: Thread,
    alloc_before: BitmapPageAlloc<SIZE>,
    len: u64,
    flags: u64,
    after: Thread,
    alloc_after: BitmapPageAlloc<SIZE>,
    r: (u64, SyscallAction),
) -> bool {
    let table = before.page_table;
    let pages = pages_for(len as int);
    let size = pages * 4096;
    let bits = alloc_before.bits();
    let first = crate::bitmap::first_hole(bits, pages);
    let taken = fill_range(bits, first, pages, true);
    let paddr = ((alloc_before.ram_base + first * 4096) as u64) & PHYS_MASK;
    if flags & !VIRT_MAP_ALL != 0 {
        &&& r == (u64::MAX, SyscallAction::Resume)
        &&& after == before
        &&& alloc_after == alloc_before
    } else if !no_hole(bits, pages) && (exists|v: int| table.window_free(VMAP_BASE as int, v, size))
        && table.tables_needed(table.first_window(VMAP_BASE as int, size), pages) + pages
        <= alloc_before.spec_free_count() {
        &&& r.1 == SyscallAction::FlushAndResume
        &&& table.is_first_window(VMAP_BASE as int, r.0 as int, size)
        &&& after.same_registers(&before)
        &&& alloc_after.ram_base == alloc_before.ram_base
        &&& alloc_after.bits() == take_frames(taken, table.tables_needed(r.0 as int, pages))
        &&& after.page_table.maps_window(
            &table,
            r.0 as int,
            pages,
            paddr as int,
            virt_map_attrs(VirtMapFlags { bits: flags }),
            alloc_before.ram_base,
            taken,
        )
    } else {
        &&& r == (KError::spec_return_of(KError::OOM.spec_code()), SyscallAction::Resume)
        &&& after == before
        &&& alloc_after.ram_base == alloc_before.ram_base
        &&& alloc_after.bits() == alloc_before.bits()
    }
}

/// After a successful `VirtMap`, the window lies in the user range from
/// `VMAP_BASE` on, and page `k` of it is mapped onto frame `k` of the
/// lowest run of frames that was free and long enough: a frame that was
/// free before and is allocated after, another one for every page. With the
/// write flag the page is writable by the user: its descriptor is that of
/// a page, accessed, inner shareable, normal memory, writable from user
/// mode.
pub proof fn lemma_virt_map_pages<const SIZE: usize>(
    before: Thread,
    alloc_before: BitmapPageAlloc<SIZE>,
    len: u64,
    flags: u64,
    after: Thread,
    alloc_after: BitmapPageAlloc<SIZE>,
    r: (u64, SyscallAction),
    k: int,
)
    requires
        alloc_before.wf(),
        virt_map_post(before, alloc_before, len, flags, after, alloc_after, r),
        r.1 == SyscallAction::FlushAndResume,
        0 <= k < pages_for(len as int),
    ensures
        VMAP_BASE <= r.0 < USER_TOP,
        r.0 % 4096 == 0,
        ({
            let first = crate::bitmap::first_hole(alloc_before.bits(), pages_for(len as int));
            let frame = alloc_before.ram_base + (first + k) * 4096;
            let entry = after.page_table.entry_on_path(3, 0, r.0 + k * 4096);
            &&& 0 <= first + k < SIZE * 64
            &&& !alloc_before.bits()[first + k]
            &&& alloc_after.bits()[first + k]
            &&& frame < 0x100_0000_0000 ==> entry == page_entry(
                frame,
                virt_map_attrs(VirtMapFlags { bits: flags }),
            )
            &&& after.page_table.is_mapped(3, r.0 + k * 4096)
            &&& flags == VIRT_MAP_READ_WRITE ==> entry & 0xfff == 0x743
        }),
{
    let bits = alloc_before.bits();
    let pages = pages_for(len as int);
    let first = crate::bitmap::first_hole(bits, pages);
    let taken = fill_range(bits, first, pages, true);
    let v = r.0 as int;
    let va = v + k * 4096;
    let table = before.page_table;
    let attrs = virt_map_attrs(VirtMapFlags { bits: flags });
    assert(1u64 & !1u64 == 0 && 0u64 & !1u64 == 0) by (bit_vector);
    assert(flags & !VIRT_MAP_ALL == 0);
    assert(!no_hole(bits, pages));
    let w = choose|w: int| hole_at(bits, w, pages);
    lemma_some_hole_first(bits, w, pages);
    assert(is_first_hole(bits, first, pages));
    assert(!bits[first + k]);
    assert(taken[first + k]);
    crate::bitmap::lemma_take_frames_keeps(taken, table.tables_needed(v, pages), first + k);
    crate::layout::lemma_slot(0, va);
    crate::layout::lemma_slot(0, v);
    crate::layout::lemma_same_slot(0, va, va);
    let start = (alloc_before.ram_base + first * 4096) as u64;
    let paddr = start & PHYS_MASK;
    assert(paddr <= start && (start % 4096 == 0 ==> paddr % 4096 == 0) && (start
        < 0x100_0000_0000u64 ==> paddr == start)) by (bit_vector)
        requires
            paddr == start & 0x0000_00ff_ffff_ffffu64,
    ;
    assert(slot_start(va, 0) == va);
    let p = (paddr + k * 4096) as u64;
    let entry = after.page_table.entry_on_path(3, 0, va);
    assert(entry == page_entry(paddr + k * 4096, attrs));
    assert(p % 4096 == 0);
    assert((p | 0x403u64 | attrs) != 0) by (bit_vector);
    assert(!path_entry_clear(entry, 0));
    after.page_table.lemma_unmapped_by_path(3, va);
    if flags == VIRT_MAP_READ_WRITE {
        assert(1u64 & 1u64 == 1u64) by (bit_vector);
        assert(0x300u64 | 0x40u64 | 0x0u64 == 0x340u64) by (bit_vector);
        assert(attrs == 0x340);
        assert((p | 0x403u64 | 0x340u64) & 0xfff == 0x743) by (bit_vector)
            requires
                p % 4096 == 0,
        ;
    }
}

/// Where there is a hole there is a lowest hole.
proof fn lemma_some_hole_first(bits: Seq<bool>, w: int, n: int)
    requires
        hole_at(bits, w, n),
    ensures
        is_first_hole(bits, crate::bitmap::first_hole(bits, n), n),
    decreases w,
{
    if exists|j: int| 0 <= j < w && hole_at(bits, j, n) {
        let j = choose|j: int| 0 <= j < w && hole_at(bits, j, n);
        lemma_some_hole_first(bits, j, n);
    } else {
        assert(is_first_hole(bits, w, n));
    }
}

/// The `VirtUnmap` service: clears the page entries of every page of the
/// thread that has a byte in `[virt_addr, virt_addr + len)`. The frames
/// behind them stay allocated. A range that runs over the end of what the
/// table translates gives the result `u64::MAX` and changes nothing.
pub fn sys_virt_unmap(thread: &mut Thread, virt_addr: u64, len: u64) -> (r: (u64, SyscallAction))
    requires
        old(thread).wf(),
    ensures
        final(thread).wf(),
        virt_unmap_post(*old(thread), virt_addr, len, *final(thread), r),
{
    if virt_addr > TABLE_TOP || len > TABLE_TOP - virt_addr {
        return (u64::MAX, SyscallAction::Resume);
    }
    thread.page_table.vunmap(virt_addr, len);
    (0, SyscallAction::FlushAndResume)
}

/// What `sys_virt_unmap` does.
pub open spec fn virt_unmap_post(
    before: Thread,
    virt_addr: u64,
    len: u64,
    after: Thread,
    r: (u64, SyscallAction),
) -> bool {
    if virt_addr + len > TABLE_TOP {
        &&& r == (u64::MAX, SyscallAction::Resume)
        &&& after == before
    } else {
        &&& r == (0u64, SyscallAction::FlushAndResume)
        &&& after.same_registers(&before)
        &&& forall|at: nat, va: int|
            at <= 3 && 0 <= va < TABLE_TOP ==> #[trigger] after.page_table.entry_on_path(3, at, va)
                == (if at == 0 && page_in_range(va, virt_addr as int, len as int) {
                0
            } else {
                before.page_table.entry_on_path(3, at, va)
            })
    }
}

/// The `DownloadMoreRam` service: grows the allocator from the early heap
/// to the `len` bytes of memory at physical address `phy_addr` and marks
/// the kernel image allocated. Arguments that `add_memory_node` does not
/// take make the kernel halt.
pub fn sys_download_more_ram<const SIZE: usize>(
    page_alloc: &mut BitmapPageAlloc<SIZE>,
    layout: &KernelLayout,
    phy_addr: u64,
    len: u64,
) -> (r: (u64, SyscallAction))
    requires
        old(page_alloc).wf(),
    ensures
        final(page_alloc).wf(),
        download_more_ram_post(*old(page_alloc), *layout, phy_addr, len, *final(page_alloc), r),
{
    if !check_memory_node(
        page_alloc,
        PhyAddr(phy_addr),
        len,
        layout.kernel_start,
        layout.kernel_end,
        layout.heap_start,
    ) {
        return (phy_addr, SyscallAction::Halt);
    }
    add_memory_node(
        page_alloc,
        PhyAddr(phy_addr),
        len,
        layout.kernel_start,
        layout.kernel_end,
        layout.heap_start,
    );
    (0, SyscallAction::Resume)
}

/// What `sys_download_more_ram` does: where the arguments fit, the result
/// is 0 and the allocator is what `add_memory_node` makes of it, slot 0
/// standing for the frame at `phy_addr`; where they do not, the kernel
/// halts and nothing changes.
pub open spec fn download_more_ram_post<const SIZE: usize>(
    alloc_before: BitmapPageAlloc<SIZE>,
    layout: KernelLayout,
    phy_addr: u64,
    len: u64,
    alloc_after: BitmapPageAlloc<SIZE>,
    r: (u64, SyscallAction),
) -> bool {
    if memory_node_ok(
        &alloc_before,
        PhyAddr(phy_addr),
        len,
        layout.kernel_start,
        layout.kernel_end,
        layout.heap_start,
    ) {
        &&& r == (0u64, SyscallAction::Resume)
        &&& alloc_after.ram_base == phy_addr
        &&& alloc_after.bits() == memory_node_bits(
            alloc_before.bits(),
            phy_addr as int,
            len as int,
            layout.kernel_start as int,
            layout.kernel_end as int,
            layout.heap_start as int,
        )
        &&& len as int / 4096 <= alloc_after.bits().len()
        &&& forall|addr: int|
            phy_addr <= addr < phy_addr + len ==> #[trigger] alloc_after.is_allocated(addr) == (
            if layout.heap_start <= addr < layout.heap_start + EARLY_HEAP_SIZE {
                alloc_before.is_allocated(addr)
            } else {
                layout.kernel_start <= addr < layout.kernel_end
            })
    } else {
        &&& r == (phy_addr, SyscallAction::Halt)
        &&& alloc_after == alloc_before
    }
}

/// The system call that the saved registers ask for: the one whose number
/// is in the low 32 bits of `x8`.
pub open spec fn requested(e: ExceptionContext) -> Option<Syscall> {
    let n = e.gpr[8] as int % 0x1_0000_0000;
    if n == 0 {
        Some(Syscall::Exit)
    } else if n == 1 {
        Some(Syscall::Log)
    } else if n == 2 {
        Some(Syscall::PhyMap)
    } else if n == 3 {
        Some(Syscall::VirtMap)
    } else if n == 4 {
        Some(Syscall::VirtUnmap)
    } else if n == 5 {
        Some(Syscall::DownloadMoreRam)
    } else {
        None
    }
}

/// What `handle_syscall` does: nothing but `x0` changes in the saved
/// registers; an unknown number gives `u64::MAX`; `Exit` and `Log` change
/// nothing and leave the work to the caller, `Log` with the result 0; every
/// other call is the service of its name on the arguments from `x0` on.
pub open spec fn handle_syscall_post<const SIZE: usize>(
    e_before: ExceptionContext,
    before: Thread,
    alloc_before: BitmapPageAlloc<SIZE>,
    layout: KernelLayout,
    e_after: ExceptionContext,
    after: Thread,
    alloc_after: BitmapPageAlloc<SIZE>,
    action: SyscallAction,
) -> bool {
    let x0 = e_before.gpr[0];
    let x1 = e_before.gpr[1];
    let x2 = e_before.gpr[2];
    let r = (e_after.gpr[0], action);
    &&& e_after.lr == e_before.lr
    &&& e_after.pc == e_before.pc
    &&& e_after.spsr == e_before.spsr
    &&& e_after.sp == e_before.sp
    &&& forall|i: int| 1 <= i < 30 ==> e_after.gpr[i] == e_before.gpr[i]
    &&& match requested(e_before) {
        None => {
            &&& r == (u64::MAX, SyscallAction::Resume)
            &&& after == before
            &&& alloc_after == alloc_before
        },
        Some(Syscall::Exit) => {
            &&& r == (x0, SyscallAction::Exit { code: x0 })
            &&& after == before
            &&& alloc_after == alloc_before
        },
        Some(Syscall::Log) => {
            &&& r == (
                0u64,
                SyscallAction::Log {
                    ptr: x0,
                    len: (if x1 < LOG_MAX {
                        x1
                    } else {
                        LOG_MAX
                    }) as usize,
                },
            )
            &&& after == before
            &&& alloc_after == alloc_before
        },
        Some(Syscall::PhyMap) => phy_map_post(
            before,
            alloc_before,
            x0,
            x1,
            x2,
            after,
            alloc_after,
            r,
        ),
        Some(Syscall::VirtMap) => virt_map_post(before, alloc_before, x0, x1, after, alloc_after, r),
        Some(Syscall::VirtUnmap) => {
            &&& virt_unmap_post(before, x0, x1, after, r)
            &&& alloc_after == alloc_before
        },
        Some(Syscall::DownloadMoreRam) => {
            &&& download_more_ram_post(alloc_before, layout, x0, x1, alloc_after, r)
            &&& after == before
        },
    }
}

/// Serves the system call that the saved registers `e` of the thread ask
/// for, puts the result into `x0`, and says what is left to do.
pub fn handle_syscall<const SIZE: usize>(
    e: &mut ExceptionContext,
    thread: &mut Thread,
    page_alloc: &mut BitmapPageAlloc<SIZE>,
    layout: &KernelLayout,
) -> (action: SyscallAction)
    requires
        old(thread).wf(),
        old(page_alloc).wf(),
    ensures
        final(thread).wf(),
        final(page_alloc).wf(),
        handle_syscall_post(
            *old(e),
            *old(thread),
            *old(page_alloc),
            *layout,
            *final(e),
            *final(thread),
            *final(page_alloc),
            action,
        ),
{
    let number = (e.gpr[8] % 0x1_0000_0000) as u32;
    let syscall_num = match Syscall::try_from_primitive(number) {
        Ok(s) => s,
        Err(_) => {
            e.gpr[0] = u64::MAX;
            return SyscallAction::Resume;
        },
    };
    let x0 = e.gpr[0];
    let x1 = e.gpr[1];
    let x2 = e.gpr[2];
    let (result, action) = match syscall_num {
        Syscall::Exit => (x0, SyscallAction::Exit { code: x0 }),
        Syscall::Log => (0, SyscallAction::Log { ptr: x0, len: log_len(x1) }),
        Syscall::PhyMap => sys_phy_map(thread, page_alloc, x0, x1, x2),
        Syscall::VirtMap => sys_virt_map(thread, page_alloc, x0, x1),
        Syscall::VirtUnmap => sys_virt_unmap(thread, x0, x1),
        Syscall::DownloadMoreRam => sys_download_more_ram(page_alloc, layout, x0, x1),
    };
    e.gpr[0] = result;
    action
}

/// Attributes of the pages of a new thread: writable by the user, inner
/// shareable, normal memory.
pub const USER_PAGE_FLAGS: u64 = 0x340;

/// First address of the stack of a new thread.
pub const DEFAULT_STACK_BASE: u64 = 0x7ff_c000;

/// A user process that is ready to run: its thread in frames of its own,
/// and the frames that hold its code.
pub struct Launched {
    pub thread: PageBox<Thread>,
    pub code: PageSlice,
}

/// Tables that have to be made in an empty translation table for page `k`
/// of the pages from `v` on, when the pages before it have been mapped.
pub open spec fn fresh_slots(v: int, k: int) -> nat {
    (if first_in_slot(v, k, 3) {
        1nat
    } else {
        0nat
    }) + (if first_in_slot(v, k, 2) {
        1nat
    } else {
        0nat
    }) + (if first_in_slot(v, k, 1) {
        1nat
    } else {
        0nat
    })
}

/// Tables that have to be made in an empty translation table to map the
/// `pages` pages from `v` on.
pub open spec fn slots_touched(v: int, pages: int) -> nat
    decreases pages,
{
    if pages <= 0 {
        0
    } else {
        slots_touched(v, pages - 1) + fresh_slots(v, pages - 1)
    }
}

/// Tables that have to be made for the stack of a new thread whose code
/// takes `pages` pages: the one for its pages, and the two above that one
/// where no code has brought them.
pub open spec fn stack_tables(pages: int) -> nat {
    if pages > 0 {
        1
    } else {
        3
    }
}

/// The frame flags after the lowest hole of `n` frames has been taken.
pub open spec fn after_taking(bits: Seq<bool>, n: int) -> Seq<bool> {
    fill_range(bits, crate::bitmap::first_hole(bits, n), n, true)
}

/// A program of `len` bytes can be launched from an allocator with the
/// frame flags `bits`: its code fits below the end of the user range;
/// there are frames for the code, then six for the thread, then one for
/// each table.
pub open spec fn launch_fits(bits: Seq<bool>, len: int) -> bool {
    let pages = pages_for(len);
    let with_code = after_taking(bits, pages);
    let with_thread = after_taking(with_code, THREAD_PAGES as int);
    &&& DEFAULT_PC + pages * 4096 <= USER_TOP
    &&& !no_hole(bits, pages)
    &&& !no_hole(with_code, THREAD_PAGES as int)
    &&& slots_touched(DEFAULT_PC as int, pages) + stack_tables(pages) <= count_clear(
        with_thread,
        bits.len() as int,
    )
}

/// What a launched process looks like: the code frames hold the program
/// and then zeros; the thread is a new one but for its translation table,
/// which maps the code from the default start address on and the stack
/// below the default stack pointer, both writable by the user, and nothing
/// else.
pub open spec fn launched_ok<const SIZE: usize>(
    p: Launched,
    alloc_before: BitmapPageAlloc<SIZE>,
    init_bin: Seq<u8>,
    alloc_after: BitmapPageAlloc<SIZE>,
) -> bool {
    let bits = alloc_before.bits();
    let pages = pages_for(init_bin.len() as int);
    let with_code = after_taking(bits, pages);
    let with_thread = after_taking(with_code, THREAD_PAGES as int);
    let thread = p.thread.value;
    let code_phys = (p.code.buf & PHYS_MASK) as int;
    let stack_phys = (((p.thread.buf + THREAD_STACK_OFFSET) as u64) & PHYS_MASK) as int;
    &&& p.code.wf()
    &&& p.code.len == pages * 4096
    &&& p.code.buf == alloc_before.ram_base + crate::bitmap::first_hole(bits, pages) * 4096
    &&& p.code.bytes@ == Seq::new(
        p.code.len as nat,
        |k: int|
            if k < init_bin.len() {
                init_bin[k]
            } else {
                0u8
            },
    )
    &&& p.thread.len == THREAD_SIZE
    &&& p.thread.buf == alloc_before.ram_base + crate::bitmap::first_hole(
        with_code,
        THREAD_PAGES as int,
    ) * 4096
    &&& alloc_after.bits() == take_frames(
        with_thread,
        slots_touched(DEFAULT_PC as int, pages) + stack_tables(pages),
    )
    &&& thread.wf()
    &&& forall|i: int| 0 <= i < 2048 ==> thread.stack[i] == 0
    &&& forall|i: int| 0 <= i < 31 ==> thread.gprs[i] == 0
    &&& thread.lr == 0
    &&& thread.pc == DEFAULT_PC
    &&& thread.sp == DEFAULT_SP
    &&& thread.spsr == DEFAULT_SPSR
    &&& forall|va: int|
        0 <= va < TABLE_TOP ==> #[trigger] thread.page_table.entry_on_path(3, 0, va) == (
        if DEFAULT_PC <= va < DEFAULT_PC + pages * 4096 {
            page_entry(code_phys + (slot_start(va, 0) - DEFAULT_PC), USER_PAGE_FLAGS)
        } else if DEFAULT_STACK_BASE <= va < DEFAULT_SP {
            page_entry(stack_phys + (slot_start(va, 0) - DEFAULT_STACK_BASE), USER_PAGE_FLAGS)
        } else {
            0
        })
    &&& forall|at: nat, va: int|
        1 <= at <= 3 && 0 <= va < TABLE_TOP ==> #[trigger] thread.page_table.entry_on_path(
            3,
            at,
            va,
        ) == launched_table_entry(alloc_before.ram_base, with_thread, pages, at, va)
}

/// Tables that are made in an empty translation table for page `k` of the
/// pages from `v` on before the one under its entry of height `at`.
pub open spec fn fresh_slots_above(v: int, k: int, at: nat) -> nat {
    (if at < 3 && first_in_slot(v, k, 3) {
        1nat
    } else {
        0nat
    }) + (if at < 2 && first_in_slot(v, k, 2) {
        1nat
    } else {
        0nat
    })
}

/// The place that the table under the entry of height `at` on the path of
/// `va` has in the series of tables made in an empty translation table to
/// map the pages from `v` on.
pub open spec fn order_in_empty(v: int, at: nat, va: int) -> nat {
    let k = first_page_in_slot(v, at, va);
    slots_touched(v, k) + fresh_slots_above(v, k, at)
}

/// The entry of height `at` that `va` passes in the translation table of a
/// launched thread whose code takes `pages` pages, the tables taken from an
/// allocator at `base` with the frame flags `bits`: the descriptor of a
/// table made for the code, in the frame that its place among those tables
/// gives it; or of a table made for the stack, which come behind the ones
/// for the code, highest first; or nothing.
pub open spec fn launched_table_entry(
    base: u64,
    bits: Seq<bool>,
    pages: int,
    at: nat,
    va: int,
) -> u64 {
    if touched(DEFAULT_PC as int, pages, at, va) {
        new_table_entry(base, bits, order_in_empty(DEFAULT_PC as int, at, va), TABLE_FLAGS)
    } else if touched(DEFAULT_STACK_BASE as int, 4, at, va) {
        new_table_entry(
            base,
            bits,
            slots_touched(DEFAULT_PC as int, pages) + (if pages > 0 {
                0nat
            } else {
                (3 - at) as nat
            }),
            TABLE_FLAGS,
        )
    } else {
        0
    }
}

/// In an empty table, every page of a window needs a table for each slot
/// that it is the first to reach.
proof fn lemma_empty_tables_needed(table: &PageTable, v: int, pages: int)
    requires
        table.is_empty(),
        0 <= v,
    ensures
        table.tables_needed(v, pages) == slots_touched(v, pages),
    decreases pages,
{
    if pages > 0 {
        lemma_empty_tables_needed(table, v, pages - 1);
        table.lemma_empty(3, v + (pages - 1) * 4096);
        assert(0u64 & 2 == 0) by (bit_vector);
    }
}

/// Once the code of a new thread is mapped, its stack is still free, and
/// the tables that the stack needs are the ones that the code has not
/// brought.
proof fn lemma_stack_after_code(
    table: &PageTable,
    empty: &PageTable,
    pages: int,
    paddr: int,
    attrs: u64,
    base: u64,
    bits: Seq<bool>,
)
    requires
        empty.is_empty(),
        0 <= pages,
        DEFAULT_PC + pages * 4096 <= USER_TOP,
        table.maps_window(empty, DEFAULT_PC as int, pages, paddr, attrs, base, bits),
    ensures
        forall|va: int| DEFAULT_STACK_BASE <= va < DEFAULT_SP ==> !(#[trigger] table.is_mapped(3, va)),
        table.tables_needed(DEFAULT_STACK_BASE as int, 4) == stack_tables(pages),
        forall|va: int|
            0 <= va < TABLE_TOP && !(DEFAULT_PC <= va < DEFAULT_PC + pages * 4096)
                ==> #[trigger] table.entry_on_path(3, 0, va) == 0,
{
    reveal(slot_start);
    assert(0u64 & 2 == 0) by (bit_vector);
    assert forall|at: nat, va: int| at <= 3 && 0 <= va < TABLE_TOP implies (
    #[trigger] empty.entry_on_path(3, at, va)) == 0 by {
        empty.lemma_empty(3, va);
    }
    assert forall|va: int| DEFAULT_STACK_BASE <= va < DEFAULT_SP implies !(
    #[trigger] table.is_mapped(3, va)) by {
        assert forall|at: nat| at <= 3 implies path_entry_clear(
            #[trigger] table.entry_on_path(3, at, va),
            at,
        ) by {
            assert(empty.entry_on_path(3, at, va) == 0);
            if at >= 1 {
                lemma_new_table_entry(
                    base,
                    bits,
                    empty.table_order(DEFAULT_PC as int, at, va),
                );
            }
        }
        table.lemma_unmapped_by_path(3, va);
    }
    let s = DEFAULT_STACK_BASE as int;
    reveal_with_fuel(PageTable::tables_needed, 5);
    let e3 = table.entry_on_path(3, 3, s);
    let e2 = table.entry_on_path(3, 2, s);
    let e1 = table.entry_on_path(3, 1, s);
    assert(empty.entry_on_path(3, 3, s) == 0);
    assert(empty.entry_on_path(3, 2, s) == 0);
    assert(empty.entry_on_path(3, 1, s) == 0);
    lemma_new_table_entry(base, bits, empty.table_order(DEFAULT_PC as int, 3, s));
    lemma_new_table_entry(base, bits, empty.table_order(DEFAULT_PC as int, 2, s));
    lemma_new_table_entry(base, bits, empty.table_order(DEFAULT_PC as int, 1, s));
    assert(entry_is_table(e3) <==> touched(DEFAULT_PC as int, pages, 3, s));
    assert(entry_is_table(e2) <==> touched(DEFAULT_PC as int, pages, 2, s));
    assert(entry_is_table(e1) <==> touched(DEFAULT_PC as int, pages, 1, s));
    if pages > 0 {
        let last = DEFAULT_PC + (pages - 1) * 4096;
        assert(slot_start(last, 3) == 0);
        assert(0 <= slot_start(last, 2));
    }
    assert(table.fresh_tables(s, 1) == 0);
    assert(table.fresh_tables(s, 2) == 0);
    assert(table.fresh_tables(s, 3) == 0);
    assert(table.fresh_tables(s, 0) == stack_tables(pages));
}

/// The entries above the pages in the translation table of a launched
/// thread are the ones that `launched_table_entry` names.
proof fn lemma_launched_tables(
    table: &PageTable,
    with_code: &PageTable,
    empty: &PageTable,
    pages: int,
    code_phys: int,
    stack_phys: int,
    attrs: u64,
    base: u64,
    bits: Seq<bool>,
)
    requires
        empty.is_empty(),
        0 <= pages,
        DEFAULT_PC + pages * 4096 <= USER_TOP,
        with_code.maps_window(empty, DEFAULT_PC as int, pages, code_phys, attrs, base, bits),
        table.maps_window(
            with_code,
            DEFAULT_STACK_BASE as int,
            4,
            stack_phys,
            attrs,
            base,
            take_frames(bits, slots_touched(DEFAULT_PC as int, pages)),
        ),
    ensures
        forall|at: nat, va: int|
            1 <= at <= 3 && 0 <= va < TABLE_TOP ==> #[trigger] table.entry_on_path(3, at, va)
                == launched_table_entry(base, bits, pages, at, va),
{
    reveal(slot_start);
    assert(0u64 & 2 == 0) by (bit_vector);
    let pc = DEFAULT_PC as int;
    let s = DEFAULT_STACK_BASE as int;
    let code_tables = slots_touched(pc, pages);
    let later = take_frames(bits, code_tables);
    assert forall|at: nat, va: int| at <= 3 && 0 <= va < TABLE_TOP implies (
    #[trigger] empty.entry_on_path(3, at, va)) == 0 by {
        empty.lemma_empty(3, va);
    }
    assert forall|at: nat, va: int| 1 <= at <= 3 && 0 <= va < TABLE_TOP implies (
    #[trigger] empty.table_order(pc, at, va)) == order_in_empty(pc, at, va) by {
        let k = first_page_in_slot(pc, at, va);
        lemma_empty_tables_needed(empty, pc, k);
        assert(empty.entry_on_path(3, 3, pc + k * 4096) == 0) by {
            empty.lemma_empty(3, pc + k * 4096);
        }
        assert(empty.entry_on_path(3, 2, pc + k * 4096) == 0) by {
            empty.lemma_empty(3, pc + k * 4096);
        }
    }
    if pages > 0 {
        let last = pc + (pages - 1) * 4096;
        assert(slot_start(last, 3) == 0);
        assert(0 <= slot_start(last, 2));
    }
    lemma_new_table_entry(base, bits, empty.table_order(pc, 3, s));
    lemma_new_table_entry(base, bits, empty.table_order(pc, 2, s));
    assert(entry_is_table(with_code.entry_on_path(3, 3, s)) <==> pages > 0);
    assert(entry_is_table(with_code.entry_on_path(3, 2, s)) <==> pages > 0);
    assert forall|at: nat, va: int| 1 <= at <= 3 && 0 <= va < TABLE_TOP implies (
    #[trigger] table.entry_on_path(3, at, va)) == launched_table_entry(
        base,
        bits,
        pages,
        at,
        va,
    ) by {
        let before = with_code.entry_on_path(3, at, va);
        lemma_new_table_entry(base, bits, empty.table_order(pc, at, va));
        assert(empty.entry_on_path(3, at, va) == 0);
        assert(before == (if touched(pc, pages, at, va) {
            new_table_entry(base, bits, order_in_empty(pc, at, va), TABLE_FLAGS)
        } else {
            0
        }));
        if !touched(pc, pages, at, va) && touched(s, 4, at, va) {
            assert(first_page_in_slot(s, at, va) == 0);
            assert(with_code.tables_needed(s, 0) == 0);
            let above = (if pages > 0 {
                0nat
            } else {
                (3 - at) as nat
            });
            assert(with_code.fresh_above(s, 0, at) == above);
            assert(with_code.table_order(s, at, va) == above);
            crate::bitmap::lemma_take_frames_add(bits, code_tables, above);
            assert(crate::bitmap::nth_free(later, above) == crate::bitmap::nth_free(
                bits,
                code_tables + above,
            ));
        }
    }
}

/// Makes the first user process from the program `init_bin`: takes zeroed
/// frames for the code and copies the program into them, takes frames for
/// a new thread, and maps the code and the thread's own stack into the
/// thread's translation table. Where the allocator has too few frames, or the
/// program is too long for the user range, the error is `OOM`.
pub fn start<const SIZE: usize>(init_bin: &[u8], page_alloc: &mut BitmapPageAlloc<SIZE>) -> (r:
    Result<Launched, KError>)
    requires
        old(page_alloc).wf(),
    ensures
        final(page_alloc).wf(),
        final(page_alloc).ram_base == old(page_alloc).ram_base,
        r is Ok <==> launch_fits(old(page_alloc).bits(), init_bin@.len() as int),
        match r {
            Ok(p) => launched_ok(p, *old(page_alloc), init_bin@, *final(page_alloc)),
            Err(e) => e == KError::OOM,
        },
{
    let ghost bits = page_alloc.bits();
    let ghost base = page_alloc.ram_base;
    let len = init_bin.len();
    let pages = page_count_for(len as u64);
    let cap = page_alloc.bitmap_alloc.bit_capacity();
    if pages > cap as u64 {
        proof {
            assert forall|j: int| !hole_at(bits, j, pages as int) by {}
        }
        return Err(KError::OOM);
    }
    if pages > (USER_TOP - DEFAULT_PC) / 4096 {
        return Err(KError::OOM);
    }
    let mut code = match page_alloc.alloc_zeroed(pages as usize) {
        Some(slice) => slice,
        None => {
            return Err(KError::OOM);
        },
    };
    let ghost with_code = page_alloc.bits();
    proof {
        crate::bitmap::lemma_first_hole_unique(
            bits,
            page_alloc.frame_index(code.buf as int),
            crate::bitmap::first_hole(bits, pages as int),
            pages as int,
        );
    }
    let mut i: usize = 0;
    while i < len
        invariant
            i <= len,
            len == init_bin@.len(),
            len <= code.len,
            code.wf(),
            code.buf == base + crate::bitmap::first_hole(bits, pages as int) * 4096,
            code.len == pages * 4096,
            code.bytes@ == Seq::new(
                code.len as nat,
                |k: int|
                    if k < i {
                        init_bin@[k]
                    } else {
                        0u8
                    },
            ),
        decreases len - i,
    {
        code.bytes[i] = init_bin[i];
        i += 1;
        proof {
            assert(code.bytes@ =~= Seq::new(
                code.len as nat,
                |k: int|
                    if k < i {
                        init_bin@[k]
                    } else {
                        0u8
                    },
            ));
        }
    }
    if page_alloc.bitmap_alloc.find_hole(THREAD_PAGES).is_none() {
        return Err(KError::OOM);
    }
    let mut thread = PageBox::<Thread>::new_zeroed(page_alloc);
    let ghost with_thread = page_alloc.bits();
    proof {
        crate::bitmap::lemma_first_hole_unique(
            with_code,
            page_alloc.frame_index(thread.buf as int),
            crate::bitmap::first_hole(with_code, THREAD_PAGES as int),
            THREAD_PAGES as int,
        );
        assert(with_thread.len() == bits.len());
    }
    thread.value.init();
    let ghost empty = thread.value.page_table;
    let size = pages * 4096;
    let code_phys = PhyAddr::from_virt(code.buf);
    let stack_phys = PhyAddr::from_virt(thread.buf + THREAD_STACK_OFFSET);
    proof {
        let b = code.buf;
        assert(b & 0x0000_00ff_ffff_ffffu64 <= 0x0000_00ff_ffff_ffffu64) by (bit_vector);
        let t = (thread.buf + THREAD_STACK_OFFSET) as u64;
        assert(t & 0x0000_00ff_ffff_ffffu64 <= 0x0000_00ff_ffff_ffffu64) by (bit_vector);
        lemma_empty_tables_needed(&empty, DEFAULT_PC as int, pages as int);
        assert forall|va: int| DEFAULT_PC <= va < DEFAULT_PC + size implies !(
        #[trigger] empty.is_mapped(3, va)) by {
            empty.lemma_empty(3, va);
        }
    }
    let code_need = thread.value.page_table.count_tables_needed(DEFAULT_PC, size);
    let free = page_alloc.free_count();
    if code_need > free as u64 {
        return Err(KError::OOM);
    }
    thread.value.page_table.vmap_range(DEFAULT_PC, code_phys, size, USER_PAGE_FLAGS, page_alloc);
    proof {
        lemma_stack_after_code(
            &thread.value.page_table,
            &empty,
            pages as int,
            code_phys.0 as int,
            USER_PAGE_FLAGS,
            base,
            with_thread,
        );
        crate::bitmap::lemma_take_frames_count(with_thread, code_need as nat);
    }
    let stack_need = thread.value.page_table.count_tables_needed(
        DEFAULT_STACK_BASE,
        DEFAULT_STACK_SIZE,
    );
    let free = page_alloc.free_count();
    if stack_need > free as u64 {
        return Err(KError::OOM);
    }
    let ghost with_code_mapped = thread.value.page_table;
    thread.value.page_table.vmap_range(
        DEFAULT_STACK_BASE,
        stack_phys,
        DEFAULT_STACK_SIZE,
        USER_PAGE_FLAGS,
        page_alloc,
    );
    proof {
        crate::bitmap::lemma_take_frames_add(with_thread, code_need as nat, stack_need as nat);
        lemma_launched_tables(
            &thread.value.page_table,
            &with_code_mapped,
            &empty,
            pages as int,
            code_phys.0 as int,
            stack_phys.0 as int,
            USER_PAGE_FLAGS,
            base,
            with_thread,
        );
    }
    Ok(Launched { thread, code })
}

} // verus!
