//! Physical page frames: addresses, the bitmap frame allocator, and the
//! scoped owners of frames that it hands out.
//!
//! Addresses are 64-bit values. The allocator tracks one frame per bitmap
//! slot; slot `i` stands for the frame at physical address
//! `ram_base + i * PAGE_SIZE`.
use crate::bitmap::{
    count_clear, fill_range, is_first_hole, no_hole, range_clear, range_set, Bitmap,
};
use vstd::prelude::*;

verus! {

/// Bytes in one page frame.
pub const PAGE_SIZE: usize = 4096;

/// Cells in the kernel's frame bitmap.
pub const PAGE_ALLOC_CELLS: usize = 1024;

/// Frames that the kernel's frame bitmap can track.
pub const PAGE_ALLOC_PAGES: usize = PAGE_ALLOC_CELLS * 64;

/// Bytes in the early heap that backs the allocator at boot.
pub const EARLY_HEAP_SIZE: usize = 1024 * 1024;

/// Bits that turn a physical address into its normal-memory kernel view.
pub const HIGH_HALF_MEM: u64 = 0xffff_ff00_0000_0000;

/// Bits that turn a physical address into its device-memory kernel view.
pub const HIGH_HALF_DEV: u64 = 0xffff_ff80_0000_0000;

/// The bits of a kernel view that hold the physical address.
pub const PHYS_MASK: u64 = 0x0000_00ff_ffff_ffff;

/// Byte written over frames that are handed back.
pub const POISON_BYTE: u8 = 0xa1;

/// Byte written over frames that were never handed out.
pub const SENTINEL_BYTE: u8 = 0xb4;

/// A physical byte address.
#[derive(Copy, Clone)]
pub struct PhyAddr(pub u64);

impl PhyAddr {
    /// The physical address behind a kernel view.
    pub fn from_virt(addr: u64) -> (r: Self)
        ensures
            r.0 == addr & PHYS_MASK,
    {
        Self(addr & PHYS_MASK)
    }

    /// The normal-memory kernel view of this address.
    pub fn virt(&self) -> (r: u64)
        ensures
            r == self.0 | HIGH_HALF_MEM,
    {
        self.0 | HIGH_HALF_MEM
    }

    /// The normal-memory kernel view of this address, for writing.
    pub fn virt_mut(&self) -> (r: u64)
        ensures
            r == self.0 | HIGH_HALF_MEM,
    {
        self.0 | HIGH_HALF_MEM
    }

    /// The device-memory kernel view of this address.
    pub fn virt_dev(&self) -> (r: u64)
        ensures
            r == self.0 | HIGH_HALF_DEV,
    {
        self.0 | HIGH_HALF_DEV
    }

    /// The device-memory kernel view of this address, for writing.
    pub fn virt_dev_mut(&self) -> (r: u64)
        ensures
            r == self.0 | HIGH_HALF_DEV,
    {
        self.0 | HIGH_HALF_DEV
    }
}

/// Both kernel views of a physical address below 2^39 lead back to it, and
/// both keep its offset inside the page.
pub proof fn lemma_views_round_trip(p: u64)
    by (bit_vector)
    requires
        p < 0x80_0000_0000u64,
    ensures
        (p | 0xffff_ff00_0000_0000u64) & 0x0000_00ff_ffff_ffffu64 == p,
        (p | 0xffff_ff80_0000_0000u64) & 0x0000_00ff_ffff_ffffu64 == p | 0x80_0000_0000u64,
        (p | 0xffff_ff80_0000_0000u64) & 0x0000_007f_ffff_ffffu64 == p,
        (p | 0xffff_ff00_0000_0000u64) % 4096 == p % 4096,
        (p | 0xffff_ff00_0000_0000u64) == p + 0xffff_ff00_0000_0000u64,
{
}

/// A physically contiguous range of bytes.
#[derive(Copy, Clone)]
pub struct PhySlice {
    pub base: PhyAddr,
    pub len: usize,
}

impl PhySlice {
    /// Start and length of the normal-memory kernel view of the range.
    pub fn virt(&self) -> (r: (u64, usize))
        ensures
            r.0 == self.base.0 | HIGH_HALF_MEM,
            r.1 == self.len,
    {
        (self.base.virt(), self.len)
    }

    /// Start and length of the normal-memory kernel view, for writing.
    pub fn virt_mut(&self) -> (r: (u64, usize))
        ensures
            r.0 == self.base.0 | HIGH_HALF_MEM,
            r.1 == self.len,
    {
        (self.base.virt_mut(), self.len)
    }

    /// Start and length of the device-memory kernel view of the range.
    pub fn virt_dev(&self) -> (r: (u64, usize))
        ensures
            r.0 == self.base.0 | HIGH_HALF_DEV,
            r.1 == self.len,
    {
        (self.base.virt_dev(), self.len)
    }

    /// Start and length of the device-memory kernel view, for writing.
    pub fn virt_dev_mut(&self) -> (r: (u64, usize))
        ensures
            r.0 == self.base.0 | HIGH_HALF_DEV,
            r.1 == self.len,
    {
        (self.base.virt_dev_mut(), self.len)
    }
}

/// `n` bytes, each equal to `value`.
fn filled(n: usize, value: u8) -> (r: Vec<u8>)
    ensures
        r@ == Seq::new(n as nat, |i: int| value),
{
    let mut r: Vec<u8> = Vec::new();
    let mut i: usize = 0;
    while i < n
        invariant
            i <= n,
            r@ == Seq::new(i as nat, |k: int| value),
        decreases n - i,
    {
        r.push(value);
        i += 1;
        proof {
            assert(r@ =~= Seq::new(i as nat, |k: int| value));
        }
    }
    r
}

/// Owner of a physically contiguous block of whole page frames, together
/// with the bytes that the frames hold.
pub struct PageSlice {
    pub buf: u64,
    pub len: usize,
    pub bytes: Vec<u8>,
}

impl PageSlice {
    /// The block starts on a page boundary, is a whole number of pages
    /// long, and holds one byte per byte of its length.
    pub open spec fn wf(&self) -> bool {
        &&& self.buf % 4096 == 0
        &&& self.len % 4096 == 0
        &&& self.buf + self.len <= u64::MAX
        &&& self.bytes@.len() == self.len
    }

    /// Number of page frames in the block.
    pub open spec fn pages(&self) -> int {
        self.len as int / 4096
    }

    /// Address of the first byte.
    pub fn as_ptr(&self) -> (r: u64)
        ensures
            r == self.buf,
    {
        self.buf
    }

    /// Address of the first byte, for writing.
    pub fn as_mut_ptr(&mut self) -> (r: u64)
        ensures
            r == old(self).buf,
            *final(self) == *old(self),
    {
        self.buf
    }

    /// The bytes of the block.
    pub fn as_slice(&self) -> (r: &[u8])
        ensures
            r@ == self.bytes@,
    {
        self.bytes.as_slice()
    }

    /// The bytes of the block, for writing. The block keeps its place and
    /// its length whatever is written.
    pub fn as_mut_slice(&mut self) -> (r: &mut [u8])
        ensures
            r@ == old(self).bytes@,
            final(self).bytes@ == final(r)@,
            final(self).buf == old(self).buf,
            final(self).len == old(self).len,
    {
        self.bytes.as_mut_slice()
    }

    /// Length of the block in bytes.
    pub fn len(&self) -> (r: usize)
        ensures
            r == self.len,
    {
        self.len
    }

    /// Overwrites every byte of the block with zero.
    pub fn zero(&mut self)
        ensures
            final(self).buf == old(self).buf,
            final(self).len == old(self).len,
            final(self).bytes@ == Seq::new(old(self).len as nat, |i: int| 0u8),
    {
        self.bytes = filled(self.len, 0);
    }

    /// Overwrites every byte of the block with the poison pattern.
    pub fn poison(&mut self)
        ensures
            final(self).buf == old(self).buf,
            final(self).len == old(self).len,
            final(self).bytes@ == Seq::new(old(self).len as nat, |i: int| POISON_BYTE),
    {
        self.bytes = filled(self.len, POISON_BYTE);
    }

    /// Gives the block up: its bytes are poisoned, then its frames go back
    /// to the allocator they came from. The result is what the frames hold
    /// from then on.
    pub fn release<const SIZE: usize>(self, page_alloc: &mut BitmapPageAlloc<SIZE>) -> (r: Vec<u8>)
        requires
            self.wf(),
            old(page_alloc).wf(),
            old(page_alloc).in_window(self.buf as int, self.pages()),
            range_set(
                old(page_alloc).bits(),
                old(page_alloc).frame_index(self.buf as int),
                self.pages(),
            ),
        ensures
            r@ == Seq::new(self.len as nat, |i: int| POISON_BYTE),
            final(page_alloc).wf(),
            final(page_alloc).ram_base == old(page_alloc).ram_base,
            final(page_alloc).bits() == fill_range(
                old(page_alloc).bits(),
                old(page_alloc).frame_index(self.buf as int),
                self.pages(),
                false,
            ),
    {
        let mut slice = self;
        slice.poison();
        page_alloc.free(slice.buf, slice.len / PAGE_SIZE);
        slice.bytes
    }
}

/// The bitmap after the tracked window has grown: the `prev` slots that
/// were tracked sit `delta` slots further up, and everything else below
/// slot `total` is clear.
pub open spec fn expand_bits(bits: Seq<bool>, delta: int, prev: int, total: int) -> Seq<bool> {
    Seq::new(
        bits.len(),
        |k: int|
            if k < delta {
                false
            } else if k < delta + prev {
                bits[k - delta]
            } else if k < total {
                false
            } else {
                bits[k]
            },
    )
}

/// A frame allocator: a bitmap with one slot per frame and the address of
/// the frame that slot 0 stands for.
pub struct BitmapPageAlloc<const SIZE: usize> {
    pub bitmap_alloc: Bitmap<SIZE>,
    pub ram_base: u64,
}

impl<const SIZE: usize> BitmapPageAlloc<SIZE> {
    /// The byte size of the largest window fits the machine's index type.
    pub open spec fn fits() -> bool {
        SIZE * 64 * 4096 <= usize::MAX
    }

    /// `base` is page-aligned and leaves room for the whole window.
    pub open spec fn base_ok(base: u64) -> bool {
        &&& base % 4096 == 0
        &&& base + SIZE * 64 * 4096 <= u64::MAX
    }

    /// The allocator's invariant.
    pub open spec fn wf(&self) -> bool {
        &&& Self::fits()
        &&& Self::base_ok(self.ram_base)
    }

    /// One flag per frame: whether it is allocated.
    pub open spec fn bits(&self) -> Seq<bool> {
        self.bitmap_alloc@
    }

    /// The slot that stands for the frame at `addr`.
    pub open spec fn frame_index(&self, addr: int) -> int {
        (addr - self.ram_base) / 4096
    }

    /// The address of the frame that slot `i` stands for.
    pub open spec fn frame_addr(&self, i: int) -> int {
        self.ram_base + i * 4096
    }

    /// Whether the frame that holds `addr` is allocated.
    pub open spec fn is_allocated(&self, addr: int) -> bool {
        self.bits()[self.frame_index(addr)]
    }

    /// `addr` is page-aligned and `pages` frames from it lie inside the
    /// tracked window.
    pub open spec fn in_window(&self, addr: int, pages: int) -> bool {
        &&& addr % 4096 == 0
        &&& self.ram_base <= addr
        &&& addr + pages * 4096 <= self.ram_base + SIZE * 64 * 4096
    }

    /// Number of free frames.
    pub open spec fn spec_free_count(&self) -> nat {
        count_clear(self.bits(), (SIZE * 64) as int)
    }

    /// An allocator with every frame free.
    pub fn new(ram_base: u64) -> (r: Self)
        requires
            Self::fits(),
            Self::base_ok(ram_base),
        ensures
            r.wf(),
            r.ram_base == ram_base,
            r.bits() == Seq::new((SIZE * 64) as nat, |i: int| false),
    {
        Self { bitmap_alloc: Bitmap::new(), ram_base }
    }

    /// Hands out the lowest run of `page_count` free frames, if there is
    /// one. What the frames hold is not fixed.
    pub fn allocate(&mut self, page_count: usize) -> (r: Option<PageSlice>)
        requires
            old(self).wf(),
        ensures
            final(self).wf(),
            final(self).ram_base == old(self).ram_base,
            match r {
                Some(slice) => {
                    let i = old(self).frame_index(slice.buf as int);
                    &&& slice.wf()
                    &&& slice.len == page_count * 4096
                    &&& slice.buf == old(self).ram_base + i * 4096
                    &&& old(self).ram_base <= slice.buf
                    &&& slice.buf + slice.len <= old(self).ram_base + SIZE * 64 * 4096
                    &&& is_first_hole(old(self).bits(), i, page_count as int)
                    &&& final(self).bits() == fill_range(
                        old(self).bits(),
                        i,
                        page_count as int,
                        true,
                    )
                },
                None => {
                    &&& no_hole(old(self).bits(), page_count as int)
                    &&& final(self).bits() == old(self).bits()
                },
            },
    {
        if let Some(page_num) = self.bitmap_alloc.allocate(page_count) {
            let buf = self.ram_base + (page_num as u64) * 4096;
            let len = page_count * PAGE_SIZE;
            Some(PageSlice { buf, len, bytes: filled(len, SENTINEL_BYTE) })
        } else {
            None
        }
    }

    /// As `allocate`, and every byte of the frames is zero.
    pub fn alloc_zeroed(&mut self, page_count: usize) -> (r: Option<PageSlice>)
        requires
            old(self).wf(),
        ensures
            final(self).wf(),
            final(self).ram_base == old(self).ram_base,
            match r {
                Some(slice) => {
                    let i = old(self).frame_index(slice.buf as int);
                    &&& slice.wf()
                    &&& slice.len == page_count * 4096
                    &&& slice.bytes@ == Seq::new(slice.len as nat, |k: int| 0u8)
                    &&& slice.buf == old(self).ram_base + i * 4096
                    &&& old(self).ram_base <= slice.buf
                    &&& slice.buf + slice.len <= old(self).ram_base + SIZE * 64 * 4096
                    &&& is_first_hole(old(self).bits(), i, page_count as int)
                    &&& final(self).bits() == fill_range(
                        old(self).bits(),
                        i,
                        page_count as int,
                        true,
                    )
                },
                None => {
                    &&& no_hole(old(self).bits(), page_count as int)
                    &&& final(self).bits() == old(self).bits()
                },
            },
    {
        let mut slice = self.allocate(page_count);
        if let Some(slice) = &mut slice {
            slice.zero();
        }
        slice
    }

    /// Marks the `page_count` frames from `addr` allocated. They must lie
    /// in the window and be free.
    pub fn mark_allocated(&mut self, addr: u64, page_count: usize)
        requires
            old(self).wf(),
            old(self).in_window(addr as int, page_count as int),
            range_clear(old(self).bits(), old(self).frame_index(addr as int), page_count as int),
        ensures
            final(self).wf(),
            final(self).ram_base == old(self).ram_base,
            final(self).bits() == fill_range(
                old(self).bits(),
                old(self).frame_index(addr as int),
                page_count as int,
                true,
            ),
    {
        let page_num = ((addr - self.ram_base) / 4096) as usize;
        self.bitmap_alloc.mark_allocated(page_num, page_count);
    }

    /// Marks the `page_count` frames from `addr` free. They must lie in the
    /// window and be allocated.
    pub fn free(&mut self, addr: u64, page_count: usize)
        requires
            old(self).wf(),
            old(self).in_window(addr as int, page_count as int),
            range_set(old(self).bits(), old(self).frame_index(addr as int), page_count as int),
        ensures
            final(self).wf(),
            final(self).ram_base == old(self).ram_base,
            final(self).bits() == fill_range(
                old(self).bits(),
                old(self).frame_index(addr as int),
                page_count as int,
                false,
            ),
    {
        let page_num = ((addr - self.ram_base) / 4096) as usize;
        self.bitmap_alloc.free(page_num, page_count);
    }

    /// The addresses of all free frames, lowest first.
    pub fn free_pages(&self) -> (r: Vec<u64>)
        requires
            self.wf(),
        ensures
            r@.len() == self.spec_free_count(),
            forall|k: int|
                0 <= k < r@.len() ==> {
                    &&& self.in_window(#[trigger] r@[k] as int, 1)
                    &&& !self.is_allocated(r@[k] as int)
                },
            forall|k: int, l: int| 0 <= k < l < r@.len() ==> r@[k] < r@[l],
            forall|i: int|
                0 <= i < SIZE * 64 && !self.bits()[i] ==> r@.contains(
                    #[trigger] self.frame_addr(i) as u64,
                ),
    {
        let cap = self.bitmap_alloc.bit_capacity();
        let mut r: Vec<u64> = Vec::new();
        let mut i: usize = 0;
        while i < cap
            invariant
                self.wf(),
                cap == SIZE * 64,
                i <= cap,
                r@.len() == count_clear(self.bits(), i as int),
                forall|k: int|
                    0 <= k < r@.len() ==> {
                        &&& self.in_window(#[trigger] r@[k] as int, 1)
                        &&& !self.is_allocated(r@[k] as int)
                        &&& r@[k] < self.ram_base + i * 4096
                    },
                forall|k: int, l: int| 0 <= k < l < r@.len() ==> r@[k] < r@[l],
                forall|j: int|
                    0 <= j < i && !self.bits()[j] ==> r@.contains(
                        #[trigger] self.frame_addr(j) as u64,
                    ),
            decreases cap - i,
        {
            if !self.bitmap_alloc.get(i) {
                let ghost before = r@;
                let addr = self.ram_base + (i as u64) * 4096;
                r.push(addr);
                proof {
                    assert(self.frame_index(addr as int) == i);
                    assert forall|j: int| 0 <= j < i + 1 && !self.bits()[j] implies r@.contains(
                        #[trigger] self.frame_addr(j) as u64,
                    ) by {
                        if j < i {
                            let k = choose|k: int|
                                0 <= k < before.len() && before[k] == self.frame_addr(j) as u64;
                            assert(r@[k] == self.frame_addr(j) as u64);
                        } else {
                            assert(r@[before.len() as int] == self.frame_addr(j) as u64);
                        }
                    }
                }
            }
            i += 1;
        }
        r
    }

    /// Counts the free frames.
    pub fn free_count(&self) -> (r: usize)
        requires
            self.wf(),
        ensures
            r == self.spec_free_count(),
    {
        self.bitmap_alloc.count_free()
    }

    /// Lets slot 0 stand for the frame at `new_base`. The bitmap keeps its
    /// contents.
    pub fn rebase(&mut self, new_base: u64)
        requires
            old(self).wf(),
            Self::base_ok(new_base),
        ensures
            final(self).wf(),
            final(self).ram_base == new_base,
            final(self).bits() == old(self).bits(),
    {
        self.ram_base = new_base;
    }

    /// Adopts the window of `new_len` bytes at `new_base`, which contains
    /// the `prev_len` bytes tracked so far. Every frame that was tracked
    /// keeps its state; every other frame of the new window is free.
    pub fn expand_to(&mut self, new_base: u64, new_len: u64, prev_len: u64)
        requires
            old(self).wf(),
            new_base % 4096 == 0,
            new_len % 4096 == 0,
            prev_len % 4096 == 0,
            new_base <= old(self).ram_base,
            new_base + new_len >= old(self).ram_base + prev_len,
            new_len <= SIZE * 64 * 4096,
        ensures
            final(self).wf(),
            final(self).ram_base == new_base,
            final(self).bits() == expand_bits(
                old(self).bits(),
                (old(self).ram_base - new_base) / 4096,
                prev_len as int / 4096,
                new_len as int / 4096,
            ),
            forall|addr: int|
                old(self).ram_base <= addr < old(self).ram_base + prev_len ==> final(self).is_allocated(addr) == old(self).is_allocated(addr),
    {
        let addr_delta = self.ram_base - new_base;
        let delta_pages = (addr_delta / 4096) as usize;
        let prev_pages = (prev_len / 4096) as usize;
        let new_pages = (new_len / 4096) as usize;
        self.bitmap_alloc.move_bit_range_forward(0, delta_pages, prev_pages);
        self.bitmap_alloc.zero_bit_range(0, delta_pages);
        self.bitmap_alloc.zero_bit_range(
            delta_pages + prev_pages,
            new_pages - prev_pages - delta_pages,
        );
        self.rebase(new_base);
        proof {
            let d = delta_pages as int;
            let p = prev_pages as int;
            let n = new_pages as int;
            assert(self.bits() =~= expand_bits(old(self).bits(), d, p, n));
            assert forall|addr: int|
                old(self).ram_base <= addr < old(self).ram_base + prev_len implies self.is_allocated(
                addr,
            ) == old(self).is_allocated(addr) by {
                let k = old(self).frame_index(addr);
                assert(0 <= k < p);
                assert(self.frame_index(addr) == k + d);
            }
        }
    }
}

/// A value that is kept in page frames of its own.
pub trait PageResident: Sized {
    /// Bytes that the value takes up in memory.
    spec fn spec_byte_size() -> nat;

    /// Whether the value is the one that memory full of zero bytes holds.
    spec fn is_zeroed(&self) -> bool;

    /// Bytes that the value takes up in memory.
    fn byte_size() -> (r: usize)
        ensures
            r == Self::spec_byte_size(),
            0 < r,
            r + 4096 <= usize::MAX,
    ;

    /// The value that memory full of zero bytes holds.
    fn zeroed() -> (r: Self)
        ensures
            r.is_zeroed(),
    ;
}

/// Owner of the page frames that hold one `T`, and of the `T` in them.
pub struct PageBox<T> {
    pub buf: u64,
    pub len: usize,
    pub value: T,
}

impl<T: PageResident> PageBox<T> {
    /// Frames that one `T` takes up.
    pub open spec fn spec_page_count() -> int {
        (T::spec_byte_size() as int + 4095) / 4096
    }

    /// The box holds `value` in the frames of the lowest hole that was
    /// large enough in `before`, and `after` has them allocated.
    pub open spec fn boxed<const SIZE: usize>(
        &self,
        before: &BitmapPageAlloc<SIZE>,
        after: &BitmapPageAlloc<SIZE>,
    ) -> bool {
        let i = before.frame_index(self.buf as int);
        &&& after.wf()
        &&& after.ram_base == before.ram_base
        &&& self.len == Self::spec_page_count() * 4096
        &&& self.buf == before.ram_base + i * 4096
        &&& is_first_hole(before.bits(), i, Self::spec_page_count())
        &&& after.bits() == fill_range(before.bits(), i, Self::spec_page_count(), true)
    }

    /// Frames that one `T` takes up.
    pub fn page_count() -> (r: usize)
        ensures
            r == Self::spec_page_count(),
            r >= 1,
    {
        (T::byte_size() + 4095) / 4096
    }

    /// Puts `value` into frames of its own. The allocator must have room.
    pub fn new<const SIZE: usize>(value: T, page_alloc: &mut BitmapPageAlloc<SIZE>) -> (r: Self)
        requires
            old(page_alloc).wf(),
            !no_hole(old(page_alloc).bits(), Self::spec_page_count()),
        ensures
            r.value == value,
            r.boxed(old(page_alloc), final(page_alloc)),
    {
        let slice = allocate(page_alloc, Self::page_count());
        PageBox { buf: slice.buf, len: slice.len, value }
    }

    /// Puts the zero value of `T` into frames of its own. The allocator
    /// must have room.
    pub fn new_zeroed<const SIZE: usize>(page_alloc: &mut BitmapPageAlloc<SIZE>) -> (r: Self)
        requires
            old(page_alloc).wf(),
            !no_hole(old(page_alloc).bits(), Self::spec_page_count()),
        ensures
            r.value.is_zeroed(),
            r.boxed(old(page_alloc), final(page_alloc)),
    {
        let slice = allocate(page_alloc, Self::page_count());
        PageBox { buf: slice.buf, len: slice.len, value: T::zeroed() }
    }

    /// The value in the box.
    pub fn as_ref(&self) -> (r: &T)
        ensures
            *r == self.value,
    {
        &self.value
    }

    /// The value in the box, for writing.
    pub fn as_mut(&mut self) -> (r: &mut T)
        ensures
            *r == old(self).value,
            final(self).value == *final(r),
            final(self).buf == old(self).buf,
            final(self).len == old(self).len,
    {
        &mut self.value
    }

    /// Takes the value out and gives the frames back to the allocator they
    /// came from.
    pub fn into_inner<const SIZE: usize>(self, page_alloc: &mut BitmapPageAlloc<SIZE>) -> (r: T)
        requires
            old(page_alloc).wf(),
            self.len % 4096 == 0,
            old(page_alloc).in_window(self.buf as int, self.len as int / 4096),
            range_set(
                old(page_alloc).bits(),
                old(page_alloc).frame_index(self.buf as int),
                self.len as int / 4096,
            ),
        ensures
            r == self.value,
            final(page_alloc).wf(),
            final(page_alloc).ram_base == old(page_alloc).ram_base,
            final(page_alloc).bits() == fill_range(
                old(page_alloc).bits(),
                old(page_alloc).frame_index(self.buf as int),
                self.len as int / 4096,
                false,
            ),
    {
        page_alloc.free(self.buf, self.len / PAGE_SIZE);
        self.value
    }

    /// Gives up the box without giving back its frames: the value and the
    /// address at which it stays for good.
    pub fn leak(b: Self) -> (r: (T, u64))
        ensures
            r.0 == b.value,
            r.1 == b.buf,
    {
        (b.value, b.buf)
    }
}

/// Hands out `page_count` contiguous frames from `page_alloc`, which must
/// have such a run free.
pub fn allocate<const SIZE: usize>(
    page_alloc: &mut BitmapPageAlloc<SIZE>,
    page_count: usize,
) -> (r: PageSlice)
    requires
        old(page_alloc).wf(),
        !no_hole(old(page_alloc).bits(), page_count as int),
    ensures
        final(page_alloc).wf(),
        final(page_alloc).ram_base == old(page_alloc).ram_base,
        r.wf(),
        r.len == page_count * 4096,
        r.buf == old(page_alloc).ram_base + old(page_alloc).frame_index(r.buf as int) * 4096,
        is_first_hole(
            old(page_alloc).bits(),
            old(page_alloc).frame_index(r.buf as int),
            page_count as int,
        ),
        final(page_alloc).bits() == fill_range(
            old(page_alloc).bits(),
            old(page_alloc).frame_index(r.buf as int),
            page_count as int,
            true,
        ),
{
    match page_alloc.allocate(page_count) {
        Some(slice) => slice,
        None => vstd::pervasive::unreached(),
    }
}

/// Sets the allocator up over the early heap at `heap_base`: the frames of
/// the early heap are free, every frame behind it is allocated.
pub fn init_early_heap<const SIZE: usize>(page_alloc: &mut BitmapPageAlloc<SIZE>, heap_base: u64)
    requires
        old(page_alloc).wf(),
        BitmapPageAlloc::<SIZE>::base_ok(heap_base),
        SIZE * 64 >= EARLY_HEAP_SIZE / PAGE_SIZE,
        range_clear(old(page_alloc).bits(), 0, (SIZE * 64) as int),
    ensures
        final(page_alloc).wf(),
        final(page_alloc).ram_base == heap_base,
        final(page_alloc).bits() == Seq::new(
            (SIZE * 64) as nat,
            |k: int| k >= EARLY_HEAP_SIZE / PAGE_SIZE,
        ),
{
    page_alloc.rebase(heap_base);
    let cap = page_alloc.bitmap_alloc.bit_capacity();
    page_alloc.mark_allocated(heap_base, cap);
    page_alloc.free(heap_base, EARLY_HEAP_SIZE / PAGE_SIZE);
    proof {
        assert(page_alloc.bits() =~= Seq::new(
            (SIZE * 64) as nat,
            |k: int| k >= EARLY_HEAP_SIZE / PAGE_SIZE,
        ));
    }
}

/// What `add_memory_node` asks of its arguments, all of them physical
/// addresses: the allocator tracks the early heap at `heap_start`; the
/// memory region at `phy_addr` is page-aligned, fits the bitmap and
/// contains the early heap; and the kernel image
/// `[kernel_start, kernel_end)` is page-aligned, contains the early heap
/// and lies in the memory region.
pub open spec fn memory_node_ok<const SIZE: usize>(
    page_alloc: &BitmapPageAlloc<SIZE>,
    phy_addr: PhyAddr,
    len: u64,
    kernel_start: u64,
    kernel_end: u64,
    heap_start: u64,
) -> bool {
    let new_base = phy_addr.0;
    &&& page_alloc.wf()
    &&& page_alloc.ram_base == heap_start
    &&& new_base % 4096 == 0
    &&& len % 4096 == 0
    &&& new_base <= heap_start
    &&& new_base + len >= heap_start + EARLY_HEAP_SIZE
    &&& len <= SIZE * 64 * 4096
    &&& kernel_start % 4096 == 0
    &&& kernel_end % 4096 == 0
    &&& new_base <= kernel_start
    &&& kernel_start <= heap_start
    &&& heap_start + EARLY_HEAP_SIZE <= kernel_end
    &&& kernel_end <= new_base + len
}

/// Decides whether `add_memory_node` may be called on these arguments.
pub fn check_memory_node<const SIZE: usize>(
    page_alloc: &BitmapPageAlloc<SIZE>,
    phy_addr: PhyAddr,
    len: u64,
    kernel_start: u64,
    kernel_end: u64,
    heap_start: u64,
) -> (r: bool)
    requires
        page_alloc.wf(),
    ensures
        r == memory_node_ok(page_alloc, phy_addr, len, kernel_start, kernel_end, heap_start),
{
    let new_base = phy_addr.0;
    let cap_bytes = (page_alloc.bitmap_alloc.bit_capacity() as u64) * 4096;
    let heap = EARLY_HEAP_SIZE as u64;
    page_alloc.ram_base == heap_start && new_base % 4096 == 0 && len % 4096 == 0 && new_base
        <= heap_start && len <= cap_bytes && heap_start - new_base <= len && len - (heap_start
        - new_base) >= heap && kernel_start % 4096 == 0 && kernel_end % 4096 == 0 && new_base
        <= kernel_start && kernel_start <= heap_start && kernel_end >= heap_start
        && kernel_end - heap_start >= heap && kernel_end - new_base <= len
}

/// The frame flags after `add_memory_node`: the early heap's flags moved to
/// their new place, every other frame of the memory region free, then the
/// kernel image allocated on both sides of the early heap.
pub open spec fn memory_node_bits(
    bits: Seq<bool>,
    new_base: int,
    len: int,
    kernel_start: int,
    kernel_end: int,
    heap_start: int,
) -> Seq<bool> {
    fill_range(
        fill_range(
            expand_bits(
                bits,
                (heap_start - new_base) / 4096,
                EARLY_HEAP_SIZE as int / 4096,
                len / 4096,
            ),
            (kernel_start - new_base) / 4096,
            (heap_start - kernel_start) / 4096,
            true,
        ),
        (heap_start + EARLY_HEAP_SIZE - new_base) / 4096,
        (kernel_end - heap_start - EARLY_HEAP_SIZE) / 4096,
        true,
    )
}

/// Grows the allocator from the early heap to the memory region of `len`
/// bytes at physical address `phy_addr`, then marks the parts of the kernel
/// image on both sides of the early heap allocated again. Afterwards slot 0
/// stands for the frame at `phy_addr`; every frame of the region has a
/// slot; a frame of the early heap is in the state it was in; any other
/// frame of the region is allocated exactly if it belongs to the kernel
/// image.
pub fn add_memory_node<const SIZE: usize>(
    page_alloc: &mut BitmapPageAlloc<SIZE>,
    phy_addr: PhyAddr,
    len: u64,
    kernel_start: u64,
    kernel_end: u64,
    heap_start: u64,
)
    requires
        memory_node_ok(old(page_alloc), phy_addr, len, kernel_start, kernel_end, heap_start),
    ensures
        final(page_alloc).wf(),
        final(page_alloc).ram_base == phy_addr.0,
        final(page_alloc).bits() == memory_node_bits(
            old(page_alloc).bits(),
            phy_addr.0 as int,
            len as int,
            kernel_start as int,
            kernel_end as int,
            heap_start as int,
        ),
        len as int / 4096 <= final(page_alloc).bits().len(),
        forall|addr: int|
            phy_addr.0 <= addr < phy_addr.0 + len ==> #[trigger] final(page_alloc).is_allocated(
                addr,
            ) == (if heap_start <= addr < heap_start + EARLY_HEAP_SIZE {
                old(page_alloc).is_allocated(addr)
            } else {
                kernel_start <= addr < kernel_end
            }),
{
    let new_base = phy_addr.0;
    let heap_end = heap_start + EARLY_HEAP_SIZE as u64;
    page_alloc.expand_to(new_base, len, EARLY_HEAP_SIZE as u64);
    page_alloc.mark_allocated(kernel_start, ((heap_start - kernel_start) / 4096) as usize);
    page_alloc.mark_allocated(heap_end, ((kernel_end - heap_end) / 4096) as usize);
    proof {
        assert forall|addr: int| phy_addr.0 <= addr < phy_addr.0 + len implies (
        #[trigger] page_alloc.is_allocated(addr)) == (if heap_start <= addr < heap_start
            + EARLY_HEAP_SIZE {
            old(page_alloc).is_allocated(addr)
        } else {
            kernel_start <= addr < kernel_end
        }) by {
            let k = (addr - new_base) / 4096;
            let d = (heap_start - new_base) / 4096;
            let ks = (kernel_start - new_base) / 4096;
            let ke = (kernel_end - new_base) / 4096;
            assert(page_alloc.frame_index(addr) == k);
            assert(0 <= k < len as int / 4096);
            assert(heap_start == new_base + d * 4096);
            assert(kernel_start == new_base + ks * 4096);
            assert(kernel_end == new_base + ke * 4096);
            assert((heap_start - kernel_start) / 4096 == d - ks);
            assert((heap_start + EARLY_HEAP_SIZE - new_base) / 4096 == d + 256);
            assert((kernel_end - heap_start - EARLY_HEAP_SIZE) / 4096 == ke - d - 256);
            if heap_start <= addr < heap_start + EARLY_HEAP_SIZE {
                assert(d <= k < d + 256);
                assert(old(page_alloc).frame_index(addr) == k - d);
            } else if kernel_start <= addr < kernel_end {
                assert(ks <= k < d || d + 256 <= k < ke);
            } else {
                assert(k < ks || k >= ke);
            }
        }
    }
}

} // verus!
