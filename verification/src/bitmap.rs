//! A packed bit-vector of `64 * SIZE` slots with hole search, marking,
//! freeing, and range move / zero operations.
//!
//! The mathematical model of a bitmap is a `Seq<bool>` with one element per
//! slot; slot `i` lives in bit `i % 64` of cell `i / 64`.
use vstd::prelude::*;

verus! {

/// Whether bit `j` of `word` is set.
pub open spec fn word_bit(word: u64, j: int) -> bool {
    0 <= j < 64 && word & (1u64 << (j as u64)) != 0
}

/// Every slot in `[i, i + n)` is clear.
pub open spec fn range_clear(bits: Seq<bool>, i: int, n: int) -> bool {
    forall|k: int| i <= k < i + n ==> !(#[trigger] bits[k])
}

/// Every slot in `[i, i + n)` is set.
pub open spec fn range_set(bits: Seq<bool>, i: int, n: int) -> bool {
    forall|k: int| i <= k < i + n ==> #[trigger] bits[k]
}

/// `bits` with every slot in `[i, i + n)` replaced by `value`.
pub open spec fn fill_range(bits: Seq<bool>, i: int, n: int, value: bool) -> Seq<bool> {
    Seq::new(
        bits.len(),
        |k: int|
            if i <= k < i + n {
                value
            } else {
                bits[k]
            },
    )
}

/// `bits` with the `n` slots starting at `src` copied to the `n` slots
/// starting at `dst`; everything outside `[dst, dst + n)` keeps its value.
pub open spec fn move_range(bits: Seq<bool>, src: int, dst: int, n: int) -> Seq<bool> {
    Seq::new(
        bits.len(),
        |k: int|
            if dst <= k < dst + n {
                bits[k - dst + src]
            } else {
                bits[k]
            },
    )
}

/// `[i, i + n)` lies inside `bits` and is entirely clear.
pub open spec fn hole_at(bits: Seq<bool>, i: int, n: int) -> bool {
    &&& 0 <= i
    &&& i + n <= bits.len()
    &&& range_clear(bits, i, n)
}

/// `i` is the lowest index at which a hole of `n` slots starts.
pub open spec fn is_first_hole(bits: Seq<bool>, i: int, n: int) -> bool {
    &&& hole_at(bits, i, n)
    &&& forall|j: int| 0 <= j < i ==> !hole_at(bits, j, n)
}

/// No hole of `n` slots exists anywhere in `bits`.
pub open spec fn no_hole(bits: Seq<bool>, n: int) -> bool {
    forall|j: int| !hole_at(bits, j, n)
}

/// Number of clear slots among the first `upto` slots of `bits`.
pub open spec fn count_clear(bits: Seq<bool>, upto: int) -> nat
    decreases upto,
{
    if upto <= 0 {
        0
    } else {
        count_clear(bits, upto - 1) + if bits[upto - 1] {
            0nat
        } else {
            1nat
        }
    }
}

/// Setting bit `j` of a word sets it and leaves every other bit.
proof fn lemma_or_bit(w: u64, j: u64, k: u64)
    by (bit_vector)
    requires
        j < 64,
        k < 64,
    ensures
        ((w | (1u64 << j)) & (1u64 << k) != 0) == (k == j || w & (1u64 << k) != 0),
{
}

/// Clearing bit `j` of a word clears it and leaves every other bit.
proof fn lemma_clear_bit(w: u64, j: u64, k: u64)
    by (bit_vector)
    requires
        j < 64,
        k < 64,
    ensures
        ((w & !(1u64 << j)) & (1u64 << k) != 0) == (k != j && w & (1u64 << k) != 0),
{
}

/// Every bit of the all-ones word is set, and no bit of zero.
proof fn lemma_full_word(k: u64)
    by (bit_vector)
    requires
        k < 64,
    ensures
        0xffff_ffff_ffff_ffffu64 & (1u64 << k) != 0,
        0u64 & (1u64 << k) == 0,
{
}

/// A single set bit is a positive number.
proof fn lemma_low_mask(a: u64)
    by (bit_vector)
    requires
        a < 64,
    ensures
        (1u64 << a) >= 1,
{
}

/// The mask of the bits below `a` keeps those bits and clears the rest.
proof fn lemma_prefix_mask(w: u64, a: u64, k: u64)
    by (bit_vector)
    requires
        a < 64,
        k < 64,
    ensures
        ((w & (((1u64 << a) - 1) as u64)) & (1u64 << k) != 0) == (k < a && w & (1u64 << k) != 0),
{
}

/// The mask of the bits from `b` on keeps those bits and clears the rest.
proof fn lemma_suffix_mask(w: u64, b: u64, k: u64)
    by (bit_vector)
    requires
        b < 64,
        k < 64,
    ensures
        ((w & !(((1u64 << b) - 1) as u64)) & (1u64 << k) != 0) == (k >= b && w & (1u64 << k)
            != 0),
{
}

/// The two masks together clear the bits from `a` up to `b` and keep the
/// rest.
proof fn lemma_window_mask(w: u64, a: u64, b: u64, k: u64)
    by (bit_vector)
    requires
        a < 64,
        b < 64,
        k < 64,
    ensures
        ((w & ((((1u64 << a) - 1) as u64) | !(((1u64 << b) - 1) as u64))) & (1u64 << k) != 0) == ((k
            < a || k >= b) && w & (1u64 << k) != 0),
{
}

/// Marking a clear range and freeing it again gives back the bitmap one
/// started from.
pub proof fn lemma_mark_then_free_restores(bits: Seq<bool>, i: int, n: int)
    requires
        range_clear(bits, i, n),
    ensures
        fill_range(fill_range(bits, i, n, true), i, n, false) == bits,
{
    assert(fill_range(fill_range(bits, i, n, true), i, n, false) =~= bits);
}

/// After the lowest hole of `n` slots has been marked allocated, every hole
/// of `n` slots that is left starts at or after the end of that range, and
/// was already a hole before.
pub proof fn lemma_holes_after_alloc(bits: Seq<bool>, i: int, n: int, j: int)
    requires
        is_first_hole(bits, i, n),
        hole_at(fill_range(bits, i, n, true), j, n),
    ensures
        hole_at(bits, j, n),
        j >= i + n,
{
    let after = fill_range(bits, i, n, true);
    assert forall|k: int| j <= k < j + n implies !(#[trigger] bits[k]) by {
        assert(!after[k]);
    }
    if n > 0 && j < i + n {
        if j >= i {
            assert(!after[j]);
        } else {
            assert(hole_at(bits, j, n));
        }
    }
}

/// The lowest index at which a hole of `n` slots starts, if there is a
/// hole.
pub open spec fn first_hole(bits: Seq<bool>, n: int) -> int {
    choose|i: int| is_first_hole(bits, i, n)
}

/// The lowest clear slot of `bits`, if one is clear.
pub open spec fn first_clear(bits: Seq<bool>) -> int {
    choose|i: int| is_first_hole(bits, i, 1)
}

/// `bits` after the lowest clear slot has been set, `k` times over.
pub open spec fn take_frames(bits: Seq<bool>, k: nat) -> Seq<bool>
    decreases k,
{
    if k == 0 {
        bits
    } else {
        let before = take_frames(bits, (k - 1) as nat);
        fill_range(before, first_clear(before), 1, true)
    }
}

/// The slot that the `k`-th of a series of single allocations takes, the
/// first one being number 0.
pub open spec fn nth_free(bits: Seq<bool>, k: nat) -> int {
    first_clear(take_frames(bits, k))
}

/// There is only one lowest hole.
pub proof fn lemma_first_hole_unique(bits: Seq<bool>, i: int, j: int, n: int)
    requires
        is_first_hole(bits, i, n),
        is_first_hole(bits, j, n),
    ensures
        i == j,
{
    if i < j {
        assert(!hole_at(bits, i, n));
    } else if j < i {
        assert(!hole_at(bits, j, n));
    }
}

/// The lowest hole of one slot is the lowest clear slot.
pub proof fn lemma_first_clear(bits: Seq<bool>, i: int)
    requires
        is_first_hole(bits, i, 1),
    ensures
        first_clear(bits) == i,
{
    lemma_first_hole_unique(bits, i, first_clear(bits), 1);
}

/// Taking `k` frames after one frame is taking `k + 1` frames.
pub proof fn lemma_take_frames_shift(bits: Seq<bool>, k: nat)
    ensures
        take_frames(take_frames(bits, 1), k) == take_frames(bits, k + 1),
    decreases k,
{
    if k > 0 {
        lemma_take_frames_shift(bits, (k - 1) as nat);
    } else {
        assert(take_frames(bits, 0) == bits);
    }
}

/// Where there is a hole there is a lowest hole.
pub proof fn lemma_some_first_hole(bits: Seq<bool>, w: int)
    requires
        hole_at(bits, w, 1),
    ensures
        is_first_hole(bits, first_clear(bits), 1),
    decreases w,
{
    if exists|j: int| 0 <= j < w && hole_at(bits, j, 1) {
        let j = choose|j: int| 0 <= j < w && hole_at(bits, j, 1);
        lemma_some_first_hole(bits, j);
    } else {
        assert(is_first_hole(bits, w, 1));
    }
}

/// Taking `a` frames and then `b` frames is taking `a + b` frames.
pub proof fn lemma_take_frames_add(bits: Seq<bool>, a: nat, b: nat)
    ensures
        take_frames(take_frames(bits, a), b) == take_frames(bits, a + b),
    decreases b,
{
    if b > 0 {
        lemma_take_frames_add(bits, a, (b - 1) as nat);
    }
}

/// Taking `k` frames where at least `k` are free leaves `k` fewer free and
/// keeps the number of slots.
pub proof fn lemma_take_frames_count(bits: Seq<bool>, k: nat)
    requires
        k <= count_clear(bits, bits.len() as int),
    ensures
        take_frames(bits, k).len() == bits.len(),
        count_clear(take_frames(bits, k), bits.len() as int) == count_clear(
            bits,
            bits.len() as int,
        ) - k,
    decreases k,
{
    if k > 0 {
        lemma_take_frames_count(bits, (k - 1) as nat);
        let before = take_frames(bits, (k - 1) as nat);
        lemma_count_positive(before, before.len() as int);
        let w = choose|w: int| hole_at(before, w, 1);
        lemma_some_first_hole(before, w);
        let i = first_clear(before);
        assert(!before[i]);
        lemma_count_after_set(before, i, before.len() as int);
    }
}

/// Setting a clear range lowers the count of clear slots by its length.
pub proof fn lemma_count_after_fill(bits: Seq<bool>, i: int, n: int, upto: int)
    requires
        0 <= n,
        hole_at(bits, i, n),
        i + n <= upto <= bits.len(),
    ensures
        count_clear(fill_range(bits, i, n, true), upto) == count_clear(bits, upto) - n,
    decreases n,
{
    if n > 0 {
        let shorter = fill_range(bits, i, n - 1, true);
        lemma_count_after_fill(bits, i, n - 1, upto);
        assert(!shorter[i + n - 1]);
        lemma_count_after_set(shorter, i + n - 1, upto);
        assert(fill_range(shorter, i + n - 1, 1, true) =~= fill_range(bits, i, n, true));
    } else {
        assert(fill_range(bits, i, n, true) =~= bits);
    }
}

/// A slot that is set stays set when frames are taken.
pub proof fn lemma_take_frames_keeps(bits: Seq<bool>, k: nat, i: int)
    requires
        0 <= i < bits.len(),
        bits[i],
    ensures
        take_frames(bits, k).len() == bits.len(),
        take_frames(bits, k)[i],
    decreases k,
{
    if k > 0 {
        lemma_take_frames_keeps(bits, (k - 1) as nat, i);
    }
}

/// Where clear slots are counted, a slot is clear.
pub proof fn lemma_count_positive(bits: Seq<bool>, upto: int)
    requires
        count_clear(bits, upto) > 0,
        upto <= bits.len(),
    ensures
        !no_hole(bits, 1),
    decreases upto,
{
    if upto > 0 {
        if bits[upto - 1] {
            lemma_count_positive(bits, upto - 1);
        } else {
            assert(hole_at(bits, upto - 1, 1));
        }
    }
}

/// Setting one clear slot lowers the count of clear slots by one.
pub proof fn lemma_count_after_set(bits: Seq<bool>, i: int, upto: int)
    requires
        0 <= i < bits.len(),
        !bits[i],
        upto <= bits.len(),
    ensures
        count_clear(fill_range(bits, i, 1, true), upto) == count_clear(bits, upto) - (if i
            < upto {
            1int
        } else {
            0int
        }),
    decreases upto,
{
    if upto > 0 {
        lemma_count_after_set(bits, i, upto - 1);
    }
}

/// Walks the slots of a bitmap from the lowest index up.
pub struct BitmapIterator<'a, const SIZE: usize> {
    bitmap: &'a [u64; SIZE],
    idx: usize,
}

impl<'a, const SIZE: usize> BitmapIterator<'a, SIZE> {
    /// The slots that have not been handed out yet.
    pub closed spec fn remaining(&self) -> Seq<bool> {
        Seq::new(
            (SIZE * 64 - self.idx) as nat,
            |i: int| word_bit(self.bitmap[(self.idx + i) / 64], (self.idx + i) % 64),
        )
    }

    /// The iterator's position is inside the bitmap.
    pub closed spec fn wf(&self) -> bool {
        &&& SIZE * 64 <= usize::MAX
        &&& self.idx <= SIZE * 64
    }

    /// Hands out the next slot, or `None` after the last one.
    pub fn next(&mut self) -> (r: Option<bool>)
        requires
            old(self).wf(),
        ensures
            final(self).wf(),
            old(self).remaining().len() == 0 ==> r is None && final(self).remaining()
                == old(self).remaining(),
            old(self).remaining().len() > 0 ==> r == Some(old(self).remaining()[0])
                && final(self).remaining() == old(self).remaining().skip(1),
    {
        if self.idx >= SIZE * 64 {
            return None;
        }
        let ghost before = self.remaining();
        let i = self.idx;
        let bit = self.bitmap[i / 64] & (1u64 << ((i % 64) as u64)) != 0;
        self.idx = i + 1;
        proof {
            assert(self.remaining() =~= before.skip(1));
        }
        Some(bit)
    }
}

/// `SIZE` cells of 64 bits each, one bit per slot.
pub struct Bitmap<const SIZE: usize> {
    pub bitmap: [u64; SIZE],
}

impl<const SIZE: usize> View for Bitmap<SIZE> {
    type V = Seq<bool>;

    open spec fn view(&self) -> Seq<bool> {
        Seq::new((SIZE * 64) as nat, |i: int| word_bit(self.bitmap[i / 64], i % 64))
    }
}

impl<const SIZE: usize> Bitmap<SIZE> {
    /// The number of slots fits the machine's index type.
    pub open spec fn fits() -> bool {
        SIZE * 64 <= usize::MAX
    }

    /// A bitmap with every slot clear.
    pub fn new() -> (r: Self)
        ensures
            r@ == Seq::new((SIZE * 64) as nat, |i: int| false),
    {
        let r = Self { bitmap: [0u64;SIZE] };
        proof {
            assert forall|i: int| 0 <= i < SIZE * 64 implies !word_bit(
                #[trigger] r.bitmap[i / 64],
                i % 64,
            ) by {
                lemma_full_word((i % 64) as u64);
            }
            assert(r@ =~= Seq::new((SIZE * 64) as nat, |i: int| false));
        }
        r
    }

    /// The lowest index at which `page_count` clear slots start, if there is
    /// one.
    pub fn find_hole(&self, page_count: usize) -> (r: Option<usize>)
        requires
            Self::fits(),
        ensures
            match r {
                Some(i) => is_first_hole(self@, i as int, page_count as int),
                None => no_hole(self@, page_count as int),
            },
    {
        if page_count == 0 {
            return Some(0);
        }
        let cap = SIZE * 64;
        let mut start: usize = 0;
        let mut i: usize = 0;
        while i < cap
            invariant
                Self::fits(),
                cap == SIZE * 64,
                page_count > 0,
                start <= i <= cap,
                i - start < page_count,
                range_clear(self@, start as int, i - start),
                forall|j: int| 0 <= j < start ==> !hole_at(self@, j, page_count as int),
            decreases cap - i,
        {
            if self.get(i) {
                proof {
                    assert forall|j: int| start <= j < i + 1 implies !hole_at(
                        self@,
                        j,
                        page_count as int,
                    ) by {
                        assert(self@[i as int]);
                    }
                }
                start = i + 1;
            } else if i - start + 1 == page_count {
                return Some(start);
            }
            i += 1;
        }
        proof {
            assert forall|j: int| !hole_at(self@, j, page_count as int) by {
                if start <= j && j + page_count <= cap {
                    assert(j + page_count > cap);
                }
            }
        }
        None
    }

    /// Finds the lowest hole of `page_count` slots and marks it allocated.
    pub fn allocate(&mut self, page_count: usize) -> (r: Option<usize>)
        requires
            Self::fits(),
        ensures
            match r {
                Some(i) => {
                    &&& is_first_hole(old(self)@, i as int, page_count as int)
                    &&& final(self)@ == fill_range(old(self)@, i as int, page_count as int, true)
                },
                None => {
                    &&& no_hole(old(self)@, page_count as int)
                    &&& final(self)@ == old(self)@
                },
            },
    {
        if let Some(page_num) = self.find_hole(page_count) {
            self.mark_allocated(page_num, page_count);
            Some(page_num)
        } else {
            None
        }
    }

    /// Sets the slots `[page_num, page_num + page_count)`, all of which must
    /// be clear.
    pub fn mark_allocated(&mut self, page_num: usize, page_count: usize)
        requires
            Self::fits(),
            page_num + page_count <= SIZE * 64,
            range_clear(old(self)@, page_num as int, page_count as int),
        ensures
            final(self)@ == fill_range(old(self)@, page_num as int, page_count as int, true),
    {
        self.fill(page_num, page_count, true);
    }

    /// Clears the slots `[page_num, page_num + page_count)`, all of which
    /// must be set.
    pub fn free(&mut self, page_num: usize, page_count: usize)
        requires
            Self::fits(),
            page_num + page_count <= SIZE * 64,
            range_set(old(self)@, page_num as int, page_count as int),
        ensures
            final(self)@ == fill_range(old(self)@, page_num as int, page_count as int, false),
    {
        self.fill(page_num, page_count, false);
    }

    /// Gives every slot of a range the same value: bit by bit up to the
    /// next cell boundary, then whole cells, then bit by bit again.
    fn fill(&mut self, page_num: usize, page_count: usize, value: bool)
        requires
            Self::fits(),
            page_num + page_count <= SIZE * 64,
        ensures
            final(self)@ == fill_range(old(self)@, page_num as int, page_count as int, value),
    {
        let mut num = page_num;
        let mut count = page_count;
        while num % 64 != 0 && count > 0
            invariant
                Self::fits(),
                page_num <= num,
                num + count == page_num + page_count,
                page_num + page_count <= SIZE * 64,
                self@ == fill_range(old(self)@, page_num as int, num - page_num, value),
            decreases count,
        {
            self.set(num, value);
            num += 1;
            count -= 1;
            proof {
                assert(self@ =~= fill_range(old(self)@, page_num as int, num - page_num, value));
            }
        }
        while count >= 64
            invariant
                Self::fits(),
                page_num <= num,
                num + count == page_num + page_count,
                page_num + page_count <= SIZE * 64,
                num % 64 == 0 || count == 0,
                self@ == fill_range(old(self)@, page_num as int, num - page_num, value),
            decreases count,
        {
            let ghost before = self@;
            let cell = num / 64;
            let word: u64 = if value {
                0xffff_ffff_ffff_ffffu64
            } else {
                0u64
            };
            self.bitmap[cell] = word;
            proof {
                assert forall|k: int| 0 <= k < SIZE * 64 implies #[trigger] self@[k] == (if num
                    <= k < num + 64 {
                    value
                } else {
                    before[k]
                }) by {
                    if k / 64 == cell as int {
                        lemma_full_word((k % 64) as u64);
                    }
                }
            }
            num += 64;
            count -= 64;
            proof {
                assert(self@ =~= fill_range(old(self)@, page_num as int, num - page_num, value));
            }
        }
        while count > 0
            invariant
                Self::fits(),
                page_num <= num,
                num + count == page_num + page_count,
                page_num + page_count <= SIZE * 64,
                self@ == fill_range(old(self)@, page_num as int, num - page_num, value),
            decreases count,
        {
            self.set(num, value);
            num += 1;
            count -= 1;
            proof {
                assert(self@ =~= fill_range(old(self)@, page_num as int, num - page_num, value));
            }
        }
    }

    /// The number of slots.
    pub fn bit_capacity(&self) -> (r: usize)
        requires
            Self::fits(),
        ensures
            r == SIZE * 64,
            r == self@.len(),
    {
        SIZE * 64
    }

    /// An iterator over all slots, lowest index first.
    pub fn iter(&self) -> (r: BitmapIterator<'_, SIZE>)
        requires
            Self::fits(),
        ensures
            r.wf(),
            r.remaining() == self@,
    {
        let r = BitmapIterator { bitmap: &self.bitmap, idx: 0 };
        proof {
            assert(r.remaining() =~= self@);
        }
        r
    }

    /// The value of slot `idx`.
    pub fn get(&self, idx: usize) -> (r: bool)
        requires
            idx < SIZE * 64,
        ensures
            r == self@[idx as int],
    {
        self.bitmap[idx / 64] & (1u64 << ((idx % 64) as u64)) != 0
    }

    /// Gives slot `idx` the value `value`.
    pub fn set(&mut self, idx: usize, value: bool)
        requires
            idx < SIZE * 64,
        ensures
            final(self)@ == old(self)@.update(idx as int, value),
    {
        let cell = idx / 64;
        let j = (idx % 64) as u64;
        let w = self.bitmap[cell];
        if value {
            self.bitmap[cell] = w | (1u64 << j);
        } else {
            self.bitmap[cell] = w & !(1u64 << j);
        }
        proof {
            assert forall|k: int| 0 <= k < SIZE * 64 implies #[trigger] self@[k] == old(self)@.update(idx as int, value)[k] by {
                if k / 64 == cell as int {
                    lemma_or_bit(w, j, (k % 64) as u64);
                    lemma_clear_bit(w, j, (k % 64) as u64);
                }
            }
            assert(self@ =~= old(self)@.update(idx as int, value));
        }
    }

    /// Copies the `count` slots starting at `src_idx` to the `count` slots
    /// starting at `dst_idx`, which must not lie before `src_idx`. The
    /// ranges may overlap.
    pub fn move_bit_range_forward(&mut self, src_idx: usize, dst_idx: usize, count: usize)
        requires
            Self::fits(),
            src_idx <= dst_idx,
            dst_idx + count <= SIZE * 64,
        ensures
            final(self)@ == move_range(
                old(self)@,
                src_idx as int,
                dst_idx as int,
                count as int,
            ),
    {
        if src_idx == dst_idx {
            proof {
                assert(self@ =~= move_range(
                    old(self)@,
                    src_idx as int,
                    dst_idx as int,
                    count as int,
                ));
            }
            return ;
        }
        let mut i = count;
        while i > 0
            invariant
                Self::fits(),
                src_idx < dst_idx,
                dst_idx + count <= SIZE * 64,
                i <= count,
                self@.len() == SIZE * 64,
                forall|k: int|
                    0 <= k < SIZE * 64 ==> #[trigger] self@[k] == (if dst_idx + i <= k < dst_idx
                        + count {
                        old(self)@[k - dst_idx + src_idx]
                    } else {
                        old(self)@[k]
                    }),
            decreases i,
        {
            i -= 1;
            let bit = self.get(src_idx + i);
            self.set(dst_idx + i, bit);
        }
        proof {
            assert(self@ =~= move_range(
                old(self)@,
                src_idx as int,
                dst_idx as int,
                count as int,
            ));
        }
    }

    /// Clears the slots `[idx, idx + count)` and touches no other slot. The
    /// cells at the two ends of the range are masked, the cells between
    /// them are cleared whole.
    pub fn zero_bit_range(&mut self, idx: usize, count: usize)
        requires
            Self::fits(),
            idx + count <= SIZE * 64,
        ensures
            final(self)@ == fill_range(old(self)@, idx as int, count as int, false),
    {
        if count == 0 {
            proof {
                assert(self@ =~= fill_range(old(self)@, idx as int, count as int, false));
            }
            return ;
        }
        let end = idx + count;
        let a = (idx % 64) as u64;
        let b = (end % 64) as u64;
        proof {
            lemma_low_mask(a);
            lemma_low_mask(b);
        }
        let prefix_mask: u64 = (1u64 << a) - 1;
        let suffix_mask: u64 = !((1u64 << b) - 1);
        if idx / 64 == end / 64 {
            let cell = idx / 64;
            let w = self.bitmap[cell];
            self.bitmap[cell] = w & (prefix_mask | suffix_mask);
            proof {
                assert forall|k: int| 0 <= k < SIZE * 64 implies #[trigger] self@[k] == fill_range(
                    old(self)@,
                    idx as int,
                    count as int,
                    false,
                )[k] by {
                    if k / 64 == cell as int {
                        lemma_window_mask(w, a, b, (k % 64) as u64);
                    }
                }
                assert(self@ =~= fill_range(old(self)@, idx as int, count as int, false));
            }
            return ;
        }
        let mut cell = idx / 64;
        if idx % 64 != 0 {
            let w = self.bitmap[cell];
            self.bitmap[cell] = w & prefix_mask;
            proof {
                assert forall|k: int| 0 <= k < SIZE * 64 implies #[trigger] self@[k] == (if idx
                    <= k < (cell + 1) * 64 {
                    false
                } else {
                    old(self)@[k]
                }) by {
                    if k / 64 == cell as int {
                        lemma_prefix_mask(w, a, (k % 64) as u64);
                    }
                }
            }
            cell += 1;
        }
        let last = end / 64;
        while cell < last
            invariant
                idx + count == end,
                end <= SIZE * 64,
                last == end / 64,
                idx <= cell * 64,
                cell <= last,
                self@.len() == SIZE * 64,
                forall|k: int|
                    0 <= k < SIZE * 64 ==> #[trigger] self@[k] == (if idx <= k < cell * 64 {
                        false
                    } else {
                        old(self)@[k]
                    }),
            decreases last - cell,
        {
            let ghost before = self@;
            self.bitmap[cell] = 0;
            proof {
                assert forall|k: int| 0 <= k < SIZE * 64 implies #[trigger] self@[k] == (if cell
                    * 64 <= k < (cell + 1) * 64 {
                    false
                } else {
                    before[k]
                }) by {
                    if k / 64 == cell as int {
                        lemma_full_word((k % 64) as u64);
                    }
                }
            }
            cell += 1;
        }
        if end % 64 != 0 {
            let ghost before = self@;
            let w = self.bitmap[last];
            self.bitmap[last] = w & suffix_mask;
            proof {
                assert forall|k: int| 0 <= k < SIZE * 64 implies #[trigger] self@[k] == (if last
                    * 64 <= k < end {
                    false
                } else {
                    before[k]
                }) by {
                    if k / 64 == last as int {
                        lemma_suffix_mask(w, b, (k % 64) as u64);
                    }
                }
            }
        }
        proof {
            assert(self@ =~= fill_range(old(self)@, idx as int, count as int, false));
        }
    }

    /// Counts the clear slots.
    pub fn count_free(&self) -> (r: usize)
        requires
            Self::fits(),
        ensures
            r == count_clear(self@, self@.len() as int),
    {
        let cap = SIZE * 64;
        let mut n: usize = 0;
        let mut i: usize = 0;
        while i < cap
            invariant
                cap == SIZE * 64,
                i <= cap,
                n <= i,
                n == count_clear(self@, i as int),
            decreases cap - i,
        {
            if !self.get(i) {
                n += 1;
            }
            i += 1;
        }
        n
    }
}

} // verus!
