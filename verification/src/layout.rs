//! How a virtual address is taken apart by the four levels of translation
//! tables: which entry of a table it goes through, and which slot of
//! addresses an entry covers.
use crate::mmu::{TABLE_TOP, USER_TOP};
use vstd::prelude::*;

verus! {

/// Bytes that one entry of a table of height `h` covers.
pub open spec fn span(h: nat) -> int {
    if h == 0 {
        0x1000
    } else if h == 1 {
        0x20_0000
    } else if h == 2 {
        0x4000_0000
    } else if h == 3 {
        0x80_0000_0000
    } else {
        0x1_0000_0000_0000
    }
}

/// The entry of a table of height `h` that `va` goes through.
#[verifier::opaque]
pub open spec fn index_of(va: int, h: nat) -> int {
    if h == 0 {
        (va / 0x1000) % 512
    } else if h == 1 {
        (va / 0x20_0000) % 512
    } else if h == 2 {
        (va / 0x4000_0000) % 512
    } else if h == 3 {
        (va / 0x80_0000_0000) % 512
    } else {
        (va / 0x1_0000_0000_0000) % 512
    }
}

/// First address of the `span(h)`-sized slot that holds `va`.
#[verifier::opaque]
pub open spec fn slot_start(va: int, h: nat) -> int {
    if h == 0 {
        va - va % 0x1000
    } else if h == 1 {
        va - va % 0x20_0000
    } else if h == 2 {
        va - va % 0x4000_0000
    } else if h == 3 {
        va - va % 0x80_0000_0000
    } else {
        va - va % 0x1_0000_0000_0000
    }
}

/// First address behind the `span(h)`-sized slot that holds `va`.
pub open spec fn slot_end(va: int, h: nat) -> int {
    slot_start(va, h) + span(h)
}

/// The shifts by which the four levels index an address.
pub open spec fn valid_shift(addr_shift: usize) -> bool {
    addr_shift == 12 || addr_shift == 21 || addr_shift == 30 || addr_shift == 39
}

/// The height of the table that indexes addresses by `addr_shift`.
pub open spec fn shift_height(addr_shift: usize) -> nat {
    ((addr_shift - 12) / 9) as nat
}

/// A slot holds its addresses, is as long as an entry covers, starts and
/// ends on page boundaries, and lies inside the slot one level up, whose
/// end it shares exactly if it is the last of the 512.
pub(crate) proof fn lemma_slot(h: nat, c: int)
    requires
        h <= 4,
        0 <= c,
    ensures
        span(h) > 0,
        span(h) % 4096 == 0,
        slot_start(c, h) <= c < slot_end(c, h),
        slot_end(c, h) - slot_start(c, h) == span(h),
        slot_start(c, h) % 4096 == 0,
        slot_end(c, h) % 4096 == 0,
        h == 0 ==> slot_start(c, h) == c - c % 4096,
        0 <= slot_start(c, h),
        c < TABLE_TOP ==> slot_end(c, h) <= TABLE_TOP,
        h == 4 && c < TABLE_TOP ==> slot_start(c, h) == 0,
        h == 3 && c < USER_TOP ==> slot_start(c, h) == 0,
        0 <= index_of(c, h) < 512,
        h <= 3 ==> slot_start(c, h + 1) <= slot_start(c, h),
        h <= 3 ==> slot_end(c, h) <= slot_end(c, h + 1),
        h <= 3 ==> (index_of(c, h) == 511 <==> slot_end(c, h) == slot_end(c, h + 1)),
{
    reveal(slot_start);
    reveal(index_of);
    if h == 0 {
        let q = c / 0x1000;
        let a = q / 512;
        assert(c / 0x20_0000 == a);
        assert(c % 0x20_0000 == 0x1000 * (q % 512) + c % 0x1000);
        assert((c - c % 0x1000) % 4096 == 0);
        if c < 0x1_0000_0000_0000 {
            assert(q < 0x10_0000_0000);
        }
    } else if h == 1 {
        let q = c / 0x20_0000;
        let a = q / 512;
        assert(c / 0x4000_0000 == a);
        assert(c % 0x4000_0000 == 0x20_0000 * (q % 512) + c % 0x20_0000);
        assert((c - c % 0x20_0000) % 4096 == 0);
        if c < 0x1_0000_0000_0000 {
            assert(q < 0x800_0000);
        }
    } else if h == 2 {
        let q = c / 0x4000_0000;
        let a = q / 512;
        assert(c / 0x80_0000_0000 == a);
        assert(c % 0x80_0000_0000 == 0x4000_0000 * (q % 512) + c % 0x4000_0000);
        assert((c - c % 0x4000_0000) % 4096 == 0);
        if c < 0x1_0000_0000_0000 {
            assert(q < 0x4_0000);
        }
    } else if h == 3 {
        let q = c / 0x80_0000_0000;
        let a = q / 512;
        assert(c / 0x1_0000_0000_0000 == a);
        assert(c % 0x1_0000_0000_0000 == 0x80_0000_0000 * (q % 512) + c % 0x80_0000_0000);
        assert((c - c % 0x80_0000_0000) % 4096 == 0);
        if c < 0x1_0000_0000_0000 {
            assert(q < 0x200);
        }
    } else {
        assert((c - c % 0x1_0000_0000_0000) % 4096 == 0);
    }
}

/// An address in the slot of another has the same slot and the same index.
pub(crate) proof fn lemma_same_slot(h: nat, c: int, va: int)
    requires
        h <= 4,
        0 <= c,
        slot_start(c, h) <= va < slot_end(c, h),
    ensures
        index_of(va, h) == index_of(c, h),
        slot_start(va, h) == slot_start(c, h),
        slot_end(va, h) == slot_end(c, h),
{
    reveal(slot_start);
    reveal(index_of);
    if h == 0 {
    } else if h == 1 {
    } else if h == 2 {
    } else if h == 3 {
    } else {
    }
}

/// The start of a slot lies in the slot.
pub(crate) proof fn lemma_slot_fixed(h: nat, c: int)
    requires
        h <= 4,
        0 <= c,
    ensures
        slot_start(slot_start(c, h), h) == slot_start(c, h),
{
    lemma_slot(h, c);
    lemma_same_slot(h, c, slot_start(c, h));
}

/// Behind a slot that is not the last of its table comes the slot of the
/// next index in the same table.
pub(crate) proof fn lemma_next_slot(h: nat, c: int)
    requires
        h <= 3,
        0 <= c,
        index_of(c, h) < 511,
    ensures
        index_of(slot_end(c, h), h) == index_of(c, h) + 1,
        slot_start(slot_end(c, h), h) == slot_end(c, h),
        slot_end(slot_end(c, h), (h + 1) as nat) == slot_end(c, (h + 1) as nat),
{
    reveal(slot_start);
    reveal(index_of);
    let e = slot_end(c, h);
    if h == 0 {
        let q = c / 0x1000;
        let a = q / 512;
        assert(e == 0x1000 * (q + 1));
        assert(e / 0x1000 == q + 1);
        assert((q + 1) / 512 == a);
        assert(e == 0x20_0000 * a + 0x1000 * (q % 512 + 1));
        assert(e / 0x20_0000 == a);
        assert(c / 0x20_0000 == a);
    } else if h == 1 {
        let q = c / 0x20_0000;
        let a = q / 512;
        assert(e == 0x20_0000 * (q + 1));
        assert(e / 0x20_0000 == q + 1);
        assert((q + 1) / 512 == a);
        assert(e == 0x4000_0000 * a + 0x20_0000 * (q % 512 + 1));
        assert(e / 0x4000_0000 == a);
        assert(c / 0x4000_0000 == a);
    } else if h == 2 {
        let q = c / 0x4000_0000;
        let a = q / 512;
        assert(e == 0x4000_0000 * (q + 1));
        assert(e / 0x4000_0000 == q + 1);
        assert((q + 1) / 512 == a);
        assert(e == 0x80_0000_0000 * a + 0x4000_0000 * (q % 512 + 1));
        assert(e / 0x80_0000_0000 == a);
        assert(c / 0x80_0000_0000 == a);
    } else {
        let q = c / 0x80_0000_0000;
        let a = q / 512;
        assert(e == 0x80_0000_0000 * (q + 1));
        assert(e / 0x80_0000_0000 == q + 1);
        assert((q + 1) / 512 == a);
        assert(e == 0x1_0000_0000_0000 * a + 0x80_0000_0000 * (q % 512 + 1));
        assert(e / 0x1_0000_0000_0000 == a);
        assert(c / 0x1_0000_0000_0000 == a);
    }
}

/// Two addresses in one slot are in one slot one level up as well, and
/// have the same index.
pub(crate) proof fn lemma_slot_up(h: nat, a: int, b: int)
    requires
        h <= 3,
        0 <= a,
        0 <= b,
        slot_start(a, h) == slot_start(b, h),
    ensures
        slot_start(a, (h + 1) as nat) == slot_start(b, (h + 1) as nat),
        index_of(a, h) == index_of(b, h),
{
    reveal(slot_start);
    reveal(index_of);
    if h == 0 {
        assert(a / 0x1000 == b / 0x1000);
        assert(a / 0x20_0000 == (a / 0x1000) / 512);
        assert(b / 0x20_0000 == (b / 0x1000) / 512);
    } else if h == 1 {
        assert(a / 0x20_0000 == b / 0x20_0000);
        assert(a / 0x4000_0000 == (a / 0x20_0000) / 512);
        assert(b / 0x4000_0000 == (b / 0x20_0000) / 512);
    } else if h == 2 {
        assert(a / 0x4000_0000 == b / 0x4000_0000);
        assert(a / 0x80_0000_0000 == (a / 0x4000_0000) / 512);
        assert(b / 0x80_0000_0000 == (b / 0x4000_0000) / 512);
    } else {
        assert(a / 0x80_0000_0000 == b / 0x80_0000_0000);
        assert(a / 0x1_0000_0000_0000 == (a / 0x80_0000_0000) / 512);
        assert(b / 0x1_0000_0000_0000 == (b / 0x80_0000_0000) / 512);
    }
}

/// Two addresses in one slot are in one slot on every level further up.
pub(crate) proof fn lemma_slot_nested(at: nat, h: nat, a: int, b: int)
    requires
        at <= h <= 4,
        0 <= a,
        0 <= b,
        slot_start(a, at) == slot_start(b, at),
    ensures
        slot_start(a, h) == slot_start(b, h),
        h <= 3 ==> index_of(a, h) == index_of(b, h),
    decreases h - at,
{
    if at < h {
        lemma_slot_up(at, a, b);
        lemma_slot_nested(at + 1, h, a, b);
    } else if h <= 3 {
        lemma_slot_up(h, a, b);
    }
}

/// Two addresses in one slot that have the same index one level down are
/// in one slot there.
pub(crate) proof fn lemma_slot_same_index(h: nat, a: int, b: int)
    requires
        h <= 3,
        0 <= a,
        0 <= b,
        slot_start(a, (h + 1) as nat) == slot_start(b, (h + 1) as nat),
        index_of(a, h) == index_of(b, h),
    ensures
        slot_start(a, h) == slot_start(b, h),
{
    reveal(slot_start);
    reveal(index_of);
    if h == 0 {
        assert(a / 0x20_0000 == b / 0x20_0000);
        assert(a / 0x20_0000 == (a / 0x1000) / 512);
        assert(b / 0x20_0000 == (b / 0x1000) / 512);
        assert(a / 0x1000 == b / 0x1000);
    } else if h == 1 {
        assert(a / 0x4000_0000 == b / 0x4000_0000);
        assert(a / 0x4000_0000 == (a / 0x20_0000) / 512);
        assert(b / 0x4000_0000 == (b / 0x20_0000) / 512);
        assert(a / 0x20_0000 == b / 0x20_0000);
    } else if h == 2 {
        assert(a / 0x80_0000_0000 == b / 0x80_0000_0000);
        assert(a / 0x80_0000_0000 == (a / 0x4000_0000) / 512);
        assert(b / 0x80_0000_0000 == (b / 0x4000_0000) / 512);
        assert(a / 0x4000_0000 == b / 0x4000_0000);
    } else {
        assert(a / 0x1_0000_0000_0000 == b / 0x1_0000_0000_0000);
        assert(a / 0x1_0000_0000_0000 == (a / 0x80_0000_0000) / 512);
        assert(b / 0x1_0000_0000_0000 == (b / 0x80_0000_0000) / 512);
        assert(a / 0x80_0000_0000 == b / 0x80_0000_0000);
    }
}

/// Bytes from `vaddr` to the end of the entry that it goes through in the
/// table that indexes by `addr_shift`.
pub(crate) fn slot_rest(vaddr: u64, addr_shift: usize) -> (r: u64)
    requires
        valid_shift(addr_shift),
    ensures
        r == slot_end(vaddr as int, shift_height(addr_shift)) - vaddr,
        0 < r <= span(shift_height(addr_shift)),
{
    proof {
        reveal(slot_start);
        reveal(index_of);
    }
    if addr_shift == 12 {
        0x1000 - vaddr % 0x1000
    } else if addr_shift == 21 {
        0x20_0000 - vaddr % 0x20_0000
    } else if addr_shift == 30 {
        0x4000_0000 - vaddr % 0x4000_0000
    } else {
        0x80_0000_0000 - vaddr % 0x80_0000_0000
    }
}

/// First address of the entry that `vaddr` goes through in the table that
/// indexes by `addr_shift`.
pub(crate) fn slot_base(vaddr: u64, addr_shift: usize) -> (r: u64)
    requires
        valid_shift(addr_shift),
    ensures
        r == slot_start(vaddr as int, shift_height(addr_shift)),
{
    proof {
        reveal(slot_start);
        reveal(index_of);
    }
    if addr_shift == 12 {
        vaddr - vaddr % 0x1000
    } else if addr_shift == 21 {
        vaddr - vaddr % 0x20_0000
    } else if addr_shift == 30 {
        vaddr - vaddr % 0x4000_0000
    } else {
        vaddr - vaddr % 0x80_0000_0000
    }
}

/// The entry that `vaddr` goes through in the table that indexes by
/// `addr_shift`.
pub(crate) fn table_index(vaddr: u64, addr_shift: usize) -> (r: usize)
    requires
        valid_shift(addr_shift),
    ensures
        r == index_of(vaddr as int, shift_height(addr_shift)),
        r < 512,
{
    proof {
        reveal(slot_start);
        reveal(index_of);
    }
    if addr_shift == 12 {
        ((vaddr / 0x1000) % 512) as usize
    } else if addr_shift == 21 {
        ((vaddr / 0x20_0000) % 512) as usize
    } else if addr_shift == 30 {
        ((vaddr / 0x4000_0000) % 512) as usize
    } else {
        ((vaddr / 0x80_0000_0000) % 512) as usize
    }
}

/// The slot of height `at` that holds `va` is one that the first `k` pages
/// from `v` on reach.
pub open spec fn touched(v: int, k: int, at: nat, va: int) -> bool {
    k > 0 && slot_start(v, at) <= slot_start(va, at) <= slot_start(v + (k - 1) * 4096, at)
}

/// Page `k` from `v` on is the first of those pages in its slot of height
/// `at`.
pub open spec fn first_in_slot(v: int, k: int, at: nat) -> bool {
    k == 0 || slot_start(v + k * 4096, at) != slot_start(v + (k - 1) * 4096, at)
}

/// Index of the first of the pages from `v` on that lies in the slot of
/// height `at` that holds `va`.
pub open spec fn first_page_in_slot(v: int, at: nat, va: int) -> int {
    if slot_start(va, at) <= v {
        0
    } else {
        (slot_start(va, at) - v) / 4096
    }
}

/// Slots are in the order of their addresses, do not overlap, and lie no
/// further apart than the addresses plus the length of a slot.
pub(crate) proof fn lemma_slot_order(at: nat, a: int, b: int)
    requires
        at <= 3,
        0 <= a <= b,
    ensures
        slot_start(a, at) <= slot_start(b, at),
        slot_start(a, at) < slot_start(b, at) ==> slot_start(a, at) + span(at) <= slot_start(
            b,
            at,
        ),
        b - a <= span(at) ==> slot_start(b, at) <= slot_start(a, at) + span(at),
{
    reveal(slot_start);
    reveal(index_of);
    if at == 0 {
        assert(a / 0x1000 <= b / 0x1000);
        assert(slot_start(a, at) == 0x1000 * (a / 0x1000));
        assert(slot_start(b, at) == 0x1000 * (b / 0x1000));
    } else if at == 1 {
        assert(a / 0x20_0000 <= b / 0x20_0000);
        assert(slot_start(a, at) == 0x20_0000 * (a / 0x20_0000));
        assert(slot_start(b, at) == 0x20_0000 * (b / 0x20_0000));
    } else if at == 2 {
        assert(a / 0x4000_0000 <= b / 0x4000_0000);
        assert(slot_start(a, at) == 0x4000_0000 * (a / 0x4000_0000));
        assert(slot_start(b, at) == 0x4000_0000 * (b / 0x4000_0000));
    } else {
        assert(a / 0x80_0000_0000 <= b / 0x80_0000_0000);
        assert(slot_start(a, at) == 0x80_0000_0000 * (a / 0x80_0000_0000));
        assert(slot_start(b, at) == 0x80_0000_0000 * (b / 0x80_0000_0000));
    }
}

/// One page more reaches the slots reached so far and its own; and the
/// pages before a page reach its slot exactly if it is not the first in
/// it.
pub(crate) proof fn lemma_touched_step(v: int, k: int, at: nat, va: int)
    requires
        at <= 3,
        0 <= v,
        0 <= k,
        0 <= va,
    ensures
        touched(v, k + 1, at, va) <==> touched(v, k, at, va) || slot_start(va, at) == slot_start(
            v + k * 4096,
            at,
        ),
        touched(v, k, at, v + k * 4096) <==> !first_in_slot(v, k, at),
{
    let cur = v + k * 4096;
    lemma_slot(at, cur);
    lemma_slot(at, va);
    lemma_slot(at, v);
    lemma_slot_order(at, v, cur);
    if va <= cur {
        lemma_slot_order(at, va, cur);
    } else {
        lemma_slot_order(at, cur, va);
    }
    if k > 0 {
        let prev = v + (k - 1) * 4096;
        lemma_slot(at, prev);
        lemma_slot_order(at, v, prev);
        lemma_slot_order(at, prev, cur);
        if va <= prev {
            lemma_slot_order(at, va, prev);
        } else {
            lemma_slot_order(at, prev, va);
        }
    }
}

/// A page that is the first in its slot is the first page of every
/// address in that slot.
pub(crate) proof fn lemma_first_page(v: int, k: int, at: nat, va: int)
    requires
        at <= 3,
        0 <= v,
        v % 4096 == 0,
        0 <= k,
        0 <= va,
        first_in_slot(v, k, at),
        slot_start(va, at) == slot_start(v + k * 4096, at),
    ensures
        first_page_in_slot(v, at, va) == k,
{
    let cur = v + k * 4096;
    let start = slot_start(cur, at);
    lemma_slot(at, cur);
    if k > 0 {
        let prev = cur - 4096;
        let before = slot_start(prev, at);
        lemma_slot(at, prev);
        lemma_slot_order(at, prev, cur);
        assert(before < start);
        assert(before + span(at) <= start);
        assert(prev < before + span(at));
        assert(prev < start <= cur);
        assert(start % 4096 == 0);
        assert(cur % 4096 == 0);
        assert(start == cur);
        assert(start - v == k * 4096);
    } else {
        assert(start <= v);
    }
}

/// The page that holds `va` has a byte in `[vaddr, vaddr + size)`.
pub open spec fn page_in_range(va: int, vaddr: int, size: int) -> bool {
    size > 0 && slot_start(vaddr, 0) <= va && slot_start(va, 0) < vaddr + size
}

} // verus!
