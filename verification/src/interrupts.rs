//! A lock for data that interrupt handlers may touch: taking it masks
//! interrupts, giving it back restores the interrupt mask that was there
//! before.
//!
//! The interrupt mask register itself is read and written by the caller:
//! `lock` is handed what was read, and `unlock` hands back what is to be
//! written.
use vstd::prelude::*;

verus! {

/// The bit of the interrupt mask register that masks interrupt requests.
pub const DAIF_IRQ: u64 = 0x80;

/// The interrupt mask `daif` with interrupt requests let through.
pub fn enable(daif: u64) -> (r: u64)
    ensures
        r == daif & !DAIF_IRQ,
{
    daif & !DAIF_IRQ
}

/// The interrupt mask `daif` with interrupt requests masked.
pub fn disable(daif: u64) -> (r: u64)
    ensures
        r == daif | DAIF_IRQ,
{
    daif | DAIF_IRQ
}

/// Masking interrupt requests masks them, and touches no other bit of the
/// interrupt mask; so does letting them through.
pub proof fn lemma_mask_bits(daif: u64)
    by (bit_vector)
    ensures
        (daif | 0x80u64) & 0x80u64 == 0x80u64,
        (daif | 0x80u64) & !0x80u64 == daif & !0x80u64,
        (daif & !0x80u64) & 0x80u64 == 0,
        (daif & !0x80u64) & !0x80u64 == daif & !0x80u64,
{
}

/// A value that is reached through a lock.
pub struct IrqMutex<T> {
    inner: T,
}

/// The right to use the value of a locked `IrqMutex`, with the interrupt
/// mask that was in force when the lock was taken.
pub struct IrqGuard {
    prev_state: u64,
}

impl<T> IrqMutex<T> {
    /// The value behind the lock.
    pub closed spec fn view(&self) -> T {
        self.inner
    }

    /// A lock around `value`.
    pub fn new(value: T) -> (r: Self)
        ensures
            r.view() == value,
    {
        Self { inner: value }
    }

    /// Takes the lock while the interrupt mask is `daif`. The caller
    /// writes `disable(daif)` to the interrupt mask before it uses the
    /// value.
    pub fn lock(&self, daif: u64) -> (r: IrqGuard)
        ensures
            r.prev_state() == daif,
    {
        IrqGuard { prev_state: daif }
    }

    /// The value behind the lock, for the holder of a guard.
    pub fn deref(&self, guard: &IrqGuard) -> (r: &T)
        ensures
            *r == self.view(),
    {
        &self.inner
    }

    /// The value behind the lock, for writing, for the holder of a guard.
    pub fn deref_mut(&mut self, guard: &IrqGuard) -> (r: &mut T)
        ensures
            *r == old(self).view(),
            final(self).view() == *final(r),
    {
        &mut self.inner
    }
}

impl IrqGuard {
    /// The interrupt mask that was in force when the lock was taken.
    pub closed spec fn prev_state(&self) -> u64 {
        self.prev_state
    }

    /// Gives the lock back: the interrupt mask that the caller has to
    /// restore is the one that was in force when the lock was taken.
    pub fn unlock(self) -> (r: u64)
        ensures
            r == self.prev_state(),
    {
        self.prev_state
    }
}

} // verus!
