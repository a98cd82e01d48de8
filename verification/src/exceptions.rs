//! What the exception vector hands to the kernel, and what the kernel
//! makes of it.
use crate::page_alloc::BitmapPageAlloc;
use crate::usermode::{handle_syscall, handle_syscall_post, KernelLayout, SyscallAction, Thread};
use vstd::prelude::*;

verus! {

/// Syndrome of a synchronous exception that is the instruction `svc #0`.
pub const ESR_SVC0: u64 = 0x5600_0000;

/// The registers of the interrupted code, as the exception vector saves
/// them and restores them on return.
#[derive(Copy, Clone, Debug)]
pub struct ExceptionContext {
    /// General purpose registers.
    pub gpr: [u64; 30],
    /// The link register, `x30`.
    pub lr: u64,
    /// Exception link register: the program counter when the exception
    /// happened.
    pub pc: u64,
    /// Saved program status.
    pub spsr: u64,
    /// The stack pointer.
    pub sp: u64,
}

/// What a synchronous exception is to the kernel.
#[derive(Copy, Clone, PartialEq, Eq, Structural, Debug)]
pub enum ExceptionClass {
    /// A system call.
    Syscall,
    /// Anything else: the kernel reports the registers and stops.
    Fatal,
}

/// Tells a system call from every other synchronous exception by the
/// syndrome register.
pub fn classify(esr: u64) -> (r: ExceptionClass)
    ensures
        r == ExceptionClass::Syscall <==> esr == ESR_SVC0,
        r == ExceptionClass::Fatal <==> esr != ESR_SVC0,
{
    if esr == ESR_SVC0 {
        ExceptionClass::Syscall
    } else {
        ExceptionClass::Fatal
    }
}

/// What the caller of `exception_handler2` has to do next.
#[derive(Copy, Clone, PartialEq, Eq, Structural, Debug)]
pub enum ExceptionAction {
    /// A system call has been served: do what is left of it.
    Syscall(SyscallAction),
    /// Report the registers and stop for good.
    Fatal,
}

/// Handles a synchronous exception of the thread with the saved registers
/// `e` and the syndrome `esr`: a system call is served, anything else is
/// fatal and changes nothing.
pub fn exception_handler2<const SIZE: usize>(
    e: &mut ExceptionContext,
    esr: u64,
    thread: &mut Thread,
    page_alloc: &mut BitmapPageAlloc<SIZE>,
    layout: &KernelLayout,
) -> (r: ExceptionAction)
    requires
        old(thread).wf(),
        old(page_alloc).wf(),
    ensures
        final(thread).wf(),
        final(page_alloc).wf(),
        esr == ESR_SVC0 ==> r is Syscall && handle_syscall_post(
            *old(e),
            *old(thread),
            *old(page_alloc),
            *layout,
            *final(e),
            *final(thread),
            *final(page_alloc),
            r->Syscall_0,
        ),
        esr != ESR_SVC0 ==> {
            &&& r == ExceptionAction::Fatal
            &&& *final(e) == *old(e)
            &&& *final(thread) == *old(thread)
            &&& *final(page_alloc) == *old(page_alloc)
        },
{
    match classify(esr) {
        ExceptionClass::Syscall => ExceptionAction::Syscall(
            handle_syscall(e, thread, page_alloc, layout),
        ),
        ExceptionClass::Fatal => ExceptionAction::Fatal,
    }
}

} // verus!
