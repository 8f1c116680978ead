//! Hart bookkeeping and the kernel spin lock.
use vstd::prelude::*;
use core::sync::atomic::{AtomicBool, Ordering};

verus! {

/// Most harts the kernel runs on.
pub const MAX_HARTS: usize = 8;
/// Stack bytes per secondary hart.
pub const SEC_STACK_SIZE: usize = 4096;

/// A test-and-set lock.
pub struct SpinLock {
    locked: AtomicBool,
}

impl SpinLock {
    /// An unlocked lock.
    pub fn new() -> (r: SpinLock) {
        SpinLock { locked: AtomicBool::new(false) }
    }

    /// One attempt to take the lock: sets it and reports whether it was
    /// free before.
    pub fn try_lock(&self) -> (r: bool) {
        !self.locked.swap(true, Ordering::Acquire)
    }

    /// Whether the lock is currently held (a relaxed read).
    pub fn is_locked(&self) -> (r: bool) {
        self.locked.load(Ordering::Relaxed)
    }

    /// Releases the lock.
    pub fn unlock(&self) {
        self.locked.store(false, Ordering::Release);
    }
}

/// Top of the stack of secondary hart `hart`, the stacks lying one after
/// another from `stacks_base`.
pub fn secondary_stack_top(stacks_base: usize, hart: usize) -> (r: usize)
    requires
        hart < MAX_HARTS,
        stacks_base + (hart + 1) * SEC_STACK_SIZE <= usize::MAX,
    ensures
        r == stacks_base + (hart + 1) * SEC_STACK_SIZE,
{
    stacks_base + (hart + 1) * SEC_STACK_SIZE
}

/// The `satp` value a secondary hart loads: Sv39 translation of the kernel
/// root table, or 0 (no translation) when there is none yet.
pub fn secondary_satp(root_pa: u64) -> (r: u64)
    ensures
        root_pa == 0 ==> r == 0,
        root_pa != 0 ==> r == (8u64 << 60u64) | (root_pa >> 12u64),
{
    if root_pa != 0 {
        (8u64 << 60u64) | (root_pa >> 12u64)
    } else {
        0
    }
}

} // verus!
