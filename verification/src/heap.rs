//! Kernel heap placement: the heap's virtual window.

use vstd::prelude::*;

verus! {

/// Heap virtual base (above the identity-mapped first gigabyte; pages are
/// mapped on demand).
pub const KERNEL_HEAP_START: u64 = 0x0000_0001_0000_0000;
/// Largest heap size (4 MiB).
pub const KERNEL_HEAP_MAX: u64 = 4194304;

/// Where the heap starts.
pub fn heap_start() -> (r: u64)
    ensures
        r == KERNEL_HEAP_START,
{
    KERNEL_HEAP_START
}

} // verus!
