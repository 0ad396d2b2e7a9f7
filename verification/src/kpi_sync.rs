//! Driver-side synchronisation for a single processor: spinlocks, counting
//! mutexes, completions and sleeps. Disabling and restoring interrupts and
//! the waiting itself are the caller's; these are the state changes and the
//! decisions.

use vstd::prelude::*;

verus! {

/// Ticks per second of the timer.
pub const HZ: u64 = 100;

pub struct SpinLock {
    pub locked: u32,
}

pub struct Mutex {
    pub count: i32,
    pub wait_lock: SpinLock,
}

pub struct Completion {
    pub done: u32,
}

/// Take the lock (interrupts are off while it is held).
pub fn spin_lock(lock: &mut SpinLock)
    ensures
        final(lock).locked == 1,
{
    lock.locked = 1;
}

/// Release the lock.
pub fn spin_unlock(lock: &mut SpinLock)
    ensures
        final(lock).locked == 0,
{
    lock.locked = 0;
}

/// One attempt at `mutex_lock`: take a unit of the count when one is left.
/// The caller spins until this succeeds.
pub fn mutex_try_lock(m: &mut Mutex) -> (ok: bool)
    ensures
        ok == (old(m).count > 0),
        final(m).count == (if ok { old(m).count - 1 } else { old(m).count as int }),
        final(m).wait_lock.locked == old(m).wait_lock.locked,
{
    if m.count > 0 {
        m.count = m.count - 1;
        true
    } else {
        false
    }
}

/// Give a unit back (the count stops at its largest value).
pub fn mutex_unlock(m: &mut Mutex)
    ensures
        final(m).count == (if old(m).count == i32::MAX { i32::MAX as int } else { old(m).count + 1 }),
        final(m).wait_lock.locked == old(m).wait_lock.locked,
{
    if m.count < i32::MAX {
        m.count = m.count + 1;
    }
}

/// Signal the completion once (the count wraps).
pub fn complete(x: &mut Completion)
    ensures
        final(x).done == old(x).done.wrapping_add(1),
{
    x.done = x.done.wrapping_add(1);
}

/// Has the completion been signalled?
pub fn completion_done(x: &Completion) -> (r: bool)
    ensures
        r == (x.done > 0),
{
    x.done > 0
}

/// One check of `wait_for_completion_timeout` after `elapsed` ticks:
/// `Some(remaining)` once done (0 when the time is up), `None` to keep
/// waiting.
pub fn completion_timeout_step(x: &Completion, elapsed: u64, timeout: u64) -> (r: Option<u64>)
    ensures
        x.done > 0 ==> r == Some(if elapsed >= timeout { 0u64 } else { (timeout - elapsed) as u64 }),
        x.done == 0 && elapsed >= timeout ==> r == Some(0u64),
        x.done == 0 && elapsed < timeout ==> r is None,
{
    if completion_done(x) {
        return Some(timeout.saturating_sub(elapsed));
    }
    if elapsed >= timeout {
        return Some(0);
    }
    None
}

/// Ticks `msleep(msecs)` waits: the milliseconds rounded up to whole ticks.
pub fn msleep_ticks(msecs: u32) -> (t: u64)
    ensures
        t == (msecs + 9) / 10,
{
    ((msecs as u64) + 9) / 10
}

} // verus!
