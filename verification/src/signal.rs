//! Kernel signals: small numbered events that are queued when raised and
//! delivered later to the callback registered for their number.
//!
//! The table here records which numbers have a callback and keeps the queue;
//! delivering returns the numbers whose callbacks are to run, in order, and
//! the caller runs them.

use vstd::prelude::*;

verus! {

/// Signal numbers are `0..MAX_SIGNALS`.
pub const MAX_SIGNALS: usize = 32;
/// Length of the pending queue.
pub const QUEUE_CAP: usize = 32;

pub const SIG_NONE: u32 = 0;
pub const SIG_ALARM: u32 = 1;
pub const SIG_KEYBOARD: u32 = 2;
pub const SIG_GPF: u32 = 13;
pub const SIG_PAGEFAULT: u32 = 14;
pub const SIG_TERM: u32 = 15;
pub const SIG_WARNING: u32 = 20;
pub const SIG_USER0: u32 = 24;

pub struct SignalTable {
    handlers: Vec<bool>,
    queue: Vec<u32>,
    pending: bool,
    delivered: u32,
}

/// Observable state: which numbers have a callback, the queued numbers
/// (oldest first), the pending flag and the delivery count.
pub struct SignalView {
    pub handlers: Seq<bool>,
    pub queue: Seq<u32>,
    pub pending: bool,
    pub delivered: u32,
}

/// The numbers of `q` whose callback is registered in `h`, in order.
pub open spec fn deliverable(h: Seq<bool>, q: Seq<u32>) -> Seq<u32>
    decreases q.len(),
{
    if q.len() == 0 {
        Seq::empty()
    } else {
        let rest = deliverable(h, q.drop_last());
        if q.last() < MAX_SIGNALS && h[q.last() as int] {
            rest.push(q.last())
        } else {
            rest
        }
    }
}

proof fn lemma_deliverable_len(h: Seq<bool>, q: Seq<u32>)
    ensures
        deliverable(h, q).len() <= q.len(),
    decreases q.len(),
{
    if q.len() > 0 {
        lemma_deliverable_len(h, q.drop_last());
    }
}

/// What `schedule_signal(sig)` does to the queue and returns.
pub open spec fn schedule_spec(v: SignalView, sig: u32) -> (SignalView, bool) {
    if sig >= MAX_SIGNALS || sig == SIG_NONE || v.queue.len() >= QUEUE_CAP {
        (v, false)
    } else {
        (SignalView { queue: v.queue.push(sig), pending: true, ..v }, true)
    }
}

/// Raising a signal whose callback is registered, with nothing queued,
/// delivers exactly that signal once: the queue it leaves for delivery is
/// just `sig`, and `raise_signal` then counts one delivery and leaves
/// nothing queued or pending.
pub proof fn lemma_raise_runs_handler_once(v: SignalView, sig: u32)
    requires
        v.handlers.len() == MAX_SIGNALS,
        v.queue.len() == 0,
        1 <= sig < MAX_SIGNALS,
        v.handlers[sig as int],
    ensures
        deliverable(v.handlers, schedule_spec(v, sig).0.queue) == seq![sig],
        schedule_spec(v, sig).0.delivered == v.delivered,
        schedule_spec(v, sig).0.handlers == v.handlers,
{
    let q = schedule_spec(v, sig).0.queue;
    assert(q =~= seq![sig]);
    assert(q.drop_last() =~= Seq::<u32>::empty());
    assert(deliverable(v.handlers, q.drop_last()) =~= Seq::<u32>::empty());
    assert(deliverable(v.handlers, q) =~= seq![sig]);
}

impl SignalTable {
    pub closed spec fn view(&self) -> SignalView {
        SignalView { handlers: self.handlers@, queue: self.queue@, pending: self.pending, delivered: self.delivered }
    }

    pub closed spec fn wf(&self) -> bool {
        &&& self.handlers@.len() == MAX_SIGNALS
        &&& self.queue@.len() <= QUEUE_CAP
    }

    pub proof fn lemma_wf(&self)
        requires
            self.wf(),
        ensures
            self.view().handlers.len() == MAX_SIGNALS,
            self.view().queue.len() <= QUEUE_CAP,
    {
    }

    /// No callbacks, nothing queued.
    pub fn new() -> (t: SignalTable)
        ensures
            t.wf(),
            t.view().handlers == Seq::new(MAX_SIGNALS as nat, |i: int| false),
            t.view().queue == Seq::<u32>::empty(),
            !t.view().pending,
            t.view().delivered == 0,
    {
        let mut handlers: Vec<bool> = Vec::new();
        while handlers.len() < MAX_SIGNALS
            invariant
                handlers@.len() <= MAX_SIGNALS,
                handlers@ == Seq::new(handlers@.len(), |i: int| false),
            decreases MAX_SIGNALS - handlers@.len(),
        {
            handlers.push(false);
            assert(handlers@ =~= Seq::new(handlers@.len(), |i: int| false));
        }
        SignalTable { handlers, queue: Vec::new(), pending: false, delivered: 0 }
    }

    /// Register (or replace) the callback for `sig`; false when out of range.
    pub fn register_signal_handler(&mut self, sig: u32) -> (ok: bool)
        requires
            old(self).wf(),
        ensures
            final(self).wf(),
            ok == (sig < MAX_SIGNALS),
            ok ==> final(self).view() == (SignalView { handlers: old(self).view().handlers.update(sig as int, true), ..old(self).view() }),
            !ok ==> final(self).view() == old(self).view(),
    {
        if sig as usize >= MAX_SIGNALS {
            return false;
        }
        self.handlers.set(sig as usize, true);
        true
    }

    /// Remove the callback for `sig`; false when out of range.
    pub fn unregister_signal_handler(&mut self, sig: u32) -> (ok: bool)
        requires
            old(self).wf(),
        ensures
            final(self).wf(),
            ok == (sig < MAX_SIGNALS),
            ok ==> final(self).view() == (SignalView { handlers: old(self).view().handlers.update(sig as int, false), ..old(self).view() }),
            !ok ==> final(self).view() == old(self).view(),
    {
        if sig as usize >= MAX_SIGNALS {
            return false;
        }
        self.handlers.set(sig as usize, false);
        true
    }

    /// Queue `sig` for later delivery; false (and nothing queued) when it is
    /// out of range, is `SIG_NONE`, or the queue is full.
    pub fn schedule_signal(&mut self, sig: u32) -> (ok: bool)
        requires
            old(self).wf(),
        ensures
            final(self).wf(),
            (final(self).view(), ok) == schedule_spec(old(self).view(), sig),
    {
        if sig as usize >= MAX_SIGNALS || sig == SIG_NONE {
            return false;
        }
        if self.queue.len() >= QUEUE_CAP {
            return false;
        }
        self.queue.push(sig);
        self.pending = true;
        true
    }

    /// The same as `schedule_signal`.
    pub fn signal_schedule(&mut self, sig: u32) -> (ok: bool)
        requires
            old(self).wf(),
        ensures
            final(self).wf(),
            (final(self).view(), ok) == schedule_spec(old(self).view(), sig),
    {
        self.schedule_signal(sig)
    }

    pub fn pending_count(&self) -> (n: usize)
        ensures
            n == self.view().queue.len(),
    {
        self.queue.len()
    }

    pub fn has_pending(&self) -> (b: bool)
        ensures
            b == self.view().pending,
    {
        self.pending
    }

    pub fn delivered_count(&self) -> (n: u32)
        ensures
            n == self.view().delivered,
    {
        self.delivered
    }

    /// Whether `sig` has a callback.
    pub fn has_handler(&self, sig: u32) -> (b: bool)
        requires
            self.wf(),
        ensures
            b == (sig < MAX_SIGNALS && self.view().handlers[sig as int]),
    {
        if sig as usize >= MAX_SIGNALS {
            return false;
        }
        self.handlers[sig as usize]
    }

    /// Empty the queue. Returns, oldest first, the numbers whose callback is
    /// to run; each counts as delivered (the count wraps).
    pub fn process_signals(&mut self) -> (run: Vec<u32>)
        requires
            old(self).wf(),
        ensures
            final(self).wf(),
            run@ == deliverable(old(self).view().handlers, old(self).view().queue),
            final(self).view() == (SignalView {
                queue: Seq::empty(),
                pending: false,
                delivered: ((old(self).view().delivered + run@.len()) % 0x1_0000_0000) as u32,
                ..old(self).view()
            }),
    {
        let mut run: Vec<u32> = Vec::new();
        let mut i: usize = 0;
        let n = self.queue.len();
        let ghost d0 = self.delivered;
        while i < n
            invariant
                n == self.queue@.len(),
                n <= QUEUE_CAP,
                i <= n,
                self.handlers@.len() == MAX_SIGNALS,
                self.handlers@ == old(self).handlers@,
                self.queue@ == old(self).queue@,
                self.pending == old(self).pending,
                run@ == deliverable(self.handlers@, self.queue@.take(i as int)),
                run@.len() <= i,
                self.delivered as int == (d0 + run@.len()) % 0x1_0000_0000,
            decreases n - i,
        {
            let s = self.queue[i];
            proof {
                assert(self.queue@.take(i + 1).drop_last() =~= self.queue@.take(i as int));
            }
            if (s as usize) < MAX_SIGNALS && self.handlers[s as usize] {
                run.push(s);
                self.delivered = self.delivered.wrapping_add(1);
            }
            i = i + 1;
        }
        assert(self.queue@.take(n as int) =~= self.queue@);
        self.queue = Vec::new();
        self.pending = false;
        run
    }

    /// Queue `sig` and deliver everything queued.
    pub fn raise_signal(&mut self, sig: u32) -> (run: Vec<u32>)
        requires
            old(self).wf(),
        ensures
            final(self).wf(),
            run@ == deliverable(old(self).view().handlers, schedule_spec(old(self).view(), sig).0.queue),
            final(self).view() == (SignalView {
                queue: Seq::empty(),
                pending: false,
                delivered: ((schedule_spec(old(self).view(), sig).0.delivered + run@.len()) % 0x1_0000_0000) as u32,
                ..schedule_spec(old(self).view(), sig).0
            }),
            final(self).view().handlers == old(self).view().handlers,
    {
        let _ = self.schedule_signal(sig);
        self.process_signals()
    }

    /// Callbacks installed at boot: warning, keyboard and terminate.
    pub fn init_default_handlers(&mut self)
        requires
            old(self).wf(),
        ensures
            final(self).wf(),
            final(self).view() == (SignalView {
                handlers: old(self).view().handlers.update(SIG_WARNING as int, true).update(SIG_KEYBOARD as int, true).update(
                    SIG_TERM as int,
                    true,
                ),
                ..old(self).view()
            }),
    {
        let _ = self.register_signal_handler(SIG_WARNING);
        let _ = self.register_signal_handler(SIG_KEYBOARD);
        let _ = self.register_signal_handler(SIG_TERM);
    }
}

} // verus!
