//! Driver interrupt lines (`request_irq` / `free_irq`): up to two actions
//! per line, shared only when every action on it agrees. A handler is
//! known by its entry address, its device by the cookie it was given;
//! calling handlers, installing entry stubs and masking lines at the
//! interrupt controller are the caller's.

use vstd::prelude::*;

verus! {

pub const IRQF_SHARED: u64 = 0x80;
pub const MAX_IRQ: usize = 16;
pub const IRQ_SLOTS: usize = 2;
pub const EINVAL: i32 = -22;
pub const EBUSY: i32 = -16;
pub const ENOMEM: i32 = -12;

#[derive(Clone, Copy, Debug, PartialEq, Eq, Structural)]
pub struct IrqAction {
    pub used: bool,
    pub shared: bool,
    /// Entry address of the handler.
    pub handler: u64,
    /// The device cookie passed back to the handler.
    pub dev: u64,
}

pub open spec fn empty_action() -> IrqAction {
    IrqAction { used: false, shared: false, handler: 0, dev: 0 }
}

/// Slot `k` of line `irq` in the flat table.
pub open spec fn at(irq: int, k: int) -> int {
    irq * IRQ_SLOTS + k
}

/// Some action on line `irq` is in use.
pub open spec fn line_used(v: Seq<IrqAction>, irq: int) -> bool {
    v[at(irq, 0)].used || v[at(irq, 1)].used
}

/// Every action in use on line `irq` is shared.
pub open spec fn line_all_shared(v: Seq<IrqAction>, irq: int) -> bool {
    (v[at(irq, 0)].used ==> v[at(irq, 0)].shared) && (v[at(irq, 1)].used ==> v[at(irq, 1)].shared)
}

/// First free slot of line `irq`.
pub open spec fn free_slot(v: Seq<IrqAction>, irq: int) -> Option<int> {
    if !v[at(irq, 0)].used {
        Some(0)
    } else if !v[at(irq, 1)].used {
        Some(1)
    } else {
        None
    }
}

/// First slot of line `irq` in use with cookie `dev`.
pub open spec fn dev_slot(v: Seq<IrqAction>, irq: int, dev: u64) -> Option<int> {
    if v[at(irq, 0)].used && v[at(irq, 0)].dev == dev {
        Some(0)
    } else if v[at(irq, 1)].used && v[at(irq, 1)].dev == dev {
        Some(1)
    } else {
        None
    }
}

/// The handlers a line's interrupt runs, in slot order.
pub open spec fn to_run(v: Seq<IrqAction>, irq: int) -> Seq<(u64, u64)> {
    let a = v[at(irq, 0)];
    let b = v[at(irq, 1)];
    let first: Seq<(u64, u64)> = if a.used { seq![(a.handler, a.dev)] } else { Seq::empty() };
    if b.used { first.push((b.handler, b.dev)) } else { first }
}

/// What `request_irq` does to table `v`: its return code and the new table.
pub open spec fn request_spec(v: Seq<IrqAction>, irq: u32, handler: Option<u64>, flags: u64, dev: u64) -> (i32, Seq<IrqAction>) {
    let shared = flags & IRQF_SHARED != 0;
    let i = irq as int;
    if irq >= MAX_IRQ || handler is None {
        (EINVAL, v)
    } else if line_used(v, i) && (!shared || !line_all_shared(v, i)) {
        (EBUSY, v)
    } else {
        match free_slot(v, i) {
            None => (ENOMEM, v),
            Some(k) => (0, v.update(at(i, k), IrqAction { used: true, shared, handler: handler->0, dev })),
        }
    }
}

pub struct IrqTable {
    actions: Vec<IrqAction>,
}

impl IrqTable {
    pub closed spec fn view(&self) -> Seq<IrqAction> {
        self.actions@
    }

    pub closed spec fn wf(&self) -> bool {
        self.actions@.len() == MAX_IRQ * IRQ_SLOTS
    }

    /// Every line free.
    pub fn new() -> (t: IrqTable)
        ensures
            t.wf(),
            t.view() == Seq::new((MAX_IRQ * IRQ_SLOTS) as nat, |i: int| empty_action()),
    {
        let mut v: Vec<IrqAction> = Vec::new();
        while v.len() < MAX_IRQ * IRQ_SLOTS
            invariant
                v@.len() <= MAX_IRQ * IRQ_SLOTS,
                v@ == Seq::new(v@.len(), |i: int| empty_action()),
            decreases MAX_IRQ * IRQ_SLOTS - v@.len(),
        {
            v.push(IrqAction { used: false, shared: false, handler: 0, dev: 0 });
            assert(v@ =~= Seq::new(v@.len(), |i: int| empty_action()));
        }
        IrqTable { actions: v }
    }

    /// Attach `handler` (with cookie `dev`) to line `irq`: `EINVAL` for a
    /// bad line or no handler, `EBUSY` unless every action on the line and
    /// this one are shared, `ENOMEM` with both slots taken, else 0. On
    /// success for lines 2 and up the caller installs the line's entry stub
    /// and unmasks it.
    pub fn request_irq(&mut self, irq: u32, handler: Option<u64>, flags: u64, dev: u64) -> (r: i32)
        requires
            old(self).wf(),
        ensures
            final(self).wf(),
            (r, final(self).view()) == request_spec(old(self).view(), irq, handler, flags, dev),
    {
        if irq as usize >= MAX_IRQ || handler.is_none() {
            return EINVAL;
        }
        let shared = (flags & IRQF_SHARED) != 0;
        let i = irq as usize;
        let a = self.actions[i * IRQ_SLOTS];
        let b = self.actions[i * IRQ_SLOTS + 1];
        let any = a.used || b.used;
        let all_shared = (!a.used || a.shared) && (!b.used || b.shared);
        if any && (!shared || !all_shared) {
            return EBUSY;
        }
        let k: usize = if !a.used {
            0
        } else if !b.used {
            1
        } else {
            return ENOMEM;
        };
        let h = match handler {
            Some(x) => x,
            None => 0,
        };
        self.actions.set(i * IRQ_SLOTS + k, IrqAction { used: true, shared, handler: h, dev });
        0
    }

    /// Detach the first action of line `irq` with cookie `dev`. Returns
    /// whether the caller masks the line: a line from 2 up with nothing left.
    pub fn free_irq(&mut self, irq: u32, dev: u64) -> (mask: bool)
        requires
            old(self).wf(),
        ensures
            final(self).wf(),
            irq >= MAX_IRQ ==> final(self).view() == old(self).view() && !mask,
            irq < MAX_IRQ ==> {
                &&& final(self).view() == match dev_slot(old(self).view(), irq as int, dev) {
                    Some(k) => old(self).view().update(at(irq as int, k), empty_action()),
                    None => old(self).view(),
                }
                &&& mask == (irq >= 2 && !line_used(final(self).view(), irq as int))
            },
    {
        if irq as usize >= MAX_IRQ {
            return false;
        }
        let i = irq as usize;
        if self.actions[i * IRQ_SLOTS].used && self.actions[i * IRQ_SLOTS].dev == dev {
            self.actions.set(i * IRQ_SLOTS, IrqAction { used: false, shared: false, handler: 0, dev: 0 });
        } else if self.actions[i * IRQ_SLOTS + 1].used && self.actions[i * IRQ_SLOTS + 1].dev == dev {
            self.actions.set(i * IRQ_SLOTS + 1, IrqAction { used: false, shared: false, handler: 0, dev: 0 });
        }
        irq >= 2 && !self.actions[i * IRQ_SLOTS].used && !self.actions[i * IRQ_SLOTS + 1].used
    }

    /// The `(handler, cookie)` pairs an interrupt on line `irq` runs.
    pub fn dispatch(&self, irq: u32) -> (run: Vec<(u64, u64)>)
        requires
            self.wf(),
        ensures
            irq >= MAX_IRQ ==> run@ == Seq::<(u64, u64)>::empty(),
            irq < MAX_IRQ ==> run@ == to_run(self.view(), irq as int),
    {
        let mut run: Vec<(u64, u64)> = Vec::new();
        if irq as usize >= MAX_IRQ {
            return run;
        }
        let i = irq as usize;
        let a = self.actions[i * IRQ_SLOTS];
        let b = self.actions[i * IRQ_SLOTS + 1];
        if a.used {
            run.push((a.handler, a.dev));
        }
        if b.used {
            run.push((b.handler, b.dev));
        }
        assert(run@ =~= to_run(self.view(), irq as int));
        run
    }
}

/// Freeing what a request attached leaves the line as it was, when the
/// line had no action with the same cookie before.
/// A handler that `request_irq` accepted runs on the next interrupt of its
/// line, with its own cookie, in slot order with the handlers already there.
pub proof fn lemma_request_then_dispatch(v: Seq<IrqAction>, irq: u32, handler: u64, flags: u64, dev: u64)
    requires
        v.len() == MAX_IRQ * IRQ_SLOTS,
        irq < MAX_IRQ,
        request_spec(v, irq, Some(handler), flags, dev).0 == 0,
    ensures
        ({
            let w = request_spec(v, irq, Some(handler), flags, dev).1;
            to_run(w, irq as int) == if free_slot(v, irq as int) == Some(0int) {
                seq![(handler, dev)] + to_run(v, irq as int)
            } else {
                to_run(v, irq as int).push((handler, dev))
            }
        }),
        to_run(request_spec(v, irq, Some(handler), flags, dev).1, irq as int).contains((handler, dev)),
{
    let i = irq as int;
    let w = request_spec(v, irq, Some(handler), flags, dev).1;
    let t = to_run(w, i);
    if free_slot(v, i) == Some(0int) {
        assert(!v[at(i, 0)].used);
        assert(t =~= seq![(handler, dev)] + to_run(v, i));
        assert(t[0] == (handler, dev));
    } else {
        assert(t =~= to_run(v, i).push((handler, dev)));
        assert(t[t.len() - 1] == (handler, dev));
    }
}

pub proof fn lemma_request_then_free(v: Seq<IrqAction>, irq: u32, handler: u64, flags: u64, dev: u64)
    requires
        v.len() == MAX_IRQ * IRQ_SLOTS,
        irq < MAX_IRQ,
        request_spec(v, irq, Some(handler), flags, dev).0 == 0,
        dev_slot(v, irq as int, dev) is None,
        forall|k: int| 0 <= k < IRQ_SLOTS && !(#[trigger] v[at(irq as int, k)]).used ==> v[at(irq as int, k)] == empty_action(),
    ensures
        ({
            let w = request_spec(v, irq, Some(handler), flags, dev).1;
            match dev_slot(w, irq as int, dev) {
                Some(k) => w.update(at(irq as int, k), empty_action()) =~= v,
                None => false,
            }
        }),
{
    let i = irq as int;
    assert(v[at(i, 0)] == v[at(i, 0)]);
    assert(v[at(i, 1)] == v[at(i, 1)]);
}

} // verus!
