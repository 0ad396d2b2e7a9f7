//! Physical memory manager: a frame bitmap (used / free) plus a table of
//! multi-frame allocations.

use vstd::prelude::*;

verus! {

/// Size of one physical frame (the x86 page size).
pub const FRAME_SIZE: usize = 4096;

/// Frames tracked: 4 GiB of physical memory.
pub const MAX_FRAMES: usize = 1048576;

/// Slots in the table of multi-frame allocations.
pub const MAX_ALLOCS: usize = 256;

/// Exclusive upper bound of the managed physical range.
pub const MAX_PHYS_EXCLUSIVE: u64 = 0x1_0000_0000;

/// Kernel load base (the linker places the kernel at 1 MiB).
pub const KERNEL_LOAD_BASE: u32 = 0x0010_0000;

/// A physical address below 4 GiB.
#[derive(Clone, Copy, Debug, PartialEq, Eq, Structural)]
pub struct PhysAddr(pub u32);

impl PhysAddr {
    pub fn new(addr: u32) -> (r: Self)
        ensures
            r.0 == addr,
    {
        PhysAddr(addr)
    }

    pub fn as_u32(self) -> (r: u32)
        ensures
            r == self.0,
    {
        self.0
    }

    pub fn as_usize(self) -> (r: usize)
        ensures
            r == self.0,
    {
        self.0 as usize
    }

    pub fn is_aligned(self) -> (r: bool)
        ensures
            r == (self.0 % 4096 == 0),
    {
        (self.0 as usize) % FRAME_SIZE == 0
    }

    pub fn frame_index(self) -> (r: usize)
        ensures
            r == self.0 / 4096,
    {
        (self.0 as usize) / FRAME_SIZE
    }
}

/// Size in bytes of one physical frame.
pub fn frame_size() -> (r: usize)
    ensures
        r == FRAME_SIZE,
{
    FRAME_SIZE
}

/// Number of `true` entries among the first `n` of `s`.
pub open spec fn count_used(s: Seq<bool>, n: int) -> nat
    decreases n,
{
    if n <= 0 {
        0
    } else {
        count_used(s, n - 1) + if s[n - 1] {
            1nat
        } else {
            0nat
        }
    }
}

pub proof fn lemma_count_bound(s: Seq<bool>, n: int)
    requires
        0 <= n,
    ensures
        count_used(s, n) <= n,
    decreases n,
{
    if n > 0 {
        lemma_count_bound(s, n - 1);
    }
}

pub proof fn lemma_count_update(s: Seq<bool>, n: int, i: int, b: bool)
    requires
        0 <= i < s.len(),
        0 <= n <= s.len(),
    ensures
        i < n ==> count_used(s.update(i, b), n) + (if s[i] { 1int } else { 0int }) == count_used(
            s,
            n,
        ) + (if b { 1int } else { 0int }),
        i >= n ==> count_used(s.update(i, b), n) == count_used(s, n),
    decreases n,
{
    if n > 0 {
        lemma_count_update(s, n - 1, i, b);
    }
}

/// Two sequences that agree below `n` have the same count below `n`.
pub proof fn lemma_count_agree(s: Seq<bool>, t: Seq<bool>, n: int)
    requires
        0 <= n <= s.len(),
        n <= t.len(),
        forall|k: int| 0 <= k < n ==> s[k] == t[k],
    ensures
        count_used(s, n) == count_used(t, n),
    decreases n,
{
    if n > 0 {
        lemma_count_agree(s, t, n - 1);
    }
}

/// One entry of the multi-frame allocation table.
#[derive(Clone, Copy, Debug, PartialEq, Eq, Structural)]
pub struct PhysAllocation {
    pub in_use: bool,
    pub start: u32,
    pub bytes: usize,
}

/// An unused table entry.
pub open spec fn empty_alloc() -> PhysAllocation {
    PhysAllocation { in_use: false, start: 0, bytes: 0 }
}

/// `i` is the first in-use table entry that starts at `a`.
pub open spec fn alloc_index(t: Seq<PhysAllocation>, a: u32, i: int) -> bool {
    &&& 0 <= i < t.len()
    &&& t[i].in_use
    &&& t[i].start == a
    &&& forall|j: int| 0 <= j < i ==> !(t[j].in_use && t[j].start == a)
}

/// `i` is the first table entry not in use.
pub open spec fn first_unused(t: Seq<PhysAllocation>, i: int) -> bool {
    &&& 0 <= i < t.len()
    &&& !t[i].in_use
    &&& forall|j: int| 0 <= j < i ==> t[j].in_use
}

/// Frames in `[lo, hi)` set to `v`, the others as in `s`.
pub open spec fn set_range(s: Seq<bool>, lo: int, hi: int, v: bool) -> Seq<bool> {
    Seq::new(s.len(), |f: int| if lo <= f < hi { v } else { s[f] })
}

/// Frames `[first, last)` fully inside `[start, end)` (clamped to 4 GiB).
pub open spec fn inner_frames(start: u64, end: u64) -> (int, int) {
    let s = if start < MAX_PHYS_EXCLUSIVE { start as int } else { MAX_PHYS_EXCLUSIVE as int };
    let e = if end < MAX_PHYS_EXCLUSIVE { end as int } else { MAX_PHYS_EXCLUSIVE as int };
    if s >= e {
        (0, 0)
    } else {
        ((s + 4095) / 4096, e / 4096)
    }
}

/// Frames `[first, last)` touching `[start, end)` (clamped to 4 GiB).
pub open spec fn outer_frames(start: u64, end: u64) -> (int, int) {
    let s = if start < MAX_PHYS_EXCLUSIVE { start as int } else { MAX_PHYS_EXCLUSIVE as int };
    let e = if end < MAX_PHYS_EXCLUSIVE { end as int } else { MAX_PHYS_EXCLUSIVE as int };
    if end <= start || s >= e {
        (0, 0)
    } else {
        (s / 4096, (e + 4095) / 4096)
    }
}

/// Frame bitmap (`true` = used or unusable) with its counters.
pub struct FrameAllocator {
    bitmap: Vec<bool>,
    total: usize,
    used: usize,
    highest: usize,
    initialized: bool,
    allocs: Vec<PhysAllocation>,
}

/// Frames `[start, start + n)` are all free in `s`.
pub open spec fn run_free(s: Seq<bool>, start: int, n: int) -> bool {
    forall|f: int| start <= f < start + n ==> !s[f]
}

/// Frames needed for an allocation of `size` bytes (at least one).
pub open spec fn frames_for(size: int) -> int {
    if size == 0 {
        1
    } else {
        (size + 4095) / 4096
    }
}

impl FrameAllocator {
    /// Used/free state of every tracked frame.
    pub closed spec fn frames(&self) -> Seq<bool> {
        self.bitmap@
    }

    /// Frames below this index are managed (exclusive).
    pub closed spec fn highest_frame(&self) -> nat {
        self.highest as nat
    }

    pub closed spec fn used_count(&self) -> nat {
        self.used as nat
    }

    pub closed spec fn total_count(&self) -> nat {
        self.total as nat
    }

    pub closed spec fn is_init(&self) -> bool {
        self.initialized
    }

    pub closed spec fn alloc_table(&self) -> Seq<PhysAllocation> {
        self.allocs@
    }

    pub closed spec fn wf(&self) -> bool {
        &&& self.bitmap@.len() == MAX_FRAMES
        &&& self.highest <= MAX_FRAMES
        &&& self.used == count_used(self.bitmap@, self.highest as int)
        &&& self.total <= MAX_FRAMES
        &&& self.allocs@.len() == MAX_ALLOCS
        &&& forall|i: int| 0 <= i < MAX_ALLOCS && !self.allocs@[i].in_use ==> self.allocs@[i] == empty_alloc()
    }

    pub proof fn lemma_wf(&self)
        requires
            self.wf(),
        ensures
            self.frames().len() == MAX_FRAMES,
            self.highest_frame() <= MAX_FRAMES,
            self.used_count() == count_used(self.frames(), self.highest_frame() as int),
            self.used_count() <= self.highest_frame(),
            self.total_count() <= MAX_FRAMES,
            self.alloc_table().len() == MAX_ALLOCS,
    {
        lemma_count_bound(self.bitmap@, self.highest as int);
    }

    /// An allocator before boot discovery: every frame unusable, no frames managed.
    pub fn new() -> (a: Self)
        ensures
            a.wf(),
            !a.is_init(),
            a.highest_frame() == 0,
            a.used_count() == 0,
            a.total_count() == 0,
            forall|f: int| 0 <= f < MAX_FRAMES ==> a.frames()[f],
            forall|i: int|
                0 <= i < MAX_ALLOCS ==> a.alloc_table()[i] == (PhysAllocation {
                    in_use: false,
                    start: 0,
                    bytes: 0,
                }),
    {
        let mut bitmap: Vec<bool> = Vec::new();
        let mut i: usize = 0;
        while i < MAX_FRAMES
            invariant
                i <= MAX_FRAMES,
                bitmap@.len() == i,
                forall|f: int| 0 <= f < i ==> bitmap@[f],
            decreases MAX_FRAMES - i,
        {
            bitmap.push(true);
            i = i + 1;
        }
        let mut allocs: Vec<PhysAllocation> = Vec::new();
        let mut j: usize = 0;
        while j < MAX_ALLOCS
            invariant
                j <= MAX_ALLOCS,
                allocs@.len() == j,
                forall|k: int|
                    0 <= k < j ==> allocs@[k] == (PhysAllocation {
                        in_use: false,
                        start: 0,
                        bytes: 0,
                    }),
            decreases MAX_ALLOCS - j,
        {
            allocs.push(PhysAllocation { in_use: false, start: 0, bytes: 0 });
            j = j + 1;
        }
        FrameAllocator { bitmap, total: 0, used: 0, highest: 0, initialized: false, allocs }
    }

    fn bitmap_set_used(&mut self, frame: usize)
        requires
            old(self).wf(),
        ensures
            final(self).wf(),
            final(self).frames() == (if frame < MAX_FRAMES {
                old(self).frames().update(frame as int, true)
            } else {
                old(self).frames()
            }),
            final(self).highest == old(self).highest,
            final(self).total == old(self).total,
            final(self).initialized == old(self).initialized,
            final(self).allocs == old(self).allocs,
    {
        if frame >= MAX_FRAMES {
            return;
        }
        let was_free = !self.bitmap[frame];
        proof {
            lemma_count_update(self.bitmap@, self.highest as int, frame as int, true);
            lemma_count_bound(self.bitmap@, self.highest as int);
        }
        self.bitmap.set(frame, true);
        if was_free && frame < self.highest {
            self.used = self.used + 1;
        }
    }

    fn bitmap_set_free(&mut self, frame: usize)
        requires
            old(self).wf(),
        ensures
            final(self).wf(),
            final(self).frames() == (if frame < MAX_FRAMES {
                old(self).frames().update(frame as int, false)
            } else {
                old(self).frames()
            }),
            final(self).highest == old(self).highest,
            final(self).total == old(self).total,
            final(self).initialized == old(self).initialized,
            final(self).allocs == old(self).allocs,
    {
        if frame >= MAX_FRAMES {
            return;
        }
        let was_used = self.bitmap[frame];
        proof {
            lemma_count_update(self.bitmap@, self.highest as int, frame as int, false);
        }
        self.bitmap.set(frame, false);
        if was_used && frame < self.highest {
            self.used = self.used - 1;
        }
    }

    /// Whether `frame` is used; frames outside the tracked range count as used.
    pub fn bitmap_is_used(&self, frame: usize) -> (r: bool)
        requires
            self.wf(),
        ensures
            r == (frame >= MAX_FRAMES || self.frames()[frame as int]),
    {
        if frame >= MAX_FRAMES {
            return true;
        }
        self.bitmap[frame]
    }
}


impl FrameAllocator {
    /// Mark every frame lying wholly inside `[start, end)` as free.
    pub fn mark_region_free(&mut self, start: u64, end: u64)
        requires
            old(self).wf(),
        ensures
            final(self).wf(),
            final(self).frames() == set_range(
                old(self).frames(),
                inner_frames(start, end).0,
                inner_frames(start, end).1,
                false,
            ),
            final(self).highest_frame() == old(self).highest_frame(),
            final(self).total_count() == old(self).total_count(),
            final(self).is_init() == old(self).is_init(),
            final(self).alloc_table() == old(self).alloc_table(),
    {
        let start = if start < MAX_PHYS_EXCLUSIVE { start } else { MAX_PHYS_EXCLUSIVE };
        let end = if end < MAX_PHYS_EXCLUSIVE { end } else { MAX_PHYS_EXCLUSIVE };
        if start >= end {
            assert(self.frames() =~= set_range(self.frames(), 0, 0, false));
            return;
        }
        let first = ((start + 4095) / 4096) as usize;
        let last = (end / 4096) as usize;
        let ghost old_frames = self.bitmap@;
        let mut frame = first;
        while frame < last
            invariant
                self.wf(),
                first <= frame,
                frame <= last || frame == first,
                last <= MAX_FRAMES,
                self.bitmap@ =~= set_range(old_frames, first as int, frame as int, false),
                old_frames.len() == MAX_FRAMES,
                self.highest == old(self).highest,
                self.total == old(self).total,
                self.initialized == old(self).initialized,
                self.allocs == old(self).allocs,
            decreases last - frame,
        {
            self.bitmap_set_free(frame);
            frame = frame + 1;
        }
        assert(self.bitmap@ =~= set_range(old_frames, first as int, last as int, false));
    }

    /// Mark every frame touching `[start, end)` as used.
    pub fn mark_region_used(&mut self, start: u64, end: u64)
        requires
            old(self).wf(),
        ensures
            final(self).wf(),
            final(self).frames() == set_range(
                old(self).frames(),
                outer_frames(start, end).0,
                outer_frames(start, end).1,
                true,
            ),
            final(self).highest_frame() == old(self).highest_frame(),
            final(self).total_count() == old(self).total_count(),
            final(self).is_init() == old(self).is_init(),
            final(self).alloc_table() == old(self).alloc_table(),
    {
        if end <= start {
            assert(self.frames() =~= set_range(self.frames(), 0, 0, true));
            return;
        }
        let s = if start < MAX_PHYS_EXCLUSIVE { start } else { MAX_PHYS_EXCLUSIVE };
        let e = if end < MAX_PHYS_EXCLUSIVE { end } else { MAX_PHYS_EXCLUSIVE };
        if s >= e {
            assert(self.frames() =~= set_range(self.frames(), 0, 0, true));
            return;
        }
        let first = (s / 4096) as usize;
        let last = ((e + 4095) / 4096) as usize;
        let ghost old_frames = self.bitmap@;
        let mut frame = first;
        while frame < last
            invariant
                self.wf(),
                first <= frame <= last,
                last <= MAX_FRAMES,
                self.bitmap@ =~= set_range(old_frames, first as int, frame as int, true),
                old_frames.len() == MAX_FRAMES,
                self.highest == old(self).highest,
                self.total == old(self).total,
                self.initialized == old(self).initialized,
                self.allocs == old(self).allocs,
            decreases last - frame,
        {
            self.bitmap_set_used(frame);
            frame = frame + 1;
        }
    }

    /// Recount used frames below the highest managed frame; the total becomes that frame.
    pub fn recount_used(&mut self)
        requires
            old(self).wf(),
        ensures
            final(self).wf(),
            final(self).frames() == old(self).frames(),
            final(self).highest_frame() == old(self).highest_frame(),
            final(self).total_count() == old(self).highest_frame(),
            final(self).used_count() == count_used(old(self).frames(), old(self).highest_frame() as int),
            final(self).is_init() == old(self).is_init(),
            final(self).alloc_table() == old(self).alloc_table(),
    {
        let mut used: usize = 0;
        let mut f: usize = 0;
        while f < self.highest
            invariant
                self.wf(),
                f <= self.highest,
                used == count_used(self.bitmap@, f as int),
            decreases self.highest - f,
        {
            proof {
                lemma_count_bound(self.bitmap@, f as int);
            }
            if self.bitmap[f] {
                used = used + 1;
            }
            f = f + 1;
        }
        self.used = used;
        self.total = self.highest;
    }

    pub fn total_frames(&self) -> (r: usize)
        ensures
            r == self.total_count(),
    {
        self.total
    }

    pub fn used_frames(&self) -> (r: usize)
        ensures
            r == self.used_count(),
    {
        self.used
    }

    /// Managed frames not in use (0 if the counters disagree).
    pub fn free_frames(&self) -> (r: usize)
        ensures
            r == (if self.total_count() >= self.used_count() {
                self.total_count() - self.used_count()
            } else {
                0
            }),
    {
        self.total.saturating_sub(self.used)
    }

    pub fn is_initialized(&self) -> (r: bool)
        ensures
            r == self.is_init(),
    {
        self.initialized
    }

    /// Allocate the lowest free frame below the highest managed frame.
    pub fn alloc_frame(&mut self) -> (r: Option<PhysAddr>)
        requires
            old(self).wf(),
            old(self).is_init(),
        ensures
            final(self).wf(),
            alloc_frame_post(*old(self), *final(self), r),
    {
        let mut frame: usize = 0;
        while frame < self.highest
            invariant
                self.wf(),
                *self == *old(self),
                frame <= self.highest,
                forall|g: int| 0 <= g < frame ==> self.bitmap@[g],
            decreases self.highest - frame,
        {
            if !self.bitmap[frame] {
                self.bitmap_set_used(frame);
                proof {
                    lemma_count_update(old(self).bitmap@, old(self).highest as int, frame as int, true);
                }
                return Some(PhysAddr((frame * FRAME_SIZE) as u32));
            }
            frame = frame + 1;
        }
        None
    }

    /// Return one frame obtained from [`FrameAllocator::alloc_frame`].
    pub fn free_frame(&mut self, addr: PhysAddr)
        requires
            old(self).wf(),
            free_frame_ok(*old(self), addr),
        ensures
            final(self).wf(),
            free_frame_post(*old(self), *final(self), addr),
    {
        let frame = addr.frame_index();
        proof {
            lemma_count_update(self.bitmap@, self.highest as int, frame as int, false);
        }
        self.bitmap_set_free(frame);
    }
}

/// What `alloc_frame` does: the lowest free managed frame becomes used, or
/// nothing changes when every managed frame is used.
pub open spec fn alloc_frame_post(a: FrameAllocator, b: FrameAllocator, r: Option<PhysAddr>) -> bool {
    match r {
        Some(p) => {
            let f = p.0 as int / 4096;
            &&& p.0 % 4096 == 0
            &&& f < a.highest_frame()
            &&& !a.frames()[f]
            &&& forall|g: int| 0 <= g < f ==> a.frames()[g]
            &&& b.frames() == a.frames().update(f, true)
            &&& b.used_count() == a.used_count() + 1
            &&& b.highest_frame() == a.highest_frame()
            &&& b.total_count() == a.total_count()
            &&& b.is_init() == a.is_init()
            &&& b.alloc_table() == a.alloc_table()
        },
        None => {
            &&& forall|g: int| 0 <= g < a.highest_frame() ==> a.frames()[g]
            &&& b == a
        },
    }
}

/// When `free_frame` may be called (otherwise the kernel panics).
pub open spec fn free_frame_ok(a: FrameAllocator, addr: PhysAddr) -> bool {
    &&& a.is_init()
    &&& addr.0 % 4096 == 0
    &&& (addr.0 / 4096) < a.highest_frame()
    &&& a.frames()[addr.0 as int / 4096]
}

/// What `free_frame` does: the frame becomes free, the used count drops by one.
pub open spec fn free_frame_post(a: FrameAllocator, b: FrameAllocator, addr: PhysAddr) -> bool {
    &&& b.frames() == a.frames().update(addr.0 as int / 4096, false)
    &&& b.used_count() + 1 == a.used_count()
    &&& b.highest_frame() == a.highest_frame()
    &&& b.total_count() == a.total_count()
    &&& b.is_init() == a.is_init()
    &&& b.alloc_table() == a.alloc_table()
}

/// Freeing the frame that `alloc_frame` just handed out restores the frame map
/// and the counters.
pub proof fn lemma_alloc_then_free_restores(
    a: FrameAllocator,
    b: FrameAllocator,
    c: FrameAllocator,
    p: PhysAddr,
)
    requires
        a.wf(),
        a.is_init(),
        alloc_frame_post(a, b, Some(p)),
        free_frame_post(b, c, p),
    ensures
        free_frame_ok(b, p),
        c.frames() == a.frames(),
        c.used_count() == a.used_count(),
        c.total_count() == a.total_count(),
        c.alloc_table() == a.alloc_table(),
{
    a.lemma_wf();
    let f = p.0 as int / 4096;
    assert(p.0 / 4096 == f);
    assert(b.frames()[f]);
    assert(c.frames() =~= a.frames());
}


/// Frame map, counters and table equal.
pub open spec fn same_state(a: FrameAllocator, b: FrameAllocator) -> bool {
    &&& b.frames() == a.frames()
    &&& b.used_count() == a.used_count()
    &&& b.highest_frame() == a.highest_frame()
    &&& b.total_count() == a.total_count()
    &&& b.is_init() == a.is_init()
    &&& b.alloc_table() == a.alloc_table()
}

/// What `phys_alloc(size)` does: first fit of `frames_for(size)` contiguous free
/// frames, recorded in the first unused table entry; nothing changes when no run
/// is free or the table is full.
pub open spec fn phys_alloc_post(a: FrameAllocator, b: FrameAllocator, size: usize, r: Option<PhysAddr>) -> bool {
    let n = frames_for(size as int);
    match r {
        Some(p) => {
            let s = p.0 as int / 4096;
            &&& p.0 % 4096 == 0
            &&& s + n <= a.highest_frame()
            &&& run_free(a.frames(), s, n)
            &&& forall|s2: int| 0 <= s2 < s ==> !run_free(a.frames(), s2, n)
            &&& b.frames() == set_range(a.frames(), s, s + n, true)
            &&& b.used_count() == a.used_count() + n
            &&& exists|i: int|
                first_unused(a.alloc_table(), i) && b.alloc_table() == a.alloc_table().update(
                    i,
                    PhysAllocation { in_use: true, start: p.0, bytes: (n * 4096) as usize },
                )
            &&& b.highest_frame() == a.highest_frame()
            &&& b.total_count() == a.total_count()
            &&& b.is_init() == a.is_init()
        },
        None => {
            &&& same_state(a, b)
            &&& ((forall|s: int| 0 <= s && s + n <= a.highest_frame() ==> !run_free(a.frames(), s, n))
                || (forall|i: int| 0 <= i < a.alloc_table().len() ==> a.alloc_table()[i].in_use))
        },
    }
}

/// When `phys_free` may be called (otherwise the kernel panics): the frames of a
/// recorded allocation are all used, or else the address is a used single frame.
pub open spec fn phys_free_ok(a: FrameAllocator, addr: PhysAddr) -> bool {
    let t = a.alloc_table();
    let f0 = addr.0 as int / 4096;
    &&& forall|i: int|
        alloc_index(t, addr.0, i) ==> forall|f: int|
            f0 <= f < f0 + t[i].bytes / 4096 && f < MAX_FRAMES ==> a.frames()[f]
    &&& (forall|i: int| !alloc_index(t, addr.0, i)) ==> free_frame_ok(a, addr)
}

/// What `phys_free` does: a recorded allocation releases its frames and its table
/// entry; otherwise the single frame is freed.
pub open spec fn phys_free_post(a: FrameAllocator, b: FrameAllocator, addr: PhysAddr) -> bool {
    let t = a.alloc_table();
    let f0 = addr.0 as int / 4096;
    &&& forall|i: int|
        alloc_index(t, addr.0, i) ==> {
            &&& b.frames() == set_range(a.frames(), f0, f0 + t[i].bytes / 4096, false)
            &&& b.alloc_table() == t.update(i, empty_alloc())
            &&& b.highest_frame() == a.highest_frame()
            &&& b.total_count() == a.total_count()
            &&& b.is_init() == a.is_init()
        }
    &&& (forall|i: int| !alloc_index(t, addr.0, i)) ==> free_frame_post(a, b, addr)
}

impl FrameAllocator {
    fn register_alloc(&mut self, start: u32, bytes: usize) -> (r: bool)
        requires
            old(self).wf(),
            start % 4096 == 0,
        ensures
            final(self).wf(),
            final(self).bitmap == old(self).bitmap,
            final(self).used == old(self).used,
            final(self).highest == old(self).highest,
            final(self).total == old(self).total,
            final(self).initialized == old(self).initialized,
            r ==> exists|i: int|
                first_unused(old(self).allocs@, i) && final(self).allocs@ == old(self).allocs@.update(
                    i,
                    PhysAllocation { in_use: true, start, bytes },
                ),
            !r ==> final(self).allocs@ == old(self).allocs@ && forall|i: int|
                0 <= i < MAX_ALLOCS ==> old(self).allocs@[i].in_use,
    {
        let mut i: usize = 0;
        while i < MAX_ALLOCS
            invariant
                self.wf(),
                *self == *old(self),
                i <= MAX_ALLOCS,
                forall|j: int| 0 <= j < i ==> self.allocs@[j].in_use,
            decreases MAX_ALLOCS - i,
        {
            if !self.allocs[i].in_use {
                self.allocs.set(i, PhysAllocation { in_use: true, start, bytes });
                assert(first_unused(old(self).allocs@, i as int));
                return true;
            }
            i = i + 1;
        }
        false
    }

    fn take_alloc(&mut self, start: u32) -> (r: Option<usize>)
        requires
            old(self).wf(),
        ensures
            final(self).wf(),
            final(self).bitmap == old(self).bitmap,
            final(self).used == old(self).used,
            final(self).highest == old(self).highest,
            final(self).total == old(self).total,
            final(self).initialized == old(self).initialized,
            match r {
                Some(b) => exists|i: int|
                    alloc_index(old(self).allocs@, start, i) && b == old(self).allocs@[i].bytes
                        && final(self).allocs@ == old(self).allocs@.update(i, empty_alloc()),
                None => final(self).allocs@ == old(self).allocs@ && forall|i: int|
                    !alloc_index(old(self).allocs@, start, i),
            },
    {
        let mut i: usize = 0;
        while i < MAX_ALLOCS
            invariant
                self.wf(),
                *self == *old(self),
                i <= MAX_ALLOCS,
                forall|j: int| 0 <= j < i ==> !(self.allocs@[j].in_use && self.allocs@[j].start == start),
            decreases MAX_ALLOCS - i,
        {
            let a = self.allocs[i];
            if a.in_use && a.start == start {
                self.allocs.set(i, PhysAllocation { in_use: false, start: 0, bytes: 0 });
                assert(alloc_index(old(self).allocs@, start, i as int));
                return Some(a.bytes);
            }
            i = i + 1;
        }
        None
    }

    fn peek_alloc(&self, start: u32) -> (r: Option<usize>)
        requires
            self.wf(),
        ensures
            match r {
                Some(b) => exists|i: int| alloc_index(self.allocs@, start, i) && b == self.allocs@[i].bytes,
                None => forall|i: int| !alloc_index(self.allocs@, start, i),
            },
    {
        let mut i: usize = 0;
        while i < MAX_ALLOCS
            invariant
                self.wf(),
                i <= MAX_ALLOCS,
                forall|j: int| 0 <= j < i ==> !(self.allocs@[j].in_use && self.allocs@[j].start == start),
            decreases MAX_ALLOCS - i,
        {
            let a = self.allocs[i];
            if a.in_use && a.start == start {
                assert(alloc_index(self.allocs@, start, i as int));
                return Some(a.bytes);
            }
            i = i + 1;
        }
        None
    }

    /// Allocate at least `size` bytes as contiguous frames (first fit), recorded so
    /// that [`FrameAllocator::phys_free`] can release them together.
    pub fn phys_alloc(&mut self, size: usize) -> (r: Option<PhysAddr>)
        requires
            old(self).wf(),
            old(self).is_init(),
            size <= usize::MAX - 4095,
        ensures
            final(self).wf(),
            phys_alloc_post(*old(self), *final(self), size, r),
    {
        let n: usize = if size == 0 { 1 } else { (size + 4095) / 4096 };
        let ghost a = *self;
        let ghost old_frames = self.bitmap@;
        if n > self.highest {
            return None;
        }
        let bytes = n * FRAME_SIZE;
        let mut start: usize = 0;
        let mut found = false;
        while !found && start + n <= self.highest
            invariant
                self.wf(),
                *self == a,
                old_frames == self.bitmap@,
                n >= 1,
                n <= self.highest,
                start <= self.highest,
                found ==> start + n <= self.highest && run_free(old_frames, start as int, n as int),
                forall|s2: int|
                    0 <= s2 < start && s2 + n <= self.highest ==> !run_free(old_frames, s2, n as int),
            decreases self.highest - start + (if found { 0int } else { 1int }),
        {
            let mut f = start;
            while f < start + n && !self.bitmap[f]
                invariant
                    self.wf(),
                    start <= f <= start + n,
                    start + n <= self.highest,
                    forall|g: int| start <= g < f ==> !old_frames[g],
                    old_frames == self.bitmap@,
                decreases start + n - f,
            {
                f = f + 1;
            }
            if f == start + n {
                found = true;
            } else {
                assert forall|s2: int| start <= s2 <= f implies !run_free(old_frames, s2, n as int) by {
                    assert(old_frames[f as int]);
                }
                start = f + 1;
            }
        }
        if !found {
            assert forall|s: int| 0 <= s && s + n <= a.highest implies !run_free(old_frames, s, n as int) by {
                if s >= start {
                    assert(start + n <= s + n);
                }
            }
            return None;
        }
        let end = start + n;
        let mut k = start;
        while k < end
            invariant
                self.wf(),
                start <= k <= end,
                end == start + n,
                end <= self.highest,
                old_frames.len() == MAX_FRAMES,
                run_free(old_frames, start as int, n as int),
                self.bitmap@ =~= set_range(old_frames, start as int, k as int, true),
                self.used == a.used + (k - start),
                self.highest == a.highest,
                self.total == a.total,
                self.initialized == a.initialized,
                self.allocs@ == a.allocs@,
            decreases end - k,
        {
            proof {
                lemma_count_update(self.bitmap@, self.highest as int, k as int, true);
            }
            self.bitmap_set_used(k);
            k = k + 1;
        }
        let addr = (start * FRAME_SIZE) as u32;
        assert(start * 4096 < 0x1_0000_0000) by (nonlinear_arith)
            requires
                start < MAX_FRAMES,
        ;
        assert(addr as int == start * 4096);
        let ghost pre_reg = self.allocs@;
        if !self.register_alloc(addr, bytes) {
            let mut k2 = start;
            while k2 < end
                invariant
                    self.wf(),
                    start <= k2 <= end,
                    end == start + n,
                    end <= self.highest,
                    old_frames.len() == MAX_FRAMES,
                    run_free(old_frames, start as int, n as int),
                    self.bitmap@ =~= set_range(old_frames, k2 as int, end as int, true),
                    self.used == a.used + (end - k2),
                    self.highest == a.highest,
                    self.total == a.total,
                    self.initialized == a.initialized,
                    self.allocs@ == a.allocs@,
                decreases end - k2,
            {
                proof {
                    lemma_count_update(self.bitmap@, self.highest as int, k2 as int, false);
                }
                self.bitmap_set_free(k2);
                k2 = k2 + 1;
            }
            assert(self.bitmap@ =~= old_frames);
            return None;
        }
        assert(start * 4096 < 0x1_0000_0000) by (nonlinear_arith)
            requires
                start < MAX_FRAMES,
        ;
        assert(addr as int == start * 4096);
        assert((addr as int) / 4096 == start);
        assert(addr % 4096 == 0);
        let r = Some(PhysAddr(addr));
        assert(self.frames() == set_range(a.frames(), start as int, start + n, true));
        assert(self.used_count() == a.used_count() + n);
        assert(forall|s2: int| 0 <= s2 < start ==> !run_free(a.frames(), s2, n as int));
        assert(frames_for(size as int) == n);
        proof {
            let i = choose|i: int|
                first_unused(pre_reg, i) && self.allocs@ == pre_reg.update(
                    i,
                    PhysAllocation { in_use: true, start: addr, bytes },
                );
            assert(first_unused(a.alloc_table(), i));
            assert(bytes == (n * 4096) as usize);
            assert(self.alloc_table() == a.alloc_table().update(
                i,
                PhysAllocation { in_use: true, start: addr, bytes: (n * 4096) as usize },
            ));
        }
        r
    }

    /// Release a block from [`FrameAllocator::phys_alloc`], or a single frame from
    /// [`FrameAllocator::alloc_frame`].
    pub fn phys_free(&mut self, addr: PhysAddr)
        requires
            old(self).wf(),
            phys_free_ok(*old(self), addr),
        ensures
            final(self).wf(),
            phys_free_post(*old(self), *final(self), addr),
    {
        let ghost a = *self;
        match self.take_alloc(addr.as_u32()) {
            Some(bytes) => {
                let ghost i = choose|i: int| alloc_index(a.allocs@, addr.0, i) && bytes == a.allocs@[i].bytes
                    && self.allocs@ == a.allocs@.update(i, empty_alloc());
                let n = bytes / FRAME_SIZE;
                let start = addr.frame_index();
                let end = start + n;
                let mut f = start;
                while f < end
                    invariant
                        self.wf(),
                        start <= f <= end,
                        end == start + n,
                        self.bitmap@ =~= set_range(a.bitmap@, start as int, f as int, false),
                        a.bitmap@.len() == MAX_FRAMES,
                        self.highest == a.highest,
                        self.total == a.total,
                        self.initialized == a.initialized,
                        self.allocs@ == a.allocs@.update(i, empty_alloc()),
                    decreases end - f,
                {
                    self.bitmap_set_free(f);
                    f = f + 1;
                }
                assert(alloc_index(a.alloc_table(), addr.0, i));
                assert(start == addr.0 as int / 4096);
                assert(n == a.alloc_table()[i].bytes / 4096);
                assert(self.frames() == set_range(a.frames(), start as int, start + n, false));
                assert forall|j: int| alloc_index(a.allocs@, addr.0, j) implies j == i by {
                    if j < i {
                        assert(!(a.allocs@[j].in_use && a.allocs@[j].start == addr.0));
                    } else if j > i {
                        assert(!(a.allocs@[i].in_use && a.allocs@[i].start == addr.0));
                    }
                }
            },
            None => {
                self.free_frame(addr);
            },
        }
    }

    /// Size of a recorded allocation, or one frame for a used aligned frame.
    pub fn phys_size(&self, addr: PhysAddr) -> (r: Option<usize>)
        requires
            self.wf(),
        ensures
            (exists|i: int| alloc_index(self.alloc_table(), addr.0, i)) ==> exists|i: int|
                alloc_index(self.alloc_table(), addr.0, i) && r == Some(self.alloc_table()[i].bytes),
            (forall|i: int| !alloc_index(self.alloc_table(), addr.0, i)) ==> r == (if addr.0 % 4096 == 0
                && (addr.0 as int / 4096) < self.highest_frame() && self.frames()[addr.0 as int / 4096] {
                Some(FRAME_SIZE)
            } else {
                None
            }),
    {
        if let Some(bytes) = self.peek_alloc(addr.as_u32()) {
            proof {
                let i = choose|i: int| alloc_index(self.allocs@, addr.0, i) && bytes == self.allocs@[i].bytes;
                assert(alloc_index(self.alloc_table(), addr.0, i));
            }
            return Some(bytes);
        }
        if addr.is_aligned() {
            let f = addr.frame_index();
            if f < self.highest && self.bitmap[f] {
                return Some(FRAME_SIZE);
            }
        }
        None
    }
}

/// Running a `phys_alloc` and then `phys_free` on its result restores the frame map
/// and the allocation table (unless a stale table entry already named that address).
pub proof fn lemma_phys_alloc_then_free_restores(
    a: FrameAllocator,
    b: FrameAllocator,
    c: FrameAllocator,
    size: usize,
    p: PhysAddr,
)
    requires
        a.wf(),
        a.is_init(),
        size <= usize::MAX - 4095,
        forall|j: int| 0 <= j < a.alloc_table().len() ==> !(a.alloc_table()[j].in_use && a.alloc_table()[j].start == p.0),
        phys_alloc_post(a, b, size, Some(p)),
        phys_free_post(b, c, p),
    ensures
        c.frames() == a.frames(),
        c.alloc_table() == a.alloc_table(),
{
    a.lemma_wf();
    let n = frames_for(size as int);
    let s = p.0 as int / 4096;
    let i = choose|i: int|
        first_unused(a.alloc_table(), i) && b.alloc_table() == a.alloc_table().update(
            i,
            PhysAllocation { in_use: true, start: p.0, bytes: (n * 4096) as usize },
        );
    assert(n * 4096 <= usize::MAX) by (nonlinear_arith)
        requires
            n == frames_for(size as int),
            size <= usize::MAX - 4095,
    ;
    assert(alloc_index(b.alloc_table(), p.0, i));
    assert(((n * 4096) as usize) / 4096 == n);
    assert(c.frames() =~= a.frames());
    assert(c.alloc_table() =~= a.alloc_table());
}

/// One Multiboot memory-map entry.
#[derive(Clone, Copy, Debug, PartialEq, Eq, Structural)]
pub struct MmapEntry {
    pub base_addr: u64,
    pub length: u64,
    pub typ: u32,
    pub reserved: u32,
}

/// Multiboot memory-map type of usable RAM.
pub const MMAP_AVAILABLE: u32 = 1;

impl MmapEntry {
    pub fn base(&self) -> (r: u64)
        ensures
            r == self.base_addr,
    {
        self.base_addr
    }

    pub fn length(&self) -> (r: u64)
        ensures
            r == self.length,
    {
        self.length
    }

    /// Exclusive end address, saturating at `u64::MAX`.
    pub fn end(&self) -> (r: u64)
        ensures
            r == spec_entry_end(*self),
    {
        self.base_addr.saturating_add(self.length)
    }

    pub fn is_available(&self) -> (r: bool)
        ensures
            r == (self.typ == MMAP_AVAILABLE),
    {
        self.typ == MMAP_AVAILABLE
    }
}

pub open spec fn spec_entry_end(e: MmapEntry) -> u64 {
    if e.base_addr + e.length > u64::MAX {
        u64::MAX
    } else {
        (e.base_addr + e.length) as u64
    }
}

/// The Multiboot facts the frame allocator is built from.
pub struct MultibootInfo {
    /// Memory map entries (empty when the loader gave none).
    pub mmap: Vec<MmapEntry>,
    /// `mem_upper` in KiB, when the basic memory tag is present.
    pub mem_upper_kib: Option<u32>,
    pub has_mmap: bool,
    pub mmap_addr: u32,
    pub mmap_length: u32,
}

/// Where the kernel image and boot stack lie.
#[derive(Clone, Copy, Debug)]
pub struct KernelLayout {
    pub kernel_end: u64,
    pub stack_bottom: u64,
    pub stack_top: u64,
}

/// `f` lies inside one of `regions` (whole frames only).
pub open spec fn covered_inner(regions: Seq<(u64, u64)>, f: int) -> bool {
    exists|k: int|
        #![trigger regions[k]]
        0 <= k < regions.len() && inner_frames(regions[k].0, regions[k].1).0 <= f
            < inner_frames(regions[k].0, regions[k].1).1
}

/// `f` touches one of `regions`.
pub open spec fn covered_outer(regions: Seq<(u64, u64)>, f: int) -> bool {
    exists|k: int|
        #![trigger regions[k]]
        0 <= k < regions.len() && outer_frames(regions[k].0, regions[k].1).0 <= f
            < outer_frames(regions[k].0, regions[k].1).1
}

/// Frame map with `frees` released from an all-used map and `reserved` taken back.
pub open spec fn boot_frames(frees: Seq<(u64, u64)>, reserved: Seq<(u64, u64)>) -> Seq<bool> {
    Seq::new(MAX_FRAMES as nat, |f: int| !covered_inner(frees, f) || covered_outer(reserved, f))
}

pub open spec fn align_frame_up(x: u64) -> u64 {
    (((x as int + 4095) / 4096) * 4096) as u64
}

/// Regions always kept used: low memory, kernel image, boot stack, Multiboot data.
pub open spec fn reserved_regions(info_addr: u32, mmap: Option<(u32, u32)>, layout: KernelLayout) -> Seq<(u64, u64)> {
    let base = seq![
        (0u64, 0x100000u64),
        (KERNEL_LOAD_BASE as u64, align_frame_up(layout.kernel_end)),
        (layout.stack_bottom, layout.stack_top),
    ];
    let with_info = if info_addr != 0 {
        base.push((info_addr as u64, (info_addr as u64 + 256) as u64))
    } else {
        base
    };
    match mmap {
        Some((a, l)) => if info_addr != 0 && a != 0 && l != 0 {
            with_info.push((a as u64, (a as u64 + l as u64) as u64))
        } else {
            with_info
        },
        None => with_info,
    }
}

/// RAM assumed when discovery fails: 128 MiB with the VGA hole.
pub open spec fn fallback_frees() -> Seq<(u64, u64)> {
    seq![(0u64, 0xA0000u64), (0x100000u64, 0x800_0000u64)]
}

impl FrameAllocator {
    fn reset_bitmap_all_used(&mut self)
        requires
            old(self).wf(),
        ensures
            final(self).wf(),
            forall|f: int| 0 <= f < MAX_FRAMES ==> final(self).frames()[f],
            final(self).highest_frame() == 0,
            final(self).total_count() == 0,
            final(self).used_count() == 0,
            final(self).is_init() == old(self).is_init(),
            forall|i: int| 0 <= i < MAX_ALLOCS ==> final(self).alloc_table()[i] == empty_alloc(),
    {
        self.highest = 0;
        self.used = 0;
        self.total = 0;
        let mut f: usize = 0;
        while f < MAX_FRAMES
            invariant
                self.wf(),
                self.highest == 0,
                self.total == 0,
                self.initialized == old(self).initialized,
                f <= MAX_FRAMES,
                forall|g: int| 0 <= g < f ==> self.bitmap@[g],
            decreases MAX_FRAMES - f,
        {
            self.bitmap.set(f, true);
            f = f + 1;
        }
        let mut i: usize = 0;
        while i < MAX_ALLOCS
            invariant
                self.wf(),
                self.highest == 0,
                self.total == 0,
                self.used == 0,
                self.initialized == old(self).initialized,
                i <= MAX_ALLOCS,
                forall|g: int| 0 <= g < MAX_FRAMES ==> self.bitmap@[g],
                forall|k: int| 0 <= k < i ==> self.allocs@[k] == empty_alloc(),
            decreases MAX_ALLOCS - i,
        {
            self.allocs.set(i, PhysAllocation { in_use: false, start: 0, bytes: 0 });
            i = i + 1;
        }
    }

    /// Release every region of `regions` (whole frames only).
    #[verifier::spinoff_prover]
    #[verifier::rlimit(40)]
    fn free_regions(&mut self, regions: &Vec<(u64, u64)>)
        requires
            old(self).wf(),
        ensures
            final(self).wf(),
            forall|f: int|
                #![trigger final(self).frames()[f]]
                0 <= f < MAX_FRAMES ==> final(self).frames()[f] == (old(self).frames()[f]
                    && !covered_inner(regions@, f)),
            final(self).highest_frame() == old(self).highest_frame(),
            final(self).total_count() == old(self).total_count(),
            final(self).is_init() == old(self).is_init(),
            final(self).alloc_table() == old(self).alloc_table(),
    {
        let ghost start = self.bitmap@;
        let mut k: usize = 0;
        while k < regions.len()
            invariant
                self.wf(),
                k <= regions@.len(),
                start.len() == MAX_FRAMES,
                forall|f: int|
                    #![trigger self.bitmap@[f]]
                    0 <= f < MAX_FRAMES ==> self.bitmap@[f] == (start[f] && !covered_inner(
                        regions@.take(k as int),
                        f,
                    )),
                self.highest == old(self).highest,
                self.total == old(self).total,
                self.initialized == old(self).initialized,
                self.allocs@ == old(self).allocs@,
            decreases regions@.len() - k,
        {
            let (b, e) = regions[k];
            let ghost prev = self.bitmap@;
            self.mark_region_free(b, e);
            proof {
                assert forall|f: int| #![trigger self.bitmap@[f]] 0 <= f < MAX_FRAMES implies self.bitmap@[f] == (start[f]
                    && !covered_inner(regions@.take(k + 1), f)) by {
                    lemma_cover_step(regions@, k as int, f);
                    assert(prev[f] == (start[f] && !covered_inner(regions@.take(k as int), f)));
                }
            }
            k = k + 1;
        }
        assert(regions@.take(regions@.len() as int) =~= regions@);
    }

    /// Mark every region of `regions` used (every frame they touch).
    #[verifier::spinoff_prover]
    #[verifier::rlimit(40)]
    fn use_regions(&mut self, regions: &Vec<(u64, u64)>)
        requires
            old(self).wf(),
        ensures
            final(self).wf(),
            forall|f: int|
                #![trigger final(self).frames()[f]]
                0 <= f < MAX_FRAMES ==> final(self).frames()[f] == (old(self).frames()[f]
                    || covered_outer(regions@, f)),
            final(self).highest_frame() == old(self).highest_frame(),
            final(self).total_count() == old(self).total_count(),
            final(self).is_init() == old(self).is_init(),
            final(self).alloc_table() == old(self).alloc_table(),
    {
        let ghost start = self.bitmap@;
        let mut k: usize = 0;
        while k < regions.len()
            invariant
                self.wf(),
                k <= regions@.len(),
                start.len() == MAX_FRAMES,
                forall|f: int|
                    #![trigger self.bitmap@[f]]
                    0 <= f < MAX_FRAMES ==> self.bitmap@[f] == (start[f] || covered_outer(
                        regions@.take(k as int),
                        f,
                    )),
                self.highest == old(self).highest,
                self.total == old(self).total,
                self.initialized == old(self).initialized,
                self.allocs@ == old(self).allocs@,
            decreases regions@.len() - k,
        {
            let (b, e) = regions[k];
            let ghost prev = self.bitmap@;
            self.mark_region_used(b, e);
            proof {
                assert forall|f: int| #![trigger self.bitmap@[f]] 0 <= f < MAX_FRAMES implies self.bitmap@[f] == (start[f]
                    || covered_outer(regions@.take(k + 1), f)) by {
                    lemma_cover_step(regions@, k as int, f);
                    assert(prev[f] == (start[f] || covered_outer(regions@.take(k as int), f)));
                }
            }
            k = k + 1;
        }
        assert(regions@.take(regions@.len() as int) =~= regions@);
    }
}

proof fn lemma_cover_step(regions: Seq<(u64, u64)>, k: int, f: int)
    requires
        0 <= k < regions.len(),
    ensures
        covered_inner(regions.take(k + 1), f) == (covered_inner(regions.take(k), f) || (inner_frames(
            regions[k].0,
            regions[k].1,
        ).0 <= f < inner_frames(regions[k].0, regions[k].1).1)),
        covered_outer(regions.take(k + 1), f) == (covered_outer(regions.take(k), f) || (outer_frames(
            regions[k].0,
            regions[k].1,
        ).0 <= f < outer_frames(regions[k].0, regions[k].1).1)),
{
    let t1 = regions.take(k + 1);
    let t0 = regions.take(k);
    assert(t1[k] == regions[k]);
    assert forall|w: int| 0 <= w < k implies t1[w] == t0[w] by {}
    if covered_inner(t0, f) {
        let w = choose|w: int|
            #![trigger t0[w]]
            0 <= w < t0.len() && inner_frames(t0[w].0, t0[w].1).0 <= f < inner_frames(t0[w].0, t0[w].1).1;
        assert(t1[w] == t0[w]);
    }
    if covered_inner(t1, f) {
        let w = choose|w: int|
            #![trigger t1[w]]
            0 <= w < t1.len() && inner_frames(t1[w].0, t1[w].1).0 <= f < inner_frames(t1[w].0, t1[w].1).1;
        if w < k {
            assert(t0[w] == t1[w]);
        }
    }
    if covered_outer(t0, f) {
        let w = choose|w: int|
            #![trigger t0[w]]
            0 <= w < t0.len() && outer_frames(t0[w].0, t0[w].1).0 <= f < outer_frames(t0[w].0, t0[w].1).1;
        assert(t1[w] == t0[w]);
    }
    if covered_outer(t1, f) {
        let w = choose|w: int|
            #![trigger t1[w]]
            0 <= w < t1.len() && outer_frames(t1[w].0, t1[w].1).0 <= f < outer_frames(t1[w].0, t1[w].1).1;
        if w < k {
            assert(t0[w] == t1[w]);
        }
    }
}


/// Available memory-map entries as `(base, end)` regions, in order.
pub open spec fn mmap_frees(entries: Seq<MmapEntry>) -> Seq<(u64, u64)>
    decreases entries.len(),
{
    if entries.len() == 0 {
        Seq::empty()
    } else {
        let rest = mmap_frees(entries.drop_last());
        let e = entries.last();
        if e.typ == MMAP_AVAILABLE {
            rest.push((e.base_addr, spec_entry_end(e)))
        } else {
            rest
        }
    }
}

/// Highest end address over all memory-map entries (0 if none).
pub open spec fn mmap_max_end(entries: Seq<MmapEntry>) -> u64
    decreases entries.len(),
{
    if entries.len() == 0 {
        0
    } else {
        let m = mmap_max_end(entries.drop_last());
        let e = spec_entry_end(entries.last());
        if e > m {
            e
        } else {
            m
        }
    }
}

/// Frames managed for a discovered end address (at least one, at most 4 GiB worth).
pub open spec fn highest_for(max_end: u64) -> int {
    let c = if max_end < MAX_PHYS_EXCLUSIVE { max_end as int } else { MAX_PHYS_EXCLUSIVE as int };
    let h = c / 4096;
    if h < 1 {
        1
    } else {
        h
    }
}

/// Frames managed by the 128 MiB fallback.
pub const FALLBACK_FRAMES: usize = 32768;

/// Boot plan from Multiboot data: regions to release, frames managed, and the
/// memory map to keep reserved.
pub open spec fn boot_plan(
    entries: Seq<MmapEntry>,
    mem_upper: Option<u32>,
    has_mmap: bool,
    mmap_addr: u32,
    mmap_length: u32,
) -> (Seq<(u64, u64)>, int, Option<(u32, u32)>) {
    let found = entries.len() > 0;
    let max0 = mmap_max_end(entries);
    let mm = if has_mmap { Some((mmap_addr, mmap_length)) } else { None };
    match mem_upper {
        Some(m) => {
            let end = (0x100000 + (m as int) * 1024) as u64;
            let max_end = if end > max0 { end } else { max0 };
            let frees = mmap_frees(entries).push((0u64, 0xA0000u64)).push((0x100000u64, end));
            if max_end < 0x200000 {
                (frees + fallback_frees(), FALLBACK_FRAMES as int, None)
            } else {
                (frees, highest_for(max_end), mm)
            }
        },
        None => if !found {
            (fallback_frees(), FALLBACK_FRAMES as int, None)
        } else if max0 < 0x200000 {
            (mmap_frees(entries) + fallback_frees(), FALLBACK_FRAMES as int, None)
        } else {
            (mmap_frees(entries), highest_for(max0), mm)
        },
    }
}

impl FrameAllocator {
    fn set_highest(&mut self, highest: usize)
        requires
            old(self).wf(),
            highest <= MAX_FRAMES,
        ensures
            final(self).wf(),
            final(self).bitmap@ == old(self).bitmap@,
            final(self).highest == highest,
            final(self).total == old(self).total,
            final(self).initialized == old(self).initialized,
            final(self).allocs@ == old(self).allocs@,
    {
        let mut used: usize = 0;
        let mut f: usize = 0;
        while f < highest
            invariant
                self.wf(),
                f <= highest,
                highest <= MAX_FRAMES,
                used == count_used(self.bitmap@, f as int),
            decreases highest - f,
        {
            proof {
                lemma_count_bound(self.bitmap@, f as int);
            }
            if self.bitmap[f] {
                used = used + 1;
            }
            f = f + 1;
        }
        self.highest = highest;
        self.used = used;
    }

    /// Release `frees`, manage `highest` frames, reserve the critical regions and
    /// recount, starting from an all-used map.
    fn apply_plan(
        &mut self,
        frees: &Vec<(u64, u64)>,
        highest: usize,
        info_addr: u32,
        mmap: Option<(u32, u32)>,
        layout: &KernelLayout,
    )
        requires
            old(self).wf(),
            highest <= MAX_FRAMES,
            layout.kernel_end <= u64::MAX - 4095,
            forall|f: int| 0 <= f < MAX_FRAMES ==> old(self).frames()[f],
        ensures
            final(self).wf(),
            final(self).frames() == boot_frames(frees@, reserved_regions(info_addr, mmap, *layout)),
            final(self).highest_frame() == highest,
            final(self).total_count() == highest,
            final(self).used_count() == count_used(final(self).frames(), highest as int),
            final(self).is_init() == old(self).is_init(),
            final(self).alloc_table() == old(self).alloc_table(),
    {
        self.free_regions(frees);
        let ghost freed = self.frames();
        self.set_highest(highest);
        self.recount_used();
        let kend = (layout.kernel_end + 4095) / 4096 * 4096;
        let mut reserved: Vec<(u64, u64)> = Vec::new();
        reserved.push((0u64, 0x100000u64));
        reserved.push((KERNEL_LOAD_BASE as u64, kend));
        reserved.push((layout.stack_bottom, layout.stack_top));
        if info_addr != 0 {
            reserved.push((info_addr as u64, info_addr as u64 + 256));
            match mmap {
                Some((a, l)) => {
                    if a != 0 && l != 0 {
                        reserved.push((a as u64, a as u64 + l as u64));
                    }
                },
                None => {},
            }
        }
        assert(reserved@ =~= reserved_regions(info_addr, mmap, *layout));
        let ghost before_use = self.frames();
        assert(before_use == freed);
        self.use_regions(&reserved);
        let ghost after_use = self.frames();
        assert forall|f: int| 0 <= f < MAX_FRAMES implies #[trigger] after_use[f] == boot_frames(
            frees@,
            reserved_regions(info_addr, mmap, *layout),
        )[f] by {
            assert(after_use[f] == (before_use[f] || covered_outer(reserved@, f)));
            assert(freed[f] == (old(self).frames()[f] && !covered_inner(frees@, f)));
        }
        assert(after_use =~= boot_frames(frees@, reserved_regions(info_addr, mmap, *layout)));
        self.recount_used();
    }

    /// Set up the frame map from Multiboot data (or the 128 MiB fallback when there is
    /// none or discovery finds too little), once.
    pub fn init(&mut self, info_addr: u32, info: Option<&MultibootInfo>, layout: &KernelLayout)
        requires
            old(self).wf(),
            layout.kernel_end <= u64::MAX - 4095,
        ensures
            final(self).wf(),
            old(self).is_init() ==> same_state(*old(self), *final(self)),
            !old(self).is_init() ==> init_post(info_addr, info, *layout, *final(self)),
    {
        if self.initialized {
            return;
        }
        self.reset_bitmap_all_used();
        let mut frees: Vec<(u64, u64)> = Vec::new();
        let mut highest: usize = FALLBACK_FRAMES;
        let mut mm: Option<(u32, u32)> = None;
        match info {
            None => {
                frees.push((0u64, 0xA0000u64));
                frees.push((0x100000u64, 0x800_0000u64));
            },
            Some(mb) => {
                let mut max_end: u64 = 0;
                let mut i: usize = 0;
                while i < mb.mmap.len()
                    invariant
                        i <= mb.mmap@.len(),
                        frees@ == mmap_frees(mb.mmap@.take(i as int)),
                        max_end == mmap_max_end(mb.mmap@.take(i as int)),
                    decreases mb.mmap@.len() - i,
                {
                    let e = mb.mmap[i];
                    assert(mb.mmap@.take(i + 1).drop_last() =~= mb.mmap@.take(i as int));
                    let end = e.end();
                    if end > max_end {
                        max_end = end;
                    }
                    if e.is_available() {
                        frees.push((e.base(), end));
                    }
                    i = i + 1;
                }
                assert(mb.mmap@.take(mb.mmap@.len() as int) =~= mb.mmap@);
                let mut fallback = false;
                match mb.mem_upper_kib {
                    Some(m) => {
                        let end = 0x100000u64 + (m as u64) * 1024;
                        if end > max_end {
                            max_end = end;
                        }
                        frees.push((0u64, 0xA0000u64));
                        frees.push((0x100000u64, end));
                    },
                    None => {
                        if mb.mmap.len() == 0 {
                            fallback = true;
                        }
                    },
                }
                if fallback || max_end < 0x200000 {
                    frees.push((0u64, 0xA0000u64));
                    frees.push((0x100000u64, 0x800_0000u64));
                    highest = FALLBACK_FRAMES;
                } else {
                    let c = if max_end < MAX_PHYS_EXCLUSIVE { max_end } else { MAX_PHYS_EXCLUSIVE };
                    let h = (c / 4096) as usize;
                    highest = if h < 1 { 1 } else { h };
                    if mb.has_mmap {
                        mm = Some((mb.mmap_addr, mb.mmap_length));
                    }
                }
                proof {
                    let plan = boot_plan(mb.mmap@, mb.mem_upper_kib, mb.has_mmap, mb.mmap_addr, mb.mmap_length);
                    assert(frees@ =~= plan.0);
                    assert(highest == plan.1);
                    assert(mm == plan.2);
                }
            },
        }
        proof {
            let plan = init_plan(info_addr, info);
            assert(frees@ =~= plan.0);
            assert(highest == plan.1);
            assert(mm == plan.2);
        }
        self.apply_plan(&frees, highest, info_addr, mm, layout);
        proof {
            lemma_count_bound(self.bitmap@, self.highest as int);
        }
        if self.total_frames() < 1024 || self.free_frames() < 256 {
            self.reset_bitmap_all_used();
            let mut fb: Vec<(u64, u64)> = Vec::new();
            fb.push((0u64, 0xA0000u64));
            fb.push((0x100000u64, 0x800_0000u64));
            assert(fb@ =~= fallback_frees());
            self.apply_plan(&fb, FALLBACK_FRAMES, info_addr, None, layout);
        }
        self.initialized = true;
    }
}

/// The plan `init` follows for the given boot data.
pub open spec fn init_plan(info_addr: u32, info: Option<&MultibootInfo>) -> (Seq<(u64, u64)>, int, Option<(u32, u32)>) {
    match info {
        None => (fallback_frees(), FALLBACK_FRAMES as int, None),
        Some(mb) => boot_plan(mb.mmap@, mb.mem_upper_kib, mb.has_mmap, mb.mmap_addr, mb.mmap_length),
    }
}

/// State after `init`: the planned map, unless it manages under 1024 frames or
/// leaves under 256 free, in which case the 128 MiB fallback is used.
pub open spec fn init_post(info_addr: u32, info: Option<&MultibootInfo>, layout: KernelLayout, b: FrameAllocator) -> bool {
    let plan = init_plan(info_addr, info);
    let first = boot_frames(plan.0, reserved_regions(info_addr, plan.2, layout));
    let ok = plan.1 >= 1024 && plan.1 - count_used(first, plan.1) >= 256;
    let h = if ok { plan.1 } else { FALLBACK_FRAMES as int };
    &&& b.frames() == (if ok {
        first
    } else {
        boot_frames(fallback_frees(), reserved_regions(info_addr, None, layout))
    })
    &&& b.highest_frame() == h
    &&& b.total_count() == h
    &&& b.used_count() == count_used(b.frames(), h)
    &&& b.is_init()
    &&& forall|i: int| 0 <= i < MAX_ALLOCS ==> b.alloc_table()[i] == empty_alloc()
}
} // verus!
