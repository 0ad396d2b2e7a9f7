//! The kernel heap allocator: first fit over blocks that tile the heap
//! window from its start to its current end.
//!
//! Each block has a 16-byte header and a size (header included, a multiple
//! of 16). Free blocks are taken in address order; a block is split when
//! the rest can hold a header and 16 bytes; a freed block is merged with a
//! free neighbour on either side, so no two free blocks touch. When nothing
//! fits, the heap grows by whole pages (which the caller maps) up to its
//! 4 MiB limit. The payload's bytes are the caller's to zero.

use vstd::prelude::*;
use crate::heap::{KERNEL_HEAP_MAX, KERNEL_HEAP_START};

verus! {

/// Bytes of the header in front of each payload.
pub const HEAP_HEADER: u64 = 16;
/// Block sizes and payload addresses are multiples of this.
pub const HEAP_ALIGN: u64 = 16;
/// The heap grows by pages of this size.
pub const HEAP_PAGE: u64 = 4096;
/// Smallest block: a header and one aligned unit.
pub const HEAP_MIN_BLOCK: u64 = 32;

/// One block of the heap: where its header is, its size, whether it is
/// handed out.
#[derive(Clone, Copy, Debug, PartialEq, Eq, Structural)]
pub struct HeapBlock {
    pub addr: u64,
    pub size: u64,
    pub used: bool,
}

/// The blocks tile `[KERNEL_HEAP_START, end)` in address order, each at
/// least a header and one unit, and no two free blocks touch.
pub open spec fn heap_wf(bs: Seq<HeapBlock>, end: int) -> bool {
    &&& KERNEL_HEAP_START <= end <= KERNEL_HEAP_START + KERNEL_HEAP_MAX
    &&& bs.len() == 0 ==> end == KERNEL_HEAP_START
    &&& bs.len() > 0 ==> bs[0].addr == KERNEL_HEAP_START && bs.last().addr + bs.last().size == end
    &&& forall|k: int|
        #![trigger bs[k]]
        0 <= k < bs.len() ==> {
            &&& bs[k].size >= HEAP_MIN_BLOCK
            &&& bs[k].size % HEAP_ALIGN == 0
            &&& KERNEL_HEAP_START <= bs[k].addr
            &&& bs[k].addr + bs[k].size <= end
        }
    &&& forall|j: int, k: int|
        #![trigger bs[j], bs[k]]
        0 <= j && k == j + 1 && k < bs.len() ==> bs[k].addr == bs[j].addr + bs[j].size && (bs[j].used || bs[k].used)
}

/// Block size for a request of `size` bytes: header included, rounded up
/// to 16.
pub open spec fn need_for(size: int) -> int {
    (size + HEAP_HEADER + HEAP_ALIGN - 1) / (HEAP_ALIGN as int) * HEAP_ALIGN
}

/// First free block from `k` on that holds `need` bytes.
pub open spec fn first_fit(bs: Seq<HeapBlock>, need: int, k: int) -> Option<int>
    decreases bs.len() - k,
{
    if k < 0 || k >= bs.len() {
        None
    } else if !bs[k].used && bs[k].size >= need {
        Some(k)
    } else {
        first_fit(bs, need, k + 1)
    }
}

/// Block `k` handed out for `need` bytes; the rest split off as a free
/// block when it can hold a header and a unit.
pub open spec fn carve(bs: Seq<HeapBlock>, k: int, need: int) -> Seq<HeapBlock> {
    let b = bs[k];
    if b.size - need >= HEAP_MIN_BLOCK {
        bs.update(k, HeapBlock { addr: b.addr, size: need as u64, used: true }).insert(
            k + 1,
            HeapBlock { addr: (b.addr + need) as u64, size: (b.size - need) as u64, used: false },
        )
    } else {
        bs.update(k, HeapBlock { used: true, ..b })
    }
}

/// Block `k` given back and merged with a free right neighbour, then with
/// a free left neighbour.
pub open spec fn freed(bs: Seq<HeapBlock>, k: int) -> Seq<HeapBlock> {
    let b = bs[k];
    let s1 = if k + 1 < bs.len() && !bs[k + 1].used {
        bs.update(k, HeapBlock { addr: b.addr, size: (b.size + bs[k + 1].size) as u64, used: false }).remove(k + 1)
    } else {
        bs.update(k, HeapBlock { used: false, ..b })
    };
    if k > 0 && !s1[k - 1].used {
        s1.update(k - 1, HeapBlock { addr: s1[k - 1].addr, size: (s1[k - 1].size + s1[k].size) as u64, used: false }).remove(k)
    } else {
        s1
    }
}

/// The heap grown by `add` bytes at `end`: a new free block, merged into a
/// free last block.
pub open spec fn grown(bs: Seq<HeapBlock>, end: int, add: int) -> Seq<HeapBlock> {
    if bs.len() > 0 && !bs.last().used {
        bs.update(bs.len() - 1, HeapBlock { size: (bs.last().size + add) as u64, ..bs.last() })
    } else {
        bs.push(HeapBlock { addr: end as u64, size: add as u64, used: false })
    }
}

/// Pages needed for a block of `need` bytes.
pub open spec fn pages_for(need: int) -> int {
    (need + HEAP_PAGE - 1) / (HEAP_PAGE as int)
}

/// The heap as values.
pub struct KernelHeapView {
    pub blocks: Seq<HeapBlock>,
    pub end: int,
    pub initialized: bool,
    pub bytes: usize,
    pub count: usize,
}

/// An allocation: the payload address and, when the heap grew for it, the
/// first new page and the number of pages, which the caller maps before
/// using the payload.
#[derive(Clone, Copy, Debug, PartialEq, Eq)]
pub struct HeapGrant {
    pub ptr: u64,
    pub new_pages: Option<(u64, u64)>,
}

/// The heap after handing out block `k` of `bs` for a request of `size`.
pub open spec fn granted(v: KernelHeapView, bs: Seq<HeapBlock>, end: int, k: int, size: usize) -> KernelHeapView {
    KernelHeapView {
        blocks: carve(bs, k, need_for(size as int)),
        end,
        bytes: v.bytes.saturating_add(size),
        count: v.count.saturating_add(1),
        ..v
    }
}

/// What `kmalloc(size)` does to heap `v` and returns.
pub open spec fn kmalloc_spec(v: KernelHeapView, size: usize) -> (KernelHeapView, Option<HeapGrant>) {
    if !v.initialized || size == 0 {
        (v, None)
    } else {
        let need = need_for(size as int);
        match first_fit(v.blocks, need, 0) {
            Some(k) => (granted(v, v.blocks, v.end, k, size), Some(HeapGrant { ptr: (v.blocks[k].addr + HEAP_HEADER) as u64, new_pages: None })),
            None => {
                let add = pages_for(need) * HEAP_PAGE;
                if v.end + add > KERNEL_HEAP_START + KERNEL_HEAP_MAX {
                    (v, None)
                } else {
                    let bs1 = grown(v.blocks, v.end, add);
                    let k = first_fit(bs1, need, 0)->Some_0;
                    (
                        granted(v, bs1, v.end + add, k, size),
                        Some(HeapGrant { ptr: (bs1[k].addr + HEAP_HEADER) as u64, new_pages: Some((v.end as u64, pages_for(need) as u64)) }),
                    )
                }
            },
        }
    }
}

/// First block from `k` on whose header is at `addr`.
pub open spec fn block_at(bs: Seq<HeapBlock>, addr: int, k: int) -> Option<int>
    decreases bs.len() - k,
{
    if k < 0 || k >= bs.len() {
        None
    } else if bs[k].addr == addr {
        Some(k)
    } else {
        block_at(bs, addr, k + 1)
    }
}

/// The handed-out block whose payload is at `p`, if any.
pub open spec fn used_block(v: KernelHeapView, p: u64) -> Option<int> {
    if p == 0 || !v.initialized || p < HEAP_HEADER || p - HEAP_HEADER < KERNEL_HEAP_START || p - HEAP_HEADER >= v.end {
        None
    } else {
        match block_at(v.blocks, p - HEAP_HEADER, 0) {
            Some(k) => if v.blocks[k].used { Some(k) } else { None },
            None => None,
        }
    }
}

/// What `kfree(p)` does to heap `v`.
pub open spec fn kfree_spec(v: KernelHeapView, p: u64) -> KernelHeapView {
    match used_block(v, p) {
        None => v,
        Some(k) => KernelHeapView {
            blocks: freed(v.blocks, k),
            bytes: v.bytes.saturating_sub((v.blocks[k].size - HEAP_HEADER) as usize),
            count: v.count.saturating_sub(1),
            ..v
        },
    }
}

proof fn lemma_first_fit_found(bs: Seq<HeapBlock>, need: int, k: int, j: int)
    requires
        0 <= k <= j < bs.len(),
        !bs[j].used,
        bs[j].size >= need,
    ensures
        first_fit(bs, need, k) matches Some(i) && k <= i <= j && !bs[i].used && bs[i].size >= need,
    decreases j - k,
{
    if !(!bs[k].used && bs[k].size >= need) {
        lemma_first_fit_found(bs, need, k + 1, j);
    }
}

proof fn lemma_first_fit_range(bs: Seq<HeapBlock>, need: int, k: int)
    ensures
        first_fit(bs, need, k) matches Some(i) ==> k <= i < bs.len() && !bs[i].used && bs[i].size >= need,
    decreases bs.len() - k,
{
    if 0 <= k < bs.len() && !(!bs[k].used && bs[k].size >= need) {
        lemma_first_fit_range(bs, need, k + 1);
    }
}

proof fn lemma_block_at_range(bs: Seq<HeapBlock>, addr: int, k: int)
    ensures
        block_at(bs, addr, k) matches Some(i) ==> k <= i < bs.len() && bs[i].addr == addr,
    decreases bs.len() - k,
{
    if 0 <= k < bs.len() && bs[k].addr != addr {
        lemma_block_at_range(bs, addr, k + 1);
    }
}

/// Handing out a free block that is large enough keeps the tiling.
pub proof fn lemma_carve_wf(bs: Seq<HeapBlock>, end: int, k: int, need: int)
    requires
        heap_wf(bs, end),
        0 <= k < bs.len(),
        !bs[k].used,
        HEAP_MIN_BLOCK <= need <= bs[k].size,
        need % (HEAP_ALIGN as int) == 0,
    ensures
        heap_wf(carve(bs, k, need), end),
        carve(bs, k, need)[k].addr == bs[k].addr,
        carve(bs, k, need)[k].used,
{
    let b = bs[k];
    let c = carve(bs, k, need);
    if b.size - need >= HEAP_MIN_BLOCK {
        let r = HeapBlock { addr: (b.addr + need) as u64, size: (b.size - need) as u64, used: false };
        assert forall|i: int| 0 <= i < c.len() implies {
            &&& #[trigger] c[i].size >= HEAP_MIN_BLOCK
            &&& c[i].size % HEAP_ALIGN == 0
            &&& KERNEL_HEAP_START <= c[i].addr
            &&& c[i].addr + c[i].size <= end
        } by {
            if i > k + 1 {
                assert(c[i] == bs[i - 1]);
            }
        }
        assert forall|j: int, i: int| #![trigger c[j], c[i]] 0 <= j && i == j + 1 && i < c.len() implies c[i].addr == c[j].addr
            + c[j].size && (c[j].used || c[i].used) by {
            if j < k - 1 {
                assert(c[j] == bs[j] && c[i] == bs[i]);
            } else if j == k - 1 {
                assert(c[j] == bs[j] && bs[i] == b);
            } else if j == k {
            } else if j == k + 1 {
                assert(c[i] == bs[k + 1]);
                assert(bs[k + 1].addr == b.addr + b.size && (b.used || bs[k + 1].used));
            } else {
                assert(c[j] == bs[j - 1] && c[i] == bs[i - 1]);
                assert(bs[i - 1].addr == bs[j - 1].addr + bs[j - 1].size);
            }
        }
        if k + 1 == bs.len() {
            assert(c.last() == r);
        } else {
            assert(c.last() == bs.last());
        }
    } else {
        assert forall|j: int, i: int| #![trigger c[j], c[i]] 0 <= j && i == j + 1 && i < c.len() implies c[i].addr == c[j].addr
            + c[j].size && (c[j].used || c[i].used) by {
            assert(bs[i].addr == bs[j].addr + bs[j].size && (bs[j].used || bs[i].used));
        }
        assert(c.len() == bs.len());
    }
}

/// Giving back a handed-out block (and merging it) keeps the tiling.
pub proof fn lemma_freed_wf(bs: Seq<HeapBlock>, end: int, k: int)
    requires
        heap_wf(bs, end),
        0 <= k < bs.len(),
        bs[k].used,
    ensures
        heap_wf(freed(bs, k), end),
{
    let b = bs[k];
    let n = bs.len();
    let r = k + 1 < n && !bs[k + 1].used;
    let s1 = if r {
        bs.update(k, HeapBlock { addr: b.addr, size: (b.size + bs[k + 1].size) as u64, used: false }).remove(k + 1)
    } else {
        bs.update(k, HeapBlock { used: false, ..b })
    };
    let f = freed(bs, k);
    if k > 0 {
        assert(s1[k - 1] == bs[k - 1]);
        assert(bs[k].addr == bs[k - 1].addr + bs[k - 1].size);
    }
    if r {
        assert(bs[k + 1].addr == b.addr + b.size);
        assert(bs[k + 1].size >= HEAP_MIN_BLOCK);
    }
    let l = k > 0 && !bs[k - 1].used;
    if r && l {
        let m = HeapBlock { addr: bs[k - 1].addr, size: (bs[k - 1].size + b.size + bs[k + 1].size) as u64, used: false };
        assert(f.len() == n - 2);
        assert forall|i: int| 0 <= i < f.len() implies #[trigger] f[i] == (if i < k - 1 { bs[i] } else if i == k - 1 { m } else { bs[i + 2] }) by {}
        assert forall|i: int| 0 <= i < f.len() implies {
            &&& #[trigger] f[i].size >= HEAP_MIN_BLOCK
            &&& f[i].size % HEAP_ALIGN == 0
            &&& KERNEL_HEAP_START <= f[i].addr
            &&& f[i].addr + f[i].size <= end
        } by {
            if i == k - 1 {
                assert(bs[k + 1].addr + bs[k + 1].size <= end);
            } else if i >= k {
                assert(f[i] == bs[i + 2]);
            } else {
                assert(f[i] == bs[i]);
            }
        }
        assert forall|j: int, i: int| #![trigger f[j], f[i]] 0 <= j && i == j + 1 && i < f.len() implies f[i].addr == f[j].addr
            + f[j].size && (f[j].used || f[i].used) by {
            if j < k - 2 {
                assert(f[j] == bs[j] && f[i] == bs[i]);
            } else if j == k - 2 {
                assert(f[j] == bs[j] && f[i] == m);
                assert(bs[k - 1].addr == bs[j].addr + bs[j].size && (bs[j].used || bs[k - 1].used));
            } else if j == k - 1 {
                assert(f[i] == bs[k + 2]);
                assert(bs[k + 2].addr == bs[k + 1].addr + bs[k + 1].size && (bs[k + 1].used || bs[k + 2].used));
            } else {
                assert(f[j] == bs[j + 2] && f[i] == bs[i + 2]);
                assert(bs[i + 2].addr == bs[j + 2].addr + bs[j + 2].size && (bs[j + 2].used || bs[i + 2].used));
            }
        }
        if k + 1 == n - 1 {
            assert(f.last() == m);
        } else {
            assert(f.last() == bs[n - 1]);
        }
        if k - 1 == 0 {
            assert(f[0] == m);
        } else {
            assert(f[0] == bs[0]);
        }
    } else if r {
        let m = HeapBlock { addr: b.addr, size: (b.size + bs[k + 1].size) as u64, used: false };
        assert(f == s1);
        assert(f.len() == n - 1);
        assert forall|i: int| 0 <= i < f.len() implies #[trigger] f[i] == (if i < k { bs[i] } else if i == k { m } else { bs[i + 1] }) by {}
        assert forall|i: int| 0 <= i < f.len() implies {
            &&& #[trigger] f[i].size >= HEAP_MIN_BLOCK
            &&& f[i].size % HEAP_ALIGN == 0
            &&& KERNEL_HEAP_START <= f[i].addr
            &&& f[i].addr + f[i].size <= end
        } by {
            if i == k {
                assert(bs[k + 1].addr + bs[k + 1].size <= end);
            } else if i > k {
                assert(f[i] == bs[i + 1]);
            } else {
                assert(f[i] == bs[i]);
            }
        }
        assert forall|j: int, i: int| #![trigger f[j], f[i]] 0 <= j && i == j + 1 && i < f.len() implies f[i].addr == f[j].addr
            + f[j].size && (f[j].used || f[i].used) by {
            if j < k - 1 {
                assert(f[j] == bs[j] && f[i] == bs[i]);
            } else if j == k - 1 {
                assert(f[j] == bs[j] && f[i] == m);
            } else if j == k {
                assert(f[i] == bs[k + 2]);
                assert(bs[k + 2].addr == bs[k + 1].addr + bs[k + 1].size && (bs[k + 1].used || bs[k + 2].used));
            } else {
                assert(f[j] == bs[j + 1] && f[i] == bs[i + 1]);
                assert(bs[i + 1].addr == bs[j + 1].addr + bs[j + 1].size && (bs[j + 1].used || bs[i + 1].used));
            }
        }
        if k + 1 == n - 1 {
            assert(f.last() == m);
        } else {
            assert(f.last() == bs[n - 1]);
        }
        if k == 0 {
            assert(f[0] == m);
        } else {
            assert(f[0] == bs[0]);
        }
    } else if l {
        let m = HeapBlock { addr: bs[k - 1].addr, size: (bs[k - 1].size + b.size) as u64, used: false };
        assert(f.len() == n - 1);
        assert forall|i: int| 0 <= i < f.len() implies #[trigger] f[i] == (if i < k - 1 { bs[i] } else if i == k - 1 { m } else { bs[i + 1] }) by {}
        assert forall|i: int| 0 <= i < f.len() implies {
            &&& #[trigger] f[i].size >= HEAP_MIN_BLOCK
            &&& f[i].size % HEAP_ALIGN == 0
            &&& KERNEL_HEAP_START <= f[i].addr
            &&& f[i].addr + f[i].size <= end
        } by {
            if i == k - 1 {
                assert(bs[k].addr + bs[k].size <= end);
            } else if i >= k {
                assert(f[i] == bs[i + 1]);
            } else {
                assert(f[i] == bs[i]);
            }
        }
        assert forall|j: int, i: int| #![trigger f[j], f[i]] 0 <= j && i == j + 1 && i < f.len() implies f[i].addr == f[j].addr
            + f[j].size && (f[j].used || f[i].used) by {
            if j < k - 2 {
                assert(f[j] == bs[j] && f[i] == bs[i]);
            } else if j == k - 2 {
                assert(f[j] == bs[j] && f[i] == m);
                assert(bs[k - 1].addr == bs[j].addr + bs[j].size && (bs[j].used || bs[k - 1].used));
            } else if j == k - 1 {
                assert(f[i] == bs[k + 1]);
                assert(bs[k + 1].addr == bs[k].addr + bs[k].size);
            } else {
                assert(f[j] == bs[j + 1] && f[i] == bs[i + 1]);
                assert(bs[i + 1].addr == bs[j + 1].addr + bs[j + 1].size && (bs[j + 1].used || bs[i + 1].used));
            }
        }
        if k == n - 1 {
            assert(f.last() == m);
        } else {
            assert(f.last() == bs[n - 1]);
        }
        if k - 1 == 0 {
            assert(f[0] == m);
        } else {
            assert(f[0] == bs[0]);
        }
    } else {
        assert(f == s1);
        assert(f.len() == n);
        assert forall|i: int| 0 <= i < n implies #[trigger] f[i] == (if i == k { HeapBlock { used: false, ..b } } else { bs[i] }) by {}
        assert forall|j: int, i: int| #![trigger f[j], f[i]] 0 <= j && i == j + 1 && i < f.len() implies f[i].addr == f[j].addr
            + f[j].size && (f[j].used || f[i].used) by {
            assert(f[j].addr == bs[j].addr && f[j].size == bs[j].size && f[i].addr == bs[i].addr);
            assert(bs[i].addr == bs[j].addr + bs[j].size && (bs[j].used || bs[i].used));
        }
        if k == n - 1 {
            assert(f.last().addr == bs.last().addr && f.last().size == bs.last().size);
        } else {
            assert(f.last() == bs[n - 1]);
        }
        assert(f[0].addr == bs[0].addr);
    }
}

/// Growing the heap by whole pages within its limit keeps the tiling, and
/// its last block is then free and at least as large as the growth.
pub proof fn lemma_grown_wf(bs: Seq<HeapBlock>, end: int, add: int)
    requires
        heap_wf(bs, end),
        add >= HEAP_MIN_BLOCK,
        add % (HEAP_ALIGN as int) == 0,
        end + add <= KERNEL_HEAP_START + KERNEL_HEAP_MAX,
    ensures
        heap_wf(grown(bs, end, add), end + add),
        grown(bs, end, add).len() > 0,
        !grown(bs, end, add).last().used,
        grown(bs, end, add).last().size >= add,
{
    let g = grown(bs, end, add);
    let n = bs.len();
    if n > 0 && !bs.last().used {
        assert forall|j: int, i: int| #![trigger g[j], g[i]] 0 <= j && i == j + 1 && i < g.len() implies g[i].addr == g[j].addr
            + g[j].size && (g[j].used || g[i].used) by {
            assert(g[i].addr == bs[i].addr && g[j].addr == bs[j].addr && g[i].used == bs[i].used && g[j].used == bs[j].used);
            if i < n - 1 {
                assert(g[j] == bs[j]);
            } else {
                assert(g[j] == bs[j]);
            }
            assert(bs[i].addr == bs[j].addr + bs[j].size && (bs[j].used || bs[i].used));
        }
        assert forall|i: int| 0 <= i < g.len() implies {
            &&& #[trigger] g[i].size >= HEAP_MIN_BLOCK
            &&& g[i].size % HEAP_ALIGN == 0
            &&& KERNEL_HEAP_START <= g[i].addr
            &&& g[i].addr + g[i].size <= end + add
        } by {
            if i < n - 1 {
                assert(g[i] == bs[i]);
            }
        }
    } else {
        assert forall|j: int, i: int| #![trigger g[j], g[i]] 0 <= j && i == j + 1 && i < g.len() implies g[i].addr == g[j].addr
            + g[j].size && (g[j].used || g[i].used) by {
            if i < n {
                assert(g[i] == bs[i] && g[j] == bs[j]);
                assert(bs[i].addr == bs[j].addr + bs[j].size && (bs[j].used || bs[i].used));
            } else {
                assert(g[j] == bs.last());
            }
        }
        assert forall|i: int| 0 <= i < g.len() implies {
            &&& #[trigger] g[i].size >= HEAP_MIN_BLOCK
            &&& g[i].size % HEAP_ALIGN == 0
            &&& KERNEL_HEAP_START <= g[i].addr
            &&& g[i].addr + g[i].size <= end + add
        } by {
            if i < n {
                assert(g[i] == bs[i]);
            }
        }
    }
}

/// Giving back the block just handed out from a free block restores the
/// heap's blocks.
pub proof fn lemma_free_undoes_carve(bs: Seq<HeapBlock>, end: int, k: int, need: int)
    requires
        heap_wf(bs, end),
        0 <= k < bs.len(),
        !bs[k].used,
        HEAP_MIN_BLOCK <= need <= bs[k].size,
        need % (HEAP_ALIGN as int) == 0,
    ensures
        freed(carve(bs, k, need), k) == bs,
{
    let b = bs[k];
    let c = carve(bs, k, need);
    let f = freed(c, k);
    if k > 0 {
        assert(bs[k].addr == bs[k - 1].addr + bs[k - 1].size && (bs[k - 1].used || bs[k].used));
    }
    if k + 1 < bs.len() {
        assert(bs[k + 1].addr == bs[k].addr + bs[k].size && (bs[k].used || bs[k + 1].used));
    }
    if b.size - need >= HEAP_MIN_BLOCK {
        assert(c[k + 1] == HeapBlock { addr: (b.addr + need) as u64, size: (b.size - need) as u64, used: false });
        assert(f =~= bs);
    } else {
        assert(f =~= bs);
    }
}

proof fn lemma_addr_increasing(bs: Seq<HeapBlock>, end: int, i: int, j: int)
    requires
        heap_wf(bs, end),
        0 <= i < j < bs.len(),
    ensures
        bs[i].addr < bs[j].addr,
    decreases j - i,
{
    assert(bs[j].addr == bs[j - 1].addr + bs[j - 1].size);
    assert(bs[j - 1].size >= HEAP_MIN_BLOCK);
    if i < j - 1 {
        lemma_addr_increasing(bs, end, i, j - 1);
    }
}

proof fn lemma_block_at_index(bs: Seq<HeapBlock>, end: int, k: int, m: int)
    requires
        heap_wf(bs, end),
        0 <= m <= k < bs.len(),
    ensures
        block_at(bs, bs[k].addr as int, m) == Some(k),
    decreases k - m,
{
    if m < k {
        lemma_addr_increasing(bs, end, m, k);
        lemma_block_at_index(bs, end, k, m + 1);
    }
}

/// Blocks of a well-formed heap do not overlap: each ends where or before
/// any later one starts.
pub proof fn lemma_blocks_disjoint(bs: Seq<HeapBlock>, end: int, i: int, j: int)
    requires
        heap_wf(bs, end),
        0 <= i < j < bs.len(),
    ensures
        bs[i].addr + bs[i].size <= bs[j].addr,
    decreases j - i,
{
    assert(bs[j].addr == bs[j - 1].addr + bs[j - 1].size);
    if i < j - 1 {
        lemma_blocks_disjoint(bs, end, i, j - 1);
        lemma_addr_increasing(bs, end, j - 1, j);
    }
}

/// `kfree` of the payload `kmalloc` just handed out gives the heap back
/// the blocks it had before the allocation (grown first, when it grew).
pub proof fn lemma_kfree_undoes_kmalloc(v: KernelHeapView, size: usize)
    requires
        heap_wf(v.blocks, v.end),
    ensures
        kmalloc_spec(v, size).1 matches Some(g) ==> kfree_spec(kmalloc_spec(v, size).0, g.ptr).blocks == (match g.new_pages {
            None => v.blocks,
            Some(_) => grown(v.blocks, v.end, pages_for(need_for(size as int)) * HEAP_PAGE),
        }),
{
    if v.initialized && size != 0 {
        let need = need_for(size as int);
        assert(need % (HEAP_ALIGN as int) == 0 && need >= HEAP_MIN_BLOCK);
        let (bs, end) = match first_fit(v.blocks, need, 0) {
            Some(_) => (v.blocks, v.end),
            None => {
                let add = pages_for(need) * HEAP_PAGE;
                assert(add >= need && add % (HEAP_ALIGN as int) == 0) by (nonlinear_arith)
                    requires
                        add == (need + HEAP_PAGE - 1) / (HEAP_PAGE as int) * HEAP_PAGE,
                        need >= 0,
                ;
                if v.end + add <= KERNEL_HEAP_START + KERNEL_HEAP_MAX {
                    lemma_grown_wf(v.blocks, v.end, add);
                    let g = grown(v.blocks, v.end, add);
                    lemma_first_fit_found(g, need, 0, g.len() - 1);
                }
                (grown(v.blocks, v.end, add), v.end + add)
            },
        };
        if kmalloc_spec(v, size).1 is Some {
            let k = first_fit(bs, need, 0)->Some_0;
            lemma_first_fit_range(bs, need, 0);
            let w = kmalloc_spec(v, size).0;
            assert(w.blocks == carve(bs, k, need));
            assert(w.end == end);
            lemma_carve_wf(bs, end, k, need);
            let c = carve(bs, k, need);
            assert(c[k].addr == bs[k].addr && c[k].size >= HEAP_MIN_BLOCK);
            lemma_block_at_index(c, end, k, 0);
            assert(used_block(w, (bs[k].addr + HEAP_HEADER) as u64) == Some(k));
            lemma_free_undoes_carve(bs, end, k, need);
        }
    }
}

/// The kernel heap.
pub struct KernelHeap {
    blocks: Vec<HeapBlock>,
    end: u64,
    initialized: bool,
    bytes_allocated: usize,
    alloc_count: usize,
}

/// The heap after `init`: a fresh empty heap, unless it was set up already.
pub open spec fn init_spec(v: KernelHeapView) -> KernelHeapView {
    if v.initialized {
        v
    } else {
        KernelHeapView { blocks: Seq::empty(), end: KERNEL_HEAP_START as int, initialized: true, bytes: 0, count: 0 }
    }
}

impl View for KernelHeap {
    type V = KernelHeapView;

    closed spec fn view(&self) -> KernelHeapView {
        KernelHeapView {
            blocks: self.blocks@,
            end: self.end as int,
            initialized: self.initialized,
            bytes: self.bytes_allocated,
            count: self.alloc_count,
        }
    }
}

impl KernelHeap {
    pub closed spec fn wf(&self) -> bool {
        heap_wf(self.blocks@, self.end as int)
    }

    /// The blocks of a heap tile its window (see `heap_wf`).
    pub proof fn lemma_tiling(&self)
        requires
            self.wf(),
        ensures
            heap_wf(self@.blocks, self@.end),
    {
    }

    /// A heap that is not set up yet: every allocation fails.
    pub fn new() -> (h: KernelHeap)
        ensures
            h.wf(),
            h@ == (KernelHeapView { blocks: Seq::empty(), end: KERNEL_HEAP_START as int, initialized: false, bytes: 0, count: 0 }),
    {
        KernelHeap { blocks: Vec::new(), end: KERNEL_HEAP_START, initialized: false, bytes_allocated: 0, alloc_count: 0 }
    }

    /// Set the heap up (once).
    pub fn init(&mut self)
        requires
            old(self).wf(),
        ensures
            final(self).wf(),
            final(self)@ == init_spec(old(self)@),
    {
        if self.initialized {
            return;
        }
        self.blocks = Vec::new();
        self.end = KERNEL_HEAP_START;
        self.bytes_allocated = 0;
        self.alloc_count = 0;
        self.initialized = true;
    }

    pub fn is_initialized(&self) -> (r: bool)
        ensures
            r == self@.initialized,
    {
        self.initialized
    }

    /// End of the heap's pages.
    pub fn heap_end(&self) -> (r: u64)
        ensures
            r == self@.end,
    {
        self.end
    }

    /// Bytes requested by the allocations not yet freed (as counted, saturating).
    pub fn heap_used_bytes(&self) -> (r: usize)
        ensures
            r == self@.bytes,
    {
        self.bytes_allocated
    }

    /// Allocations not yet freed (as counted, saturating).
    pub fn heap_alloc_count(&self) -> (r: usize)
        ensures
            r == self@.count,
    {
        self.alloc_count
    }

    fn find_fit(&self, need: u64) -> (r: Option<usize>)
        ensures
            match first_fit(self.blocks@, need as int, 0) {
                Some(k) => r == Some(k as usize),
                None => r is None,
            },
    {
        let mut i: usize = 0;
        while i < self.blocks.len()
            invariant
                i <= self.blocks@.len(),
                first_fit(self.blocks@, need as int, 0) == first_fit(self.blocks@, need as int, i as int),
            decreases self.blocks@.len() - i,
        {
            let b = self.blocks[i];
            if !b.used && b.size >= need {
                return Some(i);
            }
            i = i + 1;
        }
        None
    }

    fn find_at(&self, addr: u64) -> (r: Option<usize>)
        ensures
            match block_at(self.blocks@, addr as int, 0) {
                Some(k) => r == Some(k as usize),
                None => r is None,
            },
    {
        let mut i: usize = 0;
        while i < self.blocks.len()
            invariant
                i <= self.blocks@.len(),
                block_at(self.blocks@, addr as int, 0) == block_at(self.blocks@, addr as int, i as int),
            decreases self.blocks@.len() - i,
        {
            if self.blocks[i].addr == addr {
                return Some(i);
            }
            i = i + 1;
        }
        None
    }

    fn carve_at(&mut self, k: usize, need: u64)
        requires
            old(self).wf(),
            k < old(self).blocks@.len(),
            !old(self).blocks@[k as int].used,
            HEAP_MIN_BLOCK <= need <= old(self).blocks@[k as int].size,
            need % HEAP_ALIGN == 0,
        ensures
            final(self).wf(),
            final(self).blocks@ == carve(old(self).blocks@, k as int, need as int),
            final(self).end == old(self).end,
            final(self).initialized == old(self).initialized,
            final(self).bytes_allocated == old(self).bytes_allocated,
            final(self).alloc_count == old(self).alloc_count,
    {
        proof {
            lemma_carve_wf(self.blocks@, self.end as int, k as int, need as int);
        }
        let n = self.blocks.len();
        let b = self.blocks[k];
        assert(self.blocks@[k as int].addr + self.blocks@[k as int].size <= self.end);
        if b.size - need >= HEAP_MIN_BLOCK {
            self.blocks.set(k, HeapBlock { addr: b.addr, size: need, used: true });
            self.blocks.insert(k + 1, HeapBlock { addr: b.addr + need, size: b.size - need, used: false });
        } else {
            self.blocks.set(k, HeapBlock { addr: b.addr, size: b.size, used: true });
        }
        assert(self.blocks@ =~= carve(old(self).blocks@, k as int, need as int));
    }

    fn free_at(&mut self, k: usize)
        requires
            old(self).wf(),
            k < old(self).blocks@.len(),
            old(self).blocks@[k as int].used,
        ensures
            final(self).wf(),
            final(self).blocks@ == freed(old(self).blocks@, k as int),
            final(self).end == old(self).end,
            final(self).initialized == old(self).initialized,
            final(self).bytes_allocated == old(self).bytes_allocated,
            final(self).alloc_count == old(self).alloc_count,
    {
        proof {
            lemma_freed_wf(self.blocks@, self.end as int, k as int);
        }
        let ghost bs = self.blocks@;
        let b = self.blocks[k];
        if k < self.blocks.len() - 1 && !self.blocks[k + 1].used {
            let nx = self.blocks[k + 1];
            assert(nx.addr == b.addr + b.size);
            assert(nx.addr + nx.size <= self.end);
            self.blocks.set(k, HeapBlock { addr: b.addr, size: b.size + nx.size, used: false });
            self.blocks.remove(k + 1);
        } else {
            self.blocks.set(k, HeapBlock { addr: b.addr, size: b.size, used: false });
        }
        let ghost s1 = self.blocks@;
        if k > 0 && !self.blocks[k - 1].used {
            let pv = self.blocks[k - 1];
            let cur = self.blocks[k];
            assert(pv == bs[k - 1]);
            assert(bs[k as int].addr == bs[k - 1].addr + bs[k - 1].size);
            assert(cur.addr + cur.size <= self.end) by {
                if k + 1 < bs.len() && !bs[k + 1].used {
                    assert(bs[k + 1].addr == bs[k as int].addr + bs[k as int].size);
                }
            }
            self.blocks.set(k - 1, HeapBlock { addr: pv.addr, size: pv.size + cur.size, used: false });
            self.blocks.remove(k);
        }
        assert(self.blocks@ =~= freed(bs, k as int));
    }

    fn grow(&mut self, add: u64)
        requires
            old(self).wf(),
            add >= HEAP_MIN_BLOCK,
            add % HEAP_ALIGN == 0,
            old(self).end + add <= KERNEL_HEAP_START + KERNEL_HEAP_MAX,
        ensures
            final(self).wf(),
            final(self).blocks@ == grown(old(self).blocks@, old(self).end as int, add as int),
            final(self).blocks@.len() > 0,
            !final(self).blocks@.last().used,
            final(self).blocks@.last().size >= add,
            final(self).end == old(self).end + add,
            final(self).initialized == old(self).initialized,
            final(self).bytes_allocated == old(self).bytes_allocated,
            final(self).alloc_count == old(self).alloc_count,
    {
        proof {
            lemma_grown_wf(self.blocks@, self.end as int, add as int);
        }
        let n = self.blocks.len();
        if n > 0 && !self.blocks[n - 1].used {
            let last = self.blocks[n - 1];
            self.blocks.set(n - 1, HeapBlock { addr: last.addr, size: last.size + add, used: false });
        } else {
            self.blocks.push(HeapBlock { addr: self.end, size: add, used: false });
        }
        self.end = self.end + add;
        assert(self.blocks@ =~= grown(old(self).blocks@, old(self).end as int, add as int));
    }

    /// Allocate `size` bytes: the payload address, and the pages the heap
    /// grew by for it, if it had to. `None` when the heap is not set up,
    /// `size` is 0, or the heap would pass its limit. Block sizes are kept
    /// in a 32-bit header field, so `size` is at most `0xFFFF_FFE0`.
    pub fn kmalloc(&mut self, size: usize) -> (r: Option<HeapGrant>)
        requires
            old(self).wf(),
            size <= 0xFFFF_FFE0,
        ensures
            final(self).wf(),
            (final(self)@, r) == kmalloc_spec(old(self)@, size),
    {
        if !self.initialized || size == 0 {
            return None;
        }
        let need: u64 = (size as u64 + 31) / 16 * 16;
        assert(need == need_for(size as int));
        assert(need % 16 == 0 && need >= 32);
        // the block count fits a usize, for the index casts below
        let _len = self.blocks.len();
        let (k, new_pages) = match self.find_fit(need) {
            Some(k) => {
                proof {
                    lemma_first_fit_range(self.blocks@, need as int, 0);
                }
                (k, None)
            },
            None => {
                let pages = (need + 4095) / 4096;
                assert(pages * 4096 >= need && pages * 4096 <= need + 4095) by (nonlinear_arith)
                    requires
                        pages == (need + 4095) / 4096,
                ;
                assert((pages * 4096) % 16 == 0) by (nonlinear_arith);
                let add = pages * 4096;
                if self.end + add > KERNEL_HEAP_START + KERNEL_HEAP_MAX {
                    return None;
                }
                let at = self.end;
                self.grow(add);
                let _len = self.blocks.len();
                proof {
                    let bs1 = self.blocks@;
                    lemma_first_fit_found(bs1, need as int, 0, bs1.len() - 1);
                }
                match self.find_fit(need) {
                    Some(k) => {
                        proof {
                            lemma_first_fit_range(self.blocks@, need as int, 0);
                        }
                        (k, Some((at, pages)))
                    },
                    // the grown last block is free and large enough
                    None => return None,
                }
            },
        };
        let addr = self.blocks[k].addr;
        self.carve_at(k, need);
        self.bytes_allocated = self.bytes_allocated.saturating_add(size);
        self.alloc_count = self.alloc_count.saturating_add(1);
        Some(HeapGrant { ptr: addr + HEAP_HEADER, new_pages })
    }

    /// The handed-out block whose payload is at `p`.
    fn used_index(&self, p: u64) -> (r: Option<usize>)
        requires
            self.wf(),
        ensures
            match used_block(self@, p) {
                Some(k) => r == Some(k as usize) && k < self.blocks@.len(),
                None => r is None,
            },
            r matches Some(i) ==> i < self.blocks@.len() && self.blocks@[i as int].used && used_block(self@, p) == Some(i as int),
    {
        if p == 0 || !self.initialized || p < HEAP_HEADER {
            return None;
        }
        let addr = p - HEAP_HEADER;
        if addr < KERNEL_HEAP_START || addr >= self.end {
            return None;
        }
        // the block count fits a usize, for the index casts below
        let _len = self.blocks.len();
        proof {
            lemma_block_at_range(self.blocks@, addr as int, 0);
        }
        match self.find_at(addr) {
            Some(k) => if self.blocks[k].used {
                Some(k)
            } else {
                None
            },
            None => None,
        }
    }

    /// Free the allocation whose payload is at `p`; anything else (null, an
    /// address outside the heap, a block that is not handed out) is ignored.
    pub fn kfree(&mut self, p: u64)
        requires
            old(self).wf(),
        ensures
            final(self).wf(),
            final(self)@ == kfree_spec(old(self)@, p),
    {
        // the block count fits a usize, for the index casts below
        let _len = self.blocks.len();
        let k = match self.used_index(p) {
            None => return,
            Some(k) => k,
        };
        let usable = (self.blocks[k].size - HEAP_HEADER) as usize;
        self.free_at(k);
        self.bytes_allocated = self.bytes_allocated.saturating_sub(usable);
        self.alloc_count = self.alloc_count.saturating_sub(1);
    }

    /// Usable bytes of the allocation whose payload is at `p`.
    pub fn ksize(&self, p: u64) -> (r: Option<usize>)
        requires
            self.wf(),
        ensures
            r == (match used_block(self@, p) {
                Some(k) => Some((self@.blocks[k].size - HEAP_HEADER) as usize),
                None => None,
            }),
    {
        // the block count fits a usize, for the index casts below
        let _len = self.blocks.len();
        match self.used_index(p) {
            None => None,
            Some(k) => Some((self.blocks[k].size - HEAP_HEADER) as usize),
        }
    }
}

} // verus!
