//! x86_64 4-level paging over a model of physical memory.
//!
//! Physical RAM is a flat array of 64-bit words, 512 per 4 KiB frame; page
//! tables live in frames handed out by the frame allocator, exactly as the
//! hardware sees them.  Every table reachable from a root carries a ghost tag
//! (its root, its level and the indices that lead to it), which is what makes
//! the tree a tree: a table is reached along one path only.

use vstd::prelude::*;
use crate::pmm::{FrameAllocator, PhysAddr, MAX_FRAMES, count_used, alloc_frame_post};

verus! {

pub const PAGE_PRESENT: u64 = 1;
pub const PAGE_WRITABLE: u64 = 2;
pub const PAGE_USER: u64 = 4;
pub const PAGE_PWT: u64 = 8;
pub const PAGE_PCD: u64 = 16;
pub const PAGE_SIZE_2M: u64 = 128;
pub const PAGE_KERNEL_RW: u64 = 3;
pub const PAGE_KERNEL_MMIO: u64 = 27;

pub const ENTRY_ADDR_MASK: u64 = 0x000F_FFFF_FFFF_F000;
pub const ENTRIES: usize = 512;
/// How much to identity-map with 2 MiB pages at boot.
pub const IDENTITY_MAP_BYTES: u64 = 0x4000_0000;

// ---------------------------------------------------------------------------
// Entries
// ---------------------------------------------------------------------------

pub open spec fn entry_addr(e: u64) -> u64 {
    e & 0x000F_FFFF_FFFF_F000
}

pub open spec fn entry_flags(e: u64) -> u64 {
    e & 0xFFF
}

pub open spec fn present(e: u64) -> bool {
    e & 1 != 0
}

pub open spec fn huge(e: u64) -> bool {
    e & 0x80 != 0
}

pub open spec fn make_entry(phys: u64, flags: u64) -> u64 {
    (phys & 0x000F_FFFF_FFFF_F000) | (flags & 0xFFF)
}

/// Base of the 2 MiB page an entry maps.
pub open spec fn huge_base(e: u64) -> u64 {
    entry_addr(e) & !0x1F_FFFFu64
}

fn entry_new(phys: u64, flags: u64) -> (r: u64)
    ensures
        r == make_entry(phys, flags),
{
    (phys & ENTRY_ADDR_MASK) | (flags & 0xFFF)
}

fn entry_is_present(e: u64) -> (r: bool)
    ensures
        r == present(e),
{
    e & PAGE_PRESENT != 0
}

fn entry_is_huge(e: u64) -> (r: bool)
    ensures
        r == huge(e),
{
    e & PAGE_SIZE_2M != 0
}

fn entry_get_addr(e: u64) -> (r: u64)
    ensures
        r == entry_addr(e),
{
    e & ENTRY_ADDR_MASK
}

fn entry_get_flags(e: u64) -> (r: u64)
    ensures
        r == entry_flags(e),
{
    e & 0xFFF
}

pub proof fn lemma_make_entry(phys: u64, flags: u64)
    ensures
        entry_addr(make_entry(phys, flags)) == phys & 0x000F_FFFF_FFFF_F000,
        present(make_entry(phys, flags)) == (flags & 1 != 0),
        huge(make_entry(phys, flags)) == (flags & 0x80 != 0),
        entry_flags(make_entry(phys, flags)) == flags & 0xFFF,
{
    assert({
        &&& ((phys & 0x000F_FFFF_FFFF_F000) | (flags & 0xFFF)) & 0x000F_FFFF_FFFF_F000 == phys
            & 0x000F_FFFF_FFFF_F000
        &&& (((phys & 0x000F_FFFF_FFFF_F000) | (flags & 0xFFF)) & 1 != 0) == (flags & 1 != 0)
        &&& (((phys & 0x000F_FFFF_FFFF_F000) | (flags & 0xFFF)) & 0x80 != 0) == (flags & 0x80 != 0)
        &&& ((phys & 0x000F_FFFF_FFFF_F000) | (flags & 0xFFF)) & 0xFFF == flags & 0xFFF
    }) by (bit_vector);
}

/// Re-making a present entry with more flags keeps its address and its size bit
/// and leaves it present.
pub proof fn lemma_upgrade(e: u64, need: u64)
    requires
        need & 1 == 1,
        need & 0x80 == 0,
    ensures
        entry_addr(make_entry(entry_addr(e), entry_flags(e) | need)) == entry_addr(e),
        present(make_entry(entry_addr(e), entry_flags(e) | need)),
        huge(make_entry(entry_addr(e), entry_flags(e) | need)) == huge(e),
{
    assert({
        &&& (((e & 0x000F_FFFF_FFFF_F000) & 0x000F_FFFF_FFFF_F000) | (((e & 0xFFF) | need) & 0xFFF))
            & 0x000F_FFFF_FFFF_F000 == e & 0x000F_FFFF_FFFF_F000
        &&& need & 1 == 1 ==> (((e & 0x000F_FFFF_FFFF_F000) & 0x000F_FFFF_FFFF_F000) | (((e & 0xFFF)
            | need) & 0xFFF)) & 1 != 0
        &&& need & 0x80 == 0 ==> ((((e & 0x000F_FFFF_FFFF_F000) & 0x000F_FFFF_FFFF_F000) | (((e
            & 0xFFF) | need) & 0xFFF)) & 0x80 != 0) == (e & 0x80 != 0)
    }) by (bit_vector);
}

// ---------------------------------------------------------------------------
// Virtual address split
// ---------------------------------------------------------------------------

pub open spec fn idx4(v: u64) -> int {
    ((v >> 39u64) & 0x1FF) as int
}

pub open spec fn idx3(v: u64) -> int {
    ((v >> 30u64) & 0x1FF) as int
}

pub open spec fn idx2(v: u64) -> int {
    ((v >> 21u64) & 0x1FF) as int
}

pub open spec fn idx1(v: u64) -> int {
    ((v >> 12u64) & 0x1FF) as int
}

pub proof fn lemma_idx_bounds(v: u64)
    ensures
        0 <= idx4(v) < 512,
        0 <= idx3(v) < 512,
        0 <= idx2(v) < 512,
        0 <= idx1(v) < 512,
{
    assert((v >> 39u64) & 0x1FF < 512 && (v >> 30u64) & 0x1FF < 512 && (v >> 21u64) & 0x1FF < 512
        && (v >> 12u64) & 0x1FF < 512) by (bit_vector);
}

fn pml4_index(virt: u64) -> (r: usize)
    ensures
        r == idx4(virt),
        r < 512,
{
    proof {
        lemma_idx_bounds(virt);
    }
    ((virt >> 39) & 0x1FF) as usize
}

fn pdpt_index(virt: u64) -> (r: usize)
    ensures
        r == idx3(virt),
        r < 512,
{
    proof {
        lemma_idx_bounds(virt);
    }
    ((virt >> 30) & 0x1FF) as usize
}

fn pd_index(virt: u64) -> (r: usize)
    ensures
        r == idx2(virt),
        r < 512,
{
    proof {
        lemma_idx_bounds(virt);
    }
    ((virt >> 21) & 0x1FF) as usize
}

fn pt_index(virt: u64) -> (r: usize)
    ensures
        r == idx1(virt),
        r < 512,
{
    proof {
        lemma_idx_bounds(virt);
    }
    ((virt >> 12) & 0x1FF) as usize
}

// ---------------------------------------------------------------------------
// Physical memory and translation
// ---------------------------------------------------------------------------

/// Word index of entry `i` of the table at physical address `t`.
pub open spec fn wix(t: u64, i: int) -> int {
    (t / 4096) as int * 512 + i
}

/// Entry `i` of the table at `t`, as physical memory holds it (0 outside RAM).
pub open spec fn pte(m: Seq<u64>, t: u64, i: int) -> u64 {
    if 0 <= wix(t, i) < m.len() {
        m[wix(t, i)]
    } else {
        0
    }
}

/// The physical address the tables under `root` give to `v`, if any.
pub open spec fn translate(m: Seq<u64>, root: u64, v: u64) -> Option<u64> {
    if root == 0 {
        None
    } else {
        let e4 = pte(m, root, idx4(v));
        if !present(e4) {
            None
        } else {
            let e3 = pte(m, entry_addr(e4), idx3(v));
            if !present(e3) {
                None
            } else {
                let e2 = pte(m, entry_addr(e3), idx2(v));
                if !present(e2) {
                    None
                } else if huge(e2) {
                    Some(huge_base(e2) | (v & 0x1F_FFFF))
                } else {
                    let e1 = pte(m, entry_addr(e2), idx1(v));
                    if !present(e1) {
                        None
                    } else {
                        Some(entry_addr(e1) | (v & 0xFFF))
                    }
                }
            }
        }
    }
}

// ---------------------------------------------------------------------------
// Table tags: which path leads to each table
// ---------------------------------------------------------------------------

/// The path to a table: its root, its level (4 = PML4 … 1 = page table) and
/// the indices taken above it.
#[derive(Clone, Copy, Debug, PartialEq, Eq, Structural)]
pub struct TableTag {
    pub root: u64,
    pub level: u8,
    pub i4: u16,
    pub i3: u16,
    pub i2: u16,
}

/// Tag of the table that entry `i` of a table tagged `g` leads to.
pub open spec fn child_tag(g: TableTag, i: int) -> TableTag {
    if g.level == 4 {
        TableTag { root: g.root, level: 3, i4: i as u16, i3: 0, i2: 0 }
    } else if g.level == 3 {
        TableTag { root: g.root, level: 2, i4: g.i4, i3: i as u16, i2: 0 }
    } else {
        TableTag { root: g.root, level: 1, i4: g.i4, i3: g.i3, i2: i as u16 }
    }
}

/// Entry `e` of a table tagged `g` leads to a lower-level table.
pub open spec fn points_down(g: TableTag, e: u64) -> bool {
    g.level > 1 && present(e) && !(g.level == 2 && huge(e))
}

/// The walk of `v` from root `r` reads entry `i` of the table tagged `g`
/// (if it gets that far).
pub open spec fn reads(g: TableTag, i: int, r: u64, v: u64) -> bool {
    &&& g.root == r
    &&& g.level == 4 ==> i == idx4(v)
    &&& g.level <= 3 ==> g.i4 == idx4(v)
    &&& g.level == 3 ==> i == idx3(v)
    &&& g.level <= 2 ==> g.i3 == idx3(v)
    &&& g.level == 2 ==> i == idx2(v)
    &&& g.level == 1 ==> g.i2 == idx2(v) && i == idx1(v)
}

/// `u` and `v` fall in the same 4 KiB page as far as the tables can tell.
pub open spec fn same_page(u: u64, v: u64) -> bool {
    &&& idx4(u) == idx4(v)
    &&& idx3(u) == idx3(v)
    &&& idx2(u) == idx2(v)
    &&& idx1(u) == idx1(v)
}

pub open spec fn tag_ok(m: Seq<u64>, t: u64, g: TableTag) -> bool {
    &&& t % 4096 == 0
    &&& (t / 4096) as int * 512 + 512 <= m.len()
    &&& 1 <= g.level <= 4
    &&& g.i4 < 512
    &&& g.i3 < 512
    &&& g.i2 < 512
    &&& g.level == 4 ==> g.root == t && g.i4 == 0
    &&& g.level >= 3 ==> g.i3 == 0
    &&& g.level >= 2 ==> g.i2 == 0
}

/// Every tagged table lies in RAM, and every entry that leads down leads to a
/// table tagged with the path through it.
pub open spec fn tables_wf(m: Seq<u64>, tags: Map<u64, TableTag>) -> bool {
    &&& forall|t: u64| #[trigger] tags.contains_key(t) ==> tag_ok(m, t, tags[t])
    &&& forall|t: u64, i: int|
        #![trigger tags.contains_key(t), pte(m, t, i)]
        tags.contains_key(t) && 0 <= i < 512 && points_down(tags[t], pte(m, t, i)) ==> {
            &&& tags.contains_key(entry_addr(pte(m, t, i)))
            &&& tags[entry_addr(pte(m, t, i))] == child_tag(tags[t], i)
        }
}

pub open spec fn is_root_of(tags: Map<u64, TableTag>, r: u64) -> bool {
    tags.contains_key(r) && tags[r].level == 4
}

/// Two distinct entries of aligned tables are distinct words.
pub proof fn lemma_wix_distinct(t1: u64, i1: int, t2: u64, i2: int)
    requires
        t1 % 4096 == 0,
        t2 % 4096 == 0,
        0 <= i1 < 512,
        0 <= i2 < 512,
        t1 != t2 || i1 != i2,
    ensures
        wix(t1, i1) != wix(t2, i2),
{
    if t1 != t2 {
        assert(t1 / 4096 != t2 / 4096);
    }
}

/// A write to a word outside every tagged table changes no translation.
pub proof fn lemma_untagged_writes(m: Seq<u64>, m2: Seq<u64>, tags: Map<u64, TableTag>, r: u64, u: u64)
    requires
        tables_wf(m, tags),
        m2.len() == m.len(),
        forall|t: u64, i: int| #![trigger tags.contains_key(t), pte(m2, t, i)]
            tags.contains_key(t) && 0 <= i < 512 ==> pte(m2, t, i) == pte(m, t, i),
        r == 0 || is_root_of(tags, r),
    ensures
        tables_wf(m2, tags),
        translate(m2, r, u) == translate(m, r, u),
{
    lemma_idx_bounds(u);
    assert forall|t: u64| #[trigger] tags.contains_key(t) implies tag_ok(m2, t, tags[t]) by {}
    assert forall|t: u64, i: int|
        #![trigger tags.contains_key(t), pte(m2, t, i)]
        tags.contains_key(t) && 0 <= i < 512 && points_down(tags[t], pte(m2, t, i)) implies {
            &&& tags.contains_key(entry_addr(pte(m2, t, i)))
            &&& tags[entry_addr(pte(m2, t, i))] == child_tag(tags[t], i)
        } by {
        assert(pte(m, t, i) == pte(m2, t, i));
    }
    if r != 0 {
        let e4 = pte(m, r, idx4(u));
        assert(pte(m2, r, idx4(u)) == e4);
        if present(e4) {
            let t3 = entry_addr(e4);
            assert(tags.contains_key(t3));
            let e3 = pte(m, t3, idx3(u));
            assert(pte(m2, t3, idx3(u)) == e3);
            if present(e3) {
                let t2 = entry_addr(e3);
                assert(tags.contains_key(t2));
                let e2 = pte(m, t2, idx2(u));
                assert(pte(m2, t2, idx2(u)) == e2);
                if present(e2) && !huge(e2) {
                    let t1 = entry_addr(e2);
                    assert(tags.contains_key(t1));
                    assert(pte(m2, t1, idx1(u)) == pte(m, t1, idx1(u)));
                }
            }
        }
    }
}

/// Rewriting one entry leaves every other entry of every tagged table alone.
pub proof fn lemma_pte_frame(m: Seq<u64>, t: u64, i: int, e: u64, tt: u64, j: int)
    requires
        t % 4096 == 0,
        tt % 4096 == 0,
        0 <= i < 512,
        0 <= j < 512,
        t != tt || i != j,
        wix(t, i) < m.len(),
    ensures
        pte(m.update(wix(t, i), e), tt, j) == pte(m, tt, j),
{
    lemma_wix_distinct(t, i, tt, j);
}

/// Rewriting entry `i` of a tagged table changes no translation whose walk
/// does not read that entry.
pub proof fn lemma_write_frame(m: Seq<u64>, tags: Map<u64, TableTag>, t: u64, i: int, e: u64, r: u64, u: u64)
    requires
        tables_wf(m, tags),
        tags.contains_key(t),
        0 <= i < 512,
        r == 0 || is_root_of(tags, r),
        !reads(tags[t], i, r, u),
    ensures
        translate(m.update(wix(t, i), e), r, u) == translate(m, r, u),
{
    lemma_idx_bounds(u);
    let m2 = m.update(wix(t, i), e);
    let g = tags[t];
    assert(tag_ok(m, t, g));
    if r != 0 {
        assert(tag_ok(m, r, tags[r]));
        lemma_pte_frame(m, t, i, e, r, idx4(u));
        let e4 = pte(m, r, idx4(u));
        if present(e4) {
            let t3 = entry_addr(e4);
            assert(points_down(tags[r], e4));
            assert(tags.contains_key(t3));
            assert(tag_ok(m, t3, tags[t3]));
            lemma_pte_frame(m, t, i, e, t3, idx3(u));
            let e3 = pte(m, t3, idx3(u));
            if present(e3) {
                let t2 = entry_addr(e3);
                assert(points_down(tags[t3], e3));
                assert(tags.contains_key(t2));
                assert(tag_ok(m, t2, tags[t2]));
                lemma_pte_frame(m, t, i, e, t2, idx2(u));
                let e2 = pte(m, t2, idx2(u));
                if present(e2) && !huge(e2) {
                    let t1 = entry_addr(e2);
                    assert(points_down(tags[t2], e2));
                    assert(tags.contains_key(t1));
                    assert(tag_ok(m, t1, tags[t1]));
                    lemma_pte_frame(m, t, i, e, t1, idx1(u));
                }
            }
        }
    }
}

/// Writing an entry that leads to no lower table keeps the tree well formed.
pub proof fn lemma_leaf_write_wf(m: Seq<u64>, tags: Map<u64, TableTag>, t: u64, i: int, e: u64)
    requires
        tables_wf(m, tags),
        tags.contains_key(t),
        !points_down(tags[t], e),
        0 <= i < 512,
    ensures
        tables_wf(m.update(wix(t, i), e), tags),
{
    let m2 = m.update(wix(t, i), e);
    assert(tag_ok(m, t, tags[t]));
    assert forall|tt: u64| #[trigger] tags.contains_key(tt) implies tag_ok(m2, tt, tags[tt]) by {}
    assert forall|tt: u64, j: int|
        #![trigger tags.contains_key(tt), pte(m2, tt, j)]
        tags.contains_key(tt) && 0 <= j < 512 && points_down(tags[tt], pte(m2, tt, j)) implies {
            &&& tags.contains_key(entry_addr(pte(m2, tt, j)))
            &&& tags[entry_addr(pte(m2, tt, j))] == child_tag(tags[tt], j)
        } by {
        assert(tag_ok(m, tt, tags[tt]));
        if tt != t {
            lemma_pte_frame(m, t, i, e, tt, j);
        } else if j != i {
            lemma_pte_frame(m, t, i, e, tt, j);
        }
    }
}

/// The walk of `v` from `r` ends on a present 2 MiB entry.
pub open spec fn huge_mapped(m: Seq<u64>, r: u64, v: u64) -> bool {
    let e4 = pte(m, r, idx4(v));
    let e3 = pte(m, entry_addr(e4), idx3(v));
    let e2 = pte(m, entry_addr(e3), idx2(v));
    r != 0 && present(e4) && present(e3) && present(e2) && huge(e2)
}

/// The page-table entry the walk of `v` from `r` ends on.
pub open spec fn leaf_entry(m: Seq<u64>, r: u64, v: u64) -> u64 {
    let e4 = pte(m, r, idx4(v));
    let e3 = pte(m, entry_addr(e4), idx3(v));
    let e2 = pte(m, entry_addr(e3), idx2(v));
    pte(m, entry_addr(e2), idx1(v))
}

/// Physical memory after `unmap_page(v)` with root `r`: the page-table entry
/// of `v` is cleared when `v` is page aligned and its walk reaches a page table.
pub open spec fn unmap_ram(m: Seq<u64>, r: u64, v: u64) -> Seq<u64> {
    let e4 = pte(m, r, idx4(v));
    let e3 = pte(m, entry_addr(e4), idx3(v));
    let e2 = pte(m, entry_addr(e3), idx2(v));
    if v % 4096 == 0 && r != 0 && present(e4) && present(e3) && present(e2) && !huge(e2) {
        m.update(wix(entry_addr(e2), idx1(v)), 0)
    } else {
        m
    }
}

// ---------------------------------------------------------------------------
// The paging unit
// ---------------------------------------------------------------------------

/// Physical RAM with the page-table roots: the software root used by the
/// mapping calls, the boot kernel root, the root loaded in CR3, and whether
/// paging is on.
pub struct Mmu {
    mem: Vec<u64>,
    pml4: u64,
    kernel: u64,
    cr3: u64,
    enabled: bool,
    tags: Ghost<Map<u64, TableTag>>,
}

/// Every managed frame lies in RAM and every page table sits in a frame the
/// allocator counts as used.
pub open spec fn fits(ram: Seq<u64>, tags: Map<u64, TableTag>, pmm: FrameAllocator) -> bool {
    &&& pmm.wf()
    &&& pmm.highest_frame() * 512 <= ram.len()
    &&& forall|t: u64| #[trigger] tags.contains_key(t) ==> {
        &&& (t / 4096) < pmm.highest_frame()
        &&& pmm.frames()[t as int / 4096]
    }
}

/// Frames only go from free to used, and each one that does is a new table.
#[verifier::opaque]
pub open spec fn grows(a: FrameAllocator, b: FrameAllocator, tags_a: Map<u64, TableTag>, tags_b: Map<u64, TableTag>) -> bool {
    &&& b.highest_frame() == a.highest_frame()
    &&& b.total_count() == a.total_count()
    &&& b.is_init() == a.is_init()
    &&& b.alloc_table() == a.alloc_table()
    &&& b.frames().len() == a.frames().len()
    &&& forall|f: int| 0 <= f < a.frames().len() && #[trigger] b.frames()[f] != a.frames()[f] ==> {
        &&& !a.frames()[f]
        &&& tags_b.contains_key((f * 4096) as u64)
        &&& !tags_a.contains_key((f * 4096) as u64)
    }
    &&& forall|t: u64| #[trigger] tags_a.contains_key(t) ==> tags_b.contains_key(t) && tags_b[t] == tags_a[t]
}

/// Every word that differs lies in a tagged table.
#[verifier::opaque]
pub open spec fn changed_in_tables(a: Seq<u64>, b: Seq<u64>, tags: Map<u64, TableTag>) -> bool {
    &&& b.len() == a.len()
    &&& forall|k: int| 0 <= k < a.len() && #[trigger] b[k] != a[k] ==> tags.contains_key(((k / 512) * 4096) as u64)
}

/// An all-zero entry is not present.
pub proof fn lemma_zero_entry()
    ensures
        !present(0),
{
    assert(!(0u64 & 1 != 0)) by (bit_vector);
}

pub proof fn lemma_frame_addr(n: u64)
    requires
        n % 4096 == 0,
        n < 0x1_0000_0000,
    ensures
        n & 0x000F_FFFF_FFFF_F000 == n,
{
    assert(n % 4096 == 0 && n < 0x1_0000_0000 ==> n & 0x000F_FFFF_FFFF_F000 == n) by (bit_vector);
}

/// Frames the walk for `v` from `root` takes for new tables: one for each
/// missing PDPT, page directory and page table, one to split a 2 MiB page.
pub open spec fn walk_allocs(m: Seq<u64>, root: u64, v: u64) -> int {
    let e4 = pte(m, root, idx4(v));
    if !present(e4) {
        3
    } else {
        let e3 = pte(m, entry_addr(e4), idx3(v));
        if !present(e3) {
            2
        } else {
            let e2 = pte(m, entry_addr(e3), idx2(v));
            if !present(e2) || huge(e2) {
                1
            } else {
                0
            }
        }
    }
}

/// Every tree rooted in `tags` translates alike in `a` and `b`.
#[verifier::opaque]
pub open spec fn keeps_translations(a: Seq<u64>, b: Seq<u64>, tags: Map<u64, TableTag>) -> bool {
    forall|rt: u64, u: u64| (rt == 0 || is_root_of(tags, rt)) ==> #[trigger] translate(b, rt, u) == translate(a, rt, u)
}

/// Every entry of every table in `tags` but entry `i` of `t` is alike in `a` and `b`.
#[verifier::opaque]
pub open spec fn keeps_entries(a: Seq<u64>, b: Seq<u64>, tags: Map<u64, TableTag>, t: u64, i: int) -> bool {
    forall|tt: u64, j: int| tags.contains_key(tt) && 0 <= j < 512 && (tt != t || j != i)
        ==> #[trigger] pte(b, tt, j) == pte(a, tt, j)
}

pub proof fn lemma_count_all(s: Seq<bool>, n: int)
    requires
        0 <= n <= s.len(),
        forall|g: int| 0 <= g < n ==> s[g],
    ensures
        count_used(s, n) == n,
    decreases n,
{
    if n > 0 {
        lemma_count_all(s, n - 1);
    }
}

/// Rewriting an upper-level entry with one of the same meaning (same presence,
/// same target, same size bit) changes no translation and keeps the tree.
pub proof fn lemma_same_meaning(m: Seq<u64>, tags: Map<u64, TableTag>, t: u64, i: int, e: u64, r: u64, u: u64)
    requires
        tables_wf(m, tags),
        tags.contains_key(t),
        tags[t].level >= 2,
        0 <= i < 512,
        r == 0 || is_root_of(tags, r),
        present(e) == present(pte(m, t, i)),
        present(e) ==> entry_addr(e) == entry_addr(pte(m, t, i)),
        tags[t].level == 2 ==> huge(e) == huge(pte(m, t, i)),
    ensures
        translate(m.update(wix(t, i), e), r, u) == translate(m, r, u),
        tables_wf(m.update(wix(t, i), e), tags),
{
    let m2 = m.update(wix(t, i), e);
    let g = tags[t];
    assert(tag_ok(m, t, g));
    assert(pte(m2, t, i) == e);
    assert forall|tt: u64| #[trigger] tags.contains_key(tt) implies tag_ok(m2, tt, tags[tt]) by {}
    assert forall|tt: u64, j: int|
        #![trigger tags.contains_key(tt), pte(m2, tt, j)]
        tags.contains_key(tt) && 0 <= j < 512 && points_down(tags[tt], pte(m2, tt, j)) implies {
            &&& tags.contains_key(entry_addr(pte(m2, tt, j)))
            &&& tags[entry_addr(pte(m2, tt, j))] == child_tag(tags[tt], j)
        } by {
        assert(tag_ok(m, tt, tags[tt]));
        if tt != t || j != i {
            lemma_pte_frame(m, t, i, e, tt, j);
        } else {
            assert(points_down(tags[t], pte(m, t, i)));
        }
    }
    if !reads(g, i, r, u) {
        lemma_write_frame(m, tags, t, i, e, r, u);
    } else if r != 0 {
        lemma_idx_bounds(u);
        assert(tag_ok(m, r, tags[r]));
        if r != t {
            lemma_pte_frame(m, t, i, e, r, idx4(u));
        }
        let e4 = pte(m, r, idx4(u));
        if present(e4) {
            let t3 = entry_addr(e4);
            assert(points_down(tags[r], e4));
            assert(tag_ok(m, t3, tags[t3]));
            if t3 != t {
                lemma_pte_frame(m, t, i, e, t3, idx3(u));
            }
            let e3 = pte(m, t3, idx3(u));
            if present(e3) {
                let t2 = entry_addr(e3);
                assert(points_down(tags[t3], e3));
                assert(tag_ok(m, t2, tags[t2]));
                if t2 != t {
                    lemma_pte_frame(m, t, i, e, t2, idx2(u));
                }
                let e2 = pte(m, t2, idx2(u));
                if present(e2) && !huge(e2) {
                    let t1 = entry_addr(e2);
                    assert(points_down(tags[t2], e2));
                    assert(tag_ok(m, t1, tags[t1]));
                    assert(t1 != t);
                    lemma_pte_frame(m, t, i, e, t1, idx1(u));
                }
            }
        }
    }
}

/// Pointing an absent upper-level entry at a fresh, empty table changes no
/// translation; the new table is tagged with the path through that entry.
pub proof fn lemma_new_table(m: Seq<u64>, tags: Map<u64, TableTag>, t: u64, i: int, n: u64, e: u64, r: u64, u: u64)
    requires
        tables_wf(m, tags),
        tags.contains_key(t),
        tags[t].level >= 2,
        0 <= i < 512,
        r == 0 || is_root_of(tags, r),
        !present(pte(m, t, i)),
        !tags.contains_key(n),
        n % 4096 == 0,
        (n / 4096) as int * 512 + 512 <= m.len(),
        forall|j: int| 0 <= j < 512 ==> #[trigger] pte(m, n, j) == 0,
        present(e),
        entry_addr(e) == n,
        tags[t].level == 2 ==> !huge(e),
    ensures
        translate(m.update(wix(t, i), e), r, u) == translate(m, r, u),
        tables_wf(m.update(wix(t, i), e), tags.insert(n, child_tag(tags[t], i))),
{
    let m2 = m.update(wix(t, i), e);
    let g = tags[t];
    let tags2 = tags.insert(n, child_tag(g, i));
    assert(tag_ok(m, t, g));
    assert(pte(m2, t, i) == e);
    lemma_zero_entry();
    assert forall|j: int| 0 <= j < 512 implies #[trigger] pte(m2, n, j) == 0 by {
        lemma_pte_frame(m, t, i, e, n, j);
    }
    assert forall|tt: u64| #[trigger] tags2.contains_key(tt) implies tag_ok(m2, tt, tags2[tt]) by {
        if tt != n {
            assert(tag_ok(m, tt, tags[tt]));
        }
    }
    assert forall|tt: u64, j: int|
        #![trigger tags2.contains_key(tt), pte(m2, tt, j)]
        tags2.contains_key(tt) && 0 <= j < 512 && points_down(tags2[tt], pte(m2, tt, j)) implies {
            &&& tags2.contains_key(entry_addr(pte(m2, tt, j)))
            &&& tags2[entry_addr(pte(m2, tt, j))] == child_tag(tags2[tt], j)
        } by {
        if tt == n {
            assert(pte(m2, n, j) == 0);
        } else {
            assert(tag_ok(m, tt, tags[tt]));
            if tt != t || j != i {
                lemma_pte_frame(m, t, i, e, tt, j);
                assert(tags.contains_key(entry_addr(pte(m, tt, j))));
            }
        }
    }
    if !reads(g, i, r, u) {
        lemma_write_frame(m, tags, t, i, e, r, u);
    } else if r != 0 {
        lemma_idx_bounds(u);
        assert(tag_ok(m, r, tags[r]));
        if r != t {
            lemma_pte_frame(m, t, i, e, r, idx4(u));
        }
        let e4 = pte(m, r, idx4(u));
        if present(e4) && r != t {
            let t3 = entry_addr(e4);
            assert(points_down(tags[r], e4));
            assert(tag_ok(m, t3, tags[t3]));
            if t3 != t {
                lemma_pte_frame(m, t, i, e, t3, idx3(u));
            }
            let e3 = pte(m, t3, idx3(u));
            if present(e3) && t3 != t {
                let t2 = entry_addr(e3);
                assert(points_down(tags[t3], e3));
                assert(tag_ok(m, t2, tags[t2]));
                if t2 != t {
                    lemma_pte_frame(m, t, i, e, t2, idx2(u));
                    let e2 = pte(m, t2, idx2(u));
                    if present(e2) && !huge(e2) {
                        let t1 = entry_addr(e2);
                        assert(points_down(tags[t2], e2));
                        assert(tag_ok(m, t1, tags[t1]));
                        lemma_pte_frame(m, t, i, e, t1, idx1(u));
                    }
                }
            }
        }
    }
}

/// The page table that replaces a 2 MiB entry gives every address the same
/// physical address.
pub proof fn lemma_split_bits(e: u64, u: u64)
    ensures
        e & !0x1F_FFFFu64 <= 0xFFFF_FFFF_FFE0_0000u64,
        ((((e & !0x1F_FFFFu64) + ((u >> 12u64) & 0x1FF) * 4096) as u64) & 0x000F_FFFF_FFFF_F000) | (u
            & 0xFFF) == ((e & 0x000F_FFFF_FFFF_F000) & !0x1F_FFFFu64) | (u & 0x1F_FFFF),
{
    assert(e & !0x1F_FFFFu64 <= 0xFFFF_FFFF_FFE0_0000u64 && ((((e & !0x1F_FFFFu64) + ((u >> 12u64)
        & 0x1FF) * 4096) as u64) & 0x000F_FFFF_FFFF_F000) | (u & 0xFFF) == ((e & 0x000F_FFFF_FFFF_F000)
        & !0x1F_FFFFu64) | (u & 0x1F_FFFF)) by (bit_vector);
}

/// Replacing a 2 MiB entry by a page table that maps the same 512 frames
/// changes no translation; the page table is tagged with the path through it.
pub proof fn lemma_split(m: Seq<u64>, tags: Map<u64, TableTag>, t: u64, i: int, n: u64, lf: u64, e: u64, r: u64, u: u64)
    requires
        tables_wf(m, tags),
        tags.contains_key(t),
        tags[t].level == 2,
        0 <= i < 512,
        r == 0 || is_root_of(tags, r),
        present(pte(m, t, i)),
        huge(pte(m, t, i)),
        !tags.contains_key(n),
        n % 4096 == 0,
        (n / 4096) as int * 512 + 512 <= m.len(),
        lf & 1 == 1,
        forall|j: int| 0 <= j < 512 ==> #[trigger] pte(m, n, j) == make_entry(
            ((pte(m, t, i) & !0x1F_FFFFu64) + j * 4096) as u64, lf),
        present(e),
        !huge(e),
        entry_addr(e) == n,
    ensures
        translate(m.update(wix(t, i), e), r, u) == translate(m, r, u),
        tables_wf(m.update(wix(t, i), e), tags.insert(n, child_tag(tags[t], i))),
{
    let m2 = m.update(wix(t, i), e);
    let g = tags[t];
    let eo = pte(m, t, i);
    let tags2 = tags.insert(n, child_tag(g, i));
    assert(tag_ok(m, t, g));
    assert(pte(m2, t, i) == e);
    assert forall|j: int| 0 <= j < 512 implies #[trigger] pte(m2, n, j) == pte(m, n, j) by {
        lemma_pte_frame(m, t, i, e, n, j);
    }
    assert forall|tt: u64| #[trigger] tags2.contains_key(tt) implies tag_ok(m2, tt, tags2[tt]) by {
        if tt != n {
            assert(tag_ok(m, tt, tags[tt]));
        }
    }
    assert forall|tt: u64, j: int|
        #![trigger tags2.contains_key(tt), pte(m2, tt, j)]
        tags2.contains_key(tt) && 0 <= j < 512 && points_down(tags2[tt], pte(m2, tt, j)) implies {
            &&& tags2.contains_key(entry_addr(pte(m2, tt, j)))
            &&& tags2[entry_addr(pte(m2, tt, j))] == child_tag(tags2[tt], j)
        } by {
        if tt != n {
            assert(tag_ok(m, tt, tags[tt]));
            if tt != t || j != i {
                lemma_pte_frame(m, t, i, e, tt, j);
                assert(tags.contains_key(entry_addr(pte(m, tt, j))));
            }
        }
    }
    if !reads(g, i, r, u) {
        lemma_write_frame(m, tags, t, i, e, r, u);
    } else if r != 0 {
        lemma_idx_bounds(u);
        assert(tag_ok(m, r, tags[r]));
        lemma_pte_frame(m, t, i, e, r, idx4(u));
        let e4 = pte(m, r, idx4(u));
        if present(e4) {
            let t3 = entry_addr(e4);
            assert(points_down(tags[r], e4));
            assert(tag_ok(m, t3, tags[t3]));
            lemma_pte_frame(m, t, i, e, t3, idx3(u));
            let e3 = pte(m, t3, idx3(u));
            if present(e3) {
                let t2 = entry_addr(e3);
                assert(points_down(tags[t3], e3));
                assert(tag_ok(m, t2, tags[t2]));
                if t2 != t {
                    lemma_pte_frame(m, t, i, e, t2, idx2(u));
                    let e2 = pte(m, t2, idx2(u));
                    if present(e2) && !huge(e2) {
                        let t1 = entry_addr(e2);
                        assert(points_down(tags[t2], e2));
                        assert(tag_ok(m, t1, tags[t1]));
                        lemma_pte_frame(m, t, i, e, t1, idx1(u));
                    }
                } else {
                    let j = idx1(u);
                    let p = ((eo & !0x1F_FFFFu64) + j * 4096) as u64;
                    assert(pte(m2, n, j) == make_entry(p, lf));
                    lemma_make_entry(p, lf);
                    lemma_split_bits(eo, u);
                    assert(j == ((u >> 12u64) & 0x1FF) as int);
                }
            }
        }
    }
}

pub proof fn lemma_grows_trans(a: FrameAllocator, b: FrameAllocator, c: FrameAllocator, ta: Map<u64, TableTag>, tb: Map<u64, TableTag>, tc: Map<u64, TableTag>)
    requires
        grows(a, b, ta, tb),
        grows(b, c, tb, tc),
    ensures
        grows(a, c, ta, tc),
        forall|t: u64| #[trigger] ta.contains_key(t) ==> tc.contains_key(t) && tc[t] == ta[t],
{
    reveal(grows);
    assert forall|f: int| 0 <= f < a.frames().len() && #[trigger] c.frames()[f] != a.frames()[f] implies {
        &&& !a.frames()[f]
        &&& tc.contains_key((f * 4096) as u64)
        &&& !ta.contains_key((f * 4096) as u64)
    } by {
        if b.frames()[f] != a.frames()[f] {
            assert(tb.contains_key((f * 4096) as u64));
        } else {
            assert(c.frames()[f] != b.frames()[f]);
        }
    }
}

pub proof fn lemma_grows_tags(a: FrameAllocator, b: FrameAllocator, ta: Map<u64, TableTag>, tb: Map<u64, TableTag>)
    requires
        grows(a, b, ta, tb),
    ensures
        forall|t: u64| #[trigger] ta.contains_key(t) ==> tb.contains_key(t) && tb[t] == ta[t],
{
    reveal(grows);
}

pub proof fn lemma_changed_trans(a: Seq<u64>, b: Seq<u64>, c: Seq<u64>, tb: Map<u64, TableTag>, tc: Map<u64, TableTag>)
    requires
        changed_in_tables(a, b, tb),
        changed_in_tables(b, c, tc),
        forall|t: u64| #[trigger] tb.contains_key(t) ==> tc.contains_key(t),
    ensures
        changed_in_tables(a, c, tc),
{
    reveal(changed_in_tables);
    assert forall|k: int| 0 <= k < a.len() && #[trigger] c[k] != a[k] implies tc.contains_key(((k / 512) * 4096) as u64) by {
        if b[k] != a[k] {
            assert(tb.contains_key(((k / 512) * 4096) as u64));
        } else {
            assert(c[k] != b[k]);
        }
    }
}

/// Writing the leaf at the end of the path of `v` maps exactly the page of `v`.
pub proof fn lemma_leaf_map(m: Seq<u64>, tags: Map<u64, TableTag>, r: u64, v: u64, t3: u64, t2: u64, t1: u64, le: u64)
    requires
        tables_wf(m, tags),
        r != 0,
        is_root_of(tags, r),
        present(pte(m, r, idx4(v))),
        entry_addr(pte(m, r, idx4(v))) == t3,
        present(pte(m, t3, idx3(v))),
        entry_addr(pte(m, t3, idx3(v))) == t2,
        present(pte(m, t2, idx2(v))),
        !huge(pte(m, t2, idx2(v))),
        entry_addr(pte(m, t2, idx2(v))) == t1,
        present(le),
    ensures
        tables_wf(m.update(wix(t1, idx1(v)), le), tags),
        leaf_entry(m.update(wix(t1, idx1(v)), le), r, v) == le,
        !huge_mapped(m.update(wix(t1, idx1(v)), le), r, v),
        forall|rt: u64, u: u64| (rt == 0 || is_root_of(tags, rt)) ==> #[trigger] translate(m.update(wix(t1, idx1(v)), le), rt, u) == (
            if rt == r && same_page(u, v) {
                Some(entry_addr(le) | (u & 0xFFF))
            } else {
                translate(m, rt, u)
            }),
{
    lemma_idx_bounds(v);
    let mf = m.update(wix(t1, idx1(v)), le);
    assert(tag_ok(m, r, tags[r]));
    assert(points_down(tags[r], pte(m, r, idx4(v))));
    assert(tag_ok(m, t3, tags[t3]));
    assert(points_down(tags[t3], pte(m, t3, idx3(v))));
    assert(tag_ok(m, t2, tags[t2]));
    assert(points_down(tags[t2], pte(m, t2, idx2(v))));
    assert(tag_ok(m, t1, tags[t1]));
    assert(tags[t1].level == 1);
    lemma_leaf_write_wf(m, tags, t1, idx1(v), le);
    lemma_pte_frame(m, t1, idx1(v), le, r, idx4(v));
    lemma_pte_frame(m, t1, idx1(v), le, t3, idx3(v));
    lemma_pte_frame(m, t1, idx1(v), le, t2, idx2(v));
    assert(pte(mf, t1, idx1(v)) == le);
    assert forall|rt: u64, u: u64| (rt == 0 || is_root_of(tags, rt)) implies #[trigger] translate(mf, rt, u) == (
        if rt == r && same_page(u, v) {
            Some(entry_addr(le) | (u & 0xFFF))
        } else {
            translate(m, rt, u)
        }) by {
        if reads(tags[t1], idx1(v), rt, u) {
            assert(rt == r && same_page(u, v));
        } else {
            lemma_write_frame(m, tags, t1, idx1(v), le, rt, u);
            if rt == r && same_page(u, v) {
                assert(reads(tags[t1], idx1(v), rt, u));
            }
        }
    }
}

/// Composition of three translation-keeping steps and a final leaf write.
pub proof fn lemma_chain_translate(
    m0: Seq<u64>, ma: Seq<u64>, mb: Seq<u64>, mc: Seq<u64>, mf: Seq<u64>,
    tags0: Map<u64, TableTag>, tagsa: Map<u64, TableTag>, tagsb: Map<u64, TableTag>, tagsc: Map<u64, TableTag>,
    pml4: u64, virt: u64, pa: u64,
)
    requires
        forall|t: u64| #[trigger] tags0.contains_key(t) ==> tagsa.contains_key(t) && tagsa[t] == tags0[t],
        forall|t: u64| #[trigger] tagsa.contains_key(t) ==> tagsb.contains_key(t) && tagsb[t] == tagsa[t],
        forall|t: u64| #[trigger] tagsb.contains_key(t) ==> tagsc.contains_key(t) && tagsc[t] == tagsb[t],
        keeps_translations(m0, ma, tags0),
        keeps_translations(ma, mb, tagsa),
        keeps_translations(mb, mc, tagsb),
        forall|rt: u64, u: u64| (rt == 0 || is_root_of(tagsc, rt)) ==> #[trigger] translate(mf, rt, u) == (
            if rt == pml4 && same_page(u, virt) {
                Some(pa | (u & 0xFFF))
            } else {
                translate(mc, rt, u)
            }),
    ensures
        forall|rt: u64, u: u64| (rt == 0 || is_root_of(tags0, rt)) ==> #[trigger] translate(mf, rt, u) == (
            if rt == pml4 && same_page(u, virt) {
                Some(pa | (u & 0xFFF))
            } else {
                translate(m0, rt, u)
            }),
{
    reveal(keeps_translations);
    assert forall|rt: u64, u: u64| (rt == 0 || is_root_of(tags0, rt)) implies #[trigger] translate(mf, rt, u) == (
        if rt == pml4 && same_page(u, virt) {
            Some(pa | (u & 0xFFF))
        } else {
            translate(m0, rt, u)
        }) by {
        if rt != 0 {
            assert(tagsa.contains_key(rt) && tagsa[rt] == tags0[rt]);
            assert(tagsb.contains_key(rt) && tagsb[rt] == tags0[rt]);
            assert(tagsc.contains_key(rt) && tagsc[rt] == tags0[rt]);
        }
        assert(translate(mf, rt, u) == (if rt == pml4 && same_page(u, virt) {
            Some(pa | (u & 0xFFF))
        } else {
            translate(mc, rt, u)
        }));
        assert(translate(ma, rt, u) == translate(m0, rt, u));
        assert(translate(mb, rt, u) == translate(ma, rt, u));
        assert(translate(mc, rt, u) == translate(mb, rt, u));
    }
}

/// Frame and word bookkeeping of the three steps of `map_page_in` and its leaf write.
pub proof fn lemma_chain_frames(
    m0: Seq<u64>, ma: Seq<u64>, mb: Seq<u64>, mc: Seq<u64>, mf: Seq<u64>,
    tags0: Map<u64, TableTag>, tagsa: Map<u64, TableTag>, tagsb: Map<u64, TableTag>, tagsc: Map<u64, TableTag>,
    p0: FrameAllocator, pa0: FrameAllocator, pb0: FrameAllocator, pc: FrameAllocator, t1: u64, i1: int, le: u64,
)
    requires
        grows(p0, pa0, tags0, tagsa),
        grows(pa0, pb0, tagsa, tagsb),
        grows(pb0, pc, tagsb, tagsc),
        changed_in_tables(m0, ma, tagsa),
        changed_in_tables(ma, mb, tagsb),
        changed_in_tables(mb, mc, tagsc),
        tagsc.contains_key(t1),
        tag_ok(mc, t1, tagsc[t1]),
        0 <= i1 < 512,
        mf == mc.update(wix(t1, i1), le),
    ensures
        grows(p0, pc, tags0, tagsc),
        changed_in_tables(m0, mf, tagsc),
{
    lemma_grows_tags(pa0, pb0, tagsa, tagsb);
    lemma_grows_tags(pb0, pc, tagsb, tagsc);
    lemma_grows_trans(p0, pa0, pb0, tags0, tagsa, tagsb);
    lemma_grows_trans(p0, pb0, pc, tags0, tagsb, tagsc);
    lemma_changed_trans(m0, ma, mb, tagsa, tagsb);
    lemma_changed_trans(m0, mb, mc, tagsb, tagsc);
    assert(changed_in_tables(mc, mf, tagsc)) by {
        reveal(changed_in_tables);
        assert forall|k2: int| 0 <= k2 < mc.len() && #[trigger] mf[k2] != mc[k2]
            implies tagsc.contains_key(((k2 / 512) * 4096) as u64) by {
            assert(k2 == wix(t1, i1));
            assert(((k2 / 512) * 4096) as u64 == t1);
        }
    }
    lemma_changed_trans(m0, mc, mf, tagsc, tagsc);
}

pub proof fn lemma_grows_refl(a: FrameAllocator, ta: Map<u64, TableTag>)
    ensures
        grows(a, a, ta, ta),
{
    reveal(grows);
}

pub proof fn lemma_changed_refl(a: Seq<u64>, ta: Map<u64, TableTag>)
    ensures
        changed_in_tables(a, a, ta),
{
    reveal(changed_in_tables);
}

/// A nonzero 2 MiB-aligned address below 2^47 differs from 0 in one of the
/// three upper indices.
pub proof fn lemma_nonzero_block(a: u64)
    requires
        a % 0x20_0000 == 0,
        0 < a < 0x8000_0000_0000,
    ensures
        idx4(a) != 0 || idx3(a) != 0 || idx2(a) != 0,
{
    assert(a % 0x20_0000 == 0 && a > 0 && a < 0x8000_0000_0000 ==> ((a >> 39u64) & 0x1FF != 0 || (a
        >> 30u64) & 0x1FF != 0 || (a >> 21u64) & 0x1FF != 0)) by (bit_vector);
}

/// Addresses within one aligned 1 GiB block share their two upper indices.
pub proof fn lemma_same_block(first: u64, a: u64)
    requires
        first % 0x4000_0000 == 0,
        first <= a,
        a - first < 0x4000_0000,
    ensures
        idx4(a) == idx4(first),
        idx3(a) == idx3(first),
{
    assert(first % 0x4000_0000 == 0 && first <= a && a - first < 0x4000_0000 ==> (a >> 39u64) & 0x1FF
        == (first >> 39u64) & 0x1FF && (a >> 30u64) & 0x1FF == (first >> 30u64) & 0x1FF) by (bit_vector);
}

/// The 2 MiB identity entry for block 0 gives the kernel load address itself.
pub proof fn lemma_block0_entry()
    ensures
        present(make_entry(0, 0x83)),
        huge(make_entry(0, 0x83)),
        huge_base(make_entry(0, 0x83)) | (0x10_0000u64 & 0x1F_FFFF) == 0x10_0000,
        idx4(0x10_0000) == 0,
        idx3(0x10_0000) == 0,
        idx2(0x10_0000) == 0,
        idx4(0) == 0,
        idx3(0) == 0,
        idx2(0) == 0,
{
    lemma_make_entry(0, 0x83);
    assert((((0u64 & 0x000F_FFFF_FFFF_F000) | (0x83u64 & 0xFFF)) & 0x000F_FFFF_FFFF_F000) & !0x1F_FFFFu64 | (0x10_0000u64 & 0x1F_FFFF) == 0x10_0000
        && (0x10_0000u64 >> 39u64) & 0x1FF == 0 && (0x10_0000u64 >> 30u64) & 0x1FF == 0 && (0x10_0000u64 >> 21u64) & 0x1FF == 0
        && (0u64 >> 39u64) & 0x1FF == 0 && (0u64 >> 30u64) & 0x1FF == 0 && (0u64 >> 21u64) & 0x1FF == 0
        && 0x83u64 & 1 != 0 && 0x83u64 & 0x80 != 0) by (bit_vector);
}

/// Bytes identity-mapped at boot: 1 GiB, or the managed memory when that is
/// less, but at least the kernel image (rounded to a page) plus 16 MiB; then
/// rounded up to 2 MiB.
pub open spec fn boot_map_len(total: nat, kernel_end: u64) -> int {
    let managed = total * 4096;
    let l0 = if managed != 0 && managed < 0x4000_0000 { managed as int } else { 0x4000_0000int };
    let kend = (kernel_end as int + 4095) / 4096 * 4096;
    let min_map = if kend + 0x100_0000 > u64::MAX { u64::MAX as int } else { kend + 0x100_0000 };
    let l1 = if l0 < min_map { min_map } else { l0 };
    (l1 + 0x1F_FFFF) / 0x20_0000 * 0x20_0000
}

/// Tagging a fresh, zeroed frame as a new root keeps the tree well formed.
pub proof fn lemma_add_root(m: Seq<u64>, tags: Map<u64, TableTag>, n: u64)
    requires
        tables_wf(m, tags),
        !tags.contains_key(n),
        n % 4096 == 0,
        (n / 4096) as int * 512 + 512 <= m.len(),
        forall|j: int| 0 <= j < 512 ==> #[trigger] pte(m, n, j) == 0,
    ensures
        tables_wf(m, tags.insert(n, TableTag { root: n, level: 4, i4: 0, i3: 0, i2: 0 })),
{
    let tags2 = tags.insert(n, TableTag { root: n, level: 4, i4: 0, i3: 0, i2: 0 });
    lemma_zero_entry();
    assert forall|tt: u64, j: int|
        #![trigger tags2.contains_key(tt), pte(m, tt, j)]
        tags2.contains_key(tt) && 0 <= j < 512 && points_down(tags2[tt], pte(m, tt, j)) implies {
            &&& tags2.contains_key(entry_addr(pte(m, tt, j)))
            &&& tags2[entry_addr(pte(m, tt, j))] == child_tag(tags2[tt], j)
        } by {
        if tt != n {
            assert(tags.contains_key(entry_addr(pte(m, tt, j))));
        }
    }
}

/// What clearing the page-table entry of `v` does to every translation.
pub proof fn lemma_unmap(m: Seq<u64>, tags: Map<u64, TableTag>, root: u64, v: u64, rt: u64, u: u64)
    requires
        tables_wf(m, tags),
        root == 0 || is_root_of(tags, root),
        rt == 0 || is_root_of(tags, rt),
    ensures
        tables_wf(unmap_ram(m, root, v), tags),
        translate(unmap_ram(m, root, v), rt, u) == (
            if rt == root && root != 0 && v % 4096 == 0 && same_page(u, v) && !huge_mapped(m, root, v) {
                None
            } else {
                translate(m, rt, u)
            }),
{
    lemma_idx_bounds(v);
    lemma_idx_bounds(u);
    let e4 = pte(m, root, idx4(v));
    let e3 = pte(m, entry_addr(e4), idx3(v));
    let e2 = pte(m, entry_addr(e3), idx2(v));
    if v % 4096 == 0 && root != 0 && present(e4) && present(e3) && present(e2) && !huge(e2) {
        assert(points_down(tags[root], e4));
        let t3 = entry_addr(e4);
        assert(points_down(tags[t3], e3));
        let t2 = entry_addr(e3);
        assert(points_down(tags[t2], e2));
        let t1 = entry_addr(e2);
        assert(tag_ok(m, t1, tags[t1]));
        lemma_zero_entry();
        lemma_leaf_write_wf(m, tags, t1, idx1(v), 0);
        if reads(tags[t1], idx1(v), rt, u) {
            assert(same_page(u, v));
            assert(pte(unmap_ram(m, root, v), t1, idx1(v)) == 0);
        } else {
            lemma_write_frame(m, tags, t1, idx1(v), 0, rt, u);
            if rt == root && same_page(u, v) {
                assert(reads(tags[t1], idx1(v), rt, u));
            }
        }
    } else if rt == root && root != 0 && v % 4096 == 0 && same_page(u, v) && !huge_mapped(m, root, v) {
        assert(translate(m, rt, u) == None::<u64>);
    }
}

/// Law: unmapping a page that was just mapped with 4 KiB granularity leaves
/// that page unmapped and every other address as it was before the mapping.
pub proof fn lemma_map_then_unmap(m0: Seq<u64>, m1: Seq<u64>, tags: Map<u64, TableTag>, r: u64, v: u64, p: u64, u: u64)
    requires
        tables_wf(m1, tags),
        is_root_of(tags, r),
        r != 0,
        v % 4096 == 0,
        !huge_mapped(m1, r, v),
        forall|w: u64| #[trigger] translate(m1, r, w) == (if same_page(w, v) {
            Some(p | (w & 0xFFF))
        } else {
            translate(m0, r, w)
        }),
    ensures
        translate(unmap_ram(m1, r, v), r, u) == (if same_page(u, v) { None } else { translate(m0, r, u) }),
{
    lemma_unmap(m1, tags, r, v, r, u);
    assert(translate(m1, r, u) == (if same_page(u, v) { Some(p | (u & 0xFFF)) } else { translate(m0, r, u) }));
}

impl Mmu {
    /// Physical memory, 512 words per frame.
    pub closed spec fn ram(&self) -> Seq<u64> {
        self.mem@
    }

    /// Every page table in use, with its path.
    pub closed spec fn tables(&self) -> Map<u64, TableTag> {
        self.tags@
    }

    /// Root that `map_page`, `virt_to_phys` and `unmap_page` work on (0 before `init`).
    pub closed spec fn root(&self) -> u64 {
        self.pml4
    }

    pub closed spec fn kernel_root(&self) -> u64 {
        self.kernel
    }

    pub closed spec fn loaded(&self) -> u64 {
        self.cr3
    }

    pub closed spec fn paging_on(&self) -> bool {
        self.enabled
    }

    pub closed spec fn wf(&self) -> bool {
        &&& tables_wf(self.mem@, self.tags@)
        &&& self.pml4 == 0 || is_root_of(self.tags@, self.pml4)
        &&& self.kernel == 0 || is_root_of(self.tags@, self.kernel)
        &&& self.cr3 == 0 || is_root_of(self.tags@, self.cr3)
    }

    /// `r` is 0 or the root of a tree of tables.
    pub open spec fn valid_root(&self, r: u64) -> bool {
        r == 0 || is_root_of(self.tables(), r)
    }

    /// RAM of `frames` zeroed frames, no tables, paging off.
    pub fn new(frames: usize) -> (s: Self)
        requires
            frames <= MAX_FRAMES,
        ensures
            s.wf(),
            s.ram() == Seq::new((frames * 512) as nat, |k: int| 0u64),
            s.tables() == Map::<u64, TableTag>::empty(),
            s.root() == 0,
            s.kernel_root() == 0,
            s.loaded() == 0,
            !s.paging_on(),
    {
        let n = frames * 512;
        let mut mem: Vec<u64> = Vec::new();
        while mem.len() < n
            invariant
                mem.len() <= n,
                forall|k: int| 0 <= k < mem.len() ==> mem@[k] == 0u64,
            decreases n - mem.len(),
        {
            mem.push(0);
        }
        let s = Mmu { mem, pml4: 0, kernel: 0, cr3: 0, enabled: false, tags: Ghost(Map::empty()) };
        assert(s.mem@ =~= Seq::new((frames * 512) as nat, |k: int| 0u64));
        s
    }

    pub fn is_enabled(&self) -> (r: bool)
        ensures
            r == self.paging_on(),
    {
        self.enabled
    }

    /// The software root, or `None` before `init`.
    pub fn page_directory_phys(&self) -> (r: Option<u64>)
        ensures
            r == (if self.root() == 0 { None } else { Some(self.root()) }),
    {
        if self.pml4 == 0 {
            None
        } else {
            Some(self.pml4)
        }
    }

    /// The boot kernel root (0 before `init`).
    pub fn kernel_cr3(&self) -> (r: u64)
        ensures
            r == self.kernel_root(),
    {
        self.kernel
    }

    /// The root loaded in CR3.
    pub fn current_cr3(&self) -> (r: u64)
        ensures
            r == self.loaded(),
    {
        self.cr3
    }

    fn word_index(&self, t: u64, i: usize) -> (k: usize)
        requires
            (t / 4096) as int * 512 + 512 <= self.ram().len(),
            i < 512,
        ensures
            k == wix(t, i as int),
            k < self.ram().len(),
    {
        let f = t / 4096;
        assert(f as int * 512 + 512 <= self.mem.len());
        let fu = f as usize;
        fu * 512 + i
    }

    /// Take a free frame from the allocator and zero it.
    fn alloc_table(&mut self, pmm: &mut FrameAllocator) -> (r: u64)
        requires
            old(self).wf(),
            fits(old(self).ram(), old(self).tables(), *old(pmm)),
            old(pmm).is_init(),
            old(pmm).used_count() < old(pmm).highest_frame(),
        ensures
            final(self).wf(),
            r % 4096 == 0,
            r < 0x1_0000_0000,
            (r / 4096) < old(pmm).highest_frame(),
            !old(pmm).frames()[r as int / 4096],
            !old(self).tables().contains_key(r),
            alloc_frame_post(*old(pmm), *final(pmm), Some(PhysAddr(r as u32))),
            final(pmm).wf(),
            final(self).tables() == old(self).tables(),
            final(self).root() == old(self).root(),
            final(self).kernel_root() == old(self).kernel_root(),
            final(self).loaded() == old(self).loaded(),
            final(self).paging_on() == old(self).paging_on(),
            final(self).ram().len() == old(self).ram().len(),
            forall|k: int| 0 <= k < old(self).ram().len() ==> #[trigger] final(self).ram()[k] == (
                if k / 512 == r / 4096 { 0u64 } else { old(self).ram()[k] }),
            forall|j: int| 0 <= j < 512 ==> #[trigger] pte(final(self).ram(), r, j) == 0,
            fits(final(self).ram(), final(self).tables(), *final(pmm)),
            r / 4096 * 512 + 512 <= final(self).ram().len(),
            forall|rt: u64, u: u64| old(self).valid_root(rt) ==> #[trigger] translate(final(self).ram(), rt, u)
                == translate(old(self).ram(), rt, u),
    {
        proof {
            pmm.lemma_wf();
        }
        let p = pmm.alloc_frame();
        let pa = match p {
            Some(pa) => pa,
            None => {
                proof {
                    lemma_count_all(old(pmm).frames(), old(pmm).highest_frame() as int);
                }
                return 0;
            },
        };
        let r = pa.0 as u64;
        let ghost m = self.mem@;
        let ghost tags = self.tags@;
        assert(!tags.contains_key(r));
        let base = self.word_index(r, 0);
        let mut j: usize = 0;
        while j < 512
            invariant
                j <= 512,
                base == wix(r, 0),
                base + 512 <= self.mem@.len(),
                self.mem@.len() == m.len(),
                self.pml4 == old(self).pml4,
                self.kernel == old(self).kernel,
                self.cr3 == old(self).cr3,
                self.enabled == old(self).enabled,
                self.tags@ == tags,
                forall|k: int| 0 <= k < m.len() ==> #[trigger] self.mem@[k] == (
                    if base <= k < base + j { 0u64 } else { m[k] }),
            decreases 512 - j,
        {
            self.mem.set(base + j, 0);
            j = j + 1;
        }
        proof {
            assert forall|k: int| 0 <= k < m.len() implies #[trigger] self.mem@[k] == (
                if k / 512 == r / 4096 { 0u64 } else { m[k] }) by {
                assert((base <= k < base + 512) == (k / 512 == r / 4096));
            }
            assert forall|t: u64, i: int| #![trigger tags.contains_key(t), pte(self.mem@, t, i)]
                tags.contains_key(t) && 0 <= i < 512 implies pte(self.mem@, t, i) == pte(m, t, i) by {
                assert(tag_ok(m, t, tags[t]));
                lemma_wix_distinct(t, i, r, 0);
                assert(t / 4096 != r / 4096);
            }
            assert forall|rt: u64, u: u64| old(self).valid_root(rt) implies #[trigger] translate(self.mem@, rt, u)
                == translate(m, rt, u) by {
                lemma_untagged_writes(m, self.mem@, tags, rt, u);
            }
            lemma_untagged_writes(m, self.mem@, tags, 0, 0);
        }
        r
    }

    /// Make entry `i` of table `t` lead to a lower table, allocating an empty
    /// one when the entry is absent, and widen its flags by `need`.
    #[verifier::spinoff_prover]
    #[verifier::rlimit(100)]
    fn descend(&mut self, pmm: &mut FrameAllocator, t: u64, i: usize, need: u64) -> (c: u64)
        requires
            old(self).wf(),
            fits(old(self).ram(), old(self).tables(), *old(pmm)),
            old(pmm).is_init(),
            !present(pte(old(self).ram(), t, i as int)) ==> old(pmm).used_count() < old(pmm).highest_frame(),
            old(self).tables().contains_key(t),
            old(self).tables()[t].level >= 2,
            old(self).tables()[t].level == 2 ==> !(present(pte(old(self).ram(), t, i as int)) && huge(
                pte(old(self).ram(), t, i as int))),
            i < 512,
            need & 1 == 1,
            need & 0x80 == 0,
        ensures
            final(self).wf(),
            fits(final(self).ram(), final(self).tables(), *final(pmm)),
            grows(*old(pmm), *final(pmm), old(self).tables(), final(self).tables()),
            final(pmm).is_init() == old(pmm).is_init(),
            final(pmm).highest_frame() == old(pmm).highest_frame(),
            final(pmm).used_count() <= old(pmm).used_count() + 1,
            present(pte(old(self).ram(), t, i as int)) ==> c == entry_addr(pte(old(self).ram(), t, i as int))
                && final(pmm).used_count() == old(pmm).used_count(),
            !present(pte(old(self).ram(), t, i as int)) ==> forall|j: int| 0 <= j < 512 ==> #[trigger] pte(final(self).ram(), c, j) == 0,
            final(self).tables().contains_key(c),
            final(self).tables()[c] == child_tag(old(self).tables()[t], i as int),
            present(pte(final(self).ram(), t, i as int)),
            old(self).tables()[t].level == 2 ==> !huge(pte(final(self).ram(), t, i as int)),
            entry_addr(pte(final(self).ram(), t, i as int)) == c,
            final(self).root() == old(self).root(),
            final(self).kernel_root() == old(self).kernel_root(),
            final(self).loaded() == old(self).loaded(),
            final(self).paging_on() == old(self).paging_on(),
            changed_in_tables(old(self).ram(), final(self).ram(), final(self).tables()),
            keeps_entries(old(self).ram(), final(self).ram(), old(self).tables(), t, i as int),
            keeps_translations(old(self).ram(), final(self).ram(), old(self).tables()),
    {
        proof {
            reveal(keeps_entries);
            reveal(keeps_translations);
            reveal(grows);
            reveal(changed_in_tables);
        }
        let ghost m0 = self.mem@;
        let ghost tags = self.tags@;
        let ghost p0 = *pmm;
        proof {
            assert(tag_ok(m0, t, tags[t]));
        }
        let e = self.read_entry(t, i);
        if !entry_is_present(e) {
            let n = self.alloc_table(pmm);
            let ghost m1 = self.mem@;
            proof {
                lemma_wix_distinct(t, i as int, n, 0);
                assert(wix(t, i as int) / 512 != n / 4096);
                assert(pte(m1, t, i as int) == e);
                lemma_frame_addr(n);
                lemma_make_entry(n, need);
            }
            let ne = entry_new(n, need);
            let k = self.word_index(t, i);
            self.mem.set(k, ne);
            self.tags = Ghost(tags.insert(n, child_tag(tags[t], i as int)));
            proof {
                assert(self.mem@ == m1.update(wix(t, i as int), ne));
                lemma_new_table(m1, tags, t, i as int, n, ne, 0, 0);
                assert forall|rt: u64, u: u64| old(self).valid_root(rt) implies #[trigger] translate(self.mem@, rt, u)
                    == translate(m0, rt, u) by {
                    lemma_new_table(m1, tags, t, i as int, n, ne, rt, u);
                }
                assert(pte(self.mem@, t, i as int) == ne);
                p0.lemma_wf();
                let f = n as int / 4096;
                assert(f * 4096 == n);
                assert((n as u32) as int == n as int);
                assert(pmm.frames() == p0.frames().update(f, true));
                assert forall|g: int| 0 <= g < p0.frames().len() && #[trigger] pmm.frames()[g] != p0.frames()[g] implies {
                    &&& !p0.frames()[g]
                    &&& self.tags@.contains_key((g * 4096) as u64)
                    &&& !tags.contains_key((g * 4096) as u64)
                } by {
                    assert(g == f);
                }
                assert forall|k2: int| 0 <= k2 < m0.len() && #[trigger] self.mem@[k2] != m0[k2]
                    implies self.tags@.contains_key(((k2 / 512) * 4096) as u64) by {
                    if k2 / 512 == n / 4096 {
                        assert(((k2 / 512) * 4096) as u64 == n);
                    } else {
                        assert(k2 == wix(t, i as int));
                        assert(tag_ok(m0, t, tags[t]));
                        assert(((k2 / 512) * 4096) as u64 == t);
                    }
                }
                assert forall|tt: u64| #[trigger] self.tags@.contains_key(tt) implies {
                    &&& (tt / 4096) < pmm.highest_frame()
                    &&& pmm.frames()[tt as int / 4096]
                } by {
                    if tt != n {
                        assert(tags.contains_key(tt));
                        assert(tt / 4096 != n / 4096) by {
                            assert(tag_ok(m0, tt, tags[tt]));
                        }
                    }
                }
                assert forall|tt: u64, j: int| tags.contains_key(tt) && 0 <= j < 512 && (tt != t || j != i)
                    implies #[trigger] pte(self.mem@, tt, j) == pte(m0, tt, j) by {
                    assert(tag_ok(m0, tt, tags[tt]));
                    lemma_wix_distinct(tt, j, n, 0);
                    assert(tt / 4096 != n / 4096);
                    lemma_pte_frame(m1, t, i as int, ne, tt, j);
                }
                assert(tag_ok(m0, t, tags[t]));
                assert forall|j: int| 0 <= j < 512 implies #[trigger] pte(self.mem@, n, j) == 0 by {
                    lemma_wix_distinct(t, i as int, n, j);
                    assert(pte(m1, n, j) == 0);
                }
            }
            n
        } else {
            proof {
                lemma_upgrade(e, need);
            }
            let ne = entry_new(entry_get_addr(e), entry_get_flags(e) | need);
            let k = self.word_index(t, i);
            self.mem.set(k, ne);
            proof {
                assert(self.mem@ == m0.update(wix(t, i as int), ne));
                lemma_same_meaning(m0, tags, t, i as int, ne, 0, 0);
                assert forall|rt: u64, u: u64| old(self).valid_root(rt) implies #[trigger] translate(self.mem@, rt, u)
                    == translate(m0, rt, u) by {
                    lemma_same_meaning(m0, tags, t, i as int, ne, rt, u);
                }
                assert(pte(self.mem@, t, i as int) == ne);
                assert(points_down(tags[t], e));
                assert forall|k2: int| 0 <= k2 < m0.len() && #[trigger] self.mem@[k2] != m0[k2]
                    implies self.tags@.contains_key(((k2 / 512) * 4096) as u64) by {
                    assert(k2 == wix(t, i as int));
                    assert(((k2 / 512) * 4096) as u64 == t);
                }
                assert forall|tt: u64, j: int| tags.contains_key(tt) && 0 <= j < 512 && (tt != t || j != i)
                    implies #[trigger] pte(self.mem@, tt, j) == pte(m0, tt, j) by {
                    assert(tag_ok(m0, tt, tags[tt]));
                    lemma_pte_frame(m0, t, i as int, ne, tt, j);
                }
            }
            entry_get_addr(e)
        }
    }

    /// Replace the 2 MiB entry `i` of page directory `t` by a page table that
    /// maps the same 512 frames (flags: present, writable, and user where the
    /// old entry or `flags` had it).
    #[verifier::spinoff_prover]
    #[verifier::rlimit(100)]
    fn split_huge(&mut self, pmm: &mut FrameAllocator, t: u64, i: usize, need: u64, flags: u64) -> (c: u64)
        requires
            old(self).wf(),
            fits(old(self).ram(), old(self).tables(), *old(pmm)),
            old(pmm).is_init(),
            old(pmm).used_count() < old(pmm).highest_frame(),
            old(self).tables().contains_key(t),
            old(self).tables()[t].level == 2,
            present(pte(old(self).ram(), t, i as int)),
            huge(pte(old(self).ram(), t, i as int)),
            i < 512,
            need & 1 == 1,
            need & 0x80 == 0,
        ensures
            final(self).wf(),
            fits(final(self).ram(), final(self).tables(), *final(pmm)),
            grows(*old(pmm), *final(pmm), old(self).tables(), final(self).tables()),
            final(pmm).is_init() == old(pmm).is_init(),
            final(pmm).highest_frame() == old(pmm).highest_frame(),
            final(pmm).used_count() <= old(pmm).used_count() + 1,
            final(self).tables().contains_key(c),
            final(self).tables()[c] == child_tag(old(self).tables()[t], i as int),
            present(pte(final(self).ram(), t, i as int)),
            !huge(pte(final(self).ram(), t, i as int)),
            entry_addr(pte(final(self).ram(), t, i as int)) == c,
            final(self).root() == old(self).root(),
            final(self).kernel_root() == old(self).kernel_root(),
            final(self).loaded() == old(self).loaded(),
            final(self).paging_on() == old(self).paging_on(),
            changed_in_tables(old(self).ram(), final(self).ram(), final(self).tables()),
            keeps_entries(old(self).ram(), final(self).ram(), old(self).tables(), t, i as int),
            keeps_translations(old(self).ram(), final(self).ram(), old(self).tables()),
    {
        proof {
            reveal(keeps_entries);
            reveal(keeps_translations);
            reveal(grows);
            reveal(changed_in_tables);
        }
        let ghost m0 = self.mem@;
        let ghost tags = self.tags@;
        let ghost p0 = *pmm;
        proof {
            assert(tag_ok(m0, t, tags[t]));
        }
        let e = self.read_entry(t, i);
        let base = e & !0x1F_FFFFu64;
        let lf = PAGE_PRESENT | PAGE_WRITABLE | (entry_get_flags(e) & PAGE_USER) | (flags & PAGE_USER);
        assert(lf & 1 == 1) by (bit_vector)
            requires
                lf == 1u64 | 2u64 | ((e & 0xFFF) & 4u64) | (flags & 4u64),
        ;
        let n = self.alloc_table(pmm);
        let ghost m1 = self.mem@;
        proof {
            lemma_wix_distinct(t, i as int, n, 0);
            assert(wix(t, i as int) / 512 != n / 4096);
            assert(pte(m1, t, i as int) == e);
            lemma_frame_addr(n);
            lemma_make_entry(n, need);
        }
        let wb = self.word_index(n, 0);
        proof {
            lemma_split_bits(e, 0);
        }
        let mut j: usize = 0;
        while j < 512
            invariant
                j <= 512,
                wb == wix(n, 0),
                wb + 512 <= self.mem@.len(),
                self.mem@.len() == m1.len(),
                n % 4096 == 0,
                base == e & !0x1F_FFFFu64,
                base <= 0xFFFF_FFFF_FFE0_0000u64,
                self.pml4 == old(self).pml4,
                self.kernel == old(self).kernel,
                self.cr3 == old(self).cr3,
                self.enabled == old(self).enabled,
                self.tags@ == tags,
                forall|k: int| 0 <= k < m1.len() ==> #[trigger] self.mem@[k] == (
                    if wb <= k < wb + j { make_entry((base + (k - wb) * 4096) as u64, lf) } else { m1[k] }),
            decreases 512 - j,
        {
            proof {
                lemma_split_bits(e, 0);
            }
            let p = base + (j as u64) * 4096;
            let ne = entry_new(p, lf);
            self.mem.set(wb + j, ne);
            j = j + 1;
        }
        let ghost m2 = self.mem@;
        proof {
            lemma_split_bits(e, 0);
            assert forall|jj: int| 0 <= jj < 512 implies #[trigger] pte(m2, n, jj) == make_entry(
                ((pte(m2, t, i as int) & !0x1F_FFFFu64) + jj * 4096) as u64, lf) by {
                assert(wix(n, jj) == wb + jj);
                assert(wix(t, i as int) < wb || wix(t, i as int) >= wb + 512);
            }
            assert forall|tt: u64, ii: int| #![trigger tags.contains_key(tt), pte(m2, tt, ii)]
                tags.contains_key(tt) && 0 <= ii < 512 implies pte(m2, tt, ii) == pte(m1, tt, ii) by {
                assert(tag_ok(m1, tt, tags[tt]));
                lemma_wix_distinct(tt, ii, n, 0);
                assert(tt / 4096 != n / 4096);
            }
            lemma_untagged_writes(m1, m2, tags, 0, 0);
            assert(pte(m2, t, i as int) == e);
        }
        let ne = entry_new(n, need);
        let k = self.word_index(t, i);
        self.mem.set(k, ne);
        self.tags = Ghost(tags.insert(n, child_tag(tags[t], i as int)));
        proof {
            assert(self.mem@ == m2.update(wix(t, i as int), ne));
            lemma_split(m2, tags, t, i as int, n, lf, ne, 0, 0);
            assert forall|rt: u64, u: u64| old(self).valid_root(rt) implies #[trigger] translate(self.mem@, rt, u)
                == translate(m0, rt, u) by {
                lemma_split(m2, tags, t, i as int, n, lf, ne, rt, u);
                lemma_untagged_writes(m1, m2, tags, rt, u);
            }
            assert(pte(self.mem@, t, i as int) == ne);
            p0.lemma_wf();
            let f = n as int / 4096;
            assert(f * 4096 == n);
            assert((n as u32) as int == n as int);
            assert(pmm.frames() == p0.frames().update(f, true));
            assert forall|g: int| 0 <= g < p0.frames().len() && #[trigger] pmm.frames()[g] != p0.frames()[g] implies {
                &&& !p0.frames()[g]
                &&& self.tags@.contains_key((g * 4096) as u64)
                &&& !tags.contains_key((g * 4096) as u64)
            } by {
                assert(g == f);
            }
            assert forall|k2: int| 0 <= k2 < m0.len() && #[trigger] self.mem@[k2] != m0[k2]
                implies self.tags@.contains_key(((k2 / 512) * 4096) as u64) by {
                if k2 / 512 == n / 4096 {
                    assert(((k2 / 512) * 4096) as u64 == n);
                } else if wb <= k2 < wb + 512 {
                } else {
                    assert(k2 == wix(t, i as int));
                    assert(((k2 / 512) * 4096) as u64 == t);
                }
            }
            assert forall|tt: u64| #[trigger] self.tags@.contains_key(tt) implies {
                &&& (tt / 4096) < pmm.highest_frame()
                &&& pmm.frames()[tt as int / 4096]
            } by {
                if tt != n {
                    assert(tags.contains_key(tt));
                    assert(tt / 4096 != n / 4096) by {
                        assert(tag_ok(m0, tt, tags[tt]));
                    }
                }
            }
            assert forall|tt: u64, jj: int| tags.contains_key(tt) && 0 <= jj < 512 && (tt != t || jj != i)
                implies #[trigger] pte(self.mem@, tt, jj) == pte(m0, tt, jj) by {
                assert(tag_ok(m0, tt, tags[tt]));
                lemma_wix_distinct(tt, jj, n, 0);
                assert(tt / 4096 != n / 4096);
                lemma_pte_frame(m2, t, i as int, ne, tt, jj);
                assert(pte(m2, tt, jj) == pte(m1, tt, jj));
            }
        }
        n
    }

    /// Map the 4 KiB page at `virt` to `phys` in the tables rooted at `pml4`:
    /// missing levels get fresh tables, a 2 MiB page on the way is split into
    /// 4 KiB pages, every level on the way gains present, writable and (for a
    /// user page) user, and the leaf becomes `phys` with `flags` and present.
    #[verifier::spinoff_prover]
    #[verifier::rlimit(100)]
    pub fn map_page_in(&mut self, pmm: &mut FrameAllocator, pml4: u64, virt: u64, phys: PhysAddr, flags: u64)
        requires
            old(self).wf(),
            fits(old(self).ram(), old(self).tables(), *old(pmm)),
            old(pmm).is_init(),
            old(pmm).used_count() + walk_allocs(old(self).ram(), pml4, virt) <= old(pmm).highest_frame(),
            pml4 != 0,
            is_root_of(old(self).tables(), pml4),
            virt % 4096 == 0,
            phys.0 % 4096 == 0,
        ensures
            final(self).wf(),
            fits(final(self).ram(), final(self).tables(), *final(pmm)),
            grows(*old(pmm), *final(pmm), old(self).tables(), final(self).tables()),
            final(pmm).is_init() == old(pmm).is_init(),
            final(pmm).highest_frame() == old(pmm).highest_frame(),
            final(pmm).used_count() <= old(pmm).used_count() + walk_allocs(old(self).ram(), pml4, virt),
            final(self).root() == old(self).root(),
            final(self).kernel_root() == old(self).kernel_root(),
            final(self).loaded() == old(self).loaded(),
            final(self).paging_on() == old(self).paging_on(),
            changed_in_tables(old(self).ram(), final(self).ram(), final(self).tables()),
            leaf_entry(final(self).ram(), pml4, virt) == make_entry(phys.0 as u64, flags | 1),
            !huge_mapped(final(self).ram(), pml4, virt),
            forall|rt: u64, u: u64| old(self).valid_root(rt) ==> #[trigger] translate(final(self).ram(), rt, u) == (
                if rt == pml4 && same_page(u, virt) {
                    Some((phys.0 as u64) | (u & 0xFFF))
                } else {
                    translate(old(self).ram(), rt, u)
                }),
    {
        let ghost m0 = self.mem@;
        let ghost tags0 = self.tags@;
        let need = PAGE_PRESENT | PAGE_WRITABLE | (flags & PAGE_USER);
        assert(need & 1 == 1 && need & 0x80 == 0) by (bit_vector)
            requires
                need == 1u64 | 2u64 | (flags & 4u64),
        ;
        let i4 = pml4_index(virt);
        let i3 = pdpt_index(virt);
        let i2 = pd_index(virt);
        let i1 = pt_index(virt);
        let ghost p0 = *pmm;
        let ghost e4 = pte(m0, pml4, i4 as int);
        let ghost e3 = pte(m0, entry_addr(e4), i3 as int);
        proof {
            assert(tag_ok(m0, pml4, tags0[pml4]));
            if present(e4) {
                assert(points_down(tags0[pml4], e4));
                assert(tags0.contains_key(entry_addr(e4)) && tags0[entry_addr(e4)].level == 3);
                if present(e3) {
                    assert(points_down(tags0[entry_addr(e4)], e3));
                    assert(tags0.contains_key(entry_addr(e3)) && tags0[entry_addr(e3)].level == 2);
                }
            }
        }
        let t3 = self.descend(pmm, pml4, i4, need);
        let ghost pa0 = *pmm;
        let ghost ma = self.mem@;
        let ghost tagsa = self.tags@;
        proof {
            lemma_grows_tags(p0, pa0, tags0, tagsa);
            if present(e4) {
                reveal(keeps_entries);
                assert(pte(ma, t3, i3 as int) == e3);
            } else {
                assert(pte(ma, t3, i3 as int) == 0);
                assert(!present(0u64)) by (bit_vector);
            }
        }
        let t2 = self.descend(pmm, t3, i3, need);
        let ghost pb0 = *pmm;
        let ghost mb = self.mem@;
        let ghost tagsb = self.tags@;
        proof {
            lemma_grows_tags(pa0, pb0, tagsa, tagsb);
            if present(e4) && present(e3) {
                reveal(keeps_entries);
                assert(t2 == entry_addr(e3));
                assert(pte(mb, t2, i2 as int) == pte(ma, t2, i2 as int));
                assert(pte(ma, t2, i2 as int) == pte(m0, t2, i2 as int));
            } else {
                assert(pte(mb, t2, i2 as int) == 0);
                assert(!present(0u64) && !huge(0u64)) by (bit_vector);
            }
        }
        let e2 = self.read_entry(t2, i2);
        let t1 = if entry_is_present(e2) && entry_is_huge(e2) {
            self.split_huge(pmm, t2, i2, need, flags)
        } else {
            self.descend(pmm, t2, i2, need)
        };
        let ghost mc = self.mem@;
        let ghost tagsc = self.tags@;
        let pa = phys.0 as u64;
        let le = entry_new(pa, flags | PAGE_PRESENT);
        proof {
            lemma_make_entry(pa, flags | 1);
            lemma_frame_addr(pa);
            assert((flags | 1) & 1 != 0) by (bit_vector);
            assert(tag_ok(mc, t1, tagsc[t1]));
        }
        let k = self.word_index(t1, i1);
        self.mem.set(k, le);
        proof {
            lemma_grows_tags(p0, pa0, tags0, tagsa);
            lemma_grows_tags(pa0, pb0, tagsa, tagsb);
            lemma_grows_tags(pb0, *pmm, tagsb, tagsc);
            assert(tagsc.contains_key(pml4) && tagsc[pml4] == tags0[pml4]);
            assert(tagsb[t3].level == 3 && tagsc[t3] == tagsb[t3]);
            assert(tagsc[t2].level == 2);
            assert(pte(mc, pml4, i4 as int) == pte(ma, pml4, i4 as int)) by {
                reveal(keeps_entries);
                assert(pte(mc, pml4, i4 as int) == pte(mb, pml4, i4 as int));
                assert(pte(mb, pml4, i4 as int) == pte(ma, pml4, i4 as int));
            }
            assert(pte(mc, t3, i3 as int) == pte(mb, t3, i3 as int)) by {
                reveal(keeps_entries);
            }
            lemma_leaf_map(mc, tagsc, pml4, virt, t3, t2, t1, le);
            lemma_chain_translate(m0, ma, mb, mc, self.mem@, tags0, tagsa, tagsb, tagsc, pml4, virt, pa);
            lemma_chain_frames(m0, ma, mb, mc, self.mem@, tags0, tagsa, tagsb, tagsc, p0, pa0, pb0, *pmm, t1, i1 as int, le);
        }
    }

    /// Frames that mapping a page at `virt` under `pml4` takes for new
    /// tables (see `walk_allocs`); a caller tests it against the free
    /// frames before mapping.
    pub fn tables_needed(&self, pml4: u64, virt: u64) -> (r: usize)
        requires
            self.wf(),
            is_root_of(self.tables(), pml4),
        ensures
            r == walk_allocs(self.ram(), pml4, virt),
    {
        let ghost tags = self.tags@;
        let e4 = self.read_entry(pml4, pml4_index(virt));
        if !entry_is_present(e4) {
            return 3;
        }
        proof {
            assert(points_down(tags[pml4], e4));
        }
        let t3 = entry_get_addr(e4);
        let e3 = self.read_entry(t3, pdpt_index(virt));
        if !entry_is_present(e3) {
            return 2;
        }
        proof {
            assert(tags[t3].level == 3);
            assert(points_down(tags[t3], e3));
        }
        let t2 = entry_get_addr(e3);
        let e2 = self.read_entry(t2, pd_index(virt));
        if !entry_is_present(e2) || entry_is_huge(e2) {
            1
        } else {
            0
        }
    }

    /// Map one 4 KiB page in the current address space.
    pub fn map_page(&mut self, pmm: &mut FrameAllocator, virt: u64, phys: PhysAddr, flags: u64)
        requires
            old(self).wf(),
            fits(old(self).ram(), old(self).tables(), *old(pmm)),
            old(pmm).is_init(),
            old(pmm).used_count() + walk_allocs(old(self).ram(), old(self).root(), virt) <= old(pmm).highest_frame(),
            old(self).root() != 0,
            virt % 4096 == 0,
            phys.0 % 4096 == 0,
        ensures
            final(self).wf(),
            fits(final(self).ram(), final(self).tables(), *final(pmm)),
            grows(*old(pmm), *final(pmm), old(self).tables(), final(self).tables()),
            final(pmm).used_count() <= old(pmm).used_count() + walk_allocs(old(self).ram(), old(self).root(), virt),
            final(self).root() == old(self).root(),
            final(self).kernel_root() == old(self).kernel_root(),
            final(self).loaded() == old(self).loaded(),
            final(self).paging_on() == old(self).paging_on(),
            changed_in_tables(old(self).ram(), final(self).ram(), final(self).tables()),
            leaf_entry(final(self).ram(), old(self).root(), virt) == make_entry(phys.0 as u64, flags | 1),
            !huge_mapped(final(self).ram(), old(self).root(), virt),
            forall|rt: u64, u: u64| old(self).valid_root(rt) ==> #[trigger] translate(final(self).ram(), rt, u) == (
                if rt == old(self).root() && same_page(u, virt) {
                    Some((phys.0 as u64) | (u & 0xFFF))
                } else {
                    translate(old(self).ram(), rt, u)
                }),
    {
        let pml4 = self.pml4;
        self.map_page_in(pmm, pml4, virt, phys, flags);
    }

    /// Identity-map `[0, len)` under `pml4` with 2 MiB pages (present,
    /// writable, size bit), building the upper levels as needed.
    #[verifier::spinoff_prover]
    #[verifier::rlimit(100)]
    fn identity_map_2m(&mut self, pmm: &mut FrameAllocator, pml4: u64, len: u64)
        requires
            old(self).wf(),
            fits(old(self).ram(), old(self).tables(), *old(pmm)),
            old(pmm).is_init(),
            pml4 != 0,
            is_root_of(old(self).tables(), pml4),
            len % 0x20_0000 == 0,
            len <= 0x8000_0000_0000,
            old(pmm).used_count() + 2 * ((len + 0x3FFF_FFFF) / 0x4000_0000) <= old(pmm).highest_frame(),
        ensures
            final(self).wf(),
            fits(final(self).ram(), final(self).tables(), *final(pmm)),
            grows(*old(pmm), *final(pmm), old(self).tables(), final(self).tables()),
            final(pmm).is_init() == old(pmm).is_init(),
            final(pmm).highest_frame() == old(pmm).highest_frame(),
            final(self).root() == old(self).root(),
            final(self).kernel_root() == old(self).kernel_root(),
            final(self).loaded() == old(self).loaded(),
            final(self).paging_on() == old(self).paging_on(),
            changed_in_tables(old(self).ram(), final(self).ram(), final(self).tables()),
            len > 0 ==> translate(final(self).ram(), pml4, 0x10_0000) == Some(0x10_0000u64),
    {
        let ghost m0 = self.mem@;
        let ghost tags0 = self.tags@;
        let ghost p0 = *pmm;
        proof {
            lemma_grows_refl(p0, tags0);
            lemma_changed_refl(m0, tags0);
            lemma_block0_entry();
        }
        assert(3u64 & 1 == 1 && 3u64 & 0x80 == 0 && 1u64 | 2u64 | 128u64 == 0x83u64 && 0x83u64 & 0x80 != 0
            && 0x83u64 & 1 != 0) by (bit_vector);
        let mut addr: u64 = 0;
        while addr < len
            invariant
                self.wf(),
                fits(self.mem@, self.tags@, *pmm),
                pmm.is_init(),
                pmm.highest_frame() == p0.highest_frame(),
                grows(p0, *pmm, tags0, self.tags@),
                changed_in_tables(m0, self.mem@, self.tags@),
                self.tags@.contains_key(pml4),
                self.tags@[pml4] == tags0[pml4],
                pml4 != 0,
                is_root_of(tags0, pml4),
                self.pml4 == old(self).pml4,
                self.kernel == old(self).kernel,
                self.cr3 == old(self).cr3,
                self.enabled == old(self).enabled,
                addr <= len,
                addr % 0x4000_0000 == 0 || addr == len,
                len % 0x20_0000 == 0,
                len <= 0x8000_0000_0000,
                addr % 0x20_0000 == 0,
                3u64 & 1 == 1,
                3u64 & 0x80 == 0,
                1u64 | 2u64 | 128u64 == 0x83u64,
                0x83u64 & 0x80 != 0,
                0x83u64 & 1 != 0,
                pmm.used_count() + 2 * ((len + 0x3FFF_FFFF) / 0x4000_0000) <= p0.highest_frame() + 2 * ((addr + 0x3FFF_FFFF) / 0x4000_0000),
                addr > 0 ==> translate(self.mem@, pml4, 0x10_0000) == Some(0x10_0000u64),
            decreases len - addr,
        {
            let ghost ms = self.mem@;
            let ghost ts = self.tags@;
            let ghost ps = *pmm;
            assert(addr / 0x4000_0000 < (len + 0x3FFF_FFFF) / 0x4000_0000);
            assert((addr + 0x3FFF_FFFF) / 0x4000_0000 == addr / 0x4000_0000);
            let t3 = self.descend(pmm, pml4, pml4_index(addr), PAGE_KERNEL_RW);
            let ghost ma = self.mem@;
            let ghost ta = self.tags@;
            let ghost pa0 = *pmm;
            let t2 = self.descend(pmm, t3, pdpt_index(addr), PAGE_KERNEL_RW);
            let ghost mb = self.mem@;
            let ghost tb = self.tags@;
            proof {
                lemma_grows_tags(ps, pa0, ts, ta);
                lemma_grows_tags(pa0, *pmm, ta, tb);
                lemma_grows_trans(p0, ps, pa0, tags0, ts, ta);
                lemma_grows_trans(p0, pa0, *pmm, tags0, ta, tb);
                lemma_changed_trans(m0, ms, ma, ts, ta);
                lemma_changed_trans(m0, ma, mb, ta, tb);
                reveal(keeps_translations);
                assert(ts.contains_key(pml4) && ta.contains_key(pml4) && ta[pml4] == ts[pml4]);
                assert(translate(mb, pml4, 0x10_0000) == translate(ms, pml4, 0x10_0000));
                assert(pte(mb, pml4, idx4(addr)) == pte(ma, pml4, idx4(addr))) by {
                    reveal(keeps_entries);
                }
                assert(tb[t2].level == 2);
                assert(tb[t3] == ta[t3]);
                lemma_changed_refl(mb, tb);
                lemma_block0_entry();
            }
            let g_end = addr + 0x4000_0000;
            let ghost first = addr;
            while addr < len && addr < g_end
                invariant
                    self.wf(),
                    fits(self.mem@, self.tags@, *pmm),
                    self.tags@ == tb,
                    *pmm == *old(pmm) || true,
                    self.pml4 == old(self).pml4,
                    self.kernel == old(self).kernel,
                    self.cr3 == old(self).cr3,
                    self.enabled == old(self).enabled,
                    changed_in_tables(mb, self.mem@, tb),
                    tb.contains_key(t2),
                    tb[t2].level == 2,
                    tb[t2] == child_tag(tb[t3], idx3(first)),
                    tb.contains_key(t3),
                    tb[t3].level == 3,
                    tb[t3] == child_tag(tb[pml4], idx4(first)),
                    1u64 | 2u64 | 128u64 == 0x83u64,
                    0x83u64 & 0x80 != 0,
                    0x83u64 & 1 != 0,
                    tb.contains_key(pml4),
                    tb[pml4] == tags0[pml4],
                    is_root_of(tags0, pml4),
                    pml4 != 0,
                    first % 0x4000_0000 == 0,
                    first <= addr <= len,
                    addr <= g_end,
                    g_end == first + 0x4000_0000,
                    len <= 0x8000_0000_0000,
                    len % 0x20_0000 == 0,
                    addr % 0x20_0000 == 0,
                    first == 0 ==> present(pte(self.mem@, pml4, 0)) && entry_addr(pte(self.mem@, pml4, 0)) == t3,
                    first == 0 ==> present(pte(self.mem@, t3, 0)) && entry_addr(pte(self.mem@, t3, 0)) == t2,
                    first == 0 ==> idx4(first) == 0 && idx3(first) == 0,
                    addr > 0 ==> translate(self.mem@, pml4, 0x10_0000) == Some(0x10_0000u64),
                decreases g_end - addr,
            {
                let ghost mi = self.mem@;
                let i2 = pd_index(addr);
                let e = entry_new(addr, PAGE_PRESENT | PAGE_WRITABLE | PAGE_SIZE_2M);
                proof {
                    lemma_make_entry(addr, 0x83);
                    assert(tag_ok(mi, t2, tb[t2]));
                }
                let k = self.word_index(t2, i2);
                self.mem.set(k, e);
                proof {
                    assert(self.mem@ == mi.update(wix(t2, i2 as int), e));
                    lemma_leaf_write_wf(mi, tb, t2, i2 as int, e);
                    if addr > 0 {
                        lemma_nonzero_block(addr);
                        lemma_same_block(first, addr);
                        lemma_idx_bounds(first);
                        lemma_block0_entry();
                        assert(tag_ok(mi, pml4, tb[pml4]));
                        assert(!reads(tb[t2], i2 as int, pml4, 0x10_0000));
                        lemma_write_frame(mi, tb, t2, i2 as int, e, pml4, 0x10_0000);
                    } else {
                        lemma_block0_entry();
                        assert(tag_ok(mi, pml4, tb[pml4]));
                        assert(tag_ok(mi, t3, tb[t3]));
                        lemma_pte_frame(mi, t2, 0, e, pml4, 0);
                        lemma_pte_frame(mi, t2, 0, e, t3, 0);
                        assert(pte(self.mem@, t2, 0) == e);
                    }
                    if first == 0 {
                        assert(tag_ok(mi, pml4, tb[pml4]));
                        assert(tag_ok(mi, t3, tb[t3]));
                        lemma_pte_frame(mi, t2, i2 as int, e, pml4, 0);
                        lemma_pte_frame(mi, t2, i2 as int, e, t3, 0);
                    }
                    assert(changed_in_tables(mi, self.mem@, tb)) by {
                        reveal(changed_in_tables);
                        assert forall|k2: int| 0 <= k2 < mi.len() && #[trigger] self.mem@[k2] != mi[k2]
                            implies tb.contains_key(((k2 / 512) * 4096) as u64) by {
                            assert(k2 == wix(t2, i2 as int));
                            assert(((k2 / 512) * 4096) as u64 == t2);
                        }
                    }
                    lemma_changed_trans(mb, mi, self.mem@, tb, tb);
                }
                addr = addr + 0x20_0000;
            }
            proof {
                lemma_changed_trans(m0, mb, self.mem@, tb, tb);
                assert((addr + 0x3FFF_FFFF) / 0x4000_0000 == first / 0x4000_0000 + 1);
            }
        }
    }

    /// Build the kernel page tables: a new root that identity-maps the first
    /// `boot_map_len` bytes with 2 MiB pages, which becomes the software root,
    /// the kernel root and the loaded root; paging is then on.  Does nothing
    /// when paging is already on.
    pub fn init(&mut self, pmm: &mut FrameAllocator, kernel_end: u64)
        requires
            old(self).wf(),
            fits(old(self).ram(), old(self).tables(), *old(pmm)),
            old(pmm).is_init(),
            old(pmm).frames()[0],
            kernel_end <= 0x7FFF_0000_0000,
            !(old(self).paging_on() && old(self).root() != 0) ==> old(pmm).used_count() + 1 + 2 * ((boot_map_len(
                old(pmm).total_count(), kernel_end) + 0x3FFF_FFFF) / 0x4000_0000) <= old(pmm).highest_frame(),
        ensures
            final(self).wf(),
            fits(final(self).ram(), final(self).tables(), *final(pmm)),
            old(self).paging_on() && old(self).root() != 0 ==> *final(self) == *old(self) && *final(pmm) == *old(pmm),
            !(old(self).paging_on() && old(self).root() != 0) ==> {
                &&& grows(*old(pmm), *final(pmm), old(self).tables(), final(self).tables())
                &&& changed_in_tables(old(self).ram(), final(self).ram(), final(self).tables())
                &&& final(self).root() != 0
                &&& !old(self).tables().contains_key(final(self).root())
                &&& is_root_of(final(self).tables(), final(self).root())
                &&& final(self).kernel_root() == final(self).root()
                &&& final(self).loaded() == final(self).root()
                &&& final(self).paging_on()
                &&& translate(final(self).ram(), final(self).root(), 0x10_0000) == Some(0x10_0000u64)
            },
    {
        if self.enabled && self.pml4 != 0 {
            return;
        }
        let ghost m0 = self.mem@;
        let ghost tags0 = self.tags@;
        let ghost p0 = *pmm;
        let pml4 = self.alloc_table(pmm);
        let ghost p1 = *pmm;
        proof {
            assert(pml4 != 0);
            lemma_add_root(self.mem@, tags0, pml4);
            p0.lemma_wf();
            let f = pml4 as int / 4096;
            assert(f * 4096 == pml4);
            assert((pml4 as u32) as int == pml4 as int);
            assert(p1.frames() == p0.frames().update(f, true));
        }
        self.tags = Ghost(tags0.insert(pml4, TableTag { root: pml4, level: 4, i4: 0, i3: 0, i2: 0 }));
        self.pml4 = pml4;
        self.kernel = pml4;
        proof {
            assert forall|tt: u64| #[trigger] self.tags@.contains_key(tt) implies {
                &&& (tt / 4096) < pmm.highest_frame()
                &&& pmm.frames()[tt as int / 4096]
            } by {
                if tt != pml4 {
                    assert(tags0.contains_key(tt));
                    assert(tt / 4096 != pml4 / 4096) by {
                        assert(tag_ok(m0, tt, tags0[tt]));
                    }
                }
            }
            assert(grows(p0, p1, tags0, self.tags@)) by {
                reveal(grows);
                assert forall|g: int| 0 <= g < p0.frames().len() && #[trigger] p1.frames()[g] != p0.frames()[g] implies {
                    &&& !p0.frames()[g]
                    &&& self.tags@.contains_key((g * 4096) as u64)
                    &&& !tags0.contains_key((g * 4096) as u64)
                } by {
                    assert(g == pml4 as int / 4096);
                }
            }
            assert(changed_in_tables(m0, self.mem@, self.tags@)) by {
                reveal(changed_in_tables);
                assert forall|k2: int| 0 <= k2 < m0.len() && #[trigger] self.mem@[k2] != m0[k2]
                    implies self.tags@.contains_key(((k2 / 512) * 4096) as u64) by {
                    assert(((k2 / 512) * 4096) as u64 == pml4);
                }
            }
            pmm.lemma_wf();
        }
        let mut map_len: u64 = IDENTITY_MAP_BYTES;
        let total = pmm.total_frames() as u64;
        let managed = total * 4096;
        if managed != 0 && managed < map_len {
            map_len = managed;
        }
        let kend = (kernel_end + 4095) / 4096 * 4096;
        let min_map = kend.saturating_add(0x100_0000);
        if map_len < min_map {
            map_len = min_map;
        }
        map_len = (map_len + 0x1F_FFFF) / 0x20_0000 * 0x20_0000;
        assert(map_len == boot_map_len(p0.total_count(), kernel_end));
        assert(map_len > 0);
        let ghost m1 = self.mem@;
        let ghost t1 = self.tags@;
        self.identity_map_2m(pmm, pml4, map_len);
        self.cr3 = pml4;
        self.enabled = true;
        proof {
            lemma_grows_trans(p0, p1, *pmm, tags0, t1, self.tags@);
            lemma_grows_tags(p1, *pmm, t1, self.tags@);
            lemma_changed_trans(m0, m1, self.mem@, t1, self.tags@);
        }
    }

    /// Take a frame from the allocator and map it at `virt` in the current
    /// address space; returns the frame.
    pub fn create_page(&mut self, pmm: &mut FrameAllocator, virt: u64, flags: u64) -> (r: PhysAddr)
        requires
            old(self).wf(),
            fits(old(self).ram(), old(self).tables(), *old(pmm)),
            old(pmm).is_init(),
            old(pmm).used_count() + 1 + walk_allocs(old(self).ram(), old(self).root(), virt) <= old(pmm).highest_frame(),
            old(self).root() != 0,
            virt % 4096 == 0,
        ensures
            final(self).wf(),
            fits(final(self).ram(), final(self).tables(), *final(pmm)),
            r.0 % 4096 == 0,
            !old(pmm).frames()[r.0 as int / 4096],
            forall|g: int| 0 <= g < r.0 as int / 4096 ==> old(pmm).frames()[g],
            final(pmm).frames()[r.0 as int / 4096],
            final(pmm).used_count() <= old(pmm).used_count() + 1 + walk_allocs(old(self).ram(), old(self).root(), virt),
            final(self).root() == old(self).root(),
            final(self).kernel_root() == old(self).kernel_root(),
            final(self).loaded() == old(self).loaded(),
            final(self).paging_on() == old(self).paging_on(),
            leaf_entry(final(self).ram(), old(self).root(), virt) == make_entry(r.0 as u64, flags | 1),
            !huge_mapped(final(self).ram(), old(self).root(), virt),
            forall|rt: u64, u: u64| old(self).valid_root(rt) ==> #[trigger] translate(final(self).ram(), rt, u) == (
                if rt == old(self).root() && same_page(u, virt) {
                    Some((r.0 as u64) | (u & 0xFFF))
                } else {
                    translate(old(self).ram(), rt, u)
                }),
    {
        let ghost p0 = *pmm;
        proof {
            pmm.lemma_wf();
        }
        let frame = match pmm.alloc_frame() {
            Some(f) => f,
            None => {
                proof {
                    lemma_count_all(p0.frames(), p0.highest_frame() as int);
                }
                return PhysAddr(0);
            },
        };
        let ghost p1 = *pmm;
        proof {
            assert forall|t: u64| #[trigger] self.tags@.contains_key(t) implies {
                &&& (t / 4096) < pmm.highest_frame()
                &&& pmm.frames()[t as int / 4096]
            } by {
                assert(p0.frames()[t as int / 4096]);
            }
        }
        self.map_page(pmm, virt, frame, flags);
        proof {
            reveal(grows);
        }
        frame
    }

    /// Load the tables rooted at `cr3` (nothing for 0); the software root
    /// follows.
    pub fn switch_mm(&mut self, cr3: u64)
        requires
            old(self).wf(),
            old(self).valid_root(cr3),
        ensures
            final(self).wf(),
            final(self).ram() == old(self).ram(),
            final(self).tables() == old(self).tables(),
            final(self).kernel_root() == old(self).kernel_root(),
            final(self).paging_on() == old(self).paging_on(),
            cr3 == 0 ==> final(self).root() == old(self).root() && final(self).loaded() == old(self).loaded(),
            cr3 != 0 ==> final(self).root() == cr3 && final(self).loaded() == cr3,
    {
        if cr3 == 0 {
            return;
        }
        if self.cr3 == cr3 {
            self.pml4 = cr3;
            return;
        }
        self.cr3 = cr3;
        self.pml4 = cr3;
    }

    fn read_entry(&self, t: u64, i: usize) -> (r: u64)
        requires
            self.wf(),
            self.tables().contains_key(t),
            i < 512,
        ensures
            r == pte(self.ram(), t, i as int),
    {
        assert(tag_ok(self.mem@, t, self.tags@[t]));
        let k = self.word_index(t, i);
        self.mem[k]
    }

    /// Translate `virt` under the tables rooted at `pml4` (`None` for root 0
    /// or where a level is not present).
    pub fn virt_to_phys_in(&self, pml4: u64, virt: u64) -> (r: Option<u64>)
        requires
            self.wf(),
            self.valid_root(pml4),
        ensures
            r == translate(self.ram(), pml4, virt),
    {
        if pml4 == 0 {
            return None;
        }
        let m = Ghost(self.mem@);
        let e4 = self.read_entry(pml4, pml4_index(virt));
        if !entry_is_present(e4) {
            return None;
        }
        assert(points_down(self.tags@[pml4], e4));
        let t3 = entry_get_addr(e4);
        let e3 = self.read_entry(t3, pdpt_index(virt));
        if !entry_is_present(e3) {
            return None;
        }
        assert(self.tags@[t3].level == 3);
        assert(points_down(self.tags@[t3], e3));
        let t2 = entry_get_addr(e3);
        let e2 = self.read_entry(t2, pd_index(virt));
        if !entry_is_present(e2) {
            return None;
        }
        if entry_is_huge(e2) {
            let base = entry_get_addr(e2) & !0x1F_FFFFu64;
            return Some(base | (virt & 0x1F_FFFF));
        }
        assert(self.tags@[t2].level == 2);
        assert(points_down(self.tags@[t2], e2));
        let t1 = entry_get_addr(e2);
        let e1 = self.read_entry(t1, pt_index(virt));
        if !entry_is_present(e1) {
            return None;
        }
        Some(entry_get_addr(e1) | (virt & 0xFFF))
    }

    /// Translate `virt` in the current address space.
    pub fn virt_to_phys(&self, virt: u64) -> (r: Option<u64>)
        requires
            self.wf(),
        ensures
            r == translate(self.ram(), self.root(), virt),
    {
        self.virt_to_phys_in(self.pml4, virt)
    }

    /// Clear the 4 KiB mapping of `virt` in the current address space; an
    /// unaligned address, a missing level or a 2 MiB page is left alone.
    pub fn unmap_page(&mut self, virt: u64)
        requires
            old(self).wf(),
        ensures
            final(self).wf(),
            final(self).ram() == unmap_ram(old(self).ram(), old(self).root(), virt),
            final(self).tables() == old(self).tables(),
            final(self).root() == old(self).root(),
            final(self).kernel_root() == old(self).kernel_root(),
            final(self).loaded() == old(self).loaded(),
            final(self).paging_on() == old(self).paging_on(),
            forall|r: u64, u: u64| old(self).valid_root(r) ==> #[trigger] translate(final(self).ram(), r, u) == (
                if r == old(self).root() && r != 0 && virt % 4096 == 0 && same_page(u, virt)
                    && !huge_mapped(old(self).ram(), r, virt) {
                    None
                } else {
                    translate(old(self).ram(), r, u)
                }),
    {
        let ghost m = self.mem@;
        let ghost tags = self.tags@;
        let ghost root = self.pml4;
        proof {
            lemma_idx_bounds(virt);
        }
        if virt % 4096 != 0 {
            return;
        }
        let pml4 = self.pml4;
        if pml4 == 0 {
            return;
        }
        let e4 = self.read_entry(pml4, pml4_index(virt));
        if !entry_is_present(e4) {
            assert forall|r: u64, u: u64| old(self).valid_root(r) && r == root && same_page(u, virt)
                implies #[trigger] translate(m, r, u) == None::<u64> by {}
            return;
        }
        assert(points_down(tags[pml4], e4));
        let t3 = entry_get_addr(e4);
        let e3 = self.read_entry(t3, pdpt_index(virt));
        if !entry_is_present(e3) {
            assert forall|r: u64, u: u64| old(self).valid_root(r) && r == root && same_page(u, virt)
                implies #[trigger] translate(m, r, u) == None::<u64> by {}
            return;
        }
        assert(points_down(tags[t3], e3));
        let t2 = entry_get_addr(e3);
        let e2 = self.read_entry(t2, pd_index(virt));
        if !entry_is_present(e2) {
            assert forall|r: u64, u: u64| old(self).valid_root(r) && r == root && same_page(u, virt)
                implies #[trigger] translate(m, r, u) == None::<u64> by {}
            return;
        }
        if entry_is_huge(e2) {
            return;
        }
        assert(points_down(tags[t2], e2));
        let t1 = entry_get_addr(e2);
        let i1 = pt_index(virt);
        assert(tag_ok(m, t1, tags[t1]));
        let k = self.word_index(t1, i1);
        self.mem.set(k, 0);
        proof {
            assert(self.mem@ == m.update(wix(t1, i1 as int), 0));
            lemma_leaf_write_wf(m, tags, t1, i1 as int, 0);
            assert forall|r: u64, u: u64| old(self).valid_root(r) implies #[trigger] translate(self.mem@, r, u) == (
                if r == root && r != 0 && virt % 4096 == 0 && same_page(u, virt)
                    && !huge_mapped(m, r, virt) {
                    None
                } else {
                    translate(m, r, u)
                }) by {
                lemma_idx_bounds(u);
                if reads(tags[t1], i1 as int, r, u) {
                    assert(same_page(u, virt));
                    assert(pte(self.mem@, t1, i1 as int) == 0);
                    lemma_zero_entry();
                } else {
                    lemma_write_frame(m, tags, t1, i1 as int, 0, r, u);
                    if r == root && same_page(u, virt) {
                        assert(reads(tags[t1], i1 as int, r, u));
                    }
                }
            }
        }
    }
}

} // verus!
