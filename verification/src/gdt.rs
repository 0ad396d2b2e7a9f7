//! The 64-bit GDT: null, kernel code and data descriptors, and the 16-byte
//! TSS descriptor in slots 3 and 4; and the TSS fields the kernel sets.

use vstd::prelude::*;

verus! {

/// Number of 8-byte slots (the TSS takes two).
pub const GDT_ENTRIES: usize = 5;
pub const KERNEL_CODE_SELECTOR: u16 = 0x08;
pub const KERNEL_DATA_SELECTOR: u16 = 0x10;
pub const TSS_GDT_INDEX: usize = 3;
pub const TSS_SELECTOR: u16 = 0x28;

/// A standard 8-byte segment descriptor.
#[derive(Clone, Copy, Debug, PartialEq, Eq, Structural)]
pub struct GdtEntry {
    pub limit_low: u16,
    pub base_low: u16,
    pub base_middle: u8,
    pub access: u8,
    pub granularity: u8,
    pub base_high: u8,
}

impl GdtEntry {
    pub fn null() -> (e: Self)
        ensures
            e == (GdtEntry { limit_low: 0, base_low: 0, base_middle: 0, access: 0, granularity: 0, base_high: 0 }),
    {
        GdtEntry { limit_low: 0, base_low: 0, base_middle: 0, access: 0, granularity: 0, base_high: 0 }
    }

    /// 64-bit ring-0 code: present, executable and readable, long mode.
    pub fn kernel_code64() -> (e: Self)
        ensures
            e == (GdtEntry { limit_low: 0xFFFF, base_low: 0, base_middle: 0, access: 0x9A, granularity: 0xAF, base_high: 0 }),
    {
        GdtEntry { limit_low: 0xFFFF, base_low: 0, base_middle: 0, access: 0x9A, granularity: 0xAF, base_high: 0 }
    }

    /// Ring-0 data (still loaded into SS and DS in long mode).
    pub fn kernel_data64() -> (e: Self)
        ensures
            e == (GdtEntry { limit_low: 0xFFFF, base_low: 0, base_middle: 0, access: 0x92, granularity: 0xCF, base_high: 0 }),
    {
        GdtEntry { limit_low: 0xFFFF, base_low: 0, base_middle: 0, access: 0x92, granularity: 0xCF, base_high: 0 }
    }
}

pub fn entry_count() -> (n: usize)
    ensures
        n == GDT_ENTRIES,
{
    GDT_ENTRIES
}

/// The 16-byte system descriptor of a TSS.
#[derive(Clone, Copy, Debug, PartialEq, Eq, Structural)]
pub struct TssDescriptor {
    pub limit_low: u16,
    pub base_low: u16,
    pub base_middle: u8,
    pub access: u8,
    pub granularity: u8,
    pub base_high: u8,
    pub base_upper: u32,
}

/// The descriptor of a TSS at `base` with byte limit `limit`: an available
/// 64-bit TSS (type 0x89) whose base and limit are split over the fields.
pub fn tss_descriptor(base: u64, limit: u32) -> (d: TssDescriptor)
    ensures
        d.limit_low == limit % 0x10000,
        d.granularity == limit / 0x10000 % 16,
        d.base_low == base % 0x10000,
        d.base_middle == base / 0x10000 % 256,
        d.base_high == base / 0x1000000 % 256,
        d.base_upper == base / 0x100000000,
        d.access == 0x89,
{
    let d = TssDescriptor {
        limit_low: (limit & 0xFFFF) as u16,
        base_low: (base & 0xFFFF) as u16,
        base_middle: ((base >> 16) & 0xFF) as u8,
        access: 0x89,
        granularity: ((limit >> 16) & 0x0F) as u8,
        base_high: ((base >> 24) & 0xFF) as u8,
        base_upper: (base >> 32) as u32,
    };
    assert((limit & 0xFFFF) as u16 == limit % 0x10000 && ((limit >> 16) & 0x0F) as u8 == limit / 0x10000 % 16) by (bit_vector);
    assert((base & 0xFFFF) as u16 == base % 0x10000 && ((base >> 16) & 0xFF) as u8 == base / 0x10000 % 256
        && ((base >> 24) & 0xFF) as u8 == base / 0x1000000 % 256 && (base >> 32) as u32 == base / 0x100000000) by (bit_vector);
    d
}

/// The two GDT slots that hold `desc`: the low half as an ordinary entry,
/// the high half carrying bits 32..63 of the base.
pub fn tss_entries(desc: &TssDescriptor) -> (r: (GdtEntry, GdtEntry))
    ensures
        r.0 == (GdtEntry {
            limit_low: desc.limit_low,
            base_low: desc.base_low,
            base_middle: desc.base_middle,
            access: desc.access,
            granularity: desc.granularity,
            base_high: desc.base_high,
        }),
        r.1 == (GdtEntry {
            limit_low: (desc.base_upper % 0x10000) as u16,
            base_low: (desc.base_upper / 0x10000) as u16,
            base_middle: 0,
            access: 0,
            granularity: 0,
            base_high: 0,
        }),
{
    let u = desc.base_upper;
    assert((u & 0xFFFF) as u16 == (u % 0x10000) as u16 && ((u >> 16) & 0xFFFF) as u16 == (u / 0x10000) as u16) by (bit_vector);
    (
        GdtEntry {
            limit_low: desc.limit_low,
            base_low: desc.base_low,
            base_middle: desc.base_middle,
            access: desc.access,
            granularity: desc.granularity,
            base_high: desc.base_high,
        },
        GdtEntry {
            limit_low: (u & 0xFFFF) as u16,
            base_low: ((u >> 16) & 0xFFFF) as u16,
            base_middle: 0,
            access: 0,
            granularity: 0,
            base_high: 0,
        },
    )
}

/// The GDT as loaded: null, kernel code, kernel data, the TSS in slots 3-4.
pub fn gdt_table(tss: &TssDescriptor) -> (t: Vec<GdtEntry>)
    ensures
        t@.len() == GDT_ENTRIES,
        t@[0] == (GdtEntry { limit_low: 0, base_low: 0, base_middle: 0, access: 0, granularity: 0, base_high: 0 }),
        t@[1].access == 0x9A && t@[1].granularity == 0xAF,
        t@[2].access == 0x92 && t@[2].granularity == 0xCF,
        (t@[3], t@[4]) == tss_entries_spec(*tss),
{
    let (lo, hi) = tss_entries(tss);
    let mut t: Vec<GdtEntry> = Vec::new();
    t.push(GdtEntry::null());
    t.push(GdtEntry::kernel_code64());
    t.push(GdtEntry::kernel_data64());
    t.push(lo);
    t.push(hi);
    t
}

pub open spec fn tss_entries_spec(desc: TssDescriptor) -> (GdtEntry, GdtEntry) {
    (
        GdtEntry {
            limit_low: desc.limit_low,
            base_low: desc.base_low,
            base_middle: desc.base_middle,
            access: desc.access,
            granularity: desc.granularity,
            base_high: desc.base_high,
        },
        GdtEntry {
            limit_low: (desc.base_upper % 0x10000) as u16,
            base_low: (desc.base_upper / 0x10000) as u16,
            base_middle: 0,
            access: 0,
            granularity: 0,
            base_high: 0,
        },
    )
}

/// The 64-bit task state segment (the fields the kernel sets).
#[derive(Clone, Copy, Debug, PartialEq, Eq, Structural)]
pub struct Tss {
    /// Stack loaded on a switch from ring 3 to ring 0.
    pub rsp0: u64,
    pub rsp1: u64,
    pub rsp2: u64,
    /// First interrupt stack.
    pub ist0: u64,
    pub iomap_base: u16,
}

/// Size of the hardware TSS in bytes.
pub const TSS_SIZE: u16 = 104;

impl Tss {
    /// A TSS whose ring-0 stack and first interrupt stack are the given tops
    /// and whose I/O map lies past its end (no port access from ring 3).
    pub fn new(kstack_top: u64, ist_top: u64) -> (t: Tss)
        ensures
            t == (Tss { rsp0: kstack_top, rsp1: 0, rsp2: 0, ist0: ist_top, iomap_base: TSS_SIZE }),
    {
        Tss { rsp0: kstack_top, rsp1: 0, rsp2: 0, ist0: ist_top, iomap_base: TSS_SIZE }
    }

    pub fn set_kernel_stack(&mut self, rsp0: u64)
        ensures
            *final(self) == (Tss { rsp0, ..*old(self) }),
    {
        self.rsp0 = rsp0;
    }

    pub fn tss_rsp0(&self) -> (r: u64)
        ensures
            r == self.rsp0,
    {
        self.rsp0
    }
}

} // verus!
