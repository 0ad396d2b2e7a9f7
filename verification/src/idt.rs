//! Interrupt descriptor table: 64-bit interrupt gates built from handler
//! addresses, and the 256-entry table they are registered in.

use vstd::prelude::*;
use crate::gdt::KERNEL_CODE_SELECTOR;

verus! {

/// 64-bit interrupt gate: present, DPL 0, type 0xE.
pub const GATE_INTERRUPT_64: u8 = 0x8E;
pub const IDT_ENTRIES: usize = 256;

/// One IDT entry (16 bytes on the CPU side).
#[derive(Clone, Copy, Debug, PartialEq, Eq, Structural)]
pub struct IdtEntry {
    pub offset_low: u16,
    pub selector: u16,
    pub ist: u8,
    pub type_attr: u8,
    pub offset_mid: u16,
    pub offset_high: u32,
    pub reserved: u32,
}

/// The all-zero (absent) gate.
pub open spec fn empty_gate() -> IdtEntry {
    IdtEntry { offset_low: 0, selector: 0, ist: 0, type_attr: 0, offset_mid: 0, offset_high: 0, reserved: 0 }
}

/// The interrupt gate for a handler at `addr` on interrupt stack `ist`
/// (only its low three bits count).
pub open spec fn gate_for(addr: u64, ist: u8) -> IdtEntry {
    IdtEntry {
        offset_low: (addr % 0x1_0000) as u16,
        selector: KERNEL_CODE_SELECTOR,
        ist: (ist % 8) as u8,
        type_attr: GATE_INTERRUPT_64,
        offset_mid: (addr / 0x1_0000 % 0x1_0000) as u16,
        offset_high: (addr / 0x1_0000_0000) as u32,
        reserved: 0,
    }
}

impl IdtEntry {
    pub fn empty() -> (e: IdtEntry)
        ensures
            e == empty_gate(),
    {
        IdtEntry { offset_low: 0, selector: 0, ist: 0, type_attr: 0, offset_mid: 0, offset_high: 0, reserved: 0 }
    }

    /// The handler address the three offset fields spell.
    pub open spec fn handler_addr(&self) -> int {
        self.offset_low + 0x1_0000 * self.offset_mid + 0x1_0000_0000 * self.offset_high
    }

    /// The descriptor for the handler at `addr`.
    pub fn from_handler(addr: u64, ist: u8) -> (e: IdtEntry)
        ensures
            e == gate_for(addr, ist),
    {
        let lo = addr as u16;
        let mid = (addr >> 16) as u16;
        let hi = (addr >> 32) as u32;
        assert(lo == (addr % 0x1_0000) as u16 && mid == (addr / 0x1_0000 % 0x1_0000) as u16 && hi == (addr / 0x1_0000_0000) as u32)
            by (bit_vector)
            requires
                lo == addr as u16,
                mid == (addr >> 16) as u16,
                hi == (addr >> 32) as u32,
        ;
        let i = ist & 0x7;
        assert(i == ist % 8) by (bit_vector)
            requires
                i == ist & 0x7,
        ;
        IdtEntry {
            offset_low: lo,
            selector: KERNEL_CODE_SELECTOR,
            ist: i,
            type_attr: GATE_INTERRUPT_64,
            offset_mid: mid,
            offset_high: hi,
            reserved: 0,
        }
    }

    /// Is the descriptor marked present?
    pub fn is_present(&self) -> (r: bool)
        ensures
            r == (self.type_attr >= 0x80),
    {
        let a = self.type_attr;
        let r = a & 0x80 != 0;
        assert(r == (a >= 0x80)) by (bit_vector)
            requires
                r == (a & 0x80 != 0),
        ;
        r
    }
}

/// A gate splits its handler address without loss.
pub proof fn lemma_gate_addr(addr: u64, ist: u8)
    ensures
        gate_for(addr, ist).handler_addr() == addr,
        gate_for(addr, ist).type_attr >= 0x80,
{
    let lo = addr % 0x1_0000;
    let mid = addr / 0x1_0000 % 0x1_0000;
    let hi = addr / 0x1_0000_0000;
    assert(lo + 0x1_0000 * mid + 0x1_0000_0000 * hi == addr) by (nonlinear_arith)
        requires
            lo == addr % 0x1_0000,
            mid == addr / 0x1_0000 % 0x1_0000,
            hi == addr / 0x1_0000_0000,
    ;
}

/// How many gates of `s` are present.
pub open spec fn present_count(s: Seq<IdtEntry>) -> nat
    decreases s.len(),
{
    if s.len() == 0 {
        0
    } else {
        present_count(s.drop_last()) + if s.last().type_attr >= 0x80 { 1nat } else { 0nat }
    }
}

/// The interrupt descriptor table.
pub struct Idt {
    entries: Vec<IdtEntry>,
}

impl Idt {
    pub closed spec fn view(&self) -> Seq<IdtEntry> {
        self.entries@
    }

    pub closed spec fn wf(&self) -> bool {
        self.entries@.len() == IDT_ENTRIES
    }

    /// A table with every gate absent.
    pub fn init_idt() -> (t: Idt)
        ensures
            t.wf(),
            t.view() == Seq::new(IDT_ENTRIES as nat, |i: int| empty_gate()),
    {
        let mut v: Vec<IdtEntry> = Vec::new();
        while v.len() < IDT_ENTRIES
            invariant
                v@.len() <= IDT_ENTRIES,
                v@ == Seq::new(v@.len(), |i: int| empty_gate()),
            decreases IDT_ENTRIES - v@.len(),
        {
            v.push(IdtEntry::empty());
            assert(v@ =~= Seq::new(v@.len(), |i: int| empty_gate()));
        }
        Idt { entries: v }
    }

    /// Gate `index`.
    pub fn gate(&self, index: u8) -> (e: IdtEntry)
        requires
            self.wf(),
        ensures
            e == self.view()[index as int],
    {
        self.entries[index as usize]
    }

    /// Install the handler at `addr` in gate `index` on interrupt stack `ist`.
    pub fn register_gate(&mut self, index: u8, addr: u64, ist: u8)
        requires
            old(self).wf(),
        ensures
            final(self).wf(),
            final(self).view() == old(self).view().update(index as int, gate_for(addr, ist)),
    {
        let e = IdtEntry::from_handler(addr, ist);
        self.entries.set(index as usize, e);
    }

    /// Install the handler at `addr` in gate `index` on the current stack.
    pub fn register_interrupt_handler(&mut self, index: u8, addr: u64)
        requires
            old(self).wf(),
        ensures
            final(self).wf(),
            final(self).view() == old(self).view().update(index as int, gate_for(addr, 0)),
    {
        self.register_gate(index, addr, 0);
    }

    /// How many gates are present.
    pub fn present_gate_count(&self) -> (n: usize)
        requires
            self.wf(),
        ensures
            n == present_count(self.view()),
    {
        let mut n: usize = 0;
        let mut i: usize = 0;
        while i < IDT_ENTRIES
            invariant
                self.wf(),
                i <= IDT_ENTRIES,
                n <= i,
                n == present_count(self.view().take(i as int)),
            decreases IDT_ENTRIES - i,
        {
            assert(self.view().take(i + 1).drop_last() =~= self.view().take(i as int));
            if self.entries[i].is_present() {
                n = n + 1;
            }
            i = i + 1;
        }
        assert(self.view().take(IDT_ENTRIES as int) =~= self.view());
        n
    }
}

/// Registering a handler makes its gate present and leaves the other gates
/// as they were.
pub proof fn lemma_register_present(before: Seq<IdtEntry>, index: u8, addr: u64, k: int)
    requires
        before.len() == IDT_ENTRIES,
        0 <= k < IDT_ENTRIES,
    ensures
        before.update(index as int, gate_for(addr, 0))[index as int].type_attr >= 0x80,
        before.update(index as int, gate_for(addr, 0))[index as int].handler_addr() == addr,
        k != index ==> before.update(index as int, gate_for(addr, 0))[k] == before[k],
{
    lemma_gate_addr(addr, 0);
}

} // verus!
