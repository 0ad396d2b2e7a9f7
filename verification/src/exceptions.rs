//! CPU exceptions (vectors 0-31): the frame the entry stubs push, the
//! report text, and the signal a fault raises before the kernel halts.

use vstd::prelude::*;
use vstd::string::StringSliceAdditionalSpecFns;
use crate::console::hex_digit;
use crate::procfs::{dec_str, push_dec, push_all};
use crate::signal::{SignalTable, SignalView, schedule_spec, deliverable, SIG_GPF, SIG_PAGEFAULT};

verus! {

/// Stack layout the exception entry stubs build after `pusha`; the
/// lowest address (EDI) comes first.
#[derive(Clone, Copy, Debug)]
pub struct ExceptionFrame {
    pub edi: u32,
    pub esi: u32,
    pub ebp: u32,
    pub esp_dummy: u32,
    pub ebx: u32,
    pub edx: u32,
    pub ecx: u32,
    pub eax: u32,
    pub vector: u32,
    pub error_code: u32,
    pub eip: u32,
    pub cs: u32,
    pub eflags: u32,
}

/// Name of exception `vector`.
pub open spec fn exception_name_spec(vector: u32) -> Seq<u8> {
    match vector {
        0 => "Divide-by-zero (#DE)".spec_bytes(),
        1 => "Debug (#DB)".spec_bytes(),
        2 => "Non-maskable interrupt (NMI)".spec_bytes(),
        3 => "Breakpoint (#BP)".spec_bytes(),
        4 => "Overflow (#OF)".spec_bytes(),
        5 => "Bound range exceeded (#BR)".spec_bytes(),
        6 => "Invalid opcode (#UD)".spec_bytes(),
        7 => "Device not available (#NM)".spec_bytes(),
        8 => "Double fault (#DF)".spec_bytes(),
        9 => "Coprocessor segment overrun".spec_bytes(),
        10 => "Invalid TSS (#TS)".spec_bytes(),
        11 => "Segment not present (#NP)".spec_bytes(),
        12 => "Stack-segment fault (#SS)".spec_bytes(),
        13 => "General protection fault (#GP)".spec_bytes(),
        14 => "Page fault (#PF)".spec_bytes(),
        15 => "Reserved".spec_bytes(),
        16 => "x87 floating-point (#MF)".spec_bytes(),
        17 => "Alignment check (#AC)".spec_bytes(),
        18 => "Machine check (#MC)".spec_bytes(),
        19 => "SIMD floating-point (#XM)".spec_bytes(),
        20 => "Virtualization (#VE)".spec_bytes(),
        21 => "Control protection (#CP)".spec_bytes(),
        22 => "Reserved".spec_bytes(),
        23 => "Reserved".spec_bytes(),
        24 => "Reserved".spec_bytes(),
        25 => "Reserved".spec_bytes(),
        26 => "Reserved".spec_bytes(),
        27 => "Reserved".spec_bytes(),
        28 => "Hypervisor injection".spec_bytes(),
        29 => "VMM communication".spec_bytes(),
        30 => "Security exception (#SX)".spec_bytes(),
        31 => "Reserved".spec_bytes(),
        _ => "Unknown exception".spec_bytes(),
    }
}

pub fn exception_name(vector: u32) -> (r: &'static str)
    ensures
        r.spec_bytes() == exception_name_spec(vector),
{
    match vector {
        0 => "Divide-by-zero (#DE)",
        1 => "Debug (#DB)",
        2 => "Non-maskable interrupt (NMI)",
        3 => "Breakpoint (#BP)",
        4 => "Overflow (#OF)",
        5 => "Bound range exceeded (#BR)",
        6 => "Invalid opcode (#UD)",
        7 => "Device not available (#NM)",
        8 => "Double fault (#DF)",
        9 => "Coprocessor segment overrun",
        10 => "Invalid TSS (#TS)",
        11 => "Segment not present (#NP)",
        12 => "Stack-segment fault (#SS)",
        13 => "General protection fault (#GP)",
        14 => "Page fault (#PF)",
        15 => "Reserved",
        16 => "x87 floating-point (#MF)",
        17 => "Alignment check (#AC)",
        18 => "Machine check (#MC)",
        19 => "SIMD floating-point (#XM)",
        20 => "Virtualization (#VE)",
        21 => "Control protection (#CP)",
        22 => "Reserved",
        23 => "Reserved",
        24 => "Reserved",
        25 => "Reserved",
        26 => "Reserved",
        27 => "Reserved",
        28 => "Hypervisor injection",
        29 => "VMM communication",
        30 => "Security exception (#SX)",
        31 => "Reserved",
        _ => "Unknown exception",
    }
}

/// `0x` and the eight lower-case hex digits of `v`.
pub open spec fn hex32_text(v: u32) -> Seq<u8> {
    seq![48u8, 120u8] + Seq::new(8, |n: int| hex_digit(((v >> ((7 - n) * 4) as u32) & 0xF) as u64))
}

fn push_hex32(v: &mut Vec<u8>, x: u32)
    ensures
        final(v)@ == old(v)@ + hex32_text(x),
{
    v.push(48);
    v.push(120);
    let mut n: u32 = 0;
    while n < 8
        invariant
            n <= 8,
            v@ == old(v)@ + seq![48u8, 120u8] + Seq::new(n as nat, |k: int| hex_digit(((x >> ((7 - k) * 4) as u32) & 0xF) as u64)),
        decreases 8 - n,
    {
        let sh: u32 = (7 - n) * 4;
        let d = (x >> sh) & 0xF;
        assert(d < 16) by (bit_vector)
            requires
                d == (x >> sh) & 0xF,
        ;
        let c: u8 = if d < 10 { 48 + d as u8 } else { 87 + d as u8 };
        v.push(c);
        n = n + 1;
        assert(v@ =~= old(v)@ + seq![48u8, 120u8] + Seq::new(n as nat, |k: int| hex_digit(((x >> ((7 - k) * 4) as u32) & 0xF) as u64)));
    }
    assert(v@ =~= old(v)@ + hex32_text(x));
}

/// `label` then the hex text of `v`.
pub open spec fn hex_field(label: Seq<u8>, v: u32) -> Seq<u8> {
    label + hex32_text(v)
}

/// The page-fault lines: the faulting address and the decoded error bits.
pub open spec fn pf_text(error_code: u32, cr2: u32) -> Seq<u8> {
    "\n  CR2(fault addr)=".spec_bytes() + hex32_text(cr2) + "\n  #PF bits:".spec_bytes()
        + (if error_code & 1 != 0 { " present".spec_bytes() } else { " not-present".spec_bytes() })
        + (if error_code & 2 != 0 { " write".spec_bytes() } else { " read".spec_bytes() })
        + (if error_code & 4 != 0 { " user".spec_bytes() } else { " supervisor".spec_bytes() })
}

/// The report for frame `f`; `cr2` (the faulting address) counts for page
/// faults (vector 14) only.
pub open spec fn detail_text(f: ExceptionFrame, cr2: u32) -> Seq<u8> {
    exception_name_spec(f.vector) + "\n  vector=".spec_bytes() + dec_str(f.vector as u64) + hex_field(" error=".spec_bytes(), f.error_code)
        + hex_field("\n  EIP=".spec_bytes(), f.eip) + hex_field(" CS=".spec_bytes(), f.cs) + hex_field(" EFLAGS=".spec_bytes(), f.eflags)
        + hex_field("\n  EAX=".spec_bytes(), f.eax) + hex_field(" EBX=".spec_bytes(), f.ebx) + hex_field(" ECX=".spec_bytes(), f.ecx)
        + hex_field(" EDX=".spec_bytes(), f.edx) + hex_field("\n  ESI=".spec_bytes(), f.esi) + hex_field(" EDI=".spec_bytes(), f.edi)
        + hex_field(" EBP=".spec_bytes(), f.ebp) + (if f.vector == 14 { pf_text(f.error_code, cr2) } else { Seq::empty() })
}

fn push_field(v: &mut Vec<u8>, label: &str, x: u32)
    ensures
        final(v)@ == old(v)@ + hex_field(label.spec_bytes(), x),
{
    push_all(v, label.as_bytes());
    push_hex32(v, x);
    assert(v@ =~= old(v)@ + hex_field(label.spec_bytes(), x));
}

fn push_str(v: &mut Vec<u8>, s: &str)
    ensures
        final(v)@ == old(v)@ + s.spec_bytes(),
{
    push_all(v, s.as_bytes());
}

/// The report text for frame `f` (`cr2` read for page faults).
pub fn exception_detail(f: &ExceptionFrame, cr2: u32) -> (v: Vec<u8>)
    ensures
        v@ == detail_text(*f, cr2),
{
    let mut v: Vec<u8> = Vec::new();
    push_str(&mut v, exception_name(f.vector));
    push_str(&mut v, "\n  vector=");
    push_dec(&mut v, f.vector as u64);
    push_field(&mut v, " error=", f.error_code);
    push_field(&mut v, "\n  EIP=", f.eip);
    push_field(&mut v, " CS=", f.cs);
    push_field(&mut v, " EFLAGS=", f.eflags);
    push_field(&mut v, "\n  EAX=", f.eax);
    push_field(&mut v, " EBX=", f.ebx);
    push_field(&mut v, " ECX=", f.ecx);
    push_field(&mut v, " EDX=", f.edx);
    push_field(&mut v, "\n  ESI=", f.esi);
    push_field(&mut v, " EDI=", f.edi);
    push_field(&mut v, " EBP=", f.ebp);
    let ghost main = v@;
    if f.vector == 14 {
        push_str(&mut v, "\n  CR2(fault addr)=");
        push_hex32(&mut v, cr2);
        push_str(&mut v, "\n  #PF bits:");
        push_str(&mut v, if f.error_code & 1 != 0 { " present" } else { " not-present" });
        push_str(&mut v, if f.error_code & 2 != 0 { " write" } else { " read" });
        push_str(&mut v, if f.error_code & 4 != 0 { " user" } else { " supervisor" });
        assert(v@ =~= main + pf_text(f.error_code, cr2));
    } else {
        assert(v@ =~= main + Seq::<u8>::empty());
    }
    assert(v@ =~= detail_text(*f, cr2));
    v
}

/// The signal exception `vector` raises: the page-fault signal for #PF,
/// the general-protection signal for #GP, none otherwise.
pub open spec fn exception_signal(vector: u32) -> Option<u32> {
    if vector == 14 {
        Some(SIG_PAGEFAULT)
    } else if vector == 13 {
        Some(SIG_GPF)
    } else {
        None
    }
}

/// What handling an exception decides before the kernel halts.
pub struct ExceptionReport {
    /// The panic detail text.
    pub detail: Vec<u8>,
    /// Signal callbacks to run, oldest first.
    pub run: Vec<u32>,
}

/// Handle CPU exception `f`: build the report and, for page faults and
/// general-protection faults, raise the signal and deliver the queue.
pub fn exception_handler(f: &ExceptionFrame, cr2: u32, signals: &mut SignalTable) -> (r: ExceptionReport)
    requires
        old(signals).wf(),
    ensures
        final(signals).wf(),
        r.detail@ == detail_text(*f, cr2),
        match exception_signal(f.vector) {
            None => final(signals).view() == old(signals).view() && r.run@ == Seq::<u32>::empty(),
            Some(sig) => {
                let mid = schedule_spec(old(signals).view(), sig).0;
                &&& r.run@ == deliverable(mid.handlers, mid.queue)
                &&& final(signals).view() == (SignalView {
                    queue: Seq::empty(),
                    pending: false,
                    delivered: ((mid.delivered + r.run@.len()) % 0x1_0000_0000) as u32,
                    ..mid
                })
            },
        },
{
    let detail = exception_detail(f, cr2);
    let sig: Option<u32> = if f.vector == 14 {
        Some(SIG_PAGEFAULT)
    } else if f.vector == 13 {
        Some(SIG_GPF)
    } else {
        None
    };
    let run = match sig {
        None => Vec::new(),
        Some(s) => {
            let _ = signals.schedule_signal(s);
            signals.process_signals()
        },
    };
    ExceptionReport { detail, run }
}

} // verus!
