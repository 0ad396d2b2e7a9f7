//! ELF64 images for x86_64 user programs (ET_EXEC): header checks, the
//! loadable segments, the program break and the initial user stack.
//!
//! The loader here decides; mapping pages and copying bytes into the user
//! address space is left to the caller, who applies the plan it returns.

use vstd::prelude::*;
use vstd::string::StringSliceAdditionalSpecFns;

verus! {

pub const FRAME_SIZE: u64 = 4096;
/// End of the user half of the address space.
pub const USER_END: u64 = 0x0000_8000_0000_0000;
pub const ELFCLASS64: u8 = 2;
pub const ELFDATA2LSB: u8 = 1;
pub const EV_CURRENT: u8 = 1;
pub const ET_EXEC: u16 = 2;
pub const EM_X86_64: u16 = 62;
pub const PT_LOAD: u32 = 1;
pub const PT_INTERP: u32 = 3;
/// Cap on the sum of the loaded segments' memory sizes.
pub const MAX_LOAD_BYTES: u64 = 16777216;
/// Cap on an in-memory image.
pub const MAX_FILE_SIZE: usize = 2097152;
/// User stack grows down from here.
pub const USER_STACK_TOP: u64 = 0x0000_0000_7FFF_F000;
/// Default stack size in pages.
pub const USER_STACK_PAGES: u64 = 256;
/// Size of an ELF64 file header and of a program header.
pub const EHDR_SIZE: usize = 64;
pub const PHDR_SIZE: usize = 56;

pub const AT_NULL: u64 = 0;
pub const AT_PHDR: u64 = 3;
pub const AT_PHENT: u64 = 4;
pub const AT_PHNUM: u64 = 5;
pub const AT_PAGESZ: u64 = 6;
pub const AT_BASE: u64 = 7;
pub const AT_FLAGS: u64 = 8;
pub const AT_ENTRY: u64 = 9;
pub const AT_UID: u64 = 11;
pub const AT_EUID: u64 = 12;
pub const AT_GID: u64 = 13;
pub const AT_EGID: u64 = 14;
pub const AT_SECURE: u64 = 23;
pub const AT_RANDOM: u64 = 25;

#[derive(Clone, Copy, Debug, PartialEq, Eq, Structural)]
pub enum ElfError {
    FileTooLarge,
    TruncatedHeader,
    BadMagic,
    NotElf64,
    NotLittleEndian,
    BadVersion,
    NeedExec,
    NeedX86_64,
    BadPhentsize,
    BadPhnum,
    BadEntry,
    TruncatedPhdr,
    FileszOverMemsz,
    BadVaddr,
    PastUserSpace,
    PastEof,
    SegmentTooLarge,
    ImageTooLarge,
    NoLoadSegments,
    BadBrkStart,
    EmptyArgv,
    OutsideUserSpace,
    IsDirectory,
    ShortRead,
    OffsetTooLarge,
    BadInterp,
    EmptyInterp,
    ShortSegmentRead,
    InterpNotFound,
    NoFilesystem,
    EntryUnmapped,
    EntryZero,
    /// A read of the file on the root filesystem failed.
    Fs(crate::ext2::Ext2Error),
}

/// Check the program entry after loading: `first` holds the first three
/// bytes at the entry, or `None` when the entry page is not mapped. An
/// unmapped page or three zero bytes mean nothing was loaded there.
pub fn check_entry_mapped(first: Option<[u8; 3]>) -> (r: Result<(), ElfError>)
    ensures
        r == match first {
            None => Err(ElfError::EntryUnmapped),
            Some(b) => if b@[0] == 0 && b@[1] == 0 && b@[2] == 0 {
                Err(ElfError::EntryZero)
            } else {
                Ok(())
            },
        },
{
    match first {
        None => Err(ElfError::EntryUnmapped),
        Some(b) => {
            if b[0] == 0 && b[1] == 0 && b[2] == 0 {
                Err(ElfError::EntryZero)
            } else {
                Ok(())
            }
        },
    }
}

impl ElfError {
    /// The text of this error.
    pub open spec fn text(&self) -> Seq<char> {
        match *self {
            ElfError::FileTooLarge => "elf: file too large"@,
            ElfError::TruncatedHeader => "elf: truncated header"@,
            ElfError::BadMagic => "elf: bad magic"@,
            ElfError::NotElf64 => "elf: not ELF64"@,
            ElfError::NotLittleEndian => "elf: not little-endian"@,
            ElfError::BadVersion => "elf: bad version"@,
            ElfError::NeedExec => "elf: need ET_EXEC"@,
            ElfError::NeedX86_64 => "elf: need EM_X86_64"@,
            ElfError::BadPhentsize => "elf: bad phentsize"@,
            ElfError::BadPhnum => "elf: bad phnum"@,
            ElfError::BadEntry => "elf: bad entry"@,
            ElfError::TruncatedPhdr => "elf: truncated phdr"@,
            ElfError::FileszOverMemsz => "elf: filesz > memsz"@,
            ElfError::BadVaddr => "elf: bad p_vaddr"@,
            ElfError::PastUserSpace => "elf: segment past user space"@,
            ElfError::PastEof => "elf: segment past EOF"@,
            ElfError::SegmentTooLarge => "elf: segment too large"@,
            ElfError::ImageTooLarge => "elf: image too large"@,
            ElfError::NoLoadSegments => "elf: no PT_LOAD segments"@,
            ElfError::BadBrkStart => "elf: bad brk start"@,
            ElfError::EmptyArgv => "elf: empty argv"@,
            ElfError::OutsideUserSpace => "elf: write outside user space"@,
            ElfError::IsDirectory => "is a directory"@,
            ElfError::ShortRead => "elf: short read"@,
            ElfError::OffsetTooLarge => "elf: offset too large"@,
            ElfError::BadInterp => "elf: bad PT_INTERP"@,
            ElfError::EmptyInterp => "elf: empty PT_INTERP"@,
            ElfError::ShortSegmentRead => "elf: short segment read"@,
            ElfError::InterpNotFound => "not found"@,
            ElfError::NoFilesystem => "no filesystem"@,
            ElfError::EntryUnmapped => "elf: entry page unmapped"@,
            ElfError::EntryZero => "elf: entry page zero"@,
            ElfError::Fs(e) => e.text(),
        }
    }

    pub fn as_str(&self) -> (r: &'static str)
        ensures
            r@ == self.text(),
    {
        match self {
            ElfError::FileTooLarge => "elf: file too large",
            ElfError::TruncatedHeader => "elf: truncated header",
            ElfError::BadMagic => "elf: bad magic",
            ElfError::NotElf64 => "elf: not ELF64",
            ElfError::NotLittleEndian => "elf: not little-endian",
            ElfError::BadVersion => "elf: bad version",
            ElfError::NeedExec => "elf: need ET_EXEC",
            ElfError::NeedX86_64 => "elf: need EM_X86_64",
            ElfError::BadPhentsize => "elf: bad phentsize",
            ElfError::BadPhnum => "elf: bad phnum",
            ElfError::BadEntry => "elf: bad entry",
            ElfError::TruncatedPhdr => "elf: truncated phdr",
            ElfError::FileszOverMemsz => "elf: filesz > memsz",
            ElfError::BadVaddr => "elf: bad p_vaddr",
            ElfError::PastUserSpace => "elf: segment past user space",
            ElfError::PastEof => "elf: segment past EOF",
            ElfError::SegmentTooLarge => "elf: segment too large",
            ElfError::ImageTooLarge => "elf: image too large",
            ElfError::NoLoadSegments => "elf: no PT_LOAD segments",
            ElfError::BadBrkStart => "elf: bad brk start",
            ElfError::EmptyArgv => "elf: empty argv",
            ElfError::OutsideUserSpace => "elf: write outside user space",
            ElfError::IsDirectory => "is a directory",
            ElfError::ShortRead => "elf: short read",
            ElfError::OffsetTooLarge => "elf: offset too large",
            ElfError::BadInterp => "elf: bad PT_INTERP",
            ElfError::EmptyInterp => "elf: empty PT_INTERP",
            ElfError::ShortSegmentRead => "elf: short segment read",
            ElfError::InterpNotFound => "not found",
            ElfError::NoFilesystem => "no filesystem",
            ElfError::EntryUnmapped => "elf: entry page unmapped",
            ElfError::EntryZero => "elf: entry page zero",
            ElfError::Fs(e) => e.as_str(),
        }
    }
}

/// `x` held at the largest `u64`.
pub open spec fn sat64(x: int) -> u64 {
    if x > u64::MAX {
        u64::MAX
    } else {
        x as u64
    }
}

pub(crate) fn sat_add(a: u64, b: u64) -> (r: u64)
    ensures
        r == sat64(a + b),
{
    if a > u64::MAX - b {
        u64::MAX
    } else {
        a + b
    }
}

/// Little-endian value of `n` bytes of `d` at `o`.
pub open spec fn le(d: Seq<u8>, o: int, n: nat) -> int
    decreases n,
{
    if n == 0 {
        0
    } else {
        d[o] + 256 * le(d, o + 1, (n - 1) as nat)
    }
}

/// `256` to the power `n`.
pub open spec fn pow256(n: nat) -> int
    decreases n,
{
    if n == 0 {
        1
    } else {
        256 * pow256((n - 1) as nat)
    }
}

pub(crate) proof fn lemma_le_bound(d: Seq<u8>, o: int, n: nat)
    ensures
        0 <= le(d, o, n) < pow256(n),
    decreases n,
{
    if n > 0 {
        lemma_le_bound(d, o + 1, (n - 1) as nat);
    }
}

proof fn lemma_pow256_small(k: nat)
    requires
        k <= 7,
    ensures
        pow256(k) <= 0x100000000000000,
{
    reveal_with_fuel(pow256, 8);
    if k == 0 {
    } else if k == 1 {
    } else if k == 2 {
    } else if k == 3 {
    } else if k == 4 {
    } else if k == 5 {
    } else if k == 6 {
    } else {
        assert(pow256(7) == 0x100000000000000);
    }
}

/// The `n`-byte little-endian value at `o` (`n` at most 8).
pub(crate) fn read_le(d: &[u8], o: usize, n: usize) -> (r: u64)
    requires
        n <= 8,
        o + n <= d@.len(),
    ensures
        r == le(d@, o as int, n as nat),
    decreases n,
{
    let dl = d.len();
    if n == 0 {
        0
    } else {
        let rest = read_le(d, o + 1, n - 1);
        proof {
            lemma_le_bound(d@, o + 1, (n - 1) as nat);
            lemma_pow256_small((n - 1) as nat);
        }
        d[o] as u64 + 256 * rest
    }
}

/// The ELF64 file header.
#[derive(Clone, Copy, Debug)]
pub struct Ehdr {
    pub ident: [u8; 16],
    pub e_type: u16,
    pub e_machine: u16,
    pub e_version: u32,
    pub e_entry: u64,
    pub e_phoff: u64,
    pub e_shoff: u64,
    pub e_flags: u32,
    pub e_ehsize: u16,
    pub e_phentsize: u16,
    pub e_phnum: u16,
    pub e_shentsize: u16,
    pub e_shnum: u16,
    pub e_shstrndx: u16,
}

/// An ELF64 program header.
#[derive(Clone, Copy, Debug, PartialEq, Eq, Structural)]
pub struct Phdr {
    pub p_type: u32,
    pub p_flags: u32,
    pub p_offset: u64,
    pub p_vaddr: u64,
    pub p_paddr: u64,
    pub p_filesz: u64,
    pub p_memsz: u64,
    pub p_align: u64,
}

/// The file header decoded from the first 64 bytes of `d`.
pub open spec fn ehdr_at(d: Seq<u8>) -> Ehdr {
    Ehdr {
        ident: arbitrary(),
        e_type: le(d, 16, 2) as u16,
        e_machine: le(d, 18, 2) as u16,
        e_version: le(d, 20, 4) as u32,
        e_entry: le(d, 24, 8) as u64,
        e_phoff: le(d, 32, 8) as u64,
        e_shoff: le(d, 40, 8) as u64,
        e_flags: le(d, 48, 4) as u32,
        e_ehsize: le(d, 52, 2) as u16,
        e_phentsize: le(d, 54, 2) as u16,
        e_phnum: le(d, 56, 2) as u16,
        e_shentsize: le(d, 58, 2) as u16,
        e_shnum: le(d, 60, 2) as u16,
        e_shstrndx: le(d, 62, 2) as u16,
    }
}

/// Header `h` read from `d`: identification bytes and every field.
pub open spec fn ehdr_from(h: Ehdr, d: Seq<u8>) -> bool {
    &&& h.ident@ == d.take(16)
    &&& h == Ehdr { ident: h.ident, ..ehdr_at(d) }
}

/// The program header decoded from the 56 bytes of `d` at `o`.
pub open spec fn phdr_at(d: Seq<u8>, o: int) -> Phdr {
    Phdr {
        p_type: le(d, o, 4) as u32,
        p_flags: le(d, o + 4, 4) as u32,
        p_offset: le(d, o + 8, 8) as u64,
        p_vaddr: le(d, o + 16, 8) as u64,
        p_paddr: le(d, o + 24, 8) as u64,
        p_filesz: le(d, o + 32, 8) as u64,
        p_memsz: le(d, o + 40, 8) as u64,
        p_align: le(d, o + 48, 8) as u64,
    }
}

/// Decode the file header.
pub fn read_ehdr(file: &[u8]) -> (r: Result<Ehdr, ElfError>)
    ensures
        file@.len() < EHDR_SIZE ==> r == Err::<Ehdr, ElfError>(ElfError::TruncatedHeader),
        file@.len() >= EHDR_SIZE ==> (r matches Ok(h) && ehdr_from(h, file@)),
{
    if file.len() < EHDR_SIZE {
        return Err(ElfError::TruncatedHeader);
    }
    let mut ident = [0u8; 16];
    let mut i: usize = 0;
    while i < 16
        invariant
            file@.len() >= EHDR_SIZE,
            i <= 16,
            forall|j: int| 0 <= j < i ==> ident@[j] == file@[j],
        decreases 16 - i,
    {
        ident[i] = file[i];
        i = i + 1;
    }
    assert(ident@ =~= file@.take(16));
    Ok(Ehdr {
        ident,
        e_type: read_le(file, 16, 2) as u16,
        e_machine: read_le(file, 18, 2) as u16,
        e_version: read_le(file, 20, 4) as u32,
        e_entry: read_le(file, 24, 8),
        e_phoff: read_le(file, 32, 8),
        e_shoff: read_le(file, 40, 8),
        e_flags: read_le(file, 48, 4) as u32,
        e_ehsize: read_le(file, 52, 2) as u16,
        e_phentsize: read_le(file, 54, 2) as u16,
        e_phnum: read_le(file, 56, 2) as u16,
        e_shentsize: read_le(file, 58, 2) as u16,
        e_shnum: read_le(file, 60, 2) as u16,
        e_shstrndx: read_le(file, 62, 2) as u16,
    })
}

/// Why header `h` is refused, if it is.
pub open spec fn ehdr_check(h: Ehdr) -> Result<(), ElfError> {
    let id = h.ident@;
    if !(id[0] == 0x7f && id[1] == 0x45 && id[2] == 0x4c && id[3] == 0x46) {
        Err(ElfError::BadMagic)
    } else if id[4] != ELFCLASS64 {
        Err(ElfError::NotElf64)
    } else if id[5] != ELFDATA2LSB {
        Err(ElfError::NotLittleEndian)
    } else if id[6] != EV_CURRENT {
        Err(ElfError::BadVersion)
    } else if h.e_type != ET_EXEC {
        Err(ElfError::NeedExec)
    } else if h.e_machine != EM_X86_64 {
        Err(ElfError::NeedX86_64)
    } else if h.e_phentsize != PHDR_SIZE {
        Err(ElfError::BadPhentsize)
    } else if h.e_phnum == 0 || h.e_phnum > 64 {
        Err(ElfError::BadPhnum)
    } else if h.e_entry < 0x1000 || h.e_entry >= USER_END {
        Err(ElfError::BadEntry)
    } else {
        Ok(())
    }
}

/// Accept only little-endian ELF64 x86_64 executables with 1 to 64 program
/// headers and an entry point in user space.
pub fn validate_ehdr(h: &Ehdr) -> (r: Result<(), ElfError>)
    ensures
        r == ehdr_check(*h),
{
    if !(h.ident[0] == 0x7f && h.ident[1] == 0x45 && h.ident[2] == 0x4c && h.ident[3] == 0x46) {
        return Err(ElfError::BadMagic);
    }
    if h.ident[4] != ELFCLASS64 {
        return Err(ElfError::NotElf64);
    }
    if h.ident[5] != ELFDATA2LSB {
        return Err(ElfError::NotLittleEndian);
    }
    if h.ident[6] != EV_CURRENT {
        return Err(ElfError::BadVersion);
    }
    if h.e_type != ET_EXEC {
        return Err(ElfError::NeedExec);
    }
    if h.e_machine != EM_X86_64 {
        return Err(ElfError::NeedX86_64);
    }
    if h.e_phentsize as usize != PHDR_SIZE {
        return Err(ElfError::BadPhentsize);
    }
    if h.e_phnum == 0 || h.e_phnum > 64 {
        return Err(ElfError::BadPhnum);
    }
    if h.e_entry < 0x1000 || h.e_entry >= USER_END {
        return Err(ElfError::BadEntry);
    }
    Ok(())
}

/// Program header `index` of the table at `phoff`, if the file holds it.
pub open spec fn phdr_spec(d: Seq<u8>, phoff: u64, index: int) -> Result<Phdr, ElfError> {
    let off = phoff + index * PHDR_SIZE;
    if off + PHDR_SIZE > d.len() {
        Err(ElfError::TruncatedPhdr)
    } else {
        Ok(phdr_at(d, off))
    }
}

pub fn read_phdr(file: &[u8], phoff: u64, index: u16) -> (r: Result<Phdr, ElfError>)
    ensures
        r == phdr_spec(file@, phoff, index as int),
{
    let fl = file.len();
    let off: u128 = phoff as u128 + index as u128 * 56;
    if off + 56 > fl as u128 {
        return Err(ElfError::TruncatedPhdr);
    }
    let o = off as usize;
    Ok(Phdr {
        p_type: read_le(file, o, 4) as u32,
        p_flags: read_le(file, o + 4, 4) as u32,
        p_offset: read_le(file, o + 8, 8),
        p_vaddr: read_le(file, o + 16, 8),
        p_paddr: read_le(file, o + 24, 8),
        p_filesz: read_le(file, o + 32, 8),
        p_memsz: read_le(file, o + 40, 8),
        p_align: read_le(file, o + 48, 8),
    })
}

/// Why a loadable segment is refused, or the bytes of memory it takes.
pub open spec fn segment_spec(file_len: int, ph: Phdr) -> Result<u64, ElfError> {
    if ph.p_memsz == 0 {
        Ok(0)
    } else if ph.p_filesz > ph.p_memsz {
        Err(ElfError::FileszOverMemsz)
    } else if ph.p_vaddr < 0x1000 || ph.p_vaddr >= USER_END {
        Err(ElfError::BadVaddr)
    } else if sat64(ph.p_vaddr + ph.p_memsz) > USER_END {
        Err(ElfError::PastUserSpace)
    } else if ph.p_filesz > 0 && ph.p_offset + ph.p_filesz > file_len {
        Err(ElfError::PastEof)
    } else if ph.p_memsz > MAX_LOAD_BYTES {
        Err(ElfError::SegmentTooLarge)
    } else {
        Ok(ph.p_memsz)
    }
}

/// Check a loadable segment of a file of `file_len` bytes: it fits in user
/// space and in the file, and is not too large. Returns its memory size.
pub fn load_segment(file_len: usize, ph: &Phdr) -> (r: Result<u64, ElfError>)
    ensures
        r == segment_spec(file_len as int, *ph),
{
    if ph.p_memsz == 0 {
        return Ok(0);
    }
    if ph.p_filesz > ph.p_memsz {
        return Err(ElfError::FileszOverMemsz);
    }
    if ph.p_vaddr < 0x1000 || ph.p_vaddr >= USER_END {
        return Err(ElfError::BadVaddr);
    }
    let vend = sat_add(ph.p_vaddr, ph.p_memsz);
    if vend > USER_END {
        return Err(ElfError::PastUserSpace);
    }
    if ph.p_filesz > 0 {
        let fend: u128 = ph.p_offset as u128 + ph.p_filesz as u128;
        if fend > file_len as u128 {
            return Err(ElfError::PastEof);
        }
    }
    if ph.p_memsz > MAX_LOAD_BYTES {
        return Err(ElfError::SegmentTooLarge);
    }
    Ok(ph.p_memsz)
}

/// Running state of the scan over the program headers.
pub struct ScanState {
    pub total: u64,
    pub image_end: u64,
    pub phdr_va: u64,
    /// Loadable segments with a non-zero memory size, in table order.
    pub segs: Seq<Phdr>,
}

pub open spec fn scan_start() -> ScanState {
    ScanState { total: 0, image_end: 0, phdr_va: 0, segs: Seq::empty() }
}

/// One program header `ph` of the image with header `h` in a file of `file_len` bytes.
pub open spec fn scan_step(file_len: int, h: Ehdr, s: ScanState, ph: Phdr) -> Result<ScanState, ElfError> {
    if ph.p_type != PT_LOAD {
        Ok(s)
    } else {
        match segment_spec(file_len, ph) {
            Err(e) => Err(e),
            Ok(m) => {
                let total = sat64(s.total + m);
                if total > MAX_LOAD_BYTES {
                    Err(ElfError::ImageTooLarge)
                } else {
                    let vend = sat64(ph.p_vaddr + ph.p_memsz);
                    let ph_end = sat64(h.e_phoff + sat64(h.e_phnum * h.e_phentsize));
                    Ok(ScanState {
                        total,
                        image_end: if vend > s.image_end { vend } else { s.image_end },
                        phdr_va: if s.phdr_va == 0 && h.e_phoff >= ph.p_offset && ph_end <= sat64(ph.p_offset + ph.p_filesz) {
                            sat64(ph.p_vaddr + (h.e_phoff - ph.p_offset))
                        } else {
                            s.phdr_va
                        },
                        segs: if ph.p_memsz > 0 { s.segs.push(ph) } else { s.segs },
                    })
                }
            },
        }
    }
}

/// The scan over the first `n` program headers.
pub open spec fn scan(d: Seq<u8>, h: Ehdr, n: nat) -> Result<ScanState, ElfError>
    decreases n,
{
    if n == 0 {
        Ok(scan_start())
    } else {
        match scan(d, h, (n - 1) as nat) {
            Err(e) => Err(e),
            Ok(s) => match phdr_spec(d, h.e_phoff, n - 1) {
                Err(e) => Err(e),
                Ok(ph) => scan_step(d.len() as int, h, s, ph),
            },
        }
    }
}

/// First page boundary at or after `a`.
pub open spec fn page_up(a: u64) -> int {
    (a + 4095) - (a + 4095) % 4096
}

/// Auxiliary-vector facts about the image (Linux process startup).
#[derive(Clone, Copy, Debug, PartialEq, Eq, Structural)]
pub struct AuxInfo {
    pub entry: u64,
    /// Address of the program headers in the loaded image (0 if unknown).
    pub phdr: u64,
    pub phent: u64,
    pub phnum: u64,
    /// Interpreter load address; 0 for a static image.
    pub base: u64,
}

#[derive(Clone, Copy, Debug, PartialEq, Eq, Structural)]
pub struct LoadedImage {
    pub entry: u64,
    pub stack_top: u64,
    /// Initial program break: page-aligned end of the highest loadable segment.
    pub brk_start: u64,
}

/// What loading the image in `d` gives: its segments, entry, program break
/// and auxiliary facts, or why it is refused.
pub open spec fn image_spec(d: Seq<u8>) -> Result<(Seq<Phdr>, u64, u64, AuxInfo), ElfError> {
    if d.len() > MAX_FILE_SIZE {
        Err(ElfError::FileTooLarge)
    } else if d.len() < EHDR_SIZE {
        Err(ElfError::TruncatedHeader)
    } else {
        let hd = ehdr_at(d);
        if !(d[0] == 0x7f && d[1] == 0x45 && d[2] == 0x4c && d[3] == 0x46) {
            Err(ElfError::BadMagic)
        } else if d[4] != ELFCLASS64 {
            Err(ElfError::NotElf64)
        } else if d[5] != ELFDATA2LSB {
            Err(ElfError::NotLittleEndian)
        } else if d[6] != EV_CURRENT {
            Err(ElfError::BadVersion)
        } else if hd.e_type != ET_EXEC {
            Err(ElfError::NeedExec)
        } else if hd.e_machine != EM_X86_64 {
            Err(ElfError::NeedX86_64)
        } else if hd.e_phentsize != PHDR_SIZE {
            Err(ElfError::BadPhentsize)
        } else if hd.e_phnum == 0 || hd.e_phnum > 64 {
            Err(ElfError::BadPhnum)
        } else if hd.e_entry < 0x1000 || hd.e_entry >= USER_END {
            Err(ElfError::BadEntry)
        } else {
            match scan(d, hd, hd.e_phnum as nat) {
                Err(e) => Err(e),
                Ok(s) => if s.total == 0 {
                    Err(ElfError::NoLoadSegments)
                } else {
                    let brk = page_up(s.image_end);
                    if brk < 0x1000 || brk >= USER_END {
                        Err(ElfError::BadBrkStart)
                    } else {
                        Ok((
                            s.segs,
                            hd.e_entry,
                            brk as u64,
                            AuxInfo { entry: hd.e_entry, phdr: s.phdr_va, phent: hd.e_phentsize as u64, phnum: hd.e_phnum as u64, base: 0 },
                        ))
                    }
                },
            }
        }
    }
}


/// Stack top and size in pages for a new image: the task's own stack region
/// when it has one of at least a page above the first page, else the default.
pub open spec fn stack_region_spec(region: Option<(u64, u64)>) -> (u64, u64) {
    match region {
        Some(r) => if r.0 >= 0x1000 && r.1 >= FRAME_SIZE {
            (sat64(r.0 + r.1), r.1 / FRAME_SIZE)
        } else {
            (USER_STACK_TOP, USER_STACK_PAGES)
        },
        None => (USER_STACK_TOP, USER_STACK_PAGES),
    }
}

/// Choose the stack top and size (in pages) for a new image; `region` is the
/// current task's stack `(base, size)` where it has a private one.
pub fn exec_stack_top(region: Option<(u64, u64)>) -> (r: (u64, u64))
    ensures
        r == stack_region_spec(region),
{
    match region {
        Some((base, size)) => {
            if base >= 0x1000 && size >= FRAME_SIZE {
                (sat_add(base, size), size / FRAME_SIZE)
            } else {
                (USER_STACK_TOP, USER_STACK_PAGES)
            }
        },
        None => (USER_STACK_TOP, USER_STACK_PAGES),
    }
}

/// The 16 bytes placed for `AT_RANDOM`.
pub open spec fn rnd_bytes() -> Seq<u8> {
    seq![0x6du8, 0x75, 0x6e, 0x75, 0x78, 0xa5, 0x5a, 0xc3, 0x12, 0x34, 0x56, 0x78, 0x9a, 0xbc, 0xde, 0xf0]
}

/// Bytes of argument `i` that are copied (at most 64).
pub open spec fn arg_len(argv: Seq<&str>, i: int) -> nat {
    let n = argv[i].spec_bytes().len();
    if n < 64 { n } else { 64 }
}

/// Address of argument string `i - 1` (strings go down from `t0`, 8-aligned).
pub open spec fn str_top(argv: Seq<&str>, t0: int, i: nat) -> int
    decreases i,
{
    if i == 0 {
        t0
    } else {
        let p = str_top(argv, t0, (i - 1) as nat) - arg_len(argv, i - 1) - 1;
        p - p % 8
    }
}

/// Writes of the first `n` argument strings and their NULs.
pub open spec fn str_writes(argv: Seq<&str>, t0: int, n: nat) -> Seq<(u64, Seq<u8>)>
    decreases n,
{
    if n == 0 {
        Seq::empty()
    } else {
        let t = str_top(argv, t0, n);
        let len = arg_len(argv, n - 1);
        str_writes(argv, t0, (n - 1) as nat) + seq![
            (t as u64, argv[n - 1].spec_bytes().take(len as int)),
            ((t + len) as u64, seq![0u8]),
        ]
    }
}

/// The auxiliary vector, `AT_NULL` last.
pub open spec fn aux_list(aux: AuxInfo, random_ptr: u64) -> Seq<(u64, u64)> {
    seq![(AT_PAGESZ, FRAME_SIZE)] + (if aux.phdr != 0 {
        seq![(AT_PHDR, aux.phdr), (AT_PHENT, aux.phent), (AT_PHNUM, aux.phnum)]
    } else {
        Seq::empty()
    }) + seq![
        (AT_BASE, aux.base),
        (AT_FLAGS, 0u64),
        (AT_ENTRY, aux.entry),
        (AT_UID, 0u64),
        (AT_EUID, 0u64),
        (AT_GID, 0u64),
        (AT_EGID, 0u64),
        (AT_SECURE, 0u64),
        (AT_RANDOM, random_ptr),
        (AT_NULL, 0u64),
    ]
}

/// The auxiliary vector names each key once and ends with `AT_NULL`; it
/// gives the program's entry point under `AT_ENTRY`, the interpreter base
/// under `AT_BASE`, the page size, the random bytes' address, and the
/// program headers when their address is known.
pub proof fn lemma_aux_vector(aux: AuxInfo, random_ptr: u64)
    ensures
        ({
            let l = aux_list(aux, random_ptr);
            &&& forall|i: int, j: int| 0 <= i < j < l.len() ==> #[trigger] l[i].0 != #[trigger] l[j].0
            &&& l.last() == (AT_NULL, 0u64)
            &&& l.contains((AT_ENTRY, aux.entry))
            &&& l.contains((AT_BASE, aux.base))
            &&& l.contains((AT_PAGESZ, 4096u64))
            &&& l.contains((AT_RANDOM, random_ptr))
            &&& aux.phdr != 0 ==> l.contains((AT_PHDR, aux.phdr)) && l.contains((AT_PHENT, aux.phent))
                && l.contains((AT_PHNUM, aux.phnum))
            &&& aux.phdr == 0 ==> forall|i: int| 0 <= i < l.len() ==> #[trigger] l[i].0 != AT_PHDR
        }),
{
    let l = aux_list(aux, random_ptr);
    let tail = seq![
        (AT_BASE, aux.base),
        (AT_FLAGS, 0u64),
        (AT_ENTRY, aux.entry),
        (AT_UID, 0u64),
        (AT_EUID, 0u64),
        (AT_GID, 0u64),
        (AT_EGID, 0u64),
        (AT_SECURE, 0u64),
        (AT_RANDOM, random_ptr),
        (AT_NULL, 0u64),
    ];
    if aux.phdr != 0 {
        let e = seq![(AT_PAGESZ, FRAME_SIZE), (AT_PHDR, aux.phdr), (AT_PHENT, aux.phent), (AT_PHNUM, aux.phnum)] + tail;
        assert(l =~= e);
        assert(l[0] == (AT_PAGESZ, 4096u64));
        assert(l[1] == (AT_PHDR, aux.phdr));
        assert(l[2] == (AT_PHENT, aux.phent));
        assert(l[3] == (AT_PHNUM, aux.phnum));
        assert(l[4] == (AT_BASE, aux.base));
        assert(l[6] == (AT_ENTRY, aux.entry));
        assert(l[12] == (AT_RANDOM, random_ptr));
    } else {
        let e = seq![(AT_PAGESZ, FRAME_SIZE)] + tail;
        assert(l =~= e);
        assert(l[0] == (AT_PAGESZ, 4096u64));
        assert(l[1] == (AT_BASE, aux.base));
        assert(l[3] == (AT_ENTRY, aux.entry));
        assert(l[9] == (AT_RANDOM, random_ptr));
    }
}

/// The words at the stack pointer: argc, argv pointers, NULL, empty envp
/// (NULL), then the auxiliary pairs.
pub open spec fn stack_words(ptrs: Seq<u64>, auxv: Seq<(u64, u64)>) -> Seq<u64> {
    seq![ptrs.len() as u64] + ptrs + seq![0u64, 0u64] + Seq::new(
        auxv.len() * 2,
        |k: int| if k % 2 == 0 { auxv[k / 2].0 } else { auxv[k / 2].1 },
    )
}

/// Little-endian bytes of `v`.
pub open spec fn le8(v: u64) -> Seq<u8> {
    Seq::new(8, |i: int| (v >> (8 * i) as u64) as u8)
}

/// The initial stack of an image: where it lives and the writes that fill it
/// (applied in order over zeroed pages).
pub struct StackPlan {
    pub top: u64,
    /// Lowest mapped address; `[base, map_end)` is mapped and zeroed first.
    pub base: u64,
    pub map_end: u64,
    /// Initial stack pointer.
    pub sp: u64,
    pub writes: Vec<(u64, Vec<u8>)>,
}

pub open spec fn writes_view(w: Seq<(u64, Vec<u8>)>) -> Seq<(u64, Seq<u8>)> {
    Seq::new(w.len(), |i: int| (w[i].0, w[i].1@))
}

/// Whether a write of `len` bytes at `virt` stays in user space.
pub open spec fn write_ok(virt: u64, len: nat) -> bool {
    len == 0 || (virt >= 0x1000 && sat64(virt + len) <= USER_END)
}

/// Where the `AT_RANDOM` bytes go: 16 bytes below the top, 16-aligned.
pub open spec fn random_at(top: u64) -> int {
    (top - 16) - (top - 16) % 16
}

/// Number of argument strings placed (at most six).
pub open spec fn narg_of(argv: Seq<&str>) -> nat {
    if argv.len() < 6 { argv.len() } else { 6 }
}

/// The words at the stack pointer for `argv` and `aux` below a stack top `top`.
pub open spec fn words_of(argv: Seq<&str>, aux: AuxInfo, top: u64) -> Seq<u64> {
    let t0 = random_at(top);
    let ptrs = Seq::new(narg_of(argv), |i: int| str_top(argv, t0, (i + 1) as nat) as u64);
    stack_words(ptrs, aux_list(aux, t0 as u64))
}

/// The initial stack pointer.
pub open spec fn sp_of(argv: Seq<&str>, aux: AuxInfo, top: u64) -> int {
    let low = str_top(argv, random_at(top), narg_of(argv)) - words_of(argv, aux, top).len() * 8;
    low - low % 16
}

/// The writes that fill the stack, in order.
pub open spec fn stack_writes(argv: Seq<&str>, aux: AuxInfo, top: u64) -> Seq<(u64, Seq<u8>)> {
    let t0 = random_at(top);
    let words = words_of(argv, aux, top);
    let sp = sp_of(argv, aux, top);
    seq![(t0 as u64, rnd_bytes())] + str_writes(argv, t0, narg_of(argv)) + Seq::new(
        words.len(),
        |k: int| ((sp + 8 * k) as u64, le8(words[k])),
    )
}

/// The stack plan for `argv` and `aux`: top, base, end of the mapping, stack
/// pointer and writes; or why there is none.
pub open spec fn stack_spec(argv: Seq<&str>, aux: AuxInfo, region: Option<(u64, u64)>) -> Result<(u64, u64, u64, u64, Seq<(u64, Seq<u8>)>), ElfError> {
    let (top, pages0) = stack_region_spec(region);
    let pages = if pages0 < 1 { 1 } else if pages0 > 256 { 256 } else { pages0 };
    let base = top - pages * FRAME_SIZE;
    let map_end = sat64(top + FRAME_SIZE);
    if narg_of(argv) == 0 {
        Err(ElfError::EmptyArgv)
    } else {
        let writes = stack_writes(argv, aux, top);
        if exists|k: int| 0 <= k < writes.len() && !write_ok(#[trigger] writes[k].0, writes[k].1.len()) {
            Err(ElfError::OutsideUserSpace)
        } else {
            Ok((top, base as u64, map_end, sp_of(argv, aux, top) as u64, writes))
        }
    }
}

fn rnd_vec() -> (v: Vec<u8>)
    ensures
        v@ == rnd_bytes(),
{
    let v: Vec<u8> = vec![0x6d, 0x75, 0x6e, 0x75, 0x78, 0xa5, 0x5a, 0xc3, 0x12, 0x34, 0x56, 0x78, 0x9a, 0xbc, 0xde, 0xf0];
    assert(v@ =~= rnd_bytes());
    v
}

pub(crate) fn le8_vec(x: u64) -> (v: Vec<u8>)
    ensures
        v@ == le8(x),
{
    let mut v: Vec<u8> = Vec::new();
    let mut i: u64 = 0;
    while i < 8
        invariant
            i <= 8,
            v@ == Seq::new(i as nat, |k: int| (x >> (8 * k) as u64) as u8),
        decreases 8 - i,
    {
        v.push((x >> (8 * i)) as u8);
        i = i + 1;
        assert(v@ =~= Seq::new(i as nat, |k: int| (x >> (8 * k) as u64) as u8));
    }
    v
}

fn aux_vec(aux: &AuxInfo, random_ptr: u64) -> (v: Vec<(u64, u64)>)
    ensures
        v@ == aux_list(*aux, random_ptr),
        v@.len() <= 14,
{
    let mut v: Vec<(u64, u64)> = Vec::new();
    v.push((AT_PAGESZ, FRAME_SIZE));
    if aux.phdr != 0 {
        v.push((AT_PHDR, aux.phdr));
        v.push((AT_PHENT, aux.phent));
        v.push((AT_PHNUM, aux.phnum));
    }
    v.push((AT_BASE, aux.base));
    v.push((AT_FLAGS, 0));
    v.push((AT_ENTRY, aux.entry));
    v.push((AT_UID, 0));
    v.push((AT_EUID, 0));
    v.push((AT_GID, 0));
    v.push((AT_EGID, 0));
    v.push((AT_SECURE, 0));
    v.push((AT_RANDOM, random_ptr));
    v.push((AT_NULL, 0));
    assert(v@ =~= aux_list(*aux, random_ptr));
    v
}

fn words_vec(ptrs: &Vec<u64>, auxv: &Vec<(u64, u64)>) -> (w: Vec<u64>)
    requires
        ptrs@.len() <= 6,
        auxv@.len() <= 14,
    ensures
        w@ == stack_words(ptrs@, auxv@),
{
    let mut w: Vec<u64> = Vec::new();
    w.push(ptrs.len() as u64);
    let mut i: usize = 0;
    while i < ptrs.len()
        invariant
            i <= ptrs@.len(),
            ptrs@.len() <= 6,
            w@ == seq![ptrs@.len() as u64] + ptrs@.take(i as int),
        decreases ptrs@.len() - i,
    {
        w.push(ptrs[i]);
        i = i + 1;
        assert(w@ =~= seq![ptrs@.len() as u64] + ptrs@.take(i as int));
    }
    w.push(0);
    w.push(0);
    let ghost head = w@;
    assert(head =~= seq![ptrs@.len() as u64] + ptrs@ + seq![0u64, 0u64]);
    let mut k: usize = 0;
    while k < auxv.len()
        invariant
            k <= auxv@.len(),
            auxv@.len() <= 14,
            w@ == head + Seq::new(2 * k as nat, |j: int| if j % 2 == 0 { auxv@[j / 2].0 } else { auxv@[j / 2].1 }),
        decreases auxv@.len() - k,
    {
        let (t, v) = auxv[k];
        w.push(t);
        w.push(v);
        k = k + 1;
        assert(w@ =~= head + Seq::new(2 * k as nat, |j: int| if j % 2 == 0 { auxv@[j / 2].0 } else { auxv@[j / 2].1 }));
    }
    assert(w@ =~= stack_words(ptrs@, auxv@));
    w
}

proof fn lemma_region(region: Option<(u64, u64)>)
    ensures
        ({
            let (top, pages0) = stack_region_spec(region);
            let pages = if pages0 < 1 { 1 } else if pages0 > 256 { 256 } else { pages0 };
            &&& top >= 8192
            &&& top >= pages * FRAME_SIZE
            &&& 1 <= pages <= 256
        }),
{
    match region {
        Some(r) => if r.0 >= 0x1000 && r.1 >= FRAME_SIZE {
            let p = r.1 / FRAME_SIZE;
            assert(p * FRAME_SIZE <= r.1) by (nonlinear_arith)
                requires
                    p == r.1 / FRAME_SIZE,
            ;
            assert(p >= 1) by (nonlinear_arith)
                requires
                    p == r.1 / FRAME_SIZE,
                    r.1 >= FRAME_SIZE,
            ;
        },
        None => {},
    }
}

proof fn lemma_str_top_bounds(argv: Seq<&str>, t0: int, i: nat)
    ensures
        t0 - 72 * i <= str_top(argv, t0, i) <= t0,
    decreases i,
{
    if i > 0 {
        lemma_str_top_bounds(argv, t0, (i - 1) as nat);
    }
}

/// Build the initial stack of a program: from the top down, 16 random bytes
/// for `AT_RANDOM`, the argument strings (at most six, each cut to 64 bytes
/// and NUL-terminated, 8-byte aligned), then at a 16-byte aligned stack
/// pointer argc, the argv pointers, a NULL, an empty environment and the
/// auxiliary vector. `region` is the current task's own stack, if any.
pub fn setup_stack(argv: &[&str], aux: &AuxInfo, region: Option<(u64, u64)>) -> (r: Result<StackPlan, ElfError>)
    ensures
        match stack_spec(argv@, *aux, region) {
            Err(e) => r == Err::<StackPlan, ElfError>(e),
            Ok((top, base, map_end, sp, w)) => r matches Ok(p) && p.top == top && p.base == base && p.map_end == map_end
                && p.sp == sp && writes_view(p.writes@) == w,
        },
{
    let (top, pages0) = exec_stack_top(region);
    let pages: u64 = if pages0 < 1 {
        1
    } else if pages0 > 256 {
        256
    } else {
        pages0
    };
    proof {
        lemma_region(region);
    }
    let base = top - pages * FRAME_SIZE;
    let map_end = sat_add(top, FRAME_SIZE);
    let narg: usize = if argv.len() < 6 { argv.len() } else { 6 };
    if narg == 0 {
        return Err(ElfError::EmptyArgv);
    }
    let t0 = (top - 16) - (top - 16) % 16;
    let mut writes: Vec<(u64, Vec<u8>)> = Vec::new();
    writes.push((t0, rnd_vec()));
    let mut ptrs: Vec<u64> = Vec::new();
    let mut cur = t0;
    let mut i: usize = 0;
    assert(writes_view(writes@) =~= seq![(t0, rnd_bytes())] + str_writes(argv@, t0 as int, 0));
    while i < narg
        invariant
            narg <= 6,
            narg <= argv@.len(),
            i <= narg,
            t0 >= 8192 - 32,
            cur == str_top(argv@, t0 as int, i as nat),
            ptrs@ == Seq::new(i as nat, |j: int| str_top(argv@, t0 as int, (j + 1) as nat) as u64),
            writes_view(writes@) == seq![(t0, rnd_bytes())] + str_writes(argv@, t0 as int, i as nat),
        decreases narg - i,
    {
        proof {
            lemma_str_top_bounds(argv@, t0 as int, i as nat);
        }
        let b = argv[i].as_bytes();
        let len: usize = if b.len() < 64 { b.len() } else { 64 };
        let p = cur - (len as u64 + 1);
        cur = p - p % 8;
        let ghost before = writes@;
        let piece = crate::text::copy_prefix(b, len);
        let nul: Vec<u8> = vec![0u8];
        assert(nul@ =~= seq![0u8]);
        assert(piece@ == argv@[i as int].spec_bytes().take(len as int));
        writes.push((cur, piece));
        writes.push((cur + len as u64, nul));
        ptrs.push(cur);
        i = i + 1;
        proof {
            assert(arg_len(argv@, i - 1) == len);
            assert(ptrs@ =~= Seq::new(i as nat, |j: int| str_top(argv@, t0 as int, (j + 1) as nat) as u64));
            assert(writes_view(writes@) =~= writes_view(before) + seq![
                (cur, argv@[i - 1].spec_bytes().take(len as int)),
                ((cur + len) as u64, seq![0u8]),
            ]);
        }
    }
    proof {
        lemma_str_top_bounds(argv@, t0 as int, narg as nat);
    }
    let auxv = aux_vec(aux, t0);
    let words = words_vec(&ptrs, &auxv);
    let nw = words.len();
    assert(nw <= 37);
    let low = cur - nw as u64 * 8;
    let sp = low - low % 16;
    let ghost head = writes@;
    let mut k: usize = 0;
    while k < nw
        invariant
            nw == words@.len(),
            nw <= 37,
            k <= nw,
            sp <= cur,
            sp + 8 * nw <= cur,
            writes_view(writes@) == writes_view(head) + Seq::new(k as nat, |j: int| ((sp + 8 * j) as u64, le8(words@[j]))),
        decreases nw - k,
    {
        let a = sp + 8 * k as u64;
        let bytes = le8_vec(words[k]);
        let ghost before = writes@;
        writes.push((a, bytes));
        assert(writes@ == before.push((a, bytes)));
        k = k + 1;
        proof {
            let lhs = writes_view(writes@);
            let rhs = writes_view(head) + Seq::new(k as nat, |j: int| ((sp + 8 * j) as u64, le8(words@[j])));
            assert(writes_view(before).len() == writes_view(head).len() + (k - 1));
            assert(writes@.len() == before.len() + 1);
            assert(lhs.len() == writes@.len());
            assert(rhs.len() == writes_view(head).len() + k);
            assert(lhs.len() == rhs.len());
            assert forall|j: int| 0 <= j < lhs.len() implies #[trigger] lhs[j] == rhs[j] by {
                if j < before.len() {
                    assert(writes_view(before)[j] == lhs[j]);
                } else {
                    assert(j == before.len());
                    assert(lhs[j] == (a, bytes@));
                    assert(rhs[j] == ((sp + 8 * (k - 1)) as u64, le8(words@[k - 1])));
                }
            }
            assert(lhs =~= rhs);
        }
    }
    let ghost w = writes_view(writes@);
    proof {
        assert(ptrs@ =~= Seq::new(narg_of(argv@), |i: int| str_top(argv@, random_at(top), (i + 1) as nat) as u64));
        assert(words@ == words_of(argv@, *aux, top));
        assert(sp == sp_of(argv@, *aux, top));
        assert(w =~= stack_writes(argv@, *aux, top));
    }
    let mut q: usize = 0;
    while q < writes.len()
        invariant
            q <= writes@.len(),
            w == writes_view(writes@),
            w == stack_writes(argv@, *aux, top),
            (top, pages0) == stack_region_spec(region),
            narg_of(argv@) != 0,
            forall|j: int| 0 <= j < q ==> write_ok(#[trigger] w[j].0, w[j].1.len()),
        decreases writes@.len() - q,
    {
        let a = writes[q].0;
        let n = writes[q].1.len();
        if n != 0 && (a < 0x1000 || sat_add(a, n as u64) > USER_END) {
            assert(!write_ok(w[q as int].0, w[q as int].1.len()));
            assert(!write_ok(stack_writes(argv@, *aux, top)[q as int].0, stack_writes(argv@, *aux, top)[q as int].1.len()));
            return Err(ElfError::OutsideUserSpace);
        }
        q = q + 1;
    }
    Ok(StackPlan { top, base, map_end, sp, writes })
}


proof fn lemma_scan_err(d: Seq<u8>, h: Ehdr, i: nat, n: nat)
    requires
        i <= n,
        scan(d, h, i) is Err,
    ensures
        scan(d, h, n) == scan(d, h, i),
    decreases n - i,
{
    if i < n {
        lemma_scan_err(d, h, i, (n - 1) as nat);
    }
}

/// What loading an image gives the caller to apply: the segments to map and
/// fill (bytes `[p_offset, p_offset + p_filesz)` of the file at `p_vaddr`,
/// zeros up to `p_memsz`), the image facts, and the initial stack.
pub struct LoadPlan {
    pub segments: Vec<Phdr>,
    pub image: LoadedImage,
    pub aux: AuxInfo,
    pub stack: StackPlan,
}

/// The outcome of loading `d` with arguments `argv`.
pub open spec fn load_ok(d: Seq<u8>, argv: Seq<&str>, region: Option<(u64, u64)>, r: Result<LoadPlan, ElfError>) -> bool {
    match image_spec(d) {
        Err(e) => r == Err::<LoadPlan, ElfError>(e),
        Ok((segs, entry, brk, aux)) => match stack_spec(argv, aux, region) {
            Err(e) => r == Err::<LoadPlan, ElfError>(e),
            Ok((top, base, map_end, sp, w)) => r matches Ok(p) && {
                &&& p.segments@ == segs
                &&& p.image == (LoadedImage { entry, stack_top: sp, brk_start: brk })
                &&& p.aux == aux
                &&& p.stack.top == top && p.stack.base == base && p.stack.map_end == map_end && p.stack.sp == sp
                &&& writes_view(p.stack.writes@) == w
            },
        },
    }
}

/// Check an ELF64 image held in memory and plan its loading with arguments
/// `argv`. Whether the entry page holds code can only be seen once the
/// segments are in memory: that check is the caller's.
pub fn load_bytes_argv(file: &[u8], argv: &[&str], region: Option<(u64, u64)>) -> (r: Result<LoadPlan, ElfError>)
    ensures
        load_ok(file@, argv@, region, r),
{
    if file.len() > MAX_FILE_SIZE {
        return Err(ElfError::FileTooLarge);
    }
    let ehdr = match read_ehdr(file) {
        Err(e) => return Err(e),
        Ok(h) => h,
    };
    proof {
        assert(ehdr.ident@[0] == file@[0] && ehdr.ident@[1] == file@[1] && ehdr.ident@[2] == file@[2]);
        assert(ehdr.ident@[3] == file@[3] && ehdr.ident@[4] == file@[4] && ehdr.ident@[5] == file@[5]);
        assert(ehdr.ident@[6] == file@[6]);
    }
    match validate_ehdr(&ehdr) {
        Err(e) => return Err(e),
        Ok(()) => {},
    }
    let ghost hd = ehdr_at(file@);
    let mut total: u64 = 0;
    let mut image_end: u64 = 0;
    let mut phdr_va: u64 = 0;
    let mut segs: Vec<Phdr> = Vec::new();
    let mut i: u16 = 0;
    while i < ehdr.e_phnum
        invariant
            i <= ehdr.e_phnum,
            hd == ehdr_at(file@),
            EHDR_SIZE <= file@.len() <= MAX_FILE_SIZE,
            ehdr.ident@ == file@.take(16),
            ehdr_check(ehdr) == Ok::<(), ElfError>(()),
            ehdr == (Ehdr { ident: ehdr.ident, ..hd }),
            scan(file@, hd, i as nat) matches Ok(s) && s.total == total && s.image_end == image_end && s.phdr_va
                == phdr_va && s.segs == segs@,
        decreases ehdr.e_phnum - i,
    {
        let ph = match read_phdr(file, ehdr.e_phoff, i) {
            Err(e) => {
                proof {
                    lemma_scan_err(file@, hd, (i + 1) as nat, ehdr.e_phnum as nat);
                }
                return Err(e);
            },
            Ok(p) => p,
        };
        if ph.p_type == PT_LOAD {
            let m = match load_segment(file.len(), &ph) {
                Err(e) => {
                    proof {
                        lemma_scan_err(file@, hd, (i + 1) as nat, ehdr.e_phnum as nat);
                    }
                    return Err(e);
                },
                Ok(m) => m,
            };
            total = sat_add(total, m);
            if total > MAX_LOAD_BYTES {
                proof {
                    lemma_scan_err(file@, hd, (i + 1) as nat, ehdr.e_phnum as nat);
                }
                return Err(ElfError::ImageTooLarge);
            }
            let vend = sat_add(ph.p_vaddr, ph.p_memsz);
            if vend > image_end {
                image_end = vend;
            }
            let pn = ehdr.e_phnum as u64;
            let pe = ehdr.e_phentsize as u64;
            assert(pn * pe <= 65535 * 65535) by (nonlinear_arith)
                requires
                    pn <= 65535,
                    pe <= 65535,
            ;
            let span: u64 = pn * pe;
            let ph_end = sat_add(ehdr.e_phoff, span);
            if phdr_va == 0 && ehdr.e_phoff >= ph.p_offset && ph_end <= sat_add(ph.p_offset, ph.p_filesz) {
                phdr_va = sat_add(ph.p_vaddr, ehdr.e_phoff - ph.p_offset);
            }
            if ph.p_memsz > 0 {
                segs.push(ph);
            }
        }
        i = i + 1;
    }
    if total == 0 {
        return Err(ElfError::NoLoadSegments);
    }
    let b: u128 = image_end as u128 + 4095;
    let brk = b - b % 4096;
    if brk < 0x1000 || brk >= USER_END as u128 {
        return Err(ElfError::BadBrkStart);
    }
    let aux = AuxInfo {
        entry: ehdr.e_entry,
        phdr: phdr_va,
        phent: ehdr.e_phentsize as u64,
        phnum: ehdr.e_phnum as u64,
        base: 0,
    };
    let stack = match setup_stack(argv, &aux, region) {
        Err(e) => return Err(e),
        Ok(st) => st,
    };
    let sp = stack.sp;
    Ok(LoadPlan { segments: segs, image: LoadedImage { entry: ehdr.e_entry, stack_top: sp, brk_start: brk as u64 }, aux, stack })
}

/// Load with the single argument `argv0`.
pub fn load_bytes(file: &[u8], argv0: &str, region: Option<(u64, u64)>) -> (r: Result<LoadPlan, ElfError>)
    ensures
        load_ok(file@, seq![argv0], region, r),
{
    let v: Vec<&str> = vec![argv0];
    assert(v@ =~= seq![argv0]);
    load_bytes_argv(file, v.as_slice(), region)
}

} // verus!
