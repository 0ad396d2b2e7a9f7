//! ELF64 relocatable (`.ko`) module images: the plan for loading one.
//!
//! The allocatable sections are packed into one image (in section order,
//! each at its alignment), followed by sixteen 16-byte trampoline slots.
//! Relocations `R_X86_64_{64,PC32,PLT32,32,32S}` are resolved against the
//! loaded sections and the export table; a PC-relative reference to an
//! export goes through a trampoline (`mov rax, dest; jmp rax`), one per
//! export name. The entry points are the symbols `init_module` / `init` and
//! `cleanup_module` / `cleanup`; the module name comes from `.modinfo`
//! (`name=…`), else the caller's hint, else `module`.
//!
//! Offsets are computed without wrap-around; the result is a plan of byte
//! copies, patches and trampolines for the caller to apply to the image.

use vstd::prelude::*;
use vstd::string::StringSliceAdditionalSpecFns;
use crate::elf::{le, le8, le8_vec, read_le};
use crate::export::{export_index_from, lookup, EXPORT_COUNT};
use crate::mnx::{MnxError, MNX_MAX_CODE, MNX_MAX_FILE, MNX_NAME_LEN};
use crate::text::utf8_text;

verus! {

pub const SHT_PROGBITS: u32 = 1;
pub const SHT_SYMTAB: u32 = 2;
pub const SHT_STRTAB: u32 = 3;
pub const SHT_RELA: u32 = 4;
pub const SHT_NOBITS: u32 = 8;
pub const SHF_ALLOC: u64 = 2;
pub const SHN_UNDEF: u16 = 0;
pub const SHN_ABS: u16 = 0xfff1;
pub const SHN_COMMON: u16 = 0xfff2;
pub const R_X86_64_NONE: u32 = 0;
pub const R_X86_64_64: u32 = 1;
pub const R_X86_64_PC32: u32 = 2;
pub const R_X86_64_PLT32: u32 = 4;
pub const R_X86_64_32: u32 = 10;
pub const R_X86_64_32S: u32 = 11;
pub const MAX_SECTIONS: usize = 32;
pub const MAX_TRAMP: usize = 16;
pub const TRAMP_STRIDE: usize = 16;

/// One section header (the fields the loader reads).
#[derive(Clone, Copy, Debug, PartialEq, Eq, Structural)]
pub struct Shdr {
    pub name: u32,
    pub typ: u32,
    pub flags: u64,
    pub offset: u64,
    pub size: u64,
    pub link: u32,
    pub info: u32,
    pub addralign: u64,
    pub entsize: u64,
}

/// The section header stored at file offset `o`.
pub open spec fn shdr_at(d: Seq<u8>, o: int) -> Shdr {
    Shdr {
        name: le(d, o, 4) as u32,
        typ: le(d, o + 4, 4) as u32,
        flags: le(d, o + 8, 8) as u64,
        offset: le(d, o + 24, 8) as u64,
        size: le(d, o + 32, 8) as u64,
        link: le(d, o + 40, 4) as u32,
        info: le(d, o + 44, 4) as u32,
        addralign: le(d, o + 48, 8) as u64,
        entsize: le(d, o + 56, 8) as u64,
    }
}

/// The checked file header: section table offset, section count and the
/// index of the section-name table.
pub open spec fn rel_header(d: Seq<u8>) -> Result<(int, int, int), MnxError> {
    if d.len() > MNX_MAX_FILE || d.len() < 64 {
        Err(MnxError::Truncated)
    } else if d[0] != 0x7f || d[1] != 0x45 || d[2] != 0x4c || d[3] != 0x46 {
        Err(MnxError::BadMagic)
    } else if d[4] != 2 || d[5] != 1 || d[6] != 1 {
        Err(MnxError::BadMagic)
    } else if le(d, 16, 2) != 1 || le(d, 18, 2) != 62 {
        Err(MnxError::BadMagic)
    } else {
        let shoff = le(d, 40, 8);
        let n = le(d, 60, 2);
        let sx = le(d, 62, 2);
        if le(d, 58, 2) != 64 || n == 0 || n > MAX_SECTIONS {
            Err(MnxError::BadCode)
        } else if sx >= n {
            Err(MnxError::BadCode)
        } else if shoff + n * 64 > d.len() {
            Err(MnxError::Truncated)
        } else {
            Ok((shoff, n, sx))
        }
    }
}

/// Section `i` under header `h`.
pub open spec fn sec(d: Seq<u8>, h: (int, int, int), i: int) -> Shdr {
    shdr_at(d, h.0 + 64 * i)
}

/// Index of the first NUL of `d` in `[k, max)`, or `max`.
pub open spec fn nul_from(d: Seq<u8>, k: int, max: int) -> int
    decreases max - k,
{
    if k >= max {
        max
    } else if d[k] == 0 {
        k
    } else {
        nul_from(d, k + 1, max)
    }
}

pub open spec fn min_int(a: int, b: int) -> int {
    if a < b { a } else { b }
}

/// The NUL-terminated text at `start` of a string table, cut at `max`.
pub open spec fn text_at(d: Seq<u8>, start: int, max: int) -> Result<Seq<u8>, MnxError> {
    let s = d.subrange(start, nul_from(d, start, max));
    if vstd::utf8::valid_utf8(s) {
        Ok(s)
    } else {
        Err(MnxError::BadName)
    }
}

/// The name of a section: `off` bytes into the section-name table `t`.
pub open spec fn sh_name(d: Seq<u8>, t: Shdr, off: u32) -> Result<Seq<u8>, MnxError> {
    let start = t.offset + off;
    let max = min_int(t.offset + t.size, d.len() as int);
    if start >= d.len() || start >= max {
        Err(MnxError::Truncated)
    } else {
        text_at(d, start, max)
    }
}

/// A symbol name: `off` bytes into string table `t`, empty past its end.
pub open spec fn str_at(d: Seq<u8>, t: Shdr, off: u32) -> Result<Seq<u8>, MnxError> {
    let start = t.offset + off;
    let max = min_int(t.offset + t.size, d.len() as int);
    if start >= max {
        Ok(Seq::empty())
    } else {
        text_at(d, start, max)
    }
}

pub open spec fn modinfo_bytes() -> Seq<u8> {
    seq![46u8, 109, 111, 100, 105, 110, 102, 111]
}

pub open spec fn name_key() -> Seq<u8> {
    seq![110u8, 97, 109, 101, 61]
}

/// First index `>= i` where `name=` starts in `b`.
pub open spec fn find_key(b: Seq<u8>, i: int) -> Option<int>
    decreases b.len() - i,
{
    if i < 0 || i + 5 > b.len() {
        None
    } else if b.subrange(i, i + 5) == name_key() {
        Some(i)
    } else {
        find_key(b, i + 1)
    }
}

/// End of the value starting at `k`: the first NUL or newline, or the end.
pub open spec fn value_end(b: Seq<u8>, k: int) -> int
    decreases b.len() - k,
{
    if k < 0 || k >= b.len() || b[k] == 0 || b[k] == 10 {
        k
    } else {
        value_end(b, k + 1)
    }
}

/// The `name=` value of a `.modinfo` section, when there is one that is
/// non-empty text.
pub open spec fn modinfo_name(b: Seq<u8>) -> Option<Seq<u8>> {
    match find_key(b, 0) {
        None => None,
        Some(i) => {
            let e = value_end(b, i + 5);
            if e > i + 5 && vstd::utf8::valid_utf8(b.subrange(i + 5, e)) {
                Some(b.subrange(i + 5, e))
            } else {
                None
            }
        },
    }
}

/// The module name from the first `.modinfo` section among sections `i..`,
/// or why reading the section names failed.
pub open spec fn modinfo_scan(d: Seq<u8>, h: (int, int, int), i: int) -> Result<Option<Seq<u8>>, MnxError>
    decreases h.1 - i,
{
    if i < 1 || i >= h.1 {
        Ok(None)
    } else {
        let sh = sec(d, h, i);
        if sh.typ != SHT_PROGBITS {
            modinfo_scan(d, h, i + 1)
        } else {
            match sh_name(d, sec(d, h, h.2), sh.name) {
                Err(e) => Err(e),
                Ok(nm) => if nm != modinfo_bytes() {
                    modinfo_scan(d, h, i + 1)
                } else if sh.offset + sh.size > d.len() {
                    Err(MnxError::Truncated)
                } else {
                    Ok(modinfo_name(d.subrange(sh.offset as int, sh.offset + sh.size)))
                },
            }
        }
    }
}

fn read_shdr(d: &[u8], o: usize) -> (r: Shdr)
    requires
        o + 64 <= d@.len(),
    ensures
        r == shdr_at(d@, o as int),
{
    let _dl = d.len();
    Shdr {
        name: read_le(d, o, 4) as u32,
        typ: read_le(d, o + 4, 4) as u32,
        flags: read_le(d, o + 8, 8),
        offset: read_le(d, o + 24, 8),
        size: read_le(d, o + 32, 8),
        link: read_le(d, o + 40, 4) as u32,
        info: read_le(d, o + 44, 4) as u32,
        addralign: read_le(d, o + 48, 8),
        entsize: read_le(d, o + 56, 8),
    }
}

fn check_header(d: &[u8]) -> (r: Result<(usize, usize, usize), MnxError>)
    ensures
        match rel_header(d@) {
            Err(e) => r == Err::<(usize, usize, usize), MnxError>(e),
            Ok(h) => r matches Ok(x) && x.0 == h.0 && x.1 == h.1 && x.2 == h.2,
        },
{
    let dl = d.len();
    if dl > MNX_MAX_FILE || dl < 64 {
        return Err(MnxError::Truncated);
    }
    if d[0] != 0x7f || d[1] != 0x45 || d[2] != 0x4c || d[3] != 0x46 {
        return Err(MnxError::BadMagic);
    }
    if d[4] != 2 || d[5] != 1 || d[6] != 1 {
        return Err(MnxError::BadMagic);
    }
    if read_le(d, 16, 2) != 1 || read_le(d, 18, 2) != 62 {
        return Err(MnxError::BadMagic);
    }
    let shoff = read_le(d, 40, 8);
    let n = read_le(d, 60, 2);
    let sx = read_le(d, 62, 2);
    if read_le(d, 58, 2) != 64 || n == 0 || n > MAX_SECTIONS as u64 {
        return Err(MnxError::BadCode);
    }
    if sx >= n {
        return Err(MnxError::BadCode);
    }
    if shoff as u128 + (n as u128) * 64 > dl as u128 {
        return Err(MnxError::Truncated);
    }
    Ok((shoff as usize, n as usize, sx as usize))
}

/// `nul_from` computed.
fn nul_index(d: &[u8], k: usize, max: usize) -> (r: usize)
    requires
        max <= d@.len(),
        k <= max,
    ensures
        r == nul_from(d@, k as int, max as int),
        k <= r <= max,
    decreases max - k,
{
    let mut i = k;
    while i < max && d[i] != 0
        invariant
            k <= i <= max,
            max <= d@.len(),
            nul_from(d@, k as int, max as int) == nul_from(d@, i as int, max as int),
        decreases max - i,
    {
        i = i + 1;
    }
    i
}

fn text_bytes(d: &[u8], start: usize, max: usize) -> (r: Result<&[u8], MnxError>)
    requires
        start < max <= d@.len(),
    ensures
        match text_at(d@, start as int, max as int) {
            Err(e) => r == Err::<&[u8], MnxError>(e),
            Ok(s) => r matches Ok(x) && x@ == s,
        },
{
    let e = nul_index(d, start, max);
    let s = vstd::slice::slice_subrange(d, start, e);
    match utf8_text(s) {
        Some(_) => Ok(s),
        None => Err(MnxError::BadName),
    }
}

fn section_name<'a>(d: &'a [u8], t: &Shdr, off: u32) -> (r: Result<&'a [u8], MnxError>)
    ensures
        match sh_name(d@, *t, off) {
            Err(e) => r == Err::<&[u8], MnxError>(e),
            Ok(s) => r matches Ok(x) && x@ == s,
        },
{
    let dl = d.len() as u128;
    let start = t.offset as u128 + off as u128;
    let end = t.offset as u128 + t.size as u128;
    let max = if end < dl { end } else { dl };
    if start >= dl || start >= max {
        return Err(MnxError::Truncated);
    }
    text_bytes(d, start as usize, max as usize)
}

fn string_at<'a>(d: &'a [u8], t: &Shdr, off: u32) -> (r: Result<&'a [u8], MnxError>)
    ensures
        match str_at(d@, *t, off) {
            Err(e) => r == Err::<&[u8], MnxError>(e),
            Ok(s) => r matches Ok(x) && x@ == s,
        },
{
    let dl = d.len() as u128;
    let start = t.offset as u128 + off as u128;
    let end = t.offset as u128 + t.size as u128;
    let max = if end < dl { end } else { dl };
    if start >= max {
        let e: &[u8] = &[];
        assert(e@ =~= Seq::<u8>::empty());
        return Ok(e);
    }
    text_bytes(d, start as usize, max as usize)
}

fn parse_modinfo_name(b: &[u8]) -> (r: Option<&[u8]>)
    ensures
        match modinfo_name(b@) {
            None => r is None,
            Some(s) => r matches Some(x) && x@ == s,
        },
{
    let key: [u8; 5] = [110, 97, 109, 101, 61];
    let ghost kb = name_key();
    assert(key@ =~= kb);
    let mut i: usize = 0;
    let bl = b.len();
    while bl >= 5 && i <= bl - 5
        invariant
            bl == b@.len(),
            key@ == name_key(),
            find_key(b@, 0) == find_key(b@, i as int),
        decreases b.len() - i,
    {
        let w = vstd::slice::slice_subrange(b, i, i + 5);
        if crate::text::bytes_eq(w, key.as_slice()) {
            assert(find_key(b@, i as int) == Some(i as int));
            let start = i + 5;
            let mut end = start;
            while end < b.len() && b[end] != 0 && b[end] != 10
                invariant
                    start <= end <= b@.len(),
                    value_end(b@, start as int) == value_end(b@, end as int),
                decreases b.len() - end,
            {
                end = end + 1;
            }
            if end > start {
                let v = vstd::slice::slice_subrange(b, start, end);
                return match utf8_text(v) {
                    Some(_) => Some(v),
                    None => None,
                };
            }
            return None;
        }
        i = i + 1;
    }
    None
}

/// The section is placed in the image.
pub open spec fn lays_out(sh: Shdr) -> bool {
    sh.flags & 2 != 0 && (sh.typ == SHT_PROGBITS || sh.typ == SHT_NOBITS)
}

pub open spec fn align_of(sh: Shdr) -> u64 {
    if sh.addralign == 0 { 1 } else { sh.addralign }
}

/// `v` rounded up by clearing the low bits of `v + a - 1` (as for a power
/// of two `a`; `a <= 1` leaves `v`).
pub open spec fn align_up(v: int, a: u64) -> int {
    if a <= 1 {
        v
    } else {
        (((v + a - 1) as u128) & !((a - 1) as u128)) as int
    }
}

/// Bytes of the image used by sections `1..i`.
pub open spec fn laid(d: Seq<u8>, h: (int, int, int), i: int) -> int
    decreases i,
{
    if i <= 1 {
        0
    } else {
        let sh = sec(d, h, i - 1);
        if lays_out(sh) {
            align_up(laid(d, h, i - 1), align_of(sh)) + sh.size
        } else {
            laid(d, h, i - 1)
        }
    }
}

/// Image offset of section `i` (0 for a section not placed).
pub open spec fn sec_base(d: Seq<u8>, h: (int, int, int), i: int) -> int {
    if i >= 1 && lays_out(sec(d, h, i)) {
        align_up(laid(d, h, i), align_of(sec(d, h, i)))
    } else {
        0
    }
}

/// Where the trampoline slots start.
pub open spec fn tramp_base(d: Seq<u8>, h: (int, int, int)) -> int {
    align_up(laid(d, h, h.1), 16)
}

/// Image size: the sections, then sixteen trampoline slots.
pub open spec fn image_size(d: Seq<u8>, h: (int, int, int)) -> int {
    tramp_base(d, h) + (MAX_TRAMP * TRAMP_STRIDE) as int
}

/// The image size a file needs, or why it is refused before any allocation.
pub open spec fn layout_spec(d: Seq<u8>) -> Result<int, MnxError> {
    match rel_header(d) {
        Err(e) => Err(e),
        Ok(h) => match modinfo_scan(d, h, 1) {
            Err(e) => Err(e),
            Ok(_) => if image_size(d, h) > (MNX_MAX_CODE + MAX_TRAMP * TRAMP_STRIDE) as int {
                Err(MnxError::BadCode)
            } else {
                Ok(image_size(d, h))
            },
        },
    }
}

pub proof fn lemma_align_up(v: int, a: u64)
    requires
        0 <= v < 0x1_0000_0000_0000_0000_0000_0000,
    ensures
        v <= align_up(v, a) <= v + a,
{
    if a > 1 {
        let x = (v + a - 1) as u128;
        let m = (a - 1) as u128;
        assert(x & !m == x - (x & m) && x & m <= m) by (bit_vector);
    }
}

proof fn lemma_laid_bound(d: Seq<u8>, h: (int, int, int), i: int)
    requires
        i <= 40,
    ensures
        0 <= laid(d, h, i) <= (if i < 1 { 0 } else { i }) * 0x2_0000_0000_0000_0000,
    decreases i,
{
    if i > 1 {
        lemma_laid_bound(d, h, i - 1);
        let sh = sec(d, h, i - 1);
        if lays_out(sh) {
            lemma_align_up(laid(d, h, i - 1), align_of(sh));
        }
    }
}

proof fn lemma_laid_mono(d: Seq<u8>, h: (int, int, int), i: int, j: int)
    requires
        i <= j <= 40,
    ensures
        laid(d, h, i) <= laid(d, h, j),
    decreases j - i,
{
    if i < j {
        lemma_laid_mono(d, h, i, j - 1);
        if j > 1 {
            lemma_laid_bound(d, h, j - 1);
            let sh = sec(d, h, j - 1);
            if lays_out(sh) {
                lemma_align_up(laid(d, h, j - 1), align_of(sh));
            }
        }
    }
}

/// Every placed section starts no later than the trampolines.
pub proof fn lemma_base_below(d: Seq<u8>, h: (int, int, int), i: int)
    requires
        1 <= i < h.1 <= 32,
    ensures
        0 <= sec_base(d, h, i) <= tramp_base(d, h),
{
    lemma_laid_bound(d, h, i);
    lemma_laid_bound(d, h, h.1);
    lemma_laid_mono(d, h, i + 1, h.1);
    lemma_align_up(laid(d, h, h.1), 16);
    if i >= 1 && lays_out(sec(d, h, i)) {
        lemma_align_up(laid(d, h, i), align_of(sec(d, h, i)));
    }
}

fn align_up_exec(v: u128, a: u64) -> (r: u128)
    requires
        v < 0x1_0000_0000_0000_0000_0000_0000,
    ensures
        r == align_up(v as int, a),
{
    proof {
        lemma_align_up(v as int, a);
    }
    if a <= 1 {
        v
    } else {
        (v + a as u128 - 1) & !((a - 1) as u128)
    }
}

fn section(d: &[u8], shoff: usize, i: usize) -> (r: Shdr)
    requires
        shoff + 64 * i + 64 <= d@.len(),
    ensures
        r == shdr_at(d@, shoff + 64 * i),
{
    let _dl = d.len();
    read_shdr(d, shoff + 64 * i)
}

/// `modinfo_scan` computed.
fn scan_modinfo<'a>(d: &'a [u8], shoff: usize, n: usize, sx: usize) -> (r: Result<Option<&'a [u8]>, MnxError>)
    requires
        sx < n <= MAX_SECTIONS,
        shoff + 64 * n <= d@.len(),
    ensures
        match modinfo_scan(d@, (shoff as int, n as int, sx as int), 1) {
            Err(e) => r == Err::<Option<&[u8]>, MnxError>(e),
            Ok(None) => r == Ok::<Option<&[u8]>, MnxError>(None),
            Ok(Some(s)) => r matches Ok(Some(x)) && x@ == s,
        },
{
    let ghost h = (shoff as int, n as int, sx as int);
    let shstr = section(d, shoff, sx);
    let mi: [u8; 8] = [46, 109, 111, 100, 105, 110, 102, 111];
    assert(mi@ =~= modinfo_bytes());
    let mut i: usize = 1;
    while i < n
        invariant
            sx < n <= MAX_SECTIONS,
            shoff + 64 * n <= d@.len(),
            1 <= i <= n,
            h == (shoff as int, n as int, sx as int),
            shstr == sec(d@, h, sx as int),
            mi@ == modinfo_bytes(),
            modinfo_scan(d@, h, 1) == modinfo_scan(d@, h, i as int),
        decreases n - i,
    {
        let sh = section(d, shoff, i);
        if sh.typ == SHT_PROGBITS {
            let nm = match section_name(d, &shstr, sh.name) {
                Err(e) => return Err(e),
                Ok(x) => x,
            };
            if crate::text::bytes_eq(nm, mi.as_slice()) {
                let end = sh.offset as u128 + sh.size as u128;
                if end > d.len() as u128 {
                    return Err(MnxError::Truncated);
                }
                let b = vstd::slice::slice_subrange(d, sh.offset as usize, end as usize);
                return Ok(parse_modinfo_name(b));
            }
        }
        i = i + 1;
    }
    Ok(None)
}

/// Offsets of every section (0 for one not placed) and the bytes used.
fn lay_out(d: &[u8], shoff: usize, n: usize, sx: usize) -> (r: (Vec<u128>, u128))
    requires
        sx < n <= MAX_SECTIONS,
        shoff + 64 * n <= d@.len(),
    ensures
        r.0@.len() == n,
        r.0@[0] == 0,
        forall|i: int| 1 <= i < n ==> r.0@[i] == sec_base(d@, (shoff as int, n as int, sx as int), i),
        r.1 == laid(d@, (shoff as int, n as int, sx as int), n as int),
{
    let ghost h = (shoff as int, n as int, sx as int);
    let mut bases: Vec<u128> = Vec::new();
    bases.push(0);
    let mut used: u128 = 0;
    let mut i: usize = 1;
    while i < n
        invariant
            n <= MAX_SECTIONS,
            shoff + 64 * n <= d@.len(),
            1 <= i <= n,
            h == (shoff as int, n as int, sx as int),
            bases@.len() == i,
            bases@[0] == 0,
            forall|k: int| 1 <= k < i ==> bases@[k] == sec_base(d@, h, k),
            used == laid(d@, h, i as int),
        decreases n - i,
    {
        proof {
            lemma_laid_bound(d@, h, i as int);
            lemma_laid_bound(d@, h, i + 1);
        }
        let sh = section(d, shoff, i);
        if sh.flags & SHF_ALLOC != 0 && (sh.typ == SHT_PROGBITS || sh.typ == SHT_NOBITS) {
            let al = if sh.addralign == 0 { 1 } else { sh.addralign };
            let b = align_up_exec(used, al);
            bases.push(b);
            used = b + sh.size as u128;
        } else {
            bases.push(0);
        }
        i = i + 1;
    }
    (bases, used)
}

/// The image size a `.ko` file needs: the checks that come before the
/// image is allocated, then the size.
pub fn elfrel_layout(buf: &[u8]) -> (r: Result<usize, MnxError>)
    ensures
        match layout_spec(buf@) {
            Err(e) => r == Err::<usize, MnxError>(e),
            Ok(t) => r == Ok::<usize, MnxError>(t as usize),
        },
{
    let (shoff, n, sx) = match check_header(buf) {
        Err(e) => return Err(e),
        Ok(h) => h,
    };
    let ghost h = (shoff as int, n as int, sx as int);
    match scan_modinfo(buf, shoff, n, sx) {
        Err(e) => return Err(e),
        Ok(_) => {},
    }
    let (_bases, used) = lay_out(buf, shoff, n, sx);
    proof {
        lemma_laid_bound(buf@, h, n as int);
        lemma_align_up(used as int, 16);
    }
    let tb = align_up_exec(used, 16);
    let total = tb + (MAX_TRAMP * TRAMP_STRIDE) as u128;
    if total > (MNX_MAX_CODE + MAX_TRAMP * TRAMP_STRIDE) as u128 {
        return Err(MnxError::BadCode);
    }
    Ok(total as usize)
}

/// Bytes copied from the file into the image: `(image offset, file offset,
/// length)` for each non-empty `PROGBITS` section placed, from section `i`
/// on, or `Truncated` when one runs past the file.
pub open spec fn copies_scan(d: Seq<u8>, h: (int, int, int), i: int) -> Result<Seq<(usize, usize, usize)>, MnxError>
    decreases h.1 - i,
{
    if i < 1 || i >= h.1 {
        Ok(Seq::empty())
    } else {
        let sh = sec(d, h, i);
        if sh.flags & 2 == 0 || sh.typ != SHT_PROGBITS || sh.size == 0 {
            copies_scan(d, h, i + 1)
        } else if sh.offset + sh.size > d.len() {
            Err(MnxError::Truncated)
        } else {
            match copies_scan(d, h, i + 1) {
                Err(e) => Err(e),
                Ok(rest) => Ok(seq![(sec_base(d, h, i) as usize, sh.offset as usize, sh.size as usize)] + rest),
            }
        }
    }
}

/// Index of the first section of type `typ` from `i` on.
pub open spec fn find_type(d: Seq<u8>, h: (int, int, int), typ: u32, i: int) -> Option<int>
    decreases h.1 - i,
{
    if i < 1 || i >= h.1 {
        None
    } else if sec(d, h, i).typ == typ {
        Some(i)
    } else {
        find_type(d, h, typ, i + 1)
    }
}

/// The symbol table: its index, its header, its string table and the
/// number of symbols, or why it is refused.
pub open spec fn sym_setup(d: Seq<u8>, h: (int, int, int)) -> Result<(int, Shdr, Shdr, int), MnxError> {
    match find_type(d, h, SHT_SYMTAB, 1) {
        None => Err(MnxError::BadCode),
        Some(si) => {
            let st = sec(d, h, si);
            if st.link >= h.1 {
                Err(MnxError::BadCode)
            } else if sec(d, h, st.link as int).typ != SHT_STRTAB {
                Err(MnxError::BadCode)
            } else {
                let ns: int = if st.entsize == 0 { 0 } else { (st.size / st.entsize) as int };
                if ns > 256 || st.entsize != 24 {
                    Err(MnxError::BadReloc)
                } else {
                    Ok((si, st, sec(d, h, st.link as int), ns))
                }
            }
        }
    }
}

pub open spec fn wadd(a: u64, b: u64) -> u64 {
    vstd::wrapping::u64_specs::wrapping_add(a, b)
}

/// Address of symbol `(shndx, value)` once the image is at `va`.
pub open spec fn resolve(d: Seq<u8>, h: (int, int, int), va: u64, shndx: int, value: u64) -> Result<u64, MnxError> {
    if shndx == SHN_UNDEF {
        Err(MnxError::Unresolved)
    } else if shndx == SHN_ABS {
        Ok(value)
    } else if shndx == SHN_COMMON {
        Err(MnxError::BadReloc)
    } else if shndx >= h.1 {
        Err(MnxError::BadReloc)
    } else if sec(d, h, shndx).flags & 2 == 0 {
        Err(MnxError::BadReloc)
    } else {
        Ok(wadd(wadd(va, sec_base(d, h, shndx) as u64), value))
    }
}

/// First trampoline from `k` on made for `name`.
pub open spec fn tramp_find(ts: Seq<(Seq<u8>, u64)>, name: Seq<u8>, k: int) -> Option<int>
    decreases ts.len() - k,
{
    if k < 0 || k >= ts.len() {
        None
    } else if ts[k].0 == name {
        Some(k)
    } else {
        tramp_find(ts, name, k + 1)
    }
}

/// The patch a relocation of type `rtype` makes at image offset `img`, with
/// symbol address `s`, addend `add`, and `p` the patched address.
pub open spec fn patch_for(rtype: int, s: u64, add: i64, p: u64, img: int, total: int) -> Result<(usize, u8, u64), MnxError> {
    let sv = vstd::wrapping::i64_specs::wrapping_add(s as i64, add);
    if rtype == R_X86_64_64 {
        if img + 8 > total {
            Err(MnxError::BadReloc)
        } else {
            Ok((img as usize, 8u8, sv as u64))
        }
    } else if rtype == R_X86_64_PC32 || rtype == R_X86_64_PLT32 {
        let v = vstd::wrapping::i64_specs::wrapping_sub(sv, p as i64);
        if img + 4 > total || v < i32::MIN || v > i32::MAX {
            Err(MnxError::BadReloc)
        } else {
            Ok((img as usize, 4u8, (v as u32) as u64))
        }
    } else if rtype == R_X86_64_32 {
        if img + 4 > total || sv < 0 || sv > u32::MAX {
            Err(MnxError::BadReloc)
        } else {
            Ok((img as usize, 4u8, sv as u64))
        }
    } else if rtype == R_X86_64_32S {
        if img + 4 > total || sv < i32::MIN || sv > i32::MAX {
            Err(MnxError::BadReloc)
        } else {
            Ok((img as usize, 4u8, (sv as u32) as u64))
        }
    } else {
        Err(MnxError::BadReloc)
    }
}

/// Two's-complement casts between the 64- and 32-bit widths the patches use.
proof fn lemma_casts(s: u64, x: i64)
    by (bit_vector)
    ensures
        s < 0x8000_0000_0000_0000 ==> (s as i64) as int == s as int,
        s >= 0x8000_0000_0000_0000 ==> (s as i64) as int == s as int - 0x1_0000_0000_0000_0000int,
        x >= 0 ==> (x as u64) as int == x as int,
        x < 0 ==> (x as u64) as int == x as int + 0x1_0000_0000_0000_0000int,
        0 <= x < 0x1_0000_0000 ==> (x as u32) as int == x as int,
        -0x8000_0000 <= x < 0 ==> (x as u32) as int == x as int + 0x1_0000_0000int,
{
}

/// `S + A` wraps to the same 64-bit value as the signed sum of the patch.
proof fn lemma_wrapped_sum(s: u64, add: i64)
    ensures
        ((s + add) - vstd::wrapping::i64_specs::wrapping_add(s as i64, add)) % 0x1_0000_0000_0000_0000int == 0,
{
    let sv = vstd::wrapping::i64_specs::wrapping_add(s as i64, add);
    lemma_casts(s, 0);
    let d = (s + add) - sv;
    assert(d == 0 || d == 0x1_0000_0000_0000_0000int || d == -0x1_0000_0000_0000_0000int || d == 0x2_0000_0000_0000_0000int);
}

proof fn lemma_wrapped_diff(x: i64, p: u64)
    ensures
        ((x - p) - vstd::wrapping::i64_specs::wrapping_sub(x, p as i64)) % 0x1_0000_0000_0000_0000int == 0,
{
    lemma_casts(p, 0);
    let d = (x - p) - vstd::wrapping::i64_specs::wrapping_sub(x, p as i64);
    assert(d == 0 || d == 0x1_0000_0000_0000_0000int || d == -0x1_0000_0000_0000_0000int || d == -0x2_0000_0000_0000_0000int);
}

/// A value in `[0, m)` that differs from `x` by a multiple of `m` is `x`
/// reduced modulo `m`.
proof fn lemma_reduced(x: int, y: int, m: int)
    requires
        m > 0,
        0 <= y < m,
        (x - y) % m == 0,
    ensures
        y == x % m,
{
    let k = (x - y) / m;
    vstd::arithmetic::div_mod::lemma_fundamental_div_mod(x - y, m);
    assert(x == m * k + y);
    vstd::arithmetic::div_mod::lemma_mod_multiples_vanish(k, y, m);
    vstd::arithmetic::div_mod::lemma_small_mod(y as nat, m as nat);
}

/// A multiple of 2^64 is a multiple of 2^32.
proof fn lemma_mult64_is_mult32(z: int)
    requires
        z % 0x1_0000_0000_0000_0000int == 0,
    ensures
        z % 0x1_0000_0000int == 0,
        (z + 0x1_0000_0000int) % 0x1_0000_0000int == 0,
        (z - 0x1_0000_0000int) % 0x1_0000_0000int == 0,
{
    let k = z / 0x1_0000_0000_0000_0000int;
    vstd::arithmetic::div_mod::lemma_fundamental_div_mod(z, 0x1_0000_0000_0000_0000int);
    let j = k * 0x1_0000_0000int;
    assert(z == 0x1_0000_0000int * j) by (nonlinear_arith)
        requires
            z == 0x1_0000_0000_0000_0000int * k,
            j == k * 0x1_0000_0000int,
    ;
    vstd::arithmetic::div_mod::lemma_mod_multiples_vanish(j, 0, 0x1_0000_0000int);
    vstd::arithmetic::div_mod::lemma_mod_multiples_vanish(j + 1, 0, 0x1_0000_0000int);
    vstd::arithmetic::div_mod::lemma_mod_multiples_vanish(j - 1, 0, 0x1_0000_0000int);
    assert(0int % 0x1_0000_0000int == 0);
}

/// What a relocation writes at image offset `img` for symbol address `S`,
/// addend `A` and patched address `P`: the absolute types write the low 64
/// or 32 bits of `S + A` and do not depend on `P`; the PC-relative types
/// write the low 32 bits of `S + A - P`.
pub proof fn lemma_patch_values(rtype: int, s: u64, add: i64, p: u64, q: u64, img: int, total: int)
    ensures
        (rtype == R_X86_64_64 || rtype == R_X86_64_32 || rtype == R_X86_64_32S) ==> patch_for(rtype, s, add, p, img, total)
            == patch_for(rtype, s, add, q, img, total),
        patch_for(rtype, s, add, p, img, total) matches Ok(t) ==> {
            &&& img + t.1 <= total
            &&& rtype == R_X86_64_64 ==> t.1 == 8 && t.2 as int == (s + add) % 0x1_0000_0000_0000_0000int
            &&& (rtype == R_X86_64_32 || rtype == R_X86_64_32S) ==> t.1 == 4 && t.2 as int == (s + add) % 0x1_0000_0000int
            &&& (rtype == R_X86_64_PC32 || rtype == R_X86_64_PLT32) ==> t.1 == 4 && t.2 as int == (s + add - p)
                % 0x1_0000_0000int
        },
{
    let sv = vstd::wrapping::i64_specs::wrapping_add(s as i64, add);
    lemma_wrapped_sum(s, add);
    let x = s + add;
    if let Ok(t) = patch_for(rtype, s, add, p, img, total) {
        if rtype == R_X86_64_64 {
            lemma_casts(0, sv);
            lemma_reduced(x, t.2 as int, 0x1_0000_0000_0000_0000int);
        } else if rtype == R_X86_64_32 {
            lemma_casts(0, sv);
            lemma_mult64_is_mult32(x - sv);
            lemma_reduced(x, t.2 as int, 0x1_0000_0000int);
        } else if rtype == R_X86_64_32S {
            lemma_casts(0, sv);
            lemma_mult64_is_mult32(x - sv);
            lemma_reduced(x, t.2 as int, 0x1_0000_0000int);
        } else if rtype == R_X86_64_PC32 || rtype == R_X86_64_PLT32 {
            let v = vstd::wrapping::i64_specs::wrapping_sub(sv, p as i64);
            lemma_wrapped_diff(sv, p);
            lemma_casts(0, v);
            let z = (x - p) - v;
            assert(z == ((x - sv) + ((sv - p) - v)));
            assert(z % 0x1_0000_0000_0000_0000int == 0) by {
                let a = x - sv;
                let b = (sv - p) - v;
                vstd::arithmetic::div_mod::lemma_fundamental_div_mod(a, 0x1_0000_0000_0000_0000int);
                vstd::arithmetic::div_mod::lemma_fundamental_div_mod(b, 0x1_0000_0000_0000_0000int);
                vstd::arithmetic::div_mod::lemma_mod_multiples_vanish(a / 0x1_0000_0000_0000_0000int + b / 0x1_0000_0000_0000_0000int, 0, 0x1_0000_0000_0000_0000int);
                assert(0int % 0x1_0000_0000_0000_0000int == 0);
            }
            lemma_mult64_is_mult32(z);
            lemma_reduced(x - p, t.2 as int, 0x1_0000_0000int);
        }
    }
}

/// The symbol address for a relocation and the trampolines after it: an
/// export through its trampoline (made on first use) for a PC-relative
/// reference, the export itself otherwise; a defined symbol by `resolve`.
pub open spec fn sym_value(
    d: Seq<u8>, h: (int, int, int), va: u64, ex: Seq<u64>, sname: Seq<u8>, shndx: int, value: u64, is_pc: bool,
    ts: Seq<(Seq<u8>, u64)>,
) -> Result<(u64, Seq<(Seq<u8>, u64)>), MnxError> {
    if shndx == SHN_UNDEF {
        match export_index_from(sname, 0) {
            None => Err(MnxError::Unresolved),
            Some(x) => {
                let dest = ex[x];
                if is_pc {
                    match tramp_find(ts, sname, 0) {
                        Some(k) => Ok((wadd(va, (tramp_base(d, h) + 16 * k) as u64), ts)),
                        None => if ts.len() >= MAX_TRAMP || sname.len() > 32 {
                            Err(MnxError::BadReloc)
                        } else {
                            Ok((wadd(va, (tramp_base(d, h) + 16 * ts.len()) as u64), ts.push((sname, dest))))
                        },
                    }
                } else {
                    Ok((dest, ts))
                }
            },
        }
    } else {
        match resolve(d, h, va, shndx, value) {
            Err(e) => Err(e),
            Ok(v) => Ok((v, ts)),
        }
    }
}

/// One relocation entry at file offset `ro` against section `target`.
#[verifier::opaque]
pub open spec fn one_reloc(
    d: Seq<u8>, h: (int, int, int), va: u64, ex: Seq<u64>, sy: (int, Shdr, Shdr, int), target: int, ro: int,
    st: (Seq<(usize, u8, u64)>, Seq<(Seq<u8>, u64)>),
) -> Result<(Seq<(usize, u8, u64)>, Seq<(Seq<u8>, u64)>), MnxError> {
    if ro + 24 > d.len() {
        Err(MnxError::Truncated)
    } else {
        let roff = le(d, ro, 8);
        let info = le(d, ro + 8, 8);
        let add = le(d, ro + 16, 8) as i64;
        let rtype = info % 0x1_0000_0000;
        let rsym = info / 0x1_0000_0000;
        if rtype == R_X86_64_NONE {
            Ok(st)
        } else if rsym >= sy.3 {
            Err(MnxError::BadReloc)
        } else {
            let so = sy.1.offset + rsym * 24;
            if so + 16 > d.len() {
                Err(MnxError::Truncated)
            } else {
                match str_at(d, sy.2, le(d, so, 4) as u32) {
                    Err(e) => Err(e),
                    Ok(sname) => {
                        let img = sec_base(d, h, target) + roff;
                        let p = wadd(va, img as u64);
                        let is_pc = rtype == R_X86_64_PC32 || rtype == R_X86_64_PLT32;
                        match sym_value(d, h, va, ex, sname, le(d, so + 6, 2), le(d, so + 8, 8) as u64, is_pc, st.1) {
                            Err(e) => Err(e),
                            Ok((sv, ts)) => match patch_for(rtype, sv, add, p, img, image_size(d, h)) {
                                Err(e) => Err(e),
                                Ok(pt) => Ok((st.0.push(pt), ts)),
                            },
                        }
                    },
                }
            }
        }
    }
}

/// Relocations `r..` of section `i` applied to state `st`.
pub open spec fn sec_relocs(
    d: Seq<u8>, h: (int, int, int), va: u64, ex: Seq<u64>, sy: (int, Shdr, Shdr, int), i: int, r: int,
    st: (Seq<(usize, u8, u64)>, Seq<(Seq<u8>, u64)>),
) -> Result<(Seq<(usize, u8, u64)>, Seq<(Seq<u8>, u64)>), MnxError>
    decreases sec(d, h, i).size / 24 - r,
{
    let rela = sec(d, h, i);
    if r < 0 || r >= rela.size / 24 {
        Ok(st)
    } else {
        match one_reloc(d, h, va, ex, sy, rela.info as int, rela.offset + 24 * r, st) {
            Err(e) => Err(e),
            Ok(s2) => sec_relocs(d, h, va, ex, sy, i, r + 1, s2),
        }
    }
}

/// The relocation sections from `i` on applied to state `st`.
pub open spec fn all_relocs(
    d: Seq<u8>, h: (int, int, int), va: u64, ex: Seq<u64>, sy: (int, Shdr, Shdr, int), i: int,
    st: (Seq<(usize, u8, u64)>, Seq<(Seq<u8>, u64)>),
) -> Result<(Seq<(usize, u8, u64)>, Seq<(Seq<u8>, u64)>), MnxError>
    decreases h.1 - i,
{
    if i < 1 || i >= h.1 {
        Ok(st)
    } else {
        let rela = sec(d, h, i);
        if rela.typ != SHT_RELA {
            all_relocs(d, h, va, ex, sy, i + 1, st)
        } else if rela.info >= h.1 {
            Err(MnxError::BadReloc)
        } else if sec(d, h, rela.info as int).flags & 2 == 0 {
            all_relocs(d, h, va, ex, sy, i + 1, st)
        } else if rela.entsize != 24 || rela.link != sy.0 {
            Err(MnxError::BadReloc)
        } else if rela.size / 24 > 256 {
            Err(MnxError::BadReloc)
        } else {
            match sec_relocs(d, h, va, ex, sy, i, 0, st) {
                Err(e) => Err(e),
                Ok(s2) => all_relocs(d, h, va, ex, sy, i + 1, s2),
            }
        }
    }
}

pub open spec fn init_module_bytes() -> Seq<u8> {
    seq![105u8, 110, 105, 116, 95, 109, 111, 100, 117, 108, 101]
}

pub open spec fn init_bytes() -> Seq<u8> {
    seq![105u8, 110, 105, 116]
}

pub open spec fn cleanup_module_bytes() -> Seq<u8> {
    seq![99u8, 108, 101, 97, 110, 117, 112, 95, 109, 111, 100, 117, 108, 101]
}

pub open spec fn cleanup_bytes() -> Seq<u8> {
    seq![99u8, 108, 101, 97, 110, 117, 112]
}

/// The entry points found among symbols `k..`: the last defined
/// `init_module`/`init` and `cleanup_module`/`cleanup` win.
pub open spec fn entry_scan(
    d: Seq<u8>, h: (int, int, int), va: u64, sy: (int, Shdr, Shdr, int), k: int, init: Option<u64>, exit: Option<u64>,
) -> Result<(Option<u64>, Option<u64>), MnxError>
    decreases sy.3 - k,
{
    if k < 1 || k >= sy.3 {
        Ok((init, exit))
    } else {
        let so = sy.1.offset + 24 * k;
        if so + 16 > d.len() {
            Err(MnxError::Truncated)
        } else {
            let shndx = le(d, so + 6, 2);
            if shndx == SHN_UNDEF || shndx == SHN_ABS || shndx == SHN_COMMON {
                entry_scan(d, h, va, sy, k + 1, init, exit)
            } else {
                match str_at(d, sy.2, le(d, so, 4) as u32) {
                    Err(_) => entry_scan(d, h, va, sy, k + 1, init, exit),
                    Ok(nm) => match resolve(d, h, va, shndx, le(d, so + 8, 8) as u64) {
                        Err(_) => entry_scan(d, h, va, sy, k + 1, init, exit),
                        Ok(a) => if nm == init_module_bytes() || nm == init_bytes() {
                            entry_scan(d, h, va, sy, k + 1, Some(a), exit)
                        } else if nm == cleanup_module_bytes() || nm == cleanup_bytes() {
                            entry_scan(d, h, va, sy, k + 1, init, Some(a))
                        } else {
                            entry_scan(d, h, va, sy, k + 1, init, exit)
                        },
                    },
                }
            }
        }
    }
}

pub open spec fn module_bytes() -> Seq<u8> {
    seq![109u8, 111, 100, 117, 108, 101]
}

/// The module name: the `.modinfo` name, else the hint, else `module`, cut
/// to 28 bytes.
pub open spec fn chosen_name(parsed: Option<Seq<u8>>, hint: Seq<u8>) -> Seq<u8> {
    match parsed {
        Some(n) => n.take(min_int(n.len() as int, MNX_NAME_LEN as int)),
        None => if hint.len() > 0 {
            hint.take(min_int(hint.len() as int, MNX_NAME_LEN as int))
        } else {
            module_bytes()
        },
    }
}

/// A load plan as values.
pub struct ElfRelPlanView {
    pub name: Seq<u8>,
    pub image_len: int,
    pub copies: Seq<(usize, usize, usize)>,
    pub patches: Seq<(usize, u8, u64)>,
    pub trampolines: Seq<(usize, u64)>,
    pub init_va: u64,
    pub exit_va: Option<u64>,
}

/// Trampoline slots as `(image offset, export address)`.
pub open spec fn tramp_slots(ts: Seq<(Seq<u8>, u64)>, tb: int) -> Seq<(usize, u64)> {
    Seq::new(ts.len(), |k: int| ((tb + 16 * k) as usize, ts[k].1))
}

/// The plan for loading file `d` at address `va` with export addresses `ex`,
/// or why the file is refused.
pub open spec fn elfrel_spec(d: Seq<u8>, hint: Seq<u8>, va: u64, ex: Seq<u64>) -> Result<ElfRelPlanView, MnxError> {
    match rel_header(d) {
        Err(e) => Err(e),
        Ok(h) => match modinfo_scan(d, h, 1) {
            Err(e) => Err(e),
            Ok(mname) => if image_size(d, h) > (MNX_MAX_CODE + MAX_TRAMP * TRAMP_STRIDE) as int {
                Err(MnxError::BadCode)
            } else {
                match copies_scan(d, h, 1) {
                    Err(e) => Err(e),
                    Ok(cps) => match sym_setup(d, h) {
                        Err(e) => Err(e),
                        Ok(sy) => match all_relocs(d, h, va, ex, sy, 1, (Seq::empty(), Seq::empty())) {
                            Err(e) => Err(e),
                            Ok(st) => match entry_scan(d, h, va, sy, 1, None, None) {
                                Err(e) => Err(e),
                                Ok((init, exit)) => match init {
                                    None => Err(MnxError::BadCode),
                                    Some(iv) => Ok(
                                        ElfRelPlanView {
                                            name: chosen_name(mname, hint),
                                            image_len: image_size(d, h),
                                            copies: cps,
                                            patches: st.0,
                                            trampolines: tramp_slots(st.1, tramp_base(d, h)),
                                            init_va: iv,
                                            exit_va: exit,
                                        },
                                    ),
                                },
                            },
                        },
                    },
                }
            },
        },
    }
}

pub proof fn lemma_export_index_range(name: Seq<u8>, k: int)
    ensures
        export_index_from(name, k) matches Some(i) ==> 0 <= i < EXPORT_COUNT,
    decreases EXPORT_COUNT - k,
{
    if 0 <= k < EXPORT_COUNT && !(crate::export::export_name(k as usize)->0.spec_bytes() == name) {
        lemma_export_index_range(name, k + 1);
    }
}

/// Trampolines as stored: name and export address.
pub open spec fn tview(v: Seq<(Vec<u8>, u64)>) -> Seq<(Seq<u8>, u64)> {
    Seq::new(v.len(), |k: int| (v[k].0@, v[k].1))
}

/// The 12 bytes of a trampoline to `dest`: `mov rax, dest; jmp rax`.
pub open spec fn stub_bytes(dest: u64) -> Seq<u8> {
    seq![0x48u8, 0xB8] + le8(dest) + seq![0xFFu8, 0xE0]
}

/// The trampoline code for `dest`.
pub fn tramp_stub(dest: u64) -> (v: Vec<u8>)
    ensures
        v@ == stub_bytes(dest),
{
    let mut v: Vec<u8> = Vec::new();
    v.push(0x48);
    v.push(0xB8);
    let b = le8_vec(dest);
    let mut i: usize = 0;
    while i < b.len()
        invariant
            i <= b@.len(),
            b@ == le8(dest),
            v@ == seq![0x48u8, 0xB8] + b@.take(i as int),
        decreases b@.len() - i,
    {
        v.push(b[i]);
        i = i + 1;
        assert(v@ =~= seq![0x48u8, 0xB8] + b@.take(i as int));
    }
    v.push(0xFF);
    v.push(0xE0);
    assert(b@.take(b@.len() as int) =~= b@);
    assert(v@ =~= stub_bytes(dest));
    v
}

fn copies_of(d: &[u8], shoff: usize, n: usize, sx: usize, bases: &Vec<u128>) -> (r: Result<Vec<(usize, usize, usize)>, MnxError>)
    requires
        sx < n <= MAX_SECTIONS,
        shoff + 64 * n <= d@.len(),
        bases@.len() == n,
        forall|i: int| 1 <= i < n ==> bases@[i] == sec_base(d@, (shoff as int, n as int, sx as int), i),
        image_size(d@, (shoff as int, n as int, sx as int)) <= (MNX_MAX_CODE + MAX_TRAMP * TRAMP_STRIDE) as int,
    ensures
        match copies_scan(d@, (shoff as int, n as int, sx as int), 1) {
            Err(e) => r == Err::<Vec<(usize, usize, usize)>, MnxError>(e),
            Ok(c) => r matches Ok(x) && x@ == c,
        },
{
    let ghost h = (shoff as int, n as int, sx as int);
    let mut out: Vec<(usize, usize, usize)> = Vec::new();
    let mut i: usize = 1;
    while i < n
        invariant
            sx < n <= MAX_SECTIONS,
            shoff + 64 * n <= d@.len(),
            1 <= i <= n,
            h == (shoff as int, n as int, sx as int),
            bases@.len() == n,
            forall|k: int| 1 <= k < n ==> bases@[k] == sec_base(d@, h, k),
            image_size(d@, h) <= (MNX_MAX_CODE + MAX_TRAMP * TRAMP_STRIDE) as int,
            copies_scan(d@, h, 1) == (match copies_scan(d@, h, i as int) {
                Err(e) => Err(e),
                Ok(rest) => Ok(out@ + rest),
            }),
        decreases n - i,
    {
        let sh = section(d, shoff, i);
        if !(sh.flags & SHF_ALLOC == 0 || sh.typ != SHT_PROGBITS || sh.size == 0) {
            if sh.offset as u128 + sh.size as u128 > d.len() as u128 {
                return Err(MnxError::Truncated);
            }
            proof {
                lemma_base_below(d@, h, i as int);
            }
            let b = bases[i];
            let ghost before = out@;
            out.push((b as usize, sh.offset as usize, sh.size as usize));
            proof {
                let c = (sec_base(d@, h, i as int) as usize, sh.offset as usize, sh.size as usize);
                assert(b as usize == sec_base(d@, h, i as int) as usize);
                match copies_scan(d@, h, i + 1) {
                    Err(e) => {},
                    Ok(rest) => {
                        assert(before + (seq![c] + rest) =~= out@ + rest);
                    },
                }
            }
        }
        i = i + 1;
    }
    proof {
        assert(out@ + Seq::<(usize, usize, usize)>::empty() =~= out@);
    }
    Ok(out)
}

fn find_symtab(d: &[u8], shoff: usize, n: usize, sx: usize) -> (r: Option<usize>)
    requires
        sx < n <= MAX_SECTIONS,
        shoff + 64 * n <= d@.len(),
    ensures
        match find_type(d@, (shoff as int, n as int, sx as int), SHT_SYMTAB, 1) {
            None => r is None,
            Some(i) => r == Some(i as usize) && 1 <= i < n,
        },
{
    let ghost h = (shoff as int, n as int, sx as int);
    let mut i: usize = 1;
    while i < n
        invariant
            n <= MAX_SECTIONS,
            shoff + 64 * n <= d@.len(),
            1 <= i <= n,
            h == (shoff as int, n as int, sx as int),
            find_type(d@, h, SHT_SYMTAB, 1) == find_type(d@, h, SHT_SYMTAB, i as int),
        decreases n - i,
    {
        if section(d, shoff, i).typ == SHT_SYMTAB {
            return Some(i);
        }
        i = i + 1;
    }
    None
}

/// `resolve` computed.
fn resolve_exec(d: &[u8], shoff: usize, n: usize, sx: usize, va: u64, bases: &Vec<u128>, shndx: u64, value: u64) -> (r: Result<u64, MnxError>)
    requires
        sx < n <= MAX_SECTIONS,
        shoff + 64 * n <= d@.len(),
        bases@.len() == n,
        forall|i: int| 1 <= i < n ==> bases@[i] == sec_base(d@, (shoff as int, n as int, sx as int), i),
        image_size(d@, (shoff as int, n as int, sx as int)) <= (MNX_MAX_CODE + MAX_TRAMP * TRAMP_STRIDE) as int,
    ensures
        r == resolve(d@, (shoff as int, n as int, sx as int), va, shndx as int, value),
{
    let ghost h = (shoff as int, n as int, sx as int);
    if shndx == SHN_UNDEF as u64 {
        Err(MnxError::Unresolved)
    } else if shndx == SHN_ABS as u64 {
        Ok(value)
    } else if shndx == SHN_COMMON as u64 {
        Err(MnxError::BadReloc)
    } else if shndx >= n as u64 {
        Err(MnxError::BadReloc)
    } else if section(d, shoff, shndx as usize).flags & SHF_ALLOC == 0 {
        Err(MnxError::BadReloc)
    } else {
        proof {
            lemma_base_below(d@, h, shndx as int);
        }
        let b = bases[shndx as usize] as u64;
        Ok(va.wrapping_add(b).wrapping_add(value))
    }
}

/// `patch_for` computed.
fn patch_exec(rtype: u64, s: u64, add: i64, p: u64, img: u128, total: u128) -> (r: Result<(usize, u8, u64), MnxError>)
    requires
        total <= 0x1_0000,
        img < 0x1_0000_0000_0000_0000_0000,
    ensures
        r == patch_for(rtype as int, s, add, p, img as int, total as int),
{
    let sv = (s as i64).wrapping_add(add);
    if rtype == R_X86_64_64 as u64 {
        if img + 8 > total {
            Err(MnxError::BadReloc)
        } else {
            Ok((img as usize, 8, sv as u64))
        }
    } else if rtype == R_X86_64_PC32 as u64 || rtype == R_X86_64_PLT32 as u64 {
        let v = sv.wrapping_sub(p as i64);
        if img + 4 > total || v < i32::MIN as i64 || v > i32::MAX as i64 {
            Err(MnxError::BadReloc)
        } else {
            Ok((img as usize, 4, (v as u32) as u64))
        }
    } else if rtype == R_X86_64_32 as u64 {
        if img + 4 > total || sv < 0 || sv > u32::MAX as i64 {
            Err(MnxError::BadReloc)
        } else {
            Ok((img as usize, 4, sv as u64))
        }
    } else if rtype == R_X86_64_32S as u64 {
        if img + 4 > total || sv < i32::MIN as i64 || sv > i32::MAX as i64 {
            Err(MnxError::BadReloc)
        } else {
            Ok((img as usize, 4, (sv as u32) as u64))
        }
    } else {
        Err(MnxError::BadReloc)
    }
}

/// The relocation state as values.
pub open spec fn state_of(p: Seq<(usize, u8, u64)>, t: Seq<(Vec<u8>, u64)>) -> (Seq<(usize, u8, u64)>, Seq<(Seq<u8>, u64)>) {
    (p, tview(t))
}

/// What the relocation steps need to know of the file.
pub open spec fn ctx_ok(d: Seq<u8>, shoff: usize, n: usize, sx: usize, bases: Seq<u128>, tb: u128, total: u128) -> bool {
    let h = (shoff as int, n as int, sx as int);
    &&& sx < n <= MAX_SECTIONS
    &&& shoff + 64 * n <= d.len()
    &&& bases.len() == n
    &&& bases[0] == 0
    &&& forall|i: int| 1 <= i < n ==> bases[i] == sec_base(d, h, i)
    &&& image_size(d, h) <= (MNX_MAX_CODE + MAX_TRAMP * TRAMP_STRIDE) as int
    &&& tb == tramp_base(d, h)
    &&& total == image_size(d, h)
}

fn to_vec(s: &[u8]) -> (v: Vec<u8>)
    ensures
        v@ == s@,
{
    let v = crate::text::copy_prefix(s, s.len());
    assert(s@.take(s@.len() as int) =~= s@);
    v
}

/// `one_reloc` computed: the patch goes on `patches`, a new trampoline on `tramps`.
#[verifier::rlimit(50)]
fn one_reloc_exec(
    d: &[u8], shoff: usize, n: usize, sx: usize, va: u64, ex: &[u64], bases: &Vec<u128>, tb: u128, total: u128,
    sym_i: usize, symtab: &Shdr, strtab: &Shdr, nsyms: u64, target: usize, ro: u128,
    patches: &mut Vec<(usize, u8, u64)>, tramps: &mut Vec<(Vec<u8>, u64)>,
) -> (r: Result<(), MnxError>)
    requires
        ctx_ok(d@, shoff, n, sx, bases@, tb, total),
        ex@.len() == EXPORT_COUNT,
        target < n,
        ro < 0x1_0000_0000_0000_0000_0000,
        nsyms <= 256,
    ensures
        match one_reloc(d@, (shoff as int, n as int, sx as int), va, ex@, (sym_i as int, *symtab, *strtab, nsyms as int),
            target as int, ro as int, state_of(old(patches)@, old(tramps)@)) {
            Err(e) => r == Err::<(), MnxError>(e),
            Ok(st) => r is Ok && state_of(final(patches)@, final(tramps)@) == st,
        },
{
    proof {
        reveal(one_reloc);
    }
    let ghost h = (shoff as int, n as int, sx as int);
    let dl = d.len();
    if ro + 24 > dl as u128 {
        return Err(MnxError::Truncated);
    }
    let rou = ro as usize;
    let roff = read_le(d, rou, 8);
    let info = read_le(d, rou + 8, 8);
    let add = read_le(d, rou + 16, 8) as i64;
    let rtype = info % 0x1_0000_0000;
    let rsym = info / 0x1_0000_0000;
    if rtype == R_X86_64_NONE as u64 {
        return Ok(());
    }
    if rsym >= nsyms {
        return Err(MnxError::BadReloc);
    }
    let so = symtab.offset as u128 + rsym as u128 * 24;
    if so + 16 > dl as u128 {
        return Err(MnxError::Truncated);
    }
    let sou = so as usize;
    let nm = read_le(d, sou, 4) as u32;
    let shndx = read_le(d, sou + 6, 2);
    let value = read_le(d, sou + 8, 8);
    let sname = match string_at(d, strtab, nm) {
        Err(e) => return Err(e),
        Ok(x) => x,
    };
    proof {
        if target >= 1 {
            lemma_base_below(d@, h, target as int);
        }
        lemma_laid_bound(d@, h, n as int);
        lemma_align_up(laid(d@, h, n as int), 16);
    }
    let img: u128 = bases[target] + roff as u128;
    let p = va.wrapping_add(img as u64);
    let is_pc = rtype == R_X86_64_PC32 as u64 || rtype == R_X86_64_PLT32 as u64;
    let ghost ts0 = tview(tramps@);
    let sv: u64 = if shndx == SHN_UNDEF as u64 {
        let x = match lookup(sname) {
            None => return Err(MnxError::Unresolved),
            Some(x) => x,
        };
        proof {
            lemma_export_index_range(sname@, 0);
        }
        let dest = ex[x];
        if is_pc {
            let mut k: usize = 0;
            let mut hit = false;
            while k < tramps.len() && !hit
                invariant
                    k <= tramps@.len(),
                    tview(tramps@) == ts0,
                    !hit ==> tramp_find(ts0, sname@, 0) == tramp_find(ts0, sname@, k as int),
                    hit ==> k < tramps@.len() && tramp_find(ts0, sname@, 0) == Some(k as int),
                decreases tramps@.len() - k, (if hit { 0int } else { 1 }),
            {
                if crate::text::bytes_eq(tramps[k].0.as_slice(), sname) {
                    assert(ts0[k as int].0 == sname@);
                    hit = true;
                } else {
                    k = k + 1;
                }
            }
            let found: Option<usize> = if hit { Some(k) } else { None };
            match found {
                Some(k) => {
                    va.wrapping_add((tb + 16 * k as u128) as u64)
                },
                None => {
                    if tramps.len() >= MAX_TRAMP || sname.len() > 32 {
                        return Err(MnxError::BadReloc);
                    }
                    let a = va.wrapping_add((tb + 16 * tramps.len() as u128) as u64);
                    let nv = to_vec(sname);
                    tramps.push((nv, dest));
                    proof {
                        assert(tview(tramps@) =~= ts0.push((sname@, dest)));
                    }
                    a
                },
            }
        } else {
            dest
        }
    } else {
        match resolve_exec(d, shoff, n, sx, va, bases, shndx, value) {
            Err(e) => return Err(e),
            Ok(v) => v,
        }
    };
    let pt = match patch_exec(rtype, sv, add, p, img, total) {
        Err(e) => return Err(e),
        Ok(x) => x,
    };
    patches.push(pt);
    Ok(())
}

/// `sec_relocs` of section `i` from its first entry, on the current state.
#[verifier::rlimit(50)]
fn apply_section(
    d: &[u8], shoff: usize, n: usize, sx: usize, va: u64, ex: &[u64], bases: &Vec<u128>, tb: u128, total: u128,
    sym_i: usize, symtab: &Shdr, strtab: &Shdr, nsyms: u64, i: usize, rela: &Shdr, nrel: u64,
    patches: &mut Vec<(usize, u8, u64)>, tramps: &mut Vec<(Vec<u8>, u64)>,
) -> (r: Result<(), MnxError>)
    requires
        ctx_ok(d@, shoff, n, sx, bases@, tb, total),
        ex@.len() == EXPORT_COUNT,
        nsyms <= 256,
        1 <= i < n,
        *rela == sec(d@, (shoff as int, n as int, sx as int), i as int),
        rela.info < n,
        nrel == rela.size / 24,
        nrel <= 256,
    ensures
        match sec_relocs(d@, (shoff as int, n as int, sx as int), va, ex@, (sym_i as int, *symtab, *strtab, nsyms as int),
            i as int, 0, state_of(old(patches)@, old(tramps)@)) {
            Err(e) => r == Err::<(), MnxError>(e),
            Ok(st) => r is Ok && state_of(final(patches)@, final(tramps)@) == st,
        },
{
    let ghost h = (shoff as int, n as int, sx as int);
    let ghost sy = (sym_i as int, *symtab, *strtab, nsyms as int);
    let ghost st0 = state_of(patches@, tramps@);
    let target = rela.info as usize;
    let mut q: u64 = 0;
    while q < nrel
        invariant
            ctx_ok(d@, shoff, n, sx, bases@, tb, total),
            ex@.len() == EXPORT_COUNT,
            nsyms <= 256,
            target < n,
            *rela == sec(d@, h, i as int),
            target == rela.info,
            nrel == rela.size / 24,
            nrel <= 256,
            q <= nrel,
            h == (shoff as int, n as int, sx as int),
            sy == (sym_i as int, *symtab, *strtab, nsyms as int),
            st0 == state_of(old(patches)@, old(tramps)@),
            sec_relocs(d@, h, va, ex@, sy, i as int, 0, st0)
                == sec_relocs(d@, h, va, ex@, sy, i as int, q as int, state_of(patches@, tramps@)),
        decreases nrel - q,
    {
        let ro = rela.offset as u128 + 24 * q as u128;
        let ghost cur = state_of(patches@, tramps@);
        assert(ro as int == rela.offset + 24 * q);
        assert(q < rela.size / 24);
        match one_reloc_exec(d, shoff, n, sx, va, ex, bases, tb, total, sym_i, symtab, strtab, nsyms, target, ro,
            patches, tramps) {
            Err(e) => {
                assert(sec_relocs(d@, h, va, ex@, sy, i as int, q as int, cur) == Err::<(Seq<(usize, u8, u64)>, Seq<(Seq<u8>, u64)>), MnxError>(e));
                return Err(e);
            },
            Ok(()) => {},
        }
        q = q + 1;
    }
    Ok(())
}

/// `all_relocs` computed from section 1 with an empty state.
fn apply_relocs(
    d: &[u8], shoff: usize, n: usize, sx: usize, va: u64, ex: &[u64], bases: &Vec<u128>, tb: u128, total: u128,
    sym_i: usize, symtab: &Shdr, strtab: &Shdr, nsyms: u64,
) -> (r: Result<(Vec<(usize, u8, u64)>, Vec<(Vec<u8>, u64)>), MnxError>)
    requires
        ctx_ok(d@, shoff, n, sx, bases@, tb, total),
        ex@.len() == EXPORT_COUNT,
        nsyms <= 256,
    ensures
        match all_relocs(d@, (shoff as int, n as int, sx as int), va, ex@, (sym_i as int, *symtab, *strtab, nsyms as int), 1,
            (Seq::empty(), Seq::empty())) {
            Err(e) => r == Err::<(Vec<(usize, u8, u64)>, Vec<(Vec<u8>, u64)>), MnxError>(e),
            Ok(st) => r matches Ok(x) && state_of(x.0@, x.1@) == st,
        },
{
    let ghost h = (shoff as int, n as int, sx as int);
    let ghost sy = (sym_i as int, *symtab, *strtab, nsyms as int);
    let mut patches: Vec<(usize, u8, u64)> = Vec::new();
    let mut tramps: Vec<(Vec<u8>, u64)> = Vec::new();
    proof {
        assert(state_of(patches@, tramps@) =~= (Seq::<(usize, u8, u64)>::empty(), Seq::<(Seq<u8>, u64)>::empty()));
    }
    let mut i: usize = 1;
    while i < n
        invariant
            ctx_ok(d@, shoff, n, sx, bases@, tb, total),
            ex@.len() == EXPORT_COUNT,
            nsyms <= 256,
            1 <= i <= n,
            h == (shoff as int, n as int, sx as int),
            sy == (sym_i as int, *symtab, *strtab, nsyms as int),
            all_relocs(d@, h, va, ex@, sy, 1, (Seq::empty(), Seq::empty()))
                == all_relocs(d@, h, va, ex@, sy, i as int, state_of(patches@, tramps@)),
        decreases n - i,
    {
        let rela = section(d, shoff, i);
        if rela.typ == SHT_RELA {
            if rela.info as usize >= n {
                return Err(MnxError::BadReloc);
            }
            let target = rela.info as usize;
            if section(d, shoff, target).flags & SHF_ALLOC != 0 {
                if rela.entsize != 24 || rela.link as usize != sym_i {
                    return Err(MnxError::BadReloc);
                }
                let nrel = rela.size / 24;
                if nrel > 256 {
                    return Err(MnxError::BadReloc);
                }
                match apply_section(d, shoff, n, sx, va, ex, bases, tb, total, sym_i, symtab, strtab, nsyms, i, &rela, nrel,
                    &mut patches, &mut tramps) {
                    Err(e) => return Err(e),
                    Ok(()) => {},
                }
            }
        }
        i = i + 1;
    }
    Ok((patches, tramps))
}

/// `entry_scan` computed from symbol 1.
fn scan_entries(
    d: &[u8], shoff: usize, n: usize, sx: usize, va: u64, bases: &Vec<u128>, tb: u128, total: u128,
    sym_i: usize, symtab: &Shdr, strtab: &Shdr, nsyms: u64,
) -> (r: Result<(Option<u64>, Option<u64>), MnxError>)
    requires
        ctx_ok(d@, shoff, n, sx, bases@, tb, total),
        nsyms <= 256,
    ensures
        r == entry_scan(d@, (shoff as int, n as int, sx as int), va, (sym_i as int, *symtab, *strtab, nsyms as int), 1, None, None),
{
    let ghost h = (shoff as int, n as int, sx as int);
    let ghost sy = (sym_i as int, *symtab, *strtab, nsyms as int);
    let a1: [u8; 11] = [105, 110, 105, 116, 95, 109, 111, 100, 117, 108, 101];
    let a2: [u8; 4] = [105, 110, 105, 116];
    let b1: [u8; 14] = [99, 108, 101, 97, 110, 117, 112, 95, 109, 111, 100, 117, 108, 101];
    let b2: [u8; 7] = [99, 108, 101, 97, 110, 117, 112];
    assert(a1@ =~= init_module_bytes());
    assert(a2@ =~= init_bytes());
    assert(b1@ =~= cleanup_module_bytes());
    assert(b2@ =~= cleanup_bytes());
    let mut init: Option<u64> = None;
    let mut exit: Option<u64> = None;
    let dl = d.len();
    let mut k: u64 = 1;
    while k < nsyms
        invariant
            ctx_ok(d@, shoff, n, sx, bases@, tb, total),
            nsyms <= 256,
            1 <= k,
            k <= nsyms || nsyms == 0,
            dl == d@.len(),
            h == (shoff as int, n as int, sx as int),
            sy == (sym_i as int, *symtab, *strtab, nsyms as int),
            a1@ == init_module_bytes(),
            a2@ == init_bytes(),
            b1@ == cleanup_module_bytes(),
            b2@ == cleanup_bytes(),
            entry_scan(d@, h, va, sy, 1, None, None) == entry_scan(d@, h, va, sy, k as int, init, exit),
        decreases nsyms - k,
    {
        let so = symtab.offset as u128 + 24 * k as u128;
        if so + 16 > dl as u128 {
            return Err(MnxError::Truncated);
        }
        let sou = so as usize;
        let shndx = read_le(d, sou + 6, 2);
        if !(shndx == SHN_UNDEF as u64 || shndx == SHN_ABS as u64 || shndx == SHN_COMMON as u64) {
            let nmo = read_le(d, sou, 4) as u32;
            match string_at(d, strtab, nmo) {
                Err(_) => {},
                Ok(nm) => {
                    let value = read_le(d, sou + 8, 8);
                    match resolve_exec(d, shoff, n, sx, va, bases, shndx, value) {
                        Err(_) => {},
                        Ok(a) => {
                            if crate::text::bytes_eq(nm, a1.as_slice()) || crate::text::bytes_eq(nm, a2.as_slice()) {
                                init = Some(a);
                            } else if crate::text::bytes_eq(nm, b1.as_slice()) || crate::text::bytes_eq(nm, b2.as_slice()) {
                                exit = Some(a);
                            }
                        },
                    }
                },
            }
        }
        k = k + 1;
    }
    Ok((init, exit))
}

/// A plan for loading a `.ko` image: its name and size, the file bytes to
/// copy into the zeroed image, the relocation patches (little-endian,
/// `width` bytes) and the trampolines to write (see [`tramp_stub`]), and
/// the entry addresses.
pub struct ElfRelPlan {
    pub name: Vec<u8>,
    pub image_len: usize,
    /// `(image offset, file offset, length)`.
    pub copies: Vec<(usize, usize, usize)>,
    /// `(image offset, width 4 or 8, value)`.
    pub patches: Vec<(usize, u8, u64)>,
    /// `(image offset, export address)`.
    pub trampolines: Vec<(usize, u64)>,
    pub init_va: u64,
    pub exit_va: Option<u64>,
}

impl View for ElfRelPlan {
    type V = ElfRelPlanView;

    open spec fn view(&self) -> ElfRelPlanView {
        ElfRelPlanView {
            name: self.name@,
            image_len: self.image_len as int,
            copies: self.copies@,
            patches: self.patches@,
            trampolines: self.trampolines@,
            init_va: self.init_va,
            exit_va: self.exit_va,
        }
    }
}

/// Plan the loading of ELF64 relocatable image `buf` at address `base`,
/// with `exports[i]` the address of export `i` and `name_hint` the name to
/// use when `.modinfo` gives none.
pub fn elfrel_plan(buf: &[u8], name_hint: &[u8], base: u64, exports: &[u64]) -> (r: Result<ElfRelPlan, MnxError>)
    requires
        exports@.len() == EXPORT_COUNT,
    ensures
        match elfrel_spec(buf@, name_hint@, base, exports@) {
            Err(e) => r == Err::<ElfRelPlan, MnxError>(e),
            Ok(v) => r matches Ok(p) && p@ == v,
        },
{
    let (shoff, n, sx) = match check_header(buf) {
        Err(e) => return Err(e),
        Ok(h) => h,
    };
    let ghost h = (shoff as int, n as int, sx as int);
    let parsed = match scan_modinfo(buf, shoff, n, sx) {
        Err(e) => return Err(e),
        Ok(p) => p,
    };
    let (bases, used) = lay_out(buf, shoff, n, sx);
    proof {
        lemma_laid_bound(buf@, h, n as int);
        lemma_align_up(used as int, 16);
    }
    let tb = align_up_exec(used, 16);
    let total = tb + (MAX_TRAMP * TRAMP_STRIDE) as u128;
    if total > (MNX_MAX_CODE + MAX_TRAMP * TRAMP_STRIDE) as u128 {
        return Err(MnxError::BadCode);
    }
    let copies = match copies_of(buf, shoff, n, sx, &bases) {
        Err(e) => return Err(e),
        Ok(c) => c,
    };
    let sym_i = match find_symtab(buf, shoff, n, sx) {
        None => return Err(MnxError::BadCode),
        Some(i) => i,
    };
    let symtab = section(buf, shoff, sym_i);
    if symtab.link as usize >= n {
        return Err(MnxError::BadCode);
    }
    let strtab = section(buf, shoff, symtab.link as usize);
    if strtab.typ != SHT_STRTAB {
        return Err(MnxError::BadCode);
    }
    let nsyms: u64 = if symtab.entsize == 0 { 0 } else { symtab.size / symtab.entsize };
    if nsyms > 256 || symtab.entsize != 24 {
        return Err(MnxError::BadReloc);
    }
    let (patches, tramps) = match apply_relocs(buf, shoff, n, sx, base, exports, &bases, tb, total, sym_i, &symtab, &strtab, nsyms) {
        Err(e) => return Err(e),
        Ok(x) => x,
    };
    let (init, exit) = match scan_entries(buf, shoff, n, sx, base, &bases, tb, total, sym_i, &symtab, &strtab, nsyms) {
        Err(e) => return Err(e),
        Ok(x) => x,
    };
    let init_va = match init {
        None => return Err(MnxError::BadCode),
        Some(v) => v,
    };
    let name: Vec<u8> = match parsed {
        Some(nm) => {
            let k = if nm.len() < MNX_NAME_LEN { nm.len() } else { MNX_NAME_LEN };
            crate::text::copy_prefix(nm, k)
        },
        None => if name_hint.len() > 0 {
            let k = if name_hint.len() < MNX_NAME_LEN { name_hint.len() } else { MNX_NAME_LEN };
            crate::text::copy_prefix(name_hint, k)
        } else {
            let v: Vec<u8> = vec![109u8, 111, 100, 117, 108, 101];
            assert(v@ =~= module_bytes());
            v
        },
    };
    let mut slots: Vec<(usize, u64)> = Vec::new();
    let mut j: usize = 0;
    while j < tramps.len()
        invariant
            j <= tramps@.len(),
            tb <= 0x1_0000,
            slots@ == tramp_slots(tview(tramps@), tb as int).take(j as int),
        decreases tramps@.len() - j,
    {
        slots.push(((tb + 16 * j as u128) as usize, tramps[j].1));
        j = j + 1;
        assert(slots@ =~= tramp_slots(tview(tramps@), tb as int).take(j as int));
    }
    assert(slots@ =~= tramp_slots(tview(tramps@), tb as int));
    Ok(ElfRelPlan { name, image_len: total as usize, copies, patches, trampolines: slots, init_va, exit_va: exit })
}

} // verus!
