//! Loading an ELF64 executable stored on the root filesystem: the headers,
//! an optional interpreter (`PT_INTERP`), and the loadable segments with
//! their file bytes. As for images in memory, the plan is the caller's to
//! apply: map and fill the segments, then check that the entry pages hold
//! code.

use vstd::prelude::*;
use vstd::string::StringSliceAdditionalSpecFns;
use crate::ext2::Ext2Fs;
use crate::elf::{
    ElfError, Ehdr, Phdr, AuxInfo, LoadedImage, StackPlan, ehdr_at, ehdr_from, ehdr_check, phdr_at, segment_spec,
    sat64, page_up, stack_spec, writes_view, read_ehdr, validate_ehdr, read_phdr, load_segment, setup_stack, sat_add,
    ELFCLASS64, ELFDATA2LSB, EV_CURRENT, ET_EXEC, EM_X86_64, PHDR_SIZE, USER_END, PT_LOAD, PT_INTERP,
    MAX_LOAD_BYTES,
};
use crate::mnx::cstr_len_from;
use crate::text::{copy_prefix, utf8_text};

verus! {

/// Bytes `[off, off + len)` of inode `ino` as the loader reads them;
/// offsets past 32 bits are refused.
pub open spec fn ino_read(fs: &Ext2Fs, ino: u32, off: int, len: int) -> Result<Seq<u8>, ElfError> {
    if off > u32::MAX {
        Err(ElfError::OffsetTooLarge)
    } else {
        match fs.read_spec(ino, off, len) {
            Err(e) => Err(ElfError::Fs(e)),
            Ok(s) => Ok(s),
        }
    }
}

/// Read up to `len` bytes of inode `ino` from `off`.
fn read_ino(fs: &Ext2Fs, ino: u32, off: u64, len: usize) -> (r: Result<Vec<u8>, ElfError>)
    requires
        fs.wf(),
    ensures
        match ino_read(fs, ino, off as int, len as int) {
            Err(e) => r == Err::<Vec<u8>, ElfError>(e),
            Ok(s) => r matches Ok(v) && v@ == s,
        },
{
    if off > u32::MAX as u64 {
        return Err(ElfError::OffsetTooLarge);
    }
    let mut buf: Vec<u8> = Vec::new();
    while buf.len() < len
        invariant
            buf@.len() <= len,
        decreases len - buf@.len(),
    {
        buf.push(0);
    }
    let ghost b0 = buf@;
    match fs.read_file(ino, off as u32, buf.as_mut_slice()) {
        Err(e) => Err(ElfError::Fs(e)),
        Ok(n) => {
            let ghost s = fs.read_spec(ino, off as int, len as int)->Ok_0;
            assert(n <= len) by {
                if s.len() > b0.len() {
                    assert(buf@.len() >= s.len());
                }
            }
            assert(buf@.take(n as int) =~= s);
            Ok(copy_prefix(buf.as_slice(), n))
        },
    }
}

/// The file-header checks on the 64 header bytes `d`.
pub open spec fn hdr_check(d: Seq<u8>) -> Result<(), ElfError> {
    let hd = ehdr_at(d);
    if !(d[0] == 0x7f && d[1] == 0x45 && d[2] == 0x4c && d[3] == 0x46) {
        Err(ElfError::BadMagic)
    } else if d[4] != ELFCLASS64 {
        Err(ElfError::NotElf64)
    } else if d[5] != ELFDATA2LSB {
        Err(ElfError::NotLittleEndian)
    } else if d[6] != EV_CURRENT {
        Err(ElfError::BadVersion)
    } else if hd.e_type != ET_EXEC {
        Err(ElfError::NeedExec)
    } else if hd.e_machine != EM_X86_64 {
        Err(ElfError::NeedX86_64)
    } else if hd.e_phentsize != PHDR_SIZE {
        Err(ElfError::BadPhentsize)
    } else if hd.e_phnum == 0 || hd.e_phnum > 64 {
        Err(ElfError::BadPhnum)
    } else if hd.e_entry < 0x1000 || hd.e_entry >= USER_END {
        Err(ElfError::BadEntry)
    } else {
        Ok(())
    }
}

/// The header bytes, the program-header table bytes and the file size of
/// inode `ino`, or why they are refused.
pub open spec fn headers_spec(fs: &Ext2Fs, ino: u32) -> Result<(Seq<u8>, Seq<u8>, int), ElfError> {
    if fs.is_dir_spec(ino) {
        Err(ElfError::IsDirectory)
    } else if fs.file_size_spec(ino) < 64 {
        Err(ElfError::ShortRead)
    } else {
        match ino_read(fs, ino, 0, 64) {
            Err(e) => Err(e),
            Ok(hb) => if hb.len() < 64 {
                Err(ElfError::TruncatedHeader)
            } else {
                match hdr_check(hb) {
                    Err(e) => Err(e),
                    Ok(_) => {
                        let hd = ehdr_at(hb);
                        let n = hd.e_phnum * PHDR_SIZE;
                        if n == 0 || n > 4096 {
                            Err(ElfError::BadPhnum)
                        } else {
                            match ino_read(fs, ino, hd.e_phoff as int, n) {
                                Err(e) => Err(e),
                                Ok(pb) => if pb.len() < n {
                                    Err(ElfError::TruncatedPhdr)
                                } else {
                                    Ok((hb, pb, fs.file_size_spec(ino)))
                                },
                            }
                        }
                    },
                }
            },
        }
    }
}

/// The headers of an executable on disk.
pub struct InoHeaders {
    pub ehdr: Ehdr,
    /// The program-header table (`e_phnum` entries).
    pub ph: Vec<u8>,
    pub file_size: u64,
}

/// Read and check the headers of inode `ino`.
pub fn parse_headers(fs: &Ext2Fs, ino: u32) -> (r: Result<InoHeaders, ElfError>)
    requires
        fs.wf(),
    ensures
        match headers_spec(fs, ino) {
            Err(e) => r matches Err(x) && x == e,
            Ok((hb, pb, size)) => r matches Ok(h) && ehdr_from(h.ehdr, hb) && h.ph@ == pb && h.file_size == size
                && h.file_size <= u32::MAX,
        },
{
    if fs.inode_is_dir(ino) {
        return Err(ElfError::IsDirectory);
    }
    let file_size = fs.inode_file_size(ino) as u64;
    if file_size < 64 {
        return Err(ElfError::ShortRead);
    }
    let hb = match read_ino(fs, ino, 0, 64) {
        Err(e) => return Err(e),
        Ok(v) => v,
    };
    if hb.len() < 64 {
        return Err(ElfError::TruncatedHeader);
    }
    let ehdr = match read_ehdr(hb.as_slice()) {
        Err(e) => return Err(e),
        Ok(h) => h,
    };
    proof {
        assert(ehdr.ident@[0] == hb@[0] && ehdr.ident@[1] == hb@[1] && ehdr.ident@[2] == hb@[2]);
        assert(ehdr.ident@[3] == hb@[3] && ehdr.ident@[4] == hb@[4] && ehdr.ident@[5] == hb@[5]);
        assert(ehdr.ident@[6] == hb@[6]);
        assert(ehdr_check(ehdr) == hdr_check(hb@));
    }
    match validate_ehdr(&ehdr) {
        Err(e) => return Err(e),
        Ok(()) => {},
    }
    let n: usize = ehdr.e_phnum as usize * PHDR_SIZE;
    if n == 0 || n > 4096 {
        return Err(ElfError::BadPhnum);
    }
    let ph = match read_ino(fs, ino, ehdr.e_phoff, n) {
        Err(e) => return Err(e),
        Ok(v) => v,
    };
    if ph.len() < n {
        return Err(ElfError::TruncatedPhdr);
    }
    Ok(InoHeaders { ehdr, ph, file_size })
}

/// The interpreter path named by the first `PT_INTERP` header at or after
/// `i`: its bytes up to the first NUL.
pub open spec fn interp_scan(fs: &Ext2Fs, ino: u32, pb: Seq<u8>, phnum: int, i: int) -> Result<Option<Seq<u8>>, ElfError>
    decreases phnum - i,
{
    if i >= phnum || i < 0 {
        Ok(None)
    } else {
        let ph = phdr_at(pb, i * PHDR_SIZE);
        if ph.p_type != PT_INTERP {
            interp_scan(fs, ino, pb, phnum, i + 1)
        } else if ph.p_filesz == 0 || ph.p_filesz > 127 {
            Err(ElfError::BadInterp)
        } else {
            match ino_read(fs, ino, ph.p_offset as int, ph.p_filesz as int) {
                Err(e) => Err(e),
                Ok(b) => if b.len() == 0 || cstr_len_from(b, 0) == 0 {
                    Err(ElfError::EmptyInterp)
                } else {
                    Ok(Some(b.take(cstr_len_from(b, 0))))
                },
            }
        }
    }
}

/// Find the interpreter path of the executable with headers `h`.
pub fn find_interp_path(fs: &Ext2Fs, ino: u32, h: &InoHeaders) -> (r: Result<Option<Vec<u8>>, ElfError>)
    requires
        fs.wf(),
        h.ph@.len() >= h.ehdr.e_phnum * PHDR_SIZE,
    ensures
        match interp_scan(fs, ino, h.ph@, h.ehdr.e_phnum as int, 0) {
            Err(e) => r matches Err(x) && x == e,
            Ok(None) => r matches Ok(None),
            Ok(Some(p)) => r matches Ok(Some(v)) && v@ == p,
        },
{
    let mut i: u16 = 0;
    while i < h.ehdr.e_phnum
        invariant
            fs.wf(),
            h.ph@.len() >= h.ehdr.e_phnum * PHDR_SIZE,
            i <= h.ehdr.e_phnum,
            interp_scan(fs, ino, h.ph@, h.ehdr.e_phnum as int, 0) == interp_scan(fs, ino, h.ph@, h.ehdr.e_phnum as int, i as int),
        decreases h.ehdr.e_phnum - i,
    {
        let ph = match read_phdr(h.ph.as_slice(), 0, i) {
            Err(e) => return Err(e),
            Ok(p) => p,
        };
        assert(ph == phdr_at(h.ph@, i * PHDR_SIZE));
        if ph.p_type == PT_INTERP {
            if ph.p_filesz == 0 || ph.p_filesz > 127 {
                return Err(ElfError::BadInterp);
            }
            let b = match read_ino(fs, ino, ph.p_offset, ph.p_filesz as usize) {
                Err(e) => return Err(e),
                Ok(v) => v,
            };
            if b.len() == 0 {
                return Err(ElfError::EmptyInterp);
            }
            let mut len: usize = 0;
            while len < b.len() && b[len] != 0
                invariant
                    len <= b@.len(),
                    cstr_len_from(b@, 0) == cstr_len_from(b@, len as int),
                decreases b@.len() - len,
            {
                len = len + 1;
            }
            if len == 0 {
                return Err(ElfError::EmptyInterp);
            }
            return Ok(Some(copy_prefix(b.as_slice(), len)));
        }
        i = i + 1;
    }
    Ok(None)
}

/// Running state of the walk over the loadable segments of an inode.
pub struct Parts {
    pub total: u64,
    pub image_end: u64,
    pub phdr_va: u64,
    pub load_base: u64,
    /// Segments with a non-zero memory size and their file bytes.
    pub segs: Seq<(Phdr, Seq<u8>)>,
}

pub open spec fn parts_start() -> Parts {
    Parts { total: 0, image_end: 0, phdr_va: 0, load_base: u64::MAX, segs: Seq::empty() }
}

/// The file bytes of segment `ph`.
pub open spec fn seg_data(fs: &Ext2Fs, ino: u32, ph: Phdr) -> Result<Seq<u8>, ElfError> {
    if ph.p_memsz == 0 || ph.p_filesz == 0 {
        Ok(Seq::empty())
    } else {
        match ino_read(fs, ino, ph.p_offset as int, ph.p_filesz as int) {
            Err(e) => Err(e),
            Ok(b) => if b.len() < ph.p_filesz {
                Err(ElfError::ShortSegmentRead)
            } else {
                Ok(b)
            },
        }
    }
}

/// One program header `ph` of inode `ino` (of `size` bytes, with
/// `phnum` program headers of `phentsize` bytes at `phoff`).
pub open spec fn parts_step(fs: &Ext2Fs, ino: u32, size: int, phoff: u64, phnum: u16, phentsize: u16, s: Parts, ph: Phdr) -> Result<Parts, ElfError> {
    if ph.p_type != PT_LOAD {
        Ok(s)
    } else {
        match segment_spec(size, ph) {
            Err(e) => Err(e),
            Ok(m) => match seg_data(fs, ino, ph) {
                Err(e) => Err(e),
                Ok(data) => {
                    let total = sat64(s.total + m);
                    if total > MAX_LOAD_BYTES {
                        Err(ElfError::ImageTooLarge)
                    } else {
                        let vend = sat64(ph.p_vaddr + ph.p_memsz);
                        let ph_end = sat64(phoff + sat64(phnum * phentsize));
                        Ok(Parts {
                            total,
                            image_end: if vend > s.image_end { vend } else { s.image_end },
                            phdr_va: if s.phdr_va == 0 && phoff >= ph.p_offset && ph_end <= sat64(ph.p_offset + ph.p_filesz) {
                                sat64(ph.p_vaddr + (phoff - ph.p_offset))
                            } else {
                                s.phdr_va
                            },
                            load_base: if ph.p_vaddr < s.load_base { ph.p_vaddr } else { s.load_base },
                            segs: if ph.p_memsz > 0 { s.segs.push((ph, data)) } else { s.segs },
                        })
                    }
                },
            },
        }
    }
}

/// The walk over the first `n` program headers (table bytes `pb`).
pub open spec fn parts_scan(fs: &Ext2Fs, ino: u32, size: int, phoff: u64, phnum: u16, phentsize: u16, pb: Seq<u8>, n: nat) -> Result<Parts, ElfError>
    decreases n,
{
    if n == 0 {
        Ok(parts_start())
    } else {
        match parts_scan(fs, ino, size, phoff, phnum, phentsize, pb, (n - 1) as nat) {
            Err(e) => Err(e),
            Ok(s) => parts_step(fs, ino, size, phoff, phnum, phentsize, s, phdr_at(pb, (n - 1) * PHDR_SIZE)),
        }
    }
}

/// The loadable parts of inode `ino`, or why they are refused.
pub open spec fn parts_spec(fs: &Ext2Fs, ino: u32, phoff: u64, phnum: u16, phentsize: u16, pb: Seq<u8>, size: int) -> Result<Parts, ElfError> {
    match parts_scan(fs, ino, size, phoff, phnum, phentsize, pb, phnum as nat) {
        Err(e) => Err(e),
        Ok(s) => if s.total == 0 {
            Err(ElfError::NoLoadSegments)
        } else {
            Ok(Parts { load_base: if s.load_base == u64::MAX { 0 } else { s.load_base }, ..s })
        },
    }
}

proof fn lemma_parts_err(fs: &Ext2Fs, ino: u32, size: int, phoff: u64, phnum: u16, phentsize: u16, pb: Seq<u8>, i: nat, n: nat)
    requires
        i <= n,
        parts_scan(fs, ino, size, phoff, phnum, phentsize, pb, i) is Err,
    ensures
        parts_scan(fs, ino, size, phoff, phnum, phentsize, pb, n) == parts_scan(fs, ino, size, phoff, phnum, phentsize, pb, i),
    decreases n - i,
{
    if i < n {
        lemma_parts_err(fs, ino, size, phoff, phnum, phentsize, pb, i, (n - 1) as nat);
    }
}

/// A loadable segment and the file bytes that go at its start.
pub struct LoadSeg {
    pub ph: Phdr,
    pub data: Vec<u8>,
}

pub open spec fn segs_view(v: Seq<LoadSeg>) -> Seq<(Phdr, Seq<u8>)> {
    Seq::new(v.len(), |i: int| (v[i].ph, v[i].data@))
}

/// The loadable parts of an executable on disk.
pub struct ImageParts {
    pub entry: u64,
    pub image_end: u64,
    pub phdr_va: u64,
    pub load_base: u64,
    pub segments: Vec<LoadSeg>,
}

/// Check each loadable segment of inode `ino` and read its file bytes.
pub fn load_parts_ino(fs: &Ext2Fs, ino: u32, h: &InoHeaders) -> (r: Result<ImageParts, ElfError>)
    requires
        fs.wf(),
        h.ph@.len() >= h.ehdr.e_phnum * PHDR_SIZE,
        h.file_size <= u32::MAX,
    ensures
        match parts_spec(fs, ino, h.ehdr.e_phoff, h.ehdr.e_phnum, h.ehdr.e_phentsize, h.ph@, h.file_size as int) {
            Err(e) => r matches Err(x) && x == e,
            Ok(p) => r matches Ok(x) && x.entry == h.ehdr.e_entry && x.image_end == p.image_end && x.phdr_va == p.phdr_va
                && x.load_base == p.load_base && segs_view(x.segments@) == p.segs,
        },
{
    let ghost size = h.file_size as int;
    let mut total: u64 = 0;
    let mut image_end: u64 = 0;
    let mut phdr_va: u64 = 0;
    let mut load_base: u64 = u64::MAX;
    let mut segs: Vec<LoadSeg> = Vec::new();
    let mut i: u16 = 0;
    proof {
        assert(segs_view(segs@) =~= Seq::<(Phdr, Seq<u8>)>::empty());
    }
    while i < h.ehdr.e_phnum
        invariant
            fs.wf(),
            h.ph@.len() >= h.ehdr.e_phnum * PHDR_SIZE,
            i <= h.ehdr.e_phnum,
            size == h.file_size,
            h.file_size <= u32::MAX,
            parts_scan(fs, ino, size, h.ehdr.e_phoff, h.ehdr.e_phnum, h.ehdr.e_phentsize, h.ph@, i as nat) matches Ok(s) && s.total == total && s.image_end == image_end
                && s.phdr_va == phdr_va && s.load_base == load_base && s.segs == segs_view(segs@),
        decreases h.ehdr.e_phnum - i,
    {
        let ph = match read_phdr(h.ph.as_slice(), 0, i) {
            Err(e) => return Err(e),
            Ok(p) => p,
        };
        assert(ph == phdr_at(h.ph@, i * PHDR_SIZE));
        if ph.p_type == PT_LOAD {
            let m = match load_segment(h.file_size as usize, &ph) {
                Err(e) => {
                    proof {
                        lemma_parts_err(fs, ino, size, h.ehdr.e_phoff, h.ehdr.e_phnum, h.ehdr.e_phentsize, h.ph@, (i + 1) as nat, h.ehdr.e_phnum as nat);
                    }
                    return Err(e);
                },
                Ok(m) => m,
            };
            let data: Vec<u8> = if ph.p_memsz == 0 || ph.p_filesz == 0 {
                Vec::new()
            } else {
                let b = match read_ino(fs, ino, ph.p_offset, ph.p_filesz as usize) {
                    Err(e) => {
                        proof {
                            lemma_parts_err(fs, ino, size, h.ehdr.e_phoff, h.ehdr.e_phnum, h.ehdr.e_phentsize, h.ph@, (i + 1) as nat, h.ehdr.e_phnum as nat);
                        }
                        return Err(e);
                    },
                    Ok(v) => v,
                };
                if (b.len() as u64) < ph.p_filesz {
                    proof {
                        lemma_parts_err(fs, ino, size, h.ehdr.e_phoff, h.ehdr.e_phnum, h.ehdr.e_phentsize, h.ph@, (i + 1) as nat, h.ehdr.e_phnum as nat);
                    }
                    return Err(ElfError::ShortSegmentRead);
                }
                b
            };
            assert(seg_data(fs, ino, ph) == Ok::<Seq<u8>, ElfError>(data@));
            total = sat_add(total, m);
            if total > MAX_LOAD_BYTES {
                proof {
                    lemma_parts_err(fs, ino, size, h.ehdr.e_phoff, h.ehdr.e_phnum, h.ehdr.e_phentsize, h.ph@, (i + 1) as nat, h.ehdr.e_phnum as nat);
                }
                return Err(ElfError::ImageTooLarge);
            }
            if ph.p_vaddr < load_base {
                load_base = ph.p_vaddr;
            }
            let vend = sat_add(ph.p_vaddr, ph.p_memsz);
            if vend > image_end {
                image_end = vend;
            }
            let pn = h.ehdr.e_phnum as u64;
            let pe = h.ehdr.e_phentsize as u64;
            assert(pn * pe <= 65535 * 65535) by (nonlinear_arith)
                requires
                    pn <= 65535,
                    pe <= 65535,
            ;
            let span: u64 = pn * pe;
            let ph_end = sat_add(h.ehdr.e_phoff, span);
            if phdr_va == 0 && h.ehdr.e_phoff >= ph.p_offset && ph_end <= sat_add(ph.p_offset, ph.p_filesz) {
                phdr_va = sat_add(ph.p_vaddr, h.ehdr.e_phoff - ph.p_offset);
            }
            if ph.p_memsz > 0 {
                let ghost before = segs_view(segs@);
                segs.push(LoadSeg { ph, data });
                proof {
                    assert(segs_view(segs@) =~= before.push((ph, data@)));
                }
            }
        }
        i = i + 1;
    }
    if total == 0 {
        return Err(ElfError::NoLoadSegments);
    }
    let lb = if load_base == u64::MAX { 0 } else { load_base };
    Ok(ImageParts { entry: h.ehdr.e_entry, image_end, phdr_va, load_base: lb, segments: segs })
}

/// What loading an executable from disk gives the caller to apply.
pub struct InoPlan {
    /// The executable's segments.
    pub segments: Vec<LoadSeg>,
    /// The interpreter's segments (none for a static executable).
    pub interp_segments: Vec<LoadSeg>,
    /// The executable's own entry point (`AT_ENTRY`).
    pub main_entry: u64,
    /// Where execution starts (the interpreter's entry when there is one).
    pub image: LoadedImage,
    pub aux: AuxInfo,
    pub stack: StackPlan,
}

/// The executable's parts (headers and segments) of inode `ino`.
pub open spec fn ino_parts(fs: &Ext2Fs, ino: u32) -> Result<(Ehdr, Parts), ElfError> {
    match headers_spec(fs, ino) {
        Err(e) => Err(e),
        Ok((hb, pb, size)) => match parts_spec(fs, ino, ehdr_at(hb).e_phoff, ehdr_at(hb).e_phnum, ehdr_at(hb).e_phentsize, pb, size) {
            Err(e) => Err(e),
            Ok(p) => Ok((ehdr_at(hb), p)),
        },
    }
}

/// The program break, auxiliary facts and stack once the parts are known.
pub open spec fn finish_ok(main: Parts, hd: Ehdr, run_entry: u64, base: u64, isegs: Seq<(Phdr, Seq<u8>)>, argv: Seq<&str>, region: Option<(u64, u64)>, r: Result<InoPlan, ElfError>) -> bool {
    let brk = page_up(main.image_end);
    if brk < 0x1000 || brk >= USER_END {
        r == Err::<InoPlan, ElfError>(ElfError::BadBrkStart)
    } else {
        let aux = AuxInfo { entry: hd.e_entry, phdr: main.phdr_va, phent: hd.e_phentsize as u64, phnum: hd.e_phnum as u64, base };
        match stack_spec(argv, aux, region) {
            Err(e) => r == Err::<InoPlan, ElfError>(e),
            Ok((top, sbase, map_end, sp, w)) => r matches Ok(p) && {
                &&& segs_view(p.segments@) == main.segs
                &&& segs_view(p.interp_segments@) == isegs
                &&& p.main_entry == hd.e_entry
                &&& p.image == (LoadedImage { entry: run_entry, stack_top: sp, brk_start: brk as u64 })
                &&& p.aux == aux
                &&& p.stack.top == top && p.stack.base == sbase && p.stack.map_end == map_end && p.stack.sp == sp
                &&& writes_view(p.stack.writes@) == w
            },
        }
    }
}

/// The outcome of loading inode `ino` (working directory `cwd` for the
/// interpreter path) with arguments `argv`.
pub open spec fn ino_load_ok(fs: &Ext2Fs, cwd: u32, ino: u32, argv: Seq<&str>, region: Option<(u64, u64)>, r: Result<InoPlan, ElfError>) -> bool {
    if !fs.is_mounted() {
        r == Err::<InoPlan, ElfError>(ElfError::NoFilesystem)
    } else {
        match headers_spec(fs, ino) {
            Err(e) => r == Err::<InoPlan, ElfError>(e),
            Ok((hb, pb, size)) => {
                let hd = ehdr_at(hb);
                match interp_scan(fs, ino, pb, hd.e_phnum as int, 0) {
                    Err(e) => r == Err::<InoPlan, ElfError>(e),
                    Ok(interp) => match parts_spec(fs, ino, hd.e_phoff, hd.e_phnum, hd.e_phentsize, pb, size) {
                        Err(e) => r == Err::<InoPlan, ElfError>(e),
                        Ok(main) => match interp {
                            None => finish_ok(main, hd, hd.e_entry, 0, Seq::empty(), argv, region, r),
                            Some(raw) => if !vstd::utf8::valid_utf8(raw) {
                                r == Err::<InoPlan, ElfError>(ElfError::BadInterp)
                            } else {
                                match fs.resolve_spec(cwd, raw) {
                                    Err(_) => r == Err::<InoPlan, ElfError>(ElfError::InterpNotFound),
                                    Ok(iino) => match ino_parts(fs, iino) {
                                        Err(e) => r == Err::<InoPlan, ElfError>(e),
                                        Ok((ih, ip)) => finish_ok(main, hd, ih.e_entry, ip.load_base, ip.segs, argv, region, r),
                                    },
                                }
                            },
                        },
                    },
                }
            },
        }
    }
}

/// Plan loading the executable in inode `ino` with arguments `argv`; with a
/// `PT_INTERP` header the interpreter is loaded too and started instead,
/// `AT_ENTRY` still naming the executable's entry.
#[verifier::rlimit(60)]
pub fn load_from_ino(fs: &Ext2Fs, cwd: u32, ino: u32, argv: &[&str], region: Option<(u64, u64)>) -> (r: Result<InoPlan, ElfError>)
    requires
        fs.wf(),
    ensures
        ino_load_ok(fs, cwd, ino, argv@, region, r),
{
    if !fs.mounted() {
        return Err(ElfError::NoFilesystem);
    }
    let headers = match parse_headers(fs, ino) {
        Err(e) => return Err(e),
        Ok(h) => h,
    };
    let ghost hb = headers_spec(fs, ino)->Ok_0.0;
    proof {
        assert(headers.ehdr == (Ehdr { ident: headers.ehdr.ident, ..ehdr_at(hb) }));
    }
    let interp = match find_interp_path(fs, ino, &headers) {
        Err(e) => return Err(e),
        Ok(x) => x,
    };
    let main = match load_parts_ino(fs, ino, &headers) {
        Err(e) => return Err(e),
        Ok(p) => p,
    };
    let mut run_entry: u64 = main.entry;
    let mut at_base: u64 = 0;
    let mut isegs: Vec<LoadSeg> = Vec::new();
    proof {
        assert(segs_view(isegs@) =~= Seq::<(Phdr, Seq<u8>)>::empty());
    }
    match interp {
        None => {},
        Some(raw) => {
            let path = match utf8_text(raw.as_slice()) {
                None => return Err(ElfError::BadInterp),
                Some(s) => s,
            };
            let iino = match fs.resolve_path(cwd, path) {
                Err(_) => return Err(ElfError::InterpNotFound),
                Ok(x) => x,
            };
            let ih = match parse_headers(fs, iino) {
                Err(e) => return Err(e),
                Ok(h) => h,
            };
            let ghost ihb = headers_spec(fs, iino)->Ok_0.0;
            proof {
                assert(ih.ehdr == (Ehdr { ident: ih.ehdr.ident, ..ehdr_at(ihb) }));
            }
            let ip = match load_parts_ino(fs, iino, &ih) {
                Err(e) => return Err(e),
                Ok(p) => p,
            };
            run_entry = ip.entry;
            at_base = ip.load_base;
            isegs = ip.segments;
        },
    }
    let b: u128 = main.image_end as u128 + 4095;
    let brk = b - b % 4096;
    if brk < 0x1000 || brk >= USER_END as u128 {
        return Err(ElfError::BadBrkStart);
    }
    let aux = AuxInfo {
        entry: headers.ehdr.e_entry,
        phdr: main.phdr_va,
        phent: headers.ehdr.e_phentsize as u64,
        phnum: headers.ehdr.e_phnum as u64,
        base: at_base,
    };
    let stack = match setup_stack(argv, &aux, region) {
        Err(e) => return Err(e),
        Ok(st) => st,
    };
    let sp = stack.sp;
    Ok(InoPlan {
        segments: main.segments,
        interp_segments: isegs,
        main_entry: headers.ehdr.e_entry,
        image: LoadedImage { entry: run_entry, stack_top: sp, brk_start: brk as u64 },
        aux,
        stack,
    })
}

} // verus!
