//! `/proc`: read-only files whose text is generated at each read.

use vstd::prelude::*;
use vstd::string::StringSliceAdditionalSpecFns;
use crate::vcore::{FileData, VfsError, FOPS_PROC};
use crate::text::{bytes_eq, starts_with, has_prefix, copy_prefix, take_at_most};

verus! {

pub const PROC_MEMINFO: u64 = 1;
pub const PROC_MOUNTS: u64 = 2;
pub const PROC_VERSION: u64 = 3;
pub const PROC_UPTIME: u64 = 4;
pub const PROC_SELF_STATUS: u64 = 5;
pub const PROC_MODULES: u64 = 6;

/// Longest generated text.
pub const GEN_CAP: usize = 512;

/// Kernel state the generated files report.
pub struct ProcInfo {
    pub total_frames: u64,
    pub free_frames: u64,
    pub used_frames: u64,
    /// Timer ticks at 100 Hz.
    pub ticks: u64,
    pub tid: u64,
    pub tgid: u64,
    /// Name of the current process (at most 15 bytes are shown).
    pub name: Vec<u8>,
    /// Text of `/proc/modules`.
    pub modules: Vec<u8>,
}

/// Decimal text of `n`.
pub open spec fn dec_str(n: u64) -> Seq<u8>
    decreases n,
{
    if n < 10 {
        seq![(48 + n) as u8]
    } else {
        dec_str(n / 10).push((48 + n % 10) as u8)
    }
}

/// Decimal text of `n`.
pub fn push_dec(v: &mut Vec<u8>, n: u64)
    ensures
        final(v)@ == old(v)@ + dec_str(n),
    decreases n,
{
    if n < 10 {
        v.push(48 + n as u8);
        assert(final(v)@ =~= old(v)@ + dec_str(n));
    } else {
        push_dec(v, n / 10);
        v.push(48 + (n % 10) as u8);
        assert(v@ =~= old(v)@ + dec_str(n));
    }
}

/// Append all of `s`.
pub fn push_all(v: &mut Vec<u8>, s: &[u8])
    ensures
        final(v)@ == old(v)@ + s@,
{
    let mut i: usize = 0;
    while i < s.len()
        invariant
            i <= s@.len(),
            v@ == old(v)@ + s@.take(i as int),
        decreases s@.len() - i,
    {
        v.push(s[i]);
        i = i + 1;
        assert(v@ =~= old(v)@ + s@.take(i as int));
    }
    assert(s@.take(s@.len() as int) =~= s@);
}

/// Frames to kilobytes (4 KiB frames), saturating.
pub open spec fn kb(frames: u64) -> u64 {
    (if frames * 4096 > u64::MAX { u64::MAX as int } else { frames * 4096 }) as u64 / 1024
}

pub open spec fn meminfo_text(i: &ProcInfo) -> Seq<u8> {
    "MemTotal:       ".spec_bytes() + dec_str(kb(i.total_frames)) + " kB\n".spec_bytes()
        + "MemFree:        ".spec_bytes() + dec_str(kb(i.free_frames)) + " kB\n".spec_bytes()
        + "MemAvailable:   ".spec_bytes() + dec_str(kb(i.free_frames)) + " kB\n".spec_bytes()
        + "MemUsed:        ".spec_bytes() + dec_str(kb(i.used_frames)) + " kB\n".spec_bytes()
}

pub open spec fn mounts_text() -> Seq<u8> {
    "/dev/hda / ext2 rw 0 0\n".spec_bytes() + "ramfs /ram ramfs rw 0 0\n".spec_bytes()
        + "proc /proc proc rw 0 0\n".spec_bytes() + "devtmpfs /dev devtmpfs rw 0 0\n".spec_bytes()
}

pub open spec fn version_text() -> Seq<u8> {
    "munux version 0.3 x86_64\n".spec_bytes()
}

/// `S.FF` with two fraction digits.
pub open spec fn secs_text(ticks: u64) -> Seq<u8> {
    dec_str(ticks / 100) + ".".spec_bytes() + (if ticks % 100 < 10 { "0".spec_bytes() } else { Seq::empty() })
        + dec_str(ticks % 100)
}

pub open spec fn uptime_text(i: &ProcInfo) -> Seq<u8> {
    secs_text(i.ticks) + " ".spec_bytes() + secs_text(i.ticks) + "\n".spec_bytes()
}

/// The process name as shown: `?` when empty, nothing when not UTF-8.
pub open spec fn shown_name(name: Seq<u8>) -> Seq<u8> {
    let n = take_at_most(name, 15);
    if n.len() == 0 {
        "?".spec_bytes()
    } else if vstd::utf8::valid_utf8(n) {
        n
    } else {
        Seq::empty()
    }
}

pub open spec fn status_text(i: &ProcInfo) -> Seq<u8> {
    "Name:\t".spec_bytes() + shown_name(i.name@) + "\n".spec_bytes() + "Pid:\t".spec_bytes() + dec_str(i.tid)
        + "\n".spec_bytes() + "Tgid:\t".spec_bytes() + dec_str(i.tgid) + "\n".spec_bytes()
}

/// Full text of proc file `which` (before the 512-byte cap).
pub open spec fn proc_text(which: u64, i: &ProcInfo) -> Seq<u8> {
    if which == PROC_MEMINFO {
        meminfo_text(i)
    } else if which == PROC_MOUNTS {
        mounts_text()
    } else if which == PROC_VERSION {
        version_text()
    } else if which == PROC_UPTIME {
        uptime_text(i)
    } else if which == PROC_SELF_STATUS {
        status_text(i)
    } else if which == PROC_MODULES {
        i.modules@
    } else {
        Seq::empty()
    }
}

/// The text a read of proc file `which` sees (at most 512 bytes).
pub open spec fn proc_content(which: u64, i: &ProcInfo) -> Seq<u8> {
    take_at_most(proc_text(which, i), GEN_CAP as int)
}

fn push_secs(v: &mut Vec<u8>, ticks: u64)
    ensures
        final(v)@ == old(v)@ + secs_text(ticks),
{
    push_dec(v, ticks / 100);
    push_all(v, ".".as_bytes());
    if ticks % 100 < 10 {
        push_all(v, "0".as_bytes());
    }
    push_dec(v, ticks % 100);
    assert(v@ =~= old(v)@ + secs_text(ticks));
}

fn frames_kb(frames: u64) -> (r: u64)
    ensures
        r == kb(frames),
{
    if frames > u64::MAX / 4096 {
        u64::MAX / 1024
    } else {
        frames * 4096 / 1024
    }
}

/// Generate the text of proc file `which`.
pub fn generate(which: u64, info: &ProcInfo) -> (v: Vec<u8>)
    ensures
        v@ == proc_content(which, info),
{
    let mut v: Vec<u8> = Vec::new();
    if which == PROC_MEMINFO {
        push_all(&mut v, "MemTotal:       ".as_bytes());
        push_dec(&mut v, frames_kb(info.total_frames));
        push_all(&mut v, " kB\n".as_bytes());
        push_all(&mut v, "MemFree:        ".as_bytes());
        push_dec(&mut v, frames_kb(info.free_frames));
        push_all(&mut v, " kB\n".as_bytes());
        push_all(&mut v, "MemAvailable:   ".as_bytes());
        push_dec(&mut v, frames_kb(info.free_frames));
        push_all(&mut v, " kB\n".as_bytes());
        push_all(&mut v, "MemUsed:        ".as_bytes());
        push_dec(&mut v, frames_kb(info.used_frames));
        push_all(&mut v, " kB\n".as_bytes());
    } else if which == PROC_MOUNTS {
        push_all(&mut v, "/dev/hda / ext2 rw 0 0\n".as_bytes());
        push_all(&mut v, "ramfs /ram ramfs rw 0 0\n".as_bytes());
        push_all(&mut v, "proc /proc proc rw 0 0\n".as_bytes());
        push_all(&mut v, "devtmpfs /dev devtmpfs rw 0 0\n".as_bytes());
    } else if which == PROC_VERSION {
        push_all(&mut v, "munux version 0.3 x86_64\n".as_bytes());
    } else if which == PROC_UPTIME {
        push_secs(&mut v, info.ticks);
        push_all(&mut v, " ".as_bytes());
        push_secs(&mut v, info.ticks);
        push_all(&mut v, "\n".as_bytes());
    } else if which == PROC_SELF_STATUS {
        push_all(&mut v, "Name:\t".as_bytes());
        let n = if info.name.len() < 15 { info.name.len() } else { 15 };
        let nm = copy_prefix(info.name.as_slice(), n);
        assert(nm@ =~= take_at_most(info.name@, 15));
        if n > 0 {
            match crate::text::utf8_text(nm.as_slice()) {
                Some(_) => push_all(&mut v, nm.as_slice()),
                None => {},
            }
        } else {
            push_all(&mut v, "?".as_bytes());
        }
        push_all(&mut v, "\n".as_bytes());
        push_all(&mut v, "Pid:\t".as_bytes());
        push_dec(&mut v, info.tid);
        push_all(&mut v, "\n".as_bytes());
        push_all(&mut v, "Tgid:\t".as_bytes());
        push_dec(&mut v, info.tgid);
        push_all(&mut v, "\n".as_bytes());
    } else if which == PROC_MODULES {
        push_all(&mut v, info.modules.as_slice());
    }
    let ghost full = v@;
    assert(full =~= proc_text(which, info));
    let n = if v.len() < GEN_CAP { v.len() } else { GEN_CAP };
    let out = copy_prefix(v.as_slice(), n);
    assert(out@ =~= take_at_most(full, GEN_CAP as int));
    out
}

/// Handle on proc file `which`.
pub open spec fn proc_file(which: u64) -> FileData {
    FileData { pos: 0, readable: true, writable: false, private: which, is_dir: false, fops_id: FOPS_PROC }
}

/// Proc file for a bare name (as seen from inside `/proc` or `/proc/self`).
pub open spec fn proc_name_id(n: Seq<u8>) -> Option<u64> {
    if n == "meminfo".spec_bytes() {
        Some(PROC_MEMINFO)
    } else if n == "mounts".spec_bytes() {
        Some(PROC_MOUNTS)
    } else if n == "version".spec_bytes() {
        Some(PROC_VERSION)
    } else if n == "uptime".spec_bytes() {
        Some(PROC_UPTIME)
    } else if n == "status".spec_bytes() {
        Some(PROC_SELF_STATUS)
    } else if n == "modules".spec_bytes() {
        Some(PROC_MODULES)
    } else {
        None
    }
}

/// Proc file for the part of a path after `/proc/`.
pub open spec fn proc_path_id(n: Seq<u8>) -> Option<u64> {
    if n == "meminfo".spec_bytes() {
        Some(PROC_MEMINFO)
    } else if n == "mounts".spec_bytes() {
        Some(PROC_MOUNTS)
    } else if n == "version".spec_bytes() {
        Some(PROC_VERSION)
    } else if n == "uptime".spec_bytes() {
        Some(PROC_UPTIME)
    } else if n == "self/status".spec_bytes() {
        Some(PROC_SELF_STATUS)
    } else if n == "modules".spec_bytes() {
        Some(PROC_MODULES)
    } else {
        None
    }
}

/// Open a bare proc file name (read-only).
pub fn open_name(name: &str, readable: bool, writable: bool) -> (r: Result<FileData, VfsError>)
    ensures
        r == open_name_spec(name.spec_bytes(), readable, writable),
{
    open_name_bytes(name.as_bytes(), readable, writable)
}

/// Outcome of opening the bare proc name `n`.
pub open spec fn open_name_spec(n: Seq<u8>, readable: bool, writable: bool) -> Result<FileData, VfsError> {
    if writable || !readable {
        Err(VfsError::Inval)
    } else {
        match proc_name_id(n) {
            Some(w) => Ok(proc_file(w)),
            None => Err(VfsError::NoEnt),
        }
    }
}

/// `open_name` on the bytes of a name.
pub fn open_name_bytes(n: &[u8], readable: bool, writable: bool) -> (r: Result<FileData, VfsError>)
    ensures
        r == open_name_spec(n@, readable, writable),
{
    if writable || !readable {
        return Err(VfsError::Inval);
    }
    let which = if bytes_eq(n, "meminfo".as_bytes()) {
        PROC_MEMINFO
    } else if bytes_eq(n, "mounts".as_bytes()) {
        PROC_MOUNTS
    } else if bytes_eq(n, "version".as_bytes()) {
        PROC_VERSION
    } else if bytes_eq(n, "uptime".as_bytes()) {
        PROC_UPTIME
    } else if bytes_eq(n, "status".as_bytes()) {
        PROC_SELF_STATUS
    } else if bytes_eq(n, "modules".as_bytes()) {
        PROC_MODULES
    } else {
        return Err(VfsError::NoEnt);
    };
    Ok(FileData { pos: 0, readable: true, writable: false, private: which, is_dir: false, fops_id: FOPS_PROC })
}

/// Outcome of opening the path `p` under `/proc`.
pub open spec fn open_spec(p: Seq<u8>, readable: bool, writable: bool) -> Result<FileData, VfsError> {
    let a = "/proc/".spec_bytes();
    let b = "proc/".spec_bytes();
    if writable || !readable {
        Err(VfsError::Inval)
    } else if p == "/proc".spec_bytes() || p == a {
        Err(VfsError::IsDir)
    } else if !has_prefix(p, a) && !has_prefix(p, b) {
        Err(VfsError::NoEnt)
    } else {
        let rest = if has_prefix(p, a) { p.skip(a.len() as int) } else { p.skip(b.len() as int) };
        if rest == "self".spec_bytes() || rest == "self/".spec_bytes() {
            Err(VfsError::IsDir)
        } else {
            match proc_path_id(rest) {
                Some(w) => Ok(proc_file(w)),
                None => Err(VfsError::NoEnt),
            }
        }
    }
}

/// Open a `/proc/...` path (read-only).
pub fn open(path: &str, readable: bool, writable: bool) -> (r: Result<FileData, VfsError>)
    ensures
        r == open_spec(path.spec_bytes(), readable, writable),
{
    open_bytes(path.as_bytes(), readable, writable)
}

/// `open` on the bytes of a path.
pub fn open_bytes(p: &[u8], readable: bool, writable: bool) -> (r: Result<FileData, VfsError>)
    ensures
        r == open_spec(p@, readable, writable),
{
    if writable || !readable {
        return Err(VfsError::Inval);
    }
    let a = "/proc/".as_bytes();
    let b = "proc/".as_bytes();
    if bytes_eq(p, "/proc".as_bytes()) || bytes_eq(p, a) {
        return Err(VfsError::IsDir);
    }
    let rest = if starts_with(p, a) {
        vstd::slice::slice_subrange(p, a.len(), p.len())
    } else if starts_with(p, b) {
        vstd::slice::slice_subrange(p, b.len(), p.len())
    } else {
        return Err(VfsError::NoEnt);
    };
    if bytes_eq(rest, "self".as_bytes()) || bytes_eq(rest, "self/".as_bytes()) {
        return Err(VfsError::IsDir);
    }
    let which = if bytes_eq(rest, "meminfo".as_bytes()) {
        PROC_MEMINFO
    } else if bytes_eq(rest, "mounts".as_bytes()) {
        PROC_MOUNTS
    } else if bytes_eq(rest, "version".as_bytes()) {
        PROC_VERSION
    } else if bytes_eq(rest, "uptime".as_bytes()) {
        PROC_UPTIME
    } else if bytes_eq(rest, "self/status".as_bytes()) {
        PROC_SELF_STATUS
    } else if bytes_eq(rest, "modules".as_bytes()) {
        PROC_MODULES
    } else {
        return Err(VfsError::NoEnt);
    };
    Ok(FileData { pos: 0, readable: true, writable: false, private: which, is_dir: false, fops_id: FOPS_PROC })
}

/// What a read of `buf_len` bytes at `pos` of text `c` returns.
pub open spec fn read_from(c: Seq<u8>, pos: u64, buf_len: nat) -> Seq<u8> {
    if pos >= c.len() {
        Seq::empty()
    } else {
        let n = if c.len() - pos < buf_len { (c.len() - pos) as int } else { buf_len as int };
        c.subrange(pos as int, pos + n)
    }
}

/// Read proc file `f` at `f.pos` (the text is generated afresh).
pub fn read_op(f: &FileData, info: &ProcInfo, buf: &mut [u8]) -> (r: Result<usize, VfsError>)
    ensures
        ({
            let s = read_from(proc_content(f.private, info), f.pos, old(buf)@.len());
            &&& r == Ok::<usize, VfsError>(s.len() as usize)
            &&& final(buf)@ == s + old(buf)@.skip(s.len() as int)
        }),
{
    let c = generate(f.private, info);
    if f.pos >= c.len() as u64 {
        assert(buf@.skip(0) =~= buf@);
        return Ok(0);
    }
    let start = f.pos as usize;
    let n = if c.len() - start < buf.len() { c.len() - start } else { buf.len() };
    let cl = c.len();
    let mut k: usize = 0;
    while k < n
        invariant
            cl == c@.len(),
            start + n <= c@.len(),
            n <= buf@.len(),
            buf@.len() == old(buf)@.len(),
            k <= n,
            forall|j: int| 0 <= j < k ==> buf@[j] == c@[start + j],
            forall|j: int| n <= j < buf@.len() ==> buf@[j] == old(buf)@[j],
        decreases n - k,
    {
        buf[k] = c[start + k];
        k = k + 1;
    }
    assert(buf@ =~= c@.subrange(start as int, start + n) + old(buf)@.skip(n as int));
    Ok(n)
}

} // verus!
