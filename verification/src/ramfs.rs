//! The RAM filesystem mounted at `/ram`: four fixed slots of 256 bytes each.

use vstd::prelude::*;
use vstd::string::StringSliceAdditionalSpecFns;
use crate::text::{has_prefix, has_byte, starts_with, contains_byte, bytes_eq, copy_prefix};
use crate::vcore::{FileData, VfsError, FOPS_RAMFS_FILE, O_CREAT};

verus! {

pub const RAMFS_SLOTS: usize = 4;
pub const RAMFS_BYTES: usize = 256;
/// Longest stored file name.
pub const RAMFS_NAME_MAX: usize = 15;

struct RamFile {
    used: bool,
    /// Name as it reads back (see [`shown`]).
    name: Vec<u8>,
    len: usize,
    data: Vec<u8>,
}

/// Observable state of a ramfs slot: `data` is the whole 256-byte area,
/// of which the first `len` bytes are the file.
pub struct RamView {
    pub used: bool,
    pub name: Seq<u8>,
    pub len: nat,
    pub data: Seq<u8>,
}

/// A name cut after `n` bytes still reads back as text when the cut does not
/// fall on a UTF-8 continuation byte.
pub open spec fn cut_ok(s: Seq<u8>, n: int) -> bool {
    n >= s.len() || !(128 <= s[n] < 192)
}

/// What a name stored in at most `max` bytes reads back as: the cut prefix,
/// or nothing when the cut splits a character.
pub open spec fn shown(s: Seq<u8>, max: int) -> Seq<u8> {
    let n = if s.len() < max { s.len() as int } else { max };
    if cut_ok(s, n) {
        s.take(n)
    } else {
        Seq::empty()
    }
}

/// Copy of `s` as [`shown`] describes it.
pub fn shown_copy(s: &[u8], max: usize) -> (v: Vec<u8>)
    ensures
        v@ == shown(s@, max as int),
{
    let n = if s.len() < max { s.len() } else { max };
    if n >= s.len() || !(128 <= s[n] && s[n] < 192) {
        copy_prefix(s, n)
    } else {
        Vec::new()
    }
}

/// Lowest used slot whose name is `name`, searching from slot `k`.
pub open spec fn find_from(rv: Seq<RamView>, name: Seq<u8>, k: int) -> Option<int>
    decreases rv.len() - k,
{
    if k < 0 || k >= rv.len() {
        None
    } else if rv[k].used && rv[k].name == name {
        Some(k)
    } else {
        find_from(rv, name, k + 1)
    }
}

/// Lowest free slot, searching from slot `k`.
pub open spec fn free_from(rv: Seq<RamView>, k: int) -> Option<int>
    decreases rv.len() - k,
{
    if k < 0 || k >= rv.len() {
        None
    } else if !rv[k].used {
        Some(k)
    } else {
        free_from(rv, k + 1)
    }
}

/// Handle on ramfs slot `i`.
pub open spec fn ram_file(i: int, readable: bool, writable: bool) -> FileData {
    FileData { pos: 0, readable, writable, private: i as u64, is_dir: false, fops_id: FOPS_RAMFS_FILE }
}

/// The slot of a freshly created file.
pub open spec fn created(name: Seq<u8>) -> RamView {
    RamView { used: true, name: shown(name, RAMFS_NAME_MAX as int), len: 0, data: Seq::new(RAMFS_BYTES as nat, |j: int| 0u8) }
}

/// Outcome of opening `name` (the part after `/ram/`).
pub open spec fn open_entry_spec(
    rv: Seq<RamView>,
    name: Seq<u8>,
    flags: u32,
    readable: bool,
    writable: bool,
) -> (Result<FileData, VfsError>, Seq<RamView>) {
    if name.len() == 0 || has_byte(name, 47) {
        (Err(VfsError::NoEnt), rv)
    } else {
        match find_from(rv, name, 0) {
            Some(i) => (Ok(ram_file(i, readable, writable)), rv),
            None => if flags & O_CREAT == 0 {
                (Err(VfsError::NoEnt), rv)
            } else {
                match free_from(rv, 0) {
                    Some(i) => (Ok(ram_file(i, readable, writable)), rv.update(i, created(name))),
                    None => (Err(VfsError::NoMem), rv),
                }
            },
        }
    }
}

/// Outcome of opening the path `p` (`/ram/NAME`).
pub open spec fn open_path_spec(
    rv: Seq<RamView>,
    p: Seq<u8>,
    flags: u32,
    readable: bool,
    writable: bool,
) -> (Result<FileData, VfsError>, Seq<RamView>) {
    if p == "/ram".spec_bytes() || p == "/ram/".spec_bytes() {
        (Err(VfsError::IsDir), rv)
    } else if !has_prefix(p, "/ram/".spec_bytes()) {
        (Err(VfsError::NoEnt), rv)
    } else {
        open_entry_spec(rv, p.skip("/ram/".spec_bytes().len() as int), flags, readable, writable)
    }
}

/// Outcome of opening a bare name from inside `/ram` (the path `/ram/NAME`
/// must fit 31 bytes).
pub open spec fn open_name_spec(
    rv: Seq<RamView>,
    n: Seq<u8>,
    flags: u32,
    readable: bool,
    writable: bool,
) -> (Result<FileData, VfsError>, Seq<RamView>) {
    if n.len() + 5 >= 32 {
        (Err(VfsError::NoEnt), rv)
    } else if n.len() == 0 {
        (Err(VfsError::IsDir), rv)
    } else {
        open_entry_spec(rv, n, flags, readable, writable)
    }
}

/// The length of the file in `slot`, 0 when the slot is not in use.
pub open spec fn ram_size(rv: Seq<RamView>, slot: u64) -> u64 {
    if slot < RAMFS_SLOTS && rv[slot as int].used {
        rv[slot as int].len as u64
    } else {
        0
    }
}

/// What reading `buf_len` bytes at `pos` from a slot gives.
pub open spec fn read_spec(rv: Seq<RamView>, private: u64, pos: u64, buf_len: nat) -> Result<Seq<u8>, VfsError> {
    if private >= RAMFS_SLOTS || !rv[private as int].used {
        Err(VfsError::NoEnt)
    } else {
        let f = rv[private as int];
        if pos >= f.len {
            Ok(Seq::empty())
        } else {
            let n = if f.len - pos < buf_len { (f.len - pos) as int } else { buf_len as int };
            Ok(f.data.subrange(pos as int, pos + n))
        }
    }
}

/// How many bytes a write of `src_len` bytes at `start` stores.
pub open spec fn write_count(start: int, src_len: int) -> int {
    if src_len < RAMFS_BYTES - start { src_len } else { RAMFS_BYTES - start }
}

/// What a write of `src` at `pos` into slot `private` returns.
pub open spec fn write_result(rv: Seq<RamView>, private: u64, pos: u64, src: Seq<u8>) -> Result<usize, VfsError> {
    if private >= RAMFS_SLOTS || !rv[private as int].used {
        Err(VfsError::NoEnt)
    } else if pos >= RAMFS_BYTES {
        Err(VfsError::Inval)
    } else {
        Ok(write_count(pos as int, src.len() as int) as usize)
    }
}

/// The slots after a write of `src` at `pos` into slot `private`: the bytes
/// that fit are stored and the length grows to cover them.
pub open spec fn write_view(rv: Seq<RamView>, private: u64, pos: u64, src: Seq<u8>) -> Seq<RamView> {
    if private >= RAMFS_SLOTS || !rv[private as int].used || pos >= RAMFS_BYTES {
        rv
    } else {
        let i = private as int;
        let n = write_count(pos as int, src.len() as int);
        let old_f = rv[i];
        rv.update(
            i,
            RamView {
                used: true,
                name: old_f.name,
                len: if old_f.len < pos + n { (pos + n) as nat } else { old_f.len },
                data: old_f.data.take(pos as int) + src.take(n) + old_f.data.skip(pos + n),
            },
        )
    }
}

/// What a write stores is what a read at the same offset gives back: after
/// writing `src` at `pos` into a used slot, reading as many bytes as were
/// written at `pos` returns them.
pub proof fn lemma_write_then_read(rv: Seq<RamView>, private: u64, pos: u64, src: Seq<u8>)
    requires
        rv.len() == RAMFS_SLOTS,
        private < RAMFS_SLOTS,
        rv[private as int].used,
        rv[private as int].data.len() == RAMFS_BYTES,
        rv[private as int].len <= RAMFS_BYTES,
        pos < RAMFS_BYTES,
    ensures
        ({
            let n = write_count(pos as int, src.len() as int);
            &&& write_result(rv, private, pos, src) == Ok::<usize, VfsError>(n as usize)
            &&& n > 0 ==> read_spec(write_view(rv, private, pos, src), private, pos, n as nat) == Ok::<Seq<u8>, VfsError>(src.take(n))
        }),
{
    let n = write_count(pos as int, src.len() as int);
    if n > 0 {
        let i = private as int;
        let f = write_view(rv, private, pos, src)[i];
        let d = rv[i].data.take(pos as int) + src.take(n) + rv[i].data.skip(pos + n);
        assert(f.data == d);
        assert(d.subrange(pos as int, pos + n) =~= src.take(n));
    }
}

pub struct RamFs {
    files: Vec<RamFile>,
}

spec fn slot_ok(f: RamFile) -> bool {
    &&& f.data@.len() == RAMFS_BYTES
    &&& f.len <= RAMFS_BYTES
    &&& f.name@.len() <= RAMFS_NAME_MAX
    &&& forall|j: int| f.len <= j < RAMFS_BYTES ==> #[trigger] f.data@[j] == 0
}

impl RamFs {
    pub closed spec fn view(&self) -> Seq<RamView> {
        Seq::new(
            self.files@.len(),
            |i: int|
                RamView {
                    used: self.files@[i].used,
                    name: self.files@[i].name@,
                    len: self.files@[i].len as nat,
                    data: self.files@[i].data@,
                },
        )
    }

    pub closed spec fn wf(&self) -> bool {
        &&& self.files@.len() == RAMFS_SLOTS
        &&& forall|i: int| 0 <= i < RAMFS_SLOTS ==> slot_ok(#[trigger] self.files@[i])
    }

    /// What every well-formed ramfs satisfies.
    pub proof fn lemma_view(&self)
        requires
            self.wf(),
        ensures
            self.view().len() == RAMFS_SLOTS,
            forall|i: int|
                0 <= i < RAMFS_SLOTS ==> {
                    &&& (#[trigger] self.view()[i]).data.len() == RAMFS_BYTES
                    &&& self.view()[i].len <= RAMFS_BYTES
                    &&& self.view()[i].name.len() <= RAMFS_NAME_MAX
                    &&& forall|j: int| self.view()[i].len <= j < RAMFS_BYTES ==> self.view()[i].data[j] == 0
                },
    {
        assert forall|i: int| 0 <= i < RAMFS_SLOTS implies {
            &&& (#[trigger] self.view()[i]).data.len() == RAMFS_BYTES
            &&& self.view()[i].len <= RAMFS_BYTES
            &&& self.view()[i].name.len() <= RAMFS_NAME_MAX
            &&& forall|j: int| self.view()[i].len <= j < RAMFS_BYTES ==> self.view()[i].data[j] == 0
        } by {
            assert(slot_ok(self.files@[i]));
        }
    }

    fn zeroed() -> (data: Vec<u8>)
        ensures
            data@ == Seq::new(RAMFS_BYTES as nat, |j: int| 0u8),
    {
        let mut data: Vec<u8> = Vec::new();
        let mut i: usize = 0;
        while i < RAMFS_BYTES
            invariant
                i <= RAMFS_BYTES,
                data@ == Seq::new(i as nat, |j: int| 0u8),
            decreases RAMFS_BYTES - i,
        {
            data.push(0);
            i = i + 1;
            assert(data@ =~= Seq::new(i as nat, |j: int| 0u8));
        }
        data
    }

    /// Four free slots.
    pub fn new() -> (r: RamFs)
        ensures
            r.wf(),
            forall|i: int| 0 <= i < RAMFS_SLOTS ==> !(#[trigger] r.view()[i]).used,
    {
        let mut files: Vec<RamFile> = Vec::new();
        let mut k: usize = 0;
        while k < RAMFS_SLOTS
            invariant
                k <= RAMFS_SLOTS,
                files@.len() == k,
                forall|m: int| 0 <= m < k ==> slot_ok(#[trigger] files@[m]) && !files@[m].used,
            decreases RAMFS_SLOTS - k,
        {
            files.push(RamFile { used: false, name: Vec::new(), len: 0, data: Self::zeroed() });
            k = k + 1;
        }
        RamFs { files }
    }

    /// Seed slot 0 with the file `hello`.
    pub fn seed(&mut self)
        requires
            old(self).wf(),
            old(self).view()[0].len == 0,
        ensures
            final(self).wf(),
            final(self).view() == old(self).view().update(
                0,
                RamView {
                    used: true,
                    name: "hello".spec_bytes(),
                    len: "ramfs says hi\n".spec_bytes().len(),
                    data: "ramfs says hi\n".spec_bytes() + old(self).view()[0].data.skip(
                        "ramfs says hi\n".spec_bytes().len() as int,
                    ),
                },
            ),
    {
        let name = "hello".as_bytes();
        let msg = "ramfs says hi\n".as_bytes();
        proof {
            reveal_strlit("hello");
            reveal_strlit("ramfs says hi\n");
            vstd::string::is_ascii_spec_bytes("hello");
            vstd::string::is_ascii_spec_bytes("ramfs says hi\n");
        }
        assert(name@.len() == 5);
        assert(msg@.len() == 14);
        let ghost old_view = self.view();
        let mut data = copy_prefix(msg, msg.len());
        let mut j: usize = msg.len();
        while j < RAMFS_BYTES
            invariant
                self.wf(),
                self.view() == old_view,
                msg@.len() == 14,
                14 <= j <= RAMFS_BYTES,
                data@ == msg@ + self.files@[0].data@.subrange(14, j as int),
            decreases RAMFS_BYTES - j,
        {
            assert(slot_ok(self.files@[0]));
            let b = self.files[0].data[j];
            data.push(b);
            j = j + 1;
            assert(data@ =~= msg@ + self.files@[0].data@.subrange(14, j as int));
        }
        proof {
            assert(slot_ok(self.files@[0]));
            assert(msg@.take(14) =~= msg@);
        }
        let ghost old_data = self.files@[0].data@;
        let nm = copy_prefix(name, name.len());
        proof {
            assert(name@.take(5) =~= name@);
        }
        self.files.set(0, RamFile { used: true, name: nm, len: 14, data });
        proof {
            assert(old_data.subrange(14, 256) =~= old_data.skip(14));
            assert(old_view[0].data == old_data);
            assert forall|i: int| 0 <= i < RAMFS_SLOTS implies slot_ok(#[trigger] self.files@[i]) by {
                if i == 0 {
                    assert forall|k: int| 14 <= k < RAMFS_BYTES implies #[trigger] self.files@[0].data@[k] == 0 by {
                        assert(self.files@[0].data@[k] == old_data[k]);
                        assert(old_view[0].data[k] == 0);
                    }
                }
            }
            assert(self.view() =~= old_view.update(
                0,
                RamView { used: true, name: name@, len: 14, data: msg@ + old_view[0].data.skip(14) },
            ));
        }
    }

    /// Open (or, with `O_CREAT`, create) the file `name`.
    fn open_entry(&mut self, name: &[u8], flags: u32, readable: bool, writable: bool) -> (r: Result<FileData, VfsError>)
        requires
            old(self).wf(),
        ensures
            final(self).wf(),
            (r, final(self).view()) == open_entry_spec(old(self).view(), name@, flags, readable, writable),
    {
        proof {
            self.lemma_view();
        }
        if name.len() == 0 || contains_byte(name, 47) {
            return Err(VfsError::NoEnt);
        }
        let mut i: usize = 0;
        while i < RAMFS_SLOTS
            invariant
                self.wf(),
                *self == *old(self),
                i <= RAMFS_SLOTS,
                name@.len() > 0,
                !has_byte(name@, 47),
                find_from(self.view(), name@, 0) == find_from(self.view(), name@, i as int),
            decreases RAMFS_SLOTS - i,
        {
            let used = self.files[i].used;
            let same = bytes_eq(self.files[i].name.as_slice(), name);
            assert(self.view()[i as int].name == self.files@[i as int].name@);
            if used && same {
                assert(find_from(self.view(), name@, i as int) == Some(i as int));
                return Ok(FileData { pos: 0, readable, writable, private: i as u64, is_dir: false, fops_id: FOPS_RAMFS_FILE });
            }
            i = i + 1;
        }
        if flags & O_CREAT == 0 {
            return Err(VfsError::NoEnt);
        }
        let mut k: usize = 0;
        while k < RAMFS_SLOTS
            invariant
                self.wf(),
                *self == *old(self),
                k <= RAMFS_SLOTS,
                name@.len() > 0,
                !has_byte(name@, 47),
                flags & O_CREAT != 0,
                find_from(self.view(), name@, 0) == None::<int>,
                free_from(self.view(), 0) == free_from(self.view(), k as int),
            decreases RAMFS_SLOTS - k,
        {
            if !self.files[k].used {
                let nm = shown_copy(name, RAMFS_NAME_MAX);
                let data = Self::zeroed();
                let ghost before = self.view();
                self.files.set(k, RamFile { used: true, name: nm, len: 0, data });
                proof {
                    assert(free_from(before, k as int) == Some(k as int));
                    assert(!has_byte(name@, 47));
                    assert(self.view() =~= before.update(k as int, created(name@)));
                    assert forall|m: int| 0 <= m < RAMFS_SLOTS implies slot_ok(#[trigger] self.files@[m]) by {
                        if m != k {
                            assert(self.files@[m] == old(self).files@[m]);
                        }
                    }
                }
                return Ok(FileData { pos: 0, readable, writable, private: k as u64, is_dir: false, fops_id: FOPS_RAMFS_FILE });
            }
            k = k + 1;
        }
        Err(VfsError::NoMem)
    }

    /// Open `/ram/NAME`; `O_CREAT` creates it in the lowest free slot.
    pub fn open(&mut self, path: &str, flags: u32, readable: bool, writable: bool) -> (r: Result<FileData, VfsError>)
        requires
            old(self).wf(),
        ensures
            final(self).wf(),
            (r, final(self).view()) == open_path_spec(old(self).view(), path.spec_bytes(), flags, readable, writable),
    {
        self.open_bytes(path.as_bytes(), flags, readable, writable)
    }

    /// `open` on the bytes of a path.
    pub fn open_bytes(&mut self, p: &[u8], flags: u32, readable: bool, writable: bool) -> (r: Result<FileData, VfsError>)
        requires
            old(self).wf(),
        ensures
            final(self).wf(),
            (r, final(self).view()) == open_path_spec(old(self).view(), p@, flags, readable, writable),
    {
        if bytes_eq(p, "/ram".as_bytes()) || bytes_eq(p, "/ram/".as_bytes()) {
            return Err(VfsError::IsDir);
        }
        let pre = "/ram/".as_bytes();
        if !starts_with(p, pre) {
            return Err(VfsError::NoEnt);
        }
        let rest = vstd::slice::slice_subrange(p, pre.len(), p.len());
        assert(rest@ =~= p@.skip(pre@.len() as int));
        self.open_entry(rest, flags, readable, writable)
    }

    /// Open a bare name from inside `/ram` (the path `/ram/NAME` must fit 31 bytes).
    pub fn open_name(&mut self, name: &str, flags: u32, readable: bool, writable: bool) -> (r: Result<FileData, VfsError>)
        requires
            old(self).wf(),
        ensures
            final(self).wf(),
            (r, final(self).view()) == open_name_spec(old(self).view(), name.spec_bytes(), flags, readable, writable),
    {
        self.open_name_bytes(name.as_bytes(), flags, readable, writable)
    }

    /// `open_name` on the bytes of a name.
    pub fn open_name_bytes(&mut self, b: &[u8], flags: u32, readable: bool, writable: bool) -> (r: Result<FileData, VfsError>)
        requires
            old(self).wf(),
        ensures
            final(self).wf(),
            (r, final(self).view()) == open_name_spec(old(self).view(), b@, flags, readable, writable),
    {
        if b.len() >= 27 {
            return Err(VfsError::NoEnt);
        }
        if b.len() == 0 {
            return Err(VfsError::IsDir);
        }
        self.open_entry(b, flags, readable, writable)
    }

    /// Read from the slot in `f.private` at `f.pos` (the offset is not advanced here).
    /// Bytes written to `slot` (0 for a slot not in use).
    pub fn file_size(&self, slot: u64) -> (r: u64)
        requires
            self.wf(),
        ensures
            r == ram_size(self.view(), slot),
    {
        if slot >= RAMFS_SLOTS as u64 {
            return 0;
        }
        let f = &self.files[slot as usize];
        assert(slot_ok(self.files@[slot as int]));
        if f.used {
            f.len as u64
        } else {
            0
        }
    }

    pub fn read(&self, f: &FileData, buf: &mut [u8]) -> (r: Result<usize, VfsError>)
        requires
            self.wf(),
        ensures
            match read_spec(self.view(), f.private, f.pos, old(buf)@.len()) {
                Err(e) => r == Err::<usize, VfsError>(e) && final(buf)@ == old(buf)@,
                Ok(s) => r == Ok::<usize, VfsError>(s.len() as usize) && final(buf)@.len() == old(buf)@.len()
                    && final(buf)@.take(s.len() as int) == s && final(buf)@.skip(s.len() as int) == old(
                    buf,
                )@.skip(s.len() as int),
            },
    {
        proof {
            self.lemma_view();
        }
        if f.private >= 4 {
            return Err(VfsError::NoEnt);
        }
        let i = f.private as usize;
        if !self.files[i].used {
            return Err(VfsError::NoEnt);
        }
        let len = self.files[i].len;
        assert(self.view()[i as int].len == len);
        if f.pos >= len as u64 {
            assert(buf@.skip(0) =~= buf@);
            return Ok(0);
        }
        let start = f.pos as usize;
        let avail = len - start;
        let n = if avail < buf.len() { avail } else { buf.len() };
        let ghost src = self.files@[i as int].data@;
        let mut k: usize = 0;
        while k < n
            invariant
                self.wf(),
                0 <= i < RAMFS_SLOTS,
                src == self.files@[i as int].data@,
                src.len() == RAMFS_BYTES,
                start + n <= RAMFS_BYTES,
                n <= buf@.len(),
                k <= n,
                buf@.len() == old(buf)@.len(),
                forall|j: int| 0 <= j < k ==> buf@[j] == src[start + j],
                forall|j: int| n <= j < buf@.len() ==> buf@[j] == old(buf)@[j],
            decreases n - k,
        {
            buf[k] = self.files[i].data[start + k];
            k = k + 1;
        }
        assert(buf@.take(n as int) =~= src.subrange(start as int, start + n));
        assert(buf@.skip(n as int) =~= old(buf)@.skip(n as int));
        Ok(n)
    }

    /// Write into the slot in `f.private` at `f.pos`, at most up to the end of the slot.
    pub fn write(&mut self, f: &FileData, src: &[u8]) -> (r: Result<usize, VfsError>)
        requires
            old(self).wf(),
        ensures
            final(self).wf(),
            r == write_result(old(self).view(), f.private, f.pos, src@),
            final(self).view() == write_view(old(self).view(), f.private, f.pos, src@),
    {
        proof {
            self.lemma_view();
        }
        if f.private >= 4 {
            return Err(VfsError::NoEnt);
        }
        let i = f.private as usize;
        if !self.files[i].used {
            return Err(VfsError::NoEnt);
        }
        if f.pos >= 256 {
            return Err(VfsError::Inval);
        }
        let start = f.pos as usize;
        let n = if src.len() < RAMFS_BYTES - start { src.len() } else { RAMFS_BYTES - start };
        let ghost old_view = self.view();
        let ghost old_data = self.files@[i as int].data@;
        proof {
            assert(slot_ok(self.files@[i as int]));
        }
        let mut data = copy_prefix(self.files[i].data.as_slice(), start);
        let mut k: usize = 0;
        while k < n
            invariant
                start + n <= RAMFS_BYTES,
                n <= src@.len(),
                k <= n,
                old_data.len() == RAMFS_BYTES,
                data@ == old_data.take(start as int) + src@.take(k as int),
            decreases n - k,
        {
            data.push(src[k]);
            k = k + 1;
            assert(data@ =~= old_data.take(start as int) + src@.take(k as int));
        }
        let mut m: usize = start + n;
        while m < RAMFS_BYTES
            invariant
                self.wf(),
                self.view() == old_view,
                old_data == self.files@[i as int].data@,
                0 <= i < RAMFS_SLOTS,
                start + n <= m <= RAMFS_BYTES,
                old_data.len() == RAMFS_BYTES,
                data@ == old_data.take(start as int) + src@.take(n as int) + old_data.subrange(
                    start + n,
                    m as int,
                ),
            decreases RAMFS_BYTES - m,
        {
            data.push(self.files[i].data[m]);
            m = m + 1;
            assert(data@ =~= old_data.take(start as int) + src@.take(n as int) + old_data.subrange(
                start + n,
                m as int,
            ));
        }
        let old_len = self.files[i].len;
        let end = start + n;
        let new_len = if end > old_len { end } else { old_len };
        let mut entry = RamFile { used: true, name: Vec::new(), len: new_len, data };
        std::mem::swap(&mut entry.name, &mut self.files[i].name);
        let ghost nm = entry.name@;
        self.files.set(i, entry);
        proof {
            assert(old_data.subrange(start + n, 256) =~= old_data.skip(start + n));
            assert(nm == old_view[i as int].name);
            assert forall|q: int| 0 <= q < RAMFS_SLOTS implies slot_ok(#[trigger] self.files@[q]) by {
                if q == i as int {
                    let d = self.files@[q].data@;
                    assert forall|j: int| new_len <= j < RAMFS_BYTES implies #[trigger] d[j] == 0 by {
                        assert(d[j] == old_data[j]);
                    }
                } else {
                    assert(self.files@[q] == old(self).files@[q]);
                }
            }
            assert(self.view() =~= old_view.update(
                i as int,
                RamView {
                    used: true,
                    name: old_view[i as int].name,
                    len: new_len as nat,
                    data: old_data.take(start as int) + src@.take(n as int) + old_data.skip(start + n),
                },
            ));
        }
        Ok(n)
    }

    /// Name of the `k`-th used slot (in slot order) and that slot's index.
    pub fn nth_used(&self, k: usize) -> (r: Option<(usize, Vec<u8>)>)
        requires
            self.wf(),
        ensures
            match r {
                Some((i, name)) => k < used_files(self.view()).len() && name@ == used_files(self.view())[k as int].name
                    && i < RAMFS_SLOTS,
                None => k >= used_files(self.view()).len(),
            },
    {
        let mut n: usize = 0;
        let mut i: usize = 0;
        while i < RAMFS_SLOTS
            invariant
                self.wf(),
                i <= RAMFS_SLOTS,
                n == used_files(self.view().take(i as int)).len(),
                n <= k,
                n <= i,
            decreases RAMFS_SLOTS - i,
        {
            proof {
                assert(self.view().take(i + 1).drop_last() =~= self.view().take(i as int));
                lemma_used_files_prefix(self.view(), i as int + 1);
            }
            if self.files[i].used {
                if n == k {
                    let name = copy_prefix(self.files[i].name.as_slice(), self.files[i].name.len());
                    proof {
                        assert(self.files@[i as int].name@.take(self.files@[i as int].name@.len() as int)
                            =~= self.files@[i as int].name@);
                        assert(used_files(self.view().take(i + 1)) == used_files(self.view().take(i as int)).push(
                            self.view()[i as int],
                        ));
                    }
                    return Some((i, name));
                }
                n = n + 1;
            }
            i = i + 1;
        }
        proof {
            assert(self.view().take(RAMFS_SLOTS as int) =~= self.view());
        }
        None
    }
}

/// Used slots, in slot order.
pub open spec fn used_files(s: Seq<RamView>) -> Seq<RamView>
    decreases s.len(),
{
    if s.len() == 0 {
        Seq::empty()
    } else {
        let rest = used_files(s.drop_last());
        if s.last().used {
            rest.push(s.last())
        } else {
            rest
        }
    }
}

/// The used slots among the first `k` come first among all used slots.
pub proof fn lemma_used_files_prefix(s: Seq<RamView>, k: int)
    requires
        0 <= k <= s.len(),
    ensures
        used_files(s.take(k)).len() <= used_files(s).len(),
        forall|j: int| 0 <= j < used_files(s.take(k)).len() ==> #[trigger] used_files(s)[j] == used_files(s.take(k))[j],
    decreases s.len() - k,
{
    if k < s.len() {
        lemma_used_files_prefix(s, k + 1);
        assert(s.take(k + 1).drop_last() =~= s.take(k));
    } else {
        assert(s.take(k) =~= s);
    }
}

} // verus!
