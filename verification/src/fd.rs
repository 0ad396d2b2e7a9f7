//! File descriptors: per-process tables of open files over the VFS.

use vstd::prelude::*;
use vstd::string::StringSliceAdditionalSpecFns;
use crate::vcore::{
    FileData, VfsError, Vfs, FOPS_NONE, FOPS_CONSOLE, FOPS_EXT2_FILE, FOPS_EXT2_DIR, FOPS_VDIR,
    FOPS_PIPE_R, FOPS_PIPE_W, console_file, DentView, VfsDirEnt,
};
use crate::pipe::PipeTable;

verus! {

pub const FD_MAX: usize = 32;
pub const STDIN_FILENO: usize = 0;
pub const STDOUT_FILENO: usize = 1;
pub const STDERR_FILENO: usize = 2;

/// Linux open flags (subset).
pub const O_RDONLY: u64 = 0;
pub const O_WRONLY: u64 = 1;
pub const O_RDWR: u64 = 2;
pub const O_CREAT: u64 = 0o100;
pub const O_TRUNC: u64 = 0o1000;
pub const O_DIRECTORY: u64 = 0o200000;
pub const O_ACCMODE: u64 = 3;

#[derive(Clone, Copy, Debug, PartialEq, Eq, Structural)]
pub enum FdError {
    BadFd,
    Fault,
    NoEnt,
    IsDir,
    NotDir,
    NoMem,
    Inval,
    Exist,
    Loop,
}

/// The descriptor error for a VFS error.
pub open spec fn fd_err(e: VfsError) -> FdError {
    match e {
        VfsError::NoEnt => FdError::NoEnt,
        VfsError::IsDir => FdError::IsDir,
        VfsError::NotDir => FdError::NotDir,
        VfsError::Inval => FdError::Inval,
        VfsError::Fault => FdError::Fault,
        VfsError::NoDev => FdError::NoMem,
        VfsError::NoMem => FdError::NoMem,
        VfsError::Exist => FdError::Exist,
        VfsError::NotEmpty => FdError::Inval,
        VfsError::Loop => FdError::Loop,
    }
}

pub fn vfs_to_fd(e: VfsError) -> (r: FdError)
    ensures
        r == fd_err(e),
{
    match e {
        VfsError::NoEnt => FdError::NoEnt,
        VfsError::IsDir => FdError::IsDir,
        VfsError::NotDir => FdError::NotDir,
        VfsError::Inval => FdError::Inval,
        VfsError::Fault => FdError::Fault,
        VfsError::NoDev | VfsError::NoMem => FdError::NoMem,
        VfsError::Exist => FdError::Exist,
        VfsError::NotEmpty => FdError::Inval,
        VfsError::Loop => FdError::Loop,
    }
}

/// `r` with its error mapped to a descriptor error.
pub open spec fn map_fd<T>(r: Result<T, VfsError>) -> Result<T, FdError> {
    match r {
        Ok(v) => Ok(v),
        Err(e) => Err(fd_err(e)),
    }
}

/// An open file: its VFS state.
#[derive(Clone, Copy, Debug, PartialEq, Eq, Structural)]
pub struct File {
    pub data: FileData,
}

/// Whether a table entry holds an open file.
pub open spec fn is_open_spec(f: File) -> bool {
    f.data.fops_id != FOPS_NONE
}

pub open spec fn closed_entry() -> File {
    File { data: crate::vcore::closed_file() }
}

impl File {
    pub fn closed() -> (f: Self)
        ensures
            f == closed_entry(),
    {
        File { data: FileData::closed() }
    }

    pub fn console_stdin() -> (f: Self)
        ensures
            f.data == crate::vcore::console_spec(true, false),
    {
        File { data: console_file(true, false) }
    }

    pub fn console_stdout() -> (f: Self)
        ensures
            f.data == crate::vcore::console_spec(false, true),
    {
        File { data: console_file(false, true) }
    }

    pub fn from_vfs(data: FileData) -> (f: Self)
        ensures
            f.data == data,
    {
        File { data }
    }

    pub fn is_open(&self) -> (b: bool)
        ensures
            b == is_open_spec(*self),
    {
        self.data.fops_id != FOPS_NONE
    }

    pub fn is_dir(&self) -> (b: bool)
        ensures
            b == self.data.is_dir,
    {
        self.data.is_dir
    }

    /// The ext2 inode behind an ext2 file or directory.
    pub fn ext2_ino(&self) -> (r: Option<u32>)
        ensures
            r == (if self.data.fops_id == FOPS_EXT2_FILE || self.data.fops_id == FOPS_EXT2_DIR {
                Some(self.data.private as u32)
            } else {
                None
            }),
    {
        if self.data.fops_id == FOPS_EXT2_FILE || self.data.fops_id == FOPS_EXT2_DIR {
            Some(self.data.private as u32)
        } else {
            None
        }
    }
}

/// Lowest index `>= k` whose entry is closed.
pub open spec fn free_from(s: Seq<File>, k: int) -> Option<int>
    decreases s.len() - k,
{
    if k < 0 || k >= s.len() {
        None
    } else if !is_open_spec(s[k]) {
        Some(k)
    } else {
        free_from(s, k + 1)
    }
}

/// How many entries of `s` are open.
pub open spec fn count_open(s: Seq<File>) -> nat
    decreases s.len(),
{
    if s.len() == 0 {
        0
    } else {
        count_open(s.drop_last()) + if is_open_spec(s.last()) { 1nat } else { 0nat }
    }
}

proof fn lemma_count_open_le(s: Seq<File>)
    ensures
        count_open(s) <= s.len(),
    decreases s.len(),
{
    if s.len() > 0 {
        lemma_count_open_le(s.drop_last());
    }
}

/// What a pipe end needs on close: the pipe loses a reader or a writer.
pub open spec fn release_pipes(p0: PipeTable, p1: PipeTable, f: File) -> bool {
    if f.data.fops_id == FOPS_PIPE_R && f.data.private < 16 {
        crate::pipe::close_post(p0, p1, f.data.private as usize, true)
    } else if f.data.fops_id == FOPS_PIPE_W && f.data.private < 16 {
        crate::pipe::close_post(p0, p1, f.data.private as usize, false)
    } else {
        p1 == p0
    }
}

/// What `install(file)` does: the lowest free descriptor gets `file`.
pub open spec fn install_post(t0: Seq<File>, t1: Seq<File>, file: File, r: Result<usize, FdError>) -> bool {
    match free_from(t0, 0) {
        None => r == Err::<usize, FdError>(FdError::NoMem) && t1 == t0,
        Some(i) => r == Ok::<usize, FdError>(i as usize) && t1 == t0.update(i, file),
    }
}

/// What `close(fd)` does.
pub open spec fn close_fd_post(t0: Seq<File>, t1: Seq<File>, p0: PipeTable, p1: PipeTable, fd: usize, ok: bool) -> bool {
    &&& ok == (fd < FD_MAX && is_open_spec(t0[fd as int]))
    &&& !ok ==> t1 == t0 && p1 == p0
    &&& ok ==> t1 == t0.update(fd as int, closed_entry()) && release_pipes(p0, p1, t0[fd as int])
}

/// What `dup_fd(fd)` does.
pub open spec fn dup_post(t0: Seq<File>, t1: Seq<File>, fd: usize, r: Result<usize, FdError>) -> bool {
    if !(fd < FD_MAX && is_open_spec(t0[fd as int])) {
        r == Err::<usize, FdError>(FdError::BadFd) && t1 == t0
    } else {
        install_post(t0, t1, t0[fd as int], r)
    }
}

/// What `dup2_fd(oldfd, newfd)` does.
pub open spec fn dup2_post(
    t0: Seq<File>,
    t1: Seq<File>,
    p0: PipeTable,
    p1: PipeTable,
    oldfd: usize,
    newfd: usize,
    r: Result<usize, FdError>,
) -> bool {
    if newfd >= FD_MAX || !(oldfd < FD_MAX && is_open_spec(t0[oldfd as int])) {
        r == Err::<usize, FdError>(FdError::BadFd) && t1 == t0 && p1 == p0
    } else if oldfd == newfd {
        r == Ok::<usize, FdError>(newfd) && t1 == t0 && p1 == p0
    } else {
        &&& r == Ok::<usize, FdError>(newfd)
        &&& t1 == t0.update(newfd as int, t0[oldfd as int])
        &&& if is_open_spec(t0[newfd as int]) {
            release_pipes(p0, p1, t0[newfd as int])
        } else {
            p1 == p0
        }
    }
}

/// The two ends of pipe `id`.
pub open spec fn pipe_ends(id: u64) -> (File, File) {
    (
        File { data: FileData { pos: 0, readable: true, writable: false, private: id, is_dir: false, fops_id: FOPS_PIPE_R } },
        File { data: FileData { pos: 0, readable: false, writable: true, private: id, is_dir: false, fops_id: FOPS_PIPE_W } },
    )
}

/// What `pipe_open` does. With no pipe slot free: `NoMem`, nothing changes.
/// Otherwise the lowest free slot `id` becomes a pipe with one reader and one
/// writer, its read end goes on the lowest free descriptor and its write end
/// on the next one. When no descriptor is free: `NoMem`, nothing changes.
/// When only one is: `NoMem`, the read end is closed again and the pipe slot
/// freed.
pub open spec fn pipe_post(t0: Seq<File>, t1: Seq<File>, p0: PipeTable, p1: PipeTable, r: Result<(usize, usize), FdError>) -> bool {
    match crate::pipe::first_free_pipe(p0, 0) {
        None => r == Err::<(usize, usize), FdError>(FdError::NoMem) && t1 == t0 && crate::pipe::same_pipes(p0, p1),
        Some(id) => {
            let ends = pipe_ends(id as u64);
            match free_from(t0, 0) {
                None => r == Err::<(usize, usize), FdError>(FdError::NoMem) && t1 == t0 && crate::pipe::same_pipes(p0, p1),
                Some(a) => match free_from(t0.update(a, ends.0), 0) {
                    None => {
                        &&& r == Err::<(usize, usize), FdError>(FdError::NoMem)
                        &&& t1 == t0.update(a, closed_entry())
                        &&& crate::pipe::same_pipes(p0, p1)
                    },
                    Some(b) => {
                        &&& r == Ok::<(usize, usize), FdError>((a as usize, b as usize))
                        &&& t1 == t0.update(a, ends.0).update(b, ends.1)
                        &&& p1.state(id) == (crate::pipe::PipeState { used: true, data: Seq::empty(), nreaders: 1, nwriters: 1 })
                        &&& p1.others_same(&p0, id)
                    },
                },
            }
        },
    }
}

/// What `read(fd, ..)` does.
pub open spec fn read_post(
    t0: Seq<File>,
    t1: Seq<File>,
    fd: usize,
    b0: Seq<u8>,
    b1: Seq<u8>,
    vfs: &Vfs,
    k0: Seq<u8>,
    k1: Seq<u8>,
    info: &crate::procfs::ProcInfo,
    r: Result<usize, FdError>,
) -> bool {
    if !(fd < FD_MAX && is_open_spec(t0[fd as int])) {
        r == Err::<usize, FdError>(FdError::BadFd) && t1 == t0 && b1 == b0 && k1 == k0
    } else {
        let f0 = t0[fd as int].data;
        let r0 = vfs.vfs_read_result(f0, b0.len(), k0, info);
        &&& r == map_fd(r0)
        &&& t1 == t0.update(fd as int, File { data: crate::vcore::after_io(f0, r0) })
        &&& f0.readable && crate::vcore::has_read(f0.fops_id) ==> vfs.read_done(f0, b0, b1, k0, k1, info, r0)
        &&& !(f0.readable && crate::vcore::has_read(f0.fops_id)) ==> b1 == b0 && k1 == k0
    }
}

/// What `write(fd, data, ..)` does.
pub open spec fn write_post(
    t0: Seq<File>,
    t1: Seq<File>,
    fd: usize,
    data: Seq<u8>,
    v0: &Vfs,
    v1: &Vfs,
    c0: crate::console::ConsoleView,
    c1: crate::console::ConsoleView,
    r: Result<usize, FdError>,
) -> bool {
    if !(fd < FD_MAX && is_open_spec(t0[fd as int])) {
        r == Err::<usize, FdError>(FdError::BadFd) && t1 == t0 && v1.same(v0) && c1 == c0
    } else {
        let f0 = t0[fd as int].data;
        let r0 = v0.vfs_write_result(f0, data);
        &&& r == map_fd(r0)
        &&& t1 == t0.update(fd as int, File { data: crate::vcore::after_io(f0, r0) })
        &&& f0.writable && crate::vcore::has_write(f0.fops_id) ==> v0.write_done(v1, f0, data, c0, c1, r0)
        &&& !(f0.writable && crate::vcore::has_write(f0.fops_id)) ==> v1.same(v0) && c1 == c0
    }
}

/// What `getdents64(fd, out, ..)` does.
pub open spec fn getdents_post(t0: Seq<File>, t1: Seq<File>, fd: usize, o0: Seq<u8>, o1: Seq<u8>, vfs: &Vfs, r: Result<usize, FdError>) -> bool {
    &&& o1.len() == o0.len()
    &&& if !(fd < FD_MAX && is_open_spec(t0[fd as int])) {
        r == Err::<usize, FdError>(FdError::BadFd) && t1 == t0 && o1 == o0
    } else {
        let f0 = t0[fd as int].data;
        match getdents_spec(vfs, f0, o0.len()) {
            Err(e) => {
                &&& r == Err::<usize, FdError>(e)
                &&& t1 == t0
                &&& (!(f0.fops_id == FOPS_EXT2_DIR || f0.fops_id == FOPS_VDIR) || !f0.is_dir || o0.len() < 24)
                    ==> o1 == o0
            },
            Ok((bytes, c)) => {
                &&& r == Ok::<usize, FdError>(bytes.len() as usize)
                &&& o1 == bytes + o0.skip(bytes.len() as int)
                &&& t1 == t0.update(fd as int, File { data: FileData { pos: c, ..f0 } })
            },
        }
    }
}

/// A duplicated descriptor names the same open file as the original, and
/// the original is left as it was.
pub proof fn lemma_dup_same_file(t0: Seq<File>, t1: Seq<File>, fd: usize, r: Result<usize, FdError>)
    requires
        t0.len() == FD_MAX,
        dup_post(t0, t1, fd, r),
        r is Ok,
    ensures
        t1[r->Ok_0 as int] == t0[fd as int],
        t1[fd as int] == t0[fd as int],
        is_open_spec(t1[r->Ok_0 as int]),
{
    lemma_free_from_range(t0, 0);
}

/// A closed descriptor is free again: the next open takes the lowest free
/// descriptor, which is the closed one or a lower one that was free before.
pub proof fn lemma_close_then_install(
    t0: Seq<File>,
    t1: Seq<File>,
    t2: Seq<File>,
    p0: PipeTable,
    p1: PipeTable,
    fd: usize,
    file: File,
    r: Result<usize, FdError>,
)
    requires
        t0.len() == FD_MAX,
        close_fd_post(t0, t1, p0, p1, fd, true),
        install_post(t1, t2, file, r),
    ensures
        r == Ok::<usize, FdError>((match free_from(t0, 0) {
            Some(i) => if i < fd { i } else { fd as int },
            None => fd as int,
        }) as usize),
{
    lemma_free_below(t0, t1, fd as int, 0);
}

proof fn lemma_free_below(t0: Seq<File>, t1: Seq<File>, fd: int, k: int)
    requires
        t0.len() == FD_MAX,
        0 <= fd < FD_MAX,
        0 <= k <= fd,
        t1 == t0.update(fd, closed_entry()),
    ensures
        free_from(t1, k) == Some(match free_from(t0, k) {
            Some(i) => if i < fd { i } else { fd },
            None => fd,
        }),
    decreases fd - k,
{
    if k < fd {
        lemma_free_below(t0, t1, fd, k + 1);
    }
    if k == fd {
        lemma_free_from_range(t0, k);
    }
}

/// One process's open files, indexed by descriptor.
pub struct FdTable {
    entries: Vec<File>,
}

impl View for FdTable {
    type V = Seq<File>;

    closed spec fn view(&self) -> Seq<File> {
        self.entries@
    }
}

/// The table with console stdin, stdout and stderr and nothing else open.
pub open spec fn stdio_table() -> Seq<File> {
    Seq::new(
        FD_MAX as nat,
        |i: int|
            if i == 0 {
                File { data: crate::vcore::console_spec(true, false) }
            } else if i == 1 || i == 2 {
                File { data: crate::vcore::console_spec(false, true) }
            } else {
                closed_entry()
            },
    )
}

pub open spec fn empty_table() -> Seq<File> {
    Seq::new(FD_MAX as nat, |i: int| closed_entry())
}

impl FdTable {
    pub closed spec fn wf(&self) -> bool {
        self.entries@.len() == FD_MAX
    }

    pub proof fn lemma_wf(&self)
        requires
            self.wf(),
        ensures
            self@.len() == FD_MAX,
    {
    }

    /// Every descriptor closed.
    pub fn new() -> (t: Self)
        ensures
            t.wf(),
            t@ == empty_table(),
    {
        let mut entries: Vec<File> = Vec::new();
        while entries.len() < FD_MAX
            invariant
                entries@.len() <= FD_MAX,
                entries@ == Seq::new(entries@.len(), |i: int| closed_entry()),
            decreases FD_MAX - entries@.len(),
        {
            entries.push(File::closed());
            assert(entries@ =~= Seq::new(entries@.len(), |i: int| closed_entry()));
        }
        FdTable { entries }
    }

    /// Console on 0, 1 and 2; everything else closed.
    pub fn install_stdio(&mut self)
        requires
            old(self).wf(),
        ensures
            final(self).wf(),
            final(self)@ == stdio_table(),
    {
        self.entries.set(STDIN_FILENO, File::console_stdin());
        self.entries.set(STDOUT_FILENO, File::console_stdout());
        self.entries.set(STDERR_FILENO, File::console_stdout());
        let mut i: usize = 3;
        while i < FD_MAX
            invariant
                self.entries@.len() == FD_MAX,
                3 <= i <= FD_MAX,
                forall|j: int| 0 <= j < i ==> self.entries@[j] == stdio_table()[j],
            decreases FD_MAX - i,
        {
            self.entries.set(i, File::closed());
            i = i + 1;
        }
        assert(self.entries@ =~= stdio_table());
    }

    /// Close every entry.
    pub fn close_all(&mut self)
        requires
            old(self).wf(),
        ensures
            final(self).wf(),
            final(self)@ == empty_table(),
    {
        let mut i: usize = 0;
        while i < FD_MAX
            invariant
                self.entries@.len() == FD_MAX,
                i <= FD_MAX,
                forall|j: int| 0 <= j < i ==> self.entries@[j] == closed_entry(),
            decreases FD_MAX - i,
        {
            self.entries.set(i, File::closed());
            i = i + 1;
        }
        assert(self.entries@ =~= empty_table());
    }

    /// Copy every entry of `other` (offsets are independent afterwards).
    pub fn clone_from(&mut self, other: &FdTable)
        requires
            other.wf(),
        ensures
            final(self).wf(),
            final(self)@ == other@,
    {
        let mut entries: Vec<File> = Vec::new();
        let mut i: usize = 0;
        while i < other.entries.len()
            invariant
                other.entries@.len() == FD_MAX,
                i <= FD_MAX,
                entries@ == other.entries@.take(i as int),
            decreases FD_MAX - i,
        {
            entries.push(other.entries[i]);
            i = i + 1;
            assert(entries@ =~= other.entries@.take(i as int));
        }
        assert(other.entries@.take(FD_MAX as int) =~= other.entries@);
        self.entries = entries;
    }

    /// The open file on `fd`, if any.
    pub fn get(&self, fd: usize) -> (r: Option<&File>)
        requires
            self.wf(),
        ensures
            r == (if fd < FD_MAX && is_open_spec(self@[fd as int]) { Some(&self@[fd as int]) } else { None }),
    {
        if fd >= FD_MAX {
            return None;
        }
        let f = &self.entries[fd];
        if !f.is_open() {
            None
        } else {
            Some(f)
        }
    }

    /// The open file on `fd`, for changing it in place.
    pub fn get_mut(&mut self, fd: usize) -> (r: Option<&mut File>)
        requires
            old(self).wf(),
        ensures
            (r is Some) == (fd < FD_MAX && is_open_spec(old(self)@[fd as int])),
            r is None ==> final(self)@ == old(self)@,
            r is Some ==> *(r->0) == old(self)@[fd as int],
    {
        if fd >= FD_MAX {
            return None;
        }
        if !self.entries[fd].is_open() {
            return None;
        }
        Some(&mut self.entries[fd])
    }

    fn alloc_slot(&self) -> (r: Option<usize>)
        requires
            self.wf(),
        ensures
            r == (match free_from(self@, 0) {
                Some(i) => Some(i as usize),
                None => None::<usize>,
            }),
    {
        self.free_slot_from(0)
    }

    fn free_slot_from(&self, start: usize) -> (r: Option<usize>)
        requires
            self.wf(),
            start <= FD_MAX,
        ensures
            r == (match free_from(self@, start as int) {
                Some(i) => Some(i as usize),
                None => None::<usize>,
            }),
            r matches Some(i) ==> start <= i < FD_MAX,
    {
        let mut i = start;
        while i < FD_MAX && self.entries[i].is_open()
            invariant
                self.entries@.len() == FD_MAX,
                start <= i <= FD_MAX,
                free_from(self@, start as int) == free_from(self@, i as int),
            decreases FD_MAX - i,
        {
            i = i + 1;
        }
        if i < FD_MAX {
            Some(i)
        } else {
            None
        }
    }

    /// Put `file` on the lowest free descriptor.
    pub fn install(&mut self, file: File) -> (r: Result<usize, FdError>)
        requires
            old(self).wf(),
        ensures
            final(self).wf(),
            install_post(old(self)@, final(self)@, file, r),
    {
        match self.alloc_slot() {
            None => Err(FdError::NoMem),
            Some(i) => {
                proof {
                    lemma_free_from_range(self@, 0);
                }
                self.entries.set(i, file);
                Ok(i)
            },
        }
    }

    /// Put `file` on the lowest free descriptor not below `min_fd`.
    pub fn install_at_least(&mut self, min_fd: usize, file: File) -> (r: Result<usize, FdError>)
        requires
            old(self).wf(),
        ensures
            final(self).wf(),
            ({
                let start = if min_fd < FD_MAX { min_fd as int } else { FD_MAX as int };
                match free_from(old(self)@, start) {
                    None => r == Err::<usize, FdError>(FdError::NoMem) && final(self)@ == old(self)@,
                    Some(i) => r == Ok::<usize, FdError>(i as usize) && final(self)@ == old(self)@.update(i, file),
                }
            }),
    {
        let start = if min_fd < FD_MAX { min_fd } else { FD_MAX };
        match self.free_slot_from(start) {
            None => Err(FdError::NoMem),
            Some(i) => {
                proof {
                    lemma_free_from_range(self@, start as int);
                }
                self.entries.set(i, file);
                Ok(i)
            },
        }
    }

    /// Close `fd`; a pipe end releases its side of the pipe. False when `fd`
    /// is not open.
    pub fn close(&mut self, fd: usize, pipes: &mut PipeTable) -> (ok: bool)
        requires
            old(self).wf(),
            old(pipes).wf(),
        ensures
            final(self).wf(),
            final(pipes).wf(),
            close_fd_post(old(self)@, final(self)@, *old(pipes), *final(pipes), fd, ok),
    {
        if fd >= FD_MAX || !self.entries[fd].is_open() {
            return false;
        }
        let f = self.entries[fd];
        release(&f, pipes);
        self.entries.set(fd, File::closed());
        true
    }

    /// Copy `fd` onto the lowest free descriptor.
    pub fn dup_fd(&mut self, fd: usize) -> (r: Result<usize, FdError>)
        requires
            old(self).wf(),
        ensures
            final(self).wf(),
            dup_post(old(self)@, final(self)@, fd, r),
    {
        let file = match self.get(fd) {
            None => return Err(FdError::BadFd),
            Some(f) => *f,
        };
        self.install(file)
    }

    /// Make `new` a copy of `old`, closing what `new` held before.
    pub fn dup2_fd(&mut self, oldfd: usize, newfd: usize, pipes: &mut PipeTable) -> (r: Result<usize, FdError>)
        requires
            old(self).wf(),
            old(pipes).wf(),
        ensures
            final(self).wf(),
            final(pipes).wf(),
            dup2_post(old(self)@, final(self)@, *old(pipes), *final(pipes), oldfd, newfd, r),
    {
        if newfd >= FD_MAX {
            return Err(FdError::BadFd);
        }
        let file = match self.get(oldfd) {
            None => return Err(FdError::BadFd),
            Some(f) => *f,
        };
        if oldfd == newfd {
            return Ok(newfd);
        }
        if self.entries[newfd].is_open() {
            let prev = self.entries[newfd];
            release(&prev, pipes);
        }
        self.entries.set(newfd, file);
        Ok(newfd)
    }

    /// Open a pipe: the read end and then the write end on the lowest free
    /// descriptors.
    pub fn pipe_open(&mut self, pipes: &mut PipeTable) -> (r: Result<(usize, usize), FdError>)
        requires
            old(self).wf(),
            old(pipes).wf(),
        ensures
            final(self).wf(),
            final(pipes).wf(),
            pipe_post(old(self)@, final(self)@, *old(pipes), *final(pipes), r),
    {
        let ghost p0 = *pipes;
        proof {
            p0.lemma_bounds(0);
        }
        let id = match pipes.alloc_pipe() {
            Err(_) => {
                proof {
                    crate::pipe::lemma_no_free_pipe(p0, 0);
                }
                return Err(FdError::NoMem);
            },
            Ok(i) => i,
        };
        proof {
            crate::pipe::lemma_first_free_pipe(p0, 0, id as int);
            p0.lemma_bounds(id as int);
        }
        let ghost p1 = *pipes;
        let rf = File::from_vfs(FileData {
            pos: 0,
            readable: true,
            writable: false,
            private: id as u64,
            is_dir: false,
            fops_id: FOPS_PIPE_R,
        });
        let wf = File::from_vfs(FileData {
            pos: 0,
            readable: false,
            writable: true,
            private: id as u64,
            is_dir: false,
            fops_id: FOPS_PIPE_W,
        });
        let rfd = match self.install(rf) {
            Err(e) => {
                pipes.close_reader(id);
                pipes.close_writer(id);
                proof {
                    assert forall|j: int| 0 <= j < crate::pipe::MAX_PIPES implies #[trigger] pipes.state(j) == p0.state(j) by {}
                }
                return Err(e);
            },
            Ok(i) => i,
        };
        let ghost mid = self@;
        proof {
            lemma_free_from_range(old(self)@, 0);
            assert(rf == pipe_ends(id as u64).0);
        }
        let wfd = match self.install(wf) {
            Err(e) => {
                let _ = self.close(rfd, pipes);
                pipes.close_writer(id);
                assert(self@ =~= old(self)@.update(rfd as int, closed_entry()));
                proof {
                    assert forall|j: int| 0 <= j < crate::pipe::MAX_PIPES implies #[trigger] pipes.state(j) == p0.state(j) by {}
                }
                return Err(e);
            },
            Ok(i) => i,
        };
        proof {
            lemma_free_from_range(mid, 0);
            assert(mid[rfd as int] == rf);
            assert(wf == pipe_ends(id as u64).1);
        }
        Ok((rfd, wfd))
    }

    /// How many descriptors are open.
    pub fn open_count(&self) -> (n: usize)
        requires
            self.wf(),
        ensures
            n == count_open(self@),
    {
        let mut n: usize = 0;
        let mut i: usize = 0;
        while i < FD_MAX
            invariant
                self.entries@.len() == FD_MAX,
                i <= FD_MAX,
                n == count_open(self@.take(i as int)),
            decreases FD_MAX - i,
        {
            proof {
                assert(self@.take(i + 1).drop_last() =~= self@.take(i as int));
                lemma_count_open_le(self@.take(i as int));
            }
            if self.entries[i].is_open() {
                n = n + 1;
            }
            i = i + 1;
        }
        assert(self@.take(FD_MAX as int) =~= self@);
        n
    }
}

pub proof fn lemma_free_from_range(s: Seq<File>, k: int)
    ensures
        free_from(s, k) matches Some(i) ==> k <= i < s.len() && !is_open_spec(s[i]),
    decreases s.len() - k,
{
    if k >= 0 && k < s.len() && is_open_spec(s[k]) {
        lemma_free_from_range(s, k + 1);
    }
}

/// Release what an open file holds elsewhere: a pipe end closes its side.
fn release(f: &File, pipes: &mut PipeTable)
    requires
        old(pipes).wf(),
    ensures
        final(pipes).wf(),
        release_pipes(*old(pipes), *final(pipes), *f),
{
    if f.data.fops_id == FOPS_PIPE_R && f.data.private < 16 {
        pipes.close_reader(f.data.private as usize);
    } else if f.data.fops_id == FOPS_PIPE_W && f.data.private < 16 {
        pipes.close_writer(f.data.private as usize);
    }
}


/// Length of a getdents64 record for a name of `nl` bytes: 19 header bytes,
/// the name and its NUL, rounded up to a multiple of 8.
pub open spec fn reclen(nl: nat) -> nat {
    ((nl + 27) - (nl + 27) % 8) as nat
}

/// Byte `i` of the getdents64 record of `d`: inode (8 bytes, little endian),
/// next offset (8), record length (2), type (1), name, then zeros.
pub open spec fn record_byte(d: DentView, i: int) -> u8 {
    let nl = d.name.len();
    let rl = reclen(nl);
    if i < 8 {
        (d.ino >> (8 * i) as u64) as u8
    } else if i < 16 {
        (d.next_off >> (8 * (i - 8)) as u64) as u8
    } else if i == 16 {
        (rl % 65536 % 256) as u8
    } else if i == 17 {
        (rl % 65536 / 256) as u8
    } else if i == 18 {
        d.d_type
    } else if i < 19 + nl {
        d.name[i - 19]
    } else {
        0u8
    }
}

/// The getdents64 record of `d`.
pub open spec fn record(d: DentView) -> Seq<u8> {
    Seq::new(reclen(d.name.len()), |i: int| record_byte(d, i))
}

/// Records of the entries of `f` from `cookie` on that fit in `room` bytes,
/// and the cookie after the last one packed.
pub open spec fn dents_pack(vfs: &Vfs, f: FileData, cookie: u64, room: nat) -> Result<(Seq<u8>, u64), FdError>
    decreases room,
{
    match vfs.vfs_dir_next_spec(f, cookie) {
        Err(VfsError::NotDir) => Err(FdError::NotDir),
        Err(_) => Err(FdError::Fault),
        Ok(None) => Ok((Seq::empty(), cookie)),
        Ok(Some(d)) => if reclen(d.name.len()) > room {
            Ok((Seq::empty(), cookie))
        } else {
            match dents_pack(vfs, f, d.next_off, (room - reclen(d.name.len())) as nat) {
                Err(e) => Err(e),
                Ok((rest, c)) => Ok((record(d) + rest, c)),
            }
        },
    }
}

/// What getdents64 on the open file `f` gives for a buffer of `outlen`
/// bytes: the packed records and the new directory cookie.
pub open spec fn getdents_spec(vfs: &Vfs, f: FileData, outlen: nat) -> Result<(Seq<u8>, u64), FdError> {
    if !(f.fops_id == FOPS_EXT2_DIR || f.fops_id == FOPS_VDIR) || !f.is_dir {
        Err(FdError::NotDir)
    } else if outlen < 24 {
        Err(FdError::Inval)
    } else {
        match vfs.vfs_dir_next_spec(f, f.pos) {
            Ok(Some(d)) => if reclen(d.name.len()) > outlen {
                Err(FdError::Inval)
            } else {
                dents_pack(vfs, f, f.pos, outlen)
            },
            _ => dents_pack(vfs, f, f.pos, outlen),
        }
    }
}

/// `r` with `p` in front of its bytes.
pub open spec fn prefixed(r: Result<(Seq<u8>, u64), FdError>, p: Seq<u8>) -> Result<(Seq<u8>, u64), FdError> {
    match r {
        Err(e) => Err(e),
        Ok((rest, c)) => Ok((p + rest, c)),
    }
}

proof fn lemma_prefixed_assoc(r: Result<(Seq<u8>, u64), FdError>, a: Seq<u8>, b: Seq<u8>)
    ensures
        prefixed(prefixed(r, b), a) == prefixed(r, a + b),
{
    if let Ok((rest, c)) = r {
        assert(a + (b + rest) =~= (a + b) + rest);
    }
}

proof fn lemma_prefixed_empty(r: Result<(Seq<u8>, u64), FdError>, b: Seq<u8>)
    ensures
        prefixed(r, b) == prefixed(prefixed(r, b), Seq::empty()),
{
    if let Ok((rest, c)) = r {
        assert(Seq::<u8>::empty() + (b + rest) =~= b + rest);
    }
}

fn record_byte_of(ent: &VfsDirEnt, rl: usize, i: usize) -> (b: u8)
    requires
        rl == reclen(ent.name@.len()),
        i < rl,
    ensures
        b == record_byte(crate::vcore::dent_of(*ent), i as int),
{
    let nl = ent.name.len();
    if i < 8 {
        (ent.ino >> (8 * i as u64)) as u8
    } else if i < 16 {
        (ent.next_off >> (8 * (i - 8) as u64)) as u8
    } else if i == 16 {
        (rl % 65536 % 256) as u8
    } else if i == 17 {
        (rl % 65536 / 256) as u8
    } else if i == 18 {
        ent.d_type
    } else if i < 19 + nl {
        ent.name[i - 19]
    } else {
        0
    }
}

/// Write the record of `ent` at `at`.
fn put_record(out: &mut [u8], at: usize, ent: &VfsDirEnt, rl: usize)
    requires
        rl == reclen(ent.name@.len()),
        at + rl <= old(out)@.len(),
    ensures
        final(out)@ == old(out)@.take(at as int) + record(crate::vcore::dent_of(*ent)) + old(out)@.skip(at + rl),
{
    let ol = out.len();
    let mut i: usize = 0;
    while i < rl
        invariant
            ol == out@.len(),
            rl == reclen(ent.name@.len()),
            at + rl <= out@.len(),
            out@.len() == old(out)@.len(),
            i <= rl,
            forall|j: int| 0 <= j < at ==> out@[j] == old(out)@[j],
            forall|j: int| 0 <= j < i ==> out@[at + j] == record_byte(crate::vcore::dent_of(*ent), j),
            forall|j: int| at + rl <= j < out@.len() ==> out@[j] == old(out)@[j],
        decreases rl - i,
    {
        let b = record_byte_of(ent, rl, i);
        out[at + i] = b;
        i = i + 1;
    }
    assert(out@ =~= old(out)@.take(at as int) + record(crate::vcore::dent_of(*ent)) + old(out)@.skip(at + rl));
}

impl FdTable {
    /// Read from `fd` through the VFS and advance its offset.
    pub fn read(
        &mut self,
        fd: usize,
        buf: &mut [u8],
        vfs: &Vfs,
        keys: &mut crate::kbd::KeyBuffer,
        info: &crate::procfs::ProcInfo,
    ) -> (r: Result<usize, FdError>)
        requires
            old(self).wf(),
            vfs.wf(),
            old(keys).wf(),
        ensures
            final(self).wf(),
            final(keys).wf(),
            read_post(old(self)@, final(self)@, fd, old(buf)@, final(buf)@, vfs, old(keys)@, final(keys)@, info, r),
    {
        if fd >= FD_MAX || !self.entries[fd].is_open() {
            return Err(FdError::BadFd);
        }
        let mut d = self.entries[fd].data;
        let r = vfs.vfs_read(&mut d, buf, keys, info);
        self.entries.set(fd, File { data: d });
        match r {
            Ok(n) => Ok(n),
            Err(e) => Err(vfs_to_fd(e)),
        }
    }

    /// Write to `fd` through the VFS and advance its offset.
    pub fn write(&mut self, fd: usize, data: &[u8], vfs: &mut Vfs, con: &mut crate::console::Console) -> (r: Result<
        usize,
        FdError,
    >)
        requires
            old(self).wf(),
            old(vfs).wf(),
            old(con).wf(),
        ensures
            final(self).wf(),
            final(vfs).wf(),
            final(con).wf(),
            write_post(old(self)@, final(self)@, fd, data@, old(vfs), final(vfs), old(con).view(), final(con).view(), r),
    {
        if fd >= FD_MAX || !self.entries[fd].is_open() {
            proof {
                old(vfs).lemma_same_refl();
            }
            return Err(FdError::BadFd);
        }
        let mut d = self.entries[fd].data;
        let r = vfs.vfs_write(&mut d, data, con);
        self.entries.set(fd, File { data: d });
        match r {
            Ok(n) => Ok(n),
            Err(e) => Err(vfs_to_fd(e)),
        }
    }

    /// Fill `out` with getdents64 records of directory `fd` from its cookie
    /// on, and move the cookie past them.
    pub fn getdents64(&mut self, fd: usize, out: &mut [u8], vfs: &Vfs) -> (r: Result<usize, FdError>)
        requires
            old(self).wf(),
            vfs.wf(),
        ensures
            final(self).wf(),
            getdents_post(old(self)@, final(self)@, fd, old(out)@, final(out)@, vfs, r),
    {
        if fd >= FD_MAX || !self.entries[fd].is_open() {
            return Err(FdError::BadFd);
        }
        let f0 = self.entries[fd].data;
        if !(f0.fops_id == FOPS_EXT2_DIR || f0.fops_id == FOPS_VDIR) {
            return Err(FdError::NotDir);
        }
        if !f0.is_dir {
            return Err(FdError::NotDir);
        }
        if out.len() < 24 {
            return Err(FdError::Inval);
        }
        let olen = out.len();
        let mut cookie = f0.pos;
        let mut written: usize = 0;
        loop
            invariant
                self.entries@ == old(self).entries@,
                fd < FD_MAX,
                self.entries@.len() == FD_MAX,
                f0 == old(self)@[fd as int].data,
                f0.fops_id == FOPS_EXT2_DIR || f0.fops_id == FOPS_VDIR,
                f0.is_dir,
                vfs.wf(),
                olen == out@.len(),
                out@.len() == old(out)@.len(),
                olen >= 24,
                written <= olen,
                written == 0 ==> cookie == f0.pos,
                out@.skip(written as int) == old(out)@.skip(written as int),
                written > 0 ==> getdents_spec(vfs, f0, olen as nat) == prefixed(
                    dents_pack(vfs, f0, cookie, (olen - written) as nat),
                    out@.take(written as int),
                ),
            decreases olen - written,
        {
            let next = vfs.vfs_dir_next(&f0, cookie);
            let ent = match next {
                Err(VfsError::NotDir) => return Err(FdError::NotDir),
                Err(_) => return Err(FdError::Fault),
                Ok(None) => {
                    proof {
                        assert(out@ =~= out@.take(written as int) + old(out)@.skip(written as int));
                        assert(out@.take(written as int) + Seq::<u8>::empty() =~= out@.take(written as int));
                    }
                    self.entries.set(fd, File { data: FileData { pos: cookie, ..f0 } });
                    return Ok(written);
                },
                Ok(Some(e)) => e,
            };
            let nl = ent.name.len();
            let t: u128 = nl as u128 + 27;
            let rl_wide: u128 = t - t % 8;
            let too_big = rl_wide > (olen - written) as u128;
            if too_big {
                if written == 0 {
                    return Err(FdError::Inval);
                }
                proof {
                    assert(out@ =~= out@.take(written as int) + old(out)@.skip(written as int));
                    assert(out@.take(written as int) + Seq::<u8>::empty() =~= out@.take(written as int));
                }
                self.entries.set(fd, File { data: FileData { pos: cookie, ..f0 } });
                return Ok(written);
            }
            let rl = rl_wide as usize;
            let ghost before = out@;
            put_record(out, written, &ent, rl);
            proof {
                let d = crate::vcore::dent_of(ent);
                assert(out@.take(written + rl) =~= before.take(written as int) + record(d));
                lemma_prefixed_assoc(dents_pack(vfs, f0, ent.next_off, (olen - written - rl) as nat), before.take(written as int), record(d));
                if written == 0 {
                    assert(Seq::<u8>::empty() + record(d) =~= record(d));
                    lemma_prefixed_empty(dents_pack(vfs, f0, ent.next_off, (olen - rl) as nat), record(d));
                }
                assert(out@.skip(written + rl) =~= old(out)@.skip(written + rl)) by {
                    assert forall|j: int| 0 <= j < out@.len() - (written + rl) implies #[trigger] out@.skip(written + rl)[j] == old(out)@.skip(written + rl)[j] by {
                        assert(before.skip(written as int)[j + rl] == old(out)@.skip(written as int)[j + rl]);
                    }
                }
            }
            written = written + rl;
            cookie = ent.next_off;
        }
    }
}

/// fcntl commands (Linux numbering).
pub const F_DUPFD: u64 = 0;
pub const F_GETFD: u64 = 1;
pub const F_SETFD: u64 = 2;
pub const F_GETFL: u64 = 3;
pub const F_SETFL: u64 = 4;
pub const F_DUPFD_CLOEXEC: u64 = 1030;

/// The open flags reported for `f` by `F_GETFL`.
pub open spec fn getfl(f: FileData) -> u64 {
    let acc: u64 = if f.readable && f.writable {
        O_RDWR
    } else if f.writable {
        O_WRONLY
    } else {
        O_RDONLY
    };
    if f.is_dir {
        acc | O_DIRECTORY
    } else {
        acc
    }
}

/// `a + b` held inside the `i64` range.
pub open spec fn sat_add_i64(a: i64, b: i64) -> i64 {
    if a + b > i64::MAX {
        i64::MAX
    } else if a + b < i64::MIN {
        i64::MIN
    } else {
        (a + b) as i64
    }
}

fn saturating_add_i64(a: i64, b: i64) -> (r: i64)
    ensures
        r == sat_add_i64(a, b),
{
    match a.checked_add(b) {
        Some(v) => v,
        None => if b > 0 {
            i64::MAX
        } else {
            i64::MIN
        },
    }
}

/// The size `lseek` measures `SEEK_END` from: the inode size of an ext2
/// file, the length of a ramfs file, 0 otherwise.
pub open spec fn seek_size(vfs: &Vfs, f: FileData) -> i64 {
    if f.fops_id == FOPS_EXT2_FILE {
        vfs.root_fs().file_size_spec(f.private as u32) as i64
    } else if f.fops_id == crate::vcore::FOPS_RAMFS_FILE {
        crate::ramfs::ram_size(vfs.ram_view(), f.private) as i64
    } else {
        0
    }
}

/// The new offset of an lseek, or why it is refused.
pub open spec fn lseek_spec(vfs: &Vfs, f: FileData, offset: i64, whence: u64) -> Result<u64, FdError> {
    if f.is_dir {
        Err(FdError::IsDir)
    } else if f.fops_id == FOPS_CONSOLE {
        Err(FdError::Inval)
    } else if whence > 2 {
        Err(FdError::Inval)
    } else {
        let new: i64 = if whence == 0 {
            offset
        } else if whence == 1 {
            sat_add_i64(f.pos as i64, offset)
        } else {
            sat_add_i64(seek_size(vfs, f), offset)
        };
        if new < 0 {
            Err(FdError::Inval)
        } else {
            Ok(new as u64)
        }
    }
}

/// The descriptor tables of all process slots, with how many tasks share each.
pub struct FdSystem {
    tables: Vec<FdTable>,
    refs: Vec<u16>,
    ready: bool,
}

impl FdSystem {
    /// The table of slot `i`.
    pub closed spec fn table(&self, i: int) -> Seq<File> {
        self.tables@[i]@
    }

    /// Number of process slots.
    pub closed spec fn slots(&self) -> nat {
        self.tables@.len()
    }

    /// Tasks using the table of slot `i`.
    pub closed spec fn refs_of(&self, i: int) -> u16 {
        self.refs@[i]
    }

    pub closed spec fn is_ready_spec(&self) -> bool {
        self.ready
    }

    pub closed spec fn wf(&self) -> bool {
        &&& self.tables@.len() > 0
        &&& self.refs@.len() == self.tables@.len()
        &&& forall|i: int| 0 <= i < self.tables@.len() ==> (#[trigger] self.tables@[i]).wf()
    }

    pub proof fn lemma_wf(&self, i: int)
        requires
            self.wf(),
            0 <= i < self.slots(),
        ensures
            self.table(i).len() == FD_MAX,
    {
        self.tables@[i].lemma_wf();
    }

    pub proof fn lemma_cur(&self, s: usize)
        requires
            self.wf(),
        ensures
            0 <= self.cur(s) < self.slots(),
            self.table(self.cur(s)).len() == FD_MAX,
    {
        self.tables@[self.cur(s)].lemma_wf();
    }

    /// The table slot a task whose files slot is `s` uses (slot 0 when out of range).
    pub open spec fn cur(&self, s: usize) -> int {
        if s < self.slots() {
            s as int
        } else {
            0
        }
    }

    /// Everything but the table of slot `i` is as in `o`.
    pub open spec fn only_table(&self, o: &FdSystem, i: int) -> bool {
        &&& self.slots() == o.slots()
        &&& self.is_ready_spec() == o.is_ready_spec()
        &&& forall|j: int| 0 <= j < self.slots() ==> #[trigger] self.refs_of(j) == o.refs_of(j)
        &&& forall|j: int| 0 <= j < self.slots() && j != i ==> #[trigger] self.table(j) == o.table(j)
    }

    /// `slots` closed tables, nothing shared, not ready.
    pub fn new(slots: usize) -> (s: FdSystem)
        requires
            slots > 0,
        ensures
            s.wf(),
            s.slots() == slots,
            !s.is_ready_spec(),
            forall|i: int| 0 <= i < slots ==> #[trigger] s.table(i) == empty_table() && s.refs_of(i) == 0,
    {
        let mut tables: Vec<FdTable> = Vec::new();
        let mut refs: Vec<u16> = Vec::new();
        while tables.len() < slots
            invariant
                tables@.len() <= slots,
                refs@.len() == tables@.len(),
                forall|i: int| 0 <= i < tables@.len() ==> (#[trigger] tables@[i]).wf() && tables@[i]@ == empty_table(),
                forall|i: int| 0 <= i < refs@.len() ==> #[trigger] refs@[i] == 0,
            decreases slots - tables@.len(),
        {
            tables.push(FdTable::new());
            refs.push(0);
        }
        FdSystem { tables, refs, ready: false }
    }

    /// Reset every table; slot 0 gets console stdio and one user.
    pub fn init(&mut self)
        requires
            old(self).wf(),
        ensures
            final(self).wf(),
            final(self).slots() == old(self).slots(),
            final(self).is_ready_spec(),
            final(self).table(0) == stdio_table(),
            final(self).refs_of(0) == 1,
            forall|i: int| 0 < i < final(self).slots() ==> #[trigger] final(self).table(i) == empty_table() && final(self).refs_of(i) == 0,
    {
        let n = self.tables.len();
        let mut i: usize = 0;
        while i < n
            invariant
                n == self.tables@.len(),
                self.refs@.len() == n,
                n > 0,
                i <= n,
                forall|j: int| 0 <= j < n ==> (#[trigger] self.tables@[j]).wf(),
                forall|j: int| 0 <= j < i ==> #[trigger] self.tables@[j]@ == empty_table() && self.refs@[j] == 0,
            decreases n - i,
        {
            self.tables.set(i, FdTable::new());
            self.refs.set(i, 0);
            i = i + 1;
        }
        let mut t0 = FdTable::new();
        t0.install_stdio();
        self.tables.set(0, t0);
        self.refs.set(0, 1);
        self.ready = true;
    }

    pub fn is_ready(&self) -> (b: bool)
        ensures
            b == self.is_ready_spec(),
    {
        self.ready
    }

    fn cur_slot(&self, files_slot: usize) -> (i: usize)
        requires
            self.wf(),
        ensures
            i == self.cur(files_slot),
            i < self.slots(),
    {
        if files_slot < self.tables.len() {
            files_slot
        } else {
            0
        }
    }

    /// The table of the task whose files slot is `files_slot`.
    pub fn with_current(&self, files_slot: usize) -> (t: &FdTable)
        requires
            self.wf(),
        ensures
            t.wf(),
            t@ == self.table(self.cur(files_slot)),
    {
        let i = self.cur_slot(files_slot);
        &self.tables[i]
    }

    /// Give process slot `child_idx` a private copy of the table its parent
    /// uses (`parent_files`, what the process table records for the parent;
    /// the parent's own slot when that is missing or out of range). Returns
    /// the child's files slot, or `None` when a slot is out of range.
    pub fn clone_table(&mut self, parent_idx: usize, parent_files: Option<usize>, child_idx: usize) -> (r: Option<usize>)
        requires
            old(self).wf(),
        ensures
            final(self).wf(),
            final(self).slots() == old(self).slots(),
            final(self).is_ready_spec() == old(self).is_ready_spec(),
            parent_idx >= old(self).slots() || child_idx >= old(self).slots() ==> r is None && final(self).table_eq(old(self)),
            parent_idx < old(self).slots() && child_idx < old(self).slots() ==> {
                let pf = files_of(parent_idx, parent_files, old(self).slots());
                &&& r == Some(child_idx)
                &&& final(self).table(child_idx as int) == old(self).table(pf)
                &&& final(self).refs_of(child_idx as int) == 1
                &&& forall|j: int| 0 <= j < old(self).slots() && j != child_idx ==> #[trigger] final(self).table(j)
                    == old(self).table(j) && final(self).refs_of(j) == old(self).refs_of(j)
            },
    {
        let n = self.tables.len();
        if parent_idx >= n || child_idx >= n {
            return None;
        }
        let pf = match parent_files {
            Some(f) => if f < n { f } else { parent_idx },
            None => parent_idx,
        };
        let mut copy = FdTable::new();
        copy.clone_from(&self.tables[pf]);
        self.tables.set(child_idx, copy);
        self.refs.set(child_idx, 1);
        Some(child_idx)
    }

    /// Let process slot `child_idx` share its parent's table: the child's own
    /// table is closed and unused, the parent's gains a user (up to the
    /// counter's limit). Returns the files slot the child now uses.
    pub fn share_table(&mut self, parent_idx: usize, parent_files: Option<usize>, child_idx: usize) -> (r: Option<usize>)
        requires
            old(self).wf(),
        ensures
            final(self).wf(),
            final(self).slots() == old(self).slots(),
            final(self).is_ready_spec() == old(self).is_ready_spec(),
            parent_idx >= old(self).slots() || child_idx >= old(self).slots() ==> r is None && final(self).table_eq(old(self)),
            parent_idx < old(self).slots() && child_idx < old(self).slots() ==> {
                let pf = files_of(parent_idx, parent_files, old(self).slots());
                let refs1 = old(self).refs_of(pf) + if child_idx == pf { 0int } else { 0int };
                &&& r == Some(pf as usize)
                &&& final(self).table(child_idx as int) == empty_table()
                &&& final(self).refs_of(pf) == (if child_idx == pf {
                    1u16
                } else if old(self).refs_of(pf) < u16::MAX {
                    (old(self).refs_of(pf) + 1) as u16
                } else {
                    old(self).refs_of(pf)
                })
                &&& child_idx != pf ==> final(self).refs_of(child_idx as int) == 0
                &&& forall|j: int| 0 <= j < old(self).slots() && j != child_idx ==> #[trigger] final(self).table(j)
                    == old(self).table(j)
                &&& forall|j: int| 0 <= j < old(self).slots() && j != child_idx && j != pf ==> #[trigger] final(self).refs_of(j)
                    == old(self).refs_of(j)
            },
    {
        let n = self.tables.len();
        if parent_idx >= n || child_idx >= n {
            return None;
        }
        let pf = match parent_files {
            Some(f) => if f < n { f } else { parent_idx },
            None => parent_idx,
        };
        let mut t = FdTable::new();
        t.close_all();
        self.tables.set(child_idx, t);
        self.refs.set(child_idx, 0);
        if self.refs[pf] < u16::MAX {
            let v = self.refs[pf] + 1;
            self.refs.set(pf, v);
        }
        Some(pf)
    }

    /// Drop one user of the table process slot `proc_slot` uses (`files`, as
    /// the process table records it); the table is closed when none is left.
    pub fn release_files(&mut self, proc_slot: usize, files: Option<usize>)
        requires
            old(self).wf(),
        ensures
            final(self).wf(),
            final(self).slots() == old(self).slots(),
            final(self).is_ready_spec() == old(self).is_ready_spec(),
            proc_slot >= old(self).slots() ==> final(self).table_eq(old(self)),
            proc_slot < old(self).slots() ==> {
                let f = files_of(proc_slot, files, old(self).slots());
                let left: u16 = if old(self).refs_of(f) > 0 { (old(self).refs_of(f) - 1) as u16 } else { 0 };
                &&& final(self).refs_of(f) == left
                &&& final(self).table(f) == (if left == 0 { empty_table() } else { old(self).table(f) })
                &&& forall|j: int| 0 <= j < old(self).slots() && j != f ==> #[trigger] final(self).table(j)
                    == old(self).table(j) && final(self).refs_of(j) == old(self).refs_of(j)
            },
    {
        let n = self.tables.len();
        if proc_slot >= n {
            return;
        }
        let f = match files {
            Some(x) => if x < n { x } else { proc_slot },
            None => proc_slot,
        };
        if self.refs[f] > 0 {
            let v = self.refs[f] - 1;
            self.refs.set(f, v);
        }
        if self.refs[f] == 0 {
            let mut t = FdTable::new();
            t.close_all();
            self.tables.set(f, t);
        }
    }

    /// The same as `release_files`, for a process slot being freed.
    pub fn clear_table(&mut self, slot: usize, files: Option<usize>)
        requires
            old(self).wf(),
        ensures
            final(self).wf(),
            final(self).slots() == old(self).slots(),
            final(self).is_ready_spec() == old(self).is_ready_spec(),
            slot >= old(self).slots() ==> final(self).table_eq(old(self)),
            slot < old(self).slots() ==> {
                let f = files_of(slot, files, old(self).slots());
                let left: u16 = if old(self).refs_of(f) > 0 { (old(self).refs_of(f) - 1) as u16 } else { 0 };
                &&& final(self).refs_of(f) == left
                &&& final(self).table(f) == (if left == 0 { empty_table() } else { old(self).table(f) })
                &&& forall|j: int| 0 <= j < old(self).slots() && j != f ==> #[trigger] final(self).table(j)
                    == old(self).table(j) && final(self).refs_of(j) == old(self).refs_of(j)
            },
    {
        self.release_files(slot, files)
    }

    /// Tables and users are as in `o`.
    pub open spec fn table_eq(&self, o: &FdSystem) -> bool {
        &&& self.slots() == o.slots()
        &&& forall|j: int| 0 <= j < self.slots() ==> #[trigger] self.table(j) == o.table(j) && self.refs_of(j) == o.refs_of(j)
    }

    /// Open descriptors of the current table.
    pub fn open_count(&self, files_slot: usize) -> (n: usize)
        requires
            self.wf(),
        ensures
            n == count_open(self.table(self.cur(files_slot))),
    {
        let i = self.cur_slot(files_slot);
        self.tables[i].open_count()
    }
}

impl FdSystem {
    /// Whether a descriptor number can be served at all.
    pub open spec fn fd_ok(&self, fd: u64) -> bool {
        self.is_ready_spec() && fd < FD_MAX
    }

    /// Write `data` to `fd` of the current table.
    pub fn sys_write_slice(
        &mut self,
        files_slot: usize,
        fd: u64,
        data: &[u8],
        vfs: &mut Vfs,
        con: &mut crate::console::Console,
    ) -> (r: Result<usize, FdError>)
        requires
            old(self).wf(),
            old(vfs).wf(),
            old(con).wf(),
        ensures
            final(self).wf(),
            final(vfs).wf(),
            final(con).wf(),
            !old(self).fd_ok(fd) ==> r == Err::<usize, FdError>(FdError::BadFd) && final(self).table_eq(old(self))
                && final(vfs).same(old(vfs)) && final(con).view() == old(con).view(),
            old(self).fd_ok(fd) ==> {
                let i = old(self).cur(files_slot);
                &&& final(self).only_table(old(self), i)
                &&& write_post(old(self).table(i), final(self).table(i), fd as usize, data@, old(vfs), final(vfs), old(con).view(), final(con).view(), r)
            },
    {
        if !self.ready || fd >= FD_MAX as u64 {
            proof {
                old(vfs).lemma_same_refl();
            }
            return Err(FdError::BadFd);
        }
        let i = self.cur_slot(files_slot);
        let r = self.tables[i].write(fd as usize, data, vfs, con);
        r
    }
}

impl FdSystem {
    /// Read from `fd` of the current table into `buf`.
    pub fn sys_read_into(
        &mut self,
        files_slot: usize,
        fd: u64,
        buf: &mut [u8],
        vfs: &Vfs,
        keys: &mut crate::kbd::KeyBuffer,
        info: &crate::procfs::ProcInfo,
    ) -> (r: Result<usize, FdError>)
        requires
            old(self).wf(),
            vfs.wf(),
            old(keys).wf(),
        ensures
            final(self).wf(),
            final(keys).wf(),
            !old(self).fd_ok(fd) ==> r == Err::<usize, FdError>(FdError::BadFd) && final(self).table_eq(old(self))
                && final(buf)@ == old(buf)@ && final(keys)@ == old(keys)@,
            old(self).fd_ok(fd) ==> {
                let i = old(self).cur(files_slot);
                &&& final(self).only_table(old(self), i)
                &&& read_post(old(self).table(i), final(self).table(i), fd as usize, old(buf)@, final(buf)@, vfs, old(keys)@, final(keys)@, info, r)
            },
    {
        if !self.ready || fd >= FD_MAX as u64 {
            return Err(FdError::BadFd);
        }
        let i = self.cur_slot(files_slot);
        self.tables[i].read(fd as usize, buf, vfs, keys, info)
    }

    /// Read from `fd` at `offset` without moving its offset.
    pub fn sys_read_at(
        &self,
        files_slot: usize,
        fd: u64,
        offset: u64,
        buf: &mut [u8],
        vfs: &Vfs,
        keys: &mut crate::kbd::KeyBuffer,
        info: &crate::procfs::ProcInfo,
    ) -> (r: Result<usize, FdError>)
        requires
            self.wf(),
            vfs.wf(),
            old(keys).wf(),
        ensures
            final(keys).wf(),
            ({
                let t = self.table(self.cur(files_slot));
                if !self.fd_ok(fd) || !is_open_spec(t[fd as int]) {
                    r == Err::<usize, FdError>(FdError::BadFd) && final(buf)@ == old(buf)@ && final(keys)@ == old(keys)@
                } else {
                    let f = t[fd as int].data;
                    let r0 = vfs.vfs_read_result(FileData { pos: offset, ..f }, old(buf)@.len(), old(keys)@, info);
                    &&& r == map_fd(r0)
                    &&& f.readable && crate::vcore::has_read(f.fops_id) ==> vfs.read_done(
                        FileData { pos: offset, ..f },
                        old(buf)@,
                        final(buf)@,
                        old(keys)@,
                        final(keys)@,
                        info,
                        r0,
                    )
                    &&& !(f.readable && crate::vcore::has_read(f.fops_id)) ==> final(buf)@ == old(buf)@ && final(keys)@
                        == old(keys)@
                }
            }),
    {
        if !self.ready || fd >= FD_MAX as u64 {
            return Err(FdError::BadFd);
        }
        let i = self.cur_slot(files_slot);
        proof {
            self.lemma_wf(i as int);
        }
        let file = match self.tables[i].get(fd as usize) {
            None => return Err(FdError::BadFd),
            Some(f) => *f,
        };
        match vfs.vfs_read_at(&file.data, offset, buf, keys, info) {
            Ok(n) => Ok(n),
            Err(e) => Err(vfs_to_fd(e)),
        }
    }

    /// The current offset of `fd`.
    pub fn sys_fd_offset(&self, files_slot: usize, fd: u64) -> (r: Result<u64, FdError>)
        requires
            self.wf(),
        ensures
            ({
                let t = self.table(self.cur(files_slot));
                r == (if !self.fd_ok(fd) || !is_open_spec(t[fd as int]) {
                    Err::<u64, FdError>(FdError::BadFd)
                } else {
                    Ok(t[fd as int].data.pos)
                })
            }),
    {
        if !self.ready || fd >= FD_MAX as u64 {
            return Err(FdError::BadFd);
        }
        let i = self.cur_slot(files_slot);
        match self.tables[i].get(fd as usize) {
            None => Err(FdError::BadFd),
            Some(f) => Ok(f.data.pos),
        }
    }

    /// Close `fd` of the current table.
    pub fn sys_close(&mut self, files_slot: usize, fd: u64, pipes: &mut PipeTable) -> (r: Result<(), FdError>)
        requires
            old(self).wf(),
            old(pipes).wf(),
        ensures
            final(self).wf(),
            final(pipes).wf(),
            !old(self).fd_ok(fd) ==> r == Err::<(), FdError>(FdError::BadFd) && final(self).table_eq(old(self))
                && *final(pipes) == *old(pipes),
            old(self).fd_ok(fd) ==> {
                let i = old(self).cur(files_slot);
                &&& final(self).only_table(old(self), i)
                &&& close_fd_post(old(self).table(i), final(self).table(i), *old(pipes), *final(pipes), fd as usize, r is Ok)
                &&& r is Err ==> r == Err::<(), FdError>(FdError::BadFd)
            },
    {
        if !self.ready || fd >= FD_MAX as u64 {
            return Err(FdError::BadFd);
        }
        let i = self.cur_slot(files_slot);
        if self.tables[i].close(fd as usize, pipes) {
            Ok(())
        } else {
            Err(FdError::BadFd)
        }
    }

    /// Open a pipe in the current table.
    pub fn sys_pipe(&mut self, files_slot: usize, pipes: &mut PipeTable) -> (r: Result<(usize, usize), FdError>)
        requires
            old(self).wf(),
            old(pipes).wf(),
        ensures
            final(self).wf(),
            final(pipes).wf(),
            !old(self).is_ready_spec() ==> r == Err::<(usize, usize), FdError>(FdError::BadFd)
                && final(self).table_eq(old(self)) && *final(pipes) == *old(pipes),
            old(self).is_ready_spec() ==> {
                let i = old(self).cur(files_slot);
                &&& final(self).only_table(old(self), i)
                &&& pipe_post(old(self).table(i), final(self).table(i), *old(pipes), *final(pipes), r)
            },
    {
        if !self.ready {
            return Err(FdError::BadFd);
        }
        let i = self.cur_slot(files_slot);
        self.tables[i].pipe_open(pipes)
    }

    /// Duplicate `fd` onto the lowest free descriptor.
    pub fn sys_dup(&mut self, files_slot: usize, fd: u64) -> (r: Result<usize, FdError>)
        requires
            old(self).wf(),
        ensures
            final(self).wf(),
            !old(self).fd_ok(fd) ==> r == Err::<usize, FdError>(FdError::BadFd) && final(self).table_eq(old(self)),
            old(self).fd_ok(fd) ==> {
                let i = old(self).cur(files_slot);
                &&& final(self).only_table(old(self), i)
                &&& dup_post(old(self).table(i), final(self).table(i), fd as usize, r)
            },
    {
        if !self.ready || fd >= FD_MAX as u64 {
            return Err(FdError::BadFd);
        }
        let i = self.cur_slot(files_slot);
        self.tables[i].dup_fd(fd as usize)
    }

    /// Make `new` a copy of `old`.
    pub fn sys_dup2(&mut self, files_slot: usize, oldfd: u64, newfd: u64, pipes: &mut PipeTable) -> (r: Result<usize, FdError>)
        requires
            old(self).wf(),
            old(pipes).wf(),
        ensures
            final(self).wf(),
            final(pipes).wf(),
            !(old(self).fd_ok(oldfd) && newfd < FD_MAX) ==> r == Err::<usize, FdError>(FdError::BadFd)
                && final(self).table_eq(old(self)) && *final(pipes) == *old(pipes),
            old(self).fd_ok(oldfd) && newfd < FD_MAX ==> {
                let i = old(self).cur(files_slot);
                &&& final(self).only_table(old(self), i)
                &&& dup2_post(old(self).table(i), final(self).table(i), *old(pipes), *final(pipes), oldfd as usize, newfd as usize, r)
            },
    {
        if !self.ready || oldfd >= FD_MAX as u64 || newfd >= FD_MAX as u64 {
            return Err(FdError::BadFd);
        }
        let i = self.cur_slot(files_slot);
        self.tables[i].dup2_fd(oldfd as usize, newfd as usize, pipes)
    }

    /// Directory entries of `fd` as getdents64 records.
    pub fn sys_getdents64(&mut self, files_slot: usize, fd: u64, buf: &mut [u8], vfs: &Vfs) -> (r: Result<usize, FdError>)
        requires
            old(self).wf(),
            vfs.wf(),
        ensures
            final(self).wf(),
            !old(self).fd_ok(fd) ==> r == Err::<usize, FdError>(FdError::BadFd) && final(self).table_eq(old(self))
                && final(buf)@ == old(buf)@,
            old(self).fd_ok(fd) ==> {
                let i = old(self).cur(files_slot);
                &&& final(self).only_table(old(self), i)
                &&& getdents_post(old(self).table(i), final(self).table(i), fd as usize, old(buf)@, final(buf)@, vfs, r)
            },
    {
        if !self.ready || fd >= FD_MAX as u64 {
            return Err(FdError::BadFd);
        }
        let i = self.cur_slot(files_slot);
        self.tables[i].getdents64(fd as usize, buf, vfs)
    }

    /// The ext2 inode behind `fd`.
    pub fn sys_fd_inode(&self, files_slot: usize, fd: u64) -> (r: Result<u32, FdError>)
        requires
            self.wf(),
        ensures
            ({
                let t = self.table(self.cur(files_slot));
                r == (if !self.fd_ok(fd) || !is_open_spec(t[fd as int]) {
                    Err::<u32, FdError>(FdError::BadFd)
                } else if t[fd as int].data.fops_id == FOPS_EXT2_FILE || t[fd as int].data.fops_id == FOPS_EXT2_DIR {
                    Ok(t[fd as int].data.private as u32)
                } else {
                    Err(FdError::Inval)
                })
            }),
    {
        if !self.ready || fd >= FD_MAX as u64 {
            return Err(FdError::BadFd);
        }
        let i = self.cur_slot(files_slot);
        match self.tables[i].get(fd as usize) {
            None => Err(FdError::BadFd),
            Some(f) => match f.ext2_ino() {
                Some(ino) => Ok(ino),
                None => Err(FdError::Inval),
            },
        }
    }

    /// Whether `fd` is the console.
    pub fn sys_fd_is_console(&self, files_slot: usize, fd: u64) -> (b: bool)
        requires
            self.wf(),
        ensures
            ({
                let t = self.table(self.cur(files_slot));
                b == (self.fd_ok(fd) && is_open_spec(t[fd as int]) && t[fd as int].data.fops_id == FOPS_CONSOLE)
            }),
    {
        if !self.ready || fd >= FD_MAX as u64 {
            return false;
        }
        let i = self.cur_slot(files_slot);
        match self.tables[i].get(fd as usize) {
            None => false,
            Some(f) => f.data.fops_id == FOPS_CONSOLE,
        }
    }

    /// fcntl: descriptor flags read as 0 and are not kept, `F_GETFL` gives the
    /// access mode (and `O_DIRECTORY`), `F_SETFL` is accepted and ignored,
    /// `F_DUPFD` copies onto the lowest free descriptor not below `arg`.
    pub fn sys_fcntl(&mut self, files_slot: usize, fd: u64, cmd: u64, arg: u64) -> (r: Result<u64, FdError>)
        requires
            old(self).wf(),
        ensures
            final(self).wf(),
            ({
                let i = old(self).cur(files_slot);
                let t = old(self).table(i);
                if !old(self).fd_ok(fd) || !is_open_spec(t[fd as int]) {
                    r == Err::<u64, FdError>(FdError::BadFd) && final(self).table_eq(old(self))
                } else if cmd == F_DUPFD || cmd == F_DUPFD_CLOEXEC {
                    let start = if (arg as usize) < FD_MAX { (arg as usize) as int } else { FD_MAX as int };
                    &&& final(self).only_table(old(self), i)
                    &&& match free_from(t, start) {
                        None => r == Err::<u64, FdError>(FdError::NoMem) && final(self).table(i) == t,
                        Some(j) => r == Ok::<u64, FdError>(j as u64) && final(self).table(i) == t.update(j, t[fd as int]),
                    }
                } else {
                    &&& final(self).table_eq(old(self))
                    &&& r == (if cmd == F_GETFD || cmd == F_SETFD || cmd == F_SETFL {
                        Ok::<u64, FdError>(0)
                    } else if cmd == F_GETFL {
                        Ok(getfl(t[fd as int].data))
                    } else {
                        Err(FdError::Inval)
                    })
                }
            }),
    {
        if !self.ready || fd >= FD_MAX as u64 {
            return Err(FdError::BadFd);
        }
        let i = self.cur_slot(files_slot);
        let file = match self.tables[i].get(fd as usize) {
            None => return Err(FdError::BadFd),
            Some(f) => *f,
        };
        if cmd == F_GETFD {
            Ok(0)
        } else if cmd == F_SETFD {
            Ok(0)
        } else if cmd == F_GETFL {
            let mut fl: u64 = if file.data.readable && file.data.writable {
                O_RDWR
            } else if file.data.writable {
                O_WRONLY
            } else {
                O_RDONLY
            };
            if file.data.is_dir {
                fl = fl | O_DIRECTORY;
            }
            Ok(fl)
        } else if cmd == F_SETFL {
            Ok(0)
        } else if cmd == F_DUPFD || cmd == F_DUPFD_CLOEXEC {
            let min = arg as usize;
            proof {
                self.lemma_wf(i as int);
                lemma_free_from_range(self.table(i as int), if min < FD_MAX { min as int } else { FD_MAX as int });
            }
            match self.tables[i].install_at_least(min, file) {
                Ok(j) => Ok(j as u64),
                Err(e) => Err(e),
            }
        } else {
            Err(FdError::Inval)
        }
    }

    /// lseek: `SEEK_SET` (0), `SEEK_CUR` (1) or `SEEK_END` (2); a negative
    /// result is refused.
    pub fn sys_lseek(&mut self, files_slot: usize, fd: u64, offset: i64, whence: u64, vfs: &Vfs) -> (r: Result<u64, FdError>)
        requires
            old(self).wf(),
            vfs.wf(),
        ensures
            final(self).wf(),
            ({
                let i = old(self).cur(files_slot);
                let t = old(self).table(i);
                if !old(self).fd_ok(fd) || !is_open_spec(t[fd as int]) {
                    r == Err::<u64, FdError>(FdError::BadFd) && final(self).table_eq(old(self))
                } else {
                    let f = t[fd as int].data;
                    &&& r == lseek_spec(vfs, f, offset, whence)
                    &&& final(self).only_table(old(self), i)
                    &&& final(self).table(i) == match r {
                        Ok(p) => t.update(fd as int, File { data: FileData { pos: p, ..f } }),
                        Err(_) => t,
                    }
                }
            }),
    {
        if !self.ready || fd >= FD_MAX as u64 {
            return Err(FdError::BadFd);
        }
        let i = self.cur_slot(files_slot);
        proof {
            self.lemma_wf(i as int);
        }
        let file = match self.tables[i].get(fd as usize) {
            None => return Err(FdError::BadFd),
            Some(f) => *f,
        };
        let f = file.data;
        if f.is_dir {
            return Err(FdError::IsDir);
        }
        if f.fops_id == FOPS_CONSOLE {
            return Err(FdError::Inval);
        }
        let size: i64 = if f.fops_id == FOPS_EXT2_FILE {
            vfs.fs().inode_file_size(f.private as u32) as i64
        } else if f.fops_id == crate::vcore::FOPS_RAMFS_FILE {
            vfs.ram_file_size(f.private) as i64
        } else {
            0
        };
        let cur = f.pos as i64;
        let new: i64 = if whence == 0 {
            offset
        } else if whence == 1 {
            saturating_add_i64(cur, offset)
        } else if whence == 2 {
            saturating_add_i64(size, offset)
        } else {
            return Err(FdError::Inval);
        };
        if new < 0 {
            return Err(FdError::Inval);
        }
        let pos = new as u64;
        self.tables[i].set_pos(fd as usize, pos);
        Ok(pos)
    }

    /// Open `path` (relative to directory `cwd`) and put it on the lowest free
    /// descriptor of the current table. `ticks` stamps a file that is created.
    pub fn open_path(
        &mut self,
        files_slot: usize,
        vfs: &mut Vfs,
        cwd: u32,
        ticks: u64,
        path: &str,
        flags: u64,
    ) -> (r: Result<usize, FdError>)
        requires
            old(self).wf(),
            old(vfs).wf(),
        ensures
            final(self).wf(),
            final(vfs).wf(),
            ({
                let i = old(self).cur(files_slot);
                let acc = flags & O_ACCMODE;
                let readable = acc == O_RDONLY || acc == O_RDWR;
                let writable = acc == O_WRONLY || acc == O_RDWR;
                if !old(self).is_ready_spec() {
                    r == Err::<usize, FdError>(FdError::BadFd) && final(self).table_eq(old(self)) && final(vfs).same(old(vfs))
                } else if acc > O_RDWR {
                    r == Err::<usize, FdError>(FdError::Inval) && final(self).table_eq(old(self)) && final(vfs).same(old(vfs))
                } else if path@.len() == 0 {
                    r == Err::<usize, FdError>(FdError::NoEnt) && final(self).table_eq(old(self)) && final(vfs).same(old(vfs))
                } else {
                    &&& final(self).only_table(old(self), i)
                    &&& exists|r0: Result<FileData, VfsError>| old(vfs).opened(final(vfs), r0, cwd, ticks, path.spec_bytes(), flags as u32, readable, writable)
                        && #[trigger] open_install(old(self).table(i), final(self).table(i), r0, r)
                }
            }),
    {
        if !self.ready {
            proof {
                old(vfs).lemma_same_refl();
            }
            return Err(FdError::BadFd);
        }
        let acc = flags & O_ACCMODE;
        if acc > O_RDWR {
            proof {
                old(vfs).lemma_same_refl();
            }
            return Err(FdError::Inval);
        }
        if path.unicode_len() == 0 {
            proof {
                old(vfs).lemma_same_refl();
            }
            return Err(FdError::NoEnt);
        }
        let readable = acc == O_RDONLY || acc == O_RDWR;
        let writable = acc == O_WRONLY || acc == O_RDWR;
        let opened = vfs.vfs_open(cwd, ticks, path, flags as u32, readable, writable);
        let i = self.cur_slot(files_slot);
        let ghost fin_vfs = *vfs;
        let r = match opened {
            Err(e) => Err(vfs_to_fd(e)),
            Ok(d) => self.tables[i].install(File::from_vfs(d)),
        };
        proof {
            assert(old(vfs).opened(&fin_vfs, opened, cwd, ticks, path.spec_bytes(), flags as u32, readable, writable));
            assert(open_install(old(self).table(i as int), self.table(i as int), opened, r));
        }
        r
    }

    /// The same as `open_path`.
    pub fn sys_open_path(
        &mut self,
        files_slot: usize,
        vfs: &mut Vfs,
        cwd: u32,
        ticks: u64,
        path: &str,
        flags: u64,
    ) -> (r: Result<usize, FdError>)
        requires
            old(self).wf(),
            old(vfs).wf(),
        ensures
            final(self).wf(),
            final(vfs).wf(),
            ({
                let i = old(self).cur(files_slot);
                let acc = flags & O_ACCMODE;
                let readable = acc == O_RDONLY || acc == O_RDWR;
                let writable = acc == O_WRONLY || acc == O_RDWR;
                if !old(self).is_ready_spec() {
                    r == Err::<usize, FdError>(FdError::BadFd) && final(self).table_eq(old(self)) && final(vfs).same(old(vfs))
                } else if acc > O_RDWR {
                    r == Err::<usize, FdError>(FdError::Inval) && final(self).table_eq(old(self)) && final(vfs).same(old(vfs))
                } else if path@.len() == 0 {
                    r == Err::<usize, FdError>(FdError::NoEnt) && final(self).table_eq(old(self)) && final(vfs).same(old(vfs))
                } else {
                    &&& final(self).only_table(old(self), i)
                    &&& exists|r0: Result<FileData, VfsError>| old(vfs).opened(final(vfs), r0, cwd, ticks, path.spec_bytes(), flags as u32, readable, writable)
                        && #[trigger] open_install(old(self).table(i), final(self).table(i), r0, r)
                }
            }),
    {
        self.open_path(files_slot, vfs, cwd, ticks, path, flags)
    }
}

impl FdTable {
    fn set_pos(&mut self, fd: usize, pos: u64)
        requires
            old(self).wf(),
            fd < FD_MAX,
        ensures
            final(self).wf(),
            final(self)@ == old(self)@.update(fd as int, File { data: FileData { pos, ..old(self)@[fd as int].data } }),
    {
        let mut f = self.entries[fd];
        f.data.pos = pos;
        self.entries.set(fd, f);
    }
}

/// The descriptor table after installing what an open returned.
pub open spec fn open_install(t0: Seq<File>, t1: Seq<File>, r0: Result<FileData, VfsError>, r: Result<usize, FdError>) -> bool {
    match r0 {
        Err(e) => r == Err::<usize, FdError>(fd_err(e)) && t1 == t0,
        Ok(d) => install_post(t0, t1, File { data: d }, r),
    }
}

impl FdSystem {
    /// Put `file` on the lowest free descriptor of the current table.
    pub fn install_current(&mut self, files_slot: usize, file: File) -> (r: Result<usize, FdError>)
        requires
            old(self).wf(),
        ensures
            final(self).wf(),
            final(self).only_table(old(self), old(self).cur(files_slot)),
            install_post(old(self).table(old(self).cur(files_slot)), final(self).table(old(self).cur(files_slot)), file, r),
    {
        let i = self.cur_slot(files_slot);
        self.tables[i].install(file)
    }
}

/// The table slot a process uses: what the process table records when it is
/// in range, else the process's own slot.
pub open spec fn files_of(proc_slot: usize, files: Option<usize>, n: nat) -> int {
    match files {
        Some(f) => if f < n { f as int } else { proc_slot as int },
        None => proc_slot as int,
    }
}
} // verus!
