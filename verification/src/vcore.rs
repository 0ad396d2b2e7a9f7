//! VFS core: open-file state, operation dispatch by `fops` id, the mount and
//! character-device registries, a small RAM filesystem and the synthetic
//! directories `/proc`, `/proc/self`, `/dev` and `/ram`.

use vstd::prelude::*;
use vstd::string::StringSliceAdditionalSpecFns;
use crate::ramfs::{RamFs, RamView, RAMFS_SLOTS, shown, shown_copy, used_files, open_path_spec, open_name_spec};
use crate::ext2::{Ext2Fs, Ext2Error, DirentInfo, ROOT_INODE, dirent_view, DirentView};
use crate::console::{Console, ConsoleView, put_spec, cleared, printable};
use crate::kbd::KeyBuffer;
use crate::procfs::{ProcInfo, proc_content, read_from};
use crate::ramfs::{write_result, write_view};
use crate::text::{utf8_text, take_at_most, has_prefix, has_byte, starts_with, contains_byte, bytes_eq};

verus! {

#[derive(Clone, Copy, Debug, PartialEq, Eq, Structural)]
pub enum VfsError {
    NoEnt,
    IsDir,
    NotDir,
    Inval,
    Fault,
    NoDev,
    Exist,
    NoMem,
    NotEmpty,
    Loop,
}

/// Open-file state handed to the operations (a slim `struct file`).
#[derive(Clone, Copy, Debug, PartialEq, Eq, Structural)]
pub struct FileData {
    /// Byte offset or directory cookie.
    pub pos: u64,
    pub readable: bool,
    pub writable: bool,
    /// Backend-private value (ext2 inode, ramfs slot, pipe id, …).
    pub private: u64,
    pub is_dir: bool,
    /// Which operations table serves this file.
    pub fops_id: u8,
}

pub const FOPS_NONE: u8 = 0;
pub const FOPS_CONSOLE: u8 = 1;
pub const FOPS_EXT2_FILE: u8 = 2;
pub const FOPS_EXT2_DIR: u8 = 3;
pub const FOPS_RAMFS_FILE: u8 = 4;
pub const FOPS_NULL: u8 = 5;
pub const FOPS_ZERO: u8 = 6;
pub const FOPS_PROC: u8 = 7;
/// Virtual directory (mount point or synthetic folder).
pub const FOPS_VDIR: u8 = 8;
pub const FOPS_PIPE_R: u8 = 9;
pub const FOPS_PIPE_W: u8 = 10;
pub const FOPS_EPOLL: u8 = 11;
/// Character device served by a loaded module.
pub const FOPS_MOD: u8 = 12;

/// Operation tables with names (ids `0..FOPS_COUNT`).
pub const FOPS_COUNT: u8 = 9;

/// Synthetic inodes of the virtual directories.
pub const VINO_PROC: u32 = 0xF000_0001;
pub const VINO_DEV: u32 = 0xF000_0002;
pub const VINO_RAM: u32 = 0xF000_0003;
pub const VINO_PROC_SELF: u32 = 0xF000_0004;


/// Linux dirent `d_type`.
pub const DT_DIR: u8 = 4;
pub const DT_REG: u8 = 8;
pub const DT_CHR: u8 = 2;

impl FileData {
    /// The state of a closed descriptor.
    pub fn closed() -> (f: Self)
        ensures
            f == closed_file(),
    {
        FileData { pos: 0, readable: false, writable: false, private: 0, is_dir: false, fops_id: FOPS_NONE }
    }
}

pub open spec fn closed_file() -> FileData {
    FileData { pos: 0, readable: false, writable: false, private: 0, is_dir: false, fops_id: FOPS_NONE }
}

/// Inodes with the top nibble set are synthetic.
pub fn is_virtual_ino(ino: u32) -> (r: bool)
    ensures
        r == (ino >= 0xF000_0000),
{
    let r = (ino & 0xF000_0000) == 0xF000_0000;
    assert(r == (ino >= 0xF000_0000)) by (bit_vector)
        requires
            r == ((ino & 0xF000_0000) == 0xF000_0000),
    ;
    r
}

/// Name of an operations table, `"?"` for an unknown id.
pub fn fops_name(id: u8) -> (r: &'static str)
    ensures
        r@ == fops_name_spec(id),
{
    match id {
        0 => "none",
        1 => "console",
        2 => "ext2_file",
        3 => "ext2_dir",
        4 => "ramfs_file",
        5 => "null",
        6 => "zero",
        7 => "proc",
        8 => "vdir",
        _ => "?",
    }
}

pub open spec fn fops_name_spec(id: u8) -> Seq<char> {
    if id == 0 {
        "none"@
    } else if id == 1 {
        "console"@
    } else if id == 2 {
        "ext2_file"@
    } else if id == 3 {
        "ext2_dir"@
    } else if id == 4 {
        "ramfs_file"@
    } else if id == 5 {
        "null"@
    } else if id == 6 {
        "zero"@
    } else if id == 7 {
        "proc"@
    } else if id == 8 {
        "vdir"@
    } else {
        "?"@
    }
}

/// Console handle for descriptors 0, 1 and 2.
/// The console opened for reading and/or writing.
pub open spec fn console_spec(readable: bool, writable: bool) -> FileData {
    FileData { pos: 0, readable, writable, private: 0, is_dir: false, fops_id: FOPS_CONSOLE }
}

pub fn console_file(readable: bool, writable: bool) -> (f: FileData)
    ensures
        f == console_spec(readable, writable),
{
    FileData { pos: 0, readable, writable, private: 0, is_dir: false, fops_id: FOPS_CONSOLE }
}

/// Open handle on a virtual directory.
pub fn vdir_file(vino: u32) -> (f: FileData)
    ensures
        f == vdir_spec(vino),
{
    FileData { pos: 0, readable: true, writable: false, private: vino as u64, is_dir: true, fops_id: FOPS_VDIR }
}

pub open spec fn vdir_spec(vino: u32) -> FileData {
    FileData { pos: 0, readable: true, writable: false, private: vino as u64, is_dir: true, fops_id: FOPS_VDIR }
}

/// One directory entry for getdents64.
#[derive(Clone, Debug)]
pub struct VfsDirEnt {
    pub ino: u64,
    pub next_off: u64,
    pub d_type: u8,
    /// At most 31 name bytes.
    pub name: Vec<u8>,
}

/// Observable content of a directory entry.
pub struct DentView {
    pub ino: u64,
    pub next_off: u64,
    pub d_type: u8,
    pub name: Seq<u8>,
}

/// The entry with name `name` cut to 31 bytes.
pub open spec fn dent(ino: u64, next_off: u64, d_type: u8, name: Seq<u8>) -> DentView {
    DentView { ino, next_off, d_type, name: take_at_most(name, 31) }
}

pub open spec fn dent_of(d: VfsDirEnt) -> DentView {
    DentView { ino: d.ino, next_off: d.next_off, d_type: d.d_type, name: d.name@ }
}

pub open spec fn opt_dent(d: Option<VfsDirEnt>) -> Option<DentView> {
    match d {
        Some(e) => Some(dent_of(e)),
        None => None,
    }
}

/// A dirent whose name is `name` cut to 31 bytes.
pub fn make_dent(ino: u64, next_off: u64, d_type: u8, name: &[u8]) -> (d: VfsDirEnt)
    ensures
        dent_of(d) == dent(ino, next_off, d_type, name@),
{
    let n = if name.len() < 31 { name.len() } else { 31 };
    let mut v: Vec<u8> = Vec::new();
    let mut i: usize = 0;
    while i < n
        invariant
            n <= name@.len(),
            i <= n,
            v@ == name@.take(i as int),
        decreases n - i,
    {
        v.push(name[i]);
        i = i + 1;
        assert(v@ =~= name@.take(i as int));
    }
    assert(v@ =~= take_at_most(name@, 31));
    VfsDirEnt { ino, next_off, d_type, name: v }
}

/// `/dev/NAME` or `dev/NAME` with a non-empty NAME free of `/`: the NAME.
pub open spec fn dev_name_spec(p: Seq<u8>) -> Option<Seq<u8>> {
    let a = "/dev/".spec_bytes();
    let b = "dev/".spec_bytes();
    if has_prefix(p, a) && p.len() > a.len() && !has_byte(p.skip(a.len() as int), 47) {
        Some(p.skip(a.len() as int))
    } else if has_prefix(p, b) && p.len() > b.len() && !has_byte(p.skip(b.len() as int), 47) {
        Some(p.skip(b.len() as int))
    } else {
        None
    }
}

/// The device name in a `/dev/NAME` path.
pub fn strip_dev_prefix(path: &[u8]) -> (r: Option<&[u8]>)
    ensures
        match r {
            Some(n) => dev_name_spec(path@) == Some(n@),
            None => dev_name_spec(path@) is None,
        },
{
    let a = "/dev/".as_bytes();
    if starts_with(path, a) && path.len() > a.len() {
        let rest = vstd::slice::slice_subrange(path, a.len(), path.len());
        assert(rest@ =~= path@.skip(a@.len() as int));
        if !contains_byte(rest, 47) {
            return Some(rest);
        }
    }
    let b = "dev/".as_bytes();
    if starts_with(path, b) && path.len() > b.len() {
        let rest = vstd::slice::slice_subrange(path, b.len(), path.len());
        assert(rest@ =~= path@.skip(b@.len() as int));
        if !contains_byte(rest, 47) {
            return Some(rest);
        }
    }
    None
}

/// `/dev/null` read: end of file at once.
pub fn null_read(buf: &[u8]) -> (r: Result<usize, VfsError>)
    ensures
        r == Ok::<usize, VfsError>(0),
{
    Ok(0)
}

/// `/dev/null` and `/dev/zero` write: everything is taken and dropped.
pub fn null_write(data: &[u8]) -> (r: Result<usize, VfsError>)
    ensures
        r == Ok::<usize, VfsError>(data@.len() as usize),
{
    Ok(data.len())
}

/// `/dev/zero` read: the whole buffer becomes zero.
pub fn zero_read(buf: &mut [u8]) -> (r: Result<usize, VfsError>)
    ensures
        final(buf)@ == Seq::new(old(buf)@.len(), |i: int| 0u8),
        r == Ok::<usize, VfsError>(old(buf)@.len() as usize),
{
    let mut i: usize = 0;
    while i < buf.len()
        invariant
            buf@.len() == old(buf)@.len(),
            i <= buf@.len(),
            forall|j: int| 0 <= j < i ==> buf@[j] == 0,
        decreases buf@.len() - i,
    {
        buf[i] = 0;
        i = i + 1;
    }
    assert(buf@ =~= Seq::new(old(buf)@.len(), |i: int| 0u8));
    Ok(buf.len())
}

/// Entry `i` of `/proc`: inode, type and name.
pub open spec fn proc_entry(i: int) -> (u64, u8, Seq<u8>) {
    if i == 0 {
        (VINO_PROC as u64, DT_DIR, ".".spec_bytes())
    } else if i == 1 {
        (ROOT_INODE as u64, DT_DIR, "..".spec_bytes())
    } else if i == 2 {
        (0xF000_0101u64, DT_REG, "meminfo".spec_bytes())
    } else if i == 3 {
        (0xF000_0102u64, DT_REG, "mounts".spec_bytes())
    } else if i == 4 {
        (0xF000_0103u64, DT_REG, "version".spec_bytes())
    } else if i == 5 {
        (0xF000_0104u64, DT_REG, "uptime".spec_bytes())
    } else {
        (VINO_PROC_SELF as u64, DT_DIR, "self".spec_bytes())
    }
}

/// Entry `i` of `/proc/self`.
pub open spec fn proc_self_entry(i: int) -> (u64, u8, Seq<u8>) {
    if i == 0 {
        (VINO_PROC_SELF as u64, DT_DIR, ".".spec_bytes())
    } else if i == 1 {
        (VINO_PROC as u64, DT_DIR, "..".spec_bytes())
    } else {
        (0xF000_0105u64, DT_REG, "status".spec_bytes())
    }
}

/// How a ramfs name is listed: `?` when it does not read back as text.
pub open spec fn listed_name(n: Seq<u8>) -> Seq<u8> {
    if n.len() == 0 {
        "?".spec_bytes()
    } else {
        n
    }
}

pub open spec fn count_used_devs(s: Seq<DevView>) -> nat {
    used_devs(s).len()
}

/// The used devices among the first `k` come first among all used devices.
pub proof fn lemma_used_devs_prefix(s: Seq<DevView>, k: int)
    requires
        0 <= k <= s.len(),
    ensures
        used_devs(s.take(k)).len() <= used_devs(s).len(),
        forall|j: int| 0 <= j < used_devs(s.take(k)).len() ==> #[trigger] used_devs(s)[j] == used_devs(s.take(k))[j],
    decreases s.len() - k,
{
    if k < s.len() {
        lemma_used_devs_prefix(s, k + 1);
        assert(s.take(k + 1).drop_last() =~= s.take(k));
    } else {
        assert(s.take(k) =~= s);
    }
}

/// Label of a mount path as listed by `mount_name_at`.
pub open spec fn mount_label(p: Seq<u8>) -> Seq<char> {
    if p.len() == 0 {
        "/"@
    } else if p == "/ram".spec_bytes() {
        "/ram"@
    } else if p == "/proc".spec_bytes() {
        "/proc"@
    } else {
        "?"@
    }
}

/// Lowest used device named `name`, searching from slot `k`.
pub open spec fn dev_find(dv: Seq<DevView>, name: Seq<u8>, k: int) -> Option<int>
    decreases dv.len() - k,
{
    if k < 0 || k >= dv.len() {
        None
    } else if dv[k].used && dv[k].name == name {
        Some(k)
    } else {
        dev_find(dv, name, k + 1)
    }
}

/// Law: a device registered under a name no registered device has yet is
/// the one that opening that name finds: after `register_chrdev` puts
/// `DevView { used: true, name, fops_id }` in slot `i`, `dev_find` (and so
/// `open_chrdev`) gives slot `i` and its operations.
pub proof fn lemma_register_then_open(dv: Seq<DevView>, i: int, name: Seq<u8>, fops_id: u8, k: int)
    requires
        0 <= k <= i < dv.len(),
        dev_find(dv, name, k) is None,
    ensures
        dev_find(dv.update(i, DevView { used: true, name, fops_id }), name, k) == Some(i),
        dv.update(i, DevView { used: true, name, fops_id })[i].fops_id == fops_id,
    decreases i - k,
{
    if k < i {
        lemma_register_then_open(dv, i, name, fops_id, k + 1);
    }
}

pub const MAX_MOUNTS: usize = 4;
pub const MAX_CHRDEV: usize = 8;

pub const O_CREAT: u32 = 0o100;
pub const O_TRUNC: u32 = 0o1000;
pub const O_DIRECTORY: u32 = 0o200000;

/// A registered mount: path prefix without trailing slash (`""` is `/`).
pub struct MountEntry {
    pub used: bool,
    /// At most 15 bytes.
    pub path: Vec<u8>,
    pub fs_name: &'static str,
    /// Root inode of the mounted filesystem.
    pub root_ino: u32,
}

/// A registered character device under `/dev/<name>`.
pub struct ChrdevEntry {
    pub used: bool,
    /// At most 11 bytes.
    pub name: Vec<u8>,
    pub fops_id: u8,
}


/// Observable state of a mount slot.
pub struct MountView {
    pub used: bool,
    pub path: Seq<u8>,
    pub fs_name: Seq<char>,
    pub root_ino: u32,
}

/// Observable state of a character-device slot.
pub struct DevView {
    pub used: bool,
    pub name: Seq<u8>,
    pub fops_id: u8,
}


/// Registries and the RAM filesystem.
pub struct Vfs {
    mounts: Vec<MountEntry>,
    chrdevs: Vec<ChrdevEntry>,
    ram: RamFs,
    ready: bool,
    /// The root filesystem.
    fs: Ext2Fs,
    /// The root filesystem is mounted and usable.
    fs_ready: bool,
}

/// Used entries, in slot order.
pub open spec fn used_devs(s: Seq<DevView>) -> Seq<DevView>
    decreases s.len(),
{
    if s.len() == 0 {
        Seq::empty()
    } else {
        let rest = used_devs(s.drop_last());
        if s.last().used {
            rest.push(s.last())
        } else {
            rest
        }
    }
}

pub open spec fn count_used_mounts(s: Seq<MountView>) -> nat
    decreases s.len(),
{
    if s.len() == 0 {
        0
    } else {
        count_used_mounts(s.drop_last()) + if s.last().used { 1nat } else { 0nat }
    }
}

impl Vfs {
    pub closed spec fn mount_view(&self) -> Seq<MountView> {
        Seq::new(
            self.mounts@.len(),
            |i: int|
                MountView {
                    used: self.mounts@[i].used,
                    path: self.mounts@[i].path@,
                    fs_name: self.mounts@[i].fs_name@,
                    root_ino: self.mounts@[i].root_ino,
                },
        )
    }

    pub closed spec fn dev_view(&self) -> Seq<DevView> {
        Seq::new(
            self.chrdevs@.len(),
            |i: int|
                DevView {
                    used: self.chrdevs@[i].used,
                    name: self.chrdevs@[i].name@,
                    fops_id: self.chrdevs@[i].fops_id,
                },
        )
    }

    pub closed spec fn ram_view(&self) -> Seq<RamView> {
        self.ram.view()
    }

    pub closed spec fn is_ready_spec(&self) -> bool {
        self.ready
    }

    /// Length of the ramfs file in `slot` (0 for a slot not in use).
    pub fn ram_file_size(&self, slot: u64) -> (r: u64)
        requires
            self.wf(),
        ensures
            r == crate::ramfs::ram_size(self.ram_view(), slot),
    {
        self.ram.file_size(slot)
    }

    /// The root filesystem.
    pub closed spec fn root_fs(&self) -> &Ext2Fs {
        &self.fs
    }

    pub closed spec fn fs_ready_spec(&self) -> bool {
        self.fs_ready
    }

    pub closed spec fn wf(&self) -> bool {
        &&& self.mounts@.len() == MAX_MOUNTS
        &&& self.chrdevs@.len() == MAX_CHRDEV
        &&& self.ram.wf()
        &&& self.fs.wf()
        &&& forall|i: int| 0 <= i < MAX_MOUNTS ==> (#[trigger] self.mounts@[i]).path@.len() <= 15
        &&& forall|i: int| 0 <= i < MAX_CHRDEV ==> (#[trigger] self.chrdevs@[i]).name@.len() <= 11
    }

    pub proof fn lemma_wf(&self)
        requires
            self.wf(),
        ensures
            self.mount_view().len() == MAX_MOUNTS,
            self.dev_view().len() == MAX_CHRDEV,
            self.ram_view().len() == RAMFS_SLOTS,
    {
        self.ram.lemma_view();
    }

    /// Empty registries, empty ramfs, not ready.
    pub fn new() -> (v: Vfs)
        ensures
            v.wf(),
            !v.is_ready_spec(),
            forall|i: int| 0 <= i < MAX_MOUNTS ==> !(#[trigger] v.mount_view()[i]).used,
            forall|i: int| 0 <= i < MAX_CHRDEV ==> !(#[trigger] v.dev_view()[i]).used,
            forall|i: int| 0 <= i < RAMFS_SLOTS ==> !(#[trigger] v.ram_view()[i]).used,
    {
        let mut mounts: Vec<MountEntry> = Vec::new();
        let mut i: usize = 0;
        while i < MAX_MOUNTS
            invariant
                i <= MAX_MOUNTS,
                mounts@.len() == i,
                forall|j: int| 0 <= j < i ==> !(#[trigger] mounts@[j]).used && mounts@[j].path@.len() == 0,
            decreases MAX_MOUNTS - i,
        {
            mounts.push(MountEntry { used: false, path: Vec::new(), fs_name: "", root_ino: 0 });
            i = i + 1;
        }
        let mut chrdevs: Vec<ChrdevEntry> = Vec::new();
        let mut j: usize = 0;
        while j < MAX_CHRDEV
            invariant
                j <= MAX_CHRDEV,
                chrdevs@.len() == j,
                forall|k: int| 0 <= k < j ==> !(#[trigger] chrdevs@[k]).used && chrdevs@[k].name@.len() == 0,
            decreases MAX_CHRDEV - j,
        {
            chrdevs.push(ChrdevEntry { used: false, name: Vec::new(), fops_id: FOPS_NONE });
            j = j + 1;
        }
        Vfs { mounts, chrdevs, ram: RamFs::new(), ready: false, fs: Ext2Fs::unmounted(), fs_ready: false }
    }

    pub fn is_ready(&self) -> (r: bool)
        ensures
            r == self.is_ready_spec(),
    {
        self.ready
    }

    /// Register a mount at `path` (cut to 15 bytes) in the lowest free slot.
    pub fn register_mount(&mut self, path: &str, fs_name: &'static str, root_ino: u32) -> (r: Result<(), VfsError>)
        requires
            old(self).wf(),
        ensures
            final(self).wf(),
            final(self).dev_view() == old(self).dev_view(),
            final(self).ram_view() == old(self).ram_view(),
            final(self).is_ready_spec() == old(self).is_ready_spec(),
            final(self).root_fs() == old(self).root_fs(),
            final(self).fs_ready_spec() == old(self).fs_ready_spec(),
            match r {
                Ok(_) => exists|i: int|
                    0 <= i < MAX_MOUNTS && !old(self).mount_view()[i].used && (forall|j: int|
                        0 <= j < i ==> #[trigger] old(self).mount_view()[j].used) && final(self).mount_view()
                        == old(self).mount_view().update(
                        i,
                        MountView {
                            used: true,
                            path: shown(path.spec_bytes(), 15),
                            fs_name: fs_name@,
                            root_ino,
                        },
                    ),
                Err(e) => e == VfsError::NoMem && final(self).mount_view() == old(self).mount_view()
                    && forall|j: int| 0 <= j < MAX_MOUNTS ==> #[trigger] old(self).mount_view()[j].used,
            },
    {
        let bytes = path.as_bytes();
        let mut i: usize = 0;
        while i < MAX_MOUNTS
            invariant
                self.wf(),
                *self == *old(self),
                i <= MAX_MOUNTS,
                bytes@ == path.spec_bytes(),
                forall|j: int| 0 <= j < i ==> #[trigger] old(self).mount_view()[j].used,
            decreases MAX_MOUNTS - i,
        {
            if !self.mounts[i].used {
                let p = shown_copy(bytes, 15);
                let ghost before = self.mount_view();
                self.mounts.set(i, MountEntry { used: true, path: p, fs_name, root_ino });
                proof {
                    assert(self.mount_view() =~= before.update(
                        i as int,
                        MountView {
                            used: true,
                            path: shown(path.spec_bytes(), 15),
                            fs_name: fs_name@,
                            root_ino,
                        },
                    ));
                    assert(self.dev_view() =~= old(self).dev_view());
                    assert(self.ram_view() =~= old(self).ram_view());
                }
                return Ok(());
            }
            i = i + 1;
        }
        Err(VfsError::NoMem)
    }

    /// Register `/dev/<name>` (name cut to 11 bytes) in the lowest free slot.
    pub fn register_chrdev(&mut self, name: &str, fops_id: u8) -> (r: Result<(), VfsError>)
        requires
            old(self).wf(),
        ensures
            final(self).wf(),
            final(self).mount_view() == old(self).mount_view(),
            final(self).ram_view() == old(self).ram_view(),
            final(self).is_ready_spec() == old(self).is_ready_spec(),
            final(self).root_fs() == old(self).root_fs(),
            final(self).fs_ready_spec() == old(self).fs_ready_spec(),
            match r {
                Ok(_) => exists|i: int|
                    0 <= i < MAX_CHRDEV && !old(self).dev_view()[i].used && (forall|j: int|
                        0 <= j < i ==> #[trigger] old(self).dev_view()[j].used) && final(self).dev_view()
                        == old(self).dev_view().update(
                        i,
                        DevView { used: true, name: shown(name.spec_bytes(), 11), fops_id },
                    ),
                Err(e) => e == VfsError::NoMem && final(self).dev_view() == old(self).dev_view()
                    && forall|j: int| 0 <= j < MAX_CHRDEV ==> #[trigger] old(self).dev_view()[j].used,
            },
    {
        let bytes = name.as_bytes();
        let mut i: usize = 0;
        while i < MAX_CHRDEV
            invariant
                self.wf(),
                *self == *old(self),
                i <= MAX_CHRDEV,
                bytes@ == name.spec_bytes(),
                forall|j: int| 0 <= j < i ==> #[trigger] old(self).dev_view()[j].used,
            decreases MAX_CHRDEV - i,
        {
            if !self.chrdevs[i].used {
                let p = shown_copy(bytes, 11);
                let ghost before = self.dev_view();
                self.chrdevs.set(i, ChrdevEntry { used: true, name: p, fops_id });
                proof {
                    assert(self.dev_view() =~= before.update(
                        i as int,
                        DevView { used: true, name: shown(name.spec_bytes(), 11), fops_id },
                    ));
                    assert(self.mount_view() =~= old(self).mount_view());
                    assert(self.ram_view() =~= old(self).ram_view());
                }
                return Ok(());
            }
            i = i + 1;
        }
        Err(VfsError::NoMem)
    }
}


impl Vfs {
    /// Number of used mount slots and of used device slots.
    pub fn stats(&self) -> (r: (usize, usize))
        requires
            self.wf(),
        ensures
            r.0 == count_used_mounts(self.mount_view()),
            r.1 == count_used_devs(self.dev_view()),
    {
        proof {
            self.lemma_wf();
        }
        let mut m: usize = 0;
        let mut i: usize = 0;
        while i < MAX_MOUNTS
            invariant
                self.wf(),
                i <= MAX_MOUNTS,
                m == count_used_mounts(self.mount_view().take(i as int)),
                m <= i,
            decreases MAX_MOUNTS - i,
        {
            assert(self.mount_view().take(i + 1).drop_last() =~= self.mount_view().take(i as int));
            if self.mounts[i].used {
                m = m + 1;
            }
            i = i + 1;
        }
        assert(self.mount_view().take(MAX_MOUNTS as int) =~= self.mount_view());
        let mut c: usize = 0;
        let mut j: usize = 0;
        while j < MAX_CHRDEV
            invariant
                self.wf(),
                j <= MAX_CHRDEV,
                c == used_devs(self.dev_view().take(j as int)).len(),
                c <= j,
            decreases MAX_CHRDEV - j,
        {
            assert(self.dev_view().take(j + 1).drop_last() =~= self.dev_view().take(j as int));
            if self.chrdevs[j].used {
                c = c + 1;
            }
            j = j + 1;
        }
        assert(self.dev_view().take(MAX_CHRDEV as int) =~= self.dev_view());
        (m, c)
    }

    /// Label and filesystem name of mount slot `i`, if used.
    pub fn mount_name_at(&self, i: usize) -> (r: Option<(&'static str, &'static str)>)
        requires
            self.wf(),
        ensures
            i >= MAX_MOUNTS || !self.mount_view()[i as int].used ==> r is None,
            i < MAX_MOUNTS && self.mount_view()[i as int].used ==> r is Some && r.unwrap().0@ == mount_label(
                self.mount_view()[i as int].path,
            ) && r.unwrap().1@ == self.mount_view()[i as int].fs_name,
    {
        if i >= MAX_MOUNTS || !self.mounts[i].used {
            return None;
        }
        let p = self.mounts[i].path.as_slice();
        let label = if p.len() == 0 {
            "/"
        } else if bytes_eq(p, "/ram".as_bytes()) {
            "/ram"
        } else if bytes_eq(p, "/proc".as_bytes()) {
            "/proc"
        } else {
            "?"
        };
        Some((label, self.mounts[i].fs_name))
    }

    /// Open `/dev/NAME` through the device registry.
    pub fn open_chrdev(&self, name: &[u8], readable: bool, writable: bool) -> (r: Result<FileData, VfsError>)
        requires
            self.wf(),
        ensures
            match dev_find(self.dev_view(), name@, 0) {
                Some(i) => r == Ok::<FileData, VfsError>(
                    FileData {
                        pos: 0,
                        readable,
                        writable,
                        private: 0,
                        is_dir: false,
                        fops_id: self.dev_view()[i].fops_id,
                    },
                ),
                None => r == Err::<FileData, VfsError>(VfsError::NoEnt),
            },
    {
        proof {
            self.lemma_wf();
        }
        let mut i: usize = 0;
        while i < MAX_CHRDEV
            invariant
                self.wf(),
                i <= MAX_CHRDEV,
                dev_find(self.dev_view(), name@, 0) == dev_find(self.dev_view(), name@, i as int),
            decreases MAX_CHRDEV - i,
        {
            let same = bytes_eq(self.chrdevs[i].name.as_slice(), name);
            if self.chrdevs[i].used && same {
                assert(dev_find(self.dev_view(), name@, i as int) == Some(i as int));
                return Ok(FileData { pos: 0, readable, writable, private: 0, is_dir: false, fops_id: self.chrdevs[i].fops_id });
            }
            i = i + 1;
        }
        Err(VfsError::NoEnt)
    }

    /// Entry number `pos` of a virtual directory listing.
    pub open spec fn vdir_next_spec(&self, vino: u32, pos: u64) -> Option<DentView> {
        if vino == VINO_PROC {
            if pos < 7 {
                let e = proc_entry(pos as int);
                Some(dent(e.0, (pos + 1) as u64, e.1, e.2))
            } else {
                None
            }
        } else if vino == VINO_PROC_SELF {
            if pos < 3 {
                let e = proc_self_entry(pos as int);
                Some(dent(e.0, (pos + 1) as u64, e.1, e.2))
            } else {
                None
            }
        } else if vino == VINO_DEV || vino == VINO_RAM {
            if pos == 0 {
                Some(dent(vino as u64, 1, DT_DIR, ".".spec_bytes()))
            } else if pos == 1 {
                Some(dent(ROOT_INODE as u64, 2, DT_DIR, "..".spec_bytes()))
            } else if vino == VINO_DEV {
                let u = used_devs(self.dev_view());
                if pos - 2 < u.len() {
                    Some(dent((0xF000_0200 + pos - 2) as u64, (pos + 1) as u64, DT_CHR, u[pos - 2].name))
                } else {
                    None
                }
            } else {
                let u = used_files(self.ram_view());
                if pos - 2 < u.len() {
                    Some(dent((0xF000_0300 + pos - 2) as u64, (pos + 1) as u64, DT_REG, listed_name(u[pos - 2].name)))
                } else {
                    None
                }
            }
        } else {
            None
        }
    }

    /// Next entry of a virtual directory at sequential cookie `pos`.
    pub fn vdir_next(&self, vino: u32, pos: u64) -> (r: Option<VfsDirEnt>)
        requires
            self.wf(),
        ensures
            opt_dent(r) == self.vdir_next_spec(vino, pos),
    {
        proof {
            self.lemma_wf();
        }
        if vino == VINO_PROC {
            if pos >= 7 {
                return None;
            }
            let next = pos + 1;
            let d = if pos == 0 {
                make_dent(VINO_PROC as u64, next, DT_DIR, ".".as_bytes())
            } else if pos == 1 {
                make_dent(ROOT_INODE as u64, next, DT_DIR, "..".as_bytes())
            } else if pos == 2 {
                make_dent(0xF000_0101, next, DT_REG, "meminfo".as_bytes())
            } else if pos == 3 {
                make_dent(0xF000_0102, next, DT_REG, "mounts".as_bytes())
            } else if pos == 4 {
                make_dent(0xF000_0103, next, DT_REG, "version".as_bytes())
            } else if pos == 5 {
                make_dent(0xF000_0104, next, DT_REG, "uptime".as_bytes())
            } else {
                make_dent(VINO_PROC_SELF as u64, next, DT_DIR, "self".as_bytes())
            };
            return Some(d);
        }
        if vino == VINO_PROC_SELF {
            if pos >= 3 {
                return None;
            }
            let next = pos + 1;
            let d = if pos == 0 {
                make_dent(VINO_PROC_SELF as u64, next, DT_DIR, ".".as_bytes())
            } else if pos == 1 {
                make_dent(VINO_PROC as u64, next, DT_DIR, "..".as_bytes())
            } else {
                make_dent(0xF000_0105, next, DT_REG, "status".as_bytes())
            };
            return Some(d);
        }
        if vino != VINO_DEV && vino != VINO_RAM {
            return None;
        }
        if pos == 0 {
            return Some(make_dent(vino as u64, 1, DT_DIR, ".".as_bytes()));
        }
        if pos == 1 {
            return Some(make_dent(ROOT_INODE as u64, 2, DT_DIR, "..".as_bytes()));
        }
        if vino == VINO_DEV {
            let mut n: u64 = 0;
            let mut i: usize = 0;
            while i < MAX_CHRDEV
                invariant
                    self.wf(),
                    2 <= pos,
                    vino == VINO_DEV,
                    i <= MAX_CHRDEV,
                    n == used_devs(self.dev_view().take(i as int)).len(),
                    n + 2 <= pos,
                    n <= i,
                decreases MAX_CHRDEV - i,
            {
                proof {
                    assert(self.dev_view().take(i + 1).drop_last() =~= self.dev_view().take(i as int));
                    lemma_used_devs_prefix(self.dev_view(), i as int + 1);
                }
                if self.chrdevs[i].used {
                    if n + 2 == pos {
                        proof {
                            assert(used_devs(self.dev_view().take(i + 1)) == used_devs(
                                self.dev_view().take(i as int),
                            ).push(self.dev_view()[i as int]));
                            let u = used_devs(self.dev_view());
                            assert(u[n as int] == used_devs(self.dev_view().take(i + 1))[n as int]);
                            assert(u[n as int] == self.dev_view()[i as int]);
                            assert(pos - 2 == n);
                            assert(pos - 2 < u.len());
                            assert(self.dev_view()[i as int].name == self.chrdevs@[i as int].name@);
                        }
                        let d = make_dent(0xF000_0200 + n, pos + 1, DT_CHR, self.chrdevs[i].name.as_slice());
                        assert(opt_dent(Some(d)) == self.vdir_next_spec(vino, pos));
                        return Some(d);
                    }
                    n = n + 1;
                }
                i = i + 1;
            }
            proof {
                assert(self.dev_view().take(MAX_CHRDEV as int) =~= self.dev_view());
            }
            return None;
        }
        if pos - 2 >= 4 {
            proof {
                lemma_used_files_len(self.ram_view());
            }
            return None;
        }
        let k = (pos - 2) as usize;
        match self.ram.nth_used(k) {
            Some((_, name)) => {
                if name.len() == 0 {
                    Some(make_dent(0xF000_0300 + pos - 2, pos + 1, DT_REG, "?".as_bytes()))
                } else {
                    Some(make_dent(0xF000_0300 + pos - 2, pos + 1, DT_REG, name.as_slice()))
                }
            },
            None => None,
        }
    }

    /// Register the boot mounts (`/`, `/ram`, `/proc`) and devices (`null`,
    /// `zero`), seed the ramfs and mark the layer ready. Returns how many
    /// mounts and devices are registered.
    pub fn init_after_ext2(&mut self) -> (r: (usize, usize))
        requires
            old(self).wf(),
            forall|i: int| 0 <= i < MAX_MOUNTS ==> !(#[trigger] old(self).mount_view()[i]).used,
            forall|i: int| 0 <= i < MAX_CHRDEV ==> !(#[trigger] old(self).dev_view()[i]).used,
            old(self).ram_view()[0].len == 0,
        ensures
            final(self).wf(),
            final(self).is_ready_spec(),
            r == (3usize, 2usize),
            final(self).mount_view() == old(self).mount_view().update(
                0,
                MountView { used: true, path: shown("".spec_bytes(), 15), fs_name: "ext2"@, root_ino: ROOT_INODE },
            ).update(1, MountView { used: true, path: shown("/ram".spec_bytes(), 15), fs_name: "ramfs"@, root_ino: 0 }).update(
                2,
                MountView { used: true, path: shown("/proc".spec_bytes(), 15), fs_name: "proc"@, root_ino: 0 },
            ),
            final(self).dev_view() == old(self).dev_view().update(
                0,
                DevView { used: true, name: shown("null".spec_bytes(), 11), fops_id: FOPS_NULL },
            ).update(1, DevView { used: true, name: shown("zero".spec_bytes(), 11), fops_id: FOPS_ZERO }),
            final(self).ram_view()[0].used,
            final(self).ram_view()[0].name == "hello".spec_bytes(),
    {
        proof {
            self.lemma_wf();
        }
        let ghost m0 = self.mount_view();
        let ghost d0 = self.dev_view();
        let _ = self.register_mount("", "ext2", ROOT_INODE);
        let ghost m1 = m0.update(0, MountView { used: true, path: shown("".spec_bytes(), 15), fs_name: "ext2"@, root_ino: ROOT_INODE });
        assert(self.mount_view() == m1) by {
            assert(!m0[0].used);
        }
        let _ = self.register_mount("/ram", "ramfs", 0);
        let ghost m2 = m1.update(1, MountView { used: true, path: shown("/ram".spec_bytes(), 15), fs_name: "ramfs"@, root_ino: 0 });
        assert(self.mount_view() == m2) by {
            assert(m1[0].used && !m1[1].used);
        }
        let _ = self.register_mount("/proc", "proc", 0);
        let ghost m3 = m2.update(2, MountView { used: true, path: shown("/proc".spec_bytes(), 15), fs_name: "proc"@, root_ino: 0 });
        assert(self.mount_view() == m3) by {
            assert(m2[0].used && m2[1].used && !m2[2].used);
        }
        let _ = self.register_chrdev("null", FOPS_NULL);
        let ghost e1 = d0.update(0, DevView { used: true, name: shown("null".spec_bytes(), 11), fops_id: FOPS_NULL });
        assert(self.dev_view() == e1) by {
            assert(!d0[0].used);
        }
        let _ = self.register_chrdev("zero", FOPS_ZERO);
        let ghost e2 = e1.update(1, DevView { used: true, name: shown("zero".spec_bytes(), 11), fops_id: FOPS_ZERO });
        assert(self.dev_view() == e2) by {
            assert(e1[0].used && !e1[1].used);
        }
        let ghost before_seed = self.dev_view();
        let ghost mounts_before = self.mount_view();
        self.ram.seed();
        assert(self.mount_view() =~= mounts_before);
        assert(self.dev_view() =~= before_seed);
        self.ready = true;
        assert(self.mount_view() =~= m3);
        assert(self.dev_view() =~= e2);
        let r = self.stats();
        proof {
            reveal_with_fuel(count_used_mounts, 5);
            reveal_with_fuel(used_devs, 9);
            assert(self.mount_view().take(3) =~= self.mount_view().take(3));
        }
        r
    }
}

/// At most as many used slots as slots.
pub proof fn lemma_used_files_len(s: Seq<RamView>)
    ensures
        used_files(s).len() <= s.len(),
    decreases s.len(),
{
    if s.len() > 0 {
        lemma_used_files_len(s.drop_last());
    }
}

/// A name shown when it is UTF-8, else empty.
pub open spec fn utf8_or_empty(n: Seq<u8>) -> Seq<u8> {
    if vstd::utf8::valid_utf8(n) {
        n
    } else {
        Seq::empty()
    }
}

/// The dirent made from an ext2 entry.
pub open spec fn ext2_dent(d: DirentView) -> DentView {
    dent(d.ino as u64, d.next_off as u64, d.d_type, utf8_or_empty(d.name))
}

/// Cookie of the first virtual entry of `/` after the first, tagged.
pub const COOKIE_VIRT: u64 = 0x8000_0000;
/// Cookie at which the ext2 part of the `/` listing starts.
pub const COOKIE_EXT2_BEGIN: u64 = 0x4000_0000;

/// Virtual entry `i` of `/`: inode and name.
pub open spec fn root_virt(i: int) -> (u64, Seq<u8>) {
    if i == 0 {
        (VINO_PROC as u64, "proc".spec_bytes())
    } else if i == 1 {
        (VINO_DEV as u64, "dev".spec_bytes())
    } else {
        (VINO_RAM as u64, "ram".spec_bytes())
    }
}

/// Is `n` one of the names of the virtual mounts?
pub open spec fn is_mount_name(n: Seq<u8>) -> bool {
    n == "proc".spec_bytes() || n == "dev".spec_bytes() || n == "ram".spec_bytes()
}

fn copy_utf8_or_empty(n: &[u8]) -> (v: Vec<u8>)
    ensures
        v@ == utf8_or_empty(n@),
{
    match utf8_text(n) {
        Some(_) => crate::text::copy_all(n),
        None => Vec::new(),
    }
}

impl Vfs {
    /// Attach the mounted root filesystem (ready when it is mounted).
    pub fn attach_fs(&mut self, fs: Ext2Fs)
        requires
            old(self).wf(),
            fs.wf(),
        ensures
            final(self).wf(),
            final(self).root_fs() == fs,
            final(self).fs_ready_spec() == fs.is_mounted(),
            final(self).mount_view() == old(self).mount_view(),
            final(self).dev_view() == old(self).dev_view(),
            final(self).ram_view() == old(self).ram_view(),
            final(self).is_ready_spec() == old(self).is_ready_spec(),
    {
        let ready = fs.mounted();
        self.fs = fs;
        self.fs_ready = ready;
    }

    /// The root filesystem.
    pub fn fs(&self) -> (r: &Ext2Fs)
        ensures
            r == self.root_fs(),
            self.wf() ==> r.wf(),
    {
        &self.fs
    }

    pub fn fs_ready(&self) -> (r: bool)
        ensures
            r == self.fs_ready_spec(),
    {
        self.fs_ready
    }

    /// Next entry of ext2 directory `ino` at cookie `pos`.
    pub open spec fn ext2_dir_next_spec(&self, ino: u32, pos: u64) -> Result<Option<DentView>, VfsError> {
        match self.root_fs().dir_next_spec(ino, pos as u32 as int) {
            Err(_) => Err(VfsError::Fault),
            Ok(None) => Ok(None),
            Ok(Some(d)) => Ok(Some(ext2_dent(d))),
        }
    }

    fn from_ext2(d: DirentInfo) -> (r: VfsDirEnt)
        ensures
            dent_of(r) == ext2_dent(dirent_view(d)),
    {
        let name = copy_utf8_or_empty(d.name.as_slice());
        make_dent(d.ino as u64, d.next_off as u64, d.d_type, name.as_slice())
    }

    pub fn ext2_dir_next(&self, ino: u32, pos: u64) -> (r: Result<Option<VfsDirEnt>, VfsError>)
        requires
            self.wf(),
        ensures
            match self.ext2_dir_next_spec(ino, pos) {
                Err(e) => r matches Err(x) && x == e,
                Ok(d) => r matches Ok(x) && opt_dent(x) == d,
            },
    {
        match self.fs.dir_next_entry(ino, pos as u32) {
            Ok(None) => Ok(None),
            Err(_) => Err(VfsError::Fault),
            Ok(Some(e)) => Ok(Some(Self::from_ext2(e))),
        }
    }

    /// The ext2 part of the `/` listing from `cookie`, skipping entries that
    /// carry the names of the virtual mounts.
    pub closed spec fn root_ext2_from(&self, cookie: u32) -> Result<Option<DentView>, VfsError>
        decreases u32::MAX - cookie,
    {
        match self.root_fs().dir_next_spec(ROOT_INODE, cookie as int) {
            Err(_) => Err(VfsError::Fault),
            Ok(None) => Ok(None),
            Ok(Some(d)) => {
                let nm = utf8_or_empty(d.name);
                if is_mount_name(nm) {
                    if d.next_off <= cookie {
                        Ok(None)
                    } else {
                        self.root_ext2_from(d.next_off)
                    }
                } else {
                    Ok(Some(dent(d.ino as u64, d.next_off as u64, d.d_type, nm)))
                }
            },
        }
    }

    /// Entry at cookie `pos` of the `/` listing: `proc`, `dev`, `ram`, then ext2.
    pub open spec fn root_dir_next_spec(&self, pos: u64) -> Result<Option<DentView>, VfsError> {
        let idx = if pos == 0 { 0u64 } else { pos & 0xFFFF_FFFF_7FFF_FFFFu64 };
        if (pos == 0 || pos & COOKIE_VIRT != 0) && idx < 3 {
            let next = if idx + 1 < 3 { COOKIE_VIRT | ((idx + 1) as u64) } else { COOKIE_EXT2_BEGIN };
            let e = root_virt(idx as int);
            Ok(Some(dent(e.0, next, DT_DIR, e.1)))
        } else if pos == COOKIE_EXT2_BEGIN {
            self.root_ext2_from(0)
        } else if pos & COOKIE_VIRT == 0 && pos != 0 {
            self.root_ext2_from(pos as u32)
        } else if pos == 0 {
            self.root_ext2_from(0)
        } else {
            Ok(None)
        }
    }

    pub fn root_dir_next(&self, pos: u64) -> (r: Result<Option<VfsDirEnt>, VfsError>)
        requires
            self.wf(),
        ensures
            match self.root_dir_next_spec(pos) {
                Err(e) => r matches Err(x) && x == e,
                Ok(d) => r matches Ok(x) && opt_dent(x) == d,
            },
    {
        if pos == 0 || (pos & COOKIE_VIRT) != 0 {
            let idx = if pos == 0 { 0u64 } else { pos & !COOKIE_VIRT };
            assert(!0x8000_0000u64 == 0xFFFF_FFFF_7FFF_FFFFu64) by (bit_vector);
            if idx < 3 {
                let next = if idx + 1 < 3 { COOKIE_VIRT | (idx + 1) } else { COOKIE_EXT2_BEGIN };
                let d = if idx == 0 {
                    make_dent(VINO_PROC as u64, next, DT_DIR, "proc".as_bytes())
                } else if idx == 1 {
                    make_dent(VINO_DEV as u64, next, DT_DIR, "dev".as_bytes())
                } else {
                    make_dent(VINO_RAM as u64, next, DT_DIR, "ram".as_bytes())
                };
                return Ok(Some(d));
            }
        }
        let ext2_cookie: u64 = if pos == COOKIE_EXT2_BEGIN {
            0
        } else if pos & COOKIE_VIRT == 0 && pos != 0 {
            pos
        } else if pos == 0 {
            0
        } else {
            return Ok(None);
        };
        let mut cookie = ext2_cookie as u32;
        loop
            invariant
                self.wf(),
                self.root_dir_next_spec(pos) == self.root_ext2_from(cookie),
            decreases u32::MAX - cookie,
        {
            match self.fs.dir_next_entry(ROOT_INODE, cookie) {
                Ok(None) => return Ok(None),
                Err(_) => return Err(VfsError::Fault),
                Ok(Some(e)) => {
                    let name = copy_utf8_or_empty(e.name.as_slice());
                    let n = name.as_slice();
                    if bytes_eq(n, "proc".as_bytes()) || bytes_eq(n, "dev".as_bytes()) || bytes_eq(n, "ram".as_bytes()) {
                        if e.next_off <= cookie {
                            return Ok(None);
                        }
                        cookie = e.next_off;
                    } else {
                        return Ok(Some(make_dent(e.ino as u64, e.next_off as u64, e.d_type, n)));
                    }
                },
            }
        }
    }

    /// Next entry of an open directory at cookie `pos`.
    pub open spec fn vfs_dir_next_spec(&self, f: FileData, pos: u64) -> Result<Option<DentView>, VfsError> {
        if f.fops_id == FOPS_VDIR {
            Ok(self.vdir_next_spec(f.private as u32, pos))
        } else if f.fops_id == FOPS_EXT2_DIR {
            if f.private as u32 == ROOT_INODE {
                self.root_dir_next_spec(pos)
            } else {
                self.ext2_dir_next_spec(f.private as u32, pos)
            }
        } else {
            Err(VfsError::NotDir)
        }
    }

    /// Next entry of the open directory `f` at cookie `pos` (`None` at the end).
    pub fn vfs_dir_next(&self, f: &FileData, pos: u64) -> (r: Result<Option<VfsDirEnt>, VfsError>)
        requires
            self.wf(),
        ensures
            match self.vfs_dir_next_spec(*f, pos) {
                Err(e) => r matches Err(x) && x == e,
                Ok(d) => r matches Ok(x) && opt_dent(x) == d,
            },
    {
        if f.fops_id == FOPS_VDIR {
            return Ok(self.vdir_next(f.private as u32, pos));
        }
        if f.fops_id == FOPS_EXT2_DIR {
            let ino = f.private as u32;
            if ino == ROOT_INODE {
                return self.root_dir_next(pos);
            }
            return self.ext2_dir_next(ino, pos);
        }
        Err(VfsError::NotDir)
    }
}

/// The handle `ext2_open` gives for inode `ino`.
pub open spec fn ext2_file_result(fs: &Ext2Fs, ino: u32, flags: u32, readable: bool, writable: bool) -> Result<FileData, VfsError> {
    let d = fs.is_dir_spec(ino);
    if flags & O_DIRECTORY != 0 && !d {
        Err(VfsError::NotDir)
    } else if d && writable {
        Err(VfsError::IsDir)
    } else {
        Ok(
            FileData {
                pos: 0,
                readable: if d { true } else { readable },
                writable: if d { false } else { writable },
                private: ino as u64,
                is_dir: d,
                fops_id: if d { FOPS_EXT2_DIR } else { FOPS_EXT2_FILE },
            },
        )
    }
}

/// `p` with a leading `./` removed.
pub open spec fn strip_dot_slash(p: Seq<u8>) -> Seq<u8> {
    if has_prefix(p, "./".spec_bytes()) {
        p.skip("./".spec_bytes().len() as int)
    } else {
        p
    }
}

impl Vfs {
    /// Registries and flags are the same in `self` and `o`.
    pub open spec fn keeps_tables(&self, o: &Vfs) -> bool {
        &&& self.wf()
        &&& self.mount_view() == o.mount_view()
        &&& self.dev_view() == o.dev_view()
        &&& self.is_ready_spec() == o.is_ready_spec()
        &&& self.fs_ready_spec() == o.fs_ready_spec()
    }

    pub proof fn lemma_same_refl(&self)
        requires
            self.wf(),
        ensures
            self.same(self),
    {
    }

    /// Only the ramfs may differ.
    pub open spec fn only_ram(&self, o: &Vfs) -> bool {
        &&& self.keeps_tables(o)
        &&& self.root_fs() == o.root_fs()
    }

    /// Nothing differs.
    pub open spec fn same(&self, o: &Vfs) -> bool {
        &&& self.only_ram(o)
        &&& self.ram_view() == o.ram_view()
    }

    /// Outcome of opening `path` on the root filesystem.
    pub open spec fn ext2_open_ok(&self, fin: &Vfs, r: Result<FileData, VfsError>, cwd: u32, ticks: u64, p: Seq<u8>, flags: u32, readable: bool, writable: bool) -> bool {
        &&& fin.keeps_tables(self)
        &&& fin.ram_view() == self.ram_view()
        &&& if !self.fs_ready_spec() {
            r == Err::<FileData, VfsError>(VfsError::NoEnt) && fin.root_fs() == self.root_fs()
        } else {
            match self.root_fs().resolve_spec(cwd, p) {
                Ok(ino) => fin.root_fs() == self.root_fs() && r == ext2_file_result(self.root_fs(), ino, flags, readable, writable),
                Err(_) => if flags & O_CREAT == 0 {
                    r == Err::<FileData, VfsError>(VfsError::NoEnt) && fin.root_fs() == self.root_fs()
                } else {
                    exists|tr: Result<u32, Ext2Error>|
                        #[trigger] self.root_fs().touch_ok(fin.root_fs(), tr, cwd, crate::text::trimmed(p), crate::ext2_write::stamp(ticks))
                            && match tr {
                            Err(_) => r == Err::<FileData, VfsError>(VfsError::NoEnt),
                            Ok(_) => match fin.root_fs().resolve_spec(cwd, p) {
                                Err(_) => r == Err::<FileData, VfsError>(VfsError::NoEnt),
                                Ok(ino) => r == ext2_file_result(fin.root_fs(), ino, flags, readable, writable),
                            },
                        }
                },
            }
        }
    }

    /// Open `path` on the root filesystem (`O_CREAT` creates a missing file;
    /// a directory opens read-only).
    pub fn ext2_open(&mut self, cwd: u32, ticks: u64, path: &str, flags: u32, readable: bool, writable: bool) -> (r: Result<FileData, VfsError>)
        requires
            old(self).wf(),
        ensures
            old(self).ext2_open_ok(final(self), r, cwd, ticks, path.spec_bytes(), flags, readable, writable),
    {
        if !self.fs_ready {
            return Err(VfsError::NoEnt);
        }
        let ino = match self.fs.resolve_path(cwd, path) {
            Ok(i) => i,
            Err(_) => {
                if flags & O_CREAT == 0 {
                    return Err(VfsError::NoEnt);
                }
                let ghost f0 = self.fs;
                let tr = self.fs.touch(cwd, path, ticks);
                proof {
                    assert(f0.touch_ok(&self.fs, tr, cwd, crate::text::trimmed(path.spec_bytes()), crate::ext2_write::stamp(ticks)));
                }
                if tr.is_err() {
                    return Err(VfsError::NoEnt);
                }
                match self.fs.resolve_path(cwd, path) {
                    Ok(i) => i,
                    Err(_) => return Err(VfsError::NoEnt),
                }
            },
        };
        let is_dir = self.fs.inode_is_dir(ino);
        if flags & O_DIRECTORY != 0 && !is_dir {
            return Err(VfsError::NotDir);
        }
        if is_dir && writable {
            return Err(VfsError::IsDir);
        }
        Ok(FileData {
            pos: 0,
            readable: if is_dir { true } else { readable },
            writable: if is_dir { false } else { writable },
            private: ino as u64,
            is_dir,
            fops_id: if is_dir { FOPS_EXT2_DIR } else { FOPS_EXT2_FILE },
        })
    }
}

impl Vfs {
    /// Outcome of opening `name` relative to virtual directory `vino`.
    pub open spec fn under_vdir_ok(&self, fin: &Vfs, r: Result<FileData, VfsError>, vino: u32, ticks: u64, name: Seq<u8>, flags: u32, readable: bool, writable: bool) -> bool {
        let n = strip_dot_slash(name);
        if n.len() == 0 || n == ".".spec_bytes() {
            r == Ok::<FileData, VfsError>(vdir_spec(vino)) && fin.same(self)
        } else if n == "..".spec_bytes() {
            if vino == VINO_PROC_SELF {
                r == Ok::<FileData, VfsError>(vdir_spec(VINO_PROC)) && fin.same(self)
            } else {
                self.ext2_open_ok(fin, r, ROOT_INODE, ticks, "/".spec_bytes(), flags, true, false)
            }
        } else if vino == VINO_PROC {
            fin.same(self) && r == (if n == "self".spec_bytes() {
                Ok(vdir_spec(VINO_PROC_SELF))
            } else {
                crate::procfs::open_name_spec(n, readable, writable)
            })
        } else if vino == VINO_PROC_SELF {
            fin.same(self) && r == (if n == "status".spec_bytes() {
                crate::procfs::open_spec("/proc/self/status".spec_bytes(), readable, writable)
            } else {
                Err(VfsError::NoEnt)
            })
        } else if vino == VINO_DEV {
            fin.same(self) && r == self.open_chrdev_spec(n, readable, writable)
        } else if vino == VINO_RAM {
            fin.only_ram(self) && (r, fin.ram_view()) == open_name_spec(self.ram_view(), n, flags, readable, writable)
        } else {
            r == Err::<FileData, VfsError>(VfsError::NoEnt) && fin.same(self)
        }
    }

    /// What `open_chrdev(n)` returns.
    pub open spec fn open_chrdev_spec(&self, n: Seq<u8>, readable: bool, writable: bool) -> Result<FileData, VfsError> {
        match dev_find(self.dev_view(), n, 0) {
            Some(i) => Ok(
                FileData { pos: 0, readable, writable, private: 0, is_dir: false, fops_id: self.dev_view()[i].fops_id },
            ),
            None => Err(VfsError::NoEnt),
        }
    }

    /// Open `name` relative to the virtual directory `vino`.
    pub fn open_under_vdir(&mut self, vino: u32, ticks: u64, name: &[u8], flags: u32, readable: bool, writable: bool) -> (r: Result<FileData, VfsError>)
        requires
            old(self).wf(),
        ensures
            old(self).under_vdir_ok(final(self), r, vino, ticks, name@, flags, readable, writable),
    {
        let pre = "./".as_bytes();
        let n = if starts_with(name, pre) {
            let x = vstd::slice::slice_subrange(name, pre.len(), name.len());
            assert(x@ =~= name@.skip(pre@.len() as int));
            x
        } else {
            name
        };
        assert(n@ == strip_dot_slash(name@));
        if n.len() == 0 || bytes_eq(n, ".".as_bytes()) {
            return Ok(vdir_file(vino));
        }
        if bytes_eq(n, "..".as_bytes()) {
            if vino == VINO_PROC_SELF {
                return Ok(vdir_file(VINO_PROC));
            }
            return self.ext2_open(ROOT_INODE, ticks, "/", flags, true, false);
        }
        if vino == VINO_PROC {
            if bytes_eq(n, "self".as_bytes()) {
                return Ok(vdir_file(VINO_PROC_SELF));
            }
            return crate::procfs::open_name_bytes(n, readable, writable);
        }
        if vino == VINO_PROC_SELF {
            if bytes_eq(n, "status".as_bytes()) {
                return crate::procfs::open("/proc/self/status", readable, writable);
            }
            return Err(VfsError::NoEnt);
        }
        if vino == VINO_DEV {
            return self.open_chrdev(n, readable, writable);
        }
        if vino == VINO_RAM {
            let r = self.ram.open_name_bytes(n, flags, readable, writable);
            return r;
        }
        Err(VfsError::NoEnt)
    }

    /// Outcome of `vfs_open(path)` from working directory `cwd`.
    /// `open_ok`, with its cases kept out of view.
    pub closed spec fn opened(&self, fin: &Vfs, r: Result<FileData, VfsError>, cwd: u32, ticks: u64, p: Seq<u8>, flags: u32, readable: bool, writable: bool) -> bool {
        self.open_ok(fin, r, cwd, ticks, p, flags, readable, writable)
    }

    /// What `opened` stands for.
    pub proof fn lemma_opened(&self, fin: &Vfs, r: Result<FileData, VfsError>, cwd: u32, ticks: u64, p: Seq<u8>, flags: u32, readable: bool, writable: bool)
        ensures
            self.opened(fin, r, cwd, ticks, p, flags, readable, writable) == self.open_ok(fin, r, cwd, ticks, p, flags, readable, writable),
    {
    }

    pub open spec fn open_ok(&self, fin: &Vfs, r: Result<FileData, VfsError>, cwd: u32, ticks: u64, p: Seq<u8>, flags: u32, readable: bool, writable: bool) -> bool {
        if p.len() == 0 {
            r == Err::<FileData, VfsError>(VfsError::NoEnt) && fin.same(self)
        } else if !(p[0] == 47) && cwd >= 0xF000_0000 {
            self.under_vdir_ok(fin, r, cwd, ticks, p, flags, readable, writable)
        } else if p == "/proc".spec_bytes() || p == "/proc/".spec_bytes() {
            fin.same(self) && r == (if writable { Err(VfsError::IsDir) } else { Ok(vdir_spec(VINO_PROC)) })
        } else if p == "/dev".spec_bytes() || p == "/dev/".spec_bytes() {
            fin.same(self) && r == (if writable { Err(VfsError::IsDir) } else { Ok(vdir_spec(VINO_DEV)) })
        } else if p == "/ram".spec_bytes() || p == "/ram/".spec_bytes() {
            fin.same(self) && r == (if writable { Err(VfsError::IsDir) } else { Ok(vdir_spec(VINO_RAM)) })
        } else if p == "/proc/self".spec_bytes() || p == "/proc/self/".spec_bytes() {
            fin.same(self) && r == (if writable { Err(VfsError::IsDir) } else { Ok(vdir_spec(VINO_PROC_SELF)) })
        } else if dev_name_spec(p) is Some {
            fin.same(self) && r == self.open_chrdev_spec(dev_name_spec(p)->Some_0, readable, writable)
        } else if has_prefix(p, "/proc/".spec_bytes()) || has_prefix(p, "proc/".spec_bytes()) {
            fin.same(self) && r == crate::procfs::open_spec(p, readable, writable)
        } else if has_prefix(p, "/ram/".spec_bytes()) {
            fin.only_ram(self) && (r, fin.ram_view()) == open_path_spec(self.ram_view(), p, flags, readable, writable)
        } else if (cwd == ROOT_INODE || cwd == 0) && (p == "proc".spec_bytes() || p == "./proc".spec_bytes()) {
            fin.same(self) && r == (if writable { Err(VfsError::IsDir) } else { Ok(vdir_spec(VINO_PROC)) })
        } else if (cwd == ROOT_INODE || cwd == 0) && (p == "dev".spec_bytes() || p == "./dev".spec_bytes()) {
            fin.same(self) && r == (if writable { Err(VfsError::IsDir) } else { Ok(vdir_spec(VINO_DEV)) })
        } else if (cwd == ROOT_INODE || cwd == 0) && (p == "ram".spec_bytes() || p == "./ram".spec_bytes()) {
            fin.same(self) && r == (if writable { Err(VfsError::IsDir) } else { Ok(vdir_spec(VINO_RAM)) })
        } else {
            self.ext2_open_ok(fin, r, cwd, ticks, p, flags, readable, writable)
        }
    }

    /// Open `path` from working directory `cwd`: the virtual directories and
    /// their files, `/dev` devices, `/proc` files, ramfs files, else the root
    /// filesystem.
    pub fn vfs_open(&mut self, cwd: u32, ticks: u64, path: &str, flags: u32, readable: bool, writable: bool) -> (r: Result<FileData, VfsError>)
        requires
            old(self).wf(),
        ensures
            old(self).opened(final(self), r, cwd, ticks, path.spec_bytes(), flags, readable, writable),
            final(self).wf(),
    {
        let p = path.as_bytes();
        if p.len() == 0 {
            return Err(VfsError::NoEnt);
        }
        if p[0] != 47 && is_virtual_ino(cwd) {
            return self.open_under_vdir(cwd, ticks, p, flags, readable, writable);
        }
        if bytes_eq(p, "/proc".as_bytes()) || bytes_eq(p, "/proc/".as_bytes()) {
            return if writable { Err(VfsError::IsDir) } else { Ok(vdir_file(VINO_PROC)) };
        }
        if bytes_eq(p, "/dev".as_bytes()) || bytes_eq(p, "/dev/".as_bytes()) {
            return if writable { Err(VfsError::IsDir) } else { Ok(vdir_file(VINO_DEV)) };
        }
        if bytes_eq(p, "/ram".as_bytes()) || bytes_eq(p, "/ram/".as_bytes()) {
            return if writable { Err(VfsError::IsDir) } else { Ok(vdir_file(VINO_RAM)) };
        }
        if bytes_eq(p, "/proc/self".as_bytes()) || bytes_eq(p, "/proc/self/".as_bytes()) {
            return if writable { Err(VfsError::IsDir) } else { Ok(vdir_file(VINO_PROC_SELF)) };
        }
        match strip_dev_prefix(p) {
            Some(name) => {
                return self.open_chrdev(name, readable, writable);
            },
            None => {},
        }
        if starts_with(p, "/proc/".as_bytes()) || starts_with(p, "proc/".as_bytes()) {
            return crate::procfs::open_bytes(p, readable, writable);
        }
        if starts_with(p, "/ram/".as_bytes()) {
            return self.ram.open_bytes(p, flags, readable, writable);
        }
        if cwd == ROOT_INODE || cwd == 0 {
            if bytes_eq(p, "proc".as_bytes()) || bytes_eq(p, "./proc".as_bytes()) {
                return if writable { Err(VfsError::IsDir) } else { Ok(vdir_file(VINO_PROC)) };
            }
            if bytes_eq(p, "dev".as_bytes()) || bytes_eq(p, "./dev".as_bytes()) {
                return if writable { Err(VfsError::IsDir) } else { Ok(vdir_file(VINO_DEV)) };
            }
            if bytes_eq(p, "ram".as_bytes()) || bytes_eq(p, "./ram".as_bytes()) {
                return if writable { Err(VfsError::IsDir) } else { Ok(vdir_file(VINO_RAM)) };
            }
        }
        self.ext2_open(cwd, ticks, path, flags, readable, writable)
    }
}

/// What one byte written to the console does.
pub open spec fn console_step(v: ConsoleView, b: u8) -> ConsoleView {
    if b == 10 || b == 9 {
        put_spec(v, b)
    } else if b == 8 || b == 0x7F {
        put_spec(v, 8)
    } else if b == 0x0C {
        cleared(v)
    } else if b == 0x0E {
        ConsoleView { inverse: true, ..v }
    } else if b == 0x0F {
        ConsoleView { inverse: false, ..v }
    } else if printable(b) {
        put_spec(v, b)
    } else {
        v
    }
}

/// Whether the console acts on byte `b` (and counts it as written).
pub open spec fn console_takes(b: u8) -> bool {
    b == 10 || b == 9 || b == 8 || b == 0x7F || b == 0x0C || b == 0x0E || b == 0x0F || printable(b)
}

/// The console after writing `s`.
pub open spec fn console_after(v: ConsoleView, s: Seq<u8>) -> ConsoleView
    decreases s.len(),
{
    if s.len() == 0 {
        v
    } else {
        console_step(console_after(v, s.drop_last()), s.last())
    }
}

/// How many bytes of `s` the console acts on.
pub open spec fn console_count(s: Seq<u8>) -> nat
    decreases s.len(),
{
    if s.len() == 0 {
        0
    } else {
        console_count(s.drop_last()) + if console_takes(s.last()) { 1nat } else { 0nat }
    }
}

proof fn lemma_console_count_le(s: Seq<u8>)
    ensures
        console_count(s) <= s.len(),
    decreases s.len(),
{
    if s.len() > 0 {
        lemma_console_count_le(s.drop_last());
    }
}

/// Write `data` to the console: newline and tab, backspace (also DEL), form
/// feed clears, shift-out/shift-in switch inverse video, glyphs are shown,
/// other control bytes are dropped. Returns how many bytes were acted on.
pub fn console_write_op(con: &mut Console, data: &[u8]) -> (r: Result<usize, VfsError>)
    requires
        old(con).wf(),
    ensures
        final(con).wf(),
        final(con).view() == console_after(old(con).view(), data@),
        r == Ok::<usize, VfsError>(console_count(data@) as usize),
{
    let mut n: usize = 0;
    let mut i: usize = 0;
    while i < data.len()
        invariant
            con.wf(),
            i <= data@.len(),
            n == console_count(data@.take(i as int)),
            con.view() == console_after(old(con).view(), data@.take(i as int)),
        decreases data@.len() - i,
    {
        let b = data[i];
        proof {
            assert(data@.take(i + 1).drop_last() =~= data@.take(i as int));
            lemma_console_count_le(data@.take(i as int));
        }
        if b == 10 || b == 9 {
            con.put_char(b);
            n = n + 1;
        } else if b == 8 || b == 0x7F {
            con.put_char(8);
            n = n + 1;
        } else if b == 0x0C {
            con.clear();
            n = n + 1;
        } else if b == 0x0E {
            con.set_inverse(true);
            n = n + 1;
        } else if b == 0x0F {
            con.set_inverse(false);
            n = n + 1;
        } else if 0x20 <= b && b != 0x7F {
            con.put_char(b);
            n = n + 1;
        }
        i = i + 1;
    }
    assert(data@.take(data@.len() as int) =~= data@);
    Ok(n)
}

/// Read typed bytes already buffered, as many as fit. Waiting for the first
/// byte is the caller's part: with nothing buffered this reads nothing.
pub fn console_read_op(keys: &mut KeyBuffer, buf: &mut [u8]) -> (r: Result<usize, VfsError>)
    requires
        old(keys).wf(),
    ensures
        final(keys).wf(),
        ({
            let n = if old(buf)@.len() < old(keys)@.len() { old(buf)@.len() } else { old(keys)@.len() };
            &&& r == Ok::<usize, VfsError>(n as usize)
            &&& final(buf)@ == old(keys)@.take(n as int) + old(buf)@.skip(n as int)
            &&& final(keys)@ == old(keys)@.skip(n as int)
        }),
{
    let mut n: usize = 0;
    while n < buf.len() && keys.buffered_len() > 0
        invariant
            keys.wf(),
            n <= buf@.len(),
            buf@.len() == old(buf)@.len(),
            n <= old(keys)@.len(),
            keys@ == old(keys)@.skip(n as int),
            buf@ == old(keys)@.take(n as int) + old(buf)@.skip(n as int),
        decreases buf@.len() - n,
    {
        let c = keys.pop_char();
        match c {
            Some(b) => {
                buf[n] = b;
                proof {
                    assert(old(keys)@.skip(n as int)[0] == old(keys)@[n as int]);
                    assert(old(keys)@.skip(n as int).drop_first() =~= old(keys)@.skip(n + 1));
                }
                n = n + 1;
                assert(buf@ =~= old(keys)@.take(n as int) + old(buf)@.skip(n as int));
            },
            None => {},
        }
    }
    proof {
        keys.lemma_wf();
    }
    Ok(n)
}

/// Whether the operations table `id` can read.
pub open spec fn has_read(id: u8) -> bool {
    id == FOPS_CONSOLE || id == FOPS_EXT2_FILE || id == FOPS_RAMFS_FILE || id == FOPS_NULL || id == FOPS_ZERO
        || id == FOPS_PROC
}

/// Whether the operations table `id` can write.
pub open spec fn has_write(id: u8) -> bool {
    id == FOPS_CONSOLE || id == FOPS_EXT2_FILE || id == FOPS_RAMFS_FILE || id == FOPS_NULL || id == FOPS_ZERO
}

/// `pos + n`, held at the largest offset.
pub open spec fn sat_add(pos: u64, n: usize) -> u64 {
    if pos + n > u64::MAX {
        u64::MAX
    } else {
        (pos + n) as u64
    }
}

fn advance(pos: u64, n: usize) -> (r: u64)
    ensures
        r == sat_add(pos, n),
{
    let k = n as u64;
    if k > u64::MAX - pos {
        u64::MAX
    } else {
        pos + k
    }
}

/// Read the ext2 file in `f` at `f.pos`; an offset past 4 GiB reads nothing.
pub fn ext2_file_read_op(fs: &Ext2Fs, f: &FileData, buf: &mut [u8]) -> (r: Result<usize, VfsError>)
    requires
        fs.wf(),
    ensures
        final(buf)@.len() == old(buf)@.len(),
        f.pos > u32::MAX ==> r == Ok::<usize, VfsError>(0) && final(buf)@ == old(buf)@,
        f.pos <= u32::MAX ==> match fs.read_spec(f.private as u32, f.pos as int, old(buf)@.len() as int) {
            Err(_) => r == Err::<usize, VfsError>(VfsError::Fault),
            Ok(s) => r == Ok::<usize, VfsError>(s.len() as usize) && final(buf)@ == s + old(buf)@.skip(s.len() as int),
        },
{
    let ino = f.private as u32;
    if f.pos > 0xFFFF_FFFF {
        return Ok(0);
    }
    match fs.read_file(ino, f.pos as u32, buf) {
        Ok(n) => Ok(n),
        Err(_) => Err(VfsError::Fault),
    }
}

/// Writing into an ext2 file at an offset is not available: any offset the
/// filesystem could hold gives `Fault`, one past 4 GiB writes nothing.
pub fn ext2_file_write_op(f: &FileData, data: &[u8]) -> (r: Result<usize, VfsError>)
    ensures
        r == (if f.pos > u32::MAX { Ok::<usize, VfsError>(0) } else { Err(VfsError::Fault) }),
{
    if f.pos > 0xFFFF_FFFF {
        return Ok(0);
    }
    Err(VfsError::Fault)
}

/// `f` after an operation that returned `r`: the offset advances by what was moved.
pub open spec fn after_io(f: FileData, r: Result<usize, VfsError>) -> FileData {
    match r {
        Ok(n) => FileData { pos: sat_add(f.pos, n), ..f },
        Err(_) => f,
    }
}

impl Vfs {
    /// What `vfs_read` on `f` returns, for a buffer of `blen` bytes and the
    /// keyboard buffer holding `keys`.
    pub open spec fn vfs_read_result(&self, f: FileData, blen: nat, keys: Seq<u8>, info: &ProcInfo) -> Result<usize, VfsError> {
        let id = f.fops_id;
        if !f.readable {
            Err(VfsError::Inval)
        } else if id >= FOPS_COUNT {
            Err(VfsError::NoDev)
        } else if !has_read(id) {
            Err(VfsError::IsDir)
        } else if id == FOPS_CONSOLE {
            Ok((if blen < keys.len() { blen } else { keys.len() }) as usize)
        } else if id == FOPS_EXT2_FILE {
            if f.pos > u32::MAX {
                Ok(0)
            } else {
                match self.root_fs().read_spec(f.private as u32, f.pos as int, blen as int) {
                    Err(_) => Err(VfsError::Fault),
                    Ok(s) => Ok(s.len() as usize),
                }
            }
        } else if id == FOPS_RAMFS_FILE {
            match crate::ramfs::read_spec(self.ram_view(), f.private, f.pos, blen) {
                Err(e) => Err(e),
                Ok(s) => Ok(s.len() as usize),
            }
        } else if id == FOPS_NULL {
            Ok(0)
        } else if id == FOPS_ZERO {
            Ok(blen as usize)
        } else {
            Ok(read_from(proc_content(f.private, info), f.pos, blen).len() as usize)
        }
    }

    /// What `vfs_write` of `data` on `f` returns.
    pub open spec fn vfs_write_result(&self, f: FileData, data: Seq<u8>) -> Result<usize, VfsError> {
        let id = f.fops_id;
        if !f.writable {
            Err(VfsError::Inval)
        } else if id >= FOPS_COUNT {
            Err(VfsError::NoDev)
        } else if !has_write(id) {
            Err(VfsError::IsDir)
        } else if id == FOPS_CONSOLE {
            Ok(console_count(data) as usize)
        } else if id == FOPS_EXT2_FILE {
            if f.pos > u32::MAX { Ok(0) } else { Err(VfsError::Fault) }
        } else if id == FOPS_RAMFS_FILE {
            write_result(self.ram_view(), f.private, f.pos, data)
        } else {
            Ok(data.len() as usize)
        }
    }
}

impl Vfs {
    /// What the read operation of `f`'s table does: `b0`/`b1` the buffer and
    /// `k0`/`k1` the keyboard buffer before and after.
    pub open spec fn read_done(
        &self,
        f: FileData,
        b0: Seq<u8>,
        b1: Seq<u8>,
        k0: Seq<u8>,
        k1: Seq<u8>,
        info: &ProcInfo,
        r: Result<usize, VfsError>,
    ) -> bool {
        let id = f.fops_id;
        &&& b1.len() == b0.len()
        &&& id != FOPS_CONSOLE ==> k1 == k0
        &&& id == FOPS_CONSOLE ==> {
            let n = if b0.len() < k0.len() { b0.len() } else { k0.len() };
            &&& r == Ok::<usize, VfsError>(n as usize)
            &&& b1 == k0.take(n as int) + b0.skip(n as int)
            &&& k1 == k0.skip(n as int)
        }
        &&& id == FOPS_EXT2_FILE ==> if f.pos > u32::MAX {
            r == Ok::<usize, VfsError>(0) && b1 == b0
        } else {
            match self.root_fs().read_spec(f.private as u32, f.pos as int, b0.len() as int) {
                Err(_) => r == Err::<usize, VfsError>(VfsError::Fault),
                Ok(s) => r == Ok::<usize, VfsError>(s.len() as usize) && b1 == s + b0.skip(s.len() as int),
            }
        }
        &&& id == FOPS_RAMFS_FILE ==> match crate::ramfs::read_spec(self.ram_view(), f.private, f.pos, b0.len()) {
            Err(e) => r == Err::<usize, VfsError>(e) && b1 == b0,
            Ok(s) => r == Ok::<usize, VfsError>(s.len() as usize) && b1 == s + b0.skip(s.len() as int),
        }
        &&& id == FOPS_NULL ==> r == Ok::<usize, VfsError>(0) && b1 == b0
        &&& id == FOPS_ZERO ==> r == Ok::<usize, VfsError>(b0.len() as usize) && b1 == Seq::new(b0.len(), |i: int| 0u8)
        &&& id == FOPS_PROC ==> {
            let s = read_from(proc_content(f.private, info), f.pos, b0.len());
            r == Ok::<usize, VfsError>(s.len() as usize) && b1 == s + b0.skip(s.len() as int)
        }
    }

    fn read_dispatch(&self, f: &FileData, buf: &mut [u8], keys: &mut KeyBuffer, info: &ProcInfo) -> (r: Result<usize, VfsError>)
        requires
            self.wf(),
            old(keys).wf(),
            has_read(f.fops_id),
        ensures
            final(keys).wf(),
            self.read_done(*f, old(buf)@, final(buf)@, old(keys)@, final(keys)@, info, r),
    {
        let id = f.fops_id;
        if id == FOPS_CONSOLE {
            console_read_op(keys, buf)
        } else if id == FOPS_EXT2_FILE {
            ext2_file_read_op(&self.fs, f, buf)
        } else if id == FOPS_RAMFS_FILE {
            let r = self.ram.read(f, buf);
            proof {
                self.ram.lemma_view();
                match crate::ramfs::read_spec(self.ram.view(), f.private, f.pos, old(buf)@.len()) {
                    Ok(s) => {
                        assert(s.len() <= old(buf)@.len());
                        assert(buf@ =~= s + old(buf)@.skip(s.len() as int));
                    },
                    Err(_) => {},
                }
            }
            r
        } else if id == FOPS_NULL {
            null_read(buf)
        } else if id == FOPS_ZERO {
            zero_read(buf)
        } else {
            crate::procfs::read_op(f, info, buf)
        }
    }

    /// Read through `f`'s operations table at `f.pos` and advance the offset
    /// by what was read.
    pub fn vfs_read(&self, f: &mut FileData, buf: &mut [u8], keys: &mut KeyBuffer, info: &ProcInfo) -> (r: Result<usize, VfsError>)
        requires
            self.wf(),
            old(keys).wf(),
        ensures
            final(keys).wf(),
            r == self.vfs_read_result(*old(f), old(buf)@.len(), old(keys)@, info),
            *final(f) == after_io(*old(f), r),
            !old(f).readable ==> r == Err::<usize, VfsError>(VfsError::Inval),
            old(f).readable && old(f).fops_id >= FOPS_COUNT ==> r == Err::<usize, VfsError>(VfsError::NoDev),
            old(f).readable && old(f).fops_id < FOPS_COUNT && !has_read(old(f).fops_id) ==> r == Err::<usize, VfsError>(
                VfsError::IsDir,
            ),
            !(old(f).readable && has_read(old(f).fops_id)) ==> *final(f) == *old(f) && final(buf)@ == old(buf)@
                && final(keys)@ == old(keys)@,
            old(f).readable && has_read(old(f).fops_id) ==> {
                &&& self.read_done(*old(f), old(buf)@, final(buf)@, old(keys)@, final(keys)@, info, r)
                &&& *final(f) == match r {
                    Ok(n) => FileData { pos: sat_add(old(f).pos, n), ..*old(f) },
                    Err(_) => *old(f),
                }
            },
    {
        if !f.readable {
            return Err(VfsError::Inval);
        }
        if f.fops_id >= FOPS_COUNT {
            return Err(VfsError::NoDev);
        }
        if !(f.fops_id == FOPS_CONSOLE || f.fops_id == FOPS_EXT2_FILE || f.fops_id == FOPS_RAMFS_FILE
            || f.fops_id == FOPS_NULL || f.fops_id == FOPS_ZERO || f.fops_id == FOPS_PROC) {
            return Err(VfsError::IsDir);
        }
        let r = self.read_dispatch(f, buf, keys, info);
        if let Ok(n) = r {
            f.pos = advance(f.pos, n);
        }
        r
    }

    /// Read through `f`'s operations table at `offset`; `f` is left as it is.
    pub fn vfs_read_at(&self, f: &FileData, offset: u64, buf: &mut [u8], keys: &mut KeyBuffer, info: &ProcInfo) -> (r: Result<usize, VfsError>)
        requires
            self.wf(),
            old(keys).wf(),
        ensures
            final(keys).wf(),
            r == self.vfs_read_result(FileData { pos: offset, ..*f }, old(buf)@.len(), old(keys)@, info),
            !f.readable ==> r == Err::<usize, VfsError>(VfsError::Inval),
            f.readable && f.fops_id >= FOPS_COUNT ==> r == Err::<usize, VfsError>(VfsError::NoDev),
            f.readable && f.fops_id < FOPS_COUNT && !has_read(f.fops_id) ==> r == Err::<usize, VfsError>(VfsError::IsDir),
            !(f.readable && has_read(f.fops_id)) ==> final(buf)@ == old(buf)@ && final(keys)@ == old(keys)@,
            f.readable && has_read(f.fops_id) ==> self.read_done(
                FileData { pos: offset, ..*f },
                old(buf)@,
                final(buf)@,
                old(keys)@,
                final(keys)@,
                info,
                r,
            ),
    {
        if !f.readable {
            return Err(VfsError::Inval);
        }
        let tmp = FileData { pos: offset, ..*f };
        if tmp.fops_id >= FOPS_COUNT {
            return Err(VfsError::NoDev);
        }
        if !(tmp.fops_id == FOPS_CONSOLE || tmp.fops_id == FOPS_EXT2_FILE || tmp.fops_id == FOPS_RAMFS_FILE
            || tmp.fops_id == FOPS_NULL || tmp.fops_id == FOPS_ZERO || tmp.fops_id == FOPS_PROC) {
            return Err(VfsError::IsDir);
        }
        self.read_dispatch(&tmp, buf, keys, info)
    }

    /// What the write operation of `f`'s table does: `self`/`fin` and
    /// `c0`/`c1` are the filesystems and the console before and after.
    pub open spec fn write_done(&self, fin: &Vfs, f: FileData, data: Seq<u8>, c0: ConsoleView, c1: ConsoleView, r: Result<usize, VfsError>) -> bool {
        let id = f.fops_id;
        &&& id != FOPS_CONSOLE ==> c1 == c0
        &&& id != FOPS_RAMFS_FILE ==> fin.same(self)
        &&& id == FOPS_CONSOLE ==> r == Ok::<usize, VfsError>(console_count(data) as usize) && c1 == console_after(c0, data)
        &&& id == FOPS_EXT2_FILE ==> r == (if f.pos > u32::MAX { Ok::<usize, VfsError>(0) } else { Err(VfsError::Fault) })
        &&& id == FOPS_RAMFS_FILE ==> {
            &&& fin.only_ram(self)
            &&& r == write_result(self.ram_view(), f.private, f.pos, data)
            &&& fin.ram_view() == write_view(self.ram_view(), f.private, f.pos, data)
        }
        &&& (id == FOPS_NULL || id == FOPS_ZERO) ==> r == Ok::<usize, VfsError>(data.len() as usize)
    }

    fn write_dispatch(&mut self, f: &FileData, data: &[u8], con: &mut Console) -> (r: Result<usize, VfsError>)
        requires
            old(self).wf(),
            old(con).wf(),
            has_write(f.fops_id),
        ensures
            final(self).wf(),
            final(con).wf(),
            old(self).write_done(final(self), *f, data@, old(con).view(), final(con).view(), r),
    {
        let id = f.fops_id;
        if id == FOPS_CONSOLE {
            console_write_op(con, data)
        } else if id == FOPS_EXT2_FILE {
            ext2_file_write_op(f, data)
        } else if id == FOPS_RAMFS_FILE {
            self.ram.write(f, data)
        } else {
            null_write(data)
        }
    }

    /// Write through `f`'s operations table at `f.pos` and advance the offset
    /// by what was written.
    pub fn vfs_write(&mut self, f: &mut FileData, buf: &[u8], con: &mut Console) -> (r: Result<usize, VfsError>)
        requires
            old(self).wf(),
            old(con).wf(),
        ensures
            final(self).wf(),
            final(con).wf(),
            r == old(self).vfs_write_result(*old(f), buf@),
            *final(f) == after_io(*old(f), r),
            !old(f).writable ==> r == Err::<usize, VfsError>(VfsError::Inval),
            old(f).writable && old(f).fops_id >= FOPS_COUNT ==> r == Err::<usize, VfsError>(VfsError::NoDev),
            old(f).writable && old(f).fops_id < FOPS_COUNT && !has_write(old(f).fops_id) ==> r == Err::<usize, VfsError>(
                VfsError::IsDir,
            ),
            !(old(f).writable && has_write(old(f).fops_id)) ==> *final(f) == *old(f) && final(self).same(old(self))
                && final(con).view() == old(con).view(),
            old(f).writable && has_write(old(f).fops_id) ==> {
                &&& old(self).write_done(final(self), *old(f), buf@, old(con).view(), final(con).view(), r)
                &&& *final(f) == match r {
                    Ok(n) => FileData { pos: sat_add(old(f).pos, n), ..*old(f) },
                    Err(_) => *old(f),
                }
            },
    {
        if !f.writable {
            return Err(VfsError::Inval);
        }
        if f.fops_id >= FOPS_COUNT {
            return Err(VfsError::NoDev);
        }
        if !(f.fops_id == FOPS_CONSOLE || f.fops_id == FOPS_EXT2_FILE || f.fops_id == FOPS_RAMFS_FILE
            || f.fops_id == FOPS_NULL || f.fops_id == FOPS_ZERO) {
            return Err(VfsError::IsDir);
        }
        let r = self.write_dispatch(f, buf, con);
        if let Ok(n) = r {
            f.pos = advance(f.pos, n);
        }
        r
    }
}
impl Vfs {
    /// Create the directory `path` on the root filesystem.
    pub fn root_mkdir(&mut self, cwd: u32, path: &str, ticks: u64) -> (r: Result<u32, Ext2Error>)
        requires
            old(self).wf(),
        ensures
            final(self).keeps_tables(old(self)),
            final(self).ram_view() == old(self).ram_view(),
            old(self).root_fs().mkdir_ok(final(self).root_fs(), r, cwd, crate::text::trimmed(path.spec_bytes()), crate::ext2_write::stamp(ticks)),
    {
        self.fs.mkdir(cwd, path, ticks)
    }

    /// Remove the file `path` from the root filesystem.
    pub fn root_unlink(&mut self, cwd: u32, path: &str, ticks: u64) -> (r: Result<(), Ext2Error>)
        requires
            old(self).wf(),
        ensures
            final(self).keeps_tables(old(self)),
            final(self).ram_view() == old(self).ram_view(),
            old(self).root_fs().unlink_ok(final(self).root_fs(), r, cwd, crate::text::trimmed(path.spec_bytes()), crate::ext2_write::stamp(ticks)),
    {
        self.fs.unlink(cwd, path, ticks)
    }

    /// Remove the empty directory `path` from the root filesystem.
    pub fn root_rmdir(&mut self, cwd: u32, path: &str, ticks: u64) -> (r: Result<(), Ext2Error>)
        requires
            old(self).wf(),
        ensures
            final(self).keeps_tables(old(self)),
            final(self).ram_view() == old(self).ram_view(),
            old(self).root_fs().rmdir_ok(final(self).root_fs(), r, cwd, crate::text::trimmed(path.spec_bytes()), crate::ext2_write::stamp(ticks)),
    {
        self.fs.rmdir(cwd, path, ticks)
    }
}

} // verus!
