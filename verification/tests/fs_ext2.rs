use lib::elf::{check_entry_mapped, load_bytes, ElfError};
use lib::elf_ino::load_from_ino;
use lib::ext2::{Ext2Error, Ext2Fs, ROOT_INODE};
use lib::path::{chdir, getcwd_pretty};
use lib::vcore::{Vfs, VfsError};
use lib::vops::{refuse_virtual_mut, vfs_err_str, vfs_mkdir, vfs_rmdir, vfs_unlink};

fn put16(d: &mut [u8], o: usize, v: u16) {
    d[o..o + 2].copy_from_slice(&v.to_le_bytes());
}

fn put32(d: &mut [u8], o: usize, v: u32) {
    d[o..o + 4].copy_from_slice(&v.to_le_bytes());
}

fn put64(d: &mut [u8], o: usize, v: u64) {
    d[o..o + 8].copy_from_slice(&v.to_le_bytes());
}

fn dirent(d: &mut [u8], o: usize, ino: u32, rec: u16, name: &str, ft: u8) {
    put32(d, o, ino);
    put16(d, o + 4, rec);
    d[o + 6] = name.len() as u8;
    d[o + 7] = ft;
    d[o + 8..o + 8 + name.len()].copy_from_slice(name.as_bytes());
}

/// A small ELF64 executable: one loadable segment at 0x400000 holding the
/// whole 200-byte file, 8 KiB of memory, entry 0x401000.
fn elf_image() -> Vec<u8> {
    let mut e = vec![0u8; 200];
    e[0..4].copy_from_slice(&[0x7f, b'E', b'L', b'F']);
    e[4] = 2;
    e[5] = 1;
    e[6] = 1;
    put16(&mut e, 16, 2);
    put16(&mut e, 18, 62);
    put32(&mut e, 20, 1);
    put64(&mut e, 24, 0x401000);
    put64(&mut e, 32, 64);
    put16(&mut e, 52, 64);
    put16(&mut e, 54, 56);
    put16(&mut e, 56, 1);
    put32(&mut e, 64, 1);
    put32(&mut e, 68, 5);
    put64(&mut e, 72, 0);
    put64(&mut e, 80, 0x400000);
    put64(&mut e, 88, 0x400000);
    put64(&mut e, 96, 200);
    put64(&mut e, 104, 0x2000);
    put64(&mut e, 112, 0x1000);
    for i in 120..200 {
        e[i] = 0x90;
    }
    e
}

/// A 64 KiB ext2 image with 1 KiB blocks, one group of 16 inodes: the root
/// directory (block 7) holds `hello` (inode 11, "hello" in block 8) and
/// `prog` (inode 10, the ELF image in block 9).
fn disk_image() -> Vec<u8> {
    let mut d = vec![0u8; 64 * 1024];
    let sb = 1024;
    put32(&mut d, sb, 16);
    put32(&mut d, sb + 4, 64);
    put32(&mut d, sb + 12, 54);
    put32(&mut d, sb + 16, 5);
    put32(&mut d, sb + 20, 1);
    put32(&mut d, sb + 24, 0);
    put32(&mut d, sb + 32, 8192);
    put32(&mut d, sb + 40, 16);
    put16(&mut d, sb + 56, 0xEF53);
    let g = 2048;
    put32(&mut d, g, 3);
    put32(&mut d, g + 4, 4);
    put32(&mut d, g + 8, 5);
    put16(&mut d, g + 12, 54);
    put16(&mut d, g + 14, 5);
    put16(&mut d, g + 16, 1);
    // Block bitmap: blocks 1..=9 in use, and everything past the disk.
    let bb = 3 * 1024;
    d[bb] = 0xFF;
    d[bb + 1] = 0x01;
    d[bb + 7] = 0x80;
    for i in 8..1024 {
        d[bb + i] = 0xFF;
    }
    // Inode bitmap: inodes 1..=11 in use.
    let ib = 4 * 1024;
    d[ib] = 0xFF;
    d[ib + 1] = 0x07;
    let itab = 5 * 1024;
    let root = itab + 128;
    put16(&mut d, root, 0x41ED);
    put32(&mut d, root + 4, 1024);
    put16(&mut d, root + 26, 2);
    put32(&mut d, root + 28, 2);
    put32(&mut d, root + 40, 7);
    let prog = itab + 9 * 128;
    put16(&mut d, prog, 0x81ED);
    put32(&mut d, prog + 4, 200);
    put16(&mut d, prog + 26, 1);
    put32(&mut d, prog + 28, 2);
    put32(&mut d, prog + 40, 9);
    let hello = itab + 10 * 128;
    put16(&mut d, hello, 0x81A4);
    put32(&mut d, hello + 4, 5);
    put16(&mut d, hello + 26, 1);
    put32(&mut d, hello + 28, 2);
    put32(&mut d, hello + 40, 8);
    let r = 7 * 1024;
    dirent(&mut d, r, 2, 12, ".", 2);
    dirent(&mut d, r + 12, 2, 12, "..", 2);
    dirent(&mut d, r + 24, 11, 16, "hello", 1);
    dirent(&mut d, r + 40, 10, 984, "prog", 1);
    d[8 * 1024..8 * 1024 + 5].copy_from_slice(b"hello");
    let e = elf_image();
    d[9 * 1024..9 * 1024 + e.len()].copy_from_slice(&e);
    d
}

fn mounted() -> Ext2Fs {
    Ext2Fs::mount(disk_image()).expect("image mounts")
}

fn names(fs: &Ext2Fs, dir: u32) -> Vec<String> {
    fs.list_dir(dir).unwrap().iter().map(|n| n.name_str().to_string()).collect()
}

#[test]
fn mount_and_read_file() {
    let fs = mounted();
    assert!(fs.mounted());
    assert_eq!(fs.block_size(), 1024);
    assert_eq!(fs.resolve_path(ROOT_INODE, "/hello"), Ok(11));
    let mut buf = [0u8; 16];
    assert_eq!(fs.read_file(11, 0, &mut buf), Ok(5));
    assert_eq!(&buf[..5], b"hello");
    assert_eq!(fs.read_file(11, 3, &mut buf), Ok(2));
    assert_eq!(&buf[..2], b"lo");
    assert_eq!(fs.read_file(11, 9, &mut buf), Ok(0));
}

#[test]
fn mount_refuses_bad_magic_and_short_disk() {
    let mut d = disk_image();
    d[1024 + 56] = 0;
    assert_eq!(Ext2Fs::mount(d).err(), Some(Ext2Error::BadMagic));
    assert_eq!(Ext2Fs::mount(vec![0u8; 1000]).err(), Some(Ext2Error::SuperblockRead));
}

#[test]
fn list_root_directory() {
    let fs = mounted();
    assert_eq!(names(&fs, ROOT_INODE), vec![".", "..", "hello", "prog"]);
    assert_eq!(fs.list_dir(11).err(), Some(Ext2Error::NotDirectory));
}

#[test]
fn touch_creates_then_stamps() {
    let mut fs = mounted();
    assert_eq!(fs.touch(ROOT_INODE, "new.txt", 0), Ok(12));
    assert_eq!(fs.resolve_path(ROOT_INODE, "/new.txt"), Ok(12));
    // Touching an existing file keeps its inode.
    assert_eq!(fs.touch(ROOT_INODE, "/new.txt", 5), Ok(12));
    assert_eq!(fs.touch(ROOT_INODE, "..", 0), Err(Ext2Error::BadName));
    assert_eq!(fs.touch(ROOT_INODE, "/", 0), Err(Ext2Error::InvalidPath));
    assert_eq!(fs.touch(ROOT_INODE, "/x/", 0), Err(Ext2Error::InvalidName));
}

#[test]
fn mkdir_then_lookup_and_list() {
    let mut fs = mounted();
    assert_eq!(fs.mkdir(ROOT_INODE, "/d", 0), Ok(12));
    assert_eq!(fs.resolve_path(ROOT_INODE, "/d"), Ok(12));
    assert_eq!(names(&fs, 12), vec![".", ".."]);
    assert_eq!(fs.resolve_path(12, ".."), Ok(ROOT_INODE));
    // The parent gains a link and the new directory starts with two.
    assert_eq!(fs.inode_stat(ROOT_INODE).unwrap().nlink, 3);
    assert_eq!(fs.inode_stat(12).unwrap().nlink, 2);
    assert_eq!(fs.inode_stat(12).unwrap().size, 1024);
    assert!(fs.inode_is_dir(12));
}

#[test]
fn mkdir_errors() {
    let mut fs = mounted();
    assert_eq!(fs.mkdir(ROOT_INODE, "/hello", 0), Err(Ext2Error::Exists));
    assert_eq!(fs.mkdir(ROOT_INODE, ".", 0), Err(Ext2Error::BadName));
    assert_eq!(fs.mkdir(ROOT_INODE, "", 0), Err(Ext2Error::InvalidPath));
    assert_eq!(fs.mkdir(ROOT_INODE, "/nope/d", 0), Err(Ext2Error::NotFound));
    let mut blank = Ext2Fs::unmounted();
    assert_eq!(blank.mkdir(ROOT_INODE, "/d", 0), Err(Ext2Error::NotMounted));
}

#[test]
fn mkdir_path_is_trimmed() {
    let mut fs = mounted();
    assert_eq!(fs.mkdir(ROOT_INODE, "  /e \n", 0), Ok(12));
    assert_eq!(fs.resolve_path(ROOT_INODE, "/e"), Ok(12));
}

#[test]
fn rmdir_removes_and_frees() {
    let mut fs = mounted();
    assert_eq!(fs.mkdir(ROOT_INODE, "/d", 0), Ok(12));
    assert_eq!(fs.rmdir(ROOT_INODE, "/d", 0), Ok(()));
    assert_eq!(fs.resolve_path(ROOT_INODE, "/d"), Err(Ext2Error::NotFound));
    assert_eq!(fs.inode_stat(ROOT_INODE).unwrap().nlink, 2);
    // The freed inode is the first one handed out again.
    assert_eq!(fs.mkdir(ROOT_INODE, "/again", 0), Ok(12));
}

#[test]
fn rmdir_errors() {
    let mut fs = mounted();
    assert_eq!(fs.rmdir(ROOT_INODE, "/hello", 0), Err(Ext2Error::NotDirectory));
    assert_eq!(fs.rmdir(ROOT_INODE, "/missing", 0), Err(Ext2Error::NotFound));
    assert_eq!(fs.mkdir(ROOT_INODE, "/d", 0), Ok(12));
    assert_eq!(fs.touch(ROOT_INODE, "/d/f", 0), Ok(13));
    assert_eq!(fs.rmdir(ROOT_INODE, "/d", 0), Err(Ext2Error::NotEmpty));
    assert_eq!(fs.rmdir(ROOT_INODE, "..", 0), Err(Ext2Error::BadName));
}

#[test]
fn unlink_removes_file() {
    let mut fs = mounted();
    assert_eq!(fs.unlink(ROOT_INODE, "/hello", 0), Ok(()));
    assert_eq!(fs.resolve_path(ROOT_INODE, "/hello"), Err(Ext2Error::NotFound));
    assert_eq!(names(&fs, ROOT_INODE), vec![".", "..", "prog"]);
    // Its inode is free again.
    assert_eq!(fs.touch(ROOT_INODE, "/n", 0), Ok(11));
}

#[test]
fn unlink_errors() {
    let mut fs = mounted();
    assert_eq!(fs.unlink(ROOT_INODE, "/missing", 0), Err(Ext2Error::NotFound));
    assert_eq!(fs.mkdir(ROOT_INODE, "/d", 0), Ok(12));
    assert_eq!(fs.unlink(ROOT_INODE, "/d", 0), Err(Ext2Error::IsDirectory));
    assert_eq!(fs.unlink(ROOT_INODE, "/", 0), Err(Ext2Error::InvalidPath));
}

#[test]
fn free_block_twice_is_harmless() {
    let mut fs = mounted();
    assert_eq!(fs.free_block(0), Err(Ext2Error::BadBlockFree));
    assert_eq!(fs.free_inode(0), Err(Ext2Error::BadIno));
    assert_eq!(fs.free_block(9), Ok(()));
    assert_eq!(fs.free_block(9), Ok(()));
    // Block 9 is the first free block again.
    assert_eq!(fs.alloc_block(), Ok(9));
}

#[test]
fn chdir_and_getcwd() {
    let mut fs = mounted();
    assert_eq!(fs.mkdir(ROOT_INODE, "/d", 0), Ok(12));
    let cwd = chdir(&fs, ROOT_INODE, "d").unwrap();
    assert_eq!(cwd, 12);
    let mut out = [0u8; 64];
    let n = getcwd_pretty(&fs, cwd, &mut out);
    assert_eq!(&out[..n], b"/d");
    assert_eq!(chdir(&fs, ROOT_INODE, "hello"), Err(Ext2Error::NotDirectory));
}

#[test]
fn vfs_path_mutations() {
    let mut vfs = Vfs::new();
    vfs.attach_fs(mounted());
    assert_eq!(vfs_mkdir(&mut vfs, ROOT_INODE, "/proc/x", 0), Err(VfsError::Inval));
    assert_eq!(vfs_mkdir(&mut vfs, 0xF000_0001, "x", 0), Err(VfsError::Inval));
    assert_eq!(vfs_mkdir(&mut vfs, ROOT_INODE, "/hello", 0), Err(VfsError::Exist));
    assert_eq!(vfs_mkdir(&mut vfs, ROOT_INODE, "/d", 0), Ok(()));
    assert_eq!(vfs_unlink(&mut vfs, ROOT_INODE, "/d", 0), Err(VfsError::IsDir));
    assert_eq!(vfs_rmdir(&mut vfs, ROOT_INODE, "/zzz", 0), Err(VfsError::NoEnt));
    assert_eq!(vfs_rmdir(&mut vfs, ROOT_INODE, "/hello", 0), Err(VfsError::NotDir));
    assert_eq!(vfs_rmdir(&mut vfs, ROOT_INODE, "/d", 0), Ok(()));
    assert_eq!(vfs_unlink(&mut vfs, ROOT_INODE, "/hello", 0), Ok(()));
    assert_eq!(vfs.fs().resolve_path(ROOT_INODE, "/hello"), Err(Ext2Error::NotFound));
    let mut bare = Vfs::new();
    assert_eq!(vfs_mkdir(&mut bare, ROOT_INODE, "/d", 0), Err(VfsError::NoEnt));
}

#[test]
fn refuse_virtual_trees() {
    assert_eq!(refuse_virtual_mut("/dev", 2), Err(VfsError::Inval));
    assert_eq!(refuse_virtual_mut("/ram/a", 2), Err(VfsError::Inval));
    assert_eq!(refuse_virtual_mut("/proc", 2), Err(VfsError::Inval));
    assert_eq!(refuse_virtual_mut("/procx", 2), Ok(()));
    assert_eq!(refuse_virtual_mut("a", 2), Ok(()));
    assert_eq!(vfs_err_str(VfsError::NotEmpty), "directory not empty");
    assert_eq!(vfs_err_str(VfsError::NoMem), "fault");
    assert_eq!(vfs_err_str(VfsError::Loop), "too many symlinks");
}

#[test]
fn load_executable_from_disk() {
    let fs = mounted();
    let plan = load_from_ino(&fs, ROOT_INODE, 10, &["prog"], None).expect("loads");
    assert_eq!(plan.image.entry, 0x401000);
    assert_eq!(plan.main_entry, 0x401000);
    assert_eq!(plan.image.brk_start, 0x402000);
    assert_eq!(plan.segments.len(), 1);
    assert_eq!(plan.segments[0].ph.p_vaddr, 0x400000);
    assert_eq!(plan.segments[0].data, elf_image());
    assert!(plan.interp_segments.is_empty());
    assert_eq!(plan.aux.phdr, 0x400040);
    assert_eq!(plan.aux.base, 0);
    // The same image from memory plans the same break and stack.
    let mem = load_bytes(&elf_image(), "prog", None).unwrap();
    assert_eq!(mem.image, plan.image);
    assert_eq!(mem.aux, plan.aux);
}

#[test]
fn load_from_disk_errors() {
    let fs = mounted();
    assert_eq!(load_from_ino(&fs, ROOT_INODE, ROOT_INODE, &["x"], None).err(), Some(ElfError::IsDirectory));
    assert_eq!(load_from_ino(&fs, ROOT_INODE, 11, &["x"], None).err(), Some(ElfError::ShortRead));
    let blank = Ext2Fs::unmounted();
    assert_eq!(load_from_ino(&blank, ROOT_INODE, 10, &["x"], None).err(), Some(ElfError::NoFilesystem));
}

#[test]
fn getcwd_keeps_room_for_the_nul() {
    let mut fs = mounted();
    let c = fs.mkdir(ROOT_INODE, "/c", 0).unwrap();
    let ab = fs.mkdir(c, "ab", 0).unwrap();
    let mut out = [0xFFu8; 3];
    let n = getcwd_pretty(&fs, ab, &mut out);
    assert_eq!(n, 2);
    assert_eq!(out, [b'/', b'c', 0]);
    let mut big = [0xFFu8; 16];
    let n = getcwd_pretty(&fs, ab, &mut big);
    assert_eq!(&big[..n + 1], b"/c/ab\0");
}

#[test]
fn trimmed_path_entry_points() {
    let mut fs = mounted();
    assert_eq!(fs.mkdir_trimmed(ROOT_INODE, b"/t", 0), Ok(12));
    assert_eq!(fs.mkdir_trimmed(ROOT_INODE, b"/t", 0), Err(Ext2Error::Exists));
    assert!(fs.touch_trimmed(ROOT_INODE, b"/t/f", 0).is_ok());
    assert_eq!(fs.rmdir_trimmed(ROOT_INODE, b"/t", 0), Err(Ext2Error::NotEmpty));
    assert_eq!(fs.unlink_trimmed(ROOT_INODE, b"/t/f", 0), Ok(()));
    assert_eq!(fs.rmdir_trimmed(ROOT_INODE, b"/t", 0), Ok(()));
}

#[test]
fn entry_check() {
    assert_eq!(check_entry_mapped(None), Err(ElfError::EntryUnmapped));
    assert_eq!(check_entry_mapped(Some([0, 0, 0])), Err(ElfError::EntryZero));
    assert_eq!(check_entry_mapped(Some([0, 0, 1])), Ok(()));
    assert_eq!(ElfError::EntryZero.as_str(), "elf: entry page zero");
}

#[test]
fn mount_accepts_zero_inodes_per_group() {
    let mut d = disk_image();
    put32(&mut d, 1024 + 40, 0);
    let fs = Ext2Fs::mount(d).expect("mounts without inodes");
    assert!(fs.mounted());
    assert_eq!(fs.read_inode(ROOT_INODE).err(), Some(Ext2Error::BadInode));
}
