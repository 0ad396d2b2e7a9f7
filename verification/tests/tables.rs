use lib::console::Console;
use lib::fd::{vfs_to_fd, FdError, FdSystem, FdTable, File};
use lib::net::{arp_request, NetState, EBUSY, GUEST_IP};
use lib::pipe::PipeTable;
use lib::pmm::{FrameAllocator, KernelLayout, MmapEntry, MultibootInfo};
use lib::pty::{parse_index, PtyTable};
use lib::ramfs::RamFs;
use lib::vcore::{is_virtual_ino, Vfs, VfsError};

#[test]
fn dup_shares_the_open_file() {
    let mut t = FdTable::new();
    assert_eq!(t.install(File::console_stdout()), Ok(0));
    assert_eq!(t.dup_fd(0), Ok(1));
    assert_eq!(t.get(1), t.get(0));
    assert_eq!(t.open_count(), 2);
    assert_eq!(t.dup_fd(7), Err(FdError::BadFd));
}

#[test]
fn close_then_install_reuses_the_lowest_fd() {
    let mut t = FdTable::new();
    let mut pipes = PipeTable::new();
    t.install_stdio();
    assert_eq!(t.open_count(), 3);
    assert!(t.close(1, &mut pipes));
    assert!(!t.close(1, &mut pipes));
    assert!(t.get(1).is_none());
    assert_eq!(t.install(File::console_stdout()), Ok(1));
    assert_eq!(t.install_at_least(10, File::console_stdout()), Ok(10));
}

#[test]
fn dup2_replaces_target() {
    let mut t = FdTable::new();
    let mut pipes = PipeTable::new();
    t.install_stdio();
    assert_eq!(t.dup2_fd(0, 5, &mut pipes), Ok(5));
    assert_eq!(t.get(5), t.get(0));
    assert_eq!(t.dup2_fd(0, 0, &mut pipes), Ok(0));
    assert_eq!(t.dup2_fd(9, 2, &mut pipes), Err(FdError::BadFd));
}

#[test]
fn pipe_fds_and_close_releases_ends() {
    let mut t = FdTable::new();
    let mut pipes = PipeTable::new();
    let (r, w) = t.pipe_open(&mut pipes).unwrap();
    assert_eq!((r, w), (0, 1));
    assert_eq!(pipes.poll_state(0), Some((false, true, false, false)));
    assert!(t.close(w, &mut pipes));
    // With the writer gone the reader sees end of file.
    assert_eq!(pipes.poll_state(0), Some((true, true, true, false)));
}

#[test]
fn fd_errors_from_vfs_errors() {
    assert_eq!(vfs_to_fd(VfsError::NoDev), FdError::NoMem);
    assert_eq!(vfs_to_fd(VfsError::NotEmpty), FdError::Inval);
    assert_eq!(vfs_to_fd(VfsError::Loop), FdError::Loop);
    assert!(is_virtual_ino(0xF000_0004));
    assert!(!is_virtual_ino(2));
}

#[test]
fn ramfs_write_then_read() {
    let mut fs = RamFs::new();
    let f = fs.open("/ram/note", 0o100, true, true).unwrap();
    assert_eq!(fs.write(&f, b"abc"), Ok(3));
    let mut buf = [0u8; 8];
    assert_eq!(fs.read(&f, &mut buf), Ok(3));
    assert_eq!(&buf[..3], b"abc");
    assert_eq!(fs.open("/ram/missing", 0, true, false).err(), Some(VfsError::NoEnt));
    assert_eq!(fs.open("/ram", 0, true, false).err(), Some(VfsError::IsDir));
}

#[test]
fn frame_alloc_then_free_restores() {
    let mut a = FrameAllocator::new();
    let info = MultibootInfo {
        mmap: vec![
            MmapEntry { base_addr: 0, length: 0x9F000, typ: 1, reserved: 0 },
            MmapEntry { base_addr: 0x10_0000, length: 0x1000_0000, typ: 1, reserved: 0 },
        ],
        mem_upper_kib: Some(0x40000),
        has_mmap: true,
        mmap_addr: 0x9000,
        mmap_length: 48,
    };
    let layout = KernelLayout { kernel_end: 0x30_0000, stack_bottom: 0x28_0000, stack_top: 0x29_0000 };
    a.init(0x8000, Some(&info), &layout);
    assert!(a.is_initialized());
    assert_eq!(a.used_frames() + a.free_frames(), a.total_frames());
    let used = a.used_frames();
    let f = a.alloc_frame().unwrap();
    assert!(f.is_aligned());
    assert_eq!(a.used_frames(), used + 1);
    a.free_frame(f);
    assert_eq!(a.used_frames(), used);
    assert_eq!(a.alloc_frame(), Some(f));
    a.free_frame(f);
    let p = a.phys_alloc(3 * 4096 + 1).unwrap();
    assert_eq!(a.phys_size(p), Some(4 * 4096));
    assert_eq!(a.used_frames(), used + 4);
    a.phys_free(p);
    assert_eq!(a.used_frames(), used);
}

#[test]
fn pty_numbers() {
    let mut t = PtyTable::new();
    assert_eq!(t.open_master(), Ok(0));
    assert!(t.is_used(0));
    assert!(t.is_locked(0));
    assert_eq!(parse_index("3"), Some(3));
    assert_eq!(parse_index("x"), None);
}

#[test]
fn arp_for_our_address_is_answered() {
    let mut n = NetState::new();
    let mac = [2, 0, 0, 0, 0, 1];
    assert_eq!(n.register_nic(mac), 0);
    assert_eq!(n.register_nic(mac), EBUSY);
    let peer = [2, 0, 0, 0, 0, 9];
    let mut req = arp_request(&peer, GUEST_IP);
    req[28..32].copy_from_slice(&[10, 0, 2, 2]);
    let reply = n.netif_rx(&req).expect("answered");
    assert_eq!(&reply[0..6], &peer);
    assert_eq!(&reply[6..12], &mac);
    assert_eq!(&reply[20..22], &[0, 2]);
    assert_eq!(&reply[28..32], &[10, 0, 2, 15]);
    assert_eq!(&reply[38..42], &[10, 0, 2, 2]);
    let other = arp_request(&peer, 0x0A00_0203);
    assert!(n.netif_rx(&other).is_none());
}

#[test]
fn pipe_with_one_free_descriptor_gives_the_slot_back() {
    let mut t = FdTable::new();
    let mut pipes = PipeTable::new();
    for _ in 0..31 {
        t.install(File::console_stdout()).unwrap();
    }
    assert_eq!(t.pipe_open(&mut pipes), Err(FdError::NoMem));
    assert!(t.get(31).is_none());
    assert_eq!(pipes.poll_state(0), None);
    assert!(t.close(30, &mut pipes));
    assert_eq!(t.pipe_open(&mut pipes), Ok((30, 31)));
    assert!(pipes.poll_state(0).is_some());
}

#[test]
fn pipe_with_no_free_descriptor_changes_nothing() {
    let mut t = FdTable::new();
    let mut pipes = PipeTable::new();
    for _ in 0..32 {
        t.install(File::console_stdout()).unwrap();
    }
    assert_eq!(t.pipe_open(&mut pipes), Err(FdError::NoMem));
    assert_eq!(t.open_count(), 32);
    assert_eq!(pipes.poll_state(0), None);
}

#[test]
fn lseek_end_uses_the_ramfs_file_length() {
    let mut fds = FdSystem::new(2);
    fds.init();
    let mut vfs = Vfs::new();
    vfs.init_after_ext2();
    let mut con = Console::new();
    // O_RDWR | O_CREAT
    let fd = fds.open_path(0, &mut vfs, 2, 0, "/ram/len", 0o102).unwrap() as u64;
    assert_eq!(fds.sys_write_slice(0, fd, b"hello", &mut vfs, &mut con), Ok(5));
    assert_eq!(fds.sys_lseek(0, fd, 0, 2, &vfs), Ok(5));
    assert_eq!(fds.sys_lseek(0, fd, -2, 2, &vfs), Ok(3));
    assert_eq!(fds.sys_lseek(0, fd, -6, 2, &vfs), Err(FdError::Inval));
}
