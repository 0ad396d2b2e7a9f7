use lib::paging::Mmu;
use lib::pmm::{FrameAllocator, KernelLayout, MmapEntry, MultibootInfo, PhysAddr};

fn small_machine() -> (Mmu, FrameAllocator) {
    let mut a = FrameAllocator::new();
    let info = MultibootInfo {
        mmap: vec![
            MmapEntry { base_addr: 0, length: 0x9F000, typ: 1, reserved: 0 },
            MmapEntry { base_addr: 0x10_0000, length: 0x30_0000, typ: 1, reserved: 0 },
        ],
        mem_upper_kib: None,
        has_mmap: true,
        mmap_addr: 0x9000,
        mmap_length: 48,
    };
    let layout = KernelLayout { kernel_end: 0x18_0000, stack_bottom: 0x17_0000, stack_top: 0x17_8000 };
    a.init(0x8000, Some(&info), &layout);
    assert!(a.is_initialized());
    let mmu = Mmu::new(a.total_frames());
    (mmu, a)
}

#[test]
fn fresh_mmu_has_no_tables() {
    let mut m = Mmu::new(8);
    assert!(!m.is_enabled());
    assert_eq!(m.page_directory_phys(), None);
    assert_eq!(m.kernel_cr3(), 0);
    assert_eq!(m.current_cr3(), 0);
    assert_eq!(m.virt_to_phys(0x40_0000), None);
    assert_eq!(m.virt_to_phys_in(0, 0x1000), None);
    m.unmap_page(0x40_0000);
    assert_eq!(m.virt_to_phys(0x40_0000), None);
}

#[test]
fn init_identity_maps_low_memory() {
    let (mut m, mut a) = small_machine();
    let used = a.used_frames();
    m.init(&mut a, 0x18_0000);
    assert!(m.is_enabled());
    let root = m.page_directory_phys().unwrap();
    assert_eq!(m.kernel_cr3(), root);
    assert_eq!(m.current_cr3(), root);
    // root, one PDPT, one PD
    assert_eq!(a.used_frames(), used + 3);
    assert_eq!(m.virt_to_phys(0x10_0000), Some(0x10_0000));
    assert_eq!(m.virt_to_phys(0x12_3456), Some(0x12_3456));
    // 0x18_0000 rounded up plus 16 MiB, to 2 MiB: 18 MiB
    assert_eq!(m.virt_to_phys(0x11F_FFFF), Some(0x11F_FFFF));
    assert_eq!(m.virt_to_phys(0x120_0000), None);
    assert_eq!(m.virt_to_phys(0x4000_0000), None);
    // a second init does nothing
    m.init(&mut a, 0x18_0000);
    assert_eq!(m.page_directory_phys(), Some(root));
    assert_eq!(a.used_frames(), used + 3);
}

#[test]
fn map_then_translate_then_unmap() {
    let (mut m, mut a) = small_machine();
    m.init(&mut a, 0x18_0000);
    let root = m.page_directory_phys().unwrap();
    // a fresh region needs a new PD and page table
    m.map_page(&mut a, 0x4000_0000, PhysAddr(0x30_0000), 7);
    assert_eq!(m.virt_to_phys(0x4000_0123), Some(0x30_0123));
    assert_eq!(m.virt_to_phys_in(root, 0x4000_1000), None);
    // mapping inside a 2 MiB page splits it and keeps its neighbours
    m.map_page_in(&mut a, root, 0x20_1000, PhysAddr(0x31_0000), 3);
    assert_eq!(m.virt_to_phys(0x20_1010), Some(0x31_0010));
    assert_eq!(m.virt_to_phys(0x20_2000), Some(0x20_2000));
    assert_eq!(m.virt_to_phys(0x20_0FFF), Some(0x20_0FFF));
    m.unmap_page(0x20_1000);
    assert_eq!(m.virt_to_phys(0x20_1010), None);
    assert_eq!(m.virt_to_phys(0x20_3000), Some(0x20_3000));
    // unmapping inside a 2 MiB page is refused
    m.unmap_page(0x60_0000);
    assert_eq!(m.virt_to_phys(0x60_0000), Some(0x60_0000));
    // unaligned addresses are ignored
    m.unmap_page(0x4000_0001);
    assert_eq!(m.virt_to_phys(0x4000_0000), Some(0x30_0000));
}

#[test]
fn create_page_maps_a_new_frame() {
    let (mut m, mut a) = small_machine();
    m.init(&mut a, 0x18_0000);
    let used = a.used_frames();
    let f = m.create_page(&mut a, 0x5000_0000, 3);
    assert!(f.is_aligned());
    assert_eq!(m.virt_to_phys(0x5000_0042), Some(f.0 as u64 + 0x42));
    // the data frame plus a PD and a page table
    assert_eq!(a.used_frames(), used + 3);
}

#[test]
fn switch_to_zero_is_a_no_op() {
    let (mut m, mut a) = small_machine();
    m.init(&mut a, 0x18_0000);
    let root = m.current_cr3();
    m.switch_mm(0);
    assert_eq!(m.current_cr3(), root);
    m.switch_mm(root);
    assert_eq!(m.page_directory_phys(), Some(root));
}

#[test]
fn tables_needed_counts_missing_levels() {
    let (mut m, mut a) = small_machine();
    m.init(&mut a, 0x18_0000);
    let root = m.page_directory_phys().unwrap();
    // new PML4 slot: PDPT, PD and page table
    assert_eq!(m.tables_needed(root, 0x80_0000_0000), 3);
    // same PDPT, new PD and page table
    assert_eq!(m.tables_needed(root, 0x4000_0000), 2);
    // inside a 2 MiB page: the split
    assert_eq!(m.tables_needed(root, 0x20_1000), 1);
    let used = a.used_frames();
    m.map_page(&mut a, 0x4000_0000, PhysAddr(0x30_0000), 3);
    assert_eq!(a.used_frames(), used + 2);
    // the page table is there now
    assert_eq!(m.tables_needed(root, 0x4000_1000), 0);
    m.map_page(&mut a, 0x4000_1000, PhysAddr(0x30_1000), 3);
    assert_eq!(a.used_frames(), used + 2);
    assert_eq!(m.virt_to_phys(0x4000_1008), Some(0x30_1008));
}
