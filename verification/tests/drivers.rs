use lib::kpi_irq::{IrqTable, EBUSY, EINVAL, ENOMEM, IRQF_SHARED};
use lib::kpi_pci::{
    bar_phys, cfg_addr, cfg_byte, cfg_word, dev_from_cfg, id_end, id_match, ids_to_walk, pci_find_capability, split_devfn,
    PciBus, PciDeviceId, PCI_ANY,
};
use lib::kpi_sync::{complete, completion_done, completion_timeout_step, msleep_ticks, mutex_try_lock, mutex_unlock, spin_lock, spin_unlock, Completion, Mutex, SpinLock};

#[test]
fn spinlock_and_mutex() {
    let mut l = SpinLock { locked: 0 };
    spin_lock(&mut l);
    assert_eq!(l.locked, 1);
    spin_unlock(&mut l);
    assert_eq!(l.locked, 0);
    let mut m = Mutex { count: 1, wait_lock: SpinLock { locked: 0 } };
    assert!(mutex_try_lock(&mut m));
    assert!(!mutex_try_lock(&mut m));
    mutex_unlock(&mut m);
    assert_eq!(m.count, 1);
    let mut full = Mutex { count: i32::MAX, wait_lock: SpinLock { locked: 0 } };
    mutex_unlock(&mut full);
    assert_eq!(full.count, i32::MAX);
}

#[test]
fn completion_waits() {
    let mut c = Completion { done: 0 };
    assert!(!completion_done(&c));
    assert_eq!(completion_timeout_step(&c, 3, 10), None);
    assert_eq!(completion_timeout_step(&c, 10, 10), Some(0));
    complete(&mut c);
    assert!(completion_done(&c));
    assert_eq!(completion_timeout_step(&c, 3, 10), Some(7));
    assert_eq!(msleep_ticks(1), 1);
    assert_eq!(msleep_ticks(100), 10);
    assert_eq!(msleep_ticks(0), 0);
}

#[test]
fn irq_lines() {
    let mut t = IrqTable::new();
    assert_eq!(t.request_irq(16, Some(1), 0, 0), EINVAL);
    assert_eq!(t.request_irq(5, None, 0, 0), EINVAL);
    assert_eq!(t.request_irq(5, Some(0x1000), 0, 7), 0);
    assert_eq!(t.request_irq(5, Some(0x2000), IRQF_SHARED, 8), EBUSY);
    assert_eq!(t.dispatch(5), vec![(0x1000, 7)]);
    assert!(t.free_irq(5, 7));
    assert!(t.dispatch(5).is_empty());
    assert_eq!(t.request_irq(9, Some(0x1000), IRQF_SHARED, 1), 0);
    assert_eq!(t.request_irq(9, Some(0x2000), IRQF_SHARED, 2), 0);
    assert_eq!(t.request_irq(9, Some(0x3000), IRQF_SHARED, 3), ENOMEM);
    assert_eq!(t.dispatch(9), vec![(0x1000, 1), (0x2000, 2)]);
    assert!(!t.free_irq(9, 1));
    assert_eq!(t.dispatch(9), vec![(0x2000, 2)]);
    assert_eq!(t.request_irq(1, Some(0x1000), 0, 1), 0);
    assert!(!t.free_irq(1, 1));
}

fn virtio_net() -> lib::kpi_pci::PciDev {
    dev_from_cfg(0, 3, 0, 0x1000_1AF4, 0x0200_0000, 0x0001_1AF4, 0x0000_010B).unwrap()
}

#[test]
fn pci_config_decoding() {
    assert_eq!(cfg_addr(0, 3, 0, 0x3D), 0x8000_183C);
    let d = virtio_net();
    assert_eq!(d.vendor, 0x1AF4);
    assert_eq!(d.device, 0x1000);
    assert_eq!(d.class, 0x02_0000);
    assert_eq!(d.subsystem_vendor, 0x1AF4);
    assert_eq!(d.subsystem_device, 1);
    assert_eq!(d.irq, 0x0B);
    assert_eq!(d.devfn, 24);
    assert_eq!(split_devfn(&d), (0, 3, 0));
    assert!(dev_from_cfg(0, 4, 0, 0xFFFF_FFFF, 0, 0, 0).is_none());
    assert_eq!(cfg_byte(0x1122_3344, 0x3D), 0x33);
    assert_eq!(cfg_word(0x1122_3344, 0x06), 0x1122);
    assert_eq!(cfg_word(0x1122_3344, 0x04), 0x3344);
    assert_eq!(bar_phys(0xFEBF_1000, 0), Some(0xFEBF_1000));
    assert_eq!(bar_phys(0xFEBF_100C, 0x1), Some(0x1_FEBF_1000));
    assert_eq!(bar_phys(0xC001, 0), None);
    assert_eq!(bar_phys(0, 0), None);
}

#[test]
fn pci_matching_and_binding() {
    let id = PciDeviceId { vendor: 0x1AF4, device: 0x1000, subvendor: PCI_ANY, subdevice: PCI_ANY, class: 0, class_mask: 0, driver_data: 0 };
    let end = PciDeviceId { vendor: 0, device: 0, subvendor: 0, subdevice: 0, class: 0, class_mask: 0, driver_data: 0 };
    let d = virtio_net();
    assert!(id_match(&id, &d));
    assert!(!id_match(&PciDeviceId { device: 0x1001, ..id }, &d));
    assert!(id_match(&PciDeviceId { vendor: PCI_ANY, device: PCI_ANY, class: 0x02_0000, class_mask: 0xFF_0000, ..id }, &d));
    assert!(id_end(&end));
    assert_eq!(ids_to_walk(&[id, id, end, id]), 2);
    let mut bus = PciBus::new();
    bus.push_dev(d);
    bus.push_dev(dev_from_cfg(0, 4, 0, 0x1001_1AF4, 0x0100_0000, 0, 0x0A).unwrap());
    assert_eq!(bus.ndev(), 2);
    assert_eq!(bus.probe_candidates(&id), vec![0]);
    assert!(bus.bind(0, 77));
    assert!(bus.probe_candidates(&id).is_empty());
    assert_eq!(bus.unregister_driver(77), vec![0]);
    assert_eq!(bus.probe_candidates(&id), vec![0]);
}

#[test]
fn pci_capability_list() {
    let mut cfg = [0u8; 256];
    cfg[6] = 0x10;
    cfg[0x34] = 0x40;
    cfg[0x40] = 0x09;
    cfg[0x41] = 0x50;
    cfg[0x50] = 0x11;
    cfg[0x51] = 0x00;
    assert_eq!(pci_find_capability(&cfg, 0x11), 0x50);
    assert_eq!(pci_find_capability(&cfg, 0x09), 0x40);
    assert_eq!(pci_find_capability(&cfg, 0x05), 0);
    cfg[6] = 0;
    assert_eq!(pci_find_capability(&cfg, 0x11), 0);
}

#[test]
fn ide_sector_check_order() {
    assert_eq!(lib::ide::sector_check(511, true), Err(lib::ide::IdeError::BufferTooSmall));
    assert_eq!(lib::ide::sector_check(100, false), Err(lib::ide::IdeError::BufferTooSmall));
    assert_eq!(lib::ide::sector_check(512, false), Err(lib::ide::IdeError::NoDisk));
    assert_eq!(lib::ide::sector_check(4096, true), Ok(()));
    assert_eq!(lib::ide::IdeError::BufferTooSmall.as_str(), "buffer too small");
    assert_eq!(lib::ide::sector_size(), 512);
}

#[test]
fn ide_sectors_plan_checks_before_any_transfer() {
    assert_eq!(lib::ide::sectors_plan(2, 2, 1023), Err(lib::ide::IdeError::BufferTooSmall));
    assert_eq!(lib::ide::sectors_plan(2, 2, 1024), Ok(vec![(2, 0), (3, 512)]));
    assert_eq!(lib::ide::sectors_plan(7, 0, 0), Ok(vec![]));
}
