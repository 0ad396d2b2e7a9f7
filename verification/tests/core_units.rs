use lib::blockdev::{BlkError, BlockRegistry};
use lib::console::Console;
use lib::exceptions::{exception_detail, exception_handler, exception_name, ExceptionFrame};
use lib::export::{count, lookup, name_at};
use lib::gdt::{entry_count, tss_descriptor, GdtEntry, Tss};
use lib::heap::{heap_start, KERNEL_HEAP_START};
use lib::idt::{Idt, IdtEntry};
use lib::kbd::{handle_key_press, poll_to_keyboard, KeyBuffer, KeyboardState};
use lib::keycode::{decode_set1_scancode, KeyCode, KeyEvent, Modifiers, MOD_ALT, MOD_CTRL};
use lib::mnx::{load_from_bytes, MnxError};
use lib::module::{format_mod_file_path, is_elf, strip_mod_suffix, ModuleError, ModuleTable};
use lib::net::{arp_request, checksum};
use lib::pipe::{PipeTable, EAGAIN, EBADF, EINVAL, EPIPE};
use lib::ring::Ring;
use lib::signal::{SignalTable, SIG_GPF, SIG_PAGEFAULT};
use lib::termios::{fill_default_termios, termios_cc, termios_u32, TERMIOS_LEN, VEOF, VERASE};
use lib::timer::{pit_divisor, Timer};

#[test]
fn ring_is_fifo() {
    let mut r = Ring::new(4);
    assert_eq!(r.push(b"abc"), 3);
    assert_eq!(r.push(b"xyz"), 1);
    assert_eq!(r.len(), 4);
    let mut out = [0u8; 2];
    assert_eq!(r.pop(&mut out), 2);
    assert_eq!(&out, b"ab");
    assert_eq!(r.push(b"de"), 2);
    let mut out = [0u8; 8];
    assert_eq!(r.pop(&mut out), 4);
    assert_eq!(&out[..4], b"cxde");
    assert_eq!(r.len(), 0);
    assert_eq!(r.cap(), 4);
}

#[test]
fn pipe_write_then_read() {
    let mut p = PipeTable::new();
    let id = p.alloc_pipe().unwrap();
    assert_eq!(id, 0);
    assert_eq!(p.alloc_pipe().unwrap(), 1);
    let mut buf = [0u8; 8];
    assert_eq!(p.read(id, &mut buf), Err(EAGAIN));
    assert_eq!(p.write(id, b"hey"), Ok(3));
    assert_eq!(p.poll_state(id), Some((true, true, false, false)));
    assert_eq!(p.read(id, &mut buf), Ok(3));
    assert_eq!(&buf[..3], b"hey");
    p.close_writer(id);
    assert_eq!(p.read(id, &mut buf), Ok(0));
    p.close_reader(id);
    assert_eq!(p.write(id, b"x"), Err(EBADF));
    assert_eq!(p.read(99, &mut buf), Err(EINVAL));
}

#[test]
fn pipe_without_reader_refuses_writes() {
    let mut p = PipeTable::new();
    let id = p.alloc_pipe().unwrap();
    p.close_reader(id);
    assert_eq!(p.write(id, b"x"), Err(EPIPE));
    assert_eq!(p.write(id, b""), Ok(0));
}

#[test]
fn default_termios_fields() {
    let mut t = [0u8; TERMIOS_LEN];
    fill_default_termios(&mut t);
    assert_eq!(termios_u32(&t, 0), 0o400 | 0o2000);
    assert_eq!(termios_cc(&t, VERASE), 0x7F);
    assert_eq!(termios_cc(&t, VEOF), 4);
}

#[test]
fn key_buffer_and_serial_input() {
    let mut k = KeyBuffer::new();
    poll_to_keyboard(&mut k, &[b'a', 0x7F, 0x01, b'\n', 0xC3]);
    assert_eq!(k.buffered_len(), 3);
    assert_eq!(k.pop_char(), Some(b'a'));
    assert_eq!(k.pop_char(), Some(8));
    assert_eq!(k.pop_char(), Some(b'\n'));
    assert_eq!(k.pop_char(), None);
}

#[test]
fn key_buffer_keeps_newest_128() {
    let mut k = KeyBuffer::new();
    for i in 0..200u32 {
        k.inject_char((i % 256) as u8);
    }
    assert_eq!(k.buffered_len(), 128);
    assert_eq!(k.pop_char(), Some(72));
}

#[test]
fn inject_then_pop_gives_the_text_back() {
    let mut k = KeyBuffer::new();
    k.inject_str(b"ls\n");
    assert_eq!(k.pop_char(), Some(b'l'));
    assert_eq!(k.pop_char(), Some(b's'));
    assert_eq!(k.pop_char(), Some(b'\n'));
}

#[test]
fn key_presses() {
    let mut k = KeyBuffer::new();
    let ev = KeyEvent { key: KeyCode::Delete, pressed: true };
    assert!(handle_key_press(&mut k, ev, Modifiers(MOD_CTRL | MOD_ALT), None));
    assert_eq!(k.buffered_len(), 0);
    assert!(!handle_key_press(&mut k, ev, Modifiers(0), None));
    assert_eq!(k.pop_char(), Some(0x7F));
    let a = KeyEvent { key: KeyCode::A, pressed: true };
    assert!(!handle_key_press(&mut k, a, Modifiers(0), Some('a')));
    assert_eq!(k.pop_char(), Some(b'a'));
    assert!(!handle_key_press(&mut k, a, Modifiers(MOD_CTRL), Some('a')));
    assert_eq!(k.pop_char(), None);
}

#[test]
fn scancodes() {
    let e = decode_set1_scancode(0x1E, false).unwrap();
    assert_eq!(e.key, KeyCode::A);
    assert!(e.pressed);
    let r = decode_set1_scancode(0x9E, false).unwrap();
    assert!(!r.pressed);
    let mut st = KeyboardState::new();
    assert!(st.on_scancode(0x2A).is_some());
    let (ev, m) = st.on_scancode(0x1E).unwrap();
    assert_eq!(ev.key, KeyCode::A);
    assert!(m.shift());
    assert!(st.on_scancode(0xAA).is_none());
    assert!(st.on_scancode(0xE0).is_none());
    assert!(st.extended);
}

#[test]
fn console_prints_and_wraps() {
    let mut c = Console::new();
    assert_eq!(c.cell_at(0), 0x0720);
    c.print("hi");
    assert_eq!(c.cell_at(0), 0x0768);
    assert_eq!(c.cell_at(1), 0x0769);
    assert_eq!(c.cursor_pos(), (0, 2));
    c.println("");
    assert_eq!(c.cursor_pos(), (1, 0));
    c.write_u64(1234);
    assert_eq!(c.cell_at(80), 0x0731);
    assert_eq!(c.cell_at(83), 0x0734);
    c.clear();
    assert_eq!(c.cursor_pos(), (0, 0));
    assert_eq!(c.cell_at(80), 0x0720);
}

#[test]
fn console_scrolls_at_the_bottom() {
    let mut c = Console::new();
    c.print("A");
    for _ in 0..25 {
        c.put_char(b'\n');
    }
    assert_eq!(c.cursor_pos(), (24, 0));
    // The first line scrolled off the top.
    assert_eq!(c.cell_at(0), 0x0720);
}

#[test]
fn timer_counts_and_converts() {
    let mut t = Timer::new();
    t.tick();
    t.tick();
    assert_eq!(t.ticks(), 2);
    assert_eq!(t.uptime_ns(), 20_000_000);
    assert_eq!(pit_divisor(), 11931);
}

#[test]
fn gdt_and_tss() {
    assert_eq!(entry_count(), 5);
    let d = tss_descriptor(0x1234_5678_9ABC_DEF0, 103);
    assert_eq!(d.limit_low, 103);
    assert_eq!(d.base_low, 0xDEF0);
    assert_eq!(d.base_middle, 0xBC);
    assert_eq!(d.base_high, 0x9A);
    assert_eq!(d.base_upper, 0x1234_5678);
    assert_eq!(d.access, 0x89);
    let code = GdtEntry::kernel_code64();
    assert_eq!(code.access, 0x9A);
    let mut tss = Tss::new(0x9000, 0xA000);
    tss.set_kernel_stack(0x5000);
    assert_eq!(tss.tss_rsp0(), 0x5000);
}

#[test]
fn idt_gates() {
    let e = IdtEntry::from_handler(0x1122_3344_5566_7788, 9);
    assert_eq!(e.offset_low, 0x7788);
    assert_eq!(e.offset_mid, 0x5566);
    assert_eq!(e.offset_high, 0x1122_3344);
    assert_eq!(e.ist, 1);
    assert_eq!(e.selector, 0x08);
    assert_eq!(e.type_attr, 0x8E);
    let mut t = Idt::init_idt();
    assert_eq!(t.present_gate_count(), 0);
    t.register_interrupt_handler(33, 0x4000);
    t.register_gate(14, 0x5000, 1);
    assert_eq!(t.present_gate_count(), 2);
    assert_eq!(t.gate(33).offset_low, 0x4000);
    assert_eq!(t.gate(14).ist, 1);
    assert!(!t.gate(0).is_present());
}

#[test]
fn signals_queue_and_deliver() {
    let mut s = SignalTable::new();
    assert!(s.register_signal_handler(2));
    assert!(s.schedule_signal(2));
    assert!(s.schedule_signal(5));
    assert!(!s.schedule_signal(99));
    assert_eq!(s.pending_count(), 2);
    assert_eq!(s.process_signals(), vec![2]);
    assert_eq!(s.pending_count(), 0);
    assert!(!s.has_pending());
    assert_eq!(s.delivered_count(), 1);
    assert!(s.unregister_signal_handler(2));
    assert!(!s.has_handler(2));
}

#[test]
fn page_fault_report_and_signal() {
    let f = ExceptionFrame {
        edi: 1,
        esi: 2,
        ebp: 3,
        esp_dummy: 0,
        ebx: 4,
        edx: 5,
        ecx: 6,
        eax: 7,
        vector: 14,
        error_code: 6,
        eip: 0xdead_beef,
        cs: 8,
        eflags: 0x202,
    };
    let text = String::from_utf8(exception_detail(&f, 0x1000)).unwrap();
    assert!(text.starts_with("Page fault (#PF)\n  vector=14 error=0x00000006\n  EIP=0xdeadbeef"));
    assert!(text.ends_with("\n  CR2(fault addr)=0x00001000\n  #PF bits: not-present write user"));
    assert_eq!(exception_name(0), "Divide-by-zero (#DE)");
    assert_eq!(exception_name(40), "Unknown exception");
    let mut sig = SignalTable::new();
    assert!(sig.register_signal_handler(SIG_PAGEFAULT));
    let rep = exception_handler(&f, 0x1000, &mut sig);
    assert_eq!(rep.run, vec![SIG_PAGEFAULT]);
    let gp = ExceptionFrame { vector: 13, ..f };
    let rep = exception_handler(&gp, 0, &mut sig);
    assert!(rep.run.is_empty());
    assert!(!String::from_utf8(rep.detail).unwrap().contains("CR2"));
    assert_eq!(SIG_GPF, 13);
}

#[test]
fn checksum_values() {
    assert_eq!(checksum(&[]), 0xFFFF);
    assert_eq!(checksum(&[0x00, 0x01, 0xf2, 0x03]), !0xf204u16);
    // A header with its checksum filled in sums to zero.
    let hdr = [0x45u8, 0x00, 0x00, 0x1c, 0x00, 0x00, 0x00, 0x00, 0x40, 0x01, 0x00, 0x00, 10, 0, 2, 15, 10, 0, 2, 2];
    let c = checksum(&hdr);
    let mut with = hdr;
    with[10] = (c >> 8) as u8;
    with[11] = (c & 0xFF) as u8;
    assert_eq!(checksum(&with), 0);
}

#[test]
fn arp_request_frame() {
    let mac = [0x52, 0x54, 0, 0x12, 0x34, 0x56];
    let f = arp_request(&mac, 0x0A00_0202);
    assert_eq!(f.len(), 42);
    assert_eq!(&f[0..6], &[0xFF; 6]);
    assert_eq!(&f[6..12], &mac);
    assert_eq!(&f[12..14], &[0x08, 0x06]);
    assert_eq!(&f[38..42], &[10, 0, 2, 2]);
}

#[test]
fn export_table() {
    assert_eq!(count(), 32);
    assert_eq!(name_at(4), Some("printk"));
    assert_eq!(name_at(32), None);
    assert_eq!(lookup(b"kmalloc"), Some(5));
    assert_eq!(lookup(b"nope"), None);
}

fn mnx_image(name: &str, code_len: u32, sym: &str) -> Vec<u8> {
    let mut d = vec![0u8; 48 + code_len as usize + 36];
    d[0..4].copy_from_slice(&0x3158_4E4Du32.to_le_bytes());
    d[4..4 + name.len()].copy_from_slice(name.as_bytes());
    d[32..36].copy_from_slice(&code_len.to_le_bytes());
    d[36..40].copy_from_slice(&0u32.to_le_bytes());
    d[40..44].copy_from_slice(&0xFFFF_FFFFu32.to_le_bytes());
    d[44..48].copy_from_slice(&1u32.to_le_bytes());
    let ro = 48 + code_len as usize;
    d[ro..ro + 4].copy_from_slice(&0u32.to_le_bytes());
    d[ro + 4..ro + 4 + sym.len()].copy_from_slice(sym.as_bytes());
    d
}

#[test]
fn mnx_images() {
    let m = load_from_bytes(&mnx_image("echo", 16, "printk")).unwrap();
    assert_eq!(m.name_str(), "echo");
    assert_eq!(m.code_len, 16);
    assert_eq!(m.exit_off, None);
    assert_eq!(m.relocs, vec![(0usize, 4usize)]);
    assert_eq!(load_from_bytes(&mnx_image("echo", 16, "nosuch")).err(), Some(MnxError::Unresolved));
    assert_eq!(load_from_bytes(&mnx_image("", 16, "printk")).err(), Some(MnxError::BadName));
    assert_eq!(load_from_bytes(&mnx_image("echo", 0, "printk")).err(), Some(MnxError::BadCode));
    assert_eq!(load_from_bytes(&[0u8; 10]).err(), Some(MnxError::Truncated));
    let mut bad = mnx_image("echo", 16, "printk");
    bad[0] = 0;
    assert_eq!(load_from_bytes(&bad).err(), Some(MnxError::BadMagic));
    assert_eq!(MnxError::Unresolved.as_str(), "unresolved symbol");
}

#[test]
fn module_paths() {
    assert_eq!(strip_mod_suffix(b"hello.ko"), b"hello");
    assert_eq!(strip_mod_suffix(b"echo.mnx"), b"echo");
    assert_eq!(strip_mod_suffix(b"plain"), b"plain");
    assert_eq!(format_mod_file_path(b"hello", b".ko"), b"/lib/modules/hello.ko".to_vec());
    assert!(is_elf(&[0x7f, b'E', b'L', b'F', 2]));
    assert!(!is_elf(b"MNX1"));
}

#[test]
fn module_lifecycle() {
    let mut t = ModuleTable::new();
    let plan = t.insmod(" hello ").unwrap();
    assert_eq!(plan.name, b"hello".to_vec());
    assert!(plan.builtin_hello);
    assert_eq!(plan.paths[0], b"/lib/modules/hello.ko".to_vec());
    assert_eq!(plan.paths[1], b"/lib/modules/hello.mnx".to_vec());
    let p2 = t.insmod("/mods/echo.ko").unwrap();
    assert_eq!(p2.name, b"echo".to_vec());
    assert_eq!(p2.paths, vec![b"/mods/echo.ko".to_vec()]);
    assert_eq!(t.insmod("   ").err(), Some(ModuleError::BadPath));
    let slot = t.begin_install(b"echo", 64, false).unwrap();
    assert_eq!(t.loading_slot(), slot as i32);
    assert_eq!(t.finish_install(slot, 0), Ok(()));
    assert_eq!(t.loading_slot(), -1);
    assert_eq!(t.live_count(), 1);
    assert_eq!(t.insmod("echo").err(), Some(ModuleError::Exists));
    assert!(t.try_get(slot));
    // Unloading is refused while the module is in use.
    assert_eq!(t.begin_rmmod("echo"), Err(ModuleError::Busy));
    t.put(slot);
    assert_eq!(t.begin_rmmod("echo"), Ok(slot));
    t.finish_rmmod(slot);
    assert_eq!(t.live_count(), 0);
    assert_eq!(t.begin_rmmod("echo"), Err(ModuleError::NotFound));
    let s2 = t.begin_install(b"bad", 8, false).unwrap();
    assert_eq!(t.finish_install(s2, -1), Err(ModuleError::InitFail));
    assert_eq!(t.live_count(), 0);
    assert_eq!(ModuleError::Busy.as_str(), "in use");
}

#[test]
fn proc_modules_text() {
    let mut t = ModuleTable::new();
    let s = t.begin_install(b"echo", 64, false).unwrap();
    t.finish_install(s, 0).unwrap();
    let mut out = [0u8; 64];
    let n = t.format_proc_modules(&mut out);
    assert_eq!(&out[..n], b"echo 64 0 - Live 0x0\n");
}

#[test]
fn block_devices() {
    let mut r = BlockRegistry::new();
    assert_eq!(r.default_slot(), Err(BlkError::NoDevice));
    assert_eq!(r.register_blkdev("hda", 512, 2048), Ok(0));
    assert_eq!(r.count(), 1);
    assert_eq!(r.name_at(0), Some("hda"));
    assert_eq!(r.sector_count(), 2048);
    assert_eq!(r.sector_size(), 512);
    assert!(!r.set_default("vdb"));
    assert_eq!(BlkError::NoDevice.as_str(), "no block device");
}

#[test]
fn heap_window() {
    assert_eq!(heap_start(), KERNEL_HEAP_START);
    assert_eq!(heap_start(), 0x1_0000_0000);
}

#[test]
fn module_trimmed_entry_points() {
    let mut t = ModuleTable::new();
    assert_eq!(t.insmod_trimmed(b"").err(), Some(ModuleError::BadPath));
    let p = t.insmod_trimmed(b"echo").unwrap();
    assert_eq!(p.paths[0], b"/lib/modules/echo.ko".to_vec());
    // untrimmed bytes are taken as they are
    assert_eq!(t.insmod_trimmed(b" echo").unwrap().name, b" echo".to_vec());
    let slot = t.begin_install(b"echo", 64, false).unwrap();
    assert_eq!(t.finish_install(slot, 0), Ok(()));
    assert_eq!(t.begin_rmmod_trimmed(b" echo"), Err(ModuleError::NotFound));
    assert_eq!(t.begin_rmmod_trimmed(b"echo"), Ok(slot));
}

#[test]
fn put_char_tab_is_four_spaces_and_controls_are_ignored() {
    let mut a = Console::new();
    let mut b = Console::new();
    a.put_char(b'x');
    b.put_char(b'x');
    a.put_char(b'\t');
    for _ in 0..4 {
        b.put_char(b' ');
    }
    assert_eq!(a.cursor_pos(), b.cursor_pos());
    for i in 0..160 {
        assert_eq!(a.cell_at(i), b.cell_at(i));
    }
    let before = a.cursor_pos();
    a.put_char(0x7F);
    a.put_char(0x01);
    a.put_char(0x1B);
    assert_eq!(a.cursor_pos(), before);
    a.put_char(b'\n');
    assert_eq!(a.cursor_pos().1, 0);
    for _ in 0..3000 {
        a.put_char(b'y');
        let (r, c) = a.cursor_pos();
        assert!(r < 25 && c < 80);
    }
}

#[test]
fn raise_signal_runs_registered_handler_once() {
    let mut t = SignalTable::new();
    assert!(t.register_signal_handler(SIG_GPF));
    let before = t.delivered_count();
    assert_eq!(t.raise_signal(SIG_GPF), vec![SIG_GPF]);
    assert_eq!(t.delivered_count(), before + 1);
    assert_eq!(t.pending_count(), 0);
    assert!(!t.has_pending());
    // no callback: nothing runs, nothing counted
    assert_eq!(t.raise_signal(SIG_PAGEFAULT), Vec::<u32>::new());
    assert_eq!(t.delivered_count(), before + 1);
}

#[test]
fn every_export_name_looks_up_to_itself() {
    assert_eq!(count(), 32);
    for i in 0..count() {
        let n = name_at(i).unwrap();
        assert_eq!(lookup(n.as_bytes()), Some(i));
    }
    assert_eq!(name_at(32), None);
    assert_eq!(lookup(b"no_such_symbol"), None);
}
