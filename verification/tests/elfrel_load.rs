use lib::elfrel::{elfrel_layout, elfrel_plan, tramp_stub};
use lib::export::EXPORT_COUNT;
use lib::mnx::MnxError;

const BASE: u64 = 0xFFFF_8000_0040_0000;

fn put(b: &mut Vec<u8>, at: usize, v: u64, w: usize) {
    for i in 0..w {
        b[at + i] = (v >> (8 * i)) as u8;
    }
}

fn shdr(b: &mut Vec<u8>, at: usize, name: u32, typ: u32, flags: u64, off: u64, size: u64, link: u32, info: u32, align: u64, entsize: u64) {
    put(b, at, name as u64, 4);
    put(b, at + 4, typ as u64, 4);
    put(b, at + 8, flags, 8);
    put(b, at + 24, off, 8);
    put(b, at + 32, size, 8);
    put(b, at + 40, link as u64, 4);
    put(b, at + 44, info as u64, 4);
    put(b, at + 48, align, 8);
    put(b, at + 56, entsize, 8);
}

/// A relocatable image: `.text` (16 bytes), `.modinfo` holding `modinfo`,
/// a symbol table with `init_module` (in `.text`) and the undefined
/// `undef`, and two relocations against `undef`: `R_X86_64_64` at 4 and
/// `R_X86_64_PLT32` (addend -4) at 8.
fn image(modinfo: &[u8], init: &[u8], undef: &[u8]) -> Vec<u8> {
    let mut b = vec![0u8; 744];
    b[0..4].copy_from_slice(&[0x7f, 0x45, 0x4c, 0x46]);
    b[4] = 2;
    b[5] = 1;
    b[6] = 1;
    put(&mut b, 16, 1, 2);
    put(&mut b, 18, 62, 2);
    put(&mut b, 20, 1, 4);
    put(&mut b, 40, 296, 8);
    put(&mut b, 52, 64, 2);
    put(&mut b, 58, 64, 2);
    put(&mut b, 60, 7, 2);
    put(&mut b, 62, 6, 2);
    for i in 0..16 {
        b[64 + i] = 0x90;
    }
    b[80..80 + modinfo.len()].copy_from_slice(modinfo);
    // symbols 1 and 2
    put(&mut b, 96 + 24, 1, 4);
    b[96 + 24 + 4] = 0x12;
    put(&mut b, 96 + 24 + 6, 1, 2);
    put(&mut b, 96 + 48, 13, 4);
    b[96 + 48 + 4] = 0x10;
    // string table: "\0" init "\0" undef "\0"
    b[169..169 + init.len()].copy_from_slice(init);
    b[181..181 + undef.len()].copy_from_slice(undef);
    // relocations
    put(&mut b, 192, 4, 8);
    put(&mut b, 200, (2u64 << 32) | 1, 8);
    put(&mut b, 216, 8, 8);
    put(&mut b, 224, (2u64 << 32) | 4, 8);
    put(&mut b, 232, (-4i64) as u64, 8);
    let names = b"\0.text\0.modinfo\0.symtab\0.strtab\0.rela.text\0.shstrtab\0";
    b[240..240 + names.len()].copy_from_slice(names);
    shdr(&mut b, 296 + 64, 1, 1, 6, 64, 16, 0, 0, 16, 0);
    shdr(&mut b, 296 + 128, 7, 1, 2, 80, 11, 0, 0, 1, 0);
    shdr(&mut b, 296 + 192, 16, 2, 0, 96, 72, 4, 1, 8, 24);
    shdr(&mut b, 296 + 256, 24, 3, 0, 168, 20, 0, 0, 1, 0);
    shdr(&mut b, 296 + 320, 32, 4, 0, 192, 48, 3, 1, 8, 24);
    shdr(&mut b, 296 + 384, 43, 3, 0, 240, names.len() as u64, 0, 0, 1, 0);
    b
}

fn good() -> Vec<u8> {
    image(b"name=hello\0", b"init_module", b"printk")
}

fn exports() -> Vec<u64> {
    (0..EXPORT_COUNT as u64).map(|i| 0xFFFF_8000_0010_0000 + 16 * i).collect()
}

#[test]
fn elfrel_layout_sizes_sections_and_trampolines() {
    // .text at 0 (16), .modinfo at 16 (11), trampolines from 32
    assert_eq!(elfrel_layout(&good()), Ok(32 + 16 * 16));
}

#[test]
fn elfrel_plan_resolves_and_builds_trampolines() {
    let ex = exports();
    let p = elfrel_plan(&good(), b"fallback", BASE, &ex).unwrap();
    assert_eq!(p.name, b"hello".to_vec());
    assert_eq!(p.image_len, 288);
    assert_eq!(p.copies, vec![(0, 64, 16), (16, 80, 11)]);
    // printk is export 4; the PC-relative call goes through slot 0 at 32:
    // (BASE + 32 - 4) - (BASE + 8) = 20
    assert_eq!(p.patches, vec![(4, 8, ex[4]), (8, 4, 20)]);
    assert_eq!(p.trampolines, vec![(32, ex[4])]);
    assert_eq!(p.init_va, BASE);
    assert_eq!(p.exit_va, None);
}

#[test]
fn elfrel_plan_uses_hint_without_modinfo_name() {
    let b = image(b"nome=hello\0", b"init_module", b"printk");
    let p = elfrel_plan(&b, b"fallback", BASE, &exports()).unwrap();
    assert_eq!(p.name, b"fallback".to_vec());
    let p = elfrel_plan(&b, b"", BASE, &exports()).unwrap();
    assert_eq!(p.name, b"module".to_vec());
}

#[test]
fn elfrel_plan_accepts_plain_init() {
    let b = image(b"name=hello\0", b"init", b"printk");
    assert_eq!(elfrel_plan(&b, b"", BASE, &exports()).unwrap().init_va, BASE);
}

#[test]
fn elfrel_refuses_short_file() {
    let b = good();
    assert_eq!(elfrel_layout(&b[..63]), Err(MnxError::Truncated));
    assert_eq!(elfrel_plan(&b[..63], b"", BASE, &exports()).err(), Some(MnxError::Truncated));
}

#[test]
fn elfrel_refuses_bad_magic() {
    let mut b = good();
    b[1] = b'X';
    assert_eq!(elfrel_plan(&b, b"", BASE, &exports()).err(), Some(MnxError::BadMagic));
    let mut b = good();
    put(&mut b, 16, 2, 2);
    assert_eq!(elfrel_layout(&b), Err(MnxError::BadMagic));
}

#[test]
fn elfrel_refuses_no_sections() {
    let mut b = good();
    put(&mut b, 60, 0, 2);
    assert_eq!(elfrel_layout(&b), Err(MnxError::BadCode));
}

#[test]
fn elfrel_refuses_missing_symtab() {
    let mut b = good();
    put(&mut b, 296 + 192 + 4, 1, 4);
    assert_eq!(elfrel_plan(&b, b"", BASE, &exports()).err(), Some(MnxError::BadCode));
}

#[test]
fn elfrel_refuses_missing_init() {
    let b = image(b"name=hello\0", b"xnit_module", b"printk");
    assert_eq!(elfrel_plan(&b, b"", BASE, &exports()).err(), Some(MnxError::BadCode));
}

#[test]
fn elfrel_refuses_unknown_symbol() {
    let b = image(b"name=hello\0", b"init_module", b"prinzk");
    assert_eq!(elfrel_plan(&b, b"", BASE, &exports()).err(), Some(MnxError::Unresolved));
}

#[test]
fn elfrel_refuses_truncated_section() {
    let mut b = good();
    put(&mut b, 296 + 64 + 32, 4096, 8);
    assert_eq!(elfrel_plan(&b, b"", BASE, &exports()).err(), Some(MnxError::Truncated));
}

#[test]
fn tramp_stub_is_mov_rax_jmp_rax() {
    assert_eq!(
        tramp_stub(0x1122_3344_5566_7788),
        vec![0x48, 0xB8, 0x88, 0x77, 0x66, 0x55, 0x44, 0x33, 0x22, 0x11, 0xFF, 0xE0]
    );
}
