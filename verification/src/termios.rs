//! Linux `struct termios` layout (x86_64) as raw bytes: four little-endian
//! `u32` flag words at offsets 0, 4, 8 and 12, the line discipline at 16 and
//! the control characters from 17.

use vstd::prelude::*;

verus! {

pub const TERMIOS_LEN: usize = 36;
pub const CC_OFFSET: usize = 17;

// c_iflag
pub const ICRNL: u32 = 0o400;
pub const IXON: u32 = 0o2000;
// c_oflag
pub const OPOST: u32 = 0o1;
pub const ONLCR: u32 = 0o4;
// c_cflag
pub const CREAD: u32 = 0o200;
pub const CS8: u32 = 0o60;
pub const B38400: u32 = 0o17;
// c_lflag
pub const ISIG: u32 = 0o1;
pub const ICANON: u32 = 0o2;
pub const ECHO: u32 = 0o10;
pub const ECHOE: u32 = 0o20;
pub const ECHOK: u32 = 0o40;
pub const TOSTOP: u32 = 0o400;
pub const IEXTEN: u32 = 0o100000;
// c_cc indices
pub const VINTR: usize = 0;
pub const VQUIT: usize = 1;
pub const VERASE: usize = 2;
pub const VKILL: usize = 3;
pub const VEOF: usize = 4;

/// Little-endian `u32` at `off`.
pub open spec fn le_u32(t: Seq<u8>, off: int) -> u32 {
    (t[off] as int + t[off + 1] as int * 256 + t[off + 2] as int * 65536 + t[off + 3] as int
        * 16777216) as u32
}

/// Control character `idx`.
pub open spec fn cc(t: Seq<u8>, idx: int) -> u8 {
    t[CC_OFFSET + idx]
}

/// Flag word at byte offset `off` (0 iflag, 4 oflag, 8 cflag, 12 lflag).
pub fn termios_u32(t: &[u8], off: usize) -> (r: u32)
    requires
        off <= 32,
        off + 4 <= t@.len(),
    ensures
        r == le_u32(t@, off as int),
{
    (t[off] as u32) + (t[off + 1] as u32) * 256 + (t[off + 2] as u32) * 65536 + (t[off + 3] as u32)
        * 16777216
}

/// Control character `idx` of a termios image.
pub fn termios_cc(t: &[u8], idx: usize) -> (r: u8)
    requires
        idx < 19,
        CC_OFFSET + idx < t@.len(),
    ensures
        r == cc(t@, idx as int),
{
    t[CC_OFFSET + idx]
}

/// Linux's defaults for a new terminal: cooked input with echo and signals,
/// `\n` → `\r\n` on output, `^C ^\ DEL ^U ^D` as INTR QUIT ERASE KILL EOF.
pub open spec fn default_termios() -> Seq<u8> {
    seq![
        0x00u8, 0x05, 0x00, 0x00,
        0x05, 0x00, 0x00, 0x00,
        0xbf, 0x00, 0x00, 0x00,
        0x3b, 0x8a, 0x00, 0x00,
        0x00,
        0x03, 0x1c, 0x7f, 0x15, 0x04, 0x00, 0x01, 0x00,
        0x11, 0x13, 0x1a, 0x00, 0x12, 0x0f, 0x17, 0x16,
        0x00, 0x00, 0x00,
    ]
}

/// Overwrite `t` with the default termios.
pub fn fill_default_termios(t: &mut [u8])
    requires
        old(t)@.len() == TERMIOS_LEN,
    ensures
        final(t)@ == default_termios(),
{
    let d: [u8; 36] = [
        0x00, 0x05, 0x00, 0x00,
        0x05, 0x00, 0x00, 0x00,
        0xbf, 0x00, 0x00, 0x00,
        0x3b, 0x8a, 0x00, 0x00,
        0x00,
        0x03, 0x1c, 0x7f, 0x15, 0x04, 0x00, 0x01, 0x00,
        0x11, 0x13, 0x1a, 0x00, 0x12, 0x0f, 0x17, 0x16,
        0x00, 0x00, 0x00,
    ];
    let mut i: usize = 0;
    while i < TERMIOS_LEN
        invariant
            i <= TERMIOS_LEN,
            t@.len() == TERMIOS_LEN,
            d@ == default_termios(),
            forall|j: int| 0 <= j < i ==> t@[j] == d@[j],
        decreases TERMIOS_LEN - i,
    {
        t[i] = d[i];
        i = i + 1;
    }
    assert(t@ =~= default_termios());
}

} // verus!
