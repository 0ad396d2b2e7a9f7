//! PS/2 scancode set 1 decoding and modifier-key tracking.

use vstd::prelude::*;

verus! {

#[derive(Clone, Copy, Debug, PartialEq, Eq, Structural)]
pub enum KeyCode {
    Backspace,
    Tab,
    Enter,
    Space,
    Digit1,
    Digit2,
    Digit3,
    Digit4,
    Digit5,
    Digit6,
    Digit7,
    Digit8,
    Digit9,
    Digit0,
    Minus,
    Equal,
    LeftBracket,
    RightBracket,
    Backslash,
    Semicolon,
    Apostrophe,
    Grave,
    Comma,
    Dot,
    Slash,
    A,
    B,
    C,
    D,
    E,
    F,
    G,
    H,
    I,
    J,
    K,
    L,
    M,
    N,
    O,
    P,
    Q,
    R,
    S,
    T,
    U,
    V,
    W,
    X,
    Y,
    Z,
    LeftShift,
    RightShift,
    LeftCtrl,
    RightCtrl,
    LeftAlt,
    RightAlt,
    LeftSuper,
    RightSuper,
    CapsLock,
    ArrowUp,
    ArrowDown,
    ArrowLeft,
    ArrowRight,
    Escape,
    Delete,
    F1,
    F2,
    F3,
    F4,
    F5,
    F6,
}

#[derive(Clone, Copy, Debug, PartialEq, Eq, Structural)]
pub struct KeyEvent {
    pub key: KeyCode,
    pub pressed: bool,
}

/// Bit set of held modifier keys plus the Caps Lock toggle.
#[derive(Clone, Copy, Debug, PartialEq, Eq, Structural)]
pub struct Modifiers(pub u16);

pub const MOD_SHIFT: u16 = 1;
pub const MOD_CTRL: u16 = 2;
pub const MOD_ALT: u16 = 4;
pub const MOD_SUPER: u16 = 8;
pub const MOD_CAPS_LOCK: u16 = 16;

/// Whether `flag` is set in the bit set `bits`.
pub open spec fn flag_set(bits: u16, flag: u16) -> bool {
    bits & flag != 0
}

/// The five modifier flags.
pub open spec fn is_mod_flag(f: u16) -> bool {
    f == MOD_SHIFT || f == MOD_CTRL || f == MOD_ALT || f == MOD_SUPER || f == MOD_CAPS_LOCK
}

/// The flag that a modifier key holds while pressed (Caps Lock toggles instead).
pub open spec fn held_flag(k: KeyCode) -> Option<u16> {
    match k {
        KeyCode::LeftShift | KeyCode::RightShift => Some(MOD_SHIFT),
        KeyCode::LeftCtrl | KeyCode::RightCtrl => Some(MOD_CTRL),
        KeyCode::LeftAlt | KeyCode::RightAlt => Some(MOD_ALT),
        KeyCode::LeftSuper | KeyCode::RightSuper => Some(MOD_SUPER),
        _ => None,
    }
}

/// Modifier state after `ev`, flag by flag.
pub open spec fn flag_after(before: u16, ev: KeyEvent, f: u16) -> bool {
    match held_flag(ev.key) {
        Some(h) => if h == f { ev.pressed } else { flag_set(before, f) },
        None => if ev.key == KeyCode::CapsLock && ev.pressed && f == MOD_CAPS_LOCK {
            !flag_set(before, f)
        } else {
            flag_set(before, f)
        },
    }
}

proof fn lemma_set_clear(x: u16, f: u16, g: u16)
    requires
        is_mod_flag(f),
        is_mod_flag(g),
    ensures
        ((x | f) & g != 0) == (if f == g { true } else { x & g != 0 }),
        ((x & !f) & g != 0) == (if f == g { false } else { x & g != 0 }),
        ((x ^ f) & g != 0) == (if f == g { x & g == 0 } else { x & g != 0 }),
{
    assert(((x | f) & g != 0) == (if f == g { true } else { x & g != 0 })) by (bit_vector)
        requires
            f == 1u16 || f == 2u16 || f == 4u16 || f == 8u16 || f == 16u16,
            g == 1u16 || g == 2u16 || g == 4u16 || g == 8u16 || g == 16u16,
    ;
    assert(((x & !f) & g != 0) == (if f == g { false } else { x & g != 0 })) by (bit_vector)
        requires
            f == 1u16 || f == 2u16 || f == 4u16 || f == 8u16 || f == 16u16,
            g == 1u16 || g == 2u16 || g == 4u16 || g == 8u16 || g == 16u16,
    ;
    assert(((x ^ f) & g != 0) == (if f == g { x & g == 0 } else { x & g != 0 })) by (bit_vector)
        requires
            f == 1u16 || f == 2u16 || f == 4u16 || f == 8u16 || f == 16u16,
            g == 1u16 || g == 2u16 || g == 4u16 || g == 8u16 || g == 16u16,
    ;
}

impl Modifiers {
    pub fn empty() -> (m: Self)
        ensures
            m.0 == 0,
            forall|f: u16| is_mod_flag(f) ==> !flag_set(m.0, f),
    {
        assert(forall|f: u16| (0u16 & f) == 0u16) by (bit_vector);
        Modifiers(0)
    }

    pub fn shift(self) -> (b: bool)
        ensures
            b == flag_set(self.0, MOD_SHIFT),
    {
        (self.0 & MOD_SHIFT) != 0
    }

    pub fn ctrl(self) -> (b: bool)
        ensures
            b == flag_set(self.0, MOD_CTRL),
    {
        (self.0 & MOD_CTRL) != 0
    }

    pub fn alt(self) -> (b: bool)
        ensures
            b == flag_set(self.0, MOD_ALT),
    {
        (self.0 & MOD_ALT) != 0
    }

    pub fn super_key(self) -> (b: bool)
        ensures
            b == flag_set(self.0, MOD_SUPER),
    {
        (self.0 & MOD_SUPER) != 0
    }

    pub fn caps_lock(self) -> (b: bool)
        ensures
            b == flag_set(self.0, MOD_CAPS_LOCK),
    {
        (self.0 & MOD_CAPS_LOCK) != 0
    }

    /// Ctrl, Alt or Super held: key presses do not produce text.
    pub fn has_text_blocking_modifier(self) -> (b: bool)
        ensures
            b == (flag_set(self.0, MOD_CTRL) || flag_set(self.0, MOD_ALT) || flag_set(
                self.0,
                MOD_SUPER,
            )),
    {
        self.ctrl() || self.alt() || self.super_key()
    }

    fn set_flag(&mut self, flag: u16, enabled: bool)
        requires
            is_mod_flag(flag),
        ensures
            forall|g: u16|
                is_mod_flag(g) ==> flag_set(final(self).0, g) == (if g == flag {
                    enabled
                } else {
                    flag_set(old(self).0, g)
                }),
    {
        let x = self.0;
        if enabled {
            self.0 = x | flag;
        } else {
            self.0 = x & !flag;
        }
        proof {
            assert forall|g: u16| is_mod_flag(g) implies flag_set(self.0, g) == (if g == flag {
                enabled
            } else {
                flag_set(x, g)
            }) by {
                lemma_set_clear(x, flag, g);
            }
        }
    }

    fn toggle_flag(&mut self, flag: u16)
        requires
            is_mod_flag(flag),
        ensures
            forall|g: u16|
                is_mod_flag(g) ==> flag_set(final(self).0, g) == (if g == flag {
                    !flag_set(old(self).0, g)
                } else {
                    flag_set(old(self).0, g)
                }),
    {
        let x = self.0;
        self.0 = x ^ flag;
        proof {
            assert forall|g: u16| is_mod_flag(g) implies flag_set(self.0, g) == (if g == flag {
                !flag_set(x, g)
            } else {
                flag_set(x, g)
            }) by {
                lemma_set_clear(x, flag, g);
            }
        }
    }

    /// Track a key event: Shift/Ctrl/Alt/Super follow press and release, Caps Lock
    /// toggles on press, every other key leaves the state alone.
    pub fn update_for_event(&mut self, event: KeyEvent)
        ensures
            forall|f: u16|
                is_mod_flag(f) ==> flag_set(final(self).0, f) == flag_after(old(self).0, event, f),
    {
        match event.key {
            KeyCode::LeftShift | KeyCode::RightShift => {
                self.set_flag(MOD_SHIFT, event.pressed);
            },
            KeyCode::LeftCtrl | KeyCode::RightCtrl => {
                self.set_flag(MOD_CTRL, event.pressed);
            },
            KeyCode::LeftAlt | KeyCode::RightAlt => {
                self.set_flag(MOD_ALT, event.pressed);
            },
            KeyCode::LeftSuper | KeyCode::RightSuper => {
                self.set_flag(MOD_SUPER, event.pressed);
            },
            KeyCode::CapsLock => {
                if event.pressed {
                    self.toggle_flag(MOD_CAPS_LOCK);
                }
            },
            _ => {},
        }
    }
}

/// Key of a set-1 scancode with the release bit cleared (`ext`: after an 0xE0 prefix).
pub open spec fn set1_key(key: u8, ext: bool) -> Option<KeyCode> {
    if ext {
        match key {
            0x48 => Some(KeyCode::ArrowUp),
            0x50 => Some(KeyCode::ArrowDown),
            0x4B => Some(KeyCode::ArrowLeft),
            0x4D => Some(KeyCode::ArrowRight),
            0x53 => Some(KeyCode::Delete),
            0x1D => Some(KeyCode::RightCtrl),
            0x38 => Some(KeyCode::RightAlt),
            0x5B => Some(KeyCode::LeftSuper),
            0x5C => Some(KeyCode::RightSuper),
            _ => None,
        }
    } else {
        match key {
            0x01 => Some(KeyCode::Escape),
            0x0E => Some(KeyCode::Backspace),
            0x0F => Some(KeyCode::Tab),
            0x1C => Some(KeyCode::Enter),
            0x39 => Some(KeyCode::Space),
            0x02 => Some(KeyCode::Digit1),
            0x03 => Some(KeyCode::Digit2),
            0x04 => Some(KeyCode::Digit3),
            0x05 => Some(KeyCode::Digit4),
            0x06 => Some(KeyCode::Digit5),
            0x07 => Some(KeyCode::Digit6),
            0x08 => Some(KeyCode::Digit7),
            0x09 => Some(KeyCode::Digit8),
            0x0A => Some(KeyCode::Digit9),
            0x0B => Some(KeyCode::Digit0),
            0x0C => Some(KeyCode::Minus),
            0x0D => Some(KeyCode::Equal),
            0x1A => Some(KeyCode::LeftBracket),
            0x1B => Some(KeyCode::RightBracket),
            0x2B => Some(KeyCode::Backslash),
            0x27 => Some(KeyCode::Semicolon),
            0x28 => Some(KeyCode::Apostrophe),
            0x29 => Some(KeyCode::Grave),
            0x33 => Some(KeyCode::Comma),
            0x34 => Some(KeyCode::Dot),
            0x35 => Some(KeyCode::Slash),
            0x10 => Some(KeyCode::Q),
            0x11 => Some(KeyCode::W),
            0x12 => Some(KeyCode::E),
            0x13 => Some(KeyCode::R),
            0x14 => Some(KeyCode::T),
            0x15 => Some(KeyCode::Y),
            0x16 => Some(KeyCode::U),
            0x17 => Some(KeyCode::I),
            0x18 => Some(KeyCode::O),
            0x19 => Some(KeyCode::P),
            0x1E => Some(KeyCode::A),
            0x1F => Some(KeyCode::S),
            0x20 => Some(KeyCode::D),
            0x21 => Some(KeyCode::F),
            0x22 => Some(KeyCode::G),
            0x23 => Some(KeyCode::H),
            0x24 => Some(KeyCode::J),
            0x25 => Some(KeyCode::K),
            0x26 => Some(KeyCode::L),
            0x2C => Some(KeyCode::Z),
            0x2D => Some(KeyCode::X),
            0x2E => Some(KeyCode::C),
            0x2F => Some(KeyCode::V),
            0x30 => Some(KeyCode::B),
            0x31 => Some(KeyCode::N),
            0x32 => Some(KeyCode::M),
            0x2A => Some(KeyCode::LeftShift),
            0x36 => Some(KeyCode::RightShift),
            0x1D => Some(KeyCode::LeftCtrl),
            0x38 => Some(KeyCode::LeftAlt),
            0x3A => Some(KeyCode::CapsLock),
            0x3B => Some(KeyCode::F1),
            0x3C => Some(KeyCode::F2),
            0x3D => Some(KeyCode::F3),
            0x3E => Some(KeyCode::F4),
            0x3F => Some(KeyCode::F5),
            0x40 => Some(KeyCode::F6),
            _ => None,
        }
    }
}

/// The PC keyboard's main rows, left to right. Set 1 numbers the keys of
/// each row consecutively: the number row from 0x01, the top letter row
/// from 0x0F, the home row from 0x1D, the bottom row from 0x2A and the
/// function keys from 0x3B.
pub open spec fn number_row() -> Seq<KeyCode> {
    seq![
        KeyCode::Escape, KeyCode::Digit1, KeyCode::Digit2, KeyCode::Digit3, KeyCode::Digit4, KeyCode::Digit5,
        KeyCode::Digit6, KeyCode::Digit7, KeyCode::Digit8, KeyCode::Digit9, KeyCode::Digit0, KeyCode::Minus,
        KeyCode::Equal, KeyCode::Backspace,
    ]
}

pub open spec fn top_row() -> Seq<KeyCode> {
    seq![
        KeyCode::Tab, KeyCode::Q, KeyCode::W, KeyCode::E, KeyCode::R, KeyCode::T, KeyCode::Y, KeyCode::U,
        KeyCode::I, KeyCode::O, KeyCode::P, KeyCode::LeftBracket, KeyCode::RightBracket, KeyCode::Enter,
    ]
}

pub open spec fn home_row() -> Seq<KeyCode> {
    seq![
        KeyCode::LeftCtrl, KeyCode::A, KeyCode::S, KeyCode::D, KeyCode::F, KeyCode::G, KeyCode::H, KeyCode::J,
        KeyCode::K, KeyCode::L, KeyCode::Semicolon, KeyCode::Apostrophe, KeyCode::Grave,
    ]
}

pub open spec fn bottom_row() -> Seq<KeyCode> {
    seq![
        KeyCode::LeftShift, KeyCode::Backslash, KeyCode::Z, KeyCode::X, KeyCode::C, KeyCode::V, KeyCode::B,
        KeyCode::N, KeyCode::M, KeyCode::Comma, KeyCode::Dot, KeyCode::Slash, KeyCode::RightShift,
    ]
}

pub open spec fn function_row() -> Seq<KeyCode> {
    seq![KeyCode::F1, KeyCode::F2, KeyCode::F3, KeyCode::F4, KeyCode::F5, KeyCode::F6]
}

/// The key at make code `code` on the PC keyboard, by row and position.
pub open spec fn pc_layout_key(code: int) -> Option<KeyCode> {
    if 0x01 <= code < 0x0F {
        Some(number_row()[code - 0x01])
    } else if 0x0F <= code < 0x1D {
        Some(top_row()[code - 0x0F])
    } else if 0x1D <= code < 0x2A {
        Some(home_row()[code - 0x1D])
    } else if 0x2A <= code < 0x37 {
        Some(bottom_row()[code - 0x2A])
    } else if code == 0x38 {
        Some(KeyCode::LeftAlt)
    } else if code == 0x39 {
        Some(KeyCode::Space)
    } else if code == 0x3A {
        Some(KeyCode::CapsLock)
    } else if 0x3B <= code < 0x41 {
        Some(function_row()[code - 0x3B])
    } else {
        None
    }
}

/// Every key of the PC layout decodes from its set-1 make code.
pub proof fn lemma_set1_layout()
    ensures
        forall|c: u8| #[trigger] pc_layout_key(c as int) is Some ==> set1_key(c, false) == pc_layout_key(c as int),
{
    assert forall|c: u8| #[trigger] pc_layout_key(c as int) is Some implies set1_key(c, false) == pc_layout_key(c as int) by {
        if c == 0x01 {
            assert(number_row()[0] == KeyCode::Escape);
        } else if c == 0x02 {
            assert(number_row()[1] == KeyCode::Digit1);
        } else if c == 0x03 {
            assert(number_row()[2] == KeyCode::Digit2);
        } else if c == 0x04 {
            assert(number_row()[3] == KeyCode::Digit3);
        } else if c == 0x05 {
            assert(number_row()[4] == KeyCode::Digit4);
        } else if c == 0x06 {
            assert(number_row()[5] == KeyCode::Digit5);
        } else if c == 0x07 {
            assert(number_row()[6] == KeyCode::Digit6);
        } else if c == 0x08 {
            assert(number_row()[7] == KeyCode::Digit7);
        } else if c == 0x09 {
            assert(number_row()[8] == KeyCode::Digit8);
        } else if c == 0x0a {
            assert(number_row()[9] == KeyCode::Digit9);
        } else if c == 0x0b {
            assert(number_row()[10] == KeyCode::Digit0);
        } else if c == 0x0c {
            assert(number_row()[11] == KeyCode::Minus);
        } else if c == 0x0d {
            assert(number_row()[12] == KeyCode::Equal);
        } else if c == 0x0e {
            assert(number_row()[13] == KeyCode::Backspace);
        } else if c == 0x0f {
            assert(top_row()[0] == KeyCode::Tab);
        } else if c == 0x10 {
            assert(top_row()[1] == KeyCode::Q);
        } else if c == 0x11 {
            assert(top_row()[2] == KeyCode::W);
        } else if c == 0x12 {
            assert(top_row()[3] == KeyCode::E);
        } else if c == 0x13 {
            assert(top_row()[4] == KeyCode::R);
        } else if c == 0x14 {
            assert(top_row()[5] == KeyCode::T);
        } else if c == 0x15 {
            assert(top_row()[6] == KeyCode::Y);
        } else if c == 0x16 {
            assert(top_row()[7] == KeyCode::U);
        } else if c == 0x17 {
            assert(top_row()[8] == KeyCode::I);
        } else if c == 0x18 {
            assert(top_row()[9] == KeyCode::O);
        } else if c == 0x19 {
            assert(top_row()[10] == KeyCode::P);
        } else if c == 0x1a {
            assert(top_row()[11] == KeyCode::LeftBracket);
        } else if c == 0x1b {
            assert(top_row()[12] == KeyCode::RightBracket);
        } else if c == 0x1c {
            assert(top_row()[13] == KeyCode::Enter);
        } else if c == 0x1d {
            assert(home_row()[0] == KeyCode::LeftCtrl);
        } else if c == 0x1e {
            assert(home_row()[1] == KeyCode::A);
        } else if c == 0x1f {
            assert(home_row()[2] == KeyCode::S);
        } else if c == 0x20 {
            assert(home_row()[3] == KeyCode::D);
        } else if c == 0x21 {
            assert(home_row()[4] == KeyCode::F);
        } else if c == 0x22 {
            assert(home_row()[5] == KeyCode::G);
        } else if c == 0x23 {
            assert(home_row()[6] == KeyCode::H);
        } else if c == 0x24 {
            assert(home_row()[7] == KeyCode::J);
        } else if c == 0x25 {
            assert(home_row()[8] == KeyCode::K);
        } else if c == 0x26 {
            assert(home_row()[9] == KeyCode::L);
        } else if c == 0x27 {
            assert(home_row()[10] == KeyCode::Semicolon);
        } else if c == 0x28 {
            assert(home_row()[11] == KeyCode::Apostrophe);
        } else if c == 0x29 {
            assert(home_row()[12] == KeyCode::Grave);
        } else if c == 0x2a {
            assert(bottom_row()[0] == KeyCode::LeftShift);
        } else if c == 0x2b {
            assert(bottom_row()[1] == KeyCode::Backslash);
        } else if c == 0x2c {
            assert(bottom_row()[2] == KeyCode::Z);
        } else if c == 0x2d {
            assert(bottom_row()[3] == KeyCode::X);
        } else if c == 0x2e {
            assert(bottom_row()[4] == KeyCode::C);
        } else if c == 0x2f {
            assert(bottom_row()[5] == KeyCode::V);
        } else if c == 0x30 {
            assert(bottom_row()[6] == KeyCode::B);
        } else if c == 0x31 {
            assert(bottom_row()[7] == KeyCode::N);
        } else if c == 0x32 {
            assert(bottom_row()[8] == KeyCode::M);
        } else if c == 0x33 {
            assert(bottom_row()[9] == KeyCode::Comma);
        } else if c == 0x34 {
            assert(bottom_row()[10] == KeyCode::Dot);
        } else if c == 0x35 {
            assert(bottom_row()[11] == KeyCode::Slash);
        } else if c == 0x36 {
            assert(bottom_row()[12] == KeyCode::RightShift);
        } else if c == 0x3b {
            assert(function_row()[0] == KeyCode::F1);
        } else if c == 0x3c {
            assert(function_row()[1] == KeyCode::F2);
        } else if c == 0x3d {
            assert(function_row()[2] == KeyCode::F3);
        } else if c == 0x3e {
            assert(function_row()[3] == KeyCode::F4);
        } else if c == 0x3f {
            assert(function_row()[4] == KeyCode::F5);
        } else if c == 0x40 {
            assert(function_row()[5] == KeyCode::F6);
        }
    }
}

/// Decode one set-1 scancode: bit 7 marks a release, the low seven bits name the key.
pub fn decode_set1_scancode(scancode: u8, extended: bool) -> (r: Option<KeyEvent>)
    ensures
        r == (match set1_key(scancode % 128, extended) {
            Some(k) => Some(KeyEvent { key: k, pressed: scancode < 128 }),
            None => None::<KeyEvent>,
        }),
        !extended && pc_layout_key((scancode % 128) as int) is Some ==> r == Some(
            KeyEvent { key: pc_layout_key((scancode % 128) as int)->0, pressed: scancode < 128 },
        ),
{
    proof {
        lemma_set1_layout();
        assert(pc_layout_key(((scancode % 128) as u8) as int) == pc_layout_key((scancode % 128) as int));
    }
    let pressed = (scancode & 0x80) == 0;
    let key = scancode & 0x7F;
    assert(pressed == (scancode < 128) && key == scancode % 128) by (bit_vector)
        requires
            pressed == ((scancode & 0x80) == 0),
            key == scancode & 0x7F,
    ;
    let keycode = if extended {
        match key {
            0x48 => KeyCode::ArrowUp,
            0x50 => KeyCode::ArrowDown,
            0x4B => KeyCode::ArrowLeft,
            0x4D => KeyCode::ArrowRight,
            0x53 => KeyCode::Delete,
            0x1D => KeyCode::RightCtrl,
            0x38 => KeyCode::RightAlt,
            0x5B => KeyCode::LeftSuper,
            0x5C => KeyCode::RightSuper,
            _ => return None,
        }
    } else {
        match key {
            0x01 => KeyCode::Escape,
            0x0E => KeyCode::Backspace,
            0x0F => KeyCode::Tab,
            0x1C => KeyCode::Enter,
            0x39 => KeyCode::Space,
            0x02 => KeyCode::Digit1,
            0x03 => KeyCode::Digit2,
            0x04 => KeyCode::Digit3,
            0x05 => KeyCode::Digit4,
            0x06 => KeyCode::Digit5,
            0x07 => KeyCode::Digit6,
            0x08 => KeyCode::Digit7,
            0x09 => KeyCode::Digit8,
            0x0A => KeyCode::Digit9,
            0x0B => KeyCode::Digit0,
            0x0C => KeyCode::Minus,
            0x0D => KeyCode::Equal,
            0x1A => KeyCode::LeftBracket,
            0x1B => KeyCode::RightBracket,
            0x2B => KeyCode::Backslash,
            0x27 => KeyCode::Semicolon,
            0x28 => KeyCode::Apostrophe,
            0x29 => KeyCode::Grave,
            0x33 => KeyCode::Comma,
            0x34 => KeyCode::Dot,
            0x35 => KeyCode::Slash,
            0x10 => KeyCode::Q,
            0x11 => KeyCode::W,
            0x12 => KeyCode::E,
            0x13 => KeyCode::R,
            0x14 => KeyCode::T,
            0x15 => KeyCode::Y,
            0x16 => KeyCode::U,
            0x17 => KeyCode::I,
            0x18 => KeyCode::O,
            0x19 => KeyCode::P,
            0x1E => KeyCode::A,
            0x1F => KeyCode::S,
            0x20 => KeyCode::D,
            0x21 => KeyCode::F,
            0x22 => KeyCode::G,
            0x23 => KeyCode::H,
            0x24 => KeyCode::J,
            0x25 => KeyCode::K,
            0x26 => KeyCode::L,
            0x2C => KeyCode::Z,
            0x2D => KeyCode::X,
            0x2E => KeyCode::C,
            0x2F => KeyCode::V,
            0x30 => KeyCode::B,
            0x31 => KeyCode::N,
            0x32 => KeyCode::M,
            0x2A => KeyCode::LeftShift,
            0x36 => KeyCode::RightShift,
            0x1D => KeyCode::LeftCtrl,
            0x38 => KeyCode::LeftAlt,
            0x3A => KeyCode::CapsLock,
            0x3B => KeyCode::F1,
            0x3C => KeyCode::F2,
            0x3D => KeyCode::F3,
            0x3E => KeyCode::F4,
            0x3F => KeyCode::F5,
            0x40 => KeyCode::F6,
            _ => return None,
        }
    };
    Some(KeyEvent { key: keycode, pressed })
}

} // verus!
