//! Keyboard input: the buffer of typed bytes shared by the interrupt handler
//! and readers, and the step from a decoded key press to buffered text.

use vstd::prelude::*;
use crate::keycode::{KeyCode, KeyEvent, Modifiers, flag_set, MOD_CTRL, MOD_ALT, MOD_SUPER};
use crate::ring::{lemma_mod_distinct, lemma_mod_shift};
use crate::keycode::{decode_set1_scancode, set1_key};

verus! {

/// Bytes the buffer holds at most; a push into a full buffer drops the oldest.
pub const KBUF_CAP: usize = 128;
/// Scancode that announces an extended key.
pub const SCANCODE_EXTENDED_PREFIX: u8 = 0xE0;

/// Contents after pushing `b`: appended, the oldest byte dropped when full.
pub open spec fn push_spec(s: Seq<u8>, b: u8) -> Seq<u8> {
    if s.len() >= KBUF_CAP {
        s.drop_first().push(b)
    } else {
        s.push(b)
    }
}

/// Contents after pushing every byte of `bs` in order.
pub open spec fn push_all(s: Seq<u8>, bs: Seq<u8>) -> Seq<u8>
    decreases bs.len(),
{
    if bs.len() == 0 {
        s
    } else {
        push_spec(push_all(s, bs.drop_last()), bs.last())
    }
}

/// The newest `KBUF_CAP` bytes of `s`.
pub open spec fn newest(s: Seq<u8>) -> Seq<u8> {
    if s.len() > KBUF_CAP {
        s.skip(s.len() - KBUF_CAP)
    } else {
        s
    }
}

/// Typing into the buffer keeps the newest 128 bytes, oldest first: pushing
/// `s` onto contents `q` leaves the last 128 bytes of `q` followed by `s`.
pub proof fn lemma_push_keeps_newest(q: Seq<u8>, s: Seq<u8>)
    requires
        q.len() <= KBUF_CAP,
    ensures
        push_all(q, s) == newest(q + s),
    decreases s.len(),
{
    if s.len() == 0 {
        assert(q + s =~= q);
    } else {
        let s0 = s.drop_last();
        let x = s.last();
        lemma_push_keeps_newest(q, s0);
        let t = newest(q + s0);
        assert(q + s =~= (q + s0).push(x));
        if t.len() >= KBUF_CAP {
            assert(t.drop_first().push(x) =~= newest((q + s0).push(x)));
        } else {
            assert(t.push(x) =~= newest((q + s0).push(x)));
        }
    }
}

/// Bytes pushed into an empty buffer come out first to last: `k` pops after
/// pushing `s` (at most 128 bytes) give `s[0..k]`.
pub proof fn lemma_inject_then_pop(s: Seq<u8>, k: int)
    requires
        s.len() <= KBUF_CAP,
        0 <= k <= s.len(),
    ensures
        push_all(Seq::empty(), s).take(k) == s.take(k),
        push_all(Seq::empty(), s).skip(k) == s.skip(k),
{
    lemma_push_keeps_newest(Seq::empty(), s);
    assert(Seq::<u8>::empty() + s =~= s);
}

/// Bytes injected behind `q` waiting bytes, with room for all of them, come
/// out after those `q` bytes, in order: the buffer holds `q` then `s`, and
/// once the `q.len()` older bytes are popped, the next `s.len()` pops give
/// `s[0]`, …, `s[s.len() - 1]`.
pub proof fn lemma_inject_then_pop_after(q: Seq<u8>, s: Seq<u8>, j: int)
    requires
        q.len() + s.len() <= KBUF_CAP,
        0 <= j < s.len(),
    ensures
        push_all(q, s) == q + s,
        (q + s).skip(q.len() as int + j)[0] == s[j],
        (q + s).skip((q.len() + s.len()) as int).len() == 0,
{
    lemma_push_keeps_newest(q, s);
}

/// Typed bytes waiting to be read, oldest first.
pub struct KeyBuffer {
    data: Vec<u8>,
    head: usize,
    len: usize,
}

impl View for KeyBuffer {
    type V = Seq<u8>;

    closed spec fn view(&self) -> Seq<u8> {
        Seq::new(self.len as nat, |i: int| self.data@[(self.head + i) % (KBUF_CAP as int)])
    }
}

impl KeyBuffer {
    pub closed spec fn wf(&self) -> bool {
        &&& self.data@.len() == KBUF_CAP
        &&& self.head < KBUF_CAP
        &&& self.len <= KBUF_CAP
    }

    pub proof fn lemma_wf(&self)
        requires
            self.wf(),
        ensures
            self@.len() <= KBUF_CAP,
    {
    }

    pub fn new() -> (k: KeyBuffer)
        ensures
            k.wf(),
            k@ == Seq::<u8>::empty(),
    {
        let mut data: Vec<u8> = Vec::new();
        while data.len() < KBUF_CAP
            invariant
                data@.len() <= KBUF_CAP,
            decreases KBUF_CAP - data@.len(),
        {
            data.push(0);
        }
        let k = KeyBuffer { data, head: 0, len: 0 };
        assert(k@ =~= Seq::<u8>::empty());
        k
    }

    /// Append one byte, dropping the oldest when the buffer is full.
    fn push_byte(&mut self, b: u8)
        requires
            old(self).wf(),
        ensures
            final(self).wf(),
            final(self)@ == push_spec(old(self)@, b),
    {
        let ghost s = self@;
        let ghost h0 = self.head as int;
        let full = self.len >= KBUF_CAP;
        if full {
            self.head = (self.head + 1) % KBUF_CAP;
            self.len = self.len - 1;
        }
        let ghost d0 = self.data@;
        let tail = (self.head + self.len) % KBUF_CAP;
        self.data.set(tail, b);
        self.len = self.len + 1;
        proof {
            let m = KBUF_CAP as int;
            let t = push_spec(s, b);
            assert forall|i: int| 0 <= i < self.len implies #[trigger] self@[i] == t[i] by {
                if i < self.len - 1 {
                    lemma_mod_distinct(self.head + i, self.head + self.len - 1, m);
                    if full {
                        lemma_mod_shift(h0, 1, i, m);
                    }
                } else {
                }
            }
            assert(self@ =~= t);
        }
    }

    /// Take the oldest byte.
    pub fn pop_char(&mut self) -> (r: Option<u8>)
        requires
            old(self).wf(),
        ensures
            final(self).wf(),
            old(self)@.len() == 0 ==> r is None && final(self)@ == old(self)@,
            old(self)@.len() > 0 ==> r == Some(old(self)@[0]) && final(self)@ == old(self)@.drop_first(),
    {
        if self.len == 0 {
            return None;
        }
        let ghost s = self@;
        let ghost h0 = self.head as int;
        let b = self.data[self.head];
        self.head = (self.head + 1) % KBUF_CAP;
        self.len = self.len - 1;
        proof {
            assert(h0 % (KBUF_CAP as int) == h0);
            assert forall|i: int| 0 <= i < self.len implies #[trigger] self@[i] == s.drop_first()[i] by {
                lemma_mod_shift(h0, 1, i, KBUF_CAP as int);
            }
            assert(self@ =~= s.drop_first());
        }
        Some(b)
    }

    /// Number of bytes waiting.
    pub fn buffered_len(&self) -> (n: usize)
        requires
            self.wf(),
        ensures
            n == self@.len(),
    {
        self.len
    }

    /// Push a byte as if typed.
    pub fn inject_char(&mut self, b: u8)
        requires
            old(self).wf(),
        ensures
            final(self).wf(),
            final(self)@ == push_spec(old(self)@, b),
    {
        self.push_byte(b);
    }

    /// Push each byte of `s` as if typed.
    pub fn inject_str(&mut self, s: &[u8])
        requires
            old(self).wf(),
        ensures
            final(self).wf(),
            final(self)@ == push_all(old(self)@, s@),
    {
        let mut i: usize = 0;
        while i < s.len()
            invariant
                self.wf(),
                i <= s@.len(),
                self@ == push_all(old(self)@, s@.take(i as int)),
            decreases s@.len() - i,
        {
            assert(s@.take(i + 1).drop_last() =~= s@.take(i as int));
            self.push_byte(s[i]);
            i = i + 1;
        }
        assert(s@.take(s@.len() as int) =~= s@);
    }
}

/// The byte a key press puts in the buffer, given the text the key map gives it.
pub open spec fn press_byte(key: KeyCode, m: u16, text: Option<char>) -> Option<u8> {
    let ctrl = flag_set(m, MOD_CTRL);
    let alt = flag_set(m, MOD_ALT);
    if key == KeyCode::Delete && !ctrl && !alt {
        Some(0x7Fu8)
    } else if key == KeyCode::ArrowUp || key == KeyCode::ArrowDown || key == KeyCode::ArrowLeft
        || key == KeyCode::ArrowRight || key == KeyCode::F1 || key == KeyCode::F2
        || key == KeyCode::F3 || key == KeyCode::F4 || key == KeyCode::F5 || key == KeyCode::F6 {
        None
    } else if ctrl || alt || flag_set(m, MOD_SUPER) {
        None
    } else {
        match text {
            Some(c) => if c == '\n' || c == '\r' {
                Some(10u8)
            } else if c == '\x08' {
                Some(8u8)
            } else if 0x20 <= c as u32 && (c as u32) < 0x7F {
                Some(c as u8)
            } else {
                None
            },
            None => None,
        }
    }
}

/// Whether a press asks for the machine to power off (Ctrl+Alt+Delete).
pub open spec fn is_shutdown(key: KeyCode, m: u16) -> bool {
    key == KeyCode::Delete && flag_set(m, MOD_CTRL) && flag_set(m, MOD_ALT)
}

/// Act on a key press: buffer its text and report whether it asks for shutdown.
/// `text` is what the key map gives the key under these modifiers.
pub fn handle_key_press(buf: &mut KeyBuffer, event: KeyEvent, modifiers: Modifiers, text: Option<char>) -> (shutdown: bool)
    requires
        old(buf).wf(),
    ensures
        final(buf).wf(),
        shutdown == is_shutdown(event.key, modifiers.0),
        shutdown ==> final(buf)@ == old(buf)@,
        !shutdown ==> final(buf)@ == (match press_byte(event.key, modifiers.0, text) {
            Some(b) => push_spec(old(buf)@, b),
            None => old(buf)@,
        }),
{
    if event.key == KeyCode::Delete && modifiers.ctrl() && modifiers.alt() {
        return true;
    }
    match event.key {
        KeyCode::Delete if !modifiers.ctrl() && !modifiers.alt() => {
            buf.push_byte(0x7F);
        },
        KeyCode::ArrowUp | KeyCode::ArrowDown | KeyCode::ArrowLeft | KeyCode::ArrowRight => {},
        KeyCode::F1 | KeyCode::F2 | KeyCode::F3 | KeyCode::F4 | KeyCode::F5 | KeyCode::F6 => {},
        _ => {
            if !modifiers.has_text_blocking_modifier() {
                if let Some(ch) = text {
                    if ch == '\n' || ch == '\r' {
                        buf.push_byte(10);
                    } else if ch == '\x08' {
                        buf.push_byte(8);
                    } else if (ch as u32) >= 0x20 && (ch as u32) < 0x7F {
                        buf.push_byte(ch as u8);
                    }
                }
            }
        },
    }
    false
}

/// Scancode decoding state kept between interrupts.
pub struct KeyboardState {
    pub extended: bool,
    pub modifiers: Modifiers,
}

impl KeyboardState {
    pub fn new() -> (k: KeyboardState)
        ensures
            !k.extended,
            k.modifiers.0 == 0,
    {
        KeyboardState { extended: false, modifiers: Modifiers::empty() }
    }

    /// Take one scancode from the keyboard port. An 0xE0 prefix marks the next
    /// code as extended; any other code is decoded, updates the modifiers and,
    /// when it is a press, is returned with the modifiers that now hold.
    pub fn on_scancode(&mut self, scancode: u8) -> (r: Option<(KeyEvent, Modifiers)>)
        ensures
            scancode == SCANCODE_EXTENDED_PREFIX ==> final(self).extended && r is None
                && final(self).modifiers == old(self).modifiers,
            scancode != SCANCODE_EXTENDED_PREFIX ==> !final(self).extended,
            scancode != SCANCODE_EXTENDED_PREFIX && set1_key(scancode % 128, old(self).extended) is None
                ==> r is None && final(self).modifiers == old(self).modifiers,
            scancode != SCANCODE_EXTENDED_PREFIX && set1_key(scancode % 128, old(self).extended) is Some
                ==> {
                    let ev = KeyEvent { key: set1_key(scancode % 128, old(self).extended)->0, pressed: scancode < 128 };
                    &&& forall|f: u16| crate::keycode::is_mod_flag(f) ==> flag_set(final(self).modifiers.0, f)
                        == crate::keycode::flag_after(old(self).modifiers.0, ev, f)
                    &&& r == (if ev.pressed { Some((ev, final(self).modifiers)) } else { None::<(KeyEvent, Modifiers)> })
                },
    {
        if scancode == SCANCODE_EXTENDED_PREFIX {
            self.extended = true;
            return None;
        }
        let mut out: Option<(KeyEvent, Modifiers)> = None;
        match decode_set1_scancode(scancode, self.extended) {
            Some(event) => {
                let mut m = self.modifiers;
                m.update_for_event(event);
                self.modifiers = m;
                if event.pressed {
                    out = Some((event, m));
                }
            },
            None => {},
        }
        self.extended = false;
        out
    }
}

/// The key a byte from the serial line types: newline, tab and backspace
/// as themselves, DEL as backspace, printable ASCII as itself; anything
/// else types nothing.
pub open spec fn serial_key(b: u8) -> Option<u8> {
    if b == 10 || b == 9 || b == 8 {
        Some(b)
    } else if b == 0x7F {
        Some(8u8)
    } else if 0x20 <= b < 0x7F {
        Some(b)
    } else {
        None
    }
}

/// The keys the serial bytes `bs` type, in order.
pub open spec fn serial_keys(bs: Seq<u8>) -> Seq<u8>
    decreases bs.len(),
{
    if bs.len() == 0 {
        Seq::empty()
    } else {
        match serial_key(bs.last()) {
            Some(k) => serial_keys(bs.drop_last()).push(k),
            None => serial_keys(bs.drop_last()),
        }
    }
}

/// Feed the bytes read from the serial line to the keyboard buffer.
pub fn poll_to_keyboard(buf: &mut KeyBuffer, bytes: &[u8])
    requires
        old(buf).wf(),
    ensures
        final(buf).wf(),
        final(buf)@ == push_all(old(buf)@, serial_keys(bytes@)),
{
    let mut i: usize = 0;
    while i < bytes.len()
        invariant
            buf.wf(),
            i <= bytes@.len(),
            buf@ == push_all(old(buf)@, serial_keys(bytes@.take(i as int))),
        decreases bytes@.len() - i,
    {
        let b = bytes[i];
        let ghost before = serial_keys(bytes@.take(i as int));
        proof {
            assert(bytes@.take(i + 1).drop_last() =~= bytes@.take(i as int));
        }
        if b == 10 || b == 9 || b == 8 {
            buf.inject_char(b);
            proof {
                assert(before.push(b).drop_last() =~= before);
            }
        } else if b == 0x7F {
            buf.inject_char(8);
            proof {
                assert(before.push(8u8).drop_last() =~= before);
            }
        } else if 0x20 <= b && b < 0x7F {
            buf.inject_char(b);
            proof {
                assert(before.push(b).drop_last() =~= before);
            }
        }
        i = i + 1;
    }
    assert(bytes@.take(bytes@.len() as int) =~= bytes@);
}

} // verus!
