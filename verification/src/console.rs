//! The 80x25 text console: cell contents, cursor position and colours.
//! The cells are the VGA text buffer's contents; copying them to the screen
//! and moving the hardware cursor is left to the caller.

use vstd::prelude::*;
use vstd::string::StringSliceAdditionalSpecFns;

verus! {

pub const WIDTH: usize = 80;
pub const HEIGHT: usize = 25;
pub const CELLS: usize = 2000;
/// Light grey on black.
pub const DEFAULT_COLOR: u8 = 0x07;

/// Observable console state.
pub struct ConsoleView {
    pub cells: Seq<u16>,
    pub row: int,
    pub col: int,
    pub color: u8,
    pub inverse: bool,
    pub cursor: bool,
}

/// A colour whose foreground equals its background becomes the default.
pub open spec fn safe_color_spec(c: u8) -> u8 {
    if c & 0x0F == (c >> 4u8) & 0x0F {
        DEFAULT_COLOR
    } else {
        c
    }
}

/// The cell value of character `ch` in colour `color`.
pub open spec fn cell(ch: u8, color: u8) -> u16 {
    (color as int * 256 + ch as int) as u16
}

/// Colour used for new cells: the (healed) colour, fg/bg swapped when inverse.
pub open spec fn active(v: ConsoleView) -> u8 {
    let b = safe_color_spec(v.color);
    if v.inverse {
        ((b & 0x0F) << 4u8) | ((b & 0xF0) >> 4u8)
    } else {
        b
    }
}

/// `v` with its colour healed.
pub open spec fn healed(v: ConsoleView) -> ConsoleView {
    ConsoleView { color: safe_color_spec(v.color), ..v }
}

/// The screen blanked in the active colour, cursor home and shown, inverse off.
pub open spec fn cleared(v: ConsoleView) -> ConsoleView {
    ConsoleView {
        cells: Seq::new(CELLS as nat, |i: int| cell(32, active(v))),
        row: 0,
        col: 0,
        color: safe_color_spec(v.color),
        inverse: false,
        cursor: true,
    }
}

/// Move every line up by one, blank the last line.
pub open spec fn scroll_spec(v: ConsoleView) -> ConsoleView {
    let a = active(v);
    ConsoleView {
        cells: Seq::new(CELLS as nat, |i: int| if i < CELLS - WIDTH { v.cells[i + WIDTH] } else { cell(32, a) }),
        row: if v.row > 0 { HEIGHT - 1 } else { v.row },
        color: safe_color_spec(v.color),
        ..v
    }
}

/// New line: column 0, next row, scrolling at the bottom.
pub open spec fn newline(v: ConsoleView) -> ConsoleView {
    let w = ConsoleView { col: 0, row: v.row + 1, ..v };
    if w.row >= HEIGHT {
        scroll_spec(w)
    } else {
        w
    }
}

/// Is `ch` shown as a glyph (printable ASCII or extended code page)?
pub open spec fn printable(ch: u8) -> bool {
    0x20 <= ch && ch != 0x7F
}

/// Write a printable character at the cursor and advance.
pub open spec fn put_glyph(v: ConsoleView, ch: u8) -> ConsoleView {
    let a = active(v);
    let w = ConsoleView { cells: v.cells.update(v.row * WIDTH + v.col, cell(ch, a)), col: v.col + 1, color: safe_color_spec(v.color), ..v };
    if w.col >= WIDTH {
        newline(w)
    } else {
        w
    }
}

/// The console after `put_char(ch)`.
pub open spec fn put_spec(v: ConsoleView, ch: u8) -> ConsoleView {
    if ch == 10 {
        newline(v)
    } else if ch == 8 {
        if v.col > 0 {
            let a = active(v);
            ConsoleView { col: v.col - 1, cells: v.cells.update(v.row * WIDTH + v.col - 1, cell(32, a)), color: safe_color_spec(v.color), ..v }
        } else {
            v
        }
    } else if ch == 9 {
        put_glyph(put_glyph(put_glyph(put_glyph(v, 32), 32), 32), 32)
    } else if printable(ch) {
        put_glyph(v, ch)
    } else {
        v
    }
}

/// The cursor stays on the screen.
pub open spec fn in_bounds(v: ConsoleView) -> bool {
    &&& v.cells.len() == CELLS
    &&& 0 <= v.row < HEIGHT
    &&& 0 <= v.col < WIDTH
}

proof fn lemma_newline_bounds(v: ConsoleView)
    requires
        v.cells.len() == CELLS,
        0 <= v.row < HEIGHT,
    ensures
        in_bounds(newline(v)),
        newline(v).col == 0,
{
}

proof fn lemma_glyph_bounds(v: ConsoleView, ch: u8)
    requires
        in_bounds(v),
    ensures
        in_bounds(put_glyph(v, ch)),
{
    let w = ConsoleView { cells: v.cells.update(v.row * WIDTH + v.col, cell(ch, active(v))), col: v.col + 1, color: safe_color_spec(v.color), ..v };
    if w.col >= WIDTH {
        lemma_newline_bounds(w);
    }
}

/// What `put_char` keeps and does: the cursor stays on the screen; a
/// newline returns to column 0; a tab is four spaces; DEL and the control
/// characters other than newline, tab and backspace change nothing.
pub proof fn lemma_put_char_laws(v: ConsoleView, ch: u8)
    requires
        in_bounds(v),
    ensures
        in_bounds(put_spec(v, ch)),
        ch == 10 ==> put_spec(v, ch).col == 0,
        ch == 9 ==> put_spec(v, ch) == put_spec(put_spec(put_spec(put_spec(v, 32), 32), 32), 32),
        (ch == 0x7F || (ch < 0x20 && ch != 10 && ch != 9 && ch != 8)) ==> put_spec(v, ch) == v,
{
    if ch == 10 {
        lemma_newline_bounds(v);
    } else if ch == 9 {
        let a = put_glyph(v, 32);
        lemma_glyph_bounds(v, 32);
        let b = put_glyph(a, 32);
        lemma_glyph_bounds(a, 32);
        let c = put_glyph(b, 32);
        lemma_glyph_bounds(b, 32);
        lemma_glyph_bounds(c, 32);
    } else if printable(ch) {
        lemma_glyph_bounds(v, ch);
    }
}

/// The console after writing all of `s`.
pub open spec fn put_all(v: ConsoleView, s: Seq<u8>) -> ConsoleView
    decreases s.len(),
{
    if s.len() == 0 {
        v
    } else {
        put_spec(put_all(v, s.drop_last()), s.last())
    }
}

/// Writing `a` and then `b` shows the same as writing `a + b`.
pub proof fn lemma_put_all_concat(v: ConsoleView, a: Seq<u8>, b: Seq<u8>)
    ensures
        put_all(v, a + b) == put_all(put_all(v, a), b),
    decreases b.len(),
{
    if b.len() == 0 {
        assert(a + b =~= a);
    } else {
        lemma_put_all_concat(v, a, b.drop_last());
        assert((a + b).drop_last() =~= a + b.drop_last());
        assert((a + b).last() == b.last());
    }
}

/// Lower-case hex digit.
pub open spec fn hex_digit(d: u64) -> u8 {
    if d < 10 { (48 + d) as u8 } else { (87 + d) as u8 }
}

/// `0x` and the 16 hex digits of `v`.
pub open spec fn hex_text(v: u64) -> Seq<u8> {
    seq![48u8, 120u8] + Seq::new(16, |n: int| hex_digit((v >> ((15 - n) * 4) as u64) & 0xF))
}

pub struct Console {
    cells: Vec<u16>,
    row: usize,
    col: usize,
    color: u8,
    inverse: bool,
    cursor: bool,
}

pub fn safe_color(c: u8) -> (r: u8)
    ensures
        r == safe_color_spec(c),
{
    let fg = c & 0x0F;
    let bg = (c >> 4u8) & 0x0F;
    if fg == bg {
        DEFAULT_COLOR
    } else {
        c
    }
}

impl Console {
    pub closed spec fn view(&self) -> ConsoleView {
        ConsoleView {
            cells: self.cells@,
            row: self.row as int,
            col: self.col as int,
            color: self.color,
            inverse: self.inverse,
            cursor: self.cursor,
        }
    }

    pub closed spec fn wf(&self) -> bool {
        &&& self.cells@.len() == CELLS
        &&& self.row < HEIGHT
        &&& self.col < WIDTH
    }

    pub proof fn lemma_wf(&self)
        requires
            self.wf(),
        ensures
            self.view().cells.len() == CELLS,
            0 <= self.view().row < HEIGHT,
            0 <= self.view().col < WIDTH,
    {
    }

    /// A blank screen in the default colour, cursor at the top left.
    pub fn new() -> (c: Console)
        ensures
            c.wf(),
            c.view() == (ConsoleView {
                cells: Seq::new(CELLS as nat, |i: int| cell(32, DEFAULT_COLOR)),
                row: 0,
                col: 0,
                color: DEFAULT_COLOR,
                inverse: false,
                cursor: true,
            }),
    {
        let mut cells: Vec<u16> = Vec::new();
        while cells.len() < CELLS
            invariant
                cells@.len() <= CELLS,
                cells@ == Seq::new(cells@.len(), |i: int| cell(32, DEFAULT_COLOR)),
            decreases CELLS - cells@.len(),
        {
            cells.push(0x0720);
            assert(cells@ =~= Seq::new(cells@.len(), |i: int| cell(32, DEFAULT_COLOR)));
        }
        Console { cells, row: 0, col: 0, color: DEFAULT_COLOR, inverse: false, cursor: true }
    }

    /// The cell at index `i` (row * 80 + column).
    pub fn cell_at(&self, i: usize) -> (r: u16)
        requires
            self.wf(),
            i < CELLS,
        ensures
            r == self.view().cells[i as int],
    {
        self.cells[i]
    }

    pub fn cursor_pos(&self) -> (r: (usize, usize))
        ensures
            r.0 == self.view().row && r.1 == self.view().col,
    {
        (self.row, self.col)
    }

    pub fn set_color(&mut self, c: u8)
        ensures
            final(self).view() == (ConsoleView { color: safe_color_spec(c), ..old(self).view() }),
            old(self).wf() ==> final(self).wf(),
    {
        self.color = safe_color(c);
    }

    pub fn set_inverse(&mut self, on: bool)
        ensures
            final(self).view() == (ConsoleView { inverse: on, ..old(self).view() }),
            old(self).wf() ==> final(self).wf(),
    {
        self.inverse = on;
    }

    pub fn set_cursor_enabled(&mut self, on: bool)
        ensures
            final(self).view() == (ConsoleView { cursor: on, ..old(self).view() }),
            old(self).wf() ==> final(self).wf(),
    {
        self.cursor = on;
    }

    /// The colour for new cells; heals a colour whose fg equals its bg.
    fn active_color(&mut self) -> (r: u8)
        ensures
            r == active(old(self).view()),
            final(self).view() == healed(old(self).view()),
            old(self).wf() ==> final(self).wf(),
    {
        let base = safe_color(self.color);
        if self.color != base {
            self.color = base;
        }
        if self.inverse {
            ((base & 0x0F) << 4u8) | ((base & 0xF0) >> 4u8)
        } else {
            base
        }
    }

    /// Blank the screen in the active colour, cursor home, inverse off.
    pub fn clear(&mut self)
        requires
            old(self).wf(),
        ensures
            final(self).wf(),
            final(self).view() == cleared(old(self).view()),
    {
        let color = self.active_color();
        let v: u16 = (color as u16) * 256 + 32;
        let mut i: usize = 0;
        while i < CELLS
            invariant
                self.cells@.len() == CELLS,
                i <= CELLS,
                forall|j: int| 0 <= j < i ==> self.cells@[j] == v,
                v == cell(32, color),
                self.row == old(self).row,
                self.col == old(self).col,
                self.color == safe_color_spec(old(self).color),
                self.inverse == old(self).inverse,
                self.cursor == old(self).cursor,
            decreases CELLS - i,
        {
            self.cells.set(i, v);
            i = i + 1;
        }
        assert(self.cells@ =~= Seq::new(CELLS as nat, |i: int| cell(32, active(old(self).view()))));
        self.row = 0;
        self.col = 0;
        self.inverse = false;
        self.cursor = true;
    }

    fn scroll(&mut self)
        requires
            old(self).cells@.len() == CELLS,
        ensures
            final(self).view() == scroll_spec(old(self).view()),
            final(self).cells@.len() == CELLS,
    {
        let color = self.active_color();
        let mut i: usize = 0;
        while i < CELLS - WIDTH
            invariant
                self.cells@.len() == CELLS,
                i <= CELLS - WIDTH,
                forall|j: int| 0 <= j < i ==> self.cells@[j] == old(self).cells@[j + WIDTH],
                forall|j: int| i <= j < CELLS ==> self.cells@[j] == old(self).cells@[j],
                self.row == old(self).row,
                self.col == old(self).col,
                self.color == safe_color_spec(old(self).color),
                self.inverse == old(self).inverse,
                self.cursor == old(self).cursor,
            decreases CELLS - WIDTH - i,
        {
            let x = self.cells[i + WIDTH];
            self.cells.set(i, x);
            i = i + 1;
        }
        let v: u16 = (color as u16) * 256 + 32;
        let mut c: usize = CELLS - WIDTH;
        while c < CELLS
            invariant
                self.cells@.len() == CELLS,
                CELLS - WIDTH <= c <= CELLS,
                forall|j: int| 0 <= j < CELLS - WIDTH ==> self.cells@[j] == old(self).cells@[j + WIDTH],
                forall|j: int| CELLS - WIDTH <= j < c ==> self.cells@[j] == v,
                v == cell(32, color),
                self.row == old(self).row,
                self.col == old(self).col,
                self.color == safe_color_spec(old(self).color),
                self.inverse == old(self).inverse,
                self.cursor == old(self).cursor,
            decreases CELLS - c,
        {
            self.cells.set(c, v);
            c = c + 1;
        }
        if self.row > 0 {
            self.row = HEIGHT - 1;
        }
        assert(self.cells@ =~= scroll_spec(old(self).view()).cells);
    }

    fn newline(&mut self)
        requires
            old(self).cells@.len() == CELLS,
            old(self).row < HEIGHT,
        ensures
            final(self).wf(),
            final(self).view() == newline(old(self).view()),
    {
        self.col = 0;
        self.row = self.row + 1;
        if self.row >= HEIGHT {
            self.scroll();
        }
    }

    fn put_glyph(&mut self, ch: u8)
        requires
            old(self).wf(),
        ensures
            final(self).wf(),
            final(self).view() == put_glyph(old(self).view(), ch),
    {
        let color = self.active_color();
        let i = self.row * WIDTH + self.col;
        self.cells.set(i, (color as u16) * 256 + ch as u16);
        self.col = self.col + 1;
        if self.col >= WIDTH {
            self.newline();
        }
    }

    /// Show one byte: newline, backspace, tab (four spaces), a glyph, or nothing.
    pub fn put_char(&mut self, ch: u8)
        requires
            old(self).wf(),
        ensures
            final(self).wf(),
            final(self).view() == put_spec(old(self).view(), ch),
    {
        if ch == 10 {
            self.newline();
        } else if ch == 8 {
            if self.col > 0 {
                let color = self.active_color();
                self.col = self.col - 1;
                let i = self.row * WIDTH + self.col;
                self.cells.set(i, (color as u16) * 256 + 32);
            }
        } else if ch == 9 {
            self.put_glyph(32);
            self.put_glyph(32);
            self.put_glyph(32);
            self.put_glyph(32);
        } else if 0x20 <= ch && ch != 0x7F {
            self.put_glyph(ch);
        }
    }

    pub fn write_bytes(&mut self, s: &[u8])
        requires
            old(self).wf(),
        ensures
            final(self).wf(),
            final(self).view() == put_all(old(self).view(), s@),
    {
        let mut i: usize = 0;
        while i < s.len()
            invariant
                self.wf(),
                i <= s@.len(),
                self.view() == put_all(old(self).view(), s@.take(i as int)),
            decreases s@.len() - i,
        {
            assert(s@.take(i + 1).drop_last() =~= s@.take(i as int));
            self.put_char(s[i]);
            i = i + 1;
        }
        assert(s@.take(s@.len() as int) =~= s@);
    }

    pub fn write_str(&mut self, s: &str)
        requires
            old(self).wf(),
        ensures
            final(self).wf(),
            final(self).view() == put_all(old(self).view(), s.spec_bytes()),
    {
        self.write_bytes(s.as_bytes());
    }

    pub fn print(&mut self, s: &str)
        requires
            old(self).wf(),
        ensures
            final(self).wf(),
            final(self).view() == put_all(old(self).view(), s.spec_bytes()),
    {
        self.write_str(s);
    }

    pub fn println(&mut self, s: &str)
        requires
            old(self).wf(),
        ensures
            final(self).wf(),
            final(self).view() == put_spec(put_all(old(self).view(), s.spec_bytes()), 10),
    {
        self.write_str(s);
        self.put_char(10);
    }

    /// Decimal digits of `v`.
    pub fn write_u64(&mut self, v: u64)
        requires
            old(self).wf(),
        ensures
            final(self).wf(),
            final(self).view() == put_all(old(self).view(), crate::procfs::dec_str(v)),
    {
        let mut digits: Vec<u8> = Vec::new();
        crate::procfs::push_dec(&mut digits, v);
        self.write_bytes(digits.as_slice());
    }

    /// `0x` and 16 lower-case hex digits of `v`.
    pub fn write_hex64(&mut self, v: u64)
        requires
            old(self).wf(),
        ensures
            final(self).wf(),
            final(self).view() == put_all(old(self).view(), hex_text(v)),
    {
        let mut t: Vec<u8> = Vec::new();
        t.push(48);
        t.push(120);
        let mut n: u64 = 0;
        while n < 16
            invariant
                n <= 16,
                t@ == seq![48u8, 120u8] + Seq::new(n as nat, |k: int| hex_digit((v >> ((15 - k) * 4) as u64) & 0xF)),
            decreases 16 - n,
        {
            let shift = (15 - n) * 4;
            let nib = (v >> shift) & 0xF;
            assert(nib <= 15) by (bit_vector)
                requires
                    nib == (v >> shift) & 0xF;
            let d: u8 = if nib < 10 { 48 + nib as u8 } else { 87 + nib as u8 };
            t.push(d);
            n = n + 1;
            assert(t@ =~= seq![48u8, 120u8] + Seq::new(n as nat, |k: int| hex_digit((v >> ((15 - k) * 4) as u64) & 0xF)));
        }
        self.write_bytes(t.as_slice());
    }
}

} // verus!
