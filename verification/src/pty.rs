//! Unix98 pseudo-terminal pairs with an n_tty style line discipline.
//!
//! Master writes are cooked (`ICANON`, `ECHO`, `ISIG`) into the slave's input
//! queue; slave writes may expand `\n` to `\r\n` (`OPOST | ONLCR`) on the way
//! to the master. Reads and writes do one pass: where the kernel would let the
//! peer run and retry, they report `EAGAIN` and the caller schedules.

use vstd::prelude::*;
use crate::ring::Ring;
use vstd::string::StringSliceAdditionalSpecFns;
use crate::termios::{
    cc, default_termios, fill_default_termios, le_u32, termios_cc, termios_u32, ECHO, ECHOE, ECHOK,
    ICANON, ICRNL, ISIG, ONLCR, OPOST, TERMIOS_LEN, TOSTOP, VEOF, VERASE, VINTR, VKILL, VQUIT,
};

verus! {

pub const MAX_PTY: usize = 4;
pub const RING: usize = 1024;
pub const LINE_CAP: usize = 128;

pub const SIGINT: i32 = 2;
pub const SIGQUIT: i32 = 3;

pub const ENOENT: i32 = -2;
pub const EIO: i32 = -5;
pub const EBADF: i32 = -9;
pub const EAGAIN: i32 = -11;
pub const EINVAL: i32 = -22;

/// Controlling-terminal number of PTY `n` (0 = none, 1 = console).
pub fn ctty_for(n: usize) -> (r: i32)
    requires
        n <= 0x7FFF_FFFD,
    ensures
        r == 2 + n,
{
    2 + n as i32
}

/// PTY index named by a controlling-terminal number, if any.
pub fn index_from_ctty(ctty: i32) -> (r: Option<usize>)
    ensures
        r == (if 2 <= ctty && ctty - 2 < MAX_PTY {
            Some((ctty - 2) as usize)
        } else {
            None::<usize>
        }),
{
    if ctty >= 2 {
        let n = (ctty - 2) as usize;
        if n < MAX_PTY {
            return Some(n);
        }
    }
    None
}

struct Pty {
    used: bool,
    locked: bool,
    nmaster: u8,
    nslave: u8,
    to_slave: Ring,
    to_master: Ring,
    line: Vec<u8>,
    line_len: usize,
    termios: Vec<u8>,
    rows: u16,
    cols: u16,
    fg_pgid: i32,
    sid: i32,
}

/// Observable state of one PTY slot.
pub struct PtyState {
    pub used: bool,
    pub locked: bool,
    pub nmaster: u8,
    pub nslave: u8,
    /// Input waiting for the slave (cooked master writes).
    pub to_slave: Seq<u8>,
    /// Output waiting for the master (slave writes, echo).
    pub to_master: Seq<u8>,
    /// Canonical-mode line being edited.
    pub line: Seq<u8>,
    pub termios: Seq<u8>,
    pub rows: u16,
    pub cols: u16,
    pub fg_pgid: i32,
    pub sid: i32,
}

pub open spec fn empty_state() -> PtyState {
    PtyState {
        used: false,
        locked: true,
        nmaster: 0,
        nslave: 0,
        to_slave: Seq::empty(),
        to_master: Seq::empty(),
        line: Seq::empty(),
        termios: Seq::new(TERMIOS_LEN as nat, |i: int| 0u8),
        rows: 24,
        cols: 80,
        fg_pgid: 0,
        sid: 0,
    }
}

/// `q` after appending as much of `src` as fits in a ring of `RING` bytes.
pub open spec fn pushed(q: Seq<u8>, src: Seq<u8>) -> Seq<u8> {
    let space = RING - q.len();
    if space < src.len() {
        q + src.take(space)
    } else {
        q + src
    }
}

spec fn pty_ok(p: Pty) -> bool {
    &&& p.to_slave.wf()
    &&& p.to_slave.capacity() == RING
    &&& p.to_master.wf()
    &&& p.to_master.capacity() == RING
    &&& p.line@.len() == LINE_CAP
    &&& p.line_len <= LINE_CAP
    &&& p.termios@.len() == TERMIOS_LEN
}

pub struct PtyTable {
    ptys: Vec<Pty>,
    signals: Vec<(i32, i32)>,
}

/// Echo `b` to the master.
pub open spec fn echo(s: PtyState, b: u8) -> PtyState {
    PtyState { to_master: pushed(s.to_master, seq![b]), ..s }
}

/// ERASE in canonical mode.
pub open spec fn erased(s: PtyState, lflag: u32) -> PtyState {
    if s.line.len() == 0 {
        s
    } else {
        let s1 = PtyState { line: s.line.drop_last(), ..s };
        if lflag & ECHO == 0 {
            s1
        } else if lflag & ECHOE != 0 {
            PtyState { to_master: pushed(s1.to_master, seq![8u8, 32u8, 8u8]), ..s1 }
        } else {
            echo(s1, 8)
        }
    }
}

/// One input byte through the line discipline: the new state and the signal
/// (process group, signal number) to deliver, if any.
pub open spec fn cook(s: PtyState, raw: u8) -> (PtyState, Option<(i32, i32)>) {
    let iflag = le_u32(s.termios, 0);
    let lflag = le_u32(s.termios, 12);
    let vintr = cc(s.termios, VINTR as int);
    let vquit = cc(s.termios, VQUIT as int);
    let verase = cc(s.termios, VERASE as int);
    let vkill = cc(s.termios, VKILL as int);
    let veof = cc(s.termios, VEOF as int);
    let b: u8 = if iflag & ICRNL != 0 && raw == 13 { 10 } else { raw };
    if lflag & ISIG != 0 && b != 0 && (b == vintr || b == vquit) {
        (s, if s.fg_pgid > 0 {
            Some((s.fg_pgid, if b == vquit { SIGQUIT } else { SIGINT }))
        } else {
            None
        })
    } else if lflag & ICANON == 0 {
        let s1 = PtyState { to_slave: pushed(s.to_slave, seq![b]), ..s };
        (if lflag & ECHO != 0 { echo(s1, b) } else { s1 }, None)
    } else if b == verase || b == 8 {
        (erased(s, lflag), None)
    } else if b == vkill {
        let s1 = PtyState { line: Seq::empty(), ..s };
        (if lflag & ECHOK != 0 || lflag & ECHO != 0 { echo(s1, 10) } else { s1 }, None)
    } else if b == veof {
        (if s.line.len() > 0 {
            PtyState { to_slave: pushed(s.to_slave, s.line), line: Seq::empty(), ..s }
        } else {
            s
        }, None)
    } else if b == 10 {
        let s1 = PtyState { to_slave: pushed(s.to_slave, s.line.push(10)), line: Seq::empty(), ..s };
        (if lflag & ECHO != 0 { echo(s1, 10) } else { s1 }, None)
    } else if s.line.len() < LINE_CAP {
        let s1 = PtyState { line: s.line.push(b), ..s };
        (if lflag & ECHO != 0 { echo(s1, b) } else { s1 }, None)
    } else {
        (s, None)
    }
}

/// In canonical mode a newline that is not set up as a control character
/// completes the line: the pending line and then the newline byte itself
/// go to the slave's input (as much as the ring holds), the line is
/// emptied and no signal is raised.
pub proof fn lemma_newline_delivers_line(s: PtyState)
    requires
        le_u32(s.termios, 12) & ICANON != 0,
        !(le_u32(s.termios, 12) & ISIG != 0 && (cc(s.termios, VINTR as int) == 10 || cc(s.termios, VQUIT as int) == 10)),
        cc(s.termios, VERASE as int) != 10,
        cc(s.termios, VKILL as int) != 10,
        cc(s.termios, VEOF as int) != 10,
        s.to_slave.len() <= RING,
    ensures
        cook(s, 10).1 is None,
        cook(s, 10).0.line.len() == 0,
        ({
            let all = s.to_slave + s.line + seq![10u8];
            cook(s, 10).0.to_slave == all.take(if all.len() < RING { all.len() as int } else { RING as int })
        }),
        s.to_slave.len() + s.line.len() + 1 <= RING ==> cook(s, 10).0.to_slave == s.to_slave + s.line + seq![10u8],
{
    let all = s.to_slave + s.line + seq![10u8];
    let src = s.line.push(10);
    assert(s.to_slave + src =~= all);
    let r = cook(s, 10).0.to_slave;
    assert(r == pushed(s.to_slave, src));
    if RING - s.to_slave.len() < src.len() {
        assert(s.to_slave + src.take(RING - s.to_slave.len()) =~= all.take(RING as int));
    } else {
        assert(all.take(all.len() as int) =~= all);
    }
}

/// Cooking state over a stream: PTY state, signals raised, and whether a signal
/// aimed at the writer's own process group stopped the stream.
pub open spec fn cook_step(rs: (PtyState, Seq<(i32, i32)>, bool), b: u8, me: i32) -> (
    PtyState,
    Seq<(i32, i32)>,
    bool,
) {
    if rs.2 {
        rs
    } else {
        let (s1, sig) = cook(rs.0, b);
        match sig {
            Some(p) => (s1, rs.1.push(p), p.0 == me),
            None => (s1, rs.1, false),
        }
    }
}

pub open spec fn cook_all(s: PtyState, data: Seq<u8>, me: i32) -> (PtyState, Seq<(i32, i32)>, bool)
    decreases data.len(),
{
    if data.len() == 0 {
        (s, Seq::empty(), false)
    } else {
        cook_step(cook_all(s, data.drop_last(), me), data.last(), me)
    }
}

impl PtyTable {
    pub closed spec fn state(&self, n: int) -> PtyState {
        let p = self.ptys@[n];
        PtyState {
            used: p.used,
            locked: p.locked,
            nmaster: p.nmaster,
            nslave: p.nslave,
            to_slave: p.to_slave@,
            to_master: p.to_master@,
            line: p.line@.take(p.line_len as int),
            termios: p.termios@,
            rows: p.rows,
            cols: p.cols,
            fg_pgid: p.fg_pgid,
            sid: p.sid,
        }
    }

    /// Signals raised by input and not yet delivered, oldest first.
    pub closed spec fn pending_signals(&self) -> Seq<(i32, i32)> {
        self.signals@
    }

    pub closed spec fn wf(&self) -> bool {
        &&& self.ptys@.len() == MAX_PTY
        &&& forall|i: int| 0 <= i < MAX_PTY ==> pty_ok(#[trigger] self.ptys@[i])
    }

    /// Every slot except `n`, and the signal queue, as in `other`.
    pub open spec fn others_same(&self, other: &PtyTable, n: int) -> bool {
        &&& forall|j: int| 0 <= j < MAX_PTY && j != n ==> #[trigger] self.state(j) == other.state(j)
        &&& self.pending_signals() == other.pending_signals()
    }

    pub open spec fn unchanged(&self, other: &PtyTable) -> bool {
        &&& forall|j: int| 0 <= j < MAX_PTY ==> #[trigger] self.state(j) == other.state(j)
        &&& self.pending_signals() == other.pending_signals()
    }

    pub proof fn lemma_state(&self, n: int)
        requires
            self.wf(),
            0 <= n < MAX_PTY,
        ensures
            self.state(n).to_slave.len() <= RING,
            self.state(n).to_master.len() <= RING,
            self.state(n).line.len() <= LINE_CAP,
            self.state(n).termios.len() == TERMIOS_LEN,
    {
        assert(pty_ok(self.ptys@[n]));
        self.ptys@[n].to_slave.lemma_wf();
        self.ptys@[n].to_master.lemma_wf();
    }

    fn empty_pty() -> (p: Pty)
        ensures
            pty_ok(p),
            p.used == false,
            p.locked,
            p.nmaster == 0,
            p.nslave == 0,
            p.to_slave@ == Seq::<u8>::empty(),
            p.to_master@ == Seq::<u8>::empty(),
            p.line_len == 0,
            p.termios@ == Seq::new(TERMIOS_LEN as nat, |i: int| 0u8),
            p.rows == 24,
            p.cols == 80,
            p.fg_pgid == 0,
            p.sid == 0,
    {
        let mut line: Vec<u8> = Vec::new();
        let mut i: usize = 0;
        while i < LINE_CAP
            invariant
                i <= LINE_CAP,
                line@.len() == i,
            decreases LINE_CAP - i,
        {
            line.push(0);
            i = i + 1;
        }
        let mut termios: Vec<u8> = Vec::new();
        let mut j: usize = 0;
        while j < TERMIOS_LEN
            invariant
                j <= TERMIOS_LEN,
                termios@.len() == j,
                forall|k: int| 0 <= k < j ==> termios@[k] == 0u8,
            decreases TERMIOS_LEN - j,
        {
            termios.push(0);
            j = j + 1;
        }
        assert(termios@ =~= Seq::new(TERMIOS_LEN as nat, |i: int| 0u8));
        Pty {
            used: false,
            locked: true,
            nmaster: 0,
            nslave: 0,
            to_slave: Ring::new(RING),
            to_master: Ring::new(RING),
            line,
            line_len: 0,
            termios,
            rows: 24,
            cols: 80,
            fg_pgid: 0,
            sid: 0,
        }
    }

    /// All PTYs free, no pending signal.
    pub fn new() -> (t: PtyTable)
        ensures
            t.wf(),
            forall|i: int| 0 <= i < MAX_PTY ==> t.state(i) == empty_state(),
            t.pending_signals() == Seq::<(i32, i32)>::empty(),
    {
        let mut ptys: Vec<Pty> = Vec::new();
        let mut i: usize = 0;
        while i < MAX_PTY
            invariant
                i <= MAX_PTY,
                ptys@.len() == i,
                forall|j: int|
                    0 <= j < i ==> pty_ok(#[trigger] ptys@[j]) && !ptys@[j].used && ptys@[j].locked
                        && ptys@[j].nmaster == 0 && ptys@[j].nslave == 0 && ptys@[j].to_slave@
                        == Seq::<u8>::empty() && ptys@[j].to_master@ == Seq::<u8>::empty()
                        && ptys@[j].line_len == 0 && ptys@[j].termios@ == Seq::new(
                        TERMIOS_LEN as nat,
                        |i: int| 0u8,
                    ) && ptys@[j].rows == 24 && ptys@[j].cols == 80 && ptys@[j].fg_pgid == 0
                        && ptys@[j].sid == 0,
            decreases MAX_PTY - i,
        {
            ptys.push(Self::empty_pty());
            i = i + 1;
        }
        let t = PtyTable { ptys, signals: Vec::new() };
        assert forall|j: int| 0 <= j < MAX_PTY implies t.state(j) == empty_state() by {
            assert(t.state(j).line =~= Seq::<u8>::empty());
        }
        t
    }

    /// Take the pending signals (oldest first) for delivery.
    pub fn take_signals(&mut self) -> (sigs: Vec<(i32, i32)>)
        ensures
            sigs@ == old(self).pending_signals(),
            final(self).pending_signals() == Seq::<(i32, i32)>::empty(),
            forall|j: int| 0 <= j < MAX_PTY ==> #[trigger] final(self).state(j) == old(self).state(j),
            final(self).wf() == old(self).wf(),
    {
        let mut out: Vec<(i32, i32)> = Vec::new();
        std::mem::swap(&mut out, &mut self.signals);
        out
    }
}


impl PtyTable {
    /// Allocate the lowest free pair for a new master; the slave starts locked.
    pub fn open_master(&mut self) -> (r: Result<usize, ()>)
        requires
            old(self).wf(),
        ensures
            final(self).wf(),
            match r {
                Ok(i) => {
                    &&& i < MAX_PTY
                    &&& !old(self).state(i as int).used
                    &&& forall|j: int| 0 <= j < i ==> old(self).state(j).used
                    &&& final(self).state(i as int) == (PtyState {
                        used: true,
                        locked: true,
                        nmaster: 1,
                        nslave: 0,
                        termios: default_termios(),
                        ..empty_state()
                    })
                    &&& final(self).others_same(old(self), i as int)
                },
                Err(_) => {
                    &&& forall|j: int| 0 <= j < MAX_PTY ==> old(self).state(j).used
                    &&& final(self).unchanged(old(self))
                },
            },
    {
        let mut i: usize = 0;
        while i < MAX_PTY
            invariant
                self.wf(),
                i <= MAX_PTY,
                *self == *old(self),
                forall|j: int| 0 <= j < i ==> old(self).state(j).used,
            decreases MAX_PTY - i,
        {
            if !self.ptys[i].used {
                let ghost before = self.ptys@;
                let mut p = Self::empty_pty();
                p.used = true;
                p.locked = true;
                p.nmaster = 1;
                p.nslave = 0;
                fill_default_termios(p.termios.as_mut_slice());
                self.ptys.set(i, p);
                proof {
                    assert(self.state(i as int).line =~= Seq::<u8>::empty());
                    assert forall|j: int| 0 <= j < MAX_PTY && j != i implies #[trigger] self.state(j)
                        == old(self).state(j) by {
                        assert(self.ptys@[j] == before[j]);
                    }
                }
                return Ok(i);
            }
            i = i + 1;
        }
        Err(())
    }

    /// Open the slave of pair `n`: `ENOENT` unless allocated, `EIO` while locked.
    pub fn open_slave(&mut self, n: usize) -> (r: Result<usize, i32>)
        requires
            old(self).wf(),
        ensures
            final(self).wf(),
            n >= MAX_PTY || !old(self).state(n as int).used ==> r == Err::<usize, i32>(ENOENT)
                && final(self).unchanged(old(self)),
            n < MAX_PTY && old(self).state(n as int).used && old(self).state(n as int).locked ==> r
                == Err::<usize, i32>(EIO) && final(self).unchanged(old(self)),
            n < MAX_PTY && old(self).state(n as int).used && !old(self).state(n as int).locked ==> r
                == Ok::<usize, i32>(n) && final(self).others_same(old(self), n as int) && final(self).state(n as int) == (PtyState {
                nslave: sat_inc(old(self).state(n as int).nslave),
                ..old(self).state(n as int)
            }),
    {
        if n >= MAX_PTY {
            return Err(ENOENT);
        }
        if !self.ptys[n].used {
            return Err(ENOENT);
        }
        if self.ptys[n].locked {
            return Err(EIO);
        }
        let v = self.ptys[n].nslave;
        self.ptys[n].nslave = v.saturating_add(1);
        Ok(n)
    }

    /// Another master reference to pair `n` (ignored unless allocated).
    pub fn dup_master(&mut self, n: usize)
        requires
            old(self).wf(),
        ensures
            final(self).wf(),
            n < MAX_PTY && old(self).state(n as int).used ==> final(self).others_same(old(self), n as int)
                && final(self).state(n as int) == (PtyState {
                nmaster: sat_inc(old(self).state(n as int).nmaster),
                ..old(self).state(n as int)
            }),
            !(n < MAX_PTY && old(self).state(n as int).used) ==> final(self).unchanged(old(self)),
    {
        if n < MAX_PTY && self.ptys[n].used {
            let v = self.ptys[n].nmaster;
            self.ptys[n].nmaster = v.saturating_add(1);
        }
    }

    /// Another slave reference to pair `n` (ignored unless allocated).
    pub fn dup_slave(&mut self, n: usize)
        requires
            old(self).wf(),
        ensures
            final(self).wf(),
            n < MAX_PTY && old(self).state(n as int).used ==> final(self).others_same(old(self), n as int)
                && final(self).state(n as int) == (PtyState {
                nslave: sat_inc(old(self).state(n as int).nslave),
                ..old(self).state(n as int)
            }),
            !(n < MAX_PTY && old(self).state(n as int).used) ==> final(self).unchanged(old(self)),
    {
        if n < MAX_PTY && self.ptys[n].used {
            let v = self.ptys[n].nslave;
            self.ptys[n].nslave = v.saturating_add(1);
        }
    }

    fn maybe_free(&mut self, n: usize)
        requires
            old(self).wf(),
            n < MAX_PTY,
        ensures
            final(self).wf(),
            final(self).others_same(old(self), n as int),
            final(self).state(n as int) == (if old(self).state(n as int).nmaster == 0 && old(self).state(n as int).nslave == 0 {
                empty_state()
            } else {
                old(self).state(n as int)
            }),
    {
        if self.ptys[n].nmaster == 0 && self.ptys[n].nslave == 0 {
            let ghost before = self.ptys@;
            self.ptys.set(n, Self::empty_pty());
            proof {
                assert(self.state(n as int).line =~= Seq::<u8>::empty());
                assert forall|j: int| 0 <= j < MAX_PTY && j != n implies #[trigger] self.state(j)
                    == old(self).state(j) by {
                    assert(self.ptys@[j] == before[j]);
                }
            }
        }
    }

    /// Drop a master reference; the pair is freed when neither side is open.
    pub fn close_master(&mut self, n: usize)
        requires
            old(self).wf(),
        ensures
            final(self).wf(),
            close_post(*old(self), *final(self), n, true),
    {
        if n >= MAX_PTY {
            return;
        }
        if !self.ptys[n].used {
            return;
        }
        if self.ptys[n].nmaster > 0 {
            self.ptys[n].nmaster = self.ptys[n].nmaster - 1;
        }
        self.maybe_free(n);
    }

    /// Drop a slave reference; the pair is freed when neither side is open.
    pub fn close_slave(&mut self, n: usize)
        requires
            old(self).wf(),
        ensures
            final(self).wf(),
            close_post(*old(self), *final(self), n, false),
    {
        if n >= MAX_PTY {
            return;
        }
        if !self.ptys[n].used {
            return;
        }
        if self.ptys[n].nslave > 0 {
            self.ptys[n].nslave = self.ptys[n].nslave - 1;
        }
        self.maybe_free(n);
    }

    pub fn is_used(&self, n: usize) -> (r: bool)
        requires
            self.wf(),
        ensures
            r == (n < MAX_PTY && self.state(n as int).used),
    {
        n < MAX_PTY && self.ptys[n].used
    }

    pub fn is_locked(&self, n: usize) -> (r: bool)
        requires
            self.wf(),
        ensures
            r == (n < MAX_PTY && self.state(n as int).used && self.state(n as int).locked),
    {
        n < MAX_PTY && self.ptys[n].used && self.ptys[n].locked
    }

    /// TIOCSPTLCK: lock or unlock the slave; false unless the pair is allocated.
    pub fn set_locked(&mut self, n: usize, locked: bool) -> (r: bool)
        requires
            old(self).wf(),
        ensures
            final(self).wf(),
            r == (n < MAX_PTY && old(self).state(n as int).used),
            r ==> final(self).others_same(old(self), n as int) && final(self).state(n as int) == (
            PtyState { locked, ..old(self).state(n as int) }),
            !r ==> final(self).unchanged(old(self)),
    {
        if n >= MAX_PTY || !self.ptys[n].used {
            return false;
        }
        self.ptys[n].locked = locked;
        true
    }

    /// Window size (rows, cols); 24×80 unless the pair is allocated.
    pub fn winsize(&self, n: usize) -> (r: (u16, u16))
        requires
            self.wf(),
        ensures
            r == (if n < MAX_PTY && self.state(n as int).used {
                (self.state(n as int).rows, self.state(n as int).cols)
            } else {
                (24u16, 80u16)
            }),
    {
        if n >= MAX_PTY || !self.ptys[n].used {
            return (24, 80);
        }
        (self.ptys[n].rows, self.ptys[n].cols)
    }

    /// Set the window size; a zero dimension is left unchanged.
    pub fn set_winsize(&mut self, n: usize, rows: u16, cols: u16)
        requires
            old(self).wf(),
        ensures
            final(self).wf(),
            n < MAX_PTY && old(self).state(n as int).used ==> final(self).others_same(old(self), n as int)
                && final(self).state(n as int) == (PtyState {
                rows: if rows > 0 { rows } else { old(self).state(n as int).rows },
                cols: if cols > 0 { cols } else { old(self).state(n as int).cols },
                ..old(self).state(n as int)
            }),
            !(n < MAX_PTY && old(self).state(n as int).used) ==> final(self).unchanged(old(self)),
    {
        if n >= MAX_PTY || !self.ptys[n].used {
            return;
        }
        if rows > 0 {
            self.ptys[n].rows = rows;
        }
        if cols > 0 {
            self.ptys[n].cols = cols;
        }
    }

    /// Foreground process group (0 unless allocated).
    pub fn fg_pgid(&self, n: usize) -> (r: i32)
        requires
            self.wf(),
        ensures
            r == (if n < MAX_PTY && self.state(n as int).used { self.state(n as int).fg_pgid } else { 0 }),
    {
        if n >= MAX_PTY || !self.ptys[n].used {
            return 0;
        }
        self.ptys[n].fg_pgid
    }

    /// Set the foreground process group (positive groups only).
    pub fn set_fg_pgid(&mut self, n: usize, pgid: i32)
        requires
            old(self).wf(),
        ensures
            final(self).wf(),
            n < MAX_PTY && old(self).state(n as int).used && pgid > 0 ==> final(self).others_same(
                old(self),
                n as int,
            ) && final(self).state(n as int) == (PtyState { fg_pgid: pgid, ..old(self).state(n as int) }),
            !(n < MAX_PTY && old(self).state(n as int).used && pgid > 0) ==> final(self).unchanged(old(self)),
    {
        if n < MAX_PTY && self.ptys[n].used && pgid > 0 {
            self.ptys[n].fg_pgid = pgid;
        }
    }

    /// Session owning the terminal (0 unless allocated).
    pub fn sid(&self, n: usize) -> (r: i32)
        requires
            self.wf(),
        ensures
            r == (if n < MAX_PTY && self.state(n as int).used { self.state(n as int).sid } else { 0 }),
    {
        if n >= MAX_PTY || !self.ptys[n].used {
            return 0;
        }
        self.ptys[n].sid
    }

    pub fn set_sid(&mut self, n: usize, sid: i32)
        requires
            old(self).wf(),
        ensures
            final(self).wf(),
            n < MAX_PTY && old(self).state(n as int).used ==> final(self).others_same(old(self), n as int)
                && final(self).state(n as int) == (PtyState { sid, ..old(self).state(n as int) }),
            !(n < MAX_PTY && old(self).state(n as int).used) ==> final(self).unchanged(old(self)),
    {
        if n < MAX_PTY && self.ptys[n].used {
            self.ptys[n].sid = sid;
        }
    }

    /// Copy the termios image (as much as fits) into `out`.
    pub fn get_termios(&self, n: usize, out: &mut [u8])
        requires
            self.wf(),
        ensures
            n < MAX_PTY && self.state(n as int).used ==> final(out)@ == {
                let k = if old(out)@.len() < TERMIOS_LEN { old(out)@.len() as int } else { TERMIOS_LEN as int };
                self.state(n as int).termios.take(k) + old(out)@.skip(k)
            },
            !(n < MAX_PTY && self.state(n as int).used) ==> final(out)@ == old(out)@,
    {
        if n >= MAX_PTY || !self.ptys[n].used {
            return;
        }
        proof {
            self.lemma_state(n as int);
        }
        let k = if out.len() < TERMIOS_LEN { out.len() } else { TERMIOS_LEN };
        let ghost out0 = out@;
        let mut i: usize = 0;
        while i < k
            invariant
                self.wf(),
                n < MAX_PTY,
                k <= TERMIOS_LEN,
                k <= out@.len(),
                out@.len() == out0.len(),
                self.ptys@[n as int].termios@.len() == TERMIOS_LEN,
                i <= k,
                forall|j: int| 0 <= j < i ==> out@[j] == self.ptys@[n as int].termios@[j],
                forall|j: int| i <= j < out@.len() ==> out@[j] == out0[j],
            decreases k - i,
        {
            out[i] = self.ptys[n].termios[i];
            i = i + 1;
        }
        assert(out@ =~= self.state(n as int).termios.take(k as int) + out0.skip(k as int));
    }
}

/// `v + 1`, saturating at 255.
pub open spec fn sat_inc(v: u8) -> u8 {
    if v == 255 { 255 } else { (v + 1) as u8 }
}

/// What closing one side does.
pub open spec fn close_post(a: PtyTable, b: PtyTable, n: usize, master: bool) -> bool {
    if n >= MAX_PTY || !a.state(n as int).used {
        b.unchanged(&a)
    } else {
        let s = a.state(n as int);
        let nm: u8 = if master && s.nmaster > 0 { (s.nmaster - 1) as u8 } else { s.nmaster };
        let ns: u8 = if !master && s.nslave > 0 { (s.nslave - 1) as u8 } else { s.nslave };
        &&& b.others_same(&a, n as int)
        &&& b.state(n as int) == (if nm == 0 && ns == 0 {
            empty_state()
        } else {
            PtyState { nmaster: nm, nslave: ns, ..s }
        })
    }
}

impl PtyTable {
    /// Append to the slave's input queue (as much as fits); 0 unless allocated.
    fn push_slave(&mut self, n: usize, data: &[u8]) -> (k: usize)
        requires
            old(self).wf(),
            n < MAX_PTY,
            old(self).state(n as int).used,
        ensures
            final(self).wf(),
            final(self).others_same(old(self), n as int),
            final(self).state(n as int) == (PtyState {
                to_slave: pushed(old(self).state(n as int).to_slave, data@),
                ..old(self).state(n as int)
            }),
            k == (if RING - old(self).state(n as int).to_slave.len() < data@.len() {
                RING - old(self).state(n as int).to_slave.len()
            } else {
                data@.len() as int
            }),
    {
        proof {
            self.lemma_state(n as int);
        }
        let k = self.ptys[n].to_slave.push(data);
        proof {
            assert(self.state(n as int).to_slave =~= pushed(old(self).state(n as int).to_slave, data@));
        }
        k
    }

    /// Append to the master's output queue (as much as fits).
    fn push_master(&mut self, n: usize, data: &[u8]) -> (k: usize)
        requires
            old(self).wf(),
            n < MAX_PTY,
            old(self).state(n as int).used,
        ensures
            final(self).wf(),
            final(self).others_same(old(self), n as int),
            final(self).state(n as int) == (PtyState {
                to_master: pushed(old(self).state(n as int).to_master, data@),
                ..old(self).state(n as int)
            }),
            k == (if RING - old(self).state(n as int).to_master.len() < data@.len() {
                RING - old(self).state(n as int).to_master.len()
            } else {
                data@.len() as int
            }),
    {
        proof {
            self.lemma_state(n as int);
        }
        let k = self.ptys[n].to_master.push(data);
        proof {
            assert(self.state(n as int).to_master =~= pushed(old(self).state(n as int).to_master, data@));
        }
        k
    }

    fn echo_byte(&mut self, n: usize, b: u8)
        requires
            old(self).wf(),
            n < MAX_PTY,
            old(self).state(n as int).used,
        ensures
            final(self).wf(),
            final(self).others_same(old(self), n as int),
            final(self).state(n as int) == echo(old(self).state(n as int), b),
    {
        let a = [b];
        assert(a@ =~= seq![b]);
        self.push_master(n, a.as_slice());
    }

    /// The line being edited, as bytes.
    fn line_copy(&self, n: usize, extra_newline: bool) -> (v: Vec<u8>)
        requires
            self.wf(),
            n < MAX_PTY,
        ensures
            v@ == (if extra_newline {
                self.state(n as int).line.push(10)
            } else {
                self.state(n as int).line
            }),
    {
        let len = self.ptys[n].line_len;
        assert(pty_ok(self.ptys@[n as int]));
        let mut v: Vec<u8> = Vec::new();
        let mut i: usize = 0;
        while i < len
            invariant
                self.wf(),
                n < MAX_PTY,
                len == self.ptys@[n as int].line_len,
                len <= self.ptys@[n as int].line@.len(),
                i <= len,
                v@ == self.ptys@[n as int].line@.take(i as int),
            decreases len - i,
        {
            v.push(self.ptys[n].line[i]);
            i = i + 1;
            assert(v@ =~= self.ptys@[n as int].line@.take(i as int));
        }
        if extra_newline {
            v.push(10);
        }
        v
    }

    fn erase_one(&mut self, n: usize, lflag: u32)
        requires
            old(self).wf(),
            n < MAX_PTY,
            old(self).state(n as int).used,
        ensures
            final(self).wf(),
            final(self).others_same(old(self), n as int),
            final(self).state(n as int) == erased(old(self).state(n as int), lflag),
    {
        if self.ptys[n].line_len == 0 {
            return;
        }
        self.ptys[n].line_len = self.ptys[n].line_len - 1;
        proof {
            assert(self.state(n as int).line =~= old(self).state(n as int).line.drop_last());
        }
        if (lflag & ECHO) == 0 {
            return;
        }
        if (lflag & ECHOE) != 0 {
            let a = [8u8, 32u8, 8u8];
            assert(a@ =~= seq![8u8, 32u8, 8u8]);
            self.push_master(n, a.as_slice());
        } else {
            self.echo_byte(n, 8);
        }
    }

    /// Feed one byte from the master through the line discipline.
    fn input_byte(&mut self, n: usize, raw: u8) -> (sig: Option<(i32, i32)>)
        requires
            old(self).wf(),
            n < MAX_PTY,
            old(self).state(n as int).used,
        ensures
            final(self).wf(),
            final(self).others_same(old(self), n as int),
            (final(self).state(n as int), sig) == cook(old(self).state(n as int), raw),
    {
        proof {
            self.lemma_state(n as int);
        }
        let iflag = termios_u32(self.ptys[n].termios.as_slice(), 0);
        let lflag = termios_u32(self.ptys[n].termios.as_slice(), 12);
        let vintr = termios_cc(self.ptys[n].termios.as_slice(), VINTR);
        let vquit = termios_cc(self.ptys[n].termios.as_slice(), VQUIT);
        let verase = termios_cc(self.ptys[n].termios.as_slice(), VERASE);
        let vkill = termios_cc(self.ptys[n].termios.as_slice(), VKILL);
        let veof = termios_cc(self.ptys[n].termios.as_slice(), VEOF);
        let ghost s0 = self.state(n as int);
        let mut b = raw;
        if (iflag & ICRNL) != 0 && b == 13 {
            b = 10;
        }
        if (lflag & ISIG) != 0 && b != 0 && (b == vintr || b == vquit) {
            let pg = self.ptys[n].fg_pgid;
            let sig = if b == vquit { SIGQUIT } else { SIGINT };
            if pg > 0 {
                return Some((pg, sig));
            }
            return None;
        }
        if (lflag & ICANON) == 0 {
            let a = [b];
            assert(a@ =~= seq![b]);
            self.push_slave(n, a.as_slice());
            if (lflag & ECHO) != 0 {
                self.echo_byte(n, b);
            }
            return None;
        }
        if b == verase || b == 8 {
            self.erase_one(n, lflag);
            return None;
        }
        if b == vkill {
            self.ptys[n].line_len = 0;
            proof {
                assert(self.state(n as int).line =~= Seq::<u8>::empty());
            }
            if (lflag & ECHOK) != 0 || (lflag & ECHO) != 0 {
                self.echo_byte(n, 10);
            }
            return None;
        }
        if b == veof {
            if self.ptys[n].line_len > 0 {
                let tmp = self.line_copy(n, false);
                self.ptys[n].line_len = 0;
                proof {
                    assert(self.state(n as int).line =~= Seq::<u8>::empty());
                }
                self.push_slave(n, tmp.as_slice());
            }
            return None;
        }
        if b == 10 {
            let tmp = self.line_copy(n, true);
            self.ptys[n].line_len = 0;
            proof {
                assert(self.state(n as int).line =~= Seq::<u8>::empty());
            }
            self.push_slave(n, tmp.as_slice());
            if (lflag & ECHO) != 0 {
                self.echo_byte(n, 10);
            }
            return None;
        }
        let len = self.ptys[n].line_len;
        if len < LINE_CAP {
            assert(pty_ok(self.ptys@[n as int]));
            self.ptys[n].line.set(len, b);
            self.ptys[n].line_len = len + 1;
            proof {
                assert(self.state(n as int).line =~= s0.line.push(b));
            }
            if (lflag & ECHO) != 0 {
                self.echo_byte(n, b);
            }
        }
        None
    }

    /// Master write: every byte goes through the line discipline into the slave's
    /// input (with echo back to the master). Signals raised by INTR/QUIT are queued;
    /// one aimed at `me_pgid` (the writer's own group) ends the write, since the
    /// writer is about to die of it.
    pub fn master_write(&mut self, n: usize, data: &[u8], me_pgid: i32) -> (r: Result<usize, i32>)
        requires
            old(self).wf(),
        ensures
            final(self).wf(),
            n >= MAX_PTY ==> r == Err::<usize, i32>(EINVAL) && final(self).unchanged(old(self)),
            n < MAX_PTY && data@.len() == 0 ==> r == Ok::<usize, i32>(0) && final(self).unchanged(old(self)),
            n < MAX_PTY && data@.len() > 0 && !old(self).state(n as int).used ==> r == Err::<usize, i32>(EBADF)
                && final(self).unchanged(old(self)),
            n < MAX_PTY && data@.len() > 0 && old(self).state(n as int).used ==> {
                let run = cook_all(old(self).state(n as int), data@, me_pgid);
                &&& r == Ok::<usize, i32>(data@.len() as usize)
                &&& final(self).state(n as int) == run.0
                &&& final(self).pending_signals() == old(self).pending_signals() + run.1
                &&& forall|j: int| 0 <= j < MAX_PTY && j != n ==> #[trigger] final(self).state(j) == old(self).state(j)
            },
    {
        if n >= MAX_PTY {
            return Err(EINVAL);
        }
        if data.len() == 0 {
            return Ok(0);
        }
        if !self.ptys[n].used {
            return Err(EBADF);
        }
        let mut stopped = false;
        let mut i: usize = 0;
        while i < data.len()
            invariant
                self.wf(),
                n < MAX_PTY,
                i <= data@.len(),
                self.state(n as int).used,
                ({
                    let run = cook_all(old(self).state(n as int), data@.take(i as int), me_pgid);
                    &&& self.state(n as int) == run.0
                    &&& self.pending_signals() == old(self).pending_signals() + run.1
                    &&& stopped == run.2
                }),
                forall|j: int| 0 <= j < MAX_PTY && j != n ==> #[trigger] self.state(j) == old(self).state(j),
            decreases data@.len() - i,
        {
            proof {
                assert(data@.take(i + 1).drop_last() =~= data@.take(i as int));
                assert(data@.take(i + 1).last() == data@[i as int]);
            }
            if !stopped {
                let ghost sigs0 = self.signals@;
                let sig = self.input_byte(n, data[i]);
                let ghost mid = *self;
                match sig {
                    Some(p) => {
                        self.signals.push(p);
                        assert(self.ptys@ == mid.ptys@);
                        assert forall|j: int| 0 <= j < MAX_PTY implies #[trigger] self.state(j) == mid.state(j) by {}
                        if p.0 == me_pgid {
                            stopped = true;
                        }
                    },
                    None => {},
                }
                proof {
                    let prev = cook_all(old(self).state(n as int), data@.take(i as int), me_pgid);
                    assert(self.pending_signals() =~= old(self).pending_signals() + cook_all(
                        old(self).state(n as int),
                        data@.take(i + 1),
                        me_pgid,
                    ).1);
                }
            }
            i = i + 1;
        }
        proof {
            assert(data@.take(data@.len() as int) =~= data@);
        }
        Ok(data.len())
    }
}

/// Slave output with every `\n` expanded to `\r\n`.
pub open spec fn onlcr(d: Seq<u8>) -> Seq<u8>
    decreases d.len(),
{
    if d.len() == 0 {
        Seq::empty()
    } else {
        onlcr(d.drop_last()) + if d.last() == 10 {
            seq![13u8, 10u8]
        } else {
            seq![d.last()]
        }
    }
}

/// Bytes of the expanded output still in the 256-byte staging buffer after `d`
/// (the buffer is flushed before a byte that might not fit).
pub open spec fn staged(d: Seq<u8>) -> int
    decreases d.len(),
{
    if d.len() == 0 {
        0
    } else {
        let o = staged(d.drop_last());
        let o1 = if o + 2 > 256 { 0 } else { o };
        o1 + if d.last() == 10 { 2int } else { 1int }
    }
}

pub proof fn lemma_staged(d: Seq<u8>)
    ensures
        0 <= staged(d) <= 256,
        staged(d) <= onlcr(d).len(),
        d.len() > 0 ==> staged(d) > 0,
    decreases d.len(),
{
    if d.len() > 0 {
        lemma_staged(d.drop_last());
    }
}

/// Pushing in two steps is pushing the concatenation.
pub proof fn lemma_pushed_concat(q: Seq<u8>, a: Seq<u8>, b: Seq<u8>)
    requires
        q.len() <= RING,
    ensures
        pushed(pushed(q, a), b) == pushed(q, a + b),
        pushed(q, a).len() <= RING,
{
    let space = RING - q.len();
    if space < a.len() {
        assert(pushed(q, a).len() == RING);
        assert(pushed(pushed(q, a), b) =~= pushed(q, a));
        assert(pushed(q, a + b) =~= pushed(q, a));
    } else {
        let q1 = q + a;
        if RING - q1.len() < b.len() {
            assert(pushed(q1, b) =~= q + (a + b).take(space));
        } else {
            assert(pushed(q1, b) =~= q + (a + b));
        }
    }
}

/// What a slave write with `OPOST | ONLCR` leaves in the master's queue and
/// returns: `EAGAIN` when the queue was already full before the final staged
/// chunk, otherwise the whole input length.
pub open spec fn onlcr_result(q: Seq<u8>, d: Seq<u8>) -> Result<usize, i32> {
    let t = onlcr(d).len();
    if q.len() + (t - staged(d)) >= RING {
        Err(EAGAIN)
    } else {
        Ok(d.len() as usize)
    }
}

impl PtyTable {
    /// Replace the termios image (as much of `src` as fits). Leaving canonical mode
    /// hands the pending line to the slave.
    pub fn set_termios(&mut self, n: usize, src: &[u8])
        requires
            old(self).wf(),
        ensures
            final(self).wf(),
            n < MAX_PTY && old(self).state(n as int).used ==> final(self).others_same(old(self), n as int)
                && final(self).state(n as int) == set_termios_state(old(self).state(n as int), src@),
            !(n < MAX_PTY && old(self).state(n as int).used) ==> final(self).unchanged(old(self)),
    {
        if n >= MAX_PTY || !self.ptys[n].used {
            return;
        }
        proof {
            self.lemma_state(n as int);
        }
        let ghost s0 = self.state(n as int);
        let old_l = termios_u32(self.ptys[n].termios.as_slice(), 12);
        let k = if src.len() < TERMIOS_LEN { src.len() } else { TERMIOS_LEN };
        let mut t: Vec<u8> = Vec::new();
        let mut i: usize = 0;
        while i < TERMIOS_LEN
            invariant
                self.wf(),
                n < MAX_PTY,
                k <= TERMIOS_LEN,
                k <= src@.len(),
                i <= TERMIOS_LEN,
                s0 == self.state(n as int),
                s0.termios.len() == TERMIOS_LEN,
                t@ =~= (src@.take(k as int) + s0.termios.skip(k as int)).take(i as int),
            decreases TERMIOS_LEN - i,
        {
            if i < k {
                t.push(src[i]);
            } else {
                t.push(self.ptys[n].termios[i]);
            }
            i = i + 1;
        }
        proof {
            assert(t@ =~= src@.take(k as int) + s0.termios.skip(k as int));
        }
        self.ptys[n].termios = t;
        let new_l = termios_u32(self.ptys[n].termios.as_slice(), 12);
        if (old_l & ICANON) != 0 && (new_l & ICANON) == 0 {
            let len = self.ptys[n].line_len;
            if len > 0 {
                let tmp = self.line_copy(n, false);
                self.ptys[n].line_len = 0;
                proof {
                    assert(self.state(n as int).line =~= Seq::<u8>::empty());
                }
                self.push_slave(n, tmp.as_slice());
            }
        }
    }

    /// One pass of a write into a PTY queue: as much as fits, `EAGAIN` if nothing does.
    fn end_write(&mut self, n: usize, data: &[u8], from_master: bool) -> (r: Result<usize, i32>)
        requires
            old(self).wf(),
        ensures
            final(self).wf(),
            end_write_post(*old(self), *final(self), n, data@, from_master, r),
    {
        if n >= MAX_PTY {
            return Err(EINVAL);
        }
        if data.len() == 0 {
            return Ok(0);
        }
        if !self.ptys[n].used {
            return Err(EBADF);
        }
        let k = if from_master {
            self.push_slave(n, data)
        } else {
            self.push_master(n, data)
        };
        if k > 0 {
            Ok(k)
        } else {
            Err(EAGAIN)
        }
    }

    /// One pass of a read from a PTY queue: buffered data, 0 when the peer is gone,
    /// `EAGAIN` while the peer is open but nothing is buffered.
    fn end_read(&mut self, n: usize, buf: &mut [u8], slave_side: bool) -> (r: Result<usize, i32>)
        requires
            old(self).wf(),
        ensures
            final(self).wf(),
            end_read_post(*old(self), *final(self), n, old(buf)@, final(buf)@, slave_side, r),
    {
        if n >= MAX_PTY || buf.len() == 0 {
            return Err(EINVAL);
        }
        if !self.ptys[n].used {
            return Err(EBADF);
        }
        proof {
            self.lemma_state(n as int);
        }
        if slave_side {
            if self.ptys[n].to_slave.len() > 0 {
                let k = self.ptys[n].to_slave.pop(buf);
                return Ok(k);
            }
            if self.ptys[n].nmaster == 0 {
                return Ok(0);
            }
        } else {
            if self.ptys[n].to_master.len() > 0 {
                let k = self.ptys[n].to_master.pop(buf);
                return Ok(k);
            }
            if self.ptys[n].nslave == 0 {
                return Ok(0);
            }
        }
        Err(EAGAIN)
    }

    /// Arguments for the job-control check before a slave write: controlling
    /// terminal number, foreground group, and whether `TOSTOP` is set.
    pub fn slave_write_job_args(&self, n: usize) -> (r: (i32, i32, bool))
        requires
            self.wf(),
            n < MAX_PTY,
        ensures
            r.0 == 2 + n,
            r.1 == self.state(n as int).fg_pgid,
            r.2 == (le_u32(self.state(n as int).termios, 12) & TOSTOP != 0),
    {
        proof {
            self.lemma_state(n as int);
        }
        let lflag = termios_u32(self.ptys[n].termios.as_slice(), 12);
        (ctty_for(n), self.ptys[n].fg_pgid, (lflag & TOSTOP) != 0)
    }

    /// Slave write towards the master. `job_rc` is the job-control verdict for the
    /// writer (negative: refuse with that error). With `OPOST | ONLCR` each `\n`
    /// becomes `\r\n`.
    pub fn slave_write(&mut self, n: usize, data: &[u8], job_rc: i32) -> (r: Result<usize, i32>)
        requires
            old(self).wf(),
        ensures
            final(self).wf(),
            n >= MAX_PTY ==> r == Err::<usize, i32>(EINVAL) && final(self).unchanged(old(self)),
            n < MAX_PTY && data@.len() == 0 ==> r == Ok::<usize, i32>(0) && final(self).unchanged(old(self)),
            n < MAX_PTY && data@.len() > 0 && !old(self).state(n as int).used ==> r == Err::<usize, i32>(EBADF)
                && final(self).unchanged(old(self)),
            n < MAX_PTY && data@.len() > 0 && old(self).state(n as int).used && job_rc < 0 ==> r
                == Err::<usize, i32>(job_rc) && final(self).unchanged(old(self)),
            n < MAX_PTY && data@.len() > 0 && old(self).state(n as int).used && job_rc >= 0 ==> {
                let s = old(self).state(n as int);
                let oflag = le_u32(s.termios, 4);
                &&& final(self).others_same(old(self), n as int)
                &&& if oflag & OPOST != 0 && oflag & ONLCR != 0 {
                    &&& final(self).state(n as int) == (PtyState { to_master: pushed(s.to_master, onlcr(data@)), ..s })
                    &&& r == onlcr_result(s.to_master, data@)
                } else {
                    let space = RING - s.to_master.len();
                    let k = if space < data@.len() { space } else { data@.len() as int };
                    &&& final(self).state(n as int) == (PtyState { to_master: pushed(s.to_master, data@), ..s })
                    &&& r == (if k > 0 { Ok::<usize, i32>(k as usize) } else { Err::<usize, i32>(EAGAIN) })
                }
            },
    {
        if n >= MAX_PTY {
            return Err(EINVAL);
        }
        if data.len() == 0 {
            return Ok(0);
        }
        if !self.ptys[n].used {
            return Err(EBADF);
        }
        if job_rc < 0 {
            return Err(job_rc);
        }
        proof {
            self.lemma_state(n as int);
        }
        let oflag = termios_u32(self.ptys[n].termios.as_slice(), 4);
        let cook = (oflag & OPOST) != 0 && (oflag & ONLCR) != 0;
        if !cook {
            return self.end_write(n, data, false);
        }
        let ghost s0 = self.state(n as int);
        let mut tmp: Vec<u8> = Vec::new();
        let mut z: usize = 0;
        while z < 256
            invariant
                z <= 256,
                tmp@.len() == z,
            decreases 256 - z,
        {
            tmp.push(0);
            z = z + 1;
        }
        let mut o: usize = 0;
        let mut i: usize = 0;
        while i < data.len()
            invariant
                self.wf(),
                n < MAX_PTY,
                self.state(n as int).used,
                tmp@.len() == 256,
                i <= data@.len(),
                o as int == staged(data@.take(i as int)),
                o <= 256,
                tmp@.take(o as int) == onlcr(data@.take(i as int)).skip(onlcr(data@.take(i as int)).len() - o),
                self.state(n as int) == (PtyState {
                    to_master: pushed(
                        s0.to_master,
                        onlcr(data@.take(i as int)).take(onlcr(data@.take(i as int)).len() - o),
                    ),
                    ..s0
                }),
                s0.to_master.len() <= RING,
                forall|j: int| 0 <= j < MAX_PTY && j != n ==> #[trigger] self.state(j) == old(self).state(j),
                self.pending_signals() == old(self).pending_signals(),
            decreases data@.len() - i,
        {
            let ghost d0 = data@.take(i as int);
            let ghost d1 = data@.take(i + 1);
            proof {
                assert(d1.drop_last() =~= d0);
                assert(d1.last() == data@[i as int]);
                lemma_staged(d0);
            }
            let b = data[i];
            if o + 2 > 256 {
                let chunk = vstd::slice::slice_subrange(tmp.as_slice(), 0, o);
                let ghost before = self.state(n as int).to_master;
                let _ = self.end_write(n, chunk, false);
                proof {
                    let t = onlcr(d0);
                    assert(chunk@ =~= t.skip(t.len() - o));
                    lemma_pushed_concat(s0.to_master, t.take(t.len() - o), t.skip(t.len() - o));
                    assert(t.take(t.len() - o) + t.skip(t.len() - o) =~= t);
                    assert(t.take(t.len() - 0) =~= t);
                }
                o = 0;
            }
            let ghost o_mid = o;
            let ghost tmp_mid = tmp@;
            proof {
                let t0 = onlcr(d0);
                assert(tmp_mid.take(o_mid as int) =~= t0.skip(t0.len() - o_mid));
            }
            if b == 10 {
                tmp.set(o, 13);
                o = o + 1;
            }
            tmp.set(o, b);
            o = o + 1;
            proof {
                let t0 = onlcr(d0);
                let t1 = onlcr(d1);
                assert(t1 =~= t0 + if b == 10 { seq![13u8, 10u8] } else { seq![b] });
                assert(t1.take(t1.len() - o) =~= t0.take(t0.len() - o_mid));
                assert forall|j: int| 0 <= j < o_mid implies tmp@[j] == tmp_mid.take(o_mid as int)[j] by {}
                assert(tmp@.take(o as int) =~= t1.skip(t1.len() - o));
            }
            i = i + 1;
        }
        proof {
            assert(data@.take(data@.len() as int) =~= data@);
            lemma_staged(data@);
        }
        let ghost t = onlcr(data@);
        let chunk = vstd::slice::slice_subrange(tmp.as_slice(), 0, o);
        proof {
            assert(chunk@ =~= t.skip(t.len() - o));
            lemma_pushed_concat(s0.to_master, t.take(t.len() - o), t.skip(t.len() - o));
            assert(t.take(t.len() - o) + t.skip(t.len() - o) =~= t);
        }
        let rr = self.end_write(n, chunk, false);
        match rr {
            Err(e) => Err(e),
            Ok(_) => Ok(data.len()),
        }
    }

    /// Slave read (the slave's stdin). `job_rc` is the job-control verdict for the
    /// reader (negative: refuse with that error).
    pub fn slave_read(&mut self, n: usize, buf: &mut [u8], job_rc: i32) -> (r: Result<usize, i32>)
        requires
            old(self).wf(),
        ensures
            final(self).wf(),
            job_rc < 0 ==> r == Err::<usize, i32>(job_rc) && final(self).unchanged(old(self)) && final(buf)@
                == old(buf)@,
            job_rc >= 0 ==> end_read_post(*old(self), *final(self), n, old(buf)@, final(buf)@, true, r),
    {
        if job_rc < 0 {
            return Err(job_rc);
        }
        self.end_read(n, buf, true)
    }

    /// Master read (the slave's output).
    pub fn master_read(&mut self, n: usize, buf: &mut [u8]) -> (r: Result<usize, i32>)
        requires
            old(self).wf(),
        ensures
            final(self).wf(),
            end_read_post(*old(self), *final(self), n, old(buf)@, final(buf)@, false, r),
    {
        self.end_read(n, buf, false)
    }
}

/// State after replacing the termios image with `src` (as much as fits).
pub open spec fn set_termios_state(s: PtyState, src: Seq<u8>) -> PtyState {
    let k = if src.len() < TERMIOS_LEN { src.len() as int } else { TERMIOS_LEN as int };
    let t = src.take(k) + s.termios.skip(k);
    let s1 = PtyState { termios: t, ..s };
    if le_u32(s.termios, 12) & ICANON != 0 && le_u32(t, 12) & ICANON == 0 && s.line.len() > 0 {
        PtyState { to_slave: pushed(s.to_slave, s.line), line: Seq::empty(), ..s1 }
    } else {
        s1
    }
}

/// What one pass of a queue write does.
pub open spec fn end_write_post(a: PtyTable, b: PtyTable, n: usize, data: Seq<u8>, from_master: bool, r: Result<usize, i32>) -> bool {
    if n >= MAX_PTY {
        r == Err::<usize, i32>(EINVAL) && b.unchanged(&a)
    } else if data.len() == 0 {
        r == Ok::<usize, i32>(0) && b.unchanged(&a)
    } else if !a.state(n as int).used {
        r == Err::<usize, i32>(EBADF) && b.unchanged(&a)
    } else {
        let s = a.state(n as int);
        let q = if from_master { s.to_slave } else { s.to_master };
        let space = RING - q.len();
        let k = if space < data.len() { space } else { data.len() as int };
        &&& b.others_same(&a, n as int)
        &&& b.state(n as int) == (if from_master {
            PtyState { to_slave: pushed(q, data), ..s }
        } else {
            PtyState { to_master: pushed(q, data), ..s }
        })
        &&& r == (if k > 0 { Ok::<usize, i32>(k as usize) } else { Err::<usize, i32>(EAGAIN) })
    }
}

/// What one pass of a queue read does.
pub open spec fn end_read_post(
    a: PtyTable,
    b: PtyTable,
    n: usize,
    buf0: Seq<u8>,
    buf1: Seq<u8>,
    slave_side: bool,
    r: Result<usize, i32>,
) -> bool {
    if n >= MAX_PTY || buf0.len() == 0 {
        r == Err::<usize, i32>(EINVAL) && b.unchanged(&a) && buf1 == buf0
    } else if !a.state(n as int).used {
        r == Err::<usize, i32>(EBADF) && b.unchanged(&a) && buf1 == buf0
    } else {
        let s = a.state(n as int);
        let q = if slave_side { s.to_slave } else { s.to_master };
        let peer = if slave_side { s.nmaster } else { s.nslave };
        if q.len() > 0 {
            let k = if q.len() < buf0.len() { q.len() } else { buf0.len() };
            &&& r == Ok::<usize, i32>(k as usize)
            &&& buf1 == q.take(k as int) + buf0.skip(k as int)
            &&& b.others_same(&a, n as int)
            &&& b.state(n as int) == (if slave_side {
                PtyState { to_slave: q.skip(k as int), ..s }
            } else {
                PtyState { to_master: q.skip(k as int), ..s }
            })
        } else if peer == 0 {
            r == Ok::<usize, i32>(0) && b.unchanged(&a) && buf1 == buf0
        } else {
            r == Err::<usize, i32>(EAGAIN) && b.unchanged(&a) && buf1 == buf0
        }
    }
}

pub open spec fn is_digit(b: u8) -> bool {
    48 <= b <= 57
}

/// PTY index named by `"0"` … `"99"` (no other characters), if below `MAX_PTY`.
pub open spec fn parse_index_spec(bs: Seq<u8>) -> Option<usize> {
    if bs.len() == 0 || bs.len() > 2 || !(forall|i: int| 0 <= i < bs.len() ==> is_digit(#[trigger] bs[i])) {
        None
    } else {
        let v = if bs.len() == 1 {
            bs[0] - 48
        } else {
            (bs[0] - 48) * 10 + (bs[1] - 48)
        };
        if v < MAX_PTY {
            Some(v as usize)
        } else {
            None
        }
    }
}

/// Parse a `/dev/pts` entry name.
pub fn parse_index(name: &str) -> (r: Option<usize>)
    ensures
        r == parse_index_spec(name.spec_bytes()),
{
    let bs = name.as_bytes();
    if bs.len() == 0 || bs.len() > 2 {
        return None;
    }
    let mut v: usize = 0;
    let mut i: usize = 0;
    while i < bs.len()
        invariant
            bs@ == name.spec_bytes(),
            1 <= bs@.len() <= 2,
            i <= bs@.len(),
            forall|j: int| 0 <= j < i ==> is_digit(#[trigger] bs@[j]),
            v == (if i == 0 {
                0int
            } else if i == 1 {
                bs@[0] - 48
            } else {
                (bs@[0] - 48) * 10 + (bs@[1] - 48)
            }),
        decreases bs@.len() - i,
    {
        let b = bs[i];
        if !(b >= 48 && b <= 57) {
            return None;
        }
        v = v * 10 + (b - 48) as usize;
        i = i + 1;
    }
    if v < MAX_PTY {
        Some(v)
    } else {
        None
    }
}

/// Decimal name of PTY `n` for directory listings; returns its length.
pub fn name_of(n: usize, out: &mut [u8; 4]) -> (len: usize)
    requires
        n < 10 || (n / 10) % 256 <= 207,
    ensures
        n >= 10 ==> len == 2 && final(out)@ == old(out)@.update(0, (48 + (n / 10) % 256) as u8).update(
            1,
            (48 + n % 10) as u8,
        ),
        n < 10 ==> len == 1 && final(out)@ == old(out)@.update(0, (48 + n) as u8),
{
    if n >= 10 {
        let t = n / 10;
        assert((t as u8) == t % 256) by (bit_vector);
        out[0] = 48u8 + t as u8;
        out[1] = 48u8 + (n % 10) as u8;
        2
    } else {
        out[0] = 48u8 + n as u8;
        1
    }
}
} // verus!
