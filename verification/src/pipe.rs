//! Fixed pool of pipes. Both ends of a pipe share one ring buffer and are told
//! apart by the file they are opened through.
//!
//! Reads and writes do one pass over the buffer: where the kernel would let
//! another task run and try again (empty pipe with writers, full pipe with
//! readers), the call reports `EAGAIN` and the caller schedules and retries.

use vstd::prelude::*;
use crate::ring::Ring;

verus! {

pub const MAX_PIPES: usize = 16;
pub const PIPE_CAP: usize = 4096;

pub const EINVAL: i32 = -22;
pub const EBADF: i32 = -9;
pub const EAGAIN: i32 = -11;
pub const EPIPE: i32 = -32;

struct Pipe {
    used: bool,
    buf: Ring,
    nreaders: u8,
    nwriters: u8,
}

/// Observable state of one pipe slot.
pub struct PipeState {
    pub used: bool,
    pub data: Seq<u8>,
    pub nreaders: u8,
    pub nwriters: u8,
}

pub open spec fn free_pipe() -> PipeState {
    PipeState { used: false, data: Seq::empty(), nreaders: 0, nwriters: 0 }
}

/// Lowest pipe slot at or after `k` that is not in use.
pub open spec fn first_free_pipe(p: PipeTable, k: int) -> Option<int>
    decreases MAX_PIPES - k,
{
    if k < 0 || k >= MAX_PIPES {
        None
    } else if !p.state(k).used {
        Some(k)
    } else {
        first_free_pipe(p, k + 1)
    }
}

/// Every pipe slot of `b` is as in `a`.
pub open spec fn same_pipes(a: PipeTable, b: PipeTable) -> bool {
    forall|j: int| 0 <= j < MAX_PIPES ==> #[trigger] b.state(j) == a.state(j)
}

pub proof fn lemma_first_free_pipe(p: PipeTable, k: int, i: int)
    requires
        0 <= k <= i < MAX_PIPES,
        !p.state(i).used,
        forall|j: int| k <= j < i ==> p.state(j).used,
    ensures
        first_free_pipe(p, k) == Some(i),
    decreases i - k,
{
    if k < i {
        lemma_first_free_pipe(p, k + 1, i);
    }
}

pub proof fn lemma_no_free_pipe(p: PipeTable, k: int)
    requires
        0 <= k <= MAX_PIPES,
        forall|j: int| k <= j < MAX_PIPES ==> p.state(j).used,
    ensures
        first_free_pipe(p, k) is None,
    decreases MAX_PIPES - k,
{
    if k < MAX_PIPES {
        lemma_no_free_pipe(p, k + 1);
    }
}

spec fn pipe_ok(p: Pipe) -> bool {
    &&& p.buf.wf()
    &&& p.buf.capacity() == PIPE_CAP
    &&& !p.used ==> p.buf@.len() == 0 && p.nreaders == 0 && p.nwriters == 0
}

pub struct PipeTable {
    pipes: Vec<Pipe>,
}

impl PipeTable {
    pub closed spec fn state(&self, id: int) -> PipeState {
        let p = self.pipes@[id];
        PipeState { used: p.used, data: p.buf@, nreaders: p.nreaders, nwriters: p.nwriters }
    }

    pub closed spec fn wf(&self) -> bool {
        &&& self.pipes@.len() == MAX_PIPES
        &&& forall|i: int| 0 <= i < MAX_PIPES ==> pipe_ok(#[trigger] self.pipes@[i])
    }

    /// Every slot state except `id` is as in `other`.
    pub open spec fn others_same(&self, other: &PipeTable, id: int) -> bool {
        forall|j: int| 0 <= j < MAX_PIPES && j != id ==> #[trigger] self.state(j) == other.state(j)
    }

    /// No pipe holds more than `PIPE_CAP` bytes, and a free slot is empty.
    pub proof fn lemma_bounds(&self, id: int)
        requires
            self.wf(),
            0 <= id < MAX_PIPES,
        ensures
            self.state(id).data.len() <= PIPE_CAP,
            !self.state(id).used ==> self.state(id) == free_pipe(),
    {
        assert(pipe_ok(self.pipes@[id]));
        self.pipes@[id].buf.lemma_wf();
        if !self.state(id).used {
            assert(self.state(id).data =~= Seq::<u8>::empty());
        }
    }

    /// All slots free.
    pub fn new() -> (t: PipeTable)
        ensures
            t.wf(),
            forall|i: int| 0 <= i < MAX_PIPES ==> t.state(i) == free_pipe(),
    {
        let mut pipes: Vec<Pipe> = Vec::new();
        let mut i: usize = 0;
        while i < MAX_PIPES
            invariant
                i <= MAX_PIPES,
                pipes@.len() == i,
                forall|j: int|
                    0 <= j < i ==> pipe_ok(#[trigger] pipes@[j]) && pipes@[j].buf@ == Seq::<u8>::empty()
                        && !pipes@[j].used,
            decreases MAX_PIPES - i,
        {
            pipes.push(Pipe { used: false, buf: Ring::new(PIPE_CAP), nreaders: 0, nwriters: 0 });
            i = i + 1;
        }
        let t = PipeTable { pipes };
        assert forall|j: int| 0 <= j < MAX_PIPES implies t.state(j) == free_pipe() by {
            assert(t.state(j).data =~= Seq::<u8>::empty());
        }
        t
    }

    /// Allocate the lowest free pipe with one reader and one writer.
    pub fn alloc_pipe(&mut self) -> (r: Result<usize, ()>)
        requires
            old(self).wf(),
        ensures
            final(self).wf(),
            match r {
                Ok(i) => {
                    &&& i < MAX_PIPES
                    &&& !old(self).state(i as int).used
                    &&& forall|j: int| 0 <= j < i ==> old(self).state(j).used
                    &&& final(self).state(i as int) == (PipeState {
                        used: true,
                        data: Seq::empty(),
                        nreaders: 1,
                        nwriters: 1,
                    })
                    &&& final(self).others_same(old(self), i as int)
                },
                Err(_) => {
                    &&& forall|j: int| 0 <= j < MAX_PIPES ==> old(self).state(j).used
                    &&& *final(self) == *old(self)
                },
            },
    {
        let mut i: usize = 0;
        while i < MAX_PIPES
            invariant
                self.wf(),
                i <= MAX_PIPES,
                *self == *old(self),
                forall|j: int| 0 <= j < i ==> old(self).state(j).used,
            decreases MAX_PIPES - i,
        {
            if !self.pipes[i].used {
                let ghost before = self.pipes@;
                self.pipes.set(i, Pipe { used: true, buf: Ring::new(PIPE_CAP), nreaders: 1, nwriters: 1 });
                proof {
                    assert(self.state(i as int).data =~= Seq::<u8>::empty());
                    assert forall|j: int| 0 <= j < MAX_PIPES && j != i implies #[trigger] self.state(j)
                        == old(self).state(j) by {
                        assert(self.pipes@[j] == before[j]);
                    }
                }
                return Ok(i);
            }
            i = i + 1;
        }
        Err(())
    }

    fn maybe_free(&mut self, id: usize)
        requires
            old(self).pipes@.len() == MAX_PIPES,
            id < MAX_PIPES,
            forall|i: int| 0 <= i < MAX_PIPES && i != id ==> pipe_ok(#[trigger] old(self).pipes@[i]),
            old(self).pipes@[id as int].buf.wf(),
            old(self).pipes@[id as int].buf.capacity() == PIPE_CAP,
            old(self).pipes@[id as int].used,
        ensures
            final(self).wf(),
            final(self).others_same(old(self), id as int),
            final(self).state(id as int) == (if old(self).state(id as int).nreaders == 0
                && old(self).state(id as int).nwriters == 0 {
                free_pipe()
            } else {
                old(self).state(id as int)
            }),
    {
        let p = &self.pipes[id];
        if p.nreaders == 0 && p.nwriters == 0 {
            let ghost before = self.pipes@;
            self.pipes.set(id, Pipe { used: false, buf: Ring::new(PIPE_CAP), nreaders: 0, nwriters: 0 });
            proof {
                assert(self.state(id as int).data =~= Seq::<u8>::empty());
                assert forall|j: int| 0 <= j < MAX_PIPES && j != id implies #[trigger] self.state(j)
                    == old(self).state(j) by {
                    assert(self.pipes@[j] == before[j]);
                }
            }
        }
    }

    /// Drop one reader reference; the pipe is freed when no end remains.
    pub fn close_reader(&mut self, id: usize)
        requires
            old(self).wf(),
        ensures
            final(self).wf(),
            close_post(*old(self), *final(self), id, true),
    {
        if id >= MAX_PIPES {
            return;
        }
        if !self.pipes[id].used {
            return;
        }
        let ghost before = self.pipes@;
        if self.pipes[id].nreaders > 0 {
            self.pipes[id].nreaders = self.pipes[id].nreaders - 1;
        }
        proof {
            assert forall|j: int| 0 <= j < MAX_PIPES && j != id implies self.pipes@[j] == before[j] by {}
        }
        self.maybe_free(id);
    }

    /// Drop one writer reference; the pipe is freed when no end remains.
    pub fn close_writer(&mut self, id: usize)
        requires
            old(self).wf(),
        ensures
            final(self).wf(),
            close_post(*old(self), *final(self), id, false),
    {
        if id >= MAX_PIPES {
            return;
        }
        if !self.pipes[id].used {
            return;
        }
        let ghost before = self.pipes@;
        if self.pipes[id].nwriters > 0 {
            self.pipes[id].nwriters = self.pipes[id].nwriters - 1;
        }
        proof {
            assert forall|j: int| 0 <= j < MAX_PIPES && j != id implies self.pipes@[j] == before[j] by {}
        }
        self.maybe_free(id);
    }

    /// Readiness without waiting: (readable, writable, reader hang-up, writer error).
    pub fn poll_state(&self, id: usize) -> (r: Option<(bool, bool, bool, bool)>)
        requires
            self.wf(),
        ensures
            id >= MAX_PIPES || !self.state(id as int).used ==> r.is_none(),
            id < MAX_PIPES && self.state(id as int).used ==> r == Some((
                self.state(id as int).data.len() > 0 || self.state(id as int).nwriters == 0,
                self.state(id as int).data.len() < PIPE_CAP || self.state(id as int).nreaders == 0,
                self.state(id as int).nwriters == 0,
                self.state(id as int).nreaders == 0,
            )),
    {
        if id >= MAX_PIPES {
            return None;
        }
        let p = &self.pipes[id];
        if !p.used {
            return None;
        }
        let len = p.buf.len();
        let can_read = len > 0 || p.nwriters == 0;
        let can_write = len < PIPE_CAP || p.nreaders == 0;
        let rd_hup = p.nwriters == 0;
        let wr_err = p.nreaders == 0;
        Some((can_read, can_write, rd_hup, wr_err))
    }

    /// Read up to `buf.len()` bytes: data if any is buffered, 0 at end of file
    /// (no writers left), `EAGAIN` while writers remain but nothing is buffered.
    pub fn read(&mut self, id: usize, buf: &mut [u8]) -> (r: Result<usize, i32>)
        requires
            old(self).wf(),
        ensures
            final(self).wf(),
            read_post(*old(self), *final(self), id, old(buf)@, final(buf)@, r),
    {
        if id >= MAX_PIPES || buf.len() == 0 {
            return Err(EINVAL);
        }
        if !self.pipes[id].used {
            return Err(EBADF);
        }
        if self.pipes[id].buf.len() > 0 {
            let ghost before = self.pipes@;
            let n = self.pipes[id].buf.pop(buf);
            proof {
                assert forall|j: int| 0 <= j < MAX_PIPES && j != id implies #[trigger] self.state(j)
                    == old(self).state(j) by {
                    assert(self.pipes@[j] == before[j]);
                }
            }
            return Ok(n);
        }
        if self.pipes[id].nwriters == 0 {
            return Ok(0);
        }
        Err(EAGAIN)
    }

    /// Write as much of `data` as fits: `EPIPE` with no reader left, `EAGAIN` when
    /// the buffer is full.
    pub fn write(&mut self, id: usize, data: &[u8]) -> (r: Result<usize, i32>)
        requires
            old(self).wf(),
        ensures
            final(self).wf(),
            write_post(*old(self), *final(self), id, data@, r),
    {
        if id >= MAX_PIPES {
            return Err(EINVAL);
        }
        if data.len() == 0 {
            return Ok(0);
        }
        if !self.pipes[id].used {
            return Err(EBADF);
        }
        if self.pipes[id].nreaders == 0 {
            return Err(EPIPE);
        }
        let ghost before = self.pipes@;
        let n = self.pipes[id].buf.push(data);
        proof {
            assert forall|j: int| 0 <= j < MAX_PIPES && j != id implies #[trigger] self.state(j)
                == old(self).state(j) by {
                assert(self.pipes@[j] == before[j]);
            }
        }
        if n > 0 {
            Ok(n)
        } else {
            Err(EAGAIN)
        }
    }
}

/// What closing one end does.
pub open spec fn close_post(a: PipeTable, b: PipeTable, id: usize, reader: bool) -> bool {
    if id >= MAX_PIPES || !a.state(id as int).used {
        b == a
    } else {
        let s = a.state(id as int);
        let nr: u8 = if reader && s.nreaders > 0 { (s.nreaders - 1) as u8 } else { s.nreaders };
        let nw: u8 = if !reader && s.nwriters > 0 { (s.nwriters - 1) as u8 } else { s.nwriters };
        &&& b.others_same(&a, id as int)
        &&& b.state(id as int) == (if nr == 0 && nw == 0 {
            free_pipe()
        } else {
            PipeState { used: true, data: s.data, nreaders: nr, nwriters: nw }
        })
    }
}

/// What a read does.
pub open spec fn read_post(
    a: PipeTable,
    b: PipeTable,
    id: usize,
    buf0: Seq<u8>,
    buf1: Seq<u8>,
    r: Result<usize, i32>,
) -> bool {
    if id >= MAX_PIPES || buf0.len() == 0 {
        r == Err::<usize, i32>(EINVAL) && b == a && buf1 == buf0
    } else if !a.state(id as int).used {
        r == Err::<usize, i32>(EBADF) && b == a && buf1 == buf0
    } else {
        let s = a.state(id as int);
        if s.data.len() > 0 {
            let n = if s.data.len() < buf0.len() { s.data.len() } else { buf0.len() };
            &&& r == Ok::<usize, i32>(n as usize)
            &&& buf1 == s.data.take(n as int) + buf0.skip(n as int)
            &&& b.state(id as int) == PipeState { data: s.data.skip(n as int), ..s }
            &&& b.others_same(&a, id as int)
        } else if s.nwriters == 0 {
            r == Ok::<usize, i32>(0) && b == a && buf1 == buf0
        } else {
            r == Err::<usize, i32>(EAGAIN) && b == a && buf1 == buf0
        }
    }
}

/// What a write does.
pub open spec fn write_post(a: PipeTable, b: PipeTable, id: usize, data: Seq<u8>, r: Result<usize, i32>) -> bool {
    if id >= MAX_PIPES {
        r == Err::<usize, i32>(EINVAL) && b == a
    } else if data.len() == 0 {
        r == Ok::<usize, i32>(0) && b == a
    } else if !a.state(id as int).used {
        r == Err::<usize, i32>(EBADF) && b == a
    } else if a.state(id as int).nreaders == 0 {
        r == Err::<usize, i32>(EPIPE) && b == a
    } else {
        let s = a.state(id as int);
        let space = PIPE_CAP - s.data.len();
        let n = if space < data.len() { space } else { data.len() as int };
        &&& b.state(id as int) == PipeState { data: s.data + data.take(n), ..s }
        &&& b.others_same(&a, id as int)
        &&& r == (if n > 0 { Ok::<usize, i32>(n as usize) } else { Err::<usize, i32>(EAGAIN) })
    }
}


/// A read after a write returns the bytes in the order they were written,
/// after whatever was already buffered.
pub proof fn lemma_write_then_read_fifo(
    a: PipeTable,
    b: PipeTable,
    c: PipeTable,
    id: usize,
    data: Seq<u8>,
    n: usize,
    buf0: Seq<u8>,
    buf1: Seq<u8>,
    m: usize,
)
    requires
        a.wf(),
        write_post(a, b, id, data, Ok(n)),
        data.len() > 0,
        read_post(b, c, id, buf0, buf1, Ok(m)),
    ensures
        m <= a.state(id as int).data.len() + n,
        buf1.take(m as int) == (a.state(id as int).data + data.take(n as int)).take(m as int),
        c.state(id as int).data == (a.state(id as int).data + data.take(n as int)).skip(m as int),
{
    assert(buf1.take(m as int) =~= (a.state(id as int).data + data.take(n as int)).take(m as int));
}
} // verus!
