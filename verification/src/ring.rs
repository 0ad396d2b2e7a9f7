//! Byte ring buffer shared by pipes and pseudo-terminals.

use vstd::prelude::*;
use vstd::arithmetic::div_mod::{lemma_add_mod_noop, lemma_mod_twice};

verus! {

/// Fixed-capacity FIFO of bytes.
pub struct Ring {
    data: Vec<u8>,
    r: usize,
    len: usize,
}

pub proof fn lemma_mod_distinct(a: int, b: int, m: int)
    requires
        0 <= a < b < a + m,
        m > 0,
    ensures
        a % m != b % m,
{
    assert(a % m != b % m) by (nonlinear_arith)
        requires
            0 <= a < b < a + m,
            m > 0,
    {
        let qa = a / m;
        let qb = b / m;
        assert(a == qa * m + a % m);
        assert(b == qb * m + b % m);
        if a % m == b % m {
            assert(b - a == (qb - qa) * m);
        }
    }
}

pub proof fn lemma_mod_shift(r: int, n: int, j: int, m: int)
    requires
        m > 0,
        r >= 0,
        n >= 0,
        j >= 0,
    ensures
        ((r + n) % m + j) % m == (r + n + j) % m,
{
    lemma_add_mod_noop(r + n, j, m);
    lemma_mod_twice(r + n, m);
    lemma_add_mod_noop((r + n) % m, j, m);
}

impl Ring {
    /// Bytes stored, oldest first.
    pub closed spec fn view(&self) -> Seq<u8> {
        Seq::new(self.len as nat, |i: int| self.data@[(self.r + i) % (self.data@.len() as int)])
    }

    pub closed spec fn capacity(&self) -> nat {
        self.data@.len()
    }

    pub closed spec fn wf(&self) -> bool {
        &&& 0 < self.data@.len() <= 65535
        &&& self.r < self.data@.len()
        &&& self.len <= self.data@.len()
    }

    pub proof fn lemma_wf(&self)
        requires
            self.wf(),
        ensures
            self@.len() <= self.capacity(),
            0 < self.capacity() <= 65535,
    {
    }

    /// An empty ring holding up to `cap` bytes.
    pub fn new(cap: usize) -> (rg: Ring)
        requires
            0 < cap <= 65535,
        ensures
            rg.wf(),
            rg@ == Seq::<u8>::empty(),
            rg.capacity() == cap,
    {
        let mut data: Vec<u8> = Vec::new();
        let mut i: usize = 0;
        while i < cap
            invariant
                i <= cap,
                data@.len() == i,
            decreases cap - i,
        {
            data.push(0);
            i = i + 1;
        }
        let rg = Ring { data, r: 0, len: 0 };
        assert(rg@ =~= Seq::<u8>::empty());
        rg
    }

    pub fn len(&self) -> (n: usize)
        requires
            self.wf(),
        ensures
            n == self@.len(),
    {
        self.len
    }

    pub fn cap(&self) -> (n: usize)
        requires
            self.wf(),
        ensures
            n == self.capacity(),
    {
        self.data.len()
    }

    /// Move the oldest `min(len, out.len())` bytes into `out`; returns the count.
    pub fn pop(&mut self, out: &mut [u8]) -> (n: usize)
        requires
            old(self).wf(),
        ensures
            final(self).wf(),
            final(self).capacity() == old(self).capacity(),
            n == (if old(self)@.len() < old(out)@.len() { old(self)@.len() } else { old(out)@.len() }),
            final(self)@ == old(self)@.skip(n as int),
            final(out)@.len() == old(out)@.len(),
            final(out)@ == old(self)@.take(n as int) + old(out)@.skip(n as int),
    {
        let cap = self.data.len();
        let n = if self.len < out.len() { self.len } else { out.len() };
        let ghost before = self@;
        let ghost out0 = out@;
        let mut i: usize = 0;
        while i < n
            invariant
                self.wf(),
                *self == *old(self),
                before == self@,
                cap == self.data@.len(),
                n <= self.len,
                n <= out@.len(),
                out@.len() == out0.len(),
                i <= n,
                forall|j: int| 0 <= j < i ==> out@[j] == before[j],
                forall|j: int| i <= j < out@.len() ==> out@[j] == out0[j],
            decreases n - i,
        {
            let idx = (self.r + i) % cap;
            out[i] = self.data[idx];
            i = i + 1;
        }
        let ghost old_r = self.r;
        self.r = (self.r + n) % cap;
        self.len = self.len - n;
        proof {
            assert forall|j: int| 0 <= j < self.len implies self@[j] == before[n + j] by {
                lemma_mod_shift(old_r as int, n as int, j, cap as int);
            }
            assert(self@ =~= before.skip(n as int));
            assert(out@ =~= before.take(n as int) + out0.skip(n as int));
        }
        n
    }

    /// Append as much of `src` as fits; returns the count.
    pub fn push(&mut self, src: &[u8]) -> (n: usize)
        requires
            old(self).wf(),
        ensures
            final(self).wf(),
            final(self).capacity() == old(self).capacity(),
            n == (if old(self).capacity() - old(self)@.len() < src@.len() {
                old(self).capacity() - old(self)@.len()
            } else {
                src@.len() as int
            }),
            final(self)@ == old(self)@ + src@.take(n as int),
    {
        let cap = self.data.len();
        let space = cap - self.len;
        let n = if space < src.len() { space } else { src.len() };
        let w = (self.r + self.len) % cap;
        let ghost before = self@;
        let ghost r0 = self.r;
        let ghost len0 = self.len;
        let mut i: usize = 0;
        while i < n
            invariant
                self.wf(),
                self.r == r0,
                self.len == len0,
                self.data@.len() == cap,
                before.len() == len0,
                w == (r0 + len0) % (cap as int),
                n + len0 <= cap,
                n <= src@.len(),
                i <= n,
                forall|j: int|
                    #![trigger self.data@[(r0 + j) % (cap as int)]]
                    0 <= j < len0 + i ==> self.data@[(r0 + j) % (cap as int)] == (before
                        + src@.take(i as int))[j],
            decreases n - i,
        {
            let pos = (w + i) % cap;
            proof {
                lemma_mod_shift(r0 as int, len0 as int, i as int, cap as int);
            }
            let ghost prev = self.data@;
            self.data.set(pos, src[i]);
            proof {
                assert forall|j: int| 0 <= j < len0 + i + 1 implies #[trigger] self.data@[(r0 + j) % (
                cap as int)] == (before + src@.take(i + 1))[j] by {
                    if j < len0 + i {
                        lemma_mod_distinct(r0 + j, r0 + len0 + i, cap as int);
                        assert(prev[(r0 + j) % (cap as int)] == (before + src@.take(i as int))[j]);
                    }
                }
            }
            i = i + 1;
        }
        self.len = self.len + n;
        proof {
            assert forall|j: int| 0 <= j < self.len implies self@[j] == (before + src@.take(
                n as int,
            ))[j] by {
                assert(self.data@[(r0 + j) % (cap as int)] == (before + src@.take(n as int))[j]);
            }
            assert(self@ =~= before + src@.take(n as int));
        }
        n
    }
}

/// What a push followed by a pop of at most the stored length returns: bytes come
/// out in the order they went in.
pub proof fn lemma_fifo(before: Seq<u8>, pushed: Seq<u8>, k: int)
    requires
        0 <= k <= before.len() + pushed.len(),
    ensures
        (before + pushed).take(k) == (if k <= before.len() {
            before.take(k)
        } else {
            before + pushed.take(k - before.len())
        }),
{
    if k <= before.len() {
        assert((before + pushed).take(k) =~= before.take(k));
    } else {
        assert((before + pushed).take(k) =~= before + pushed.take(k - before.len()));
    }
}

} // verus!
