//! A small level-triggered epoll: instances of up to 16 watches each, and the
//! ready events a wait collects.

use vstd::prelude::*;
use crate::fd::{FdSystem, File, FD_MAX, is_open_spec};
use crate::kbd::KeyBuffer;
use crate::pipe::PipeTable;
use crate::poll::{revents, revents_spec, POLLIN, POLLOUT, POLLERR, POLLHUP, POLLNVAL};
use crate::vcore::{FileData, FOPS_EPOLL};

verus! {

pub const EPOLL_CTL_ADD: i32 = 1;
pub const EPOLL_CTL_DEL: i32 = 2;
pub const EPOLL_CTL_MOD: i32 = 3;
pub const MAX_EPOLL: usize = 8;
pub const MAX_WATCH: usize = 16;

pub const EBADF: i64 = 9;
pub const EINVAL: i64 = 22;
pub const EEXIST: i64 = 17;
pub const ENOMEM: i64 = 12;
pub const ENOENT: i64 = 2;
pub const EMFILE: i64 = 24;

/// One watched descriptor.
#[derive(Clone, Copy, Debug, PartialEq, Eq, Structural)]
pub struct Watch {
    pub used: bool,
    pub fd: i32,
    pub events: u32,
    pub data: u64,
}

pub open spec fn empty_watch() -> Watch {
    Watch { used: false, fd: -1i32, events: 0, data: 0 }
}

pub open spec fn empty_watches() -> Seq<Watch> {
    Seq::new(MAX_WATCH as nat, |i: int| empty_watch())
}

struct Epoll {
    used: bool,
    watches: Vec<Watch>,
}

/// Observable state of one instance.
pub struct EpollView {
    pub used: bool,
    pub watches: Seq<Watch>,
}

/// Lowest index `>= k` whose watch is used and names `fd`.
pub open spec fn find_watch(ws: Seq<Watch>, fd: i32, k: int) -> Option<int>
    decreases ws.len() - k,
{
    if k < 0 || k >= ws.len() {
        None
    } else if ws[k].used && ws[k].fd == fd {
        Some(k)
    } else {
        find_watch(ws, fd, k + 1)
    }
}

/// Lowest index `>= k` whose watch is unused.
pub open spec fn free_watch(ws: Seq<Watch>, k: int) -> Option<int>
    decreases ws.len() - k,
{
    if k < 0 || k >= ws.len() {
        None
    } else if !ws[k].used {
        Some(k)
    } else {
        free_watch(ws, k + 1)
    }
}

/// Lowest index `>= k` of an unused instance.
pub open spec fn free_inst(v: Seq<EpollView>, k: int) -> Option<int>
    decreases v.len() - k,
{
    if k < 0 || k >= v.len() {
        None
    } else if !v[k].used {
        Some(k)
    } else {
        free_inst(v, k + 1)
    }
}

proof fn lemma_find_range(ws: Seq<Watch>, fd: i32, k: int)
    ensures
        find_watch(ws, fd, k) matches Some(i) ==> k <= i < ws.len() && ws[i].used && ws[i].fd == fd,
    decreases ws.len() - k,
{
    if k >= 0 && k < ws.len() && !(ws[k].used && ws[k].fd == fd) {
        lemma_find_range(ws, fd, k + 1);
    }
}

proof fn lemma_find_none(ws: Seq<Watch>, fd: i32, k: int)
    requires
        0 <= k,
        forall|j: int| k <= j < ws.len() ==> !(ws[j].used && ws[j].fd == fd),
    ensures
        find_watch(ws, fd, k) is None,
    decreases ws.len() - k,
{
    if k < ws.len() {
        lemma_find_none(ws, fd, k + 1);
    }
}

proof fn lemma_find_at(ws: Seq<Watch>, fd: i32, k: int, i: int)
    requires
        0 <= k <= i < ws.len(),
        ws[i].used && ws[i].fd == fd,
        forall|j: int| k <= j < i ==> !(ws[j].used && ws[j].fd == fd),
    ensures
        find_watch(ws, fd, k) == Some(i),
    decreases i - k,
{
    if k < i {
        lemma_find_at(ws, fd, k + 1, i);
    }
}

/// No two watches in use name the same descriptor.
pub open spec fn watches_unique(ws: Seq<Watch>) -> bool {
    forall|i: int, j: int|
        0 <= i < j < ws.len() && ws[i].used && ws[j].used ==> #[trigger] ws[i].fd != #[trigger] ws[j].fd
}

/// Law: a descriptor added to an instance is in it once: adding it again is
/// refused with `EEXIST`, deleting it succeeds, and deleting it again is
/// refused with `ENOENT`. Adding keeps watches unique.
pub proof fn lemma_ctl_add_then_del(ws: Seq<Watch>, fd: i32, events: u32, data: u64, events2: u32, data2: u64)
    requires
        watches_unique(ws),
        ctl_watches(ws, EPOLL_CTL_ADD, fd, events, data) is Ok,
    ensures
        ({
            let ws1 = ctl_watches(ws, EPOLL_CTL_ADD, fd, events, data)->Ok_0;
            &&& watches_unique(ws1)
            &&& ctl_watches(ws1, EPOLL_CTL_ADD, fd, events2, data2) == Err::<Seq<Watch>, i64>(EEXIST)
            &&& ctl_watches(ws1, EPOLL_CTL_DEL, fd, 0, 0) is Ok
            &&& ctl_watches(ctl_watches(ws1, EPOLL_CTL_DEL, fd, 0, 0)->Ok_0, EPOLL_CTL_DEL, fd, 0, 0)
                == Err::<Seq<Watch>, i64>(ENOENT)
        }),
{
    lemma_find_range(ws, fd, 0);
    lemma_free_watch_range(ws, 0);
    let i = free_watch(ws, 0)->Some_0;
    let ws1 = ws.update(i, Watch { used: true, fd, events, data });
    assert(find_watch(ws, fd, 0) is None);
    assert forall|j: int| 0 <= j < ws.len() && j != i implies !(ws1[j].used && ws1[j].fd == fd) by {
        if ws1[j].used && ws1[j].fd == fd {
            lemma_find_at(ws, fd, 0, choose|m: int| 0 <= m < ws.len() && ws[m].used && ws[m].fd == fd);
        }
    }
    assert(watches_unique(ws1)) by {
        assert forall|a: int, b: int| 0 <= a < b < ws1.len() && ws1[a].used && ws1[b].used implies #[trigger] ws1[a].fd
            != #[trigger] ws1[b].fd by {
            if a != i && b != i {
                assert(ws[a].fd != ws[b].fd);
            }
        }
    }
    lemma_find_range(ws1, fd, 0);
    assert(find_watch(ws1, fd, 0) is Some) by {
        if find_watch(ws1, fd, 0) is None {
            lemma_find_none_gives(ws1, fd, 0, i);
        }
    }
    let k = find_watch(ws1, fd, 0)->Some_0;
    assert(k == i);
    let ws2 = ws1.update(k, empty_watch());
    assert forall|j: int| 0 <= j < ws2.len() implies !(ws2[j].used && ws2[j].fd == fd) by {}
    lemma_find_none(ws2, fd, 0);
}

/// If a watch naming `fd` sits at `i >= k`, the search from `k` finds one.
proof fn lemma_find_none_gives(ws: Seq<Watch>, fd: i32, k: int, i: int)
    requires
        0 <= k <= i < ws.len(),
        ws[i].used && ws[i].fd == fd,
    ensures
        find_watch(ws, fd, k) is Some,
    decreases i - k,
{
    if k < i && !(ws[k].used && ws[k].fd == fd) {
        lemma_find_none_gives(ws, fd, k + 1, i);
    }
}

proof fn lemma_free_watch_range(ws: Seq<Watch>, k: int)
    ensures
        free_watch(ws, k) matches Some(i) ==> k <= i < ws.len() && !ws[i].used,
    decreases ws.len() - k,
{
    if k >= 0 && k < ws.len() && ws[k].used {
        lemma_free_watch_range(ws, k + 1);
    }
}

proof fn lemma_free_inst_range(v: Seq<EpollView>, k: int)
    ensures
        free_inst(v, k) matches Some(i) ==> k <= i < v.len() && !v[i].used,
    decreases v.len() - k,
{
    if k >= 0 && k < v.len() && v[k].used {
        lemma_free_inst_range(v, k + 1);
    }
}

/// The event a watch reports now (0 when not ready): what `poll` gives for
/// its descriptor, asked for its events plus in and out, kept to its events
/// plus errors and hang-ups.
pub open spec fn watch_event(t: Seq<File>, w: Watch, pipes: PipeTable, keys: nat) -> u32 {
    let want = (w.events as u16) | POLLIN | POLLOUT;
    let got = revents_spec(t, w.fd, want, pipes, keys) as u32;
    got & (w.events | (POLLERR as u32) | (POLLHUP as u32) | (POLLNVAL as u32))
}

/// Ready `(events, data)` pairs of the watches in `ws`, in order.
pub open spec fn ready_list(t: Seq<File>, ws: Seq<Watch>, pipes: PipeTable, keys: nat) -> Seq<(u32, u64)>
    decreases ws.len(),
{
    if ws.len() == 0 {
        Seq::empty()
    } else {
        let rest = ready_list(t, ws.drop_last(), pipes, keys);
        let w = ws.last();
        if w.used && watch_event(t, w, pipes, keys) != 0 {
            rest.push((watch_event(t, w, pipes, keys), w.data))
        } else {
            rest
        }
    }
}

proof fn lemma_ready_len(t: Seq<File>, ws: Seq<Watch>, pipes: PipeTable, keys: nat)
    ensures
        ready_list(t, ws, pipes, keys).len() <= ws.len(),
    decreases ws.len(),
{
    if ws.len() > 0 {
        lemma_ready_len(t, ws.drop_last(), pipes, keys);
    }
}

pub struct EpollTable {
    inst: Vec<Epoll>,
}

impl EpollTable {
    pub closed spec fn view(&self) -> Seq<EpollView> {
        Seq::new(self.inst@.len(), |i: int| EpollView { used: self.inst@[i].used, watches: self.inst@[i].watches@ })
    }

    pub closed spec fn wf(&self) -> bool {
        &&& self.inst@.len() == MAX_EPOLL
        &&& forall|i: int| 0 <= i < MAX_EPOLL ==> (#[trigger] self.inst@[i]).watches@.len() == MAX_WATCH
    }

    pub proof fn lemma_wf(&self)
        requires
            self.wf(),
        ensures
            self.view().len() == MAX_EPOLL,
            forall|i: int| 0 <= i < MAX_EPOLL ==> (#[trigger] self.view()[i]).watches.len() == MAX_WATCH,
    {
    }

    fn empty_list() -> (v: Vec<Watch>)
        ensures
            v@ == empty_watches(),
    {
        let mut v: Vec<Watch> = Vec::new();
        while v.len() < MAX_WATCH
            invariant
                v@.len() <= MAX_WATCH,
                v@ == Seq::new(v@.len(), |i: int| empty_watch()),
            decreases MAX_WATCH - v@.len(),
        {
            v.push(Watch { used: false, fd: -1, events: 0, data: 0 });
            assert(v@ =~= Seq::new(v@.len(), |i: int| empty_watch()));
        }
        v
    }

    /// No instance in use.
    pub fn new() -> (t: EpollTable)
        ensures
            t.wf(),
            t.view() == Seq::new(MAX_EPOLL as nat, |i: int| EpollView { used: false, watches: empty_watches() }),
    {
        let mut inst: Vec<Epoll> = Vec::new();
        while inst.len() < MAX_EPOLL
            invariant
                inst@.len() <= MAX_EPOLL,
                forall|i: int| 0 <= i < inst@.len() ==> !(#[trigger] inst@[i]).used && inst@[i].watches@ == empty_watches(),
            decreases MAX_EPOLL - inst@.len(),
        {
            inst.push(Epoll { used: false, watches: Self::empty_list() });
        }
        let t = EpollTable { inst };
        assert(t.view() =~= Seq::new(MAX_EPOLL as nat, |i: int| EpollView { used: false, watches: empty_watches() }));
        t
    }

    /// Take the lowest unused instance, with no watches.
    pub fn alloc_epoll(&mut self) -> (r: Result<usize, ()>)
        requires
            old(self).wf(),
        ensures
            final(self).wf(),
            match free_inst(old(self).view(), 0) {
                None => r is Err && final(self).view() == old(self).view(),
                Some(i) => r == Ok::<usize, ()>(i as usize) && final(self).view() == old(self).view().update(
                    i,
                    EpollView { used: true, watches: empty_watches() },
                ),
            },
    {
        let mut i: usize = 0;
        while i < MAX_EPOLL && self.inst[i].used
            invariant
                self.wf(),
                i <= MAX_EPOLL,
                free_inst(self.view(), 0) == free_inst(self.view(), i as int),
            decreases MAX_EPOLL - i,
        {
            i = i + 1;
        }
        if i >= MAX_EPOLL {
            return Err(());
        }
        self.inst.set(i, Epoll { used: true, watches: Self::empty_list() });
        proof {
            assert(self.view() =~= old(self).view().update(i as int, EpollView { used: true, watches: empty_watches() }));
        }
        Ok(i)
    }

    /// Release instance `id` and its watches.
    pub fn free(&mut self, id: usize)
        requires
            old(self).wf(),
        ensures
            final(self).wf(),
            id >= MAX_EPOLL ==> final(self).view() == old(self).view(),
            id < MAX_EPOLL ==> final(self).view() == old(self).view().update(
                id as int,
                EpollView { used: false, watches: empty_watches() },
            ),
    {
        if id >= MAX_EPOLL {
            return;
        }
        self.inst.set(id, Epoll { used: false, watches: Self::empty_list() });
        assert(self.view() =~= old(self).view().update(id as int, EpollView { used: false, watches: empty_watches() }));
    }
}

/// The epoll file for instance `id`.
pub open spec fn epoll_file(id: usize) -> File {
    File { data: FileData { pos: 0, readable: false, writable: false, private: id as u64, is_dir: false, fops_id: FOPS_EPOLL } }
}

/// The instance behind descriptor `epfd` of table `t`, or the error.
pub open spec fn epoll_of(t: Seq<File>, v: Seq<EpollView>, epfd: usize) -> Result<usize, i64> {
    if !is_open_spec(t[epfd as int]) {
        Err(EBADF)
    } else if t[epfd as int].data.fops_id != FOPS_EPOLL {
        Err(EINVAL)
    } else {
        let eid = t[epfd as int].data.private as usize;
        if eid >= MAX_EPOLL || !v[eid as int].used {
            Err(EBADF)
        } else {
            Ok(eid)
        }
    }
}

/// What `ctl` does to the watches of one instance.
pub open spec fn ctl_watches(ws: Seq<Watch>, op: i32, fd: i32, events: u32, data: u64) -> Result<Seq<Watch>, i64> {
    if op == EPOLL_CTL_ADD {
        if find_watch(ws, fd, 0) is Some {
            Err(EEXIST)
        } else {
            match free_watch(ws, 0) {
                None => Err(ENOMEM),
                Some(i) => Ok(ws.update(i, Watch { used: true, fd, events, data })),
            }
        }
    } else if op == EPOLL_CTL_MOD {
        match find_watch(ws, fd, 0) {
            None => Err(ENOENT),
            Some(i) => Ok(ws.update(i, Watch { events, data, ..ws[i] })),
        }
    } else if op == EPOLL_CTL_DEL {
        match find_watch(ws, fd, 0) {
            None => Err(ENOENT),
            Some(i) => Ok(ws.update(i, empty_watch())),
        }
    } else {
        Err(EINVAL)
    }
}

/// What `ctl(epfd, op, fd, ..)` returns and leaves, on table `t`.
pub open spec fn ctl_spec(t: Seq<File>, v: Seq<EpollView>, epfd: usize, op: i32, fd: i32, events: u32, data: u64) -> Result<Seq<EpollView>, i64> {
    if epfd >= FD_MAX || fd < 0 || fd >= FD_MAX {
        Err(EBADF)
    } else if fd as usize == epfd {
        Err(EINVAL)
    } else {
        match epoll_of(t, v, epfd) {
            Err(e) => Err(e),
            Ok(eid) => if op != EPOLL_CTL_DEL && !is_open_spec(t[fd as int]) {
                Err(EBADF)
            } else {
                match ctl_watches(v[eid as int].watches, op, fd, events, data) {
                    Err(e) => Err(e),
                    Ok(ws) => Ok(v.update(eid as int, EpollView { used: true, watches: ws })),
                }
            },
        }
    }
}

impl EpollTable {
    /// Make a new instance and put it on the lowest free descriptor of the
    /// current table (`EMFILE` when there is no instance or descriptor left).
    pub fn create_fd(&mut self, fds: &mut FdSystem, files_slot: usize, flags: u32) -> (r: Result<usize, i64>)
        requires
            old(self).wf(),
            old(fds).wf(),
        ensures
            final(self).wf(),
            final(fds).wf(),
            ({
                let i = old(fds).cur(files_slot);
                match free_inst(old(self).view(), 0) {
                    None => r == Err::<usize, i64>(EMFILE) && final(self).view() == old(self).view() && final(fds).table_eq(old(fds)),
                    Some(id) => {
                        &&& final(fds).only_table(old(fds), i)
                        &&& match crate::fd::free_from(old(fds).table(i), 0) {
                            None => r == Err::<usize, i64>(EMFILE) && final(self).view() == old(self).view().update(
                                id,
                                EpollView { used: false, watches: empty_watches() },
                            ) && final(fds).table(i) == old(fds).table(i),
                            Some(j) => {
                                &&& final(self).view() == old(self).view().update(id, EpollView { used: true, watches: empty_watches() })
                                &&& r == Ok::<usize, i64>(j as usize)
                                &&& final(fds).table(i) == old(fds).table(i).update(j, epoll_file(id as usize))
                            },
                        }
                    },
                }
            }),
    {
        proof {
            lemma_free_inst_range(old(self).view(), 0);
            old(fds).lemma_cur(files_slot);
            crate::fd::lemma_free_from_range(old(fds).table(old(fds).cur(files_slot)), 0);
        }
        let id = match self.alloc_epoll() {
            Err(_) => return Err(EMFILE),
            Ok(i) => i,
        };
        let file = File::from_vfs(FileData { pos: 0, readable: false, writable: false, private: id as u64, is_dir: false, fops_id: FOPS_EPOLL });
        match fds.install_current(files_slot, file) {
            Ok(fd) => Ok(fd),
            Err(_) => {
                self.free(id);
                proof {
                    assert(self.view() =~= old(self).view().update(id as int, EpollView { used: false, watches: empty_watches() }));
                }
                Err(EMFILE)
            },
        }
    }
}

fn find_watch_exec(ws: &Vec<Watch>, fd: i32) -> (r: Option<usize>)
    ensures
        r == (match find_watch(ws@, fd, 0) {
            Some(i) => Some(i as usize),
            None => None::<usize>,
        }),
{
    let n = ws.len();
    let mut i: usize = 0;
    while i < n && !(ws[i].used && ws[i].fd == fd)
        invariant
            n == ws@.len(),
            i <= n,
            find_watch(ws@, fd, 0) == find_watch(ws@, fd, i as int),
        decreases n - i,
    {
        i = i + 1;
    }
    if i < n {
        Some(i)
    } else {
        None
    }
}

fn free_watch_exec(ws: &Vec<Watch>) -> (r: Option<usize>)
    ensures
        r == (match free_watch(ws@, 0) {
            Some(i) => Some(i as usize),
            None => None::<usize>,
        }),
{
    let n = ws.len();
    let mut i: usize = 0;
    while i < n && ws[i].used
        invariant
            n == ws@.len(),
            i <= n,
            free_watch(ws@, 0) == free_watch(ws@, i as int),
        decreases n - i,
    {
        i = i + 1;
    }
    if i < n {
        Some(i)
    } else {
        None
    }
}

impl EpollTable {
    fn set_watch(&mut self, eid: usize, i: usize, w: Watch)
        requires
            old(self).wf(),
            eid < MAX_EPOLL,
            i < MAX_WATCH,
        ensures
            final(self).wf(),
            final(self).view() == old(self).view().update(
                eid as int,
                EpollView { used: old(self).view()[eid as int].used, watches: old(self).view()[eid as int].watches.update(i as int, w) },
            ),
    {
        let mut e = Epoll { used: false, watches: Vec::new() };
        std::mem::swap(&mut e, &mut self.inst[eid]);
        e.watches.set(i, w);
        std::mem::swap(&mut e, &mut self.inst[eid]);
        assert(self.view() =~= old(self).view().update(
            eid as int,
            EpollView { used: old(self).view()[eid as int].used, watches: old(self).view()[eid as int].watches.update(i as int, w) },
        ));
    }

    /// Add, change or remove the watch of `fd` in the instance behind `epfd`.
    /// Errors are Linux errno values: `EBADF` for a bad descriptor, `EINVAL`
    /// for watching itself, a non-epoll `epfd` or an unknown `op`, `EEXIST`,
    /// `ENOENT` and `ENOMEM` for the watch list.
    pub fn ctl(&mut self, fds: &FdSystem, files_slot: usize, epfd: usize, op: i32, fd: i32, events: u32, data: u64) -> (r: Result<(), i64>)
        requires
            old(self).wf(),
            fds.wf(),
        ensures
            final(self).wf(),
            match ctl_spec(fds.table(fds.cur(files_slot)), old(self).view(), epfd, op, fd, events, data) {
                Err(e) => r == Err::<(), i64>(e) && final(self).view() == old(self).view(),
                Ok(v) => r == Ok::<(), i64>(()) && final(self).view() == v,
            },
    {
        proof {
            fds.lemma_cur(files_slot);
        }
        if epfd >= FD_MAX || fd < 0 || fd as usize >= FD_MAX {
            return Err(EBADF);
        }
        if fd as usize == epfd {
            return Err(EINVAL);
        }
        let t = fds.with_current(files_slot);
        let e = match t.get(epfd) {
            None => return Err(EBADF),
            Some(f) => *f,
        };
        if e.data.fops_id != FOPS_EPOLL {
            return Err(EINVAL);
        }
        let eid = e.data.private as usize;
        if eid >= MAX_EPOLL || !self.inst[eid].used {
            return Err(EBADF);
        }
        if op != EPOLL_CTL_DEL {
            if t.get(fd as usize).is_none() {
                return Err(EBADF);
            }
        }
        let ghost ws0 = self.view()[eid as int].watches;
        let found = find_watch_exec(&self.inst[eid].watches, fd);
        proof {
            lemma_find_range(ws0, fd, 0);
            lemma_free_watch_range(ws0, 0);
        }
        if op == EPOLL_CTL_ADD {
            if found.is_some() {
                return Err(EEXIST);
            }
            match free_watch_exec(&self.inst[eid].watches) {
                None => Err(ENOMEM),
                Some(i) => {
                    self.set_watch(eid, i, Watch { used: true, fd, events, data });
                    Ok(())
                },
            }
        } else if op == EPOLL_CTL_MOD {
            match found {
                None => Err(ENOENT),
                Some(i) => {
                    let w = self.inst[eid].watches[i];
                    self.set_watch(eid, i, Watch { events, data, ..w });
                    Ok(())
                },
            }
        } else if op == EPOLL_CTL_DEL {
            match found {
                None => Err(ENOENT),
                Some(i) => {
                    self.set_watch(eid, i, Watch { used: false, fd: -1, events: 0, data: 0 });
                    Ok(())
                },
            }
        } else {
            Err(EINVAL)
        }
    }

    /// Fill `out` with the ready `(events, data)` pairs of the instance behind
    /// `epfd`, in watch order, as many as fit. Returns how many.
    pub fn collect(
        &self,
        fds: &FdSystem,
        files_slot: usize,
        epfd: usize,
        out: &mut [(u32, u64)],
        pipes: &PipeTable,
        keys: &KeyBuffer,
    ) -> (r: Result<usize, i64>)
        requires
            self.wf(),
            fds.wf(),
            pipes.wf(),
            keys.wf(),
        ensures
            ({
                let t = fds.table(fds.cur(files_slot));
                if epfd >= FD_MAX {
                    r == Err::<usize, i64>(EBADF) && final(out)@ == old(out)@
                } else {
                    match epoll_of(t, self.view(), epfd) {
                        Err(e) => r == Err::<usize, i64>(e) && final(out)@ == old(out)@,
                        Ok(eid) => {
                            let rl = ready_list(t, self.view()[eid as int].watches, *pipes, keys@.len());
                            let n = if rl.len() < old(out)@.len() { rl.len() } else { old(out)@.len() };
                            &&& r == Ok::<usize, i64>(n as usize)
                            &&& final(out)@ == rl.take(n as int) + old(out)@.skip(n as int)
                        },
                    }
                }
            }),
    {
        proof {
            fds.lemma_cur(files_slot);
        }
        if epfd >= FD_MAX {
            return Err(EBADF);
        }
        let t = fds.with_current(files_slot);
        let e = match t.get(epfd) {
            None => return Err(EBADF),
            Some(f) => *f,
        };
        if e.data.fops_id != FOPS_EPOLL {
            return Err(EINVAL);
        }
        let eid = e.data.private as usize;
        if eid >= MAX_EPOLL || !self.inst[eid].used {
            return Err(EBADF);
        }
        let ws = &self.inst[eid].watches;
        let ghost tv = fds.table(fds.cur(files_slot));
        let ol = out.len();
        let mut n: usize = 0;
        let mut k: usize = 0;
        while k < MAX_WATCH
            invariant
                ws@.len() == MAX_WATCH,
                ol == out@.len(),
                out@.len() == old(out)@.len(),
                k <= MAX_WATCH,
                fds.wf(),
                pipes.wf(),
                keys.wf(),
                tv == fds.table(fds.cur(files_slot)),
                ({
                    let rl = ready_list(tv, ws@.take(k as int), *pipes, keys@.len());
                    &&& n == (if rl.len() < ol { rl.len() } else { ol as nat })
                    &&& out@ == rl.take(n as int) + old(out)@.skip(n as int)
                }),
            decreases MAX_WATCH - k,
        {
            let w = ws[k];
            proof {
                assert(ws@.take(k + 1).drop_last() =~= ws@.take(k as int));
                lemma_ready_len(tv, ws@.take(k as int), *pipes, keys@.len());
            }
            let ghost rl0 = ready_list(tv, ws@.take(k as int), *pipes, keys@.len());
            if w.used {
                let want = (w.events as u16) | POLLIN | POLLOUT;
                let got = revents(fds, files_slot, w.fd, want, pipes, keys) as u32;
                let mask = w.events | (POLLERR as u32) | (POLLHUP as u32) | (POLLNVAL as u32);
                let rev = got & mask;
                assert(rev == watch_event(tv, w, *pipes, keys@.len()));
                if rev != 0 && n < ol {
                    out[n] = (rev, w.data);
                    n = n + 1;
                    proof {
                        let rl1 = rl0.push((rev, w.data));
                        assert(out@ =~= rl1.take(n as int) + old(out)@.skip(n as int));
                    }
                } else if rev != 0 {
                    proof {
                        let rl1 = rl0.push((rev, w.data));
                        assert(rl1.take(n as int) =~= rl0.take(n as int));
                    }
                }
            }
            k = k + 1;
        }
        assert(ws@.take(MAX_WATCH as int) =~= ws@);
        Ok(n)
    }
}

} // verus!
