//! Descriptor readiness for `poll`, `select` and `epoll` (level-triggered).

use vstd::prelude::*;
use crate::fd::{FdSystem, File, FD_MAX, is_open_spec};
use crate::kbd::KeyBuffer;
use crate::pipe::{PipeTable, MAX_PIPES, PIPE_CAP};
use crate::vcore::{FOPS_NONE, FOPS_PIPE_R, FOPS_PIPE_W, FOPS_CONSOLE, FOPS_EPOLL};

verus! {

pub const POLLIN: u16 = 0x0001;
pub const POLLPRI: u16 = 0x0002;
pub const POLLOUT: u16 = 0x0004;
pub const POLLERR: u16 = 0x0008;
pub const POLLHUP: u16 = 0x0010;
pub const POLLNVAL: u16 = 0x0020;

/// Readiness of pipe `id`: (readable, writable, reader hang-up, writer error).
pub open spec fn pipe_poll(p: PipeTable, id: usize) -> Option<(bool, bool, bool, bool)> {
    if id >= MAX_PIPES || !p.state(id as int).used {
        None
    } else {
        let s = p.state(id as int);
        Some((s.data.len() > 0 || s.nwriters == 0, s.data.len() < PIPE_CAP || s.nreaders == 0, s.nwriters == 0, s.nreaders == 0))
    }
}

pub open spec fn bit(b: bool, m: u16) -> u16 {
    if b { m } else { 0 }
}

/// The events `file` could report, before masking: `None` means invalid.
pub open spec fn file_events(file: File, pipes: PipeTable, keys: nat) -> Option<u16> {
    let f = file.data;
    if f.fops_id == FOPS_NONE {
        None
    } else if f.fops_id == FOPS_PIPE_R {
        match pipe_poll(pipes, f.private as usize) {
            None => None,
            Some(st) => Some(bit(st.0, POLLIN) | bit(st.2, POLLHUP)),
        }
    } else if f.fops_id == FOPS_PIPE_W {
        match pipe_poll(pipes, f.private as usize) {
            None => None,
            Some(st) => Some(bit(st.1, POLLOUT) | bit(st.3, POLLERR)),
        }
    } else if f.fops_id == FOPS_CONSOLE {
        Some(bit(f.readable && keys > 0, POLLIN) | bit(f.writable, POLLOUT))
    } else if f.fops_id == FOPS_EPOLL {
        Some(bit(f.writable || f.readable, POLLOUT))
    } else {
        Some(bit(f.readable || f.is_dir, POLLIN) | bit(f.writable, POLLOUT) | bit(
            !f.readable && !f.writable && !f.is_dir,
            POLLOUT | POLLIN,
        ))
    }
}

/// What `poll` reports for `file` when `want` is asked: the ready events
/// among `want`, errors and hang-ups; `POLLNVAL` for an invalid file.
pub open spec fn file_revents_spec(file: File, want: u16, pipes: PipeTable, keys: nat) -> u16 {
    match file_events(file, pipes, keys) {
        None => POLLNVAL,
        Some(got) => got & (want | POLLERR | POLLHUP | POLLNVAL),
    }
}

fn b(c: bool, m: u16) -> (r: u16)
    ensures
        r == bit(c, m),
{
    if c { m } else { 0 }
}

pub fn file_revents(file: &File, want: u16, pipes: &PipeTable, keys: &KeyBuffer) -> (r: u16)
    requires
        pipes.wf(),
        keys.wf(),
    ensures
        r == file_revents_spec(*file, want, *pipes, keys@.len()),
{
    let f = &file.data;
    let got: u16 = if f.fops_id == FOPS_NONE {
        return POLLNVAL;
    } else if f.fops_id == FOPS_PIPE_R {
        match pipes.poll_state(f.private as usize) {
            None => return POLLNVAL,
            Some((rd, _, hup, _)) => b(rd, POLLIN) | b(hup, POLLHUP),
        }
    } else if f.fops_id == FOPS_PIPE_W {
        match pipes.poll_state(f.private as usize) {
            None => return POLLNVAL,
            Some((_, wr, _, err)) => b(wr, POLLOUT) | b(err, POLLERR),
        }
    } else if f.fops_id == FOPS_CONSOLE {
        b(f.readable && keys.buffered_len() > 0, POLLIN) | b(f.writable, POLLOUT)
    } else if f.fops_id == FOPS_EPOLL {
        b(f.writable || f.readable, POLLOUT)
    } else {
        b(f.readable || f.is_dir, POLLIN) | b(f.writable, POLLOUT) | b(!f.readable && !f.writable && !f.is_dir, POLLOUT | POLLIN)
    };
    let report = want | POLLERR | POLLHUP | POLLNVAL;
    got & report
}

/// What `revents(fd, events)` gives on table `t`: 0 for a negative
/// descriptor, `POLLNVAL` for one out of range or closed.
pub open spec fn revents_spec(t: Seq<File>, fd: i32, events: u16, pipes: PipeTable, keys: nat) -> u16 {
    if fd < 0 {
        0
    } else if fd >= FD_MAX {
        POLLNVAL
    } else if !is_open_spec(t[fd as int]) {
        POLLNVAL
    } else {
        file_revents_spec(t[fd as int], events, pipes, keys)
    }
}

/// The `revents` of descriptor `fd` of the current table.
pub fn revents(fds: &FdSystem, files_slot: usize, fd: i32, events: u16, pipes: &PipeTable, keys: &KeyBuffer) -> (r: u16)
    requires
        fds.wf(),
        pipes.wf(),
        keys.wf(),
    ensures
        r == revents_spec(fds.table(fds.cur(files_slot)), fd, events, *pipes, keys@.len()),
{
    if fd < 0 {
        return 0;
    }
    let f = fd as usize;
    if f >= FD_MAX {
        return POLLNVAL;
    }
    let t = fds.with_current(files_slot);
    match t.get(f) {
        Some(file) => file_revents(file, events, pipes, keys),
        None => POLLNVAL,
    }
}

/// Whether anything asked for (or an error or hang-up) is reported.
pub fn is_ready(fds: &FdSystem, files_slot: usize, fd: i32, events: u16, pipes: &PipeTable, keys: &KeyBuffer) -> (r: bool)
    requires
        fds.wf(),
        pipes.wf(),
        keys.wf(),
    ensures
        r == (revents_spec(fds.table(fds.cur(files_slot)), fd, events, *pipes, keys@.len()) != 0),
{
    revents(fds, files_slot, fd, events, pipes, keys) != 0
}

} // verus!
