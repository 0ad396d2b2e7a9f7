//! The primary IDE disk: the checks made before any port I/O, and how a
//! multi-sector transfer is split into single-sector ones. Moving the
//! words through the data port is the driver's.

use vstd::prelude::*;

verus! {

/// Bytes per sector.
pub const SECTOR_SIZE: usize = 512;

/// Why a sector transfer is refused or failed.
#[derive(Clone, Copy, Debug, PartialEq, Eq, Structural)]
pub enum IdeError {
    BufferTooSmall,
    NoDisk,
    ReadTimeout,
    WriteTimeout,
}

impl IdeError {
    /// The message the driver reports.
    pub fn as_str(self) -> (r: &'static str)
        ensures
            r@ == (match self {
                IdeError::BufferTooSmall => "buffer too small"@,
                IdeError::NoDisk => "no IDE disk"@,
                IdeError::ReadTimeout => "IDE read timeout/error"@,
                IdeError::WriteTimeout => "IDE write timeout/error"@,
            }),
    {
        match self {
            IdeError::BufferTooSmall => "buffer too small",
            IdeError::NoDisk => "no IDE disk",
            IdeError::ReadTimeout => "IDE read timeout/error",
            IdeError::WriteTimeout => "IDE write timeout/error",
        }
    }
}

/// Size of a sector in bytes.
pub fn sector_size() -> (r: usize)
    ensures
        r == SECTOR_SIZE,
{
    SECTOR_SIZE
}

/// Whether a one-sector transfer through a buffer of `buf_len` bytes may
/// start: the buffer must hold a sector, then a disk must be present.
pub fn sector_check(buf_len: usize, present: bool) -> (r: Result<(), IdeError>)
    ensures
        r == (if buf_len < SECTOR_SIZE {
            Err::<(), IdeError>(IdeError::BufferTooSmall)
        } else if !present {
            Err(IdeError::NoDisk)
        } else {
            Ok(())
        }),
{
    if buf_len < SECTOR_SIZE {
        Err(IdeError::BufferTooSmall)
    } else if !present {
        Err(IdeError::NoDisk)
    } else {
        Ok(())
    }
}

/// The single-sector transfers of `count` sectors from `lba`:
/// `(lba + i, byte offset 512 * i)` for each `i < count`.
pub open spec fn sector_steps(lba: u32, count: u32) -> Seq<(u32, usize)> {
    Seq::new(count as nat, |i: int| ((lba + i) as u32, (SECTOR_SIZE * i) as usize))
}

/// Plan a transfer of `count` sectors from `lba` through a buffer of
/// `buf_len` bytes, checked before any sector moves: refused when the
/// buffer cannot hold them all, else the sectors in order with where each
/// goes in the buffer.
pub fn sectors_plan(lba: u32, count: u32, buf_len: usize) -> (r: Result<Vec<(u32, usize)>, IdeError>)
    requires
        count == 0 || lba + count - 1 <= u32::MAX,
    ensures
        buf_len < count * SECTOR_SIZE ==> r == Err::<Vec<(u32, usize)>, IdeError>(IdeError::BufferTooSmall),
        buf_len >= count * SECTOR_SIZE ==> (r matches Ok(v) && v@ == sector_steps(lba, count)),
{
    let need: u64 = (count as u64) * (SECTOR_SIZE as u64);
    if (buf_len as u64) < need {
        return Err(IdeError::BufferTooSmall);
    }
    let mut v: Vec<(u32, usize)> = Vec::new();
    let mut i: u32 = 0;
    while i < count
        invariant
            i <= count,
            count == 0 || lba + count - 1 <= u32::MAX,
            (count as int) * SECTOR_SIZE <= buf_len,
            v@ == sector_steps(lba, count).take(i as int),
        decreases count - i,
    {
        assert((i as int) * SECTOR_SIZE < (count as int) * SECTOR_SIZE) by (nonlinear_arith)
            requires
                i < count,
        ;
        v.push((lba + i, (i as usize) * SECTOR_SIZE));
        i = i + 1;
        assert(v@ =~= sector_steps(lba, count).take(i as int));
    }
    assert(v@ =~= sector_steps(lba, count));
    Ok(v)
}

} // verus!
