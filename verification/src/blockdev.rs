//! Registered block devices and which one is the default (the root disk).
//! Moving sectors is the device driver's; the registry says which device
//! serves a request.

use vstd::prelude::*;
use vstd::string::StringSliceAdditionalSpecFns;
use crate::text::{utf8_text, bytes_eq, copy_prefix};

verus! {

pub const MAX_BLKDEV: usize = 4;
/// Longest device name kept.
pub const BLK_NAME_MAX: usize = 7;

#[derive(Clone, Debug)]
pub struct BlockDevice {
    pub used: bool,
    /// At most 7 bytes.
    pub name: Vec<u8>,
    pub sector_size: u32,
    pub nsectors: u32,
}

pub struct BlkView {
    pub used: bool,
    pub name: Seq<u8>,
    pub sector_size: u32,
    pub nsectors: u32,
}

pub open spec fn blk_view(d: BlockDevice) -> BlkView {
    BlkView { used: d.used, name: d.name@, sector_size: d.sector_size, nsectors: d.nsectors }
}

#[derive(Clone, Copy, Debug, PartialEq, Eq, Structural)]
pub enum BlkError {
    TooMany,
    NoDevice,
}

impl BlkError {
    /// The text of this error.
    pub open spec fn text(&self) -> Seq<char> {
        match *self {
            BlkError::TooMany => "too many block devices"@,
            BlkError::NoDevice => "no block device"@,
        }
    }

    pub fn as_str(self) -> (r: &'static str)
        ensures
            r@ == self.text(),
    {
        match self {
            BlkError::TooMany => "too many block devices",
            BlkError::NoDevice => "no block device",
        }
    }
}

/// How a device name reads: valid UTF-8 as itself, anything else as empty.
pub open spec fn blk_name_text(n: Seq<u8>) -> Seq<u8> {
    if vstd::utf8::valid_utf8(n) { n } else { Seq::empty() }
}

pub open spec fn free_blk(v: Seq<BlkView>, k: int) -> Option<int>
    decreases v.len() - k,
{
    if k < 0 || k >= v.len() {
        None
    } else if !v[k].used {
        Some(k)
    } else {
        free_blk(v, k + 1)
    }
}

pub open spec fn find_blk(v: Seq<BlkView>, name: Seq<u8>, k: int) -> Option<int>
    decreases v.len() - k,
{
    if k < 0 || k >= v.len() {
        None
    } else if v[k].used && blk_name_text(v[k].name) == name {
        Some(k)
    } else {
        find_blk(v, name, k + 1)
    }
}

pub open spec fn count_used(v: Seq<BlkView>) -> nat
    decreases v.len(),
{
    if v.len() == 0 {
        0
    } else {
        count_used(v.drop_last()) + if v.last().used { 1nat } else { 0nat }
    }
}

proof fn lemma_count_le(v: Seq<BlkView>)
    ensures
        count_used(v) <= v.len(),
    decreases v.len(),
{
    if v.len() > 0 {
        lemma_count_le(v.drop_last());
    }
}

proof fn lemma_free_blk_range(v: Seq<BlkView>, k: int)
    ensures
        free_blk(v, k) matches Some(i) ==> k <= i < v.len() && !v[i].used,
    decreases v.len() - k,
{
    if k >= 0 && k < v.len() && v[k].used {
        lemma_free_blk_range(v, k + 1);
    }
}

proof fn lemma_find_blk_range(v: Seq<BlkView>, name: Seq<u8>, k: int)
    ensures
        find_blk(v, name, k) matches Some(i) ==> k <= i < v.len(),
    decreases v.len() - k,
{
    if k >= 0 && k < v.len() && !(v[k].used && blk_name_text(v[k].name) == name) {
        lemma_find_blk_range(v, name, k + 1);
    }
}

pub struct BlockRegistry {
    devs: Vec<BlockDevice>,
    default_dev: i8,
}

impl BlockRegistry {
    pub closed spec fn view(&self) -> Seq<BlkView> {
        Seq::new(self.devs@.len(), |i: int| blk_view(self.devs@[i]))
    }

    /// The default device's slot, or -1.
    pub closed spec fn default_spec(&self) -> i8 {
        self.default_dev
    }

    pub closed spec fn wf(&self) -> bool {
        &&& self.devs@.len() == MAX_BLKDEV
        &&& -1 <= self.default_dev < MAX_BLKDEV
        &&& self.default_dev >= 0 ==> self.devs@[self.default_dev as int].used
    }

    pub proof fn lemma_wf(&self)
        requires
            self.wf(),
        ensures
            self.view().len() == MAX_BLKDEV,
            -1 <= self.default_spec() < MAX_BLKDEV,
            self.default_spec() >= 0 ==> self.view()[self.default_spec() as int].used,
    {
    }

    pub fn new() -> (r: BlockRegistry)
        ensures
            r.wf(),
            r.default_spec() == -1,
            forall|i: int| 0 <= i < MAX_BLKDEV ==> !(#[trigger] r.view()[i]).used,
    {
        let mut devs: Vec<BlockDevice> = Vec::new();
        while devs.len() < MAX_BLKDEV
            invariant
                devs@.len() <= MAX_BLKDEV,
                forall|i: int| 0 <= i < devs@.len() ==> !(#[trigger] devs@[i]).used,
            decreases MAX_BLKDEV - devs@.len(),
        {
            devs.push(BlockDevice { used: false, name: Vec::new(), sector_size: 512, nsectors: 0 });
        }
        BlockRegistry { devs, default_dev: -1 }
    }

    /// Register device `name` (cut to 7 bytes) in the lowest free slot; the
    /// first one registered becomes the default.
    pub fn register_blkdev(&mut self, name: &str, sector_size: u32, nsectors: u32) -> (r: Result<usize, BlkError>)
        requires
            old(self).wf(),
        ensures
            final(self).wf(),
            match free_blk(old(self).view(), 0) {
                None => r == Err::<usize, BlkError>(BlkError::TooMany) && final(self).view() == old(self).view()
                    && final(self).default_spec() == old(self).default_spec(),
                Some(i) => {
                    let b = name.spec_bytes();
                    &&& r == Ok::<usize, BlkError>(i as usize)
                    &&& final(self).view() == old(self).view().update(
                        i,
                        BlkView { used: true, name: if b.len() < 7 { b } else { b.take(7) }, sector_size, nsectors },
                    )
                    &&& final(self).default_spec() == (if old(self).default_spec() < 0 { i as i8 } else { old(self).default_spec() })
                },
            },
    {
        let mut i: usize = 0;
        while i < MAX_BLKDEV && self.devs[i].used
            invariant
                self.wf(),
                i <= MAX_BLKDEV,
                free_blk(self.view(), 0) == free_blk(self.view(), i as int),
            decreases MAX_BLKDEV - i,
        {
            i = i + 1;
        }
        if i >= MAX_BLKDEV {
            return Err(BlkError::TooMany);
        }
        let b = name.as_bytes();
        let n = if b.len() < 7 { b.len() } else { 7 };
        let nm = copy_prefix(b, n);
        proof {
            if b@.len() < 7 {
                assert(b@.take(n as int) =~= b@);
            }
        }
        self.devs.set(i, BlockDevice { used: true, name: nm, sector_size, nsectors });
        if self.default_dev < 0 {
            self.default_dev = i as i8;
        }
        assert(self.view() =~= old(self).view().update(
            i as int,
            BlkView { used: true, name: if b@.len() < 7 { b@ } else { b@.take(7) }, sector_size, nsectors },
        ));
        Ok(i)
    }

    /// Make the device named `name` the default; false when there is none.
    pub fn set_default(&mut self, name: &str) -> (ok: bool)
        requires
            old(self).wf(),
        ensures
            final(self).wf(),
            final(self).view() == old(self).view(),
            match find_blk(old(self).view(), name.spec_bytes(), 0) {
                None => !ok && final(self).default_spec() == old(self).default_spec(),
                Some(i) => ok && final(self).default_spec() == i as i8,
            },
    {
        let mut i: usize = 0;
        while i < MAX_BLKDEV
            invariant
                self.wf(),
                self.view() == old(self).view(),
                self.default_dev == old(self).default_dev,
                i <= MAX_BLKDEV,
                find_blk(self.view(), name.spec_bytes(), 0) == find_blk(self.view(), name.spec_bytes(), i as int),
            decreases MAX_BLKDEV - i,
        {
            if self.devs[i].used {
                let t: &str = match utf8_text(self.devs[i].name.as_slice()) {
                    Some(s) => s,
                    None => "",
                };
                proof {
                    if !vstd::utf8::valid_utf8(self.devs@[i as int].name@) {
                        assert("".spec_bytes() =~= Seq::<u8>::empty()) by {
                            reveal_strlit("");
                        }
                    }
                }
                if bytes_eq(t.as_bytes(), name.as_bytes()) {
                    self.default_dev = i as i8;
                    return true;
                }
            }
            i = i + 1;
        }
        false
    }

    /// The device that serves reads and writes: the default one.
    pub fn default_slot(&self) -> (r: Result<usize, BlkError>)
        requires
            self.wf(),
        ensures
            r == (if self.default_spec() >= 0 { Ok::<usize, BlkError>(self.default_spec() as usize) } else { Err(BlkError::NoDevice) }),
    {
        if self.default_dev >= 0 {
            Ok(self.default_dev as usize)
        } else {
            Err(BlkError::NoDevice)
        }
    }

    /// Sectors of the default device (0 without one).
    pub fn sector_count(&self) -> (n: u32)
        requires
            self.wf(),
        ensures
            n == (if self.default_spec() >= 0 { self.view()[self.default_spec() as int].nsectors } else { 0 }),
    {
        if self.default_dev >= 0 {
            self.devs[self.default_dev as usize].nsectors
        } else {
            0
        }
    }

    /// Sector size of the default device (512 without one).
    pub fn sector_size(&self) -> (n: u32)
        requires
            self.wf(),
        ensures
            n == (if self.default_spec() >= 0 { self.view()[self.default_spec() as int].sector_size } else { 512 }),
    {
        if self.default_dev >= 0 {
            self.devs[self.default_dev as usize].sector_size
        } else {
            512
        }
    }

    /// Number of registered devices.
    pub fn count(&self) -> (n: usize)
        requires
            self.wf(),
        ensures
            n == count_used(self.view()),
    {
        let mut n: usize = 0;
        let mut i: usize = 0;
        while i < MAX_BLKDEV
            invariant
                self.wf(),
                i <= MAX_BLKDEV,
                n == count_used(self.view().take(i as int)),
            decreases MAX_BLKDEV - i,
        {
            proof {
                assert(self.view().take(i + 1).drop_last() =~= self.view().take(i as int));
                lemma_count_le(self.view().take(i as int));
            }
            if self.devs[i].used {
                n = n + 1;
            }
            i = i + 1;
        }
        assert(self.view().take(MAX_BLKDEV as int) =~= self.view());
        n
    }

    /// Label of device `i`: `hda` for the IDE disk, `blk` for any other.
    pub fn name_at(&self, i: usize) -> (r: Option<&'static str>)
        requires
            self.wf(),
        ensures
            !(i < MAX_BLKDEV && self.view()[i as int].used) ==> r is None,
            i < MAX_BLKDEV && self.view()[i as int].used ==> r == Some(
                if blk_name_text(self.view()[i as int].name) == "hda".spec_bytes() { "hda" } else { "blk" },
            ),
    {
        if i >= MAX_BLKDEV || !self.devs[i].used {
            return None;
        }
        let t: &str = match utf8_text(self.devs[i].name.as_slice()) {
            Some(s) => s,
            None => "",
        };
        proof {
            if !vstd::utf8::valid_utf8(self.devs@[i as int].name@) {
                assert("".spec_bytes() =~= Seq::<u8>::empty()) by {
                    reveal_strlit("");
                }
            }
        }
        if bytes_eq(t.as_bytes(), "hda".as_bytes()) {
            Some("hda")
        } else {
            Some("blk")
        }
    }
}

} // verus!
