//! ext2 removal on the in-memory disk: freeing inodes and blocks, removing
//! directory entries, and `mkdir`, `unlink`, `rmdir`.

use vstd::prelude::*;
use vstd::string::StringSliceAdditionalSpecFns;
use crate::ext2::{Ext2Fs, Ext2Error, Ext2Superblock, Ext2GroupDesc, Ext2Inode, MAX_GROUPS, le16, le32, S_IFMT, S_IFDIR, EXT2_FT_DIR, inode_at};
use crate::ext2_write::{patch, bit_used, bit_set, bitmap_block, scratch, gd_bytes, sb_bytes, bitmap_test, bitmap_set, u16_bytes, u32_bytes, dirent_bytes, write_dirent, zero_block, gd_take_block, sb_take_block, stamp, now};
use crate::text::{utf8_text, bytes_eq};

verus! {

/// `x + 1` wrapped to 16 bits.
pub open spec fn inc16(x: u16) -> u16 {
    if x == 0xFFFF { 0 } else { (x + 1) as u16 }
}

/// `x + 1` wrapped to 32 bits.
pub open spec fn inc32(x: u32) -> u32 {
    if x == 0xFFFF_FFFF { 0 } else { (x + 1) as u32 }
}

/// `gd` with one more free inode (or block).
pub open spec fn gd_give(gd: Ext2GroupDesc, inodes: bool) -> Ext2GroupDesc {
    if inodes {
        Ext2GroupDesc { bg_free_inodes_count: inc16(gd.bg_free_inodes_count), ..gd }
    } else {
        Ext2GroupDesc { bg_free_blocks_count: inc16(gd.bg_free_blocks_count), ..gd }
    }
}

/// `sb` with one more free inode (or block).
pub open spec fn sb_give(sb: Ext2Superblock, inodes: bool) -> Ext2Superblock {
    if inodes {
        Ext2Superblock { s_free_inodes_count: inc32(sb.s_free_inodes_count), ..sb }
    } else {
        Ext2Superblock { s_free_blocks_count: inc32(sb.s_free_blocks_count), ..sb }
    }
}

impl Ext2Fs {
    /// Group and bit of inode `n` (when `inodes`) or block `n`.
    pub open spec fn free_target(&self, n: u32, inodes: bool) -> Result<(int, int), Ext2Error> {
        if inodes {
            if n < 1 || self.ipg() == 0 {
                Err(Ext2Error::BadIno)
            } else if (n - 1) / self.ipg() >= MAX_GROUPS {
                Err(Ext2Error::GroupOutOfRange)
            } else {
                Ok(((n - 1) / self.ipg(), (n - 1) % self.ipg()))
            }
        } else if n < self.first_data() {
            Err(Ext2Error::BadBlockFree)
        } else if (n - self.first_data()) / self.bpg() >= MAX_GROUPS {
            Err(Ext2Error::GroupOutOfRange)
        } else {
            Ok(((n - self.first_data()) / self.bpg(), (n - self.first_data()) % self.bpg()))
        }
    }

    /// Disk after clearing bit `bit` of group `g`'s bitmap and writing the
    /// descriptor and superblock (one more free) back.
    pub open spec fn after_free(&self, g: int, bit: int, inodes: bool) -> Seq<u8> {
        let bmp = bitmap_block(self.group(g), inodes);
        let bb = self.block_data(bmp)->Some_0;
        let d1 = patch(self.disk(), bmp * self.bs(), bit_set(scratch(bb), bit, false).take(self.bs()));
        let d2 = patch(d1, self.gdt() * self.bs() + 32 * g, gd_bytes(gd_give(self.group(g), inodes)));
        patch(d2, 1024, sb_bytes(sb_give(self.sb(), inodes)))
    }

    /// The state after clearing bit `bit` of group `g`.
    pub open spec fn freed(&self, fin: &Ext2Fs, g: int, bit: int, inodes: bool) -> bool {
        &&& fin.disk() == self.after_free(g, bit, inodes)
        &&& fin.group(g) == gd_give(self.group(g), inodes)
        &&& forall|k: int| 0 <= k < MAX_GROUPS && k != g ==> #[trigger] fin.group(k) == self.group(k)
        &&& fin.sb() == sb_give(self.sb(), inodes)
    }

    /// Outcome of freeing inode `n` (when `inodes`) or block `n`. A block
    /// whose bit is already clear is left alone; an inode's bit is cleared
    /// and counted free in any case.
    pub open spec fn free_ok(&self, fin: &Ext2Fs, r: Result<(), Ext2Error>, n: u32, inodes: bool) -> bool {
        match self.free_target(n, inodes) {
            Err(e) => r == Err::<(), Ext2Error>(e) && fin.unchanged(self),
            Ok((g, bit)) => match self.block_data(bitmap_block(self.group(g), inodes)) {
                None => r == Err::<(), Ext2Error>(Ext2Error::Io) && fin.unchanged(self),
                Some(bb) => if !inodes && !bit_used(scratch(bb), bit) {
                    r == Ok::<(), Ext2Error>(()) && fin.unchanged(self)
                } else {
                    r == Ok::<(), Ext2Error>(()) && self.freed(fin, g, bit, inodes)
                },
            },
        }
    }

    /// Clear bit `bit` of group `g`'s bitmap (read into `bm`) and write the
    /// updated descriptor and superblock back.
    fn commit_free(&mut self, g: u32, bit: u32, inodes: bool, bm: Vec<u8>)
        requires
            old(self).wf(),
            old(self).is_mounted(),
            g < MAX_GROUPS,
            old(self).block_data(bitmap_block(old(self).group(g as int), inodes)) is Some,
            bm@ == scratch(old(self).block_data(bitmap_block(old(self).group(g as int), inodes))->Some_0),
        ensures
            final(self).wf(),
            final(self).same_geometry(old(self)),
            final(self).is_mounted(),
            old(self).freed(final(self), g as int, bit as int, inodes),
    {
        let mut bm = bm;
        proof {
            self.lemma_fields();
            self.lemma_same_geometry(old(self));
        }
        let gd = self.groups[g as usize];
        let bmp = if inodes { gd.bg_inode_bitmap } else { gd.bg_block_bitmap };
        let ghost s0 = *self;
        bitmap_set(bm.as_mut_slice(), bit, false);
        let _ = self.write_fs_block(bmp, bm.as_slice());
        let ghost s1 = *self;
        proof {
            self.lemma_fields();
            self.lemma_same_geometry(&s0);
            assert(bm@.len() == 4096);
            assert(s1.disk() == patch(s0.disk(), bmp * s0.bs(), bm@.take(s0.bs())));
        }
        let mut ngd = gd;
        if inodes {
            ngd.bg_free_inodes_count = ngd.bg_free_inodes_count.wrapping_add(1);
            self.superblock.s_free_inodes_count = self.superblock.s_free_inodes_count.wrapping_add(1);
        } else {
            ngd.bg_free_blocks_count = ngd.bg_free_blocks_count.wrapping_add(1);
            self.superblock.s_free_blocks_count = self.superblock.s_free_blocks_count.wrapping_add(1);
        }
        self.groups.set(g as usize, ngd);
        let ghost s2 = *self;
        proof {
            self.lemma_fields();
            s1.lemma_fields();
            self.lemma_same_geometry(&s1);
            assert(self.same_geometry(&s1));
            Ext2Fs::lemma_same_geometry_trans(self, &s1, &s0);
            assert(ngd == gd_give(gd, inodes));
        }
        let _ = self.write_group_desc(g);
        let ghost s3 = *self;
        proof {
            Ext2Fs::lemma_same_geometry_trans(self, &s2, &s0);
            Ext2Fs::lemma_same_geometry_facts(&s2, &s0);
        }
        let _ = self.write_superblock();
        proof {
            Ext2Fs::lemma_same_geometry_trans(self, &s3, &s0);
            Ext2Fs::lemma_same_geometry_facts(&s3, &s0);
            self.lemma_fields();
            s0.lemma_fields();
            s2.lemma_fields();
            s3.lemma_fields();
            assert(s0.gdt() == s2.gdt());
            let gdn = gd_give(old(self).group(g as int), inodes);
            let sbn = sb_give(old(self).sb(), inodes);
            assert(s2.group(g as int) == gdn);
            assert(s2.sb() == sbn);
            assert(s2.disk() == s1.disk());
            assert(s3.disk() == patch(s1.disk(), s0.gdt() * s0.bs() + 32 * g, gd_bytes(gdn)));
            assert(self.disk() == patch(s3.disk(), 1024, sb_bytes(sbn)));
            assert(bmp as int == bitmap_block(s0.group(g as int), inodes));
            let bb = s0.block_data(bmp as int)->Some_0;
            assert(bm@ == bit_set(scratch(bb), bit as int, false));
            assert(self.disk() == old(self).after_free(g as int, bit as int, inodes));
            assert forall|k: int| 0 <= k < MAX_GROUPS && k != g implies #[trigger] self.group(k) == old(self).group(k) by {
                assert(s2.group(k) == s1.group(k));
                assert(s1.group(k) == s0.group(k));
            }
        }
    }

    /// Shared freeing path for inodes and blocks.
    fn free_bit(&mut self, n: u32, inodes: bool) -> (r: Result<(), Ext2Error>)
        requires
            old(self).wf(),
            old(self).is_mounted(),
        ensures
            final(self).wf(),
            final(self).same_geometry(old(self)),
            final(self).is_mounted(),
            old(self).free_ok(final(self), r, n, inodes),
    {
        proof {
            self.lemma_fields();
            Ext2Fs::lemma_same_geometry_refl(self);
        }
        let g: u32;
        let bit: u32;
        if inodes {
            if n < 1 || self.inodes_per_group == 0 {
                return Err(Ext2Error::BadIno);
            }
            g = (n - 1) / self.inodes_per_group;
            bit = (n - 1) % self.inodes_per_group;
        } else {
            if n < self.first_data_block {
                return Err(Ext2Error::BadBlockFree);
            }
            g = (n - self.first_data_block) / self.blocks_per_group;
            bit = (n - self.first_data_block) % self.blocks_per_group;
        }
        if g as usize >= MAX_GROUPS {
            return Err(Ext2Error::GroupOutOfRange);
        }
        let gd = self.groups[g as usize];
        let bmp = if inodes { gd.bg_inode_bitmap } else { gd.bg_block_bitmap };
        let bm = match self.read_scratch(bmp) {
            Err(e) => return Err(e),
            Ok(v) => v,
        };
        if !inodes && !bitmap_test(bm.as_slice(), bit) {
            return Ok(());
        }
        self.commit_free(g, bit, inodes, bm);
        Ok(())
    }

    /// Return block `block` to the free pool.
    pub fn free_block(&mut self, block: u32) -> (r: Result<(), Ext2Error>)
        requires
            old(self).wf(),
            old(self).is_mounted(),
        ensures
            final(self).wf(),
            final(self).same_geometry(old(self)),
            final(self).is_mounted(),
            old(self).free_ok(final(self), r, block, false),
    {
        self.free_bit(block, false)
    }

    /// Return inode `ino` to the free pool.
    pub fn free_inode(&mut self, ino: u32) -> (r: Result<(), Ext2Error>)
        requires
            old(self).wf(),
            old(self).is_mounted(),
        ensures
            final(self).wf(),
            final(self).same_geometry(old(self)),
            final(self).is_mounted(),
            old(self).free_ok(final(self), r, ino, true),
    {
        self.free_bit(ino, true)
    }
}

/// The name bytes `b` of an entry compare equal to `name` as text does:
/// an entry name that is not valid UTF-8 reads as empty text.
pub open spec fn name_matches(b: Seq<u8>, name: Seq<u8>) -> bool {
    if vstd::utf8::valid_utf8(b) {
        b == name
    } else {
        name.len() == 0
    }
}

/// Is `name` one of `.` and `..`?
pub open spec fn is_dot(name: Seq<u8>) -> bool {
    name == ".".spec_bytes() || name == "..".spec_bytes()
}

/// Offset `off` rounded up to a multiple of `bs`.
pub open spec fn round_up(off: int, bs: int) -> int {
    if off % bs != 0 { (off / bs + 1) * bs } else { off }
}

/// What scanning one directory block for the entry to remove finds.
pub enum RmStep {
    /// The entry's inode and the block's new bytes.
    Found(u32, Seq<u8>),
    /// The name is `.` or `..`.
    Dot,
    /// Go on at this offset.
    Next(int),
    /// The first record is too short to walk past.
    Corrupt,
}

/// Where the entry to remove was found.
pub enum RmPlace {
    /// In block `block`: the entry's inode and the block's new bytes.
    Found(int, u32, Seq<u8>),
    Missing,
    Fail(Ext2Error),
}

impl Ext2Fs {
    /// Scan the records of a block (scratch buffer `bm`, logical block `lb`)
    /// from `pos`; `prev` is the last record before `pos` with an inode.
    /// A match after such a record is merged into it; a match without one
    /// gets its inode cleared.
    pub open spec fn rm_scan(&self, bm: Seq<u8>, lb: int, pos: int, prev: Option<int>, name: Seq<u8>) -> RmStep
        decreases (if pos < self.bs() { self.bs() - pos } else { 0 }),
    {
        let bs = self.bs();
        let off = lb * bs + pos;
        if 0 <= pos && pos + 8 <= bs {
            let ino = le32(bm, pos);
            let rec = le16(bm, pos + 4);
            let nlen = bm[pos + 6] as int;
            if rec < 8 {
                if pos == 0 { RmStep::Corrupt } else { RmStep::Next(round_up(off, bs)) }
            } else if ino != 0 && nlen > 0 && pos + 8 + nlen <= bs && name_matches(bm.subrange(pos + 8, pos + 8 + nlen), name) {
                if is_dot(name) {
                    RmStep::Dot
                } else {
                    RmStep::Found(
                        ino as u32,
                        match prev {
                            Some(pp) => patch(bm, pp + 4, u16_bytes(((le16(bm, pp + 4) + rec) % 0x10000) as u16)),
                            None => patch(bm, pos, u32_bytes(0)),
                        },
                    )
                }
            } else {
                self.rm_scan(bm, lb, pos + rec, if ino != 0 { Some(pos) } else { prev }, name)
            }
        } else {
            RmStep::Next(round_up(off, bs))
        }
    }

    /// Find the entry `name` in a directory with block map `blocks` from byte `off`.
    pub open spec fn rm_walk(&self, blocks: Seq<u32>, size: int, off: int, name: Seq<u8>) -> RmPlace
        decreases size - off,
    {
        if off >= size || off < 0 || self.bs() <= 0 {
            RmPlace::Missing
        } else {
            let lb = off / self.bs();
            if lb >= 15 {
                RmPlace::Fail(Ext2Error::DirTooLarge)
            } else {
                let block = blocks[lb] as int;
                if block == 0 {
                    RmPlace::Missing
                } else {
                    match self.block_data(block) {
                        None => RmPlace::Fail(Ext2Error::Io),
                        Some(bb) => match self.rm_scan(scratch(bb), lb, 0, None, name) {
                            RmStep::Found(ino, nb) => RmPlace::Found(block, ino, nb),
                            RmStep::Dot => RmPlace::Fail(Ext2Error::CannotRemoveDot),
                            RmStep::Corrupt => RmPlace::Fail(Ext2Error::CorruptDirectory),
                            RmStep::Next(o2) => if o2 <= off {
                                RmPlace::Fail(Ext2Error::CorruptDirectory)
                            } else if o2 >= size {
                                RmPlace::Missing
                            } else {
                                self.rm_walk(blocks, size, o2, name)
                            },
                        },
                    }
                }
            }
        }
    }

    /// Outcome of removing the entry `name` from directory `dir`; on
    /// success the removed entry's inode is returned.
    pub open spec fn remove_entry_ok(&self, fin: &Ext2Fs, r: Result<u32, Ext2Error>, dir: u32, name: Seq<u8>) -> bool {
        match self.inode_pos(dir) {
            Err(e) => r == Err::<u32, Ext2Error>(e) && fin.unchanged(self),
            Ok(o) => if self.mode_at(o) & S_IFMT != S_IFDIR {
                r == Err::<u32, Ext2Error>(Ext2Error::NotDirectory) && fin.unchanged(self)
            } else {
                match self.rm_walk(self.blocks_at(o), self.size_at(o), 0, name) {
                    RmPlace::Missing => r == Err::<u32, Ext2Error>(Ext2Error::NotFound) && fin.unchanged(self),
                    RmPlace::Fail(e) => r == Err::<u32, Ext2Error>(e) && fin.unchanged(self),
                    RmPlace::Found(b, ino, nb) => r == Ok::<u32, Ext2Error>(ino)
                        && fin.disk() == patch(self.disk(), b * self.bs(), nb.take(self.bs()))
                        && fin.sb() == self.sb() && forall|k: int| #[trigger] fin.group(k) == self.group(k),
                }
            },
        }
    }
}

/// Result of `rm_in_block`.
enum RmOut {
    Found(u32, Vec<u8>),
    Dot,
    Next(u64),
    Corrupt,
}

impl Ext2Fs {
    #[verifier::rlimit(60)]
    fn rm_in_block(&self, bm0: Vec<u8>, lb: u64, name: &[u8]) -> (r: RmOut)
        requires
            self.wf(),
            self.is_mounted(),
            bm0@.len() == 4096,
            lb < 15,
        ensures
            match self.rm_scan(bm0@, lb as int, 0, None, name@) {
                RmStep::Found(ino, nb) => r matches RmOut::Found(x, v) && x == ino && v@ == nb && nb.len() == 4096,
                RmStep::Next(o2) => r matches RmOut::Next(x) && x == o2,
                RmStep::Dot => r is Dot,
                RmStep::Corrupt => r is Corrupt,
            },
    {
        proof {
            self.lemma_fields();
        }
        let bs = self.block_size as u64;
        assert(lb * bs <= 15 * 4096) by (nonlinear_arith)
            requires
                lb < 15,
                bs <= 4096,
        ;
        let mut bm = bm0;
        let mut pos: u64 = 0;
        let mut prev: Option<u64> = None;
        while pos + 8 <= bs
            invariant
                self.wf(),
                self.is_mounted(),
                bm@.len() == 4096,
                bs == self.bs(),
                1024 <= bs <= 4096,
                lb < 15,
                lb * bs <= 15 * 4096,
                pos <= bs + 0x1_0000,
                bm@ == bm0@,
                match prev {
                    Some(pp) => pp + 8 <= bs,
                    None => true,
                },
                self.rm_scan(bm@, lb as int, 0, None, name@) == self.rm_scan(
                    bm@,
                    lb as int,
                    pos as int,
                    match prev {
                        Some(pp) => Some(pp as int),
                        None => None,
                    },
                    name@,
                ),
            decreases bs + 0x1_0000 - pos,
        {
            let p = pos as usize;
            let ino = crate::ext2::read_u32_le(bm.as_slice(), p);
            let rec = crate::ext2::read_u16_le(bm.as_slice(), p + 4) as u64;
            let nlen = bm[p + 6] as u64;
            assert(ino == le32(bm@, pos as int));
            assert(rec == le16(bm@, pos + 4));
            if rec < 8 {
                if pos == 0 {
                    return RmOut::Corrupt;
                }
                let off = lb * bs + pos;
                assert((off / bs + 1) * bs <= off + bs) by (nonlinear_arith)
                    requires
                        bs > 0,
                ;
                return RmOut::Next(if off % bs != 0 { (off / bs + 1) * bs } else { off });
            }
            if ino != 0 && nlen > 0 && pos + 8 + nlen <= bs {
                let entry = vstd::slice::slice_subrange(bm.as_slice(), p + 8, p + 8 + nlen as usize);
                let m = match utf8_text(entry) {
                    Some(_) => bytes_eq(entry, name),
                    None => name.len() == 0,
                };
                assert(m == name_matches(bm@.subrange(pos + 8, pos + 8 + nlen), name@));
                if m {
                    if bytes_eq(name, ".".as_bytes()) || bytes_eq(name, "..".as_bytes()) {
                        return RmOut::Dot;
                    }
                    let ghost before = bm@;
                    match prev {
                        Some(pp) => {
                            let q = pp as usize;
                            let prec = crate::ext2::read_u16_le(bm.as_slice(), q + 4) as u64;
                            assert(prec == le16(bm@, pp + 4));
                            let nr = ((prec + rec) % 0x1_0000) as u16;
                            bm.set(q + 4, (nr % 256) as u8);
                            bm.set(q + 5, (nr / 256) as u8);
                            assert(bm@ =~= patch(before, pp + 4, u16_bytes(nr)));
                        },
                        None => {
                            bm.set(p, 0);
                            bm.set(p + 1, 0);
                            bm.set(p + 2, 0);
                            bm.set(p + 3, 0);
                            assert(bm@ =~= patch(before, pos as int, u32_bytes(0)));
                        },
                    }
                    return RmOut::Found(ino, bm);
                }
            }
            if ino != 0 {
                prev = Some(pos);
            }
            pos = pos + rec;
        }
        let off = lb * bs + pos;
        assert((off / bs + 1) * bs <= off + bs) by (nonlinear_arith)
            requires
                bs > 0,
        ;
        RmOut::Next(if off % bs != 0 { (off / bs + 1) * bs } else { off })
    }

    /// Remove the entry `name` from directory `dir`: merge it into the
    /// record before it, or clear its inode when it comes first in its
    /// block; returns the removed entry's inode.
    #[verifier::rlimit(60)]
    pub fn dir_remove_entry(&mut self, dir: u32, name: &[u8]) -> (r: Result<u32, Ext2Error>)
        requires
            old(self).wf(),
            old(self).is_mounted(),
        ensures
            final(self).wf(),
            final(self).same_geometry(old(self)),
            final(self).is_mounted(),
            old(self).remove_entry_ok(final(self), r, dir, name@),
    {
        proof {
            self.lemma_fields();
            Ext2Fs::lemma_same_geometry_refl(self);
        }
        let inode = match self.read_inode(dir) {
            Err(e) => return Err(e),
            Ok(i) => i,
        };
        let ghost o = self.inode_pos(dir)->Ok_0;
        let ghost blocks = self.blocks_at(o);
        proof {
            self.lemma_inode_fields(inode, o);
        }
        if inode.i_mode & S_IFMT != S_IFDIR {
            return Err(Ext2Error::NotDirectory);
        }
        let bs = self.block_size as u64;
        let size = inode.i_size as u64;
        let mut off: u64 = 0;
        while off < size
            invariant
                self.wf(),
                self.is_mounted(),
                *self == *old(self),
                self.same_geometry(old(self)),
                inode.i_block@ == blocks,
                old(self).inode_pos(dir) == Ok::<int, Ext2Error>(o),
                blocks == old(self).blocks_at(o),
                old(self).mode_at(o) & S_IFMT == S_IFDIR,
                size == self.size_at(o),
                bs == self.bs(),
                1024 <= bs <= 4096,
                size <= u32::MAX,
                off <= size,
                old(self).rm_walk(blocks, size as int, 0, name@) == old(self).rm_walk(blocks, size as int, off as int, name@),
            decreases size - off,
        {
            let lb = off / bs;
            assert(lb <= u32::MAX) by (nonlinear_arith)
                requires
                    off < size,
                    size <= u32::MAX,
                    bs >= 1,
                    lb == off / bs,
            ;
            if lb >= 15 {
                return Err(Ext2Error::DirTooLarge);
            }
            let block = inode.i_block[lb as usize];
            if block == 0 {
                return Err(Ext2Error::NotFound);
            }
            let bm = match self.read_scratch(block) {
                Err(e) => return Err(e),
                Ok(v) => v,
            };
            match self.rm_in_block(bm, lb, name) {
                RmOut::Corrupt => return Err(Ext2Error::CorruptDirectory),
                RmOut::Dot => return Err(Ext2Error::CannotRemoveDot),
                RmOut::Found(ino, nb) => {
                    let w = self.write_fs_block(block, nb.as_slice());
                    return match w {
                        Ok(()) => Ok(ino),
                        Err(e) => Err(e),
                    };
                },
                RmOut::Next(o2) => {
                    if o2 <= off {
                        return Err(Ext2Error::CorruptDirectory);
                    }
                    if o2 >= size {
                        off = size;
                    } else {
                        off = o2;
                    }
                },
            }
        }
        Err(Ext2Error::NotFound)
    }
}

/// `i` with link count `links` and its three time stamps set to `t`.
pub open spec fn restamp(i: Ext2Inode, links: u16, t: u32) -> Ext2Inode {
    Ext2Inode { i_links_count: links, i_atime: t, i_ctime: t, i_mtime: t, ..i }
}

/// `n` is the inode a new directory with its first block `blk` gets.
pub open spec fn fresh_dir(n: Ext2Inode, blk: u32, bs: int, t: u32) -> bool {
    &&& n.i_mode == (S_IFDIR | 0o755)
    &&& n.i_uid == 0
    &&& n.i_size == bs
    &&& n.i_atime == t
    &&& n.i_ctime == t
    &&& n.i_mtime == t
    &&& n.i_dtime == 0
    &&& n.i_gid == 0
    &&& n.i_links_count == 2
    &&& n.i_blocks == bs / 512
    &&& n.i_flags == 0
    &&& n.i_osd1 == 0
    &&& n.i_block@ == Seq::new(15, |k: int| if k == 0 { blk } else { 0u32 })
    &&& n.i_generation == 0
    &&& n.i_file_acl == 0
    &&& n.i_dir_acl == 0
    &&& n.i_faddr == 0
    &&& n.i_osd2@ == Seq::new(12, |k: int| 0u8)
}

/// `n` is the all-zero inode.
pub open spec fn zeroed(n: Ext2Inode) -> bool {
    &&& n.i_mode == 0
    &&& n.i_uid == 0
    &&& n.i_size == 0
    &&& n.i_atime == 0
    &&& n.i_ctime == 0
    &&& n.i_mtime == 0
    &&& n.i_dtime == 0
    &&& n.i_gid == 0
    &&& n.i_links_count == 0
    &&& n.i_blocks == 0
    &&& n.i_flags == 0
    &&& n.i_osd1 == 0
    &&& n.i_block@ == Seq::new(15, |k: int| 0u32)
    &&& n.i_generation == 0
    &&& n.i_file_acl == 0
    &&& n.i_dir_acl == 0
    &&& n.i_faddr == 0
    &&& n.i_osd2@ == Seq::new(12, |k: int| 0u8)
}

fn fresh_dir_inode(blk: u32, bs: u32, t: u32) -> (n: Ext2Inode)
    ensures
        fresh_dir(n, blk, bs as int, t),
{
    let mut blocks = [0u32; 15];
    blocks[0] = blk;
    let n = Ext2Inode {
        i_mode: S_IFDIR | 0o755,
        i_uid: 0,
        i_size: bs,
        i_atime: t,
        i_ctime: t,
        i_mtime: t,
        i_dtime: 0,
        i_gid: 0,
        i_links_count: 2,
        i_blocks: bs / 512,
        i_flags: 0,
        i_osd1: 0,
        i_block: blocks,
        i_generation: 0,
        i_file_acl: 0,
        i_dir_acl: 0,
        i_faddr: 0,
        i_osd2: [0u8; 12],
    };
    assert(n.i_block@ =~= Seq::new(15, |k: int| if k == 0 { blk } else { 0u32 }));
    assert(n.i_osd2@ =~= Seq::new(12, |k: int| 0u8));
    n
}

fn zero_inode() -> (n: Ext2Inode)
    ensures
        zeroed(n),
{
    let n = Ext2Inode {
        i_mode: 0,
        i_uid: 0,
        i_size: 0,
        i_atime: 0,
        i_ctime: 0,
        i_mtime: 0,
        i_dtime: 0,
        i_gid: 0,
        i_links_count: 0,
        i_blocks: 0,
        i_flags: 0,
        i_osd1: 0,
        i_block: [0u32; 15],
        i_generation: 0,
        i_file_acl: 0,
        i_dir_acl: 0,
        i_faddr: 0,
        i_osd2: [0u8; 12],
    };
    assert(n.i_block@ =~= Seq::new(15, |k: int| 0u32));
    assert(n.i_osd2@ =~= Seq::new(12, |k: int| 0u8));
    n
}

/// First block of a new directory `ino` under `parent`: `.` and `..`, the
/// latter spanning the rest of the block.
pub open spec fn dir_block_bytes(ino: u32, parent: u32, bs: int) -> Seq<u8> {
    let d0 = patch(Seq::new(4096, |i: int| 0u8), 0, dirent_bytes(12, ino, seq![46u8], EXT2_FT_DIR));
    patch(d0, 12, dirent_bytes(bs - 12, parent, seq![46u8, 46u8], EXT2_FT_DIR))
}

fn dir_block(ino: u32, parent: u32, bs: u32) -> (v: Vec<u8>)
    requires
        1024 <= bs <= 4096,
    ensures
        v@ == dir_block_bytes(ino, parent, bs as int),
        v@.len() == 4096,
{
    let mut v = zero_block();
    let dot: [u8; 1] = [46];
    let dotdot: [u8; 2] = [46, 46];
    assert(dot@ =~= seq![46u8]);
    assert(dotdot@ =~= seq![46u8, 46u8]);
    write_dirent(v.as_mut_slice(), 0, 12, ino, &dot, EXT2_FT_DIR);
    write_dirent(v.as_mut_slice(), 12, (bs - 12) as usize, parent, &dotdot, EXT2_FT_DIR);
    v
}

impl Ext2Fs {
    /// Outcome of `alloc_inode`, as its contract states it.
    pub open spec fn alloc_inode_ok(&self, fin: &Ext2Fs, r: Result<u32, Ext2Error>) -> bool {
        &&& fin.same_geometry(self)
        &&& match self.alloc_scan(0, true) {
            Err(e) => r == Err::<u32, Ext2Error>(e) && fin.unchanged(self),
            Ok((g, bit)) => r == Ok::<u32, Ext2Error>((g * self.ipg() + bit + 1) as u32) && self.alloc_effect(fin, g, bit, true),
        }
    }

    /// Outcome of `alloc_block`, as its contract states it.
    pub open spec fn alloc_block_ok(&self, fin: &Ext2Fs, r: Result<u32, Ext2Error>) -> bool {
        &&& fin.same_geometry(self)
        &&& match self.alloc_scan(0, false) {
            Err(e) => r == Err::<u32, Ext2Error>(e) && fin.unchanged(self),
            Ok((g, bit)) => {
                let gd = gd_take_block(self.group(g));
                let sb = sb_take_block(self.sb());
                let blk = (self.first_data() + g * self.bpg() + bit) as u32;
                let d = self.after_alloc(g, bit, false, gd, sb);
                &&& fin.group(g) == gd
                &&& forall|k: int| 0 <= k < MAX_GROUPS && k != g ==> #[trigger] fin.group(k) == self.group(k)
                &&& fin.sb() == sb
                &&& if self.block_data(blk as int) is None {
                    r == Err::<u32, Ext2Error>(Ext2Error::Io) && fin.disk() == d
                } else {
                    r == Ok::<u32, Ext2Error>(blk) && fin.disk() == patch(d, blk * self.bs(), Seq::new(self.bs() as nat, |i: int| 0u8))
                }
            },
        }
    }

    /// Outcome of `write_fs_block(block, data)`, as its contract states it.
    pub open spec fn write_block_ok(&self, fin: &Ext2Fs, r: Result<(), Ext2Error>, block: u32, data: Seq<u8>) -> bool {
        &&& fin.same_geometry(self)
        &&& fin.sb() == self.sb()
        &&& forall|g: int| #[trigger] fin.group(g) == self.group(g)
        &&& if data.len() < self.bs() {
            r == Err::<(), Ext2Error>(Ext2Error::BufferSmall) && fin.disk() == self.disk()
        } else if self.block_data(block as int) is None {
            r == Err::<(), Ext2Error>(Ext2Error::Io) && fin.disk() == self.disk()
        } else {
            r == Ok::<(), Ext2Error>(()) && fin.disk() == patch(self.disk(), block * self.bs(), data.take(self.bs()))
        }
    }

    /// Descriptor of the group of inode `ino` with one more directory.
    pub open spec fn dirs_gd(&self, ino: u32) -> Ext2GroupDesc {
        let g = (ino - 1) / self.ipg();
        Ext2GroupDesc { bg_used_dirs_count: inc16(self.group(g).bg_used_dirs_count), ..self.group(g) }
    }

    /// The directory count of new directory `ino`'s group is raised and
    /// its descriptor written back.
    pub open spec fn dirs_counted(&self, fin: &Ext2Fs, r: Result<u32, Ext2Error>, ino: u32) -> bool {
        let g = (ino - 1) / self.ipg();
        &&& r == Ok::<u32, Ext2Error>(ino)
        &&& if self.ipg() == 0 || g >= MAX_GROUPS {
            fin.unchanged(self)
        } else {
            &&& fin.group(g) == self.dirs_gd(ino)
            &&& forall|k: int| 0 <= k < MAX_GROUPS && k != g ==> #[trigger] fin.group(k) == self.group(k)
            &&& fin.sb() == self.sb()
            &&& fin.disk() == patch(self.disk(), self.gdt() * self.bs() + 32 * g, gd_bytes(self.dirs_gd(ino)))
        }
    }

    /// Raise the link count of `parent` and count the new directory `ino`.
    pub open spec fn mkdir_link_ok(&self, fin: &Ext2Fs, r: Result<u32, Ext2Error>, parent: u32, ino: u32, t: u32) -> bool {
        match self.inode_pos(parent) {
            Err(e) => r == Err::<u32, Ext2Error>(e) && fin.unchanged(self),
            Ok(o) => exists|i: Ext2Inode, m6: Ext2Fs, w6: Result<(), Ext2Error>|
                #![trigger self.write_inode_ok(&m6, w6, parent, restamp(i, inc16(i.i_links_count), t))]
                inode_at(i, self.disk(), o) && self.write_inode_ok(&m6, w6, parent, restamp(i, inc16(i.i_links_count), t))
                    && match w6 {
                    Err(e) => r == Err::<u32, Ext2Error>(e) && fin.unchanged(&m6),
                    Ok(_) => m6.dirs_counted(fin, r, ino),
                },
        }
    }

    /// Write the new directory's first block and inode, enter it in
    /// `parent`, and link it.
    pub open spec fn mkdir_fill_ok(&self, fin: &Ext2Fs, r: Result<u32, Ext2Error>, parent: u32, name: Seq<u8>, ino: u32, blk: u32, t: u32) -> bool {
        exists|m3: Ext2Fs, w3: Result<(), Ext2Error>|
            #![trigger self.write_block_ok(&m3, w3, blk, dir_block_bytes(ino, parent, self.bs()))]
            self.write_block_ok(&m3, w3, blk, dir_block_bytes(ino, parent, self.bs())) && match w3 {
                Err(e) => r == Err::<u32, Ext2Error>(e) && fin.unchanged(&m3),
                Ok(_) => exists|m4: Ext2Fs, w4: Result<(), Ext2Error>, n: Ext2Inode|
                    #![trigger m3.write_inode_ok(&m4, w4, ino, n)]
                    fresh_dir(n, blk, self.bs(), t) && m3.write_inode_ok(&m4, w4, ino, n) && match w4 {
                        Err(e) => r == Err::<u32, Ext2Error>(e) && fin.unchanged(&m4),
                        Ok(_) => exists|m5: Ext2Fs, w5: Result<(), Ext2Error>|
                            #![trigger m4.add_entry_ok(&m5, w5, parent, name, ino, EXT2_FT_DIR, t)]
                            m4.add_entry_ok(&m5, w5, parent, name, ino, EXT2_FT_DIR, t) && m5.same_geometry(&m4) && match w5 {
                                Err(e) => r == Err::<u32, Ext2Error>(e) && fin.unchanged(&m5),
                                Ok(_) => m5.mkdir_link_ok(fin, r, parent, ino, t),
                            },
                    },
            }
    }

    /// Allocate the new directory's block, then fill it.
    pub open spec fn mkdir_body_ok(&self, fin: &Ext2Fs, r: Result<u32, Ext2Error>, parent: u32, name: Seq<u8>, ino: u32, t: u32) -> bool {
        exists|m2: Ext2Fs, r2: Result<u32, Ext2Error>|
            #![trigger self.alloc_block_ok(&m2, r2)]
            self.alloc_block_ok(&m2, r2) && match r2 {
                Err(e) => r == Err::<u32, Ext2Error>(e) && fin.unchanged(&m2),
                Ok(blk) => m2.mkdir_fill_ok(fin, r, parent, name, ino, blk, t),
            }
    }

    /// Outcome of `mkdir(cwd, path)` at time `t`, `p` being the trimmed path.
    pub open spec fn mkdir_ok(&self, fin: &Ext2Fs, r: Result<u32, Ext2Error>, cwd: u32, p: Seq<u8>, t: u32) -> bool {
        if !self.is_mounted() {
            r == Err::<u32, Ext2Error>(Ext2Error::NotMounted) && fin.unchanged(self)
        } else {
            match self.split_spec(cwd, p) {
                Err(e) => r == Err::<u32, Ext2Error>(e) && fin.unchanged(self),
                Ok((parent, name)) => if is_dot(name) {
                    r == Err::<u32, Ext2Error>(Ext2Error::BadName) && fin.unchanged(self)
                } else if self.lookup_spec(parent, name) is Ok {
                    r == Err::<u32, Ext2Error>(Ext2Error::Exists) && fin.unchanged(self)
                } else {
                    exists|m1: Ext2Fs, r1: Result<u32, Ext2Error>|
                        #![trigger self.alloc_inode_ok(&m1, r1)]
                        self.alloc_inode_ok(&m1, r1) && match r1 {
                            Err(e) => r == Err::<u32, Ext2Error>(e) && fin.unchanged(&m1),
                            Ok(ino) => m1.mkdir_body_ok(fin, r, parent, name, ino, t),
                        }
                },
            }
        }
    }
}

impl Ext2Fs {
    fn mkdir_link(&mut self, parent: u32, ino: u32, t: u32) -> (r: Result<u32, Ext2Error>)
        requires
            old(self).wf(),
            old(self).is_mounted(),
            ino != 0,
        ensures
            final(self).wf(),
            final(self).same_geometry(old(self)),
            final(self).is_mounted(),
            old(self).mkdir_link_ok(final(self), r, parent, ino, t),
    {
        proof {
            self.lemma_fields();
            Ext2Fs::lemma_same_geometry_refl(self);
        }
        let pino = match self.read_inode(parent) {
            Err(e) => return Err(e),
            Ok(i) => i,
        };
        let ghost o = self.inode_pos(parent)->Ok_0;
        let mut node = pino;
        node.i_links_count = pino.i_links_count.wrapping_add(1);
        node.i_atime = t;
        node.i_ctime = t;
        node.i_mtime = t;
        assert(node == restamp(pino, inc16(pino.i_links_count), t));
        let ghost s0 = *self;
        let w = self.write_inode(parent, &node);
        let ghost m6 = *self;
        proof {
            assert(s0.write_inode_ok(&m6, w, parent, node));
        }
        match w {
            Err(e) => return Err(e),
            Ok(()) => {},
        }
        proof {
            self.lemma_fields();
            assert(ino != 0);
        }
        if self.inodes_per_group == 0 {
            return Ok(ino);
        }
        let g = (ino - 1) / self.inodes_per_group;
        if g as usize >= MAX_GROUPS {
            return Ok(ino);
        }
        let gd = self.groups[g as usize];
        let mut ngd = gd;
        ngd.bg_used_dirs_count = gd.bg_used_dirs_count.wrapping_add(1);
        self.groups.set(g as usize, ngd);
        let ghost m7 = *self;
        proof {
            self.lemma_fields();
            m6.lemma_fields();
            self.lemma_same_geometry(&m6);
            Ext2Fs::lemma_same_geometry_trans(self, &m6, old(self));
            assert(ngd == m6.dirs_gd(ino));
        }
        let _ = self.write_group_desc(g);
        proof {
            Ext2Fs::lemma_same_geometry_trans(self, &m7, old(self));
            Ext2Fs::lemma_same_geometry_facts(&m7, &m6);
            self.lemma_fields();
            m7.lemma_fields();
            assert(m7.gdt() == m6.gdt());
            assert forall|k: int| 0 <= k < MAX_GROUPS && k != g implies #[trigger] self.group(k) == m6.group(k) by {
                assert(m7.group(k) == m6.group(k));
            }
            assert(m6.dirs_counted(self, Ok(ino), ino));
        }
        Ok(ino)
    }

    #[verifier::rlimit(60)]
    fn mkdir_fill(&mut self, parent: u32, name: &[u8], ino: u32, blk: u32, t: u32) -> (r: Result<u32, Ext2Error>)
        requires
            old(self).wf(),
            old(self).is_mounted(),
        ensures
            final(self).wf(),
            final(self).same_geometry(old(self)),
            final(self).is_mounted(),
            old(self).mkdir_fill_ok(final(self), r, parent, name@, ino, blk, t),
    {
        proof {
            self.lemma_fields();
            Ext2Fs::lemma_same_geometry_refl(self);
        }
        let bs = self.block_size;
        let data = dir_block(ino, parent, bs);
        let ghost s0 = *self;
        let w3 = self.write_fs_block(blk, data.as_slice());
        let ghost m3 = *self;
        proof {
            assert(s0.write_block_ok(&m3, w3, blk, dir_block_bytes(ino, parent, s0.bs())));
        }
        match w3 {
            Err(e) => return Err(e),
            Ok(()) => {},
        }
        let n = fresh_dir_inode(blk, bs, t);
        let w4 = self.write_inode(ino, &n);
        let ghost m4 = *self;
        proof {
            Ext2Fs::lemma_same_geometry_trans(self, &m3, &s0);
            assert(m3.write_inode_ok(&m4, w4, ino, n));
        }
        match w4 {
            Err(e) => {
                proof {
                    assert(s0.mkdir_fill_ok(self, Err(e), parent, name@, ino, blk, t));
                }
                return Err(e);
            },
            Ok(()) => {},
        }
        proof {
            assert(ino != 0);
        }
        let w5 = self.dir_add_entry(parent, name, ino, EXT2_FT_DIR, t);
        let ghost m5 = *self;
        proof {
            Ext2Fs::lemma_same_geometry_trans(self, &m4, &s0);
            assert(m4.add_entry_ok(&m5, w5, parent, name@, ino, EXT2_FT_DIR, t));
        }
        match w5 {
            Err(e) => {
                proof {
                    assert(s0.mkdir_fill_ok(self, Err(e), parent, name@, ino, blk, t));
                }
                return Err(e);
            },
            Ok(()) => {},
        }
        let r = self.mkdir_link(parent, ino, t);
        proof {
            Ext2Fs::lemma_same_geometry_trans(self, &m5, &s0);
            assert(m5.mkdir_link_ok(self, r, parent, ino, t));
            assert(s0.mkdir_fill_ok(self, r, parent, name@, ino, blk, t));
        }
        r
    }
}

impl Ext2Fs {
    fn mkdir_body(&mut self, parent: u32, name: &[u8], ino: u32, t: u32) -> (r: Result<u32, Ext2Error>)
        requires
            old(self).wf(),
            old(self).is_mounted(),
        ensures
            final(self).wf(),
            final(self).same_geometry(old(self)),
            final(self).is_mounted(),
            old(self).mkdir_body_ok(final(self), r, parent, name@, ino, t),
    {
        let ghost s0 = *self;
        let r2 = self.alloc_block();
        let ghost m2 = *self;
        proof {
            assert(s0.alloc_block_ok(&m2, r2));
        }
        match r2 {
            Err(e) => Err(e),
            Ok(blk) => {
                let r = self.mkdir_fill(parent, name, ino, blk, t);
                proof {
                    Ext2Fs::lemma_same_geometry_trans(self, &m2, &s0);
                    assert(m2.mkdir_fill_ok(self, r, parent, name@, ino, blk, t));
                }
                r
            },
        }
    }

    /// Create the directory `path` (relative to `cwd`) holding `.` and
    /// `..`; returns its inode.
    #[verifier::rlimit(60)]
    pub fn mkdir(&mut self, cwd: u32, path: &str, ticks: u64) -> (r: Result<u32, Ext2Error>)
        requires
            old(self).wf(),
        ensures
            final(self).wf(),
            final(self).same_geometry(old(self)),
            old(self).mkdir_ok(final(self), r, cwd, crate::text::trimmed(path.spec_bytes()), stamp(ticks)),
    {
        let t = crate::text::trim(path);
        self.mkdir_trimmed(cwd, t.as_bytes(), ticks)
    }

    /// `mkdir` on a path already stripped of surrounding white space.
    pub fn mkdir_trimmed(&mut self, cwd: u32, path: &[u8], ticks: u64) -> (r: Result<u32, Ext2Error>)
        requires
            old(self).wf(),
        ensures
            final(self).wf(),
            final(self).same_geometry(old(self)),
            old(self).mkdir_ok(final(self), r, cwd, path@, stamp(ticks)),
    {
        proof {
            self.lemma_fields();
            Ext2Fs::lemma_same_geometry_refl(self);
        }
        if !self.mounted {
            return Err(Ext2Error::NotMounted);
        }
        let (parent, name) = match self.split_parent_name_trimmed(cwd, path) {
            Err(e) => return Err(e),
            Ok(x) => x,
        };
        if bytes_eq(name, ".".as_bytes()) || bytes_eq(name, "..".as_bytes()) {
            return Err(Ext2Error::BadName);
        }
        if self.lookup_bytes(parent, name).is_ok() {
            return Err(Ext2Error::Exists);
        }
        let t = now(ticks);
        let ghost s0 = *self;
        let r1 = self.alloc_inode();
        let ghost m1 = *self;
        proof {
            assert(s0.alloc_inode_ok(&m1, r1));
        }
        match r1 {
            Err(e) => Err(e),
            Ok(ino) => {
                let r = self.mkdir_body(parent, name, ino, t);
                proof {
                    Ext2Fs::lemma_same_geometry_trans(self, &m1, &s0);
                    assert(m1.mkdir_body_ok(self, r, parent, name@, ino, t));
                }
                r
            },
        }
    }
}

/// The `n` little-endian 32-bit block pointers at the start of `bm`.
pub open spec fn ptr_list(bm: Seq<u8>, n: int) -> Seq<u32> {
    Seq::new(n as nat, |k: int| le32(bm, 4 * k) as u32)
}

fn ptr_vec(bm: &[u8], n: usize) -> (v: Vec<u32>)
    requires
        4 * n <= bm@.len(),
        n <= 1024,
    ensures
        v@ == ptr_list(bm@, n as int),
{
    let mut v: Vec<u32> = Vec::new();
    let mut k: usize = 0;
    while k < n
        invariant
            k <= n,
            4 * n <= bm@.len(),
            n <= 1024,
            v@ == ptr_list(bm@, k as int),
        decreases n - k,
    {
        let x = crate::ext2::read_u32_le(bm, 4 * k);
        v.push(x);
        k = k + 1;
        assert(v@ =~= ptr_list(bm@, k as int));
    }
    v
}

/// Marks the state `m` and result `w` reached part way through a walk
/// (a handle for the walk's existential).
pub open spec fn reached(m: Ext2Fs, w: Result<(), Ext2Error>) -> bool {
    true
}

impl Ext2Fs {
    /// Outcome of freeing, in order, the nonzero blocks of `l`, stopping at
    /// the first failure.
    pub open spec fn free_list_ok(&self, fin: &Ext2Fs, r: Result<(), Ext2Error>, l: Seq<u32>) -> bool
        decreases l.len(),
    {
        if l.len() == 0 {
            r == Ok::<(), Ext2Error>(()) && fin.unchanged(self) && fin.same_geometry(self)
        } else {
            exists|m: Ext2Fs, w: Result<(), Ext2Error>|
                #![trigger reached(m, w)]
                self.free_list_ok(&m, w, l.drop_last()) && fin.same_geometry(&m) && match w {
                    Err(e) => r == Err::<(), Ext2Error>(e) && fin.unchanged(&m),
                    Ok(_) => if l.last() == 0 {
                        r == Ok::<(), Ext2Error>(()) && fin.unchanged(&m)
                    } else {
                        m.free_ok(fin, r, l.last(), false)
                    },
                }
        }
    }

    /// A failure part way through `l` ends the whole walk with it.
    pub proof fn lemma_free_list_err(&self, fin: &Ext2Fs, e: Ext2Error, l: Seq<u32>, k: int)
        requires
            1 <= k <= l.len(),
            self.free_list_ok(fin, Err(e), l.take(k)),
            fin.same_geometry(fin),
        ensures
            self.free_list_ok(fin, Err(e), l),
        decreases l.len() - k,
    {
        if k < l.len() {
            assert(l.take(k + 1).drop_last() =~= l.take(k));
            assert(self.free_list_ok(fin, Err(e), l.take(k + 1).drop_last()));
            assert(reached(*fin, Err(e)));
            assert(self.free_list_ok(fin, Err(e), l.take(k + 1)));
            self.lemma_free_list_err(fin, e, l, k + 1);
        } else {
            assert(l.take(k) =~= l);
        }
    }

    /// Free the nonzero blocks of `l` in order.
    fn free_list(&mut self, l: &[u32]) -> (r: Result<(), Ext2Error>)
        requires
            old(self).wf(),
            old(self).is_mounted(),
        ensures
            final(self).wf(),
            final(self).same_geometry(old(self)),
            final(self).is_mounted(),
            old(self).free_list_ok(final(self), r, l@),
    {
        proof {
            Ext2Fs::lemma_same_geometry_refl(self);
            assert(l@.take(0) =~= Seq::<u32>::empty());
        }
        let n = l.len();
        let mut i: usize = 0;
        while i < n
            invariant
                n == l@.len(),
                i <= n,
                self.wf(),
                self.is_mounted(),
                self.same_geometry(old(self)),
                old(self).free_list_ok(self, Ok(()), l@.take(i as int)),
            decreases n - i,
        {
            let ghost prev = *self;
            let b = l[i];
            proof {
                assert(l@.take(i + 1).drop_last() =~= l@.take(i as int));
                assert(l@.take(i + 1).last() == b);
                Ext2Fs::lemma_same_geometry_refl(self);
            }
            if b != 0 {
                let w = self.free_block(b);
                proof {
                    Ext2Fs::lemma_same_geometry_trans(self, &prev, old(self));
                    assert(old(self).free_list_ok(&prev, Ok(()), l@.take(i + 1).drop_last()));
                    assert(reached(prev, Ok(())));
                    assert(old(self).free_list_ok(self, w, l@.take(i + 1)));
                }
                match w {
                    Err(e) => {
                        proof {
                            Ext2Fs::lemma_same_geometry_refl(self);
                            old(self).lemma_free_list_err(self, e, l@, i + 1);
                        }
                        return Err(e);
                    },
                    Ok(()) => {},
                }
            } else {
                proof {
                    assert(old(self).free_list_ok(&prev, Ok(()), l@.take(i + 1).drop_last()));
                    assert(reached(prev, Ok(())));
                    assert(old(self).free_list_ok(self, Ok(()), l@.take(i + 1)));
                }
            }
            i = i + 1;
        }
        proof {
            assert(l@.take(n as int) =~= l@);
        }
        Ok(())
    }
}

impl Ext2Fs {
    /// Zero inode `child` and free its number.
    pub open spec fn drop_inode_ok(&self, fin: &Ext2Fs, r: Result<(), Ext2Error>, child: u32) -> bool {
        exists|m5: Ext2Fs, w5: Result<(), Ext2Error>, n: Ext2Inode|
            #![trigger self.write_inode_ok(&m5, w5, child, n)]
            zeroed(n) && self.write_inode_ok(&m5, w5, child, n) && match w5 {
                Err(e) => r == Err::<(), Ext2Error>(e) && fin.unchanged(&m5),
                Ok(_) => m5.free_ok(fin, r, child, true),
            }
    }

    /// Free the blocks listed in the indirect block `ind`, then `ind`,
    /// then drop the inode.
    pub open spec fn unlink_indirect_ok(&self, fin: &Ext2Fs, r: Result<(), Ext2Error>, child: u32, ind: u32) -> bool {
        if ind == 0 {
            self.drop_inode_ok(fin, r, child)
        } else {
            match self.block_data(ind as int) {
                None => r == Err::<(), Ext2Error>(Ext2Error::Io) && fin.unchanged(self),
                Some(bb) => exists|m3: Ext2Fs, w3: Result<(), Ext2Error>|
                    #![trigger self.free_list_ok(&m3, w3, ptr_list(scratch(bb), self.bs() / 4))]
                    self.free_list_ok(&m3, w3, ptr_list(scratch(bb), self.bs() / 4)) && match w3 {
                        Err(e) => r == Err::<(), Ext2Error>(e) && fin.unchanged(&m3),
                        Ok(_) => exists|m4: Ext2Fs, w4: Result<(), Ext2Error>|
                            #![trigger m3.free_ok(&m4, w4, ind, false)]
                            m3.free_ok(&m4, w4, ind, false) && m4.same_geometry(&m3) && match w4 {
                                Err(e) => r == Err::<(), Ext2Error>(e) && fin.unchanged(&m4),
                                Ok(_) => m4.drop_inode_ok(fin, r, child),
                            },
                    },
            }
        }
    }

    /// After the entry is gone: drop one link of `child` (inode `i` as it
    /// was read), or, at the last link, free its direct blocks, its
    /// single-indirect blocks and the inode.
    pub open spec fn unlink_release_ok(&self, fin: &Ext2Fs, r: Result<(), Ext2Error>, child: u32, i: Ext2Inode, t: u32) -> bool {
        if i.i_links_count > 1 {
            exists|w: Result<(), Ext2Error>|
                #![trigger self.write_inode_ok(fin, w, child, restamp(i, (i.i_links_count - 1) as u16, t))]
                self.write_inode_ok(fin, w, child, restamp(i, (i.i_links_count - 1) as u16, t)) && r == w
        } else {
            exists|m2: Ext2Fs, w2: Result<(), Ext2Error>|
                #![trigger self.free_list_ok(&m2, w2, i.i_block@.take(12))]
                self.free_list_ok(&m2, w2, i.i_block@.take(12)) && match w2 {
                    Err(e) => r == Err::<(), Ext2Error>(e) && fin.unchanged(&m2),
                    Ok(_) => m2.unlink_indirect_ok(fin, r, child, i.i_block@[12]),
                }
        }
    }

    /// Outcome of `unlink(cwd, path)` at time `t`, `p` being the trimmed path.
    pub open spec fn unlink_ok(&self, fin: &Ext2Fs, r: Result<(), Ext2Error>, cwd: u32, p: Seq<u8>, t: u32) -> bool {
        if !self.is_mounted() {
            r == Err::<(), Ext2Error>(Ext2Error::NotMounted) && fin.unchanged(self)
        } else {
            match self.split_spec(cwd, p) {
                Err(e) => r == Err::<(), Ext2Error>(e) && fin.unchanged(self),
                Ok((parent, name)) => if is_dot(name) {
                    r == Err::<(), Ext2Error>(Ext2Error::BadName) && fin.unchanged(self)
                } else {
                    match self.lookup_spec(parent, name) {
                        Err(e) => r == Err::<(), Ext2Error>(e) && fin.unchanged(self),
                        Ok(child) => match self.inode_pos(child) {
                            Err(e) => r == Err::<(), Ext2Error>(e) && fin.unchanged(self),
                            Ok(oc) => if self.mode_at(oc) & S_IFMT == S_IFDIR {
                                r == Err::<(), Ext2Error>(Ext2Error::IsDirectory) && fin.unchanged(self)
                            } else {
                                exists|i: Ext2Inode, m1: Ext2Fs, w1: Result<u32, Ext2Error>|
                                    #![trigger self.remove_entry_ok(&m1, w1, parent, name), inode_at(i, self.disk(), oc)]
                                    inode_at(i, self.disk(), oc) && self.remove_entry_ok(&m1, w1, parent, name)
                                        && m1.same_geometry(self) && match w1 {
                                        Err(e) => r == Err::<(), Ext2Error>(e) && fin.unchanged(&m1),
                                        Ok(_) => m1.unlink_release_ok(fin, r, child, i, t),
                                    }
                            },
                        },
                    }
                },
            }
        }
    }
}

impl Ext2Fs {
    fn drop_inode(&mut self, child: u32) -> (r: Result<(), Ext2Error>)
        requires
            old(self).wf(),
            old(self).is_mounted(),
        ensures
            final(self).wf(),
            final(self).same_geometry(old(self)),
            final(self).is_mounted(),
            old(self).drop_inode_ok(final(self), r, child),
    {
        let ghost s0 = *self;
        let n = zero_inode();
        let w5 = self.write_inode(child, &n);
        let ghost m5 = *self;
        proof {
            assert(s0.write_inode_ok(&m5, w5, child, n));
        }
        match w5 {
            Err(e) => Err(e),
            Ok(()) => {
                let r = self.free_inode(child);
                proof {
                    Ext2Fs::lemma_same_geometry_trans(self, &m5, &s0);
                }
                r
            },
        }
    }

    fn unlink_indirect(&mut self, child: u32, ind: u32) -> (r: Result<(), Ext2Error>)
        requires
            old(self).wf(),
            old(self).is_mounted(),
        ensures
            final(self).wf(),
            final(self).same_geometry(old(self)),
            final(self).is_mounted(),
            old(self).unlink_indirect_ok(final(self), r, child, ind),
    {
        proof {
            self.lemma_fields();
            Ext2Fs::lemma_same_geometry_refl(self);
        }
        if ind == 0 {
            return self.drop_inode(child);
        }
        let ghost s0 = *self;
        let bm = match self.read_scratch(ind) {
            Err(e) => return Err(e),
            Ok(v) => v,
        };
        let per = (self.block_size / 4) as usize;
        let ptrs = ptr_vec(bm.as_slice(), per);
        let w3 = self.free_list(ptrs.as_slice());
        let ghost m3 = *self;
        proof {
            assert(s0.free_list_ok(&m3, w3, ptr_list(scratch(s0.block_data(ind as int)->Some_0), s0.bs() / 4)));
        }
        match w3 {
            Err(e) => return Err(e),
            Ok(()) => {},
        }
        let w4 = self.free_block(ind);
        let ghost m4 = *self;
        proof {
            Ext2Fs::lemma_same_geometry_trans(self, &m3, &s0);
            assert(m3.free_ok(&m4, w4, ind, false));
        }
        match w4 {
            Err(e) => Err(e),
            Ok(()) => {
                let r = self.drop_inode(child);
                proof {
                    Ext2Fs::lemma_same_geometry_trans(self, &m4, &s0);
                    assert(m4.drop_inode_ok(self, r, child));
                }
                r
            },
        }
    }

    fn unlink_release(&mut self, child: u32, i: Ext2Inode, t: u32) -> (r: Result<(), Ext2Error>)
        requires
            old(self).wf(),
            old(self).is_mounted(),
        ensures
            final(self).wf(),
            final(self).same_geometry(old(self)),
            final(self).is_mounted(),
            old(self).unlink_release_ok(final(self), r, child, i, t),
    {
        let ghost s0 = *self;
        if i.i_links_count > 1 {
            let mut n = i;
            n.i_links_count = i.i_links_count - 1;
            n.i_atime = t;
            n.i_ctime = t;
            n.i_mtime = t;
            assert(n == restamp(i, (i.i_links_count - 1) as u16, t));
            let w = self.write_inode(child, &n);
            proof {
                assert(s0.write_inode_ok(self, w, child, n));
            }
            return w;
        }
        let direct = vstd::slice::slice_subrange(i.i_block.as_slice(), 0, 12);
        let w2 = self.free_list(direct);
        let ghost m2 = *self;
        proof {
            assert(direct@ =~= i.i_block@.take(12));
            assert(s0.free_list_ok(&m2, w2, i.i_block@.take(12)));
        }
        match w2 {
            Err(e) => Err(e),
            Ok(()) => {
                let r = self.unlink_indirect(child, i.i_block[12]);
                proof {
                    Ext2Fs::lemma_same_geometry_trans(self, &m2, &s0);
                    assert(m2.unlink_indirect_ok(self, r, child, i.i_block@[12]));
                }
                r
            },
        }
    }

    /// Remove the non-directory `path` (relative to `cwd`): drop its entry,
    /// then one link, or at the last link its blocks and inode.
    #[verifier::rlimit(60)]
    pub fn unlink(&mut self, cwd: u32, path: &str, ticks: u64) -> (r: Result<(), Ext2Error>)
        requires
            old(self).wf(),
        ensures
            final(self).wf(),
            final(self).same_geometry(old(self)),
            old(self).unlink_ok(final(self), r, cwd, crate::text::trimmed(path.spec_bytes()), stamp(ticks)),
    {
        let t = crate::text::trim(path);
        self.unlink_trimmed(cwd, t.as_bytes(), ticks)
    }

    /// `unlink` on a path already stripped of surrounding white space.
    pub fn unlink_trimmed(&mut self, cwd: u32, path: &[u8], ticks: u64) -> (r: Result<(), Ext2Error>)
        requires
            old(self).wf(),
        ensures
            final(self).wf(),
            final(self).same_geometry(old(self)),
            old(self).unlink_ok(final(self), r, cwd, path@, stamp(ticks)),
    {
        proof {
            self.lemma_fields();
            Ext2Fs::lemma_same_geometry_refl(self);
        }
        if !self.mounted {
            return Err(Ext2Error::NotMounted);
        }
        let (parent, name) = match self.split_parent_name_trimmed(cwd, path) {
            Err(e) => return Err(e),
            Ok(x) => x,
        };
        if bytes_eq(name, ".".as_bytes()) || bytes_eq(name, "..".as_bytes()) {
            return Err(Ext2Error::BadName);
        }
        let child = match self.lookup_bytes(parent, name) {
            Err(e) => return Err(e),
            Ok(c) => c,
        };
        let inode = match self.read_inode(child) {
            Err(e) => return Err(e),
            Ok(i) => i,
        };
        let ghost oc = self.inode_pos(child)->Ok_0;
        proof {
            self.lemma_inode_fields(inode, oc);
        }
        if inode.i_mode & S_IFMT == S_IFDIR {
            return Err(Ext2Error::IsDirectory);
        }
        let t = now(ticks);
        let ghost s0 = *self;
        let w1 = self.dir_remove_entry(parent, name);
        let ghost m1 = *self;
        proof {
            assert(s0.remove_entry_ok(&m1, w1, parent, name@));
        }
        match w1 {
            Err(e) => Err(e),
            Ok(_) => {
                let r = self.unlink_release(child, inode, t);
                proof {
                    Ext2Fs::lemma_same_geometry_trans(self, &m1, &s0);
                    assert(m1.unlink_release_ok(self, r, child, inode, t));
                }
                r
            },
        }
    }
}

/// A link count lowered by one, but never below one.
pub open spec fn drop_link(x: u16) -> u16 {
    if x > 1 { (x - 1) as u16 } else { x }
}

/// Among the first 64 records (as many as the node cache holds) is one
/// named other than `.` and `..`.
pub open spec fn has_extra(recs: Seq<crate::ext2::DirRec>) -> bool {
    exists|k: int| 0 <= k < recs.len() && k < 64 && !is_dot(#[trigger] crate::ext2::rec_node_name(recs[k]))
}

impl Ext2Fs {
    /// Drop one link of `parent` (not below one) and stamp it.
    pub open spec fn unlink_parent_ok(&self, fin: &Ext2Fs, r: Result<(), Ext2Error>, parent: u32, t: u32) -> bool {
        match self.inode_pos(parent) {
            Err(e) => r == Err::<(), Ext2Error>(e) && fin.unchanged(self),
            Ok(o) => exists|pi: Ext2Inode, w: Result<(), Ext2Error>|
                #![trigger self.write_inode_ok(fin, w, parent, restamp(pi, drop_link(pi.i_links_count), t))]
                inode_at(pi, self.disk(), o) && self.write_inode_ok(fin, w, parent, restamp(pi, drop_link(pi.i_links_count), t))
                    && r == w,
        }
    }

    /// After the entry is gone: free the directory's direct blocks and its
    /// inode, and drop the parent's link.
    pub open spec fn rmdir_release_ok(&self, fin: &Ext2Fs, r: Result<(), Ext2Error>, parent: u32, child: u32, i: Ext2Inode, t: u32) -> bool {
        exists|m2: Ext2Fs, w2: Result<(), Ext2Error>|
            #![trigger self.free_list_ok(&m2, w2, i.i_block@.take(12))]
            self.free_list_ok(&m2, w2, i.i_block@.take(12)) && match w2 {
                Err(e) => r == Err::<(), Ext2Error>(e) && fin.unchanged(&m2),
                Ok(_) => exists|m3: Ext2Fs, w3: Result<(), Ext2Error>|
                    #![trigger m2.drop_inode_ok(&m3, w3, child)]
                    m2.drop_inode_ok(&m3, w3, child) && m3.same_geometry(&m2) && match w3 {
                        Err(e) => r == Err::<(), Ext2Error>(e) && fin.unchanged(&m3),
                        Ok(_) => m3.unlink_parent_ok(fin, r, parent, t),
                    },
            }
    }

    /// Outcome of `rmdir(cwd, path)` at time `t`, `p` being the trimmed path.
    pub open spec fn rmdir_ok(&self, fin: &Ext2Fs, r: Result<(), Ext2Error>, cwd: u32, p: Seq<u8>, t: u32) -> bool {
        if !self.is_mounted() {
            r == Err::<(), Ext2Error>(Ext2Error::NotMounted) && fin.unchanged(self)
        } else {
            match self.split_spec(cwd, p) {
                Err(e) => r == Err::<(), Ext2Error>(e) && fin.unchanged(self),
                Ok((parent, name)) => if is_dot(name) {
                    r == Err::<(), Ext2Error>(Ext2Error::BadName) && fin.unchanged(self)
                } else {
                    match self.lookup_spec(parent, name) {
                        Err(e) => r == Err::<(), Ext2Error>(e) && fin.unchanged(self),
                        Ok(child) => match self.inode_pos(child) {
                            Err(e) => r == Err::<(), Ext2Error>(e) && fin.unchanged(self),
                            Ok(oc) => if self.mode_at(oc) & S_IFMT != S_IFDIR {
                                r == Err::<(), Ext2Error>(Ext2Error::NotDirectory) && fin.unchanged(self)
                            } else {
                                match self.list_spec(child) {
                                    Err(e) => r == Err::<(), Ext2Error>(e) && fin.unchanged(self),
                                    Ok(recs) => if has_extra(recs) {
                                        r == Err::<(), Ext2Error>(Ext2Error::NotEmpty) && fin.unchanged(self)
                                    } else {
                                        exists|i: Ext2Inode, m1: Ext2Fs, w1: Result<u32, Ext2Error>|
                                            #![trigger self.remove_entry_ok(&m1, w1, parent, name), inode_at(i, self.disk(), oc)]
                                            inode_at(i, self.disk(), oc) && self.remove_entry_ok(&m1, w1, parent, name)
                                                && m1.same_geometry(self) && match w1 {
                                                Err(e) => r == Err::<(), Ext2Error>(e) && fin.unchanged(&m1),
                                                Ok(_) => m1.rmdir_release_ok(fin, r, parent, child, i, t),
                                            }
                                    },
                                }
                            },
                        },
                    }
                },
            }
        }
    }
}

impl Ext2Fs {
    fn unlink_parent(&mut self, parent: u32, t: u32) -> (r: Result<(), Ext2Error>)
        requires
            old(self).wf(),
            old(self).is_mounted(),
        ensures
            final(self).wf(),
            final(self).same_geometry(old(self)),
            final(self).is_mounted(),
            old(self).unlink_parent_ok(final(self), r, parent, t),
    {
        proof {
            Ext2Fs::lemma_same_geometry_refl(self);
        }
        let pino = match self.read_inode(parent) {
            Err(e) => return Err(e),
            Ok(i) => i,
        };
        let mut n = pino;
        if pino.i_links_count > 1 {
            n.i_links_count = pino.i_links_count - 1;
        }
        n.i_atime = t;
        n.i_ctime = t;
        n.i_mtime = t;
        assert(n == restamp(pino, drop_link(pino.i_links_count), t));
        let ghost s0 = *self;
        let w = self.write_inode(parent, &n);
        proof {
            assert(s0.write_inode_ok(self, w, parent, n));
        }
        w
    }

    fn rmdir_release(&mut self, parent: u32, child: u32, i: Ext2Inode, t: u32) -> (r: Result<(), Ext2Error>)
        requires
            old(self).wf(),
            old(self).is_mounted(),
        ensures
            final(self).wf(),
            final(self).same_geometry(old(self)),
            final(self).is_mounted(),
            old(self).rmdir_release_ok(final(self), r, parent, child, i, t),
    {
        let ghost s0 = *self;
        let direct = vstd::slice::slice_subrange(i.i_block.as_slice(), 0, 12);
        let w2 = self.free_list(direct);
        let ghost m2 = *self;
        proof {
            assert(direct@ =~= i.i_block@.take(12));
            assert(s0.free_list_ok(&m2, w2, i.i_block@.take(12)));
        }
        match w2 {
            Err(e) => return Err(e),
            Ok(()) => {},
        }
        let w3 = self.drop_inode(child);
        let ghost m3 = *self;
        proof {
            Ext2Fs::lemma_same_geometry_trans(self, &m2, &s0);
            assert(m2.drop_inode_ok(&m3, w3, child));
        }
        match w3 {
            Err(e) => Err(e),
            Ok(()) => {
                let r = self.unlink_parent(parent, t);
                proof {
                    Ext2Fs::lemma_same_geometry_trans(self, &m3, &s0);
                    assert(m3.unlink_parent_ok(self, r, parent, t));
                }
                r
            },
        }
    }

    /// Does the walk of directory `child` hold, among its first 64 entries,
    /// one named other than `.` and `..`?
    fn dir_has_extra(&self, child: u32) -> (r: Result<bool, Ext2Error>)
        requires
            self.wf(),
        ensures
            match self.list_spec(child) {
                Err(e) => r == Err::<bool, Ext2Error>(e),
                Ok(recs) => r == Ok::<bool, Ext2Error>(has_extra(recs)),
            },
    {
        let nodes = match self.list_dir(child) {
            Err(e) => return Err(e),
            Ok(v) => v,
        };
        let ghost recs = self.list_spec(child)->Ok_0;
        let lim: usize = if nodes.len() < 64 { nodes.len() } else { 64 };
        let mut k: usize = 0;
        while k < lim
            invariant
                self.list_spec(child) == Ok::<Seq<crate::ext2::DirRec>, Ext2Error>(recs),
                lim <= nodes@.len(),
                lim <= 64,
                lim == (if recs.len() < 64 { recs.len() } else { 64 }),
                nodes@.len() == recs.len(),
                forall|j: int| 0 <= j < recs.len() ==> self.node_ok(#[trigger] nodes@[j], child, recs[j]),
                k <= lim,
                forall|j: int| 0 <= j < k ==> is_dot(#[trigger] crate::ext2::rec_node_name(recs[j])),
            decreases lim - k,
        {
            let nm = nodes[k].name_str();
            proof {
                assert(self.node_ok(nodes@[k as int], child, recs[k as int]));
                assert(nm.spec_bytes() == crate::ext2::rec_node_name(recs[k as int]));
            }
            if !(bytes_eq(nm.as_bytes(), ".".as_bytes()) || bytes_eq(nm.as_bytes(), "..".as_bytes())) {
                proof {
                    assert(!is_dot(crate::ext2::rec_node_name(recs[k as int])));
                    assert(has_extra(recs));
                }
                return Ok(true);
            }
            k = k + 1;
        }
        Ok(false)
    }

    /// Remove the empty directory `path` (relative to `cwd`).
    #[verifier::rlimit(60)]
    pub fn rmdir(&mut self, cwd: u32, path: &str, ticks: u64) -> (r: Result<(), Ext2Error>)
        requires
            old(self).wf(),
        ensures
            final(self).wf(),
            final(self).same_geometry(old(self)),
            old(self).rmdir_ok(final(self), r, cwd, crate::text::trimmed(path.spec_bytes()), stamp(ticks)),
    {
        let t = crate::text::trim(path);
        self.rmdir_trimmed(cwd, t.as_bytes(), ticks)
    }

    /// `rmdir` on a path already stripped of surrounding white space.
    pub fn rmdir_trimmed(&mut self, cwd: u32, path: &[u8], ticks: u64) -> (r: Result<(), Ext2Error>)
        requires
            old(self).wf(),
        ensures
            final(self).wf(),
            final(self).same_geometry(old(self)),
            old(self).rmdir_ok(final(self), r, cwd, path@, stamp(ticks)),
    {
        proof {
            self.lemma_fields();
            Ext2Fs::lemma_same_geometry_refl(self);
        }
        if !self.mounted {
            return Err(Ext2Error::NotMounted);
        }
        let (parent, name) = match self.split_parent_name_trimmed(cwd, path) {
            Err(e) => return Err(e),
            Ok(x) => x,
        };
        if bytes_eq(name, ".".as_bytes()) || bytes_eq(name, "..".as_bytes()) {
            return Err(Ext2Error::BadName);
        }
        let child = match self.lookup_bytes(parent, name) {
            Err(e) => return Err(e),
            Ok(c) => c,
        };
        let inode = match self.read_inode(child) {
            Err(e) => return Err(e),
            Ok(i) => i,
        };
        let ghost oc = self.inode_pos(child)->Ok_0;
        proof {
            self.lemma_inode_fields(inode, oc);
        }
        if inode.i_mode & S_IFMT != S_IFDIR {
            return Err(Ext2Error::NotDirectory);
        }
        match self.dir_has_extra(child) {
            Err(e) => return Err(e),
            Ok(true) => return Err(Ext2Error::NotEmpty),
            Ok(false) => {},
        }
        let t = now(ticks);
        let ghost s0 = *self;
        let w1 = self.dir_remove_entry(parent, name);
        let ghost m1 = *self;
        proof {
            assert(s0.remove_entry_ok(&m1, w1, parent, name@));
        }
        match w1 {
            Err(e) => Err(e),
            Ok(_) => {
                let r = self.rmdir_release(parent, child, inode, t);
                proof {
                    Ext2Fs::lemma_same_geometry_trans(self, &m1, &s0);
                    assert(m1.rmdir_release_ok(self, r, parent, child, inode, t));
                }
                r
            },
        }
    }
}

} // verus!
