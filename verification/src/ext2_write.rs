//! ext2 writes on the in-memory disk: superblock and group-descriptor
//! write-back, bitmaps, inode and block allocation, directory entries, and
//! `touch`, `mkdir`, `unlink`, `rmdir`.

use vstd::prelude::*;
use vstd::string::StringSliceAdditionalSpecFns;
use crate::ext2::{inode_at, Ext2Fs, Ext2Error, Ext2Superblock, Ext2GroupDesc, Ext2Inode, le16, le32, ROOT_INODE, S_IFMT, S_IFDIR, S_IFREG, EXT2_FT_REG, MAX_GROUPS};

verus! {

/// `d` with the bytes at `o` replaced by `data`.
pub open spec fn patch(d: Seq<u8>, o: int, data: Seq<u8>) -> Seq<u8> {
    d.take(o) + data + d.skip(o + data.len())
}

/// Little-endian bytes of a 16-bit value.
pub open spec fn u16_bytes(v: u16) -> Seq<u8> {
    seq![(v % 256) as u8, (v / 256) as u8]
}

/// Little-endian bytes of a 32-bit value.
pub open spec fn u32_bytes(v: u32) -> Seq<u8> {
    seq![(v % 256) as u8, (v / 256 % 256) as u8, (v / 65536 % 256) as u8, (v / 16777216) as u8]
}

fn push_u16(v: &mut Vec<u8>, x: u16)
    ensures
        final(v)@ == old(v)@ + u16_bytes(x),
{
    v.push((x % 256) as u8);
    v.push((x / 256) as u8);
    assert(v@ =~= old(v)@ + u16_bytes(x));
}

fn push_u32(v: &mut Vec<u8>, x: u32)
    ensures
        final(v)@ == old(v)@ + u32_bytes(x),
{
    v.push((x % 256) as u8);
    v.push((x / 256 % 256) as u8);
    v.push((x / 65536 % 256) as u8);
    v.push((x / 16777216) as u8);
    assert(v@ =~= old(v)@ + u32_bytes(x));
}

/// On-disk bytes of a superblock (92 bytes).
#[verifier::opaque]
pub open spec fn sb_bytes(sb: Ext2Superblock) -> Seq<u8> {
    u32_bytes(sb.s_inodes_count) + u32_bytes(sb.s_blocks_count) + u32_bytes(sb.s_r_blocks_count) + u32_bytes(
        sb.s_free_blocks_count,
    ) + u32_bytes(sb.s_free_inodes_count) + u32_bytes(sb.s_first_data_block) + u32_bytes(sb.s_log_block_size)
        + u32_bytes(sb.s_log_frag_size) + u32_bytes(sb.s_blocks_per_group) + u32_bytes(sb.s_frags_per_group)
        + u32_bytes(sb.s_inodes_per_group) + u32_bytes(sb.s_mtime) + u32_bytes(sb.s_wtime) + u16_bytes(
        sb.s_mnt_count,
    ) + u16_bytes(sb.s_max_mnt_count) + u16_bytes(sb.s_magic) + u16_bytes(sb.s_state) + u16_bytes(sb.s_errors)
        + u16_bytes(sb.s_minor_rev_level) + u32_bytes(sb.s_lastcheck) + u32_bytes(sb.s_checkinterval) + u32_bytes(
        sb.s_creator_os,
    ) + u32_bytes(sb.s_rev_level) + u16_bytes(sb.s_def_resuid) + u16_bytes(sb.s_def_resgid) + u32_bytes(
        sb.s_first_ino,
    ) + u16_bytes(sb.s_inode_size) + u16_bytes(sb.s_block_group_nr)
}

#[verifier::spinoff_prover]
#[verifier::rlimit(80)]
pub fn superblock_bytes(sb: &Ext2Superblock) -> (v: Vec<u8>)
    ensures
        v@ == sb_bytes(*sb),
        v@.len() == 92,
{
    let mut v: Vec<u8> = Vec::new();
    push_u32(&mut v, sb.s_inodes_count);
    push_u32(&mut v, sb.s_blocks_count);
    push_u32(&mut v, sb.s_r_blocks_count);
    push_u32(&mut v, sb.s_free_blocks_count);
    push_u32(&mut v, sb.s_free_inodes_count);
    push_u32(&mut v, sb.s_first_data_block);
    push_u32(&mut v, sb.s_log_block_size);
    push_u32(&mut v, sb.s_log_frag_size);
    push_u32(&mut v, sb.s_blocks_per_group);
    push_u32(&mut v, sb.s_frags_per_group);
    push_u32(&mut v, sb.s_inodes_per_group);
    push_u32(&mut v, sb.s_mtime);
    push_u32(&mut v, sb.s_wtime);
    push_u16(&mut v, sb.s_mnt_count);
    push_u16(&mut v, sb.s_max_mnt_count);
    push_u16(&mut v, sb.s_magic);
    push_u16(&mut v, sb.s_state);
    push_u16(&mut v, sb.s_errors);
    push_u16(&mut v, sb.s_minor_rev_level);
    push_u32(&mut v, sb.s_lastcheck);
    push_u32(&mut v, sb.s_checkinterval);
    push_u32(&mut v, sb.s_creator_os);
    push_u32(&mut v, sb.s_rev_level);
    push_u16(&mut v, sb.s_def_resuid);
    push_u16(&mut v, sb.s_def_resgid);
    push_u32(&mut v, sb.s_first_ino);
    push_u16(&mut v, sb.s_inode_size);
    push_u16(&mut v, sb.s_block_group_nr);
    reveal(sb_bytes);
    assert(v@ =~= sb_bytes(*sb));
    v
}

/// On-disk bytes of a group descriptor (32 bytes).
#[verifier::opaque]
pub open spec fn gd_bytes(g: Ext2GroupDesc) -> Seq<u8> {
    u32_bytes(g.bg_block_bitmap) + u32_bytes(g.bg_inode_bitmap) + u32_bytes(g.bg_inode_table) + u16_bytes(
        g.bg_free_blocks_count,
    ) + u16_bytes(g.bg_free_inodes_count) + u16_bytes(g.bg_used_dirs_count) + u16_bytes(g.bg_pad) + u32_bytes(
        g.bg_reserved@[0],
    ) + u32_bytes(g.bg_reserved@[1]) + u32_bytes(g.bg_reserved@[2])
}

pub fn group_bytes(g: &Ext2GroupDesc) -> (v: Vec<u8>)
    ensures
        v@ == gd_bytes(*g),
        v@.len() == 32,
{
    let mut v: Vec<u8> = Vec::new();
    push_u32(&mut v, g.bg_block_bitmap);
    push_u32(&mut v, g.bg_inode_bitmap);
    push_u32(&mut v, g.bg_inode_table);
    push_u16(&mut v, g.bg_free_blocks_count);
    push_u16(&mut v, g.bg_free_inodes_count);
    push_u16(&mut v, g.bg_used_dirs_count);
    push_u16(&mut v, g.bg_pad);
    push_u32(&mut v, g.bg_reserved[0]);
    push_u32(&mut v, g.bg_reserved[1]);
    push_u32(&mut v, g.bg_reserved[2]);
    reveal(gd_bytes);
    assert(v@ =~= gd_bytes(*g));
    v
}

/// First 40 on-disk bytes of an inode (up to the block map).
pub open spec fn inode_head(i: Ext2Inode) -> Seq<u8> {
    u16_bytes(i.i_mode) + u16_bytes(i.i_uid) + u32_bytes(i.i_size) + u32_bytes(i.i_atime) + u32_bytes(i.i_ctime)
        + u32_bytes(i.i_mtime) + u32_bytes(i.i_dtime) + u16_bytes(i.i_gid) + u16_bytes(i.i_links_count)
        + u32_bytes(i.i_blocks) + u32_bytes(i.i_flags) + u32_bytes(i.i_osd1)
}

/// Last 28 on-disk bytes of an inode (after the block map).
pub open spec fn inode_tail(i: Ext2Inode) -> Seq<u8> {
    u32_bytes(i.i_generation) + u32_bytes(i.i_file_acl) + u32_bytes(i.i_dir_acl) + u32_bytes(i.i_faddr) + i.i_osd2@
}

/// On-disk bytes of an inode (128 bytes).
#[verifier::opaque]
pub open spec fn inode_bytes(i: Ext2Inode) -> Seq<u8> {
    inode_head(i) + blocks_bytes(i.i_block@, 15) + inode_tail(i)
}

/// Bytes of the first `n` block pointers.
pub open spec fn blocks_bytes(b: Seq<u32>, n: int) -> Seq<u8>
    decreases n,
{
    if n <= 0 {
        Seq::empty()
    } else {
        blocks_bytes(b, n - 1) + u32_bytes(b[n - 1])
    }
}

fn inode_head_bytes(i: &Ext2Inode) -> (v: Vec<u8>)
    ensures
        v@ == inode_head(*i),
{
    let mut v: Vec<u8> = Vec::new();
    push_u16(&mut v, i.i_mode);
    push_u16(&mut v, i.i_uid);
    push_u32(&mut v, i.i_size);
    push_u32(&mut v, i.i_atime);
    push_u32(&mut v, i.i_ctime);
    push_u32(&mut v, i.i_mtime);
    push_u32(&mut v, i.i_dtime);
    push_u16(&mut v, i.i_gid);
    push_u16(&mut v, i.i_links_count);
    push_u32(&mut v, i.i_blocks);
    push_u32(&mut v, i.i_flags);
    push_u32(&mut v, i.i_osd1);
    assert(v@ =~= inode_head(*i));
    v
}

fn inode_tail_bytes(i: &Ext2Inode) -> (v: Vec<u8>)
    ensures
        v@ == inode_tail(*i),
{
    let mut v: Vec<u8> = Vec::new();
    push_u32(&mut v, i.i_generation);
    push_u32(&mut v, i.i_file_acl);
    push_u32(&mut v, i.i_dir_acl);
    push_u32(&mut v, i.i_faddr);
    let mut m: usize = 0;
    let ghost mid = v@;
    while m < 12
        invariant
            m <= 12,
            i.i_osd2@.len() == 12,
            v@ == mid + i.i_osd2@.take(m as int),
        decreases 12 - m,
    {
        v.push(i.i_osd2[m]);
        m = m + 1;
        assert(v@ =~= mid + i.i_osd2@.take(m as int));
    }
    assert(i.i_osd2@.take(12) =~= i.i_osd2@);
    assert(v@ =~= inode_tail(*i));
    v
}

fn append(v: &mut Vec<u8>, s: &[u8])
    ensures
        final(v)@ == old(v)@ + s@,
{
    let mut k: usize = 0;
    while k < s.len()
        invariant
            k <= s@.len(),
            v@ == old(v)@ + s@.take(k as int),
        decreases s@.len() - k,
    {
        v.push(s[k]);
        k = k + 1;
        assert(v@ =~= old(v)@ + s@.take(k as int));
    }
    assert(s@.take(s@.len() as int) =~= s@);
}

pub fn inode_to_bytes(i: &Ext2Inode) -> (v: Vec<u8>)
    ensures
        v@ == inode_bytes(*i),
{
    let mut v = inode_head_bytes(i);
    let ghost head = v@;
    let mut k: usize = 0;
    while k < 15
        invariant
            k <= 15,
            i.i_block@.len() == 15,
            v@ == head + blocks_bytes(i.i_block@, k as int),
        decreases 15 - k,
    {
        push_u32(&mut v, i.i_block[k]);
        k = k + 1;
        assert(v@ =~= head + blocks_bytes(i.i_block@, k as int));
    }
    let t = inode_tail_bytes(i);
    append(&mut v, t.as_slice());
    reveal(inode_bytes);
    v
}



impl Ext2Fs {
    /// Replace the disk bytes at `o` with `data`.
    fn write_at(&mut self, o: usize, data: &[u8])
        requires
            o + data@.len() <= old(self).disk().len(),
        ensures
            final(self).disk() == patch(old(self).disk(), o as int, data@),
            old(self).wf() ==> final(self).wf(),
            final(self).same_geometry(old(self)),
            final(self).is_mounted() == old(self).is_mounted(),
            final(self).is_mounted() == old(self).is_mounted(),
            final(self).sb() == old(self).sb(),
            forall|g: int| #[trigger] final(self).group(g) == old(self).group(g),
    {
        proof {
            self.lemma_fields();
        }
        let mut k: usize = 0;
        let n = data.len();
        let dl = self.disk.len();
        while k < n
            invariant
                dl == self.disk@.len(),
                n == data@.len(),
                o + n <= self.disk@.len(),
                self.disk@.len() == old(self).disk@.len(),
                k <= n,
                self.disk@ == patch(old(self).disk@, o as int, data@.take(k as int)),
                self.block_size == old(self).block_size,
                self.inode_size == old(self).inode_size,
                self.inodes_per_group == old(self).inodes_per_group,
                self.blocks_per_group == old(self).blocks_per_group,
                self.groups_count == old(self).groups_count,
                self.first_data_block == old(self).first_data_block,
                self.mounted == old(self).mounted,
                self.groups == old(self).groups,
                self.superblock == old(self).superblock,
            decreases n - k,
        {
            self.disk.set(o + k, data[k]);
            k = k + 1;
            assert(self.disk@ =~= patch(old(self).disk@, o as int, data@.take(k as int)));
        }
        assert(data@.take(n as int) =~= data@);
        proof {
            self.lemma_fields();
            old(self).lemma_fields();
            self.lemma_same_geometry(old(self));
        }
    }

    /// Write the first block-size bytes of `buf` to block `block`.
    pub fn write_fs_block(&mut self, block: u32, buf: &[u8]) -> (r: Result<(), Ext2Error>)
        requires
            old(self).wf(),
            old(self).is_mounted(),
        ensures
            final(self).wf(),
            final(self).same_geometry(old(self)),
            final(self).is_mounted() == old(self).is_mounted(),
            final(self).sb() == old(self).sb(),
            forall|g: int| #[trigger] final(self).group(g) == old(self).group(g),
            ({
                let bs = old(self).bs();
                if buf@.len() < bs {
                    r == Err::<(), Ext2Error>(Ext2Error::BufferSmall) && final(self).disk() == old(self).disk()
                } else if old(self).block_data(block as int) is None {
                    r == Err::<(), Ext2Error>(Ext2Error::Io) && final(self).disk() == old(self).disk()
                } else {
                    r == Ok::<(), Ext2Error>(()) && final(self).disk() == patch(old(self).disk(), block * bs, buf@.take(bs))
                }
            }),
    {
        proof {
            self.lemma_fields();
            self.lemma_same_geometry(old(self));
        }
        let bs = self.block_size as usize;
        if buf.len() < bs {
            return Err(Ext2Error::BufferSmall);
        }
        assert((block as u64) * (self.block_size as u64) <= 0xFFFF_FFFFu64 * 4096) by (nonlinear_arith)
            requires
                self.block_size <= 4096,
        ;
        let start = (block as u64) * (self.block_size as u64);
        if start + (bs as u64) > self.disk.len() as u64 {
            return Err(Ext2Error::Io);
        }
        let src = vstd::slice::slice_subrange(buf, 0, bs);
        assert(src@ =~= buf@.take(bs as int));
        self.write_at(start as usize, src);
        proof {
            self.lemma_fields();
        }
        Ok(())
    }

    /// Write the in-memory superblock back at byte 1024.
    pub fn write_superblock(&mut self) -> (r: Result<(), Ext2Error>)
        requires
            old(self).wf(),
            old(self).is_mounted(),
        ensures
            final(self).wf(),
            final(self).same_geometry(old(self)),
            final(self).is_mounted() == old(self).is_mounted(),
            final(self).sb() == old(self).sb(),
            forall|g: int| #[trigger] final(self).group(g) == old(self).group(g),
            r == Ok::<(), Ext2Error>(()),
            final(self).disk() == patch(old(self).disk(), 1024, sb_bytes(old(self).sb())),
    {
        proof {
            self.lemma_fields();
            self.lemma_same_geometry(old(self));
        }
        let bytes = superblock_bytes(&self.superblock);
        self.write_at(1024, bytes.as_slice());
        proof {
            self.lemma_fields();
        }
        Ok(())
    }

    /// Block holding the group descriptors.
    pub open spec fn gdt(&self) -> int {
        if self.bs() == 1024 { 2 } else { 1 }
    }

    /// Disk after writing descriptor `g` from memory.
    pub open spec fn with_group(&self, g: int) -> Seq<u8> {
        patch(self.disk(), self.gdt() * self.bs() + 32 * g, gd_bytes(self.group(g)))
    }

    /// Write descriptor `g` back into the descriptor block.
    pub fn write_group_desc(&mut self, g: u32) -> (r: Result<(), Ext2Error>)
        requires
            old(self).wf(),
            old(self).is_mounted(),
        ensures
            final(self).wf(),
            final(self).same_geometry(old(self)),
            final(self).is_mounted() == old(self).is_mounted(),
            final(self).sb() == old(self).sb(),
            forall|k: int| #[trigger] final(self).group(k) == old(self).group(k),
            if g >= MAX_GROUPS {
                r == Err::<(), Ext2Error>(Ext2Error::GroupOutOfRange) && final(self).disk() == old(self).disk()
            } else {
                r == Ok::<(), Ext2Error>(()) && final(self).disk() == old(self).with_group(g as int)
            },
    {
        proof {
            self.lemma_fields();
            self.lemma_same_geometry(old(self));
        }
        if g as usize >= MAX_GROUPS {
            return Err(Ext2Error::GroupOutOfRange);
        }
        let bs = self.block_size as u64;
        let gdt: u64 = if self.block_size == 1024 { 2 } else { 1 };
        let bytes = group_bytes(&self.groups[g as usize]);
        let o = (gdt * bs) as usize + 32 * (g as usize);
        self.write_at(o, bytes.as_slice());
        proof {
            self.lemma_fields();
        }
        Ok(())
    }
}

pub proof fn lemma_blocks_bytes_len(b: Seq<u32>, n: int)
    requires
        n >= 0,
    ensures
        blocks_bytes(b, n).len() == 4 * n,
    decreases n,
{
    if n > 0 {
        lemma_blocks_bytes_len(b, n - 1);
    }
}

#[verifier::spinoff_prover]
pub proof fn lemma_inode_bytes_len(i: Ext2Inode)
    ensures
        inode_bytes(i).len() == 128,
{
    lemma_blocks_bytes_len(i.i_block@, 15);
    assert(inode_head(i).len() == 40);
    assert(inode_tail(i).len() == 16 + i.i_osd2@.len());
    reveal(inode_bytes);
}

/// Is bit `bit` of bitmap `bm` set? Bits past the end count as set.
pub open spec fn bit_used(bm: Seq<u8>, bit: int) -> bool {
    bit / 8 >= bm.len() || (bm[bit / 8] & (1u8 << ((bit % 8) as u8))) != 0
}

/// `bm` with bit `bit` set or cleared (unchanged past the end).
pub open spec fn bit_set(bm: Seq<u8>, bit: int, used: bool) -> Seq<u8> {
    let b = bit / 8;
    let m = 1u8 << ((bit % 8) as u8);
    if b >= bm.len() {
        bm
    } else if used {
        bm.update(b, bm[b] | m)
    } else {
        bm.update(b, bm[b] & !m)
    }
}

pub fn bitmap_test(bm: &[u8], bit: u32) -> (r: bool)
    ensures
        r == bit_used(bm@, bit as int),
{
    let b = (bit / 8) as usize;
    let m: u8 = 1u8 << ((bit % 8) as u8);
    if b < bm.len() {
        bm[b] & m != 0
    } else {
        true
    }
}

pub fn bitmap_set(bm: &mut [u8], bit: u32, used: bool)
    ensures
        final(bm)@ == bit_set(old(bm)@, bit as int, used),
{
    let b = (bit / 8) as usize;
    let m: u8 = 1u8 << ((bit % 8) as u8);
    if b >= bm.len() {
        return;
    }
    if used {
        bm[b] = bm[b] | m;
    } else {
        bm[b] = bm[b] & !m;
    }
}

/// Marking a clear bit used and then clearing it again gives the bitmap
/// back; afterwards the bit reads as used, then as free.
pub proof fn lemma_bit_set_then_clear(bm: Seq<u8>, bit: int)
    requires
        0 <= bit,
        !bit_used(bm, bit),
    ensures
        bit_used(bit_set(bm, bit, true), bit),
        !bit_used(bit_set(bit_set(bm, bit, true), bit, false), bit),
        bit_set(bit_set(bm, bit, true), bit, false) == bm,
{
    let b = bit / 8;
    let sh = (bit % 8) as u8;
    let m = 1u8 << sh;
    let x = bm[b];
    assert(sh < 8);
    assert((x & m) == 0 ==> ((x | m) & m) != 0 && (((x | m) & !m) & m) == 0 && ((x | m) & !m) == x) by (bit_vector)
        requires
            sh < 8,
            m == 1u8 << sh,
    ;
    assert(bit_set(bit_set(bm, bit, true), bit, false) =~= bm);
}

/// Lowest clear bit of `bm` in `from .. to`.
pub open spec fn first_clear(bm: Seq<u8>, from: int, to: int) -> Option<int>
    decreases to - from,
{
    if from >= to {
        None
    } else if !bit_used(bm, from) {
        Some(from)
    } else {
        first_clear(bm, from + 1, to)
    }
}

/// A block read into the 4096-byte scratch buffer the allocators use.
pub open spec fn scratch(bb: Seq<u8>) -> Seq<u8> {
    bb + Seq::new((4096 - bb.len()) as nat, |i: int| 0u8)
}

/// Record length of a directory entry with an `n`-byte name.
pub open spec fn rec_len_for(n: int) -> int {
    (8 + n + 3) / 4 * 4
}

pub fn dirent_rec_len(name_len: usize) -> (r: usize)
    requires
        name_len <= 255,
    ensures
        r == rec_len_for(name_len as int),
{
    let n = 8 + name_len;
    (n + 3) / 4 * 4
}

impl Ext2Fs {
    /// Where inode `ino` is written: its block and offset in the block.
    pub open spec fn inode_slot(&self, ino: u32) -> Result<(int, int), Ext2Error> {
        if ino == 0 || self.ipg() == 0 {
            Err(Ext2Error::BadIno)
        } else {
            let group = (ino - 1) / self.ipg();
            let index = (ino - 1) % self.ipg();
            if group >= MAX_GROUPS {
                Err(Ext2Error::GroupOutOfRange)
            } else {
                let byte_off = index * self.isz();
                let block = self.itable(group) + byte_off / self.bs();
                if self.block_data(block) is None {
                    Err(Ext2Error::Io)
                } else {
                    Ok((block, byte_off % self.bs()))
                }
            }
        }
    }

    /// Disk after writing inode `i` into slot `(block, off)`.
    pub open spec fn with_inode(&self, slot: (int, int), i: Ext2Inode) -> Seq<u8> {
        let n = if 128 < self.bs() - slot.1 { 128 } else { self.bs() - slot.1 };
        patch(self.disk(), slot.0 * self.bs() + slot.1, inode_bytes(i).take(n))
    }

    /// Write inode `ino`.
    pub fn write_inode(&mut self, ino: u32, inode: &Ext2Inode) -> (r: Result<(), Ext2Error>)
        requires
            old(self).wf(),
            old(self).is_mounted(),
        ensures
            final(self).wf(),
            final(self).same_geometry(old(self)),
            final(self).is_mounted() == old(self).is_mounted(),
            final(self).sb() == old(self).sb(),
            forall|g: int| #[trigger] final(self).group(g) == old(self).group(g),
            match old(self).inode_slot(ino) {
                Err(e) => r == Err::<(), Ext2Error>(e) && final(self).disk() == old(self).disk(),
                Ok(slot) => r == Ok::<(), Ext2Error>(()) && final(self).disk() == old(self).with_inode(slot, *inode),
            },
    {
        proof {
            self.lemma_fields();
            self.lemma_same_geometry(old(self));
        }
        if ino == 0 || self.inodes_per_group == 0 {
            return Err(Ext2Error::BadIno);
        }
        let ipg = self.inodes_per_group;
        let group = (ino - 1) / ipg;
        let index = (ino - 1) % ipg;
        if group as usize >= MAX_GROUPS {
            return Err(Ext2Error::GroupOutOfRange);
        }
        let table = self.groups[group as usize].bg_inode_table as u64;
        let isz = self.inode_size as u64;
        let bs = self.block_size as u64;
        assert((index as u64) * isz < 0x1_0000_0000 * 0x1_0000) by (nonlinear_arith)
            requires
                index < 0x1_0000_0000,
                isz < 0x1_0000,
        ;
        let byte_off = (index as u64) * isz;
        assert(byte_off / bs < 0x40_0000_0000) by (nonlinear_arith)
            requires
                bs >= 1024,
                byte_off < 0x1_0000_0000 * 0x1_0000,
        ;
        let block = table + byte_off / bs;
        let off = byte_off % bs;
        assert(block * bs < 0x100_0000_0000 * 4096) by (nonlinear_arith)
            requires
                block < 0x100_0000_0000,
                bs <= 4096,
        ;
        if block * bs + bs > self.disk.len() as u64 {
            return Err(Ext2Error::Io);
        }
        let bytes = inode_to_bytes(inode);
        proof {
            lemma_inode_bytes_len(*inode);
        }
        let n: usize = if 128 < bs - off { 128 } else { (bs - off) as usize };
        let part = vstd::slice::slice_subrange(bytes.as_slice(), 0, n);
        assert(part@ =~= inode_bytes(*inode).take(n as int));
        self.write_at((block * bs + off) as usize, part);
        proof {
            self.lemma_fields();
        }
        Ok(())
    }
}

pub open spec fn dec16(x: u16) -> u16 {
    if x > 0 { (x - 1) as u16 } else { x }
}

pub open spec fn dec32(x: u32) -> u32 {
    if x > 0 { (x - 1) as u32 } else { x }
}

/// `gd` with one inode fewer free.
pub open spec fn gd_take_inode(gd: Ext2GroupDesc) -> Ext2GroupDesc {
    Ext2GroupDesc { bg_free_inodes_count: dec16(gd.bg_free_inodes_count), ..gd }
}

/// `gd` with one block fewer free.
pub open spec fn gd_take_block(gd: Ext2GroupDesc) -> Ext2GroupDesc {
    Ext2GroupDesc { bg_free_blocks_count: dec16(gd.bg_free_blocks_count), ..gd }
}

pub open spec fn sb_take_inode(sb: Ext2Superblock) -> Ext2Superblock {
    Ext2Superblock { s_free_inodes_count: dec32(sb.s_free_inodes_count), ..sb }
}

pub open spec fn sb_take_block(sb: Ext2Superblock) -> Ext2Superblock {
    Ext2Superblock { s_free_blocks_count: dec32(sb.s_free_blocks_count), ..sb }
}

/// Bitmap block of `kind` (inode when `inodes`) for group `g`.
pub open spec fn bitmap_block(gd: Ext2GroupDesc, inodes: bool) -> int {
    if inodes { gd.bg_inode_bitmap as int } else { gd.bg_block_bitmap as int }
}

pub(crate) fn zero_block() -> (v: Vec<u8>)
    ensures
        v@ == Seq::new(4096, |i: int| 0u8),
{
    let mut v: Vec<u8> = Vec::new();
    while v.len() < 4096
        invariant
            v@.len() <= 4096,
            v@ == Seq::new(v@.len(), |i: int| 0u8),
        decreases 4096 - v@.len(),
    {
        v.push(0);
        assert(v@ =~= Seq::new(v@.len(), |i: int| 0u8));
    }
    v
}

impl Ext2Fs {
    /// First free (group, bit) of the inode (or block) bitmaps from group `g`.
    pub open spec fn alloc_scan(&self, g: int, inodes: bool) -> Result<(int, int), Ext2Error>
        decreases MAX_GROUPS - g,
    {
        if g < 0 || g >= self.scan_groups() || g >= MAX_GROUPS {
            Err(if inodes { Ext2Error::NoFreeInodes } else { Ext2Error::NoFreeBlocks })
        } else {
            match self.block_data(bitmap_block(self.group(g), inodes)) {
                None => Err(Ext2Error::Io),
                Some(bb) => {
                    let from = if inodes && g == 0 { 1int } else { 0int };
                    let to = if inodes { self.ipg() } else { self.bpg() };
                    match first_clear(scratch(bb), from, to) {
                        Some(b) => Ok((g, b)),
                        None => self.alloc_scan(g + 1, inodes),
                    }
                },
            }
        }
    }

    /// Disk after marking bit `bit` of group `g`'s bitmap and writing the
    /// descriptor `gd` and superblock `sb` back.
    pub open spec fn after_alloc(&self, g: int, bit: int, inodes: bool, gd: Ext2GroupDesc, sb: Ext2Superblock) -> Seq<u8> {
        let bmp = bitmap_block(self.group(g), inodes);
        let bb = self.block_data(bmp)->Some_0;
        let d1 = patch(self.disk(), bmp * self.bs(), bit_set(scratch(bb), bit, true).take(self.bs()));
        let d2 = patch(d1, self.gdt() * self.bs() + 32 * g, gd_bytes(gd));
        patch(d2, 1024, sb_bytes(sb))
    }

    /// Read block `b` into a 4096-byte scratch buffer.
    pub(crate) fn read_scratch(&self, b: u32) -> (r: Result<Vec<u8>, Ext2Error>)
        requires
            self.wf(),
            self.is_mounted(),
        ensures
            match self.block_data(b as int) {
                None => r == Err::<Vec<u8>, Ext2Error>(Ext2Error::Io),
                Some(bb) => r matches Ok(v) && v@ == scratch(bb) && v@.len() == 4096,
            },
    {
        proof {
            self.lemma_fields();
        }
        let data = match self.block_slice(b as u64) {
            Err(e) => return Err(e),
            Ok(d) => d,
        };
        let mut v = crate::text::copy_all(data);
        let ghost head = v@;
        while v.len() < 4096
            invariant
                head == data@,
                data@.len() <= 4096,
                head.len() <= v@.len() <= 4096,
                v@ == head + Seq::new((v@.len() - head.len()) as nat, |i: int| 0u8),
            decreases 4096 - v@.len(),
        {
            v.push(0);
            assert(v@ =~= head + Seq::new((v@.len() - head.len()) as nat, |i: int| 0u8));
        }
        Ok(v)
    }

    /// Allocate the lowest free inode (group 0 starts at bit 1); returns its number.
    pub fn alloc_inode(&mut self) -> (r: Result<u32, Ext2Error>)
        requires
            old(self).wf(),
            old(self).is_mounted(),
        ensures
            final(self).wf(),
            final(self).same_geometry(old(self)),
            final(self).is_mounted(),
            match old(self).alloc_scan(0, true) {
                Err(e) => r == Err::<u32, Ext2Error>(e) && final(self).disk() == old(self).disk()
                    && final(self).sb() == old(self).sb() && forall|k: int| #[trigger] final(self).group(k) == old(self).group(k),
                Ok((g, bit)) => {
                    let gd = gd_take_inode(old(self).group(g));
                    let sb = sb_take_inode(old(self).sb());
                    &&& r == Ok::<u32, Ext2Error>((g * old(self).ipg() + bit + 1) as u32)
                    &&& final(self).disk() == old(self).after_alloc(g, bit, true, gd, sb)
                    &&& final(self).group(g) == gd
                    &&& forall|k: int| 0 <= k < MAX_GROUPS && k != g ==> #[trigger] final(self).group(k) == old(self).group(k)
                    &&& final(self).sb() == sb
                },
            },
    {
        self.alloc_bit(true)
    }

    /// Allocate the lowest free block and zero it; returns its number.
    pub fn alloc_block(&mut self) -> (r: Result<u32, Ext2Error>)
        requires
            old(self).wf(),
            old(self).is_mounted(),
        ensures
            final(self).wf(),
            final(self).same_geometry(old(self)),
            final(self).is_mounted(),
            match old(self).alloc_scan(0, false) {
                Err(e) => r == Err::<u32, Ext2Error>(e) && final(self).disk() == old(self).disk()
                    && final(self).sb() == old(self).sb() && forall|k: int| #[trigger] final(self).group(k) == old(self).group(k),
                Ok((g, bit)) => {
                    let gd = gd_take_block(old(self).group(g));
                    let sb = sb_take_block(old(self).sb());
                    let blk = (old(self).first_data() + g * old(self).bpg() + bit) as u32;
                    let d = old(self).after_alloc(g, bit, false, gd, sb);
                    &&& final(self).group(g) == gd
                    &&& forall|k: int| 0 <= k < MAX_GROUPS && k != g ==> #[trigger] final(self).group(k) == old(self).group(k)
                    &&& final(self).sb() == sb
                    &&& if old(self).block_data(blk as int) is None {
                        r == Err::<u32, Ext2Error>(Ext2Error::Io) && final(self).disk() == d
                    } else {
                        r == Ok::<u32, Ext2Error>(blk) && final(self).disk() == patch(
                            d,
                            blk * old(self).bs(),
                            Seq::new(old(self).bs() as nat, |i: int| 0u8),
                        )
                    }
                },
            },
    {
        proof {
            self.lemma_same_geometry(old(self));
        }
        let g_bit = self.alloc_bit(false);
        match g_bit {
            Err(e) => Err(e),
            Ok(blk) => {
                let zeros = zero_block();
                let ghost mid = *self;
                proof {
                    self.lemma_fields();
                    old(self).lemma_fields();
                    Ext2Fs::lemma_same_geometry_facts(self, old(self));
                }
                let w = self.write_fs_block(blk, zeros.as_slice());
                proof {
                    assert(zeros@.take(old(self).bs()) =~= Seq::new(old(self).bs() as nat, |i: int| 0u8));
                    Ext2Fs::lemma_same_geometry_trans(self, &mid, old(self));
                }
                match w {
                    Err(e) => Err(e),
                    Ok(()) => Ok(blk),
                }
            },
        }
    }

    /// Mark bit `bit` of group `g`'s bitmap (read into `bm`) and write the
    /// updated descriptor and superblock back.
    fn commit_alloc(&mut self, g: u32, bit: u32, inodes: bool, bm: Vec<u8>)
        requires
            old(self).wf(),
            old(self).is_mounted(),
            g < MAX_GROUPS,
            old(self).block_data(bitmap_block(old(self).group(g as int), inodes)) is Some,
            bm@ == scratch(old(self).block_data(bitmap_block(old(self).group(g as int), inodes))->Some_0),
        ensures
            final(self).wf(),
            final(self).same_geometry(old(self)),
            final(self).is_mounted(),
            ({
                let gd = if inodes { gd_take_inode(old(self).group(g as int)) } else { gd_take_block(old(self).group(g as int)) };
                let sb = if inodes { sb_take_inode(old(self).sb()) } else { sb_take_block(old(self).sb()) };
                &&& final(self).disk() == old(self).after_alloc(g as int, bit as int, inodes, gd, sb)
                &&& final(self).group(g as int) == gd
                &&& forall|k: int| 0 <= k < MAX_GROUPS && k != g ==> #[trigger] final(self).group(k) == old(self).group(k)
                &&& final(self).sb() == sb
            }),
    {
        let mut bm = bm;
        proof {
            self.lemma_fields();
            self.lemma_same_geometry(old(self));
        }
        let gd = self.groups[g as usize];
        let bmp = if inodes { gd.bg_inode_bitmap } else { gd.bg_block_bitmap };
        let ghost s0 = *self;
        bitmap_set(bm.as_mut_slice(), bit, true);
        let _ = self.write_fs_block(bmp, bm.as_slice());
        let ghost s1 = *self;
        proof {
            self.lemma_fields();
            self.lemma_same_geometry(&s0);
            assert(bm@.len() == 4096);
            assert(s1.disk() == patch(s0.disk(), bmp * s0.bs(), bm@.take(s0.bs())));
        }
        let mut ngd = gd;
        if inodes {
            if ngd.bg_free_inodes_count > 0 {
                ngd.bg_free_inodes_count = ngd.bg_free_inodes_count - 1;
            }
            if self.superblock.s_free_inodes_count > 0 {
                self.superblock.s_free_inodes_count = self.superblock.s_free_inodes_count - 1;
            }
        } else {
            if ngd.bg_free_blocks_count > 0 {
                ngd.bg_free_blocks_count = ngd.bg_free_blocks_count - 1;
            }
            if self.superblock.s_free_blocks_count > 0 {
                self.superblock.s_free_blocks_count = self.superblock.s_free_blocks_count - 1;
            }
        }
        self.groups.set(g as usize, ngd);
        let ghost s2 = *self;
        proof {
            self.lemma_fields();
            s1.lemma_fields();
            self.lemma_same_geometry(&s1);
            assert(self.same_geometry(&s1));
            Ext2Fs::lemma_same_geometry_trans(self, &s1, &s0);
            assert(ngd == (if inodes { gd_take_inode(gd) } else { gd_take_block(gd) }));
        }
        let _ = self.write_group_desc(g);
        let ghost s3 = *self;
        proof {
            Ext2Fs::lemma_same_geometry_trans(self, &s2, &s0);
            Ext2Fs::lemma_same_geometry_facts(&s2, &s0);
        }
        let _ = self.write_superblock();
        proof {
            Ext2Fs::lemma_same_geometry_trans(self, &s3, &s0);
            Ext2Fs::lemma_same_geometry_facts(&s3, &s0);
            self.lemma_fields();
            s0.lemma_fields();
            s2.lemma_fields();
            s3.lemma_fields();
            assert(s0.gdt() == s2.gdt());
            let gdn = if inodes { gd_take_inode(old(self).group(g as int)) } else { gd_take_block(old(self).group(g as int)) };
            let sbn = if inodes { sb_take_inode(old(self).sb()) } else { sb_take_block(old(self).sb()) };
            assert(s2.group(g as int) == gdn);
            assert(s2.sb() == sbn);
            assert(s2.disk() == s1.disk());
            assert(s3.disk() == patch(s1.disk(), s0.gdt() * s0.bs() + 32 * g, gd_bytes(gdn)));
            assert(self.disk() == patch(s3.disk(), 1024, sb_bytes(sbn)));
            assert(self.sb() == sbn);
            assert(self.group(g as int) == gdn);
            assert(bmp as int == bitmap_block(s0.group(g as int), inodes));
            let bb = s0.block_data(bmp as int)->Some_0;
            assert(bm@ == bit_set(scratch(bb), bit as int, true));
            assert(self.disk() == old(self).after_alloc(g as int, bit as int, inodes, gdn, sbn));
            assert forall|k: int| 0 <= k < MAX_GROUPS && k != g implies #[trigger] self.group(k) == old(self).group(k) by {
                assert(s2.group(k) == s1.group(k));
                assert(s1.group(k) == s0.group(k));
            }
        }
    }

    /// Shared allocator: the returned number is the inode number (inodes)
    /// or the block number (blocks).
    fn alloc_bit(&mut self, inodes: bool) -> (r: Result<u32, Ext2Error>)
        requires
            old(self).wf(),
            old(self).is_mounted(),
        ensures
            final(self).wf(),
            final(self).same_geometry(old(self)),
            final(self).is_mounted(),
            match old(self).alloc_scan(0, inodes) {
                Err(e) => r == Err::<u32, Ext2Error>(e) && final(self).disk() == old(self).disk()
                    && final(self).sb() == old(self).sb() && forall|k: int| #[trigger] final(self).group(k) == old(self).group(k),
                Ok((g, bit)) => {
                    let gd = if inodes { gd_take_inode(old(self).group(g)) } else { gd_take_block(old(self).group(g)) };
                    let sb = if inodes { sb_take_inode(old(self).sb()) } else { sb_take_block(old(self).sb()) };
                    &&& r == Ok::<u32, Ext2Error>(
                        if inodes { (g * old(self).ipg() + bit + 1) as u32 } else { (old(self).first_data() + g * old(self).bpg() + bit) as u32 },
                    )
                    &&& final(self).disk() == old(self).after_alloc(g, bit, inodes, gd, sb)
                    &&& final(self).group(g) == gd
                    &&& forall|k: int| 0 <= k < MAX_GROUPS && k != g ==> #[trigger] final(self).group(k) == old(self).group(k)
                    &&& final(self).sb() == sb
                },
            },
    {
        proof {
            self.lemma_fields();
            self.lemma_same_geometry(old(self));
        }
        let ngroups: u32 = if self.groups_count < MAX_GROUPS as u32 { self.groups_count } else { MAX_GROUPS as u32 };
        let limit: u32 = if inodes { self.inodes_per_group } else { self.blocks_per_group };
        let mut g: u32 = 0;
        while g < ngroups
            invariant
                self.wf(),
                self.is_mounted(),
                *self == *old(self),
                ngroups == self.scan_groups(),
                self.same_geometry(old(self)),
                ngroups <= MAX_GROUPS,
                limit == (if inodes { self.ipg() } else { self.bpg() }),
                g <= ngroups,
                old(self).alloc_scan(0, inodes) == old(self).alloc_scan(g as int, inodes),
            decreases ngroups - g,
        {
            proof {
                self.lemma_fields();
            }
            let gd = self.groups[g as usize];
            let bmp = if inodes { gd.bg_inode_bitmap } else { gd.bg_block_bitmap };
            let mut bm = match self.read_scratch(bmp) {
                Err(e) => return Err(e),
                Ok(v) => v,
            };
            let ghost bb = self.block_data(bmp as int)->Some_0;
            let start: u32 = if inodes && g == 0 { 1 } else { 0 };
            let mut bit = start;
            while bit < limit && bitmap_test(bm.as_slice(), bit)
                invariant
                    bm@ == scratch(bb),
                    start <= bit <= limit || (start > limit && bit == start),
                    first_clear(scratch(bb), start as int, limit as int) == first_clear(scratch(bb), bit as int, limit as int),
                decreases limit - bit,
            {
                bit = bit + 1;
            }
            if bit < limit {
                assert(first_clear(scratch(bb), bit as int, limit as int) == Some(bit as int));
                proof {
                    assert(old(self).alloc_scan(g as int, inodes) == Ok::<(int, int), Ext2Error>((g as int, bit as int)));
                }
                self.commit_alloc(g, bit, inodes, bm);
                proof {
                    self.lemma_fields();
                    old(self).lemma_fields();
                    self.lemma_same_geometry(old(self));
                }
                assert((g as u64) * (self.inodes_per_group as u64) <= 32 * 0xFFFF_FFFFu64) by (nonlinear_arith)
                    requires
                        g < 32,
                ;
                assert((g as u64) * (self.blocks_per_group as u64) <= 32 * 0xFFFF_FFFFu64) by (nonlinear_arith)
                    requires
                        g < 32,
                ;
                let num: u32 = if inodes {
                    ((g as u64) * (self.inodes_per_group as u64) + (bit as u64) + 1) as u32
                } else {
                    ((self.first_data_block as u64) + (g as u64) * (self.blocks_per_group as u64) + (bit as u64)) as u32
                };
                return Ok(num);
            }
            g = g + 1;
        }
        Err(if inodes { Ext2Error::NoFreeInodes } else { Ext2Error::NoFreeBlocks })
    }
}

/// On-disk bytes of a directory entry header and name.
pub open spec fn dirent_bytes(rec_len: int, ino: u32, name: Seq<u8>, ft: u8) -> Seq<u8> {
    u32_bytes(ino) + u16_bytes(rec_len as u16) + seq![name.len() as u8, ft] + name
}

/// Write a directory entry at `pos` of `buf`.
pub fn write_dirent(buf: &mut [u8], pos: usize, rec_len: usize, ino: u32, name: &[u8], ft: u8)
    requires
        pos + 8 + name@.len() <= old(buf)@.len(),
    ensures
        final(buf)@ == patch(old(buf)@, pos as int, dirent_bytes(rec_len as int, ino, name@, ft)),
{
    let mut bytes: Vec<u8> = Vec::new();
    push_u32(&mut bytes, ino);
    push_u16(&mut bytes, rec_len as u16);
    bytes.push(name.len() as u8);
    bytes.push(ft);
    append(&mut bytes, name);
    assert(bytes@ =~= dirent_bytes(rec_len as int, ino, name@, ft));
    let bl = buf.len();
    let mut k: usize = 0;
    while k < bytes.len()
        invariant
            bl == buf@.len(),
            buf@.len() == old(buf)@.len(),
            pos + bytes@.len() <= buf@.len(),
            k <= bytes@.len(),
            buf@ == patch(old(buf)@, pos as int, bytes@.take(k as int)),
        decreases bytes@.len() - k,
    {
        buf[pos + k] = bytes[k];
        k = k + 1;
        assert(buf@ =~= patch(old(buf)@, pos as int, bytes@.take(k as int)));
    }
    assert(bytes@.take(bytes@.len() as int) =~= bytes@);
}

/// `x + y` wrapped to 32 bits.
pub open spec fn wadd32(x: int, y: int) -> u32 {
    if x + y > u32::MAX {
        (x + y - 0x1_0000_0000) as u32
    } else {
        (x + y) as u32
    }
}

/// The time stamp written by the write operations.
pub open spec fn stamp(ticks: u64) -> u32 {
    wadd32(1_700_000_000, (ticks % 0x1_0000_0000) as int)
}

pub fn now(ticks: u64) -> (r: u32)
    ensures
        r == stamp(ticks),
{
    let t = (ticks % 0x1_0000_0000) as u32;
    1_700_000_000u32.wrapping_add(t)
}

/// Where a new entry goes.
pub enum AddPlace {
    /// Rewrite block `block` with these bytes (the first block-size bytes count).
    InBlock(int, Seq<u8>),
    /// No room: a new block is needed.
    NewBlock,
    Fail(Ext2Error),
}

/// What scanning one block finds.
pub enum AddStep {
    Found(Seq<u8>),
    /// Go on at this offset.
    Next(int),
    Fail(Ext2Error),
}

impl Ext2Fs {
    /// Scan records of a block (in scratch buffer `bm`) from `pos` for room
    /// for a `need`-byte entry.
    pub open spec fn add_scan(&self, bm: Seq<u8>, lb: int, pos: int, size: int, need: int, name: Seq<u8>, child: u32, ft: u8) -> AddStep
        decreases (if pos < self.bs() { self.bs() - pos } else { 0 }),
    {
        let bs = self.bs();
        let off = lb * bs + pos;
        if 0 <= pos && pos + 8 <= bs && off < size {
            let ino = le32(bm, pos);
            let rec = le16(bm, pos + 4);
            let ideal = rec_len_for(bm[pos + 6] as int);
            if rec < 8 {
                if pos == 0 { AddStep::Fail(Ext2Error::CorruptDirectory) } else { AddStep::Next((off / bs + 1) * bs) }
            } else if ino == 0 && rec >= need {
                if pos + 8 + name.len() > 4096 {
                    AddStep::Fail(Ext2Error::CorruptDirectory)
                } else {
                    AddStep::Found(patch(bm, pos, dirent_bytes(rec, child, name, ft)))
                }
            } else if ino != 0 && rec >= ideal + need {
                if pos + ideal + 8 + name.len() > 4096 {
                    AddStep::Fail(Ext2Error::CorruptDirectory)
                } else {
                    AddStep::Found(
                        patch(patch(bm, pos + 4, u16_bytes(ideal as u16)), pos + ideal, dirent_bytes(rec - ideal, child, name, ft)),
                    )
                }
            } else {
                self.add_scan(bm, lb, pos + rec, size, need, name, child, ft)
            }
        } else {
            AddStep::Next(if off % bs != 0 { (off / bs + 1) * bs } else { off })
        }
    }

    /// Find room for the entry in a directory with block map `blocks` from byte `off`.
    pub open spec fn add_walk(&self, blocks: Seq<u32>, size: int, off: int, need: int, name: Seq<u8>, child: u32, ft: u8) -> AddPlace
        decreases size - off,
    {
        if off >= size || off < 0 || self.bs() <= 0 {
            AddPlace::NewBlock
        } else {
            let lb = off / self.bs();
            if lb >= 12 {
                AddPlace::Fail(Ext2Error::DirTooLarge)
            } else {
                let block = blocks[lb] as int;
                if block == 0 {
                    AddPlace::NewBlock
                } else {
                    match self.block_data(block) {
                        None => AddPlace::Fail(Ext2Error::Io),
                        Some(bb) => match self.add_scan(scratch(bb), lb, off % self.bs(), size, need, name, child, ft) {
                            AddStep::Found(nb) => AddPlace::InBlock(block, nb),
                            AddStep::Fail(e) => AddPlace::Fail(e),
                            AddStep::Next(o2) => if o2 <= off {
                                AddPlace::Fail(Ext2Error::CorruptDirectory)
                            } else if o2 >= size {
                                AddPlace::NewBlock
                            } else {
                                self.add_walk(blocks, size, o2, need, name, child, ft)
                            },
                        },
                    }
                }
            }
        }
    }
}

/// First of the 12 direct block slots that is empty.
pub open spec fn free_slot(blocks: Seq<u32>, k: int) -> Option<int>
    decreases 12 - k,
{
    if k < 0 || k >= 12 {
        None
    } else if blocks[k] == 0 {
        Some(k)
    } else {
        free_slot(blocks, k + 1)
    }
}

/// `n` is directory inode `d` after block `blk` was attached in slot `i`
/// at time `t`.
pub open spec fn grown_dir(n: Ext2Inode, d: Ext2Inode, i: int, blk: u32, bs: int, t: u32) -> bool {
    &&& n.i_mode == d.i_mode
    &&& n.i_uid == d.i_uid
    &&& n.i_size == wadd32(d.i_size as int, bs)
    &&& n.i_atime == t
    &&& n.i_ctime == t
    &&& n.i_mtime == t
    &&& n.i_dtime == d.i_dtime
    &&& n.i_gid == d.i_gid
    &&& n.i_links_count == d.i_links_count
    &&& n.i_blocks == wadd32(d.i_blocks as int, bs / 512)
    &&& n.i_flags == d.i_flags
    &&& n.i_osd1 == d.i_osd1
    &&& n.i_block@ == d.i_block@.update(i, blk)
    &&& n.i_generation == d.i_generation
    &&& n.i_file_acl == d.i_file_acl
    &&& n.i_dir_acl == d.i_dir_acl
    &&& n.i_faddr == d.i_faddr
    &&& n.i_osd2 == d.i_osd2
}

impl Ext2Fs {
    /// Disk after writing inode `i` in slot `slot` of disk `d`.
    pub open spec fn put_inode(&self, d: Seq<u8>, slot: (int, int), i: Ext2Inode) -> Seq<u8> {
        let n = if 128 < self.bs() - slot.1 { 128 } else { self.bs() - slot.1 };
        patch(d, slot.0 * self.bs() + slot.1, inode_bytes(i).take(n))
    }

    /// Outcome of adding the entry `name -> child` (type `ft`) to directory
    /// `dir` at time `t`.
    pub open spec fn add_entry_ok(&self, fin: &Ext2Fs, r: Result<(), Ext2Error>, dir: u32, name: Seq<u8>, child: u32, ft: u8, t: u32) -> bool {
        if name.len() == 0 || name.len() > 255 {
            r == Err::<(), Ext2Error>(Ext2Error::BadName) && fin.unchanged(self)
        } else {
            match self.inode_pos(dir) {
                Err(e) => r == Err::<(), Ext2Error>(e) && fin.unchanged(self),
                Ok(o) => if self.mode_at(o) & S_IFMT != S_IFDIR {
                    r == Err::<(), Ext2Error>(Ext2Error::NotDirectory) && fin.unchanged(self)
                } else {
                    match self.add_walk(self.blocks_at(o), self.size_at(o), 0, rec_len_for(name.len() as int), name, child, ft) {
                        AddPlace::Fail(e) => r == Err::<(), Ext2Error>(e) && fin.unchanged(self),
                        AddPlace::InBlock(b, nb) => r == Ok::<(), Ext2Error>(()) && fin.disk() == patch(self.disk(), b * self.bs(), nb.take(self.bs()))
                            && fin.sb() == self.sb() && forall|k: int| #[trigger] fin.group(k) == self.group(k),
                        AddPlace::NewBlock => self.add_new_block_ok(fin, r, dir, o, name, child, ft, t),
                    }
                },
            }
        }
    }

    /// Outcome of adding `name -> child` to directory `dir` by growing it
    /// with a new block (when no record had room).
    pub open spec fn add_new_block_ok(&self, fin: &Ext2Fs, r: Result<(), Ext2Error>, dir: u32, o: int, name: Seq<u8>, child: u32, ft: u8, t: u32) -> bool {
        match self.alloc_scan(0, false) {
            Err(e) => r == Err::<(), Ext2Error>(e) && fin.disk() == self.disk() && fin.sb() == self.sb()
                && forall|k: int| #[trigger] fin.group(k) == self.group(k),
            Ok((g, bit)) => self.grown_ok(fin, r, dir, o, name, child, ft, t, g, bit),
        }
    }

    /// The new-block case once the allocator chose bit `bit` of group `g`.
    pub open spec fn grown_ok(&self, fin: &Ext2Fs, r: Result<(), Ext2Error>, dir: u32, o: int, name: Seq<u8>, child: u32, ft: u8, t: u32, g: int, bit: int) -> bool {
        let gd = gd_take_block(self.group(g));
        let sb = sb_take_block(self.sb());
        let blk = (self.first_data() + g * self.bpg() + bit) as u32;
        let d = self.after_alloc(g, bit, false, gd, sb);
        let bs = self.bs();
        &&& fin.group(g) == gd
        &&& forall|k: int| 0 <= k < MAX_GROUPS && k != g ==> #[trigger] fin.group(k) == self.group(k)
        &&& fin.sb() == sb
        &&& if self.block_data(blk as int) is None {
            r == Err::<(), Ext2Error>(Ext2Error::Io) && fin.disk() == d
        } else {
            self.grown_disk_ok(fin, r, dir, o, blk, self.block_written(d, blk, name, child, ft), t)
        }
    }

    /// Disk after zeroing block `blk` of `d` and writing the new entry there.
    pub open spec fn block_written(&self, d: Seq<u8>, blk: u32, name: Seq<u8>, child: u32, ft: u8) -> Seq<u8> {
        let bs = self.bs();
        let d0 = patch(d, blk * bs, Seq::new(bs as nat, |i: int| 0u8));
        patch(d0, blk * bs, patch(Seq::new(4096, |i: int| 0u8), 0, dirent_bytes(bs, child, name, ft)).take(bs))
    }

    pub proof fn lemma_grown_disk(&self, fin: &Ext2Fs, r: Result<(), Ext2Error>, dir: u32, o: int, blk: u32, d1: Seq<u8>, t: u32, i: int, di: Ext2Inode, nd: Ext2Inode)
        requires
            free_slot(self.blocks_at(o), 0) == Some(i),
            inode_at(di, self.disk(), o),
            grown_dir(nd, di, i, blk, self.bs(), t),
            match self.inode_slot(dir) {
                Err(e) => r == Err::<(), Ext2Error>(e) && fin.disk() == d1,
                Ok(slot) => r == Ok::<(), Ext2Error>(()) && fin.disk() == self.put_inode(d1, slot, nd),
            },
        ensures
            self.grown_disk_ok(fin, r, dir, o, blk, d1, t),
    {
        assert(grown_dir(nd, di, i, blk, self.bs(), t));
        self.lemma_inode_fields(di, o);
        assert(self.grown_from(nd, o, i, blk, t));
        assert(self.slot_written(fin, r, dir, d1, nd));
    }

    /// `n` is the directory inode stored at `o` after block `blk` was
    /// attached in slot `i` at time `t`.
    pub open spec fn grown_from(&self, n: Ext2Inode, o: int, i: int, blk: u32, t: u32) -> bool {
        let d = self.disk();
        &&& n.i_mode == le16(d, o)
        &&& n.i_uid == le16(d, o + 2)
        &&& n.i_size == wadd32(le32(d, o + 4), self.bs())
        &&& n.i_atime == t
        &&& n.i_ctime == t
        &&& n.i_mtime == t
        &&& n.i_dtime == le32(d, o + 20)
        &&& n.i_gid == le16(d, o + 24)
        &&& n.i_links_count == le16(d, o + 26)
        &&& n.i_blocks == wadd32(le32(d, o + 28), self.bs() / 512)
        &&& n.i_flags == le32(d, o + 32)
        &&& n.i_osd1 == le32(d, o + 36)
        &&& n.i_block@ == self.blocks_at(o).update(i, blk)
        &&& n.i_generation == le32(d, o + 100)
        &&& n.i_file_acl == le32(d, o + 104)
        &&& n.i_dir_acl == le32(d, o + 108)
        &&& n.i_faddr == le32(d, o + 112)
        &&& n.i_osd2@ == d.subrange(o + 116, o + 128)
    }

    /// Writing inode `nd` for `dir` over disk `d1`.
    pub open spec fn slot_written(&self, fin: &Ext2Fs, r: Result<(), Ext2Error>, dir: u32, d1: Seq<u8>, nd: Ext2Inode) -> bool {
        match self.inode_slot(dir) {
            Err(e) => r == Err::<(), Ext2Error>(e) && fin.disk() == d1,
            Ok(slot) => r == Ok::<(), Ext2Error>(()) && fin.disk() == self.put_inode(d1, slot, nd),
        }
    }

    /// The slot search and inode write on disk `d1`.
    pub open spec fn grown_disk_ok(&self, fin: &Ext2Fs, r: Result<(), Ext2Error>, dir: u32, o: int, blk: u32, d1: Seq<u8>, t: u32) -> bool {
        if free_slot(self.blocks_at(o), 0) is None {
            r == Err::<(), Ext2Error>(Ext2Error::NoDirectSlot) && fin.disk() == d1
        } else {
            exists|nd: Ext2Inode|
                self.grown_from(nd, o, free_slot(self.blocks_at(o), 0)->Some_0, blk, t) && #[trigger] self.slot_written(fin, r, dir, d1, nd)
        }
    }
}

/// Result of `add_in_block`.
enum AddOut {
    Found(Vec<u8>),
    Next(u64),
    Fail(Ext2Error),
}

impl Ext2Fs {
    pub open spec fn unchanged(&self, o: &Ext2Fs) -> bool {
        &&& self.disk() == o.disk()
        &&& self.sb() == o.sb()
        &&& forall|k: int| #[trigger] self.group(k) == o.group(k)
    }

    #[verifier::rlimit(60)]
    fn add_in_block(&self, bm0: Vec<u8>, lb: u64, boff: u64, size: u64, need: u64, name: &[u8], child: u32, ft: u8) -> (r: AddOut)
        requires
            self.wf(),
            self.is_mounted(),
            bm0@.len() == 4096,
            need <= 0x1_0000,
            lb * self.bs() + boff < size,
            size <= u32::MAX,
            boff < self.bs(),
            name@.len() <= 255,
        ensures
            match self.add_scan(bm0@, lb as int, boff as int, size as int, need as int, name@, child, ft) {
                AddStep::Found(nb) => r matches AddOut::Found(v) && v@ == nb && nb.len() == 4096,
                AddStep::Next(o2) => r matches AddOut::Next(x) && x == o2,
                AddStep::Fail(e) => r matches AddOut::Fail(x) && x == e,
            },
    {
        proof {
            self.lemma_fields();
        }
        let bs = self.block_size as u64;
        let mut bm = bm0;
        let mut pos: u64 = boff;
        let mut off: u64 = lb * bs + boff;
        while pos + 8 <= bs && off < size
            invariant
                self.wf(),
                self.is_mounted(),
                bm@.len() == 4096,
                bs == self.bs(),
                1024 <= bs <= 4096,
                size <= u32::MAX,
                name@.len() <= 255,
                need <= 0x1_0000,
                off == lb * bs + pos,
                pos <= bs + 0x1_0000,
                off <= size + 0x1_0000,
                bm@ == bm0@,
                self.add_scan(bm@, lb as int, boff as int, size as int, need as int, name@, child, ft)
                    == self.add_scan(bm@, lb as int, pos as int, size as int, need as int, name@, child, ft),
            decreases bs + 0x1_0000 - pos,
        {
            let p = pos as usize;
            let ino = crate::ext2::read_u32_le(bm.as_slice(), p);
            let rec = crate::ext2::read_u16_le(bm.as_slice(), p + 4) as u64;
            let ideal = dirent_rec_len(bm[p + 6] as usize) as u64;
            let ghost here = self.add_scan(bm@, lb as int, pos as int, size as int, need as int, name@, child, ft);
            assert(ino == le32(bm@, pos as int));
            assert(rec == le16(bm@, pos + 4));
            if rec < 8 {
                if pos == 0 {
                    assert(here == AddStep::Fail(Ext2Error::CorruptDirectory));
                    return AddOut::Fail(Ext2Error::CorruptDirectory);
                }
                assert((off / bs + 1) * bs <= off + bs) by (nonlinear_arith)
                    requires
                        bs > 0,
                ;
                return AddOut::Next((off / bs + 1) * bs);
            }
            if ino == 0 && rec >= need {
                if pos + 8 + name.len() as u64 > 4096 {
                    return AddOut::Fail(Ext2Error::CorruptDirectory);
                }
                write_dirent(bm.as_mut_slice(), p, rec as usize, child, name, ft);
                assert(bm@.len() == 4096);
                return AddOut::Found(bm);
            }
            if ino != 0 && rec >= ideal + need {
                if pos + ideal + 8 + name.len() as u64 > 4096 {
                    return AddOut::Fail(Ext2Error::CorruptDirectory);
                }
                let nr = ideal as u16;
                let ghost before = bm@;
                bm.set(p + 4, (nr % 256) as u8);
                bm.set(p + 5, (nr / 256) as u8);
                assert(bm@ =~= patch(before, pos + 4, u16_bytes(nr)));
                write_dirent(bm.as_mut_slice(), p + ideal as usize, (rec - ideal) as usize, child, name, ft);
                assert(bm@.len() == 4096);
                return AddOut::Found(bm);
            }
            pos = pos + rec;
            off = off + rec;
        }
        if off % bs != 0 {
            assert((off / bs + 1) * bs <= off + bs) by (nonlinear_arith)
                requires
                    bs > 0,
            ;
            return AddOut::Next((off / bs + 1) * bs);
        }
        AddOut::Next(off)
    }
}

impl Ext2Fs {
    /// Grow directory `dir` (inode `di`, stored at `o`) with a new block
    /// holding the entry `name -> child`.
    #[verifier::rlimit(60)]
    fn grow_dir(&mut self, dir: u32, di: Ext2Inode, name: &[u8], child: u32, ft: u8, t: u32, Ghost(o): Ghost<int>) -> (r: Result<(), Ext2Error>)
        requires
            old(self).wf(),
            old(self).is_mounted(),
            inode_at(di, old(self).disk(), o),
            name@.len() <= 255,
        ensures
            final(self).wf(),
            final(self).same_geometry(old(self)),
            final(self).is_mounted(),
            old(self).add_new_block_ok(final(self), r, dir, o, name@, child, ft, t),
    {
        proof {
            self.lemma_fields();
            Ext2Fs::lemma_same_geometry_refl(self);
            self.lemma_inode_fields(di, o);
        }
        let ghost s0 = *self;
        let blk = match self.alloc_block() {
            Err(e) => return Err(e),
            Ok(b) => b,
        };
        let ghost s1 = *self;
        proof {
            self.lemma_fields();
            s0.lemma_fields();
            Ext2Fs::lemma_same_geometry_facts(self, &s0);
        }
        let bs = self.block_size as usize;
        let mut bbuf = zero_block();
        write_dirent(bbuf.as_mut_slice(), 0, bs, child, name, ft);
        let _ = self.write_fs_block(blk, bbuf.as_slice());
        let ghost s2 = *self;
        proof {
            self.lemma_fields();
            Ext2Fs::lemma_same_geometry_trans(self, &s1, &s0);
            Ext2Fs::lemma_same_geometry_facts(self, &s0);
        }
        let mut i: usize = 0;
        while i < 12 && di.i_block[i] != 0
            invariant
                i <= 12,
                di.i_block@.len() == 15,
                free_slot(di.i_block@, 0) == free_slot(di.i_block@, i as int),
            decreases 12 - i,
        {
            i = i + 1;
        }
        proof {
            let (g, bit) = s0.alloc_scan(0, false)->Ok_0;
            let gd = gd_take_block(s0.group(g));
            let sbn = sb_take_block(s0.sb());
            let d = s0.after_alloc(g, bit, false, gd, sbn);
            assert(s1.disk() == patch(d, blk * s0.bs(), Seq::new(s0.bs() as nat, |i: int| 0u8)));
            assert(bbuf@ == patch(Seq::new(4096, |i: int| 0u8), 0, dirent_bytes(s0.bs(), child, name@, ft)));
            assert(s2.disk() == patch(s1.disk(), blk * s0.bs(), bbuf@.take(s0.bs())));
        }
        if i >= 12 {
            return Err(Ext2Error::NoDirectSlot);
        }
        let mut nd = di;
        nd.i_block[i] = blk;
        nd.i_size = di.i_size.wrapping_add(bs as u32);
        nd.i_blocks = di.i_blocks.wrapping_add((bs / 512) as u32);
        nd.i_atime = t;
        nd.i_ctime = t;
        nd.i_mtime = t;
        let w = self.write_inode(dir, &nd);
        proof {
            self.lemma_fields();
            Ext2Fs::lemma_same_geometry_trans(self, &s2, &s0);
            Ext2Fs::lemma_same_geometry_facts(&s2, &s0);
            assert(nd.i_block@ =~= di.i_block@.update(i as int, blk));
            assert(grown_dir(nd, di, i as int, blk, bs as int, t));
            assert(s2.inode_slot(dir) == s0.inode_slot(dir));
            assert(free_slot(s0.blocks_at(o), 0) == Some(i as int));
            match s0.inode_slot(dir) {
                Err(e) => {
                    assert(w == Err::<(), Ext2Error>(e) && self.disk() == s2.disk());
                },
                Ok(slot) => {
                    assert(self.disk() == s2.with_inode(slot, nd));
                    assert(s2.with_inode(slot, nd) == s0.put_inode(s2.disk(), slot, nd));
                },
            }
            let (g, bit) = s0.alloc_scan(0, false)->Ok_0;
            let gd = gd_take_block(s0.group(g));
            let sbn = sb_take_block(s0.sb());
            let d = s0.after_alloc(g, bit, false, gd, sbn);
            let d0 = patch(d, blk * s0.bs(), Seq::new(s0.bs() as nat, |i: int| 0u8));
            let d1 = patch(d0, blk * s0.bs(), patch(Seq::new(4096, |i: int| 0u8), 0, dirent_bytes(s0.bs(), child, name@, ft)).take(s0.bs()));
            assert(s2.disk() == d1);
            assert(inode_at(di, s0.disk(), o) && grown_dir(nd, di, i as int, blk, bs as int, t) && match s0.inode_slot(dir) {
                Err(e) => w == Err::<(), Ext2Error>(e) && self.disk() == d1,
                Ok(slot) => w == Ok::<(), Ext2Error>(()) && self.disk() == s0.put_inode(d1, slot, nd),
            });
            assert(self.sb() == s1.sb());
            assert(self.group(g) == s1.group(g));
            assert forall|k: int| 0 <= k < MAX_GROUPS && k != g implies #[trigger] self.group(k) == s0.group(k) by {
                assert(self.group(k) == s1.group(k));
            }
            assert(s0.block_data(blk as int) is Some);
            assert(blk == (s0.first_data() + g * s0.bpg() + bit) as u32);
            assert(self.group(g) == gd);
            assert(self.sb() == sbn);
            assert(exists|x: Ext2Inode, y: Ext2Inode| inode_at(x, s0.disk(), o) && grown_dir(y, x, i as int, blk, s0.bs(), t) && match s0.inode_slot(dir) {
                Err(e) => w == Err::<(), Ext2Error>(e) && self.disk() == d1,
                Ok(slot) => w == Ok::<(), Ext2Error>(()) && self.disk() == s0.put_inode(d1, slot, y),
            });
            assert(s0 == *old(self));
            assert(d1 == s0.block_written(d, blk, name@, child, ft));
            s0.lemma_grown_disk(self, w, dir, o, blk, d1, t, i as int, di, nd);
            assert(s0.grown_ok(self, w, dir, o, name@, child, ft, t, g, bit));
        }
        w
    }

    /// Add the entry `name -> child` (file type `ft`) to directory `dir`:
    /// into a free record or the slack after a record, else into a new block.
    #[verifier::rlimit(60)]
    pub fn dir_add_entry(&mut self, dir: u32, name: &[u8], child: u32, ft: u8, t: u32) -> (r: Result<(), Ext2Error>)
        requires
            old(self).wf(),
            old(self).is_mounted(),
        ensures
            final(self).wf(),
            final(self).same_geometry(old(self)),
            final(self).is_mounted(),
            old(self).add_entry_ok(final(self), r, dir, name@, child, ft, t),
    {
        proof {
            self.lemma_fields();
            Ext2Fs::lemma_same_geometry_refl(self);
        }
        if name.len() == 0 || name.len() > 255 {
            return Err(Ext2Error::BadName);
        }
        let inode = match self.read_inode(dir) {
            Err(e) => return Err(e),
            Ok(i) => i,
        };
        let ghost o = self.inode_pos(dir)->Ok_0;
        let ghost blocks = self.blocks_at(o);
        proof {
            self.lemma_inode_fields(inode, o);
        }
        if inode.i_mode & S_IFMT != S_IFDIR {
            return Err(Ext2Error::NotDirectory);
        }
        let bs = self.block_size as u64;
        let need = dirent_rec_len(name.len()) as u64;
        let size = inode.i_size as u64;
        let mut off: u64 = 0;
        while off < size
            invariant
                self.wf(),
                self.is_mounted(),
                *self == *old(self),
                self.same_geometry(old(self)),
                inode.i_block@ == blocks,
                old(self).inode_pos(dir) == Ok::<int, Ext2Error>(o),
                blocks == old(self).blocks_at(o),
                old(self).mode_at(o) & S_IFMT == S_IFDIR,
                size == self.size_at(o),
                bs == self.bs(),
                1024 <= bs <= 4096,
                size <= u32::MAX,
                need == rec_len_for(name@.len() as int),
                0 < name@.len() <= 255,
                off <= size,
                old(self).add_walk(blocks, size as int, 0, need as int, name@, child, ft) == old(self).add_walk(
                    blocks,
                    size as int,
                    off as int,
                    need as int,
                    name@,
                    child,
                    ft,
                ),
            decreases size - off,
        {
            let lb = off / bs;
            let boff = off % bs;
            assert(lb <= u32::MAX && lb * bs + boff == off) by (nonlinear_arith)
                requires
                    off < size,
                    size <= u32::MAX,
                    bs >= 1,
                    lb == off / bs,
                    boff == off % bs,
            ;
            if lb >= 12 {
                return Err(Ext2Error::DirTooLarge);
            }
            let block = inode.i_block[lb as usize];
            if block == 0 {
                off = size;
            } else {
                let bm = match self.read_scratch(block) {
                    Err(e) => return Err(e),
                    Ok(v) => v,
                };
                match self.add_in_block(bm, lb, boff, size, need, name, child, ft) {
                    AddOut::Fail(e) => return Err(e),
                    AddOut::Found(nb) => {
                        proof {
                            let bb = self.block_data(block as int)->Some_0;
                            assert(old(self).add_walk(blocks, size as int, off as int, need as int, name@, child, ft)
                                == AddPlace::InBlock(block as int, nb@));
                        }
                        let w = self.write_fs_block(block, nb.as_slice());
                        return w;
                    },
                    AddOut::Next(o2) => {
                        if o2 <= off {
                            return Err(Ext2Error::CorruptDirectory);
                        }
                        if o2 >= size {
                            off = size;
                        } else {
                            off = o2;
                        }
                    },
                }
            }
        }
        self.grow_dir(dir, inode, name, child, ft, t, Ghost(o))
    }
}

/// Index of the last `/` in `p` before `k`, if any.
pub open spec fn last_slash(p: Seq<u8>, k: int) -> Option<int>
    decreases k,
{
    if k <= 0 || k > p.len() {
        None
    } else if p[k - 1] == 47 {
        Some(k - 1)
    } else {
        last_slash(p, k - 1)
    }
}

/// `Ok(x)` for a successful `w`, else its error.
pub open spec fn res_map(w: Result<(), Ext2Error>, x: u32) -> Result<u32, Ext2Error> {
    match w {
        Ok(_) => Ok(x),
        Err(e) => Err(e),
    }
}

/// `n` is the inode a fresh regular file gets at time `t`.
pub open spec fn fresh_file(n: Ext2Inode, t: u32) -> bool {
    &&& n.i_mode == (S_IFREG | 0o644)
    &&& n.i_uid == 0
    &&& n.i_size == 0
    &&& n.i_atime == t
    &&& n.i_ctime == t
    &&& n.i_mtime == t
    &&& n.i_dtime == 0
    &&& n.i_gid == 0
    &&& n.i_links_count == 1
    &&& n.i_blocks == 0
    &&& n.i_flags == 0
    &&& n.i_osd1 == 0
    &&& n.i_block@ == Seq::new(15, |k: int| 0u32)
    &&& n.i_generation == 0
    &&& n.i_file_acl == 0
    &&& n.i_dir_acl == 0
    &&& n.i_faddr == 0
    &&& n.i_osd2@ == Seq::new(12, |k: int| 0u8)
}

fn fresh_file_inode(t: u32) -> (n: Ext2Inode)
    ensures
        fresh_file(n, t),
{
    let n = Ext2Inode {
        i_mode: S_IFREG | 0o644,
        i_uid: 0,
        i_size: 0,
        i_atime: t,
        i_ctime: t,
        i_mtime: t,
        i_dtime: 0,
        i_gid: 0,
        i_links_count: 1,
        i_blocks: 0,
        i_flags: 0,
        i_osd1: 0,
        i_block: [0u32; 15],
        i_generation: 0,
        i_file_acl: 0,
        i_dir_acl: 0,
        i_faddr: 0,
        i_osd2: [0u8; 12],
    };
    assert(n.i_block@ =~= Seq::new(15, |k: int| 0u32));
    assert(n.i_osd2@ =~= Seq::new(12, |k: int| 0u8));
    n
}

impl Ext2Fs {
    /// Outcome of splitting `p` into parent directory and last name.
    pub open spec fn split_spec(&self, cwd: u32, p: Seq<u8>) -> Result<(u32, Seq<u8>), Ext2Error> {
        if p.len() == 0 || p == "/".spec_bytes() {
            Err(Ext2Error::InvalidPath)
        } else {
            match last_slash(p, p.len() as int) {
                None => Ok((cwd, p)),
                Some(k) => {
                    let name = p.skip(k + 1);
                    let dir = p.take(k);
                    if name.len() == 0 {
                        Err(Ext2Error::InvalidName)
                    } else if dir.len() == 0 {
                        Ok((ROOT_INODE, name))
                    } else {
                        match self.resolve_spec(cwd, dir) {
                            Err(e) => Err(e),
                            Ok(parent) => Ok((parent, name)),
                        }
                    }
                },
            }
        }
    }

    /// Split an already trimmed path into parent directory inode and last name.
    pub fn split_parent_name_trimmed<'a>(&self, cwd: u32, p: &'a [u8]) -> (r: Result<(u32, &'a [u8]), Ext2Error>)
        requires
            self.wf(),
        ensures
            match self.split_spec(cwd, p@) {
                Err(e) => r matches Err(x) && x == e,
                Ok((parent, name)) => r matches Ok((x, y)) && x == parent && y@ == name,
            },
    {
        if p.len() == 0 || crate::text::bytes_eq(p, "/".as_bytes()) {
            return Err(Ext2Error::InvalidPath);
        }
        let mut k: usize = p.len();
        while k > 0 && p[k - 1] != 47
            invariant
                k <= p@.len(),
                last_slash(p@, p@.len() as int) == last_slash(p@, k as int),
            decreases k,
        {
            k = k - 1;
        }
        if k == 0 {
            return Ok((cwd, p));
        }
        let pos = k - 1;
        let name = vstd::slice::slice_subrange(p, pos + 1, p.len());
        let dir = vstd::slice::slice_subrange(p, 0, pos);
        assert(name@ =~= p@.skip(pos + 1));
        assert(dir@ =~= p@.take(pos as int));
        if name.len() == 0 {
            return Err(Ext2Error::InvalidName);
        }
        if dir.len() == 0 {
            return Ok((ROOT_INODE, name));
        }
        match self.resolve_bytes(cwd, dir) {
            Err(e) => Err(e),
            Ok(parent) => Ok((parent, name)),
        }
    }

    /// Split `path` (trimmed of white space) into parent directory inode and last name.
    pub fn split_parent_name<'a>(&self, cwd: u32, path: &'a str) -> (r: Result<(u32, &'a [u8]), Ext2Error>)
        requires
            self.wf(),
        ensures
            match self.split_spec(cwd, crate::text::trimmed(path.spec_bytes())) {
                Err(e) => r matches Err(x) && x == e,
                Ok((parent, name)) => r matches Ok((x, y)) && x == parent && y@ == name,
            },
    {
        let t = crate::text::trim(path);
        self.split_parent_name_trimmed(cwd, t.as_bytes())
    }

    /// The state after a successful allocation of bit `bit` of group `g`.
    pub open spec fn alloc_effect(&self, fin: &Ext2Fs, g: int, bit: int, inodes: bool) -> bool {
        let gd = if inodes { gd_take_inode(self.group(g)) } else { gd_take_block(self.group(g)) };
        let sb = if inodes { sb_take_inode(self.sb()) } else { sb_take_block(self.sb()) };
        &&& fin.wf()
        &&& fin.is_mounted()
        &&& fin.same_geometry(self)
        &&& fin.disk() == self.after_alloc(g, bit, inodes, gd, sb)
        &&& fin.group(g) == gd
        &&& forall|k: int| 0 <= k < MAX_GROUPS && k != g ==> #[trigger] fin.group(k) == self.group(k)
        &&& fin.sb() == sb
    }

    /// Outcome of writing inode `i` as inode `ino`.
    pub open spec fn write_inode_ok(&self, fin: &Ext2Fs, w: Result<(), Ext2Error>, ino: u32, i: Ext2Inode) -> bool {
        &&& fin.wf()
        &&& fin.is_mounted()
        &&& fin.same_geometry(self)
        &&& fin.sb() == self.sb()
        &&& forall|g: int| #[trigger] fin.group(g) == self.group(g)
        &&& match self.inode_slot(ino) {
            Err(e) => w == Err::<(), Ext2Error>(e) && fin.disk() == self.disk(),
            Ok(slot) => w == Ok::<(), Ext2Error>(()) && fin.disk() == self.with_inode(slot, i),
        }
    }

    /// `n` is the inode stored at `o` with its three time stamps set to `t`.
    pub open spec fn stamped_from(&self, n: Ext2Inode, o: int, t: u32) -> bool {
        let d = self.disk();
        &&& n.i_mode == le16(d, o)
        &&& n.i_uid == le16(d, o + 2)
        &&& n.i_size == le32(d, o + 4)
        &&& n.i_atime == t
        &&& n.i_ctime == t
        &&& n.i_mtime == t
        &&& n.i_dtime == le32(d, o + 20)
        &&& n.i_gid == le16(d, o + 24)
        &&& n.i_links_count == le16(d, o + 26)
        &&& n.i_blocks == le32(d, o + 28)
        &&& n.i_flags == le32(d, o + 32)
        &&& n.i_osd1 == le32(d, o + 36)
        &&& n.i_block@ == self.blocks_at(o)
        &&& n.i_generation == le32(d, o + 100)
        &&& n.i_file_acl == le32(d, o + 104)
        &&& n.i_dir_acl == le32(d, o + 108)
        &&& n.i_faddr == le32(d, o + 112)
        &&& n.i_osd2@ == d.subrange(o + 116, o + 128)
    }

    /// Outcome of `touch` creating the new file `name` in `parent`.
    pub open spec fn touch_new_ok(&self, fin: &Ext2Fs, r: Result<u32, Ext2Error>, parent: u32, name: Seq<u8>, t: u32) -> bool {
        match self.alloc_scan(0, true) {
            Err(e) => r == Err::<u32, Ext2Error>(e) && fin.unchanged(self),
            Ok((g, bit)) => {
                let ino = (g * self.ipg() + bit + 1) as u32;
                exists|m1: Ext2Fs, m2: Ext2Fs, n: Ext2Inode, w: Result<(), Ext2Error>|
                    #![trigger self.alloc_effect(&m1, g, bit, true), m1.write_inode_ok(&m2, w, ino, n)]
                    self.alloc_effect(&m1, g, bit, true) && fresh_file(n, t) && m1.write_inode_ok(&m2, w, ino, n) && match w {
                        Err(e) => r == Err::<u32, Ext2Error>(e) && fin.unchanged(&m2),
                        Ok(_) => exists|w3: Result<(), Ext2Error>|
                            #[trigger] m2.add_entry_ok(fin, w3, parent, name, ino, EXT2_FT_REG, t) && r == res_map(w3, ino),
                    }
            },
        }
    }

    /// Outcome of `touch(cwd, path)` at time `t`, `p` being the trimmed path.
    pub open spec fn touch_ok(&self, fin: &Ext2Fs, r: Result<u32, Ext2Error>, cwd: u32, p: Seq<u8>, t: u32) -> bool {
        if !self.is_mounted() {
            r == Err::<u32, Ext2Error>(Ext2Error::NotMounted) && fin.unchanged(self)
        } else {
            match self.split_spec(cwd, p) {
                Err(e) => r == Err::<u32, Ext2Error>(e) && fin.unchanged(self),
                Ok((parent, name)) => if name == ".".spec_bytes() || name == "..".spec_bytes() {
                    r == Err::<u32, Ext2Error>(Ext2Error::BadName) && fin.unchanged(self)
                } else {
                    match self.lookup_spec(parent, name) {
                        Ok(ex) => match self.inode_pos(ex) {
                            Err(e) => r == Err::<u32, Ext2Error>(e) && fin.unchanged(self),
                            Ok(o) => exists|n: Ext2Inode, w: Result<(), Ext2Error>|
                                #![trigger self.write_inode_ok(fin, w, ex, n)]
                                self.stamped_from(n, o, t) && self.write_inode_ok(fin, w, ex, n) && r == res_map(w, ex),
                        },
                        Err(_) => self.touch_new_ok(fin, r, parent, name, t),
                    }
                },
            }
        }
    }
}

impl Ext2Fs {
    /// Create an empty regular file at `path` (relative to `cwd`), or, when
    /// it exists, update its time stamps; returns its inode.
    #[verifier::rlimit(60)]
    pub fn touch(&mut self, cwd: u32, path: &str, ticks: u64) -> (r: Result<u32, Ext2Error>)
        requires
            old(self).wf(),
        ensures
            final(self).wf(),
            old(self).touch_ok(final(self), r, cwd, crate::text::trimmed(path.spec_bytes()), stamp(ticks)),
    {
        let t = crate::text::trim(path);
        self.touch_trimmed(cwd, t.as_bytes(), ticks)
    }

    /// `touch` on a path already stripped of surrounding white space.
    pub fn touch_trimmed(&mut self, cwd: u32, path: &[u8], ticks: u64) -> (r: Result<u32, Ext2Error>)
        requires
            old(self).wf(),
        ensures
            final(self).wf(),
            old(self).touch_ok(final(self), r, cwd, path@, stamp(ticks)),
    {
        proof {
            self.lemma_fields();
            Ext2Fs::lemma_same_geometry_refl(self);
        }
        if !self.mounted {
            return Err(Ext2Error::NotMounted);
        }
        let (parent, name) = match self.split_parent_name_trimmed(cwd, path) {
            Err(e) => return Err(e),
            Ok(x) => x,
        };
        if crate::text::bytes_eq(name, ".".as_bytes()) || crate::text::bytes_eq(name, "..".as_bytes()) {
            return Err(Ext2Error::BadName);
        }
        let t = now(ticks);
        match self.lookup_bytes(parent, name) {
            Ok(existing) => {
                let mut node = match self.read_inode(existing) {
                    Err(e) => return Err(e),
                    Ok(i) => i,
                };
                let ghost o = self.inode_pos(existing)->Ok_0;
                proof {
                    self.lemma_inode_fields(node, o);
                }
                node.i_atime = t;
                node.i_ctime = t;
                node.i_mtime = t;
                let ghost s0 = *self;
                let w = self.write_inode(existing, &node);
                proof {
                    assert(s0.stamped_from(node, o, t));
                    assert(s0.write_inode_ok(self, w, existing, node));
                }
                match w {
                    Ok(()) => Ok(existing),
                    Err(e) => Err(e),
                }
            },
            Err(_) => {
                let ghost s0 = *self;
                let ino = match self.alloc_inode() {
                    Err(e) => return Err(e),
                    Ok(i) => i,
                };
                let ghost m1 = *self;
                let ghost gb = s0.alloc_scan(0, true)->Ok_0;
                proof {
                    assert(s0.alloc_effect(&m1, gb.0, gb.1, true));
                }
                let node = fresh_file_inode(t);
                let w = self.write_inode(ino, &node);
                let ghost m2 = *self;
                proof {
                    assert(m1.write_inode_ok(&m2, w, ino, node));
                }
                match w {
                    Err(e) => {
                        return Err(e);
                    },
                    Ok(()) => {},
                }
                let w3 = self.dir_add_entry(parent, name, ino, EXT2_FT_REG, t);
                proof {
                    assert(m2.add_entry_ok(self, w3, parent, name@, ino, EXT2_FT_REG, t));
                }
                match w3 {
                    Ok(()) => Ok(ino),
                    Err(e) => Err(e),
                }
            },
        }
    }
}
} // verus!
