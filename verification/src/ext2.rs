//! ext2 reader over a disk image held in memory: superblock and group
//! descriptors, inodes, block maps (direct, single and double indirect), file
//! reads, directory walks and path lookup.

use vstd::prelude::*;
use vstd::string::StringSliceAdditionalSpecFns;
use crate::vfs::{FsNode, NodeType, name_area};
use crate::text::{utf8_text, bytes_eq};

verus! {

pub const ROOT_INODE: u32 = 2;
pub const EXT2_SUPER_MAGIC: u16 = 0xEF53;
/// Group descriptors kept in memory.
pub const MAX_GROUPS: usize = 32;
/// Largest block size the reader accepts.
pub const MAX_BLOCK_SIZE: u32 = 4096;
pub const SECTOR: u32 = 512;

pub const EXT2_FT_REG: u8 = 1;
pub const EXT2_FT_DIR: u8 = 2;
pub const EXT2_FT_CHR: u8 = 3;
pub const EXT2_FT_BLK: u8 = 4;
pub const EXT2_FT_FIFO: u8 = 5;
pub const EXT2_FT_SOCK: u8 = 6;
pub const EXT2_FT_SYMLINK: u8 = 7;

pub const S_IFMT: u16 = 0xF000;
pub const S_IFREG: u16 = 0x8000;
pub const S_IFDIR: u16 = 0x4000;
pub const S_IFLNK: u16 = 0xA000;

/// Linux `d_type` values.
pub const DT_UNKNOWN: u8 = 0;
pub const DT_FIFO: u8 = 1;
pub const DT_CHR: u8 = 2;
pub const DT_DIR: u8 = 4;
pub const DT_BLK: u8 = 6;
pub const DT_REG: u8 = 8;
pub const DT_LNK: u8 = 10;
pub const DT_SOCK: u8 = 12;

/// Why an ext2 operation failed.
#[derive(Clone, Copy, Debug, PartialEq, Eq, Structural)]
pub enum Ext2Error {
    /// The disk could not deliver a block.
    Io,
    SuperblockRead,
    BadMagic,
    BlockSizeTooLarge,
    BadInode,
    GroupOutOfRange,
    InodeSpansBlocks,
    BufferSmall,
    BadBlockSize,
    PointerOutOfRange,
    NeedsTripleIndirect,
    NotDirectory,
    NotFound,
    /// A directory record that cannot be walked past.
    CorruptDirectory,
    NotMounted,
    NoFreeBlocks,
    NoFreeInodes,
    BadName,
    InvalidPath,
    InvalidName,
    Exists,
    IsDirectory,
    NotEmpty,
    DirTooLarge,
    NoDirectSlot,
    CannotRemoveDot,
    BadBlockFree,
    BadIno,
}

impl Ext2Error {
    /// The text of this error.
    pub open spec fn text(&self) -> Seq<char> {
        match *self {
            Ext2Error::Io => "IDE read timeout/error"@,
            Ext2Error::SuperblockRead => "IDE read sb"@,
            Ext2Error::BadMagic => "not ext2 (bad magic)"@,
            Ext2Error::BlockSizeTooLarge => "block size too large for bcache"@,
            Ext2Error::BadInode => "bad inode"@,
            Ext2Error::GroupOutOfRange => "group OOB"@,
            Ext2Error::InodeSpansBlocks => "inode spans"@,
            Ext2Error::BufferSmall => "block buffer small"@,
            Ext2Error::BadBlockSize => "bad block size"@,
            Ext2Error::PointerOutOfRange => "block ptr OOB"@,
            Ext2Error::NeedsTripleIndirect => "file too large (need triple indirect)"@,
            Ext2Error::NotDirectory => "not a directory"@,
            Ext2Error::NotFound => "not found"@,
            Ext2Error::CorruptDirectory => "corrupt directory"@,
            Ext2Error::NotMounted => "not mounted"@,
            Ext2Error::NoFreeBlocks => "no free blocks"@,
            Ext2Error::NoFreeInodes => "no free inodes"@,
            Ext2Error::BadName => "bad name"@,
            Ext2Error::InvalidPath => "invalid path"@,
            Ext2Error::InvalidName => "invalid name"@,
            Ext2Error::Exists => "exists"@,
            Ext2Error::IsDirectory => "is a directory (use rmdir)"@,
            Ext2Error::NotEmpty => "directory not empty"@,
            Ext2Error::DirTooLarge => "dir too large"@,
            Ext2Error::NoDirectSlot => "no direct block slot"@,
            Ext2Error::CannotRemoveDot => "cannot remove . or .."@,
            Ext2Error::BadBlockFree => "bad block free"@,
            Ext2Error::BadIno => "bad ino"@,
        }
    }

    pub fn as_str(&self) -> (r: &'static str)
        ensures
            r@ == self.text(),
    {
        match self {
            Ext2Error::Io => "IDE read timeout/error",
            Ext2Error::SuperblockRead => "IDE read sb",
            Ext2Error::BadMagic => "not ext2 (bad magic)",
            Ext2Error::BlockSizeTooLarge => "block size too large for bcache",
            Ext2Error::BadInode => "bad inode",
            Ext2Error::GroupOutOfRange => "group OOB",
            Ext2Error::InodeSpansBlocks => "inode spans",
            Ext2Error::BufferSmall => "block buffer small",
            Ext2Error::BadBlockSize => "bad block size",
            Ext2Error::PointerOutOfRange => "block ptr OOB",
            Ext2Error::NeedsTripleIndirect => "file too large (need triple indirect)",
            Ext2Error::NotDirectory => "not a directory",
            Ext2Error::NotFound => "not found",
            Ext2Error::CorruptDirectory => "corrupt directory",
            Ext2Error::NotMounted => "not mounted",
            Ext2Error::NoFreeBlocks => "no free blocks",
            Ext2Error::NoFreeInodes => "no free inodes",
            Ext2Error::BadName => "bad name",
            Ext2Error::InvalidPath => "invalid path",
            Ext2Error::InvalidName => "invalid name",
            Ext2Error::Exists => "exists",
            Ext2Error::IsDirectory => "is a directory (use rmdir)",
            Ext2Error::NotEmpty => "directory not empty",
            Ext2Error::DirTooLarge => "dir too large",
            Ext2Error::NoDirectSlot => "no direct block slot",
            Ext2Error::CannotRemoveDot => "cannot remove . or ..",
            Ext2Error::BadBlockFree => "bad block free",
            Ext2Error::BadIno => "bad ino",
        }
    }
}

/// Little-endian 16-bit value at `o`.
pub open spec fn le16(d: Seq<u8>, o: int) -> int {
    d[o] + 256 * d[o + 1]
}

/// Little-endian 32-bit value at `o`.
pub open spec fn le32(d: Seq<u8>, o: int) -> int {
    d[o] + 256 * d[o + 1] + 65536 * d[o + 2] + 16777216 * d[o + 3]
}

pub fn read_u16_le(b: &[u8], off: usize) -> (r: u16)
    requires
        off + 2 <= b@.len(),
    ensures
        r == le16(b@, off as int),
{
    (b[off] as u16) + (b[off + 1] as u16) * 256
}

pub fn read_u32_le(b: &[u8], off: usize) -> (r: u32)
    requires
        off + 4 <= b@.len(),
    ensures
        r == le32(b@, off as int),
{
    (b[off] as u32) + (b[off + 1] as u32) * 256 + (b[off + 2] as u32) * 65536 + (b[off + 3] as u32) * 16777216
}

/// The on-disk superblock (the fields this reader uses and their neighbours).
#[derive(Clone, Copy)]
pub struct Ext2Superblock {
    pub s_inodes_count: u32,
    pub s_blocks_count: u32,
    pub s_r_blocks_count: u32,
    pub s_free_blocks_count: u32,
    pub s_free_inodes_count: u32,
    pub s_first_data_block: u32,
    pub s_log_block_size: u32,
    pub s_log_frag_size: u32,
    pub s_blocks_per_group: u32,
    pub s_frags_per_group: u32,
    pub s_inodes_per_group: u32,
    pub s_mtime: u32,
    pub s_wtime: u32,
    pub s_mnt_count: u16,
    pub s_max_mnt_count: u16,
    pub s_magic: u16,
    pub s_state: u16,
    pub s_errors: u16,
    pub s_minor_rev_level: u16,
    pub s_lastcheck: u32,
    pub s_checkinterval: u32,
    pub s_creator_os: u32,
    pub s_rev_level: u32,
    pub s_def_resuid: u16,
    pub s_def_resgid: u16,
    pub s_first_ino: u32,
    pub s_inode_size: u16,
    pub s_block_group_nr: u16,
}

/// `sb` holds the superblock fields stored at `o` in `d`.
pub open spec fn superblock_at(sb: Ext2Superblock, d: Seq<u8>, o: int) -> bool {
    &&& sb.s_inodes_count == le32(d, o)
    &&& sb.s_blocks_count == le32(d, o + 4)
    &&& sb.s_r_blocks_count == le32(d, o + 8)
    &&& sb.s_free_blocks_count == le32(d, o + 12)
    &&& sb.s_free_inodes_count == le32(d, o + 16)
    &&& sb.s_first_data_block == le32(d, o + 20)
    &&& sb.s_log_block_size == le32(d, o + 24)
    &&& sb.s_log_frag_size == le32(d, o + 28)
    &&& sb.s_blocks_per_group == le32(d, o + 32)
    &&& sb.s_frags_per_group == le32(d, o + 36)
    &&& sb.s_inodes_per_group == le32(d, o + 40)
    &&& sb.s_mtime == le32(d, o + 44)
    &&& sb.s_wtime == le32(d, o + 48)
    &&& sb.s_mnt_count == le16(d, o + 52)
    &&& sb.s_max_mnt_count == le16(d, o + 54)
    &&& sb.s_magic == le16(d, o + 56)
    &&& sb.s_state == le16(d, o + 58)
    &&& sb.s_errors == le16(d, o + 60)
    &&& sb.s_minor_rev_level == le16(d, o + 62)
    &&& sb.s_lastcheck == le32(d, o + 64)
    &&& sb.s_checkinterval == le32(d, o + 68)
    &&& sb.s_creator_os == le32(d, o + 72)
    &&& sb.s_rev_level == le32(d, o + 76)
    &&& sb.s_def_resuid == le16(d, o + 80)
    &&& sb.s_def_resgid == le16(d, o + 82)
    &&& sb.s_first_ino == le32(d, o + 84)
    &&& sb.s_inode_size == le16(d, o + 88)
    &&& sb.s_block_group_nr == le16(d, o + 90)
}

/// Decode the superblock stored at `o`.
pub fn parse_superblock(d: &[u8], o: usize) -> (sb: Ext2Superblock)
    requires
        o + 92 <= d@.len(),
    ensures
        superblock_at(sb, d@, o as int),
{
    let _dl = d.len();
    Ext2Superblock {
        s_inodes_count: read_u32_le(d, o),
        s_blocks_count: read_u32_le(d, o + 4),
        s_r_blocks_count: read_u32_le(d, o + 8),
        s_free_blocks_count: read_u32_le(d, o + 12),
        s_free_inodes_count: read_u32_le(d, o + 16),
        s_first_data_block: read_u32_le(d, o + 20),
        s_log_block_size: read_u32_le(d, o + 24),
        s_log_frag_size: read_u32_le(d, o + 28),
        s_blocks_per_group: read_u32_le(d, o + 32),
        s_frags_per_group: read_u32_le(d, o + 36),
        s_inodes_per_group: read_u32_le(d, o + 40),
        s_mtime: read_u32_le(d, o + 44),
        s_wtime: read_u32_le(d, o + 48),
        s_mnt_count: read_u16_le(d, o + 52),
        s_max_mnt_count: read_u16_le(d, o + 54),
        s_magic: read_u16_le(d, o + 56),
        s_state: read_u16_le(d, o + 58),
        s_errors: read_u16_le(d, o + 60),
        s_minor_rev_level: read_u16_le(d, o + 62),
        s_lastcheck: read_u32_le(d, o + 64),
        s_checkinterval: read_u32_le(d, o + 68),
        s_creator_os: read_u32_le(d, o + 72),
        s_rev_level: read_u32_le(d, o + 76),
        s_def_resuid: read_u16_le(d, o + 80),
        s_def_resgid: read_u16_le(d, o + 82),
        s_first_ino: read_u32_le(d, o + 84),
        s_inode_size: read_u16_le(d, o + 88),
        s_block_group_nr: read_u16_le(d, o + 90),
    }
}

/// One block-group descriptor (32 bytes on disk).
#[derive(Clone, Copy)]
pub struct Ext2GroupDesc {
    pub bg_block_bitmap: u32,
    pub bg_inode_bitmap: u32,
    pub bg_inode_table: u32,
    pub bg_free_blocks_count: u16,
    pub bg_free_inodes_count: u16,
    pub bg_used_dirs_count: u16,
    pub bg_pad: u16,
    pub bg_reserved: [u32; 3],
}

pub open spec fn group_at(g: Ext2GroupDesc, d: Seq<u8>, o: int) -> bool {
    &&& g.bg_block_bitmap == le32(d, o)
    &&& g.bg_inode_bitmap == le32(d, o + 4)
    &&& g.bg_inode_table == le32(d, o + 8)
    &&& g.bg_free_blocks_count == le16(d, o + 12)
    &&& g.bg_free_inodes_count == le16(d, o + 14)
    &&& g.bg_used_dirs_count == le16(d, o + 16)
    &&& g.bg_pad == le16(d, o + 18)
    &&& g.bg_reserved@ == seq![le32(d, o + 20) as u32, le32(d, o + 24) as u32, le32(d, o + 28) as u32]
}

pub fn parse_group(d: &[u8], o: usize) -> (g: Ext2GroupDesc)
    requires
        o + 32 <= d@.len(),
    ensures
        group_at(g, d@, o as int),
{
    let _dl = d.len();
    let g = Ext2GroupDesc {
        bg_block_bitmap: read_u32_le(d, o),
        bg_inode_bitmap: read_u32_le(d, o + 4),
        bg_inode_table: read_u32_le(d, o + 8),
        bg_free_blocks_count: read_u16_le(d, o + 12),
        bg_free_inodes_count: read_u16_le(d, o + 14),
        bg_used_dirs_count: read_u16_le(d, o + 16),
        bg_pad: read_u16_le(d, o + 18),
        bg_reserved: [read_u32_le(d, o + 20), read_u32_le(d, o + 24), read_u32_le(d, o + 28)],
    };
    assert(g.bg_reserved@ =~= seq![le32(d@, o + 20) as u32, le32(d@, o + 24) as u32, le32(d@, o + 28) as u32]);
    g
}

fn zero_group() -> (g: Ext2GroupDesc)
    ensures
        g.bg_block_bitmap == 0,
        g.bg_inode_bitmap == 0,
        g.bg_inode_table == 0,
        g.bg_free_blocks_count == 0,
        g.bg_free_inodes_count == 0,
        g.bg_used_dirs_count == 0,
        g.bg_pad == 0,
        g.bg_reserved@ == seq![0u32, 0u32, 0u32],
{
    Ext2GroupDesc {
        bg_block_bitmap: 0,
        bg_inode_bitmap: 0,
        bg_inode_table: 0,
        bg_free_blocks_count: 0,
        bg_free_inodes_count: 0,
        bg_used_dirs_count: 0,
        bg_pad: 0,
        bg_reserved: [0u32, 0u32, 0u32],
    }
}

/// One on-disk inode (128 bytes).
#[derive(Clone, Copy)]
pub struct Ext2Inode {
    pub i_mode: u16,
    pub i_uid: u16,
    pub i_size: u32,
    pub i_atime: u32,
    pub i_ctime: u32,
    pub i_mtime: u32,
    pub i_dtime: u32,
    pub i_gid: u16,
    pub i_links_count: u16,
    pub i_blocks: u32,
    pub i_flags: u32,
    pub i_osd1: u32,
    pub i_block: [u32; 15],
    pub i_generation: u32,
    pub i_file_acl: u32,
    pub i_dir_acl: u32,
    pub i_faddr: u32,
    pub i_osd2: [u8; 12],
}

pub open spec fn inode_at(i: Ext2Inode, d: Seq<u8>, o: int) -> bool {
    &&& i.i_mode == le16(d, o)
    &&& i.i_uid == le16(d, o + 2)
    &&& i.i_size == le32(d, o + 4)
    &&& i.i_atime == le32(d, o + 8)
    &&& i.i_ctime == le32(d, o + 12)
    &&& i.i_mtime == le32(d, o + 16)
    &&& i.i_dtime == le32(d, o + 20)
    &&& i.i_gid == le16(d, o + 24)
    &&& i.i_links_count == le16(d, o + 26)
    &&& i.i_blocks == le32(d, o + 28)
    &&& i.i_flags == le32(d, o + 32)
    &&& i.i_osd1 == le32(d, o + 36)
    &&& i.i_block@.len() == 15
    &&& forall|k: int| 0 <= k < 15 ==> #[trigger] i.i_block@[k] == le32(d, o + 40 + 4 * k)
    &&& i.i_generation == le32(d, o + 100)
    &&& i.i_file_acl == le32(d, o + 104)
    &&& i.i_dir_acl == le32(d, o + 108)
    &&& i.i_faddr == le32(d, o + 112)
    &&& i.i_osd2@ == d.subrange(o + 116, o + 128)
}

pub fn parse_inode(d: &[u8], o: usize) -> (i: Ext2Inode)
    requires
        o + 128 <= d@.len(),
    ensures
        inode_at(i, d@, o as int),
{
    let dl = d.len();
    let mut blocks = [0u32; 15];
    let mut k: usize = 0;
    while k < 15
        invariant
            o + 128 <= d@.len(),
            dl == d@.len(),
            k <= 15,
            blocks@.len() == 15,
            forall|j: int| 0 <= j < k ==> #[trigger] blocks@[j] == le32(d@, o + 40 + 4 * j),
        decreases 15 - k,
    {
        blocks[k] = read_u32_le(d, o + 40 + 4 * k);
        k = k + 1;
    }
    let mut osd2 = [0u8; 12];
    let mut m: usize = 0;
    while m < 12
        invariant
            o + 128 <= d@.len(),
            dl == d@.len(),
            m <= 12,
            osd2@.len() == 12,
            forall|j: int| 0 <= j < m ==> osd2@[j] == d@[o + 116 + j],
        decreases 12 - m,
    {
        osd2[m] = d[o + 116 + m];
        m = m + 1;
    }
    assert(osd2@ =~= d@.subrange(o + 116, o + 128));
    Ext2Inode {
        i_mode: read_u16_le(d, o),
        i_uid: read_u16_le(d, o + 2),
        i_size: read_u32_le(d, o + 4),
        i_atime: read_u32_le(d, o + 8),
        i_ctime: read_u32_le(d, o + 12),
        i_mtime: read_u32_le(d, o + 16),
        i_dtime: read_u32_le(d, o + 20),
        i_gid: read_u16_le(d, o + 24),
        i_links_count: read_u16_le(d, o + 26),
        i_blocks: read_u32_le(d, o + 28),
        i_flags: read_u32_le(d, o + 32),
        i_osd1: read_u32_le(d, o + 36),
        i_block: blocks,
        i_generation: read_u32_le(d, o + 100),
        i_file_acl: read_u32_le(d, o + 104),
        i_dir_acl: read_u32_le(d, o + 108),
        i_faddr: read_u32_le(d, o + 112),
        i_osd2: osd2,
    }
}


/// A mounted (or not yet mounted) ext2 filesystem on an in-memory disk.
pub struct Ext2Fs {
    pub(crate) disk: Vec<u8>,
    pub(crate) superblock: Ext2Superblock,
    pub(crate) block_size: u32,
    pub(crate) inode_size: u16,
    pub(crate) inodes_per_group: u32,
    pub(crate) blocks_per_group: u32,
    pub(crate) groups_count: u32,
    pub(crate) first_data_block: u32,
    pub(crate) mounted: bool,
    pub(crate) groups: Vec<Ext2GroupDesc>,
}

/// The conditions under which mounting `d` cannot fail on arithmetic: a
/// block-size shift below 32, a non-zero group size in blocks and a block
/// count whose round-up to whole groups fits 32 bits.
pub open spec fn mount_arith_ok(d: Seq<u8>) -> bool {
    d.len() >= 2048 && le16(d, 1080) == EXT2_SUPER_MAGIC ==> {
        &&& le32(d, 1048) < 32
        &&& le32(d, 1056) > 0
        &&& le32(d, 1028) + le32(d, 1056) - 1 <= u32::MAX
    }
}

/// Block size given the superblock's log field (0, 1 or 2).
pub open spec fn block_size_for(log: int) -> int {
    if log == 0 {
        1024
    } else if log == 1 {
        2048
    } else {
        4096
    }
}

/// Inode size given the revision and the stored inode size.
pub open spec fn inode_size_for(rev: int, stored: int) -> int {
    if rev < 1 || stored < 128 {
        128
    } else {
        stored
    }
}

/// Block holding the group descriptor table.
pub open spec fn gdt_block_for(bs: int) -> int {
    if bs == 1024 {
        2
    } else {
        1
    }
}

impl Ext2Fs {
    pub closed spec fn disk(&self) -> Seq<u8> {
        self.disk@
    }

    pub closed spec fn bs(&self) -> int {
        self.block_size as int
    }

    pub closed spec fn isz(&self) -> int {
        self.inode_size as int
    }

    pub closed spec fn ipg(&self) -> int {
        self.inodes_per_group as int
    }

    /// Number of block groups, as computed at mount.
    pub closed spec fn groups_total(&self) -> int {
        self.groups_count as int
    }

    pub closed spec fn is_mounted(&self) -> bool {
        self.mounted
    }

    /// Inode-table block of group `g` as loaded at mount.
    pub closed spec fn itable(&self, g: int) -> int {
        self.groups@[g].bg_inode_table as int
    }

    pub closed spec fn wf(&self) -> bool {
        &&& self.groups@.len() == MAX_GROUPS
        &&& self.mounted ==> {
            &&& (self.block_size == 1024 || self.block_size == 2048 || self.block_size == 4096)
            &&& self.blocks_per_group > 0
            &&& self.inode_size >= 128
            &&& self.disk@.len() >= 2048
            &&& (if self.block_size == 1024 { 3072 } else { 2 * self.block_size }) <= self.disk@.len()
        }
    }

    /// A filesystem that is not mounted: every read fails.
    pub fn unmounted() -> (fs: Ext2Fs)
        ensures
            fs.wf(),
            !fs.is_mounted(),
    {
        let mut groups: Vec<Ext2GroupDesc> = Vec::new();
        let mut i: usize = 0;
        while i < MAX_GROUPS
            invariant
                i <= MAX_GROUPS,
                groups@.len() == i,
            decreases MAX_GROUPS - i,
        {
            groups.push(zero_group());
            i = i + 1;
        }
        let z = zero_group();
        Ext2Fs {
            disk: Vec::new(),
            superblock: Ext2Superblock {
                s_inodes_count: 0,
                s_blocks_count: 0,
                s_r_blocks_count: 0,
                s_free_blocks_count: 0,
                s_free_inodes_count: 0,
                s_first_data_block: 0,
                s_log_block_size: 0,
                s_log_frag_size: 0,
                s_blocks_per_group: 0,
                s_frags_per_group: 0,
                s_inodes_per_group: 0,
                s_mtime: 0,
                s_wtime: 0,
                s_mnt_count: 0,
                s_max_mnt_count: 0,
                s_magic: 0,
                s_state: 0,
                s_errors: 0,
                s_minor_rev_level: 0,
                s_lastcheck: 0,
                s_checkinterval: 0,
                s_creator_os: 0,
                s_rev_level: 0,
                s_def_resuid: 0,
                s_def_resgid: 0,
                s_first_ino: 0,
                s_inode_size: 0,
                s_block_group_nr: 0,
            },
            block_size: 1024,
            inode_size: 128,
            inodes_per_group: 0,
            blocks_per_group: 0,
            groups_count: 0,
            first_data_block: 1,
            mounted: false,
            groups,
        }
    }

    /// The in-memory superblock.
    pub closed spec fn sb(&self) -> Ext2Superblock {
        self.superblock
    }

    /// The in-memory descriptor of group `g`.
    pub closed spec fn group(&self, g: int) -> Ext2GroupDesc {
        self.groups@[g]
    }

    /// Groups the allocators scan: `min(groups_count, 32)`.
    pub closed spec fn scan_groups(&self) -> int {
        if self.groups_count < MAX_GROUPS { self.groups_count as int } else { MAX_GROUPS as int }
    }

    pub closed spec fn bpg(&self) -> int {
        self.blocks_per_group as int
    }

    pub closed spec fn first_data(&self) -> int {
        self.first_data_block as int
    }

    /// Everything but the disk bytes, the superblock and the group
    /// descriptors' counters is the same in `self` and `o`.
    pub closed spec fn same_geometry(&self, o: &Ext2Fs) -> bool {
        &&& self.disk@.len() == o.disk@.len()
        &&& self.block_size == o.block_size
        &&& self.inode_size == o.inode_size
        &&& self.inodes_per_group == o.inodes_per_group
        &&& self.blocks_per_group == o.blocks_per_group
        &&& self.groups_count == o.groups_count
        &&& self.first_data_block == o.first_data_block
        &&& self.mounted == o.mounted
        &&& self.groups@.len() == o.groups@.len()
        &&& forall|g: int| 0 <= g < self.groups@.len() ==> {
            &&& (#[trigger] self.groups@[g]).bg_inode_table == o.groups@[g].bg_inode_table
            &&& self.groups@[g].bg_block_bitmap == o.groups@[g].bg_block_bitmap
            &&& self.groups@[g].bg_inode_bitmap == o.groups@[g].bg_inode_bitmap
        }
    }

    pub(crate) proof fn lemma_same_geometry(&self, o: &Ext2Fs)
        ensures
            self.same_geometry(o) == {
                &&& self.disk@.len() == o.disk@.len()
                &&& self.block_size == o.block_size
                &&& self.inode_size == o.inode_size
                &&& self.inodes_per_group == o.inodes_per_group
                &&& self.blocks_per_group == o.blocks_per_group
                &&& self.groups_count == o.groups_count
                &&& self.first_data_block == o.first_data_block
                &&& self.mounted == o.mounted
                &&& self.groups@.len() == o.groups@.len()
                &&& forall|g: int| 0 <= g < self.groups@.len() ==> {
                    &&& (#[trigger] self.groups@[g]).bg_inode_table == o.groups@[g].bg_inode_table
                    &&& self.groups@[g].bg_block_bitmap == o.groups@[g].bg_block_bitmap
                    &&& self.groups@[g].bg_inode_bitmap == o.groups@[g].bg_inode_bitmap
                }
            },
    {
    }

    pub(crate) proof fn lemma_same_geometry_trans(a: &Ext2Fs, b: &Ext2Fs, c: &Ext2Fs)
        requires
            a.same_geometry(b),
            b.same_geometry(c),
        ensures
            a.same_geometry(c),
            c.same_geometry(c),
    {
    }

    pub(crate) proof fn lemma_same_geometry_refl(a: &Ext2Fs)
        ensures
            a.same_geometry(a),
    {
    }

    /// Filesystems of the same geometry agree on everything the readers
    /// use besides the disk bytes.
    pub(crate) proof fn lemma_same_geometry_facts(a: &Ext2Fs, b: &Ext2Fs)
        requires
            a.same_geometry(b),
        ensures
            a.bs() == b.bs(),
            a.isz() == b.isz(),
            a.ipg() == b.ipg(),
            a.bpg() == b.bpg(),
            a.first_data() == b.first_data(),
            a.is_mounted() == b.is_mounted(),
            a.scan_groups() == b.scan_groups(),
            a.disk().len() == b.disk().len(),
            a.wf() ==> forall|g: int| 0 <= g < MAX_GROUPS ==> #[trigger] a.itable(g) == b.itable(g),
    {
    }

    /// The spec accessors read the fields.
    pub(crate) proof fn lemma_fields(&self)
        ensures
            self.sb() == self.superblock,
            forall|g: int| #[trigger] self.group(g) == self.groups@[g],
            self.scan_groups() == (if self.groups_count < MAX_GROUPS { self.groups_count as int } else { MAX_GROUPS as int }),
            self.bpg() == self.blocks_per_group as int,
            self.first_data() == self.first_data_block as int,
            self.disk() == self.disk@,
            self.bs() == self.block_size as int,
            self.isz() == self.inode_size as int,
            self.ipg() == self.inodes_per_group as int,
            self.is_mounted() == self.mounted,
            forall|g: int| #[trigger] self.itable(g) == self.groups@[g].bg_inode_table as int,
            self.wf() == (self.groups@.len() == MAX_GROUPS && (self.mounted ==> {
                &&& (self.block_size == 1024 || self.block_size == 2048 || self.block_size == 4096)
                &&& self.blocks_per_group > 0
                &&& self.inode_size >= 128
                &&& self.disk@.len() >= 2048
                &&& (if self.block_size == 1024 { 3072 } else { 2 * self.block_size }) <= self.disk@.len()
            })),
    {
    }

    /// Bytes of block `b`, when the disk holds it.
    pub open spec fn block_data(&self, b: int) -> Option<Seq<u8>> {
        if 0 <= b && b * self.bs() + self.bs() <= self.disk().len() {
            Some(self.disk().subrange(b * self.bs(), b * self.bs() + self.bs()))
        } else {
            None
        }
    }

    /// Mount the filesystem on `disk`.
    pub fn mount(disk: Vec<u8>) -> (r: Result<Ext2Fs, Ext2Error>)
        requires
            mount_arith_ok(disk@),
        ensures
            ({
                let d = disk@;
                if d.len() < 2048 {
                    r == Err::<Ext2Fs, Ext2Error>(Ext2Error::SuperblockRead)
                } else if le16(d, 1080) != EXT2_SUPER_MAGIC {
                    r == Err::<Ext2Fs, Ext2Error>(Ext2Error::BadMagic)
                } else if le32(d, 1048) > 2 {
                    r == Err::<Ext2Fs, Ext2Error>(
                        if le32(d, 1048) < 22 { Ext2Error::BlockSizeTooLarge } else { Ext2Error::BadBlockSize },
                    )
                } else {
                    let bs = block_size_for(le32(d, 1048));
                    let gdt = gdt_block_for(bs);
                    let ngroups = (le32(d, 1028) + le32(d, 1056) - 1) / le32(d, 1056);
                    if (gdt + 1) * bs > d.len() {
                        r == Err::<Ext2Fs, Ext2Error>(Ext2Error::Io)
                    } else {
                        r matches Ok(fs) && {
                            &&& fs.wf()
                            &&& fs.is_mounted()
                            &&& fs.disk() == d
                            &&& fs.bs() == bs
                            &&& fs.ipg() == le32(d, 1064)
                            &&& fs.bpg() == le32(d, 1056)
                            &&& fs.groups_total() == ngroups
                            &&& fs.isz() == inode_size_for(le32(d, 1100), le16(d, 1112))
                            &&& forall|g: int|
                                0 <= g < MAX_GROUPS ==> #[trigger] fs.itable(g) == (if g < ngroups {
                                    le32(d, gdt * bs + 32 * g + 8)
                                } else {
                                    0
                                })
                        }
                    }
                }
            }),
    {
        let dl = disk.len();
        if dl < 2048 {
            return Err(Ext2Error::SuperblockRead);
        }
        let sb = parse_superblock(disk.as_slice(), 1024);
        if sb.s_magic != EXT2_SUPER_MAGIC {
            return Err(Ext2Error::BadMagic);
        }
        assert(le16(disk@, 1080) == EXT2_SUPER_MAGIC);
        assert(sb.s_blocks_per_group > 0 && sb.s_blocks_count + sb.s_blocks_per_group - 1 <= u32::MAX);
        let log = sb.s_log_block_size;
        if log > 2 {
            if log < 22 {
                return Err(Ext2Error::BlockSizeTooLarge);
            }
            return Err(Ext2Error::BadBlockSize);
        }
        let bs: u32 = if log == 0 {
            1024
        } else if log == 1 {
            2048
        } else {
            4096
        };
        let ipg = sb.s_inodes_per_group;
        let bpg = sb.s_blocks_per_group;
        let groups_count = ((sb.s_blocks_count as u64 + bpg as u64 - 1) / bpg as u64) as u32;
        let mut inode_size: u16 = 128;
        if sb.s_rev_level >= 1 {
            inode_size = sb.s_inode_size;
            if inode_size < 128 {
                inode_size = 128;
            }
        }
        let gdt: usize = if bs == 1024 { 2 } else { 1 };
        let need: usize = if bs == 1024 { 3072 } else { 2 * (bs as usize) };
        assert(need == (gdt + 1) * bs);
        if need > dl {
            return Err(Ext2Error::Io);
        }
        let n_groups: usize = if (groups_count as usize) < MAX_GROUPS { groups_count as usize } else { MAX_GROUPS };
        let base = gdt * (bs as usize);
        let mut groups: Vec<Ext2GroupDesc> = Vec::new();
        let mut i: usize = 0;
        while i < MAX_GROUPS
            invariant
                dl == disk@.len(),
                base + bs <= dl,
                bs >= 1024,
                n_groups <= MAX_GROUPS,
                n_groups == (if groups_count < MAX_GROUPS { groups_count as int } else { MAX_GROUPS as int }),
                i <= MAX_GROUPS,
                groups@.len() == i,
                forall|g: int|
                    0 <= g < i ==> #[trigger] groups@[g].bg_inode_table == (if g < groups_count {
                        le32(disk@, base + 32 * g + 8)
                    } else {
                        0
                    }),
            decreases MAX_GROUPS - i,
        {
            if i < n_groups {
                let g = parse_group(disk.as_slice(), base + 32 * i);
                groups.push(g);
            } else {
                groups.push(zero_group());
            }
            i = i + 1;
        }
        Ok(Ext2Fs {
            disk,
            superblock: sb,
            block_size: bs,
            inode_size,
            inodes_per_group: ipg,
            blocks_per_group: bpg,
            groups_count,
            first_data_block: sb.s_first_data_block,
            mounted: true,
            groups,
        })
    }

    /// Block size of the mounted filesystem.
    pub fn block_size(&self) -> (r: u32)
        ensures
            r == self.bs(),
    {
        self.block_size
    }

    pub fn mounted(&self) -> (r: bool)
        ensures
            r == self.is_mounted(),
    {
        self.mounted
    }

    /// The disk bytes of block `b` (no copy).
    pub(crate) fn block_slice(&self, b: u64) -> (r: Result<&[u8], Ext2Error>)
        requires
            self.wf(),
            self.is_mounted(),
            b < 0x100_0000_0000,
        ensures
            match self.block_data(b as int) {
                Some(s) => r matches Ok(x) && x@ == s,
                None => r == Err::<&[u8], Ext2Error>(Ext2Error::Io),
            },
    {
        let bs = self.block_size as u64;
        assert(b * bs < 0x100_0000_0000 * 4096) by (nonlinear_arith)
            requires
                b < 0x100_0000_0000,
                bs <= 4096,
        ;
        let start = b * bs;
        assert((b + 1) * bs == b * bs + bs) by (nonlinear_arith);
        let dl = self.disk.len() as u64;
        if start + bs > dl {
            return Err(Ext2Error::Io);
        }
        let s = vstd::slice::slice_subrange(self.disk.as_slice(), start as usize, (start + bs) as usize);
        Ok(s)
    }

    /// Read block `block` of size `bs` into `buf`.
    pub fn read_block(&self, block: u32, bs: u32, buf: &mut [u8]) -> (r: Result<(), Ext2Error>)
        ensures
            ({
                let d = self.disk();
                if old(buf)@.len() < bs {
                    r == Err::<(), Ext2Error>(Ext2Error::BufferSmall) && final(buf)@ == old(buf)@
                } else if bs == 0 || bs > MAX_BLOCK_SIZE || bs % 512 != 0 {
                    r == Err::<(), Ext2Error>(Ext2Error::BadBlockSize) && final(buf)@ == old(buf)@
                } else if (block + 1) * bs > d.len() {
                    r == Err::<(), Ext2Error>(Ext2Error::Io) && final(buf)@ == old(buf)@
                } else {
                    r == Ok::<(), Ext2Error>(()) && final(buf)@ == d.subrange(block * bs, (block + 1) * bs)
                        + old(buf)@.skip(bs as int)
                }
            }),
    {
        if buf.len() < bs as usize {
            return Err(Ext2Error::BufferSmall);
        }
        if bs == 0 || bs > MAX_BLOCK_SIZE || bs % 512 != 0 {
            return Err(Ext2Error::BadBlockSize);
        }
        assert((block as u64) * (bs as u64) <= 0xFFFF_FFFFu64 * 4096) by (nonlinear_arith)
            requires
                block <= 0xFFFF_FFFFu32,
                bs <= 4096,
        ;
        let start = (block as u64) * (bs as u64);
        assert((block + 1) * bs == block * bs + bs) by (nonlinear_arith);
        let end = start + bs as u64;
        if end > self.disk.len() as u64 {
            return Err(Ext2Error::Io);
        }
        let s = start as usize;
        let n = bs as usize;
        let dl = self.disk.len();
        let mut k: usize = 0;
        while k < n
            invariant
                dl == self.disk@.len(),
                n == bs,
                s + n <= self.disk@.len(),
                n <= buf@.len(),
                buf@.len() == old(buf)@.len(),
                k <= n,
                forall|j: int| 0 <= j < k ==> buf@[j] == self.disk@[s + j],
                forall|j: int| n <= j < buf@.len() ==> buf@[j] == old(buf)@[j],
            decreases n - k,
        {
            buf[k] = self.disk[s + k];
            k = k + 1;
        }
        assert(buf@ =~= self.disk@.subrange(s as int, s + n) + old(buf)@.skip(n as int));
        Ok(())
    }

    /// Disk offset of inode `ino`, or why it cannot be read (with no
    /// inodes per group, no inode number is valid).
    pub closed spec fn inode_pos(&self, ino: u32) -> Result<int, Ext2Error> {
        if !self.is_mounted() || ino == 0 || self.ipg() == 0 {
            Err(Ext2Error::BadInode)
        } else {
            let group = (ino - 1) / self.ipg();
            let index = (ino - 1) % self.ipg();
            if group >= MAX_GROUPS {
                Err(Ext2Error::GroupOutOfRange)
            } else {
                let byte_off = index * self.isz();
                let block = self.itable(group) + byte_off / self.bs();
                let off = byte_off % self.bs();
                if self.block_data(block) is None {
                    Err(Ext2Error::Io)
                } else if off + 128 > self.bs() {
                    Err(Ext2Error::InodeSpansBlocks)
                } else {
                    Ok(block * self.bs() + off)
                }
            }
        }
    }

    /// Read inode `ino` (numbered from 1).
    pub fn read_inode(&self, ino: u32) -> (r: Result<Ext2Inode, Ext2Error>)
        requires
            self.wf(),
        ensures
            match self.inode_pos(ino) {
                Ok(o) => r matches Ok(i) && inode_at(i, self.disk(), o),
                Err(e) => r == Err::<Ext2Inode, Ext2Error>(e),
            },
    {
        if !self.mounted || ino == 0 || self.inodes_per_group == 0 {
            return Err(Ext2Error::BadInode);
        }
        let ipg = self.inodes_per_group;
        let group = (ino - 1) / ipg;
        let index = (ino - 1) % ipg;
        if group as usize >= MAX_GROUPS {
            return Err(Ext2Error::GroupOutOfRange);
        }
        let table = self.groups[group as usize].bg_inode_table as u64;
        let isz = self.inode_size as u64;
        let bs = self.block_size as u64;
        assert((index as u64) * isz < 0x1_0000_0000 * 0x1_0000) by (nonlinear_arith)
            requires
                index < 0x1_0000_0000,
                isz < 0x1_0000,
        ;
        let byte_off = (index as u64) * isz;
        assert(byte_off / bs < 0x40_0000_0000) by (nonlinear_arith)
            requires
                bs >= 1024,
                byte_off < 0x1_0000_0000 * 0x1_0000,
        ;
        let block = table + byte_off / bs;
        let off = byte_off % bs;
        assert(block * bs < 0x100_0000_0000 * 4096) by (nonlinear_arith)
            requires
                block < 0x100_0000_0000,
                bs <= 4096,
        ;
        let data = self.block_slice(block);
        if data.is_err() {
            return Err(Ext2Error::Io);
        }
        if off + 128 > bs {
            return Err(Ext2Error::InodeSpansBlocks);
        }
        let pos = block * bs + off;
        let dl = self.disk.len();
        assert(pos + 128 <= self.disk@.len()) by (nonlinear_arith)
            requires
                pos == block * bs + off,
                off + 128 <= bs,
                block * bs + bs <= self.disk@.len(),
        ;
        assert(pos + 128 <= dl);
        let p = pos as usize;
        assert(p == pos);
        Ok(parse_inode(self.disk.as_slice(), p))
    }
}

/// Fields of an inode needed for `stat`.
#[derive(Clone, Copy)]
pub struct InodeStat {
    pub mode: u16,
    pub uid: u16,
    pub gid: u16,
    pub nlink: u16,
    pub size: u32,
    /// Already in 512-byte units on disk.
    pub blocks_512: u32,
    pub atime: u32,
    pub mtime: u32,
    pub ctime: u32,
}

/// Zero `buf[at .. at + n]`.
fn fill_zero(buf: &mut [u8], at: usize, n: usize)
    requires
        at + n <= old(buf)@.len(),
    ensures
        final(buf)@.len() == old(buf)@.len(),
        forall|i: int| at <= i < at + n ==> #[trigger] final(buf)@[i] == 0,
        forall|i: int| 0 <= i < old(buf)@.len() && !(at <= i < at + n) ==> #[trigger] final(buf)@[i] == old(buf)@[i],
{
    let bl = buf.len();
    let mut k: usize = 0;
    while k < n
        invariant
            bl == buf@.len(),
            at + n <= buf@.len(),
            buf@.len() == old(buf)@.len(),
            k <= n,
            forall|i: int| at <= i < at + k ==> #[trigger] buf@[i] == 0,
            forall|i: int| 0 <= i < old(buf)@.len() && !(at <= i < at + k) ==> #[trigger] buf@[i] == old(buf)@[i],
        decreases n - k,
    {
        buf[at + k] = 0;
        k = k + 1;
    }
}

/// Copy `src[from .. from + n]` to `buf[at .. at + n]`.
fn fill_from(buf: &mut [u8], at: usize, src: &[u8], from: usize, n: usize)
    requires
        at + n <= old(buf)@.len(),
        from + n <= src@.len(),
    ensures
        final(buf)@.len() == old(buf)@.len(),
        forall|i: int| at <= i < at + n ==> #[trigger] final(buf)@[i] == src@[from + i - at],
        forall|i: int| 0 <= i < old(buf)@.len() && !(at <= i < at + n) ==> #[trigger] final(buf)@[i] == old(buf)@[i],
{
    let bl = buf.len();
    let sl = src.len();
    let mut k: usize = 0;
    while k < n
        invariant
            bl == buf@.len(),
            sl == src@.len(),
            at + n <= buf@.len(),
            from + n <= src@.len(),
            buf@.len() == old(buf)@.len(),
            k <= n,
            forall|i: int| at <= i < at + k ==> #[trigger] buf@[i] == src@[from + i - at],
            forall|i: int| 0 <= i < old(buf)@.len() && !(at <= i < at + k) ==> #[trigger] buf@[i] == old(buf)@[i],
        decreases n - k,
    {
        buf[at + k] = src[from + k];
        k = k + 1;
    }
}

impl Ext2Fs {
    /// Mode of the inode stored at disk offset `o`.
    pub closed spec fn mode_at(&self, o: int) -> u16 {
        le16(self.disk(), o) as u16
    }

    /// Size of the inode stored at disk offset `o`.
    pub closed spec fn size_at(&self, o: int) -> int {
        le32(self.disk(), o + 4)
    }

    /// Block map of the inode stored at disk offset `o`.
    pub closed spec fn blocks_at(&self, o: int) -> Seq<u32> {
        Seq::new(15, |k: int| le32(self.disk(), o + 40 + 4 * k) as u32)
    }

    /// An inode parsed at `o` has the mode, size and block map the specs read there.
    pub proof fn lemma_inode_fields(&self, i: Ext2Inode, o: int)
        requires
            inode_at(i, self.disk(), o),
        ensures
            i.i_block@ == self.blocks_at(o),
            i.i_size == self.size_at(o),
            i.i_mode == self.mode_at(o),
    {
        assert(i.i_block@ =~= self.blocks_at(o));
    }

    /// Pointer `idx` of the indirect block `blk` (0 for a hole).
    pub closed spec fn ptr_at(&self, blk: int, idx: int) -> Result<int, Ext2Error> {
        if blk == 0 {
            Ok(0)
        } else {
            match self.block_data(blk) {
                None => Err(Ext2Error::Io),
                Some(b) => Ok(le32(b, idx * 4)),
            }
        }
    }

    /// Disk block holding logical block `lb` of a file with block map `blocks`.
    pub closed spec fn data_block(&self, blocks: Seq<u32>, lb: int) -> Result<int, Ext2Error> {
        let per = self.bs() / 4;
        if lb < 12 {
            Ok(blocks[lb] as int)
        } else if lb < 12 + per {
            self.ptr_at(blocks[12] as int, lb - 12)
        } else if lb < 12 + per + per * per {
            let off = lb - 12 - per;
            if blocks[13] == 0 {
                Ok(0)
            } else {
                match self.ptr_at(blocks[13] as int, off / per) {
                    Err(e) => Err(e),
                    Ok(ind) => self.ptr_at(ind, off % per),
                }
            }
        } else {
            Err(Ext2Error::NeedsTripleIndirect)
        }
    }

    /// Byte `p` of a file with block map `blocks` (holes read as zero).
    pub closed spec fn file_byte(&self, blocks: Seq<u32>, p: int) -> Result<u8, Ext2Error> {
        match self.data_block(blocks, p / self.bs()) {
            Err(e) => Err(e),
            Ok(b) => if b == 0 {
                Ok(0u8)
            } else {
                match self.block_data(b) {
                    None => Err(Ext2Error::Io),
                    Some(d) => Ok(d[p % self.bs()]),
                }
            },
        }
    }

    /// The first error met reading bytes `a .. a + n`, if any.
    pub closed spec fn first_err(&self, blocks: Seq<u32>, a: int, n: int) -> Option<Ext2Error>
        decreases n,
    {
        if n <= 0 {
            None
        } else {
            match self.file_byte(blocks, a) {
                Err(e) => Some(e),
                Ok(_) => self.first_err(blocks, a + 1, n - 1),
            }
        }
    }

    proof fn lemma_first_err_split(&self, blocks: Seq<u32>, a: int, n: int, m: int)
        requires
            n >= 0,
            m >= 0,
        ensures
            self.first_err(blocks, a, n + m) == (match self.first_err(blocks, a, n) {
                Some(e) => Some(e),
                None => self.first_err(blocks, a + n, m),
            }),
        decreases n,
    {
        if n > 0 {
            self.lemma_first_err_split(blocks, a + 1, n - 1, m);
        }
    }

    proof fn lemma_first_err_none(&self, blocks: Seq<u32>, a: int, n: int)
        requires
            n >= 0,
            forall|j: int| a <= j < a + n ==> #[trigger] self.file_byte(blocks, j) is Ok,
        ensures
            self.first_err(blocks, a, n) is None,
        decreases n,
    {
        if n > 0 {
            assert(self.file_byte(blocks, a) is Ok);
            self.lemma_first_err_none(blocks, a + 1, n - 1);
        }
    }

    /// Read pointer `idx` of indirect block `blk`.
    fn read_block_ptr(&self, blk: u32, idx: u32) -> (r: Result<u32, Ext2Error>)
        requires
            self.wf(),
            self.is_mounted(),
            (idx as int) < self.bs() / 4,
        ensures
            match self.ptr_at(blk as int, idx as int) {
                Ok(v) => r == Ok::<u32, Ext2Error>(v as u32),
                Err(e) => r == Err::<u32, Ext2Error>(e),
            },
    {
        if blk == 0 {
            return Ok(0);
        }
        match self.block_slice(blk as u64) {
            Err(e) => Err(e),
            Ok(b) => {
                let v = read_u32_le(b, (idx as usize) * 4);
                Ok(v)
            },
        }
    }

    /// Disk block of logical block `lb` (direct, single or double indirect).
    pub fn get_data_block(&self, inode: &Ext2Inode, lb: u32) -> (r: Result<u32, Ext2Error>)
        requires
            self.wf(),
            self.is_mounted(),
        ensures
            match self.data_block(inode.i_block@, lb as int) {
                Ok(v) => r == Ok::<u32, Ext2Error>(v as u32),
                Err(e) => r == Err::<u32, Ext2Error>(e),
            },
    {
        if lb < 12 {
            return Ok(inode.i_block[lb as usize]);
        }
        let bs = self.block_size;
        let per = bs / 4;
        if lb < 12 + per {
            return self.read_block_ptr(inode.i_block[12], lb - 12);
        }
        let dbase = 12 + per;
        assert(per * per <= 1024 * 1024) by (nonlinear_arith)
            requires
                per <= 1024,
        ;
        let dmax = dbase + per * per;
        if lb < dmax {
            let dind = inode.i_block[13];
            if dind == 0 {
                return Ok(0);
            }
            let off = lb - dbase;
            let first = off / per;
            let second = off % per;
            assert(first < per) by (nonlinear_arith)
                requires
                    off < per * per,
                    per > 0,
                    first == off / per,
            ;
            let ind = self.read_block_ptr(dind, first);
            match ind {
                Err(e) => return Err(e),
                Ok(i) => {
                    return self.read_block_ptr(i, second);
                },
            }
        }
        Err(Ext2Error::NeedsTripleIndirect)
    }

    /// Outcome of reading `len` bytes at `offset` of inode `ino`: the bytes
    /// read, or the error met.
    pub open spec fn read_spec(&self, ino: u32, offset: int, len: int) -> Result<Seq<u8>, Ext2Error> {
        match self.inode_pos(ino) {
            Err(e) => Err(e),
            Ok(o) => {
                let size = self.size_at(o);
                if offset >= size {
                    Ok(Seq::empty())
                } else {
                    let n = if len < size - offset { len } else { size - offset };
                    let blocks = self.blocks_at(o);
                    match self.first_err(blocks, offset, n) {
                        Some(e) => Err(e),
                        None => Ok(Seq::new(n as nat, |i: int| self.file_byte(blocks, offset + i)->Ok_0)),
                    }
                }
            },
        }
    }

    /// Read up to `buf.len()` bytes of inode `ino` from `offset`.
    pub fn read_file(&self, ino: u32, offset: u32, buf: &mut [u8]) -> (r: Result<usize, Ext2Error>)
        requires
            self.wf(),
        ensures
            final(buf)@.len() == old(buf)@.len(),
            match self.read_spec(ino, offset as int, old(buf)@.len() as int) {
                Err(e) => r == Err::<usize, Ext2Error>(e),
                Ok(s) => r == Ok::<usize, Ext2Error>(s.len() as usize) && final(buf)@ == s + old(buf)@.skip(
                    s.len() as int,
                ),
            },
    {
        let inode = match self.read_inode(ino) {
            Err(e) => return Err(e),
            Ok(i) => i,
        };
        let ghost o = self.inode_pos(ino)->Ok_0;
        let ghost blocks = self.blocks_at(o);
        assert(inode.i_block@ =~= blocks);
        let size = inode.i_size;
        assert(size == self.size_at(o));
        if offset >= size {
            assert(buf@.skip(0) =~= buf@);
            return Ok(0);
        }
        let to_read: usize = if (buf.len() as u64) < (size - offset) as u64 { buf.len() } else { (size - offset) as usize };
        let bs = self.block_size;
        let mut done: usize = 0;
        while done < to_read
            invariant
                self.wf(),
                self.is_mounted(),
                inode.i_block@ == blocks,
                self.inode_pos(ino) == Ok::<int, Ext2Error>(o),
                blocks == self.blocks_at(o),
                size == self.size_at(o),
                to_read == (if old(buf)@.len() < size - offset { old(buf)@.len() as int } else { size - offset }),
                offset < size,
                to_read <= buf@.len(),
                offset + to_read <= size,
                bs == self.bs(),
                bs >= 1024,
                done <= to_read,
                buf@.len() == old(buf)@.len(),
                self.first_err(blocks, offset as int, done as int) is None,
                forall|i: int| 0 <= i < done ==> self.file_byte(blocks, offset + i) == Ok::<u8, Ext2Error>(#[trigger] buf@[i]),
                forall|i: int| to_read <= i < buf@.len() ==> buf@[i] == old(buf)@[i],
            decreases to_read - done,
        {
            let pos: u32 = offset + done as u32;
            let lb = pos / bs;
            let boff = (pos % bs) as usize;
            let room = (bs as usize) - boff;
            let chunk: usize = if to_read - done < room { to_read - done } else { room };
            let block = self.get_data_block(&inode, lb);
            proof {
                self.lemma_first_err_split(blocks, offset as int, done as int, (to_read - done) as int);
            }
            match block {
                Err(e) => {
                    assert(self.file_byte(blocks, pos as int) == Err::<u8, Ext2Error>(e));
                    return Err(e);
                },
                Ok(b) => {
                    if b == 0 {
                        fill_zero(buf, done, chunk);
                    } else {
                        let data = match self.block_slice(b as u64) {
                            Err(e) => {
                                assert(self.file_byte(blocks, pos as int) == Err::<u8, Ext2Error>(e));
                                return Err(e);
                            },
                            Ok(d) => d,
                        };
                        fill_from(buf, done, data, boff, chunk);
                    }
                    proof {
                        self.lemma_chunk(blocks, offset as int, done as int, chunk as int, pos as int, lb as int, boff as int, b as int, buf@);
                    }
                    done = done + chunk;
                },
            }
        }
        proof {
            let s = Seq::new(to_read as nat, |i: int| self.file_byte(blocks, offset + i)->Ok_0);
            assert(buf@ =~= s + old(buf)@.skip(to_read as int));
        }
        Ok(to_read)
    }

    proof fn lemma_chunk(&self, blocks: Seq<u32>, offset: int, done: int, chunk: int, pos: int, lb: int, boff: int, b: int, buf: Seq<u8>)
        requires
            self.bs() >= 1024,
            0 <= done,
            0 < chunk,
            done + chunk <= buf.len(),
            pos == offset + done,
            0 <= pos,
            lb == pos / self.bs(),
            boff == pos % self.bs(),
            chunk <= self.bs() - boff,
            self.data_block(blocks, lb) == Ok::<int, Ext2Error>(b),
            b != 0 ==> self.block_data(b) is Some,
            b == 0 ==> forall|i: int| done <= i < done + chunk ==> #[trigger] buf[i] == 0,
            b != 0 ==> forall|i: int| done <= i < done + chunk ==> #[trigger] buf[i] == self.block_data(b)->Some_0[boff + i - done],
            self.first_err(blocks, offset, done) is None,
        ensures
            forall|i: int| done <= i < done + chunk ==> self.file_byte(blocks, offset + i) == Ok::<u8, Ext2Error>(#[trigger] buf[i]),
            self.first_err(blocks, offset, done + chunk) is None,
    {
        let bs = self.bs();
        assert forall|i: int| done <= i < done + chunk implies self.file_byte(blocks, offset + i) == Ok::<u8, Ext2Error>(#[trigger] buf[i]) by {
            let j = offset + i;
            assert(j / bs == lb && j % bs == boff + i - done) by (nonlinear_arith)
                requires
                    j == pos + (i - done),
                    done <= i < done + chunk,
                    lb == pos / bs,
                    boff == pos % bs,
                    chunk <= bs - boff,
                    bs > 0,
                    pos >= 0,
            ;
        }
        assert forall|j: int| pos <= j < pos + chunk implies #[trigger] self.file_byte(blocks, j) is Ok by {
            let i = j - offset;
            assert(self.file_byte(blocks, offset + i) == Ok::<u8, Ext2Error>(buf[i]));
        }
        self.lemma_first_err_none(blocks, pos, chunk);
        self.lemma_first_err_split(blocks, offset, done, chunk);
    }

    /// Is inode `ino` a directory? (`false` when it cannot be read.)
    pub closed spec fn is_dir_spec(&self, ino: u32) -> bool {
        match self.inode_pos(ino) {
            Ok(o) => self.mode_at(o) & S_IFMT == S_IFDIR,
            Err(_) => false,
        }
    }

    pub fn inode_is_dir(&self, ino: u32) -> (r: bool)
        requires
            self.wf(),
        ensures
            r == self.is_dir_spec(ino),
    {
        match self.read_inode(ino) {
            Ok(i) => i.i_mode & S_IFMT == S_IFDIR,
            Err(_) => false,
        }
    }

    /// Size of inode `ino` (0 when it cannot be read).
    pub closed spec fn file_size_spec(&self, ino: u32) -> int {
        match self.inode_pos(ino) {
            Ok(o) => self.size_at(o),
            Err(_) => 0,
        }
    }

    pub fn inode_file_size(&self, ino: u32) -> (r: u32)
        requires
            self.wf(),
        ensures
            r == self.file_size_spec(ino),
    {
        match self.read_inode(ino) {
            Ok(i) => i.i_size,
            Err(_) => 0,
        }
    }

    /// The `stat` fields of inode `ino`.
    pub fn inode_stat(&self, ino: u32) -> (r: Result<InodeStat, Ext2Error>)
        requires
            self.wf(),
        ensures
            match self.inode_pos(ino) {
                Err(e) => r == Err::<InodeStat, Ext2Error>(e),
                Ok(o) => r matches Ok(st) && {
                    let d = self.disk();
                    &&& st.mode == le16(d, o)
                    &&& st.uid == le16(d, o + 2)
                    &&& st.gid == le16(d, o + 24)
                    &&& st.nlink == le16(d, o + 26)
                    &&& st.size == le32(d, o + 4)
                    &&& st.blocks_512 == le32(d, o + 28)
                    &&& st.atime == le32(d, o + 8)
                    &&& st.mtime == le32(d, o + 16)
                    &&& st.ctime == le32(d, o + 12)
                },
            },
    {
        let i = self.read_inode(ino)?;
        Ok(InodeStat {
            mode: i.i_mode,
            uid: i.i_uid,
            gid: i.i_gid,
            nlink: i.i_links_count,
            size: i.i_size,
            blocks_512: i.i_blocks,
            atime: i.i_atime,
            mtime: i.i_mtime,
            ctime: i.i_ctime,
        })
    }
}

/// `d_type` for an ext2 directory-entry file type.
pub open spec fn ft_to_dt(ft: u8) -> u8 {
    if ft == EXT2_FT_REG {
        DT_REG
    } else if ft == EXT2_FT_DIR {
        DT_DIR
    } else if ft == EXT2_FT_CHR {
        DT_CHR
    } else if ft == EXT2_FT_BLK {
        DT_BLK
    } else if ft == EXT2_FT_FIFO {
        DT_FIFO
    } else if ft == EXT2_FT_SOCK {
        DT_SOCK
    } else if ft == EXT2_FT_SYMLINK {
        DT_LNK
    } else {
        DT_UNKNOWN
    }
}

pub fn ext2_ft_to_dt(ft: u8) -> (r: u8)
    ensures
        r == ft_to_dt(ft),
{
    if ft == EXT2_FT_REG {
        DT_REG
    } else if ft == EXT2_FT_DIR {
        DT_DIR
    } else if ft == EXT2_FT_CHR {
        DT_CHR
    } else if ft == EXT2_FT_BLK {
        DT_BLK
    } else if ft == EXT2_FT_FIFO {
        DT_FIFO
    } else if ft == EXT2_FT_SOCK {
        DT_SOCK
    } else if ft == EXT2_FT_SYMLINK {
        DT_LNK
    } else {
        DT_UNKNOWN
    }
}

/// `d_type` for an inode mode.
pub open spec fn mode_to_dt(mode: u16) -> u8 {
    if mode & S_IFMT == S_IFDIR {
        DT_DIR
    } else if mode & S_IFMT == S_IFREG {
        DT_REG
    } else if mode & S_IFMT == S_IFLNK {
        DT_LNK
    } else {
        DT_UNKNOWN
    }
}

/// Node type for an inode mode.
pub open spec fn mode_to_type(mode: u16) -> NodeType {
    if mode & S_IFMT == S_IFREG {
        NodeType::Regular
    } else if mode & S_IFMT == S_IFDIR {
        NodeType::Directory
    } else if mode & S_IFMT == S_IFLNK {
        NodeType::Symlink
    } else {
        NodeType::Unknown
    }
}

/// Node type for a directory-entry file type.
pub open spec fn ft_to_type(ft: u8) -> NodeType {
    if ft == EXT2_FT_REG {
        NodeType::Regular
    } else if ft == EXT2_FT_DIR {
        NodeType::Directory
    } else if ft == EXT2_FT_SYMLINK {
        NodeType::Symlink
    } else if ft == EXT2_FT_CHR {
        NodeType::CharDev
    } else if ft == EXT2_FT_BLK {
        NodeType::BlockDev
    } else if ft == EXT2_FT_FIFO {
        NodeType::Fifo
    } else if ft == EXT2_FT_SOCK {
        NodeType::Socket
    } else {
        NodeType::Unknown
    }
}

/// One directory entry as `getdents` reports it.
pub struct DirentInfo {
    pub ino: u32,
    /// Offset of the following record.
    pub next_off: u32,
    pub d_type: u8,
    pub name: Vec<u8>,
}

/// Observable content of a [`DirentInfo`].
pub struct DirentView {
    pub ino: u32,
    pub next_off: u32,
    pub d_type: u8,
    pub name: Seq<u8>,
}

pub open spec fn dirent_view(d: DirentInfo) -> DirentView {
    DirentView { ino: d.ino, next_off: d.next_off, d_type: d.d_type, name: d.name@ }
}

/// What `scan_block` found.
enum ScanOut {
    Found(DirentInfo),
    End,
    NextBlock,
}

/// What scanning one directory block from `pos` finds.
pub enum DirScan {
    Found(DirentView),
    End,
    NextBlock,
}

impl Ext2Fs {
    /// `d_type` of an entry: from its file type, or from the child inode's
    /// mode when the file type is unknown.
    pub closed spec fn entry_dt(&self, ino: u32, ft: u8) -> u8 {
        if ft_to_dt(ft) != DT_UNKNOWN {
            ft_to_dt(ft)
        } else {
            match self.inode_pos(ino) {
                Ok(o) => mode_to_dt(self.mode_at(o)),
                Err(_) => DT_UNKNOWN,
            }
        }
    }

    /// Scan the records of block `lb` (bytes `bb`) from `pos` for a live entry.
    pub closed spec fn dn_scan(&self, bb: Seq<u8>, lb: int, pos: int) -> DirScan
        decreases (if pos < self.bs() { self.bs() - pos } else { 0 }),
    {
        let bs = self.bs();
        if pos < 0 || pos + 8 > bs {
            DirScan::NextBlock
        } else {
            let rec_len = le16(bb, pos + 4);
            if rec_len < 8 {
                DirScan::End
            } else {
                let ino = le32(bb, pos) as u32;
                let nl = bb[pos + 6] as int;
                let ft = bb[pos + 7];
                if ino != 0 && nl > 0 && pos + 8 + nl <= bs {
                    DirScan::Found(
                        DirentView {
                            ino,
                            next_off: (lb * bs + pos + rec_len) as u32,
                            d_type: self.entry_dt(ino, ft),
                            name: bb.subrange(pos + 8, pos + 8 + nl),
                        },
                    )
                } else {
                    self.dn_scan(bb, lb, pos + rec_len)
                }
            }
        }
    }

    /// Next live entry at or after byte `off` of a directory with block map
    /// `blocks` and size `size`.
    pub closed spec fn dn_next(&self, blocks: Seq<u32>, size: int, off: int) -> Result<Option<DirentView>, Ext2Error>
        decreases size - off,
    {
        if off >= size || off < 0 || self.bs() <= 0 {
            Ok(None)
        } else {
            let lb = off / self.bs();
            match self.data_block(blocks, lb) {
                Err(e) => Err(e),
                Ok(b) => if b == 0 {
                    Ok(None)
                } else {
                    match self.block_data(b) {
                        None => Err(Ext2Error::Io),
                        Some(bb) => match self.dn_scan(bb, lb, off % self.bs()) {
                            DirScan::Found(d) => Ok(Some(d)),
                            DirScan::End => Ok(None),
                            DirScan::NextBlock => if (lb + 1) * self.bs() <= off || (lb + 1) * self.bs() >= size {
                                Ok(None)
                            } else {
                                self.dn_next(blocks, size, (lb + 1) * self.bs())
                            },
                        },
                    }
                },
            }
        }
    }

    /// Outcome of `dir_next_entry(dir, offset)`.
    pub open spec fn dir_next_spec(&self, dir: u32, offset: int) -> Result<Option<DirentView>, Ext2Error> {
        match self.inode_pos(dir) {
            Err(e) => Err(e),
            Ok(o) => if self.mode_at(o) & S_IFMT != S_IFDIR {
                Err(Ext2Error::NotDirectory)
            } else {
                self.dn_next(self.blocks_at(o), self.size_at(o), offset)
            },
        }
    }

    /// Scan block `lb` (bytes `bb`) from `boff` for a live entry.
    fn scan_block(&self, bb: &[u8], lb: u64, boff: u64) -> (r: ScanOut)
        requires
            self.wf(),
            self.is_mounted(),
            bb@.len() == self.bs(),
            lb * self.bs() <= u32::MAX,
            boff < self.bs(),
        ensures
            match self.dn_scan(bb@, lb as int, boff as int) {
                DirScan::Found(d) => r matches ScanOut::Found(x) && dirent_view(x) == d,
                DirScan::End => r matches ScanOut::End,
                DirScan::NextBlock => r matches ScanOut::NextBlock,
            },
    {
        let bs = self.block_size as u64;
        let mut pos: u64 = boff;
        while pos + 8 <= bs
            invariant
                self.wf(),
                self.is_mounted(),
                bb@.len() == bs,
                bs == self.bs(),
                1024 <= bs <= 4096,
                lb * bs <= u32::MAX,
                pos <= bs + 0x1_0000,
                self.dn_scan(bb@, lb as int, boff as int) == self.dn_scan(bb@, lb as int, pos as int),
            decreases bs + 0x1_0000 - pos,
        {
            let p = pos as usize;
            let rec_len = read_u16_le(bb, p + 4) as u64;
            if rec_len < 8 {
                return ScanOut::End;
            }
            let ino = read_u32_le(bb, p);
            let nl = bb[p + 6] as u64;
            let ft = bb[p + 7];
            if ino != 0 && nl > 0 && pos + 8 + nl <= bs {
                let name = vstd::slice::slice_subrange(bb, p + 8, p + 8 + nl as usize);
                let next = lb * bs + pos + rec_len;
                let d_type = self.entry_d_type(ino, ft);
                let info = DirentInfo { ino, next_off: next as u32, d_type, name: crate::text::copy_all(name) };
                return ScanOut::Found(info);
            }
            pos = pos + rec_len;
        }
        ScanOut::NextBlock
    }

    fn entry_d_type(&self, ino: u32, ft: u8) -> (r: u8)
        requires
            self.wf(),
        ensures
            r == self.entry_dt(ino, ft),
    {
        let d = ext2_ft_to_dt(ft);
        if d != DT_UNKNOWN {
            return d;
        }
        match self.read_inode(ino) {
            Ok(ci) => {
                let m = ci.i_mode;
                if m & S_IFMT == S_IFDIR {
                    DT_DIR
                } else if m & S_IFMT == S_IFREG {
                    DT_REG
                } else if m & S_IFMT == S_IFLNK {
                    DT_LNK
                } else {
                    DT_UNKNOWN
                }
            },
            Err(_) => DT_UNKNOWN,
        }
    }

    /// Read the next live directory entry at or after byte `offset`.
    pub fn dir_next_entry(&self, dir_ino: u32, offset: u32) -> (r: Result<Option<DirentInfo>, Ext2Error>)
        requires
            self.wf(),
        ensures
            match self.dir_next_spec(dir_ino, offset as int) {
                Err(e) => r matches Err(x) && x == e,
                Ok(None) => r matches Ok(None),
                Ok(Some(d)) => r matches Ok(Some(x)) && dirent_view(x) == d,
            },
    {
        let inode = match self.read_inode(dir_ino) {
            Err(e) => return Err(e),
            Ok(i) => i,
        };
        let ghost o = self.inode_pos(dir_ino)->Ok_0;
        let ghost blocks = self.blocks_at(o);
        assert(inode.i_block@ =~= blocks);
        if inode.i_mode & S_IFMT != S_IFDIR {
            return Err(Ext2Error::NotDirectory);
        }
        let size = inode.i_size as u64;
        let bs = self.block_size as u64;
        if offset as u64 >= size {
            return Ok(None);
        }
        let mut off: u64 = offset as u64;
        while off < size
            invariant
                self.wf(),
                self.is_mounted(),
                inode.i_block@ == blocks,
                size == self.size_at(o),
                bs == self.bs(),
                1024 <= bs <= 4096,
                size <= u32::MAX,
                off <= size + bs,
                self.dir_next_spec(dir_ino, offset as int) == self.dn_next(blocks, size as int, off as int),
            decreases size + bs - off,
        {
            let lb = off / bs;
            let boff = off % bs;
            assert(lb <= u32::MAX && lb * bs <= off) by (nonlinear_arith)
                requires
                    off < size,
                    size <= u32::MAX,
                    bs >= 1,
                    lb == off / bs,
            ;
            let block = match self.get_data_block(&inode, lb as u32) {
                Err(e) => return Err(e),
                Ok(b) => b,
            };
            if block == 0 {
                return Ok(None);
            }
            let bb = match self.block_slice(block as u64) {
                Err(e) => return Err(e),
                Ok(d) => d,
            };
            match self.scan_block(bb, lb, boff) {
                ScanOut::Found(info) => return Ok(Some(info)),
                ScanOut::End => return Ok(None),
                ScanOut::NextBlock => {},
            }
            assert((lb + 1) * bs > off && (lb + 1) * bs <= off + bs) by (nonlinear_arith)
                requires
                    lb == off / bs,
                    bs > 0,
            ;
            off = (lb + 1) * bs;
        }
        Ok(None)
    }
}

/// A live directory record: inode, raw name bytes and file type.
pub struct DirRec {
    pub ino: u32,
    pub name: Seq<u8>,
    pub ft: u8,
}

/// Result of walking the records of one block.
pub enum LdScan {
    Fail(Ext2Error),
    /// Records found and the offset at which the walk goes on.
    Done(Seq<DirRec>, int),
}

pub open spec fn prepend(a: Seq<DirRec>, s: LdScan) -> LdScan {
    match s {
        LdScan::Fail(e) => LdScan::Fail(e),
        LdScan::Done(rs, o) => LdScan::Done(a + rs, o),
    }
}

pub open spec fn combine(a: Seq<DirRec>, r: Result<Seq<DirRec>, Ext2Error>) -> Result<Seq<DirRec>, Ext2Error> {
    match r {
        Ok(x) => Ok(a + x),
        Err(e) => Err(e),
    }
}

/// A name as the walker stores it: the bytes when they are UTF-8, else `?`.
pub open spec fn text_or_q(b: Seq<u8>) -> Seq<u8> {
    if vstd::utf8::valid_utf8(b) {
        b
    } else {
        "?".spec_bytes()
    }
}

/// The name a node for record `r` answers to.
pub open spec fn rec_node_name(r: DirRec) -> Seq<u8> {
    crate::vfs::name_text(name_area(text_or_q(r.name)))
}

pub proof fn lemma_combine_assoc(a: Seq<DirRec>, b: Seq<DirRec>, r: Result<Seq<DirRec>, Ext2Error>)
    ensures
        combine(a, combine(b, r)) == combine(a + b, r),
{
    match r {
        Ok(x) => {
            assert(a + (b + x) =~= (a + b) + x);
        },
        Err(_) => {},
    }
}

impl Ext2Fs {
    /// Walk the records of block `lb` (bytes `bb`) from `pos`, stopping at `size`.
    pub closed spec fn ld_scan(&self, bb: Seq<u8>, lb: int, pos: int, size: int) -> LdScan
        decreases (if pos < self.bs() { self.bs() - pos } else { 0 }),
    {
        let bs = self.bs();
        let off = lb * bs + pos;
        if 0 <= pos && pos + 8 <= bs && off < size {
            let rec_len = le16(bb, pos + 4);
            if rec_len < 8 {
                LdScan::Fail(Ext2Error::CorruptDirectory)
            } else {
                let ino = le32(bb, pos) as u32;
                let nl = bb[pos + 6] as int;
                let head = if ino != 0 && nl > 0 && pos + 8 + nl <= bs {
                    seq![DirRec { ino, name: bb.subrange(pos + 8, pos + 8 + nl), ft: bb[pos + 7] }]
                } else {
                    Seq::empty()
                };
                prepend(head, self.ld_scan(bb, lb, pos + rec_len, size))
            }
        } else if off >= size {
            LdScan::Done(Seq::empty(), off)
        } else if pos >= bs {
            LdScan::Done(Seq::empty(), if off % bs != 0 { (off / bs + 1) * bs } else { off })
        } else {
            LdScan::Fail(Ext2Error::CorruptDirectory)
        }
    }

    /// All live records of a directory from byte `off` on.
    pub closed spec fn ld_walk(&self, blocks: Seq<u32>, size: int, off: int) -> Result<Seq<DirRec>, Ext2Error>
        decreases size - off,
    {
        if off >= size || off < 0 || self.bs() <= 0 {
            Ok(Seq::empty())
        } else {
            let lb = off / self.bs();
            match self.data_block(blocks, lb) {
                Err(e) => Err(e),
                Ok(b) => if b == 0 {
                    Ok(Seq::empty())
                } else {
                    match self.block_data(b) {
                        None => Err(Ext2Error::Io),
                        Some(bb) => match self.ld_scan(bb, lb, off % self.bs(), size) {
                            LdScan::Fail(e) => Err(e),
                            LdScan::Done(rs, o2) => if o2 >= size || o2 <= off {
                                Ok(rs)
                            } else {
                                combine(rs, self.ld_walk(blocks, size, o2))
                            },
                        },
                    }
                },
            }
        }
    }

    /// The records `list_dir(dir)` walks.
    pub open spec fn list_spec(&self, dir: u32) -> Result<Seq<DirRec>, Ext2Error> {
        match self.inode_pos(dir) {
            Err(e) => Err(e),
            Ok(o) => if self.mode_at(o) & S_IFMT != S_IFDIR {
                Err(Ext2Error::NotDirectory)
            } else {
                self.ld_walk(self.blocks_at(o), self.size_at(o), 0)
            },
        }
    }

    /// `n` is the node the walker makes for record `r` of directory `dir`.
    pub open spec fn node_ok(&self, n: FsNode, dir: u32, r: DirRec) -> bool {
        &&& n.used
        &&& n.name@ == name_area(text_or_q(r.name))
        &&& n.inode == r.ino
        &&& n.father == dir
        &&& n.master == ROOT_INODE
        &&& n.next_kin == 0
        &&& n.nchildren == 0
        &&& match self.inode_pos(r.ino) {
            Ok(co) => {
                &&& n.size == self.size_at(co)
                &&& n.links == le16(self.disk(), co + 26)
                &&& n.rights == self.mode_at(co) & 0x0FFF
                &&& n.kind == mode_to_type(self.mode_at(co))
            },
            Err(_) => n.kind == ft_to_type(r.ft) && n.size == 0 && n.links == 0 && n.rights == 0,
        }
    }

    fn make_node(&self, dir: u32, ino: u32, name: &[u8], ft: u8) -> (n: FsNode)
        requires
            self.wf(),
        ensures
            self.node_ok(n, dir, DirRec { ino, name: name@, ft }),
    {
        let mut node = FsNode::empty();
        node.used = true;
        match utf8_text(name) {
            Some(t) => node.set_name(t),
            None => node.set_name("?"),
        }
        node.inode = ino;
        node.father = dir;
        node.master = ROOT_INODE;
        node.next_kin = 0;
        match self.read_inode(ino) {
            Ok(ci) => {
                node.size = ci.i_size;
                node.links = ci.i_links_count;
                node.rights = ci.i_mode & 0x0FFF;
                node.kind = if ci.i_mode & S_IFMT == S_IFREG {
                    NodeType::Regular
                } else if ci.i_mode & S_IFMT == S_IFDIR {
                    NodeType::Directory
                } else if ci.i_mode & S_IFMT == S_IFLNK {
                    NodeType::Symlink
                } else {
                    NodeType::Unknown
                };
            },
            Err(_) => {
                node.kind = if ft == EXT2_FT_REG {
                    NodeType::Regular
                } else if ft == EXT2_FT_DIR {
                    NodeType::Directory
                } else if ft == EXT2_FT_SYMLINK {
                    NodeType::Symlink
                } else if ft == EXT2_FT_CHR {
                    NodeType::CharDev
                } else if ft == EXT2_FT_BLK {
                    NodeType::BlockDev
                } else if ft == EXT2_FT_FIFO {
                    NodeType::Fifo
                } else if ft == EXT2_FT_SOCK {
                    NodeType::Socket
                } else {
                    NodeType::Unknown
                };
            },
        }
        node
    }

    /// Walk one block's records from `boff`, appending nodes.
    fn list_block(&self, dir: u32, bb: &[u8], lb: u64, boff: u64, size: u64, nodes: &mut Vec<FsNode>, Ghost(recs): Ghost<Seq<DirRec>>) -> (r: Result<u64, Ext2Error>)
        requires
            self.wf(),
            self.is_mounted(),
            bb@.len() == self.bs(),
            lb * self.bs() + boff < size,
            size <= u32::MAX,
            boff < self.bs(),
            old(nodes)@.len() == recs.len(),
            forall|i: int| 0 <= i < recs.len() ==> self.node_ok(#[trigger] old(nodes)@[i], dir, recs[i]),
        ensures
            match self.ld_scan(bb@, lb as int, boff as int, size as int) {
                LdScan::Fail(e) => r == Err::<u64, Ext2Error>(e),
                LdScan::Done(rs, o2) => r == Ok::<u64, Ext2Error>(o2 as u64) && 0 <= o2 <= size + 0x2_0000 && final(nodes)@.len() == recs.len() + rs.len()
                    && forall|i: int| 0 <= i < recs.len() + rs.len() ==> self.node_ok(#[trigger] final(nodes)@[i], dir, (recs + rs)[i]),
            },
    {
        let bs = self.block_size as u64;
        let mut pos: u64 = boff;
        let mut off: u64 = lb * bs + boff;
        let ghost mut acc: Seq<DirRec> = Seq::empty();
        while pos + 8 <= bs && off < size
            invariant
                self.wf(),
                self.is_mounted(),
                bb@.len() == bs,
                bs == self.bs(),
                1024 <= bs <= 4096,
                size <= u32::MAX,
                off == lb * bs + pos,
                pos <= bs + 0x1_0000,
                off <= size + 0x1_0000,
                self.ld_scan(bb@, lb as int, boff as int, size as int) == prepend(acc, self.ld_scan(bb@, lb as int, pos as int, size as int)),
                nodes@.len() == recs.len() + acc.len(),
                forall|i: int| 0 <= i < recs.len() + acc.len() ==> self.node_ok(#[trigger] nodes@[i], dir, (recs + acc)[i]),
            decreases bs + 0x1_0000 - pos,
        {
            let p = pos as usize;
            let rec_len = read_u16_le(bb, p + 4) as u64;
            if rec_len < 8 {
                return Err(Ext2Error::CorruptDirectory);
            }
            let ino = read_u32_le(bb, p);
            let nl = bb[p + 6] as u64;
            let ft = bb[p + 7];
            let ghost head: Seq<DirRec> = Seq::empty();
            if ino != 0 && nl > 0 && pos + 8 + nl <= bs {
                let name = vstd::slice::slice_subrange(bb, p + 8, p + 8 + nl as usize);
                let node = self.make_node(dir, ino, name, ft);
                nodes.push(node);
                proof {
                    head = seq![DirRec { ino, name: name@, ft }];
                }
            }
            proof {
                let rest = self.ld_scan(bb@, lb as int, (pos + rec_len) as int, size as int);
                assert(self.ld_scan(bb@, lb as int, pos as int, size as int) == prepend(head, rest));
                assert(acc + head + match rest { LdScan::Done(rs, _) => rs, LdScan::Fail(_) => Seq::empty() }
                    =~= acc + (head + match rest { LdScan::Done(rs, _) => rs, LdScan::Fail(_) => Seq::empty() }));
                assert(recs + (acc + head) =~= (recs + acc) + head);
                acc = acc + head;
            }
            pos = pos + rec_len;
            off = off + rec_len;
        }
        if off >= size {
            assert(acc + Seq::<DirRec>::empty() =~= acc);
            return Ok(off);
        }
        if pos >= bs {
            assert(acc + Seq::<DirRec>::empty() =~= acc);
            if off % bs != 0 {
                assert((off / bs + 1) * bs <= off + bs) by (nonlinear_arith)
                    requires
                        bs > 0,
                ;
                return Ok((off / bs + 1) * bs);
            }
            return Ok(off);
        }
        Err(Ext2Error::CorruptDirectory)
    }

    proof fn lemma_walk_step(&self, blocks: Seq<u32>, size: int, off: int, b: int, bb: Seq<u8>, rs: Seq<DirRec>, next: int)
        requires
            0 <= off < size,
            self.bs() > 0,
            self.data_block(blocks, off / self.bs()) == Ok::<int, Ext2Error>(b),
            b != 0,
            self.block_data(b) == Some(bb),
            self.ld_scan(bb, off / self.bs(), off % self.bs(), size) == LdScan::Done(rs, next),
        ensures
            self.ld_walk(blocks, size, off) == (if next >= size || next <= off {
                Ok(rs)
            } else {
                combine(rs, self.ld_walk(blocks, size, next))
            }),
    {
    }

    /// Walk directory `dir` and return a node for each live entry, in
    /// on-disk order.
    pub fn list_dir(&self, dir_ino: u32) -> (r: Result<Vec<FsNode>, Ext2Error>)
        requires
            self.wf(),
        ensures
            match self.list_spec(dir_ino) {
                Err(e) => r matches Err(x) && x == e,
                Ok(recs) => r matches Ok(v) && v@.len() == recs.len() && forall|i: int|
                    0 <= i < recs.len() ==> self.node_ok(#[trigger] v@[i], dir_ino, recs[i]),
            },
    {
        let inode = match self.read_inode(dir_ino) {
            Err(e) => return Err(e),
            Ok(i) => i,
        };
        let ghost o = self.inode_pos(dir_ino)->Ok_0;
        let ghost blocks = self.blocks_at(o);
        assert(inode.i_block@ =~= blocks);
        if inode.i_mode & S_IFMT != S_IFDIR {
            return Err(Ext2Error::NotDirectory);
        }
        let size = inode.i_size as u64;
        let bs = self.block_size as u64;
        let mut nodes: Vec<FsNode> = Vec::new();
        let ghost mut recs: Seq<DirRec> = Seq::empty();
        let mut off: u64 = 0;
        while off < size
            invariant
                self.wf(),
                self.is_mounted(),
                inode.i_block@ == blocks,
                size == self.size_at(o),
                bs == self.bs(),
                1024 <= bs <= 4096,
                size <= u32::MAX,
                self.list_spec(dir_ino) == combine(recs, self.ld_walk(blocks, size as int, off as int)),
                nodes@.len() == recs.len(),
                forall|i: int| 0 <= i < recs.len() ==> self.node_ok(#[trigger] nodes@[i], dir_ino, recs[i]),
            decreases size - off,
        {
            let lb = off / bs;
            let boff = off % bs;
            assert(lb <= u32::MAX && lb * bs + boff == off) by (nonlinear_arith)
                requires
                    off < size,
                    size <= u32::MAX,
                    bs >= 1,
                    lb == off / bs,
                    boff == off % bs,
            ;
            let block = match self.get_data_block(&inode, lb as u32) {
                Err(e) => return Err(e),
                Ok(b) => b,
            };
            if block == 0 {
                assert(recs + Seq::<DirRec>::empty() =~= recs);
                return Ok(nodes);
            }
            let bb = match self.block_slice(block as u64) {
                Err(e) => return Err(e),
                Ok(d) => d,
            };
            let ghost before = recs;
            let next = match self.list_block(dir_ino, bb, lb, boff, size, &mut nodes, Ghost(recs)) {
                Err(e) => return Err(e),
                Ok(n) => n,
            };
            proof {
                let sc = self.ld_scan(bb@, lb as int, boff as int, size as int);
                assert(sc is Done);
                let rs = sc->Done_0;
                assert(sc->Done_1 == next as int);
                assert(lb as int == off as int / self.bs());
                assert(boff as int == off as int % self.bs());
                self.lemma_walk_step(blocks, size as int, off as int, block as int, bb@, rs, next as int);
                recs = before + rs;
                lemma_combine_assoc(before, rs, self.ld_walk(blocks, size as int, next as int));
            }
            if next >= size || next <= off {
                return Ok(nodes);
            }
            off = next;
        }
        assert(recs + Seq::<DirRec>::empty() =~= recs);
        Ok(nodes)
    }
}

/// Index of the first `/` in `p` at or after `k` (or the length).
pub open spec fn first_slash(p: Seq<u8>, k: int) -> int
    decreases p.len() - k,
{
    if k < 0 || k >= p.len() {
        p.len() as int
    } else if p[k] == 47 {
        k
    } else {
        first_slash(p, k + 1)
    }
}

proof fn lemma_first_slash_none(p: Seq<u8>, k: int)
    requires
        0 <= k <= p.len(),
        forall|i: int| k <= i < p.len() ==> p[i] != 47,
    ensures
        first_slash(p, k) == p.len(),
    decreases p.len() - k,
{
    if k < p.len() {
        lemma_first_slash_none(p, k + 1);
    }
}

/// Lowest record at or after `k` whose node answers to `name`.
pub open spec fn find_named(recs: Seq<DirRec>, name: Seq<u8>, k: int) -> Option<int>
    decreases recs.len() - k,
{
    if k < 0 || k >= recs.len() {
        None
    } else if rec_node_name(recs[k]) == name {
        Some(k)
    } else {
        find_named(recs, name, k + 1)
    }
}

impl Ext2Fs {
    /// Outcome of looking `name` up in directory `dir`: the inode of the first
    /// entry of its listing with that name.
    pub open spec fn lookup_spec(&self, dir: u32, name: Seq<u8>) -> Result<u32, Ext2Error> {
        match self.list_spec(dir) {
            Err(e) => Err(e),
            Ok(recs) => match find_named(recs, name, 0) {
                Some(i) => Ok(recs[i].ino),
                None => Err(Ext2Error::NotFound),
            },
        }
    }

    /// Look a name up in a directory: the inode of its first entry with that name.
    pub fn lookup_bytes(&self, dir_ino: u32, name: &[u8]) -> (r: Result<u32, Ext2Error>)
        requires
            self.wf(),
        ensures
            r == self.lookup_spec(dir_ino, name@),
    {
        let nodes = match self.list_dir(dir_ino) {
            Err(e) => return Err(e),
            Ok(v) => v,
        };
        let ghost recs = self.list_spec(dir_ino)->Ok_0;
        let n = nodes.len();
        let mut i: usize = 0;
        while i < n
            invariant
                self.wf(),
                self.list_spec(dir_ino) == Ok::<Seq<DirRec>, Ext2Error>(recs),
                nodes@.len() == recs.len(),
                forall|j: int| 0 <= j < recs.len() ==> self.node_ok(#[trigger] nodes@[j], dir_ino, recs[j]),
                n == recs.len(),
                i <= n,
                find_named(recs, name@, 0) == find_named(recs, name@, i as int),
            decreases n - i,
        {
            let t = nodes[i].name_str();
            assert(self.node_ok(nodes@[i as int], dir_ino, recs[i as int]));
            if bytes_eq(t.as_bytes(), name) {
                return Ok(nodes[i].inode);
            }
            i = i + 1;
        }
        Err(Ext2Error::NotFound)
    }

    /// Look a name up in a directory: the inode of its first entry with that name.
    pub fn lookup(&self, dir_ino: u32, name: &str) -> (r: Result<u32, Ext2Error>)
        requires
            self.wf(),
        ensures
            r == self.lookup_spec(dir_ino, name.spec_bytes()),
    {
        self.lookup_bytes(dir_ino, name.as_bytes())
    }

    /// Resolve the components of `p` one by one from inode `ino`.
    pub closed spec fn resolve_from(&self, ino: u32, p: Seq<u8>) -> Result<u32, Ext2Error>
        decreases p.len(),
    {
        if p.len() == 0 {
            Ok(ino)
        } else {
            let k = first_slash(p, 0);
            let comp = p.take(k);
            let rest = if k < p.len() { p.skip(k + 1) } else { Seq::empty() };
            let step = if comp.len() == 0 || comp == ".".spec_bytes() {
                Ok(ino)
            } else if comp == "..".spec_bytes() {
                Ok(
                    match self.lookup_spec(ino, "..".spec_bytes()) {
                        Ok(x) => x,
                        Err(_) => ROOT_INODE,
                    },
                )
            } else {
                self.lookup_spec(ino, comp)
            };
            match step {
                Err(e) => Err(e),
                Ok(i2) => if rest.len() < p.len() { self.resolve_from(i2, rest) } else { Ok(i2) },
            }
        }
    }

    /// Outcome of resolving `p` relative to `cwd` (absolute when it starts with `/`).
    pub closed spec fn resolve_spec(&self, cwd: u32, p: Seq<u8>) -> Result<u32, Ext2Error> {
        if p.len() == 0 {
            Ok(cwd)
        } else {
            self.resolve_from(if p[0] == 47 { ROOT_INODE } else { cwd }, p)
        }
    }

    /// A path that starts with `/` names the same inode from every working
    /// directory: the one it names from the root.
    pub proof fn lemma_absolute_ignores_cwd(&self, cwd1: u32, cwd2: u32, p: Seq<u8>)
        requires
            p.len() > 0,
            p[0] == 47,
        ensures
            self.resolve_spec(cwd1, p) == self.resolve_spec(cwd2, p),
            self.resolve_spec(cwd1, p) == self.resolve_spec(ROOT_INODE, p),
    {
    }

    /// `/name`, for a name without `/` other than `.` and `..`, is that
    /// name looked up in the root directory, whatever the working directory.
    pub proof fn lemma_absolute_single(&self, cwd: u32, name: Seq<u8>)
        requires
            name.len() > 0,
            forall|i: int| 0 <= i < name.len() ==> name[i] != 47,
            name != ".".spec_bytes(),
            name != "..".spec_bytes(),
        ensures
            self.resolve_spec(cwd, seq![47u8] + name) == self.lookup_spec(ROOT_INODE, name),
    {
        let p = seq![47u8] + name;
        assert(first_slash(p, 0) == 0);
        assert(p.take(0).len() == 0);
        assert(p.skip(1) =~= name);
        lemma_first_slash_none(name, 0);
        assert(name.take(name.len() as int) =~= name);
        assert(self.resolve_from(ROOT_INODE, p) == self.resolve_from(ROOT_INODE, name));
        match self.lookup_spec(ROOT_INODE, name) {
            Ok(i2) => {
                assert(self.resolve_from(i2, Seq::<u8>::empty()) == Ok::<u32, Ext2Error>(i2));
            },
            Err(_) => {},
        }
    }

    /// Resolve `path` relative to `cwd_ino`; absolute when it starts with `/`.
    pub fn resolve_path(&self, cwd_ino: u32, path: &str) -> (r: Result<u32, Ext2Error>)
        requires
            self.wf(),
        ensures
            r == self.resolve_spec(cwd_ino, path.spec_bytes()),
    {
        self.resolve_bytes(cwd_ino, path.as_bytes())
    }

    /// `resolve_path` on the bytes of a path.
    pub fn resolve_bytes(&self, cwd_ino: u32, p: &[u8]) -> (r: Result<u32, Ext2Error>)
        requires
            self.wf(),
        ensures
            r == self.resolve_spec(cwd_ino, p@),
    {
        if p.len() == 0 {
            return Ok(cwd_ino);
        }
        let mut ino = if p[0] == 47 { ROOT_INODE } else { cwd_ino };
        let mut start: usize = 0;
        assert(p@.skip(0) =~= p@);
        while start < p.len()
            invariant
                self.wf(),
                start <= p@.len(),
                p@.len() > 0,
                self.resolve_spec(cwd_ino, p@) == self.resolve_from(ino, p@.skip(start as int)),
            decreases p@.len() - start,
        {
            let ghost q = p@.skip(start as int);
            let mut j: usize = start;
            while j < p.len() && p[j] != 47
                invariant
                    start <= j <= p@.len(),
                    q == p@.skip(start as int),
                    first_slash(q, 0) == first_slash(q, j - start),
                decreases p@.len() - j,
            {
                j = j + 1;
            }
            assert(first_slash(q, 0) == j - start);
            let comp = vstd::slice::slice_subrange(p, start, j);
            assert(comp@ =~= q.take(j - start));
            let step = if comp.len() == 0 || bytes_eq(comp, ".".as_bytes()) {
                Ok(ino)
            } else if bytes_eq(comp, "..".as_bytes()) {
                match self.lookup_bytes(ino, "..".as_bytes()) {
                    Ok(x) => Ok(x),
                    Err(_) => Ok(ROOT_INODE),
                }
            } else {
                self.lookup_bytes(ino, comp)
            };
            match step {
                Err(e) => return Err(e),
                Ok(i2) => {
                    ino = i2;
                },
            }
            if j < p.len() {
                assert(q.skip(j - start + 1) =~= p@.skip(j + 1));
                start = j + 1;
            } else {
                assert(p@.skip(j as int) =~= Seq::<u8>::empty());
                start = j;
            }
        }
        Ok(ino)
    }
}
} // verus!
