//! Generic filesystem node: name, size, type, inode, links, master, father,
//! children, rights and next of kin.

use vstd::prelude::*;
use vstd::string::StringSliceAdditionalSpecFns;
use crate::text::utf8_text;

verus! {

/// File or directory type.
#[derive(Clone, Copy, PartialEq, Eq, Debug, Structural)]
pub enum NodeType {
    Unknown,
    Regular,
    Directory,
    Symlink,
    CharDev,
    BlockDev,
    Fifo,
    Socket,
}

pub open spec fn node_type_name(t: NodeType) -> Seq<char> {
    match t {
        NodeType::Unknown => "unknown"@,
        NodeType::Regular => "file"@,
        NodeType::Directory => "dir"@,
        NodeType::Symlink => "link"@,
        NodeType::CharDev => "char"@,
        NodeType::BlockDev => "block"@,
        NodeType::Fifo => "fifo"@,
        NodeType::Socket => "sock"@,
    }
}

impl NodeType {
    /// Short name as `ls` prints it.
    pub fn as_str(self) -> (r: &'static str)
        ensures
            r@ == node_type_name(self),
    {
        match self {
            NodeType::Unknown => "unknown",
            NodeType::Regular => "file",
            NodeType::Directory => "dir",
            NodeType::Symlink => "link",
            NodeType::CharDev => "char",
            NodeType::BlockDev => "block",
            NodeType::Fifo => "fifo",
            NodeType::Socket => "sock",
        }
    }
}

pub const MAX_NAME: usize = 28;
pub const MAX_CHILDREN: usize = 16;

/// A filesystem node as the directory walker records it.
#[derive(Clone, Copy)]
pub struct FsNode {
    /// UTF-8 name, NUL padded.
    pub name: [u8; 28],
    pub size: u32,
    pub kind: NodeType,
    pub inode: u32,
    pub links: u16,
    /// Root inode of the filesystem.
    pub master: u32,
    /// Parent directory inode.
    pub father: u32,
    pub children: [u32; 16],
    pub nchildren: u8,
    /// Permission bits (low 12 bits of the mode).
    pub rights: u16,
    /// Next sibling inode.
    pub next_kin: u32,
    pub used: bool,
}

/// Index of the first NUL in `s`, or its length.
pub open spec fn nul_index(s: Seq<u8>, k: int) -> int
    decreases s.len() - k,
{
    if k < 0 || k >= s.len() {
        s.len() as int
    } else if s[k] == 0 {
        k
    } else {
        nul_index(s, k + 1)
    }
}

/// The name area after `set_name(s)`: the first 27 bytes of `s`, NUL padded.
pub open spec fn name_area(s: Seq<u8>) -> Seq<u8> {
    Seq::new(28, |i: int| if i < 27 && i < s.len() { s[i] } else { 0u8 })
}

/// What `name_str` reads from a name area: the bytes before the first NUL
/// when they are UTF-8, else `?`.
pub open spec fn name_text(area: Seq<u8>) -> Seq<u8> {
    let n = nul_index(area, 0);
    if vstd::utf8::valid_utf8(area.take(n)) {
        area.take(n)
    } else {
        "?".spec_bytes()
    }
}

proof fn lemma_area_nul(b: Seq<u8>, k: int)
    requires
        b.len() <= 27,
        forall|i: int| 0 <= i < b.len() ==> b[i] != 0,
        0 <= k <= b.len(),
    ensures
        nul_index(name_area(b), k) == b.len(),
    decreases b.len() - k,
{
    if k < b.len() {
        lemma_area_nul(b, k + 1);
    }
}

/// A name of at most 27 bytes, without NUL and valid UTF-8, reads back as
/// itself: `name_str` after `set_name` gives the name that was set.
pub proof fn lemma_set_name_round_trip(b: Seq<u8>)
    requires
        b.len() <= 27,
        forall|i: int| 0 <= i < b.len() ==> b[i] != 0,
        vstd::utf8::valid_utf8(b),
    ensures
        name_text(name_area(b)) == b,
{
    lemma_area_nul(b, 0);
    assert(name_area(b).take(b.len() as int) =~= b);
}

impl FsNode {
    /// A node with every field zero.
    pub fn empty() -> (r: FsNode)
        ensures
            r.name@ == Seq::new(28, |i: int| 0u8),
            r.size == 0,
            r.kind == NodeType::Unknown,
            r.inode == 0,
            r.links == 0,
            r.master == 0,
            r.father == 0,
            r.children@ == Seq::new(16, |i: int| 0u32),
            r.nchildren == 0,
            r.rights == 0,
            r.next_kin == 0,
            !r.used,
    {
        let r = FsNode {
            name: [0u8; 28],
            size: 0,
            kind: NodeType::Unknown,
            inode: 0,
            links: 0,
            master: 0,
            father: 0,
            children: [0u32; 16],
            nchildren: 0,
            rights: 0,
            next_kin: 0,
            used: false,
        };
        assert(r.name@ =~= Seq::new(28, |i: int| 0u8));
        assert(r.children@ =~= Seq::new(16, |i: int| 0u32));
        r
    }

    /// Store the first 27 bytes of `s` as the name.
    pub fn set_name(&mut self, s: &str)
        ensures
            final(self).name@ == name_area(s.spec_bytes()),
            final(self).size == old(self).size,
            final(self).kind == old(self).kind,
            final(self).inode == old(self).inode,
            final(self).links == old(self).links,
            final(self).master == old(self).master,
            final(self).father == old(self).father,
            final(self).children == old(self).children,
            final(self).nchildren == old(self).nchildren,
            final(self).rights == old(self).rights,
            final(self).next_kin == old(self).next_kin,
            final(self).used == old(self).used,
    {
        self.set_name_bytes(s.as_bytes());
    }

    /// Store the first 27 bytes of `b` as the name.
    pub fn set_name_bytes(&mut self, b: &[u8])
        ensures
            final(self).name@ == name_area(b@),
            final(self).size == old(self).size,
            final(self).kind == old(self).kind,
            final(self).inode == old(self).inode,
            final(self).links == old(self).links,
            final(self).master == old(self).master,
            final(self).father == old(self).father,
            final(self).children == old(self).children,
            final(self).nchildren == old(self).nchildren,
            final(self).rights == old(self).rights,
            final(self).next_kin == old(self).next_kin,
            final(self).used == old(self).used,
    {
        let mut area = [0u8; 28];
        let mut i: usize = 0;
        while i < 28
            invariant
                i <= 28,
                area@.len() == 28,
                forall|j: int| 0 <= j < i ==> area@[j] == name_area(b@)[j],
                forall|j: int| i <= j < 28 ==> area@[j] == 0,
            decreases 28 - i,
        {
            if i < 27 && i < b.len() {
                area[i] = b[i];
            }
            i = i + 1;
        }
        assert(area@ =~= name_area(b@));
        self.name = area;
    }

    /// The name as text (`?` when it is not UTF-8).
    pub fn name_str(&self) -> (r: &str)
        ensures
            r.spec_bytes() == name_text(self.name@),
    {
        let mut n: usize = 0;
        while n < 28 && self.name[n] != 0
            invariant
                n <= 28,
                self.name@.len() == 28,
                nul_index(self.name@, 0) == nul_index(self.name@, n as int),
            decreases 28 - n,
        {
            n = n + 1;
        }
        let s = vstd::slice::slice_subrange(self.name.as_slice(), 0, n);
        assert(s@ =~= self.name@.take(n as int));
        match utf8_text(s) {
            Some(t) => t,
            None => "?",
        }
    }
}

} // verus!
