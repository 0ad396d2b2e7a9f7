//! Working-directory helpers: `chdir` and the absolute path of the current
//! directory, found by walking `..` up to the root.

use vstd::prelude::*;
use vstd::string::StringSliceAdditionalSpecFns;
use crate::ext2::{Ext2Fs, Ext2Error, DirRec, ROOT_INODE, rec_node_name};
use crate::vfs::name_area;
use crate::text::bytes_eq;

verus! {

/// How many directories up `getcwd_pretty` walks at most.
pub const MAX_DEPTH: usize = 16;

/// Outcome of `chdir(path)` from `cwd`: the new working directory.
pub open spec fn chdir_spec(fs: &Ext2Fs, cwd: u32, path: Seq<u8>) -> Result<u32, Ext2Error> {
    match fs.resolve_spec(cwd, path) {
        Err(e) => Err(e),
        Ok(ino) => if fs.is_dir_spec(ino) {
            Ok(ino)
        } else {
            Err(Ext2Error::NotDirectory)
        },
    }
}

/// Change directory: resolve `path` from `cwd` and return the new working
/// directory when it is a directory.
pub fn chdir(fs: &Ext2Fs, cwd: u32, path: &str) -> (r: Result<u32, Ext2Error>)
    requires
        fs.wf(),
    ensures
        r == chdir_spec(fs, cwd, path.spec_bytes()),
{
    let ino = fs.resolve_path(cwd, path)?;
    if !fs.inode_is_dir(ino) {
        return Err(Ext2Error::NotDirectory);
    }
    Ok(ino)
}

/// Decimal digits of `n` (none for 0).
pub open spec fn dec_digits(n: u32) -> Seq<u8>
    decreases n,
{
    if n == 0 {
        Seq::empty()
    } else {
        dec_digits(n / 10).push((48 + n % 10) as u8)
    }
}

/// The stand-in name `#INO` for a directory whose name cannot be found.
pub open spec fn hash_name(n: u32) -> Seq<u8> {
    seq![35u8] + dec_digits(n)
}

fn dec_bytes(n: u32) -> (v: Vec<u8>)
    ensures
        v@ == dec_digits(n),
        v@.len() <= 10,
    decreases n,
{
    if n == 0 {
        Vec::new()
    } else {
        let mut v = dec_bytes(n / 10);
        proof {
            lemma_dec_len(n);
        }
        v.push(48 + (n % 10) as u8);
        v
    }
}

proof fn lemma_dec_len(n: u32)
    ensures
        dec_digits(n).len() <= 10,
        n < 1_000_000_000 ==> dec_digits(n).len() <= 9,
        n < 100_000_000 ==> dec_digits(n).len() <= 8,
        n < 10_000_000 ==> dec_digits(n).len() <= 7,
        n < 1_000_000 ==> dec_digits(n).len() <= 6,
        n < 100_000 ==> dec_digits(n).len() <= 5,
        n < 10_000 ==> dec_digits(n).len() <= 4,
        n < 1_000 ==> dec_digits(n).len() <= 3,
        n < 100 ==> dec_digits(n).len() <= 2,
        n < 10 ==> dec_digits(n).len() <= 1,
    decreases n,
{
    if n > 0 {
        lemma_dec_len(n / 10);
    }
}

/// Lowest of the first 64 records naming inode `ino` other than `.` and `..`.
pub open spec fn find_ino(recs: Seq<DirRec>, ino: u32, k: int) -> Option<int>
    decreases recs.len() - k,
{
    if k < 0 || k >= recs.len() || k >= 64 {
        None
    } else if recs[k].ino == ino && rec_node_name(recs[k]) != ".".spec_bytes() && rec_node_name(recs[k]) != "..".spec_bytes() {
        Some(k)
    } else {
        find_ino(recs, ino, k + 1)
    }
}

/// The 28-byte name recorded for directory `cur` under `parent`.
pub open spec fn level_name(fs: &Ext2Fs, parent: u32, cur: u32) -> Seq<u8> {
    match fs.list_spec(parent) {
        Ok(recs) => match find_ino(recs, cur, 0) {
            Some(i) => name_area(rec_node_name(recs[i])),
            None => name_area(hash_name(cur)),
        },
        Err(_) => name_area(hash_name(cur)),
    }
}

/// Names of `cur` and its ancestors, innermost first, walking at most `k` levels.
pub open spec fn cwd_names(fs: &Ext2Fs, cur: u32, k: nat) -> Seq<Seq<u8>>
    decreases k,
{
    if k == 0 || cur == ROOT_INODE {
        Seq::empty()
    } else {
        match fs.lookup_spec(cur, "..".spec_bytes()) {
            Err(_) => Seq::empty(),
            Ok(parent) => seq![level_name(fs, parent, cur)] + if parent == cur {
                Seq::empty()
            } else {
                cwd_names(fs, parent, (k - 1) as nat)
            },
        }
    }
}

/// Copy the bytes of `name` before its first NUL to `out` from `len`,
/// keeping the last byte of `out` free.
pub open spec fn emit_name(out: Seq<u8>, len: int, name: Seq<u8>, j: int) -> (Seq<u8>, int)
    decreases 28 - j,
{
    if j < 0 || j >= 28 || j >= name.len() || name[j] == 0 {
        (out, len)
    } else if len < out.len() - 1 {
        emit_name(out.update(len, name[j]), len + 1, name, j + 1)
    } else {
        emit_name(out, len, name, j + 1)
    }
}

/// Emit `names[d - 1]`, …, `names[0]`, each after a `/` separator; neither
/// a separator nor a name byte takes the last byte of `out`, which is kept for
/// the terminating NUL.
pub open spec fn emit_levels(out: Seq<u8>, len: int, names: Seq<Seq<u8>>, d: int) -> (Seq<u8>, int)
    decreases d,
{
    if d <= 0 {
        (out, len)
    } else {
        let sep = if len > 1 && len < out.len() - 1 && out[len - 1] != 47 {
            (out.update(len, 47u8), len + 1)
        } else {
            (out, len)
        };
        let e = emit_name(sep.0, sep.1, names[d - 1], 0);
        emit_levels(e.0, e.1, names, d - 1)
    }
}

proof fn lemma_emit_name_bound(out: Seq<u8>, len: int, name: Seq<u8>, j: int)
    requires
        0 <= len <= out.len() - 1,
    ensures
        len <= emit_name(out, len, name, j).1 <= out.len() - 1,
        emit_name(out, len, name, j).0.len() == out.len(),
        forall|k: int| 0 <= k < len ==> #[trigger] emit_name(out, len, name, j).0[k] == out[k],
    decreases 28 - j,
{
    if j < 0 || j >= 28 || j >= name.len() || name[j] == 0 {
    } else if len < out.len() - 1 {
        lemma_emit_name_bound(out.update(len, name[j]), len + 1, name, j + 1);
    } else {
        lemma_emit_name_bound(out, len, name, j + 1);
    }
}

proof fn lemma_emit_levels_bound(out: Seq<u8>, len: int, names: Seq<Seq<u8>>, d: int)
    requires
        0 <= len <= out.len() - 1,
    ensures
        len <= emit_levels(out, len, names, d).1 <= out.len() - 1,
        emit_levels(out, len, names, d).0.len() == out.len(),
        forall|k: int| 0 <= k < len ==> #[trigger] emit_levels(out, len, names, d).0[k] == out[k],
    decreases d,
{
    if d > 0 {
        let sep = if len > 1 && len < out.len() - 1 && out[len - 1] != 47 {
            (out.update(len, 47u8), len + 1)
        } else {
            (out, len)
        };
        lemma_emit_name_bound(sep.0, sep.1, names[d - 1], 0);
        let e = emit_name(sep.0, sep.1, names[d - 1], 0);
        lemma_emit_levels_bound(e.0, e.1, names, d - 1);
    }
}

/// The buffer and length `getcwd_pretty` leaves for working directory `cwd`.
pub open spec fn getcwd_spec(fs: &Ext2Fs, cwd: u32, out: Seq<u8>) -> (Seq<u8>, int) {
    if cwd == ROOT_INODE {
        if out.len() == 0 {
            (out, 0)
        } else if out.len() > 1 {
            (out.update(0, 47u8).update(1, 0u8), 1)
        } else {
            (out.update(0, 47u8), 1)
        }
    } else {
        let names = cwd_names(fs, cwd, MAX_DEPTH as nat);
        let start = if out.len() > 0 { (out.update(0, 47u8), 1int) } else { (out, 0int) };
        let e = emit_levels(start.0, start.1, names, names.len() as int);
        if e.1 < out.len() {
            (e.0.update(e.1, 0u8), e.1)
        } else {
            e
        }
    }
}

/// Every name of `names` is empty (starts with NUL).
pub open spec fn all_empty(names: Seq<Seq<u8>>) -> bool {
    forall|d: int| 0 <= d < names.len() ==> (#[trigger] names[d]).len() == 0 || names[d][0] == 0
}

/// The name recorded for `cur` under `parent` (see [`level_name`]).
fn level_name_exec(fs: &Ext2Fs, parent: u32, cur: u32) -> (r: [u8; 28])
    requires
        fs.wf(),
    ensures
        r@ == level_name(fs, parent, cur),
{
    match fs.list_dir(parent) {
        Ok(nodes) => {
            let ghost recs = fs.list_spec(parent)->Ok_0;
            let n = if nodes.len() < 64 { nodes.len() } else { 64 };
            let mut i: usize = 0;
            while i < n
                invariant
                    fs.wf(),
                    fs.list_spec(parent) == Ok::<Seq<DirRec>, Ext2Error>(recs),
                    nodes@.len() == recs.len(),
                    forall|j: int| 0 <= j < recs.len() ==> fs.node_ok(#[trigger] nodes@[j], parent, recs[j]),
                    n == (if recs.len() < 64 { recs.len() as int } else { 64 }),
                    i <= n,
                    find_ino(recs, cur, 0) == find_ino(recs, cur, i as int),
                decreases n - i,
            {
                assert(fs.node_ok(nodes@[i as int], parent, recs[i as int]));
                if nodes[i].inode == cur {
                    let s = nodes[i].name_str();
                    if !bytes_eq(s.as_bytes(), ".".as_bytes()) && !bytes_eq(s.as_bytes(), "..".as_bytes()) {
                        let mut area = FsNodeName::new();
                        area.set(s.as_bytes());
                        return area.bytes;
                    }
                }
                i = i + 1;
            }
            hash_area(cur)
        },
        Err(_) => hash_area(cur),
    }
}

fn hash_area(cur: u32) -> (r: [u8; 28])
    ensures
        r@ == name_area(hash_name(cur)),
{
    let digits = dec_bytes(cur);
    let mut v: Vec<u8> = Vec::new();
    v.push(35);
    let mut k: usize = 0;
    while k < digits.len()
        invariant
            k <= digits@.len(),
            digits@.len() <= 10,
            v@ == seq![35u8] + digits@.take(k as int),
        decreases digits@.len() - k,
    {
        v.push(digits[k]);
        k = k + 1;
        assert(v@ =~= seq![35u8] + digits@.take(k as int));
    }
    assert(digits@.take(digits@.len() as int) =~= digits@);
    let mut area = FsNodeName::new();
    area.set(v.as_slice());
    area.bytes
}

/// A 28-byte name area.
struct FsNodeName {
    bytes: [u8; 28],
}

impl FsNodeName {
    fn new() -> (r: FsNodeName)
        ensures
            r.bytes@ == Seq::new(28, |i: int| 0u8),
    {
        let r = FsNodeName { bytes: [0u8; 28] };
        assert(r.bytes@ =~= Seq::new(28, |i: int| 0u8));
        r
    }

    fn set(&mut self, b: &[u8])
        ensures
            final(self).bytes@ == name_area(b@),
    {
        let mut i: usize = 0;
        while i < 28
            invariant
                i <= 28,
                self.bytes@.len() == 28,
                forall|j: int| 0 <= j < i ==> self.bytes@[j] == name_area(b@)[j],
            decreases 28 - i,
        {
            self.bytes[i] = if i < 27 && i < b.len() { b[i] } else { 0 };
            i = i + 1;
        }
        assert(self.bytes@ =~= name_area(b@));
    }
}


/// Write the absolute path of working directory `cwd` into `out`,
/// NUL-terminated when room is left; returns its length. Names come from
/// walking `..` at most 16 levels; a directory whose name cannot be found is
/// written `#INO`.
pub fn getcwd_pretty(fs: &Ext2Fs, cwd: u32, out: &mut [u8]) -> (len: usize)
    requires
        fs.wf(),
        old(out)@.len() > 0 || cwd == ROOT_INODE || all_empty(cwd_names(fs, cwd, MAX_DEPTH as nat)),
    ensures
        (final(out)@, len as int) == getcwd_spec(fs, cwd, old(out)@),
        old(out)@.len() > 1 ==> {
            &&& 1 <= len < final(out)@.len()
            &&& final(out)@[0] == 47
            &&& final(out)@[len as int] == 0
        },
{
    proof {
        if old(out)@.len() > 1 && cwd != ROOT_INODE {
            let names = cwd_names(fs, cwd, MAX_DEPTH as nat);
            lemma_emit_levels_bound(old(out)@.update(0, 47u8), 1, names, names.len() as int);
        }
    }
    if cwd == ROOT_INODE {
        if out.len() > 0 {
            out[0] = 47;
            if out.len() > 1 {
                out[1] = 0;
            }
            return 1;
        }
        return 0;
    }
    let ghost all = cwd_names(fs, cwd, MAX_DEPTH as nat);
    let mut names: Vec<[u8; 28]> = Vec::new();
    let ghost mut gn: Seq<Seq<u8>> = Seq::empty();
    let mut cur = cwd;
    let mut it: usize = 0;
    let mut go = true;
    while it < MAX_DEPTH && go
        invariant
            fs.wf(),
            it <= MAX_DEPTH,
            gn.len() == names@.len(),
            forall|i: int| 0 <= i < gn.len() ==> (#[trigger] names@[i])@ == gn[i],
            all == gn + (if go { cwd_names(fs, cur, (MAX_DEPTH - it) as nat) } else { Seq::empty() }),
        decreases MAX_DEPTH - it, (if go { 1int } else { 0 }),
    {
        if cur == ROOT_INODE {
            go = false;
            assert(all =~= gn + Seq::<Seq<u8>>::empty());
        } else {
            match fs.lookup(cur, "..") {
                Err(_) => {
                    go = false;
                    assert(all =~= gn + Seq::<Seq<u8>>::empty());
                },
                Ok(parent) => {
                    let nm = level_name_exec(fs, parent, cur);
                    names.push(nm);
                    let ghost before = gn;
                    proof {
                        gn = gn.push(nm@);
                    }
                    if parent == cur {
                        go = false;
                        assert(all =~= gn + Seq::<Seq<u8>>::empty());
                    } else {
                        assert(all =~= gn + cwd_names(fs, parent, (MAX_DEPTH - it - 1) as nat));
                        cur = parent;
                    }
                },
            }
        }
        it = it + 1;
        if go && it >= MAX_DEPTH {
            go = false;
            assert(all =~= gn + Seq::<Seq<u8>>::empty());
        }
    }
    assert(all =~= gn);
    let ghost start = if old(out)@.len() > 0 { (old(out)@.update(0, 47u8), 1int) } else { (old(out)@, 0int) };
    let mut len: usize = 0;
    if out.len() > 0 {
        out[0] = 47;
        len = 1;
    }
    let ol = out.len();
    let mut d = names.len();
    while d > 0
        invariant
            ol == out@.len(),
            out@.len() == old(out)@.len(),
            d <= names@.len(),
            gn.len() == names@.len(),
            forall|i: int| 0 <= i < gn.len() ==> (#[trigger] names@[i])@ == gn[i],
            old(out)@.len() > 0 || all_empty(gn),
            len <= out@.len(),
            out@.len() > 0 ==> len >= 1,
            emit_levels(start.0, start.1, gn, gn.len() as int) == emit_levels(out@, len as int, gn, d as int),
        decreases d,
    {
        if len > 1 && len < out.len() - 1 && out[len - 1] != 47 {
            out[len] = 47;
            len = len + 1;
        }
        let name = names[d - 1];
        assert(name@ == gn[d - 1]);
        let ghost o_sep = out@;
        let ghost l_sep = len as int;
        let mut j: usize = 0;
        while j < 28 && name[j] != 0
            invariant
                ol == out@.len(),
                out@.len() == old(out)@.len(),
                name@.len() == 28,
                j <= 28,
                len <= out@.len(),
                out@.len() > 0 ==> len >= 1,
                old(out)@.len() > 0 || name@[0] == 0,
                j > 0 ==> out@.len() > 0,
                emit_name(o_sep, l_sep, name@, 0) == emit_name(out@, len as int, name@, j as int),
            decreases 28 - j,
        {
            assert(out@.len() > 0);
            if len < out.len() - 1 {
                out[len] = name[j];
                len = len + 1;
            }
            j = j + 1;
        }
        d = d - 1;
    }
    if len == 0 && out.len() > 0 {
        out[0] = 47;
        len = 1;
    }
    if len < out.len() {
        out[len] = 0;
    }
    len
}
} // verus!
