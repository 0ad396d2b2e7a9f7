//! The MNX1 module container (little-endian):
//!
//! ```text
//! header (48 bytes): magic "MNX1", name[28] (NUL-padded), code_len,
//!                    init_off, exit_off (0xFFFF_FFFF: none), n_relocs
//! code[code_len]
//! n_relocs x { offset: u32, name[32] }   -- write the export's address at offset
//! ```
//!
//! Parsing checks the image and resolves each relocation to an export; the
//! caller copies the code and writes the export addresses.

use vstd::prelude::*;
use vstd::string::StringSliceAdditionalSpecFns;
use crate::ext2::{le32, read_u32_le};
use crate::export::{export_index_from, lookup};
use crate::text::{utf8_text, copy_prefix};

verus! {

pub const MNX_MAGIC: u32 = 0x3158_4E4D;
pub const MNX_HEADER_SIZE: usize = 48;
pub const MNX_NAME_LEN: usize = 28;
pub const MNX_RELOC_SIZE: usize = 36;
pub const MNX_SYM_LEN: usize = 32;
pub const MNX_EXIT_NONE: u32 = 0xFFFF_FFFF;
pub const MNX_MAX_FILE: usize = 65536;
pub const MNX_MAX_CODE: usize = 32768;
pub const MNX_MAX_RELOCS: usize = 64;

#[derive(Clone, Copy, Debug, PartialEq, Eq, Structural)]
pub enum MnxError {
    BadMagic,
    Truncated,
    BadName,
    BadCode,
    BadReloc,
    Unresolved,
    Oom,
    InitFail,
}

impl MnxError {
    /// The text of this error.
    pub open spec fn text(&self) -> Seq<char> {
        match *self {
            MnxError::BadMagic => "bad magic"@,
            MnxError::Truncated => "truncated"@,
            MnxError::BadName => "bad name"@,
            MnxError::BadCode => "bad code"@,
            MnxError::BadReloc => "bad reloc"@,
            MnxError::Unresolved => "unresolved symbol"@,
            MnxError::Oom => "out of memory"@,
            MnxError::InitFail => "init failed"@,
        }
    }

    pub fn as_str(self) -> (r: &'static str)
        ensures
            r@ == self.text(),
    {
        match self {
            MnxError::BadMagic => "bad magic",
            MnxError::Truncated => "truncated",
            MnxError::BadName => "bad name",
            MnxError::BadCode => "bad code",
            MnxError::BadReloc => "bad reloc",
            MnxError::Unresolved => "unresolved symbol",
            MnxError::Oom => "out of memory",
            MnxError::InitFail => "init failed",
        }
    }
}

/// Length of the NUL-terminated string at the start of `s` (all of `s` if
/// there is no NUL), counting from `k`.
pub open spec fn cstr_len_from(s: Seq<u8>, k: int) -> int
    decreases s.len() - k,
{
    if k < 0 || k >= s.len() {
        s.len() as int
    } else if s[k] == 0 {
        k
    } else {
        cstr_len_from(s, k + 1)
    }
}

pub open spec fn cstr_len(s: Seq<u8>) -> int {
    cstr_len_from(s, 0)
}

/// Every byte printable ASCII.
pub open spec fn printable(s: Seq<u8>) -> bool {
    forall|i: int| 0 <= i < s.len() ==> 0x20 <= #[trigger] s[i] <= 0x7e
}

/// Relocation `i` of an image whose code is `code_len` bytes: the patch
/// offset and the export it names, or why it is refused.
pub open spec fn reloc_spec(d: Seq<u8>, code_len: int, i: int) -> Result<(usize, usize), MnxError> {
    let ro = MNX_HEADER_SIZE + code_len + i * MNX_RELOC_SIZE;
    let off = le32(d, ro);
    let raw = d.subrange(ro + 4, ro + 4 + MNX_SYM_LEN);
    let sym = raw.take(cstr_len(raw));
    if off + 8 > code_len {
        Err(MnxError::BadReloc)
    } else if sym.len() == 0 || !vstd::utf8::valid_utf8(sym) {
        Err(MnxError::BadReloc)
    } else {
        match export_index_from(sym, 0) {
            None => Err(MnxError::Unresolved),
            Some(x) => Ok((off as usize, x as usize)),
        }
    }
}

/// The first `n` relocations, or the first refusal among them.
pub open spec fn relocs_spec(d: Seq<u8>, code_len: int, n: nat) -> Result<Seq<(usize, usize)>, MnxError>
    decreases n,
{
    if n == 0 {
        Ok(Seq::empty())
    } else {
        match relocs_spec(d, code_len, (n - 1) as nat) {
            Err(e) => Err(e),
            Ok(rs) => match reloc_spec(d, code_len, n - 1) {
                Err(e) => Err(e),
                Ok(r) => Ok(rs.push(r)),
            },
        }
    }
}

/// A checked MNX1 image: its name, code size, entry offsets and resolved
/// relocations. The code is bytes `[48, 48 + code_len)` of the image.
pub struct LoadedMnx {
    pub name: Vec<u8>,
    pub code_len: usize,
    pub init_off: u32,
    /// `None` when the module has no exit function.
    pub exit_off: Option<u32>,
    /// `(offset in code, export index)` for each 8-byte address to write.
    pub relocs: Vec<(usize, usize)>,
}

impl LoadedMnx {
    /// The name as text.
    pub fn name_str(&self) -> (r: &str)
        ensures
            r.spec_bytes() == (if vstd::utf8::valid_utf8(self.name@) { self.name@ } else { "?".spec_bytes() }),
    {
        match utf8_text(self.name.as_slice()) {
            Some(s) => s,
            None => "?",
        }
    }
}

/// What parsing `d` gives: name, code length, init offset, exit offset and
/// relocations; or why the image is refused.
pub open spec fn mnx_spec(d: Seq<u8>) -> Result<(Seq<u8>, int, u32, Option<u32>, Seq<(usize, usize)>), MnxError> {
    if d.len() < MNX_HEADER_SIZE {
        Err(MnxError::Truncated)
    } else if le32(d, 0) != MNX_MAGIC {
        Err(MnxError::BadMagic)
    } else {
        let raw = d.subrange(4, 4 + MNX_NAME_LEN);
        let name = raw.take(cstr_len(raw));
        let code_len = le32(d, 32);
        let init_off = le32(d, 36);
        let exit_off = le32(d, 40);
        let n = le32(d, 44);
        if name.len() == 0 || !printable(name) {
            Err(MnxError::BadName)
        } else if code_len == 0 || code_len > MNX_MAX_CODE {
            Err(MnxError::BadCode)
        } else if n > MNX_MAX_RELOCS {
            Err(MnxError::BadReloc)
        } else if init_off >= code_len {
            Err(MnxError::BadCode)
        } else if exit_off != MNX_EXIT_NONE && exit_off >= code_len {
            Err(MnxError::BadCode)
        } else if MNX_HEADER_SIZE + code_len + n * MNX_RELOC_SIZE > d.len() {
            Err(MnxError::Truncated)
        } else {
            match relocs_spec(d, code_len, n as nat) {
                Err(e) => Err(e),
                Ok(rs) => Ok((name, code_len, init_off as u32, if exit_off == MNX_EXIT_NONE { None } else { Some(exit_off as u32) }, rs)),
            }
        }
    }
}

/// Length of the NUL-terminated string in `b[start..start + n]`.
fn cstr_len_at(b: &[u8], start: usize, n: usize) -> (r: usize)
    requires
        start + n <= b@.len(),
    ensures
        r == cstr_len(b@.subrange(start as int, start + n)),
        r <= n,
{
    let ghost s = b@.subrange(start as int, start + n);
    let bl = b.len();
    let mut i: usize = 0;
    while i < n && b[start + i] != 0
        invariant
            bl == b@.len(),
            start + n <= b@.len(),
            s == b@.subrange(start as int, start + n),
            i <= n,
            cstr_len(s) == cstr_len_from(s, i as int),
        decreases n - i,
    {
        i = i + 1;
    }
    i
}

proof fn lemma_cstr_bound(s: Seq<u8>, k: int)
    requires
        0 <= k <= s.len(),
    ensures
        k <= cstr_len_from(s, k) <= s.len(),
    decreases s.len() - k,
{
    if k < s.len() && s[k] != 0 {
        lemma_cstr_bound(s, k + 1);
    }
}

proof fn lemma_relocs_err(d: Seq<u8>, code_len: int, i: nat, n: nat)
    requires
        i <= n,
        relocs_spec(d, code_len, i) is Err,
    ensures
        relocs_spec(d, code_len, n) == relocs_spec(d, code_len, i),
    decreases n - i,
{
    if i < n {
        lemma_relocs_err(d, code_len, i, (n - 1) as nat);
    }
}

/// Check an MNX1 image held in memory and resolve its relocations.
pub fn load_from_bytes(buf: &[u8]) -> (r: Result<LoadedMnx, MnxError>)
    ensures
        match mnx_spec(buf@) {
            Err(e) => r == Err::<LoadedMnx, MnxError>(e),
            Ok((name, code_len, init_off, exit_off, relocs)) => r matches Ok(m) && m.name@ == name && m.code_len == code_len
                && m.init_off == init_off && m.exit_off == exit_off && m.relocs@ == relocs,
        },
{
    let bl = buf.len();
    if bl < MNX_HEADER_SIZE {
        return Err(MnxError::Truncated);
    }
    let magic = read_u32_le(buf, 0);
    if magic != MNX_MAGIC {
        return Err(MnxError::BadMagic);
    }
    let name_len = cstr_len_at(buf, 4, MNX_NAME_LEN);
    let ghost raw = buf@.subrange(4, 4 + MNX_NAME_LEN as int);
    if name_len == 0 {
        return Err(MnxError::BadName);
    }
    let mut k: usize = 0;
    while k < name_len
        invariant
            name_len <= MNX_NAME_LEN,
            bl == buf@.len(),
            bl >= MNX_HEADER_SIZE,
            raw == buf@.subrange(4, 4 + MNX_NAME_LEN as int),
            le32(buf@, 0) == MNX_MAGIC,
            name_len == cstr_len(raw),
            name_len > 0,
            k <= name_len,
            forall|j: int| 0 <= j < k ==> 0x20 <= #[trigger] raw.take(name_len as int)[j] <= 0x7e,
        decreases name_len - k,
    {
        let c = buf[4 + k];
        if c < 0x20 || c > 0x7e {
            assert(!printable(raw.take(name_len as int)) ) by {
                assert(raw.take(name_len as int)[k as int] == c);
            }
            return Err(MnxError::BadName);
        }
        k = k + 1;
    }
    assert(printable(raw.take(name_len as int)));
    let code_len = read_u32_le(buf, 32) as usize;
    let init_off = read_u32_le(buf, 36);
    let exit_off = read_u32_le(buf, 40);
    let n_relocs = read_u32_le(buf, 44) as usize;
    if code_len == 0 || code_len > MNX_MAX_CODE {
        return Err(MnxError::BadCode);
    }
    if n_relocs > MNX_MAX_RELOCS {
        return Err(MnxError::BadReloc);
    }
    if init_off as usize >= code_len {
        return Err(MnxError::BadCode);
    }
    if exit_off != MNX_EXIT_NONE && exit_off as usize >= code_len {
        return Err(MnxError::BadCode);
    }
    let code_end = MNX_HEADER_SIZE + code_len;
    let reloc_end = code_end + n_relocs * MNX_RELOC_SIZE;
    if reloc_end > bl {
        return Err(MnxError::Truncated);
    }
    let name = copy_prefix(&buf[4..4 + MNX_NAME_LEN], name_len);
    let exit_opt: Option<u32> = if exit_off == MNX_EXIT_NONE { None } else { Some(exit_off) };
    let ghost whole = mnx_spec(buf@);
    assert(name@ =~= raw.take(name_len as int));
    assert(whole == match relocs_spec(buf@, code_len as int, n_relocs as nat) {
        Err(e) => Err(e),
        Ok(rs) => Ok::<(Seq<u8>, int, u32, Option<u32>, Seq<(usize, usize)>), MnxError>((name@, code_len as int, init_off, exit_opt, rs)),
    });
    let mut relocs: Vec<(usize, usize)> = Vec::new();
    let mut i: usize = 0;
    while i < n_relocs
        invariant
            bl == buf@.len(),
            n_relocs <= MNX_MAX_RELOCS,
            code_len <= MNX_MAX_CODE,
            code_end == MNX_HEADER_SIZE + code_len,
            code_end + n_relocs * MNX_RELOC_SIZE <= bl,
            i <= n_relocs,
            code_len == le32(buf@, 32),
            whole == mnx_spec(buf@),
            whole == match relocs_spec(buf@, code_len as int, n_relocs as nat) {
                Err(e) => Err(e),
                Ok(rs) => Ok::<(Seq<u8>, int, u32, Option<u32>, Seq<(usize, usize)>), MnxError>((name@, code_len as int, init_off, exit_opt, rs)),
            },
            relocs_spec(buf@, code_len as int, i as nat) == Ok::<Seq<(usize, usize)>, MnxError>(relocs@),
        decreases n_relocs - i,
    {
        assert(i * MNX_RELOC_SIZE + MNX_RELOC_SIZE <= n_relocs * MNX_RELOC_SIZE) by (nonlinear_arith)
            requires
                i < n_relocs,
        ;
        let ro = code_end + i * MNX_RELOC_SIZE;
        let off32 = read_u32_le(buf, ro);
        if off32 as u64 + 8 > code_len as u64 {
            proof {
                lemma_relocs_err(buf@, code_len as int, (i + 1) as nat, n_relocs as nat);
            }
            return Err(MnxError::BadReloc);
        }
        let slen = cstr_len_at(buf, ro + 4, MNX_SYM_LEN);
        let sym = &buf[ro + 4..ro + 4 + slen];
        proof {
            let raw = buf@.subrange(ro + 4, ro + 4 + MNX_SYM_LEN);
            assert(sym@ =~= raw.take(slen as int));
        }
        let ok = slen > 0 && utf8_text(sym).is_some();
        if !ok {
            proof {
                lemma_relocs_err(buf@, code_len as int, (i + 1) as nat, n_relocs as nat);
            }
            return Err(MnxError::BadReloc);
        }
        match lookup(sym) {
            None => {
                proof {
                    lemma_relocs_err(buf@, code_len as int, (i + 1) as nat, n_relocs as nat);
                }
                return Err(MnxError::Unresolved);
            },
            Some(x) => {
                relocs.push((off32 as usize, x));
            },
        }
        i = i + 1;
    }
    Ok(LoadedMnx {
        name,
        code_len,
        init_off,
        exit_off: exit_opt,
        relocs,
    })
}

} // verus!
