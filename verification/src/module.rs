//! The table of loaded kernel modules: lookup by name, reference counts for
//! open devices, the two-step load and unload around a module's own init and
//! exit functions, and the `/proc/modules` and `lsmod` texts.
//!
//! A module's code image and its init/exit entry points live with the caller;
//! the table keeps what the kernel decides on.

use vstd::prelude::*;
use vstd::string::StringSliceAdditionalSpecFns;
use crate::mnx::{MnxError, MNX_NAME_LEN};
use crate::procfs::{dec_str, push_dec, push_all};
use crate::text::{utf8_text, bytes_eq, copy_prefix};

verus! {

pub const MAX_MODULES: usize = 8;

#[derive(Clone, Copy, Debug, PartialEq, Eq, Structural)]
pub enum ModuleState {
    Free,
    Live,
    Going,
}

/// One slot of the table.
#[derive(Clone, Debug)]
pub struct Module {
    pub used: bool,
    pub state: ModuleState,
    /// At most 28 bytes.
    pub name: Vec<u8>,
    pub refcount: u32,
    pub code_len: usize,
    /// Built into the kernel (no code image).
    pub builtin: bool,
}

/// Observable content of a slot.
pub struct ModView {
    pub used: bool,
    pub state: ModuleState,
    pub name: Seq<u8>,
    pub refcount: u32,
    pub code_len: usize,
    pub builtin: bool,
}

pub open spec fn mod_view(m: Module) -> ModView {
    ModView { used: m.used, state: m.state, name: m.name@, refcount: m.refcount, code_len: m.code_len, builtin: m.builtin }
}

pub open spec fn free_slot_view() -> ModView {
    ModView { used: false, state: ModuleState::Free, name: Seq::empty(), refcount: 0, code_len: 0, builtin: false }
}

/// How a module's name reads: itself when it is valid UTF-8, else `?`.
pub open spec fn shown_name(n: Seq<u8>) -> Seq<u8> {
    if vstd::utf8::valid_utf8(n) { n } else { "?".spec_bytes() }
}

impl Module {
    pub fn empty() -> (m: Module)
        ensures
            mod_view(m) == free_slot_view(),
    {
        Module { used: false, state: ModuleState::Free, name: Vec::new(), refcount: 0, code_len: 0, builtin: false }
    }

    pub fn name_str(&self) -> (r: &str)
        ensures
            r.spec_bytes() == shown_name(self.name@),
    {
        match utf8_text(self.name.as_slice()) {
            Some(s) => s,
            None => "?",
        }
    }
}

#[derive(Clone, Copy, Debug, PartialEq, Eq, Structural)]
pub enum ModuleError {
    Exists,
    NotFound,
    Busy,
    NoSlot,
    BadPath,
    Io,
    Format(MnxError),
    InitFail,
}

impl ModuleError {
    /// The text of this error.
    pub open spec fn text(&self) -> Seq<char> {
        match *self {
            ModuleError::Exists => "already loaded"@,
            ModuleError::NotFound => "not found"@,
            ModuleError::Busy => "in use"@,
            ModuleError::NoSlot => "module table full"@,
            ModuleError::BadPath => "bad path"@,
            ModuleError::Io => "I/O error"@,
            ModuleError::Format(e) => e.text(),
            ModuleError::InitFail => "init failed"@,
        }
    }

    pub fn as_str(self) -> (r: &'static str)
        ensures
            r@ == self.text(),
    {
        match self {
            ModuleError::Exists => "already loaded",
            ModuleError::NotFound => "not found",
            ModuleError::Busy => "in use",
            ModuleError::NoSlot => "module table full",
            ModuleError::BadPath => "bad path",
            ModuleError::Io => "I/O error",
            ModuleError::Format(e) => e.as_str(),
            ModuleError::InitFail => "init failed",
        }
    }
}

/// Index of the first used slot at or after `k` whose shown name is `name`.
pub open spec fn find_name(v: Seq<ModView>, name: Seq<u8>, k: int) -> Option<int>
    decreases v.len() - k,
{
    if k < 0 || k >= v.len() {
        None
    } else if v[k].used && shown_name(v[k].name) == name {
        Some(k)
    } else {
        find_name(v, name, k + 1)
    }
}

/// Index of the first unused slot at or after `k`.
pub open spec fn free_mod(v: Seq<ModView>, k: int) -> Option<int>
    decreases v.len() - k,
{
    if k < 0 || k >= v.len() {
        None
    } else if !v[k].used {
        Some(k)
    } else {
        free_mod(v, k + 1)
    }
}

/// The used slots, in order.
pub open spec fn live(v: Seq<ModView>) -> Seq<ModView>
    decreases v.len(),
{
    if v.len() == 0 {
        Seq::empty()
    } else if v.last().used {
        live(v.drop_last()).push(v.last())
    } else {
        live(v.drop_last())
    }
}

proof fn lemma_live_len(v: Seq<ModView>)
    ensures
        live(v).len() <= v.len(),
    decreases v.len(),
{
    if v.len() > 0 {
        lemma_live_len(v.drop_last());
    }
}

proof fn lemma_find_name_range(v: Seq<ModView>, name: Seq<u8>, k: int)
    ensures
        find_name(v, name, k) matches Some(i) ==> k <= i < v.len() && v[i].used,
    decreases v.len() - k,
{
    if k >= 0 && k < v.len() && !(v[k].used && shown_name(v[k].name) == name) {
        lemma_find_name_range(v, name, k + 1);
    }
}

proof fn lemma_free_mod_range(v: Seq<ModView>, k: int)
    ensures
        free_mod(v, k) matches Some(i) ==> k <= i < v.len() && !v[i].used,
    decreases v.len() - k,
{
    if k >= 0 && k < v.len() && v[k].used {
        lemma_free_mod_range(v, k + 1);
    }
}

pub struct ModuleTable {
    mods: Vec<Module>,
    loading: i32,
}

impl ModuleTable {
    pub closed spec fn view(&self) -> Seq<ModView> {
        Seq::new(self.mods@.len(), |i: int| mod_view(self.mods@[i]))
    }

    /// Slot whose init function is running, or -1.
    pub closed spec fn loading_spec(&self) -> i32 {
        self.loading
    }

    pub closed spec fn wf(&self) -> bool {
        &&& self.mods@.len() == MAX_MODULES
        &&& forall|i: int| 0 <= i < MAX_MODULES ==> (#[trigger] self.mods@[i]).name@.len() <= MNX_NAME_LEN
    }

    pub proof fn lemma_wf(&self)
        requires
            self.wf(),
        ensures
            self.view().len() == MAX_MODULES,
            forall|i: int| 0 <= i < MAX_MODULES ==> (#[trigger] self.view()[i]).name.len() <= MNX_NAME_LEN,
    {
    }

    /// Every slot free, nothing loading.
    pub fn new() -> (t: ModuleTable)
        ensures
            t.wf(),
            t.view() == Seq::new(MAX_MODULES as nat, |i: int| free_slot_view()),
            t.loading_spec() == -1,
    {
        let mut mods: Vec<Module> = Vec::new();
        while mods.len() < MAX_MODULES
            invariant
                mods@.len() <= MAX_MODULES,
                forall|i: int| 0 <= i < mods@.len() ==> mod_view(#[trigger] mods@[i]) == free_slot_view(),
            decreases MAX_MODULES - mods@.len(),
        {
            mods.push(Module::empty());
        }
        let t = ModuleTable { mods, loading: -1 };
        assert(t.view() =~= Seq::new(MAX_MODULES as nat, |i: int| free_slot_view()));
        t
    }

    /// The used slot named `name`, if any.
    pub fn find_by_name(&self, name: &[u8]) -> (r: Option<usize>)
        requires
            self.wf(),
        ensures
            r == (match find_name(self.view(), name@, 0) {
                Some(i) => Some(i as usize),
                None => None::<usize>,
            }),
    {
        let mut i: usize = 0;
        while i < MAX_MODULES
            invariant
                self.wf(),
                i <= MAX_MODULES,
                find_name(self.view(), name@, 0) == find_name(self.view(), name@, i as int),
            decreases MAX_MODULES - i,
        {
            if self.mods[i].used {
                let s = self.mods[i].name_str();
                if bytes_eq(s.as_bytes(), name) {
                    return Some(i);
                }
            }
            i = i + 1;
        }
        None
    }

    fn alloc_slot(&self) -> (r: Option<usize>)
        requires
            self.wf(),
        ensures
            r == (match free_mod(self.view(), 0) {
                Some(i) => Some(i as usize),
                None => None::<usize>,
            }),
    {
        let mut i: usize = 0;
        while i < MAX_MODULES && self.mods[i].used
            invariant
                self.wf(),
                i <= MAX_MODULES,
                free_mod(self.view(), 0) == free_mod(self.view(), i as int),
            decreases MAX_MODULES - i,
        {
            i = i + 1;
        }
        if i < MAX_MODULES {
            Some(i)
        } else {
            None
        }
    }

    /// The slot whose init function is running (`THIS_MODULE`), or -1.
    pub fn loading_slot(&self) -> (r: i32)
        ensures
            r == self.loading_spec(),
    {
        self.loading
    }

    fn set_slot(&mut self, i: usize, m: Module)
        requires
            old(self).wf(),
            i < MAX_MODULES,
            m.name@.len() <= MNX_NAME_LEN,
        ensures
            final(self).wf(),
            final(self).view() == old(self).view().update(i as int, mod_view(m)),
            final(self).loading_spec() == old(self).loading_spec(),
    {
        self.mods.set(i, m);
        assert(self.view() =~= old(self).view().update(i as int, mod_view(m)));
    }

    /// Take a reference on the module in `slot` (an open device it owns);
    /// false when the slot is not in use. The count stops at its largest value.
    pub fn try_get(&mut self, slot: usize) -> (ok: bool)
        requires
            old(self).wf(),
        ensures
            final(self).wf(),
            final(self).loading_spec() == old(self).loading_spec(),
            ok == (slot < MAX_MODULES && old(self).view()[slot as int].used),
            !ok ==> final(self).view() == old(self).view(),
            ok ==> final(self).view() == old(self).view().update(
                slot as int,
                ModView {
                    refcount: if old(self).view()[slot as int].refcount < u32::MAX {
                        (old(self).view()[slot as int].refcount + 1) as u32
                    } else {
                        u32::MAX
                    },
                    ..old(self).view()[slot as int]
                },
            ),
    {
        if slot >= MAX_MODULES || !self.mods[slot].used {
            return false;
        }
        let mut m = Module::empty();
        std::mem::swap(&mut m, &mut self.mods[slot]);
        m.refcount = if m.refcount < u32::MAX { m.refcount + 1 } else { u32::MAX };
        std::mem::swap(&mut m, &mut self.mods[slot]);
        assert(self.view() =~= old(self).view().update(
            slot as int,
            ModView {
                refcount: if old(self).view()[slot as int].refcount < u32::MAX {
                    (old(self).view()[slot as int].refcount + 1) as u32
                } else {
                    u32::MAX
                },
                ..old(self).view()[slot as int]
            },
        ));
        true
    }

    /// Drop a reference on the module in `slot`, if it has one.
    pub fn put(&mut self, slot: usize)
        requires
            old(self).wf(),
        ensures
            final(self).wf(),
            final(self).loading_spec() == old(self).loading_spec(),
            !(slot < MAX_MODULES && old(self).view()[slot as int].used && old(self).view()[slot as int].refcount > 0)
                ==> final(self).view() == old(self).view(),
            slot < MAX_MODULES && old(self).view()[slot as int].used && old(self).view()[slot as int].refcount > 0
                ==> final(self).view() == old(self).view().update(
                slot as int,
                ModView { refcount: (old(self).view()[slot as int].refcount - 1) as u32, ..old(self).view()[slot as int] },
            ),
    {
        if slot >= MAX_MODULES || !self.mods[slot].used || self.mods[slot].refcount == 0 {
            return;
        }
        let mut m = Module::empty();
        std::mem::swap(&mut m, &mut self.mods[slot]);
        m.refcount = m.refcount - 1;
        std::mem::swap(&mut m, &mut self.mods[slot]);
        assert(self.view() =~= old(self).view().update(
            slot as int,
            ModView { refcount: (old(self).view()[slot as int].refcount - 1) as u32, ..old(self).view()[slot as int] },
        ));
    }

    /// Number of modules in the table.
    pub fn live_count(&self) -> (n: usize)
        requires
            self.wf(),
        ensures
            n == live(self.view()).len(),
    {
        let mut n: usize = 0;
        let mut i: usize = 0;
        while i < MAX_MODULES
            invariant
                self.wf(),
                i <= MAX_MODULES,
                n == live(self.view().take(i as int)).len(),
            decreases MAX_MODULES - i,
        {
            proof {
                assert(self.view().take(i + 1).drop_last() =~= self.view().take(i as int));
                lemma_live_len(self.view().take(i as int));
            }
            if self.mods[i].used {
                n = n + 1;
            }
            i = i + 1;
        }
        assert(self.view().take(MAX_MODULES as int) =~= self.view());
        n
    }

    /// Name, code size and reference count of the `i`-th module in the table.
    pub fn live_at(&self, i: usize) -> (r: Option<(Vec<u8>, usize, u32)>)
        requires
            self.wf(),
        ensures
            i < live(self.view()).len() ==> (r matches Some(x) && x.0@ == live(self.view())[i as int].name
                && x.1 == live(self.view())[i as int].code_len && x.2 == live(self.view())[i as int].refcount),
            i >= live(self.view()).len() ==> r is None,
    {
        let mut n: usize = 0;
        let mut k: usize = 0;
        while k < MAX_MODULES
            invariant
                self.wf(),
                k <= MAX_MODULES,
                n == live(self.view().take(k as int)).len(),
                n <= i,
                live(self.view().take(k as int)) == live(self.view()).take(n as int),
            decreases MAX_MODULES - k,
        {
            proof {
                assert(self.view().take(k + 1).drop_last() =~= self.view().take(k as int));
                lemma_live_prefix(self.view(), k as int);
            }
            if self.mods[k].used {
                if n == i {
                    proof {
                        lemma_live_prefix(self.view(), k + 1);
                        assert(self.view().take(k + 1).last() == self.view()[k as int]);
                        assert(live(self.view().take(k + 1)) == live(self.view().take(k as int)).push(self.view()[k as int]));
                        let lv = live(self.view());
                        assert(lv.take(n + 1)[n as int] == self.view()[k as int]);
                        assert(lv[n as int] == self.view()[k as int]);
                    }
                    let nm = copy_prefix(self.mods[k].name.as_slice(), self.mods[k].name.len());
                    assert(self.mods[k as int].name@.take(self.mods[k as int].name@.len() as int) =~= self.mods[k as int].name@);
                    return Some((nm, self.mods[k].code_len, self.mods[k].refcount));
                }
                n = n + 1;
            }
            k = k + 1;
            proof {
                lemma_live_prefix(self.view(), k as int);
            }
        }
        assert(self.view().take(MAX_MODULES as int) =~= self.view());
        None
    }
}

/// The live entries of a prefix are a prefix of the live entries.
proof fn lemma_live_prefix(v: Seq<ModView>, k: int)
    requires
        0 <= k <= v.len(),
    ensures
        live(v.take(k)) == live(v).take(live(v.take(k)).len() as int),
        live(v.take(k)).len() <= live(v).len(),
    decreases v.len() - k,
{
    if k == v.len() {
        assert(v.take(k) =~= v);
    } else {
        lemma_live_prefix(v.drop_last(), k);
        assert(v.drop_last().take(k) =~= v.take(k));
        lemma_live_len(v.drop_last());
    }
}

/// One `/proc/modules` line: `name size refcount - Live 0x0`.
pub open spec fn proc_line(m: ModView) -> Seq<u8> {
    shown_name(m.name) + seq![32u8] + dec_str(m.code_len as u64) + seq![32u8] + dec_str(m.refcount as u64) + " - Live 0x0\n".spec_bytes()
}

/// The lines of `ms`, in order.
pub open spec fn proc_text(ms: Seq<ModView>) -> Seq<u8>
    decreases ms.len(),
{
    if ms.len() == 0 {
        Seq::empty()
    } else {
        proc_text(ms.drop_last()) + proc_line(ms.last())
    }
}

/// The name of module `m` padded to 22 columns.
pub open spec fn pad_of(m: ModView) -> nat {
    if m.name.len() < 22 { (22 - m.name.len()) as nat } else { 0 }
}

pub open spec fn state_text(st: ModuleState) -> Seq<u8> {
    match st {
        ModuleState::Live => "Live".spec_bytes(),
        ModuleState::Going => "Going".spec_bytes(),
        ModuleState::Free => "Free".spec_bytes(),
    }
}

/// Start of an `lsmod` line: name padded to 22 columns and size.
pub open spec fn lsmod_head(m: ModView) -> Seq<u8> {
    "  ".spec_bytes() + shown_name(m.name) + Seq::new(pad_of(m), |i: int| 32u8) + dec_str(m.code_len as u64)
}

/// End of an `lsmod` line: references, state and the built-in mark.
pub open spec fn lsmod_tail(m: ModView) -> Seq<u8> {
    "  ".spec_bytes() + dec_str(m.refcount as u64) + "  ".spec_bytes() + state_text(m.state) + (if m.builtin {
        " [builtin]".spec_bytes()
    } else {
        Seq::empty()
    }) + seq![10u8]
}

/// One `lsmod` line.
pub open spec fn lsmod_line(m: ModView) -> Seq<u8> {
    lsmod_head(m) + lsmod_tail(m)
}

pub open spec fn lsmod_lines(ms: Seq<ModView>) -> Seq<u8>
    decreases ms.len(),
{
    if ms.len() == 0 {
        Seq::empty()
    } else {
        lsmod_lines(ms.drop_last()) + lsmod_line(ms.last())
    }
}

/// The whole `lsmod` listing.
pub open spec fn lsmod_text(v: Seq<ModView>) -> Seq<u8> {
    "Module                  Size  Used  State\n".spec_bytes() + (if live(v).len() == 0 {
        "  (none)\n".spec_bytes()
    } else {
        lsmod_lines(live(v))
    }) + "exports=".spec_bytes() + dec_str(crate::export::EXPORT_COUNT as u64) + seq![10u8]
}

/// The table after placing module `name` in the lowest free slot.
pub open spec fn installed(v: Seq<ModView>, i: int, name: Seq<u8>, code_len: usize, builtin: bool) -> Seq<ModView> {
    v.update(
        i,
        ModView {
            used: true,
            state: ModuleState::Live,
            name: if name.len() < MNX_NAME_LEN { name } else { name.take(MNX_NAME_LEN as int) },
            refcount: 0,
            code_len,
            builtin,
        },
    )
}

/// The part of `p` after its last `/` (all of `p` without one).
pub open spec fn last_seg(p: Seq<u8>) -> Seq<u8> {
    match crate::ext2_write::last_slash(p, p.len() as int) {
        Some(k) => p.skip(k + 1),
        None => p,
    }
}

pub open spec fn ends_with(s: Seq<u8>, x: Seq<u8>) -> bool {
    x.len() <= s.len() && s.skip(s.len() - x.len()) == x
}

/// `b` without a `.ko` or else `.mnx` ending.
pub open spec fn strip_suffix_spec(b: Seq<u8>) -> Seq<u8> {
    if ends_with(b, ".ko".spec_bytes()) {
        b.take(b.len() - ".ko".spec_bytes().len())
    } else if ends_with(b, ".mnx".spec_bytes()) {
        b.take(b.len() - ".mnx".spec_bytes().len())
    } else {
        b
    }
}

/// The module name `insmod` derives from an argument (already trimmed).
pub open spec fn insmod_name(a: Seq<u8>) -> Seq<u8> {
    if a.len() > 0 && a[0] == 47 {
        strip_suffix_spec(last_seg(a))
    } else {
        strip_suffix_spec(a)
    }
}

/// `/lib/modules/<name><suffix>`, or nothing when it would pass 64 bytes.
pub open spec fn mod_file_path(name: Seq<u8>, suffix: Seq<u8>) -> Seq<u8> {
    let prefix = "/lib/modules/".spec_bytes();
    if prefix.len() + name.len() + suffix.len() > 64 {
        Seq::empty()
    } else {
        prefix + name + suffix
    }
}

/// Where `insmod` looks for a module: the files to try in order, and whether
/// the built-in `hello` stands in when none of them loads.
pub struct InsmodPlan {
    pub name: Vec<u8>,
    pub paths: Vec<Vec<u8>>,
    pub builtin_hello: bool,
}

fn ends_with_exec(s: &[u8], x: &[u8]) -> (r: bool)
    ensures
        r == ends_with(s@, x@),
{
    if x.len() > s.len() {
        return false;
    }
    let tail = &s[s.len() - x.len()..s.len()];
    crate::text::bytes_eq(tail, x)
}

/// A module file name without its `.ko` or `.mnx` ending.
pub fn strip_mod_suffix(base: &[u8]) -> (r: &[u8])
    ensures
        r@ == strip_suffix_spec(base@),
{
    let ko = ".ko".as_bytes();
    let mnx = ".mnx".as_bytes();
    if ends_with_exec(base, ko) {
        &base[0..base.len() - ko.len()]
    } else if ends_with_exec(base, mnx) {
        &base[0..base.len() - mnx.len()]
    } else {
        base
    }
}

/// `/lib/modules/<name><suffix>` (empty when longer than 64 bytes).
pub fn format_mod_file_path(name: &[u8], suffix: &[u8]) -> (p: Vec<u8>)
    ensures
        p@ == mod_file_path(name@, suffix@),
{
    let prefix = "/lib/modules/".as_bytes();
    if prefix.len() > 64 || name.len() > 64 || suffix.len() > 64 || prefix.len() + name.len() + suffix.len() > 64 {
        return Vec::new();
    }
    let mut p: Vec<u8> = Vec::new();
    push_all(&mut p, prefix);
    push_all(&mut p, name);
    push_all(&mut p, suffix);
    p
}

fn last_seg_exec(p: &[u8]) -> (r: &[u8])
    ensures
        r@ == last_seg(p@),
{
    let mut k = p.len();
    while k > 0 && p[k - 1] != 47
        invariant
            k <= p@.len(),
            crate::ext2_write::last_slash(p@, p@.len() as int) == crate::ext2_write::last_slash(p@, k as int),
        decreases k,
    {
        k = k - 1;
    }
    if k == 0 {
        p
    } else {
        &p[k..p.len()]
    }
}

fn push_proc_line(text: &mut Vec<u8>, m: &Module)
    ensures
        final(text)@ == old(text)@ + proc_line(mod_view(*m)),
{
    let nm = m.name_str();
    push_all(text, nm.as_bytes());
    text.push(32);
    push_dec(text, m.code_len as u64);
    text.push(32);
    push_dec(text, m.refcount as u64);
    push_all(text, " - Live 0x0\n".as_bytes());
    assert(text@ =~= old(text)@ + proc_line(mod_view(*m)));
}

fn push_lsmod_head(text: &mut Vec<u8>, m: &Module)
    ensures
        final(text)@ == old(text)@ + lsmod_head(mod_view(*m)),
{
    push_all(text, "  ".as_bytes());
    let nm = m.name_str();
    push_all(text, nm.as_bytes());
    let nl = m.name.len();
    let pad = if nl < 22 { 22 - nl } else { 0 };
    let ghost before_pad = text@;
    let mut j: usize = 0;
    while j < pad
        invariant
            j <= pad,
            text@ == before_pad + Seq::new(j as nat, |i: int| 32u8),
        decreases pad - j,
    {
        text.push(32);
        j = j + 1;
        assert(text@ =~= before_pad + Seq::new(j as nat, |i: int| 32u8));
    }
    push_dec(text, m.code_len as u64);
    assert(text@ =~= old(text)@ + lsmod_head(mod_view(*m)));
}

fn push_lsmod_tail(text: &mut Vec<u8>, m: &Module)
    ensures
        final(text)@ == old(text)@ + lsmod_tail(mod_view(*m)),
{
    push_all(text, "  ".as_bytes());
    push_dec(text, m.refcount as u64);
    push_all(text, "  ".as_bytes());
    let ghost mid = text@;
    match m.state {
        ModuleState::Live => push_all(text, "Live".as_bytes()),
        ModuleState::Going => push_all(text, "Going".as_bytes()),
        ModuleState::Free => push_all(text, "Free".as_bytes()),
    }
    assert(text@ == mid + state_text(m.state));
    let ghost mid2 = text@;
    if m.builtin {
        push_all(text, " [builtin]".as_bytes());
    }
    assert(text@ =~= mid2 + (if m.builtin { " [builtin]".spec_bytes() } else { Seq::<u8>::empty() }));
    text.push(10);
    assert(text@ =~= old(text)@ + lsmod_tail(mod_view(*m)));
}

fn push_lsmod_line(text: &mut Vec<u8>, m: &Module)
    ensures
        final(text)@ == old(text)@ + lsmod_line(mod_view(*m)),
{
    push_lsmod_head(text, m);
    push_lsmod_tail(text, m);
    assert(text@ =~= old(text)@ + lsmod_line(mod_view(*m)));
}

proof fn lemma_live_step(v: Seq<ModView>, k: int)
    requires
        0 <= k < v.len(),
    ensures
        live(v.take(k + 1)) == (if v[k].used { live(v.take(k)).push(v[k]) } else { live(v.take(k)) }),
{
    assert(v.take(k + 1).drop_last() =~= v.take(k));
    assert(v.take(k + 1).last() == v[k]);
}

impl ModuleTable {
    /// Decide how to load module `arg` (a name or an absolute path): the
    /// module name it gives, and the files to try. A bare name looks for
    /// `/lib/modules/<name>.ko` then `.mnx`, and `hello` falls back to the
    /// built-in module.
    pub fn insmod(&self, arg: &str) -> (r: Result<InsmodPlan, ModuleError>)
        requires
            self.wf(),
        ensures
            ({
                let a = crate::text::trimmed(arg.spec_bytes());
                let name = insmod_name(a);
                if a.len() == 0 {
                    r == Err::<InsmodPlan, ModuleError>(ModuleError::BadPath)
                } else if name.len() == 0 || name.len() > MNX_NAME_LEN {
                    r == Err::<InsmodPlan, ModuleError>(ModuleError::BadPath)
                } else if find_name(self.view(), name, 0) is Some {
                    r == Err::<InsmodPlan, ModuleError>(ModuleError::Exists)
                } else if a[0] == 47 {
                    r matches Ok(p) && p.name@ == name && p.paths@.len() == 1 && p.paths@[0]@ == a && !p.builtin_hello
                } else {
                    r matches Ok(p) && p.name@ == name && p.paths@.len() == 2 && p.paths@[0]@ == mod_file_path(name, ".ko".spec_bytes())
                        && p.paths@[1]@ == mod_file_path(name, ".mnx".spec_bytes()) && p.builtin_hello == (name == "hello".spec_bytes())
                }
            }),
    {
        let t = crate::text::trim(arg);
        self.insmod_trimmed(t.as_bytes())
    }

    /// `insmod` on an argument already stripped of surrounding white space.
pub fn insmod_trimmed(&self, arg: &[u8]) -> (r: Result<InsmodPlan, ModuleError>)
        requires
            self.wf(),
        ensures
            ({
                let a = arg@;
                let name = insmod_name(a);
                if a.len() == 0 {
                    r == Err::<InsmodPlan, ModuleError>(ModuleError::BadPath)
                } else if name.len() == 0 || name.len() > MNX_NAME_LEN {
                    r == Err::<InsmodPlan, ModuleError>(ModuleError::BadPath)
                } else if find_name(self.view(), name, 0) is Some {
                    r == Err::<InsmodPlan, ModuleError>(ModuleError::Exists)
                } else if a[0] == 47 {
                    r matches Ok(p) && p.name@ == name && p.paths@.len() == 1 && p.paths@[0]@ == a && !p.builtin_hello
                } else {
                    r matches Ok(p) && p.name@ == name && p.paths@.len() == 2 && p.paths@[0]@ == mod_file_path(name, ".ko".spec_bytes())
                        && p.paths@[1]@ == mod_file_path(name, ".mnx".spec_bytes()) && p.builtin_hello == (name == "hello".spec_bytes())
                }
            }),
    {
        let a = arg;
        if a.len() == 0 {
            return Err(ModuleError::BadPath);
        }
        let name = if a[0] == 47 {
            strip_mod_suffix(last_seg_exec(a))
        } else {
            strip_mod_suffix(a)
        };
        if name.len() == 0 || name.len() > MNX_NAME_LEN {
            return Err(ModuleError::BadPath);
        }
        if self.find_by_name(name).is_some() {
            return Err(ModuleError::Exists);
        }
        let nm = crate::text::copy_all(name);
        let mut paths: Vec<Vec<u8>> = Vec::new();
        if a[0] == 47 {
            paths.push(crate::text::copy_all(a));
            return Ok(InsmodPlan { name: nm, paths, builtin_hello: false });
        }
        paths.push(format_mod_file_path(name, ".ko".as_bytes()));
        paths.push(format_mod_file_path(name, ".mnx".as_bytes()));
        let hello = crate::text::bytes_eq(name, "hello".as_bytes());
        Ok(InsmodPlan { name: nm, paths, builtin_hello: hello })
    }

    /// First step of loading: put module `name` (cut to 28 bytes) live in the
    /// lowest free slot with no references and mark it as loading; its init
    /// function runs next.
    pub fn begin_install(&mut self, name: &[u8], code_len: usize, builtin: bool) -> (r: Result<usize, ModuleError>)
        requires
            old(self).wf(),
        ensures
            final(self).wf(),
            match free_mod(old(self).view(), 0) {
                None => r == Err::<usize, ModuleError>(ModuleError::NoSlot) && final(self).view() == old(self).view()
                    && final(self).loading_spec() == old(self).loading_spec(),
                Some(i) => r == Ok::<usize, ModuleError>(i as usize) && final(self).view() == installed(old(self).view(), i, name@, code_len, builtin)
                    && final(self).loading_spec() == i as i32,
            },
    {
        let slot = match self.alloc_slot() {
            None => return Err(ModuleError::NoSlot),
            Some(s) => s,
        };
        proof {
            lemma_free_mod_range(old(self).view(), 0);
        }
        let n = if name.len() < MNX_NAME_LEN { name.len() } else { MNX_NAME_LEN };
        let nm = copy_prefix(name, n);
        proof {
            if name@.len() < MNX_NAME_LEN {
                assert(name@.take(n as int) =~= name@);
            }
        }
        self.set_slot(slot, Module { used: true, state: ModuleState::Live, name: nm, refcount: 0, code_len, builtin });
        self.loading = slot as i32;
        Ok(slot)
    }

    /// Second step of loading, with what init returned: 0 keeps the module,
    /// anything else frees its slot (`InitFail`). Nothing is loading after.
    pub fn finish_install(&mut self, slot: usize, rc: i32) -> (r: Result<(), ModuleError>)
        requires
            old(self).wf(),
        ensures
            final(self).wf(),
            final(self).loading_spec() == -1,
            rc == 0 ==> r == Ok::<(), ModuleError>(()) && final(self).view() == old(self).view(),
            rc != 0 ==> r == Err::<(), ModuleError>(ModuleError::InitFail) && (if slot < MAX_MODULES {
                final(self).view() == old(self).view().update(slot as int, free_slot_view())
            } else {
                final(self).view() == old(self).view()
            }),
    {
        self.loading = -1;
        if rc != 0 {
            if slot < MAX_MODULES {
                self.set_slot(slot, Module::empty());
            }
            return Err(ModuleError::InitFail);
        }
        Ok(())
    }

    /// Place the built-in module `name`, unless one of that name is loaded.
    pub fn begin_builtin(&mut self, name: &str) -> (r: Result<usize, ModuleError>)
        requires
            old(self).wf(),
        ensures
            final(self).wf(),
            find_name(old(self).view(), name.spec_bytes(), 0) is Some ==> r == Err::<usize, ModuleError>(ModuleError::Exists)
                && final(self).view() == old(self).view(),
            find_name(old(self).view(), name.spec_bytes(), 0) is None ==> match free_mod(old(self).view(), 0) {
                None => r == Err::<usize, ModuleError>(ModuleError::NoSlot) && final(self).view() == old(self).view(),
                Some(i) => r == Ok::<usize, ModuleError>(i as usize) && final(self).view() == installed(old(self).view(), i, name.spec_bytes(), 0, true)
                    && final(self).loading_spec() == i as i32,
            },
    {
        if self.find_by_name(name.as_bytes()).is_some() {
            return Err(ModuleError::Exists);
        }
        self.begin_install(name.as_bytes(), 0, true)
    }

    /// First step of unloading module `name` (trimmed): refused while it has
    /// references (`Busy`); otherwise it is marked going and its exit
    /// function runs next.
    pub fn begin_rmmod(&mut self, name: &str) -> (r: Result<usize, ModuleError>)
        requires
            old(self).wf(),
        ensures
            final(self).wf(),
            final(self).loading_spec() == old(self).loading_spec(),
            ({
                let n = crate::text::trimmed(name.spec_bytes());
                if n.len() == 0 {
                    r == Err::<usize, ModuleError>(ModuleError::BadPath) && final(self).view() == old(self).view()
                } else {
                    match find_name(old(self).view(), n, 0) {
                        None => r == Err::<usize, ModuleError>(ModuleError::NotFound) && final(self).view() == old(self).view(),
                        Some(i) => if old(self).view()[i].refcount > 0 {
                            r == Err::<usize, ModuleError>(ModuleError::Busy) && final(self).view() == old(self).view()
                        } else {
                            r == Ok::<usize, ModuleError>(i as usize) && final(self).view() == old(self).view().update(
                                i,
                                ModView { state: ModuleState::Going, ..old(self).view()[i] },
                            )
                        },
                    }
                }
            }),
    {
        let t = crate::text::trim(name);
        self.begin_rmmod_trimmed(t.as_bytes())
    }

    /// `begin_rmmod` on a name already stripped of surrounding white space.
pub fn begin_rmmod_trimmed(&mut self, name: &[u8]) -> (r: Result<usize, ModuleError>)
        requires
            old(self).wf(),
        ensures
            final(self).wf(),
            final(self).loading_spec() == old(self).loading_spec(),
            ({
                let n = name@;
                if n.len() == 0 {
                    r == Err::<usize, ModuleError>(ModuleError::BadPath) && final(self).view() == old(self).view()
                } else {
                    match find_name(old(self).view(), n, 0) {
                        None => r == Err::<usize, ModuleError>(ModuleError::NotFound) && final(self).view() == old(self).view(),
                        Some(i) => if old(self).view()[i].refcount > 0 {
                            r == Err::<usize, ModuleError>(ModuleError::Busy) && final(self).view() == old(self).view()
                        } else {
                            r == Ok::<usize, ModuleError>(i as usize) && final(self).view() == old(self).view().update(
                                i,
                                ModView { state: ModuleState::Going, ..old(self).view()[i] },
                            )
                        },
                    }
                }
            }),
    {
        let n = name;
        if n.len() == 0 {
            return Err(ModuleError::BadPath);
        }
        let idx = match self.find_by_name(n) {
            None => return Err(ModuleError::NotFound),
            Some(i) => i,
        };
        proof {
            lemma_find_name_range(old(self).view(), n@, 0);
        }
        if self.mods[idx].refcount > 0 {
            return Err(ModuleError::Busy);
        }
        let mut m = Module::empty();
        std::mem::swap(&mut m, &mut self.mods[idx]);
        m.state = ModuleState::Going;
        std::mem::swap(&mut m, &mut self.mods[idx]);
        assert(self.view() =~= old(self).view().update(idx as int, ModView { state: ModuleState::Going, ..old(self).view()[idx as int] }));
        Ok(idx)
    }

    /// Last step of unloading: the slot is free again.
    pub fn finish_rmmod(&mut self, slot: usize)
        requires
            old(self).wf(),
        ensures
            final(self).wf(),
            final(self).loading_spec() == old(self).loading_spec(),
            slot < MAX_MODULES ==> final(self).view() == old(self).view().update(slot as int, free_slot_view()),
            slot >= MAX_MODULES ==> final(self).view() == old(self).view(),
    {
        if slot < MAX_MODULES {
            self.set_slot(slot, Module::empty());
        }
    }

    /// `/proc/modules` into `out`, cut to fit. Returns the bytes written.
    pub fn format_proc_modules(&self, out: &mut [u8]) -> (w: usize)
        requires
            self.wf(),
        ensures
            ({
                let t = proc_text(live(self.view()));
                &&& w == (if t.len() < old(out)@.len() { t.len() } else { old(out)@.len() })
                &&& final(out)@ == t.take(w as int) + old(out)@.skip(w as int)
            }),
    {
        let mut text: Vec<u8> = Vec::new();
        let mut k: usize = 0;
        while k < MAX_MODULES
            invariant
                self.wf(),
                k <= MAX_MODULES,
                text@ == proc_text(live(self.view().take(k as int))),
            decreases MAX_MODULES - k,
        {
            proof {
                assert(self.view().take(k + 1).drop_last() =~= self.view().take(k as int));
            }
            proof {
                lemma_live_step(self.view(), k as int);
            }
            if self.mods[k].used {
                push_proc_line(&mut text, &self.mods[k]);
                proof {
                    let ms = live(self.view().take(k as int)).push(self.view()[k as int]);
                    assert(ms.drop_last() =~= live(self.view().take(k as int)));
                }
            }
            k = k + 1;
        }
        assert(self.view().take(MAX_MODULES as int) =~= self.view());
        let ol = out.len();
        let tl = text.len();
        let w = if tl < ol { tl } else { ol };
        let mut i: usize = 0;
        while i < w
            invariant
                w <= text@.len(),
                w <= out@.len(),
                ol == out@.len(),
                out@.len() == old(out)@.len(),
                i <= w,
                forall|j: int| 0 <= j < i ==> out@[j] == text@[j],
                forall|j: int| w <= j < out@.len() ==> out@[j] == old(out)@[j],
            decreases w - i,
        {
            out[i] = text[i];
            i = i + 1;
        }
        assert(out@ =~= text@.take(w as int) + old(out)@.skip(w as int));
        w
    }

    /// The `lsmod` listing.
    pub fn lsmod(&self) -> (t: Vec<u8>)
        requires
            self.wf(),
        ensures
            t@ == lsmod_text(self.view()),
    {
        let mut text: Vec<u8> = Vec::new();
        push_all(&mut text, "Module                  Size  Used  State\n".as_bytes());
        let ghost head = text@;
        let mut any = false;
        let mut k: usize = 0;
        while k < MAX_MODULES
            invariant
                self.wf(),
                k <= MAX_MODULES,
                text@ == head + lsmod_lines(live(self.view().take(k as int))),
                any == (live(self.view().take(k as int)).len() > 0),
            decreases MAX_MODULES - k,
        {
            proof {
                assert(self.view().take(k + 1).drop_last() =~= self.view().take(k as int));
            }
            proof {
                lemma_live_step(self.view(), k as int);
            }
            if self.mods[k].used {
                any = true;
                push_lsmod_line(&mut text, &self.mods[k]);
                proof {
                    let ms = live(self.view().take(k as int)).push(self.view()[k as int]);
                    assert(ms.drop_last() =~= live(self.view().take(k as int)));
                    assert(text@ =~= head + lsmod_lines(ms));
                }
            }
            k = k + 1;
        }
        assert(self.view().take(MAX_MODULES as int) =~= self.view());
        if !any {
            push_all(&mut text, "  (none)\n".as_bytes());
        }
        push_all(&mut text, "exports=".as_bytes());
        push_dec(&mut text, crate::export::count() as u64);
        text.push(10);
        assert(text@ =~= lsmod_text(self.view()));
        text
    }
}

/// An ELF file (a `.ko` module) starts with `\x7fELF`.
pub fn is_elf(buf: &[u8]) -> (r: bool)
    ensures
        r == (buf@.len() >= 4 && buf@[0] == 0x7f && buf@[1] == 0x45 && buf@[2] == 0x4c && buf@[3] == 0x46),
{
    buf.len() >= 4 && buf[0] == 0x7f && buf[1] == 0x45 && buf[2] == 0x4c && buf[3] == 0x46
}

} // verus!
