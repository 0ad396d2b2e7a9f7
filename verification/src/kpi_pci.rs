//! PCI for drivers: configuration addresses, the devices found on bus 0,
//! matching them against a driver's id table, bindings, capability lists
//! and memory BARs. Port I/O and calling a driver's probe and remove are
//! the caller's.

use vstd::prelude::*;

verus! {

pub const MAX_DEV: usize = 32;
pub const MAX_BIND: usize = 32;
/// Matches any value in an id entry.
pub const PCI_ANY: u32 = 0xFFFF_FFFF;
/// Most id entries a registration walks.
pub const MAX_IDS: usize = 65;

#[derive(Clone, Copy, Debug, PartialEq, Eq, Structural)]
pub struct PciDev {
    pub bus: u32,
    pub devfn: u32,
    pub vendor: u16,
    pub device: u16,
    pub subsystem_vendor: u16,
    pub subsystem_device: u16,
    pub class: u32,
    pub irq: u32,
}

#[derive(Clone, Copy, Debug, PartialEq, Eq, Structural)]
pub struct PciDeviceId {
    pub vendor: u32,
    pub device: u32,
    pub subvendor: u32,
    pub subdevice: u32,
    pub class: u32,
    pub class_mask: u32,
    pub driver_data: u64,
}

/// A driver as the bus sees it: a handle naming it and its id table.
pub struct PciDriver {
    pub handle: u64,
    pub id_table: Vec<PciDeviceId>,
}

/// Configuration-space address of register `offset` of function `func` of
/// device `slot` on bus `bus`.
pub fn cfg_addr(bus: u32, slot: u32, func: u32, offset: u32) -> (a: u32)
    requires
        bus < 256,
        slot < 32,
        func < 8,
    ensures
        a == 0x8000_0000 + bus * 0x1_0000 + slot * 0x800 + func * 0x100 + offset % 0x100 - offset % 4,
{
    let a = 0x8000_0000u32 | (bus << 16) | (slot << 11) | (func << 8) | (offset & 0xFC);
    assert(a == 0x8000_0000 + bus * 0x1_0000 + slot * 0x800 + func * 0x100 + offset % 0x100 - offset % 4) by (bit_vector)
        requires
            a == 0x8000_0000u32 | (bus << 16) | (slot << 11) | (func << 8) | (offset & 0xFC),
            bus < 256,
            slot < 32,
            func < 8,
    ;
    a
}

/// The device a function's configuration registers describe: `id` (offset
/// 0), `classw` (8), `subsys` (0x2C), `irq_reg` (0x3C). An absent function
/// reads vendor 0xFFFF.
pub open spec fn dev_spec(bus: u32, slot: u32, func: u32, id: u32, classw: u32, subsys: u32, irq_reg: u32) -> Option<PciDev> {
    if id % 0x1_0000 == 0xFFFF {
        None
    } else {
        Some(PciDev {
            bus,
            devfn: (slot * 8 + func) as u32,
            vendor: (id % 0x1_0000) as u16,
            device: (id / 0x1_0000) as u16,
            subsystem_vendor: (subsys % 0x1_0000) as u16,
            subsystem_device: (subsys / 0x1_0000) as u16,
            class: classw / 0x100,
            irq: irq_reg % 0x100,
        })
    }
}

pub fn dev_from_cfg(bus: u32, slot: u32, func: u32, id: u32, classw: u32, subsys: u32, irq_reg: u32) -> (r: Option<PciDev>)
    requires
        slot < 32,
        func < 8,
    ensures
        r == dev_spec(bus, slot, func, id, classw, subsys, irq_reg),
{
    let vendor = (id & 0xFFFF) as u16;
    assert(vendor == id % 0x1_0000) by (bit_vector)
        requires
            vendor == (id & 0xFFFF) as u16,
    ;
    if vendor == 0xFFFF {
        return None;
    }
    let device = ((id >> 16) & 0xFFFF) as u16;
    let sv = (subsys & 0xFFFF) as u16;
    let sd = ((subsys >> 16) & 0xFFFF) as u16;
    let class = classw >> 8;
    let irq = irq_reg & 0xFF;
    let devfn = (slot << 3) | func;
    assert(device == id / 0x1_0000 && sv == subsys % 0x1_0000 && sd == subsys / 0x1_0000 && class == classw / 0x100
        && irq == irq_reg % 0x100) by (bit_vector)
        requires
            device == ((id >> 16) & 0xFFFF) as u16,
            sv == (subsys & 0xFFFF) as u16,
            sd == ((subsys >> 16) & 0xFFFF) as u16,
            class == classw >> 8,
            irq == irq_reg & 0xFF,
    ;
    assert(devfn == slot * 8 + func) by (bit_vector)
        requires
            devfn == (slot << 3) | func,
            slot < 32,
            func < 8,
    ;
    Some(PciDev { bus, devfn, vendor, device, subsystem_vendor: sv, subsystem_device: sd, class, irq })
}

/// Bus, slot and function of `dev`.
pub fn split_devfn(dev: &PciDev) -> (r: (u32, u32, u32))
    ensures
        r == (dev.bus, dev.devfn / 8 % 32, dev.devfn % 8),
{
    let d = dev.devfn;
    let slot = (d >> 3) & 0x1F;
    let func = d & 0x7;
    assert(slot == d / 8 % 32 && func == d % 8) by (bit_vector)
        requires
            slot == (d >> 3) & 0x1F,
            func == d & 0x7,
    ;
    (dev.bus, slot, func)
}

/// The entry that ends an id table.
pub open spec fn id_end_spec(id: PciDeviceId) -> bool {
    id.vendor == 0 && id.device == 0 && id.class == 0 && id.class_mask == 0
}

pub fn id_end(id: &PciDeviceId) -> (r: bool)
    ensures
        r == id_end_spec(*id),
{
    id.vendor == 0 && id.device == 0 && id.class == 0 && id.class_mask == 0
}

/// Does id entry `id` match device `d`? `PCI_ANY` (and 0 for the
/// subsystem fields) matches anything; a class mask selects class bits.
pub open spec fn id_match_spec(id: PciDeviceId, d: PciDev) -> bool {
    &&& (id.vendor == PCI_ANY || id.vendor == d.vendor)
    &&& (id.device == PCI_ANY || id.device == d.device)
    &&& (id.subvendor == 0 || id.subvendor == PCI_ANY || id.subvendor == d.subsystem_vendor)
    &&& (id.subdevice == 0 || id.subdevice == PCI_ANY || id.subdevice == d.subsystem_device)
    &&& (id.class_mask == 0 || (d.class & id.class_mask) == id.class)
}

pub fn id_match(id: &PciDeviceId, d: &PciDev) -> (r: bool)
    ensures
        r == id_match_spec(*id, *d),
{
    if id.vendor != PCI_ANY && id.vendor != d.vendor as u32 {
        return false;
    }
    if id.device != PCI_ANY && id.device != d.device as u32 {
        return false;
    }
    if id.subvendor != 0 && id.subvendor != PCI_ANY && id.subvendor != d.subsystem_vendor as u32 {
        return false;
    }
    if id.subdevice != 0 && id.subdevice != PCI_ANY && id.subdevice != d.subsystem_device as u32 {
        return false;
    }
    if id.class_mask != 0 && (d.class & id.class_mask) != id.class {
        return false;
    }
    true
}

/// Entries of `ids` a registration walks: up to the end entry, at most
/// `MAX_IDS`, at most all of them.
pub open spec fn ids_walked(ids: Seq<PciDeviceId>, k: int) -> int
    decreases MAX_IDS - k,
{
    if k < 0 || k >= ids.len() || k >= MAX_IDS || id_end_spec(ids[k]) {
        k
    } else {
        ids_walked(ids, k + 1)
    }
}

pub fn ids_to_walk(ids: &[PciDeviceId]) -> (n: usize)
    ensures
        n == ids_walked(ids@, 0),
{
    let mut k: usize = 0;
    while k < ids.len() && k < MAX_IDS && !id_end(&ids[k])
        invariant
            k <= ids@.len(),
            k <= MAX_IDS,
            ids_walked(ids@, 0) == ids_walked(ids@, k as int),
        decreases MAX_IDS - k,
    {
        k = k + 1;
    }
    k
}

#[derive(Clone, Copy, Debug, PartialEq, Eq, Structural)]
pub struct Binding {
    pub used: bool,
    pub dev_i: usize,
    pub drv: u64,
}

pub open spec fn free_binding() -> Binding {
    Binding { used: false, dev_i: 0, drv: 0 }
}

/// Device `i` is bound to some driver.
pub open spec fn bound(b: Seq<Binding>, i: int) -> bool {
    exists|k: int| 0 <= k < b.len() && (#[trigger] b[k]).used && b[k].dev_i == i
}

/// Unbound devices among the first `n` that `id` matches, in order.
pub open spec fn candidates(devs: Seq<PciDev>, b: Seq<Binding>, id: PciDeviceId, n: int) -> Seq<usize>
    decreases n,
{
    if n <= 0 {
        Seq::empty()
    } else {
        let rest = candidates(devs, b, id, n - 1);
        if !bound(b, n - 1) && id_match_spec(id, devs[n - 1]) {
            rest.push((n - 1) as usize)
        } else {
            rest
        }
    }
}

/// First free binding slot from `k`.
pub open spec fn free_bind(b: Seq<Binding>, k: int) -> Option<int>
    decreases b.len() - k,
{
    if k < 0 || k >= b.len() {
        None
    } else if !b[k].used {
        Some(k)
    } else {
        free_bind(b, k + 1)
    }
}

/// The bindings after driver `drv` is removed.
pub open spec fn unbound(b: Seq<Binding>, drv: u64) -> Seq<Binding> {
    Seq::new(b.len(), |k: int| if b[k].used && b[k].drv == drv { free_binding() } else { b[k] })
}

/// Devices bound to `drv` among the first `n` bindings, in binding order.
pub open spec fn bound_to(b: Seq<Binding>, drv: u64, n: int) -> Seq<usize>
    decreases n,
{
    if n <= 0 {
        Seq::empty()
    } else {
        let rest = bound_to(b, drv, n - 1);
        if b[n - 1].used && b[n - 1].drv == drv {
            rest.push(b[n - 1].dev_i)
        } else {
            rest
        }
    }
}

/// The devices found on the bus and the driver bindings.
pub struct PciBus {
    devs: Vec<PciDev>,
    binds: Vec<Binding>,
}

impl PciBus {
    pub closed spec fn devs_view(&self) -> Seq<PciDev> {
        self.devs@
    }

    pub closed spec fn binds_view(&self) -> Seq<Binding> {
        self.binds@
    }

    pub closed spec fn wf(&self) -> bool {
        &&& self.devs@.len() <= MAX_DEV
        &&& self.binds@.len() == MAX_BIND
    }

    /// No devices, no bindings.
    pub fn new() -> (b: PciBus)
        ensures
            b.wf(),
            b.devs_view() == Seq::<PciDev>::empty(),
            b.binds_view() == Seq::new(MAX_BIND as nat, |k: int| free_binding()),
    {
        let mut binds: Vec<Binding> = Vec::new();
        while binds.len() < MAX_BIND
            invariant
                binds@.len() <= MAX_BIND,
                binds@ == Seq::new(binds@.len(), |k: int| free_binding()),
            decreases MAX_BIND - binds@.len(),
        {
            binds.push(Binding { used: false, dev_i: 0, drv: 0 });
            assert(binds@ =~= Seq::new(binds@.len(), |k: int| free_binding()));
        }
        PciBus { devs: Vec::new(), binds }
    }

    /// Record a device found by the scan (dropped once 32 are known).
    pub fn push_dev(&mut self, d: PciDev)
        requires
            old(self).wf(),
        ensures
            final(self).wf(),
            final(self).binds_view() == old(self).binds_view(),
            final(self).devs_view() == (if old(self).devs_view().len() < MAX_DEV {
                old(self).devs_view().push(d)
            } else {
                old(self).devs_view()
            }),
    {
        if self.devs.len() < MAX_DEV {
            self.devs.push(d);
        }
    }

    pub fn ndev(&self) -> (n: usize)
        ensures
            n == self.devs_view().len(),
    {
        self.devs.len()
    }

    pub fn dev(&self, i: usize) -> (d: Option<PciDev>)
        ensures
            i < self.devs_view().len() ==> d == Some(self.devs_view()[i as int]),
            i >= self.devs_view().len() ==> d is None,
    {
        if i < self.devs.len() {
            Some(self.devs[i])
        } else {
            None
        }
    }

    fn already_bound(&self, i: usize) -> (r: bool)
        requires
            self.wf(),
        ensures
            r == bound(self.binds_view(), i as int),
    {
        let mut k: usize = 0;
        while k < MAX_BIND
            invariant
                self.wf(),
                k <= MAX_BIND,
                forall|j: int| 0 <= j < k ==> !(self.binds@[j].used && self.binds@[j].dev_i == i),
            decreases MAX_BIND - k,
        {
            if self.binds[k].used && self.binds[k].dev_i == i {
                assert(self.binds@[k as int].used && self.binds@[k as int].dev_i == i);
                return true;
            }
            k = k + 1;
        }
        false
    }

    /// The devices a registration offers to the driver's probe for id
    /// entry `id`: unbound ones it matches, in device order.
    pub fn probe_candidates(&self, id: &PciDeviceId) -> (v: Vec<usize>)
        requires
            self.wf(),
        ensures
            v@ == candidates(self.devs_view(), self.binds_view(), *id, self.devs_view().len() as int),
    {
        let mut v: Vec<usize> = Vec::new();
        let mut i: usize = 0;
        while i < self.devs.len()
            invariant
                self.wf(),
                i <= self.devs@.len(),
                v@ == candidates(self.devs_view(), self.binds_view(), *id, i as int),
            decreases self.devs@.len() - i,
        {
            if !self.already_bound(i) && id_match(id, &self.devs[i]) {
                v.push(i);
            }
            i = i + 1;
        }
        v
    }

    /// Bind device `dev_i` to driver `drv` in the first free binding; false
    /// when all are taken.
    pub fn bind(&mut self, dev_i: usize, drv: u64) -> (ok: bool)
        requires
            old(self).wf(),
        ensures
            final(self).wf(),
            final(self).devs_view() == old(self).devs_view(),
            match free_bind(old(self).binds_view(), 0) {
                None => !ok && final(self).binds_view() == old(self).binds_view(),
                Some(k) => ok && final(self).binds_view() == old(self).binds_view().update(k, Binding { used: true, dev_i, drv }),
            },
    {
        let mut k: usize = 0;
        while k < MAX_BIND && self.binds[k].used
            invariant
                self.wf(),
                k <= MAX_BIND,
                free_bind(self.binds@, 0) == free_bind(self.binds@, k as int),
            decreases MAX_BIND - k,
        {
            k = k + 1;
        }
        if k >= MAX_BIND {
            return false;
        }
        self.binds.set(k, Binding { used: true, dev_i, drv });
        true
    }

    /// Drop every binding of driver `drv`; returns the devices it was
    /// bound to, for the caller to run the driver's remove on, in binding
    /// order.
    pub fn unregister_driver(&mut self, drv: u64) -> (gone: Vec<usize>)
        requires
            old(self).wf(),
        ensures
            final(self).wf(),
            final(self).devs_view() == old(self).devs_view(),
            final(self).binds_view() == unbound(old(self).binds_view(), drv),
            gone@ == bound_to(old(self).binds_view(), drv, MAX_BIND as int),
    {
        let mut gone: Vec<usize> = Vec::new();
        let mut k: usize = 0;
        while k < MAX_BIND
            invariant
                self.wf(),
                old(self).binds@.len() == MAX_BIND,
                k <= MAX_BIND,
                self.devs@ == old(self).devs@,
                forall|j: int| 0 <= j < k ==> #[trigger] self.binds@[j] == unbound(old(self).binds@, drv)[j],
                forall|j: int| k <= j < MAX_BIND ==> #[trigger] self.binds@[j] == old(self).binds@[j],
                gone@ == bound_to(old(self).binds@, drv, k as int),
            decreases MAX_BIND - k,
        {
            let ghost before = self.binds@;
            if self.binds[k].used && self.binds[k].drv == drv {
                gone.push(self.binds[k].dev_i);
                self.binds.set(k, Binding { used: false, dev_i: 0, drv: 0 });
            }
            assert(self.binds@[k as int] == unbound(old(self).binds@, drv)[k as int]);
            assert forall|j: int| 0 <= j < MAX_BIND && j != k implies #[trigger] self.binds@[j] == before[j] by {}
            k = k + 1;
        }
        assert(self.binds@ =~= unbound(old(self).binds@, drv));
        gone
    }
}

/// Byte `where_` of configuration space, from the dword that holds it.
pub fn cfg_byte(dw: u32, where_: u32) -> (b: u8)
    ensures
        b == (dw / pow8(where_ % 4)) % 256,
{
    let w = where_ & 3;
    assert(w < 4 && w == where_ % 4) by (bit_vector)
        requires
            w == where_ & 3,
    ;
    let shift = w * 8;
    let r = ((dw >> shift) & 0xff) as u8;
    assert(r == (dw / pow8(w)) % 256) by (bit_vector)
        requires
            w < 4,
            shift == w * 8,
            r == ((dw >> shift) & 0xff) as u8,
    ;
    r
}

/// 256 to the power `k` (k < 4).
pub open spec fn pow8(k: u32) -> u32 {
    if k == 0 {
        1
    } else if k == 1 {
        0x100
    } else if k == 2 {
        0x1_0000
    } else {
        0x100_0000
    }
}

/// Word `where_` (an even offset is assumed by the hardware) of
/// configuration space, from the dword that holds it.
pub fn cfg_word(dw: u32, where_: u32) -> (w: u16)
    ensures
        w == (if where_ & 2 != 0 { dw / 0x1_0000 } else { dw % 0x1_0000 }),
{
    let w = where_ & 2;
    assert(w == 0 || w == 2) by (bit_vector)
        requires
            w == where_ & 2,
    ;
    let shift = w * 8;
    let r = ((dw >> shift) & 0xffff) as u16;
    assert(r == (if w != 0 { dw / 0x1_0000 } else { dw % 0x1_0000 })) by (bit_vector)
        requires
            w == 0 || w == 2,
            shift == w * 8,
            r == ((dw >> shift) & 0xffff) as u16,
    ;
    r
}

/// Walk of the capability list from `pos` with `left` steps to go.
pub open spec fn cap_walk(cfg: Seq<u8>, id: u8, pos: u8, left: nat) -> u8
    decreases left,
{
    if left == 0 || pos < 0x40 {
        0
    } else if cfg[pos as int] == id {
        pos
    } else {
        cap_walk(cfg, id, cfg[pos + 1] & 0xFC, (left - 1) as nat)
    }
}

/// First capability `id` in the 256-byte configuration space `cfg`, or 0:
/// the list starts at byte 0x34 when status bit 4 says there is one, and is
/// followed for at most 48 entries.
pub open spec fn cap_spec(cfg: Seq<u8>, id: u8) -> u8 {
    if cfg[6] & 0x10 == 0 {
        0
    } else {
        cap_walk(cfg, id, cfg[0x34] & 0xFC, 48)
    }
}

pub fn pci_find_capability(cfg: &[u8], id: u8) -> (pos: u8)
    requires
        cfg@.len() == 256,
    ensures
        pos == cap_spec(cfg@, id),
{
    if cfg[6] & 0x10 == 0 {
        return 0;
    }
    let first = cfg[0x34];
    let mut pos: u8 = first & 0xFC;
    assert(pos <= 0xFC) by (bit_vector)
        requires
            pos == first & 0xFC,
    ;
    let mut left: u32 = 48;
    while left > 0
        invariant
            cfg@.len() == 256,
            pos <= 0xFC,
            left <= 48,
            cap_spec(cfg@, id) == cap_walk(cfg@, id, pos, left as nat),
        decreases left,
    {
        if pos < 0x40 {
            return 0;
        }
        if cfg[pos as usize] == id {
            return pos;
        }
        let nx = cfg[pos as usize + 1];
        pos = nx & 0xFC;
        assert(pos <= 0xFC) by (bit_vector)
            requires
                pos == nx & 0xFC,
        ;
        left = left - 1;
    }
    0
}

/// Physical address of a memory BAR from its raw value `raw` and, for a
/// 64-bit BAR, the next register `hi`; `None` for an empty, absent or I/O BAR.
pub open spec fn bar_spec(raw: u32, hi: u32) -> Option<u64> {
    if raw == 0 || raw == 0xFFFF_FFFF || raw % 2 == 1 {
        None
    } else {
        let lo = raw - raw % 16;
        if raw % 8 / 2 == 2 {
            Some((lo + hi * 0x1_0000_0000) as u64)
        } else {
            Some(lo as u64)
        }
    }
}

pub fn bar_phys(raw: u32, hi: u32) -> (r: Option<u64>)
    ensures
        r == bar_spec(raw, hi),
{
    if raw == 0 || raw == 0xFFFF_FFFF {
        return None;
    }
    if raw & 1 != 0 {
        assert(raw % 2 == 1) by (bit_vector)
            requires
                raw & 1 != 0,
        ;
        return None;
    }
    let lo = raw & 0xFFFF_FFF0;
    let wide = (raw & 0x6) == 0x4;
    assert(raw % 2 == 0 && lo == raw - raw % 16 && wide == (raw % 8 / 2 == 2)) by (bit_vector)
        requires
            raw & 1 == 0,
            lo == raw & 0xFFFF_FFF0,
            wide == ((raw & 0x6) == 0x4),
    ;
    let mut phys = lo as u64;
    if wide {
        phys = (lo as u64) + (hi as u64) * 0x1_0000_0000;
    }
    Some(phys)
}

/// Binding a device to a driver that holds no binding yet, in a free slot,
/// and then unregistering that driver gives the bindings back and reports
/// just that device.
pub proof fn lemma_bind_then_unregister(b: Seq<Binding>, k: int, dev_i: usize, drv: u64)
    requires
        0 <= k < b.len(),
        b[k] == free_binding(),
        forall|j: int| 0 <= j < b.len() ==> !((#[trigger] b[j]).used && b[j].drv == drv),
    ensures
        unbound(b.update(k, Binding { used: true, dev_i, drv }), drv) == b,
        bound_to(b.update(k, Binding { used: true, dev_i, drv }), drv, b.len() as int) == seq![dev_i],
{
    let w = b.update(k, Binding { used: true, dev_i, drv });
    assert(unbound(w, drv) =~= b);
    lemma_bound_to_one(b, k, dev_i, drv, b.len() as int);
}

proof fn lemma_bound_to_one(b: Seq<Binding>, k: int, dev_i: usize, drv: u64, n: int)
    requires
        0 <= k < b.len(),
        0 <= n <= b.len(),
        forall|j: int| 0 <= j < b.len() ==> !((#[trigger] b[j]).used && b[j].drv == drv),
    ensures
        bound_to(b.update(k, Binding { used: true, dev_i, drv }), drv, n) == (if n > k { seq![dev_i] } else { Seq::<usize>::empty() }),
    decreases n,
{
    if n > 0 {
        lemma_bound_to_one(b, k, dev_i, drv, n - 1);
        let w = b.update(k, Binding { used: true, dev_i, drv });
        if n - 1 == k {
            assert(Seq::<usize>::empty().push(dev_i) =~= seq![dev_i]);
        } else {
            assert(w[n - 1] == b[n - 1]);
        }
    }
}

} // verus!
