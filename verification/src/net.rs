//! Minimal Ethernet, ARP and IPv4 ICMP echo: the frames the kernel sends,
//! what it does with a frame it receives, and the steps of a ping.
//!
//! Handing frames to the network card and polling it is the driver's; the
//! functions here build the frames and decide.

use vstd::prelude::*;

verus! {

pub const ETH_HLEN: usize = 14;
pub const ETH_ARP: u16 = 0x0806;
pub const ETH_IP: u16 = 0x0800;
pub const ARP_REQUEST: u16 = 1;
pub const ARP_REPLY: u16 = 2;
pub const IPPROTO_ICMP: u8 = 1;
pub const ICMP_ECHO: u8 = 8;
pub const ICMP_ECHOREPLY: u8 = 0;
/// 10.0.2.15
pub const GUEST_IP: u32 = 0x0A00_020F;
/// 10.0.2.2
pub const GW_IP: u32 = 0x0A00_0202;
pub const ENODEV: i32 = -19;
pub const EBUSY: i32 = -16;
pub const ETIMEDOUT: i32 = -110;

/// Big-endian bytes of `v`.
pub open spec fn be16(v: u16) -> Seq<u8> {
    seq![(v / 256) as u8, (v % 256) as u8]
}

pub open spec fn be32(v: u32) -> Seq<u8> {
    seq![(v / 0x1000000) as u8, (v / 0x10000 % 256) as u8, (v / 256 % 256) as u8, (v % 256) as u8]
}

/// Big-endian value of the bytes at `o`.
pub open spec fn rd16(d: Seq<u8>, o: int) -> int {
    d[o] * 256 + d[o + 1]
}

pub open spec fn rd32(d: Seq<u8>, o: int) -> int {
    d[o] * 0x1000000 + d[o + 1] * 0x10000 + d[o + 2] * 256 + d[o + 3]
}

fn push_be16(v: &mut Vec<u8>, x: u16)
    ensures
        final(v)@ == old(v)@ + be16(x),
{
    v.push((x / 256) as u8);
    v.push((x % 256) as u8);
    assert(v@ =~= old(v)@ + be16(x));
}

fn push_be32(v: &mut Vec<u8>, x: u32)
    ensures
        final(v)@ == old(v)@ + be32(x),
{
    v.push((x / 0x1000000) as u8);
    v.push((x / 0x10000 % 256) as u8);
    v.push((x / 256 % 256) as u8);
    v.push((x % 256) as u8);
    assert(v@ =~= old(v)@ + be32(x));
}

fn push_bytes(v: &mut Vec<u8>, s: &[u8])
    ensures
        final(v)@ == old(v)@ + s@,
{
    crate::procfs::push_all(v, s);
}

/// Sum of the big-endian 16-bit words of `d` below index `i` (`i` even).
pub open spec fn word_sum(d: Seq<u8>, i: int) -> int
    decreases i,
{
    if i < 2 {
        0
    } else {
        word_sum(d, i - 2) + d[i - 2] * 256 + d[i - 1]
    }
}

/// The sum of `d` as big-endian 16-bit words, a last odd byte as the high half.
pub open spec fn ones_sum(d: Seq<u8>) -> int {
    let even = d.len() - d.len() % 2;
    word_sum(d, even) + if d.len() % 2 == 1 { d[d.len() - 1] * 256 } else { 0 }
}

/// One fold of the carries above bit 16 into the low half.
pub open spec fn fold_once(s: u32) -> u32 {
    ((s & 0xffff) + (s >> 16)) as u32
}

/// `s` with its carries folded in (twice is always enough).
pub open spec fn folded(s: u32) -> u32 {
    if s >> 16 == 0 {
        s
    } else if fold_once(s) >> 16 == 0 {
        fold_once(s)
    } else {
        fold_once(fold_once(s))
    }
}

/// The Internet checksum of `d`.
pub open spec fn checksum_spec(d: Seq<u8>) -> u16 {
    !(folded(ones_sum(d) as u32) as u16)
}

proof fn lemma_word_sum_bound(d: Seq<u8>, i: int)
    requires
        0 <= i <= d.len(),
        i % 2 == 0,
    ensures
        0 <= word_sum(d, i) <= (i / 2) * 65535,
    decreases i,
{
    if i > 0 {
        lemma_word_sum_bound(d, i - 2);
    }
}

/// The Internet checksum: the ones' complement of the ones' complement sum
/// of the 16-bit big-endian words (a last odd byte padded with zero).
pub fn checksum(data: &[u8]) -> (c: u16)
    requires
        data@.len() <= 65536,
    ensures
        c == checksum_spec(data@),
{
    let n = data.len();
    let mut sum: u32 = 0;
    let mut i: usize = 0;
    while i + 1 < n
        invariant
            n == data@.len(),
            n <= 65536,
            i % 2 == 0,
            i <= n,
            sum == word_sum(data@, i as int),
            sum <= (i / 2) * 65535,
        decreases n - i,
    {
        proof {
            lemma_word_sum_bound(data@, i as int);
        }
        sum = sum + (data[i] as u32) * 256 + data[i + 1] as u32;
        i = i + 2;
    }
    proof {
        assert(i == n - n % 2);
    }
    if i < n {
        sum = sum + (data[i] as u32) * 256;
    }
    assert(sum == ones_sum(data@));
    let ghost s0 = sum;
    while (sum >> 16) != 0
        invariant
            folded(sum) == folded(s0),
        decreases sum,
    {
        assert((sum & 0xffff) + (sum >> 16) <= 0x1fffe) by (bit_vector);
        let t = (sum & 0xffff) + (sum >> 16);
        assert(t < sum && folded(t) == folded(sum)) by (bit_vector)
            requires
                sum >> 16 != 0,
                t == (sum & 0xffff) + (sum >> 16),
        ;
        sum = t;
    }
    assert(folded(sum) == sum) by (bit_vector)
        requires
            sum >> 16 == 0,
    ;
    !(sum as u16)
}

/// An ARP frame over Ethernet (42 bytes).
pub open spec fn arp_frame(dst: Seq<u8>, mac: Seq<u8>, op: u16, spa: u32, tha: Seq<u8>, tpa: u32) -> Seq<u8> {
    dst + mac + be16(ETH_ARP) + be16(1) + be16(ETH_IP) + seq![6u8, 4u8] + be16(op) + mac + be32(spa) + tha + be32(tpa)
}

fn arp_frame_exec(dst: &[u8], mac: &[u8], op: u16, spa: u32, tha: &[u8], tpa: u32) -> (f: Vec<u8>)
    ensures
        f@ == arp_frame(dst@, mac@, op, spa, tha@, tpa),
{
    let mut f: Vec<u8> = Vec::new();
    push_bytes(&mut f, dst);
    push_bytes(&mut f, mac);
    push_be16(&mut f, ETH_ARP);
    push_be16(&mut f, 1);
    push_be16(&mut f, ETH_IP);
    f.push(6);
    f.push(4);
    push_be16(&mut f, op);
    push_bytes(&mut f, mac);
    push_be32(&mut f, spa);
    push_bytes(&mut f, tha);
    push_be32(&mut f, tpa);
    assert(f@ =~= arp_frame(dst@, mac@, op, spa, tha@, tpa));
    f
}

/// Who has `dst_ip`? Broadcast from `mac`.
pub fn arp_request(mac: &[u8; 6], dst_ip: u32) -> (f: Vec<u8>)
    ensures
        f@ == arp_frame(Seq::new(6, |i: int| 0xffu8), mac@, ARP_REQUEST, GUEST_IP, Seq::new(6, |i: int| 0u8), dst_ip),
{
    let bcast: [u8; 6] = [0xff; 6];
    let zero: [u8; 6] = [0; 6];
    assert(bcast@ =~= Seq::new(6, |i: int| 0xffu8));
    assert(zero@ =~= Seq::new(6, |i: int| 0u8));
    arp_frame_exec(&bcast, mac, ARP_REQUEST, GUEST_IP, &zero, dst_ip)
}

/// `GUEST_IP` is at `mac`, answered to `tha`/`tpa`.
pub fn arp_reply(mac: &[u8; 6], tha: &[u8; 6], tpa: u32) -> (f: Vec<u8>)
    ensures
        f@ == arp_frame(tha@, mac@, ARP_REPLY, GUEST_IP, tha@, tpa),
{
    arp_frame_exec(tha, mac, ARP_REPLY, GUEST_IP, tha, tpa)
}

/// The IPv4 header of an echo request to `dst` with checksum `c`.
pub open spec fn ip_header(dst: u32, c: u16) -> Seq<u8> {
    seq![0x45u8, 0u8] + be16(36) + be16(0x4242) + be16(0) + seq![64u8, IPPROTO_ICMP] + be16(c) + be32(GUEST_IP) + be32(dst)
}

/// The payload of an echo request: `munuxnet`.
pub open spec fn echo_payload() -> Seq<u8> {
    seq![0x6du8, 0x75u8, 0x6eu8, 0x75u8, 0x78u8, 0x6eu8, 0x65u8, 0x74u8]
}

/// The ICMP echo request with checksum `c`.
pub open spec fn icmp_echo(id: u16, seq: u16, c: u16) -> Seq<u8> {
    seq![ICMP_ECHO, 0u8] + be16(c) + be16(id) + be16(seq) + echo_payload()
}

/// An ICMP echo request frame (50 bytes) from `mac` to `dmac` for `dst_ip`.
pub open spec fn echo_frame(mac: Seq<u8>, dst_ip: u32, dmac: Seq<u8>, id: u16, seq: u16) -> Seq<u8> {
    dmac + mac + be16(ETH_IP) + ip_header(dst_ip, checksum_spec(ip_header(dst_ip, 0))) + icmp_echo(
        id,
        seq,
        checksum_spec(icmp_echo(id, seq, 0)),
    )
}

fn ip_header_exec(dst: u32, c: u16) -> (h: Vec<u8>)
    ensures
        h@ == ip_header(dst, c),
{
    let mut h: Vec<u8> = Vec::new();
    h.push(0x45);
    h.push(0);
    push_be16(&mut h, 36);
    push_be16(&mut h, 0x4242);
    push_be16(&mut h, 0);
    h.push(64);
    h.push(IPPROTO_ICMP);
    push_be16(&mut h, c);
    push_be32(&mut h, GUEST_IP);
    push_be32(&mut h, dst);
    assert(h@ =~= ip_header(dst, c));
    h
}

fn icmp_exec(id: u16, seq: u16, c: u16) -> (m: Vec<u8>)
    ensures
        m@ == icmp_echo(id, seq, c),
{
    let mut m: Vec<u8> = Vec::new();
    m.push(ICMP_ECHO);
    m.push(0);
    push_be16(&mut m, c);
    push_be16(&mut m, id);
    push_be16(&mut m, seq);
    m.push(0x6d);
    m.push(0x75);
    m.push(0x6e);
    m.push(0x75);
    m.push(0x78);
    m.push(0x6e);
    m.push(0x65);
    m.push(0x74);
    assert(m@ =~= icmp_echo(id, seq, c));
    m
}

/// An ICMP echo request frame.
pub fn icmp_echo_frame(mac: &[u8; 6], dst_ip: u32, dmac: &[u8; 6], id: u16, seq: u16) -> (f: Vec<u8>)
    ensures
        f@ == echo_frame(mac@, dst_ip, dmac@, id, seq),
{
    let h0 = ip_header_exec(dst_ip, 0);
    let hc = checksum(h0.as_slice());
    let h = ip_header_exec(dst_ip, hc);
    let m0 = icmp_exec(id, seq, 0);
    let mc = checksum(m0.as_slice());
    let m = icmp_exec(id, seq, mc);
    let mut f: Vec<u8> = Vec::new();
    push_bytes(&mut f, dmac);
    push_bytes(&mut f, mac);
    push_be16(&mut f, ETH_IP);
    push_bytes(&mut f, h.as_slice());
    push_bytes(&mut f, m.as_slice());
    assert(f@ =~= echo_frame(mac@, dst_ip, dmac@, id, seq));
    f
}

/// An ICMP echo in progress.
pub struct Ping {
    pub active: bool,
    pub dst: u32,
    pub id: u16,
    pub seq: u16,
    pub arp_ok: bool,
    pub reply: bool,
    pub gw_mac: [u8; 6],
}

/// The network card (when one is registered) and the ping state.
pub struct NetState {
    pub nic_used: bool,
    pub mac: [u8; 6],
    pub ping: Ping,
}

/// What a received ARP frame `f` (42 bytes or more) changes and answers.
pub open spec fn arp_effect(s: NetState, f: Seq<u8>) -> (bool, Option<Seq<u8>>) {
    let op = rd16(f, 20);
    let spa = rd32(f, 28);
    let tpa = rd32(f, 38);
    let learns = op == ARP_REPLY && tpa == GUEST_IP && s.ping.active && spa == s.ping.dst;
    let answer = if op == ARP_REQUEST && tpa == GUEST_IP {
        Some(arp_frame(f.subrange(22, 28), s.mac@, ARP_REPLY, GUEST_IP, f.subrange(22, 28), spa as u32))
    } else {
        None
    };
    (learns, answer)
}

/// Whether a received IPv4 frame `f` is the echo reply the ping waits for.
pub open spec fn ip_is_reply(s: NetState, f: Seq<u8>) -> bool {
    let ihl = (f[14] % 16) * 4;
    let off = 14 + ihl;
    &&& f.len() >= 34
    &&& f[14] / 16 == 4
    &&& ihl >= 20
    &&& rd32(f, 30) == GUEST_IP
    &&& f[23] == IPPROTO_ICMP
    &&& f.len() >= off + 8
    &&& f[off] == ICMP_ECHOREPLY
    &&& s.ping.active
    &&& rd16(f, off + 4) == s.ping.id
    &&& rd16(f, off + 6) == s.ping.seq
}

/// Ticks from `a` to `b`, 0 when `b` is earlier.
pub open spec fn elapsed(b: u64, a: u64) -> int {
    if b > a { b - a } else { 0 }
}

pub enum PingStep {
    /// The gateway answered: send this echo request.
    Echo(Vec<u8>),
    /// Ask again: send this ARP request.
    ResendArp(Vec<u8>),
    /// Keep polling.
    Wait,
    Timeout,
}

impl NetState {
    pub fn new() -> (n: NetState)
        ensures
            !n.nic_used,
            n.mac@ == Seq::new(6, |i: int| 0u8),
            !n.ping.active && n.ping.id == 0x4242 && n.ping.seq == 1 && !n.ping.arp_ok && !n.ping.reply,
    {
        let n = NetState {
            nic_used: false,
            mac: [0; 6],
            ping: Ping { active: false, dst: 0, id: 0x4242, seq: 1, arp_ok: false, reply: false, gw_mac: [0; 6] },
        };
        assert(n.mac@ =~= Seq::new(6, |i: int| 0u8));
        n
    }

    /// Take the card with address `mac`; `EBUSY` when one is registered.
    pub fn register_nic(&mut self, mac: [u8; 6]) -> (r: i32)
        ensures
            old(self).nic_used ==> r == EBUSY && final(self).nic_used && final(self).mac@ == old(self).mac@,
            !old(self).nic_used ==> r == 0 && final(self).nic_used && final(self).mac@ == mac@,
            final(self).ping.active == old(self).ping.active,
    {
        if self.nic_used {
            return EBUSY;
        }
        self.nic_used = true;
        self.mac = mac;
        0
    }

    /// Drop the card; a ping in progress stops.
    pub fn unregister_nic(&mut self)
        ensures
            !final(self).nic_used,
            final(self).mac@ == Seq::new(6, |i: int| 0u8),
            !final(self).ping.active,
    {
        self.nic_used = false;
        self.mac = [0; 6];
        self.ping.active = false;
        assert(self.mac@ =~= Seq::new(6, |i: int| 0u8));
    }

    /// A frame from the card: ARP requests for our address are answered
    /// (the answer is returned for sending), the ARP reply and the ICMP echo
    /// reply a ping waits for are noted. Anything else is ignored.
    pub fn netif_rx(&mut self, frame: &[u8]) -> (out: Option<Vec<u8>>)
        ensures
            final(self).nic_used == old(self).nic_used && final(self).mac@ == old(self).mac@,
            final(self).ping.active == old(self).ping.active && final(self).ping.dst == old(self).ping.dst,
            final(self).ping.id == old(self).ping.id && final(self).ping.seq == old(self).ping.seq,
            ({
                let f = frame@;
                let is_arp = f.len() >= 42 && rd16(f, 12) == ETH_ARP;
                let is_ip = f.len() >= ETH_HLEN && rd16(f, 12) == ETH_IP;
                let (learns, answer) = arp_effect(*old(self), f);
                &&& is_arp ==> match answer {
                    Some(a) => out matches Some(v) && v@ == a,
                    None => out is None,
                }
                &&& !is_arp ==> out is None
                &&& final(self).ping.arp_ok == (old(self).ping.arp_ok || (is_arp && learns))
                &&& final(self).ping.gw_mac@ == (if is_arp && learns { f.subrange(22, 28) } else { old(self).ping.gw_mac@ })
                &&& final(self).ping.reply == (old(self).ping.reply || (is_ip && ip_is_reply(*old(self), f)))
            }),
    {
        let n = frame.len();
        if n < ETH_HLEN {
            return None;
        }
        let et = (frame[12] as u16) * 256 + frame[13] as u16;
        if et == ETH_ARP {
            if n < 42 {
                return None;
            }
            let op = (frame[20] as u16) * 256 + frame[21] as u16;
            let spa = (frame[28] as u32) * 0x1000000 + (frame[29] as u32) * 0x10000 + (frame[30] as u32) * 256 + frame[31] as u32;
            let tpa = (frame[38] as u32) * 0x1000000 + (frame[39] as u32) * 0x10000 + (frame[40] as u32) * 256 + frame[41] as u32;
            let sha: [u8; 6] = [frame[22], frame[23], frame[24], frame[25], frame[26], frame[27]];
            assert(sha@ =~= frame@.subrange(22, 28));
            let mut out: Option<Vec<u8>> = None;
            if op == ARP_REQUEST && tpa == GUEST_IP {
                out = Some(arp_reply(&self.mac, &sha, spa));
            }
            if op == ARP_REPLY && tpa == GUEST_IP && self.ping.active && spa == self.ping.dst {
                self.ping.gw_mac = sha;
                self.ping.arp_ok = true;
            }
            out
        } else if et == ETH_IP {
            if n < 34 {
                return None;
            }
            let ihl = ((frame[14] % 16) as usize) * 4;
            if frame[14] / 16 != 4 || ihl < 20 {
                return None;
            }
            let dst = (frame[30] as u32) * 0x1000000 + (frame[31] as u32) * 0x10000 + (frame[32] as u32) * 256 + frame[33] as u32;
            if dst != GUEST_IP {
                return None;
            }
            if frame[23] != IPPROTO_ICMP {
                return None;
            }
            let off = 14 + ihl;
            if n < off + 8 {
                return None;
            }
            let typ = frame[off];
            let id = (frame[off + 4] as u16) * 256 + frame[off + 5] as u16;
            let seq = (frame[off + 6] as u16) * 256 + frame[off + 7] as u16;
            if typ == ICMP_ECHOREPLY && self.ping.active && id == self.ping.id && seq == self.ping.seq {
                self.ping.reply = true;
            }
            None
        } else {
            None
        }
    }

    /// Start a ping of `dst` (0: the gateway): `ENODEV` without a card;
    /// otherwise the target and the ARP request to send first.
    pub fn ping_begin(&mut self, dst: u32) -> (r: Result<(u32, Vec<u8>), i32>)
        ensures
            !old(self).nic_used ==> r == Err::<(u32, Vec<u8>), i32>(ENODEV),
            old(self).nic_used ==> {
                let d = if dst == 0 { GW_IP } else { dst };
                &&& r matches Ok(x) && x.0 == d && x.1@ == arp_frame(
                    Seq::new(6, |i: int| 0xffu8),
                    old(self).mac@,
                    ARP_REQUEST,
                    GUEST_IP,
                    Seq::new(6, |i: int| 0u8),
                    d,
                )
                &&& final(self).ping.active && final(self).ping.dst == d && !final(self).ping.arp_ok && !final(self).ping.reply
                &&& final(self).ping.seq == old(self).ping.seq.wrapping_add(1)
                &&& final(self).ping.id == old(self).ping.id
                &&& final(self).ping.gw_mac@ == Seq::new(6, |i: int| 0u8)
            },
            final(self).nic_used == old(self).nic_used && final(self).mac@ == old(self).mac@,
    {
        if !self.nic_used {
            return Err(ENODEV);
        }
        let d = if dst == 0 { GW_IP } else { dst };
        self.ping.active = true;
        self.ping.dst = d;
        self.ping.arp_ok = false;
        self.ping.reply = false;
        self.ping.seq = self.ping.seq.wrapping_add(1);
        self.ping.gw_mac = [0; 6];
        assert(self.ping.gw_mac@ =~= Seq::new(6, |i: int| 0u8));
        let f = arp_request(&self.mac, d);
        Ok((d, f))
    }

    /// One poll while waiting for the gateway's ARP reply, at tick `now`
    /// (started at `start`, last ARP request at `last_arp`).
    pub fn ping_arp_step(&mut self, now: u64, start: u64, last_arp: u64, timeout: u64) -> (r: PingStep)
        ensures
            final(self).nic_used == old(self).nic_used && final(self).mac@ == old(self).mac@,
            old(self).ping.arp_ok ==> (r matches PingStep::Echo(f) && f@ == echo_frame(
                old(self).mac@,
                old(self).ping.dst,
                old(self).ping.gw_mac@,
                old(self).ping.id,
                old(self).ping.seq,
            ) && final(self).ping.active == old(self).ping.active),
            !old(self).ping.arp_ok && elapsed(now, start) >= timeout ==> r is Timeout && !final(self).ping.active,
            !old(self).ping.arp_ok && elapsed(now, start) < timeout && elapsed(now, last_arp) >= 20 ==> (r matches PingStep::ResendArp(f)
                && f@ == arp_frame(Seq::new(6, |i: int| 0xffu8), old(self).mac@, ARP_REQUEST, GUEST_IP, Seq::new(6, |i: int| 0u8), old(self).ping.dst)
                && final(self).ping.active == old(self).ping.active),
            !old(self).ping.arp_ok && elapsed(now, start) < timeout && elapsed(now, last_arp) < 20 ==> r is Wait && final(self).ping.active == old(self).ping.active,
    {
        if self.ping.arp_ok {
            return PingStep::Echo(icmp_echo_frame(&self.mac, self.ping.dst, &self.ping.gw_mac, self.ping.id, self.ping.seq));
        }
        let waited = if now > start { now - start } else { 0 };
        if waited >= timeout {
            self.ping.active = false;
            return PingStep::Timeout;
        }
        let since = if now > last_arp { now - last_arp } else { 0 };
        if since >= 20 {
            return PingStep::ResendArp(arp_request(&self.mac, self.ping.dst));
        }
        PingStep::Wait
    }

    /// One poll while waiting for the echo reply: `Some(0)` once it came,
    /// `Some(ETIMEDOUT)` after `timeout` ticks, else `None`.
    pub fn ping_reply_step(&mut self, now: u64, start: u64, timeout: u64) -> (r: Option<i32>)
        ensures
            old(self).ping.reply ==> r == Some(0i32) && !final(self).ping.active,
            !old(self).ping.reply && elapsed(now, start) >= timeout ==> r == Some(ETIMEDOUT) && !final(self).ping.active,
            !old(self).ping.reply && elapsed(now, start) < timeout ==> r is None && final(self).ping.active == old(self).ping.active,
            final(self).nic_used == old(self).nic_used,
    {
        if self.ping.reply {
            self.ping.active = false;
            return Some(0);
        }
        let waited = if now > start { now - start } else { 0 };
        if waited >= timeout {
            self.ping.active = false;
            return Some(ETIMEDOUT);
        }
        None
    }
}

} // verus!
