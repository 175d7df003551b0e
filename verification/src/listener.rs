//! The device simulator's UDP listeners: their configuration and its
//! checks, and the handling of one received packet (which packets are
//! served, the response packet, and the counters shown to the operator).

use vstd::prelude::*;

use crate::imm::{process_request_spec, raz2_with_slot, SlotModel, SlotState};
use crate::support::{hex_join, hex_preview_spec};
use crate::text::{dec_nat, push_char, str_eq, str_starts_with, trim_spec, trim_str, u64_to_string};

verus! {

/// One listener: the address it binds and the modem numbers it serves.
#[derive(Debug)]
pub struct ListenerConfig {
    pub ip: String,
    pub port: u16,
    pub modem_start: u16,
    pub modem_end: u16,
}

impl Clone for ListenerConfig {
    fn clone(&self) -> (r: Self)
        ensures
            r == *self,
    {
        ListenerConfig { ip: self.ip.clone(), port: self.port, modem_start: self.modem_start, modem_end: self.modem_end }
    }
}

/// The simulator's configuration: its listeners.
#[derive(Debug)]
pub struct AppConfig {
    pub listener: Vec<ListenerConfig>,
}

/// "ip:port".
pub open spec fn bind_addr_spec(l: ListenerConfig) -> Seq<char> {
    l.ip@ + ":"@ + dec_nat(l.port as nat)
}

/// "ip:port | start..=end".
pub open spec fn label_spec(l: ListenerConfig) -> Seq<char> {
    l.ip@ + ":"@ + dec_nat(l.port as nat) + " | "@ + dec_nat(l.modem_start as nat) + "..="@ + dec_nat(l.modem_end as nat)
}

/// What is wrong with a listener on its own, if anything.
pub open spec fn listener_error(l: ListenerConfig) -> Option<Seq<char>> {
    if trim_spec(l.ip@).len() == 0 {
        Some("listener.ip is empty"@)
    } else if l.modem_start > l.modem_end {
        Some("invalid modem range: "@ + dec_nat(l.modem_start as nat) + "..="@ + dec_nat(l.modem_end as nat))
    } else {
        None
    }
}

/// Whether the modem ranges of two listeners share a number.
pub open spec fn ranges_overlap(a: ListenerConfig, b: ListenerConfig) -> bool {
    a.modem_start <= b.modem_end && b.modem_start <= a.modem_end
}

/// What is wrong with a pair of listeners: the same bind address, or
/// overlapping modem ranges.
pub open spec fn pair_error(a: ListenerConfig, b: ListenerConfig) -> Option<Seq<char>> {
    if bind_addr_spec(a) == bind_addr_spec(b) {
        Some("duplicate bind_addr: "@ + bind_addr_spec(a))
    } else if ranges_overlap(a, b) {
        Some("overlapping modem ranges: "@ + label_spec(a) + " and "@ + label_spec(b))
    } else {
        None
    }
}

/// The first listener, in order, that is wrong on its own.
pub open spec fn first_listener_error(ls: Seq<ListenerConfig>) -> Option<Seq<char>>
    decreases ls.len(),
{
    if ls.len() == 0 {
        None
    } else {
        match listener_error(ls[0]) {
            Some(e) => Some(e),
            None => first_listener_error(ls.drop_first()),
        }
    }
}

/// The first wrong pair `(i, j)`, `i < j`, in order of `i` then `j`,
/// starting from `(i, j)`.
pub open spec fn scan_pairs(ls: Seq<ListenerConfig>, i: int, j: int) -> Option<Seq<char>>
    decreases ls.len() - i, ls.len() - j,
{
    if i < 0 || i >= ls.len() {
        None
    } else if j >= ls.len() {
        scan_pairs(ls, i + 1, i + 2)
    } else if j <= i {
        scan_pairs(ls, i, i + 1)
    } else {
        match pair_error(ls[i], ls[j]) {
            Some(e) => Some(e),
            None => scan_pairs(ls, i, j + 1),
        }
    }
}

/// What `AppConfig::validate` decides: no listener, a wrong listener, a
/// wrong pair, or nothing wrong.
pub open spec fn config_error(ls: Seq<ListenerConfig>) -> Option<Seq<char>> {
    if ls.len() == 0 {
        Some("config.listener is empty"@)
    } else {
        match first_listener_error(ls) {
            Some(e) => Some(e),
            None => scan_pairs(ls, 0, 1),
        }
    }
}

impl ListenerConfig {
    /// The address to bind, "ip:port".
    pub fn bind_addr(&self) -> (r: String)
        ensures
            r@ == bind_addr_spec(*self),
    {
        let mut s = self.ip.clone();
        s.append(":");
        s.append(u64_to_string(self.port as u64).as_str());
        s
    }

    /// The listener as shown to the operator.
    pub fn label(&self) -> (r: String)
        ensures
            r@ == label_spec(*self),
    {
        let mut s = self.ip.clone();
        s.append(":");
        s.append(u64_to_string(self.port as u64).as_str());
        s.append(" | ");
        s.append(u64_to_string(self.modem_start as u64).as_str());
        s.append("..=");
        s.append(u64_to_string(self.modem_end as u64).as_str());
        s
    }

    fn check(&self) -> (r: Option<String>)
        ensures
            match (r, listener_error(*self)) {
                (Some(e), Some(m)) => e@ == m,
                (None, None) => true,
                _ => false,
            },
    {
        let t = trim_str(self.ip.as_str());
        if t.as_str().unicode_len() == 0 {
            return Some(String::from_str("listener.ip is empty"));
        }
        if self.modem_start > self.modem_end {
            let mut e = String::from_str("invalid modem range: ");
            e.append(u64_to_string(self.modem_start as u64).as_str());
            e.append("..=");
            e.append(u64_to_string(self.modem_end as u64).as_str());
            return Some(e);
        }
        None
    }

    /// Checks a listener: an address is given and the modem range is not
    /// empty.
    pub fn validate(self) -> (r: Result<Self, String>)
        ensures
            match (r, listener_error(self)) {
                (Ok(l), None) => l == self,
                (Err(e), Some(m)) => e@ == m,
                _ => false,
            },
    {
        match self.check() {
            Some(e) => Err(e),
            None => Ok(self),
        }
    }
}

fn pair_check(a: &ListenerConfig, b: &ListenerConfig) -> (r: Option<String>)
    ensures
        match (r, pair_error(*a, *b)) {
            (Some(e), Some(m)) => e@ == m,
            (None, None) => true,
            _ => false,
        },
{
    let aa = a.bind_addr();
    let ba = b.bind_addr();
    if str_eq(aa.as_str(), ba.as_str()) {
        let mut e = String::from_str("duplicate bind_addr: ");
        e.append(aa.as_str());
        return Some(e);
    }
    if a.modem_start <= b.modem_end && b.modem_start <= a.modem_end {
        let mut e = String::from_str("overlapping modem ranges: ");
        e.append(a.label().as_str());
        e.append(" and ");
        e.append(b.label().as_str());
        return Some(e);
    }
    None
}

proof fn lemma_first_listener_error_prefix(ls: Seq<ListenerConfig>, k: int)
    requires
        0 <= k <= ls.len(),
        forall|m: int| 0 <= m < k ==> listener_error(#[trigger] ls[m]) is None,
    ensures
        first_listener_error(ls) == first_listener_error(ls.subrange(k, ls.len() as int)),
    decreases k,
{
    if k > 0 {
        let d = ls.drop_first();
        assert forall|m: int| 0 <= m < k - 1 implies listener_error(#[trigger] d[m]) is None by {
            assert(d[m] == ls[m + 1]);
        }
        lemma_first_listener_error_prefix(d, k - 1);
        assert(d.subrange(k - 1, d.len() as int) =~= ls.subrange(k, ls.len() as int));
    } else {
        assert(ls.subrange(0, ls.len() as int) =~= ls);
    }
}

impl AppConfig {
    /// Checks the configuration: at least one listener, each listener
    /// valid, and no two listeners with the same bind address or
    /// overlapping modem ranges. The first problem found is reported.
    pub fn validate(self) -> (r: Result<Self, String>)
        ensures
            match (r, config_error(self.listener@)) {
                (Ok(c), None) => c.listener@ == self.listener@,
                (Err(e), Some(m)) => e@ == m,
                _ => false,
            },
    {
        let n = self.listener.len();
        if n == 0 {
            return Err(String::from_str("config.listener is empty"));
        }
        let mut k: usize = 0;
        while k < n
            invariant
                n == self.listener@.len(),
                k <= n,
                forall|m: int| 0 <= m < k ==> listener_error(#[trigger] self.listener@[m]) is None,
            decreases n - k,
        {
            match self.listener[k].check() {
                Some(e) => {
                    proof {
                        lemma_first_listener_error_prefix(self.listener@, k as int);
                        let rest = self.listener@.subrange(k as int, n as int);
                        assert(rest[0] == self.listener@[k as int]);
                        assert(first_listener_error(rest) == listener_error(self.listener@[k as int]));
                        assert(first_listener_error(self.listener@) == Some(e@));
                        assert(config_error(self.listener@) == Some(e@));
                    }
                    return Err(e);
                },
                None => {},
            }
            k = k + 1;
        }
        proof {
            lemma_first_listener_error_prefix(self.listener@, n as int);
            assert(self.listener@.subrange(n as int, n as int).len() == 0);
        }
        let mut i: usize = 0;
        while i < n
            invariant
                n == self.listener@.len(),
                n > 0,
                i <= n,
                first_listener_error(self.listener@) is None,
                scan_pairs(self.listener@, 0, 1) == scan_pairs(self.listener@, i as int, i + 1),
            decreases n - i,
        {
            let mut j: usize = i + 1;
            while j < n
                invariant
                    n == self.listener@.len(),
                    i < n,
                    i < j <= n,
                    first_listener_error(self.listener@) is None,
                    scan_pairs(self.listener@, 0, 1) == scan_pairs(self.listener@, i as int, j as int),
                decreases n - j,
            {
                match pair_check(&self.listener[i], &self.listener[j]) {
                    Some(e) => {
                        assert(scan_pairs(self.listener@, i as int, j as int) == Some(e@));
                        assert(config_error(self.listener@) == Some(e@));
                        return Err(e);
                    },
                    None => {},
                }
                j = j + 1;
            }
            i = i + 1;
        }
        Ok(self)
    }
}

impl Default for AppConfig {
    /// One listener on 127.0.0.1:5100 for modems 50001..=65535.
    fn default() -> (c: Self)
        ensures
            c.listener@.len() == 1,
            c.listener@[0].ip@ == "127.0.0.1"@,
            c.listener@[0].port == 5100,
            c.listener@[0].modem_start == 50001,
            c.listener@[0].modem_end == 65535,
    {
        let l = ListenerConfig { ip: String::from_str("127.0.0.1"), port: 5100, modem_start: 50001, modem_end: 65535 };
        let mut v: Vec<ListenerConfig> = Vec::new();
        v.push(l);
        AppConfig { listener: v }
    }
}

/// A valid configuration never gives one modem to two listeners, nor one
/// address to two listeners.
pub proof fn lemma_valid_config_listeners_disjoint(ls: Seq<ListenerConfig>)
    requires
        config_error(ls) is None,
    ensures
        forall|i: int, j: int| 0 <= i < j < ls.len() ==> {
            &&& !ranges_overlap(#[trigger] ls[i], #[trigger] ls[j])
            &&& bind_addr_spec(ls[i]) != bind_addr_spec(ls[j])
        },
{
    assert forall|i: int, j: int| 0 <= i < j < ls.len() implies {
        &&& !ranges_overlap(#[trigger] ls[i], #[trigger] ls[j])
        &&& bind_addr_spec(ls[i]) != bind_addr_spec(ls[j])
    } by {
        lemma_scan_pairs_none(ls, 0, 1, i, j);
    }
}

/// When no wrong pair is found from `(i0, j0)` on, no pair after it is
/// wrong.
proof fn lemma_scan_pairs_none(ls: Seq<ListenerConfig>, i0: int, j0: int, i: int, j: int)
    requires
        0 <= i0,
        i0 < j0,
        scan_pairs(ls, i0, j0) is None,
        i0 < i || (i0 == i && j0 <= j),
        0 <= i < j < ls.len(),
    ensures
        pair_error(ls[i], ls[j]) is None,
    decreases ls.len() - i0, ls.len() - j0,
{
    if i0 >= ls.len() {
    } else if j0 >= ls.len() {
        lemma_scan_pairs_none(ls, i0 + 1, i0 + 2, i, j);
    } else if i0 == i && j0 == j {
    } else {
        lemma_scan_pairs_none(ls, i0, j0 + 1, i, j);
    }
}

// ---------------------------------------------------------------------
// Packets.
// ---------------------------------------------------------------------

/// Whether a modem number is served by the listener.
pub fn modem_allowed(config: &ListenerConfig, modem: u16) -> (r: bool)
    ensures
        r == (config.modem_start <= modem && modem <= config.modem_end),
{
    config.modem_start <= modem && modem <= config.modem_end
}

/// The bytes in hexadecimal, separated by spaces.
pub fn hex_dump(data: &[u8]) -> (s: String)
    ensures
        s@ == hex_join(data@),
{
    let n = data.len();
    let r = crate::support::hex_preview(data, n);
    assert(data@.subrange(0, n as int) =~= data@);
    assert(hex_preview_spec(data@, n as int) == hex_join(data@) + Seq::<char>::empty());
    assert(hex_join(data@) + Seq::<char>::empty() =~= hex_join(data@));
    r
}

/// What to do with a received packet.
#[derive(Debug, PartialEq, Eq)]
pub enum PacketAction {
    /// A response that this listener itself sent: ignored.
    DropSelfEcho,
    /// Too short to carry the header: counted as an error.
    Short(String),
    /// For a modem this listener does not serve: counted as dropped.
    DropModem(String),
    /// To be answered by the device with this modem number.
    Serve(u16),
}

/// The modem number of a request: bytes 7 (low) and 8 (high).
pub open spec fn req_modem(req: Seq<u8>) -> u16 {
    (req[7] as int + req[8] as int * 256) as u16
}

/// The sequence field of a request: bytes 5 (low) and 6 (high).
pub open spec fn req_dsr(req: Seq<u8>) -> u16 {
    (req[5] as int + req[6] as int * 256) as u16
}

/// Sorts a received packet: a response from this listener's own address
/// is dropped, a packet under 10 bytes is an error, a modem outside the
/// listener's range is dropped, anything else is served.
pub fn classify_packet(req: &[u8], from_self: bool, config: &ListenerConfig) -> (a: PacketAction)
    ensures
        (from_self && req@.len() > 4 && req@[4] == 1) ==> a == PacketAction::DropSelfEcho,
        !(from_self && req@.len() > 4 && req@[4] == 1) ==> {
            if req@.len() < 10 {
                a matches PacketAction::Short(e) && e@ == "short packet: "@ + dec_nat(req@.len())
            } else if !(config.modem_start <= req_modem(req@) <= config.modem_end) {
                a matches PacketAction::DropModem(e) && e@ == "drop modem: "@ + dec_nat(req_modem(req@) as nat)
            } else {
                a == PacketAction::Serve(req_modem(req@))
            }
        },
{
    let n = req.len();
    if from_self && n > 4 && req[4] == 1 {
        return PacketAction::DropSelfEcho;
    }
    if n < 10 {
        let mut e = String::from_str("short packet: ");
        e.append(u64_to_string(n as u64).as_str());
        return PacketAction::Short(e);
    }
    let modem = (req[7] as u16) | ((req[8] as u16) << 8);
    assert(modem == req_modem(req@)) by {
        let lo = req@[7];
        let hi = req@[8];
        assert(((lo as u16) | ((hi as u16) << 8u16)) == lo as u16 + (hi as u16) * 256) by (bit_vector);
    }
    if !modem_allowed(config, modem) {
        let mut e = String::from_str("drop modem: ");
        e.append(u64_to_string(modem as u64).as_str());
        return PacketAction::DropModem(e);
    }
    PacketAction::Serve(modem)
}

/// The port a response is mirrored to: the sequence field, for a packet
/// that came from this listener's own address, when it is set and differs
/// from the sender's port.
pub fn mirror_port(from_self: bool, dsr: u16, src_port: u16) -> (r: Option<u16>)
    ensures
        r == if from_self && dsr != 0 && dsr != src_port { Some(dsr) } else { None },
{
    if from_self && dsr != 0 && dsr != src_port {
        Some(dsr)
    } else {
        None
    }
}

/// The response header: the request's first 10 bytes, with the sequence
/// and modem fields swapped and the packet type set to 1 (response).
pub open spec fn response_head(req: Seq<u8>) -> Seq<u8> {
    req.subrange(0, 10).update(5, req[7]).update(6, req[8]).update(7, req[5]).update(8, req[6]).update(4, 1u8)
}

/// The Modbus part of a request: after the 22-byte header when the packet
/// has one, else after 10 bytes, and at most 65535 bytes.
pub open spec fn request_payload(req: Seq<u8>) -> Seq<u8> {
    let hdr: int = if req.len() >= 22 { 22 } else { 10 };
    let p = req.subrange(hdr, req.len() as int);
    p.subrange(0, (p.len() as u16) as int)
}

/// The device's answer cut to the 16-bit length the handler reports.
pub open spec fn used_answer(out: Seq<u8>) -> Seq<u8> {
    let used = (out.len() as u16) as int;
    if used > 0 && used <= out.len() { out.subrange(0, used) } else { out }
}

/// What `build_response` returns, and the device after it.
pub open spec fn build_response_spec(st: SlotModel, req: Seq<u8>) -> (SlotModel, Result<(Seq<u8>, u16, u16), Seq<char>>) {
    if req.len() < 10 {
        (st, Err("short packet: "@ + dec_nat(req.len())))
    } else {
        let p = request_payload(req);
        let (st2, out) = process_request_spec(st, p, p.len() as u16);
        let ans = used_answer(out);
        if ans.len() == 0 {
            (st2, Err("raz2: empty modbus response"@))
        } else {
            let body = response_head(req) + ans;
            let total = body.len();
            (st2, Ok((body.update(1, (total % 256) as u8).update(2, ((total / 256) % 256) as u8), req_modem(req), req_dsr(req))))
        }
    }
}

/// Answers one request packet for a device: the response packet (header
/// with the length fields set, then the device's Modbus answer), the modem
/// number and the sequence field of the request.
pub fn build_response(req: &[u8], slot_state: &mut SlotState) -> (r: Result<(Vec<u8>, u16, u16), String>)
    requires
        old(slot_state).wf(),
    ensures
        final(slot_state).wf(),
        ({
            let (st2, res) = build_response_spec(old(slot_state).model(), req@);
            &&& final(slot_state).model() == st2
            &&& match (r, res) {
                (Ok((v, m, d)), Ok((sv, sm, sd))) => v@ == sv && m == sm && d == sd,
                (Err(e), Err(se)) => e@ == se,
                _ => false,
            }
        }),
        final(slot_state).last_minute == old(slot_state).last_minute,
        final(slot_state).cur_index == old(slot_state).cur_index,
        final(slot_state).cur_value_bits == old(slot_state).cur_value_bits,
{
    let n = req.len();
    if n < 10 {
        let mut e = String::from_str("short packet: ");
        e.append(u64_to_string(n as u64).as_str());
        return Err(e);
    }
    let modem = (req[7] as u16) | ((req[8] as u16) << 8);
    let dsr = (req[5] as u16) | ((req[6] as u16) << 8);
    proof {
        let b5 = req@[5];
        let b6 = req@[6];
        let b7 = req@[7];
        let b8 = req@[8];
        assert(((b7 as u16) | ((b8 as u16) << 8u16)) == b7 as u16 + (b8 as u16) * 256) by (bit_vector);
        assert(((b5 as u16) | ((b6 as u16) << 8u16)) == b5 as u16 + (b6 as u16) * 256) by (bit_vector);
    }
    let mut out: Vec<u8> = Vec::with_capacity(n);
    let mut k: usize = 0;
    while k < 10
        invariant
            10 <= req@.len(),
            k <= 10,
            out@ == req@.subrange(0, k as int),
        decreases 10 - k,
    {
        out.push(req[k]);
        k = k + 1;
        assert(out@ =~= req@.subrange(0, k as int));
    }
    let sd = out[5];
    let sd1 = out[6];
    let m0 = out[7];
    let m1 = out[8];
    out.set(5, m0);
    out.set(6, m1);
    out.set(7, sd);
    out.set(8, sd1);
    out.set(4, 1);
    assert(out@ =~= response_head(req@));
    let hdr_len: usize = if n >= 22 { 22 } else { 10 };
    let payload_len = n - hdr_len;
    let parse_size = payload_len as u16;
    assert((payload_len as u16) as int <= payload_len) by (bit_vector);
    let mut payload: Vec<u8> = Vec::with_capacity(parse_size as usize);
    assert(req@.len() == req.len());
    let mut q: usize = 0;
    while q < parse_size as usize
        invariant
            hdr_len + payload_len == req@.len(),
            req@.len() <= usize::MAX,
            parse_size as int <= payload_len,
            q <= parse_size,
            payload@ == req@.subrange(hdr_len as int, hdr_len + q),
        decreases parse_size - q,
    {
        payload.push(req[hdr_len + q]);
        q = q + 1;
        assert(payload@ =~= req@.subrange(hdr_len as int, hdr_len + q));
    }
    proof {
        assert(parse_size as int == (payload_len as u16) as int);
        let p = req@.subrange(hdr_len as int, req@.len() as int);
        assert(p.subrange(0, parse_size as int) =~= payload@);
        assert(request_payload(req@) == payload@);
    }
    let (num, mut modbus_out) = match raz2_with_slot(slot_state, payload.as_slice(), parse_size) {
        Ok(v) => v,
        Err(e) => {
            let mut m = String::from_str("raz2: ");
            m.append(e.msg.as_str());
            return Err(m);
        },
    };
    let used = num as usize;
    if used > 0 && used <= modbus_out.len() {
        modbus_out.truncate(used);
    }
    if modbus_out.len() == 0 {
        return Err(String::from_str("raz2: empty modbus response"));
    }
    crate::imm::append_slice(&mut out, modbus_out.as_slice());
    let total = out.len();
    proof {
        assert((total & 0xFFusize) as u8 == (total % 256) as u8) by (bit_vector);
        assert(((total & 0xFF00usize) >> 8usize) as u8 == ((total / 256) % 256) as u8) by (bit_vector);
    }
    out.set(1, (total & 0x00FF) as u8);
    out.set(2, ((total & 0xFF00) >> 8) as u8);
    Ok((out, modem, dsr))
}

// ---------------------------------------------------------------------
// Counters shown to the operator.
// ---------------------------------------------------------------------

/// Most log lines kept.
pub const MAX_LOGS: usize = 500;

/// Counters and last-seen values of a listener, and its recent log lines.
#[derive(Debug)]
pub struct UiState {
    pub packets: u64,
    pub sent_packets: u64,
    pub err_packets: u64,
    pub dropped_packets: u64,
    pub last_peer: String,
    pub last_rx_unix: u64,
    pub last_rx_bytes: usize,
    pub last_rx_status: String,
    pub last_error: String,
    pub logs: Vec<String>,
}

/// `v + 1`, stopping at the maximum.
pub open spec fn sat_inc(v: u64) -> u64 {
    if v == u64::MAX { v } else { (v + 1) as u64 }
}

impl UiState {
    /// Nothing received yet.
    pub fn new() -> (s: Self)
        ensures
            s.packets == 0 && s.sent_packets == 0 && s.err_packets == 0 && s.dropped_packets == 0,
            s.last_peer@.len() == 0 && s.last_rx_status@.len() == 0 && s.last_error@.len() == 0,
            s.last_rx_unix == 0 && s.last_rx_bytes == 0,
            s.logs@.len() == 0,
    {
        UiState {
            packets: 0,
            sent_packets: 0,
            err_packets: 0,
            dropped_packets: 0,
            last_peer: String::new(),
            last_rx_unix: 0,
            last_rx_bytes: 0,
            last_rx_status: String::new(),
            last_error: String::new(),
            logs: Vec::new(),
        }
    }

    /// Records a received packet: one more packet, its sender, time and size.
    pub fn update_rx_state(&mut self, peer: String, now_secs: u64, n: usize)
        ensures
            final(self).packets == sat_inc(old(self).packets),
            final(self).last_peer@ == peer@,
            final(self).last_rx_unix == now_secs,
            final(self).last_rx_bytes == n,
            final(self).sent_packets == old(self).sent_packets,
            final(self).err_packets == old(self).err_packets,
            final(self).dropped_packets == old(self).dropped_packets,
            final(self).last_rx_status == old(self).last_rx_status,
            final(self).last_error == old(self).last_error,
            final(self).logs == old(self).logs,
    {
        self.packets = self.packets.saturating_add(1);
        self.last_peer = peer;
        self.last_rx_unix = now_secs;
        self.last_rx_bytes = n;
    }

    /// Records the outcome of a packet: OK; DROP (one more dropped packet)
    /// for an error that starts with "drop modem:"; else ERR with one more
    /// error and the error kept.
    pub fn update_result_state(&mut self, result: &Result<(Vec<u8>, u16, u16), String>)
        ensures
            final(self).packets == old(self).packets,
            final(self).sent_packets == old(self).sent_packets,
            final(self).last_peer == old(self).last_peer,
            final(self).last_rx_unix == old(self).last_rx_unix,
            final(self).last_rx_bytes == old(self).last_rx_bytes,
            final(self).logs == old(self).logs,
            match result {
                Ok(_) => {
                    &&& final(self).last_rx_status@ == "OK"@
                    &&& final(self).last_error@.len() == 0
                    &&& final(self).err_packets == old(self).err_packets
                    &&& final(self).dropped_packets == old(self).dropped_packets
                },
                Err(e) => if e@.len() >= 11 && e@.subrange(0, 11) == "drop modem:"@ {
                    &&& final(self).last_rx_status@ == "DROP"@
                    &&& final(self).last_error@.len() == 0
                    &&& final(self).dropped_packets == sat_inc(old(self).dropped_packets)
                    &&& final(self).err_packets == old(self).err_packets
                } else {
                    &&& final(self).last_rx_status@ == "ERR"@
                    &&& final(self).last_error@ == e@
                    &&& final(self).err_packets == sat_inc(old(self).err_packets)
                    &&& final(self).dropped_packets == old(self).dropped_packets
                },
            },
    {
        proof {
            reveal_strlit("drop modem:");
        }
        match result {
            Ok(_) => {
                self.last_rx_status = String::from_str("OK");
                self.last_error = String::new();
            },
            Err(err) => {
                if str_starts_with(err.as_str(), "drop modem:") {
                    self.last_rx_status = String::from_str("DROP");
                    self.dropped_packets = self.dropped_packets.saturating_add(1);
                    self.last_error = String::new();
                } else {
                    self.last_rx_status = String::from_str("ERR");
                    self.err_packets = self.err_packets.saturating_add(1);
                    self.last_error = err.clone();
                }
            },
        }
    }

    /// Appends a log line, keeping the last `MAX_LOGS` lines.
    pub fn push_log(&mut self, line: String)
        ensures
            ({
                let all = old(self).logs@.push(line);
                final(self).logs@ == if all.len() > MAX_LOGS { all.subrange(all.len() - MAX_LOGS, all.len() as int) } else { all }
            }),
            final(self).packets == old(self).packets,
            final(self).sent_packets == old(self).sent_packets,
            final(self).err_packets == old(self).err_packets,
            final(self).dropped_packets == old(self).dropped_packets,
            final(self).last_peer == old(self).last_peer,
            final(self).last_rx_unix == old(self).last_rx_unix,
            final(self).last_rx_bytes == old(self).last_rx_bytes,
            final(self).last_rx_status == old(self).last_rx_status,
            final(self).last_error == old(self).last_error,
    {
        self.logs.push(line);
        let len = self.logs.len();
        if len > MAX_LOGS {
            let drop_n = len - MAX_LOGS;
            let mut kept: Vec<String> = Vec::with_capacity(MAX_LOGS);
            let mut i: usize = drop_n;
            while i < len
                invariant
                    len == self.logs@.len(),
                    drop_n <= i <= len,
                    kept@ == self.logs@.subrange(drop_n as int, i as int),
                decreases len - i,
            {
                kept.push(self.logs[i].clone());
                i = i + 1;
                assert(kept@ =~= self.logs@.subrange(drop_n as int, i as int));
            }
            self.logs = kept;
        }
    }
}

} // verus!
