//! Glued Modbus exchanges: the requests of a poll are encoded as RTU
//! frames, packed into UDP packets behind the 22-byte header, and the
//! virtual packets that come back are matched to the requests in order.
//! The sending itself is done by the caller; this module plans the
//! frames and packets, allocates packet ids, and assembles the results.

use vstd::prelude::*;
use std::collections::HashMap;
use std::collections::HashSet;

use crate::modbus::{shab, shab_spec, sout_mb_only, sout_mb_only_spec, append_bytes, frames_view, UdpParams};
use crate::poll_plan::{sort_regs_by_addr, sort_by_key_spec, reg_addr_key};
use crate::reg::Reg;
use crate::text::{dec_nat, u64_to_string};

verus! {

/// A read of `cnt_words` words from `addr_human` with function 3 or 4.
#[derive(Clone, Copy, Debug, PartialEq, Eq)]
pub struct ReadReq {
    pub func: u8,
    pub addr_human: i32,
    pub cnt_words: i32,
}

/// The registers that one request reads (function 3 or 4) or writes (16).
#[derive(Clone, Debug)]
pub struct ReadWriteGroup {
    pub func: u8,
    pub regs: Vec<Reg>,
    pub write_val_by_id: Option<HashMap<i32, i32>>,
}

/// The answer to one request of a batch: the request and its virtual packet.
#[derive(Clone, Debug)]
pub struct ModbusResultReq {
    pub func: u8,
    pub addr_human: i32,
    pub cnt_words: i32,
    pub response: Option<Vec<u8>>,
    pub status: String,
}

/// The answers to a batch: one per request answered, in request order; the
/// bytes sent and received; and the batch status.
#[derive(Clone, Debug)]
pub struct ModbusResultMultiReq {
    pub results: Vec<ModbusResultReq>,
    pub request: Vec<u8>,
    pub response: Option<Vec<u8>>,
    pub status: String,
}

/// Serial line settings of a communication object, as the UDP header
/// carries them.
#[derive(Clone, Copy, Debug, PartialEq, Eq)]
pub struct LineParams {
    pub kanal: i32,
    pub speed: i32,
    pub stop: i32,
    pub parit: i32,
    pub bit: i32,
}

impl Default for LineParams {
    /// Channel 3, speed code 8, no stop-bit code, parity code 2, 8 data bits.
    fn default() -> (p: Self)
        ensures
            p == (LineParams { kanal: 3, speed: 8, stop: 0, parit: 2, bit: 8 }),
    {
        LineParams { kanal: 3, speed: 8, stop: 0, parit: 2, bit: 8 }
    }
}

// ---------------------------------------------------------------------
// Register count of a group.
// ---------------------------------------------------------------------

/// Words a group reads, and the addresses of its bit registers seen so
/// far: a bit register counts once per address, another register counts
/// its width.
pub open spec fn reg_count_fold(regs: Seq<Reg>) -> (int, Set<i32>)
    decreases regs.len(),
{
    if regs.len() == 0 {
        (0, Set::empty())
    } else {
        let prev = reg_count_fold(regs.drop_last());
        let r = regs.last();
        if r.is_bit_spec() {
            if prev.1.contains(r.addr) { prev } else { (prev.0 + 1, prev.1.insert(r.addr)) }
        } else {
            (prev.0 + r.width(), prev.1)
        }
    }
}

proof fn lemma_reg_count_bound(regs: Seq<Reg>)
    ensures
        0 <= reg_count_fold(regs).0 <= 2 * regs.len(),
    decreases regs.len(),
{
    if regs.len() > 0 {
        lemma_reg_count_bound(regs.drop_last());
    }
}

/// Number of words a group of registers spans: two per 32-bit register,
/// one per other register, one per distinct address of bit registers.
pub fn calc_registers_count(regs: &[Reg]) -> (n: i32)
    requires
        regs@.len() < 0x4000_0000,
    ensures
        n == reg_count_fold(regs@).0,
{
    broadcast use vstd::std_specs::hash::group_hash_axioms;
    let mut n: i32 = 0;
    let mut bit_addrs: HashSet<i32> = HashSet::new();
    let len = regs.len();
    let mut i: usize = 0;
    while i < len
        invariant
            len == regs@.len(),
            len < 0x4000_0000,
            i <= len,
            n == reg_count_fold(regs@.subrange(0, i as int)).0,
            bit_addrs@ == reg_count_fold(regs@.subrange(0, i as int)).1,
        decreases len - i,
    {
        let r = &regs[i];
        proof {
            let s1 = regs@.subrange(0, i + 1);
            assert(s1.drop_last() =~= regs@.subrange(0, i as int));
            assert(s1.last() == *r);
            lemma_reg_count_bound(regs@.subrange(0, i as int));
        }
        if r.is_bit() {
            if bit_addrs.insert(r.addr) {
                n = n + 1;
            }
        } else {
            n = n + if r.is_32() { 2 } else { 1 };
        }
        i = i + 1;
    }
    assert(regs@.subrange(0, len as int) =~= regs@);
    n
}

// ---------------------------------------------------------------------
// Requests of a batch.
// ---------------------------------------------------------------------

/// A request is sent when it reads at least one word with function 3 or 4.
pub open spec fn req_selected(r: ReadReq) -> bool {
    r.cnt_words > 0 && (r.func == 3 || r.func == 4)
}

/// The RTU frame of a read request.
pub open spec fn req_frame_spec(rtu: i32, r: ReadReq) -> Result<Seq<u8>, Seq<char>> {
    sout_mb_only_spec(rtu as u16, r.func, r.addr_human, r.cnt_words as u16, None)
}

/// The frames and the requests they stand for, in order, or the error of
/// the first request that cannot be encoded.
pub open spec fn plan_reqs_spec(rtu: i32, reqs: Seq<ReadReq>) -> Result<(Seq<Seq<u8>>, Seq<ReadReq>), Seq<char>>
    decreases reqs.len(),
{
    if reqs.len() == 0 {
        Ok((Seq::empty(), Seq::empty()))
    } else {
        match plan_reqs_spec(rtu, reqs.drop_last()) {
            Err(e) => Err(e),
            Ok((frames, plans)) => {
                let r = reqs.last();
                if !req_selected(r) {
                    Ok((frames, plans))
                } else {
                    match req_frame_spec(rtu, r) {
                        Err(e) => Err(e),
                        Ok(mb) => Ok((frames.push(mb), plans.push(r))),
                    }
                }
            },
        }
    }
}

/// Encodes the requests of a batch: one RTU frame per request that reads
/// at least one word with function 3 or 4, with the requests kept beside
/// their frames.
pub fn plan_read_reqs(rtu: i32, reqs: &[ReadReq]) -> (r: Result<(Vec<Vec<u8>>, Vec<ReadReq>), String>)
    ensures
        match (r, plan_reqs_spec(rtu, reqs@)) {
            (Ok((f, p)), Ok((sf, sp))) => frames_view(f@) == sf && p@ == sp,
            (Err(e), Err(m)) => e@ == m,
            _ => false,
        },
{
    let mut frames: Vec<Vec<u8>> = Vec::new();
    let mut plans: Vec<ReadReq> = Vec::new();
    let n = reqs.len();
    let mut i: usize = 0;
    assert(reqs@.subrange(0, 0) =~= Seq::<ReadReq>::empty());
    assert(frames_view(frames@) =~= Seq::<Seq<u8>>::empty());
    while i < n
        invariant
            n == reqs@.len(),
            i <= n,
            plan_reqs_spec(rtu, reqs@.subrange(0, i as int)) == Ok::<(Seq<Seq<u8>>, Seq<ReadReq>), Seq<char>>((frames_view(frames@), plans@)),
        decreases n - i,
    {
        let q = reqs[i];
        proof {
            let s1 = reqs@.subrange(0, i + 1);
            assert(s1.drop_last() =~= reqs@.subrange(0, i as int));
            assert(s1.last() == q);
        }
        if q.cnt_words > 0 && (q.func == 3 || q.func == 4) {
            match sout_mb_only(rtu as u16, q.func, q.addr_human, q.cnt_words as u16, None) {
                Ok(mb) => {
                    let ghost before = frames@;
                    frames.push(mb);
                    plans.push(q);
                    assert(frames_view(frames@) =~= frames_view(before).push(mb@));
                },
                Err(e) => {
                    proof {
                        lemma_plan_reqs_err_prefix(rtu, reqs@, i as int + 1);
                    }
                    return Err(e);
                },
            }
        }
        i = i + 1;
    }
    assert(reqs@.subrange(0, n as int) =~= reqs@);
    Ok((frames, plans))
}

/// An error met in a prefix is the error of the whole batch.
proof fn lemma_plan_reqs_err_prefix(rtu: i32, reqs: Seq<ReadReq>, k: int)
    requires
        0 <= k <= reqs.len(),
        plan_reqs_spec(rtu, reqs.subrange(0, k)) is Err,
    ensures
        plan_reqs_spec(rtu, reqs) == plan_reqs_spec(rtu, reqs.subrange(0, k)),
    decreases reqs.len() - k,
{
    if k < reqs.len() {
        let s1 = reqs.subrange(0, k + 1);
        assert(s1.drop_last() =~= reqs.subrange(0, k));
        lemma_plan_reqs_err_prefix(rtu, reqs, k + 1);
    } else {
        assert(reqs.subrange(0, k) =~= reqs);
    }
}

// ---------------------------------------------------------------------
// Requests of register groups.
// ---------------------------------------------------------------------

/// A group is sent when it has registers and reads (function 16 is not
/// sent on this path).
pub open spec fn group_selected(g: ReadWriteGroup) -> bool {
    g.regs@.len() > 0 && g.func != 16
}

/// The frame of a group: a read of all its words from its lowest address.
pub open spec fn group_frame_spec(rtu: i32, g: ReadWriteGroup) -> Result<Seq<u8>, Seq<char>> {
    let sorted = sort_by_key_spec(g.regs@, reg_addr_key());
    sout_mb_only_spec(rtu as u16, g.func, sorted[0].addr, reg_count_fold(sorted).0 as u16, None)
}

/// The plan of a group: function, registers sorted by address, lowest
/// address.
pub open spec fn group_plan_spec(g: ReadWriteGroup) -> (u8, Seq<Reg>, i32) {
    let sorted = sort_by_key_spec(g.regs@, reg_addr_key());
    (g.func, sorted, sorted[0].addr)
}

/// The frames of the groups and their plans, in order, or the error of the
/// first group that cannot be encoded.
pub open spec fn plan_groups_spec(rtu: i32, groups: Seq<ReadWriteGroup>)
    -> Result<(Seq<Seq<u8>>, Seq<(u8, Seq<Reg>, i32)>), Seq<char>>
    decreases groups.len(),
{
    if groups.len() == 0 {
        Ok((Seq::empty(), Seq::empty()))
    } else {
        match plan_groups_spec(rtu, groups.drop_last()) {
            Err(e) => Err(e),
            Ok((frames, plans)) => {
                let g = groups.last();
                if !group_selected(g) {
                    Ok((frames, plans))
                } else {
                    match group_frame_spec(rtu, g) {
                        Err(e) => Err(e),
                        Ok(mb) => Ok((frames.push(mb), plans.push(group_plan_spec(g)))),
                    }
                }
            },
        }
    }
}

/// The plans as values.
pub open spec fn group_plans_view(p: Seq<(u8, Vec<Reg>, i32)>) -> Seq<(u8, Seq<Reg>, i32)> {
    p.map_values(|x: (u8, Vec<Reg>, i32)| (x.0, x.1@, x.2))
}

proof fn lemma_plan_groups_err_prefix(rtu: i32, groups: Seq<ReadWriteGroup>, k: int)
    requires
        0 <= k <= groups.len(),
        plan_groups_spec(rtu, groups.subrange(0, k)) is Err,
    ensures
        plan_groups_spec(rtu, groups) == plan_groups_spec(rtu, groups.subrange(0, k)),
    decreases groups.len() - k,
{
    if k < groups.len() {
        let s1 = groups.subrange(0, k + 1);
        assert(s1.drop_last() =~= groups.subrange(0, k));
        lemma_plan_groups_err_prefix(rtu, groups, k + 1);
    } else {
        assert(groups.subrange(0, k) =~= groups);
    }
}

fn copy_regs(regs: &Vec<Reg>) -> (out: Vec<Reg>)
    ensures
        out@ == regs@,
{
    let mut out: Vec<Reg> = Vec::new();
    let n = regs.len();
    let mut j: usize = 0;
    while j < n
        invariant
            n == regs@.len(),
            j <= n,
            out@ == regs@.subrange(0, j as int),
        decreases n - j,
    {
        out.push(regs[j].clone());
        j = j + 1;
        assert(out@ =~= regs@.subrange(0, j as int));
    }
    assert(regs@.subrange(0, n as int) =~= regs@);
    out
}

/// Encodes one read per register group that has registers and does not
/// write: its registers sorted by address, read from the lowest address
/// for as many words as they span.
pub fn plan_group_requests(rtu: i32, groups: &[ReadWriteGroup]) -> (r: Result<(Vec<Vec<u8>>, Vec<(u8, Vec<Reg>, i32)>), String>)
    requires
        forall|k: int| 0 <= k < groups@.len() ==> (#[trigger] groups@[k]).regs@.len() < 0x4000_0000,
    ensures
        match (r, plan_groups_spec(rtu, groups@)) {
            (Ok((f, p)), Ok((sf, sp))) => frames_view(f@) == sf && group_plans_view(p@) == sp,
            (Err(e), Err(m)) => e@ == m,
            _ => false,
        },
{
    let mut frames: Vec<Vec<u8>> = Vec::new();
    let mut plans: Vec<(u8, Vec<Reg>, i32)> = Vec::new();
    let n = groups.len();
    let mut i: usize = 0;
    assert(groups@.subrange(0, 0) =~= Seq::<ReadWriteGroup>::empty());
    assert(frames_view(frames@) =~= Seq::<Seq<u8>>::empty());
    assert(group_plans_view(plans@) =~= Seq::<(u8, Seq<Reg>, i32)>::empty());
    while i < n
        invariant
            n == groups@.len(),
            i <= n,
            forall|k: int| 0 <= k < groups@.len() ==> (#[trigger] groups@[k]).regs@.len() < 0x4000_0000,
            plan_groups_spec(rtu, groups@.subrange(0, i as int))
                == Ok::<(Seq<Seq<u8>>, Seq<(u8, Seq<Reg>, i32)>), Seq<char>>((frames_view(frames@), group_plans_view(plans@))),
        decreases n - i,
    {
        let g = &groups[i];
        proof {
            let s1 = groups@.subrange(0, i + 1);
            assert(s1.drop_last() =~= groups@.subrange(0, i as int));
            assert(s1.last() == *g);
        }
        if g.regs.len() > 0 {
            let regs = sort_regs_by_addr(copy_regs(&g.regs));
            proof {
                crate::poll_plan::lemma_sort_by_key(g.regs@, reg_addr_key());
            }
            let first_addr = regs[0].addr;
            let regs_count = calc_registers_count(regs.as_slice());
            if g.func != 16 {
                match sout_mb_only(rtu as u16, g.func, first_addr, regs_count as u16, None) {
                    Ok(mb) => {
                        let ghost fb = frames@;
                        let ghost pb = plans@;
                        frames.push(mb);
                        plans.push((g.func, regs, first_addr));
                        assert(frames_view(frames@) =~= frames_view(fb).push(mb@));
                        assert(group_plans_view(plans@) =~= group_plans_view(pb).push(group_plan_spec(*g)));
                    },
                    Err(e) => {
                        proof {
                            lemma_plan_groups_err_prefix(rtu, groups@, i as int + 1);
                        }
                        return Err(e);
                    },
                }
            }
        }
        i = i + 1;
    }
    assert(groups@.subrange(0, n as int) =~= groups@);
    Ok((frames, plans))
}

// ---------------------------------------------------------------------
// Packets.
// ---------------------------------------------------------------------

/// The frames of a packet, one after another.
pub open spec fn concat_frames(frames: Seq<Seq<u8>>) -> Seq<u8>
    decreases frames.len(),
{
    if frames.len() == 0 {
        Seq::empty()
    } else {
        concat_frames(frames.drop_last()) + frames.last()
    }
}

/// The UDP header fields of a packet for a device: the line settings
/// (each cut to a byte), unit address and modem (cut to 16 bits), the
/// packet id and sequence counter; a request; the default packet limit.
pub open spec fn chunk_udp_params_spec(line: LineParams, ip: Seq<char>, port: u16, rtu: i32, modem: i32, pid: u8, dsr: u16, p: UdpParams) -> bool {
    &&& p.kan == line.kanal as u8
    &&& p.speed == line.speed as u8
    &&& p.stop == line.stop as u8
    &&& p.par == line.parit as u8
    &&& p.data == line.bit as u8
    &&& p.dsr == dsr
    &&& p.rtu == rtu as u16
    &&& p.modem == modem as u16
    &&& p.port == port
    &&& p.ip@ == ip
    &&& p.packet_id == pid
    &&& p.pkt_type == 0
    &&& p.out_max == 256
}

/// The header fields of one packet of a batch.
pub fn chunk_udp_params(line: &LineParams, ip: &str, port: u16, rtu: i32, modem: i32, pid: u8, dsr: u16) -> (p: UdpParams)
    ensures
        chunk_udp_params_spec(*line, ip@, port, rtu, modem, pid, dsr, p),
{
    UdpParams {
        kan: line.kanal as u8,
        speed: line.speed as u8,
        stop: line.stop as u8,
        par: line.parit as u8,
        data: line.bit as u8,
        rtu: rtu as u16,
        out_max: 256,
        packet_id: pid,
        pkt_type: 0,
        dsr,
        modem: modem as u16,
        port,
        ip: String::from_str(ip),
    }
}

proof fn lemma_concat_len(frames: Seq<Seq<u8>>)
    ensures
        concat_frames(frames).len() == crate::modbus::payload_len(frames),
    decreases frames.len(),
{
    if frames.len() > 0 {
        lemma_concat_len(frames.drop_last());
    }
}

/// One UDP packet: the header, whose length field is the whole packet,
/// then the frames.
pub fn chunk_packet(par: &UdpParams, frames: &[Vec<u8>]) -> (tx: Vec<u8>)
    requires
        22 + crate::modbus::payload_len(frames_view(frames@)) <= usize::MAX,
    ensures
        tx@ == shab_spec(*par, (22 + crate::modbus::payload_len(frames_view(frames@))) as usize)
            + concat_frames(frames_view(frames@)),
{
    let ghost fv = frames_view(frames@);
    let n = frames.len();
    let mut payload: usize = 0;
    let mut i: usize = 0;
    proof {
        lemma_concat_len(fv);
    }
    while i < n
        invariant
            n == frames@.len(),
            fv == frames_view(frames@),
            i <= n,
            payload == crate::modbus::payload_len(fv.subrange(0, i as int)),
            22 + crate::modbus::payload_len(fv) <= usize::MAX,
        decreases n - i,
    {
        proof {
            let s1 = fv.subrange(0, i + 1);
            assert(s1.drop_last() =~= fv.subrange(0, i as int));
            lemma_payload_prefix(fv, i as int + 1);
        }
        payload = payload + frames[i].len();
        i = i + 1;
    }
    assert(fv.subrange(0, n as int) =~= fv);
    let total_len = 22 + payload;
    let header = shab(par, total_len);
    let mut tx: Vec<u8> = Vec::with_capacity(total_len);
    append_bytes(&mut tx, header.as_slice());
    let mut j: usize = 0;
    while j < n
        invariant
            n == frames@.len(),
            fv == frames_view(frames@),
            j <= n,
            tx@ == header@ + concat_frames(fv.subrange(0, j as int)),
        decreases n - j,
    {
        proof {
            let s1 = fv.subrange(0, j + 1);
            assert(s1.drop_last() =~= fv.subrange(0, j as int));
            assert(s1.last() == frames@[j as int]@);
        }
        append_bytes(&mut tx, frames[j].as_slice());
        j = j + 1;
        assert(tx@ =~= header@ + concat_frames(fv.subrange(0, j as int)));
    }
    assert(fv.subrange(0, n as int) =~= fv);
    tx
}

/// The payload of a prefix is at most that of the whole.
proof fn lemma_payload_prefix(frames: Seq<Seq<u8>>, k: int)
    requires
        0 <= k <= frames.len(),
    ensures
        0 <= crate::modbus::payload_len(frames.subrange(0, k)) <= crate::modbus::payload_len(frames),
    decreases frames.len(),
{
    if k == frames.len() {
        assert(frames.subrange(0, k) =~= frames);
        lemma_payload_nonneg(frames);
    } else {
        let d = frames.drop_last();
        assert(d.subrange(0, k) =~= frames.subrange(0, k));
        lemma_payload_prefix(d, k);
    }
}

proof fn lemma_payload_nonneg(frames: Seq<Seq<u8>>)
    ensures
        0 <= crate::modbus::payload_len(frames),
    decreases frames.len(),
{
    if frames.len() > 0 {
        lemma_payload_nonneg(frames.drop_last());
    }
}

// ---------------------------------------------------------------------
// Results.
// ---------------------------------------------------------------------

/// Status of a batch: OK when every request got an answer, a warning with
/// the counts otherwise.
pub open spec fn glued_status_spec(received: nat, expected: nat) -> Seq<char> {
    if received < expected {
        "WARN: responses < commands ("@ + dec_nat(received) + "/"@ + dec_nat(expected) + ")"@
    } else {
        "OK"@
    }
}

/// The status of a batch from the counts of answers and requests.
pub fn glued_status(received: usize, expected: usize) -> (s: String)
    ensures
        s@ == glued_status_spec(received as nat, expected as nat),
{
    if received < expected {
        let mut s = String::from_str("WARN: responses < commands (");
        s.append(u64_to_string(received as u64).as_str());
        s.append("/");
        s.append(u64_to_string(expected as u64).as_str());
        s.append(")");
        s
    } else {
        String::from_str("OK")
    }
}

/// The result of a batch in which no request could be sent.
pub fn no_commands_result() -> (r: ModbusResultMultiReq)
    ensures
        r.results@.len() == 0,
        r.request@.len() == 0,
        r.response is None,
        r.status@ == "ERROR: no commands"@,
{
    ModbusResultMultiReq {
        results: Vec::new(),
        request: Vec::new(),
        response: None,
        status: String::from_str("ERROR: no commands"),
    }
}

/// Matches the virtual packets received to the requests sent, in order:
/// one result per pair, with the bytes sent, the bytes received (none when
/// nothing came) and the batch status.
pub fn assemble_req_results(plans: &[ReadReq], rx_virtual_all: &[Vec<u8>], request: Vec<u8>, rx_all: Vec<u8>)
    -> (r: ModbusResultMultiReq)
    ensures
        r.results@.len() == if plans@.len() < rx_virtual_all@.len() { plans@.len() } else { rx_virtual_all@.len() },
        forall|i: int| 0 <= i < r.results@.len() ==> {
            let res = #[trigger] r.results@[i];
            &&& res.func == plans@[i].func
            &&& res.addr_human == plans@[i].addr_human
            &&& res.cnt_words == plans@[i].cnt_words
            &&& res.response matches Some(v) && v@ == rx_virtual_all@[i]@
            &&& res.status@ == "OK"@
        },
        r.request@ == request@,
        rx_all@.len() == 0 ==> r.response is None,
        rx_all@.len() > 0 ==> (r.response matches Some(v) && v@ == rx_all@),
        r.status@ == glued_status_spec(rx_virtual_all@.len(), plans@.len()),
{
    let n = if plans.len() < rx_virtual_all.len() { plans.len() } else { rx_virtual_all.len() };
    let mut results: Vec<ModbusResultReq> = Vec::with_capacity(n);
    let mut i: usize = 0;
    while i < n
        invariant
            n <= plans@.len(),
            n <= rx_virtual_all@.len(),
            i <= n,
            results@.len() == i,
            forall|k: int| 0 <= k < i ==> {
                let res = #[trigger] results@[k];
                &&& res.func == plans@[k].func
                &&& res.addr_human == plans@[k].addr_human
                &&& res.cnt_words == plans@[k].cnt_words
                &&& res.response matches Some(v) && v@ == rx_virtual_all@[k]@
                &&& res.status@ == "OK"@
            },
        decreases n - i,
    {
        let p = plans[i];
        let pkt = rx_virtual_all[i].clone();
        results.push(ModbusResultReq {
            func: p.func,
            addr_human: p.addr_human,
            cnt_words: p.cnt_words,
            response: Some(pkt),
            status: String::from_str("OK"),
        });
        i = i + 1;
    }
    let status = glued_status(rx_virtual_all.len(), plans.len());
    let response = if rx_all.len() == 0 { None } else { Some(rx_all) };
    ModbusResultMultiReq { results, request, response, status }
}

// ---------------------------------------------------------------------
// Values of a read reply.
// ---------------------------------------------------------------------

/// The raw value of a register decoded from a read reply.
#[derive(Clone, Copy, Debug, PartialEq, Eq)]
pub enum RegRaw {
    /// A 16-bit register.
    Word(u16),
    /// One bit of a word.
    Bit(u8),
    /// Two words, high word first, read as unsigned.
    U32(u32),
    /// Two words, high word first, read as signed.
    I32(i32),
    /// Two words, high word first, holding an IEEE 754 single.
    F32Bits(u32),
}

/// The words of a read reply (function 3 or 4): the byte count after the
/// function (two bytes after an extended unit address), then that many
/// data bytes; `None` for a short frame, another function, or data that
/// runs past the frame.
pub open spec fn reply_words(mb: Seq<u8>) -> Option<Seq<u16>> {
    if mb.len() < 4 {
        None
    } else {
        let fi: int = if mb[0] >= 0xF8 { 2 } else { 1 };
        if mb.len() <= fi + 1 {
            None
        } else if mb[fi] != 3 && mb[fi] != 4 {
            None
        } else if fi == 2 && mb.len() < fi + 3 {
            None
        } else {
            let bc: int = if fi == 2 { mb[fi + 1] * 256 + mb[fi + 2] } else { mb[fi + 1] as int };
            let ds: int = if fi == 2 { fi + 3 } else { fi + 2 };
            if ds + bc > mb.len() {
                None
            } else {
                Some(Seq::new((bc / 2) as nat, |i: int| (mb[ds + 2 * i] * 256 + mb[ds + 2 * i + 1]) as u16))
            }
        }
    }
}

/// The word at `addr` of a reply whose first word is at `first_addr`; 0
/// outside the reply.
pub open spec fn word_at_addr(words: Seq<u16>, first_addr: int, addr: int) -> i32 {
    if first_addr <= addr < first_addr + words.len() { words[addr - first_addr] as i32 } else { 0 }
}

/// The value of one register, if it has one: a bit register its bit, a
/// 32-bit register its two words by type (5 a float, 2 signed, others
/// unsigned), another register its word.
pub open spec fn reg_raw_spec(words: Seq<u16>, first_addr: int, r: Reg) -> Option<RegRaw> {
    if r.is_bit_spec() {
        let b = r.bits->0;
        Some(RegRaw::Bit(((word_at_addr(words, first_addr, r.addr as int) >> (b as u32)) & 1) as u8))
    } else if r.is_32_spec() {
        let hi = word_at_addr(words, first_addr, r.addr as int) as u16;
        let lo = word_at_addr(words, first_addr, r.addr + 1) as u16;
        let u = (hi as int * 65536 + lo as int) as u32;
        Some(if r.tip == 5 {
            RegRaw::F32Bits(u)
        } else if r.tip == 2 {
            RegRaw::I32(u as i32)
        } else {
            RegRaw::U32(u)
        })
    } else {
        Some(RegRaw::Word(word_at_addr(words, first_addr, r.addr as int) as u16))
    }
}

/// The values of the registers, in register order, each with its
/// register's id.
pub open spec fn reg_values_spec(words: Seq<u16>, first_addr: int, regs: Seq<Reg>) -> Seq<(i32, RegRaw)>
    decreases regs.len(),
{
    if regs.len() == 0 {
        Seq::empty()
    } else {
        let prev = reg_values_spec(words, first_addr, regs.drop_last());
        match reg_raw_spec(words, first_addr, regs.last()) {
            Some(v) => prev.push((regs.last().id, v)),
            None => prev,
        }
    }
}

/// What `decode_read_values` returns.
pub open spec fn decode_read_values_spec(mb: Seq<u8>, regs: Seq<Reg>, first_addr: i32) -> Seq<(i32, RegRaw)> {
    match reply_words(mb) {
        None => Seq::empty(),
        Some(words) => reg_values_spec(words, first_addr as int, regs),
    }
}

/// Registers whose decoding stays within the machine's integers: bit
/// numbers below 32, a 32-bit register not at the last address.
pub open spec fn regs_decodable(regs: Seq<Reg>) -> bool {
    forall|k: int| 0 <= k < regs.len() ==> {
        &&& (#[trigger] regs[k]).is_bit_spec() ==> 0 <= regs[k].bits->0 < 32
        &&& regs[k].is_32_spec() ==> regs[k].addr < i32::MAX
    }
}

fn reply_word_at(mb: &[u8], ds: usize, nwords: usize, first_addr: i32, addr: i32) -> (w: i32)
    requires
        ds + 2 * nwords <= mb@.len(),
    ensures
        w == word_at_addr(
            Seq::new(nwords as nat, |i: int| (mb@[ds + 2 * i] * 256 + mb@[ds + 2 * i + 1]) as u16),
            first_addr as int,
            addr as int,
        ),
        0 <= w <= 0xFFFF,
{
    let ghost words = Seq::new(nwords as nat, |i: int| (mb@[ds + 2 * i] * 256 + mb@[ds + 2 * i + 1]) as u16);
    assert(mb@.len() == mb.len());
    if first_addr <= addr && (((addr as i64) - (first_addr as i64)) as u64) < (nwords as u64) {
        let k = ((addr as i64) - (first_addr as i64)) as usize;
        let hi = mb[ds + 2 * k] as i32;
        let lo = mb[ds + 2 * k + 1] as i32;
        let w = hi * 256 + lo;
        assert(words[k as int] == (mb@[ds + 2 * k] * 256 + mb@[ds + 2 * k + 1]) as u16);
        w
    } else {
        0
    }
}

/// Decodes the register values of a read reply whose first word is at
/// `first_addr`; nothing when the reply is not a well-formed read reply.
pub fn decode_read_values(mb: &[u8], regs: &[Reg], first_addr: i32) -> (out: Vec<(i32, RegRaw)>)
    requires
        regs_decodable(regs@),
        reply_words(mb@) matches Some(ws) ==> first_addr + ws.len() <= i32::MAX + 1,
    ensures
        out@ == decode_read_values_spec(mb@, regs@, first_addr),
{
    let mut out: Vec<(i32, RegRaw)> = Vec::new();
    if mb.len() < 4 {
        return out;
    }
    let fi: usize = if mb[0] >= 0xF8 { 2 } else { 1 };
    if mb.len() <= fi + 1 {
        return out;
    }
    let func = mb[fi];
    if func != 3 && func != 4 {
        return out;
    }
    let byte_count: usize;
    let data_start: usize;
    if fi == 2 {
        if mb.len() < fi + 3 {
            return out;
        }
        byte_count = (mb[fi + 1] as usize) * 256 + (mb[fi + 2] as usize);
        data_start = fi + 3;
    } else {
        byte_count = mb[fi + 1] as usize;
        data_start = fi + 2;
    }
    if byte_count > mb.len() - data_start {
        return out;
    }
    let nwords = byte_count / 2;
    let ghost words = Seq::new(nwords as nat, |i: int| (mb@[data_start + 2 * i] * 256 + mb@[data_start + 2 * i + 1]) as u16);
    assert(reply_words(mb@) == Some(words));
    let n = regs.len();
    let mut i: usize = 0;
    while i < n
        invariant
            n == regs@.len(),
            i <= n,
            regs_decodable(regs@),
            data_start + 2 * nwords <= mb@.len(),
            words == Seq::new(nwords as nat, |i: int| (mb@[data_start + 2 * i] * 256 + mb@[data_start + 2 * i + 1]) as u16),
            out@ == reg_values_spec(words, first_addr as int, regs@.subrange(0, i as int)),
        decreases n - i,
    {
        let r = &regs[i];
        proof {
            let s1 = regs@.subrange(0, i + 1);
            assert(s1.drop_last() =~= regs@.subrange(0, i as int));
            assert(s1.last() == *r);
            assert(regs@[i as int] == *r);
        }
        if r.is_bit() {
            let b = match r.bits {
                Some(b) => b,
                None => 0,
            };
            let w = reply_word_at(mb, data_start, nwords, first_addr, r.addr);
            let v = ((w >> (b as u32)) & 1) as u8;
            out.push((r.id, RegRaw::Bit(v)));
        } else if r.is_32() {
            let hi = reply_word_at(mb, data_start, nwords, first_addr, r.addr) as u16;
            let lo = reply_word_at(mb, data_start, nwords, first_addr, r.addr + 1) as u16;
            let u: u32 = (hi as u32) * 65536 + (lo as u32);
            let v = if r.tip == 5 {
                RegRaw::F32Bits(u)
            } else if r.tip == 2 {
                RegRaw::I32(u as i32)
            } else {
                RegRaw::U32(u)
            };
            out.push((r.id, v));
        } else {
            let w = reply_word_at(mb, data_start, nwords, first_addr, r.addr) as u16;
            out.push((r.id, RegRaw::Word(w)));
        }
        i = i + 1;
    }
    assert(regs@.subrange(0, n as int) =~= regs@);
    out
}

// ---------------------------------------------------------------------
// Packet ids and sequence counter.
// ---------------------------------------------------------------------

/// Packet ids of one device address: the next id to try, and for each of
/// the 256 ids when it was last given out (in milliseconds of a monotonic
/// clock).
#[derive(Clone, Debug)]
pub struct PidAllocState {
    pub next: u8,
    pub last_used: Vec<Option<u64>>,
}

/// An id may be given out again once `ttl` has passed since its last use.
pub open spec fn pid_reusable(last: Option<u64>, now_ms: u64, ttl: u64) -> bool {
    match last {
        None => true,
        Some(t) => (if now_ms >= t { now_ms - t } else { 0 }) >= ttl,
    }
}

/// The guard interval actually used: at least 300 ms.
pub open spec fn effective_ttl(guard_ttl_ms: u64) -> u64 {
    if guard_ttl_ms < 300 { 300 } else { guard_ttl_ms }
}

/// Walking `t` steps from `start` round 256 ids and measuring the distance
/// back gives `t` again.
proof fn lemma_cyclic_offset(start: int, t: int)
    requires
        0 <= start < 256,
        0 <= t < 256,
    ensures
        (((start + t) % 256) - start + 256) % 256 == t,
{
}

/// One more step round 256 ids.
proof fn lemma_cyclic_step(start: int, t: int)
    requires
        0 <= start < 256,
        0 <= t < 256,
    ensures
        (((start + t) % 256) + 1) % 256 == (start + t + 1) % 256,
{
}

impl PidAllocState {
    /// A table with 256 ids, none used yet.
    pub fn new() -> (s: Self)
        ensures
            s.wf(),
            s.next == 0,
            forall|k: int| 0 <= k < 256 ==> s.last_used@[k] is None,
    {
        let mut v: Vec<Option<u64>> = Vec::with_capacity(256);
        let mut i: usize = 0;
        while i < 256
            invariant
                i <= 256,
                v@.len() == i,
                forall|k: int| 0 <= k < i ==> v@[k] is None,
            decreases 256 - i,
        {
            v.push(None);
            i = i + 1;
        }
        PidAllocState { next: 0, last_used: v }
    }

    /// One entry per id.
    pub open spec fn wf(&self) -> bool {
        self.last_used@.len() == 256
    }

    /// Gives out the first id, from `next` on in cyclic order, whose guard
    /// interval has passed, or `next` itself when none has; marks it used
    /// at `now_ms` and moves `next` past it.
    #[verifier::rlimit(30)]
    pub fn next_pid(&mut self, now_ms: u64, guard_ttl_ms: u64) -> (pid: u8)
        requires
            old(self).wf(),
        ensures
            final(self).wf(),
            ({
                let ttl = effective_ttl(guard_ttl_ms);
                let start = old(self).next as int;
                let d = (pid as int - start + 256) % 256;
                ||| (pid_reusable(old(self).last_used@[pid as int], now_ms, ttl)
                        && forall|j: int| 0 <= j < d ==> !pid_reusable(#[trigger] old(self).last_used@[(start + j) % 256], now_ms, ttl))
                ||| (pid == start
                        && forall|j: int| 0 <= j < 256 ==> !pid_reusable(#[trigger] old(self).last_used@[j], now_ms, ttl))
            }),
            final(self).next == (pid as int + 1) % 256,
            final(self).last_used@ == old(self).last_used@.update(pid as int, Some(now_ms)),
    {
        let ttl: u64 = if guard_ttl_ms < 300 { 300 } else { guard_ttl_ms };
        let ghost start = self.next as int;
        let mut tries: usize = 0;
        while tries < 256
            invariant
                self.wf(),
                self.last_used@ == old(self).last_used@,
                start == old(self).next as int,
                tries <= 256,
                self.next as int == (start + tries) % 256,
                ttl == effective_ttl(guard_ttl_ms),
                forall|j: int| 0 <= j < tries ==> !pid_reusable(#[trigger] old(self).last_used@[(start + j) % 256], now_ms, ttl),
            decreases 256 - tries,
        {
            let pid = self.next;
            self.next = self.next.wrapping_add(1);
            let idx = pid as usize;
            let reusable = match self.last_used[idx] {
                None => true,
                Some(last) => (if now_ms >= last { now_ms - last } else { 0 }) >= ttl,
            };
            if reusable {
                proof {
                    lemma_cyclic_offset(start, tries as int);
                }
                self.last_used.set(idx, Some(now_ms));
                return pid;
            }
            proof {
                lemma_cyclic_step(start, tries as int);
            }
            tries = tries + 1;
        }
        proof {
            assert forall|j: int| 0 <= j < 256 implies !pid_reusable(#[trigger] old(self).last_used@[j], now_ms, ttl) by {
                let d = (j - start + 256) % 256;
                assert((start + d) % 256 == j);
                assert(!pid_reusable(old(self).last_used@[(start + d) % 256], now_ms, ttl));
            }
        }
        let pid = self.next;
        self.next = self.next.wrapping_add(1);
        self.last_used.set(pid as usize, Some(now_ms));
        pid
    }
}

/// The packet sequence counter: 16 bits, wrapping, where a read of 0 is
/// answered with 1.
#[derive(Clone, Copy, Debug)]
pub struct DsrCounter {
    pub value: u16,
}

impl DsrCounter {
    /// A counter whose first value is 1.
    pub fn new() -> (c: Self)
        ensures
            c.value == 1,
    {
        DsrCounter { value: 1 }
    }

    /// Takes the current value (1 in place of 0) and advances the counter by
    /// one, wrapping.
    pub fn next_dsr(&mut self) -> (v: u16)
        ensures
            final(self).value == (old(self).value as int + 1) % 65536,
            v == if old(self).value == 0 { 1 } else { old(self).value },
            v != 0,
    {
        let v = self.value;
        self.value = self.value.wrapping_add(1);
        if v == 0 {
            1
        } else {
            v
        }
    }
}

} // verus!
