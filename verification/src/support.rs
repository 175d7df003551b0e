//! Scheduler helpers: the enabled groups of a КПЗ, period limits, the
//! serial line settings of an object, scoped runtime-value keys, the phase
//! of a periodic job, and the rows of the exchange log (ELAM).

use vstd::prelude::*;

use crate::conn::{ConnInfo, ObjRow};
use crate::service::{LineParams, ModbusResultReq};
use crate::text::{dec_nat, str_starts_with, u64_to_string, push_char};

verus! {

// ---------------------------------------------------------------------
// Enabled groups.
// ---------------------------------------------------------------------

/// Whether bit `bit` of the mask is set: bit `b % 8` of byte `b / 8`.
pub open spec fn group_bit_set(grups: Seq<u8>, bit: int) -> bool {
    grups[bit / 8] & (1u8 << ((bit % 8) as u8)) != 0
}

/// Decodes the 64-byte mask of enabled groups into group numbers: group
/// `b + 1` for each set bit `b`, ascending. Any other mask length gives no
/// group.
pub fn decode_groups(grups: &[u8]) -> (out: Vec<i32>)
    ensures
        grups@.len() != 64 ==> out@.len() == 0,
        grups@.len() == 64 ==> {
            &&& forall|i: int, j: int| 0 <= i < j < out@.len() ==> out@[i] < out@[j]
            &&& forall|g: i32| out@.contains(g) <==> (1 <= g <= 512 && group_bit_set(grups@, g - 1))
        },
{
    let mut out: Vec<i32> = Vec::new();
    if grups.len() != 64 {
        return out;
    }
    let mut bit: usize = 0;
    while bit < 512
        invariant
            grups@.len() == 64,
            bit <= 512,
            forall|i: int, j: int| 0 <= i < j < out@.len() ==> out@[i] < out@[j],
            forall|i: int| 0 <= i < out@.len() ==> 1 <= #[trigger] out@[i] <= bit,
            forall|g: i32| out@.contains(g) <==> (1 <= g <= bit && group_bit_set(grups@, g - 1)),
        decreases 512 - bit,
    {
        let byte_index = bit >> 3;
        let bit_index = bit & 7;
        assert(byte_index == bit / 8 && bit_index == bit % 8) by (bit_vector)
            requires
                byte_index == bit >> 3,
                bit_index == bit & 7,
        ;
        let mask: u8 = 1u8 << (bit_index as u8);
        let set = (grups[byte_index] & mask) != 0;
        let ghost before = out@;
        if set {
            out.push((bit + 1) as i32);
        }
        proof {
            assert(set == group_bit_set(grups@, bit as int));
            assert forall|g: i32| out@.contains(g) <==> (1 <= g <= bit + 1 && group_bit_set(grups@, g - 1)) by {
                if out@.contains(g) {
                    let k = choose|k: int| 0 <= k < out@.len() && out@[k] == g;
                    if k < before.len() {
                        assert(before[k] == g);
                        assert(before.contains(g));
                    }
                }
                if 1 <= g <= bit + 1 && group_bit_set(grups@, g - 1) {
                    if g <= bit {
                        assert(before.contains(g));
                        let k = choose|k: int| 0 <= k < before.len() && before[k] == g;
                        assert(out@[k] == g);
                    } else {
                        assert(out@[out@.len() - 1] == g);
                    }
                }
            }
        }
        bit = bit + 1;
    }
    out
}

// ---------------------------------------------------------------------
// Periods.
// ---------------------------------------------------------------------

/// A polling period in seconds: 0 (off) for anything not positive, at most
/// 3600.
pub open spec fn clamp_period_spec(n: i32) -> i32 {
    if n <= 0 { 0 } else if n > 3600 { 3600 } else { n }
}

/// Limits a polling period to 0 (off) or 1..=3600 seconds.
pub fn clamp_period(n: i32) -> (r: i32)
    ensures
        r == clamp_period_spec(n),
{
    if n <= 0 {
        return 0;
    }
    if n < 1 {
        return 1;
    }
    if n > 3600 {
        return 3600;
    }
    n
}

// ---------------------------------------------------------------------
// Line settings.
// ---------------------------------------------------------------------

/// The serial line settings of an object, each defaulted when unset:
/// channel 3, speed code 8, stop code 0, parity code 2, 8 data bits.
pub fn obj_to_udp(obj: &ObjRow) -> (p: LineParams)
    ensures
        p.kanal == match obj.kanal { Some(v) => v, None => 3 },
        p.speed == match obj.speed { Some(v) => v, None => 8 },
        p.stop == match obj.stop { Some(v) => v, None => 0 },
        p.parit == match obj.parit { Some(v) => v, None => 2 },
        p.bit == match obj.bit { Some(v) => v, None => 8 },
{
    LineParams {
        kanal: match obj.kanal { Some(v) => v, None => 3 },
        speed: match obj.speed { Some(v) => v, None => 8 },
        stop: match obj.stop { Some(v) => v, None => 0 },
        parit: match obj.parit { Some(v) => v, None => 2 },
        bit: match obj.bit { Some(v) => v, None => 8 },
    }
}

// ---------------------------------------------------------------------
// Scoped runtime-value keys.
// ---------------------------------------------------------------------

/// First key of the range of service keys of a КПЗ.
pub open spec fn svc_base_spec(kpz_id: i32) -> int {
    1_000_000_000 + kpz_id * 200_000
}

/// The base of the service keys of a КПЗ: 10^9 plus 200000 per КПЗ id.
pub fn svc_base_for(kpz_id: i32) -> (r: i64)
    ensures
        r == svc_base_spec(kpz_id),
{
    1_000_000_000i64 + (kpz_id as i64) * 200_000i64
}

/// The service key at `offset` within the range of a КПЗ.
pub fn svc_key(kpz_id: i32, offset: i32) -> (r: i64)
    ensures
        r == svc_base_spec(kpz_id) + offset,
{
    svc_base_for(kpz_id) + (offset as i64)
}

/// The service key of archive index `arx_id` of a КПЗ (offset 40000).
pub fn svc_arx_key(kpz_id: i32, arx_id: i32) -> (r: i64)
    ensures
        r == svc_base_spec(kpz_id) + 40000 + arx_id,
{
    svc_base_for(kpz_id) + 40000i64 + (arx_id as i64)
}

// ---------------------------------------------------------------------
// Phase of a periodic job.
// ---------------------------------------------------------------------

/// A 64-bit mix of the КПЗ id and the job kind: the id's bits xor the
/// salt times the golden-ratio constant, then three xor-shift-multiply
/// rounds (all products wrap).
pub open spec fn phase_mix(kpz_id: i32, kind_salt: u64) -> u64 {
    let x0 = (kpz_id as i64 as u64) ^ vstd::wrapping::u64_specs::wrapping_mul(kind_salt, 0x9E37_79B9_7F4A_7C15u64);
    let x1 = x0 ^ (x0 >> 33u64);
    let x2 = vstd::wrapping::u64_specs::wrapping_mul(x1, 0xff51afd7ed558ccdu64);
    let x3 = x2 ^ (x2 >> 33u64);
    let x4 = vstd::wrapping::u64_specs::wrapping_mul(x3, 0xc4ceb9fe1a85ec53u64);
    x4 ^ (x4 >> 33u64)
}

/// The offset, in milliseconds, at which the jobs of a КПЗ start within
/// their period: the mix of id and kind modulo the period; 0 for an empty
/// period. It always lies inside the period.
pub fn phase_offset(period_ms: u64, kpz_id: i32, kind_salt: u64) -> (r: u64)
    ensures
        period_ms == 0 ==> r == 0,
        period_ms > 0 ==> r == phase_mix(kpz_id, kind_salt) % period_ms && r < period_ms,
{
    let p = period_ms;
    if p == 0 {
        return 0;
    }
    let mut x: u64 = (kpz_id as i64 as u64) ^ kind_salt.wrapping_mul(0x9E37_79B9_7F4A_7C15);
    x = x ^ (x >> 33);
    x = x.wrapping_mul(0xff51afd7ed558ccd);
    x = x ^ (x >> 33);
    x = x.wrapping_mul(0xc4ceb9fe1a85ec53);
    x = x ^ (x >> 33);
    x % p
}

// ---------------------------------------------------------------------
// Exchange log rows.
// ---------------------------------------------------------------------

/// A row of the exchange log.
#[derive(Clone, Debug)]
pub struct ElamRow {
    pub kpz_id: i32,
    pub group_id: i32,
    pub packet_id: i32,
    pub pkt_type: i32,
    pub func: i32,
    pub addr_human: i32,
    pub count_words: i32,
    pub req: Vec<u8>,
    pub resp: Option<Vec<u8>>,
    pub duration_ms: i32,
    pub status: String,
    pub err: Option<String>,
}

/// Packet id (byte 3 of the request) and packet type (byte 4 of the
/// response, else of the request); 0 where the byte is missing.
pub open spec fn pkt_meta_spec(req: Seq<u8>, resp: Option<Seq<u8>>) -> (i32, i32) {
    let packet_id: i32 = if req.len() > 3 { req[3] as i32 } else { 0 };
    let pkt_type: i32 = match resp {
        Some(r) if r.len() > 4 => r[4] as i32,
        _ => if req.len() > 4 { req[4] as i32 } else { 0 },
    };
    (packet_id, pkt_type)
}

/// Packet id and packet type of an exchange, for the log.
pub fn pkt_meta(req: &[u8], resp: Option<&[u8]>) -> (r: (i32, i32))
    ensures
        r == pkt_meta_spec(req@, match resp { Some(s) => Some(s@), None => None }),
{
    let packet_id: i32 = if req.len() > 3 { req[3] as i32 } else { 0 };
    let pkt_type: i32 = match resp {
        Some(r) => if r.len() > 4 {
            r[4] as i32
        } else if req.len() > 4 {
            req[4] as i32
        } else {
            0
        },
        None => if req.len() > 4 { req[4] as i32 } else { 0 },
    };
    (packet_id, pkt_type)
}

/// Upper-case hexadecimal digit of a value below 16.
pub open spec fn hex_digit(d: int) -> char {
    if d < 10 { (('0' as int) + d) as char } else { (('A' as int) + d - 10) as char }
}

/// Two hexadecimal digits per byte, separated by single spaces.
pub open spec fn hex_join(data: Seq<u8>) -> Seq<char>
    decreases data.len(),
{
    if data.len() == 0 {
        Seq::empty()
    } else {
        let prev = hex_join(data.drop_last());
        let b = data.last();
        let two = seq![hex_digit((b / 16) as int), hex_digit((b % 16) as int)];
        if data.len() == 1 { two } else { prev.push(' ') + two }
    }
}

/// What `hex_preview` returns: the first `max_bytes` bytes in hex, then
/// " ..." when bytes were left out.
pub open spec fn hex_preview_spec(data: Seq<u8>, max_bytes: int) -> Seq<char> {
    let n = if data.len() < max_bytes { data.len() as int } else { max_bytes };
    hex_join(data.subrange(0, n)) + if data.len() > max_bytes { " ..."@ } else { Seq::empty() }
}

fn hex_digit_exec(d: u8) -> (c: char)
    requires
        d < 16,
    ensures
        c == hex_digit(d as int),
{
    if d < 10 {
        ((48u8 + d) as char)
    } else {
        ((55u8 + d) as char)
    }
}

/// Hexadecimal preview of at most `max_bytes` bytes.
pub fn hex_preview(data: &[u8], max_bytes: usize) -> (s: String)
    ensures
        s@ == hex_preview_spec(data@, max_bytes as int),
{
    let n = if data.len() < max_bytes { data.len() } else { max_bytes };
    let mut out = String::new();
    let mut i: usize = 0;
    while i < n
        invariant
            n <= data@.len(),
            i <= n,
            out@ == hex_join(data@.subrange(0, i as int)),
        decreases n - i,
    {
        let b = data[i];
        proof {
            let s1 = data@.subrange(0, i + 1);
            assert(s1.drop_last() =~= data@.subrange(0, i as int));
            assert(s1.last() == b);
        }
        if i > 0 {
            push_char(&mut out, ' ');
        }
        push_char(&mut out, hex_digit_exec(b / 16));
        push_char(&mut out, hex_digit_exec(b % 16));
        i = i + 1;
        proof {
            let s1 = data@.subrange(0, i as int);
            if i == 1 {
                assert(s1.drop_last() =~= Seq::<u8>::empty());
            }
            assert(out@ =~= hex_join(s1));
        }
    }
    if data.len() > max_bytes {
        out.append(" ...");
    }
    out
}

/// Whether an exchange with this status is logged: every status is.
pub fn should_log_elam(status: &str) -> (r: bool)
    ensures
        r,
{
    if str_starts_with(status, "ERROR") || str_starts_with(status, "WARN") {
        return true;
    }
    if crate::text::str_eq(status, "OK") {
        return true;
    }
    true
}

/// The prefix of an error status.
pub open spec fn is_error_status(status: Seq<char>) -> bool {
    5 <= status.len() && status.subrange(0, 5) == "ERROR"@
}

/// Copies an optional byte buffer.
fn copy_opt_bytes(v: &Option<Vec<u8>>) -> (r: Option<Vec<u8>>)
    ensures
        match (r, *v) {
            (Some(a), Some(b)) => a@ == b@,
            (None, None) => true,
            _ => false,
        },
{
    match v {
        Some(b) => Some(b.clone()),
        None => None,
    }
}

fn copy_bytes(v: &[u8]) -> (r: Vec<u8>)
    ensures
        r@ == v@,
{
    let mut out: Vec<u8> = Vec::with_capacity(v.len());
    crate::modbus::append_bytes(&mut out, v);
    out
}

/// The log row of one request of a batch: its packet id and type, the
/// request's function, address and size, the bytes sent, the answer, the
/// duration and the status, with the status as the error when it starts
/// with "ERROR".
pub fn build_elam_row(
    conn: &ConnInfo,
    group_id: i32,
    res: &ModbusResultReq,
    req_bytes: &[u8],
    duration_ms: i32,
    status: &str,
) -> (r: Option<ElamRow>)
    ensures
        r matches Some(row) && {
            let meta = pkt_meta_spec(req_bytes@, match res.response { Some(v) => Some(v@), None => None });
            &&& row.kpz_id == conn.kpz_id
            &&& row.group_id == group_id
            &&& row.packet_id == meta.0
            &&& row.pkt_type == meta.1
            &&& row.func == res.func as i32
            &&& row.addr_human == res.addr_human
            &&& row.count_words == res.cnt_words
            &&& row.req@ == req_bytes@
            &&& match (row.resp, res.response) {
                (Some(a), Some(b)) => a@ == b@,
                (None, None) => true,
                _ => false,
            }
            &&& row.duration_ms == duration_ms
            &&& row.status@ == status@
            &&& if is_error_status(status@) { row.err matches Some(e) && e@ == status@ } else { row.err is None }
        },
{
    if !should_log_elam(status) {
        return None;
    }
    let meta = match &res.response {
        Some(v) => pkt_meta(req_bytes, Some(v.as_slice())),
        None => pkt_meta(req_bytes, None),
    };
    proof {
        reveal_strlit("ERROR");
    }
    let err = if str_starts_with(status, "ERROR") {
        Some(String::from_str(status))
    } else {
        None
    };
    Some(ElamRow {
        kpz_id: conn.kpz_id,
        group_id,
        packet_id: meta.0,
        pkt_type: meta.1,
        func: res.func as i32,
        addr_human: res.addr_human,
        count_words: res.cnt_words,
        req: copy_bytes(req_bytes),
        resp: copy_opt_bytes(&res.response),
        duration_ms,
        status: String::from_str(status),
        err,
    })
}

/// Summary status of a batch: equal counts, or fewer answers than
/// commands with the number missing.
pub open spec fn summary_status_spec(expected: nat, received: nat) -> Seq<char> {
    if received == expected {
        "SUMMARY: responses == commands ("@ + dec_nat(received) + "/"@ + dec_nat(expected) + ")"@
    } else {
        let missing: nat = if expected > received { (expected - received) as nat } else { 0 };
        "SUMMARY: responses < commands ("@ + dec_nat(received) + "/"@ + dec_nat(expected) + "), missing="@ + dec_nat(missing)
    }
}

/// The summary row of a batch: the counts of commands and answers (in the
/// address and size columns), and the summary status, which is also the
/// error when answers are missing.
pub fn build_elam_summary_row(
    conn: &ConnInfo,
    group_id: i32,
    req_bytes: &[u8],
    resp_bytes: Option<&[u8]>,
    duration_ms: i32,
    expected: usize,
    received: usize,
) -> (row: ElamRow)
    ensures
        ({
            let meta = pkt_meta_spec(req_bytes@, match resp_bytes { Some(v) => Some(v@), None => None });
            &&& row.kpz_id == conn.kpz_id
            &&& row.group_id == group_id
            &&& row.packet_id == meta.0
            &&& row.pkt_type == meta.1
            &&& row.func == 0
            &&& row.addr_human == expected as i32
            &&& row.count_words == received as i32
            &&& row.req@ == req_bytes@
            &&& match (row.resp, resp_bytes) {
                (Some(a), Some(b)) => a@ == b@,
                (None, None) => true,
                _ => false,
            }
            &&& row.duration_ms == duration_ms
            &&& row.status@ == summary_status_spec(expected as nat, received as nat)
            &&& if received == expected { row.err is None } else { row.err matches Some(e) && e@ == row.status@ }
        }),
{
    let meta = pkt_meta(req_bytes, resp_bytes);
    let missing: usize = if expected > received { expected - received } else { 0 };
    let (status, err) = if received == expected {
        let mut s = String::from_str("SUMMARY: responses == commands (");
        s.append(u64_to_string(received as u64).as_str());
        s.append("/");
        s.append(u64_to_string(expected as u64).as_str());
        s.append(")");
        (s, None)
    } else {
        let mut s = String::from_str("SUMMARY: responses < commands (");
        s.append(u64_to_string(received as u64).as_str());
        s.append("/");
        s.append(u64_to_string(expected as u64).as_str());
        s.append("), missing=");
        s.append(u64_to_string(missing as u64).as_str());
        let e = s.clone();
        (s, Some(e))
    };
    let resp = match resp_bytes {
        Some(v) => Some(copy_bytes(v)),
        None => None,
    };
    ElamRow {
        kpz_id: conn.kpz_id,
        group_id,
        packet_id: meta.0,
        pkt_type: meta.1,
        func: 0,
        addr_human: expected as i32,
        count_words: received as i32,
        req: copy_bytes(req_bytes),
        resp,
        duration_ms,
        status,
        err,
    }
}

/// The row of a transport failure: no bytes, the text as status and error.
pub fn build_elam_transport_error_row(conn: &ConnInfo, group_id: i32, duration_ms: i32, err_text: &str) -> (row: ElamRow)
    ensures
        row.kpz_id == conn.kpz_id,
        row.group_id == group_id,
        row.packet_id == 0 && row.pkt_type == 0 && row.func == 0,
        row.addr_human == 0 && row.count_words == 0,
        row.req@.len() == 0,
        row.resp is None,
        row.duration_ms == duration_ms,
        row.status@ == err_text@,
        row.err matches Some(e) && e@ == err_text@,
{
    ElamRow {
        kpz_id: conn.kpz_id,
        group_id,
        packet_id: 0,
        pkt_type: 0,
        func: 0,
        addr_human: 0,
        count_words: 0,
        req: Vec::new(),
        resp: None,
        duration_ms,
        status: String::from_str(err_text),
        err: Some(String::from_str(err_text)),
    }
}

} // verus!
