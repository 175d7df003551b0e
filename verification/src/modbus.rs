//! Modbus RTU frame building and parsing, and their encapsulation in the
//! device's UDP packets (a 22-byte request header, a 10-byte response
//! header).

use vstd::prelude::*;
use vstd::string::*;
use vstd::slice::*;
use bytes::BytesMut;

use crate::crc::{crc16_spec, crc_tail, crc_valid, hi_byte, lo_byte, CRC16_TABLE};
use crate::text::{dec_int, dec_nat, i64_to_string, u64_to_string};

verus! {

// ---------------------------------------------------------------------
// The byte buffer of the `bytes` crate, used to assemble a request frame.
// ---------------------------------------------------------------------

#[verifier::external_type_specification]
#[verifier::external_body]
pub struct ExBytesMut(bytes::BytesMut);

/// Name for the bytes that a `BytesMut` holds, in order.
pub uninterp spec fn bytes_mut_contents(b: BytesMut) -> Seq<u8>;

/// `BytesMut::with_capacity`: an empty buffer.
#[verifier::external_body]
fn bytes_mut_with_capacity(capacity: usize) -> (b: BytesMut)
    ensures
        bytes_mut_contents(b) == Seq::<u8>::empty(),
{
    BytesMut::with_capacity(capacity)
}

/// `BytesMut::extend_from_slice`: appends the slice to the contents. The
/// buffer grows as needed; it panics only when the new length would pass
/// `isize::MAX`, which `requires` rules out.
#[verifier::external_body]
fn bytes_mut_extend(b: &mut BytesMut, extend: &[u8])
    requires
        bytes_mut_contents(*old(b)).len() + extend@.len() <= isize::MAX,
    ensures
        bytes_mut_contents(*final(b)) == bytes_mut_contents(*old(b)) + extend@,
{
    b.extend_from_slice(extend)
}

/// `<BytesMut as Deref>::deref`: the contents as a slice.
#[verifier::external_body]
fn bytes_mut_as_slice(b: &BytesMut) -> (s: &[u8])
    ensures
        s@ == bytes_mut_contents(*b),
{
    &b[..]
}

/// `to_vec` on the contents of a `BytesMut`: a vector of the same bytes.
#[verifier::external_body]
fn bytes_mut_to_vec(b: &BytesMut) -> (v: Vec<u8>)
    ensures
        v@ == bytes_mut_contents(*b),
{
    b.to_vec()
}

// ---------------------------------------------------------------------
// UDP header parameters.
// ---------------------------------------------------------------------

/// Parameters of the 22-byte UDP header that wraps RTU frames.
#[derive(Clone, Debug)]
pub struct UdpParams {
    pub kan: u8,
    pub speed: u8,
    pub stop: u8,
    pub par: u8,
    pub data: u8,
    pub rtu: u16,
    pub out_max: u16,
    pub packet_id: u8,
    /// 0 for a request, 1 for a response.
    pub pkt_type: u8,
    pub dsr: u16,
    pub modem: u16,
    pub port: u16,
    pub ip: String,
}

impl Default for UdpParams {
    fn default() -> (p: Self)
        ensures
            p.kan == 3 && p.speed == 8 && p.stop == 0 && p.par == 2 && p.data == 8,
            p.rtu == 301 && p.out_max == 256 && p.packet_id == 0 && p.pkt_type == 0,
            p.dsr == 1 && p.modem == 50002 && p.port == 5100,
            p.ip@ == "192.168.0.10"@,
    {
        UdpParams {
            kan: 3,
            speed: 8,
            stop: 0,
            par: 2,
            data: 8,
            rtu: 301,
            out_max: 256,
            packet_id: 0,
            pkt_type: 0,
            dsr: 1,
            modem: 50002,
            port: 5100,
            ip: String::from_str("192.168.0.10"),
        }
    }
}

// ---------------------------------------------------------------------
// CRC.
// ---------------------------------------------------------------------

/// Computes the Modbus CRC-16 of `data` (the frame without its CRC tail).
pub fn crc16(data: &[u8]) -> (crc: u16)
    ensures
        crc == crc16_spec(data@),
{
    let mut crc: u16 = 0xFFFF;
    let n = data.len();
    let mut i: usize = 0;
    while i < n
        invariant
            n == data@.len(),
            i <= n,
            crc == crc16_spec(data@.subrange(0, i as int)),
        decreases n - i,
    {
        let b = data[i];
        let x: u16 = (b as u16) ^ (crc & 0x00FF);
        assert(x < 256) by (bit_vector)
            requires
                x == (b as u16) ^ (crc & 0x00FFu16),
        ;
        proof {
            let s1 = data@.subrange(0, i + 1);
            assert(s1.drop_last() =~= data@.subrange(0, i as int));
            assert(s1.last() == b);
        }
        crc = (crc >> 8) ^ CRC16_TABLE[x as usize];
        i = i + 1;
    }
    assert(data@.subrange(0, n as int) =~= data@);
    crc
}

// ---------------------------------------------------------------------
// RTU unit address.
// ---------------------------------------------------------------------

/// Wire encoding of an RTU unit address: one byte for 1..=247; two bytes
/// for 248..=1997, the first in 0xF8..=0xFE (0xF8 plus the block of 250),
/// the second the position within the block; nothing else is encodable.
pub open spec fn rtu_address_spec(rtu: u16) -> Option<Seq<u8>> {
    if rtu == 0 || rtu > 1997 {
        None
    } else if rtu <= 247 {
        Some(seq![rtu as u8])
    } else {
        Some(seq![(0xF8 + (rtu - 248) / 250) as u8, ((rtu - 248) % 250) as u8])
    }
}

/// The error text for an address that has no encoding.
pub open spec fn rtu_address_error(rtu: u16) -> Seq<char> {
    if rtu == 0 {
        "rtu must be in range 1..=1997"@
    } else {
        "rtu out of protocol range: "@ + dec_nat(rtu as nat) + " (max 1997)"@
    }
}

/// Encodes the RTU unit address for the wire.
pub fn encode_rtu_address(rtu: u16) -> (r: Result<Vec<u8>, String>)
    ensures
        match r {
            Ok(v) => rtu_address_spec(rtu) == Some(v@),
            Err(e) => rtu_address_spec(rtu) is None && e@ == rtu_address_error(rtu),
        },
{
    let plain_max: u16 = 247;
    let ext_base: u16 = 248;
    let ext_block: u16 = 250;
    let ext_prefix_min: u8 = 0xF8;
    let ext_prefix_max: u8 = 0xFE;
    let ext_max_rtu: u16 = 1997;

    if rtu == 0 {
        return Err(String::from_str("rtu must be in range 1..=1997"));
    }
    if rtu <= plain_max {
        let v = vec![rtu as u8];
        assert(v@ =~= seq![rtu as u8]);
        return Ok(v);
    }
    if rtu > ext_max_rtu {
        let mut e = String::from_str("rtu out of protocol range: ");
        e.append(u64_to_string(rtu as u64).as_str());
        e.append(" (max 1997)");
        return Err(e);
    }
    let ext = rtu - ext_base;
    let hi = ext_prefix_min + (ext / ext_block) as u8;
    let lo = (ext % ext_block) as u8;
    if hi > ext_prefix_max {
        let mut e = String::from_str("rtu out of protocol range: ");
        e.append(u64_to_string(rtu as u64).as_str());
        e.append(" (max 1997)");
        return Err(e);
    }
    let v = vec![hi, lo];
    assert(v@ =~= seq![hi, lo]);
    Ok(v)
}

// ---------------------------------------------------------------------
// UDP request header.
// ---------------------------------------------------------------------

/// The 22-byte UDP header of a request whose full length is `out_max_bytes`.
pub open spec fn shab_spec(par: UdpParams, out_max_bytes: usize) -> Seq<u8> {
    seq![
        1u8,
        (out_max_bytes & 0xFF) as u8,
        ((out_max_bytes & 0xFF00) >> 8) as u8,
        par.packet_id,
        par.pkt_type,
        (par.dsr & 0xFF) as u8,
        ((par.dsr & 0xFF00) >> 8) as u8,
        (par.modem & 0xFF) as u8,
        ((par.modem & 0xFF00) >> 8) as u8,
        par.kan,
        par.speed,
        par.stop,
        par.par,
        3u8, 3u8, 0u8, 30u8, 0u8, 255u8, 0u8, 255u8, 0u8
    ]
}

/// Builds the 22-byte UDP header of the device protocol.
pub fn shab(par: &UdpParams, out_max_bytes: usize) -> (h: Vec<u8>)
    ensures
        h@ == shab_spec(*par, out_max_bytes),
{
    let mut fbuf: Vec<u8> = Vec::with_capacity(22);
    fbuf.push(1);
    fbuf.push((out_max_bytes & 0x00FF) as u8);
    fbuf.push(((out_max_bytes & 0xFF00) >> 8) as u8);
    fbuf.push(par.packet_id);
    fbuf.push(par.pkt_type);
    fbuf.push((par.dsr & 0x00FF) as u8);
    fbuf.push(((par.dsr & 0xFF00) >> 8) as u8);
    fbuf.push((par.modem & 0x00FF) as u8);
    fbuf.push(((par.modem & 0xFF00) >> 8) as u8);
    fbuf.push(par.kan);
    fbuf.push(par.speed);
    fbuf.push(par.stop);
    fbuf.push(par.par);
    fbuf.push(3);
    fbuf.push(3);
    fbuf.push(0);
    fbuf.push(30);
    fbuf.push(0);
    fbuf.push(255);
    fbuf.push(0);
    fbuf.push(255);
    fbuf.push(0);
    assert(fbuf@ =~= shab_spec(*par, out_max_bytes));
    fbuf
}


// ---------------------------------------------------------------------
// RTU request frames.
// ---------------------------------------------------------------------

/// The function code a request uses: a write (a payload is given) accepts
/// 5, 6 and 16, a read accepts 3 and 4.
pub open spec fn request_func_ok(tip: u8, is_write: bool) -> bool {
    if is_write {
        tip == 5 || tip == 6 || tip == 16
    } else {
        tip == 3 || tip == 4
    }
}

/// The RTU request without its CRC: unit address, function, start address
/// (big endian), then the quantity for a read, the first two payload bytes
/// (missing ones as 0) for FC5/FC6, and quantity, payload length (low
/// byte) and payload for FC16.
pub open spec fn request_body_spec(unit: Seq<u8>, func: u8, adr: int, size: u16, dat: Option<Seq<u8>>) -> Seq<u8> {
    let head = unit + seq![func, (adr / 256) as u8, (adr % 256) as u8];
    match dat {
        None => head + seq![(size / 256) as u8, (size % 256) as u8],
        Some(d) => if func == 5 || func == 6 {
            head + seq![if d.len() > 0 { d[0] } else { 0u8 }, if d.len() > 1 { d[1] } else { 0u8 }]
        } else {
            head + seq![(size / 256) as u8, (size % 256) as u8, (d.len() % 256) as u8] + d
        },
    }
}

/// What `sout_mb_only` returns: the error text, or the request with its
/// CRC appended.
pub open spec fn sout_mb_only_spec(rtu: u16, tip: u8, adr: i32, size: u16, dat: Option<Seq<u8>>) -> Result<Seq<u8>, Seq<char>> {
    if !request_func_ok(tip, dat is Some) {
        if dat is Some {
            Err("unsupported write func tip="@ + dec_nat(tip as nat))
        } else {
            Err("unsupported read func tip="@ + dec_nat(tip as nat))
        }
    } else if adr < 0 || adr > 0xFFFF {
        Err("adr0 out of range: adrHuman="@ + dec_int(adr as int) + " adr0="@ + dec_int(adr as int))
    } else {
        match rtu_address_spec(rtu) {
            None => Err(rtu_address_error(rtu)),
            Some(unit) => {
                let body = request_body_spec(unit, tip, adr as int, size, dat);
                Ok(body + crc_tail(body))
            },
        }
    }
}

proof fn lemma_u16_bytes(v: u16)
    ensures
        ((v >> 8u16) & 0xFFu16) as u8 == (v / 256) as u8,
        (v & 0xFFu16) as u8 == (v % 256) as u8,
        (v & 0xFFu16) as u8 == lo_byte(v),
        ((v >> 8u16) & 0xFFu16) as u8 == hi_byte(v),
{
    assert(((v >> 8u16) & 0xFFu16) == v / 256 && (v & 0xFFu16) == v % 256) by (bit_vector);
    assert(((v >> 8u16) & 0xFFu16) == (v >> 8u16)) by (bit_vector);
}

proof fn lemma_i32_addr_bytes(a: i32)
    requires
        0 <= a <= 0xFFFF,
    ensures
        ((a >> 8i32) & 0xFFi32) as u8 == (a / 256) as u8,
        (a & 0xFFi32) as u8 == (a % 256) as u8,
{
    assert(((a >> 8i32) & 0xFFi32) == a / 256 && (a & 0xFFi32) == a % 256) by (bit_vector)
        requires
            0 <= a <= 0xFFFF,
    ;
}

/// Builds one Modbus RTU request (no UDP header) and appends its CRC.
/// A write is a call with `dat` given.
pub fn sout_mb_only(rtu: u16, tip: u8, adr: i32, size: u16, dat: Option<&[u8]>) -> (r: Result<Vec<u8>, String>)
    requires
        dat matches Some(d) ==> d@.len() <= isize::MAX - 64,
    ensures
        match (r, sout_mb_only_spec(rtu, tip, adr, size, match dat { Some(d) => Some(d@), None => None })) {
            (Ok(v), Ok(w)) => v@ == w,
            (Err(e), Err(m)) => e@ == m,
            _ => false,
        },
{
    let ghost dv: Option<Seq<u8>> = match dat { Some(d) => Some(d@), None => None };
    let is_write = dat.is_some();
    let func: u8 = if is_write {
        if tip == 5 || tip == 6 || tip == 16 {
            tip
        } else {
            let mut e = String::from_str("unsupported write func tip=");
            e.append(u64_to_string(tip as u64).as_str());
            return Err(e);
        }
    } else {
        if tip == 3 || tip == 4 {
            tip
        } else {
            let mut e = String::from_str("unsupported read func tip=");
            e.append(u64_to_string(tip as u64).as_str());
            return Err(e);
        }
    };
    let adr0: i32 = adr;
    if !(0 <= adr0 && adr0 <= 0xFFFF) {
        let mut e = String::from_str("adr0 out of range: adrHuman=");
        e.append(i64_to_string(adr as i64).as_str());
        e.append(" adr0=");
        e.append(i64_to_string(adr0 as i64).as_str());
        return Err(e);
    }
    let extra: usize = match dat {
        Some(d) => d.len(),
        None => 0,
    };
    let unit = match encode_rtu_address(rtu) {
        Ok(u) => u,
        Err(e) => return Err(e),
    };
    let mut outb = bytes_mut_with_capacity(if extra <= 1024 { 16 + extra } else { 16 });
    bytes_mut_extend(&mut outb, unit.as_slice());
    let head = [func, ((adr0 >> 8) & 0xFF) as u8, (adr0 & 0xFF) as u8];
    proof {
        lemma_i32_addr_bytes(adr0);
    }
    bytes_mut_extend(&mut outb, &head);
    let ghost unit_head = unit@ + seq![func, (adr / 256) as u8, (adr % 256) as u8];
    assert(bytes_mut_contents(outb) =~= unit_head);
    proof {
        lemma_u16_bytes(size);
    }
    match dat {
        None => {
            let tail = [((size >> 8) & 0xFF) as u8, (size & 0xFF) as u8];
            bytes_mut_extend(&mut outb, &tail);
        },
        Some(d) => {
            if func == 5 || func == 6 {
                let b0: u8 = if d.len() > 0 { d[0] } else { 0 };
                let b1: u8 = if d.len() > 1 { d[1] } else { 0 };
                let tail = [b0, b1];
                bytes_mut_extend(&mut outb, &tail);
            } else {
                let dl = d.len();
                let tail = [((size >> 8) & 0xFF) as u8, (size & 0xFF) as u8, (dl & 0xFF) as u8];
                assert((dl & 0xFFusize) as u8 == (dl % 256) as u8) by (bit_vector);
                bytes_mut_extend(&mut outb, &tail);
                bytes_mut_extend(&mut outb, d);
            }
        },
    }
    let ghost body = request_body_spec(unit@, func, adr as int, size, dv);
    assert(bytes_mut_contents(outb) =~= body);
    let crc = crc16(bytes_mut_as_slice(&outb));
    proof {
        lemma_u16_bytes(crc);
    }
    let crc_bytes = [(crc & 0xFF) as u8, ((crc >> 8) & 0xFF) as u8];
    bytes_mut_extend(&mut outb, &crc_bytes);
    assert(bytes_mut_contents(outb) =~= body + crc_tail(body));
    Ok(bytes_mut_to_vec(&outb))
}

/// `sout_mb_only`, with the frame wrapped in a UDP request when `par` is
/// given: header (whose length field is the whole packet) then frame.
pub fn sout(rtu: u16, tip: u8, adr: i32, size: u16, dat: Option<&[u8]>, par: Option<&UdpParams>) -> (r: Result<Vec<u8>, String>)
    requires
        dat matches Some(d) ==> d@.len() <= isize::MAX - 64,
    ensures
        match (r, sout_mb_only_spec(rtu, tip, adr, size, match dat { Some(d) => Some(d@), None => None })) {
            (Ok(v), Ok(w)) => match par {
                None => v@ == w,
                Some(p) => v@ == shab_spec(*p, (22 + w.len()) as usize) + w,
            },
            (Err(e), Err(m)) => e@ == m,
            _ => false,
        },
{
    let mb = match sout_mb_only(rtu, tip, adr, size, dat) {
        Ok(mb) => mb,
        Err(e) => return Err(e),
    };
    match par {
        None => Ok(mb),
        Some(par) => {
            let mmax = 22 + mb.len();
            let header = shab(par, mmax);
            let mut out: Vec<u8> = Vec::with_capacity(mmax);
            append_bytes(&mut out, header.as_slice());
            append_bytes(&mut out, mb.as_slice());
            Ok(out)
        },
    }
}

/// Appends `s` to `v`.
pub fn append_bytes(v: &mut Vec<u8>, s: &[u8])
    ensures
        final(v)@ == old(v)@ + s@,
{
    let n = s.len();
    let mut i: usize = 0;
    while i < n
        invariant
            n == s@.len(),
            i <= n,
            v@ == old(v)@ + s@.subrange(0, i as int),
        decreases n - i,
    {
        v.push(s[i]);
        i = i + 1;
        assert(v@ =~= old(v)@ + s@.subrange(0, i as int));
    }
    assert(s@.subrange(0, n as int) =~= s@);
}

// ---------------------------------------------------------------------
// Responses.
// ---------------------------------------------------------------------

/// Length of the service header in front of the RTU part of a response.
pub open spec fn response_header_len() -> int {
    10
}

/// The RTU part of a UDP response: everything after its 10-byte header,
/// when at least 4 bytes follow it.
pub fn extract_modbus_frame(resp: &[u8]) -> (r: Option<&[u8]>)
    ensures
        resp@.len() <= 13 ==> r is None,
        resp@.len() > 13 ==> (r matches Some(f) && f@ == resp@.subrange(10, resp@.len() as int)),
{
    let hdr: usize = 10;
    if resp.len() <= hdr + 3 {
        return None;
    }
    Some(slice_subrange(resp, hdr, resp.len()))
}

/// Whether `frame` is at least 4 bytes long and ends with the CRC of the
/// bytes before the last two.
pub open spec fn crc_ok_spec(frame: Seq<u8>) -> bool {
    frame.len() >= 4 && crc_valid(frame)
}

proof fn lemma_crc_wire(lo: u8, hi: u8, c: u16)
    ensures
        ((((hi as u16) << 8u16) | (lo as u16)) == c) <==> (lo == lo_byte(c) && hi == hi_byte(c)),
{
    assert(((((hi as u16) << 8u16) | (lo as u16)) == c) <==> (lo == (c & 0xFFu16) as u8 && hi == (c >> 8u16) as u8)) by (bit_vector);
}

/// Checks the CRC tail of an RTU frame.
pub fn crc_ok(frame: &[u8]) -> (ok: bool)
    ensures
        ok == crc_ok_spec(frame@),
{
    let n = frame.len();
    if n < 4 {
        return false;
    }
    let body = slice_subrange(frame, 0, n - 2);
    let crc_lo = frame[n - 2];
    let crc_hi = frame[n - 1];
    let crc = ((crc_hi as u16) << 8) | (crc_lo as u16);
    let c = crc16(body);
    proof {
        lemma_crc_wire(crc_lo, crc_hi, c);
        let t = frame@.subrange(n - 2, n as int);
        assert(t =~= seq![crc_lo, crc_hi]);
        if c == crc {
            assert(t =~= crc_tail(body@));
        }
        if t == crc_tail(body@) {
            assert(t[0] == crc_lo && t[1] == crc_hi);
        }
    }
    c == crc
}


// ---------------------------------------------------------------------
// Splitting an aggregated response into one packet per RTU frame.
// ---------------------------------------------------------------------

/// The byte sequences that a vector of frames holds.
pub open spec fn frames_view(v: Seq<Vec<u8>>) -> Seq<Seq<u8>> {
    v.map_values(|x: Vec<u8>| x@)
}

/// The byte sequences that a vector of chunks of frames holds.
pub open spec fn chunks_view(v: Seq<Vec<Vec<u8>>>) -> Seq<Seq<Seq<u8>>> {
    v.map_values(|c: Vec<Vec<u8>>| frames_view(c@))
}

/// Width of the unit address that starts at a byte: two bytes after an
/// extended prefix (0xF8 and above), one otherwise.
pub open spec fn unit_len_of(b0: u8) -> int {
    if b0 >= 0xF8 { 2 } else { 1 }
}

/// The `need` bytes at `offset`, with the offset after them, when they fit
/// in `buf` and pass the CRC check.
pub open spec fn try_frame(buf: Seq<u8>, offset: int, need: int) -> Option<(Seq<u8>, int)> {
    let end = offset + need;
    if end > buf.len() {
        None
    } else if crc_ok_spec(buf.subrange(offset, end)) {
        Some((buf.subrange(offset, end), end))
    } else {
        None
    }
}

/// The RTU response frame that starts at `offset`, by its function code:
/// an exception (high bit set) has one code byte, FC16 echoes address and
/// quantity, FC3/FC4 carry a byte count of one byte (plain) or two bytes
/// (extended), tried shorter first; the CRC decides.
pub open spec fn next_rtu_frame_spec(buf: Seq<u8>, offset: int) -> Option<(Seq<u8>, int)> {
    if offset < 0 || offset >= buf.len() {
        None
    } else {
        let ulen = unit_len_of(buf[offset]);
        let fi = offset + ulen;
        if fi >= buf.len() {
            None
        } else {
            let func = buf[fi];
            if func >= 0x80 {
                try_frame(buf, offset, ulen + 4)
            } else if func == 16 {
                try_frame(buf, offset, ulen + 7)
            } else if func == 3 || func == 4 {
                let bi = fi + 1;
                if bi >= buf.len() {
                    None
                } else {
                    match try_frame(buf, offset, ulen + 4 + buf[bi]) {
                        Some(x) => Some(x),
                        None => if bi + 1 < buf.len() {
                            try_frame(buf, offset, ulen + 5 + buf[bi] * 256 + buf[bi + 1])
                        } else {
                            None
                        },
                    }
                }
            } else {
                None
            }
        }
    }
}

fn try_slice_frame(buf: &[u8], offset: usize, need: usize) -> (r: Option<(Vec<u8>, usize)>)
    requires
        offset < buf@.len(),
        need <= 0x20000,
    ensures
        match (r, try_frame(buf@, offset as int, need as int)) {
            (Some((v, e)), Some((w, f))) => v@ == w && e == f,
            (None, None) => true,
            _ => false,
        },
{
    if need > buf.len() - offset {
        return None;
    }
    let end = offset + need;
    let frame = slice_subrange(buf, offset, end);
    if crc_ok(frame) {
        return Some((slice_to_vec(frame), end));
    }
    None
}

/// The RTU frame at `offset` of an aggregated response and the offset
/// after it.
pub fn slice_next_rtu_frame(buf: &[u8], offset: usize) -> (r: Option<(Vec<u8>, usize)>)
    ensures
        match (r, next_rtu_frame_spec(buf@, offset as int)) {
            (Some((v, e)), Some((w, f))) => v@ == w && e == f,
            (None, None) => true,
            _ => false,
        },
{
    if offset >= buf.len() {
        return None;
    }
    let b0 = buf[offset];
    let ulen: usize = if b0 >= 0xF8 { 2 } else { 1 };
    if ulen >= buf.len() - offset {
        return None;
    }
    let func_index = offset + ulen;
    let func = buf[func_index];
    assert(((func & 0x80u8) != 0u8) == (func >= 0x80u8)) by (bit_vector);
    if (func & 0x80) != 0 {
        return try_slice_frame(buf, offset, ulen + 1 + 1 + 2);
    }
    if func == 16 {
        return try_slice_frame(buf, offset, ulen + 1 + 4 + 2);
    }
    if func == 3 || func == 4 {
        let bc1_index = func_index + 1;
        if bc1_index >= buf.len() {
            return None;
        }
        let bc1 = buf[bc1_index] as usize;
        // The one-byte count is always the shorter candidate.
        let first = try_slice_frame(buf, offset, ulen + 1 + 1 + bc1 + 2);
        if first.is_some() {
            return first;
        }
        let bc2_lo_index = bc1_index + 1;
        if bc2_lo_index < buf.len() {
            let bc2 = ((buf[bc1_index] as usize) << 8) | (buf[bc2_lo_index] as usize);
            let hi = buf[bc1_index];
            let lo = buf[bc2_lo_index];
            assert((((hi as usize) << 8usize) | (lo as usize)) == (hi as usize) * 256 + (lo as usize)) by (bit_vector);
            return try_slice_frame(buf, offset, ulen + 1 + 2 + bc2 + 2);
        }
        return None;
    }
    None
}

/// Number of frames at most that the splitter looks at (a bound on its
/// steps).
pub open spec fn split_guard() -> nat {
    20000
}

/// The virtual packets found from `off` on, each the 10-byte header of
/// `rx` followed by one valid RTU frame; bytes where no frame starts are
/// skipped one at a time; at most `split_guard()` steps are taken.
pub open spec fn split_from(rx: Seq<u8>, off: int, guard: nat) -> Seq<Seq<u8>>
    decreases split_guard() - guard,
{
    if off >= rx.len() || guard >= split_guard() {
        Seq::empty()
    } else {
        match next_rtu_frame_spec(rx, off) {
            Some((f, next)) => seq![rx.subrange(0, 10) + f] + split_from(rx, next, guard + 1),
            None => split_from(rx, off + 1, guard + 1),
        }
    }
}

proof fn lemma_split_unfold(rx: Seq<u8>, off: int, g: nat)
    requires
        0 <= off < rx.len(),
        g < split_guard(),
    ensures
        split_from(rx, off, g) == match next_rtu_frame_spec(rx, off) {
            Some((f, next)) => seq![rx.subrange(0, 10) + f] + split_from(rx, next, g + 1),
            None => split_from(rx, off + 1, g + 1),
        },
{
}

proof fn lemma_split_push(old_out: Seq<Seq<u8>>, new_out: Seq<Seq<u8>>, p: Seq<u8>, rest: Seq<Seq<u8>>)
    requires
        new_out == old_out.push(p),
    ensures
        old_out + (seq![p] + rest) == new_out + rest,
{
    assert(old_out + (seq![p] + rest) =~= new_out + rest);
}

/// What `split_rx_to_virtual` returns.
pub open spec fn split_rx_spec(rx: Seq<u8>) -> Seq<Seq<u8>> {
    if rx.len() <= 10 {
        Seq::empty()
    } else {
        split_from(rx, 10, 0)
    }
}

/// Splits an aggregated UDP response into virtual packets, each the
/// response header and exactly one valid RTU frame.
pub fn split_rx_to_virtual(rx: &[u8]) -> (out: Vec<Vec<u8>>)
    ensures
        frames_view(out@) == split_rx_spec(rx@),
{
    let hdr10: usize = 10;
    let mut out: Vec<Vec<u8>> = Vec::new();
    if rx.len() <= hdr10 {
        assert(frames_view(out@) =~= Seq::<Seq<u8>>::empty());
        return out;
    }
    let hdr = slice_subrange(rx, 0, hdr10);
    let mut off = hdr10;
    let mut guard: usize = 0;
    assert(frames_view(out@) =~= Seq::<Seq<u8>>::empty());
    while off < rx.len() && guard < 20000
        invariant
            rx@.len() > 10,
            hdr@ == rx@.subrange(0, 10),
            off >= 10,
            guard <= 20000,
            frames_view(out@) + split_from(rx@, off as int, guard as nat) == split_from(rx@, 10, 0),
        decreases 20000 - guard,
    {
        let ghost old_out = frames_view(out@);
        let ghost g = guard as nat;
        proof {
            lemma_split_unfold(rx@, off as int, g);
        }
        guard += 1;
        match slice_next_rtu_frame(rx, off) {
            Some((frame, next_offset)) => {
                let mut vp: Vec<u8> = Vec::new();
                append_bytes(&mut vp, hdr);
                append_bytes(&mut vp, frame.as_slice());
                assert(vp@ =~= rx@.subrange(0, 10) + frame@);
                out.push(vp);
                proof {
                    assert(frames_view(out@) =~= old_out.push(rx@.subrange(0, 10) + frame@));
                    lemma_split_push(old_out, frames_view(out@), rx@.subrange(0, 10) + frame@, split_from(rx@, next_offset as int, g + 1));
                }
                off = next_offset;
            },
            None => {
                off += 1;
            },
        }
    }
    assert(split_from(rx@, off as int, guard as nat) =~= Seq::<Seq<u8>>::empty());
    assert(frames_view(out@) =~= split_from(rx@, 10, 0));
    out
}

/// Each packet that the splitter emits is the 10-byte header of the
/// aggregated response followed by one RTU frame whose CRC checks.
pub proof fn lemma_split_packets_are_valid(rx: Seq<u8>, off: int, guard: nat, k: int)
    requires
        rx.len() > 10,
        off >= 0,
        0 <= k < split_from(rx, off, guard).len(),
    ensures
        split_from(rx, off, guard)[k].subrange(0, 10) == rx.subrange(0, 10),
        crc_ok_spec(split_from(rx, off, guard)[k].subrange(10, split_from(rx, off, guard)[k].len() as int)),
    decreases split_guard() - guard,
{
    if off >= rx.len() || guard >= split_guard() {
    } else {
        match next_rtu_frame_spec(rx, off) {
            Some((f, next)) => {
                let p = rx.subrange(0, 10) + f;
                assert(split_from(rx, off, guard) == seq![p] + split_from(rx, next, guard + 1));
                if k == 0 {
                    assert(p.subrange(0, 10) =~= rx.subrange(0, 10));
                    assert(p.subrange(10, p.len() as int) =~= f);
                } else {
                    assert(next >= off);
                    lemma_split_packets_are_valid(rx, next, guard + 1, k - 1);
                }
            },
            None => {
                lemma_split_packets_are_valid(rx, off + 1, guard + 1, k);
            },
        }
    }
}

// ---------------------------------------------------------------------
// Grouping frames into packets under a size limit.
// ---------------------------------------------------------------------

/// Greedy grouping of frames in order: a frame opens a new chunk when the
/// current one is not empty and the 22-byte header, the current payload
/// and the frame together would pass `limit`. Returns the closed chunks,
/// the open chunk and its payload length.
pub open spec fn chunk_fold(frames: Seq<Seq<u8>>, limit: int) -> (Seq<Seq<Seq<u8>>>, Seq<Seq<u8>>, int)
    decreases frames.len(),
{
    if frames.len() == 0 {
        (Seq::empty(), Seq::empty(), 0)
    } else {
        let prev = chunk_fold(frames.drop_last(), limit);
        let mb = frames.last();
        if prev.1.len() > 0 && 22 + prev.2 + mb.len() > limit {
            (prev.0.push(prev.1), seq![mb], mb.len() as int)
        } else {
            (prev.0, prev.1.push(mb), prev.2 + mb.len())
        }
    }
}

/// The chunks that `build_mb_chunks` returns when it succeeds.
pub open spec fn chunks_spec(frames: Seq<Seq<u8>>, limit: int) -> Seq<Seq<Seq<u8>>> {
    let st = chunk_fold(frames, limit);
    if st.1.len() > 0 {
        st.0.push(st.1)
    } else {
        st.0
    }
}

/// Index of the first frame that does not fit in a packet on its own.
pub open spec fn first_too_large(frames: Seq<Seq<u8>>, limit: int) -> Option<int>
    decreases frames.len(),
{
    if frames.len() == 0 {
        None
    } else if 22 + frames[0].len() > limit {
        Some(0)
    } else {
        match first_too_large(frames.drop_first(), limit) {
            Some(i) => Some(i + 1),
            None => None,
        }
    }
}

/// What `build_mb_chunks` returns.
pub open spec fn build_mb_chunks_spec(frames: Seq<Seq<u8>>, limit: usize) -> Result<Seq<Seq<Seq<u8>>>, Seq<char>> {
    if limit <= 23 {
        Err("limit too small: "@ + dec_nat(limit as nat) + " (need > 22)"@)
    } else {
        match first_too_large(frames, limit as int) {
            Some(i) => Err("single cmd too large for limit="@ + dec_nat(limit as nat) + " size="@ + dec_nat((22 + frames[i].len()) as nat)),
            None => Ok(chunks_spec(frames, limit as int)),
        }
    }
}

/// Sum of the lengths of the frames of a chunk.
pub open spec fn payload_len(chunk: Seq<Seq<u8>>) -> int
    decreases chunk.len(),
{
    if chunk.len() == 0 {
        0
    } else {
        payload_len(chunk.drop_last()) + chunk.last().len()
    }
}

/// The frames of a list of chunks, in order.
pub open spec fn flatten_chunks(chunks: Seq<Seq<Seq<u8>>>) -> Seq<Seq<u8>>
    decreases chunks.len(),
{
    if chunks.len() == 0 {
        Seq::empty()
    } else {
        flatten_chunks(chunks.drop_last()) + chunks.last()
    }
}

proof fn lemma_first_too_large_none(frames: Seq<Seq<u8>>, limit: int)
    requires
        first_too_large(frames, limit) is None,
    ensures
        forall|i: int| 0 <= i < frames.len() ==> 22 + #[trigger] frames[i].len() <= limit,
    decreases frames.len(),
{
    if frames.len() > 0 {
        lemma_first_too_large_none(frames.drop_first(), limit);
        assert forall|i: int| 0 <= i < frames.len() implies 22 + #[trigger] frames[i].len() <= limit by {
            if i > 0 {
                assert(frames[i] == frames.drop_first()[i - 1]);
            }
        }
    }
}

proof fn lemma_first_too_large_some(frames: Seq<Seq<u8>>, limit: int, i: int)
    requires
        0 <= i <= frames.len(),
        forall|j: int| 0 <= j < i ==> 22 + #[trigger] frames[j].len() <= limit,
        i < frames.len() ==> 22 + frames[i].len() > limit,
    ensures
        i < frames.len() ==> first_too_large(frames, limit) == Some(i),
        i == frames.len() ==> first_too_large(frames, limit) is None,
    decreases frames.len(),
{
    if frames.len() > 0 && i > 0 {
        assert forall|j: int| 0 <= j < i - 1 implies 22 + #[trigger] frames.drop_first()[j].len() <= limit by {
            assert(frames.drop_first()[j] == frames[j + 1]);
        }
        if i < frames.len() {
            assert(frames.drop_first()[i - 1] == frames[i]);
        }
        lemma_first_too_large_some(frames.drop_first(), limit, i - 1);
        assert(22 + frames[0].len() <= limit);
    }
}

/// The fold's invariant: the closed chunks are non-empty and fit, the open
/// chunk fits and its payload is tracked, and the chunks with the open one
/// give back the frames.
proof fn lemma_chunk_fold(frames: Seq<Seq<u8>>, limit: int)
    requires
        forall|i: int| 0 <= i < frames.len() ==> 22 + #[trigger] frames[i].len() <= limit,
    ensures
        ({
            let st = chunk_fold(frames, limit);
            &&& forall|c: int| 0 <= c < st.0.len() ==> (#[trigger] st.0[c]).len() > 0 && 22 + payload_len(st.0[c]) <= limit
            &&& st.2 == payload_len(st.1)
            &&& 22 + st.2 <= limit || st.1.len() == 0
            &&& frames.len() > 0 ==> st.1.len() > 0
            &&& flatten_chunks(st.0) + st.1 == frames
        }),
    decreases frames.len(),
{
    if frames.len() > 0 {
        let pre = frames.drop_last();
        assert forall|i: int| 0 <= i < pre.len() implies 22 + #[trigger] pre[i].len() <= limit by {
            assert(pre[i] == frames[i]);
        }
        lemma_chunk_fold(pre, limit);
        let prev = chunk_fold(pre, limit);
        let mb = frames.last();
        assert(22 + mb.len() <= limit) by {
            assert(mb == frames[frames.len() - 1]);
        }
        if prev.1.len() > 0 && 22 + prev.2 + mb.len() > limit {
            let d = prev.0.push(prev.1);
            assert forall|c: int| 0 <= c < d.len() implies (#[trigger] d[c]).len() > 0 && 22 + payload_len(d[c]) <= limit by {
                if c < prev.0.len() {
                    assert(d[c] == prev.0[c]);
                }
            }
            assert(d.drop_last() =~= prev.0);
            assert(payload_len(seq![mb]) == mb.len()) by {
                assert(seq![mb].drop_last() =~= Seq::<Seq<u8>>::empty());
                assert(payload_len(Seq::<Seq<u8>>::empty()) == 0);
            }
            assert(frames =~= pre.push(mb));
            assert(flatten_chunks(d) == flatten_chunks(prev.0) + prev.1);
            assert(flatten_chunks(d) + seq![mb] =~= frames);
        } else {
            let c2 = prev.1.push(mb);
            assert(c2.drop_last() =~= prev.1);
            assert(frames =~= pre.push(mb));
            assert(flatten_chunks(prev.0) + c2 =~= (flatten_chunks(prev.0) + prev.1).push(mb));
            assert(flatten_chunks(prev.0) + c2 =~= frames);
        }
    }
}

/// Grouping keeps every frame, in order, and each chunk is non-empty and
/// fits, with the 22-byte header, in `limit` bytes.
pub proof fn lemma_chunks_partition(frames: Seq<Seq<u8>>, limit: int)
    requires
        forall|i: int| 0 <= i < frames.len() ==> 22 + #[trigger] frames[i].len() <= limit,
    ensures
        flatten_chunks(chunks_spec(frames, limit)) == frames,
        forall|c: int| 0 <= c < chunks_spec(frames, limit).len() ==>
            (#[trigger] chunks_spec(frames, limit)[c]).len() > 0
            && 22 + payload_len(chunks_spec(frames, limit)[c]) <= limit,
{
    lemma_chunk_fold(frames, limit);
    let st = chunk_fold(frames, limit);
    if st.1.len() > 0 {
        let d = st.0.push(st.1);
        assert(d.drop_last() =~= st.0);
        assert forall|c: int| 0 <= c < d.len() implies (#[trigger] d[c]).len() > 0 && 22 + payload_len(d[c]) <= limit by {
            if c < st.0.len() {
                assert(d[c] == st.0[c]);
            }
        }
    } else {
        assert(st.1 =~= Seq::<Seq<u8>>::empty());
        assert(flatten_chunks(st.0) + st.1 =~= flatten_chunks(st.0));
    }
}

/// Groups RTU frames into chunks so that each UDP packet (22-byte header
/// plus the frames of one chunk) stays within `limit` bytes.
pub fn build_mb_chunks(mb_frames: &[Vec<u8>], limit: usize) -> (r: Result<Vec<Vec<Vec<u8>>>, String>)
    requires
        forall|j: int| 0 <= j < mb_frames@.len() ==> (#[trigger] mb_frames@[j])@.len() <= isize::MAX,
    ensures
        match (r, build_mb_chunks_spec(mb_frames@.map_values(|v: Vec<u8>| v@), limit)) {
            (Ok(v), Ok(w)) => chunks_view(v@) == w,
            (Err(e), Err(m)) => e@ == m,
            _ => false,
        },
{
    let ghost frames = mb_frames@.map_values(|v: Vec<u8>| v@);
    let hdr22: usize = 22;
    if limit <= hdr22 + 1 {
        let mut e = String::from_str("limit too small: ");
        e.append(u64_to_string(limit as u64).as_str());
        e.append(" (need > 22)");
        return Err(e);
    }
    let mut out: Vec<Vec<Vec<u8>>> = Vec::new();
    let mut chunk: Vec<Vec<u8>> = Vec::new();
    let mut payload: usize = 0;
    let n = mb_frames.len();
    let mut i: usize = 0;
    assert forall|j: int| 0 <= j < n implies (#[trigger] frames[j]).len() <= isize::MAX by {
        assert(frames[j] == mb_frames@[j]@);
    }
    assert(chunks_view(out@) =~= chunk_fold(frames.subrange(0, 0), limit as int).0);
    assert(frames_view(chunk@) =~= chunk_fold(frames.subrange(0, 0), limit as int).1);
    while i < n
        invariant
            n == mb_frames@.len(),
            frames == mb_frames@.map_values(|v: Vec<u8>| v@),
            limit > 23,
            hdr22 == 22,
            i <= n,
            forall|j: int| 0 <= j < i ==> 22 + #[trigger] frames[j].len() <= limit,
            chunks_view(out@) == chunk_fold(frames.subrange(0, i as int), limit as int).0,
            frames_view(chunk@) == chunk_fold(frames.subrange(0, i as int), limit as int).1,
            payload == chunk_fold(frames.subrange(0, i as int), limit as int).2,
            payload + 22 <= limit,
            forall|j: int| 0 <= j < n ==> (#[trigger] frames[j]).len() <= isize::MAX,
        decreases n - i,
    {
        let mb = &mb_frames[i];
        let ghost pre = frames.subrange(0, i as int);
        let ghost cur = frames.subrange(0, i + 1);
        proof {
            assert(cur.drop_last() =~= pre);
            assert(cur.last() == mb@);
            assert(frames[i as int] == mb@);
        }
        if mb.len() > limit - hdr22 {
            proof {
                lemma_first_too_large_some(frames, limit as int, i as int);
            }
            let mut e = String::from_str("single cmd too large for limit=");
            e.append(u64_to_string(limit as u64).as_str());
            e.append(" size=");
            e.append(u64_to_string((hdr22 + mb.len()) as u64).as_str());
            return Err(e);
        }
        if !chunk.is_empty() && mb.len() > limit - hdr22 - payload {
            out.push(chunk);
            chunk = Vec::new();
            payload = 0;
        }
        let ghost chunk_before = frames_view(chunk@);
        chunk.push(slice_to_vec(mb.as_slice()));
        payload = payload + mb.len();
        proof {
            assert(frames_view(chunk@) =~= chunk_before.push(mb@));
        }
        i = i + 1;
        proof {
            let st = chunk_fold(cur, limit as int);
            assert(chunks_view(out@) =~= st.0);
            assert(frames_view(chunk@) =~= st.1);
        }
    }
    proof {
        assert(frames.subrange(0, n as int) =~= frames);
        lemma_first_too_large_some(frames, limit as int, n as int);
    }
    if !chunk.is_empty() {
        out.push(chunk);
    }
    assert(chunks_view(out@) =~= chunks_spec(frames, limit as int));
    Ok(out)
}

/// The unit number an encoded unit address stands for: the byte itself,
/// or 248 plus 250 per block above 0xF8 plus the position in the block.
pub open spec fn rtu_address_decode(u: Seq<u8>) -> int {
    if u.len() == 1 { u[0] as int } else { 248 + (u[0] - 0xF8) * 250 + u[1] }
}

/// Every unit 1..=1997 has an encoding, and the encoding gives the unit
/// back: one byte below 0xF8 up to 247, two bytes starting in 0xF8..=0xFE
/// above; so no two units share an encoding.
pub proof fn lemma_rtu_address_round_trip(rtu: u16)
    requires
        1 <= rtu <= 1997,
    ensures
        rtu_address_spec(rtu) matches Some(u) && {
            &&& rtu_address_decode(u) == rtu as int
            &&& (rtu <= 247 <==> u.len() == 1)
            &&& u.len() == 1 ==> u[0] < 0xF8
            &&& u.len() == 2 ==> 0xF8 <= u[0] <= 0xFE && u[1] < 250
        },
{
}

} // verus!
