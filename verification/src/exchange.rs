//! Properties of one exchange between the poller and a simulated device:
//! a read built by the poller, answered by the device and decoded by the
//! poller yields the device's registers; a single-register write is what
//! a later read of that register gives back.

use vstd::prelude::*;

use crate::crc::{crc_tail, hi_byte, lo_byte};
use crate::imm::{
    be16, detect_frame_layout_spec, frame_len_spec, lemma_add_crc_then_check, process_from,
    process_request_spec, respond_spec, word_at, word_bytes, SlotModel, DAT_LEN,
};
use crate::modbus::{request_body_spec, rtu_address_spec, sout_mb_only_spec};
use crate::poll_plan::words_from_frame_spec;

verus! {

/// The registers a read function reads: holding registers for 3, input
/// registers for 4.
pub open spec fn read_regs(st: SlotModel, func: u8) -> Seq<u16> {
    if func == 3 { st.dat1 } else { st.dat }
}

/// `n` registers from `addr` of a register file.
pub open spec fn regs_from(regs: Seq<u16>, addr: int, n: int) -> Seq<u16> {
    Seq::new(n as nat, |k: int| word_at(regs, addr + k))
}

/// The unit address of an encodable unit is one byte below 0xF8 up to 247
/// and two bytes, the first in 0xF8..=0xFE, above.
proof fn lemma_unit_shape(rtu: u16)
    requires
        1 <= rtu <= 1997,
    ensures
        rtu_address_spec(rtu) matches Some(u) && {
            &&& rtu <= 247 ==> u.len() == 1 && u[0] < 0xF8
            &&& rtu >= 248 ==> u.len() == 2 && 0xF8 <= u[0] <= 0xFE
        },
{
}

/// A 16-bit value is its high byte times 256 plus its low byte.
proof fn lemma_word_from_bytes(v: u16)
    ensures
        hi_byte(v) as int * 256 + lo_byte(v) as int == v as int,
        (hi_byte(v) as int * 256 + lo_byte(v) as int) as u16 == v,
{
    assert(((v >> 8u16) as u8) as int * 256 + ((v & 0xFFu16) as u8) as int == v as int) by (bit_vector);
}

/// A frame that the poller builds for the device: its body followed by its
/// CRC; the device finds exactly one request in it, of the body's unit
/// width, and answers it alone.
proof fn lemma_single_request(st: SlotModel, unit: Seq<u8>, body: Seq<u8>)
    requires
        unit.len() == 1 || unit.len() == 2,
        unit.len() == 1 ==> unit[0] < 0xF8,
        unit.len() == 2 ==> 0xF8 <= unit[0] <= 0xFE,
        body.len() == unit.len() + 5,
        body.subrange(0, unit.len() as int) == unit,
        3 <= body[unit.len() as int] <= 6,
    ensures
        ({
            let req = body + crc_tail(body);
            let step = respond_spec(st, req, unit.len() as int);
            process_request_spec(st, req, req.len() as u16) == (step.0, step.1 + crc_tail(step.1))
        }),
{
    let req = body + crc_tail(body);
    let ulen = unit.len() as int;
    let l = req.len() as int;
    assert(l == ulen + 7);
    assert((l as u16) as int == l);
    assert(req[0] == unit[0]);
    assert(req[ulen] == body[ulen]);
    assert(frame_len_spec(req, l, 0, ulen) == Some(ulen + 7));
    lemma_add_crc_then_check(body);
    assert(req.subrange(0, l) =~= req);
    assert(detect_frame_layout_spec(req, l, 0) == Some((ulen, l)));
    let step = respond_spec(st, req.subrange(0, l), ulen);
    assert(process_from(step.0, req, l, l) == (step.0, Seq::<u8>::empty()));
    assert(step.1 + crc_tail(step.1) + Seq::<u8>::empty() =~= step.1 + crc_tail(step.1));
}

/// The byte-count field of a read reply for `n` registers: two bytes after
/// a two-byte unit address, one byte otherwise.
pub open spec fn byte_count_field(ulen: int, n: int) -> Seq<u8> {
    let bc = n * 2;
    if ulen == 2 { seq![((bc / 256) % 256) as u8, (bc % 256) as u8] } else { seq![(bc % 256) as u8] }
}

/// The device's answer to a read built by the poller: unit, function,
/// byte count and the registers; the device is unchanged.
proof fn lemma_read_answer(st: SlotModel, unit: Seq<u8>, func: u8, addr: i32, n: u16)
    requires
        unit.len() == 1 || unit.len() == 2,
        func == 3 || func == 4,
        0 <= addr <= 65535,
    ensures
        ({
            let body = request_body_spec(unit, func, addr as int, n, None);
            let req = body + crc_tail(body);
            respond_spec(st, req, unit.len() as int)
                == (st, unit.push(func) + byte_count_field(unit.len() as int, n as int) + word_bytes(read_regs(st, func), addr as int, n as int))
        }),
{
    let ulen = unit.len() as int;
    let body = request_body_spec(unit, func, addr as int, n, None);
    assert(body =~= unit + seq![func, (addr / 256) as u8, (addr % 256) as u8, (n / 256) as u8, (n % 256) as u8]);
    let req = body + crc_tail(body);
    assert(req[ulen] == func);
    assert(req[ulen + 1] == (addr / 256) as u8 && req[ulen + 2] == (addr % 256) as u8);
    assert(req[ulen + 3] == (n / 256) as u8 && req[ulen + 4] == (n % 256) as u8);
    assert(be16(req[ulen + 1], req[ulen + 2]) == addr as int);
    assert(be16(req[ulen + 3], req[ulen + 4]) == n as int);
    assert(req.subrange(0, ulen) =~= unit);
}

/// The poller decodes the device's read answer into the registers read.
proof fn lemma_decode_answer(unit: Seq<u8>, func: u8, regs: Seq<u16>, addr: int, n: u16)
    requires
        unit.len() == 1 || unit.len() == 2,
        unit.len() == 1 ==> unit[0] < 0xF8 && n <= 127,
        unit.len() == 2 ==> 0xF8 <= unit[0],
        func == 3 || func == 4,
        1 <= n <= 32767,
    ensures
        ({
            let resp = unit.push(func) + byte_count_field(unit.len() as int, n as int) + word_bytes(regs, addr, n as int);
            words_from_frame_spec(resp + crc_tail(resp), n as int) == regs_from(regs, addr, n as int)
        }),
{
    let ulen = unit.len() as int;
    let bcf = byte_count_field(ulen, n as int);
    let wb = word_bytes(regs, addr, n as int);
    let resp = unit.push(func) + bcf + wb;
    let reply = resp + crc_tail(resp);
    let ds = ulen + 1 + bcf.len();
    let bc = n * 2;
    assert(reply.len() == ds + 2 * n + 2);
    assert(reply[0] == unit[0]);
    assert(reply[ulen] == func);
    if ulen == 2 {
        assert(reply[ulen + 1] == bcf[0] && reply[ulen + 2] == bcf[1]);
        assert(reply[ulen + 1] * 256 + reply[ulen + 2] == bc);
    } else {
        assert(reply[ulen + 1] == bcf[0]);
        assert(reply[ulen + 1] as int == bc);
    }
    let words = words_from_frame_spec(reply, n as int);
    assert forall|k: int| 0 <= k < n implies #[trigger] words[k] == word_at(regs, addr + k) by {
        let w = word_at(regs, addr + k);
        assert(reply[ds + 2 * k] == wb[2 * k]);
        assert(reply[ds + 2 * k + 1] == wb[2 * k + 1]);
        assert((2 * k) % 2 == 0 && (2 * k) / 2 == k);
        assert((2 * k + 1) % 2 == 1 && (2 * k + 1) / 2 == k);
        lemma_word_from_bytes(w);
    }
    assert(words =~= regs_from(regs, addr, n as int));
}

/// A read of `n` registers from `addr` with function 3 or 4, built as the
/// poller builds it for unit `rtu`, answered by a simulated device and
/// decoded as the poller decodes it, gives the device's registers
/// `addr .. addr + n` (holding for 3, input for 4); the device is left as
/// it was. The byte count must fit its field: one byte (n <= 127) for a
/// one-byte unit address, two bytes otherwise.
pub proof fn lemma_read_round_trip(st: SlotModel, rtu: u16, func: u8, addr: i32, n: u16)
    requires
        1 <= rtu <= 1997,
        func == 3 || func == 4,
        0 <= addr <= 65535,
        1 <= n <= 32767,
        rtu <= 247 ==> n <= 127,
    ensures
        sout_mb_only_spec(rtu, func, addr, n, None) matches Ok(req) && {
            let (st2, reply) = process_request_spec(st, req, req.len() as u16);
            &&& st2 == st
            &&& words_from_frame_spec(reply, n as int) == regs_from(read_regs(st, func), addr as int, n as int)
        },
{
    lemma_unit_shape(rtu);
    let unit = rtu_address_spec(rtu)->0;
    let ulen = unit.len() as int;
    let body = request_body_spec(unit, func, addr as int, n, None);
    assert(body =~= unit + seq![func, (addr / 256) as u8, (addr % 256) as u8, (n / 256) as u8, (n % 256) as u8]);
    assert(body.subrange(0, ulen) =~= unit);
    assert(body[ulen] == func);
    lemma_single_request(st, unit, body);
    let req = body + crc_tail(body);
    assert(sout_mb_only_spec(rtu, func, addr, n, None) == Ok::<Seq<u8>, Seq<char>>(req));
    lemma_read_answer(st, unit, func, addr, n);
    lemma_decode_answer(unit, func, read_regs(st, func), addr as int, n);
}

/// A single-register write (function 6) of `v` at `addr`, built as the
/// poller builds it and applied by a simulated device, is what a following
/// read of that register gives back.
pub proof fn lemma_write_then_read(st: SlotModel, rtu: u16, addr: i32, v: u16)
    requires
        1 <= rtu <= 1997,
        0 <= addr <= 65535,
        st.dat1.len() == DAT_LEN,
    ensures
        sout_mb_only_spec(rtu, 6, addr, 1, Some(seq![hi_byte(v), lo_byte(v)])) matches Ok(wreq) && {
            let st1 = process_request_spec(st, wreq, wreq.len() as u16).0;
            sout_mb_only_spec(rtu, 3, addr, 1, None) matches Ok(rreq) && {
                let (st2, reply) = process_request_spec(st1, rreq, rreq.len() as u16);
                words_from_frame_spec(reply, 1) == seq![v]
            }
        },
{
    lemma_unit_shape(rtu);
    let unit = rtu_address_spec(rtu)->0;
    let ulen = unit.len() as int;
    let d = seq![hi_byte(v), lo_byte(v)];
    let body = request_body_spec(unit, 6, addr as int, 1, Some(d));
    assert(body =~= unit + seq![6u8, (addr / 256) as u8, (addr % 256) as u8, hi_byte(v), lo_byte(v)]);
    assert(body.subrange(0, ulen) =~= unit);
    assert(body[ulen] == 6);
    lemma_single_request(st, unit, body);
    let wreq = body + crc_tail(body);
    assert(sout_mb_only_spec(rtu, 6, addr, 1, Some(d)) == Ok::<Seq<u8>, Seq<char>>(wreq));
    assert(wreq[ulen] == 6);
    assert(be16(wreq[ulen + 1], wreq[ulen + 2]) == addr as int);
    lemma_word_from_bytes(v);
    assert(be16(wreq[ulen + 3], wreq[ulen + 4]) == v as int);
    let st1 = respond_spec(st, wreq, ulen).0;
    assert(st1.dat1 == st.dat1.update(addr as int, v));
    lemma_read_round_trip(st1, rtu, 3, addr, 1);
    let rreq = sout_mb_only_spec(rtu, 3, addr, 1, None)->Ok_0;
    let (st2, reply) = process_request_spec(st1, rreq, rreq.len() as u16);
    assert(words_from_frame_spec(reply, 1) == regs_from(st1.dat1, addr as int, 1));
    assert(word_at(st1.dat1, addr as int) == v);
    assert(regs_from(st1.dat1, addr as int, 1) =~= seq![v]);
}

/// A coil command (function 5) for coil `addr` up to 10000 with the value
/// bytes `hi`, `lo`, built as the poller builds it for unit `rtu` and
/// handled by a simulated device, leaves the device's last coil command as
/// that coil, switched on exactly when the value is 0xFF00, 0x00FF or
/// 0x0001 (so 0x0000 switches it off), and its registers as they were.
pub proof fn lemma_coil_command_recorded(st: SlotModel, rtu: u16, addr: i32, hi: u8, lo: u8)
    requires
        1 <= rtu <= 1997,
        0 <= addr <= 10000,
    ensures
        sout_mb_only_spec(rtu, 5, addr, 1, Some(seq![hi, lo])) matches Ok(req) && {
            let st1 = process_request_spec(st, req, req.len() as u16).0;
            let val = hi as int * 256 + lo as int;
            &&& st1.fc05_seen == 1
            &&& st1.fc05_addr == addr
            &&& (st1.fc05_on != 0) == (val == 0xFF00 || val == 0x00FF || val == 0x0001)
            &&& st1.dat == st.dat
            &&& st1.dat1 == st.dat1
        },
{
    lemma_unit_shape(rtu);
    let unit = rtu_address_spec(rtu)->0;
    let ulen = unit.len() as int;
    let d = seq![hi, lo];
    let body = request_body_spec(unit, 5, addr as int, 1, Some(d));
    assert(body =~= unit + seq![5u8, (addr / 256) as u8, (addr % 256) as u8, hi, lo]);
    assert(body.subrange(0, ulen) =~= unit);
    assert(body[ulen] == 5);
    lemma_single_request(st, unit, body);
    let req = body + crc_tail(body);
    assert(sout_mb_only_spec(rtu, 5, addr, 1, Some(d)) == Ok::<Seq<u8>, Seq<char>>(req));
    assert(req[ulen] == 5);
    assert(be16(req[ulen + 1], req[ulen + 2]) == addr as int);
    assert(req[ulen + 3] == hi && req[ulen + 4] == lo);
}

} // verus!
