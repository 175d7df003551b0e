//! Register file and request handling of the simulated Modbus RTU device:
//! 70000 input registers (`dat`, read by FC4) and 70000 holding registers
//! (`dat1`, read by FC3, written by FC6/FC16), plus a minute ring archive
//! kept in the input registers.

use vstd::prelude::*;
use vstd::slice::*;

use crate::crc::{crc16_spec, crc_tail, crc_valid, hi_byte, lo_byte, CRC16_TABLE};

verus! {

/// Number of registers in each of the two register files.
pub const DAT_LEN: usize = 70000;
/// First register of the ring archive.
pub const RING_START_ADDR: usize = 8192;
/// First of the four header registers of the ring archive.
pub const RING_INDEX_ADDR: usize = 400;
/// Number of records the ring archive holds.
pub const RING_RECORDS: usize = 546;
/// Number of float values per record.
pub const RING_FLOATS: usize = 36;
/// Registers per record: a u32 timestamp and the float values.
pub const RING_RECORD_WORDS: usize = 74;
/// Registers the whole ring occupies.
pub const RING_TOTAL_WORDS: usize = 40404;

/// Bits of 100.0f32, the default start value of the archive generator.
pub const DEFAULT_START_VALUE_BITS: u32 = 0x42C8_0000;
/// Bits of 0.1f32, the default step of the archive generator.
pub const DEFAULT_DELTA_BITS: u32 = 0x3DCC_CCCD;

/// Error type of the request handler (it never fails).
#[derive(Debug)]
pub struct ImmError {
    pub msg: String,
}

/// State of one simulated device.
pub struct SlotState {
    pub dat: Vec<u16>,
    pub dat1: Vec<u16>,
    pub last_minute: u64,
    pub cur_index: u16,
    pub cur_value_bits: u32,
    pub start_value_bits: u32,
    pub delta_bits: u32,
    pub last_fc05_addr: u16,
    pub last_fc05_on: u16,
    pub last_fc05_seen: u16,
}

/// The parts of a device that requests read and change.
#[verifier::ext_equal]
pub struct SlotModel {
    pub dat: Seq<u16>,
    pub dat1: Seq<u16>,
    pub fc05_addr: u16,
    pub fc05_on: u16,
    pub fc05_seen: u16,
}

impl SlotState {
    /// Both register files have their full size.
    pub open spec fn wf(&self) -> bool {
        &&& self.dat@.len() == DAT_LEN
        &&& self.dat1@.len() == DAT_LEN
    }

    /// The request-visible part of the state.
    pub open spec fn model(&self) -> SlotModel {
        SlotModel {
            dat: self.dat@,
            dat1: self.dat1@,
            fc05_addr: self.last_fc05_addr,
            fc05_on: self.last_fc05_on,
            fc05_seen: self.last_fc05_seen,
        }
    }
}

// ---------------------------------------------------------------------
// CRC helpers of the device side.
// ---------------------------------------------------------------------

/// Computes the Modbus CRC-16 of `data`.
pub fn crc16(data: &[u8]) -> (crc: u16)
    ensures
        crc == crc16_spec(data@),
{
    let mut crc: u16 = 0xFFFF;
    let n = data.len();
    let mut i: usize = 0;
    while i < n
        invariant
            n == data@.len(),
            i <= n,
            crc == crc16_spec(data@.subrange(0, i as int)),
        decreases n - i,
    {
        let byte = data[i];
        let xor: u8 = byte ^ (crc as u8);
        assert((xor as u16) == ((byte as u16) ^ (crc & 0xFFu16))) by (bit_vector)
            requires
                xor == byte ^ (crc as u8),
        ;
        proof {
            let s1 = data@.subrange(0, i + 1);
            assert(s1.drop_last() =~= data@.subrange(0, i as int));
        }
        crc = crc >> 8;
        crc = crc ^ CRC16_TABLE[xor as usize];
        i = i + 1;
    }
    assert(data@.subrange(0, n as int) =~= data@);
    crc
}

/// Appends the CRC of the buffer, low byte first.
pub fn add_crc(buffer: &mut Vec<u8>)
    ensures
        final(buffer)@ == old(buffer)@ + crc_tail(old(buffer)@),
{
    let crc = crc16(buffer.as_slice());
    assert((crc & 0xFFu16) as u8 == lo_byte(crc) && (crc >> 8u16) as u8 == hi_byte(crc));
    buffer.push((crc & 0xFF) as u8);
    buffer.push((crc >> 8) as u8);
    assert(buffer@ =~= old(buffer)@ + crc_tail(old(buffer)@));
}

/// A buffer of at least 3 bytes whose last two are its CRC (low byte first).
pub open spec fn v_crc16_spec(buffer: Seq<u8>) -> bool {
    buffer.len() >= 3 && crc_valid(buffer)
}

/// Checks the CRC at the end of a buffer.
pub fn v_crc16(buffer: &[u8]) -> (ok: bool)
    ensures
        ok == v_crc16_spec(buffer@),
{
    if buffer.len() < 3 {
        return false;
    }
    let len = buffer.len();
    let a = buffer[len - 2];
    let b = buffer[len - 1];
    let expected_crc: u16 = (a as u16) | ((b as u16) << 8);
    let calculated_crc = crc16(slice_subrange(buffer, 0, len - 2));
    proof {
        let c = calculated_crc;
        assert((expected_crc == c) <==> (a == (c & 0xFFu16) as u8 && b == (c >> 8u16) as u8)) by (bit_vector)
            requires
                expected_crc == (a as u16) | ((b as u16) << 8u16),
        ;
        let t = buffer@.subrange(len - 2, len as int);
        assert(t =~= seq![a, b]);
        if t == crc_tail(buffer@.subrange(0, len - 2)) {
            assert(t[0] == a && t[1] == b);
        }
        if expected_crc == c {
            assert(t =~= crc_tail(buffer@.subrange(0, len - 2)));
        }
    }
    expected_crc == calculated_crc
}

/// Appends a 16-bit value low byte first.
pub fn addw(vec: &mut Vec<u8>, num: u16)
    ensures
        final(vec)@ == old(vec)@ + seq![lo_byte(num), hi_byte(num)],
{
    vec.push((num & 0xFF) as u8);
    vec.push((num >> 8) as u8);
    assert(vec@ =~= old(vec)@ + seq![lo_byte(num), hi_byte(num)]);
}

/// Swaps the bytes of each pair among the first `size` bytes (a trailing odd
/// byte stays in place).
pub open spec fn swapped_pairs(s: Seq<u8>, size: int) -> Seq<u8> {
    Seq::new(s.len(), |i: int|
        if i < size - size % 2 {
            if i % 2 == 0 { s[i + 1] } else { s[i - 1] }
        } else {
            s[i]
        })
}

/// Swaps adjacent bytes pairwise over the first `size` bytes.
pub fn set_mem(ff: &mut [u8], size: u16)
    requires
        size as int <= old(ff)@.len(),
    ensures
        final(ff)@ == swapped_pairs(old(ff)@, size as int),
{
    let mut k: u16 = 0;
    while k + 1 < size
        invariant
            size as int <= old(ff)@.len(),
            ff@.len() == old(ff)@.len(),
            k % 2 == 0,
            k <= size,
            forall|i: int| 0 <= i < ff@.len() ==> #[trigger] ff@[i] == (if i < k {
                swapped_pairs(old(ff)@, size as int)[i]
            } else {
                old(ff)@[i]
            }),
        decreases size - k,
    {
        let a = ff[k as usize];
        let b = ff[(k + 1) as usize];
        ff.set(k as usize, b);
        ff.set((k + 1) as usize, a);
        k = k + 2;
    }
    assert(ff@ =~= swapped_pairs(old(ff)@, size as int));
}

/// Appends the CRC of all but the last two bytes.
pub fn set_crc1_p(ff: &mut Vec<u8>)
    requires
        old(ff)@.len() >= 2,
    ensures
        final(ff)@ == old(ff)@ + crc_tail(old(ff)@.subrange(0, old(ff)@.len() - 2)),
{
    let n = ff.len();
    let k = crc16(slice_subrange(ff.as_slice(), 0, n - 2));
    let low_byte = (k & 0xFF) as u8;
    let high_byte = ((k >> 8) & 0xFF) as u8;
    assert(((k >> 8u16) & 0xFFu16) == (k >> 8u16)) by (bit_vector);
    ff.push(low_byte);
    ff.push(high_byte);
    assert(ff@ =~= old(ff)@ + crc_tail(old(ff)@.subrange(0, old(ff)@.len() - 2)));
}

/// Appending the CRC makes a buffer pass the CRC check.
pub proof fn lemma_add_crc_then_check(buffer: Seq<u8>)
    requires
        buffer.len() >= 1,
    ensures
        v_crc16_spec(buffer + crc_tail(buffer)),
{
    let f = buffer + crc_tail(buffer);
    assert(f.subrange(0, f.len() - 2) =~= buffer);
    assert(f.subrange(f.len() - 2, f.len() as int) =~= crc_tail(buffer));
}

// ---------------------------------------------------------------------
// Frame layout.
// ---------------------------------------------------------------------

/// A first byte in 0xF8..=0xFE marks a two-byte (extended) unit address.
pub open spec fn is_extended_unit_prefix_spec(b: u8) -> bool {
    0xF8 <= b <= 0xFE
}

/// Whether `b` starts a two-byte unit address.
pub fn is_extended_unit_prefix(b: u8) -> (r: bool)
    ensures
        r == is_extended_unit_prefix_spec(b),
{
    0xF8 <= b && b <= 0xFE
}

/// Length of the request frame at `off` when its unit address is `ulen`
/// bytes wide: FC3..FC6 have a fixed length, FC16 carries its byte count;
/// the layout must agree with the prefix and the fixed part must fit.
pub open spec fn frame_len_spec(inb: Seq<u8>, size_lim: int, off: int, ulen: int) -> Option<int> {
    if off + ulen + 1 > size_lim {
        None
    } else if ulen == 2 && !is_extended_unit_prefix_spec(inb[off]) {
        None
    } else if ulen == 1 && is_extended_unit_prefix_spec(inb[off]) {
        None
    } else {
        let func = inb[off + ulen];
        if 3 <= func <= 6 {
            Some(ulen + 7)
        } else if func == 16 {
            if off + ulen + 6 > size_lim {
                None
            } else {
                Some(ulen + 8 + inb[off + ulen + 5])
            }
        } else {
            None
        }
    }
}

/// Length of the request frame at `off` for a unit address width.
pub fn frame_len_for_layout(inb: &[u8], size_lim: usize, off: usize, ulen: usize) -> (r: Option<usize>)
    requires
        size_lim <= inb@.len(),
        ulen == 1 || ulen == 2,
        off <= size_lim,
    ensures
        match r {
            Some(n) => frame_len_spec(inb@, size_lim as int, off as int, ulen as int) == Some(n as int),
            None => frame_len_spec(inb@, size_lim as int, off as int, ulen as int) is None,
        },
{
    if ulen + 1 > size_lim - off {
        return None;
    }
    if ulen == 2 && !is_extended_unit_prefix(inb[off]) {
        return None;
    }
    if ulen == 1 && is_extended_unit_prefix(inb[off]) {
        return None;
    }
    let func = inb[off + ulen];
    if 3 <= func && func <= 6 {
        Some(ulen + 1 + 2 + 2 + 2)
    } else if func == 16 {
        if ulen + 1 + 2 + 2 + 1 > size_lim - off {
            return None;
        }
        let n = inb[off + ulen + 1 + 2 + 2] as usize;
        Some(ulen + 1 + 2 + 2 + 1 + n + 2)
    } else {
        None
    }
}

/// Unit width and length of a CRC-valid request frame at `off`: the width
/// follows from the first byte, and the frame must fit and check.
pub open spec fn detect_frame_layout_spec(inb: Seq<u8>, size_lim: int, off: int) -> Option<(int, int)> {
    let ulen = if off < size_lim && is_extended_unit_prefix_spec(inb[off]) { 2 } else { 1 };
    match frame_len_spec(inb, size_lim, off, ulen) {
        None => None,
        Some(fl) => if off + fl > size_lim {
            None
        } else if v_crc16_spec(inb.subrange(off, off + fl)) {
            Some((ulen, fl))
        } else {
            None
        },
    }
}

/// Finds the layout of the request frame at `off`.
pub fn detect_frame_layout(inb: &[u8], size_lim: usize, off: usize) -> (r: Option<(usize, usize)>)
    requires
        size_lim <= inb@.len(),
        off <= size_lim,
    ensures
        match r {
            Some((u, f)) => detect_frame_layout_spec(inb@, size_lim as int, off as int) == Some((u as int, f as int)),
            None => detect_frame_layout_spec(inb@, size_lim as int, off as int) is None,
        },
{
    let ulen: usize = if off < size_lim && is_extended_unit_prefix(inb[off]) { 2 } else { 1 };
    let frame_len = match frame_len_for_layout(inb, size_lim, off, ulen) {
        Some(f) => f,
        None => return None,
    };
    if frame_len > size_lim - off {
        return None;
    }
    if v_crc16(slice_subrange(inb, off, off + frame_len)) {
        return Some((ulen, frame_len));
    }
    None
}


// ---------------------------------------------------------------------
// Request handling.
// ---------------------------------------------------------------------

/// Big-endian value of two bytes.
pub open spec fn be16(hi: u8, lo: u8) -> int {
    hi * 256 + lo
}

/// Register `idx` of a register file, 0 outside it.
pub open spec fn word_at(regs: Seq<u16>, idx: int) -> u16 {
    if 0 <= idx < DAT_LEN { regs[idx] } else { 0 }
}

/// `cnt` registers from `start`, each as two bytes, high byte first.
pub open spec fn word_bytes(regs: Seq<u16>, start: int, cnt: int) -> Seq<u8> {
    Seq::new((2 * cnt) as nat, |j: int|
        if j % 2 == 0 { hi_byte(word_at(regs, start + j / 2)) } else { lo_byte(word_at(regs, start + j / 2)) })
}

/// Whether a request frame has the shape its length was derived from: a
/// unit address of `ulen` bytes, then FC3..FC6 with a fixed length, or FC16
/// whose length counts its byte count.
pub open spec fn frame_shape_ok(frame: Seq<u8>, ulen: int) -> bool {
    &&& ulen == 1 || ulen == 2
    &&& frame.len() >= ulen + 7
    &&& {
        let func = frame[ulen];
        ||| (3 <= func <= 6 && frame.len() == ulen + 7)
        ||| (func == 16 && frame.len() == ulen + 8 + frame[ulen + 5])
    }
}

/// Holding registers after an FC16 request has stored its first `k` data
/// words from `addr` on.
pub open spec fn fc16_written(dat1: Seq<u16>, frame: Seq<u8>, ulen: int, addr: int, k: int) -> Seq<u16> {
    Seq::new(dat1.len(), |x: int|
        if addr <= x < addr + k {
            be16(frame[ulen + 6 + 2 * (x - addr)], frame[ulen + 7 + 2 * (x - addr)]) as u16
        } else {
            dat1[x]
        })
}

/// Number of data words an FC16 request stores: its quantity, cut to the
/// whole words its payload holds.
pub open spec fn fc16_count(frame: Seq<u8>, ulen: int) -> int {
    let q = be16(frame[ulen + 3], frame[ulen + 4]);
    let n = frame.len() - ulen - 8;
    if q < n / 2 { q } else { n / 2 }
}

/// FC5 takes 0xFF00, 0x00FF and 0x0001 as "on".
pub open spec fn fc05_is_on(val: int) -> bool {
    val == 0xFF00 || val == 0x00FF || val == 0x0001
}

/// The response to one request (without its CRC) and the state after it:
/// FC3/FC4 return the holding/input registers asked for (byte count on two
/// bytes for an extended unit address), FC5 records the coil command for
/// addresses up to 10000, FC6 and FC16 store into the holding registers;
/// FC5/FC6/FC16 echo address and value.
pub open spec fn respond_spec(st: SlotModel, frame: Seq<u8>, ulen: int) -> (SlotModel, Seq<u8>) {
    let func = frame[ulen];
    let addr = be16(frame[ulen + 1], frame[ulen + 2]);
    let val = be16(frame[ulen + 3], frame[ulen + 4]);
    let echo = frame.subrange(ulen + 1, ulen + 5);
    let head = frame.subrange(0, ulen).push(func);
    if func == 3 || func == 4 {
        let bc = val * 2;
        let bc_bytes = if ulen == 2 {
            seq![((bc / 256) % 256) as u8, (bc % 256) as u8]
        } else {
            seq![(bc % 256) as u8]
        };
        let regs = if func == 3 { st.dat1 } else { st.dat };
        (st, head + bc_bytes + word_bytes(regs, addr, val))
    } else if func == 5 {
        if addr <= 10000 {
            (SlotModel {
                fc05_addr: addr as u16,
                fc05_on: if fc05_is_on(val) { 1u16 } else { 0u16 },
                fc05_seen: 1u16,
                ..st
            }, head + echo)
        } else {
            (st, head + echo)
        }
    } else if func == 6 {
        (SlotModel { dat1: st.dat1.update(addr, val as u16), ..st }, head + echo)
    } else if func == 16 {
        (SlotModel { dat1: fc16_written(st.dat1, frame, ulen, addr, fc16_count(frame, ulen)), ..st }, head + echo)
    } else {
        (st, head)
    }
}

/// A coil command (FC5) echoes the request (its unit address, function,
/// coil address and value). For a coil address up to 10000 it records
/// that address as the last command seen, with the coil on exactly when
/// the value is 0xFF00, 0x00FF or 0x0001 (0x0000 and every other value
/// switch it off); above 10000 it changes nothing. The register files are
/// never touched.
pub proof fn lemma_fc05_records_coil(st: SlotModel, frame: Seq<u8>, ulen: int)
    requires
        frame_shape_ok(frame, ulen),
        frame[ulen] == 5,
    ensures
        ({
            let coil = frame[ulen + 1] as int * 256 + frame[ulen + 2] as int;
            let val = frame[ulen + 3] as int * 256 + frame[ulen + 4] as int;
            let (after, answer) = respond_spec(st, frame, ulen);
            &&& answer == frame.subrange(0, ulen + 5)
            &&& after.dat == st.dat
            &&& after.dat1 == st.dat1
            &&& coil <= 10000 ==> {
                &&& after.fc05_seen == 1
                &&& after.fc05_addr == coil
                &&& (after.fc05_on == 1) == (val == 0xFF00 || val == 0x00FF || val == 0x0001)
                &&& (after.fc05_on == 0) == !(val == 0xFF00 || val == 0x00FF || val == 0x0001)
            }
            &&& coil > 10000 ==> after == st
        }),
{
    let (after, answer) = respond_spec(st, frame, ulen);
    assert(answer =~= frame.subrange(0, ulen + 5));
}

/// The responses (each with its CRC) to the frames from `off` on, and the
/// state after them; handling stops at the first place where no valid
/// frame starts.
pub open spec fn process_from(st: SlotModel, inb: Seq<u8>, size_lim: int, off: int) -> (SlotModel, Seq<u8>)
    decreases size_lim - off,
{
    if off + 4 > size_lim {
        (st, Seq::empty())
    } else {
        match detect_frame_layout_spec(inb, size_lim, off) {
            None => (st, Seq::empty()),
            Some((ulen, fl)) => if fl <= 0 {
                (st, Seq::empty())
            } else {
                let step = respond_spec(st, inb.subrange(off, off + fl), ulen);
                let rest = process_from(step.0, inb, size_lim, off + fl);
                (rest.0, step.1 + crc_tail(step.1) + rest.1)
            },
        }
    }
}

/// The whole reply to a request buffer of which the first `size` bytes
/// count, and the state after it.
pub open spec fn process_request_spec(st: SlotModel, inb: Seq<u8>, size: u16) -> (SlotModel, Seq<u8>) {
    let size_lim = if (size as int) < inb.len() { size as int } else { inb.len() as int };
    if size_lim < 4 {
        (st, Seq::empty())
    } else {
        process_from(st, inb, size_lim, 0)
    }
}

proof fn lemma_detect_shape(inb: Seq<u8>, size_lim: int, off: int, ulen: int, fl: int)
    requires
        0 <= off,
        size_lim <= inb.len(),
        detect_frame_layout_spec(inb, size_lim, off) == Some((ulen, fl)),
    ensures
        frame_shape_ok(inb.subrange(off, off + fl), ulen),
        off + fl <= size_lim,
        fl > 0,
{
    let f = inb.subrange(off, off + fl);
    assert(f[ulen] == inb[off + ulen]);
    if inb[off + ulen] == 16 {
        assert(f[ulen + 5] == inb[off + ulen + 5]);
    }
}

impl SlotState {
    /// Answers one request frame and applies what it asks for.
    fn respond(&mut self, frame: &[u8], ulen: usize) -> (resp: Vec<u8>)
        requires
            old(self).wf(),
            frame_shape_ok(frame@, ulen as int),
        ensures
            final(self).wf(),
            (final(self).model(), resp@) == respond_spec(old(self).model(), frame@, ulen as int),
            final(self).last_minute == old(self).last_minute,
            final(self).cur_index == old(self).cur_index,
            final(self).cur_value_bits == old(self).cur_value_bits,
            final(self).start_value_bits == old(self).start_value_bits,
            final(self).delta_bits == old(self).delta_bits,
    {
        let ghost st0 = self.model();
        let func = frame[ulen];
        let adr_hi = frame[ulen + 1];
        let adr_lo = frame[ulen + 2];
        let val_hi = frame[ulen + 3];
        let val_lo = frame[ulen + 4];
        let addr: u16 = ((adr_hi as u16) << 8) | (adr_lo as u16);
        let req_val: u16 = ((val_hi as u16) << 8) | (val_lo as u16);
        assert(addr as int == be16(adr_hi, adr_lo) && req_val as int == be16(val_hi, val_lo)) by {
            assert((((adr_hi as u16) << 8u16) | (adr_lo as u16)) == (adr_hi as u16) * 256 + (adr_lo as u16)) by (bit_vector);
            assert((((val_hi as u16) << 8u16) | (val_lo as u16)) == (val_hi as u16) * 256 + (val_lo as u16)) by (bit_vector);
        }
        let mut resp: Vec<u8> = Vec::new();
        append_slice(&mut resp, slice_subrange(frame, 0, ulen));
        resp.push(func);
        let ghost head = frame@.subrange(0, ulen as int).push(func);
        assert(resp@ =~= head);
        let ghost echo = frame@.subrange(ulen + 1, ulen + 5);
        if func == 3 || func == 4 {
            let cnt_words = req_val as usize;
            let byte_count = cnt_words * 2;
            if ulen == 2 {
                resp.push(((byte_count >> 8) & 0xFF) as u8);
                resp.push((byte_count & 0xFF) as u8);
                assert(((byte_count >> 8usize) & 0xFFusize) == (byte_count / 256) % 256 && (byte_count & 0xFFusize) == byte_count % 256) by (bit_vector);
            } else {
                resp.push((byte_count & 0xFF) as u8);
                assert((byte_count & 0xFFusize) == byte_count % 256) by (bit_vector);
            }
            let ghost before = resp@;
            let mut i: usize = 0;
            while i < cnt_words
                invariant
                    self.wf(),
                    self.model() == st0,
                    self.last_minute == old(self).last_minute,
                    self.cur_index == old(self).cur_index,
                    self.cur_value_bits == old(self).cur_value_bits,
                    self.start_value_bits == old(self).start_value_bits,
                    self.delta_bits == old(self).delta_bits,
                    i <= cnt_words,
                    cnt_words == req_val,
                    func == 3 || func == 4,
                    resp@ == before + word_bytes(if func == 3 { st0.dat1 } else { st0.dat }, addr as int, i as int),
                decreases cnt_words - i,
            {
                let idx = addr as usize + i;
                let w: u16 = if idx < DAT_LEN {
                    if func == 3 { self.dat1[idx] } else { self.dat[idx] }
                } else {
                    0
                };
                resp.push((w >> 8) as u8);
                resp.push((w & 0xFF) as u8);
                proof {
                    let regs = if func == 3 { st0.dat1 } else { st0.dat };
                    assert(w == word_at(regs, addr + i));
                    assert(resp@ =~= before + word_bytes(regs, addr as int, i + 1));
                }
                i = i + 1;
            }
            proof {
                let bc = req_val * 2;
                let bc_bytes = if ulen == 2 {
                    seq![((bc / 256) % 256) as u8, (bc % 256) as u8]
                } else {
                    seq![(bc % 256) as u8]
                };
                assert(before =~= head + bc_bytes);
            }
        } else if func == 5 {
            append_slice(&mut resp, slice_subrange(frame, ulen + 1, ulen + 5));
            if addr <= 10_000 {
                let on = req_val == 0xFF00 || req_val == 0x00FF || req_val == 0x0001;
                self.last_fc05_addr = addr;
                self.last_fc05_on = if on { 1 } else { 0 };
                self.last_fc05_seen = 1;
            }
        } else if func == 6 {
            if (addr as usize) < DAT_LEN {
                self.dat1.set(addr as usize, req_val);
            }
            append_slice(&mut resp, slice_subrange(frame, ulen + 1, ulen + 5));
            assert(self.model() =~= SlotModel { dat1: st0.dat1.update(addr as int, req_val), ..st0 });
        } else if func == 16 {
            let cnt_words = req_val as usize;
            let data_start = ulen + 1 + 2 + 2 + 1;
            let frame_len = frame.len();
            let mut i: usize = 0;
            let ghost k = fc16_count(frame@, ulen as int);
            while i < cnt_words
                invariant
                    self.wf(),
                    frame_shape_ok(frame@, ulen as int),
                    frame@[ulen as int] == 16,
                    frame_len == frame@.len(),
                    data_start == ulen + 6,
                    cnt_words == req_val,
                    addr == be16(adr_hi, adr_lo),
                    req_val == be16(val_hi, val_lo),
                    val_hi == frame@[ulen + 3],
                    val_lo == frame@[ulen + 4],
                    k == fc16_count(frame@, ulen as int),
                    i <= k,
                    self.dat@ == st0.dat,
                    self.last_fc05_addr == st0.fc05_addr,
                    self.last_fc05_on == st0.fc05_on,
                    self.last_fc05_seen == st0.fc05_seen,
                    self.dat1@ == fc16_written(st0.dat1, frame@, ulen as int, addr as int, i as int),
                    self.last_minute == old(self).last_minute,
                    self.cur_index == old(self).cur_index,
                    self.cur_value_bits == old(self).cur_value_bits,
                    self.start_value_bits == old(self).start_value_bits,
                    self.delta_bits == old(self).delta_bits,
                ensures
                    i == k,
                    self.wf(),
                    self.dat@ == st0.dat,
                    self.last_fc05_addr == st0.fc05_addr,
                    self.last_fc05_on == st0.fc05_on,
                    self.last_fc05_seen == st0.fc05_seen,
                    self.dat1@ == fc16_written(st0.dat1, frame@, ulen as int, addr as int, i as int),
                    self.last_minute == old(self).last_minute,
                    self.cur_index == old(self).cur_index,
                    self.cur_value_bits == old(self).cur_value_bits,
                    self.start_value_bits == old(self).start_value_bits,
                    self.delta_bits == old(self).delta_bits,
                decreases cnt_words - i,
            {
                let p = data_start + i * 2;
                if p + 1 >= frame_len - 2 {
                    break;
                }
                let w: u16 = ((frame[p] as u16) << 8) | (frame[p + 1] as u16);
                let hb = frame[p];
                let lb = frame[p + 1];
                assert(w as int == be16(hb, lb)) by {
                    assert((((hb as u16) << 8u16) | (lb as u16)) == (hb as u16) * 256 + (lb as u16)) by (bit_vector);
                }
                let idx = addr as usize + i;
                if idx < DAT_LEN {
                    self.dat1.set(idx, w);
                }
                proof {
                    assert(self.dat1@ =~= fc16_written(st0.dat1, frame@, ulen as int, addr as int, i + 1));
                }
                i = i + 1;
            }
            append_slice(&mut resp, slice_subrange(frame, ulen + 1, ulen + 5));
            assert(self.model() =~= SlotModel { dat1: fc16_written(st0.dat1, frame@, ulen as int, addr as int, k), ..st0 });
        }
        resp
    }

    /// Handles every request frame in the first `size` bytes of `inb` and
    /// returns the concatenated responses, each with its CRC.
    pub fn process_request(&mut self, inb: &[u8], size: u16) -> (r: Result<Vec<u8>, ImmError>)
        requires
            old(self).wf(),
        ensures
            final(self).wf(),
            r matches Ok(out) && (final(self).model(), out@) == process_request_spec(old(self).model(), inb@, size),
            final(self).last_minute == old(self).last_minute,
            final(self).cur_index == old(self).cur_index,
            final(self).cur_value_bits == old(self).cur_value_bits,
            final(self).start_value_bits == old(self).start_value_bits,
            final(self).delta_bits == old(self).delta_bits,
    {
        let size_lim = if (size as usize) < inb.len() { size as usize } else { inb.len() };
        let mut outb: Vec<u8> = Vec::new();
        if size_lim < 4 {
            return Ok(outb);
        }
        let ghost goal = process_from(self.model(), inb@, size_lim as int, 0);
        let mut off: usize = 0;
        assert(outb@ + process_from(self.model(), inb@, size_lim as int, 0).1 =~= goal.1);
        while off <= size_lim - 4
            invariant
                self.wf(),
                size_lim <= inb@.len(),
                size_lim >= 4,
                off <= size_lim,
                process_from(self.model(), inb@, size_lim as int, off as int).0 == goal.0,
                outb@ + process_from(self.model(), inb@, size_lim as int, off as int).1 == goal.1,
                self.last_minute == old(self).last_minute,
                self.cur_index == old(self).cur_index,
                self.cur_value_bits == old(self).cur_value_bits,
                self.start_value_bits == old(self).start_value_bits,
                self.delta_bits == old(self).delta_bits,
            ensures
                self.wf(),
                process_from(self.model(), inb@, size_lim as int, off as int) == (self.model(), Seq::<u8>::empty()),
                process_from(self.model(), inb@, size_lim as int, off as int).0 == goal.0,
                outb@ + process_from(self.model(), inb@, size_lim as int, off as int).1 == goal.1,
                self.last_minute == old(self).last_minute,
                self.cur_index == old(self).cur_index,
                self.cur_value_bits == old(self).cur_value_bits,
                self.start_value_bits == old(self).start_value_bits,
                self.delta_bits == old(self).delta_bits,
            decreases size_lim - off,
        {
            let (ulen, frame_len) = match detect_frame_layout(inb, size_lim, off) {
                Some(x) => x,
                None => break,
            };
            proof {
                lemma_detect_shape(inb@, size_lim as int, off as int, ulen as int, frame_len as int);
            }
            let ghost st_before = self.model();
            let ghost out_before = outb@;
            let frame = slice_subrange(inb, off, off + frame_len);
            let mut resp = self.respond(frame, ulen);
            let ghost r0 = resp@;
            add_crc(&mut resp);
            append_slice(&mut outb, resp.as_slice());
            proof {
                let step = respond_spec(st_before, inb@.subrange(off as int, off + frame_len), ulen as int);
                assert(step.1 == r0);
                let rest = process_from(step.0, inb@, size_lim as int, off + frame_len);
                assert(process_from(st_before, inb@, size_lim as int, off as int) == (rest.0, step.1 + crc_tail(step.1) + rest.1));
                assert(out_before + (step.1 + crc_tail(step.1) + rest.1) =~= outb@ + rest.1);
            }
            off = off + frame_len;
        }
        Ok(outb)
    }
}

/// Appends `s` to `v`.
pub fn append_slice(v: &mut Vec<u8>, s: &[u8])
    ensures
        final(v)@ == old(v)@ + s@,
{
    let n = s.len();
    let mut i: usize = 0;
    while i < n
        invariant
            n == s@.len(),
            i <= n,
            v@ == old(v)@ + s@.subrange(0, i as int),
        decreases n - i,
    {
        v.push(s[i]);
        i = i + 1;
        assert(v@ =~= old(v)@ + s@.subrange(0, i as int));
    }
    assert(s@.subrange(0, n as int) =~= s@);
}

/// Handles a request buffer for one device: the responses and their
/// length (as a 16-bit count).
pub fn raz2_with_slot(slot: &mut SlotState, inb: &[u8], size: u16) -> (r: Result<(u16, Vec<u8>), ImmError>)
    requires
        old(slot).wf(),
    ensures
        final(slot).wf(),
        r matches Ok((n, out)) && (final(slot).model(), out@) == process_request_spec(old(slot).model(), inb@, size)
            && n == (out@.len() as u16),
        final(slot).last_minute == old(slot).last_minute,
        final(slot).cur_index == old(slot).cur_index,
        final(slot).cur_value_bits == old(slot).cur_value_bits,
        final(slot).start_value_bits == old(slot).start_value_bits,
        final(slot).delta_bits == old(slot).delta_bits,
{
    let outb = match slot.process_request(inb, size) {
        Ok(o) => o,
        Err(e) => return Err(e),
    };
    Ok((outb.len() as u16, outb))
}


// ---------------------------------------------------------------------
// Construction, register access and the ring archive.
// ---------------------------------------------------------------------

/// A vector of `n` zeros.
fn zeros_u16(n: usize) -> (v: Vec<u16>)
    ensures
        v@ == Seq::new(n as nat, |i: int| 0u16),
{
    let mut v: Vec<u16> = Vec::with_capacity(n);
    let mut i: usize = 0;
    while i < n
        invariant
            i <= n,
            v@ == Seq::new(i as nat, |j: int| 0u16),
        decreases n - i,
    {
        v.push(0);
        i = i + 1;
        assert(v@ =~= Seq::new(i as nat, |j: int| 0u16));
    }
    v
}

/// Register file image after one archive record has been written: the
/// header registers name the record as current, and the record holds the
/// timestamp (high word first) and the 36 value bit patterns (low word
/// first).
pub open spec fn ring_word(ts_unix: u32, values: Seq<u32>, o: int) -> u16 {
    if o == 0 {
        (ts_unix >> 16u32) as u16
    } else if o == 1 {
        (ts_unix & 0xFFFFu32) as u16
    } else if (o - 2) % 2 == 0 {
        (values[(o - 2) / 2] & 0xFFFFu32) as u16
    } else {
        (values[(o - 2) / 2] >> 16u32) as u16
    }
}

/// The registers after record `idx` of the ring was written.
pub open spec fn ring_record_written(dat: Seq<u16>, idx: int, ts_unix: u32, values: Seq<u32>) -> Seq<u16> {
    let base = RING_START_ADDR + idx * RING_RECORD_WORDS;
    Seq::new(dat.len(), |x: int|
        if x == RING_INDEX_ADDR {
            idx as u16
        } else if x == RING_INDEX_ADDR + 1 {
            0u16
        } else if x == RING_INDEX_ADDR + 2 {
            RING_RECORD_WORDS as u16
        } else if x == RING_INDEX_ADDR + 3 {
            RING_RECORDS as u16
        } else if base <= x < base + RING_RECORD_WORDS {
            ring_word(ts_unix, values, x - base)
        } else {
            dat[x]
        })
}

/// The registers after the archive was cleared: the ring zeroed and the
/// header naming the last record as current.
pub open spec fn ring_cleared(dat: Seq<u16>) -> Seq<u16> {
    Seq::new(dat.len(), |x: int|
        if x == RING_INDEX_ADDR {
            (RING_RECORDS - 1) as u16
        } else if x == RING_INDEX_ADDR + 1 {
            0u16
        } else if x == RING_INDEX_ADDR + 2 {
            RING_RECORD_WORDS as u16
        } else if x == RING_INDEX_ADDR + 3 {
            RING_RECORDS as u16
        } else if RING_START_ADDR <= x < RING_START_ADDR + RING_TOTAL_WORDS {
            0u16
        } else {
            dat[x]
        })
}

/// Timestamps of the records a tick appends, and the minute it reaches:
/// the first tick records the current second, later ticks one record per
/// whole minute since the last one (stamped at the minute's start).
pub open spec fn ring_minutes_spec(last_minute: u64, now_secs: u64) -> (Seq<u32>, u64) {
    let now_min = now_secs / 60;
    if last_minute == 0 {
        (seq![now_secs as u32], now_min)
    } else if now_min <= last_minute {
        (Seq::empty(), last_minute)
    } else {
        (Seq::new((now_min - last_minute) as nat, |i: int| ((last_minute + 1 + i) * 60) as u32), now_min)
    }
}

/// One archive entry as stored: ring position, timestamp and the bit
/// pattern of its first value.
#[derive(Clone, Copy, Debug, PartialEq, Eq)]
pub struct RingRecordRaw {
    pub index: u16,
    pub ts_unix: u32,
    pub value0_bits: u32,
}

/// Timestamp (high word first) stored at `base`.
pub open spec fn u32_hi_lo(dat: Seq<u16>, base: int) -> u32 {
    ((dat[base] as u32) * 65536 + dat[base + 1] as u32) as u32
}

/// Bit pattern (low word first) stored at `base`.
pub open spec fn u32_lo_hi(dat: Seq<u16>, base: int) -> u32 {
    (dat[base] as u32 + (dat[base + 1] as u32) * 65536) as u32
}

/// Ring position `off` records back from `cur`.
pub open spec fn ring_back(cur: int, off: int) -> int {
    (cur + RING_RECORDS - off) % (RING_RECORDS as int)
}

/// The non-empty records among the `count` most recent positions, newest
/// first.
pub open spec fn last_records_spec(dat: Seq<u16>, cur: int, count: int) -> Seq<RingRecordRaw>
    decreases count,
{
    if count <= 0 {
        Seq::empty()
    } else {
        let prev = last_records_spec(dat, cur, count - 1);
        let idx = ring_back(cur, count - 1);
        let base = RING_START_ADDR + idx * RING_RECORD_WORDS;
        let ts = u32_hi_lo(dat, base);
        if ts == 0 {
            prev
        } else {
            prev.push(RingRecordRaw { index: idx as u16, ts_unix: ts, value0_bits: u32_lo_hi(dat, base + 2) })
        }
    }
}

impl SlotState {
    /// A device with all registers zero, the archive generator at its
    /// defaults and no coil command seen.
    pub fn new() -> (s: Self)
        ensures
            s.wf(),
            s.dat@ == Seq::new(DAT_LEN as nat, |i: int| 0u16),
            s.dat1@ == Seq::new(DAT_LEN as nat, |i: int| 0u16),
            s.last_minute == 0,
            s.cur_index == 0,
            s.cur_value_bits == DEFAULT_START_VALUE_BITS,
            s.start_value_bits == DEFAULT_START_VALUE_BITS,
            s.delta_bits == DEFAULT_DELTA_BITS,
            s.last_fc05_addr == 0 && s.last_fc05_on == 0 && s.last_fc05_seen == 0,
    {
        SlotState {
            dat: zeros_u16(DAT_LEN),
            dat1: zeros_u16(DAT_LEN),
            last_minute: 0,
            cur_index: 0,
            cur_value_bits: DEFAULT_START_VALUE_BITS,
            start_value_bits: DEFAULT_START_VALUE_BITS,
            delta_bits: DEFAULT_DELTA_BITS,
            last_fc05_addr: 0,
            last_fc05_on: 0,
            last_fc05_seen: 0,
        }
    }

    /// Input register `addr`, 0 outside the register file.
    pub fn reg_u16(&self, addr: usize) -> (v: u16)
        requires
            self.wf(),
        ensures
            v == word_at(self.dat@, addr as int),
    {
        if addr < DAT_LEN {
            self.dat[addr]
        } else {
            0
        }
    }

    /// Sets input register `addr`; addresses outside the file are ignored.
    pub fn set_reg_u16(&mut self, addr: usize, value: u16)
        requires
            old(self).wf(),
        ensures
            final(self).wf(),
            final(self).dat@ == if addr < DAT_LEN { old(self).dat@.update(addr as int, value) } else { old(self).dat@ },
            final(self).dat1@ == old(self).dat1@,
            final(self).last_minute == old(self).last_minute,
            final(self).cur_index == old(self).cur_index,
            final(self).cur_value_bits == old(self).cur_value_bits,
            final(self).start_value_bits == old(self).start_value_bits,
            final(self).delta_bits == old(self).delta_bits,
            final(self).last_fc05_addr == old(self).last_fc05_addr,
            final(self).last_fc05_on == old(self).last_fc05_on,
            final(self).last_fc05_seen == old(self).last_fc05_seen,
    {
        if addr < DAT_LEN {
            self.dat.set(addr, value);
        }
    }

    /// Sets holding register `addr`; addresses outside the file are ignored.
    pub fn set_holding_u16(&mut self, addr: usize, value: u16)
        requires
            old(self).wf(),
        ensures
            final(self).wf(),
            final(self).dat1@ == if addr < DAT_LEN { old(self).dat1@.update(addr as int, value) } else { old(self).dat1@ },
            final(self).dat@ == old(self).dat@,
            final(self).last_minute == old(self).last_minute,
            final(self).cur_index == old(self).cur_index,
            final(self).cur_value_bits == old(self).cur_value_bits,
            final(self).start_value_bits == old(self).start_value_bits,
            final(self).delta_bits == old(self).delta_bits,
            final(self).last_fc05_addr == old(self).last_fc05_addr,
            final(self).last_fc05_on == old(self).last_fc05_on,
            final(self).last_fc05_seen == old(self).last_fc05_seen,
    {
        if addr < DAT_LEN {
            self.dat1.set(addr, value);
        }
    }

    /// Holding register `addr`, 0 outside the register file.
    pub fn holding_u16(&self, addr: usize) -> (v: u16)
        requires
            self.wf(),
        ensures
            v == word_at(self.dat1@, addr as int),
    {
        if addr < DAT_LEN {
            self.dat1[addr]
        } else {
            0
        }
    }

    /// The last coil command (FC5) the device accepted: address and whether
    /// it switched on; `None` before the first one.
    pub fn last_fc05_status(&self) -> (r: Option<(u16, bool)>)
        ensures
            self.last_fc05_seen == 0 ==> r is None,
            self.last_fc05_seen != 0 ==> r == Some((self.last_fc05_addr, self.last_fc05_on != 0)),
    {
        if self.last_fc05_seen == 0 {
            return None;
        }
        Some((self.last_fc05_addr, self.last_fc05_on != 0))
    }

    /// Writes input register `sm` (any 16-bit address is inside the file).
    pub fn wr_u16(&mut self, ff: u16, sm: u16)
        requires
            old(self).wf(),
        ensures
            final(self).wf(),
            final(self).dat@ == old(self).dat@.update(sm as int, ff),
            final(self).dat1@ == old(self).dat1@,
            final(self).last_minute == old(self).last_minute,
            final(self).cur_index == old(self).cur_index,
            final(self).cur_value_bits == old(self).cur_value_bits,
            final(self).start_value_bits == old(self).start_value_bits,
            final(self).delta_bits == old(self).delta_bits,
            final(self).last_fc05_addr == old(self).last_fc05_addr,
            final(self).last_fc05_on == old(self).last_fc05_on,
            final(self).last_fc05_seen == old(self).last_fc05_seen,
    {
        self.dat.set(sm as usize, ff);
    }

    /// Stores a 32-bit value at `base`, high word first.
    fn write_u32_hi_lo(&mut self, base: usize, v: u32)
        requires
            old(self).wf(),
            base + 1 < DAT_LEN,
        ensures
            final(self).wf(),
            final(self).dat@ == old(self).dat@.update(base as int, (v >> 16u32) as u16).update(base + 1, (v & 0xFFFFu32) as u16),
            final(self).dat1@ == old(self).dat1@,
            final(self).last_minute == old(self).last_minute,
            final(self).cur_index == old(self).cur_index,
            final(self).cur_value_bits == old(self).cur_value_bits,
            final(self).start_value_bits == old(self).start_value_bits,
            final(self).delta_bits == old(self).delta_bits,
            final(self).last_fc05_addr == old(self).last_fc05_addr,
            final(self).last_fc05_on == old(self).last_fc05_on,
            final(self).last_fc05_seen == old(self).last_fc05_seen,
    {
        self.dat.set(base, ((v >> 16) & 0xFFFF) as u16);
        self.dat.set(base + 1, (v & 0xFFFF) as u16);
        assert(((v >> 16u32) & 0xFFFFu32) == (v >> 16u32)) by (bit_vector);
    }

    /// The 32-bit value stored at `base`, high word first.
    pub fn read_u32_hi_lo(&self, base: usize) -> (v: u32)
        requires
            self.wf(),
            base + 1 < DAT_LEN,
        ensures
            v == u32_hi_lo(self.dat@, base as int),
    {
        let a = self.dat[base];
        let b = self.dat[base + 1];
        let v = ((a as u32) << 16) | (b as u32);
        assert(v == (a as u32) * 65536 + (b as u32)) by (bit_vector)
            requires
                v == ((a as u32) << 16u32) | (b as u32),
        ;
        v
    }

    /// Appends one record to the ring archive: the next ring position gets
    /// the timestamp and the 36 value bit patterns, the header names it, and
    /// the generator moves on to `next_value_bits`. The float values
    /// themselves are computed by the caller.
    pub fn append_record_bits(&mut self, ts_unix: u32, values: &[u32], next_value_bits: u32)
        requires
            old(self).wf(),
            values@.len() == RING_FLOATS,
        ensures
            final(self).wf(),
            final(self).cur_index as int == (old(self).cur_index + 1) % (RING_RECORDS as int),
            final(self).dat@ == ring_record_written(old(self).dat@, final(self).cur_index as int, ts_unix, values@),
            final(self).cur_value_bits == next_value_bits,
            final(self).dat1@ == old(self).dat1@,
            final(self).last_minute == old(self).last_minute,
            final(self).start_value_bits == old(self).start_value_bits,
            final(self).delta_bits == old(self).delta_bits,
            final(self).last_fc05_addr == old(self).last_fc05_addr,
            final(self).last_fc05_on == old(self).last_fc05_on,
            final(self).last_fc05_seen == old(self).last_fc05_seen,
    {
        let idx = ((self.cur_index as usize + 1) % RING_RECORDS) as u16;
        let base = RING_START_ADDR + idx as usize * RING_RECORD_WORDS;
        let ghost d0 = self.dat@;
        self.write_u32_hi_lo(base, ts_unix);
        let mut k: usize = 0;
        while k < RING_FLOATS
            invariant
                self.wf(),
                values@.len() == RING_FLOATS,
                idx < RING_RECORDS,
                base == RING_START_ADDR + idx * RING_RECORD_WORDS,
                k <= RING_FLOATS,
                self.dat1@ == old(self).dat1@,
                self.last_minute == old(self).last_minute,
                self.cur_index == old(self).cur_index,
                self.start_value_bits == old(self).start_value_bits,
                self.delta_bits == old(self).delta_bits,
                self.last_fc05_addr == old(self).last_fc05_addr,
                self.last_fc05_on == old(self).last_fc05_on,
                self.last_fc05_seen == old(self).last_fc05_seen,
                d0 == old(self).dat@,
                forall|x: int| 0 <= x < DAT_LEN ==> #[trigger] self.dat@[x] == (
                    if base <= x < base + 2 + 2 * k { ring_word(ts_unix, values@, x - base) } else { d0[x] }),
            decreases RING_FLOATS - k,
        {
            let bits = values[k];
            let b = base + 2 + k * 2;
            self.dat.set(b, (bits & 0xFFFF) as u16);
            self.dat.set(b + 1, ((bits >> 16) & 0xFFFF) as u16);
            assert(((bits >> 16u32) & 0xFFFFu32) == (bits >> 16u32)) by (bit_vector);
            k = k + 1;
        }
        self.dat.set(RING_INDEX_ADDR, idx);
        self.dat.set(RING_INDEX_ADDR + 1, 0);
        self.dat.set(RING_INDEX_ADDR + 2, RING_RECORD_WORDS as u16);
        self.dat.set(RING_INDEX_ADDR + 3, RING_RECORDS as u16);
        self.cur_index = idx;
        self.cur_value_bits = next_value_bits;
        assert(self.dat@ =~= ring_record_written(d0, idx as int, ts_unix, values@));
    }

    /// Clears the ring archive: the generator restarts from its start value,
    /// the last position becomes current (so the next record goes to
    /// position 0), no minute has been recorded, the ring registers are
    /// zeroed and the header is rewritten.
    pub fn reset_ring_archive(&mut self)
        requires
            old(self).wf(),
        ensures
            final(self).wf(),
            final(self).cur_value_bits == old(self).start_value_bits,
            final(self).cur_index == RING_RECORDS - 1,
            final(self).last_minute == 0,
            final(self).dat@ == ring_cleared(old(self).dat@),
            final(self).dat1@ == old(self).dat1@,
            final(self).start_value_bits == old(self).start_value_bits,
            final(self).delta_bits == old(self).delta_bits,
            final(self).last_fc05_addr == old(self).last_fc05_addr,
            final(self).last_fc05_on == old(self).last_fc05_on,
            final(self).last_fc05_seen == old(self).last_fc05_seen,
    {
        self.cur_value_bits = self.start_value_bits;
        self.cur_index = (RING_RECORDS - 1) as u16;
        self.last_minute = 0;
        let ghost d0 = self.dat@;
        let mut x: usize = RING_START_ADDR;
        while x < RING_START_ADDR + RING_TOTAL_WORDS
            invariant
                self.wf(),
                RING_START_ADDR <= x <= RING_START_ADDR + RING_TOTAL_WORDS,
                self.dat1@ == old(self).dat1@,
                self.cur_value_bits == old(self).start_value_bits,
                self.cur_index == RING_RECORDS - 1,
                self.last_minute == 0,
                self.start_value_bits == old(self).start_value_bits,
                self.delta_bits == old(self).delta_bits,
                self.last_fc05_addr == old(self).last_fc05_addr,
                self.last_fc05_on == old(self).last_fc05_on,
                self.last_fc05_seen == old(self).last_fc05_seen,
                d0 == old(self).dat@,
                forall|y: int| 0 <= y < DAT_LEN ==> #[trigger] self.dat@[y] == (
                    if RING_START_ADDR <= y < x { 0u16 } else { d0[y] }),
            decreases RING_START_ADDR + RING_TOTAL_WORDS - x,
        {
            self.dat.set(x, 0);
            x = x + 1;
        }
        self.dat.set(RING_INDEX_ADDR, (RING_RECORDS - 1) as u16);
        self.dat.set(RING_INDEX_ADDR + 1, 0);
        self.dat.set(RING_INDEX_ADDR + 2, RING_RECORD_WORDS as u16);
        self.dat.set(RING_INDEX_ADDR + 3, RING_RECORDS as u16);
        assert(self.dat@ =~= ring_cleared(d0));
    }

    /// Advances the archive clock to `now_secs` and returns the timestamps
    /// of the records to append, oldest first (see `ring_minutes_spec`).
    pub fn advance_ring_minutes(&mut self, now_secs: u64) -> (ts: Vec<u32>)
        requires
            old(self).wf(),
        ensures
            final(self).wf(),
            (ts@, final(self).last_minute) == ring_minutes_spec(old(self).last_minute, now_secs),
            final(self).dat@ == old(self).dat@,
            final(self).dat1@ == old(self).dat1@,
            final(self).cur_index == old(self).cur_index,
            final(self).cur_value_bits == old(self).cur_value_bits,
            final(self).start_value_bits == old(self).start_value_bits,
            final(self).delta_bits == old(self).delta_bits,
            final(self).last_fc05_addr == old(self).last_fc05_addr,
            final(self).last_fc05_on == old(self).last_fc05_on,
            final(self).last_fc05_seen == old(self).last_fc05_seen,
    {
        let now_min = now_secs / 60;
        let last = self.last_minute;
        let mut out: Vec<u32> = Vec::new();
        if last == 0 {
            self.last_minute = now_min;
            out.push(now_secs as u32);
            assert(out@ =~= seq![now_secs as u32]);
            return out;
        }
        if now_min <= last {
            return out;
        }
        let mut m: u64 = last + 1;
        while m <= now_min
            invariant
                last < m <= now_min + 1,
                now_min == now_secs / 60,
                out@ == Seq::new((m - last - 1) as nat, |i: int| ((last + 1 + i) * 60) as u32),
            decreases now_min + 1 - m,
        {
            out.push((m * 60) as u32);
            m = m + 1;
            assert(out@ =~= Seq::new((m - last - 1) as nat, |i: int| ((last + 1 + i) * 60) as u32));
        }
        self.last_minute = now_min;
        out
    }

    /// Moves the archive clock forward by one minute (to the current minute
    /// on the first call) and returns the timestamp of the one record to
    /// append.
    pub fn advance_ring_minute_now(&mut self, now_secs: u64) -> (ts: u32)
        requires
            old(self).wf(),
            old(self).last_minute < 0xFFFF_FFFF_FFFF_FFFFu64 / 60,
        ensures
            final(self).wf(),
            final(self).last_minute == if old(self).last_minute == 0 { now_secs / 60 } else { (old(self).last_minute + 1) as u64 },
            ts == (final(self).last_minute * 60) as u32,
            final(self).dat@ == old(self).dat@,
            final(self).dat1@ == old(self).dat1@,
            final(self).cur_index == old(self).cur_index,
            final(self).cur_value_bits == old(self).cur_value_bits,
            final(self).start_value_bits == old(self).start_value_bits,
            final(self).delta_bits == old(self).delta_bits,
            final(self).last_fc05_addr == old(self).last_fc05_addr,
            final(self).last_fc05_on == old(self).last_fc05_on,
            final(self).last_fc05_seen == old(self).last_fc05_seen,
    {
        let now_min = now_secs / 60;
        let last = self.last_minute;
        let next_min = if last == 0 { now_min } else { last.saturating_add(1) };
        self.last_minute = next_min;
        (next_min * 60) as u32
    }

    /// The non-empty archive records among the `limit` most recent ring
    /// positions, newest first.
    pub fn last_records(&self, limit: usize) -> (out: Vec<RingRecordRaw>)
        requires
            self.wf(),
            self.cur_index < RING_RECORDS,
            limit <= RING_RECORDS,
        ensures
            out@ == last_records_spec(self.dat@, self.cur_index as int, limit as int),
    {
        let mut out: Vec<RingRecordRaw> = Vec::new();
        let cur = self.cur_index as usize;
        let mut off: usize = 0;
        while off < limit
            invariant
                self.wf(),
                cur == self.cur_index,
                cur < RING_RECORDS,
                off <= limit <= RING_RECORDS,
                out@ == last_records_spec(self.dat@, cur as int, off as int),
            decreases limit - off,
        {
            let idx = (cur + RING_RECORDS - off) % RING_RECORDS;
            let base = RING_START_ADDR + idx * RING_RECORD_WORDS;
            let ts = self.read_u32_hi_lo(base);
            if ts != 0 {
                let lo = self.dat[base + 2];
                let hi = self.dat[base + 3];
                let bits = (lo as u32) | ((hi as u32) << 16);
                assert(bits == (lo as u32) + (hi as u32) * 65536) by (bit_vector)
                    requires
                        bits == (lo as u32) | ((hi as u32) << 16u32),
                ;
                out.push(RingRecordRaw { index: idx as u16, ts_unix: ts, value0_bits: bits });
            }
            off = off + 1;
        }
        out
    }
}

/// Whether register `x` lies outside the ring archive and its header.
pub open spec fn outside_ring(x: int) -> bool {
    !(RING_INDEX_ADDR <= x < RING_INDEX_ADDR + 4) && !(RING_START_ADDR <= x < RING_START_ADDR + RING_TOTAL_WORDS)
}

/// The parts of a device that the archive clock never changes: the
/// holding registers, the input registers outside the ring and its
/// header, the generator's settings and the last coil command.
pub open spec fn archive_frame(a: SlotState, b: SlotState) -> bool {
    &&& b.dat1@ == a.dat1@
    &&& forall|x: int| 0 <= x < DAT_LEN && outside_ring(x) ==> #[trigger] b.dat@[x] == a.dat@[x]
    &&& b.start_value_bits == a.start_value_bits
    &&& b.delta_bits == a.delta_bits
    &&& b.last_fc05_addr == a.last_fc05_addr
    &&& b.last_fc05_on == a.last_fc05_on
    &&& b.last_fc05_seen == a.last_fc05_seen
}

/// Whether `gen` can compute every record: it accepts any current value
/// and step, and hands back one bit pattern per value of a record (with
/// the generator's next value).
pub open spec fn record_generator<F: Fn(u32, u32) -> (Vec<u32>, u32)>(gen: F) -> bool {
    &&& forall|cur: u32, delta: u32| call_requires(gen, (cur, delta))
    &&& forall|cur: u32, delta: u32, r: (Vec<u32>, u32)|
        #[trigger] call_ensures(gen, (cur, delta), r) ==> r.0@.len() == RING_FLOATS
}

/// First register of ring position `idx`.
pub open spec fn ring_base(idx: int) -> int {
    RING_START_ADDR + idx * RING_RECORD_WORDS
}

/// The registers after the records `recs` (timestamp and values, oldest
/// first) were appended one after another to a ring whose current
/// position was `c`: record `i` lands at position `(c + 1 + i) % 546`.
pub open spec fn ring_appended(dat: Seq<u16>, c: int, recs: Seq<(u32, Seq<u32>)>) -> Seq<u16>
    decreases recs.len(),
{
    if recs.len() == 0 {
        dat
    } else {
        let n = recs.len() - 1;
        ring_record_written(
            ring_appended(dat, c, recs.drop_last()),
            (c + 1 + n) % (RING_RECORDS as int),
            recs[n].0,
            recs[n].1,
        )
    }
}

/// The generator value a chain of calls starts its `i`-th call from.
pub open spec fn chain_value(cur: u32, outs: Seq<(Vec<u32>, u32)>, i: int) -> u32 {
    if i == 0 { cur } else { outs[i - 1].1 }
}

/// Whether `outs` are results `gen` may hand back on successive calls,
/// the first from `cur`, each later one from the value the call before
/// handed back, all with step `delta`.
pub open spec fn generated_chain<F: Fn(u32, u32) -> (Vec<u32>, u32)>(
    gen: F,
    cur: u32,
    delta: u32,
    outs: Seq<(Vec<u32>, u32)>,
) -> bool {
    forall|i: int| 0 <= i < outs.len() ==> #[trigger] call_ensures(gen, (chain_value(cur, outs, i), delta), outs[i])
}

/// Timestamps paired with the values of the generator's results.
pub open spec fn records_of(tss: Seq<u32>, outs: Seq<(Vec<u32>, u32)>) -> Seq<(u32, Seq<u32>)> {
    Seq::new(tss.len(), |i: int| (tss[i], outs[i].0@))
}

/// Whether `dat_after` and `cur_after` are the registers and generator
/// value after one record per timestamp of `tss` was appended to the ring
/// (current position `c`) with values `gen` computed, starting from
/// generator value `cur` with step `delta`.
pub open spec fn ring_appended_by<F: Fn(u32, u32) -> (Vec<u32>, u32)>(
    gen: F,
    dat: Seq<u16>,
    c: int,
    cur: u32,
    delta: u32,
    tss: Seq<u32>,
    dat_after: Seq<u16>,
    cur_after: u32,
) -> bool {
    exists|outs: Seq<(Vec<u32>, u32)>|
        #[trigger] generated_chain(gen, cur, delta, outs)
        && outs.len() == tss.len()
        && dat_after == ring_appended(dat, c, records_of(tss, outs))
        && cur_after == chain_value(cur, outs, outs.len() as int)
}

/// Whether the four header registers name `cur` as the current record of a
/// ring of 546 records of 74 registers.
pub open spec fn ring_header_ok(dat: Seq<u16>, cur: u16) -> bool {
    &&& dat[RING_INDEX_ADDR as int] == cur
    &&& dat[RING_INDEX_ADDR + 1] == 0
    &&& dat[RING_INDEX_ADDR + 2] == RING_RECORD_WORDS as u16
    &&& dat[RING_INDEX_ADDR + 3] == RING_RECORDS as u16
}

/// One more step round the ring.
proof fn lemma_ring_step(c: int, k: int)
    requires
        0 <= c,
        0 <= k,
    ensures
        ((c + k) % (RING_RECORDS as int) + 1) % (RING_RECORDS as int) == (c + k + 1) % (RING_RECORDS as int),
{
}

/// A record lies inside the ring.
proof fn lemma_ring_base_bounds(idx: int)
    requires
        0 <= idx < RING_RECORDS,
    ensures
        RING_START_ADDR <= ring_base(idx),
        ring_base(idx) + RING_RECORD_WORDS <= RING_START_ADDR + RING_TOTAL_WORDS,
{
    assert(idx * RING_RECORD_WORDS <= (RING_RECORDS - 1) * RING_RECORD_WORDS) by (nonlinear_arith)
        requires
            0 <= idx < RING_RECORDS,
    ;
}

/// Writing a record keeps the length of the register file.
proof fn lemma_appended_len(dat: Seq<u16>, c: int, recs: Seq<(u32, Seq<u32>)>)
    ensures
        ring_appended(dat, c, recs).len() == dat.len(),
    decreases recs.len(),
{
    if recs.len() > 0 {
        lemma_appended_len(dat, c, recs.drop_last());
    }
}

/// A written record reads back: its timestamp and its first value.
proof fn lemma_record_read_back(dat: Seq<u16>, idx: int, ts: u32, values: Seq<u32>)
    requires
        dat.len() == DAT_LEN,
        0 <= idx < RING_RECORDS,
        values.len() == RING_FLOATS,
    ensures
        u32_hi_lo(ring_record_written(dat, idx, ts, values), ring_base(idx)) == ts,
        u32_lo_hi(ring_record_written(dat, idx, ts, values), ring_base(idx) + 2) == values[0],
{
    lemma_ring_base_bounds(idx);
    let d = ring_record_written(dat, idx, ts, values);
    let base = ring_base(idx);
    let hi: u16 = (ts >> 16u32) as u16;
    let lo: u16 = (ts & 0xFFFFu32) as u16;
    let v = values[0];
    let vlo: u16 = (v & 0xFFFFu32) as u16;
    let vhi: u16 = (v >> 16u32) as u16;
    assert(d[base] == hi);
    assert(d[base + 1] == lo);
    assert(d[base + 2] == vlo);
    assert(d[base + 3] == vhi);
    assert(((hi as u32) * 65536 + lo as u32) as u32 == ts) by (bit_vector)
        requires
            hi == (ts >> 16u32) as u16,
            lo == (ts & 0xFFFFu32) as u16,
    ;
    assert((vlo as u32 + (vhi as u32) * 65536) as u32 == v) by (bit_vector)
        requires
            vlo == (v & 0xFFFFu32) as u16,
            vhi == (v >> 16u32) as u16,
    ;
}

/// Writing one record leaves every other record as it was.
proof fn lemma_record_other_untouched(dat: Seq<u16>, idx: int, q: int, ts: u32, values: Seq<u32>, o: int)
    requires
        dat.len() == DAT_LEN,
        0 <= idx < RING_RECORDS,
        0 <= q < RING_RECORDS,
        idx != q,
        0 <= o < RING_RECORD_WORDS,
    ensures
        ring_record_written(dat, idx, ts, values)[ring_base(q) + o] == dat[ring_base(q) + o],
{
    lemma_ring_base_bounds(idx);
    lemma_ring_base_bounds(q);
    let x = ring_base(q) + o;
    let b = ring_base(idx);
    assert(!(b <= x < b + RING_RECORD_WORDS)) by (nonlinear_arith)
        requires
            x == RING_START_ADDR + q * RING_RECORD_WORDS + o,
            b == RING_START_ADDR + idx * RING_RECORD_WORDS,
            0 <= o < RING_RECORD_WORDS,
            idx != q,
    ;
}

/// After appending, each of the 546 most recent records reads back from
/// its ring position.
proof fn lemma_appended_reads(dat: Seq<u16>, c: int, recs: Seq<(u32, Seq<u32>)>, i: int)
    requires
        dat.len() == DAT_LEN,
        0 <= c,
        0 <= i < recs.len(),
        recs.len() - i <= RING_RECORDS,
        forall|k: int| 0 <= k < recs.len() ==> (#[trigger] recs[k]).1.len() == RING_FLOATS,
    ensures
        u32_hi_lo(ring_appended(dat, c, recs), ring_base((c + 1 + i) % (RING_RECORDS as int))) == recs[i].0,
        u32_lo_hi(ring_appended(dat, c, recs), ring_base((c + 1 + i) % (RING_RECORDS as int)) + 2) == recs[i].1[0],
    decreases recs.len(),
{
    let n = recs.len() - 1;
    let prev = recs.drop_last();
    let dp = ring_appended(dat, c, prev);
    lemma_appended_len(dat, c, prev);
    let idx = (c + 1 + n) % (RING_RECORDS as int);
    let q = (c + 1 + i) % (RING_RECORDS as int);
    assert(recs[n].1.len() == RING_FLOATS);
    if i == n {
        lemma_record_read_back(dp, idx, recs[n].0, recs[n].1);
    } else {
        assert(prev[i] == recs[i]);
        assert forall|k: int| 0 <= k < prev.len() implies (#[trigger] prev[k]).1.len() == RING_FLOATS by {
            assert(prev[k] == recs[k]);
        }
        lemma_appended_reads(dat, c, prev, i);
        assert(idx != q);
        lemma_record_other_untouched(dp, idx, q, recs[n].0, recs[n].1, 0);
        lemma_record_other_untouched(dp, idx, q, recs[n].0, recs[n].1, 1);
        lemma_record_other_untouched(dp, idx, q, recs[n].0, recs[n].1, 2);
        lemma_record_other_untouched(dp, idx, q, recs[n].0, recs[n].1, 3);
    }
}

/// Reading back after a tick: when records were appended to the ring one
/// after another, the `m` most recent ring positions (at most one full
/// turn) hold exactly the last `m` of them, newest first, provided none
/// of those is stamped 0 (a zero timestamp marks an empty position).
pub proof fn lemma_last_records_after_append(dat: Seq<u16>, c: int, recs: Seq<(u32, Seq<u32>)>, m: int)
    requires
        dat.len() == DAT_LEN,
        0 <= c,
        0 <= m <= recs.len(),
        m <= RING_RECORDS,
        forall|k: int| 0 <= k < recs.len() ==> (#[trigger] recs[k]).1.len() == RING_FLOATS,
        forall|k: int| recs.len() - m <= k < recs.len() ==> (#[trigger] recs[k]).0 != 0,
    ensures
        last_records_spec(ring_appended(dat, c, recs), (c + recs.len()) % (RING_RECORDS as int), m)
            == Seq::new(m as nat, |j: int| RingRecordRaw {
                index: ((c + recs.len() - j) % (RING_RECORDS as int)) as u16,
                ts_unix: recs[recs.len() - 1 - j].0,
                value0_bits: recs[recs.len() - 1 - j].1[0],
            }),
    decreases m,
{
    let n = recs.len();
    let d = ring_appended(dat, c, recs);
    let cur = (c + n) % (RING_RECORDS as int);
    let expect = |mm: int| Seq::new(mm as nat, |j: int| RingRecordRaw {
        index: ((c + n - j) % (RING_RECORDS as int)) as u16,
        ts_unix: recs[n - 1 - j].0,
        value0_bits: recs[n - 1 - j].1[0],
    });
    if m == 0 {
        assert(last_records_spec(d, cur, m) =~= expect(m));
    } else {
        lemma_last_records_after_append(dat, c, recs, m - 1);
        let i = n - m;
        let idx = ring_back(cur, m - 1);
        assert(idx == (c + 1 + i) % (RING_RECORDS as int));
        lemma_appended_reads(dat, c, recs, i);
        assert(recs[i].0 != 0);
        assert(last_records_spec(d, cur, m) =~= expect(m));
    }
}

impl SlotState {
    /// Appends one record at `ts` with the values `gen` computes from the
    /// generator's current value and step; hands back what `gen` returned.
    fn append_generated<F: Fn(u32, u32) -> (Vec<u32>, u32)>(&mut self, ts: u32, gen: &F) -> (out: Ghost<(Vec<u32>, u32)>)
        requires
            old(self).wf(),
            record_generator(*gen),
        ensures
            final(self).wf(),
            final(self).cur_index as int == (old(self).cur_index + 1) % (RING_RECORDS as int),
            final(self).last_minute == old(self).last_minute,
            archive_frame(*old(self), *final(self)),
            call_ensures(*gen, (old(self).cur_value_bits, old(self).delta_bits), out@),
            out@.0@.len() == RING_FLOATS,
            final(self).cur_value_bits == out@.1,
            final(self).dat@ == ring_record_written(old(self).dat@, final(self).cur_index as int, ts, out@.0@),
    {
        let (values, next) = gen(self.cur_value_bits, self.delta_bits);
        let ghost out = (values, next);
        let ghost d0 = self.dat@;
        self.append_record_bits(ts, values.as_slice(), next);
        assert forall|x: int| 0 <= x < DAT_LEN && outside_ring(x) implies #[trigger] self.dat@[x] == d0[x] by {
            lemma_ring_base_bounds(self.cur_index as int);
        }
        Ghost(out)
    }

    /// Brings the ring archive up to `now_secs`: one record for the first
    /// call, then one per minute passed since the last recorded minute,
    /// each holding the values `gen` computes; a second call within the
    /// same minute changes nothing.
    pub fn tick_ring_archive<F: Fn(u32, u32) -> (Vec<u32>, u32)>(&mut self, now_secs: u64, gen: &F)
        requires
            old(self).wf(),
            record_generator(*gen),
        ensures
            final(self).wf(),
            final(self).last_minute == ring_minutes_spec(old(self).last_minute, now_secs).1,
            ({
                let n = ring_minutes_spec(old(self).last_minute, now_secs).0.len();
                final(self).cur_index as int == if n == 0 {
                    old(self).cur_index as int
                } else {
                    (old(self).cur_index + n) % (RING_RECORDS as int)
                }
            }),
            archive_frame(*old(self), *final(self)),
            ring_appended_by(
                *gen,
                old(self).dat@,
                old(self).cur_index as int,
                old(self).cur_value_bits,
                old(self).delta_bits,
                ring_minutes_spec(old(self).last_minute, now_secs).0,
                final(self).dat@,
                final(self).cur_value_bits,
            ),
            ring_minutes_spec(old(self).last_minute, now_secs).0.len() == 0 ==> final(self).dat@ == old(self).dat@
                && final(self).cur_value_bits == old(self).cur_value_bits,
            ring_minutes_spec(old(self).last_minute, now_secs).0.len() > 0 ==> ring_header_ok(final(self).dat@, final(self).cur_index),
            ({
                let tss = ring_minutes_spec(old(self).last_minute, now_secs).0;
                forall|i: int| 0 <= i < tss.len() && tss.len() - i <= RING_RECORDS
                    ==> #[trigger] u32_hi_lo(final(self).dat@, ring_base((old(self).cur_index + 1 + i) % (RING_RECORDS as int))) == tss[i]
            }),
    {
        let ts = self.advance_ring_minutes(now_secs);
        let ghost c0 = old(self).cur_index as int;
        let ghost d0 = old(self).dat@;
        let ghost cur0 = old(self).cur_value_bits;
        let ghost delta = old(self).delta_bits;
        let ghost mut outs: Seq<(Vec<u32>, u32)> = Seq::empty();
        let mut i: usize = 0;
        while i < ts.len()
            invariant
                self.wf(),
                record_generator(*gen),
                i <= ts@.len(),
                ts@ == ring_minutes_spec(old(self).last_minute, now_secs).0,
                self.last_minute == ring_minutes_spec(old(self).last_minute, now_secs).1,
                i == 0 ==> self.cur_index as int == c0,
                i > 0 ==> self.cur_index as int == (c0 + i) % (RING_RECORDS as int),
                archive_frame(*old(self), *self),
                c0 == old(self).cur_index,
                d0 == old(self).dat@,
                cur0 == old(self).cur_value_bits,
                delta == old(self).delta_bits,
                outs.len() == i,
                generated_chain(*gen, cur0, delta, outs),
                forall|k: int| 0 <= k < outs.len() ==> (#[trigger] outs[k]).0@.len() == RING_FLOATS,
                self.cur_value_bits == chain_value(cur0, outs, i as int),
                self.dat@ == ring_appended(d0, c0, records_of(ts@.take(i as int), outs)),
                i > 0 ==> ring_header_ok(self.dat@, self.cur_index),
            decreases ts@.len() - i,
        {
            let ghost prev_outs = outs;
            let ghost prev_dat = self.dat@;
            let out = self.append_generated(ts[i], gen);
            proof {
                outs = outs.push(out@);
                if i > 0 {
                    lemma_ring_step(c0, i as int);
                }
                assert forall|k: int| 0 <= k < outs.len() implies #[trigger] call_ensures(*gen, (chain_value(cur0, outs, k), delta), outs[k]) by {
                    if k < i {
                        assert(outs[k] == prev_outs[k]);
                        assert(chain_value(cur0, outs, k) == chain_value(cur0, prev_outs, k));
                    }
                }
                let recs = records_of(ts@.take(i + 1), outs);
                assert(recs.drop_last() =~= records_of(ts@.take(i as int), prev_outs));
                assert(recs[i as int] == (ts@[i as int], out@.0@));
                lemma_ring_base_bounds(self.cur_index as int);
            }
            i = i + 1;
        }
        proof {
            assert(ts@.take(i as int) =~= ts@);
            let recs = records_of(ts@, outs);
            assert forall|k: int| 0 <= k < recs.len() implies (#[trigger] recs[k]).1.len() == RING_FLOATS by {}
            assert forall|k: int| 0 <= k < ts@.len() && ts@.len() - k <= RING_RECORDS
                implies #[trigger] u32_hi_lo(self.dat@, ring_base((c0 + 1 + k) % (RING_RECORDS as int))) == ts@[k] by {
                lemma_appended_reads(d0, c0, recs, k);
            }
        }
    }

    /// Appends the record of the next minute (of the current minute on the
    /// first call), whatever the clock says otherwise.
    pub fn tick_ring_archive_now<F: Fn(u32, u32) -> (Vec<u32>, u32)>(&mut self, now_secs: u64, gen: &F)
        requires
            old(self).wf(),
            old(self).last_minute < 0xFFFF_FFFF_FFFF_FFFFu64 / 60,
            record_generator(*gen),
        ensures
            final(self).wf(),
            final(self).last_minute == if old(self).last_minute == 0 { now_secs / 60 } else { (old(self).last_minute + 1) as u64 },
            final(self).cur_index as int == (old(self).cur_index + 1) % (RING_RECORDS as int),
            archive_frame(*old(self), *final(self)),
            ring_appended_by(
                *gen,
                old(self).dat@,
                old(self).cur_index as int,
                old(self).cur_value_bits,
                old(self).delta_bits,
                seq![(final(self).last_minute * 60) as u32],
                final(self).dat@,
                final(self).cur_value_bits,
            ),
            ring_header_ok(final(self).dat@, final(self).cur_index),
            u32_hi_lo(final(self).dat@, ring_base(final(self).cur_index as int)) == (final(self).last_minute * 60) as u32,
    {
        let ts = self.advance_ring_minute_now(now_secs);
        let ghost d0 = self.dat@;
        let ghost c0 = self.cur_index as int;
        let out = self.append_generated(ts, gen);
        proof {
            let outs = seq![out@];
            let tss = seq![ts];
            assert(chain_value(old(self).cur_value_bits, outs, 0) == old(self).cur_value_bits);
            assert(generated_chain(*gen, old(self).cur_value_bits, old(self).delta_bits, outs));
            let recs = records_of(tss, outs);
            assert(recs.drop_last() =~= Seq::<(u32, Seq<u32>)>::empty());
            assert(ring_appended(d0, c0, recs.drop_last()) == d0);
            assert(recs[0] == (ts, out@.0@));
            assert(self.dat@ == ring_appended(d0, c0, recs));
            lemma_ring_base_bounds(self.cur_index as int);
            lemma_record_read_back(d0, self.cur_index as int, ts, out@.0@);
        }
    }

    /// Clears the ring archive and records the current second: the first
    /// ring position holds the one record, every other position is zero.
    pub fn init_ring_archive<F: Fn(u32, u32) -> (Vec<u32>, u32)>(&mut self, now_secs: u64, gen: &F)
        requires
            old(self).wf(),
            record_generator(*gen),
        ensures
            final(self).wf(),
            final(self).last_minute == now_secs / 60,
            final(self).cur_index == 0,
            archive_frame(*old(self), *final(self)),
            ring_appended_by(
                *gen,
                ring_cleared(old(self).dat@),
                (RING_RECORDS - 1) as int,
                old(self).start_value_bits,
                old(self).delta_bits,
                seq![now_secs as u32],
                final(self).dat@,
                final(self).cur_value_bits,
            ),
            ring_header_ok(final(self).dat@, 0),
            u32_hi_lo(final(self).dat@, RING_START_ADDR as int) == now_secs as u32,
            forall|x: int| ring_base(1) <= x < RING_START_ADDR + RING_TOTAL_WORDS ==> #[trigger] final(self).dat@[x] == 0,
    {
        self.reset_ring_archive();
        let ghost d1 = self.dat@;
        self.tick_ring_archive(now_secs, gen);
        proof {
            assert(ring_minutes_spec(0, now_secs).0 =~= seq![now_secs as u32]);
            let tss = seq![now_secs as u32];
            let outs = choose|outs: Seq<(Vec<u32>, u32)>|
                #[trigger] generated_chain(*gen, old(self).start_value_bits, old(self).delta_bits, outs)
                && outs.len() == tss.len()
                && self.dat@ == ring_appended(d1, (RING_RECORDS - 1) as int, records_of(tss, outs))
                && self.cur_value_bits == chain_value(old(self).start_value_bits, outs, outs.len() as int);
            let recs = records_of(tss, outs);
            assert(recs.drop_last() =~= Seq::<(u32, Seq<u32>)>::empty());
            assert(ring_appended(d1, (RING_RECORDS - 1) as int, recs.drop_last()) == d1);
            assert(self.dat@ == ring_record_written(d1, 0, now_secs as u32, outs[0].0@));
            assert(call_ensures(*gen, (chain_value(old(self).start_value_bits, outs, 0), old(self).delta_bits), outs[0]));
            lemma_record_read_back(d1, 0, now_secs as u32, outs[0].0@);
            assert forall|x: int| ring_base(1) <= x < RING_START_ADDR + RING_TOTAL_WORDS implies #[trigger] self.dat@[x] == 0 by {
                assert(d1[x] == 0);
            }
        }
    }
}

/// Layout of the ring archive: start register, header register, record
/// count, values per record, registers per record.
pub fn ring_config() -> (r: (usize, usize, usize, usize, usize))
    ensures
        r == (RING_START_ADDR, RING_INDEX_ADDR, RING_RECORDS, RING_FLOATS, RING_RECORD_WORDS),
{
    (RING_START_ADDR, RING_INDEX_ADDR, RING_RECORDS, RING_FLOATS, RING_RECORD_WORDS)
}

} // verus!
