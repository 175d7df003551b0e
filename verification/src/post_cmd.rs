//! Device commands that a script posts through the reserved output keys
//! 920..923, the single-register Modbus write that carries one, and the
//! extra reads that a script asks for through the keys from 1000 on.

use vstd::prelude::*;
use std::collections::HashMap;

use crate::modbus::{sout_mb_only, sout_mb_only_spec};

verus! {

/// Output key that enables a posted command.
pub const POST_CMD_EN: i32 = 920;
/// Output key holding the command's function code.
pub const POST_CMD_FUNC: i32 = 921;
/// Output key holding the command's 1-based register address.
pub const POST_CMD_ADDR: i32 = 922;
/// Output key holding the command's value.
pub const POST_CMD_VAL: i32 = 923;

/// A command for the device: function (5 writes a coil, 6 a holding
/// register), 1-based address, and the value as each function reads it:
/// whether the coil is switched on, and the register word.
#[derive(Clone, Copy, Debug, PartialEq, Eq)]
pub struct PostDeviceCmd {
    pub func: i32,
    pub addr: i32,
    pub coil_on: bool,
    pub word: u16,
}

/// The reserved keys of the posted command.
pub open spec fn is_post_command_key_spec(key: i32) -> bool {
    key == POST_CMD_EN || key == POST_CMD_FUNC || key == POST_CMD_ADDR || key == POST_CMD_VAL
}

/// Whether `key` is one of the keys reserved for a posted command (and so
/// is not archived as a register).
pub fn is_post_command_key(key: i32) -> (r: bool)
    ensures
        r == is_post_command_key_spec(key),
{
    key == POST_CMD_EN || key == POST_CMD_FUNC || key == POST_CMD_ADDR || key == POST_CMD_VAL
}

/// The 0-based wire address of a 1-based address; 0 for anything below 1.
pub open spec fn post_addr_to_wire_spec(addr: i32) -> i32 {
    if addr > 0 { (addr - 1) as i32 } else { 0 }
}

/// Converts a 1-based register address into its wire address.
pub fn post_addr_to_wire(addr: i32) -> (r: i32)
    ensures
        r == post_addr_to_wire_spec(addr),
{
    if addr > 0 {
        addr - 1
    } else {
        0
    }
}

/// The two data bytes of the command: `FF 00` or `00 00` for a coil, the
/// word big endian for a register; none for any other function.
pub open spec fn post_data_spec(cmd: PostDeviceCmd) -> Option<Seq<u8>> {
    if cmd.func == 5 {
        Some(if cmd.coil_on { seq![0xFFu8, 0x00u8] } else { seq![0x00u8, 0x00u8] })
    } else if cmd.func == 6 {
        Some(seq![(cmd.word / 256) as u8, (cmd.word % 256) as u8])
    } else {
        None
    }
}

/// What `build_post_device_mb` returns: the wire address and the RTU
/// request, or `None` for an address outside 0..=65535, another function,
/// or a unit address that has no encoding.
pub open spec fn build_post_device_mb_spec(rtu: u16, cmd: PostDeviceCmd) -> Option<(i32, Seq<u8>)> {
    if !(0 <= cmd.addr <= 65535) {
        None
    } else {
        match post_data_spec(cmd) {
            None => None,
            Some(data) => {
                let wire = post_addr_to_wire_spec(cmd.addr);
                match sout_mb_only_spec(rtu, cmd.func as u8, wire, 1, Some(data)) {
                    Ok(mb) => Some((wire, mb)),
                    Err(_) => None,
                }
            },
        }
    }
}

/// Builds the FC5/FC6 request that carries a posted command.
pub fn build_post_device_mb(rtu: u16, cmd: PostDeviceCmd) -> (r: Option<(i32, Vec<u8>)>)
    ensures
        match (r, build_post_device_mb_spec(rtu, cmd)) {
            (Some((a, v)), Some((sa, sv))) => a == sa && v@ == sv,
            (None, None) => true,
            _ => false,
        },
{
    if !(0 <= cmd.addr && cmd.addr <= 65535) {
        return None;
    }
    let data: Vec<u8> = if cmd.func == 5 {
        if cmd.coil_on {
            vec![0xFF, 0x00]
        } else {
            vec![0x00, 0x00]
        }
    } else if cmd.func == 6 {
        let w = cmd.word;
        assert(((w >> 8u16) & 0xFFu16) == w / 256 && (w & 0xFFu16) == w % 256) by (bit_vector);
        vec![((w >> 8) & 0xFF) as u8, (w & 0xFF) as u8]
    } else {
        return None;
    };
    assert(Some(data@) == post_data_spec(cmd));
    let addr_wire = post_addr_to_wire(cmd.addr);
    match sout_mb_only(rtu, cmd.func as u8, addr_wire, 1, Some(data.as_slice())) {
        Ok(mb) => Some((addr_wire, mb)),
        Err(_) => None,
    }
}

/// A read that a script asks for before it runs: `cnt_words` registers
/// from the 1-based address `addr_human`.
#[derive(Clone, Copy, Debug, PartialEq, Eq, Structural)]
pub struct PreCmd {
    pub addr_human: i32,
    pub cnt_words: i32,
}

/// The value of output key `key`, 0 when the script did not set it.
pub open spec fn out_value(regs: Map<i32, i32>, key: int) -> i32 {
    if regs.contains_key(key as i32) { regs[key as i32] } else { 0 }
}

/// The `k`-th read slot's command, if the slot is enabled and names a
/// positive address and a count of 1 to `max_words` words.
pub open spec fn pre_cmd_slot(regs: Map<i32, i32>, k: int, max_words: i32) -> Option<PreCmd> {
    let base = 1000 + k * 3;
    let en = out_value(regs, base);
    let adr = out_value(regs, base + 1);
    let cnt = out_value(regs, base + 2);
    if en == 0 || adr <= 0 || cnt <= 0 || cnt > max_words {
        None
    } else {
        Some(PreCmd { addr_human: adr, cnt_words: cnt })
    }
}

/// The commands of slots `0..k`, in slot order.
pub open spec fn pre_cmds_spec(regs: Map<i32, i32>, k: int, max_words: i32) -> Seq<PreCmd>
    decreases k,
{
    if k <= 0 {
        Seq::empty()
    } else {
        let prev = pre_cmds_spec(regs, k - 1, max_words);
        match pre_cmd_slot(regs, k - 1, max_words) {
            Some(c) => prev.push(c),
            None => prev,
        }
    }
}

/// Reads the script's read commands from its output registers: slot `k`
/// (for `k` below `max_k`) uses keys `1000 + 3k` (enable), `+1` (address)
/// and `+2` (count), each register's value taken as an integer.
pub fn decode_pre_cmds(regs_out: &HashMap<i32, i32>, max_k: i32, max_words: i32) -> (r: Vec<PreCmd>)
    requires
        max_k <= 715_827_549,
    ensures
        r@ == pre_cmds_spec(regs_out@, max_k as int, max_words),
{
    broadcast use vstd::std_specs::hash::group_hash_axioms;
    let mut out: Vec<PreCmd> = Vec::new();
    let mut k: i32 = 0;
    while k < max_k
        invariant
            max_k <= 715_827_549,
            0 <= k,
            k < max_k ==> out@ == pre_cmds_spec(regs_out@, k as int, max_words),
            k >= max_k ==> out@ == pre_cmds_spec(regs_out@, max_k as int, max_words),
        decreases max_k - k,
    {
        let base = 1000 + k * 3;
        let en: i32 = match regs_out.get(&base) {
            Some(v) => *v,
            None => 0,
        };
        let adr: i32 = match regs_out.get(&(base + 1)) {
            Some(v) => *v,
            None => 0,
        };
        let cnt: i32 = match regs_out.get(&(base + 2)) {
            Some(v) => *v,
            None => 0,
        };
        if !(en == 0 || adr <= 0 || cnt <= 0 || cnt > max_words) {
            out.push(PreCmd { addr_human: adr, cnt_words: cnt });
        }
        k = k + 1;
    }
    if max_k <= 0 {
        assert(out@ == pre_cmds_spec(regs_out@, max_k as int, max_words));
    }
    out
}

} // verus!
