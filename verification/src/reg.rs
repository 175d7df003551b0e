//! A register of the `reg` table and its data-type predicates.

use vstd::prelude::*;

verus! {

/// A register as configured: id, address, Modbus table kind (`n_mb`), data
/// type (`tip`), optional bit number, group and write-back flags.
#[derive(Debug)]
pub struct Reg {
    pub id: i32,
    pub name: String,
    pub addr: i32,
    pub n_mb: Option<i32>,
    pub tip: i32,
    pub bits: Option<i32>,
    pub grup: Option<i32>,
    pub a_en: bool,
    pub a_no_write: i32,
}

impl Clone for Reg {
    fn clone(&self) -> (r: Self)
        ensures
            r == *self,
    {
        Reg {
            id: self.id,
            name: self.name.clone(),
            addr: self.addr,
            n_mb: self.n_mb,
            tip: self.tip,
            bits: self.bits,
            grup: self.grup,
            a_en: self.a_en,
            a_no_write: self.a_no_write,
        }
    }
}

impl Reg {
    /// Types 2, 4 and 5 occupy two 16-bit words.
    pub open spec fn is_32_spec(&self) -> bool {
        self.tip == 2 || self.tip == 4 || self.tip == 5
    }

    /// Type 0 with a bit number is a single bit of a word.
    pub open spec fn is_bit_spec(&self) -> bool {
        self.tip == 0 && self.bits is Some
    }

    /// Words the register occupies.
    pub open spec fn width(&self) -> int {
        if self.is_32_spec() { 2 } else { 1 }
    }

    /// Last word address of the register.
    pub open spec fn end_addr(&self) -> int {
        self.addr + self.width() - 1
    }

    /// Whether the register spans two 16-bit words.
    pub fn is_32(&self) -> (r: bool)
        ensures
            r == self.is_32_spec(),
    {
        self.tip == 2 || self.tip == 4 || self.tip == 5
    }

    /// Whether the register is a single bit of a word.
    pub fn is_bit(&self) -> (r: bool)
        ensures
            r == self.is_bit_spec(),
    {
        self.tip == 0 && self.bits.is_some()
    }
}

} // verus!
