//! Rows of the `kpz` and `obj` tables and the connection data of a КПЗ
//! resolved from them: its object's IP address and UDP port, each given
//! either directly or as the id of a row of the `ip` or `port` table.

use vstd::prelude::*;
use std::collections::HashMap;

use crate::text::{
    dec_int, i64_to_string, parse_i32, parse_i32_spec, parse_u16, parse_u16_spec, trim_spec,
    trim_str, u16_parse_error,
};

verus! {

/// A row of the `kpz` table: one polled device.
#[derive(Clone, Debug)]
pub struct KpzRow {
    pub id: i32,
    pub name: Option<String>,
    pub rtu: i32,
    pub obj: i32,
    pub modem: i32,
    /// Enabled register groups as a 64-byte bit mask.
    pub grups: Vec<u8>,
    pub max_pkt_len: i32,
    pub start: i32,
    pub t_a: i32,
    pub t_script: i32,
    pub en_post: bool,
}

/// A row of the `obj` table: a communication line. `ip` and `port` hold
/// either the value itself or the id of a row of the `ip` / `port` table.
#[derive(Debug)]
pub struct ObjRow {
    pub id: i32,
    pub name: Option<String>,
    pub ip: Option<String>,
    pub port: Option<String>,
    pub kanal: Option<i32>,
    pub speed: Option<i32>,
    pub stop: Option<i32>,
    pub parit: Option<i32>,
    pub bit: Option<i32>,
}

/// Where and how a КПЗ is reached.
#[derive(Debug)]
pub struct ConnInfo {
    pub kpz_id: i32,
    pub obj_id: i32,
    pub ip: String,
    pub port: u16,
    pub rtu: i32,
    pub modem: i32,
    pub max_pkt_len: i32,
}

impl Clone for ConnInfo {
    fn clone(&self) -> (r: Self)
        ensures
            r == *self,
    {
        ConnInfo {
            kpz_id: self.kpz_id,
            obj_id: self.obj_id,
            ip: self.ip.clone(),
            port: self.port,
            rtu: self.rtu,
            modem: self.modem,
            max_pkt_len: self.max_pkt_len,
        }
    }
}

/// A field that is present and not blank.
pub open spec fn non_blank(f: Option<String>) -> Option<Seq<char>> {
    match f {
        Some(s) => if trim_spec(s@).len() > 0 { Some(s@) } else { None },
        None => None,
    }
}

/// The IP address of `obj`: the `ip` row it names when the field reads as
/// an `i32`, else the field itself.
pub open spec fn resolve_ip_spec(obj: ObjRow, ip_by_id: Map<i32, String>) -> Result<Seq<char>, Seq<char>> {
    match non_blank(obj.ip) {
        None => Err("obj.id="@ + dec_int(obj.id as int) + " has empty ip field"@),
        Some(field) => match parse_i32_spec(field) {
            Some(ip_id) => if ip_by_id.contains_key(ip_id) {
                Ok(ip_by_id[ip_id]@)
            } else {
                Err("ip id="@ + dec_int(ip_id as int) + " referenced by obj.id="@ + dec_int(obj.id as int) + " is missing"@)
            },
            None => Ok(field),
        },
    }
}

/// The UDP port of `obj`: the `port` row it names when the field reads as
/// an `i32`, else the field read as a port number.
pub open spec fn resolve_port_spec(obj: ObjRow, port_by_id: Map<i32, u16>) -> Result<u16, Seq<char>> {
    match non_blank(obj.port) {
        None => Err("obj.id="@ + dec_int(obj.id as int) + " has empty port field"@),
        Some(field) => match parse_i32_spec(field) {
            Some(port_id) => if port_by_id.contains_key(port_id) {
                Ok(port_by_id[port_id])
            } else {
                Err("port id="@ + dec_int(port_id as int) + " referenced by obj.id="@ + dec_int(obj.id as int) + " is missing"@)
            },
            None => match parse_u16_spec(field) {
                Some(p) => Ok(p),
                None => Err("invalid port='"@ + field + "' for obj.id="@ + dec_int(obj.id as int) + ": "@ + u16_parse_error(field)),
            },
        },
    }
}

/// What `build_conn` returns: the object's id, the IP address and the
/// port, or the first error met (object, then IP, then port).
pub open spec fn build_conn_spec(
    kpz: KpzRow,
    obj_by_id: Map<i32, ObjRow>,
    ip_by_id: Map<i32, String>,
    port_by_id: Map<i32, u16>,
) -> Result<(i32, Seq<char>, u16), Seq<char>> {
    if !obj_by_id.contains_key(kpz.obj) {
        Err("obj="@ + dec_int(kpz.obj as int) + " not found"@)
    } else {
        let obj = obj_by_id[kpz.obj];
        match resolve_ip_spec(obj, ip_by_id) {
            Err(e) => Err(e),
            Ok(ip) => match resolve_port_spec(obj, port_by_id) {
                Err(e) => Err(e),
                Ok(port) => Ok((obj.id, ip, port)),
            },
        }
    }
}

/// A present field that is not blank, copied.
fn non_blank_field(f: &Option<String>) -> (r: Option<String>)
    ensures
        match r {
            Some(s) => non_blank(*f) == Some(s@),
            None => non_blank(*f) is None,
        },
{
    match f {
        Some(s) => {
            let t = trim_str(s.as_str());
            if t.as_str().unicode_len() > 0 {
                Some(s.clone())
            } else {
                None
            }
        },
        None => None,
    }
}

fn resolve_ip(obj: &ObjRow, ip_by_id: &HashMap<i32, String>) -> (r: Result<String, String>)
    ensures
        match (r, resolve_ip_spec(*obj, ip_by_id@)) {
            (Ok(v), Ok(w)) => v@ == w,
            (Err(e), Err(m)) => e@ == m,
            _ => false,
        },
{
    broadcast use vstd::std_specs::hash::group_hash_axioms;
    let field = match non_blank_field(&obj.ip) {
        Some(f) => f,
        None => {
            let mut e = String::from_str("obj.id=");
            e.append(i64_to_string(obj.id as i64).as_str());
            e.append(" has empty ip field");
            return Err(e);
        },
    };
    match parse_i32(field.as_str()) {
        Some(ip_id) => match ip_by_id.get(&ip_id) {
            Some(ip) => Ok(ip.clone()),
            None => {
                let mut e = String::from_str("ip id=");
                e.append(i64_to_string(ip_id as i64).as_str());
                e.append(" referenced by obj.id=");
                e.append(i64_to_string(obj.id as i64).as_str());
                e.append(" is missing");
                Err(e)
            },
        },
        None => Ok(field),
    }
}

fn resolve_port(obj: &ObjRow, port_by_id: &HashMap<i32, u16>) -> (r: Result<u16, String>)
    ensures
        match (r, resolve_port_spec(*obj, port_by_id@)) {
            (Ok(v), Ok(w)) => v == w,
            (Err(e), Err(m)) => e@ == m,
            _ => false,
        },
{
    broadcast use vstd::std_specs::hash::group_hash_axioms;
    let field = match non_blank_field(&obj.port) {
        Some(f) => f,
        None => {
            let mut e = String::from_str("obj.id=");
            e.append(i64_to_string(obj.id as i64).as_str());
            e.append(" has empty port field");
            return Err(e);
        },
    };
    match parse_i32(field.as_str()) {
        Some(port_id) => match port_by_id.get(&port_id) {
            Some(p) => Ok(*p),
            None => {
                let mut e = String::from_str("port id=");
                e.append(i64_to_string(port_id as i64).as_str());
                e.append(" referenced by obj.id=");
                e.append(i64_to_string(obj.id as i64).as_str());
                e.append(" is missing");
                Err(e)
            },
        },
        None => match parse_u16(field.as_str()) {
            Ok(p) => Ok(p),
            Err(pe) => {
                let mut e = String::from_str("invalid port='");
                e.append(field.as_str());
                e.append("' for obj.id=");
                e.append(i64_to_string(obj.id as i64).as_str());
                e.append(": ");
                e.append(pe.as_str());
                Err(e)
            },
        },
    }
}

/// Resolves where the КПЗ is reached: its object, the object's IP address
/// and port (each direct or through its lookup table); the КПЗ's own id,
/// unit address, modem and packet limit are carried over.
pub fn build_conn(
    kpz: &KpzRow,
    obj_by_id: &HashMap<i32, ObjRow>,
    ip_by_id: &HashMap<i32, String>,
    port_by_id: &HashMap<i32, u16>,
) -> (r: Result<ConnInfo, String>)
    ensures
        match (r, build_conn_spec(*kpz, obj_by_id@, ip_by_id@, port_by_id@)) {
            (Ok(c), Ok((obj_id, ip, port))) => {
                &&& c.kpz_id == kpz.id
                &&& c.obj_id == obj_id
                &&& c.ip@ == ip
                &&& c.port == port
                &&& c.rtu == kpz.rtu
                &&& c.modem == kpz.modem
                &&& c.max_pkt_len == kpz.max_pkt_len
            },
            (Err(e), Err(m)) => e@ == m,
            _ => false,
        },
{
    broadcast use vstd::std_specs::hash::group_hash_axioms;
    let obj = match obj_by_id.get(&kpz.obj) {
        Some(o) => o,
        None => {
            let mut e = String::from_str("obj=");
            e.append(i64_to_string(kpz.obj as i64).as_str());
            e.append(" not found");
            return Err(e);
        },
    };
    let ip = match resolve_ip(obj, ip_by_id) {
        Ok(ip) => ip,
        Err(e) => return Err(e),
    };
    let port = match resolve_port(obj, port_by_id) {
        Ok(p) => p,
        Err(e) => return Err(e),
    };
    Ok(ConnInfo {
        kpz_id: kpz.id,
        obj_id: obj.id,
        ip,
        port,
        rtu: kpz.rtu,
        modem: kpz.modem,
        max_pkt_len: kpz.max_pkt_len,
    })
}

/// Polling context of one КПЗ: its row and its connection data.
#[derive(Debug)]
pub struct PollerContext {
    pub kpz: KpzRow,
    pub conn: ConnInfo,
}

/// The lookup tables by id from which connection data is built.
#[derive(Debug)]
pub struct PollerCache {
    pub kpz_by_id: HashMap<i32, KpzRow>,
    pub obj_by_id: HashMap<i32, ObjRow>,
    pub ip_by_id: HashMap<i32, String>,
    pub port_by_id: HashMap<i32, u16>,
}

impl PollerCache {
    /// Connection data of the КПЗ with id `kpz_id`.
    pub fn build_conn_for_kpz(&self, kpz_id: i32) -> (r: Result<ConnInfo, String>)
        ensures
            !self.kpz_by_id@.contains_key(kpz_id) ==> match r {
                Err(e) => e@ == "kpz="@ + dec_int(kpz_id as int) + " not found"@,
                Ok(_) => false,
            },
            self.kpz_by_id@.contains_key(kpz_id) ==> {
                let kpz = self.kpz_by_id@[kpz_id];
                match (r, build_conn_spec(kpz, self.obj_by_id@, self.ip_by_id@, self.port_by_id@)) {
                    (Ok(c), Ok((obj_id, ip, port))) => {
                        &&& c.kpz_id == kpz.id
                        &&& c.obj_id == obj_id
                        &&& c.ip@ == ip
                        &&& c.port == port
                        &&& c.rtu == kpz.rtu
                        &&& c.modem == kpz.modem
                        &&& c.max_pkt_len == kpz.max_pkt_len
                    },
                    (Err(e), Err(m)) => e@ == m,
                    _ => false,
                }
            },
    {
        broadcast use vstd::std_specs::hash::group_hash_axioms;
        match self.kpz_by_id.get(&kpz_id) {
            Some(kpz) => build_conn(kpz, &self.obj_by_id, &self.ip_by_id, &self.port_by_id),
            None => {
                let mut e = String::from_str("kpz=");
                e.append(i64_to_string(kpz_id as i64).as_str());
                e.append(" not found");
                Err(e)
            },
        }
    }
}

} // verus!
