//! Frames on RS-232: Carrier Micro-Link, Thermo King and Modbus RTU.

use crate::protocol::Message;
use crate::sensor::rs485::{
    carries,
    compute_modbus_crc,
    modbus_body,
    modbus_crc,
    modbus_frame,
    modbus_roundtrip,
    modbus_shaped,
    modbus_sound,
    parse_modbus_rtu,
    sensor_message,
};
use crate::text::text2;
use crate::wire::{be_bytes, be_value, copy_range, lemma_be_value_of_bytes, lemma_pow256, read_u16};
use vstd::prelude::*;
use vstd::slice::slice_subrange;
use vstd::string::StringExecFns;

verus! {

#[derive(Debug)]
pub enum Rs232Error {
    SerialInit(String),
    SerialRead(String),
    InvalidFrame,
    CrcMismatch,
}

impl Rs232Error {
    /// The error in words.
    pub fn message(&self) -> (r: String)
        ensures
            r@ == match self {
                Rs232Error::SerialInit(s) => "Serial init failed: "@ + s@,
                Rs232Error::SerialRead(s) => "Serial read failed: "@ + s@,
                Rs232Error::InvalidFrame => "Invalid frame format"@,
                Rs232Error::CrcMismatch => "CRC mismatch"@,
            },
    {
        match self {
            Rs232Error::SerialInit(s) => text2("Serial init failed: ", s.as_str()),
            Rs232Error::SerialRead(s) => text2("Serial read failed: ", s.as_str()),
            Rs232Error::InvalidFrame => String::from_str("Invalid frame format"),
            Rs232Error::CrcMismatch => String::from_str("CRC mismatch"),
        }
    }
}

/// The length field of a Carrier Micro-Link frame.
pub open spec fn carrier_length(s: Seq<u8>) -> int {
    be_value(s.subrange(2, 4)) as int
}

/// Whether a byte string starts with a Carrier Micro-Link frame:
/// `['C']['M'][length (2)][type (1)][payload (length)][CRC-16 (2)]`.
pub open spec fn carrier_shaped(s: Seq<u8>) -> bool {
    s.len() >= 5 && s[0] == 0x43 && s[1] == 0x4D && s.len() >= 7 + carrier_length(s)
}

/// Whether the checksum of a Carrier Micro-Link frame is right. It covers all that
/// stands before it, and its high byte comes first.
pub open spec fn carrier_sound(s: Seq<u8>) -> bool {
    let n = carrier_length(s);
    be_value(s.subrange(5 + n, 7 + n)) == modbus_crc(s.subrange(0, 5 + n))
}

/// Type and payload of a Carrier Micro-Link frame.
pub open spec fn carrier_body(s: Seq<u8>) -> Seq<u8> {
    s.subrange(4, 5 + carrier_length(s))
}

/// The message in a Carrier Micro-Link frame: type and payload.
pub fn parse_carrier_micro_link(data: &[u8]) -> (r: Result<Message, Rs232Error>)
    ensures
        match r {
            Ok(m) => carrier_shaped(data@) && carrier_sound(data@) && carries(
                m,
                carrier_body(data@),
            ),
            Err(e) => if carrier_shaped(data@) {
                !carrier_sound(data@) && e is CrcMismatch
            } else {
                e is InvalidFrame
            },
        },
{
    if data.len() < 5 {
        return Err(Rs232Error::InvalidFrame);
    }
    if data[0] != 0x43 || data[1] != 0x4D {
        return Err(Rs232Error::InvalidFrame);
    }
    let length: usize = read_u16(data, 2) as usize;
    if data.len() < 7 + length {
        return Err(Rs232Error::InvalidFrame);
    }
    let crc: u16 = read_u16(data, 5 + length);
    if compute_modbus_crc(slice_subrange(data, 0, 5 + length)) != crc {
        return Err(Rs232Error::CrcMismatch);
    }
    Ok(sensor_message(copy_range(data, 4, 5 + length)))
}

/// Whether a byte string has the shape of a Thermo King frame:
/// `[0x02][address (1)][command (1)][data][0x03][checksum (1)]`.
pub open spec fn thermo_shaped(s: Seq<u8>) -> bool {
    s.len() >= 5 && s[0] == 2 && s[s.len() - 2] == 3
}

/// The bytes of a string, combined by exclusive or.
pub open spec fn xor_of(s: Seq<u8>) -> u8
    decreases s.len(),
{
    if s.len() == 0 {
        0
    } else {
        xor_of(s.drop_last()) ^ s.last()
    }
}

/// Whether the checksum of a Thermo King frame is right. It covers all that stands
/// before it but the first byte.
pub open spec fn thermo_sound(s: Seq<u8>) -> bool {
    s.last() == xor_of(s.subrange(1, s.len() - 1))
}

/// Address, command and data of a Thermo King frame.
pub open spec fn thermo_body(s: Seq<u8>) -> Seq<u8> {
    s.subrange(1, s.len() - 2)
}

fn xor_between(data: &[u8], from: usize, to: usize) -> (r: u8)
    requires
        from <= to <= data@.len(),
    ensures
        r == xor_of(data@.subrange(from as int, to as int)),
{
    let mut x: u8 = 0;
    let mut i: usize = from;
    assert(data@.subrange(from as int, from as int) =~= Seq::empty());
    while i < to
        invariant
            from <= i <= to <= data@.len(),
            x == xor_of(data@.subrange(from as int, i as int)),
        decreases to - i,
    {
        assert(data@.subrange(from as int, i + 1).drop_last() =~= data@.subrange(
            from as int,
            i as int,
        ));
        x = x ^ data[i];
        i = i + 1;
    }
    x
}

/// The message in a Thermo King frame: address, command and data.
pub fn parse_thermo_king(data: &[u8]) -> (r: Result<Message, Rs232Error>)
    ensures
        match r {
            Ok(m) => thermo_shaped(data@) && thermo_sound(data@) && carries(
                m,
                thermo_body(data@),
            ),
            Err(e) => if thermo_shaped(data@) {
                !thermo_sound(data@) && e is CrcMismatch
            } else {
                e is InvalidFrame
            },
        },
{
    if data.len() < 5 {
        return Err(Rs232Error::InvalidFrame);
    }
    let n: usize = data.len();
    if data[0] != 2 || data[n - 2] != 3 {
        return Err(Rs232Error::InvalidFrame);
    }
    if xor_between(data, 1, n - 1) != data[n - 1] {
        return Err(Rs232Error::CrcMismatch);
    }
    Ok(sensor_message(copy_range(data, 1, n - 2)))
}

/// What a frame on the line carries: it is tried as a Carrier Micro-Link frame,
/// then as one of Thermo King, then as Modbus RTU.
pub open spec fn frame_body(s: Seq<u8>) -> Option<Seq<u8>> {
    if carrier_shaped(s) && carrier_sound(s) {
        Some(carrier_body(s))
    } else if thermo_shaped(s) && thermo_sound(s) {
        Some(thermo_body(s))
    } else if modbus_shaped(s) && modbus_sound(s) {
        Some(modbus_body(s))
    } else {
        None
    }
}

/// The message in a frame on the line, if it is of a known kind.
pub fn parse_frame(data: &[u8]) -> (r: Option<Message>)
    ensures
        match r {
            Some(m) => frame_body(data@) is Some && carries(m, frame_body(data@)->0),
            None => frame_body(data@) is None,
        },
{
    if let Ok(m) = parse_carrier_micro_link(data) {
        return Some(m);
    }
    if let Ok(m) = parse_thermo_king(data) {
        return Some(m);
    }
    match parse_modbus_rtu(data) {
        Ok(m) => Some(m),
        Err(_) => None,
    }
}

/// A Carrier Micro-Link frame with the given type and payload.
pub open spec fn carrier_frame(kind: u8, payload: Seq<u8>) -> Seq<u8> {
    let head = seq![0x43u8, 0x4Du8] + be_bytes(payload.len(), 2) + seq![kind] + payload;
    head + be_bytes(modbus_crc(head) as nat, 2)
}

/// Type and payload of a Carrier Micro-Link frame are read as they were written,
/// whatever stands behind the frame.
pub proof fn carrier_is_read(kind: u8, payload: Seq<u8>, rest: Seq<u8>)
    requires
        payload.len() <= u16::MAX,
    ensures
        frame_body(carrier_frame(kind, payload) + rest) == Some(seq![kind] + payload),
{
    let head = seq![0x43u8, 0x4Du8] + be_bytes(payload.len(), 2) + seq![kind] + payload;
    let s = carrier_frame(kind, payload) + rest;
    let n = payload.len() as int;
    lemma_pow256();
    lemma_be_value_of_bytes(payload.len(), 2);
    lemma_be_value_of_bytes(modbus_crc(head) as nat, 2);
    assert(s.subrange(2, 4) =~= be_bytes(payload.len(), 2));
    assert(s.subrange(0, 5 + n) =~= head);
    assert(s.subrange(5 + n, 7 + n) =~= be_bytes(modbus_crc(head) as nat, 2));
    assert(s.subrange(4, 5 + n) =~= seq![kind] + payload);
}

/// A Thermo King frame is read as it was written: what stands between the first byte and
/// the one that ends the data.
pub proof fn thermo_is_read(body: Seq<u8>)
    requires
        body.len() >= 2,
    ensures
        ({
            let covered = body + seq![3u8];
            let s = seq![2u8] + covered + seq![xor_of(covered)];
            frame_body(s) == Some(body)
        }),
{
    let covered = body + seq![3u8];
    let s = seq![2u8] + covered + seq![xor_of(covered)];
    assert(s.subrange(1, s.len() - 1) =~= covered);
    assert(s.subrange(1, s.len() - 2) =~= body);
    assert(s[0] == 2);
    assert(s[s.len() - 2] == 3);
}

/// Every byte counts for the checksum of a Thermo King frame.
pub proof fn one_byte_changes_the_checksum(s: Seq<u8>, a: u8, b: u8, t: Seq<u8>)
    requires
        a != b,
    ensures
        xor_of(Seq::empty()) == 0,
        xor_of(s.push(a)) == xor_of(s) ^ a,
        xor_of(s + seq![a] + t) != xor_of(s + seq![b] + t),
    decreases t.len(),
{
    let x = s + seq![a] + t;
    let y = s + seq![b] + t;
    assert(s.push(a).drop_last() =~= s);
    if t.len() == 0 {
        assert(x.drop_last() =~= s);
        assert(y.drop_last() =~= s);
        let c = xor_of(s);
        assert(a != b ==> c ^ a != c ^ b) by (bit_vector);
    } else {
        let r = t.drop_last();
        one_byte_changes_the_checksum(s, a, b, r);
        assert(x.drop_last() =~= s + seq![a] + r);
        assert(y.drop_last() =~= s + seq![b] + r);
        let c = xor_of(x.drop_last());
        let d = xor_of(y.drop_last());
        let l = t.last();
        assert(c != d ==> c ^ l != d ^ l) by (bit_vector);
    }
}

/// A Modbus frame whose first byte starts neither of the other kinds is read as one.
pub proof fn modbus_is_read(addr: u8, func: u8, data: Seq<u8>)
    requires
        addr != 2,
        addr != 0x43,
    ensures
        frame_body(modbus_frame(addr, func, data)) == Some(seq![addr, func] + data),
{
    let s = modbus_frame(addr, func, data);
    modbus_roundtrip(addr, func, data);
    assert(s[0] == addr);
}

} // verus!
