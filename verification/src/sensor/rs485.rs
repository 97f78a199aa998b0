//! Modbus RTU frames on RS-485.
//!
//! A frame is `[address (1)][function (1)][data][CRC-16 (2)]`, with the checksum's
//! low byte first.

use crate::payload::{bytes_content, bytes_from_vec};
use crate::protocol::{Message, Priority, Protocol};
use crate::text::text2;
use crate::wire::{copy_range, push_bytes};
use vstd::prelude::*;
use vstd::slice::slice_subrange;
use vstd::string::StringExecFns;

verus! {

/// Bits of CRC-16 (polynomial 0xA001, least significant bit first).
pub open spec fn modbus_shift(crc: u16, bits: nat) -> u16
    decreases bits,
{
    if bits == 0 {
        crc
    } else {
        let c = modbus_shift(crc, (bits - 1) as nat);
        if c & 1 != 0 {
            (c >> 1) ^ 0xA001
        } else {
            c >> 1
        }
    }
}

/// The CRC-16 of Modbus, with initial value 0xFFFF.
pub open spec fn modbus_crc(data: Seq<u8>) -> u16
    decreases data.len(),
{
    if data.len() == 0 {
        0xFFFF
    } else {
        modbus_shift(modbus_crc(data.drop_last()) ^ (data.last() as u16), 8)
    }
}

/// The CRC-16 of Modbus.
pub fn compute_modbus_crc(data: &[u8]) -> (r: u16)
    ensures
        r == modbus_crc(data@),
{
    let mut crc: u16 = 0xFFFF;
    let mut i: usize = 0;
    assert(data@.subrange(0, 0) =~= Seq::empty());
    while i < data.len()
        invariant
            i <= data@.len(),
            crc == modbus_crc(data@.subrange(0, i as int)),
        decreases data@.len() - i,
    {
        assert(data@.subrange(0, i + 1).drop_last() =~= data@.subrange(0, i as int));
        let ghost start = crc ^ (data@[i as int] as u16);
        crc = crc ^ (data[i] as u16);
        let mut k: u32 = 0;
        while k < 8
            invariant
                k <= 8,
                crc == modbus_shift(start, k as nat),
            decreases 8 - k,
        {
            if crc & 1 != 0 {
                crc = (crc >> 1) ^ 0xA001;
            } else {
                crc = crc >> 1;
            }
            k = k + 1;
        }
        i = i + 1;
    }
    assert(data@.subrange(0, i as int) =~= data@);
    crc
}

/// A 16 bit number, low byte first.
pub open spec fn low_first(x: u16) -> Seq<u8> {
    seq![(x % 256) as u8, (x / 256) as u8]
}

/// Whether a byte string has the shape of a frame.
pub open spec fn modbus_shaped(s: Seq<u8>) -> bool {
    s.len() >= 4
}

/// The frame without its checksum.
pub open spec fn modbus_body(s: Seq<u8>) -> Seq<u8> {
    s.subrange(0, s.len() - 2)
}

/// Whether the checksum of a frame is right.
pub open spec fn modbus_sound(s: Seq<u8>) -> bool {
    s.skip(s.len() - 2) == low_first(modbus_crc(modbus_body(s)))
}

#[derive(Debug)]
pub enum Rs485Error {
    SerialInit(String),
    SerialRead(String),
    SerialWrite(String),
    GpioInit(String),
    InvalidFrame,
    CrcMismatch,
}

impl Rs485Error {
    /// The error in words.
    pub fn message(&self) -> (r: String)
        ensures
            r@ == match self {
                Rs485Error::SerialInit(s) => "Serial init failed: "@ + s@,
                Rs485Error::SerialRead(s) => "Serial read failed: "@ + s@,
                Rs485Error::SerialWrite(s) => "Serial write failed: "@ + s@,
                Rs485Error::GpioInit(s) => "GPIO init failed: "@ + s@,
                Rs485Error::InvalidFrame => "Invalid frame format"@,
                Rs485Error::CrcMismatch => "CRC mismatch"@,
            },
    {
        match self {
            Rs485Error::SerialInit(s) => text2("Serial init failed: ", s.as_str()),
            Rs485Error::SerialRead(s) => text2("Serial read failed: ", s.as_str()),
            Rs485Error::SerialWrite(s) => text2("Serial write failed: ", s.as_str()),
            Rs485Error::GpioInit(s) => text2("GPIO init failed: ", s.as_str()),
            Rs485Error::InvalidFrame => String::from_str("Invalid frame format"),
            Rs485Error::CrcMismatch => String::from_str("CRC mismatch"),
        }
    }
}

/// Whether a message carries sensor data as it is.
pub open spec fn carries(m: Message, data: Seq<u8>) -> bool {
    &&& m.protocol == Protocol::IridiumSBD
    &&& m.priority == Priority::Operational
    &&& bytes_content(m.data) == data
    &&& m.t_event == m.t_system
    &&& m.timestamp == m.t_system
}

/// A message, as of now, that carries sensor data.
pub(crate) fn sensor_message(data: Vec<u8>) -> (r: Message)
    ensures
        carries(r, data@),
{
    Message::new(Protocol::IridiumSBD, bytes_from_vec(data), Priority::Operational)
}

/// Whether a checksum stands at the end of a frame.
fn ends_with(data: &[u8], crc: u16) -> (r: bool)
    requires
        data@.len() >= 2,
    ensures
        r <==> data@.skip(data@.len() - 2) == low_first(crc),
{
    let n: usize = data.len();
    let ghost tail = data@.skip(n - 2);
    let r: bool = data[n - 2] == (crc % 256) as u8 && data[n - 1] == (crc / 256) as u8;
    proof {
        assert(tail.len() == 2 && tail[0] == data@[n - 2] && tail[1] == data@[n - 1]);
        if r {
            assert(tail =~= low_first(crc));
        } else {
            assert(low_first(crc)[0] == (crc % 256) as u8);
            assert(low_first(crc)[1] == (crc / 256) as u8);
        }
    }
    r
}

/// The message in a Modbus RTU frame: address, function and data.
pub fn parse_modbus_rtu(data: &[u8]) -> (r: Result<Message, Rs485Error>)
    ensures
        match r {
            Ok(m) => modbus_shaped(data@) && modbus_sound(data@) && carries(
                m,
                modbus_body(data@),
            ),
            Err(e) => if modbus_shaped(data@) {
                !modbus_sound(data@) && e is CrcMismatch
            } else {
                e is InvalidFrame
            },
        },
{
    if data.len() < 4 {
        return Err(Rs485Error::InvalidFrame);
    }
    let n: usize = data.len();
    let body = slice_subrange(data, 0, n - 2);
    if !ends_with(data, compute_modbus_crc(body)) {
        return Err(Rs485Error::CrcMismatch);
    }
    Ok(sensor_message(copy_range(data, 0, n - 2)))
}

/// The bytes of a Modbus RTU frame.
pub open spec fn modbus_frame(addr: u8, func: u8, data: Seq<u8>) -> Seq<u8> {
    let body = seq![addr, func] + data;
    body + low_first(modbus_crc(body))
}

/// The bytes of a Modbus RTU request.
pub fn modbus_request(addr: u8, func: u8, data: &[u8]) -> (r: Vec<u8>)
    ensures
        r@ == modbus_frame(addr, func, data@),
{
    let mut frame: Vec<u8> = Vec::new();
    frame.push(addr);
    frame.push(func);
    push_bytes(&mut frame, data);
    assert(frame@ =~= seq![addr, func] + data@);
    let crc: u16 = compute_modbus_crc(frame.as_slice());
    frame.push((crc % 256) as u8);
    frame.push((crc / 256) as u8);
    assert(frame@ =~= modbus_frame(addr, func, data@));
    frame
}

/// A request that was built is a sound frame, and what is read from it is what
/// went in.
pub proof fn modbus_roundtrip(addr: u8, func: u8, data: Seq<u8>)
    ensures
        ({
            let s = modbus_frame(addr, func, data);
            &&& modbus_shaped(s)
            &&& modbus_sound(s)
            &&& modbus_body(s) == seq![addr, func] + data
        }),
{
    let s = modbus_frame(addr, func, data);
    let body = seq![addr, func] + data;
    assert(modbus_body(s) =~= body);
    assert(s.skip(s.len() - 2) =~= low_first(modbus_crc(body)));
}

proof fn lemma_bit_is_injective(a: u16, b: u16)
    requires
        a != b,
    ensures
        (if a & 1 != 0 {
            (a >> 1) ^ 0xA001
        } else {
            a >> 1
        }) != (if b & 1 != 0 {
            (b >> 1) ^ 0xA001
        } else {
            b >> 1
        }),
{
    assert(a != b ==> (if a & 1 != 0 {
        (a >> 1) ^ 0xA001
    } else {
        a >> 1
    }) != (if b & 1 != 0 {
        (b >> 1) ^ 0xA001
    } else {
        b >> 1
    })) by (bit_vector);
}

proof fn lemma_shift_is_injective(a: u16, b: u16, bits: nat)
    requires
        a != b,
    ensures
        modbus_shift(a, bits) != modbus_shift(b, bits),
    decreases bits,
{
    if bits > 0 {
        lemma_shift_is_injective(a, b, (bits - 1) as nat);
        lemma_bit_is_injective(
            modbus_shift(a, (bits - 1) as nat),
            modbus_shift(b, (bits - 1) as nat),
        );
    }
}

/// Every byte counts for the checksum: two byte strings that differ in one byte, wherever
/// it stands, have different ones.
pub proof fn one_byte_changes_the_checksum(s: Seq<u8>, a: u8, b: u8, t: Seq<u8>)
    requires
        a != b,
    ensures
        modbus_crc(s + seq![a] + t) != modbus_crc(s + seq![b] + t),
    decreases t.len(),
{
    let x = s + seq![a] + t;
    let y = s + seq![b] + t;
    if t.len() == 0 {
        assert(x.drop_last() =~= s);
        assert(y.drop_last() =~= s);
        let c = modbus_crc(s);
        assert(a != b ==> c ^ (a as u16) != c ^ (b as u16)) by (bit_vector);
        lemma_shift_is_injective(c ^ (a as u16), c ^ (b as u16), 8);
    } else {
        let r = t.drop_last();
        one_byte_changes_the_checksum(s, a, b, r);
        assert(x.drop_last() =~= s + seq![a] + r);
        assert(y.drop_last() =~= s + seq![b] + r);
        let c = modbus_crc(x.drop_last());
        let d = modbus_crc(y.drop_last());
        let l = t.last() as u16;
        assert(c != d ==> c ^ l != d ^ l) by (bit_vector);
        lemma_shift_is_injective(c ^ l, d ^ l, 8);
    }
}

/// A bit is shifted out at a time, and where it is set the polynomial is taken off.
pub proof fn checksum_goes_bit_by_bit(c: u16)
    ensures
        modbus_crc(Seq::empty()) == 0xFFFF,
        c % 2 == 0 ==> modbus_shift(c, 1) == c / 2,
        c % 2 == 1 ==> modbus_shift(c, 1) == (c / 2) ^ 0xA001,
{
    reveal_with_fuel(modbus_shift, 2);
    assert(c & 1 == c % 2 && c >> 1 == c / 2) by (bit_vector);
}

/// A sound frame of which one byte before the checksum is changed is refused.
pub proof fn changed_frames_are_refused(s: Seq<u8>, a: u8, b: u8, t: Seq<u8>, tail: Seq<u8>)
    requires
        a != b,
        tail.len() == 2,
        modbus_sound(s + seq![a] + t + tail),
    ensures
        !modbus_sound(s + seq![b] + t + tail),
{
    let x = s + seq![a] + t;
    let y = s + seq![b] + t;
    assert(modbus_body(x + tail) =~= x);
    assert(modbus_body(y + tail) =~= y);
    assert((x + tail).skip((x + tail).len() - 2) =~= tail);
    assert((y + tail).skip((y + tail).len() - 2) =~= tail);
    one_byte_changes_the_checksum(s, a, b, t);
    let c = modbus_crc(x);
    let d = modbus_crc(y);
    if low_first(c) == low_first(d) {
        assert(low_first(c)[0] == low_first(d)[0]);
        assert(low_first(c)[1] == low_first(d)[1]);
        assert(c % 256 == d % 256 && c / 256 == d / 256);
    }
}

/// Sensor data go on at operational priority, as of one time, with all of their bytes.
pub proof fn sensor_data_are_kept(m: Message, data: Seq<u8>)
    requires
        carries(m, data),
    ensures
        m@.data == data,
        m@.protocol == Protocol::IridiumSBD,
        m@.priority == Priority::Operational,
        m@.timestamp == m@.t_system,
        m@.t_event == m@.t_system,
{
}

} // verus!
