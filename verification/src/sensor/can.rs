//! Frames on a CAN bus: J1939, CANopen and others.

use crate::protocol::Message;
use crate::sensor::rs485::{carries, sensor_message};
use crate::text::text2;
use crate::wire::{be_bytes, be_value, lemma_be_value_of_bytes, lemma_pow256, push_be, push_bytes};
use vstd::prelude::*;

verus! {

#[derive(Debug)]
pub enum CanError {
    SocketOpen(String),
    SocketConfig(String),
    SocketRead(String),
    SocketWrite(String),
    FrameBuild(String),
}

impl CanError {
    /// The error in words.
    pub fn message(&self) -> (r: String)
        ensures
            r@ == match self {
                CanError::SocketOpen(s) => "Socket open failed: "@ + s@,
                CanError::SocketConfig(s) => "Socket config failed: "@ + s@,
                CanError::SocketRead(s) => "Socket read failed: "@ + s@,
                CanError::SocketWrite(s) => "Socket write failed: "@ + s@,
                CanError::FrameBuild(s) => "Frame build failed: "@ + s@,
            },
    {
        match self {
            CanError::SocketOpen(s) => text2("Socket open failed: ", s.as_str()),
            CanError::SocketConfig(s) => text2("Socket config failed: ", s.as_str()),
            CanError::SocketRead(s) => text2("Socket read failed: ", s.as_str()),
            CanError::SocketWrite(s) => text2("Socket write failed: ", s.as_str()),
            CanError::FrameBuild(s) => text2("Frame build failed: ", s.as_str()),
        }
    }
}

/// The priority in a J1939 identifier.
pub open spec fn j1939_priority(can_id: u32) -> nat {
    (can_id / 0x400_0000) as nat % 8
}

/// The parameter group number in a J1939 identifier.
pub open spec fn j1939_pgn(can_id: u32) -> nat {
    (can_id / 0x100) as nat % 0x4_0000
}

/// The source address in a J1939 identifier.
pub open spec fn j1939_source(can_id: u32) -> nat {
    can_id as nat % 0x100
}

/// A J1939 frame as sensor data: priority (4), parameter group (4), source (1) and
/// the frame's bytes.
pub open spec fn j1939_data(can_id: u32, data: Seq<u8>) -> Seq<u8> {
    be_bytes(j1939_priority(can_id), 4) + be_bytes(j1939_pgn(can_id), 4) + seq![
        j1939_source(can_id) as u8,
    ] + data
}

/// A J1939 frame as a message.
pub fn parse_j1939(can_id: u32, data: &[u8]) -> (r: Message)
    ensures
        carries(r, j1939_data(can_id, data@)),
{
    let priority: u32 = (can_id / 0x400_0000) % 8;
    let pgn: u32 = (can_id / 0x100) % 0x4_0000;
    let source: u8 = (can_id % 0x100) as u8;
    let mut out: Vec<u8> = Vec::new();
    push_be(&mut out, priority as u64, 4);
    push_be(&mut out, pgn as u64, 4);
    out.push(source);
    push_bytes(&mut out, data);
    assert(out@ =~= j1939_data(can_id, data@));
    sensor_message(out)
}

/// The function code in a CANopen identifier.
pub open spec fn canopen_function(can_id: u32) -> nat {
    (can_id / 0x80) as nat % 0x10
}

/// The node in a CANopen identifier.
pub open spec fn canopen_node(can_id: u32) -> nat {
    can_id as nat % 0x80
}

/// A CANopen frame as sensor data: function (1), node (1) and the frame's bytes.
pub open spec fn canopen_data(can_id: u32, data: Seq<u8>) -> Seq<u8> {
    seq![canopen_function(can_id) as u8, canopen_node(can_id) as u8] + data
}

/// A CANopen frame as a message.
pub fn parse_canopen(can_id: u32, data: &[u8]) -> (r: Message)
    ensures
        carries(r, canopen_data(can_id, data@)),
{
    let mut out: Vec<u8> = Vec::new();
    out.push(((can_id / 0x80) % 0x10) as u8);
    out.push((can_id % 0x80) as u8);
    push_bytes(&mut out, data);
    assert(out@ =~= canopen_data(can_id, data@));
    sensor_message(out)
}

/// A frame of any kind as sensor data: identifier (4) and the frame's bytes.
pub open spec fn raw_data(can_id: u32, data: Seq<u8>) -> Seq<u8> {
    be_bytes(can_id as nat, 4) + data
}

/// A frame of any kind as a message.
pub fn parse_raw(can_id: u32, data: &[u8]) -> (r: Message)
    ensures
        carries(r, raw_data(can_id, data@)),
{
    let mut out: Vec<u8> = Vec::new();
    push_be(&mut out, can_id as u64, 4);
    push_bytes(&mut out, data);
    assert(out@ =~= raw_data(can_id, data@));
    sensor_message(out)
}

/// The parts of a J1939 identifier of 29 bits make it up.
pub proof fn j1939_parts(can_id: u32)
    requires
        can_id < 0x2000_0000,
    ensures
        can_id == j1939_priority(can_id) * 0x400_0000 + j1939_pgn(can_id) * 0x100 + j1939_source(
            can_id,
        ),
{
    assert(can_id as nat / 0x400_0000 == (can_id as nat / 0x100) / 0x4_0000);
}

/// The parts of a CANopen identifier of 11 bits make it up.
pub proof fn canopen_parts(can_id: u32)
    requires
        can_id < 0x800,
    ensures
        can_id == canopen_function(can_id) * 0x80 + canopen_node(can_id),
{
}

/// The data of a frame are kept whole behind what its identifier says.
pub proof fn frames_are_kept_whole(can_id: u32, data: Seq<u8>)
    ensures
        ({
            let j = j1939_data(can_id, data);
            &&& j.len() == 9 + data.len()
            &&& be_value(j.subrange(0, 4)) == (can_id / 0x400_0000) % 8
            &&& be_value(j.subrange(4, 8)) == (can_id / 0x100) % 0x4_0000
            &&& j[8] == can_id % 0x100
            &&& j.skip(9) == data
        }),
        ({
            let c = canopen_data(can_id, data);
            &&& c.len() == 2 + data.len()
            &&& c[0] == (can_id / 0x80) % 0x10
            &&& c[1] == can_id % 0x80
            &&& c.skip(2) == data
        }),
        ({
            let r = raw_data(can_id, data);
            &&& r.len() == 4 + data.len()
            &&& be_value(r.subrange(0, 4)) == can_id
            &&& r.skip(4) == data
        }),
{
    lemma_pow256();
    lemma_be_value_of_bytes(j1939_priority(can_id), 4);
    lemma_be_value_of_bytes(j1939_pgn(can_id), 4);
    lemma_be_value_of_bytes(can_id as nat, 4);
    let j = j1939_data(can_id, data);
    assert(j.subrange(0, 4) =~= be_bytes(j1939_priority(can_id), 4));
    assert(j.subrange(4, 8) =~= be_bytes(j1939_pgn(can_id), 4));
    assert(j.skip(9) =~= data);
    assert(canopen_data(can_id, data).skip(2) =~= data);
    let r = raw_data(can_id, data);
    assert(r.subrange(0, 4) =~= be_bytes(can_id as nat, 4));
    assert(r.skip(4) =~= data);
}

} // verus!
