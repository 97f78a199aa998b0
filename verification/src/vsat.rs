//! VSAT IP packets, compressed for cellular transmission.
//!
//! A packet is `[id (4)][source (4)][destination (4)][payload]`; on the air it
//! is one zstd frame.

use bytes::Bytes;
use crate::compress::{zstd_decode, zstd_decoded, zstd_encode, zstd_encoded};
use crate::payload::{bytes_as_slice, bytes_content, bytes_copy_from_slice};
use crate::wire::{
    be_bytes,
    be_value,
    lemma_be_value_of_bytes,
    lemma_pow256,
    push_be,
    push_bytes,
    read_u32,
};
use vstd::prelude::*;
use vstd::slice::slice_subrange;

verus! {

/// The compression level of encoded packets.
pub const VSAT_LEVEL: i32 = 3;

#[derive(Debug)]
pub struct VSATMessage {
    pub packet_id: u32,
    pub source_ip: [u8; 4],
    pub dest_ip: [u8; 4],
    pub payload: Bytes,
}

/// The bytes of a packet before compression.
pub open spec fn vsat_packet(packet_id: u32, source_ip: Seq<u8>, dest_ip: Seq<u8>, payload: Seq<u8>) -> Seq<
    u8,
> {
    be_bytes(packet_id as nat, 4) + source_ip + dest_ip + payload
}

/// Whether a message says what a decompressed packet says.
pub open spec fn says(m: VSATMessage, data: Seq<u8>) -> bool {
    &&& m.packet_id == be_value(data.subrange(0, 4))
    &&& m.source_ip@ == data.subrange(4, 8)
    &&& m.dest_ip@ == data.subrange(8, 12)
    &&& bytes_content(m.payload) == data.skip(12)
}

impl Clone for VSATMessage {
    fn clone(&self) -> (r: Self)
        ensures
            r.packet() == self.packet(),
    {
        VSATMessage {
            packet_id: self.packet_id,
            source_ip: self.source_ip,
            dest_ip: self.dest_ip,
            payload: self.payload.clone(),
        }
    }
}

impl VSATMessage {
    /// The bytes of this packet before compression.
    pub open spec fn packet(&self) -> Seq<u8> {
        vsat_packet(
            self.packet_id,
            self.source_ip@,
            self.dest_ip@,
            bytes_content(self.payload),
        )
    }

    /// Reads a decompressed packet. `None` if it is shorter than 16 bytes.
    pub fn parse(data: &[u8]) -> (r: Option<Self>)
        ensures
            r is Some <==> data@.len() >= 16,
            r matches Some(m) ==> {
                &&& says(m, data@)
                &&& m.packet_id == be_value(data@.subrange(0, 4))
                &&& m.source_ip@ == data@.subrange(4, 8)
                &&& m.dest_ip@ == data@.subrange(8, 12)
                &&& bytes_content(m.payload) == data@.skip(12)
            },
    {
        if data.len() < 16 {
            return None;
        }
        let packet_id: u32 = read_u32(data, 0);
        let source_ip: [u8; 4] = [data[4], data[5], data[6], data[7]];
        let dest_ip: [u8; 4] = [data[8], data[9], data[10], data[11]];
        let payload = bytes_copy_from_slice(slice_subrange(data, 12, data.len()));
        assert(source_ip@ =~= data@.subrange(4, 8));
        assert(dest_ip@ =~= data@.subrange(8, 12));
        Some(VSATMessage { packet_id, source_ip, dest_ip, payload })
    }

    /// The packet as it goes on the air: compressed, or as it is where the
    /// compressor fails. Decompressing a compressed packet gives it back.
    pub fn encode(&self) -> (r: Vec<u8>)
        ensures
            match zstd_encoded(self.packet(), VSAT_LEVEL) {
                Some(c) => r@ == c && zstd_decoded(r@) == Some(self.packet()),
                None => r@ == self.packet(),
            },
    {
        let mut buffer: Vec<u8> = Vec::new();
        push_be(&mut buffer, self.packet_id as u64, 4);
        push_bytes(&mut buffer, self.source_ip.as_slice());
        push_bytes(&mut buffer, self.dest_ip.as_slice());
        push_bytes(&mut buffer, bytes_as_slice(&self.payload));
        assert(buffer@ =~= self.packet());
        match zstd_encode(buffer.as_slice(), VSAT_LEVEL) {
            Some(c) => c,
            None => buffer,
        }
    }

    /// What a received packet holds once decompressed.
    pub fn decompress(compressed_data: &[u8]) -> (r: Option<Vec<u8>>)
        ensures
            r is Some <==> zstd_decoded(compressed_data@) is Some,
            r matches Some(v) ==> zstd_decoded(compressed_data@) == Some(v@),
    {
        zstd_decode(compressed_data)
    }
}

/// Reading a packet gives back the fields it was made of, where it has at least
/// the four payload bytes that a packet needs.
pub proof fn vsat_roundtrip(packet_id: u32, source_ip: Seq<u8>, dest_ip: Seq<u8>, payload: Seq<u8>)
    requires
        source_ip.len() == 4,
        dest_ip.len() == 4,
        payload.len() >= 4,
    ensures
        vsat_packet(packet_id, source_ip, dest_ip, payload).len() >= 16,
        be_value(vsat_packet(packet_id, source_ip, dest_ip, payload).subrange(0, 4)) == packet_id,
        vsat_packet(packet_id, source_ip, dest_ip, payload).subrange(4, 8) == source_ip,
        vsat_packet(packet_id, source_ip, dest_ip, payload).subrange(8, 12) == dest_ip,
        vsat_packet(packet_id, source_ip, dest_ip, payload).skip(12) == payload,
{
    let p = vsat_packet(packet_id, source_ip, dest_ip, payload);
    lemma_pow256();
    lemma_be_value_of_bytes(packet_id as nat, 4);
    assert(p.subrange(0, 4) =~= be_bytes(packet_id as nat, 4));
    assert(p.subrange(4, 8) =~= source_ip);
    assert(p.subrange(8, 12) =~= dest_ip);
    assert(p.skip(12) =~= payload);
}

/// What is read from a packet is its id, the two addresses, each from its own place, and
/// all that comes behind them.
pub proof fn packets_are_kept(
    m: VSATMessage,
    packet_id: u32,
    source_ip: Seq<u8>,
    dest_ip: Seq<u8>,
    payload: Seq<u8>,
)
    requires
        source_ip.len() == 4,
        dest_ip.len() == 4,
        payload.len() >= 4,
        says(m, be_bytes(packet_id as nat, 4) + source_ip + dest_ip + payload),
    ensures
        m.packet_id == packet_id,
        m.source_ip@ == source_ip,
        m.dest_ip@ == dest_ip,
        bytes_content(m.payload) == payload,
        m.packet() == be_bytes(packet_id as nat, 4) + source_ip + dest_ip + payload,
{
    vsat_roundtrip(packet_id, source_ip, dest_ip, payload);
}

} // verus!
