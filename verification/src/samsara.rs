//! Samsara fleet messages.
//!
//! A message is `[version (1)][id length (2)][device id][timestamp (8)]`
//! `[latitude (8)][longitude (8)][payload length (4)][payload]`. Coordinates are
//! IEEE 754 doubles; they are held here as the 64 bit words that encode them.

use bytes::Bytes;
use crate::payload::{bytes_as_slice, bytes_content, bytes_copy_from_slice};
use crate::text::text_from_bytes;
use crate::wire::{
    be_bytes,
    be_value,
    copy_range,
    lemma_be_value_of_bytes,
    lemma_pow256,
    push_be,
    push_bytes,
    read_u16,
    read_u32,
    read_u64,
};
use vstd::prelude::*;
use vstd::slice::slice_subrange;
use vstd::utf8::{
    decode_utf8,
    encode_utf8,
    encode_utf8_decode_utf8,
    encode_utf8_valid_utf8,
    valid_utf8,
};

verus! {

#[derive(Debug)]
pub struct SamsaraMessage {
    pub device_id: String,
    pub timestamp: u64,
    /// The IEEE 754 encoding of the latitude.
    pub latitude_bits: u64,
    /// The IEEE 754 encoding of the longitude.
    pub longitude_bits: u64,
    pub payload: Bytes,
}

/// What a message says, apart from how its text and bytes are held.
#[verifier::ext_equal]
pub struct SamsaraView {
    pub device_id: Seq<char>,
    pub timestamp: u64,
    pub latitude_bits: u64,
    pub longitude_bits: u64,
    pub payload: Seq<u8>,
}

impl View for SamsaraMessage {
    type V = SamsaraView;

    open spec fn view(&self) -> SamsaraView {
        SamsaraView {
            device_id: self.device_id@,
            timestamp: self.timestamp,
            latitude_bits: self.latitude_bits,
            longitude_bits: self.longitude_bits,
            payload: bytes_content(self.payload),
        }
    }
}

/// The length of the device id that a message announces.
pub open spec fn id_length(data: Seq<u8>) -> int {
    be_value(data.subrange(1, 3)) as int
}

/// The length of the payload that a message announces.
pub open spec fn payload_length(data: Seq<u8>) -> int {
    let n = id_length(data);
    be_value(data.subrange(n + 27, n + 31)) as int
}

/// The bytes of the device id.
pub open spec fn id_field(data: Seq<u8>) -> Seq<u8> {
    data.subrange(3, 3 + id_length(data))
}

/// Whether a byte string starts with a message.
pub open spec fn parses(data: Seq<u8>) -> bool {
    &&& data.len() >= 31
    &&& data[0] == 1
    &&& data.len() >= 31 + id_length(data)
    &&& data.len() >= 31 + id_length(data) + payload_length(data)
    &&& valid_utf8(id_field(data))
}

/// The message at the start of a byte string.
pub open spec fn content_of(data: Seq<u8>) -> SamsaraView {
    let n = id_length(data);
    SamsaraView {
        device_id: decode_utf8(id_field(data)),
        timestamp: be_value(data.subrange(n + 3, n + 11)) as u64,
        latitude_bits: be_value(data.subrange(n + 11, n + 19)) as u64,
        longitude_bits: be_value(data.subrange(n + 19, n + 27)) as u64,
        payload: data.subrange(n + 31, n + 31 + payload_length(data)),
    }
}

/// The bytes of a message. Lengths that do not fit their fields lose their high
/// order bytes.
pub open spec fn samsara_frame(m: SamsaraView) -> Seq<u8> {
    seq![1u8] + be_bytes(encode_utf8(m.device_id).len(), 2) + encode_utf8(m.device_id) + be_bytes(
        m.timestamp as nat,
        8,
    ) + be_bytes(m.latitude_bits as nat, 8) + be_bytes(m.longitude_bits as nat, 8) + be_bytes(
        m.payload.len(),
        4,
    ) + m.payload
}

impl Clone for SamsaraMessage {
    fn clone(&self) -> (r: Self)
        ensures
            r@ == self@,
    {
        SamsaraMessage {
            device_id: self.device_id.clone(),
            timestamp: self.timestamp,
            latitude_bits: self.latitude_bits,
            longitude_bits: self.longitude_bits,
            payload: self.payload.clone(),
        }
    }
}

impl SamsaraMessage {
    /// Reads the message at the start of `data`. `None` if the version is not 1,
    /// a field is cut short, or the device id is not UTF-8.
    pub fn parse(data: &[u8]) -> (r: Option<Self>)
        ensures
            r is Some <==> parses(data@),
            r matches Some(m) ==> m@ == content_of(data@),
    {
        if data.len() < 31 {
            return None;
        }
        if data[0] != 1 {
            return None;
        }
        let n: usize = read_u16(data, 1) as usize;
        if data.len() - 31 < n {
            return None;
        }
        let device_id = match text_from_bytes(copy_range(data, 3, 3 + n)) {
            Some(id) => id,
            None => {
                return None;
            },
        };
        let timestamp: u64 = read_u64(data, n + 3);
        let latitude_bits: u64 = read_u64(data, n + 11);
        let longitude_bits: u64 = read_u64(data, n + 19);
        let payload_len: usize = read_u32(data, n + 27) as usize;
        let start: usize = n + 31;
        if data.len() - start < payload_len {
            return None;
        }
        let payload = bytes_copy_from_slice(slice_subrange(data, start, start + payload_len));
        Some(SamsaraMessage { device_id, timestamp, latitude_bits, longitude_bits, payload })
    }

    pub fn encode(&self) -> (r: Vec<u8>)
        ensures
            r@ == samsara_frame(self@),
    {
        let mut buffer: Vec<u8> = Vec::new();
        buffer.push(1);
        let id = self.device_id.as_str().as_bytes();
        push_be(&mut buffer, id.len() as u64, 2);
        push_bytes(&mut buffer, id);
        push_be(&mut buffer, self.timestamp, 8);
        push_be(&mut buffer, self.latitude_bits, 8);
        push_be(&mut buffer, self.longitude_bits, 8);
        let payload = bytes_as_slice(&self.payload);
        push_be(&mut buffer, payload.len() as u64, 4);
        push_bytes(&mut buffer, payload);
        assert(buffer@ =~= samsara_frame(self@));
        buffer
    }
}

/// Reading an encoded message gives it back, where its lengths fit their
/// fields.
#[verifier::spinoff_prover]
#[verifier::rlimit(40)]
pub proof fn samsara_roundtrip(m: SamsaraView)
    requires
        encode_utf8(m.device_id).len() <= u16::MAX,
        m.payload.len() <= u32::MAX,
    ensures
        parses(samsara_frame(m)),
        content_of(samsara_frame(m)) == m,
{
    let f = samsara_frame(m);
    let id = encode_utf8(m.device_id);
    let n = id.len() as int;
    lemma_pow256();
    lemma_be_value_of_bytes(id.len(), 2);
    lemma_be_value_of_bytes(m.timestamp as nat, 8);
    lemma_be_value_of_bytes(m.latitude_bits as nat, 8);
    lemma_be_value_of_bytes(m.longitude_bits as nat, 8);
    lemma_be_value_of_bytes(m.payload.len(), 4);
    assert(f.subrange(1, 3) =~= be_bytes(id.len(), 2));
    assert(f.subrange(3, 3 + n) =~= id);
    assert(f.subrange(n + 3, n + 11) =~= be_bytes(m.timestamp as nat, 8));
    assert(f.subrange(n + 11, n + 19) =~= be_bytes(m.latitude_bits as nat, 8));
    assert(f.subrange(n + 19, n + 27) =~= be_bytes(m.longitude_bits as nat, 8));
    assert(f.subrange(n + 27, n + 31) =~= be_bytes(m.payload.len(), 4));
    assert(f.subrange(n + 31, n + 31 + m.payload.len()) =~= m.payload);
    encode_utf8_valid_utf8(m.device_id);
    encode_utf8_decode_utf8(m.device_id);
}

/// A message is the version, the length of the device id, the id, the time, the two
/// coordinates, the length of the payload and the payload, each at its place and nothing
/// between them.
pub proof fn frame_holds_its_fields(m: SamsaraView)
    requires
        encode_utf8(m.device_id).len() <= u16::MAX,
        m.payload.len() <= u32::MAX,
    ensures
        ({
            let f = samsara_frame(m);
            let n = encode_utf8(m.device_id).len() as int;
            &&& f.len() == 31 + n + m.payload.len()
            &&& f[0] == 1
            &&& f[1] * 256 + f[2] == n
            &&& f.subrange(3, 3 + n) == encode_utf8(m.device_id)
            &&& be_value(f.subrange(3 + n, 11 + n)) == m.timestamp
            &&& be_value(f.subrange(11 + n, 19 + n)) == m.latitude_bits
            &&& be_value(f.subrange(19 + n, 27 + n)) == m.longitude_bits
            &&& be_value(f.subrange(27 + n, 31 + n)) == m.payload.len()
            &&& f.skip(31 + n) == m.payload
        }),
{
    let f = samsara_frame(m);
    let id = encode_utf8(m.device_id);
    let n = id.len() as int;
    lemma_pow256();
    lemma_be_value_of_bytes(id.len(), 2);
    lemma_be_value_of_bytes(m.timestamp as nat, 8);
    lemma_be_value_of_bytes(m.latitude_bits as nat, 8);
    lemma_be_value_of_bytes(m.longitude_bits as nat, 8);
    lemma_be_value_of_bytes(m.payload.len(), 4);
    assert(f.subrange(1, 3) =~= be_bytes(id.len(), 2));
    assert(f.subrange(1, 3) =~= seq![f[1], f[2]]);
    crate::wire::most_significant_first(f[1], f[2], 0, 0);
    assert(f.subrange(3, 3 + n) =~= id);
    assert(f.subrange(n + 3, n + 11) =~= be_bytes(m.timestamp as nat, 8));
    assert(f.subrange(n + 11, n + 19) =~= be_bytes(m.latitude_bits as nat, 8));
    assert(f.subrange(n + 19, n + 27) =~= be_bytes(m.longitude_bits as nat, 8));
    assert(f.subrange(n + 27, n + 31) =~= be_bytes(m.payload.len(), 4));
    assert(f.skip(n + 31) =~= m.payload);
}

/// Only a byte string of at least 31 bytes with version 1 is read, and what comes behind
/// a message changes nothing of it.
pub proof fn message_ends_where_it_says(d: Seq<u8>, rest: Seq<u8>)
    requires
        parses(d),
    ensures
        d.len() >= 31,
        d[0] == 1,
        parses(d + rest),
        content_of(d + rest) == content_of(d),
{
    let e = d + rest;
    assert(e.subrange(1, 3) =~= d.subrange(1, 3));
    let n = id_length(d);
    assert(e.subrange(n + 27, n + 31) =~= d.subrange(n + 27, n + 31));
    assert(e.subrange(3, 3 + n) =~= d.subrange(3, 3 + n));
    assert(e.subrange(n + 3, n + 11) =~= d.subrange(n + 3, n + 11));
    assert(e.subrange(n + 11, n + 19) =~= d.subrange(n + 11, n + 19));
    assert(e.subrange(n + 19, n + 27) =~= d.subrange(n + 19, n + 27));
    assert(e.subrange(n + 31, n + 31 + payload_length(d)) =~= d.subrange(
        n + 31,
        n + 31 + payload_length(d),
    ));
}

} // verus!
