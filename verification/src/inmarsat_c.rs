//! Inmarsat C teletype messages.
//!
//! A message is `[magic (4)][number (2)][destination (4)][source (4)][payload]`
//! `[checksum (2)]`, of at most 128 bytes in all; the checksum covers all that
//! precedes it.

use bytes::Bytes;
use crate::digest::crc16_ibm_3740;
use crate::iridium_sbd::crc16_ccitt_of;
use crate::payload::{bytes_as_slice, bytes_content, bytes_copy_from_slice};
use crate::text::{
    decimal_of,
    hex_decode,
    hex_decoded,
    hex_encode,
    hex_of,
    hex_roundtrip,
    hex_roundtrip_text,
    is_lower_hex,
    push_decimal,
};
use crate::wire::{
    be_bytes,
    be_value,
    lemma_be_bytes_len,
    lemma_be_value_of_bytes,
    lemma_pow256,
    most_significant_first,
    push_be,
    push_bytes,
    read_u16,
    read_u32,
};
use vstd::prelude::*;
use vstd::slice::slice_subrange;
use vstd::string::StringExecFns;

verus! {

/// "INM" and a one.
pub const MAGIC_NUMBER: u32 = 0x494E4D01;

/// The longest payload that is sent; the rest of a longer one is cut off.
pub const INMARSAT_MAX_PAYLOAD: usize = 112;

/// Why a byte string is not a message. The two id errors are kept for callers
/// that match on them: four bytes always print as an id.
#[derive(Debug)]
pub enum ParseError {
    InvalidMagicNumber { found: u32, expected: u32 },
    ChecksumMismatch { expected: u16, found: u16 },
    InvalidLength { min: usize, found: usize },
    InvalidDestinationId { value: String },
    InvalidSourceId { value: String },
}

#[derive(Debug)]
pub struct InmarsatCMessage {
    pub message_number: u16,
    /// Eight hexadecimal digits.
    pub destination_id: String,
    /// Eight hexadecimal digits.
    pub source_id: String,
    pub payload: Bytes,
}

/// What a message says, apart from how its text and bytes are held.
#[verifier::ext_equal]
pub struct InmarsatCView {
    pub message_number: u16,
    pub destination_id: Seq<char>,
    pub source_id: Seq<char>,
    pub payload: Seq<u8>,
}

impl View for InmarsatCMessage {
    type V = InmarsatCView;

    open spec fn view(&self) -> InmarsatCView {
        InmarsatCView {
            message_number: self.message_number,
            destination_id: self.destination_id@,
            source_id: self.source_id@,
            payload: bytes_content(self.payload),
        }
    }
}

/// The magic number of a byte string.
pub open spec fn magic_field(data: Seq<u8>) -> nat {
    be_value(data.subrange(0, 4))
}

/// All but the checksum.
pub open spec fn covered(data: Seq<u8>) -> Seq<u8> {
    data.subrange(0, data.len() - 2)
}

/// The checksum at the end of a byte string.
pub open spec fn checksum_field(data: Seq<u8>) -> nat {
    be_value(data.subrange(data.len() - 2, data.len() as int))
}

/// Whether a byte string is a message.
pub open spec fn parses(data: Seq<u8>) -> bool {
    &&& data.len() >= 16
    &&& magic_field(data) == MAGIC_NUMBER
    &&& checksum_field(data) == crc16_ccitt_of(covered(data))
}

/// The message that a byte string holds.
pub open spec fn content_of(data: Seq<u8>) -> InmarsatCView {
    InmarsatCView {
        message_number: be_value(data.subrange(4, 6)) as u16,
        destination_id: hex_of(data.subrange(6, 10)),
        source_id: hex_of(data.subrange(10, 14)),
        payload: data.subrange(14, data.len() - 2),
    }
}

/// The four bytes that an id stands for: its first four where it is
/// hexadecimal, zeros otherwise.
pub open spec fn id_bytes(id: Seq<char>) -> Seq<u8> {
    match hex_decoded(id) {
        Some(b) => b.subrange(0, 4),
        None => Seq::new(4, |i: int| 0u8),
    }
}

/// Whether an id names at least four bytes, or is no hexadecimal at all.
pub open spec fn id_encodes(id: Seq<char>) -> bool {
    hex_decoded(id) matches Some(b) ==> b.len() >= 4
}

/// The bytes of a message before its checksum.
pub open spec fn inmarsat_body(m: InmarsatCView) -> Seq<u8> {
    let n = if m.payload.len() <= INMARSAT_MAX_PAYLOAD {
        m.payload.len() as int
    } else {
        INMARSAT_MAX_PAYLOAD as int
    };
    be_bytes(MAGIC_NUMBER as nat, 4) + be_bytes(m.message_number as nat, 2) + id_bytes(
        m.destination_id,
    ) + id_bytes(m.source_id) + m.payload.subrange(0, n)
}

/// The bytes of a message.
pub open spec fn inmarsat_frame(m: InmarsatCView) -> Seq<u8> {
    inmarsat_body(m) + be_bytes(crc16_ccitt_of(inmarsat_body(m)) as nat, 2)
}

/// The text of an error.
pub open spec fn error_text(e: ParseError) -> Seq<char> {
    match e {
        ParseError::InvalidMagicNumber { found, expected } => "Invalid magic number: found 0x"@
            + hex_of(be_bytes(found as nat, 4)) + ", expected 0x"@ + hex_of(
            be_bytes(expected as nat, 4),
        ),
        ParseError::ChecksumMismatch { expected, found } => "Checksum mismatch: expected 0x"@
            + hex_of(be_bytes(expected as nat, 2)) + ", found 0x"@ + hex_of(
            be_bytes(found as nat, 2),
        ),
        ParseError::InvalidLength { min, found } => "Invalid length: minimum "@ + decimal_of(
            min as nat,
        ) + ", found "@ + decimal_of(found as nat),
        ParseError::InvalidDestinationId { value } => "Invalid destination ID: "@ + value@,
        ParseError::InvalidSourceId { value } => "Invalid source ID: "@ + value@,
    }
}

fn push_hex(out: &mut String, x: u64, n: usize)
    ensures
        final(out)@ == old(out)@ + hex_of(be_bytes(x as nat, n as nat)),
{
    let mut digits: Vec<u8> = Vec::new();
    push_be(&mut digits, x, n);
    assert(digits@ =~= be_bytes(x as nat, n as nat));
    let text = hex_encode(digits.as_slice());
    out.append(text.as_str());
}

impl ParseError {
    /// The error in words.
    pub fn message(&self) -> (r: String)
        ensures
            r@ == error_text(*self),
    {
        match self {
            ParseError::InvalidMagicNumber { found, expected } => {
                let mut out = String::from_str("Invalid magic number: found 0x");
                push_hex(&mut out, *found as u64, 4);
                out.append(", expected 0x");
                push_hex(&mut out, *expected as u64, 4);
                out
            },
            ParseError::ChecksumMismatch { expected, found } => {
                let mut out = String::from_str("Checksum mismatch: expected 0x");
                push_hex(&mut out, *expected as u64, 2);
                out.append(", found 0x");
                push_hex(&mut out, *found as u64, 2);
                out
            },
            ParseError::InvalidLength { min, found } => {
                let mut out = String::from_str("Invalid length: minimum ");
                push_decimal(&mut out, *min as u64);
                out.append(", found ");
                push_decimal(&mut out, *found as u64);
                out
            },
            ParseError::InvalidDestinationId { value } => {
                let mut out = String::from_str("Invalid destination ID: ");
                out.append(value.as_str());
                out
            },
            ParseError::InvalidSourceId { value } => {
                let mut out = String::from_str("Invalid source ID: ");
                out.append(value.as_str());
                out
            },
        }
    }
}

/// The four bytes that an id stands for.
fn encode_id(id: &String) -> (r: Vec<u8>)
    requires
        id_encodes(id@),
    ensures
        r@ == id_bytes(id@),
{
    match hex_decode(id.as_str()) {
        Some(b) => {
            let mut b = b;
            b.truncate(4);
            b
        },
        None => {
            let z: Vec<u8> = vec![0u8, 0u8, 0u8, 0u8];
            assert(z@ =~= id_bytes(id@));
            z
        },
    }
}

impl Clone for InmarsatCMessage {
    fn clone(&self) -> (r: Self)
        ensures
            r@ == self@,
    {
        InmarsatCMessage {
            message_number: self.message_number,
            destination_id: self.destination_id.clone(),
            source_id: self.source_id.clone(),
            payload: self.payload.clone(),
        }
    }
}

impl InmarsatCMessage {
    /// Reads a message: at least 16 bytes that start with the magic number and
    /// end with the right checksum.
    pub fn parse(data: &[u8]) -> (r: Result<Self, ParseError>)
        ensures
            match r {
                Ok(m) => parses(data@) && m@ == content_of(data@),
                Err(ParseError::InvalidLength { min, found }) => data@.len() < 16 && min == 16
                    && found == data@.len(),
                Err(ParseError::InvalidMagicNumber { found, expected }) => {
                    &&& data@.len() >= 16
                    &&& magic_field(data@) != MAGIC_NUMBER
                    &&& found == magic_field(data@)
                    &&& expected == MAGIC_NUMBER
                },
                Err(ParseError::ChecksumMismatch { expected, found }) => {
                    &&& data@.len() >= 16
                    &&& magic_field(data@) == MAGIC_NUMBER
                    &&& checksum_field(data@) != crc16_ccitt_of(covered(data@))
                    &&& expected == crc16_ccitt_of(covered(data@))
                    &&& found == checksum_field(data@)
                },
                Err(_) => false,
            },
    {
        if data.len() < 16 {
            return Err(ParseError::InvalidLength { min: 16, found: data.len() });
        }
        let magic: u32 = read_u32(data, 0);
        if magic != MAGIC_NUMBER {
            return Err(ParseError::InvalidMagicNumber { found: magic, expected: MAGIC_NUMBER });
        }
        let payload_len: usize = data.len() - 2;
        let body = slice_subrange(data, 0, payload_len);
        let computed: u16 = crc16_ibm_3740(body);
        let stored: u16 = read_u16(data, payload_len);
        if computed != stored {
            return Err(ParseError::ChecksumMismatch { expected: computed, found: stored });
        }
        let m = Self::parse_inner(body);
        proof {
            assert(body@.subrange(4, 6) =~= data@.subrange(4, 6));
            assert(body@.subrange(6, 10) =~= data@.subrange(6, 10));
            assert(body@.subrange(10, 14) =~= data@.subrange(10, 14));
            assert(body@.skip(14) =~= data@.subrange(14, data@.len() - 2));
        }
        Ok(m)
    }

    /// The fields of a message whose magic number and checksum were checked.
    fn parse_inner(data: &[u8]) -> (m: Self)
        requires
            data@.len() >= 14,
        ensures
            m@ == (InmarsatCView {
                message_number: be_value(data@.subrange(4, 6)) as u16,
                destination_id: hex_of(data@.subrange(6, 10)),
                source_id: hex_of(data@.subrange(10, 14)),
                payload: data@.skip(14),
            }),
    {
        let message_number: u16 = read_u16(data, 4);
        let destination_id = hex_encode(slice_subrange(data, 6, 10));
        let source_id = hex_encode(slice_subrange(data, 10, 14));
        let payload = bytes_copy_from_slice(slice_subrange(data, 14, data.len()));
        InmarsatCMessage { message_number, destination_id, source_id, payload }
    }

    /// The bytes of this message. A payload of more than 112 bytes is cut off.
    pub fn encode(&self) -> (r: Vec<u8>)
        requires
            id_encodes(self.destination_id@),
            id_encodes(self.source_id@),
        ensures
            r@ == inmarsat_frame(self@),
            16 <= r@.len() <= 128,
    {
        let mut buffer: Vec<u8> = Vec::new();
        push_be(&mut buffer, MAGIC_NUMBER as u64, 4);
        push_be(&mut buffer, self.message_number as u64, 2);
        push_bytes(&mut buffer, encode_id(&self.destination_id).as_slice());
        push_bytes(&mut buffer, encode_id(&self.source_id).as_slice());
        let payload = bytes_as_slice(&self.payload);
        let payload_len: usize = if payload.len() <= INMARSAT_MAX_PAYLOAD {
            payload.len()
        } else {
            INMARSAT_MAX_PAYLOAD
        };
        push_bytes(&mut buffer, slice_subrange(payload, 0, payload_len));
        assert(buffer@ =~= inmarsat_body(self@));
        let checksum: u16 = crc16_ibm_3740(buffer.as_slice());
        push_be(&mut buffer, checksum as u64, 2);
        proof {
            lemma_be_bytes_len(MAGIC_NUMBER as nat, 4);
            lemma_be_bytes_len(self.message_number as nat, 2);
            lemma_be_bytes_len(checksum as nat, 2);
        }
        buffer
    }
}

/// Reading an encoded message gives it back, where its ids are eight lower case
/// hexadecimal digits and its payload is not cut off.
pub proof fn inmarsat_roundtrip(m: InmarsatCView)
    requires
        is_lower_hex(m.destination_id),
        m.destination_id.len() == 8,
        is_lower_hex(m.source_id),
        m.source_id.len() == 8,
        m.payload.len() <= INMARSAT_MAX_PAYLOAD,
    ensures
        id_encodes(m.destination_id),
        id_encodes(m.source_id),
        parses(inmarsat_frame(m)),
        content_of(inmarsat_frame(m)) == m,
{
    let f = inmarsat_frame(m);
    let b = inmarsat_body(m);
    hex_roundtrip_text(m.destination_id);
    hex_roundtrip_text(m.source_id);
    lemma_pow256();
    lemma_be_value_of_bytes(MAGIC_NUMBER as nat, 4);
    lemma_be_value_of_bytes(m.message_number as nat, 2);
    lemma_be_value_of_bytes(crc16_ccitt_of(b) as nat, 2);
    let d = id_bytes(m.destination_id);
    let s = id_bytes(m.source_id);
    assert(d =~= hex_decoded(m.destination_id)->0);
    assert(s =~= hex_decoded(m.source_id)->0);
    assert(f.subrange(0, 4) =~= be_bytes(MAGIC_NUMBER as nat, 4));
    assert(f.subrange(4, 6) =~= be_bytes(m.message_number as nat, 2));
    assert(f.subrange(6, 10) =~= d);
    assert(f.subrange(10, 14) =~= s);
    assert(f.subrange(14, f.len() - 2) =~= m.payload);
    assert(covered(f) =~= b);
    assert(f.subrange(f.len() - 2, f.len() as int) =~= be_bytes(crc16_ccitt_of(b) as nat, 2));
}

/// A message is the four magic bytes, the message number, the two ids, the payload up to
/// its first 112 bytes and the checksum over all of these, and nothing else.
pub proof fn frame_holds_its_fields(m: InmarsatCView)
    requires
        id_encodes(m.destination_id),
        id_encodes(m.source_id),
    ensures
        ({
            let f = inmarsat_frame(m);
            let n = f.len() - 16;
            &&& n == m.payload.len() || (n == 112 && m.payload.len() > 112)
            &&& be_value(f.subrange(0, 4)) == MAGIC_NUMBER
            &&& f[4] * 256 + f[5] == m.message_number
            &&& f.subrange(6, 10) == id_bytes(m.destination_id)
            &&& f.subrange(10, 14) == id_bytes(m.source_id)
            &&& f.subrange(14, 14 + n) == m.payload.subrange(0, n)
            &&& f[14 + n] * 256 + f[15 + n] == crc16_ccitt_of(f.subrange(0, 14 + n))
        }),
{
    let f = inmarsat_frame(m);
    let b = inmarsat_body(m);
    let n = f.len() - 16;
    lemma_pow256();
    lemma_be_value_of_bytes(MAGIC_NUMBER as nat, 4);
    lemma_be_value_of_bytes(m.message_number as nat, 2);
    lemma_be_value_of_bytes(crc16_ccitt_of(b) as nat, 2);
    assert(f.subrange(0, 4) =~= be_bytes(MAGIC_NUMBER as nat, 4));
    assert(f.subrange(4, 6) =~= be_bytes(m.message_number as nat, 2));
    assert(f.subrange(4, 6) =~= seq![f[4], f[5]]);
    most_significant_first(f[4], f[5], f[14 + n], f[15 + n]);
    assert(f.subrange(6, 10) =~= id_bytes(m.destination_id));
    assert(f.subrange(10, 14) =~= id_bytes(m.source_id));
    assert(f.subrange(14, 14 + n) =~= m.payload.subrange(0, n));
    assert(f.subrange(0, 14 + n) =~= b);
    assert(f.subrange(14 + n, 16 + n) =~= be_bytes(crc16_ccitt_of(b) as nat, 2));
    assert(f.subrange(14 + n, 16 + n) =~= seq![f[14 + n], f[15 + n]]);
    most_significant_first(f[14 + n], f[15 + n], 0, 0);
}

/// A byte string is a message exactly where it has at least 16 bytes, starts with the
/// magic number and ends with the checksum of all before it. It then says its bytes 4 and
/// 5, the next two runs of four in hexadecimal digits, and all from there to the checksum.
pub proof fn messages_are_read_whole(d: Seq<u8>)
    requires
        d.len() >= 16,
    ensures
        parses(d) <==> {
            &&& be_value(d.subrange(0, 4)) == MAGIC_NUMBER
            &&& d[d.len() - 2] * 256 + d[d.len() - 1] == crc16_ccitt_of(
                d.subrange(0, d.len() - 2),
            )
        },
        content_of(d).message_number == d[4] * 256 + d[5],
        hex_decoded(content_of(d).destination_id) == Some(d.subrange(6, 10)),
        hex_decoded(content_of(d).source_id) == Some(d.subrange(10, 14)),
        content_of(d).payload.len() == d.len() - 16,
        forall|i: int| 0 <= i < d.len() - 16 ==> content_of(d).payload[i] == d[14 + i],
{
    let n = d.len() as int;
    assert(d.subrange(4, 6) =~= seq![d[4], d[5]]);
    most_significant_first(d[4], d[5], 0, 0);
    assert(d.subrange(n - 2, n) =~= seq![d[n - 2], d[n - 1]]);
    most_significant_first(d[n - 2], d[n - 1], 0, 0);
    hex_roundtrip(d.subrange(6, 10));
    hex_roundtrip(d.subrange(10, 14));
}

} // verus!
