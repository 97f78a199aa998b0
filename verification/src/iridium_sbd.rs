//! Iridium Short Burst Data packets.
//!
//! A packet is `[protocol (1)][length (2)][payload (length)][checksum (2)]`,
//! with at most 340 payload bytes. Parsing copies into a fixed buffer and
//! allocates nothing.

use crate::wire::{
    be_bytes,
    be_value,
    lemma_be_bytes_len,
    lemma_be_bytes_of_value,
    lemma_be_value_of_bytes,
    lemma_pow256,
    read_u16,
    write_at,
    write_be,
};
use vstd::prelude::*;
use vstd::slice::slice_subrange;

verus! {

/// The largest payload of a packet.
pub const MAX_PAYLOAD: u16 = 340;

#[derive(Debug, Clone, Copy)]
pub struct IridiumSBDHeader {
    pub protocol: u8,
    pub length: u16,
}

#[derive(Debug, Clone, Copy)]
pub struct IridiumSBDMessage {
    pub header: IridiumSBDHeader,
    pub payload: [u8; 340],
    pub payload_len: u16,
    /// 0 where the packet ended before its checksum.
    pub checksum: u16,
}

/// One bit of CRC-16-CCITT (polynomial 0x1021, most significant bit first).
pub open spec fn crc16_shift(crc: u16, bits: nat) -> u16
    decreases bits,
{
    if bits == 0 {
        crc
    } else {
        let c = crc16_shift(crc, (bits - 1) as nat);
        if c & 0x8000 != 0 {
            (c << 1) ^ 0x1021
        } else {
            c << 1
        }
    }
}

/// CRC-16-CCITT of `data`, continued from the register value `start`.
pub open spec fn crc16_from(start: u16, data: Seq<u8>) -> u16
    decreases data.len(),
{
    if data.len() == 0 {
        start
    } else {
        crc16_shift(crc16_from(start, data.drop_last()) ^ ((data.last() as u16) << 8), 8)
    }
}

/// CRC-16-CCITT with initial value 0xFFFF.
pub open spec fn crc16_ccitt_of(data: Seq<u8>) -> u16 {
    crc16_from(0xFFFF, data)
}

/// A checksum may be computed piece by piece.
pub proof fn crc16_of_concat(start: u16, a: Seq<u8>, b: Seq<u8>)
    ensures
        crc16_from(start, a + b) == crc16_from(crc16_from(start, a), b),
    decreases b.len(),
{
    if b.len() == 0 {
        assert(a + b =~= a);
    } else {
        assert((a + b).drop_last() =~= a + b.drop_last());
        crc16_of_concat(start, a, b.drop_last());
    }
}

/// CRC-16-CCITT with initial value 0xFFFF.
pub fn crc16_ccitt(data: &[u8]) -> (r: u16)
    ensures
        r == crc16_ccitt_of(data@),
{
    crc16_continue(0xFFFF, data)
}

fn crc16_continue(start_value: u16, data: &[u8]) -> (r: u16)
    ensures
        r == crc16_from(start_value, data@),
{
    let mut crc: u16 = start_value;
    let mut i: usize = 0;
    assert(data@.subrange(0, 0) =~= Seq::empty());
    while i < data.len()
        invariant
            i <= data@.len(),
            crc == crc16_from(start_value, data@.subrange(0, i as int)),
        decreases data@.len() - i,
    {
        proof {
            let t = data@.subrange(0, i + 1);
            assert(t.drop_last() =~= data@.subrange(0, i as int));
        }
        let start: u16 = crc ^ ((data[i] as u16) << 8);
        crc = start;
        let mut k: usize = 0;
        while k < 8
            invariant
                k <= 8,
                crc == crc16_shift(start, k as nat),
            decreases 8 - k,
        {
            if crc & 0x8000 != 0 {
                crc = (crc << 1) ^ 0x1021;
            } else {
                crc = crc << 1;
            }
            k = k + 1;
        }
        i = i + 1;
    }
    assert(data@.subrange(0, i as int) =~= data@);
    crc
}

/// The length field of a packet of at least 3 bytes.
pub open spec fn length_field(data: Seq<u8>) -> nat {
    be_value(data.subrange(1, 3))
}

/// Whether a byte string starts with a header and the payload that it announces.
pub open spec fn framed(data: Seq<u8>) -> bool {
    &&& data.len() >= 3
    &&& length_field(data) <= MAX_PAYLOAD
    &&& data.len() >= 3 + length_field(data)
}

/// Header and payload.
pub open spec fn covered(data: Seq<u8>) -> Seq<u8> {
    data.subrange(0, 3 + length_field(data) as int)
}

/// The checksum that follows the payload, or 0 where there is none.
pub open spec fn checksum_field(data: Seq<u8>) -> nat {
    let end = 3 + length_field(data) as int;
    if data.len() >= end + 2 {
        be_value(data.subrange(end, end + 2))
    } else {
        0
    }
}

/// Whether a byte string starts with a packet. A packet may leave its checksum out
/// or put 0 in its place; any other checksum must be that of header and payload.
pub open spec fn parses(data: Seq<u8>) -> bool {
    &&& framed(data)
    &&& checksum_field(data) == 0 || checksum_field(data) == crc16_ccitt_of(covered(data))
}

impl IridiumSBDMessage {
    /// The payload fits the buffer.
    pub open spec fn wf(&self) -> bool {
        self.payload_len <= MAX_PAYLOAD
    }

    /// The bytes of the payload.
    pub open spec fn content(&self) -> Seq<u8> {
        self.payload@.subrange(0, self.payload_len as int)
    }

    /// The three header bytes.
    pub open spec fn header_bytes(&self) -> Seq<u8> {
        seq![self.header.protocol] + be_bytes(self.header.length as nat, 2)
    }

    /// Reads the packet at the start of `data`. `None` if `data` is too short
    /// for the payload that it announces, announces more than fits, or holds a
    /// wrong checksum.
    pub fn parse(data: &[u8]) -> (r: Option<Self>)
        ensures
            r is Some <==> parses(data@),
            r matches Some(m) ==> {
                &&& m.wf()
                &&& m.header.protocol == data@[0]
                &&& m.header.length == length_field(data@)
                &&& m.payload_len == m.header.length
                &&& m.content() == data@.subrange(3, 3 + length_field(data@) as int)
                &&& m.payload@ == m.content() + Seq::new(
                    (340 - m.payload_len) as nat,
                    |i: int| 0u8,
                )
                &&& m.checksum == checksum_field(data@)
                &&& m.header_bytes() + m.content() == covered(data@)
            },
    {
        if data.len() < 3 {
            return None;
        }
        let protocol: u8 = data[0];
        let length: u16 = read_u16(data, 1);
        let end: usize = 3 + length as usize;
        if data.len() < end {
            return None;
        }
        if length > MAX_PAYLOAD {
            return None;
        }
        let mut payload = [0u8; 340];
        write_at(&mut payload, 0, slice_subrange(data, 3, end));
        let checksum: u16 = if data.len() - end >= 2 {
            read_u16(data, end)
        } else {
            0
        };
        if checksum != 0 && checksum != crc16_ccitt(slice_subrange(data, 0, end)) {
            return None;
        }
        let m = IridiumSBDMessage {
            header: IridiumSBDHeader { protocol, length },
            payload,
            payload_len: length,
            checksum,
        };
        proof {
            let body = data@.subrange(3, end as int);
            assert(m.content() =~= body);
            assert(m.payload@ =~= m.content() + Seq::new((340 - length) as nat, |i: int| 0u8));
            lemma_be_bytes_of_value(data@.subrange(1, 3));
            assert(m.header_bytes() + m.content() =~= covered(data@));
        }
        Some(m)
    }

    /// Whether the checksum is the CRC-16-CCITT over header and payload.
    pub fn validate_checksum(&self) -> (r: bool)
        requires
            self.wf(),
        ensures
            r <==> self.checksum == crc16_ccitt_of(self.header_bytes() + self.content()),
    {
        self.checksum == self.compute_crc()
    }

    /// CRC-16-CCITT over header and payload.
    pub fn compute_crc(&self) -> (r: u16)
        requires
            self.wf(),
        ensures
            r == crc16_ccitt_of(self.header_bytes() + self.content()),
    {
        let mut header_data = [self.header.protocol, 0, 0];
        write_be(&mut header_data, 1, self.header.length as u64, 2);
        let crc: u16 = crc16_ccitt(header_data.as_slice());
        proof {
            lemma_be_bytes_len(self.header.length as nat, 2);
            assert(header_data@ =~= self.header_bytes());
            crc16_of_concat(0xFFFF, self.header_bytes(), self.content());
        }
        crc16_continue(crc, self.payload_slice())
    }

    pub fn payload_slice(&self) -> (r: &[u8])
        requires
            self.wf(),
        ensures
            r@ == self.content(),
    {
        slice_subrange(self.payload.as_slice(), 0, self.payload_len as usize)
    }

    /// Header, payload and checksum.
    pub fn total_size(&self) -> (r: usize)
        ensures
            r == 3 + self.payload_len + 2,
    {
        3 + self.payload_len as usize + 2
    }
}

/// Header and payload of a packet.
pub open spec fn packet_body(protocol: u8, payload: Seq<u8>) -> Seq<u8> {
    seq![protocol] + be_bytes(payload.len(), 2) + payload
}

/// A packet is read with its own checksum, and with none. With another checksum than
/// its own it is refused, unless that is 0.
pub proof fn checksum_decides(protocol: u8, payload: Seq<u8>, checksum: u16)
    requires
        payload.len() <= MAX_PAYLOAD,
    ensures
        parses(packet_body(protocol, payload)),
        parses(packet_body(protocol, payload) + be_bytes(checksum as nat, 2)) <==> checksum == 0
            || checksum == crc16_ccitt_of(packet_body(protocol, payload)),
{
    let body = packet_body(protocol, payload);
    let data = body + be_bytes(checksum as nat, 2);
    lemma_pow256();
    lemma_be_value_of_bytes(payload.len(), 2);
    lemma_be_value_of_bytes(checksum as nat, 2);
    assert(body.subrange(1, 3) =~= be_bytes(payload.len(), 2));
    assert(data.subrange(1, 3) =~= be_bytes(payload.len(), 2));
    assert(covered(body) =~= body);
    assert(covered(data) =~= body);
    assert(data.subrange(body.len() as int, body.len() as int + 2) =~= be_bytes(checksum as nat, 2));
}

/// Two byte strings that differ in one byte have different checksums, wherever it is and
/// whatever the checksum goes on from.
pub proof fn one_byte_changes_the_checksum(start: u16, s: Seq<u8>, a: u8, b: u8, t: Seq<u8>)
    requires
        a != b,
    ensures
        crc16_from(start, s.push(a) + t) != crc16_from(start, s.push(b) + t),
    decreases t.len(),
{
    if t.len() == 0 {
        assert(s.push(a) + t =~= s.push(a));
        assert(s.push(b) + t =~= s.push(b));
        assert(s.push(a).drop_last() =~= s);
        assert(s.push(b).drop_last() =~= s);
        let c = crc16_from(start, s);
        assert(c ^ ((a as u16) << 8) != c ^ ((b as u16) << 8)) by (bit_vector)
            requires
                a != b,
        ;
        lemma_shift_is_injective(c ^ ((a as u16) << 8), c ^ ((b as u16) << 8), 8);
    } else {
        let u = t.drop_last();
        let x = t.last();
        one_byte_changes_the_checksum(start, s, a, b, u);
        assert((s.push(a) + t).drop_last() =~= s.push(a) + u);
        assert((s.push(b) + t).drop_last() =~= s.push(b) + u);
        let c = crc16_from(start, s.push(a) + u);
        let d = crc16_from(start, s.push(b) + u);
        assert(c ^ ((x as u16) << 8) != d ^ ((x as u16) << 8)) by (bit_vector)
            requires
                c != d,
        ;
        lemma_shift_is_injective(c ^ ((x as u16) << 8), d ^ ((x as u16) << 8), 8);
    }
}

proof fn lemma_shift_is_injective(x: u16, y: u16, bits: nat)
    requires
        x != y,
    ensures
        crc16_shift(x, bits) != crc16_shift(y, bits),
    decreases bits,
{
    if bits > 0 {
        lemma_shift_is_injective(x, y, (bits - 1) as nat);
        let c = crc16_shift(x, (bits - 1) as nat);
        let d = crc16_shift(y, (bits - 1) as nat);
        assert((if c & 0x8000 != 0 {
            (c << 1) ^ 0x1021
        } else {
            c << 1
        }) != (if d & 0x8000 != 0 {
            (d << 1) ^ 0x1021
        } else {
            d << 1
        })) by (bit_vector)
            requires
                c != d,
        ;
    }
}

/// The checksum of nothing is where it starts, and it starts at 0xFFFF.
pub proof fn checksum_of_nothing(start: u16)
    ensures
        crc16_from(start, Seq::empty()) == start,
        crc16_ccitt_of(Seq::empty()) == 0xFFFF,
{
}

} // verus!
