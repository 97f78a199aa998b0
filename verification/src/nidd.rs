//! Non-IP Data Delivery packets (3GPP TS 24.582).
//!
//! A packet is `[pdu type (1)][priority (1)][reliability (1)][delay class (1)]`
//! `[coverage enhancement (1)][length (2)][sequence (2)][payload (length)]`, with
//! at most 1600 payload bytes.

use crate::wire::{be_bytes, be_value, lemma_be_value_of_bytes, lemma_pow256, read_u16, write_at};
use vstd::prelude::*;
use vstd::slice::slice_subrange;

verus! {

/// The largest payload of a packet.
pub const NIDD_MAX_PAYLOAD: u16 = 1600;

#[derive(Debug, Clone, Copy, PartialEq, Eq, Structural)]
pub enum PduType {
    UserData,
    ControlPlane,
}

#[derive(Debug, Clone, Copy, PartialEq, Eq, Structural)]
pub enum QosPriority {
    Low,
    Normal,
    High,
    Emergency,
}

#[derive(Debug, Clone, Copy, PartialEq, Eq, Structural)]
pub enum ReliabilityClass {
    Unreliable,
    Reliable,
}

#[derive(Debug, Clone, Copy, PartialEq, Eq, Structural)]
pub enum DelayClass {
    DelayInsensitive,
    DelaySensitive,
}

#[derive(Debug, Clone, Copy, PartialEq, Eq, Structural)]
pub enum CoverageEnhancement {
    NoEnhancement,
    Level1,
    Level2,
    Level3,
    Level4,
}

#[derive(Debug, Clone, Copy)]
pub struct NIDDHeader {
    pub pdu_type: u8,
    pub qos_priority: u8,
    pub reliability: u8,
    pub delay_class: u8,
    pub coverage_enhancement: u8,
    pub length: u16,
    pub sequence_number: u16,
}

#[derive(Debug, Clone, Copy)]
pub struct NIDDMessage {
    pub header: NIDDHeader,
    pub payload: [u8; 1600],
    pub payload_len: u16,
}

/// The length field of a packet of at least 9 bytes.
pub open spec fn length_field(data: Seq<u8>) -> nat {
    be_value(data.subrange(5, 7))
}

/// Whether a byte string starts with a packet.
pub open spec fn parses(data: Seq<u8>) -> bool {
    &&& data.len() >= 9
    &&& length_field(data) <= NIDD_MAX_PAYLOAD
    &&& data.len() >= 9 + length_field(data)
}

/// The priority that a header byte stands for; an unknown one is normal.
pub open spec fn priority_of(b: u8) -> QosPriority {
    if b == 0 {
        QosPriority::Low
    } else if b == 2 {
        QosPriority::High
    } else if b == 3 {
        QosPriority::Emergency
    } else {
        QosPriority::Normal
    }
}

/// The coverage enhancement that a header byte stands for; an unknown one is
/// none.
pub open spec fn coverage_of(b: u8) -> CoverageEnhancement {
    if b == 1 {
        CoverageEnhancement::Level1
    } else if b == 2 {
        CoverageEnhancement::Level2
    } else if b == 3 {
        CoverageEnhancement::Level3
    } else if b == 4 {
        CoverageEnhancement::Level4
    } else {
        CoverageEnhancement::NoEnhancement
    }
}

/// Whether a message says what the packet at the start of a byte string says.
pub open spec fn says(m: NIDDMessage, data: Seq<u8>) -> bool {
    &&& seq![
        m.header.pdu_type,
        m.header.qos_priority,
        m.header.reliability,
        m.header.delay_class,
        m.header.coverage_enhancement,
    ] == data.take(5)
    &&& m.header.length == length_field(data)
    &&& m.header.sequence_number == be_value(data.subrange(7, 9))
    &&& m.payload_len == length_field(data)
    &&& m.content() == data.subrange(9, 9 + length_field(data) as int)
}

impl NIDDMessage {
    /// The payload fits the buffer.
    pub open spec fn wf(&self) -> bool {
        self.payload_len <= NIDD_MAX_PAYLOAD
    }

    /// The bytes of the payload.
    pub open spec fn content(&self) -> Seq<u8> {
        self.payload@.subrange(0, self.payload_len as int)
    }

    /// Reads the packet at the start of `data`. `None` if `data` is too short
    /// for a header or for the payload that it announces, or announces more
    /// than fits.
    pub fn parse(data: &[u8]) -> (r: Option<Self>)
        ensures
            r is Some <==> parses(data@),
            r matches Some(m) ==> {
                &&& m.wf()
                &&& says(m, data@)
                &&& m.header.pdu_type == data@[0]
                &&& m.header.qos_priority == data@[1]
                &&& m.header.reliability == data@[2]
                &&& m.header.delay_class == data@[3]
                &&& m.header.coverage_enhancement == data@[4]
                &&& m.header.length == length_field(data@)
                &&& m.header.sequence_number == be_value(data@.subrange(7, 9))
                &&& m.payload_len == m.header.length
                &&& m.content() == data@.subrange(9, 9 + length_field(data@) as int)
                &&& m.payload@ == m.content() + Seq::new(
                    (1600 - m.payload_len) as nat,
                    |i: int| 0u8,
                )
            },
    {
        if data.len() < 9 {
            return None;
        }
        let length: u16 = read_u16(data, 5);
        let sequence_number: u16 = read_u16(data, 7);
        let end: usize = 9 + length as usize;
        if data.len() < end {
            return None;
        }
        if length > NIDD_MAX_PAYLOAD {
            return None;
        }
        let mut payload = [0u8; 1600];
        write_at(&mut payload, 0, slice_subrange(data, 9, end));
        let m = NIDDMessage {
            header: NIDDHeader {
                pdu_type: data[0],
                qos_priority: data[1],
                reliability: data[2],
                delay_class: data[3],
                coverage_enhancement: data[4],
                length,
                sequence_number,
            },
            payload,
            payload_len: length,
        };
        proof {
            assert(m.content() =~= data@.subrange(9, end as int));
            assert(seq![
                m.header.pdu_type,
                m.header.qos_priority,
                m.header.reliability,
                m.header.delay_class,
                m.header.coverage_enhancement,
            ] =~= data@.take(5));
            assert(m.payload@ =~= m.content() + Seq::new((1600 - length) as nat, |i: int| 0u8));
        }
        Some(m)
    }

    pub fn payload_slice(&self) -> (r: &[u8])
        requires
            self.wf(),
        ensures
            r@ == self.content(),
    {
        slice_subrange(self.payload.as_slice(), 0, self.payload_len as usize)
    }

    /// Header and payload.
    pub fn total_size(&self) -> (r: usize)
        ensures
            r == 9 + self.payload_len,
    {
        9 + self.payload_len as usize
    }

    /// Whether the top bit of the PDU type is set.
    pub fn is_control_plane(&self) -> (r: bool)
        ensures
            r <==> self.header.pdu_type >= 0x80,
    {
        let t: u8 = self.header.pdu_type;
        assert(t & 0x80 != 0 <==> t >= 0x80) by (bit_vector);
        t & 0x80 != 0
    }

    pub fn pdu_type(&self) -> (r: PduType)
        ensures
            r == (if self.header.pdu_type >= 0x80 {
                PduType::ControlPlane
            } else {
                PduType::UserData
            }),
    {
        if self.is_control_plane() {
            PduType::ControlPlane
        } else {
            PduType::UserData
        }
    }

    pub fn qos_priority(&self) -> (r: QosPriority)
        ensures
            r == priority_of(self.header.qos_priority),
    {
        match self.header.qos_priority {
            0 => QosPriority::Low,
            1 => QosPriority::Normal,
            2 => QosPriority::High,
            3 => QosPriority::Emergency,
            _ => QosPriority::Normal,
        }
    }

    pub fn reliability(&self) -> (r: ReliabilityClass)
        ensures
            r == (if self.header.reliability == 1 {
                ReliabilityClass::Reliable
            } else {
                ReliabilityClass::Unreliable
            }),
    {
        match self.header.reliability {
            1 => ReliabilityClass::Reliable,
            _ => ReliabilityClass::Unreliable,
        }
    }

    pub fn delay_class(&self) -> (r: DelayClass)
        ensures
            r == (if self.header.delay_class == 1 {
                DelayClass::DelaySensitive
            } else {
                DelayClass::DelayInsensitive
            }),
    {
        match self.header.delay_class {
            1 => DelayClass::DelaySensitive,
            _ => DelayClass::DelayInsensitive,
        }
    }

    pub fn coverage_enhancement(&self) -> (r: CoverageEnhancement)
        ensures
            r == coverage_of(self.header.coverage_enhancement),
    {
        match self.header.coverage_enhancement {
            1 => CoverageEnhancement::Level1,
            2 => CoverageEnhancement::Level2,
            3 => CoverageEnhancement::Level3,
            4 => CoverageEnhancement::Level4,
            _ => CoverageEnhancement::NoEnhancement,
        }
    }
}

/// A packet holds five bytes of header, the length and the sequence number with the more
/// significant byte first, and the payload: bytes so made up are a packet wherever the
/// payload is of at most 1600 bytes, whatever comes behind it, and no shorter part of
/// them is one.
pub proof fn packets_are_read(
    head: Seq<u8>,
    sequence: u16,
    payload: Seq<u8>,
    rest: Seq<u8>,
    cut: int,
)
    requires
        head.len() == 5,
        payload.len() <= 1600,
        0 <= cut < 9 + payload.len(),
    ensures
        ({
            let d = head + be_bytes(payload.len(), 2) + be_bytes(sequence as nat, 2) + payload
                + rest;
            &&& parses(d)
            &&& length_field(d) == payload.len()
            &&& be_value(d.subrange(7, 9)) == sequence
            &&& d.subrange(9, 9 + length_field(d) as int) == payload
            &&& !parses(d.subrange(0, cut))
        }),
{
    let d = head + be_bytes(payload.len(), 2) + be_bytes(sequence as nat, 2) + payload + rest;
    lemma_pow256();
    lemma_be_value_of_bytes(payload.len(), 2);
    lemma_be_value_of_bytes(sequence as nat, 2);
    assert(d.subrange(5, 7) =~= be_bytes(payload.len(), 2));
    assert(d.subrange(7, 9) =~= be_bytes(sequence as nat, 2));
    assert(d.subrange(9, 9 + payload.len() as int) =~= payload);
    if cut >= 9 {
        assert(d.subrange(0, cut).subrange(5, 7) =~= d.subrange(5, 7));
    }
}

/// A packet whose length field says more than 1600 is refused, however long it is.
pub proof fn long_packets_are_refused(d: Seq<u8>)
    requires
        d.len() >= 9,
        d[5] * 256 + d[6] > 1600,
    ensures
        !parses(d),
{
    crate::wire::most_significant_first(d[5], d[6], 0, 0);
    assert(d.subrange(5, 7) =~= seq![d[5], d[6]]);
}

/// The priorities and the levels of coverage enhancement by their codes.
pub proof fn codes_are_told_apart(b: u8)
    ensures
        priority_of(b) == QosPriority::Low <==> b == 0,
        priority_of(b) == QosPriority::High <==> b == 2,
        priority_of(b) == QosPriority::Emergency <==> b == 3,
        coverage_of(b) == CoverageEnhancement::Level1 <==> b == 1,
        coverage_of(b) == CoverageEnhancement::Level2 <==> b == 2,
        coverage_of(b) == CoverageEnhancement::Level3 <==> b == 3,
        coverage_of(b) == CoverageEnhancement::Level4 <==> b == 4,
{
}

/// What is read from a packet is what it was made up of: the five bytes of its header in
/// their order, its number and its whole payload.
pub proof fn packets_are_kept(
    m: NIDDMessage,
    head: Seq<u8>,
    sequence: u16,
    payload: Seq<u8>,
    rest: Seq<u8>,
)
    requires
        head.len() == 5,
        payload.len() <= 1600,
        says(
            m,
            head + be_bytes(payload.len(), 2) + be_bytes(sequence as nat, 2) + payload + rest,
        ),
    ensures
        m.header.pdu_type == head[0],
        m.header.qos_priority == head[1],
        m.header.reliability == head[2],
        m.header.delay_class == head[3],
        m.header.coverage_enhancement == head[4],
        m.header.sequence_number == sequence,
        m.payload_len == payload.len(),
        m.content() == payload,
{
    let d = head + be_bytes(payload.len(), 2) + be_bytes(sequence as nat, 2) + payload + rest;
    packets_are_read(head, sequence, payload, rest, 0);
    let five = seq![
        m.header.pdu_type,
        m.header.qos_priority,
        m.header.reliability,
        m.header.delay_class,
        m.header.coverage_enhancement,
    ];
    assert(d.take(5) =~= head);
    assert(five == head);
    assert(five[0] == head[0] && five[1] == head[1] && five[2] == head[2]);
    assert(five[3] == head[3] && five[4] == head[4]);
}

} // verus!
