//! The dead zone protocols and the bi-temporal message that they carry.

use bytes::Bytes;
use crate::payload::bytes_as_slice;
use crate::wire::to_signed64;
use vstd::prelude::*;

verus! {

#[derive(Debug, Clone, Copy, PartialEq, Eq, Hash, Structural)]
pub enum Protocol {
    IridiumSBD,
    InmarsatC,
    VSAT,
    HFVHF,
    RockBLOCK,
    Samsara,
    ASTSpaceMobile,
    NIDD,
    LoRaMesh,
}

/// How urgent a message is, most urgent first.
#[derive(Debug, Clone, Copy, PartialEq, Eq, Hash, Structural)]
pub enum Priority {
    Emergency,
    SafetyCritical,
    Operational,
    Diagnostic,
}

/// The largest message that each protocol carries, in bytes.
pub open spec fn max_size_of(p: Protocol) -> nat {
    match p {
        Protocol::IridiumSBD => 340,
        Protocol::InmarsatC => 128,
        Protocol::VSAT => 65536,
        Protocol::HFVHF => 1024,
        Protocol::RockBLOCK => 340,
        Protocol::Samsara => 1048576,
        Protocol::ASTSpaceMobile => 120000000,
        Protocol::NIDD => 1600,
        Protocol::LoRaMesh => 255,
    }
}

/// The spread above which a message of each protocol belongs to a reconnect
/// burst, in milliseconds.
pub open spec fn burst_threshold_of(p: Protocol) -> int {
    match p {
        Protocol::IridiumSBD => 120000,
        Protocol::InmarsatC => 300000,
        Protocol::Samsara => 5000,
        _ => 30000,
    }
}

/// The name under which each protocol is printed.
pub open spec fn protocol_name(p: Protocol) -> Seq<char> {
    match p {
        Protocol::IridiumSBD => "IridiumSBD"@,
        Protocol::InmarsatC => "InmarsatC"@,
        Protocol::VSAT => "VSAT"@,
        Protocol::HFVHF => "HFVHF"@,
        Protocol::RockBLOCK => "RockBLOCK"@,
        Protocol::Samsara => "Samsara"@,
        Protocol::ASTSpaceMobile => "ASTSpaceMobile"@,
        Protocol::NIDD => "NIDD"@,
        Protocol::LoRaMesh => "LoRaMesh"@,
    }
}

impl Protocol {
    pub fn max_message_size(&self) -> (r: usize)
        ensures
            r == max_size_of(*self),
    {
        match self {
            Protocol::IridiumSBD => 340,
            Protocol::InmarsatC => 128,
            Protocol::VSAT => 65536,
            Protocol::HFVHF => 1024,
            Protocol::RockBLOCK => 340,
            Protocol::Samsara => 1048576,
            Protocol::ASTSpaceMobile => 120000000,
            Protocol::NIDD => 1600,
            Protocol::LoRaMesh => 255,
        }
    }

    pub fn requires_compression(&self) -> (r: bool)
        ensures
            r <==> (*self == Protocol::VSAT || *self == Protocol::HFVHF),
    {
        matches!(self, Protocol::VSAT | Protocol::HFVHF)
    }

    /// The spread above which a message belongs to a reconnect burst.
    pub fn spread_burst_threshold_ms(&self) -> (r: i64)
        ensures
            r == burst_threshold_of(*self),
    {
        match self {
            Protocol::IridiumSBD => 120000,
            Protocol::InmarsatC => 300000,
            Protocol::Samsara => 5000,
            _ => 30000,
        }
    }

    /// The protocol's printed name.
    pub fn name(&self) -> (r: &'static str)
        ensures
            r@ == protocol_name(*self),
    {
        match self {
            Protocol::IridiumSBD => "IridiumSBD",
            Protocol::InmarsatC => "InmarsatC",
            Protocol::VSAT => "VSAT",
            Protocol::HFVHF => "HFVHF",
            Protocol::RockBLOCK => "RockBLOCK",
            Protocol::Samsara => "Samsara",
            Protocol::ASTSpaceMobile => "ASTSpaceMobile",
            Protocol::NIDD => "NIDD",
            Protocol::LoRaMesh => "LoRaMesh",
        }
    }
}

/// A message with its two times: when the sensor recorded the event, and when
/// the system learned of it.
#[derive(Debug)]
pub struct Message {
    pub protocol: Protocol,
    pub data: Bytes,
    pub priority: Priority,
    /// Unix time in milliseconds; kept equal to the system time.
    pub timestamp: u64,
    /// Valid time: when the event happened.
    pub t_event: u64,
    /// Transaction time: when the system learned of it.
    pub t_system: u64,
}

/// What a message says, apart from how its bytes are held.
#[verifier::ext_equal]
pub struct MessageView {
    pub protocol: Protocol,
    pub data: Seq<u8>,
    pub priority: Priority,
    pub timestamp: u64,
    pub t_event: u64,
    pub t_system: u64,
}

impl View for Message {
    type V = MessageView;

    open spec fn view(&self) -> MessageView {
        MessageView {
            protocol: self.protocol,
            data: crate::payload::bytes_content(self.data),
            priority: self.priority,
            timestamp: self.timestamp,
            t_event: self.t_event,
            t_system: self.t_system,
        }
    }
}

impl MessageView {
    /// System time less event time, as a 64 bit two's complement number.
    pub open spec fn spread(self) -> int {
        spread_between(self.t_event, self.t_system)
    }
}

/// What a list of messages says.
pub open spec fn message_views(s: Seq<Message>) -> Seq<MessageView> {
    s.map_values(|m: Message| m@)
}

/// A difference of two 64 bit times, wrapped to 64 bits where it does not fit.
pub open spec fn wrapped64(d: int) -> int {
    if d > i64::MAX {
        d - 0x1_0000_0000_0000_0000
    } else if d < i64::MIN {
        d + 0x1_0000_0000_0000_0000
    } else {
        d
    }
}

/// `t_system - t_event`.
pub open spec fn spread_between(t_event: u64, t_system: u64) -> int {
    wrapped64(t_system - t_event)
}

/// `t_system - t_event` in milliseconds.
pub fn spread_from(t_event: u64, t_system: u64) -> (r: i64)
    ensures
        r == spread_between(t_event, t_system),
{
    to_signed64(t_system.wrapping_sub(t_event))
}

/// The present Unix time in milliseconds (`SystemTime::now`). Nothing is said
/// of the result: it rests on the machine's clock.
#[verifier::external_body]
pub(crate) fn now_ms() -> (r: u64) {
    std::time::SystemTime::now().duration_since(std::time::UNIX_EPOCH).unwrap_or_default().as_millis() as u64
}

impl Clone for Message {
    fn clone(&self) -> (r: Self)
        ensures
            r@ == self@,
    {
        Message {
            protocol: self.protocol,
            data: self.data.clone(),
            priority: self.priority,
            timestamp: self.timestamp,
            t_event: self.t_event,
            t_system: self.t_system,
        }
    }
}

impl Message {
    /// A message whose event happened now and is learned of now.
    pub fn new(protocol: Protocol, data: Bytes, priority: Priority) -> (r: Self)
        ensures
            r.protocol == protocol,
            r.data == data,
            r.priority == priority,
            r.t_event == r.t_system,
            r.timestamp == r.t_system,
    {
        let now = now_ms();
        Self::new_with_temporal(protocol, data, priority, now, now)
    }

    /// A message with both times given.
    pub fn new_with_temporal(
        protocol: Protocol,
        data: Bytes,
        priority: Priority,
        t_event: u64,
        t_system: u64,
    ) -> (r: Self)
        ensures
            r == (Message { protocol, data, priority, timestamp: t_system, t_event, t_system }),
    {
        Message { protocol, data, priority, timestamp: t_system, t_event, t_system }
    }

    /// The spread between event time and system time, in milliseconds.
    pub fn spread_ms(&self) -> (r: i64)
        ensures
            r == self@.spread(),
    {
        spread_from(self.t_event, self.t_system)
    }

    /// Whether the system learned of the event after it happened.
    pub fn is_delayed(&self) -> (r: bool)
        ensures
            r <==> self@.spread() > 0,
    {
        self.spread_ms() > 0
    }

    /// Whether the system learned of the event before it happened.
    pub fn is_future(&self) -> (r: bool)
        ensures
            r <==> self@.spread() < 0,
    {
        self.spread_ms() < 0
    }

    pub fn is_emergency(&self) -> (r: bool)
        ensures
            r <==> self.priority == Priority::Emergency,
    {
        self.priority == Priority::Emergency
    }

    /// The number of payload bytes.
    pub fn size(&self) -> (r: usize)
        ensures
            r == self@.data.len(),
    {
        bytes_as_slice(&self.data).len()
    }
}

/// The spread of a message is its system time less its event time: positive
/// when it was delayed, negative when it is from the future, zero when it was
/// processed in real time.
pub proof fn spread_sign(m: MessageView)
    requires
        i64::MIN <= m.t_system - m.t_event <= i64::MAX,
    ensures
        m.spread() == m.t_system - m.t_event,
        m.spread() > 0 <==> m.t_system > m.t_event,
        m.spread() < 0 <==> m.t_system < m.t_event,
        m.spread() == 0 <==> m.t_system == m.t_event,
{
}

/// The spread is the difference of the two times, going round at 2^63: a later system
/// time makes it larger by as much, and the same delay gives the same spread at any time.
pub proof fn spread_is_the_delay(m: MessageView, n: MessageView)
    requires
        m.t_system - m.t_event == n.t_system - n.t_event,
    ensures
        m.spread() == n.spread(),
        i64::MIN <= m.spread() <= i64::MAX,
        m.spread() - (m.t_system - m.t_event) == 0 || m.spread() - (m.t_system - m.t_event)
            == 0x1_0000_0000_0000_0000 || m.spread() - (m.t_system - m.t_event)
            == -0x1_0000_0000_0000_0000,
        m.spread() == 0 <==> m.t_system == m.t_event,
{
}

/// How late a message may be before it counts as one of a reconnect burst: two minutes
/// for Iridium, five for Inmarsat C, five seconds for Samsara, half a minute otherwise.
pub proof fn bursts_by_protocol(p: Protocol)
    ensures
        burst_threshold_of(Protocol::IridiumSBD) == 2 * 60 * 1000,
        burst_threshold_of(Protocol::InmarsatC) == 5 * 60 * 1000,
        burst_threshold_of(Protocol::Samsara) == 5 * 1000,
        p != Protocol::IridiumSBD && p != Protocol::InmarsatC && p != Protocol::Samsara
            ==> burst_threshold_of(p) == 30 * 1000,
{
}

/// The sizes that the networks carry: RockBLOCK carries what Iridium does, both no more
/// than the payload field of a packet; the cellular side carries the most.
pub proof fn sizes_by_protocol(p: Protocol)
    ensures
        max_size_of(Protocol::RockBLOCK) == max_size_of(Protocol::IridiumSBD) == 340,
        max_size_of(Protocol::InmarsatC) == 128,
        max_size_of(Protocol::VSAT) == 64 * 1024,
        max_size_of(Protocol::HFVHF) == 1024,
        max_size_of(Protocol::Samsara) == 1024 * 1024,
        max_size_of(Protocol::NIDD) == 1600,
        max_size_of(Protocol::LoRaMesh) == 255,
        max_size_of(Protocol::ASTSpaceMobile) == 120 * 1000 * 1000,
        max_size_of(p) <= max_size_of(Protocol::ASTSpaceMobile),
{
}

/// No two protocols are printed alike.
pub proof fn protocol_names_differ(p: Protocol, q: Protocol)
    requires
        protocol_name(p) == protocol_name(q),
    ensures
        p == q,
{
    reveal_strlit("IridiumSBD");
    reveal_strlit("InmarsatC");
    reveal_strlit("VSAT");
    reveal_strlit("HFVHF");
    reveal_strlit("RockBLOCK");
    reveal_strlit("Samsara");
    reveal_strlit("ASTSpaceMobile");
    reveal_strlit("NIDD");
    reveal_strlit("LoRaMesh");
    assert("IridiumSBD"@.len() == 10 && "InmarsatC"@.len() == 9 && "VSAT"@.len() == 4);
    assert("HFVHF"@.len() == 5 && "RockBLOCK"@.len() == 9 && "Samsara"@.len() == 7);
    assert("ASTSpaceMobile"@.len() == 14 && "NIDD"@.len() == 4 && "LoRaMesh"@.len() == 8);
    assert("InmarsatC"@[0] == 'I' && "RockBLOCK"@[0] == 'R');
    assert("VSAT"@[0] == 'V' && "NIDD"@[0] == 'N');
    assert(protocol_name(p).len() == protocol_name(q).len());
    assert(protocol_name(p)[0] == protocol_name(q)[0]);
}

} // verus!
