//! AT commands and answers of the BG95-S5 modem.

use crate::scan::{
    contains_text,
    field,
    field_text,
    fields_are_between_commas,
    holds_text,
    is_white,
    labelled_int,
    labelled_number,
    labels_lead_to_their_numbers,
    parse_u8,
    parsed_u8,
    trim_text,
    trimmed,
    white_space_is_trimmed,
};
use crate::text::{
    decimal_of,
    push_decimal,
    signed_decimal_of,
    signed_decimal_roundtrip,
    text2,
};
use vstd::prelude::*;
use vstd::string::StringExecFns;

verus! {

/// How long to wait for an answer, in milliseconds.
pub const AT_TIMEOUT_MS: u64 = 5000;

/// How long to wait for a network, in milliseconds.
pub const REG_TIMEOUT_MS: u64 = 60000;

#[derive(Debug, Clone, Copy, PartialEq, Eq, Structural)]
pub enum ModemState {
    Off,
    Booting,
    Registered,
    Connecting,
    Connected,
    Error,
}

#[allow(non_camel_case_types)]
#[derive(Debug, Clone, Copy, PartialEq, Eq, Structural)]
pub enum NetworkType {
    LTE_M,
    NB_IoT,
    NTN,
    Unknown,
}

#[derive(Debug, Clone, Copy)]
pub struct SignalQuality {
    /// From 0 to 31; 99 where it is unknown.
    pub rssi: i8,
    /// From 0 to 7; 99 where it is unknown.
    pub ber: u8,
    /// In dBm.
    pub rsrp: i16,
    /// In dB.
    pub rsrq: i8,
    /// In dB.
    pub sinr: i8,
}

#[derive(Debug)]
pub enum Bg95Error {
    SerialInit(String),
    SerialWrite(String),
    SerialRead(String),
    Timeout(String),
    AtError(String),
    RegistrationTimeout,
    ConnectionFailed(String),
    SendFailed(String),
    InvalidGnssResponse(String),
}

impl Bg95Error {
    /// The error in words.
    pub fn message(&self) -> (r: String)
        ensures
            r@ == match self {
                Bg95Error::SerialInit(s) => "Serial init failed: "@ + s@,
                Bg95Error::SerialWrite(s) => "Serial write failed: "@ + s@,
                Bg95Error::SerialRead(s) => "Serial read failed: "@ + s@,
                Bg95Error::Timeout(s) => "AT command timeout: "@ + s@,
                Bg95Error::AtError(s) => "AT command error: "@ + s@,
                Bg95Error::RegistrationTimeout => "Network registration timeout"@,
                Bg95Error::ConnectionFailed(s) => "Connection failed: "@ + s@,
                Bg95Error::SendFailed(s) => "Send failed: "@ + s@,
                Bg95Error::InvalidGnssResponse(s) => "Invalid GNSS response: "@ + s@,
            },
    {
        match self {
            Bg95Error::SerialInit(s) => text2("Serial init failed: ", s.as_str()),
            Bg95Error::SerialWrite(s) => text2("Serial write failed: ", s.as_str()),
            Bg95Error::SerialRead(s) => text2("Serial read failed: ", s.as_str()),
            Bg95Error::Timeout(s) => text2("AT command timeout: ", s.as_str()),
            Bg95Error::AtError(s) => text2("AT command error: ", s.as_str()),
            Bg95Error::RegistrationTimeout => String::from_str("Network registration timeout"),
            Bg95Error::ConnectionFailed(s) => text2("Connection failed: ", s.as_str()),
            Bg95Error::SendFailed(s) => text2("Send failed: ", s.as_str()),
            Bg95Error::InvalidGnssResponse(s) => text2("Invalid GNSS response: ", s.as_str()),
        }
    }
}

/// The number in an answer: behind the keyword and the colon after it, in the
/// field with the given number.
pub fn parse_at_int(response: &str, keyword: &str, index: usize) -> (r: Option<i32>)
    ensures
        match r {
            Some(v) => labelled_int(response@, keyword@, index as nat) == Some(v as int),
            None => labelled_int(response@, keyword@, index as nat) is None,
        },
{
    labelled_number(response, keyword, index)
}

/// A command as it goes over the wire.
pub fn command_line(command: &str) -> (r: String)
    ensures
        r@ == command@ + "\r\n"@,
{
    text2(command, "\r\n")
}

/// Where an exchange stands.
#[derive(Debug, Clone, Copy, PartialEq, Eq, Structural)]
pub enum Reply {
    /// The answer is not complete.
    Pending,
    Done,
    Failed,
}

/// Where an exchange stands: it is over once the answer holds `OK`, or else
/// `ERROR`.
pub fn reply(response: &str) -> (r: Reply)
    ensures
        r == (if holds_text(response@, "OK"@) {
            Reply::Done
        } else if holds_text(response@, "ERROR"@) {
            Reply::Failed
        } else {
            Reply::Pending
        }),
{
    if contains_text(response, "OK") {
        Reply::Done
    } else if contains_text(response, "ERROR") {
        Reply::Failed
    } else {
        Reply::Pending
    }
}

/// Whether an exchange has taken too long.
pub fn timed_out(elapsed_ms: u64) -> (r: bool)
    ensures
        r <==> elapsed_ms > AT_TIMEOUT_MS,
{
    elapsed_ms > AT_TIMEOUT_MS
}

/// Whether an answer says that the modem is registered, at home or roaming.
pub open spec fn says_registered(s: Seq<char>) -> bool {
    holds_text(s, "+CREG: 1,1"@) || holds_text(s, "+CREG: 1,5"@)
}

/// The kind of network that an answer names; the one that was known where it names
/// none.
pub open spec fn network_named(s: Seq<char>, known: NetworkType) -> NetworkType {
    if holds_text(s, "LTE-M"@) {
        NetworkType::LTE_M
    } else if holds_text(s, "NB-IoT"@) {
        NetworkType::NB_IoT
    } else if holds_text(s, "NTN"@) {
        NetworkType::NTN
    } else {
        known
    }
}

/// The number in an answer, or another one where there is none.
pub open spec fn quality(s: Seq<char>, label: Seq<char>, index: nat, otherwise: int) -> int {
    match labelled_int(s, label, index) {
        Some(v) => v,
        None => otherwise,
    }
}

/// The low order byte of a number, as a signed number.
pub open spec fn low_signed8(x: int) -> i8 {
    let b = x % 256;
    if b < 128 {
        b as i8
    } else {
        (b - 256) as i8
    }
}

/// The two low order bytes of a number, as a signed number.
pub open spec fn low_signed16(x: int) -> i16 {
    let b = x % 65536;
    if b < 32768 {
        b as i16
    } else {
        (b - 65536) as i16
    }
}

fn to_low_signed8(x: i32) -> (r: i8)
    ensures
        r == low_signed8(x as int),
{
    let b: i64 = (x as i64 + 0x1_0000_0000) % 256;
    if b < 128 {
        b as i8
    } else {
        (b - 256) as i8
    }
}

fn to_low_signed16(x: i32) -> (r: i16)
    ensures
        r == low_signed16(x as int),
{
    let b: i64 = (x as i64 + 0x1_0000_0000) % 65536;
    if b < 32768 {
        b as i16
    } else {
        (b - 65536) as i16
    }
}

fn to_low_byte(x: i32) -> (r: u8)
    ensures
        r == x as int % 256,
{
    let b: i64 = (x as i64 + 0x1_0000_0000) % 256;
    b as u8
}

fn number_or(response: &str, label: &str, index: usize, otherwise: i32) -> (r: i32)
    ensures
        r == quality(response@, label@, index as nat, otherwise as int),
{
    match parse_at_int(response, label, index) {
        Some(v) => v,
        None => otherwise,
    }
}

/// The signal quality, from the answers to `AT+CSQ` and to `AT+QENG`.
#[verifier::spinoff_prover]
#[verifier::rlimit(40)]
pub fn signal_quality(csq: &str, serving_cell: &str) -> (r: SignalQuality)
    ensures
        r.rssi == low_signed8(quality(csq@, "CSQ"@, 0, 99)),
        r.ber == quality(csq@, "CSQ"@, 1, 99) % 256,
        r.rsrp == low_signed16(quality(serving_cell@, "rsrp"@, 0, -140)),
        r.rsrq == low_signed8(quality(serving_cell@, "rsrq"@, 0, -20)),
        r.sinr == low_signed8(quality(serving_cell@, "sinr"@, 0, -20)),
{
    let rssi: i32 = number_or(csq, "CSQ", 0, 99);
    let ber: i32 = number_or(csq, "CSQ", 1, 99);
    let rsrp: i32 = number_or(serving_cell, "rsrp", 0, -140);
    let rsrq: i32 = number_or(serving_cell, "rsrq", 0, -20);
    let sinr: i32 = number_or(serving_cell, "sinr", 0, -20);
    SignalQuality {
        rssi: to_low_signed8(rssi),
        ber: to_low_byte(ber),
        rsrp: to_low_signed16(rsrp),
        rsrq: to_low_signed8(rsrq),
        sinr: to_low_signed8(sinr),
    }
}

/// The command that opens a connection.
pub fn open_tcp_command(host: &str, port: u16) -> (r: String)
    ensures
        r@ == "AT+QIOPEN=1,0,\"TCP\",\""@ + host@ + "\","@ + decimal_of(port as nat) + ",0,1"@,
{
    let mut out = text2("AT+QIOPEN=1,0,\"TCP\",\"", host);
    out.append("\",");
    push_decimal(&mut out, port as u64);
    out.append(",0,1");
    out
}

/// The command that announces data.
pub fn send_tcp_command(length: usize) -> (r: String)
    ensures
        r@ == "AT+QISEND=0,"@ + decimal_of(length as nat),
{
    let mut out = String::from_str("AT+QISEND=0,");
    push_decimal(&mut out, length as u64);
    out
}

/// Checks that the modem asks for data.
pub fn check_prompt(response: String) -> (r: Result<(), Bg95Error>)
    ensures
        match r {
            Ok(_) => holds_text(response@, ">"@),
            Err(e) => !holds_text(response@, ">"@) && e == Bg95Error::SendFailed(response),
        },
{
    if contains_text(response.as_str(), ">") {
        Ok(())
    } else {
        Err(Bg95Error::SendFailed(response))
    }
}

/// Checks that the modem has sent the data.
pub fn check_sent(response: String) -> (r: Result<(), Bg95Error>)
    ensures
        match r {
            Ok(_) => holds_text(response@, "SEND OK"@),
            Err(e) => !holds_text(response@, "SEND OK"@) && e == Bg95Error::SendFailed(response),
        },
{
    if contains_text(response.as_str(), "SEND OK") {
        Ok(())
    } else {
        Err(Bg95Error::SendFailed(response))
    }
}

/// The fields of a position report, with its real numbers as they are written.
#[derive(Debug)]
pub struct GnssFields {
    pub latitude: String,
    pub longitude: String,
    pub altitude: String,
    pub speed: String,
    pub heading: String,
    /// 0 where there is no fix, 1 for GPS, 2 for differential GPS.
    pub fix_quality: u8,
    pub satellites: u8,
}

/// The 8 bit number in a field; 0 where there is none.
pub open spec fn count_in(f: Option<Seq<char>>) -> int {
    match f {
        Some(t) => match parsed_u8(t) {
            Some(v) => v,
            None => 0,
        },
        None => 0,
    }
}

/// The fields of a position report
/// `+QGPSLOC: <utc>,<lat>,<lon>,<alt>,<speed>,<course>,<fix>,...,<satellites>`.
/// There must be 12 at least.
pub fn gnss_fields(response: String) -> (r: Result<GnssFields, Bg95Error>)
    ensures
        match r {
            Ok(g) => {
                &&& field(response@, 11) is Some
                &&& field(response@, 1) == Some(g.latitude@)
                &&& field(response@, 2) == Some(g.longitude@)
                &&& field(response@, 3) == Some(g.altitude@)
                &&& field(response@, 4) == Some(g.speed@)
                &&& field(response@, 5) == Some(g.heading@)
                &&& g.fix_quality == count_in(field(response@, 6))
                &&& g.satellites == count_in(field(response@, 11))
            },
            Err(e) => field(response@, 11) is None && e == Bg95Error::InvalidGnssResponse(response),
        },
{
    let s = response.as_str();
    proof {
        if field(s@, 11) is Some {
            lemma_fields_before(s@, 11, 1);
            lemma_fields_before(s@, 11, 2);
            lemma_fields_before(s@, 11, 3);
            lemma_fields_before(s@, 11, 4);
            lemma_fields_before(s@, 11, 5);
        }
    }
    match (
        field_text(s, 1),
        field_text(s, 2),
        field_text(s, 3),
        field_text(s, 4),
        field_text(s, 5),
        field_text(s, 11),
    ) {
        (
            Some(latitude),
            Some(longitude),
            Some(altitude),
            Some(speed),
            Some(heading),
            Some(last),
        ) => {
            let fix_quality: u8 = match field_text(s, 6) {
                Some(f) => match parse_u8(f.as_str()) {
                    Some(v) => v,
                    None => 0,
                },
                None => 0,
            };
            let satellites: u8 = match parse_u8(last.as_str()) {
                Some(v) => v,
                None => 0,
            };
            Ok(
                GnssFields {
                    latitude,
                    longitude,
                    altitude,
                    speed,
                    heading,
                    fix_quality,
                    satellites,
                },
            )
        },
        _ => Err(Bg95Error::InvalidGnssResponse(response)),
    }
}

/// Where there is a field, there are those before it.
proof fn lemma_fields_before(s: Seq<char>, index: nat, earlier: nat)
    requires
        earlier <= index,
        field(s, index) is Some,
    ensures
        field(s, earlier) is Some,
    decreases index,
{
    if earlier > 0 {
        match crate::scan::found_from(s, seq![','], 0) {
            Some(k) => {
                lemma_fields_before(s.skip(k + 1), (index - 1) as nat, (earlier - 1) as nat);
            },
            None => {},
        }
    }
}

/// The subscriber's number in the answer to `AT+CIMI`.
pub fn esim_status(response: &str) -> (r: String)
    ensures
        r@ == trimmed(response@),
{
    trim_text(response)
}

/// What is known of the modem.
#[derive(Debug, Clone, Copy)]
pub struct BG95Modem {
    pub state: ModemState,
    pub network_type: NetworkType,
}

impl BG95Modem {
    /// A modem that is off.
    pub fn new() -> (r: Self)
        ensures
            r == (BG95Modem { state: ModemState::Off, network_type: NetworkType::Unknown }),
    {
        BG95Modem { state: ModemState::Off, network_type: NetworkType::Unknown }
    }

    /// Takes note that the modem starts or was reset.
    pub fn reset(&mut self)
        ensures
            *final(self) == (BG95Modem { state: ModemState::Booting, ..*old(self) }),
    {
        self.state = ModemState::Booting;
    }

    /// Whether there is still time to ask for the registration.
    pub fn check_registration_time(elapsed_ms: u64) -> (r: Result<(), Bg95Error>)
        ensures
            r is Ok <==> elapsed_ms <= REG_TIMEOUT_MS,
            r matches Err(e) ==> e is RegistrationTimeout,
    {
        if elapsed_ms > REG_TIMEOUT_MS {
            Err(Bg95Error::RegistrationTimeout)
        } else {
            Ok(())
        }
    }

    /// Takes an answer to `AT+CREG?`; whether waiting is over.
    pub fn on_registration(&mut self, response: &str) -> (r: bool)
        ensures
            r == says_registered(response@),
            *final(self) == (BG95Modem {
                state: if r {
                    ModemState::Registered
                } else {
                    old(self).state
                },
                ..*old(self)
            }),
    {
        if contains_text(response, "+CREG: 1,1") || contains_text(response, "+CREG: 1,5") {
            self.state = ModemState::Registered;
            return true;
        }
        false
    }

    /// Takes the answer to `AT+QNWINFO`.
    pub fn on_network_info(&mut self, response: &str)
        ensures
            *final(self) == (BG95Modem {
                network_type: network_named(response@, old(self).network_type),
                ..*old(self)
            }),
    {
        if contains_text(response, "LTE-M") {
            self.network_type = NetworkType::LTE_M;
        } else if contains_text(response, "NB-IoT") {
            self.network_type = NetworkType::NB_IoT;
        } else if contains_text(response, "NTN") {
            self.network_type = NetworkType::NTN;
        }
    }

    /// Takes the answer to the command that opens a connection; its number.
    pub fn on_tcp_open(&mut self, response: String) -> (r: Result<u8, Bg95Error>)
        ensures
            match r {
                Ok(id) => holds_text(response@, "OK"@) && id == 0 && *final(self) == (BG95Modem {
                    state: ModemState::Connected,
                    ..*old(self)
                }),
                Err(e) => !holds_text(response@, "OK"@) && e == Bg95Error::ConnectionFailed(
                    response,
                ) && *final(self) == *old(self),
            },
    {
        if contains_text(response.as_str(), "OK") {
            self.state = ModemState::Connected;
            Ok(0)
        } else {
            Err(Bg95Error::ConnectionFailed(response))
        }
    }

    pub fn state(&self) -> (r: ModemState)
        ensures
            r == self.state,
    {
        self.state
    }

    pub fn network_type(&self) -> (r: NetworkType)
        ensures
            r == self.network_type,
    {
        self.network_type
    }
}

/// The modem is registered wherever an answer says so anywhere in it, at home or abroad.
pub proof fn registration_is_found(a: Seq<char>, b: Seq<char>)
    ensures
        says_registered(a + "+CREG: 1,1"@ + b),
        says_registered(a + "+CREG: 1,5"@ + b),
{
    lemma_held(a, "+CREG: 1,1"@, b);
    lemma_held(a, "+CREG: 1,5"@, b);
}

proof fn lemma_held(a: Seq<char>, p: Seq<char>, b: Seq<char>)
    ensures
        holds_text(a + p + b, p),
{
    let s = a + p + b;
    assert(s.subrange(a.len() as int, a.len() as int + p.len()) =~= p);
    assert(crate::scan::occurs_at(s, p, a.len() as int));
}

/// An answer that names a network is believed, the first kind in this order where it names
/// several; one that names none changes nothing.
pub proof fn networks_are_named(s: Seq<char>, known: NetworkType)
    ensures
        holds_text(s, "LTE-M"@) ==> network_named(s, known) == NetworkType::LTE_M,
        !holds_text(s, "LTE-M"@) && holds_text(s, "NB-IoT"@) ==> network_named(s, known)
            == NetworkType::NB_IoT,
        !holds_text(s, "LTE-M"@) && !holds_text(s, "NB-IoT"@) && holds_text(s, "NTN"@)
            ==> network_named(s, known) == NetworkType::NTN,
        !holds_text(s, "LTE-M"@) && !holds_text(s, "NB-IoT"@) && !holds_text(s, "NTN"@)
            ==> network_named(s, known) == known,
{
}

/// A number that fits a byte or two is kept as it is.
pub proof fn small_numbers_are_kept(x: int)
    ensures
        -128 <= x <= 127 ==> low_signed8(x) == x,
        -32768 <= x <= 32767 ==> low_signed16(x) == x,
{
}

/// Two numbers behind a label and a colon, with a comma between them, are read as they
/// were written.
pub proof fn labelled_pairs_are_read(label: Seq<char>, a: i32, b: i32, otherwise: int)
    requires
        forall|i: int| 0 <= i < label.len() ==> #[trigger] label[i] != ':',
    ensures
        ({
            let s = label + seq![':'] + (signed_decimal_of(a as int) + seq![',']
                + signed_decimal_of(b as int));
            &&& quality(s, label, 0, otherwise) == a
            &&& quality(s, label, 1, otherwise) == b
        }),
{
    let x = signed_decimal_of(a as int);
    let y = signed_decimal_of(b as int);
    let t = x + seq![','] + y;
    lemma_plain(a as int);
    lemma_plain(b as int);
    fields_are_between_commas(x, y, 0);
    fields_are_between_commas(y, y, 0);
    labels_lead_to_their_numbers(label, t, x, 0);
    labels_lead_to_their_numbers(label, t, y, 1);
    signed_decimal_roundtrip(a as i64);
    signed_decimal_roundtrip(b as i64);
    white_space_is_trimmed(Seq::empty(), x, Seq::empty());
    white_space_is_trimmed(Seq::empty(), y, Seq::empty());
    assert(Seq::<char>::empty() + x + Seq::<char>::empty() =~= x);
    assert(Seq::<char>::empty() + y + Seq::<char>::empty() =~= y);
}

/// Whether a text is of digits and signs alone.
spec fn plain(s: Seq<char>) -> bool {
    forall|i: int| 0 <= i < s.len() ==> 45 <= (#[trigger] s[i]) as int <= 57
}

proof fn lemma_plain(n: int)
    ensures
        plain(signed_decimal_of(n)),
        signed_decimal_of(n).len() > 0,
        forall|i: int|
            0 <= i < signed_decimal_of(n).len() ==> #[trigger] signed_decimal_of(n)[i] != ',',
        !is_white(signed_decimal_of(n)[0]),
        !is_white(signed_decimal_of(n).last()),
{
    reveal_strlit("-");
    if n < 0 {
        lemma_digits_are_plain((-n) as nat);
    } else {
        lemma_digits_are_plain(n as nat);
    }
    let s = signed_decimal_of(n);
    assert(s[0] as int <= 57 && s.last() as int <= 57);
}

proof fn lemma_digits_are_plain(n: nat)
    ensures
        plain(decimal_of(n)),
        decimal_of(n).len() > 0,
    decreases n,
{
    if n >= 10 {
        lemma_digits_are_plain(n / 10);
    }
}

} // verus!
