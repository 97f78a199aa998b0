//! Commands and answers of the SX1262 LoRa transceiver.

use crate::text::text2;
use crate::wire::{
    be_bytes,
    be_value,
    copy_range,
    lemma_be_value_of_bytes,
    lemma_pow256,
    push_be,
    push_bytes,
    read_u16,
};
use vstd::prelude::*;
use vstd::string::StringExecFns;

verus! {

/// Opcodes.
pub const OP_CLEAR_IRQ_STATUS: u8 = 0x02;

pub const OP_WRITE_BUFFER: u8 = 0x0E;

pub const OP_GET_IRQ_STATUS: u8 = 0x12;

pub const OP_READ_REGISTER: u8 = 0x1D;

pub const OP_READ_BUFFER: u8 = 0x1E;

pub const OP_SET_STANDBY: u8 = 0x80;

pub const OP_SET_RX: u8 = 0x82;

pub const OP_SET_TX: u8 = 0x83;

pub const OP_SET_RF_FREQUENCY: u8 = 0x86;

pub const OP_SET_PACKET_TYPE: u8 = 0x8A;

pub const OP_SET_PACKET_PARAMS: u8 = 0x8C;

pub const OP_SET_MODULATION_PARAMS: u8 = 0x8D;

pub const OP_SET_TX_PARAMS: u8 = 0x8E;

pub const OP_SET_BUFFER_BASE_ADDRESS: u8 = 0x8F;

/// Registers.
pub const REG_RX_NB_BYTES: u8 = 0x13;

pub const REG_PKT_SNR_VALUE: u8 = 0x19;

pub const REG_PKT_RSSI_VALUE: u8 = 0x1A;

/// The frequency of the crystal in Hz.
pub const CRYSTAL_HZ: u64 = 32_000_000;

#[derive(Debug, Clone, Copy, PartialEq, Eq, Structural)]
pub enum SpreadingFactor {
    SF5,
    SF6,
    SF7,
    SF8,
    SF9,
    SF10,
    SF11,
    SF12,
}

impl SpreadingFactor {
    /// The byte that stands for it.
    pub open spec fn code(self) -> u8 {
        match self {
            SpreadingFactor::SF5 => 5,
            SpreadingFactor::SF6 => 6,
            SpreadingFactor::SF7 => 7,
            SpreadingFactor::SF8 => 8,
            SpreadingFactor::SF9 => 9,
            SpreadingFactor::SF10 => 10,
            SpreadingFactor::SF11 => 11,
            SpreadingFactor::SF12 => 12,
        }
    }

    /// The byte that stands for it.
    pub fn byte(self) -> (r: u8)
        ensures
            r == self.code(),
    {
        match self {
            SpreadingFactor::SF5 => 5,
            SpreadingFactor::SF6 => 6,
            SpreadingFactor::SF7 => 7,
            SpreadingFactor::SF8 => 8,
            SpreadingFactor::SF9 => 9,
            SpreadingFactor::SF10 => 10,
            SpreadingFactor::SF11 => 11,
            SpreadingFactor::SF12 => 12,
        }
    }
}

#[derive(Debug, Clone, Copy, PartialEq, Eq, Structural)]
pub enum Bandwidth {
    BW125,
    BW250,
    BW500,
}

impl Bandwidth {
    /// The byte that stands for it.
    pub open spec fn code(self) -> u8 {
        match self {
            Bandwidth::BW125 => 0,
            Bandwidth::BW250 => 1,
            Bandwidth::BW500 => 2,
        }
    }

    /// The byte that stands for it.
    pub fn byte(self) -> (r: u8)
        ensures
            r == self.code(),
    {
        match self {
            Bandwidth::BW125 => 0,
            Bandwidth::BW250 => 1,
            Bandwidth::BW500 => 2,
        }
    }
}

#[allow(non_camel_case_types)]
#[derive(Debug, Clone, Copy, PartialEq, Eq, Structural)]
pub enum CodingRate {
    CR4_5,
    CR4_6,
    CR4_7,
    CR4_8,
}

impl CodingRate {
    /// The byte that stands for it.
    pub open spec fn code(self) -> u8 {
        match self {
            CodingRate::CR4_5 => 1,
            CodingRate::CR4_6 => 2,
            CodingRate::CR4_7 => 3,
            CodingRate::CR4_8 => 4,
        }
    }

    /// The byte that stands for it.
    pub fn byte(self) -> (r: u8)
        ensures
            r == self.code(),
    {
        match self {
            CodingRate::CR4_5 => 1,
            CodingRate::CR4_6 => 2,
            CodingRate::CR4_7 => 3,
            CodingRate::CR4_8 => 4,
        }
    }
}

#[derive(Debug, Clone, Copy, PartialEq, Eq, Structural)]
pub enum HeaderType {
    Explicit,
    Implicit,
}

impl HeaderType {
    /// The byte that stands for it.
    pub open spec fn code(self) -> u8 {
        match self {
            HeaderType::Explicit => 0,
            HeaderType::Implicit => 1,
        }
    }

    /// The byte that stands for it.
    pub fn byte(self) -> (r: u8)
        ensures
            r == self.code(),
    {
        match self {
            HeaderType::Explicit => 0,
            HeaderType::Implicit => 1,
        }
    }
}

#[derive(Debug, Clone, Copy, PartialEq, Eq, Structural)]
pub enum CrcMode {
    Enabled,
    Disabled,
}

impl CrcMode {
    /// The byte that stands for it.
    pub open spec fn code(self) -> u8 {
        match self {
            CrcMode::Enabled => 1,
            CrcMode::Disabled => 0,
        }
    }

    /// The byte that stands for it.
    pub fn byte(self) -> (r: u8)
        ensures
            r == self.code(),
    {
        match self {
            CrcMode::Enabled => 1,
            CrcMode::Disabled => 0,
        }
    }
}

#[derive(Debug, Clone, Copy, PartialEq, Eq, Structural)]
pub enum IqMode {
    Standard,
    Inverted,
}

impl IqMode {
    /// The byte that stands for it.
    pub open spec fn code(self) -> u8 {
        match self {
            IqMode::Standard => 0,
            IqMode::Inverted => 1,
        }
    }

    /// The byte that stands for it.
    pub fn byte(self) -> (r: u8)
        ensures
            r == self.code(),
    {
        match self {
            IqMode::Standard => 0,
            IqMode::Inverted => 1,
        }
    }
}

#[derive(Debug, Clone, Copy)]
pub struct LoRaConfig {
    /// In Hz.
    pub frequency: u32,
    pub bandwidth: Bandwidth,
    pub spreading_factor: SpreadingFactor,
    pub coding_rate: CodingRate,
    pub header_type: HeaderType,
    pub crc: CrcMode,
    pub iq_mode: IqMode,
    pub preamble_length: u16,
    /// In dBm, from -17 to 22.
    pub tx_power: i8,
}

impl Default for LoRaConfig {
    fn default() -> (r: Self)
        ensures
            r == default_config(915_000_000),
    {
        LoRaConfig {
            frequency: 915_000_000,
            bandwidth: Bandwidth::BW125,
            spreading_factor: SpreadingFactor::SF7,
            coding_rate: CodingRate::CR4_5,
            header_type: HeaderType::Explicit,
            crc: CrcMode::Enabled,
            iq_mode: IqMode::Standard,
            preamble_length: 8,
            tx_power: 14,
        }
    }
}

/// The default configuration at a frequency.
pub open spec fn default_config(frequency: u32) -> LoRaConfig {
    LoRaConfig {
        frequency,
        bandwidth: Bandwidth::BW125,
        spreading_factor: SpreadingFactor::SF7,
        coding_rate: CodingRate::CR4_5,
        header_type: HeaderType::Explicit,
        crc: CrcMode::Enabled,
        iq_mode: IqMode::Standard,
        preamble_length: 8,
        tx_power: 14,
    }
}

/// A received frame.
#[derive(Debug)]
pub struct LoRaFrame {
    pub data: Vec<u8>,
    /// In dBm.
    pub rssi: i16,
    pub snr: i8,
    pub frequency_error: i32,
}

#[derive(Debug)]
pub enum Sx1262Error {
    SpiInit(String),
    SpiWrite(String),
    SpiRead(String),
    GpioInit(String),
    Timeout,
    InvalidResponse,
}

impl Sx1262Error {
    /// The error in words.
    pub fn message(&self) -> (r: String)
        ensures
            r@ == match self {
                Sx1262Error::SpiInit(s) => "SPI init failed: "@ + s@,
                Sx1262Error::SpiWrite(s) => "SPI write failed: "@ + s@,
                Sx1262Error::SpiRead(s) => "SPI read failed: "@ + s@,
                Sx1262Error::GpioInit(s) => "GPIO init failed: "@ + s@,
                Sx1262Error::Timeout => "Operation timeout"@,
                Sx1262Error::InvalidResponse => "Invalid response from SX1262"@,
            },
    {
        match self {
            Sx1262Error::SpiInit(s) => text2("SPI init failed: ", s.as_str()),
            Sx1262Error::SpiWrite(s) => text2("SPI write failed: ", s.as_str()),
            Sx1262Error::SpiRead(s) => text2("SPI read failed: ", s.as_str()),
            Sx1262Error::GpioInit(s) => text2("GPIO init failed: ", s.as_str()),
            Sx1262Error::Timeout => String::from_str("Operation timeout"),
            Sx1262Error::InvalidResponse => String::from_str("Invalid response from SX1262"),
        }
    }
}

/// What the chip raises an interrupt for.
#[derive(Debug, Clone, Copy, PartialEq, Eq, Structural)]
pub enum Irq {
    TxDone,
    RxDone,
}

/// Whether an interrupt stands in a status word. Each has a bit of its own, the
/// lowest one and the next.
pub open spec fn irq_in(status: u16, irq: Irq) -> bool {
    match irq {
        Irq::TxDone => status % 2 == 1,
        Irq::RxDone => (status / 2) % 2 == 1,
    }
}

/// Whether an interrupt stands in a status word.
pub fn irq_raised(status: u16, irq: Irq) -> (r: bool)
    ensures
        r <==> irq_in(status, irq),
{
    match irq {
        Irq::TxDone => status % 2 == 1,
        Irq::RxDone => (status / 2) % 2 == 1,
    }
}

/// The default configuration at a frequency in MHz.
pub fn config_for(frequency_mhz: u32) -> (r: LoRaConfig)
    requires
        frequency_mhz * 1_000_000 <= u32::MAX,
    ensures
        r == default_config((frequency_mhz * 1_000_000) as u32),
{
    let mut config = LoRaConfig::default();
    config.frequency = frequency_mhz * 1_000_000;
    config
}

/// The frequency word: the frequency in units of the crystal's frequency over
/// 2 to the 25th, rounded down, in 32 bits.
pub open spec fn rf_word(frequency: u32) -> nat {
    ((frequency as nat * 0x200_0000) / 32_000_000) % 0x1_0000_0000
}

/// Wakes the chip up.
pub open spec fn standby_bytes() -> Seq<u8> {
    seq![OP_SET_STANDBY, 0x01u8]
}

/// Chooses LoRa packets.
pub open spec fn packet_type_bytes() -> Seq<u8> {
    seq![OP_SET_PACKET_TYPE, 0x01u8]
}

/// Sets the frequency.
pub open spec fn rf_frequency_bytes(frequency: u32) -> Seq<u8> {
    seq![OP_SET_RF_FREQUENCY] + be_bytes(rf_word(frequency), 4)
}

/// Sets the modulation, with optimization for low data rates.
pub open spec fn modulation_bytes(c: LoRaConfig) -> Seq<u8> {
    seq![
        OP_SET_MODULATION_PARAMS,
        c.spreading_factor.code(),
        c.bandwidth.code(),
        c.coding_rate.code(),
        0x01,
        c.header_type.code(),
        c.crc.code(),
        c.iq_mode.code(),
    ]
}

/// Sets the packet format.
pub open spec fn packet_params_bytes(c: LoRaConfig) -> Seq<u8> {
    seq![OP_SET_PACKET_PARAMS] + be_bytes(c.preamble_length as nat, 2) + seq![
        0x00u8,
        c.crc.code(),
        0x00u8,
    ]
}

/// A signed byte as it goes over the wire.
pub open spec fn signed_byte(x: i8) -> u8 {
    if x >= 0 {
        x as u8
    } else {
        (x + 256) as u8
    }
}

/// A byte off the wire as a signed number.
pub open spec fn byte_signed(x: u8) -> i8 {
    if x < 128 {
        x as i8
    } else {
        (x - 256) as i8
    }
}

/// Sets the power, with a ramp of 200 microseconds.
pub open spec fn tx_params_bytes(power_dbm: i8) -> Seq<u8> {
    seq![OP_SET_TX_PARAMS, signed_byte(power_dbm), 0x04u8]
}

/// Lets both buffers start at 0.
pub open spec fn buffer_base_bytes() -> Seq<u8> {
    seq![OP_SET_BUFFER_BASE_ADDRESS, 0x00u8, 0x00u8]
}

/// Clears all interrupts.
pub open spec fn clear_irq_bytes() -> Seq<u8> {
    seq![OP_CLEAR_IRQ_STATUS, 0xFFu8, 0xFFu8]
}

/// The commands that make a chip ready after a reset, in order.
pub open spec fn init_bytes(c: LoRaConfig) -> Seq<Seq<u8>> {
    seq![
        standby_bytes(),
        packet_type_bytes(),
        rf_frequency_bytes(c.frequency),
        modulation_bytes(c),
        packet_params_bytes(c),
        tx_params_bytes(c.tx_power),
        buffer_base_bytes(),
        clear_irq_bytes(),
    ]
}

fn pair(a: u8, b: u8) -> (r: Vec<u8>)
    ensures
        r@ == seq![a, b],
{
    let mut out: Vec<u8> = Vec::new();
    out.push(a);
    out.push(b);
    assert(out@ =~= seq![a, b]);
    out
}

fn triple(a: u8, b: u8, c: u8) -> (r: Vec<u8>)
    ensures
        r@ == seq![a, b, c],
{
    let mut out: Vec<u8> = pair(a, b);
    out.push(c);
    assert(out@ =~= seq![a, b, c]);
    out
}

fn rf_frequency_command(frequency: u32) -> (r: Vec<u8>)
    ensures
        r@ == rf_frequency_bytes(frequency),
{
    let word: u64 = (frequency as u64 * 0x200_0000 / CRYSTAL_HZ) % 0x1_0000_0000;
    let mut out: Vec<u8> = Vec::new();
    out.push(OP_SET_RF_FREQUENCY);
    push_be(&mut out, word, 4);
    assert(out@ =~= rf_frequency_bytes(frequency));
    out
}

fn modulation_command(c: &LoRaConfig) -> (r: Vec<u8>)
    ensures
        r@ == modulation_bytes(*c),
{
    let mut out: Vec<u8> = Vec::new();
    out.push(OP_SET_MODULATION_PARAMS);
    out.push(c.spreading_factor.byte());
    out.push(c.bandwidth.byte());
    out.push(c.coding_rate.byte());
    out.push(0x01);
    out.push(c.header_type.byte());
    out.push(c.crc.byte());
    out.push(c.iq_mode.byte());
    assert(out@ =~= modulation_bytes(*c));
    out
}

fn packet_params_command(c: &LoRaConfig) -> (r: Vec<u8>)
    ensures
        r@ == packet_params_bytes(*c),
{
    let mut out: Vec<u8> = Vec::new();
    out.push(OP_SET_PACKET_PARAMS);
    push_be(&mut out, c.preamble_length as u64, 2);
    out.push(0);
    out.push(c.crc.byte());
    out.push(0);
    assert(out@ =~= packet_params_bytes(*c));
    out
}

fn tx_params_command(power_dbm: i8) -> (r: Vec<u8>)
    ensures
        r@ == tx_params_bytes(power_dbm),
{
    let power: u8 = if power_dbm >= 0 {
        power_dbm as u8
    } else {
        (power_dbm as i16 + 256) as u8
    };
    triple(OP_SET_TX_PARAMS, power, 0x04)
}

/// Clears all interrupts.
pub fn clear_irq_command() -> (r: Vec<u8>)
    ensures
        r@ == clear_irq_bytes(),
{
    triple(OP_CLEAR_IRQ_STATUS, 0xFF, 0xFF)
}

/// The commands that make a chip ready after a reset, in order.
pub fn init_commands(c: &LoRaConfig) -> (r: Vec<Vec<u8>>)
    ensures
        r@.map_values(|v: Vec<u8>| v@) == init_bytes(*c),
{
    let mut out: Vec<Vec<u8>> = Vec::new();
    out.push(pair(OP_SET_STANDBY, 0x01));
    out.push(pair(OP_SET_PACKET_TYPE, 0x01));
    out.push(rf_frequency_command(c.frequency));
    out.push(modulation_command(c));
    out.push(packet_params_command(c));
    out.push(tx_params_command(c.tx_power));
    out.push(triple(OP_SET_BUFFER_BASE_ADDRESS, 0x00, 0x00));
    out.push(clear_irq_command());
    assert(out@.map_values(|v: Vec<u8>| v@) =~= init_bytes(*c));
    out
}

/// Sends what is in the buffer, without a timeout.
pub fn tx_command() -> (r: Vec<u8>)
    ensures
        r@ == seq![OP_SET_TX, 0x00u8],
{
    pair(OP_SET_TX, 0x00)
}

/// Receives, without a timeout.
pub fn rx_command() -> (r: Vec<u8>)
    ensures
        r@ == seq![OP_SET_RX, 0x00u8],
{
    pair(OP_SET_RX, 0x00)
}

/// Writes data to the start of the buffer.
pub fn write_buffer_command(data: &[u8]) -> (r: Vec<u8>)
    ensures
        r@ == seq![OP_WRITE_BUFFER, 0x00u8] + data@,
{
    let mut out: Vec<u8> = pair(OP_WRITE_BUFFER, 0x00);
    push_bytes(&mut out, data);
    out
}

/// Reads a number of bytes from the start of the buffer.
pub fn read_buffer_command(length: u8) -> (r: Vec<u8>)
    ensures
        r@ == seq![OP_READ_BUFFER, 0x00u8] + Seq::new(length as nat, |i: int| 0u8),
{
    let mut out: Vec<u8> = pair(OP_READ_BUFFER, 0x00);
    let mut i: u8 = 0;
    assert(Seq::new(0, |i: int| 0u8) =~= Seq::<u8>::empty());
    assert(out@ =~= seq![OP_READ_BUFFER, 0x00u8] + Seq::new(0, |i: int| 0u8));
    while i < length
        invariant
            i <= length,
            out@ == seq![OP_READ_BUFFER, 0x00u8] + Seq::new(i as nat, |i: int| 0u8),
        decreases length - i,
    {
        out.push(0);
        assert(Seq::new((i + 1) as nat, |i: int| 0u8) =~= Seq::new(i as nat, |i: int| 0u8).push(
            0u8,
        ));
        assert(out@ =~= seq![OP_READ_BUFFER, 0x00u8] + Seq::new((i + 1) as nat, |i: int| 0u8));
        i = i + 1;
    }
    out
}

/// The data in the answer to a read of the buffer.
pub fn buffer_from(response: &[u8]) -> (r: Vec<u8>)
    requires
        response@.len() >= 2,
    ensures
        r@ == response@.skip(2),
{
    let r = copy_range(response, 2, response.len());
    assert(r@ =~= response@.skip(2));
    r
}

/// Reads a register.
pub fn read_register_command(register: u8) -> (r: Vec<u8>)
    ensures
        r@ == seq![OP_READ_REGISTER, register, 0x00u8],
{
    triple(OP_READ_REGISTER, register, 0x00)
}

/// The value in the answer to a read of a register.
pub fn register_from(response: &[u8]) -> (r: u8)
    requires
        response@.len() >= 2,
    ensures
        r == response@[1],
{
    response[1]
}

/// Reads the interrupts.
pub fn irq_status_command() -> (r: Vec<u8>)
    ensures
        r@ == seq![OP_GET_IRQ_STATUS, 0x00u8, 0x00u8],
{
    triple(OP_GET_IRQ_STATUS, 0x00, 0x00)
}

/// The interrupts in an answer.
pub fn irq_status_from(response: &[u8]) -> (r: u16)
    requires
        response@.len() >= 3,
    ensures
        r as nat == be_value(response@.subrange(1, 3)),
{
    read_u16(response, 1)
}

/// A received frame, from the bytes of the buffer and of the two quality
/// registers.
pub fn frame_from(data: Vec<u8>, rssi_value: u8, snr_value: u8) -> (r: LoRaFrame)
    ensures
        r.data == data,
        r.rssi == rssi_value - 137,
        r.snr == byte_signed(snr_value),
        r.frequency_error == 0,
{
    let snr: i8 = if snr_value < 128 {
        snr_value as i8
    } else {
        (snr_value as i16 - 256) as i8
    };
    LoRaFrame { data, rssi: rssi_value as i16 - 137, snr, frequency_error: 0 }
}

/// The frequency word stands for a frequency that is not above the wanted one and
/// less than one unit below it, for all frequencies that the word can hold.
pub proof fn rf_word_is_close(frequency: u32)
    requires
        frequency < 4_096_000_000,
    ensures
        rf_word(frequency) * 32_000_000 <= frequency * 0x200_0000 < (rf_word(frequency) + 1)
            * 32_000_000,
{
}

/// A signed byte is read as it was written.
pub proof fn signed_bytes_roundtrip(x: i8)
    ensures
        byte_signed(signed_byte(x)) == x,
{
}

/// The commands that set the radio up, each with its own code: standby on the crystal,
/// LoRa packets, the frequency, how symbols are made, how packets are made up, the power,
/// where the buffer starts, and no interrupt pending.
pub proof fn setting_up_says_the_configuration(c: LoRaConfig)
    ensures
        ({
            let b = init_bytes(c);
            &&& b.len() == 8
            &&& b[0] == seq![0x80u8, 1]
            &&& b[1] == seq![0x8Au8, 1]
            &&& b[2].len() == 5 && b[2][0] == 0x86
            &&& be_value(b[2].skip(1)) == rf_word(c.frequency)
            &&& b[3].len() == 8 && b[3][0] == 0x8D && b[3][4] == 1
            &&& 5 <= b[3][1] <= 12
            &&& b[4].len() == 6 && b[4][0] == 0x8C
            &&& be_value(b[4].subrange(1, 3)) == c.preamble_length
            &&& (b[3][6] == 1 <==> c.crc == CrcMode::Enabled) && b[4][4] == b[3][6]
            &&& b[5].len() == 3 && b[5][0] == 0x8E && byte_signed(b[5][1]) == c.tx_power && b[5][2]
                == 4
            &&& b[6] == seq![0x8Fu8, 0, 0]
            &&& b[7] == seq![2u8, 0xFF, 0xFF]
        }),
{
    let b = init_bytes(c);
    lemma_pow256();
    lemma_be_value_of_bytes(rf_word(c.frequency), 4);
    lemma_be_value_of_bytes(c.preamble_length as nat, 2);
    assert(b[2].skip(1) =~= be_bytes(rf_word(c.frequency), 4));
    assert(b[4].subrange(1, 3) =~= be_bytes(c.preamble_length as nat, 2));
}

/// Configurations that differ in how symbols are made are set up differently.
pub proof fn modulations_differ(c: LoRaConfig, d: LoRaConfig)
    ensures
        modulation_bytes(c) == modulation_bytes(d) <==> {
            &&& c.spreading_factor == d.spreading_factor
            &&& c.bandwidth == d.bandwidth
            &&& c.coding_rate == d.coding_rate
            &&& c.header_type == d.header_type
            &&& c.crc == d.crc
            &&& c.iq_mode == d.iq_mode
        },
{
    let x = modulation_bytes(c);
    let y = modulation_bytes(d);
    if x == y {
        assert(x[1] == y[1] && x[2] == y[2] && x[3] == y[3]);
        assert(x[5] == y[5] && x[6] == y[6] && x[7] == y[7]);
    }
}

/// The lowest bit tells that a frame is sent, the next one that a frame has come.
pub proof fn interrupts_have_their_bits(status: u16)
    ensures
        irq_in(status, Irq::TxDone) <==> status & 1 != 0,
        irq_in(status, Irq::RxDone) <==> status & 2 != 0,
{
    assert(status & 1 != 0 <==> status % 2 == 1) by (bit_vector);
    assert(status & 2 != 0 <==> (status / 2) % 2 == 1) by (bit_vector);
}

/// The radio starts with the given frequency, 125 kHz, the seventh spreading factor, four
/// bits in five, an explicit header, a checksum, a preamble of eight symbols and 14 dBm.
pub proof fn defaults_are_for_the_frequency(frequency: u32)
    ensures
        ({
            let c = default_config(frequency);
            &&& c.frequency == frequency
            &&& modulation_bytes(c) == seq![0x8Du8, 7, 0, 1, 1, 0, 1, 0]
            &&& packet_params_bytes(c) == seq![0x8Cu8, 0, 8, 0, 1, 0]
            &&& tx_params_bytes(c.tx_power) == seq![0x8Eu8, 14, 4]
        }),
{
    let c = default_config(frequency);
    reveal_with_fuel(be_bytes, 3);
    assert(be_bytes(8, 2) =~= seq![0u8, 8u8]);
    assert(packet_params_bytes(c) =~= seq![0x8Cu8, 0, 8, 0, 1, 0]);
}

} // verus!
