//! Commands and answers of the ATECC608B security chip.
//!
//! A command is an opcode, its parameters and a CRC-8. An answer starts with a
//! status byte.

use crate::text::text2;
use crate::wire::{copy_range, push_bytes};
use vstd::prelude::*;
use vstd::string::StringExecFns;

verus! {

/// Opcodes.
pub const OP_READ: u8 = 0x02;

pub const OP_RANDOM: u8 = 0x1B;

pub const OP_SIGN: u8 = 0x41;

pub const OP_VERIFY: u8 = 0x45;

/// The status byte of an answer that carries data.
pub const STATUS_DATA: u8 = 0x01;

#[derive(Debug)]
pub enum AteccError {
    I2cInit(String),
    I2cWrite(String),
    I2cRead(String),
    InvalidResponse(u8),
    InvalidDigestLength,
    InvalidSignatureLength,
    LockFailed,
}

/// The upper case hexadecimal digit for a number below 16.
pub open spec fn upper_hex_digit(n: int) -> char {
    if n < 10 {
        (48 + n) as char
    } else {
        (55 + n) as char
    }
}

fn upper_hex_text(n: u8) -> (r: &'static str)
    requires
        n < 16,
    ensures
        r@ == seq![upper_hex_digit(n as int)],
{
    proof {
        reveal_strlit("0");
        reveal_strlit("1");
        reveal_strlit("2");
        reveal_strlit("3");
        reveal_strlit("4");
        reveal_strlit("5");
        reveal_strlit("6");
        reveal_strlit("7");
        reveal_strlit("8");
        reveal_strlit("9");
        reveal_strlit("A");
        reveal_strlit("B");
        reveal_strlit("C");
        reveal_strlit("D");
        reveal_strlit("E");
        reveal_strlit("F");
    }
    let r: &'static str = match n {
        0 => "0",
        1 => "1",
        2 => "2",
        3 => "3",
        4 => "4",
        5 => "5",
        6 => "6",
        7 => "7",
        8 => "8",
        9 => "9",
        10 => "A",
        11 => "B",
        12 => "C",
        13 => "D",
        14 => "E",
        _ => "F",
    };
    assert(r@ =~= seq![upper_hex_digit(n as int)]);
    r
}

impl AteccError {
    /// The error in words.
    pub fn message(&self) -> (r: String)
        ensures
            r@ == match self {
                AteccError::I2cInit(s) => "I2C init failed: "@ + s@,
                AteccError::I2cWrite(s) => "I2C write failed: "@ + s@,
                AteccError::I2cRead(s) => "I2C read failed: "@ + s@,
                AteccError::InvalidResponse(b) => "Invalid response byte: 0x"@ + seq![
                    upper_hex_digit(*b as int / 16),
                    upper_hex_digit(*b as int % 16),
                ],
                AteccError::InvalidDigestLength => "Digest must be 32 bytes"@,
                AteccError::InvalidSignatureLength => "Signature must be 64 bytes"@,
                AteccError::LockFailed => "Lock operation failed"@,
            },
    {
        match self {
            AteccError::I2cInit(s) => text2("I2C init failed: ", s.as_str()),
            AteccError::I2cWrite(s) => text2("I2C write failed: ", s.as_str()),
            AteccError::I2cRead(s) => text2("I2C read failed: ", s.as_str()),
            AteccError::InvalidResponse(b) => {
                let mut out = text2("Invalid response byte: 0x", upper_hex_text(*b / 16));
                out.append(upper_hex_text(*b % 16));
                assert(out@ =~= "Invalid response byte: 0x"@ + seq![
                    upper_hex_digit(*b as int / 16),
                    upper_hex_digit(*b as int % 16),
                ]);
                out
            },
            AteccError::InvalidDigestLength => String::from_str("Digest must be 32 bytes"),
            AteccError::InvalidSignatureLength => String::from_str("Signature must be 64 bytes"),
            AteccError::LockFailed => String::from_str("Lock operation failed"),
        }
    }
}

/// Bits of CRC-8 (polynomial 0x07, most significant bit first).
pub open spec fn crc8_shift(crc: u8, bits: nat) -> u8
    decreases bits,
{
    if bits == 0 {
        crc
    } else {
        let c = crc8_shift(crc, (bits - 1) as nat);
        if c & 0x80 != 0 {
            (c << 1) ^ 0x07
        } else {
            c << 1
        }
    }
}

/// The value that the checksum's register starts with. It rests on a single known
/// checksum: that of the bytes 1, 2 and 3 is 0x5B.
pub const CRC8_START: u8 = 0x62;

/// CRC-8 of a byte string.
pub open spec fn crc8_of(data: Seq<u8>) -> u8
    decreases data.len(),
{
    if data.len() == 0 {
        CRC8_START
    } else {
        crc8_shift(crc8_of(data.drop_last()) ^ data.last(), 8)
    }
}

/// The CRC-8 of a command.
pub fn crc8(data: &[u8]) -> (r: u8)
    ensures
        r == crc8_of(data@),
{
    let mut crc: u8 = CRC8_START;
    let mut i: usize = 0;
    assert(data@.subrange(0, 0) =~= Seq::empty());
    while i < data.len()
        invariant
            i <= data@.len(),
            crc == crc8_of(data@.subrange(0, i as int)),
        decreases data@.len() - i,
    {
        assert(data@.subrange(0, i + 1).drop_last() =~= data@.subrange(0, i as int));
        let ghost start = crc ^ data@[i as int];
        crc = crc ^ data[i];
        let mut k: u32 = 0;
        while k < 8
            invariant
                k <= 8,
                crc == crc8_shift(start, k as nat),
            decreases 8 - k,
        {
            if crc & 0x80 != 0 {
                crc = (crc << 1) ^ 0x07;
            } else {
                crc = crc << 1;
            }
            k = k + 1;
        }
        i = i + 1;
    }
    assert(data@.subrange(0, i as int) =~= data@);
    crc
}

/// A command with its checksum.
pub open spec fn sealed(command: Seq<u8>) -> Seq<u8> {
    command.push(crc8_of(command))
}

fn seal(command: Vec<u8>) -> (r: Vec<u8>)
    ensures
        r@ == sealed(command@),
{
    let crc: u8 = crc8(command.as_slice());
    let mut command = command;
    command.push(crc);
    command
}

/// Reads the 9 bytes of the serial number from the start of the configuration
/// zone.
pub fn read_serial_command() -> (r: Vec<u8>)
    ensures
        r@ == sealed(seq![OP_READ, 0, 0, 0, 0, 9]),
{
    let mut command: Vec<u8> = Vec::new();
    command.push(OP_READ);
    command.push(0);
    command.push(0);
    command.push(0);
    command.push(0);
    command.push(9);
    assert(command@ =~= seq![OP_READ, 0, 0, 0, 0, 9]);
    seal(command)
}

/// Signs a digest of 32 bytes with the key in slot 0.
pub fn sign_command(digest: &[u8]) -> (r: Result<Vec<u8>, AteccError>)
    ensures
        match r {
            Ok(c) => digest@.len() == 32 && c@ == sealed(seq![OP_SIGN, 0x80, 0] + digest@),
            Err(e) => digest@.len() != 32 && e is InvalidDigestLength,
        },
{
    if digest.len() != 32 {
        return Err(AteccError::InvalidDigestLength);
    }
    let mut command: Vec<u8> = Vec::new();
    command.push(OP_SIGN);
    command.push(0x80);
    command.push(0);
    push_bytes(&mut command, digest);
    assert(command@ =~= seq![OP_SIGN, 0x80, 0] + digest@);
    Ok(seal(command))
}

/// Verifies a signature of 64 bytes over a digest of 32 bytes with the public key
/// in slot 0.
pub fn verify_command(digest: &[u8], signature: &[u8]) -> (r: Result<Vec<u8>, AteccError>)
    ensures
        match r {
            Ok(c) => digest@.len() == 32 && signature@.len() == 64 && c@ == sealed(
                seq![OP_VERIFY, 0, 0, 0] + digest@ + signature@,
            ),
            Err(e) => if digest@.len() != 32 {
                e is InvalidDigestLength
            } else {
                signature@.len() != 64 && e is InvalidSignatureLength
            },
        },
{
    if digest.len() != 32 {
        return Err(AteccError::InvalidDigestLength);
    }
    if signature.len() != 64 {
        return Err(AteccError::InvalidSignatureLength);
    }
    let mut command: Vec<u8> = Vec::new();
    command.push(OP_VERIFY);
    command.push(0);
    command.push(0);
    command.push(0);
    push_bytes(&mut command, digest);
    push_bytes(&mut command, signature);
    assert(command@ =~= seq![OP_VERIFY, 0, 0, 0] + digest@ + signature@);
    Ok(seal(command))
}

/// Draws 32 random bytes.
pub fn random_command() -> (r: [u8; 3])
    ensures
        r@ == seq![OP_RANDOM, 0u8, 0x20u8],
{
    let r: [u8; 3] = [OP_RANDOM, 0, 0x20];
    assert(r@ =~= seq![OP_RANDOM, 0u8, 0x20u8]);
    r
}

/// The data in an answer: `n` bytes behind the status byte.
fn answer_data(response: &[u8], n: usize) -> (r: Result<Vec<u8>, AteccError>)
    requires
        response@.len() > n,
    ensures
        match r {
            Ok(d) => response@[0] == STATUS_DATA && d@ == response@.subrange(1, n + 1),
            Err(e) => response@[0] != STATUS_DATA && e == AteccError::InvalidResponse(response@[0]),
        },
{
    if response[0] != STATUS_DATA {
        return Err(AteccError::InvalidResponse(response[0]));
    }
    assert(n < response.len());
    Ok(copy_range(response, 1, n + 1))
}

/// The serial number in an answer.
pub fn serial_from(response: &[u8]) -> (r: Result<Vec<u8>, AteccError>)
    requires
        response@.len() >= 10,
    ensures
        match r {
            Ok(d) => response@[0] == STATUS_DATA && d@ == response@.subrange(1, 10),
            Err(e) => response@[0] != STATUS_DATA && e == AteccError::InvalidResponse(response@[0]),
        },
{
    answer_data(response, 9)
}

/// The signature in an answer.
pub fn signature_from(response: &[u8]) -> (r: Result<Vec<u8>, AteccError>)
    requires
        response@.len() >= 65,
    ensures
        match r {
            Ok(d) => response@[0] == STATUS_DATA && d@ == response@.subrange(1, 65),
            Err(e) => response@[0] != STATUS_DATA && e == AteccError::InvalidResponse(response@[0]),
        },
{
    answer_data(response, 64)
}

/// The random bytes in an answer.
pub fn random_from(response: &[u8]) -> (r: Result<Vec<u8>, AteccError>)
    requires
        response@.len() >= 33,
    ensures
        match r {
            Ok(d) => response@[0] == STATUS_DATA && d@ == response@.subrange(1, 33),
            Err(e) => response@[0] != STATUS_DATA && e == AteccError::InvalidResponse(response@[0]),
        },
{
    answer_data(response, 32)
}

/// Whether an answer says that a signature is valid.
pub fn verified(response: &[u8]) -> (r: bool)
    requires
        response@.len() > 0,
    ensures
        r <==> response@[0] == 0,
{
    response[0] == 0
}

proof fn lemma_shift_is_injective(a: u8, b: u8, bits: nat)
    requires
        a != b,
    ensures
        crc8_shift(a, bits) != crc8_shift(b, bits),
    decreases bits,
{
    if bits > 0 {
        lemma_shift_is_injective(a, b, (bits - 1) as nat);
        let c = crc8_shift(a, (bits - 1) as nat);
        let d = crc8_shift(b, (bits - 1) as nat);
        assert(c != d ==> (if c & 0x80 != 0 {
            (c << 1) ^ 0x07
        } else {
            c << 1
        }) != (if d & 0x80 != 0 {
            (d << 1) ^ 0x07
        } else {
            d << 1
        })) by (bit_vector);
    }
}

/// Every byte of a command counts for its checksum: two commands that differ in one byte,
/// wherever it stands, have different ones.
pub proof fn one_byte_changes_the_checksum(s: Seq<u8>, a: u8, b: u8, t: Seq<u8>)
    requires
        a != b,
    ensures
        crc8_of(s + seq![a] + t) != crc8_of(s + seq![b] + t),
    decreases t.len(),
{
    let x = s + seq![a] + t;
    let y = s + seq![b] + t;
    if t.len() == 0 {
        assert(x.drop_last() =~= s);
        assert(y.drop_last() =~= s);
        let c = crc8_of(s);
        assert(a != b ==> c ^ a != c ^ b) by (bit_vector);
        lemma_shift_is_injective(c ^ a, c ^ b, 8);
    } else {
        let r = t.drop_last();
        one_byte_changes_the_checksum(s, a, b, r);
        assert(x.drop_last() =~= s + seq![a] + r);
        assert(y.drop_last() =~= s + seq![b] + r);
        let c = crc8_of(x.drop_last());
        let d = crc8_of(y.drop_last());
        let l = t.last();
        assert(c != d ==> c ^ l != d ^ l) by (bit_vector);
        lemma_shift_is_injective(c ^ l, d ^ l, 8);
    }
}

/// A bit is shifted out at a time, and where it is set the polynomial is taken off.
pub proof fn checksum_goes_bit_by_bit(c: u8)
    ensures
        c < 128 ==> crc8_shift(c, 1) == 2 * c,
        c >= 128 ==> crc8_shift(c, 1) == ((2 * c - 256) as u8) ^ 7,
{
    reveal_with_fuel(crc8_shift, 2);
    assert(c < 128 ==> c & 0x80 == 0 && (c << 1) == 2 * c) by (bit_vector);
    assert(c >= 128 ==> c & 0x80 != 0 && (c << 1) == 2 * c - 256) by (bit_vector);
}

/// A command goes out whole, with its checksum behind it.
pub proof fn commands_go_out_whole(command: Seq<u8>)
    ensures
        sealed(command).len() == command.len() + 1,
        sealed(command).drop_last() == command,
        sealed(command).last() == crc8_of(command),
{
    assert(sealed(command).drop_last() =~= command);
}

} // verus!
