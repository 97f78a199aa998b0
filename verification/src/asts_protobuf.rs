//! AST SpaceMobile frames.
//!
//! A frame is `[type (1)][sequence (4)][length (2)][payload (length)]`, with at
//! most 1024 payload bytes. Encoding writes into a buffer of the caller.

use crate::iridium_sbd::IridiumSBDMessage;
use crate::wire::{
    be_bytes,
    lemma_be_bytes_len,
    lemma_be_value_of_bytes,
    lemma_pow256,
    most_significant_first,
    overwritten,
    write_at,
    write_be,
};
use vstd::prelude::*;
use vstd::slice::slice_subrange;

verus! {

/// The largest payload of a frame.
pub const ASTS_MAX_PAYLOAD: u16 = 1024;

#[derive(Debug, Clone, Copy)]
pub struct ASTSProtobufHeader {
    pub message_type: u8,
    pub sequence: u32,
    pub length: u16,
}

#[derive(Debug, Clone, Copy)]
pub struct ASTSProtobufMessage {
    pub header: ASTSProtobufHeader,
    pub payload: [u8; 1024],
    pub payload_len: u16,
}

/// The bytes of a frame.
pub open spec fn asts_frame(message_type: u8, sequence: u32, length: u16, payload: Seq<u8>) -> Seq<
    u8,
> {
    seq![message_type] + be_bytes(sequence as nat, 4) + be_bytes(length as nat, 2) + payload
}

impl ASTSProtobufMessage {
    /// The payload fits the buffer.
    pub open spec fn wf(&self) -> bool {
        self.payload_len <= ASTS_MAX_PAYLOAD
    }

    /// The bytes of the payload.
    pub open spec fn content(&self) -> Seq<u8> {
        self.payload@.subrange(0, self.payload_len as int)
    }

    /// The bytes of the encoded frame.
    pub open spec fn encoded(&self) -> Seq<u8> {
        asts_frame(
            self.header.message_type,
            self.header.sequence,
            self.header.length,
            self.content(),
        )
    }

    /// A frame with an empty payload.
    pub fn new(message_type: u8, sequence: u32) -> (r: Self)
        ensures
            r.wf(),
            r.header == (ASTSProtobufHeader { message_type, sequence, length: 0 }),
            r.payload_len == 0,
            r.payload@ == Seq::new(1024, |i: int| 0u8),
    {
        let r = ASTSProtobufMessage {
            header: ASTSProtobufHeader { message_type, sequence, length: 0 },
            payload: [0u8; 1024],
            payload_len: 0,
        };
        assert(r.payload@ =~= Seq::new(1024, |i: int| 0u8));
        r
    }

    /// Takes `data` as the payload. `false`, and nothing changes, where it is
    /// too long.
    pub fn set_payload(&mut self, data: &[u8]) -> (r: bool)
        ensures
            r <==> data@.len() <= ASTS_MAX_PAYLOAD,
            !r ==> *final(self) == *old(self),
            r ==> {
                &&& final(self).wf()
                &&& final(self).content() == data@
                &&& final(self).payload_len == data@.len()
                &&& final(self).payload@ == overwritten(old(self).payload@, 0, data@)
                &&& final(self).header == (ASTSProtobufHeader {
                    length: data@.len() as u16,
                    ..old(self).header
                })
            },
    {
        if data.len() > 1024 {
            return false;
        }
        write_at(&mut self.payload, 0, data);
        self.payload_len = data.len() as u16;
        self.header.length = data.len() as u16;
        assert(self.content() =~= data@);
        true
    }

    /// Writes the frame at the start of `buffer` and returns its size. `None`,
    /// and nothing is written, where the buffer is too short.
    pub fn encode_to_buffer(&self, buffer: &mut [u8]) -> (r: Option<usize>)
        requires
            self.wf(),
        ensures
            r is Some <==> old(buffer)@.len() >= 7 + self.payload_len,
            r is None ==> final(buffer)@ == old(buffer)@,
            r matches Some(n) ==> {
                &&& n == 7 + self.payload_len == self.encoded().len()
                &&& final(buffer)@ == overwritten(old(buffer)@, 0, self.encoded())
            },
    {
        let total_size = self.total_size();
        proof {
            lemma_be_bytes_len(self.header.sequence as nat, 4);
            lemma_be_bytes_len(self.header.length as nat, 2);
        }
        if buffer.len() < total_size {
            return None;
        }
        buffer[0] = self.header.message_type;
        write_be(buffer, 1, self.header.sequence as u64, 4);
        write_be(buffer, 5, self.header.length as u64, 2);
        write_at(buffer, 7, self.payload_slice());
        assert(buffer@ =~= overwritten(old(buffer)@, 0, self.encoded()));
        Some(total_size)
    }

    /// Header and payload.
    pub fn total_size(&self) -> (r: usize)
        ensures
            r == 7 + self.payload_len,
    {
        7 + self.payload_len as usize
    }

    pub fn payload_slice(&self) -> (r: &[u8])
        requires
            self.wf(),
        ensures
            r@ == self.content(),
    {
        slice_subrange(self.payload.as_slice(), 0, self.payload_len as usize)
    }
}

/// Translates Iridium packets to AST SpaceMobile frames, numbering them.
pub struct ZeroCopyTranslator {
    sequence: u32,
}

impl ZeroCopyTranslator {
    /// The number that the next frame will carry.
    pub closed spec fn next_sequence(&self) -> u32 {
        self.sequence
    }

    pub fn new() -> (r: Self)
        ensures
            r.next_sequence() == 0,
    {
        ZeroCopyTranslator { sequence: 0 }
    }

    /// Translates with message type 1.
    pub fn translate(
        &mut self,
        iridium_msg: &IridiumSBDMessage,
        output_buffer: &mut [u8],
    ) -> (r: Option<usize>)
        requires
            iridium_msg.wf(),
        ensures
            translated(
                *iridium_msg,
                0x01,
                old(self).next_sequence(),
                final(self).next_sequence(),
                old(output_buffer)@,
                final(output_buffer)@,
                r,
            ),
    {
        self.translate_with_type(iridium_msg, 0x01, output_buffer)
    }

    /// Writes the packet's payload as a frame of the given type. The sequence
    /// number moves on even where the buffer is too short.
    pub fn translate_with_type(
        &mut self,
        iridium_msg: &IridiumSBDMessage,
        message_type: u8,
        output_buffer: &mut [u8],
    ) -> (r: Option<usize>)
        requires
            iridium_msg.wf(),
        ensures
            translated(
                *iridium_msg,
                message_type,
                old(self).next_sequence(),
                final(self).next_sequence(),
                old(output_buffer)@,
                final(output_buffer)@,
                r,
            ),
    {
        let mut asts_msg = ASTSProtobufMessage::new(message_type, self.sequence);
        if !asts_msg.set_payload(iridium_msg.payload_slice()) {
            return None;
        }
        self.sequence = self.sequence.wrapping_add(1);
        asts_msg.encode_to_buffer(output_buffer)
    }
}

/// The outcome of translating one packet: the sequence number moves on by one,
/// and the frame is written where it fits.
pub open spec fn translated(
    m: IridiumSBDMessage,
    message_type: u8,
    sequence: u32,
    next: u32,
    before: Seq<u8>,
    after: Seq<u8>,
    r: Option<usize>,
) -> bool {
    &&& next as nat == (sequence + 1) as nat % 0x1_0000_0000
    &&& r is Some <==> before.len() >= 7 + m.payload_len
    &&& r is None ==> after == before
    &&& r matches Some(n) ==> {
        &&& n == 7 + m.payload_len
        &&& after == overwritten(
            before,
            0,
            asts_frame(message_type, sequence, m.payload_len, m.content()),
        )
    }
}

/// One call of a translator: what went in, the buffer before and after, and the result.
pub struct TranslatorCall {
    pub message: IridiumSBDMessage,
    pub message_type: u8,
    pub before: Seq<u8>,
    pub after: Seq<u8>,
    pub result: Option<usize>,
}

/// Whether calls were made one after the other on one new translator, whose next
/// number was `numbers[i]` before call `i`.
pub open spec fn calls_of_new(numbers: Seq<u32>, calls: Seq<TranslatorCall>) -> bool {
    &&& numbers.len() == calls.len() + 1
    &&& numbers[0] == 0
    &&& forall|i: int|
        0 <= i < calls.len() ==> {
            let c = #[trigger] calls[i];
            translated(
                c.message,
                c.message_type,
                numbers[i],
                numbers[i + 1],
                c.before,
                c.after,
                c.result,
            )
        }
}

/// The call of a new translator that follows `k` others numbers its frame `k` modulo
/// 2^32, where the frame fits, whether or not the others found room in their buffers.
pub proof fn frames_are_numbered(numbers: Seq<u32>, calls: Seq<TranslatorCall>, k: nat)
    requires
        calls_of_new(numbers, calls),
        k < calls.len(),
    ensures
        numbers[k as int] == k % 0x1_0000_0000,
        calls[k as int].before.len() >= 7 + calls[k as int].message.payload_len ==> {
            &&& calls[k as int].result is Some
            &&& calls[k as int].after.subrange(1, 5) == be_bytes(k % 0x1_0000_0000, 4)
        },
    decreases k,
{
    if k > 0 {
        frames_are_numbered(numbers, calls, (k - 1) as nat);
        assert(calls[k - 1].result is Some || calls[k - 1].result is None);
    }
    let c = calls[k as int];
    if c.result is Some {
        let f = asts_frame(
            c.message_type,
            numbers[k as int],
            c.message.payload_len,
            c.message.content(),
        );
        lemma_be_bytes_len(numbers[k as int] as nat, 4);
        lemma_be_bytes_len(c.message.payload_len as nat, 2);
        assert(c.after.subrange(1, 5) =~= be_bytes(numbers[k as int] as nat, 4));
    }
}

impl Default for ZeroCopyTranslator {
    fn default() -> (r: Self)
        ensures
            r.next_sequence() == 0,
    {
        Self::new()
    }
}

/// A frame holds its type in one byte, its number in the next four and the length of its
/// payload in the next two, most significant byte first, and then the whole payload.
pub proof fn frame_holds_its_parts(message_type: u8, sequence: u32, length: u16, payload: Seq<u8>)
    ensures
        ({
            let f = asts_frame(message_type, sequence, length, payload);
            &&& f.len() == 7 + payload.len()
            &&& f[0] == message_type
            &&& 0x100_0000 * f[1] + 0x1_0000 * f[2] + 256 * f[3] + f[4] == sequence
            &&& 256 * f[5] + f[6] == length
            &&& f.skip(7) == payload
        }),
{
    let f = asts_frame(message_type, sequence, length, payload);
    lemma_pow256();
    lemma_be_value_of_bytes(sequence as nat, 4);
    lemma_be_value_of_bytes(length as nat, 2);
    most_significant_first(f[1], f[2], f[3], f[4]);
    most_significant_first(f[5], f[6], 0, 0);
    assert(seq![f[1], f[2], f[3], f[4]] =~= be_bytes(sequence as nat, 4));
    assert(seq![f[5], f[6]] =~= be_bytes(length as nat, 2));
    assert(f.skip(7) =~= payload);
}

/// A call that finds room writes the whole payload of its packet behind a header of seven
/// bytes, and leaves what is behind that in the buffer as it was.
pub proof fn calls_write_the_payload(
    m: IridiumSBDMessage,
    message_type: u8,
    sequence: u32,
    next: u32,
    before: Seq<u8>,
    after: Seq<u8>,
    r: Option<usize>,
)
    requires
        m.wf(),
        translated(m, message_type, sequence, next, before, after, r),
        before.len() >= 7 + m.payload_len,
    ensures
        r == Some((7 + m.payload_len) as usize),
        after.len() == before.len(),
        after[0] == message_type,
        256 * after[5] + after[6] == m.payload_len,
        after.subrange(7, 7 + m.payload_len) == m.payload@.subrange(0, m.payload_len as int),
        after.skip(7 + m.payload_len) == before.skip(7 + m.payload_len),
{
    let f = asts_frame(message_type, sequence, m.payload_len, m.content());
    frame_holds_its_parts(message_type, sequence, m.payload_len, m.content());
    assert(after.subrange(0, f.len() as int) =~= f);
    assert(after[0] == f[0] && after[5] == f[5] && after[6] == f[6]);
    assert(after.subrange(7, 7 + m.payload_len) =~= f.skip(7));
    assert(after.skip(7 + m.payload_len) =~= before.skip(7 + m.payload_len));
}

} // verus!
