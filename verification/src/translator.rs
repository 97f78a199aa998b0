//! Translation of every protocol to the AST SpaceMobile cellular format.

use bytes::Bytes;
use crate::asts_protobuf::{asts_frame, translated, ZeroCopyTranslator};
use crate::compress::{zstd_decoded, zstd_encoded};
use crate::hfvhf::HFVHFMessage;
use crate::inmarsat_c::InmarsatCMessage;
use crate::iridium_sbd::{IridiumSBDMessage, MAX_PAYLOAD};
use crate::payload::{bytes_as_slice, bytes_content, bytes_from_vec};
use crate::protocol::{now_ms, Message, MessageView, Protocol};
use crate::rotation::{
    after,
    after_all,
    handed,
    last_left_is_held,
    left_as,
    turn_is_position,
    turns_repeat,
    turns_taken,
    untouched_is_kept,
    Handout,
    Rotation,
};
use crate::samsara::SamsaraMessage;
use crate::text::hex_roundtrip;
use crate::vsat::{VSATMessage, VSAT_LEVEL};
use crate::wire::{be_bytes, be_value, overwritten, push_be, push_bytes, read_u16};
use vstd::prelude::*;
use vstd::slice::slice_subrange;
use vstd::string::StringExecFns;
use vstd::utf8::encode_utf8;

verus! {

#[derive(Debug, Clone, Copy, PartialEq, Eq, Structural)]
pub enum TranslateError {
    InvalidProtocol,
    DataTooLarge,
    CodecError,
    CompressionError,
}

impl TranslateError {
    /// The error in words.
    pub fn message(&self) -> (r: &'static str)
        ensures
            r@ == match self {
                TranslateError::InvalidProtocol => "Invalid protocol"@,
                TranslateError::DataTooLarge => "Data exceeds protocol maximum size"@,
                TranslateError::CodecError => "Codec translation error"@,
                TranslateError::CompressionError => "Compression error"@,
            },
    {
        match self {
            TranslateError::InvalidProtocol => "Invalid protocol",
            TranslateError::DataTooLarge => "Data exceeds protocol maximum size",
            TranslateError::CodecError => "Codec translation error",
            TranslateError::CompressionError => "Compression error",
        }
    }
}

/// The cellular form of an Iridium packet with its checksum, which may be any: the
/// protocol byte and the payload.
pub open spec fn cellular_of_iridium(d: Seq<u8>) -> Option<Seq<u8>> {
    if crate::iridium_sbd::framed(d) && d.len() >= 5 + crate::iridium_sbd::length_field(d) {
        Some(seq![d[0]] + d.subrange(3, 3 + crate::iridium_sbd::length_field(d) as int))
    } else {
        None
    }
}

/// The cellular form of an Inmarsat C message: the message written anew.
pub open spec fn cellular_of_inmarsat(d: Seq<u8>) -> Option<Seq<u8>> {
    if crate::inmarsat_c::parses(d) {
        Some(crate::inmarsat_c::inmarsat_frame(crate::inmarsat_c::content_of(d)))
    } else {
        None
    }
}

/// The cellular form of a VSAT packet: the packet compressed, or as it is where
/// the compressor fails.
pub open spec fn cellular_of_vsat(d: Seq<u8>) -> Option<Seq<u8>> {
    if d.len() >= 16 {
        Some(
            match zstd_encoded(d, VSAT_LEVEL) {
                Some(c) => c,
                None => d,
            },
        )
    } else {
        None
    }
}

/// Whether a byte string gives back another: it is the same, or decompresses to it.
pub open spec fn unpacks_to(c: Seq<u8>, d: Seq<u8>) -> bool {
    c == d || zstd_decoded(c) == Some(d)
}

/// The cellular form of a radio frame: the frame without an odd last byte.
pub open spec fn cellular_of_hfvhf(d: Seq<u8>) -> Option<Seq<u8>> {
    if crate::hfvhf::parses(d) {
        Some(
            crate::hfvhf::hfvhf_frame(
                be_value(d.subrange(0, 4)) as u32,
                crate::hfvhf::modulation_of(d[4])->0,
                crate::hfvhf::samples_of(d.skip(5)),
            ),
        )
    } else {
        None
    }
}

/// The longest device id of a Samsara message that is translated, in bytes.
pub const MAX_DEVICE_ID: usize = 1024;

/// The cellular form of a Samsara message: a marker, then its fields without
/// their lengths.
pub open spec fn cellular_of_samsara(d: Seq<u8>) -> Option<Seq<u8>> {
    if crate::samsara::parses(d) && crate::samsara::id_length(d) <= MAX_DEVICE_ID {
        let m = crate::samsara::content_of(d);
        Some(
            seq![0x07u8] + encode_utf8(m.device_id) + be_bytes(m.timestamp as nat, 8) + be_bytes(
                m.latitude_bits as nat,
                8,
            ) + be_bytes(m.longitude_bits as nat, 8) + m.payload,
        )
    } else {
        None
    }
}

/// The cellular form of a payload, where it can be translated. It is a function
/// of the protocol and the payload alone.
pub open spec fn cellular_of(p: Protocol, d: Seq<u8>) -> Option<Seq<u8>> {
    match p {
        Protocol::IridiumSBD => cellular_of_iridium(d),
        Protocol::RockBLOCK => cellular_of_iridium(d),
        Protocol::InmarsatC => cellular_of_inmarsat(d),
        Protocol::VSAT => cellular_of_vsat(d),
        Protocol::HFVHF => cellular_of_hfvhf(d),
        Protocol::Samsara => cellular_of_samsara(d),
        Protocol::ASTSpaceMobile => Some(d),
        Protocol::NIDD => None,
        Protocol::LoRaMesh => None,
    }
}

/// The translation of a message, given the time at which it is made. A message
/// that is already cellular stays as it is.
pub open spec fn translation_of(m: MessageView, now: u64) -> Option<MessageView> {
    if m.protocol == Protocol::ASTSpaceMobile {
        Some(m)
    } else {
        match cellular_of(m.protocol, m.data) {
            Some(data) => Some(
                MessageView {
                    protocol: Protocol::ASTSpaceMobile,
                    data,
                    priority: m.priority,
                    timestamp: now,
                    t_event: now,
                    t_system: now,
                },
            ),
            None => None,
        }
    }
}

fn decode_iridium_sbd(d: &[u8]) -> (r: Option<Vec<u8>>)
    ensures
        r is Some <==> cellular_of_iridium(d@) is Some,
        r matches Some(v) ==> cellular_of_iridium(d@) == Some(v@),
{
    if d.len() < 5 {
        return None;
    }
    let length: u16 = read_u16(d, 1);
    if length > MAX_PAYLOAD || d.len() - 5 < length as usize {
        return None;
    }
    let payload = slice_subrange(d, 3, 3 + length as usize);
    let mut cellular: Vec<u8> = Vec::new();
    cellular.push(d[0]);
    push_bytes(&mut cellular, payload);
    assert(cellular@ =~= seq![d@[0]] + payload@);
    Some(cellular)
}

fn decode_inmarsat_c(d: &[u8]) -> (r: Option<Vec<u8>>)
    ensures
        r is Some <==> cellular_of_inmarsat(d@) is Some,
        r matches Some(v) ==> cellular_of_inmarsat(d@) == Some(v@),
{
    match InmarsatCMessage::parse(d) {
        Ok(m) => {
            proof {
                hex_roundtrip(d@.subrange(6, 10));
                hex_roundtrip(d@.subrange(10, 14));
            }
            Some(m.encode())
        },
        Err(_) => None,
    }
}

fn compress_for_cellular(d: &[u8]) -> (r: Option<Vec<u8>>)
    ensures
        r is Some <==> cellular_of_vsat(d@) is Some,
        r matches Some(v) ==> cellular_of_vsat(d@) == Some(v@),
        r is Some <==> d@.len() >= 16,
        r matches Some(v) ==> v@ == d@ || zstd_decoded(v@) == Some(d@),
{
    match VSATMessage::parse(d) {
        Some(m) => {
            proof {
                crate::wire::lemma_be_bytes_of_value(d@.subrange(0, 4));
                assert(m.packet() =~= d@);
            }
            Some(m.encode())
        },
        None => None,
    }
}

fn codec_translate_to_digital(d: &[u8]) -> (r: Option<Vec<u8>>)
    ensures
        r is Some <==> cellular_of_hfvhf(d@) is Some,
        r matches Some(v) ==> cellular_of_hfvhf(d@) == Some(v@),
{
    match HFVHFMessage::parse(d) {
        Some(m) => Some(m.codec_translate_to_digital()),
        None => None,
    }
}

fn decode_samsara(d: &[u8]) -> (r: Option<Vec<u8>>)
    ensures
        r is Some <==> cellular_of_samsara(d@) is Some,
        r matches Some(v) ==> cellular_of_samsara(d@) == Some(v@),
{
    match SamsaraMessage::parse(d) {
        Some(m) => {
            if read_u16(d, 1) as usize > MAX_DEVICE_ID {
                return None;
            }
            let mut cellular: Vec<u8> = Vec::new();
            cellular.push(0x07);
            push_bytes(&mut cellular, m.device_id.as_str().as_bytes());
            push_be(&mut cellular, m.timestamp, 8);
            push_be(&mut cellular, m.latitude_bits, 8);
            push_be(&mut cellular, m.longitude_bits, 8);
            push_bytes(&mut cellular, bytes_as_slice(&m.payload));
            assert(Some(cellular@) =~= cellular_of_samsara(d@));
            Some(cellular)
        },
        None => None,
    }
}

/// Translates messages one at a time.
pub struct Translator {
    buffer_size: usize,
    zero_copy_translator: ZeroCopyTranslator,
}

impl Translator {
    /// How many messages may wait for translation.
    pub closed spec fn queue_size(&self) -> nat {
        self.buffer_size as nat
    }

    /// The number of the next frame of the hot path.
    pub closed spec fn next_sequence(&self) -> u32 {
        self.zero_copy_translator.next_sequence()
    }

    pub fn new(buffer_size: usize) -> (r: Self)
        ensures
            r.queue_size() == buffer_size,
            r.next_sequence() == 0,
    {
        Translator { buffer_size, zero_copy_translator: ZeroCopyTranslator::new() }
    }

    /// How many messages may wait for translation.
    pub fn buffer_size(&self) -> (r: usize)
        ensures
            r == self.queue_size(),
    {
        self.buffer_size
    }

    /// Writes the frame of an Iridium packet into `output_buffer`, without heap
    /// allocation.
    pub fn translate_iridium_to_asts_hot_path(
        iridium_data: &[u8],
        output_buffer: &mut [u8],
        translator: &mut ZeroCopyTranslator,
    ) -> (r: Result<usize, TranslateError>)
        ensures
            hot_path(
                iridium_data@,
                old(translator).next_sequence(),
                final(translator).next_sequence(),
                old(output_buffer)@,
                final(output_buffer)@,
                r,
            ),
    {
        let iridium_msg = match IridiumSBDMessage::parse(iridium_data) {
            Some(m) => m,
            None => {
                return Err(TranslateError::InvalidProtocol);
            },
        };
        match translator.translate(&iridium_msg, output_buffer) {
            Some(n) => Ok(n),
            None => Err(TranslateError::DataTooLarge),
        }
    }

    /// The cellular form of a payload.
    pub fn translate_payload(protocol: Protocol, data: &Bytes) -> (r: Result<Bytes, TranslateError>)
        ensures
            match r {
                Ok(b) => cellular_of(protocol, bytes_content(*data)) == Some(bytes_content(b)),
                Err(e) => cellular_of(protocol, bytes_content(*data)) is None && e
                    == TranslateError::InvalidProtocol,
            },
            protocol == Protocol::VSAT ==> match r {
                Ok(b) => unpacks_to(bytes_content(b), bytes_content(*data)),
                Err(_) => bytes_content(*data).len() < 16,
            },
    {
        let d = bytes_as_slice(data);
        let cellular = match protocol {
            Protocol::IridiumSBD => decode_iridium_sbd(d),
            Protocol::InmarsatC => decode_inmarsat_c(d),
            Protocol::VSAT => compress_for_cellular(d),
            Protocol::HFVHF => codec_translate_to_digital(d),
            Protocol::RockBLOCK => decode_iridium_sbd(d),
            Protocol::Samsara => decode_samsara(d),
            Protocol::ASTSpaceMobile => {
                return Ok(data.clone());
            },
            Protocol::NIDD => None,
            Protocol::LoRaMesh => None,
        };
        match cellular {
            Some(v) => Ok(bytes_from_vec(v)),
            None => Err(TranslateError::InvalidProtocol),
        }
    }

    /// The translation of a message, made at the given time.
    pub fn translate_at(message: Message, now: u64) -> (r: Result<Message, TranslateError>)
        ensures
            match r {
                Ok(m) => translation_of(message@, now) == Some(m@),
                Err(e) => translation_of(message@, now) is None && e
                    == TranslateError::InvalidProtocol,
            },
            message@.protocol == Protocol::VSAT ==> match r {
                Ok(m) => unpacks_to(m@.data, message@.data),
                Err(_) => message@.data.len() < 16,
            },
    {
        if message.protocol == Protocol::ASTSpaceMobile {
            return Ok(message);
        }
        match Self::translate_payload(message.protocol, &message.data) {
            Ok(data) => Ok(
                Message::new_with_temporal(
                    Protocol::ASTSpaceMobile,
                    data,
                    message.priority,
                    now,
                    now,
                ),
            ),
            Err(e) => Err(e),
        }
    }

    /// The translation of a message, made now.
    pub fn translate_sync(&self, message: Message) -> (r: Result<Message, TranslateError>)
        ensures
            match r {
                Ok(m) => translation_of(message@, m@.t_system) == Some(m@),
                Err(e) => cellular_of(message@.protocol, message@.data) is None && e
                    == TranslateError::InvalidProtocol,
            },
    {
        Self::translate_at(message, now_ms())
    }

    /// The numbering of the hot path.
    pub fn zero_copy_translator(&mut self) -> (r: &mut ZeroCopyTranslator)
        ensures
            r.next_sequence() == old(self).next_sequence(),
            final(self).next_sequence() == final(r).next_sequence(),
            final(self).queue_size() == old(self).queue_size(),
    {
        &mut self.zero_copy_translator
    }
}

/// The outcome of the hot path: an error where the bytes are no packet or the
/// buffer is too short, the frame in the buffer otherwise.
pub open spec fn hot_path(
    data: Seq<u8>,
    sequence: u32,
    next: u32,
    before: Seq<u8>,
    after: Seq<u8>,
    r: Result<usize, TranslateError>,
) -> bool {
    let n = 7 + crate::iridium_sbd::length_field(data);
    if !crate::iridium_sbd::parses(data) {
        r == Err::<usize, TranslateError>(TranslateError::InvalidProtocol) && after == before
            && next == sequence
    } else {
        &&& next as nat == (sequence + 1) as nat % 0x1_0000_0000
        &&& before.len() < n ==> r == Err::<usize, TranslateError>(TranslateError::DataTooLarge)
            && after == before
        &&& before.len() >= n ==> r == Ok::<usize, TranslateError>(n as usize) && after
            == overwritten(
            before,
            0,
            asts_frame(
                0x01,
                sequence,
                (n - 7) as u16,
                data.subrange(3, 3 + crate::iridium_sbd::length_field(data) as int),
            ),
        )
    }
}

/// Writes the frame of an Iridium packet, with sequence number 0, into
/// `output_buffer`. Nothing is allocated and nothing is awaited.
pub fn translate_iridium_to_asts_sync(iridium_data: &[u8], output_buffer: &mut [u8]) -> (r: Result<
    usize,
    TranslateError,
>)
    ensures
        exists|next: u32| #[trigger]
            hot_path(iridium_data@, 0, next, old(output_buffer)@, final(output_buffer)@, r),
{
    let mut translator = ZeroCopyTranslator::new();
    let r = Translator::translate_iridium_to_asts_hot_path(
        iridium_data,
        output_buffer,
        &mut translator,
    );
    assert(hot_path(
        iridium_data@,
        0,
        translator.next_sequence(),
        old(output_buffer)@,
        output_buffer@,
        r,
    ));
    r
}

/// Buffers of 2048 bytes that are handed out in turn.
pub struct BufferPool {
    buffers: Vec<[u8; 2048]>,
    next_index: usize,
}

impl View for BufferPool {
    type V = Seq<[u8; 2048]>;

    closed spec fn view(&self) -> Seq<[u8; 2048]> {
        self.buffers@
    }
}

impl BufferPool {
    /// The position of the buffer that is handed out next.
    pub closed spec fn turn(&self) -> nat {
        self.next_index as nat
    }

    /// The buffers and the turn.
    pub open spec fn rotation(&self) -> Rotation<[u8; 2048]> {
        Rotation { items: self@, turn: self.turn() }
    }

    /// The next turn is that of a buffer of the pool, where it has any.
    pub closed spec fn wf(&self) -> bool {
        self.buffers@.len() == 0 || self.next_index < self.buffers@.len()
    }

    /// `size` buffers of zeros.
    pub fn new(size: usize) -> (r: Self)
        ensures
            r.wf(),
            r.turn() == 0,
            r@.len() == size,
            forall|i: int| 0 <= i < size ==> (#[trigger] r@[i])@ == Seq::new(2048, |k: int| 0u8),
    {
        let mut buffers: Vec<[u8; 2048]> = Vec::new();
        let mut i: usize = 0;
        while i < size
            invariant
                i <= size,
                buffers@.len() == i,
                forall|k: int|
                    0 <= k < i ==> (#[trigger] buffers@[k])@ == Seq::new(2048, |k: int| 0u8),
            decreases size - i,
        {
            let b = [0u8; 2048];
            assert(b@ =~= Seq::new(2048, |k: int| 0u8));
            buffers.push(b);
            i = i + 1;
        }
        BufferPool { buffers, next_index: 0 }
    }

    /// The buffer whose turn it is; the turn moves on to the next one.
    pub fn get_buffer(&mut self) -> (r: &mut [u8; 2048])
        requires
            old(self).wf(),
            old(self)@.len() > 0,
        ensures
            *r == old(self)@[old(self).turn() as int],
            final(self).rotation() == after(old(self).rotation(), Handout::Next { left: *final(r) }),
            final(self).wf(),
    {
        let index: usize = self.next_index;
        assert(index < self.buffers.len());
        self.next_index = (index + 1) % self.buffers.len();
        &mut self.buffers[index]
    }

    /// The buffer at a position, counted round the pool.
    pub fn get_buffer_at(&mut self, index: usize) -> (r: &mut [u8; 2048])
        requires
            old(self).wf(),
            old(self)@.len() > 0,
        ensures
            *r == old(self)@[index as int % old(self)@.len() as int],
            final(self).rotation() == after(
                old(self).rotation(),
                Handout::At { index: index as nat, left: *final(r) },
            ),
            final(self).wf(),
    {
        let len: usize = self.buffers.len();
        &mut self.buffers[index % len]
    }
}

/// In a new pool of `n` buffers, the call of `get_buffer` that follows `k` others hands
/// out buffer `k` modulo `n`, whatever calls of `get_buffer_at` stand in between. So `n`
/// such calls in a row hand out `n` different buffers, and the next one starts again.
pub proof fn pool_goes_round(pool: BufferPool, calls: Seq<Handout<[u8; 2048]>>, i: int, j: int)
    requires
        pool.turn() == 0,
        pool@.len() > 0,
        0 <= i <= j < calls.len(),
        calls[i] is Next,
        calls[j] is Next,
    ensures
        handed(pool.rotation(), calls, i) == turns_taken(calls.take(i)) % pool@.len(),
        0 < turns_taken(calls.take(j)) - turns_taken(calls.take(i)) < pool@.len() ==> handed(
            pool.rotation(),
            calls,
            i,
        ) != handed(pool.rotation(), calls, j),
        turns_taken(calls.take(j)) - turns_taken(calls.take(i)) == pool@.len() ==> handed(
            pool.rotation(),
            calls,
            i,
        ) == handed(pool.rotation(), calls, j),
{
    turn_is_position(pool.rotation(), calls, i);
    turns_repeat(pool.rotation(), calls, i, j);
}

/// A buffer of a new pool that no call was for, or that was always left as it was
/// found, holds 2048 zeros.
pub proof fn unwritten_buffer_is_zero(
    pool: BufferPool,
    calls: Seq<Handout<[u8; 2048]>>,
    position: int,
)
    requires
        pool.turn() == 0,
        0 <= position < pool@.len(),
        forall|i: int|
            0 <= i < pool@.len() ==> (#[trigger] pool@[i])@ == Seq::new(2048, |k: int| 0u8),
        forall|j: int|
            0 <= j < calls.len() && #[trigger] handed(pool.rotation(), calls, j) == position
                ==> left_as(calls[j]) == after_all(pool.rotation(), calls.take(j)).items[position],
    ensures
        after_all(pool.rotation(), calls).items[position]@ == Seq::new(2048, |k: int| 0u8),
{
    untouched_is_kept(pool.rotation(), calls, position);
}

/// A buffer holds what it was left with by the last call that handed it out.
pub proof fn written_buffer_is_kept(pool: BufferPool, calls: Seq<Handout<[u8; 2048]>>, i: int)
    requires
        pool.turn() == 0,
        pool@.len() > 0,
        0 <= i < calls.len(),
        forall|j: int|
            i < j < calls.len() ==> #[trigger] handed(pool.rotation(), calls, j) != handed(
                pool.rotation(),
                calls,
                i,
            ),
    ensures
        after_all(pool.rotation(), calls).items[handed(pool.rotation(), calls, i)] == left_as(
            calls[i],
        ),
{
    last_left_is_held(pool.rotation(), calls, i);
}

/// Translating a translation changes nothing.
pub proof fn translation_is_final(m: MessageView, now: u64, later: u64)
    requires
        translation_of(m, now) is Some,
    ensures
        translation_of(translation_of(m, now)->0, later) == translation_of(m, now),
        (translation_of(m, now)->0).protocol == Protocol::ASTSpaceMobile,
        (translation_of(m, now)->0).priority == m.priority,
{
}

/// Messages of one protocol with one payload have one translation, up to the
/// time at which it is made: it may be cached under protocol and payload.
pub proof fn translation_by_payload(a: MessageView, b: MessageView, now: u64)
    requires
        a.protocol == b.protocol,
        a.protocol != Protocol::ASTSpaceMobile,
        a.data == b.data,
    ensures
        translation_of(a, now) is Some <==> translation_of(b, now) is Some,
        translation_of(a, now) is Some ==> (translation_of(a, now)->0).data == (translation_of(
            b,
            now,
        )->0).data,
{
}

/// A translation is cellular, keeps the urgency of its message, and bears the time at
/// which it was made; what is cellular already is handed on as it is.
pub proof fn translation_keeps_urgency(m: MessageView, now: u64)
    ensures
        m.protocol == Protocol::ASTSpaceMobile ==> translation_of(m, now) == Some(m),
        translation_of(m, now) matches Some(t) ==> {
            &&& t.protocol == Protocol::ASTSpaceMobile
            &&& t.priority == m.priority
            &&& m.protocol != Protocol::ASTSpaceMobile ==> t.timestamp == now && t.t_event == now
                && t.t_system == now
        },
{
}

/// Whatever the bytes, a message of a protocol that only the cellular side speaks has
/// no translation.
pub proof fn cellular_protocols_are_not_translated(m: MessageView, now: u64)
    requires
        m.protocol == Protocol::NIDD || m.protocol == Protocol::LoRaMesh,
    ensures
        translation_of(m, now) is None,
{
}

/// A packet of Iridium or RockBLOCK is translated whole: its protocol byte, then every
/// byte of its payload and nothing else, whatever its checksum and whatever follows it.
pub proof fn iridium_payload_is_kept(
    m: MessageView,
    now: u64,
    protocol: u8,
    payload: Seq<u8>,
    checksum: Seq<u8>,
    rest: Seq<u8>,
)
    requires
        m.protocol == Protocol::IridiumSBD || m.protocol == Protocol::RockBLOCK,
        payload.len() <= 340,
        checksum.len() == 2,
        m.data == seq![protocol, (payload.len() / 256) as u8, (payload.len() % 256) as u8]
            + payload + checksum + rest,
    ensures
        translation_of(m, now) matches Some(t) && {
            &&& t.data.len() == 1 + payload.len()
            &&& t.data[0] == protocol
            &&& t.data.skip(1) == payload
        },
{
    let d = m.data;
    let hi = (payload.len() / 256) as u8;
    let lo = (payload.len() % 256) as u8;
    crate::wire::most_significant_first(hi, lo, 0, 0);
    assert(d.subrange(1, 3) =~= seq![hi, lo]);
    assert(d.subrange(3, 3 + payload.len() as int) =~= payload);
    let t = translation_of(m, now)->0;
    assert(t.data.skip(1) =~= payload);
}

/// A byte string is no packet of Iridium or RockBLOCK where it is too short for what it
/// announces and a checksum, or announces more than 340 bytes.
pub proof fn short_iridium_is_refused(m: MessageView, now: u64)
    requires
        m.protocol == Protocol::IridiumSBD || m.protocol == Protocol::RockBLOCK,
        m.data.len() < 5 || m.data.len() < 5 + 256 * m.data[1] + m.data[2] || 256 * m.data[1]
            + m.data[2] > 340,
    ensures
        translation_of(m, now) is None,
{
    if m.data.len() >= 3 {
        crate::wire::most_significant_first(m.data[1], m.data[2], 0, 0);
        assert(m.data.subrange(1, 3) =~= seq![m.data[1], m.data[2]]);
    }
}

/// A message of Inmarsat C is translated where it is a good one. Up to 128 bytes it stays
/// as it is; a longer one is cut to 128 bytes, of which only the checksum is new, and is
/// a good message again.
pub proof fn inmarsat_is_kept(m: MessageView, now: u64)
    requires
        m.protocol == Protocol::InmarsatC,
    ensures
        translation_of(m, now) is Some <==> crate::inmarsat_c::parses(m.data),
        translation_of(m, now) matches Some(t) ==> {
            &&& m.data.len() <= 128 ==> t.data == m.data
            &&& m.data.len() > 128 ==> t.data.len() == 128 && t.data.subrange(0, 126)
                == m.data.subrange(0, 126)
            &&& crate::inmarsat_c::parses(t.data)
        },
{
    let d = m.data;
    if crate::inmarsat_c::parses(d) {
        let c = crate::inmarsat_c::content_of(d);
        let body = crate::inmarsat_c::inmarsat_body(c);
        let f = crate::inmarsat_c::inmarsat_frame(c);
        crate::wire::lemma_be_bytes_of_value(d.subrange(0, 4));
        crate::wire::lemma_be_bytes_of_value(d.subrange(4, 6));
        crate::wire::lemma_be_bytes_of_value(d.subrange(d.len() - 2, d.len() as int));
        crate::wire::lemma_pow256();
        hex_roundtrip(d.subrange(6, 10));
        hex_roundtrip(d.subrange(10, 14));
        assert(d.subrange(6, 10).subrange(0, 4) =~= d.subrange(6, 10));
        assert(d.subrange(10, 14).subrange(0, 4) =~= d.subrange(10, 14));
        let n: int = if d.len() <= 128 {
            d.len() - 2
        } else {
            126
        };
        assert(body =~= d.subrange(0, n));
        crate::wire::lemma_be_value_of_bytes(crate::iridium_sbd::crc16_ccitt_of(body) as nat, 2);
        assert(f.subrange(0, f.len() - 2) =~= body);
        assert(f.subrange(f.len() - 2, f.len() as int) =~= be_bytes(
            crate::iridium_sbd::crc16_ccitt_of(body) as nat,
            2,
        ));
        assert(f.subrange(0, 4) =~= d.subrange(0, 4));
        if d.len() <= 128 {
            assert(f =~= d);
        } else {
            assert(f.subrange(0, 126) =~= d.subrange(0, 126));
        }
    }
}

/// A radio frame of at least eight bytes with a known modulation is translated: it stays
/// as it is, but for an odd last byte.
pub proof fn radio_frame_is_kept(m: MessageView, now: u64)
    requires
        m.protocol == Protocol::HFVHF,
    ensures
        translation_of(m, now) is Some <==> m.data.len() >= 8 && m.data[4] < 4,
        translation_of(m, now) matches Some(t) ==> {
            &&& t.data.is_prefix_of(m.data)
            &&& t.data.len() % 2 == 1
            &&& m.data.len() - 1 <= t.data.len() <= m.data.len()
        },
{
    let d = m.data;
    if d.len() >= 8 && d[4] < 4 {
        let t = translation_of(m, now)->0.data;
        let s = crate::hfvhf::samples_of(d.skip(5));
        let b = crate::hfvhf::sample_bytes(s);
        crate::wire::lemma_be_bytes_of_value(d.subrange(0, 4));
        crate::wire::lemma_pow256();
        assert forall|j: int| 0 <= j < b.len() implies #[trigger] b[j] == d[5 + j] by {
            let i = j / 2;
            assert(d.skip(5)[2 * i] == d[5 + 2 * i] && d.skip(5)[2 * i + 1] == d[5 + 2 * i + 1]);
            let w = d[5 + 2 * i + 1] * 256 + d[5 + 2 * i];
            assert(crate::hfvhf::sample_word(s[i]) == w);
        }
        assert(t =~= d.subrange(0, 5 + b.len() as int));
    }
}

/// A Samsara message is translated to a 7 and all of its fields without the two lengths:
/// device id, time, coordinates and payload, byte for byte. What follows it is left out.
pub proof fn samsara_fields_are_kept(
    m: MessageView,
    now: u64,
    id: Seq<u8>,
    fields: Seq<u8>,
    payload: Seq<u8>,
    rest: Seq<u8>,
)
    requires
        m.protocol == Protocol::Samsara,
        id.len() <= 1024,
        vstd::utf8::valid_utf8(id),
        fields.len() == 24,
        payload.len() <= u32::MAX,
        m.data == seq![1u8] + be_bytes(id.len(), 2) + id + fields + be_bytes(payload.len(), 4)
            + payload + rest,
    ensures
        translation_of(m, now) matches Some(t) && t.data == seq![7u8] + id + fields + payload,
{
    let d = m.data;
    let n = id.len() as int;
    crate::wire::lemma_pow256();
    crate::wire::lemma_be_value_of_bytes(id.len(), 2);
    crate::wire::lemma_be_value_of_bytes(payload.len(), 4);
    assert(d.subrange(1, 3) =~= be_bytes(id.len(), 2));
    assert(d.subrange(3, 3 + n) =~= id);
    assert(d.subrange(n + 27, n + 31) =~= be_bytes(payload.len(), 4));
    assert(d.subrange(n + 31, n + 31 + payload.len()) =~= payload);
    assert(d.subrange(n + 3, n + 11) =~= fields.subrange(0, 8));
    assert(d.subrange(n + 11, n + 19) =~= fields.subrange(8, 16));
    assert(d.subrange(n + 19, n + 27) =~= fields.subrange(16, 24));
    crate::wire::lemma_be_bytes_of_value(fields.subrange(0, 8));
    crate::wire::lemma_be_bytes_of_value(fields.subrange(8, 16));
    crate::wire::lemma_be_bytes_of_value(fields.subrange(16, 24));
    vstd::utf8::decode_utf8_encode_utf8(id);
    assert(fields =~= fields.subrange(0, 8) + fields.subrange(8, 16) + fields.subrange(16, 24));
    let t = translation_of(m, now)->0;
    assert(t.data =~= seq![7u8] + id + fields + payload);
}

/// A Samsara message is refused where its device id has more than 1024 bytes, where its
/// version is not 1, or where it has fewer than 31 bytes.
pub proof fn bad_samsara_is_refused(m: MessageView, now: u64)
    requires
        m.protocol == Protocol::Samsara,
        m.data.len() < 31 || m.data[0] != 1 || 256 * m.data[1] + m.data[2] > 1024,
    ensures
        translation_of(m, now) is None,
{
    if m.data.len() >= 3 {
        crate::wire::most_significant_first(m.data[1], m.data[2], 0, 0);
        assert(m.data.subrange(1, 3) =~= seq![m.data[1], m.data[2]]);
    }
}

/// A VSAT packet has a cellular form exactly where it is of at least 16 bytes.
pub proof fn vsat_is_translated(m: MessageView, now: u64)
    requires
        m.protocol == Protocol::VSAT,
    ensures
        translation_of(m, now) is Some <==> m.data.len() >= 16,
{
}

/// The hot path writes a good packet as a frame of type 1 with the number it has come to,
/// the length of the payload and the whole payload, and leaves the rest of the buffer
/// alone. The number moves on by one.
pub proof fn hot_path_writes_the_packet(
    protocol: u8,
    payload: Seq<u8>,
    sequence: u32,
    next: u32,
    before: Seq<u8>,
    after: Seq<u8>,
    r: Result<usize, TranslateError>,
)
    requires
        payload.len() <= 340,
        before.len() >= 7 + payload.len(),
        hot_path(
            seq![protocol, (payload.len() / 256) as u8, (payload.len() % 256) as u8] + payload,
            sequence,
            next,
            before,
            after,
            r,
        ),
    ensures
        r == Ok::<usize, TranslateError>((7 + payload.len()) as usize),
        after.len() == before.len(),
        after[0] == 1,
        after.subrange(1, 5) == be_bytes(sequence as nat, 4),
        after.subrange(5, 7) == seq![(payload.len() / 256) as u8, (payload.len() % 256) as u8],
        after.subrange(7, 7 + payload.len() as int) == payload,
        after.skip(7 + payload.len() as int) == before.skip(7 + payload.len() as int),
        next == if sequence == u32::MAX {
            0
        } else {
            sequence + 1
        },
{
    let hi = (payload.len() / 256) as u8;
    let lo = (payload.len() % 256) as u8;
    let data = seq![protocol, hi, lo] + payload;
    crate::wire::most_significant_first(hi, lo, 0, 0);
    assert(data.subrange(1, 3) =~= seq![hi, lo]);
    assert(data.subrange(3, 3 + payload.len() as int) =~= payload);
    crate::wire::lemma_be_bytes_len(sequence as nat, 4);
    crate::wire::lemma_be_bytes_of_value(seq![hi, lo]);
    let f = asts_frame(0x01, sequence, payload.len() as u16, payload);
    assert(f =~= seq![1u8] + be_bytes(sequence as nat, 4) + seq![hi, lo] + payload);
    assert(after.subrange(1, 5) =~= be_bytes(sequence as nat, 4));
    assert(after.subrange(5, 7) =~= seq![hi, lo]);
    assert(after.subrange(7, 7 + payload.len() as int) =~= payload);
    assert(after.skip(7 + payload.len() as int) =~= before.skip(7 + payload.len() as int));
}

} // verus!
