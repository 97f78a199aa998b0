//! Translation results that own their bytes.

use bytes::Bytes;
use crate::asts_protobuf::{asts_frame, translated, ZeroCopyTranslator};
use crate::iridium_sbd::IridiumSBDMessage;
use crate::payload::{bytes_as_slice, bytes_content, bytes_copy_from_slice};
use crate::rotation::{
    after,
    after_all,
    handed,
    last_left_is_held,
    left_as,
    turn_is_position,
    turns_repeat,
    turns_taken,
    Handout,
    Rotation,
};
use crate::wire::lemma_be_bytes_len;
use vstd::prelude::*;
use vstd::slice::slice_subrange;

verus! {

/// The bytes of a translation and their number.
#[derive(Debug)]
pub struct SafeTranslationResult {
    pub data: Bytes,
    pub size: usize,
}

impl Clone for SafeTranslationResult {
    fn clone(&self) -> (r: Self)
        ensures
            bytes_content(r.data) == bytes_content(self.data),
            r.size == self.size,
    {
        SafeTranslationResult { data: self.data.clone(), size: self.size }
    }
}

impl SafeTranslationResult {
    pub fn new(data: Bytes) -> (r: Self)
        ensures
            r.data == data,
            r.size == bytes_content(data).len(),
    {
        let size: usize = bytes_as_slice(&data).len();
        SafeTranslationResult { data, size }
    }

    pub fn as_slice(&self) -> (r: &[u8])
        ensures
            r@ == bytes_content(self.data),
    {
        bytes_as_slice(&self.data)
    }
}

/// Buffers of one size that are handed out in turn.
pub struct TranslationArena {
    buffers: Vec<Vec<u8>>,
    next_index: usize,
    buffer_size: usize,
}

impl View for TranslationArena {
    type V = Seq<Vec<u8>>;

    closed spec fn view(&self) -> Seq<Vec<u8>> {
        self.buffers@
    }
}

/// A string of zeros.
pub open spec fn zeros(n: nat) -> Seq<u8> {
    Seq::new(n, |i: int| 0u8)
}

impl TranslationArena {
    /// The position of the buffer that is handed out next.
    pub closed spec fn turn(&self) -> nat {
        self.next_index as nat
    }

    /// The buffers and the turn.
    pub open spec fn rotation(&self) -> Rotation<Vec<u8>> {
        Rotation { items: self@, turn: self.turn() }
    }

    /// The size with which the buffers were made.
    pub closed spec fn made_size(&self) -> nat {
        self.buffer_size as nat
    }

    /// The next turn is that of a buffer of the arena, where it has any.
    pub closed spec fn wf(&self) -> bool {
        self.buffers@.len() == 0 || self.next_index < self.buffers@.len()
    }

    /// `pool_size` buffers of `buffer_size` zeros.
    pub fn new(pool_size: usize, buffer_size: usize) -> (r: Self)
        ensures
            r.wf(),
            r.turn() == 0,
            r.made_size() == buffer_size,
            r@.len() == pool_size,
            forall|i: int| 0 <= i < pool_size ==> (#[trigger] r@[i])@ == zeros(buffer_size as nat),
    {
        let mut buffers: Vec<Vec<u8>> = Vec::new();
        let mut i: usize = 0;
        while i < pool_size
            invariant
                i <= pool_size,
                buffers@.len() == i,
                forall|k: int|
                    0 <= k < i ==> (#[trigger] buffers@[k])@ == zeros(buffer_size as nat),
            decreases pool_size - i,
        {
            let b: Vec<u8> = vec![0u8; buffer_size];
            assert(b@ =~= zeros(buffer_size as nat));
            buffers.push(b);
            i = i + 1;
        }
        TranslationArena { buffers, next_index: 0, buffer_size }
    }

    /// The buffer whose turn it is; the turn moves on to the next one.
    pub fn get_buffer(&mut self) -> (r: &mut Vec<u8>)
        requires
            old(self).wf(),
            old(self)@.len() > 0,
        ensures
            *r == old(self)@[old(self).turn() as int],
            final(self).rotation() == after(old(self).rotation(), Handout::Next { left: *final(r) }),
            final(self).made_size() == old(self).made_size(),
            final(self).wf(),
    {
        let index: usize = self.next_index;
        assert(index < self.buffers.len());
        self.next_index = (index + 1) % self.buffers.len();
        &mut self.buffers[index]
    }

    /// The buffer at a position, counted round the arena.
    pub fn get_buffer_at(&mut self, index: usize) -> (r: &mut Vec<u8>)
        requires
            old(self).wf(),
            old(self)@.len() > 0,
        ensures
            *r == old(self)@[index as int % old(self)@.len() as int],
            final(self).rotation() == after(
                old(self).rotation(),
                Handout::At { index: index as nat, left: *final(r) },
            ),
            final(self).made_size() == old(self).made_size(),
            final(self).wf(),
    {
        let actual_index: usize = index % self.buffers.len();
        &mut self.buffers[actual_index]
    }

    /// A copy of the first `len` bytes of a buffer.
    pub fn clone_to_bytes(&self, buffer: &[u8], len: usize) -> (r: Bytes)
        requires
            len <= buffer@.len(),
        ensures
            bytes_content(r) == buffer@.subrange(0, len as int),
    {
        bytes_copy_from_slice(slice_subrange(buffer, 0, len))
    }

    /// A copy of the first `len` bytes of the buffer at a position.
    pub fn clone_to_bytes_at(&self, index: usize, len: usize) -> (r: Bytes)
        requires
            self@.len() > 0,
            len <= self@[index as int % self@.len() as int]@.len(),
        ensures
            bytes_content(r) == self@[index as int % self@.len() as int]@.subrange(0, len as int),
    {
        let buffer = &self.buffers[index % self.buffers.len()];
        bytes_copy_from_slice(slice_subrange(buffer.as_slice(), 0, len))
    }
}

/// In a new arena of `n` buffers, the call of `get_buffer` that follows `k` others hands
/// out buffer `k` modulo `n`, whatever calls of `get_buffer_at` stand in between. So `n`
/// such calls in a row hand out `n` different buffers, and the next one starts again.
pub proof fn arena_goes_round(
    arena: TranslationArena,
    calls: Seq<Handout<Vec<u8>>>,
    i: int,
    j: int,
)
    requires
        arena.turn() == 0,
        arena@.len() > 0,
        0 <= i <= j < calls.len(),
        calls[i] is Next,
        calls[j] is Next,
    ensures
        handed(arena.rotation(), calls, i) == turns_taken(calls.take(i)) % arena@.len(),
        0 < turns_taken(calls.take(j)) - turns_taken(calls.take(i)) < arena@.len() ==> handed(
            arena.rotation(),
            calls,
            i,
        ) != handed(arena.rotation(), calls, j),
        turns_taken(calls.take(j)) - turns_taken(calls.take(i)) == arena@.len() ==> handed(
            arena.rotation(),
            calls,
            i,
        ) == handed(arena.rotation(), calls, j),
{
    turn_is_position(arena.rotation(), calls, i);
    turns_repeat(arena.rotation(), calls, i, j);
}

/// A buffer of an arena holds what it was left with by the last call that handed it
/// out.
pub proof fn arena_buffer_is_as_left(
    arena: TranslationArena,
    calls: Seq<Handout<Vec<u8>>>,
    i: int,
)
    requires
        arena.turn() == 0,
        arena@.len() > 0,
        0 <= i < calls.len(),
        forall|j: int|
            i < j < calls.len() ==> #[trigger] handed(arena.rotation(), calls, j) != handed(
                arena.rotation(),
                calls,
                i,
            ),
    ensures
        after_all(arena.rotation(), calls).items[handed(arena.rotation(), calls, i)] == left_as(
            calls[i],
        ),
{
    last_left_is_held(arena.rotation(), calls, i);
}

/// Translates into a buffer of the caller, or into bytes of its own.
pub struct HybridTranslator {
    arena: TranslationArena,
}

impl HybridTranslator {
    /// The number of buffers.
    pub closed spec fn pool_size(&self) -> nat {
        self.arena@.len()
    }

    /// The size of each buffer.
    pub closed spec fn buffer_size(&self) -> nat {
        self.arena.made_size()
    }

    /// All buffers have the size with which they were made.
    pub closed spec fn wf(&self) -> bool {
        &&& self.arena.wf()
        &&& forall|i: int|
            0 <= i < self.arena@.len() ==> (#[trigger] self.arena@[i])@.len()
                == self.arena.made_size()
    }

    pub fn new(pool_size: usize, buffer_size: usize) -> (r: Self)
        ensures
            r.wf(),
            r.pool_size() == pool_size,
            r.buffer_size() == buffer_size,
    {
        HybridTranslator { arena: TranslationArena::new(pool_size, buffer_size) }
    }

    /// Writes the frame of a packet, with sequence number 0, into
    /// `output_buffer`.
    pub fn translate_zero_alloc(
        &mut self,
        iridium_msg: &IridiumSBDMessage,
        output_buffer: &mut [u8],
    ) -> (r: Option<usize>)
        requires
            iridium_msg.wf(),
        ensures
            *final(self) == *old(self),
            translated(
                *iridium_msg,
                0x01,
                0,
                1,
                old(output_buffer)@,
                final(output_buffer)@,
                r,
            ),
    {
        let mut translator = ZeroCopyTranslator::new();
        translator.translate(iridium_msg, output_buffer)
    }

    /// The frame of a packet, with sequence number 0, as bytes of its own.
    /// `None` where the buffers of the arena are too short for it.
    pub fn translate_safe(&mut self, iridium_msg: &IridiumSBDMessage) -> (r: Option<
        SafeTranslationResult,
    >)
        requires
            iridium_msg.wf(),
            old(self).wf(),
            old(self).pool_size() > 0,
        ensures
            final(self).wf(),
            final(self).pool_size() == old(self).pool_size(),
            final(self).buffer_size() == old(self).buffer_size(),
            r is Some <==> old(self).buffer_size() >= 7 + iridium_msg.payload_len,
            r matches Some(s) ==> {
                &&& s.size == 7 + iridium_msg.payload_len
                &&& bytes_content(s.data) == asts_frame(
                    0x01,
                    0,
                    iridium_msg.payload_len,
                    iridium_msg.content(),
                )
            },
    {
        let buffer_index: usize = self.arena.next_index;
        let ghost before = self.arena@;
        let mut translator = ZeroCopyTranslator::new();
        let buffer = self.arena.get_buffer();
        let size = translator.translate(iridium_msg, buffer.as_mut_slice());
        proof {
            vstd::arithmetic::div_mod::lemma_small_mod(buffer_index as nat, before.len());
        }
        match size {
            None => None,
            Some(n) => {
                let data = self.arena.clone_to_bytes_at(buffer_index, n);
                proof {
                    let f = asts_frame(
                        0x01,
                        0,
                        iridium_msg.payload_len,
                        iridium_msg.content(),
                    );
                    lemma_be_bytes_len(0, 4);
                    lemma_be_bytes_len(iridium_msg.payload_len as nat, 2);
                    assert(bytes_content(data) =~= f);
                }
                Some(SafeTranslationResult::new(data))
            },
        }
    }
}

} // verus!
