//! Growing buffers with a bound, and pools of them.

use crate::rotation::{
    after,
    after_all,
    handed,
    last_left_is_held,
    left_as,
    turn_is_position,
    turns_repeat,
    turns_taken,
    untouched_is_kept,
    Handout,
    Rotation,
};
use crate::text::{decimal_of, push_decimal};
use crate::wire::push_bytes;
use vstd::prelude::*;
use vstd::string::StringExecFns;

verus! {

#[derive(Debug)]
pub enum BufferError {
    TooLarge { requested: usize, max: usize },
    AllocationFailed,
    InvalidSize,
}

/// The text of an error.
pub open spec fn error_text(e: BufferError) -> Seq<char> {
    match e {
        BufferError::TooLarge { requested, max } => "Buffer too large: requested "@ + decimal_of(
            requested as nat,
        ) + " bytes, max "@ + decimal_of(max as nat) + " bytes"@,
        BufferError::AllocationFailed => "Buffer allocation failed"@,
        BufferError::InvalidSize => "Invalid buffer size"@,
    }
}

impl BufferError {
    /// The error in words.
    pub fn message(&self) -> (r: String)
        ensures
            r@ == error_text(*self),
    {
        match self {
            BufferError::TooLarge { requested, max } => {
                let mut out = String::from_str("Buffer too large: requested ");
                push_decimal(&mut out, *requested as u64);
                out.append(" bytes, max ");
                push_decimal(&mut out, *max as u64);
                out.append(" bytes");
                out
            },
            BufferError::AllocationFailed => String::from_str("Buffer allocation failed"),
            BufferError::InvalidSize => String::from_str("Invalid buffer size"),
        }
    }
}

/// What a buffer with the given bound holds after a write.
pub open spec fn written(held: Seq<u8>, bound: usize, data: Seq<u8>) -> Seq<u8> {
    if data.len() <= bound {
        data
    } else {
        held
    }
}

/// `Vec::capacity`: how many bytes the vector can hold without growing, never
/// fewer than it holds. How many more rests on the allocator.
#[verifier::external_body]
fn vec_capacity(v: &Vec<u8>) -> (r: usize)
    ensures
        r >= v@.len(),
{
    v.capacity()
}

/// The least power of two that is at least `n`, but no more than `max`.
fn grown_capacity(n: usize, max: usize) -> (r: usize)
    requires
        0 < n <= max,
    ensures
        n <= r <= max,
        r < max ==> r / 2 < n,
{
    let mut c: usize = 1;
    while c < n
        invariant
            0 < n <= max,
            1 <= c <= max,
            c / 2 < n,
        decreases 2 * n - c,
    {
        if c > max / 2 {
            return max;
        }
        c = c * 2;
    }
    c
}

/// A buffer that grows up to a bound.
pub struct DynamicBuffer {
    buffer: Vec<u8>,
    max_capacity: usize,
}

impl View for DynamicBuffer {
    type V = Seq<u8>;

    closed spec fn view(&self) -> Seq<u8> {
        self.buffer@
    }
}

impl DynamicBuffer {
    /// The most bytes that the buffer takes.
    pub closed spec fn bound(&self) -> usize {
        self.max_capacity
    }

    /// An empty buffer, where its initial capacity is within the bound.
    pub fn new(initial_capacity: usize, max_capacity: usize) -> (r: Result<Self, BufferError>)
        ensures
            match r {
                Ok(b) => initial_capacity <= max_capacity && b@ == Seq::<u8>::empty() && b.bound()
                    == max_capacity,
                Err(e) => initial_capacity > max_capacity && e == (BufferError::TooLarge {
                    requested: initial_capacity,
                    max: max_capacity,
                }),
            },
    {
        if initial_capacity > max_capacity {
            return Err(BufferError::TooLarge { requested: initial_capacity, max: max_capacity });
        }
        Ok(DynamicBuffer { buffer: Vec::with_capacity(initial_capacity), max_capacity })
    }

    /// Replaces what the buffer holds by `data`, where it is within the bound;
    /// otherwise nothing changes. No more is asked of the allocator than the bound.
    pub fn write(&mut self, data: &[u8]) -> (r: Result<(), BufferError>)
        ensures
            final(self).bound() == old(self).bound(),
            final(self)@ == written(old(self)@, old(self).bound(), data@),
            match r {
                Ok(_) => data@.len() <= old(self).bound() && final(self)@ == data@,
                Err(e) => {
                    &&& data@.len() > old(self).bound()
                    &&& final(self)@ == old(self)@
                    &&& e == (BufferError::TooLarge {
                        requested: data@.len() as usize,
                        max: old(self).bound(),
                    })
                },
            },
    {
        if data.len() > self.max_capacity {
            return Err(BufferError::TooLarge { requested: data.len(), max: self.max_capacity });
        }
        if data.len() > vec_capacity(&self.buffer) {
            let new_cap: usize = grown_capacity(data.len(), self.max_capacity);
            self.buffer = Vec::with_capacity(new_cap);
        } else {
            self.buffer.clear();
        }
        push_bytes(&mut self.buffer, data);
        assert(self.buffer@ =~= data@);
        Ok(())
    }

    pub fn as_slice(&self) -> (r: &[u8])
        ensures
            r@ == self@,
    {
        self.buffer.as_slice()
    }

    /// The bytes, for change in place.
    pub fn as_mut_slice(&mut self) -> (r: &mut [u8])
        ensures
            r@ == old(self)@,
            final(self)@ == final(r)@,
            final(self).bound() == old(self).bound(),
    {
        self.buffer.as_mut_slice()
    }

    pub fn len(&self) -> (r: usize)
        ensures
            r == self@.len(),
    {
        self.buffer.len()
    }

    /// How many bytes fit without growing: at least those that are there.
    pub fn capacity(&self) -> (r: usize)
        ensures
            r >= self@.len(),
    {
        vec_capacity(&self.buffer)
    }

    pub fn max_capacity(&self) -> (r: usize)
        ensures
            r == self.bound(),
    {
        self.max_capacity
    }

    pub fn is_empty(&self) -> (r: bool)
        ensures
            r <==> self@.len() == 0,
    {
        self.buffer.is_empty()
    }

    pub fn clear(&mut self)
        ensures
            final(self)@ == Seq::<u8>::empty(),
            final(self).bound() == old(self).bound(),
    {
        self.buffer.clear();
    }

    /// An empty buffer again, where the capacity is within the bound; otherwise
    /// nothing changes.
    pub fn reset(&mut self, initial_capacity: usize) -> (r: Result<(), BufferError>)
        ensures
            final(self).bound() == old(self).bound(),
            match r {
                Ok(_) => initial_capacity <= old(self).bound() && final(self)@ == Seq::<
                    u8,
                >::empty(),
                Err(e) => {
                    &&& initial_capacity > old(self).bound()
                    &&& final(self)@ == old(self)@
                    &&& e == (BufferError::TooLarge {
                        requested: initial_capacity,
                        max: old(self).bound(),
                    })
                },
            },
    {
        if initial_capacity > self.max_capacity {
            return Err(
                BufferError::TooLarge { requested: initial_capacity, max: self.max_capacity },
            );
        }
        self.buffer = Vec::with_capacity(initial_capacity);
        Ok(())
    }
}

/// Buffers that are handed out in turn.
pub struct DynamicBufferPool {
    buffers: Vec<DynamicBuffer>,
    max_capacity: usize,
    next_index: usize,
}

impl View for DynamicBufferPool {
    type V = Seq<DynamicBuffer>;

    closed spec fn view(&self) -> Seq<DynamicBuffer> {
        self.buffers@
    }
}

impl DynamicBufferPool {
    /// The most bytes that each buffer takes.
    pub closed spec fn bound(&self) -> usize {
        self.max_capacity
    }

    /// The position of the buffer that is handed out next.
    pub closed spec fn turn(&self) -> nat {
        self.next_index as nat
    }

    /// The buffers and the turn.
    pub open spec fn rotation(&self) -> Rotation<DynamicBuffer> {
        Rotation { items: self@, turn: self.turn() }
    }

    /// The next turn is that of a buffer of the pool, where it has any.
    pub closed spec fn wf(&self) -> bool {
        self.buffers@.len() == 0 || self.next_index < self.buffers@.len()
    }

    /// A pool of empty buffers, or the error in making one of them.
    pub fn new(pool_size: usize, initial_capacity: usize, max_capacity: usize) -> (r: Result<
        Self,
        BufferError,
    >)
        ensures
            match r {
                Ok(p) => {
                    &&& pool_size == 0 || initial_capacity <= max_capacity
                    &&& p.wf()
                    &&& p.turn() == 0
                    &&& p.bound() == max_capacity
                    &&& p@.len() == pool_size
                    &&& forall|i: int|
                        0 <= i < pool_size ==> (#[trigger] p@[i])@ == Seq::<u8>::empty()
                            && p@[i].bound() == max_capacity
                },
                Err(e) => {
                    &&& pool_size > 0
                    &&& initial_capacity > max_capacity
                    &&& e == (BufferError::TooLarge {
                        requested: initial_capacity,
                        max: max_capacity,
                    })
                },
            },
    {
        let mut buffers: Vec<DynamicBuffer> = Vec::with_capacity(pool_size);
        let mut i: usize = 0;
        while i < pool_size
            invariant
                i <= pool_size,
                buffers@.len() == i,
                i > 0 ==> initial_capacity <= max_capacity,
                forall|k: int|
                    0 <= k < i ==> (#[trigger] buffers@[k])@ == Seq::<u8>::empty()
                        && buffers@[k].bound() == max_capacity,
            decreases pool_size - i,
        {
            match DynamicBuffer::new(initial_capacity, max_capacity) {
                Ok(b) => {
                    buffers.push(b);
                },
                Err(e) => {
                    return Err(e);
                },
            }
            i = i + 1;
        }
        Ok(DynamicBufferPool { buffers, max_capacity, next_index: 0 })
    }

    /// The buffer whose turn it is; the turn moves on to the next one.
    pub fn get_buffer(&mut self) -> (r: Result<&mut DynamicBuffer, BufferError>)
        requires
            old(self).wf(),
            old(self)@.len() > 0,
        ensures
            r is Ok,
            *r->Ok_0 == old(self)@[old(self).turn() as int],
            final(self).rotation() == after(
                old(self).rotation(),
                Handout::Next { left: *final(r->Ok_0) },
            ),
            final(self).bound() == old(self).bound(),
            final(self).wf(),
    {
        let index: usize = self.next_index;
        assert(index < self.buffers.len());
        self.next_index = (index + 1) % self.buffers.len();
        Ok(&mut self.buffers[index])
    }

    /// The buffer at a position, counted round the pool.
    pub fn get_buffer_at(&mut self, index: usize) -> (r: Result<&mut DynamicBuffer, BufferError>)
        requires
            old(self).wf(),
            old(self)@.len() > 0,
        ensures
            r is Ok,
            *r->Ok_0 == old(self)@[index as int % old(self)@.len() as int],
            final(self).rotation() == after(
                old(self).rotation(),
                Handout::At { index: index as nat, left: *final(r->Ok_0) },
            ),
            final(self).bound() == old(self).bound(),
            final(self).wf(),
    {
        let actual_index: usize = index % self.buffers.len();
        Ok(&mut self.buffers[actual_index])
    }

    pub fn max_capacity(&self) -> (r: usize)
        ensures
            r == self.bound(),
    {
        self.max_capacity
    }
}

/// In a new pool of `n` buffers, the call of `get_buffer` that follows `k` others hands
/// out buffer `k` modulo `n`, whatever calls of `get_buffer_at` stand in between. So `n`
/// such calls in a row hand out `n` different buffers, and the next one starts again.
pub proof fn buffers_go_round(
    pool: DynamicBufferPool,
    calls: Seq<Handout<DynamicBuffer>>,
    i: int,
    j: int,
)
    requires
        pool.turn() == 0,
        pool@.len() > 0,
        0 <= i <= j < calls.len(),
        calls[i] is Next,
        calls[j] is Next,
    ensures
        handed(pool.rotation(), calls, i) == turns_taken(calls.take(i)) % pool@.len(),
        0 < turns_taken(calls.take(j)) - turns_taken(calls.take(i)) < pool@.len() ==> handed(
            pool.rotation(),
            calls,
            i,
        ) != handed(pool.rotation(), calls, j),
        turns_taken(calls.take(j)) - turns_taken(calls.take(i)) == pool@.len() ==> handed(
            pool.rotation(),
            calls,
            i,
        ) == handed(pool.rotation(), calls, j),
{
    turn_is_position(pool.rotation(), calls, i);
    turns_repeat(pool.rotation(), calls, i, j);
}

/// A buffer holds what it was left with by the last call that handed it out.
pub proof fn buffer_is_as_left(
    pool: DynamicBufferPool,
    calls: Seq<Handout<DynamicBuffer>>,
    i: int,
)
    requires
        pool.turn() == 0,
        pool@.len() > 0,
        0 <= i < calls.len(),
        forall|j: int|
            i < j < calls.len() ==> #[trigger] handed(pool.rotation(), calls, j) != handed(
                pool.rotation(),
                calls,
                i,
            ),
    ensures
        after_all(pool.rotation(), calls).items[handed(pool.rotation(), calls, i)] == left_as(
            calls[i],
        ),
{
    last_left_is_held(pool.rotation(), calls, i);
}

/// Calls that are for other buffers, or that leave a buffer as they found it, do not
/// change it.
pub proof fn other_buffers_stay(
    pool: DynamicBufferPool,
    calls: Seq<Handout<DynamicBuffer>>,
    position: int,
)
    requires
        pool.turn() == 0,
        0 <= position < pool@.len(),
        forall|j: int|
            0 <= j < calls.len() && #[trigger] handed(pool.rotation(), calls, j) == position
                ==> left_as(calls[j]) == after_all(pool.rotation(), calls.take(j)).items[position],
    ensures
        after_all(pool.rotation(), calls).items[position] == pool@[position],
{
    untouched_is_kept(pool.rotation(), calls, position);
}

/// A write up to the bound is held whole, and what was held before is gone; one beyond the
/// bound changes nothing. A write that is repeated changes nothing more.
pub proof fn writes_are_held_whole(held: Seq<u8>, bound: usize, data: Seq<u8>, later: Seq<u8>)
    ensures
        data.len() <= bound ==> written(held, bound, data) == data,
        data.len() > bound ==> written(held, bound, data) == held,
        written(written(held, bound, data), bound, data) == written(held, bound, data),
        later.len() <= bound ==> written(written(held, bound, data), bound, later) == later,
        held.len() <= bound ==> written(held, bound, data).len() <= bound,
{
}

} // verus!
