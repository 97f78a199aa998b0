//! Batching of translated messages before the satellite uplink.
//!
//! Fills each transmission, so that fewer round trips are paid for. It decides
//! what is sent together; receiving, sleeping and sending are left to the caller.

use crate::batcher::{elapsed, elapsed_ms, BatchView};
use crate::protocol::{message_views, Message, MessageView};
use vstd::prelude::*;

verus! {

/// The transmission in the making after a message, and the one that is sent off, if any.
pub open spec fn enqueued(b: BatchView, limit: nat, window: nat, m: MessageView, now: u64) -> (
    BatchView,
    Option<Seq<MessageView>>,
) {
    let all = b.pending.push(m);
    if all.len() >= limit || elapsed(b.flushed_at, now) >= window {
        (BatchView { pending: Seq::empty(), flushed_at: now }, Some(all))
    } else {
        (BatchView { pending: all, ..b }, None)
    }
}

/// A transmission in the making.
pub struct TransmissionBatcher {
    buffer: Vec<Message>,
    max_batch_size: usize,
    batch_timeout: u64,
    buffer_size: usize,
    last_flush: u64,
}

impl TransmissionBatcher {
    /// The transmission in the making.
    pub open spec fn making(&self) -> BatchView {
        BatchView { pending: self.pending(), flushed_at: self.flushed_at() }
    }

    /// The messages that wait, in the order in which they came.
    pub closed spec fn pending(&self) -> Seq<MessageView> {
        message_views(self.buffer@)
    }

    /// How many messages fill a transmission.
    pub closed spec fn limit(&self) -> nat {
        self.max_batch_size as nat
    }

    /// How long a transmission may wait, in milliseconds.
    pub closed spec fn window(&self) -> nat {
        self.batch_timeout as nat
    }

    /// How many messages may queue before the batcher.
    pub closed spec fn queue_size(&self) -> nat {
        self.buffer_size as nat
    }

    /// When a transmission was last sent off.
    pub closed spec fn flushed_at(&self) -> u64 {
        self.last_flush
    }

    /// Whether two batchers are set up in the same way.
    pub open spec fn same_setup(&self, other: &Self) -> bool {
        &&& self.limit() == other.limit()
        &&& self.window() == other.window()
        &&& self.queue_size() == other.queue_size()
    }

    /// What waits is no full transmission.
    pub open spec fn wf(&self) -> bool {
        self.pending().len() == 0 || self.pending().len() < self.limit()
    }

    /// An empty transmission, begun at the given time.
    pub fn new(max_batch_size: usize, batch_timeout: u64, buffer_size: usize, now: u64) -> (r: Self)
        ensures
            r.wf(),
            r.pending() == Seq::<MessageView>::empty(),
            r.limit() == max_batch_size,
            r.window() == batch_timeout,
            r.queue_size() == buffer_size,
            r.flushed_at() == now,
    {
        let r = TransmissionBatcher {
            buffer: Vec::new(),
            max_batch_size,
            batch_timeout,
            buffer_size,
            last_flush: now,
        };
        assert(r.pending() =~= Seq::<MessageView>::empty());
        r
    }

    /// Takes a translated message and gives the transmission that is to be sent
    /// off, if it is full or its window has passed.
    pub fn enqueue(&mut self, message: Message, now: u64) -> (r: Option<Vec<Message>>)
        requires
            old(self).wf(),
        ensures
            final(self).wf(),
            final(self).same_setup(old(self)),
            ({
                let all = old(self).pending().push(message@);
                if all.len() >= old(self).limit() || elapsed(old(self).flushed_at(), now) >= old(
                    self,
                ).window() {
                    &&& r matches Some(b) && message_views(b@) == all
                    &&& final(self).pending() == Seq::<MessageView>::empty()
                    &&& final(self).flushed_at() == now
                } else {
                    &&& r is None
                    &&& final(self).pending() == all
                    &&& final(self).flushed_at() == old(self).flushed_at()
                }
            }),
            ({
                let (b, sent) = enqueued(
                    old(self).making(),
                    old(self).limit(),
                    old(self).window(),
                    message@,
                    now,
                );
                &&& final(self).making() == b
                &&& match r {
                    Some(x) => sent == Some(message_views(x@)),
                    None => sent is None,
                }
            }),
    {
        let ghost all = self.pending().push(message@);
        self.buffer.push(message);
        assert(self.pending() =~= all);
        if self.buffer.len() >= self.max_batch_size || elapsed_ms(self.last_flush, now)
            >= self.batch_timeout {
            let mut batch: Vec<Message> = Vec::new();
            std::mem::swap(&mut batch, &mut self.buffer);
            self.last_flush = now;
            assert(self.pending() =~= Seq::<MessageView>::empty());
            Some(batch)
        } else {
            None
        }
    }

    /// Gives what waits, once the window has passed.
    pub fn on_timeout(&mut self, now: u64) -> (r: Option<Vec<Message>>)
        requires
            old(self).wf(),
        ensures
            final(self).wf(),
            final(self).same_setup(old(self)),
            if old(self).pending().len() > 0 && elapsed(old(self).flushed_at(), now) >= old(
                self,
            ).window() {
                &&& r matches Some(b) && message_views(b@) == old(self).pending()
                &&& final(self).pending() == Seq::<MessageView>::empty()
                &&& final(self).flushed_at() == now
            } else {
                r is None && *final(self) == *old(self)
            },
    {
        if self.buffer.len() == 0 || elapsed_ms(self.last_flush, now) < self.batch_timeout {
            return None;
        }
        let mut batch: Vec<Message> = Vec::new();
        std::mem::swap(&mut batch, &mut self.buffer);
        self.last_flush = now;
        assert(self.pending() =~= Seq::<MessageView>::empty());
        Some(batch)
    }

    /// Ends the batching: gives all that still waits.
    pub fn close(self) -> (r: Option<Vec<Message>>)
        ensures
            match r {
                Some(b) => message_views(b@) == self.pending() && b@.len() > 0,
                None => self.pending().len() == 0,
            },
    {
        if self.buffer.len() == 0 {
            None
        } else {
            Some(self.buffer)
        }
    }

    /// When what waits is to be sent off at the latest.
    pub fn deadline(&self) -> (r: u64)
        ensures
            r == if self.flushed_at() + self.window() <= u64::MAX {
                self.flushed_at() + self.window()
            } else {
                u64::MAX as int
            },
    {
        self.last_flush.saturating_add(self.batch_timeout)
    }

    /// Whether any message waits.
    pub fn has_pending(&self) -> (r: bool)
        ensures
            r <==> self.pending().len() > 0,
    {
        self.buffer.len() > 0
    }

    pub fn max_batch_size(&self) -> (r: usize)
        ensures
            r == self.limit(),
    {
        self.max_batch_size
    }

    pub fn batch_timeout(&self) -> (r: u64)
        ensures
            r == self.window(),
    {
        self.batch_timeout
    }

    /// How many messages may queue before the batcher.
    pub fn buffer_size(&self) -> (r: usize)
        ensures
            r == self.queue_size(),
    {
        self.buffer_size
    }
}

/// A message is sent off with all that waited before it, in their order, or waits behind
/// them: none is lost, doubled or overtaken, whatever its urgency.
pub proof fn transmissions_lose_nothing(
    b: BatchView,
    limit: nat,
    window: nat,
    m: MessageView,
    now: u64,
)
    ensures
        ({
            let (c, sent) = enqueued(b, limit, window, m, now);
            &&& (match sent {
                Some(x) => x + c.pending,
                None => c.pending,
            }) == b.pending.push(m)
            &&& sent is Some ==> c.pending.len() == 0 && c.flushed_at == now
            &&& sent is None ==> c.flushed_at == b.flushed_at
            &&& sent is Some <==> b.pending.len() + 1 >= limit || now >= b.flushed_at + window
                || window == 0
        }),
{
    let (c, sent) = enqueued(b, limit, window, m, now);
    if sent is Some {
        assert(sent->0 + c.pending =~= b.pending.push(m));
    }
}

/// The transmission in the making after several messages, and all that was sent off, one
/// transmission behind the other.
pub open spec fn all_enqueued(
    limit: nat,
    window: nat,
    start: u64,
    sent: Seq<(MessageView, u64)>,
) -> (BatchView, Seq<MessageView>)
    decreases sent.len(),
{
    if sent.len() == 0 {
        (BatchView { pending: Seq::empty(), flushed_at: start }, Seq::empty())
    } else {
        let (b, gone) = all_enqueued(limit, window, start, sent.drop_last());
        let (m, now) = sent.last();
        let (c, batch) = enqueued(b, limit, window, m, now);
        match batch {
            Some(x) => (c, gone + x),
            None => (c, gone),
        }
    }
}

/// Over any number of messages, what was sent off and what still waits are all that came,
/// in the order in which they came.
pub proof fn transmissions_keep_the_order(
    limit: nat,
    window: nat,
    start: u64,
    sent: Seq<(MessageView, u64)>,
)
    ensures
        ({
            let (b, gone) = all_enqueued(limit, window, start, sent);
            gone + b.pending == sent.map_values(|x: (MessageView, u64)| x.0)
        }),
    decreases sent.len(),
{
    let f = |x: (MessageView, u64)| x.0;
    let (d, went) = all_enqueued(limit, window, start, sent);
    if sent.len() > 0 {
        let before = sent.drop_last();
        transmissions_keep_the_order(limit, window, start, before);
        let (b, gone) = all_enqueued(limit, window, start, before);
        let (m, now) = sent.last();
        assert(sent.map_values(f) =~= before.map_values(f).push(m));
        assert(went + d.pending =~= (gone + b.pending).push(m));
    } else {
        assert(went + d.pending =~= sent.map_values(f));
    }
}

} // verus!
