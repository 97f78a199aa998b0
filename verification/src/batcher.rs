//! Batching before translation.
//!
//! Messages wait for a batch to fill or a window to pass. Emergencies do not
//! wait at all, and urgent or stale messages end the wait of all. The batcher
//! decides; receiving, sleeping and sending are left to the caller.

use crate::protocol::{message_views, Message, MessageView, Priority};
use vstd::prelude::*;

verus! {

/// The spread above which a message ends the wait of its batch, unless another
/// threshold is given, in milliseconds.
pub const DEFAULT_SPREAD_FLUSH_THRESHOLD_MS: i64 = 30_000;

/// How many safety critical messages end the wait of their batch.
pub const SAFETY_CRITICAL_FLUSH_COUNT: usize = 5;

/// A batch in the making.
pub struct AsyncBatcher {
    buffer: Vec<Message>,
    max_batch_size: usize,
    batch_timeout: u64,
    buffer_size: usize,
    spread_threshold_ms: i64,
    last_flush: u64,
}

/// Safety critical messages.
pub open spec fn safety_critical() -> spec_fn(MessageView) -> bool {
    |m: MessageView| m.priority == Priority::SafetyCritical
}

/// Whether the messages of a batch end its wait: five safety critical ones, or
/// one with a spread above the threshold.
pub open spec fn flush_due(b: Seq<MessageView>, spread_threshold_ms: i64) -> bool {
    ||| b.filter(safety_critical()).len() >= SAFETY_CRITICAL_FLUSH_COUNT
    ||| exists|i: int| 0 <= i < b.len() && (#[trigger] b[i]).spread() > spread_threshold_ms
}

/// How long ago a time was, none where it is yet to come.
pub open spec fn elapsed(since: u64, now: u64) -> int {
    if now >= since {
        now - since
    } else {
        0
    }
}

pub fn elapsed_ms(since: u64, now: u64) -> (r: u64)
    ensures
        r == elapsed(since, now),
{
    if now >= since {
        now - since
    } else {
        0
    }
}

/// What waits for a batch to fill, and when a batch was last sent off.
#[verifier::ext_equal]
pub struct BatchView {
    pub pending: Seq<MessageView>,
    pub flushed_at: u64,
}

/// The batch in the making after a message, and the batch that is sent off, if any.
pub open spec fn batched(
    b: BatchView,
    limit: nat,
    window: nat,
    spread_threshold_ms: i64,
    m: MessageView,
    now: u64,
) -> (BatchView, Option<Seq<MessageView>>) {
    let all = b.pending.push(m);
    if m.priority == Priority::Emergency {
        (b, Some(seq![m]))
    } else if all.len() >= limit || elapsed(b.flushed_at, now) >= window || flush_due(
        all,
        spread_threshold_ms,
    ) {
        (BatchView { pending: Seq::empty(), flushed_at: now }, Some(all))
    } else {
        (BatchView { pending: all, ..b }, None)
    }
}

impl AsyncBatcher {
    /// The batch in the making.
    pub open spec fn making(&self) -> BatchView {
        BatchView { pending: self.pending(), flushed_at: self.flushed_at() }
    }

    /// The messages that wait, in the order in which they came.
    pub closed spec fn pending(&self) -> Seq<MessageView> {
        message_views(self.buffer@)
    }

    /// How many messages fill a batch.
    pub closed spec fn limit(&self) -> nat {
        self.max_batch_size as nat
    }

    /// How long a batch may wait, in milliseconds.
    pub closed spec fn window(&self) -> nat {
        self.batch_timeout as nat
    }

    /// How many messages may queue before the batcher.
    pub closed spec fn queue_size(&self) -> nat {
        self.buffer_size as nat
    }

    /// The spread above which a message ends the wait.
    pub closed spec fn threshold(&self) -> i64 {
        self.spread_threshold_ms
    }

    /// When a batch was last sent off.
    pub closed spec fn flushed_at(&self) -> u64 {
        self.last_flush
    }

    /// Whether two batchers are set up in the same way.
    pub open spec fn same_setup(&self, other: &Self) -> bool {
        &&& self.limit() == other.limit()
        &&& self.window() == other.window()
        &&& self.queue_size() == other.queue_size()
        &&& self.threshold() == other.threshold()
    }

    /// What waits is no full batch, holds nothing that ends the wait, and no
    /// emergency.
    pub open spec fn wf(&self) -> bool {
        &&& self.pending().len() == 0 || self.pending().len() < self.limit()
        &&& self.pending().len() > 0 ==> !flush_due(self.pending(), self.threshold())
        &&& forall|i: int|
            0 <= i < self.pending().len() ==> (#[trigger] self.pending()[i]).priority
                != Priority::Emergency
    }

    /// An empty batch, begun at the given time.
    pub fn new(max_batch_size: usize, batch_timeout: u64, buffer_size: usize, now: u64) -> (r: Self)
        ensures
            r.wf(),
            r.pending() == Seq::<MessageView>::empty(),
            r.limit() == max_batch_size,
            r.window() == batch_timeout,
            r.queue_size() == buffer_size,
            r.threshold() == DEFAULT_SPREAD_FLUSH_THRESHOLD_MS,
            r.flushed_at() == now,
    {
        Self::new_with_spread_threshold(
            max_batch_size,
            batch_timeout,
            buffer_size,
            DEFAULT_SPREAD_FLUSH_THRESHOLD_MS,
            now,
        )
    }

    /// An empty batch with its own spread threshold.
    pub fn new_with_spread_threshold(
        max_batch_size: usize,
        batch_timeout: u64,
        buffer_size: usize,
        spread_threshold_ms: i64,
        now: u64,
    ) -> (r: Self)
        ensures
            r.wf(),
            r.pending() == Seq::<MessageView>::empty(),
            r.limit() == max_batch_size,
            r.window() == batch_timeout,
            r.queue_size() == buffer_size,
            r.threshold() == spread_threshold_ms,
            r.flushed_at() == now,
    {
        let r = AsyncBatcher {
            buffer: Vec::new(),
            max_batch_size,
            batch_timeout,
            buffer_size,
            spread_threshold_ms,
            last_flush: now,
        };
        assert(r.pending() =~= Seq::<MessageView>::empty());
        r
    }

    /// Whether the messages of a batch end its wait.
    pub fn should_flush(buffer: &[Message], spread_threshold_ms: i64) -> (r: bool)
        ensures
            r <==> flush_due(message_views(buffer@), spread_threshold_ms),
    {
        let ghost all = message_views(buffer@);
        let ghost p = safety_critical();
        let mut critical: usize = 0;
        let mut i: usize = 0;
        proof {
            crate::seqs::lemma_filter_ends(all, p);
        }
        while i < buffer.len()
            invariant
                i <= buffer@.len() == all.len(),
                all == message_views(buffer@),
                p == safety_critical(),
                critical == all.subrange(0, i as int).filter(p).len(),
                critical <= i,
                forall|k: int| 0 <= k < i ==> (#[trigger] all[k]).spread() <= spread_threshold_ms,
            decreases buffer@.len() - i,
        {
            proof {
                crate::seqs::lemma_filter_next(all, i as int, p);
                assert(all[i as int] == buffer@[i as int]@);
            }
            if buffer[i].spread_ms() > spread_threshold_ms {
                assert(all[i as int].spread() > spread_threshold_ms);
                return true;
            }
            if buffer[i].priority == Priority::SafetyCritical {
                critical = critical + 1;
            }
            i = i + 1;
        }
        proof {
            crate::seqs::lemma_filter_ends(all, p);
        }
        critical >= SAFETY_CRITICAL_FLUSH_COUNT
    }

    /// Takes a message and gives the batch that is to be sent off, if any. An
    /// emergency is a batch of its own and leaves the others waiting.
    pub fn send(&mut self, message: Message, now: u64) -> (r: Option<Vec<Message>>)
        requires
            old(self).wf(),
        ensures
            final(self).wf(),
            final(self).same_setup(old(self)),
            ({
                let all = old(self).pending().push(message@);
                if message.priority == Priority::Emergency {
                    &&& r matches Some(b) && message_views(b@) == seq![message@]
                    &&& final(self).pending() == old(self).pending()
                    &&& final(self).flushed_at() == old(self).flushed_at()
                } else if all.len() >= old(self).limit() || elapsed(old(self).flushed_at(), now)
                    >= old(self).window() || flush_due(all, old(self).threshold()) {
                    &&& r matches Some(b) && message_views(b@) == all
                    &&& final(self).pending() == Seq::<MessageView>::empty()
                    &&& final(self).flushed_at() == now
                } else {
                    &&& r is None
                    &&& final(self).pending() == all
                    &&& final(self).flushed_at() == old(self).flushed_at()
                }
            }),
            ({
                let (b, sent) = batched(
                    old(self).making(),
                    old(self).limit(),
                    old(self).window(),
                    old(self).threshold(),
                    message@,
                    now,
                );
                &&& final(self).making() == b
                &&& match r {
                    Some(x) => sent == Some(message_views(x@)),
                    None => sent is None,
                }
            }),
    {
        if message.is_emergency() {
            let mut batch: Vec<Message> = Vec::new();
            batch.push(message);
            assert(message_views(batch@) =~= seq![message@]);
            return Some(batch);
        }
        let ghost all = self.pending().push(message@);
        self.buffer.push(message);
        assert(self.pending() =~= all);
        if self.buffer.len() >= self.max_batch_size || elapsed_ms(self.last_flush, now)
            >= self.batch_timeout || Self::should_flush(
            self.buffer.as_slice(),
            self.spread_threshold_ms,
        ) {
            let mut batch: Vec<Message> = Vec::new();
            std::mem::swap(&mut batch, &mut self.buffer);
            self.last_flush = now;
            assert(self.pending() =~= Seq::<MessageView>::empty());
            Some(batch)
        } else {
            None
        }
    }

    /// Gives what waits, once the window has passed.
    pub fn on_timeout(&mut self, now: u64) -> (r: Option<Vec<Message>>)
        requires
            old(self).wf(),
        ensures
            final(self).wf(),
            final(self).same_setup(old(self)),
            if old(self).pending().len() > 0 && elapsed(old(self).flushed_at(), now) >= old(
                self,
            ).window() {
                &&& r matches Some(b) && message_views(b@) == old(self).pending()
                &&& final(self).pending() == Seq::<MessageView>::empty()
                &&& final(self).flushed_at() == now
            } else {
                r is None && *final(self) == *old(self)
            },
    {
        if self.buffer.len() == 0 || elapsed_ms(self.last_flush, now) < self.batch_timeout {
            return None;
        }
        let mut batch: Vec<Message> = Vec::new();
        std::mem::swap(&mut batch, &mut self.buffer);
        self.last_flush = now;
        assert(self.pending() =~= Seq::<MessageView>::empty());
        Some(batch)
    }

    /// When what waits is to be sent off at the latest.
    pub fn deadline(&self) -> (r: u64)
        ensures
            r == if self.flushed_at() + self.window() <= u64::MAX {
                self.flushed_at() + self.window()
            } else {
                u64::MAX as int
            },
    {
        self.last_flush.saturating_add(self.batch_timeout)
    }

    /// Whether any message waits.
    pub fn has_pending(&self) -> (r: bool)
        ensures
            r <==> self.pending().len() > 0,
    {
        self.buffer.len() > 0
    }

    /// How many messages may queue before the batcher.
    pub fn buffer_size(&self) -> (r: usize)
        ensures
            r == self.queue_size(),
    {
        self.buffer_size
    }
}

/// An emergency is sent off at once and by itself, and keeps nobody waiting less or more.
/// Any other message is sent off with all that waited before it, in their order, or waits
/// behind them: none is lost, doubled or overtaken.
pub proof fn batches_lose_nothing(
    b: BatchView,
    limit: nat,
    window: nat,
    spread_threshold_ms: i64,
    m: MessageView,
    now: u64,
)
    ensures
        ({
            let (c, sent) = batched(b, limit, window, spread_threshold_ms, m, now);
            &&& m.priority == Priority::Emergency ==> sent == Some(seq![m]) && c == b
            &&& m.priority != Priority::Emergency ==> (match sent {
                Some(x) => x + c.pending,
                None => c.pending,
            }) == b.pending.push(m)
            &&& m.priority != Priority::Emergency && sent is Some ==> c.pending.len() == 0
                && c.flushed_at == now
            &&& sent is None ==> c.flushed_at == b.flushed_at
        }),
{
    let (c, sent) = batched(b, limit, window, spread_threshold_ms, m, now);
    if m.priority != Priority::Emergency && sent is Some {
        assert(sent->0 + c.pending =~= b.pending.push(m));
    }
}

/// A wait ends exactly where the batch is full, the window has gone by, a message that
/// waits is later than the threshold allows, or five of them are safety critical.
pub proof fn waits_end_for_a_reason(
    b: BatchView,
    limit: nat,
    window: nat,
    spread_threshold_ms: i64,
    m: MessageView,
    now: u64,
)
    requires
        m.priority != Priority::Emergency,
    ensures
        batched(b, limit, window, spread_threshold_ms, m, now).1 is Some <==> {
            ||| b.pending.len() + 1 >= limit
            ||| now >= b.flushed_at + window
            ||| window == 0
            ||| m.spread() > spread_threshold_ms
            ||| exists|i: int|
                0 <= i < b.pending.len() && (#[trigger] b.pending[i]).spread() > spread_threshold_ms
            ||| critical_count(b.pending.push(m)) >= 5
        },
{
    let all = b.pending.push(m);
    lemma_critical_count(all);
    if flush_due(all, spread_threshold_ms) && critical_count(all) < 5 {
        let i = choose|i: int| 0 <= i < all.len() && (#[trigger] all[i]).spread()
            > spread_threshold_ms;
        if i < b.pending.len() {
            assert(b.pending[i] == all[i]);
        }
    }
    if m.spread() > spread_threshold_ms {
        assert(all[b.pending.len() as int] == m);
    }
    if exists|i: int|
        0 <= i < b.pending.len() && (#[trigger] b.pending[i]).spread() > spread_threshold_ms {
        let i = choose|i: int|
            0 <= i < b.pending.len() && (#[trigger] b.pending[i]).spread() > spread_threshold_ms;
        assert(all[i] == b.pending[i]);
    }
}

/// How many messages are safety critical.
pub open spec fn critical_count(s: Seq<MessageView>) -> nat
    decreases s.len(),
{
    if s.len() == 0 {
        0
    } else if s.last().priority == Priority::SafetyCritical {
        critical_count(s.drop_last()) + 1
    } else {
        critical_count(s.drop_last())
    }
}

proof fn lemma_critical_count(s: Seq<MessageView>)
    ensures
        s.filter(safety_critical()).len() == critical_count(s),
    decreases s.len(),
{
    reveal(Seq::filter);
    if s.len() > 0 {
        lemma_critical_count(s.drop_last());
    }
}

/// The batch in the making after several messages, and all that was sent off of those
/// that are no emergencies, one batch behind the other.
pub open spec fn all_batched(
    limit: nat,
    window: nat,
    spread_threshold_ms: i64,
    start: u64,
    sent: Seq<(MessageView, u64)>,
) -> (BatchView, Seq<MessageView>)
    decreases sent.len(),
{
    if sent.len() == 0 {
        (BatchView { pending: Seq::empty(), flushed_at: start }, Seq::empty())
    } else {
        let (b, gone) = all_batched(limit, window, spread_threshold_ms, start, sent.drop_last());
        let (m, now) = sent.last();
        let (c, batch) = batched(b, limit, window, spread_threshold_ms, m, now);
        if m.priority != Priority::Emergency && batch is Some {
            (c, gone + batch->0)
        } else {
            (c, gone)
        }
    }
}

/// The messages that are no emergencies, in their order.
pub open spec fn ordinary(sent: Seq<(MessageView, u64)>) -> Seq<MessageView>
    decreases sent.len(),
{
    if sent.len() == 0 {
        Seq::empty()
    } else if sent.last().0.priority == Priority::Emergency {
        ordinary(sent.drop_last())
    } else {
        ordinary(sent.drop_last()).push(sent.last().0)
    }
}

/// Over any number of messages, what was sent off and what still waits are all that came,
/// emergencies aside, in the order in which they came.
pub proof fn batches_keep_the_order(
    limit: nat,
    window: nat,
    spread_threshold_ms: i64,
    start: u64,
    sent: Seq<(MessageView, u64)>,
)
    ensures
        ({
            let (b, gone) = all_batched(limit, window, spread_threshold_ms, start, sent);
            gone + b.pending == ordinary(sent)
        }),
    decreases sent.len(),
{
    if sent.len() > 0 {
        let before = sent.drop_last();
        batches_keep_the_order(limit, window, spread_threshold_ms, start, before);
        let (b, gone) = all_batched(limit, window, spread_threshold_ms, start, before);
        let (m, now) = sent.last();
        let (c, batch) = batched(b, limit, window, spread_threshold_ms, m, now);
        let (d, went) = all_batched(limit, window, spread_threshold_ms, start, sent);
        if m.priority != Priority::Emergency {
            assert(went + d.pending =~= (gone + b.pending).push(m));
        }
    } else {
        let (b, gone) = all_batched(limit, window, spread_threshold_ms, start, sent);
        assert(gone + b.pending =~= ordinary(sent));
    }
}

/// How long ago a time was: the difference where it is past, and nothing where it is yet
/// to come.
pub proof fn elapsed_is_the_difference(since: u64, now: u64)
    ensures
        since <= now ==> since + elapsed(since, now) == now,
        since >= now ==> elapsed(since, now) == 0,
{
}

} // verus!
