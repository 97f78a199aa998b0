//! Sharded queues for uplink.
//!
//! One shard is reserved for emergencies and one for reconnect bursts; the
//! others take normal messages in turn and push back when they are 80% full.
//! All queues are allocated up front.

use crate::batcher::{elapsed, elapsed_ms};
use crate::channel::{
    channel_bound,
    channel_content,
    channel_len,
    channel_linked,
    channel_new,
    channel_receive,
    channel_send,
};
use crate::metrics::{count, counted};
use crate::protocol::{message_views, Message, MessageView, Protocol};
use crate::table::{table_content, table_get, table_insert, table_new, table_remove};
use crossbeam_channel::{Receiver, Sender};
use dashmap::DashMap;
use vstd::prelude::*;

verus! {

#[derive(Debug, Clone, Copy, PartialEq, Eq, Hash, Structural)]
pub struct ShardId(pub u64);

#[derive(Debug, Clone, Copy, PartialEq, Eq, Structural)]
pub enum ShardError {
    Full,
    NotFound,
    Backpressure,
    Timeout,
}

impl ShardError {
    /// The error in words.
    pub fn message(&self) -> (r: &'static str)
        ensures
            r@ == match self {
                ShardError::Full => "Shard is full"@,
                ShardError::NotFound => "Shard not found"@,
                ShardError::Backpressure => "Backpressure: buffer utilization >80%"@,
                ShardError::Timeout => "Operation timeout"@,
            },
    {
        match self {
            ShardError::Full => "Shard is full",
            ShardError::NotFound => "Shard not found",
            ShardError::Backpressure => "Backpressure: buffer utilization >80%",
            ShardError::Timeout => "Operation timeout",
        }
    }
}

/// One queue.
pub struct MemoryShard {
    id: ShardId,
    tx: Sender<Message>,
    rx: Receiver<Message>,
    max_size: usize,
    last_access: u64,
    is_deadzone_shard: bool,
}

/// What a queue holds and how it was made.
#[verifier::ext_equal]
pub struct ShardView {
    pub id: ShardId,
    pub queue: Seq<MessageView>,
    pub max_size: usize,
    pub last_access: u64,
    pub is_deadzone_shard: bool,
}

impl View for MemoryShard {
    type V = ShardView;

    closed spec fn view(&self) -> ShardView {
        ShardView {
            id: self.id,
            queue: channel_content(self.rx),
            max_size: self.max_size,
            last_access: self.last_access,
            is_deadzone_shard: self.is_deadzone_shard,
        }
    }
}

impl MemoryShard {
    /// Both ends are of one channel, which holds no more than it may.
    pub closed spec fn wf(&self) -> bool {
        &&& channel_linked(self.tx, self.rx)
        &&& channel_bound(self.tx) == self.max_size
        &&& channel_content(self.rx).len() <= self.max_size
    }

    /// An empty queue.
    pub fn new(id: ShardId, max_size: usize, is_deadzone_shard: bool, now: u64) -> (r: Self)
        requires
            max_size <= isize::MAX / 256,
        ensures
            r.wf(),
            r@ == (ShardView {
                id,
                queue: Seq::empty(),
                max_size,
                last_access: now,
                is_deadzone_shard,
            }),
    {
        let (tx, rx) = channel_new(max_size);
        MemoryShard { id, tx, rx, max_size, last_access: now, is_deadzone_shard }
    }

    /// Puts a message at the end of the queue.
    pub fn push(&mut self, message: Message) -> (r: Result<(), ShardError>)
        requires
            old(self).wf(),
        ensures
            final(self).wf(),
            r == (if old(self)@.queue.len() < old(self)@.max_size {
                Ok::<(), ShardError>(())
            } else {
                Err(ShardError::Full)
            }),
            final(self)@ == (ShardView {
                queue: if r is Ok {
                    old(self)@.queue.push(message@)
                } else {
                    old(self)@.queue
                },
                ..old(self)@
            }),
    {
        if channel_send(&mut self.tx, &mut self.rx, message) {
            Ok(())
        } else {
            Err(ShardError::Full)
        }
    }

    /// Takes the message that has waited longest.
    pub fn pop(&mut self) -> (r: Option<Message>)
        requires
            old(self).wf(),
        ensures
            final(self).wf(),
            match r {
                Some(m) => old(self)@.queue.len() > 0 && m@ == old(self)@.queue[0] && final(self)@
                    == (ShardView { queue: old(self)@.queue.skip(1), ..old(self)@ }),
                None => old(self)@.queue.len() == 0 && final(self)@ == old(self)@,
            },
    {
        channel_receive(&mut self.tx, &mut self.rx)
    }

    /// Takes messages in their order, up to a number of them.
    pub fn take(&mut self, limit: usize) -> (r: Vec<Message>)
        requires
            old(self).wf(),
        ensures
            final(self).wf(),
            message_views(r@) == first_of(old(self)@.queue, limit as nat),
            final(self)@ == (ShardView {
                queue: rest_of(old(self)@.queue, limit as nat),
                ..old(self)@
            }),
    {
        let ghost all = self@.queue;
        let mut messages: Vec<Message> = Vec::new();
        assert(message_views(messages@) =~= all.subrange(0, 0));
        assert(all.skip(0) =~= all);
        while messages.len() < limit
            invariant_except_break
                self.wf(),
                messages@.len() <= limit,
                messages@.len() <= all.len(),
                message_views(messages@) == all.subrange(0, messages@.len() as int),
                self@ == (ShardView { queue: all.skip(messages@.len() as int), ..old(self)@ }),
            ensures
                self.wf(),
                messages@.len() == (if limit < all.len() {
                    limit as nat
                } else {
                    all.len()
                }),
                message_views(messages@) == all.subrange(0, messages@.len() as int),
                self@ == (ShardView { queue: all.skip(messages@.len() as int), ..old(self)@ }),
            decreases limit - messages@.len(),
        {
            let ghost n = messages@.len() as int;
            let ghost before = messages@;
            match self.pop() {
                Some(m) => {
                    messages.push(m);
                    assert(message_views(messages@) =~= message_views(before).push(m@));
                    assert(all.subrange(0, n + 1) =~= all.subrange(0, n).push(all[n]));
                    assert(all.skip(n).skip(1) =~= all.skip(n + 1));
                },
                None => {
                    break;
                },
            }
        }
        messages
    }

    pub fn len(&self) -> (r: usize)
        ensures
            r == self@.queue.len(),
    {
        channel_len(&self.rx)
    }

    pub fn is_empty(&self) -> (r: bool)
        ensures
            r <==> self@.queue.len() == 0,
    {
        channel_len(&self.rx) == 0
    }

    /// When the queue was made.
    pub fn last_access(&self) -> (r: u64)
        ensures
            r == self@.last_access,
    {
        self.last_access
    }

    /// Whether the queue is reserved for emergencies.
    pub fn is_deadzone_shard(&self) -> (r: bool)
        ensures
            r == self@.is_deadzone_shard,
    {
        self.is_deadzone_shard
    }
}

/// The first messages of a queue, up to a number of them.
pub open spec fn first_of(q: Seq<MessageView>, limit: nat) -> Seq<MessageView> {
    if limit < q.len() {
        q.subrange(0, limit as int)
    } else {
        q
    }
}

/// What is left of a queue without its first messages.
pub open spec fn rest_of(q: Seq<MessageView>, limit: nat) -> Seq<MessageView> {
    if limit < q.len() {
        q.skip(limit as int)
    } else {
        Seq::empty()
    }
}

/// The state of all shards. Position 0 is the shard for emergencies and the last
/// position the one for reconnect bursts.
#[verifier::ext_equal]
pub struct ShardsView {
    pub queues: Seq<Seq<MessageView>>,
    /// Whether messages may be pushed to each shard.
    pub live: Seq<bool>,
    /// When each shard was made.
    pub made_at: Seq<u64>,
    /// The most messages in a shard.
    pub size: usize,
    /// The number of messages in normal shards at which they push back.
    pub limit: u64,
    /// The number of messages that count toward the limit.
    pub regular: u64,
    /// How many turns were taken.
    pub turn: u64,
    pub allocated: u64,
    pub dropped: u64,
    pub leaked: u64,
}

/// The position of the shard for reconnect bursts.
pub open spec fn spread_position(v: ShardsView) -> int {
    v.queues.len() - 1
}

/// Whether a position is that of a normal shard.
pub open spec fn is_regular(v: ShardsView, i: int) -> bool {
    0 < i < spread_position(v)
}

/// The number of messages in the shards from one position up to another.
pub open spec fn total_of(queues: Seq<Seq<MessageView>>, from: int, to: int) -> nat
    decreases to - from,
{
    if to <= from {
        0
    } else {
        total_of(queues, from, to - 1) + queues[to - 1].len()
    }
}

/// The number of messages in normal shards.
pub open spec fn regular_total(v: ShardsView) -> nat {
    total_of(v.queues, 1, spread_position(v))
}

/// Whether a state is one that can come about: the reserved shards are there, no
/// queue is over its size, and the normal ones hold no more messages than were
/// counted, which are no more than 80% of what they could hold.
pub open spec fn consistent(v: ShardsView) -> bool {
    &&& v.queues.len() >= 2
    &&& v.live.len() == v.queues.len()
    &&& v.made_at.len() == v.queues.len()
    &&& v.live[0]
    &&& v.live[spread_position(v)]
    &&& forall|i: int| 0 <= i < v.queues.len() ==> (#[trigger] v.queues[i]).len() <= v.size
    &&& v.queues.len() * v.size <= isize::MAX / 256
    &&& v.limit == (v.queues.len() - 2) * v.size * 8 / 10
    &&& regular_total(v) <= v.regular <= v.limit
}

/// A message put into the shard at a position.
pub open spec fn delivered(v: ShardsView, i: int, m: MessageView) -> (
    ShardsView,
    Result<ShardId, ShardError>,
) {
    let w = ShardsView { allocated: counted(v.allocated, 1), ..v };
    if !v.live[i] {
        (ShardsView { dropped: counted(v.dropped, 1), ..w }, Err(ShardError::NotFound))
    } else if v.queues[i].len() >= v.size {
        (w, Err(ShardError::Full))
    } else {
        (
            ShardsView { queues: v.queues.update(i, v.queues[i].push(m)), ..w },
            Ok(ShardId(i as u64)),
        )
    }
}

/// The position of the normal shard whose turn it is.
pub open spec fn turn_position(v: ShardsView) -> int {
    1 + v.turn as int % (spread_position(v) - 1)
}

/// A message put into the normal shard whose turn it is, unless the normal shards
/// push back.
pub open spec fn pushed(v: ShardsView, m: MessageView) -> (ShardsView, Result<ShardId, ShardError>) {
    if v.regular >= v.limit {
        (
            ShardsView { dropped: counted(v.dropped, 1), ..v },
            Err(ShardError::Backpressure),
        )
    } else {
        let (w, r) = delivered(
            ShardsView { turn: counted(v.turn, 1), ..v },
            turn_position(v),
            m,
        );
        match r {
            Ok(id) => (ShardsView { regular: (v.regular + 1) as u64, ..w }, r),
            Err(_) => (w, r),
        }
    }
}

/// The state after the first messages of a shard are taken.
pub open spec fn taken(v: ShardsView, id: ShardId, limit: nat) -> ShardsView {
    let i = id.0 as int;
    if i < v.queues.len() {
        let n = first_of(v.queues[i], limit).len();
        ShardsView {
            queues: v.queues.update(i, rest_of(v.queues[i], limit)),
            regular: if !is_regular(v, i) {
                v.regular
            } else if n < v.regular {
                (v.regular - n) as u64
            } else {
                0
            },
            ..v
        }
    } else {
        v
    }
}

/// The messages that are taken.
pub open spec fn taken_messages(v: ShardsView, id: ShardId, limit: nat) -> Seq<MessageView> {
    if id.0 < v.queues.len() {
        first_of(v.queues[id.0 as int], limit)
    } else {
        Seq::empty()
    }
}

/// A number for each protocol by which its shard is found.
pub open spec fn shard_number(p: Protocol) -> int {
    match p {
        Protocol::IridiumSBD => 1,
        Protocol::InmarsatC => 2,
        Protocol::VSAT => 3,
        Protocol::HFVHF => 4,
        Protocol::RockBLOCK => 5,
        Protocol::Samsara => 6,
        Protocol::NIDD => 7,
        Protocol::ASTSpaceMobile => 8,
        Protocol::LoRaMesh => 9,
    }
}

/// The position of a protocol's shard; never that of the shard for emergencies.
pub open spec fn protocol_position(v: ShardsView, p: Protocol) -> int {
    1 + shard_number(p) % spread_position(v)
}

/// The state after a shard was made where there was none.
pub open spec fn with_shard(v: ShardsView, i: int, now: u64) -> ShardsView {
    if v.live[i] {
        v
    } else {
        ShardsView {
            queues: v.queues.update(i, Seq::empty()),
            live: v.live.update(i, true),
            made_at: v.made_at.update(i, now),
            ..v
        }
    }
}

/// The state after old normal shards were closed.
pub open spec fn evicted(v: ShardsView, idle_threshold: u64, now: u64) -> ShardsView {
    ShardsView {
        live: Seq::new(
            v.live.len(),
            |i: int|
                v.live[i] && (!is_regular(v, i) || elapsed(v.made_at[i], now) < idle_threshold),
        ),
        ..v
    }
}

/// The number of live shards among the first ones.
pub open spec fn live_count(v: ShardsView, to: int) -> nat
    decreases to,
{
    if to <= 0 {
        0
    } else {
        live_count(v, to - 1) + if v.live[to - 1] {
            1nat
        } else {
            0
        }
    }
}

/// The number of live shards with messages among the first ones.
pub open spec fn active_count(v: ShardsView, to: int) -> nat
    decreases to,
{
    if to <= 0 {
        0
    } else {
        active_count(v, to - 1) + if v.live[to - 1] && v.queues[to - 1].len() > 0 {
            1nat
        } else {
            0
        }
    }
}

/// The number of messages in live shards among the first ones.
pub open spec fn live_total(v: ShardsView, to: int) -> nat
    decreases to,
{
    if to <= 0 {
        0
    } else {
        live_total(v, to - 1) + if v.live[to - 1] {
            v.queues[to - 1].len()
        } else {
            0
        }
    }
}

#[derive(Debug, Clone, Copy)]
pub struct LeakStats {
    pub allocated: u64,
    pub dropped: u64,
    pub leaked: u64,
}

#[derive(Debug, Clone, Copy)]
pub struct ShardStats {
    pub total_shards: usize,
    /// Shards that hold messages.
    pub active_shards: usize,
    pub total_messages: usize,
    pub shard_size: usize,
}

proof fn lemma_total_elsewhere(q: Seq<Seq<MessageView>>, i: int, x: Seq<MessageView>, from: int, to: int)
    requires
        0 <= from,
        to <= q.len(),
        0 <= i < q.len(),
        i < from || to <= i,
    ensures
        total_of(q.update(i, x), from, to) == total_of(q, from, to),
    decreases to - from,
{
    if from < to {
        lemma_total_elsewhere(q, i, x, from, to - 1);
    }
}

proof fn lemma_total_at(q: Seq<Seq<MessageView>>, i: int, x: Seq<MessageView>, from: int, to: int)
    requires
        0 <= from <= i < to <= q.len(),
    ensures
        total_of(q.update(i, x), from, to) == total_of(q, from, to) - q[i].len() + x.len(),
    decreases to - from,
{
    if i == to - 1 {
        lemma_total_elsewhere(q, i, x, from, to - 1);
    } else {
        lemma_total_at(q, i, x, from, to - 1);
    }
}

proof fn lemma_turn(v: ShardsView)
    requires
        consistent(v),
        v.regular < v.limit,
    ensures
        is_regular(v, turn_position(v)),
{
    let n = spread_position(v) - 1;
    if n == 0 {
        assert((v.queues.len() - 2) * v.size == 0) by (nonlinear_arith)
            requires
                v.queues.len() == 2,
        ;
    }
    assert(0 <= v.turn as int % n < n) by (nonlinear_arith)
        requires
            n > 0,
    ;
}

proof fn lemma_delivered(v: ShardsView, i: int, m: MessageView)
    requires
        consistent(v),
        0 <= i < v.queues.len(),
    ensures
        ({
            let (w, r) = delivered(v, i, m);
            &&& !is_regular(v, i) ==> consistent(w)
            &&& r is Err ==> consistent(w)
            &&& is_regular(v, i) && r is Ok && v.regular < v.limit ==> consistent(
                ShardsView { regular: (v.regular + 1) as u64, ..w },
            )
        }),
{
    let (w, r) = delivered(v, i, m);
    if r is Ok {
        let x = v.queues[i].push(m);
        if is_regular(v, i) {
            lemma_total_at(v.queues, i, x, 1, spread_position(v));
        } else {
            lemma_total_elsewhere(v.queues, i, x, 1, spread_position(v));
        }
    }
}

/// Pushing keeps the state consistent; in particular the normal shards never hold
/// more than 80% of what they could.
pub proof fn pushing_keeps_consistent(v: ShardsView, m: MessageView)
    requires
        consistent(v),
    ensures
        consistent(pushed(v, m).0),
        consistent(delivered(v, 0, m).0),
        consistent(delivered(v, spread_position(v), m).0),
{
    if v.regular < v.limit {
        lemma_turn(v);
        lemma_delivered(ShardsView { turn: counted(v.turn, 1), ..v }, turn_position(v), m);
    }
    lemma_delivered(v, 0, m);
    lemma_delivered(v, spread_position(v), m);
}

/// Taking messages keeps the state consistent.
pub proof fn taking_keeps_consistent(v: ShardsView, id: ShardId, limit: nat)
    requires
        consistent(v),
    ensures
        consistent(taken(v, id, limit)),
{
    let i = id.0 as int;
    if i < v.queues.len() {
        let x = rest_of(v.queues[i], limit);
        if is_regular(v, i) {
            lemma_total_at(v.queues, i, x, 1, spread_position(v));
        } else {
            lemma_total_elsewhere(v.queues, i, x, 1, spread_position(v));
        }
    }
}

proof fn lemma_with_shard(v: ShardsView, i: int, now: u64)
    requires
        consistent(v),
        0 <= i < v.queues.len(),
    ensures
        consistent(with_shard(v, i, now)),
{
    if !v.live[i] {
        let x = Seq::<MessageView>::empty();
        lemma_total_at(v.queues, i, x, 1, spread_position(v));
    }
}

proof fn lemma_protocol_position(v: ShardsView, p: Protocol)
    requires
        consistent(v),
    ensures
        0 < protocol_position(v, p) < v.queues.len(),
{
    let n = spread_position(v);
    let k = shard_number(p);
    assert(0 <= k % n < n) by (nonlinear_arith)
        requires
            n > 0,
    ;
}

/// The shards of a gateway.
pub struct ShardManager {
    slots: Vec<MemoryShard>,
    live: DashMap<u64, usize>,
    num_shards: usize,
    shard_size: usize,
    total_regular_messages: u64,
    backpressure_limit: u64,
    round_robin: u64,
    messages_allocated: u64,
    messages_dropped: u64,
    messages_leaked: u64,
}

impl View for ShardManager {
    type V = ShardsView;

    closed spec fn view(&self) -> ShardsView {
        ShardsView {
            queues: self.slots@.map_values(|s: MemoryShard| s@.queue),
            live: Seq::new(
                self.slots@.len(),
                |i: int| table_content(self.live).contains_key(i as u64),
            ),
            made_at: self.slots@.map_values(|s: MemoryShard| s@.last_access),
            size: self.shard_size,
            limit: self.backpressure_limit,
            regular: self.total_regular_messages,
            turn: self.round_robin,
            allocated: self.messages_allocated,
            dropped: self.messages_dropped,
            leaked: self.messages_leaked,
        }
    }
}

impl ShardManager {
    /// The table and the queues agree.
    pub closed spec fn matched(&self) -> bool {
        &&& self.slots@.len() == self.num_shards + 1
        &&& forall|i: int|
            0 <= i < self.slots@.len() ==> (#[trigger] self.slots@[i]).wf()
                && self.slots@[i]@.max_size == self.shard_size
        &&& forall|k: u64| #[trigger]
            table_content(self.live).contains_key(k) ==> k < self.slots@.len() && table_content(
                self.live,
            )[k] == k
    }

    pub open spec fn wf(&self) -> bool {
        self.matched() && consistent(self@)
    }

    /// `num_shards - 1` normal shards and the two reserved ones, all empty.
    pub fn new(num_shards: usize, shard_size: usize, now: u64) -> (r: Self)
        requires
            1 <= num_shards < usize::MAX,
            (num_shards + 1) * shard_size <= isize::MAX / 256,
        ensures
            r.wf(),
            r@ == (ShardsView {
                queues: Seq::new((num_shards + 1) as nat, |i: int| Seq::<MessageView>::empty()),
                live: Seq::new((num_shards + 1) as nat, |i: int| true),
                made_at: Seq::new((num_shards + 1) as nat, |i: int| now),
                size: shard_size,
                limit: ((num_shards - 1) * shard_size * 8 / 10) as u64,
                regular: 0,
                turn: 0,
                allocated: 0,
                dropped: 0,
                leaked: 0,
            }),
    {
        proof {
            assert(shard_size <= (num_shards + 1) * shard_size) by (nonlinear_arith)
                requires
                    num_shards >= 1,
                    shard_size >= 0,
            ;
            assert((num_shards - 1) * shard_size <= (num_shards + 1) * shard_size)
                by (nonlinear_arith)
                requires
                    num_shards >= 1,
                    shard_size >= 0,
            ;
            assert((num_shards - 1) * shard_size >= 0) by (nonlinear_arith)
                requires
                    num_shards >= 1,
                    shard_size >= 0,
            ;
        }
        let mut slots: Vec<MemoryShard> = Vec::new();
        let mut live = table_new();
        let mut i: usize = 0;
        while i <= num_shards
            invariant
                i <= num_shards + 1,
                num_shards < usize::MAX,
                shard_size <= isize::MAX / 256,
                slots@.len() == i,
                forall|k: int|
                    0 <= k < i ==> (#[trigger] slots@[k]).wf() && slots@[k]@.queue == Seq::<
                        MessageView,
                    >::empty() && slots@[k]@.max_size == shard_size && slots@[k]@.last_access
                        == now,
                forall|k: u64| #[trigger] table_content(live).contains_key(k) <==> k < i,
                forall|k: u64| k < i ==> #[trigger] table_content(live)[k] == k,
            decreases num_shards + 1 - i,
        {
            slots.push(MemoryShard::new(ShardId(i as u64), shard_size, i == 0, now));
            table_insert(&mut live, i as u64, i);
            i = i + 1;
        }
        let regular: u64 = ((num_shards - 1) * shard_size) as u64;
        let r = ShardManager {
            slots,
            live,
            num_shards,
            shard_size,
            total_regular_messages: 0,
            backpressure_limit: regular * 8 / 10,
            round_robin: 0,
            messages_allocated: 0,
            messages_dropped: 0,
            messages_leaked: 0,
        };
        proof {
            let n = (num_shards + 1) as nat;
            assert(r@.queues =~= Seq::new(n, |i: int| Seq::<MessageView>::empty()));
            assert(r@.live =~= Seq::new(n, |i: int| true));
            assert(r@.made_at =~= Seq::new(n, |i: int| now));
            lemma_empty_total(r@.queues, 1, spread_position(r@));
        }
        r
    }

    /// The shard of a protocol; it is made where it was closed.
    pub fn get_shard(&mut self, protocol: Protocol, now: u64) -> (r: ShardId)
        requires
            old(self).wf(),
        ensures
            final(self).wf(),
            r.0 == protocol_position(old(self)@, protocol),
            final(self)@ == with_shard(old(self)@, r.0 as int, now),
    {
        let number: u64 = match protocol {
            Protocol::IridiumSBD => 1,
            Protocol::InmarsatC => 2,
            Protocol::VSAT => 3,
            Protocol::HFVHF => 4,
            Protocol::RockBLOCK => 5,
            Protocol::Samsara => 6,
            Protocol::NIDD => 7,
            Protocol::ASTSpaceMobile => 8,
            Protocol::LoRaMesh => 9,
        };
        proof {
            lemma_protocol_position(self@, protocol);
            lemma_with_shard(self@, protocol_position(self@, protocol), now);
        }
        let id: u64 = 1 + number % (self.num_shards as u64);
        if table_get(&self.live, id).is_none() {
            proof {
                assert(self.shard_size <= self@.queues.len() * self.shard_size) by (nonlinear_arith)
                    requires
                        self@.queues.len() >= 1,
                        self.shard_size >= 0,
                ;
            }
            let shard = MemoryShard::new(ShardId(id), self.shard_size, false, now);
            self.slots.set(id as usize, shard);
            table_insert(&mut self.live, id, id as usize);
            assert(self@ =~= with_shard(old(self)@, id as int, now));
        }
        ShardId(id)
    }

    /// Puts a message into the shard at a position.
    fn deliver(&mut self, id: u64, message: Message) -> (r: Result<ShardId, ShardError>)
        requires
            old(self).matched(),
            id < old(self)@.queues.len(),
        ensures
            final(self).matched(),
            r == delivered(old(self)@, id as int, message@).1,
            final(self)@ == delivered(old(self)@, id as int, message@).0,
    {
        let ghost before = self@;
        self.messages_allocated = count(self.messages_allocated, 1);
        match table_get(&self.live, id) {
            Some(i) => {
                let r = self.slots[i].push(message);
                match r {
                    Ok(_) => {
                        assert(self@ =~= delivered(before, id as int, message@).0);
                        Ok(ShardId(id))
                    },
                    Err(e) => {
                        assert(self@ =~= delivered(before, id as int, message@).0);
                        Err(e)
                    },
                }
            },
            None => {
                self.messages_dropped = count(self.messages_dropped, 1);
                assert(self@ =~= delivered(before, id as int, message@).0);
                Err(ShardError::NotFound)
            },
        }
    }

    /// Puts a message into the normal shard whose turn it is, unless the normal
    /// shards push back.
    pub fn push(&mut self, message: Message) -> (r: Result<ShardId, ShardError>)
        requires
            old(self).wf(),
        ensures
            final(self).wf(),
            r == pushed(old(self)@, message@).1,
            final(self)@ == pushed(old(self)@, message@).0,
    {
        let ghost before = self@;
        proof {
            pushing_keeps_consistent(self@, message@);
        }
        if self.total_regular_messages >= self.backpressure_limit {
            self.messages_dropped = count(self.messages_dropped, 1);
            assert(self@ =~= pushed(before, message@).0);
            return Err(ShardError::Backpressure);
        }
        proof {
            lemma_turn(self@);
        }
        let id: u64 = 1 + self.round_robin % (self.num_shards as u64 - 1);
        self.round_robin = count(self.round_robin, 1);
        assert(self@ =~= ShardsView { turn: counted(before.turn, 1), ..before });
        let r = self.deliver(id, message);
        match r {
            Ok(id) => {
                let ghost then = self@;
                self.total_regular_messages = self.total_regular_messages + 1;
                assert(self@ =~= ShardsView { regular: (then.regular + 1) as u64, ..then });
                Ok(id)
            },
            Err(e) => Err(e),
        }
    }

    /// Puts a message into the shard for reconnect bursts, which never pushes
    /// back.
    pub fn push_spread(&mut self, message: Message) -> (r: Result<ShardId, ShardError>)
        requires
            old(self).wf(),
        ensures
            final(self).wf(),
            r == delivered(old(self)@, spread_position(old(self)@), message@).1,
            final(self)@ == delivered(old(self)@, spread_position(old(self)@), message@).0,
    {
        proof {
            pushing_keeps_consistent(self@, message@);
        }
        self.deliver(self.num_shards as u64, message)
    }

    /// The shard for reconnect bursts.
    pub fn get_spread_shard(&self) -> (r: ShardId)
        requires
            self.wf(),
        ensures
            r.0 == spread_position(self@),
    {
        ShardId(self.num_shards as u64)
    }

    /// Puts a message into the shard for emergencies, which never pushes back.
    pub fn push_deadzone(&mut self, message: Message) -> (r: Result<ShardId, ShardError>)
        requires
            old(self).wf(),
        ensures
            final(self).wf(),
            r == delivered(old(self)@, 0, message@).1,
            final(self)@ == delivered(old(self)@, 0, message@).0,
    {
        proof {
            pushing_keeps_consistent(self@, message@);
        }
        self.deliver(0, message)
    }

    /// The shard for emergencies.
    pub fn get_deadzone_shard(&self) -> (r: ShardId)
        ensures
            r.0 == 0,
    {
        ShardId(0)
    }

    /// Takes the first messages of a shard, up to a number of them.
    fn take(&mut self, shard_id: ShardId, limit: usize) -> (r: Vec<Message>)
        requires
            old(self).wf(),
        ensures
            final(self).wf(),
            message_views(r@) == taken_messages(old(self)@, shard_id, limit as nat),
            final(self)@ == taken(old(self)@, shard_id, limit as nat),
    {
        let ghost before = self@;
        proof {
            taking_keeps_consistent(self@, shard_id, limit as nat);
        }
        if shard_id.0 > self.num_shards as u64 {
            let none: Vec<Message> = Vec::new();
            assert(message_views(none@) =~= Seq::<MessageView>::empty());
            return none;
        }
        let messages = self.slots[shard_id.0 as usize].take(limit);
        assert(message_views(messages@).len() == messages@.len());
        if shard_id.0 != 0 && shard_id.0 != self.num_shards as u64 {
            let n: u64 = messages.len() as u64;
            self.total_regular_messages = if n < self.total_regular_messages {
                self.total_regular_messages - n
            } else {
                0
            };
        }
        assert(self@ =~= taken(before, shard_id, limit as nat));
        messages
    }

    /// Takes all messages of a shard, those of a closed one too.
    pub fn drain_shard(&mut self, shard_id: ShardId) -> (r: Vec<Message>)
        requires
            old(self).wf(),
        ensures
            final(self).wf(),
            message_views(r@) == (if shard_id.0 < old(self)@.queues.len() {
                old(self)@.queues[shard_id.0 as int]
            } else {
                Seq::empty()
            }),
            final(self)@ == taken(old(self)@, shard_id, usize::MAX as nat),
    {
        self.take(shard_id, usize::MAX)
    }

    /// How many shards and messages there are, closed shards left out.
    pub fn stats(&self) -> (r: ShardStats)
        requires
            self.wf(),
        ensures
            r.total_shards == live_count(self@, self@.live.len() as int),
            r.active_shards == active_count(self@, self@.live.len() as int),
            r.total_messages == live_total(self@, self@.live.len() as int),
            r.shard_size == self@.size,
    {
        let ghost v = self@;
        let mut total_shards: usize = 0;
        let mut active_shards: usize = 0;
        let mut total_messages: usize = 0;
        let mut i: usize = 0;
        assert(0 <= 0 * v.size);
        while i < self.slots.len()
            invariant
                self.wf(),
                v == self@,
                i <= self.slots@.len() == v.queues.len() == v.live.len(),
                total_shards == live_count(v, i as int),
                total_shards <= i,
                active_shards == active_count(v, i as int),
                active_shards <= i,
                total_messages == live_total(v, i as int),
                total_messages <= i * v.size,
            decreases self.slots@.len() - i,
        {
            proof {
                assert((i + 1) * v.size <= v.queues.len() * v.size) by (nonlinear_arith)
                    requires
                        i + 1 <= v.queues.len(),
                        v.size >= 0,
                ;
                assert((i + 1) * v.size == i * v.size + v.size) by (nonlinear_arith);
                assert(v.queues[i as int].len() <= v.size);
                assert(v.queues[i as int] == self.slots@[i as int]@.queue);
            }
            if table_get(&self.live, i as u64).is_some() {
                total_shards = total_shards + 1;
                if !self.slots[i].is_empty() {
                    active_shards = active_shards + 1;
                }
                total_messages = total_messages + self.slots[i].len();
            }
            i = i + 1;
        }
        ShardStats { total_shards, active_shards, total_messages, shard_size: self.shard_size }
    }

    /// Closes the normal shards that were made too long ago; the reserved ones
    /// stay.
    pub fn evict_idle(&mut self, idle_threshold: u64, now: u64)
        requires
            old(self).wf(),
        ensures
            final(self).wf(),
            final(self)@ == evicted(old(self)@, idle_threshold, now),
    {
        let ghost v = self@;
        let ghost w = evicted(v, idle_threshold, now);
        let mut i: usize = 1;
        while i < self.num_shards
            invariant
                self.matched(),
                1 <= i <= self.num_shards,
                self.slots@ == old(self).slots@,
                self.num_shards == old(self).num_shards,
                self.shard_size == old(self).shard_size,
                self.total_regular_messages == old(self).total_regular_messages,
                self.backpressure_limit == old(self).backpressure_limit,
                self.round_robin == old(self).round_robin,
                self.messages_allocated == old(self).messages_allocated,
                self.messages_dropped == old(self).messages_dropped,
                self.messages_leaked == old(self).messages_leaked,
                v == old(self)@,
                w == evicted(v, idle_threshold, now),
                self.slots@.len() == self.num_shards + 1,
                forall|k: int|
                    0 <= k < self.slots@.len() ==> #[trigger] table_content(self.live).contains_key(
                        k as u64,
                    ) == (if 1 <= k < i {
                        w.live[k]
                    } else {
                        v.live[k]
                    }),
            decreases self.num_shards - i,
        {
            assert(v.made_at[i as int] == self.slots@[i as int]@.last_access);
            if elapsed_ms(self.slots[i].last_access(), now) >= idle_threshold {
                table_remove(&mut self.live, i as u64);
            }
            i = i + 1;
        }
        assert(self@ =~= w);
    }

    pub fn leak_stats(&self) -> (r: LeakStats)
        ensures
            r.allocated == self@.allocated,
            r.dropped == self@.dropped,
            r.leaked == self@.leaked,
    {
        LeakStats {
            allocated: self.messages_allocated,
            dropped: self.messages_dropped,
            leaked: self.messages_leaked,
        }
    }

    pub fn reset_leak_stats(&mut self)
        requires
            old(self).wf(),
        ensures
            final(self).wf(),
            final(self)@ == (ShardsView { allocated: 0, dropped: 0, leaked: 0, ..old(self)@ }),
    {
        self.messages_allocated = 0;
        self.messages_dropped = 0;
        self.messages_leaked = 0;
        assert(self@ =~= ShardsView { allocated: 0, dropped: 0, leaked: 0, ..old(self)@ });
    }
}

proof fn lemma_empty_total(q: Seq<Seq<MessageView>>, from: int, to: int)
    requires
        0 <= from,
        to <= q.len(),
        forall|i: int| 0 <= i < q.len() ==> (#[trigger] q[i]).len() == 0,
    ensures
        total_of(q, from, to) == 0,
    decreases to - from,
{
    if from < to {
        lemma_empty_total(q, from, to - 1);
    }
}

/// Takes the messages of one shard for processing.
#[derive(Debug, Clone, Copy)]
pub struct ShardWorker {
    pub shard_id: ShardId,
}

impl ShardWorker {
    pub fn new(shard_id: ShardId) -> (r: Self)
        ensures
            r.shard_id == shard_id,
    {
        ShardWorker { shard_id }
    }

    /// The next message of the shard, if any.
    pub fn run(&self, manager: &mut ShardManager) -> (r: Option<Message>)
        requires
            old(manager).wf(),
        ensures
            final(manager).wf(),
            ({
                let q = taken_messages(old(manager)@, self.shard_id, 1);
                match r {
                    Some(m) => q == seq![m@],
                    None => q.len() == 0,
                }
            }),
            final(manager)@ == taken(old(manager)@, self.shard_id, 1),
    {
        let mut messages = manager.take(self.shard_id, 1);
        let ghost q = message_views(messages@);
        let r = messages.pop();
        proof {
            if q.len() > 0 {
                assert(q =~= seq![(r->0)@]);
            }
        }
        r
    }

    /// The next messages of the shard: as many as a batch may have, and one at
    /// least where any waits.
    pub fn run_batched(&self, manager: &mut ShardManager, batch_size: usize) -> (r: Vec<Message>)
        requires
            old(manager).wf(),
        ensures
            final(manager).wf(),
            ({
                let limit = if batch_size == 0 {
                    1
                } else {
                    batch_size as nat
                };
                &&& message_views(r@) == taken_messages(old(manager)@, self.shard_id, limit)
                &&& final(manager)@ == taken(old(manager)@, self.shard_id, limit)
            }),
    {
        let limit: usize = if batch_size == 0 {
            1
        } else {
            batch_size
        };
        manager.take(self.shard_id, limit)
    }
}

/// The reserved shards take a message whenever they have room, however full the
/// normal ones are.
pub proof fn reserved_shards_ignore_backpressure(v: ShardsView, m: MessageView)
    requires
        consistent(v),
    ensures
        delivered(v, 0, m).1 is Ok <==> v.queues[0].len() < v.size,
        delivered(v, spread_position(v), m).1 is Ok <==> v.queues[spread_position(v)].len()
            < v.size,
        delivered(v, 0, m).0.regular == v.regular,
        delivered(v, spread_position(v), m).0.regular == v.regular,
{
}

/// A normal message that is taken joins the end of one normal shard, and no other
/// queue changes.
pub proof fn normal_messages_go_to_normal_shards(v: ShardsView, m: MessageView)
    requires
        consistent(v),
        pushed(v, m).1 is Ok,
    ensures
        ({
            let i = (pushed(v, m).1->Ok_0).0 as int;
            &&& is_regular(v, i)
            &&& pushed(v, m).0.queues == v.queues.update(i, v.queues[i].push(m))
            &&& pushed(v, m).0.regular == v.regular + 1
        }),
{
    lemma_turn(v);
    assert(v.queues.len() <= usize::MAX + 1) by {
        lemma_positions(v);
    }
}

proof fn lemma_positions(v: ShardsView)
    requires
        consistent(v),
        v.regular < v.limit,
    ensures
        v.queues.len() <= isize::MAX,
{
    if v.size == 0 {
        assert((v.queues.len() - 2) * v.size == 0) by (nonlinear_arith)
            requires
                v.size == 0,
        ;
    }
    assert(v.queues.len() <= v.queues.len() * v.size) by (nonlinear_arith)
        requires
            v.size >= 1,
    ;
}

/// A refused message leaves every queue as it was.
pub proof fn refused_messages_change_no_queue(v: ShardsView, m: MessageView, i: int)
    ensures
        pushed(v, m).1 is Err ==> pushed(v, m).0.queues == v.queues,
        delivered(v, i, m).1 is Err ==> delivered(v, i, m).0.queues == v.queues,
{
}

/// What is drained is exactly what was there, in order, and the shard is empty
/// after that; no other shard changes and nothing leaks.
pub proof fn draining_loses_nothing(v: ShardsView, id: ShardId, other: int)
    requires
        consistent(v),
        id.0 < v.queues.len(),
        0 <= other < v.queues.len(),
        other != id.0,
    ensures
        taken_messages(v, id, usize::MAX as nat) == v.queues[id.0 as int],
        taken(v, id, usize::MAX as nat).queues[id.0 as int] == Seq::<MessageView>::empty(),
        taken(v, id, usize::MAX as nat).queues[other] == v.queues[other],
        taken(v, id, usize::MAX as nat).leaked == v.leaked,
{
    assert(v.queues[id.0 as int].len() <= v.size);
}

/// Whenever no message was refused and none was taken, all that were pushed are
/// there: each push that succeeds adds one to the number of allocated messages
/// and one to the queues.
pub proof fn pushes_are_accounted_for(v: ShardsView, m: MessageView)
    requires
        consistent(v),
        pushed(v, m).1 is Ok,
    ensures
        regular_total(pushed(v, m).0) == regular_total(v) + 1,
        pushed(v, m).0.allocated == counted(v.allocated, 1),
        pushed(v, m).0.dropped == v.dropped,
{
    lemma_turn(v);
    let i = turn_position(v);
    lemma_total_at(v.queues, i, v.queues[i].push(m), 1, spread_position(v));
}

/// A normal message is refused for one of three reasons only: the normal shards hold as
/// many messages as their limit, or the one whose turn it is is closed, or it is full.
/// Where none of them holds, the message is taken.
pub proof fn refusals_have_a_reason(v: ShardsView, m: MessageView)
    requires
        consistent(v),
    ensures
        pushed(v, m).1 == Err::<ShardId, ShardError>(ShardError::Backpressure) <==> v.regular
            >= v.limit,
        pushed(v, m).1 == Err::<ShardId, ShardError>(ShardError::NotFound) ==> exists|i: int|
            0 < i < v.queues.len() - 1 && !#[trigger] v.live[i],
        pushed(v, m).1 == Err::<ShardId, ShardError>(ShardError::Full) ==> exists|i: int|
            0 < i < v.queues.len() - 1 && (#[trigger] v.queues[i]).len() == v.size,
        pushed(v, m).1 != Err::<ShardId, ShardError>(ShardError::Timeout),
        v.regular < v.limit && (forall|i: int|
            0 < i < v.queues.len() - 1 ==> v.live[i] && (#[trigger] v.queues[i]).len() < v.size)
            ==> pushed(v, m).1 is Ok,
{
    if v.regular < v.limit {
        lemma_turn(v);
        let i = turn_position(v);
        assert(v.queues[i].len() <= v.size);
        assert(v.live[i] || !v.live[i]);
    }
}

/// A message that is put into a shard is the last one there. The other queues, and how
/// the shards are set up, stay as they are.
pub proof fn delivery_is_at_the_end(v: ShardsView, i: int, other: int, m: MessageView)
    requires
        0 <= i < v.queues.len(),
        0 <= other < v.queues.len(),
        other != i,
    ensures
        ({
            let (w, r) = delivered(v, i, m);
            &&& r is Ok <==> v.live[i] && v.queues[i].len() < v.size
            &&& r matches Ok(id) ==> i <= u64::MAX ==> id.0 == i
            &&& r is Ok ==> w.queues[i].drop_last() == v.queues[i] && w.queues[i].last() == m
            &&& r is Err ==> w.queues[i] == v.queues[i]
            &&& w.queues[other] == v.queues[other]
            &&& w.queues.len() == v.queues.len()
            &&& w.live == v.live
            &&& w.made_at == v.made_at
            &&& w.size == v.size
            &&& w.limit == v.limit
            &&& w.regular == v.regular
            &&& w.turn == v.turn
            &&& w.leaked == v.leaked
            &&& w.allocated == counted(v.allocated, 1)
        }),
{
    let (w, r) = delivered(v, i, m);
    if r is Ok {
        assert(w.queues[i].drop_last() =~= v.queues[i]);
    }
}

/// The normal shards take turns: after each message that was not pushed back it is the
/// turn of the next one, and after the last one that of the first.
pub proof fn shards_take_turns(v: ShardsView, m: MessageView)
    requires
        consistent(v),
        v.regular < v.limit,
        v.turn < u64::MAX,
    ensures
        0 < turn_position(v) < v.queues.len() - 1,
        pushed(v, m).1 matches Ok(id) ==> id.0 == turn_position(v),
        turn_position(pushed(v, m).0) == if turn_position(v) == v.queues.len() - 2 {
            1
        } else {
            turn_position(v) + 1
        },
{
    lemma_turn(v);
    lemma_positions(v);
    let n = spread_position(v) - 1;
    let t = v.turn as int;
    let w = pushed(v, m).0;
    assert(w.turn == t + 1);
    assert(w.queues.len() == v.queues.len());
    assert((t + 1) % n == if t % n == n - 1 {
        0
    } else {
        t % n + 1
    }) by {
        vstd::arithmetic::div_mod::lemma_fundamental_div_mod(t, n);
        vstd::arithmetic::div_mod::lemma_mod_bound(t, n);
        if t % n == n - 1 {
            assert(t + 1 == n * (t / n + 1)) by (nonlinear_arith)
                requires
                    t == n * (t / n) + t % n,
                    t % n == n - 1,
            ;
            vstd::arithmetic::div_mod::lemma_mod_multiples_basic(t / n + 1, n);
            assert(n * (t / n + 1) == (t / n + 1) * n) by (nonlinear_arith);
        } else {
            assert(t + 1 == n * (t / n) + (t % n + 1));
            vstd::arithmetic::div_mod::lemma_fundamental_div_mod_converse(
                t + 1,
                n,
                t / n,
                t % n + 1,
            );
        }
    }
}

/// What is taken from a shard are its first messages, as many as were asked for where
/// there are so many, and what is left are the others, in their order.
pub proof fn taking_splits_the_queue(v: ShardsView, id: ShardId, limit: nat, other: int)
    requires
        consistent(v),
        id.0 < v.queues.len(),
        0 <= other < v.queues.len(),
        other != id.0,
    ensures
        ({
            let q = v.queues[id.0 as int];
            let w = taken(v, id, limit);
            let t = taken_messages(v, id, limit);
            &&& t + w.queues[id.0 as int] == q
            &&& t.len() == if limit < q.len() {
                limit
            } else {
                q.len()
            }
            &&& w.queues[other] == v.queues[other]
            &&& w.queues.len() == v.queues.len()
            &&& 0 < id.0 < v.queues.len() - 1 ==> w.regular == v.regular - t.len()
            &&& id.0 == 0 || id.0 == v.queues.len() - 1 ==> w.regular == v.regular
            &&& w.live == v.live
            &&& w.allocated == v.allocated
            &&& w.dropped == v.dropped
            &&& w.leaked == v.leaked
            &&& w.turn == v.turn
        }),
{
    let i = id.0 as int;
    let q = v.queues[i];
    let w = taken(v, id, limit);
    assert(taken_messages(v, id, limit) + w.queues[i] =~= q);
    if is_regular(v, i) {
        lemma_total_at(v.queues, i, Seq::empty(), 1, spread_position(v));
        assert(q.len() <= regular_total(v));
    }
}

/// A shard that is not there gives nothing, and nothing changes.
pub proof fn unknown_shards_are_empty(v: ShardsView, id: ShardId, limit: nat)
    requires
        id.0 >= v.queues.len(),
    ensures
        taken(v, id, limit) == v,
        taken_messages(v, id, limit) == Seq::<MessageView>::empty(),
{
}

/// A protocol's shard is never the one for emergencies.
pub proof fn protocols_have_shards(v: ShardsView, p: Protocol)
    requires
        v.queues.len() >= 2,
    ensures
        0 < protocol_position(v, p) < v.queues.len(),
{
    vstd::arithmetic::div_mod::lemma_mod_bound(shard_number(p), spread_position(v));
}

/// With at least ten shards, different protocols have different shards.
pub proof fn protocols_do_not_share(v: ShardsView, p: Protocol, q: Protocol)
    requires
        v.queues.len() >= 10,
        protocol_position(v, p) == protocol_position(v, q),
    ensures
        p == q,
{
    lemma_number_in_turn(shard_number(p), spread_position(v));
    lemma_number_in_turn(shard_number(q), spread_position(v));
}

proof fn lemma_number_in_turn(a: int, n: int)
    requires
        0 < a <= 9,
        n >= 9,
    ensures
        a % n == if a == n {
            0
        } else {
            a
        },
{
    if a == n {
        vstd::arithmetic::div_mod::lemma_mod_self_0(n);
    } else {
        vstd::arithmetic::div_mod::lemma_small_mod(a as nat, n as nat);
    }
}

/// Closing old shards closes a normal shard exactly where it is at least as old as was
/// asked for, never one of the two that are reserved, and takes no message.
pub proof fn only_old_shards_are_closed(v: ShardsView, idle_threshold: u64, now: u64, i: int)
    requires
        consistent(v),
        0 <= i < v.queues.len(),
    ensures
        ({
            let w = evicted(v, idle_threshold, now);
            &&& w.queues == v.queues
            &&& w.live[0]
            &&& w.live[v.queues.len() - 1]
            &&& 0 < i < v.queues.len() - 1 ==> (w.live[i] <==> v.live[i] && (if now
                >= v.made_at[i] {
                now - v.made_at[i] < idle_threshold
            } else {
                0 < idle_threshold
            }))
            &&& w.regular == v.regular
            &&& w.allocated == v.allocated
        }),
{
}

/// A shard is made where there is none, empty; a shard that is there stays as it is.
pub proof fn shards_are_made_once(v: ShardsView, i: int, other: int, now: u64)
    requires
        consistent(v),
        0 <= i < v.queues.len(),
        0 <= other < v.queues.len(),
        other != i,
    ensures
        ({
            let w = with_shard(v, i, now);
            &&& w.live[i]
            &&& v.live[i] ==> w == v
            &&& !v.live[i] ==> w.queues[i].len() == 0 && w.made_at[i] == now
            &&& w.queues[other] == v.queues[other]
            &&& w.live[other] == v.live[other]
            &&& w.made_at[other] == v.made_at[other]
        }),
{
}

/// Live shards and the messages in them are counted one by one: a shard that is closed
/// counts for nothing, and one without messages is not active.
pub proof fn counts_are_of_live_shards(v: ShardsView, to: int)
    requires
        0 <= to < v.queues.len(),
        v.live.len() == v.queues.len(),
    ensures
        live_count(v, 0) == 0 && active_count(v, 0) == 0 && live_total(v, 0) == 0,
        live_count(v, to + 1) - live_count(v, to) == if v.live[to] {
            1int
        } else {
            0int
        },
        live_total(v, to + 1) - live_total(v, to) == if v.live[to] {
            v.queues[to].len() as int
        } else {
            0int
        },
        active_count(v, to + 1) - active_count(v, to) == if v.live[to] && v.queues[to].len() > 0 {
            1int
        } else {
            0int
        },
{
}

/// Whether a shard is open and holds nothing.
pub open spec fn is_vacant(v: ShardsView, i: int) -> bool {
    v.live[i] && v.queues[i].len() == 0
}

/// The state after several normal messages, one after the other.
pub open spec fn all_pushed(v: ShardsView, messages: Seq<MessageView>) -> ShardsView
    decreases messages.len(),
{
    if messages.len() == 0 {
        v
    } else {
        pushed(all_pushed(v, messages.drop_last()), messages.last()).0
    }
}

/// New shards take as many normal messages as their limit before the first one is
/// refused, and give them to the normal shards in turn.
pub proof fn new_shards_take_their_limit(v: ShardsView, messages: Seq<MessageView>, m: MessageView)
    requires
        consistent(v),
        v.turn == 0,
        v.regular == 0,
        forall|i: int| 0 < i < v.queues.len() - 1 ==> #[trigger] is_vacant(v, i),
        messages.len() <= v.limit,
    ensures
        all_pushed(v, messages).regular == messages.len(),
        messages.len() < v.limit ==> pushed(all_pushed(v, messages), m).1 == Ok::<
            ShardId,
            ShardError,
        >(ShardId((1 + messages.len() as int % (v.queues.len() - 2)) as u64)),
        messages.len() == v.limit ==> pushed(all_pushed(v, messages), m).1 == Err::<
            ShardId,
            ShardError,
        >(ShardError::Backpressure),
    decreases messages.len(),
{
    lemma_filled(v, messages);
    let w = all_pushed(v, messages);
    let n = v.queues.len() - 2;
    let k = messages.len() as int;
    if k < v.limit {
        lemma_turn(w);
        lemma_room(v, k);
        assert(turn_position(w) == 1 + k % n);
        assert(w.queues[turn_position(w)].len() == k / n);
        assert(is_vacant(v, turn_position(w)));
    }
}

spec fn fill_of(k: int, n: int, i: int) -> int {
    (k + n - i) / n
}

proof fn lemma_room(v: ShardsView, k: int)
    requires
        consistent(v),
        0 <= k < v.limit,
    ensures
        v.queues.len() > 2,
        ({
            let n = v.queues.len() - 2;
            &&& k / n < v.size
            &&& fill_of(k, n, 1 + k % n) == k / n
        }),
{
    let n = v.queues.len() - 2;
    let s = v.size as int;
    if n == 0 {
        assert((v.queues.len() - 2) * v.size == 0) by (nonlinear_arith)
            requires
                v.queues.len() == 2,
        ;
    }
    assert(n * s * 8 / 10 <= n * s) by {
        assert(n * s >= 0) by (nonlinear_arith)
            requires
                n >= 0,
                s >= 0,
        ;
    }
    assert(k / n < s) by (nonlinear_arith)
        requires
            0 <= k < n * s,
            n > 0,
    ;
    vstd::arithmetic::div_mod::lemma_fundamental_div_mod(k, n);
    vstd::arithmetic::div_mod::lemma_mod_bound(k, n);
    lemma_quotient(k + n - (1 + k % n), n, k / n, n - 1);
}

proof fn lemma_quotient(x: int, n: int, q: int, r: int)
    requires
        x == n * q + r,
        0 <= r < n,
    ensures
        x / n == q,
{
    assert(n * q == q * n) by (nonlinear_arith);
    vstd::arithmetic::div_mod::lemma_fundamental_div_mod_converse(x, n, q, r);
}

proof fn lemma_fill_next(k: int, n: int, i: int)
    requires
        0 <= k,
        0 < i <= n,
    ensures
        fill_of(k + 1, n, i) == fill_of(k, n, i) + if i == 1 + k % n {
            1int
        } else {
            0int
        },
{
    let q = k / n;
    let r = k % n;
    vstd::arithmetic::div_mod::lemma_fundamental_div_mod(k, n);
    vstd::arithmetic::div_mod::lemma_mod_bound(k, n);
    if i <= r {
        // Both have had one turn more than there were full rounds.
        assert(k + n - i == n * (q + 1) + (r - i)) by (nonlinear_arith)
            requires
                k == n * q + r,
        ;
        lemma_quotient(k + n - i, n, q + 1, r - i);
        lemma_quotient(
            k + 1 + n - i,
            n,
            q + 1,
            r + 1 - i,
        );
    } else if i == r + 1 {
        lemma_quotient(k + n - i, n, q, n - 1);
        assert(k + 1 + n - i == n * (q + 1)) by (nonlinear_arith)
            requires
                k == n * q + r,
                i == r + 1,
        ;
        lemma_quotient(k + 1 + n - i, n, q + 1, 0);
    } else {
        lemma_quotient(k + n - i, n, q, n + r - i);
        lemma_quotient(
            k + 1 + n - i,
            n,
            q,
            n + r + 1 - i,
        );
    }
}

proof fn lemma_filled(v: ShardsView, messages: Seq<MessageView>)
    requires
        consistent(v),
        v.turn == 0,
        v.regular == 0,
        forall|i: int| 0 < i < v.queues.len() - 1 ==> #[trigger] is_vacant(v, i),
        messages.len() <= v.limit,
    ensures
        ({
            let w = all_pushed(v, messages);
            let n = v.queues.len() - 2;
            &&& consistent(w)
            &&& w.queues.len() == v.queues.len()
            &&& w.live == v.live
            &&& w.size == v.size
            &&& w.limit == v.limit
            &&& w.turn == messages.len()
            &&& w.regular == messages.len()
            &&& forall|i: int|
                0 < i < v.queues.len() - 1 ==> (#[trigger] w.queues[i]).len() == fill_of(
                    messages.len() as int,
                    n,
                    i,
                )
        }),
    decreases messages.len(),
{
    let n = v.queues.len() - 2;
    if messages.len() == 0 {
        assert forall|i: int| 0 < i < v.queues.len() - 1 implies (#[trigger] v.queues[i]).len()
            == fill_of(0, n, i) by {
            assert(n * 0 == 0);
            lemma_quotient(n - i, n, 0, n - i);
            assert(is_vacant(v, i));
        }
    } else {
        let before = messages.drop_last();
        let m = messages.last();
        lemma_filled(v, before);
        let u = all_pushed(v, before);
        let k = before.len() as int;
        lemma_room(v, k);
        lemma_turn(u);
        pushing_keeps_consistent(u, m);
        let p = turn_position(u);
        assert(p == 1 + k % n);
        assert(u.queues[p].len() == k / n);
        assert(is_vacant(v, p));
        let w = all_pushed(v, messages);
        assert forall|i: int| 0 < i < v.queues.len() - 1 implies (#[trigger] w.queues[i]).len()
            == fill_of(k + 1, n, i) by {
            lemma_fill_next(k, n, i);
            assert(u.queues[i].len() == fill_of(k, n, i));
        }
    }
}

} // verus!
