//! Bi-temporal queries, for insurance underwriting and trade compliance.
//!
//! Valid time asks what happened; transaction time asks what the system knew.

use crate::protocol::{message_views, Message, MessageView, Protocol};
use crate::seqs::{
    lemma_filter_all,
    lemma_filter_ends,
    lemma_filter_holds,
    lemma_filter_next,
    lemma_filter_within,
};
use vstd::prelude::*;

verus! {

#[derive(Debug, Clone, Copy, PartialEq, Eq, Structural)]
pub enum QueryTime {
    /// When the event happened.
    ValidTime,
    /// When the system learned of it.
    TransactionTime,
}

#[derive(Debug, Clone, Copy)]
pub struct BiTemporalQuery {
    pub query_time: QueryTime,
    pub start_ms: u64,
    pub end_ms: u64,
    pub protocol_filter: Option<Protocol>,
    /// The largest spread in either direction.
    pub max_spread_ms: Option<i64>,
}

/// The size of a number.
pub open spec fn magnitude(x: int) -> int {
    if x < 0 {
        -x
    } else {
        x
    }
}

impl BiTemporalQuery {
    /// The time by which this query selects.
    pub open spec fn time_of(self, m: MessageView) -> u64 {
        match self.query_time {
            QueryTime::ValidTime => m.t_event,
            QueryTime::TransactionTime => m.t_system,
        }
    }

    /// Whether this query selects a message.
    pub open spec fn selects(self, m: MessageView) -> bool {
        &&& self.start_ms <= self.time_of(m) <= self.end_ms
        &&& self.protocol_filter matches Some(p) ==> m.protocol == p
        &&& self.max_spread_ms matches Some(s) ==> magnitude(m.spread()) <= s
    }

    /// The messages that this query selects.
    pub open spec fn predicate(self) -> spec_fn(MessageView) -> bool {
        |m: MessageView| self.selects(m)
    }

    /// All messages within a range of time.
    pub fn new(query_time: QueryTime, start_ms: u64, end_ms: u64) -> (r: Self)
        ensures
            r == (BiTemporalQuery {
                query_time,
                start_ms,
                end_ms,
                protocol_filter: None,
                max_spread_ms: None,
            }),
    {
        BiTemporalQuery { query_time, start_ms, end_ms, protocol_filter: None, max_spread_ms: None }
    }

    /// Only messages of one protocol.
    pub fn with_protocol(self, protocol: Protocol) -> (r: Self)
        ensures
            r == (BiTemporalQuery { protocol_filter: Some(protocol), ..self }),
    {
        let mut q = self;
        q.protocol_filter = Some(protocol);
        q
    }

    /// Only messages whose spread is at most this in either direction.
    pub fn with_max_spread(self, max_spread_ms: i64) -> (r: Self)
        ensures
            r == (BiTemporalQuery { max_spread_ms: Some(max_spread_ms), ..self }),
    {
        let mut q = self;
        q.max_spread_ms = Some(max_spread_ms);
        q
    }

    /// Whether this query selects a message.
    pub fn matches(&self, message: &Message) -> (r: bool)
        ensures
            r <==> self.selects(message@),
    {
        let timestamp: u64 = match self.query_time {
            QueryTime::ValidTime => message.t_event,
            QueryTime::TransactionTime => message.t_system,
        };
        if timestamp < self.start_ms || timestamp > self.end_ms {
            return false;
        }
        if let Some(protocol) = self.protocol_filter {
            if message.protocol != protocol {
                return false;
            }
        }
        if let Some(max_spread) = self.max_spread_ms {
            let spread: i128 = message.spread_ms() as i128;
            let size: i128 = if spread < 0 {
                -spread
            } else {
                spread
            };
            if size > max_spread as i128 {
                return false;
            }
        }
        true
    }
}

/// The newest messages, up to a number of them.
pub struct BiTemporalStore {
    messages: Vec<Message>,
    max_messages: usize,
}

impl View for BiTemporalStore {
    type V = Seq<MessageView>;

    closed spec fn view(&self) -> Seq<MessageView> {
        message_views(self.messages@)
    }
}

/// The store after one more message: the oldest leaves where it is full.
pub open spec fn stored(s: Seq<MessageView>, max: nat, m: MessageView) -> Seq<MessageView> {
    if s.len() >= max {
        s.skip(1).push(m)
    } else {
        s.push(m)
    }
}

/// Messages that the system took by a time.
pub open spec fn known_by(t: u64) -> spec_fn(MessageView) -> bool {
    |m: MessageView| m.t_system <= t
}

/// Messages whose event had happened by a time.
pub open spec fn happened_by(t: u64) -> spec_fn(MessageView) -> bool {
    |m: MessageView| m.t_event <= t
}

/// Messages that the system took within a range.
pub open spec fn known_within(start_ms: u64, end_ms: u64) -> spec_fn(MessageView) -> bool {
    |m: MessageView| start_ms <= m.t_system <= end_ms
}

/// The sum of the spreads of messages.
pub open spec fn spread_sum(s: Seq<MessageView>) -> int
    decreases s.len(),
{
    if s.len() == 0 {
        0
    } else {
        spread_sum(s.drop_last()) + s.last().spread()
    }
}

/// A quotient, rounded towards zero.
pub open spec fn quotient(a: int, b: int) -> int {
    if a >= 0 {
        a / b
    } else {
        -((-a) / b)
    }
}

/// The spreads of a set of messages; all zeros where there are none.
#[derive(Debug, Clone, Copy)]
pub struct SpreadStats {
    pub message_count: usize,
    pub avg_spread_ms: i64,
    pub min_spread_ms: i64,
    pub max_spread_ms: i64,
    pub total_spread_ms: i128,
}

/// Whether statistics are those of some messages.
pub open spec fn stats_of(st: SpreadStats, s: Seq<MessageView>) -> bool {
    &&& st.message_count == s.len()
    &&& st.total_spread_ms == spread_sum(s)
    &&& s.len() == 0 ==> st.avg_spread_ms == 0 && st.min_spread_ms == 0 && st.max_spread_ms == 0
    &&& s.len() > 0 ==> {
        &&& st.avg_spread_ms == quotient(spread_sum(s), s.len() as int)
        &&& exists|i: int| 0 <= i < s.len() && (#[trigger] s[i]).spread() == st.min_spread_ms
        &&& exists|i: int| 0 <= i < s.len() && (#[trigger] s[i]).spread() == st.max_spread_ms
        &&& forall|i: int|
            0 <= i < s.len() ==> st.min_spread_ms <= (#[trigger] s[i]).spread() <= st.max_spread_ms
    }
}

impl Default for SpreadStats {
    fn default() -> (r: Self)
        ensures
            stats_of(r, Seq::<MessageView>::empty()),
    {
        SpreadStats {
            message_count: 0,
            avg_spread_ms: 0,
            min_spread_ms: 0,
            max_spread_ms: 0,
            total_spread_ms: 0,
        }
    }
}

#[derive(Debug, Clone, Copy)]
pub struct BiTemporalStats {
    pub total_messages: usize,
    pub max_messages: usize,
}

pub(crate) fn rounded_quotient(a: i128, b: u64) -> (r: i128)
    requires
        b > 0,
        i128::MIN < a,
    ensures
        r == quotient(a as int, b as int),
{
    if a >= 0 {
        (a as u128 / b as u128) as i128
    } else {
        -(((-a) as u128 / b as u128) as i128)
    }
}

impl BiTemporalStore {
    /// The most messages that are kept.
    pub closed spec fn bound(&self) -> nat {
        self.max_messages as nat
    }

    /// No more messages are kept than the bound.
    pub open spec fn wf(&self) -> bool {
        self@.len() <= self.bound()
    }

    pub fn new(max_messages: usize) -> (r: Self)
        ensures
            r.wf(),
            r@ == Seq::<MessageView>::empty(),
            r.bound() == max_messages,
    {
        let r = BiTemporalStore { messages: Vec::new(), max_messages };
        assert(r@ =~= Seq::<MessageView>::empty());
        r
    }

    /// Keeps a message; the oldest one leaves where the store is full.
    pub fn store(&mut self, message: Message)
        requires
            old(self).wf(),
            old(self).bound() > 0,
        ensures
            final(self).wf(),
            final(self)@ == stored(old(self)@, old(self).bound(), message@),
            final(self).bound() == old(self).bound(),
    {
        if self.messages.len() >= self.max_messages {
            self.messages.remove(0);
            assert(self@ =~= old(self)@.skip(1));
        }
        let ghost before = self@;
        self.messages.push(message);
        assert(self@ =~= before.push(message@));
    }

    /// What happened within a range of valid time.
    pub fn query_valid_time(&self, start_ms: u64, end_ms: u64) -> (r: Vec<Message>)
        ensures
            message_views(r@) == self@.filter(
                (BiTemporalQuery {
                    query_time: QueryTime::ValidTime,
                    start_ms,
                    end_ms,
                    protocol_filter: None,
                    max_spread_ms: None,
                }).predicate(),
            ),
    {
        self.query(BiTemporalQuery::new(QueryTime::ValidTime, start_ms, end_ms))
    }

    /// What the system learned within a range of transaction time.
    pub fn query_transaction_time(&self, start_ms: u64, end_ms: u64) -> (r: Vec<Message>)
        ensures
            message_views(r@) == self@.filter(
                (BiTemporalQuery {
                    query_time: QueryTime::TransactionTime,
                    start_ms,
                    end_ms,
                    protocol_filter: None,
                    max_spread_ms: None,
                }).predicate(),
            ),
    {
        self.query(BiTemporalQuery::new(QueryTime::TransactionTime, start_ms, end_ms))
    }

    /// The messages that a query selects, oldest first.
    pub fn query(&self, query: BiTemporalQuery) -> (r: Vec<Message>)
        ensures
            message_views(r@) == self@.filter(query.predicate()),
    {
        let mut results: Vec<Message> = Vec::new();
        let ghost p = query.predicate();
        let ghost all = self@;
        let mut i: usize = 0;
        proof {
            lemma_filter_ends(all, p);
            assert(message_views(results@) =~= Seq::<MessageView>::empty());
        }
        while i < self.messages.len()
            invariant
                i <= self.messages@.len() == all.len(),
                all == self@,
                p == query.predicate(),
                message_views(results@) == all.subrange(0, i as int).filter(p),
            decreases self.messages@.len() - i,
        {
            let ghost before = results@;
            proof {
                lemma_filter_next(all, i as int, p);
                assert(all[i as int] == self.messages@[i as int]@);
            }
            if query.matches(&self.messages[i]) {
                results.push(self.messages[i].clone());
                assert(message_views(results@) =~= message_views(before).push(all[i as int]));
            }
            i = i + 1;
        }
        proof {
            lemma_filter_ends(all, p);
        }
        results
    }

    /// The spreads of what the system learned within a range.
    pub fn spread_stats(&self, start_ms: u64, end_ms: u64) -> (r: SpreadStats)
        ensures
            stats_of(r, self@.filter(known_within(start_ms, end_ms))),
    {
        let ghost p = known_within(start_ms, end_ms);
        let ghost all = self@;
        let mut count: usize = 0;
        let mut total: i128 = 0;
        let mut min: i64 = 0;
        let mut max: i64 = 0;
        let mut i: usize = 0;
        proof {
            lemma_filter_ends(all, p);
        }
        while i < self.messages.len()
            invariant
                i <= self.messages@.len() == all.len(),
                all == self@,
                p == known_within(start_ms, end_ms),
                count <= i,
                count == all.subrange(0, i as int).filter(p).len(),
                total == spread_sum(all.subrange(0, i as int).filter(p)),
                -0x8000_0000_0000_0000 * count <= total <= 0x7fff_ffff_ffff_ffff * count,
                count > 0 ==> bounds(all.subrange(0, i as int).filter(p), min, max),
                count == 0 ==> min == 0 && max == 0,
            decreases self.messages@.len() - i,
        {
            let ghost kept = all.subrange(0, i as int).filter(p);
            proof {
                lemma_filter_next(all, i as int, p);
                assert(all[i as int] == self.messages@[i as int]@);
            }
            let m = &self.messages[i];
            if m.t_system >= start_ms && m.t_system <= end_ms {
                let spread: i64 = m.spread_ms();
                let ghost old_min = min;
                let ghost old_max = max;
                if count == 0 || spread < min {
                    min = spread;
                }
                if count == 0 || spread > max {
                    max = spread;
                }
                count = count + 1;
                total = total + spread as i128;
                proof {
                    let now = kept.push(all[i as int]);
                    assert(now.drop_last() =~= kept);
                    assert(now.last() == all[i as int]);
                    lemma_bounds(kept, all[i as int], old_min, old_max, min, max);
                }
            }
            i = i + 1;
        }
        proof {
            lemma_filter_ends(all, p);
        }
        if count == 0 {
            return SpreadStats::default();
        }
        let avg: i128 = rounded_quotient(total, count as u64);
        proof {
            lemma_average(total as int, count as int);
        }
        SpreadStats {
            message_count: count,
            avg_spread_ms: avg as i64,
            min_spread_ms: min,
            max_spread_ms: max,
            total_spread_ms: total,
        }
    }

    fn select(&self, by_event: bool, t: u64) -> (r: Vec<Message>)
        ensures
            message_views(r@) == self@.filter(
                if by_event {
                    happened_by(t)
                } else {
                    known_by(t)
                },
            ),
    {
        let mut results: Vec<Message> = Vec::new();
        let ghost p = if by_event {
            happened_by(t)
        } else {
            known_by(t)
        };
        let ghost all = self@;
        let mut i: usize = 0;
        proof {
            lemma_filter_ends(all, p);
            assert(message_views(results@) =~= Seq::<MessageView>::empty());
        }
        while i < self.messages.len()
            invariant
                i <= self.messages@.len() == all.len(),
                all == self@,
                p == (if by_event {
                    happened_by(t)
                } else {
                    known_by(t)
                }),
                message_views(results@) == all.subrange(0, i as int).filter(p),
            decreases self.messages@.len() - i,
        {
            let ghost before = results@;
            proof {
                lemma_filter_next(all, i as int, p);
                assert(all[i as int] == self.messages@[i as int]@);
            }
            let time: u64 = if by_event {
                self.messages[i].t_event
            } else {
                self.messages[i].t_system
            };
            if time <= t {
                results.push(self.messages[i].clone());
                assert(message_views(results@) =~= message_views(before).push(all[i as int]));
            }
            i = i + 1;
        }
        proof {
            lemma_filter_ends(all, p);
        }
        results
    }

    /// What the system knew at a time.
    pub fn system_belief_at(&self, timestamp_ms: u64) -> (r: Vec<Message>)
        ensures
            message_views(r@) == self@.filter(known_by(timestamp_ms)),
    {
        self.select(false, timestamp_ms)
    }

    /// What had happened at a time.
    pub fn actual_state_at(&self, timestamp_ms: u64) -> (r: Vec<Message>)
        ensures
            message_views(r@) == self@.filter(happened_by(timestamp_ms)),
    {
        self.select(true, timestamp_ms)
    }

    pub fn stats(&self) -> (r: BiTemporalStats)
        ensures
            r.total_messages == self@.len(),
            r.max_messages == self.bound(),
    {
        BiTemporalStats { total_messages: self.messages.len(), max_messages: self.max_messages }
    }
}

/// Whether two numbers are the least and the greatest spread of messages.
spec fn bounds(s: Seq<MessageView>, min: i64, max: i64) -> bool {
    &&& exists|i: int| 0 <= i < s.len() && (#[trigger] s[i]).spread() == min
    &&& exists|i: int| 0 <= i < s.len() && (#[trigger] s[i]).spread() == max
    &&& forall|i: int| 0 <= i < s.len() ==> min <= (#[trigger] s[i]).spread() <= max
}

proof fn lemma_bounds(
    kept: Seq<MessageView>,
    x: MessageView,
    old_min: i64,
    old_max: i64,
    min: i64,
    max: i64,
)
    requires
        kept.len() > 0 ==> bounds(kept, old_min, old_max),
        min == (if kept.len() == 0 || x.spread() < old_min {
            x.spread()
        } else {
            old_min as int
        }),
        max == (if kept.len() == 0 || x.spread() > old_max {
            x.spread()
        } else {
            old_max as int
        }),
    ensures
        bounds(kept.push(x), min, max),
{
    let s = kept.push(x);
    assert(s[kept.len() as int] == x);
    if kept.len() > 0 {
        let a = choose|i: int| 0 <= i < kept.len() && (#[trigger] kept[i]).spread() == old_min;
        let b = choose|i: int| 0 <= i < kept.len() && (#[trigger] kept[i]).spread() == old_max;
        assert(s[a] == kept[a] && s[b] == kept[b]);
    }
    assert forall|i: int| 0 <= i < s.len() implies min <= (#[trigger] s[i]).spread() <= max by {
        if i < kept.len() {
            assert(s[i] == kept[i]);
        }
    }
}

/// The average of 64 bit numbers is one.
pub(crate) proof fn lemma_average(total: int, count: int)
    requires
        count > 0,
        -0x8000_0000_0000_0000 * count <= total <= 0x7fff_ffff_ffff_ffff * count,
    ensures
        i64::MIN <= quotient(total, count) <= i64::MAX,
{
    if total >= 0 {
        assert(0 <= total / count <= 0x7fff_ffff_ffff_ffff) by (nonlinear_arith)
            requires
                count > 0,
                0 <= total <= 0x7fff_ffff_ffff_ffff * count,
        ;
    } else {
        assert(0 <= (-total) / count <= 0x8000_0000_0000_0000) by (nonlinear_arith)
            requires
                count > 0,
                0 <= -total <= 0x8000_0000_0000_0000 * count,
        ;
    }
}

/// A message that was just stored is found by every query that selects it.
pub proof fn stored_is_found(s: Seq<MessageView>, max: nat, m: MessageView, q: BiTemporalQuery)
    requires
        q.selects(m),
    ensures
        stored(s, max, m).filter(q.predicate()).contains(m),
{
    reveal(Seq::filter);
    let t = stored(s, max, m);
    let f = t.filter(q.predicate());
    assert(t.last() == m);
    assert(f.last() == m);
    assert(f[f.len() - 1] == m);
}

/// Storing keeps every earlier message but the oldest, in their order.
pub proof fn storing_keeps_the_rest(s: Seq<MessageView>, max: nat, m: MessageView, i: int)
    requires
        0 < max,
        s.len() <= max,
        1 <= i < s.len(),
    ensures
        stored(s, max, m).contains(s[i]),
        s.len() < max ==> stored(s, max, m).contains(s[0]),
        stored(s, max, m).len() <= max,
{
    let t = stored(s, max, m);
    if s.len() >= max {
        assert(t[i - 1] == s[i]);
    } else {
        assert(t[i] == s[i]);
        assert(t[0] == s[0]);
    }
}

/// What a query by transaction time gives for a past range stays the same when
/// later messages come, as long as nothing has to leave.
pub proof fn past_beliefs_stay(s: Seq<MessageView>, max: nat, m: MessageView, t: u64)
    requires
        s.len() < max,
        m.t_system > t,
    ensures
        stored(s, max, m).filter(known_by(t)) == s.filter(known_by(t)),
{
    reveal(Seq::filter);
    assert(s.push(m).drop_last() =~= s);
}

/// A stored message is in the belief at a time exactly where the system took it by then,
/// however long before.
pub proof fn belief_is_what_was_known(s: Seq<MessageView>, m: MessageView, t: u64)
    ensures
        s.filter(known_by(t)).contains(m) <==> s.contains(m) && m.t_system <= t,
{
    lemma_filter_holds(s, known_by(t), m);
}

/// Beliefs only grow: what was believed at a time is what is believed at a later time of
/// what was known by the earlier one. At the end of time all is believed.
pub proof fn beliefs_grow(s: Seq<MessageView>, t: u64, u: u64)
    requires
        t <= u,
    ensures
        s.filter(known_by(u)).filter(known_by(t)) == s.filter(known_by(t)),
        s.filter(known_by(t)).len() <= s.filter(known_by(u)).len(),
        s.filter(known_by(u64::MAX)) == s,
{
    lemma_filter_within(s, known_by(u), known_by(t));
    lemma_filter_all(s, known_by(u64::MAX));
}

/// A stored message is in the state at a time exactly where its event had happened by
/// then, however long before and whenever the system learned of it.
pub proof fn state_is_what_had_happened(s: Seq<MessageView>, m: MessageView, t: u64)
    ensures
        s.filter(happened_by(t)).contains(m) <==> s.contains(m) && m.t_event <= t,
{
    lemma_filter_holds(s, happened_by(t), m);
}

/// The state only grows, too.
pub proof fn states_grow(s: Seq<MessageView>, t: u64, u: u64)
    requires
        t <= u,
    ensures
        s.filter(happened_by(u)).filter(happened_by(t)) == s.filter(happened_by(t)),
        s.filter(happened_by(t)).len() <= s.filter(happened_by(u)).len(),
        s.filter(happened_by(u64::MAX)) == s,
{
    lemma_filter_within(s, happened_by(u), happened_by(t));
    lemma_filter_all(s, happened_by(u64::MAX));
}

/// A query gives a stored message exactly where its time of the kind that is asked for
/// lies in the range, both ends included, its protocol is the one asked for, and its
/// spread in either direction is no larger than asked for.
pub proof fn query_gives_what_it_asks_for(
    s: Seq<MessageView>,
    m: MessageView,
    start_ms: u64,
    end_ms: u64,
    p: Option<Protocol>,
    spread: Option<i64>,
    by_event: bool,
)
    ensures
        s.filter(
            (BiTemporalQuery {
                query_time: if by_event {
                    QueryTime::ValidTime
                } else {
                    QueryTime::TransactionTime
                },
                start_ms,
                end_ms,
                protocol_filter: p,
                max_spread_ms: spread,
            }).predicate(),
        ).contains(m) <==> {
            &&& s.contains(m)
            &&& by_event ==> start_ms <= m.t_event && m.t_event <= end_ms
            &&& !by_event ==> start_ms <= m.t_system && m.t_system <= end_ms
            &&& p is None || p == Some(m.protocol)
            &&& spread is None || (-(spread->0) <= m.spread() && m.spread() <= spread->0)
        },
{
    let q = BiTemporalQuery {
        query_time: if by_event {
            QueryTime::ValidTime
        } else {
            QueryTime::TransactionTime
        },
        start_ms,
        end_ms,
        protocol_filter: p,
        max_spread_ms: spread,
    };
    lemma_filter_holds(s, q.predicate(), m);
}

/// A query over all of time, with no further wish, gives everything; over two ranges that
/// meet it gives as many messages as over both together.
pub proof fn ranges_add_up(s: Seq<MessageView>, t: QueryTime, from: u64, between: u64, to: u64)
    requires
        from <= between < to,
    ensures
        ({
            let q = |a: u64, b: u64|
                s.filter(
                    (BiTemporalQuery {
                        query_time: t,
                        start_ms: a,
                        end_ms: b,
                        protocol_filter: None,
                        max_spread_ms: None,
                    }).predicate(),
                );
            &&& q(0, u64::MAX) == s
            &&& q(from, between).len() + q((between + 1) as u64, to).len() == q(from, to).len()
        }),
    decreases s.len(),
{
    let all = BiTemporalQuery {
        query_time: t,
        start_ms: 0,
        end_ms: u64::MAX,
        protocol_filter: None,
        max_spread_ms: None,
    };
    lemma_filter_all(s, all.predicate());
    reveal(Seq::filter);
    if s.len() > 0 {
        ranges_add_up(s.drop_last(), t, from, between, to);
    }
}

/// The messages whose spreads are summed up for a range are those that the system took
/// within it, both ends included.
pub proof fn spreads_are_of_the_range(s: Seq<MessageView>, m: MessageView, start_ms: u64, end_ms: u64)
    ensures
        s.filter(known_within(start_ms, end_ms)).contains(m) <==> {
            &&& s.contains(m)
            &&& start_ms <= m.t_system
            &&& m.t_system <= end_ms
        },
{
    lemma_filter_holds(s, known_within(start_ms, end_ms), m);
}

/// Spreads are summed up one by one, and the average is the sum divided by the number,
/// rounded towards zero: it is between the least and the greatest spread and off by less
/// than one.
pub proof fn average_is_of_the_sum(st: SpreadStats, s: Seq<MessageView>, m: MessageView)
    requires
        s.len() > 0,
        stats_of(st, s),
    ensures
        spread_sum(s.push(m)) == spread_sum(s) + m.spread(),
        spread_sum(Seq::empty()) == 0,
        -(s.len() as int) < st.avg_spread_ms * s.len() - spread_sum(s) < s.len(),
        st.avg_spread_ms > 0 ==> spread_sum(s) > 0,
        st.avg_spread_ms < 0 ==> spread_sum(s) < 0,
        spread_sum(s) >= 0 ==> 0 <= st.avg_spread_ms && st.avg_spread_ms * s.len() <= spread_sum(s),
        spread_sum(s) <= 0 ==> st.avg_spread_ms <= 0 && st.avg_spread_ms * s.len() >= spread_sum(s),
{
    assert(s.push(m).drop_last() =~= s);
    let a = spread_sum(s);
    let n = s.len() as int;
    let q = st.avg_spread_ms as int;
    if a >= 0 {
        assert(q == a / n);
        assert(q >= 0 && q * n <= a && a < q * n + n) by (nonlinear_arith)
            requires
                q == a / n,
                a >= 0,
                n > 0,
        ;
        if q > 0 {
            assert(q * n > 0) by (nonlinear_arith)
                requires
                    q > 0,
                    n > 0,
            ;
        }
    } else {
        let r = (-a) / n;
        assert(q == -r);
        assert(r >= 0 && r * n <= -a && -a < r * n + n) by (nonlinear_arith)
            requires
                r == (-a) / n,
                a < 0,
                n > 0,
        ;
        assert(q * n == -(r * n)) by (nonlinear_arith)
            requires
                q == -r,
        ;
    }
}

/// The store holds the newest messages in the order in which they came: a new one is the
/// last, and only where the store is full the first one leaves.
pub proof fn newest_are_kept(s: Seq<MessageView>, max: nat, m: MessageView)
    requires
        max > 0,
    ensures
        stored(s, max, m).last() == m,
        s.len() < max ==> stored(s, max, m).drop_last() == s,
        s.len() >= max ==> stored(s, max, m).drop_last() == s.skip(1) && stored(s, max, m).len()
            == s.len(),
{
    if s.len() >= max {
        assert(stored(s, max, m).drop_last() =~= s.skip(1));
    } else {
        assert(stored(s, max, m).drop_last() =~= s);
    }
}

} // verus!
