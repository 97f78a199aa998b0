//! The gateway: every message is corrected, stored, routed, translated and
//! handed on to AST SpaceMobile.
//!
//! The spread between event time and system time steers the routing. A message
//! whose spread is above the threshold comes from a reconnect burst: it passes
//! neither cadence limits nor backpressure, but goes to a shard of its own.

use crate::batcher::{elapsed, AsyncBatcher, DEFAULT_SPREAD_FLUSH_THRESHOLD_MS};
use crate::bitemporal::{
    happened_by,
    known_by,
    known_within,
    stats_of,
    stored,
    BiTemporalQuery,
    BiTemporalStore,
    QueryTime,
    SpreadStats,
};
use crate::cache::{
    cache_key,
    djb2,
    entry_of,
    found,
    hash_data,
    kept_is_found,
    with_entry,
    AsyncCache,
    CacheView,
    EntryView,
};
use crate::cadence_translation::{
    action_for,
    cadence_after,
    default_rules,
    rule_views,
    CadenceRule,
    CadenceTranslator,
    CadenceView,
    RateLimiter,
    RuleView,
    TranslationAction,
};
use crate::clock_reconciliation::{
    reconciled,
    with_offset,
    ClockOffset,
    ClockReconciler,
    NetworkTimeSource,
};
use crate::metrics::{
    with_error,
    with_hit,
    with_miss,
    with_protocol,
    with_spread,
    with_translated,
    zero_counts,
    Metrics,
    MetricsView,
};
use crate::payload::bytes_as_slice;
use crate::protocol::{burst_threshold_of, message_views, Message, MessageView, Priority, Protocol};
use crate::reliability::{BreakerView, CircuitBreaker, CircuitState, RetryPolicy};
use crate::sharding::{
    consistent,
    delivered,
    pushed,
    spread_position,
    taken,
    ShardError,
    ShardManager,
    ShardsView,
};
use crate::snapshot::{
    batch_id,
    batch_size,
    retrieved,
    snapshot_of,
    taken_is_retrieved,
    with_snapshot,
    SnapshotManager,
    SnapshotView,
};
use crate::translator::{translation_of, TranslateError, Translator};
use vstd::prelude::*;

verus! {

/// The user's own account with AST SpaceMobile.
#[derive(Debug)]
pub struct ASTSCredentials {
    pub account_id: String,
    pub api_key: String,
    pub mno_partner_id: Option<String>,
}

#[derive(Debug)]
pub struct TelemetryConfig {
    pub enabled: bool,
    pub endpoint: Option<String>,
    pub ping_interval_ms: u64,
}

/// What became of a message.
#[derive(Debug)]
pub enum Outcome {
    /// It came too soon after another one.
    Dropped,
    /// No shard took it.
    Refused(ShardError),
    /// It was translated before; this translation goes out.
    Cached(Message),
    /// It cannot be translated.
    Failed(TranslateError),
    /// This translation goes out.
    Translated(Message),
}

/// What became of a message, apart from how bytes are held.
#[verifier::ext_equal]
pub enum OutcomeView {
    Dropped,
    Refused(ShardError),
    Cached(MessageView),
    Failed(TranslateError),
    Translated(MessageView),
}

impl View for Outcome {
    type V = OutcomeView;

    open spec fn view(&self) -> OutcomeView {
        match self {
            Outcome::Dropped => OutcomeView::Dropped,
            Outcome::Refused(e) => OutcomeView::Refused(*e),
            Outcome::Cached(m) => OutcomeView::Cached(m@),
            Outcome::Failed(e) => OutcomeView::Failed(*e),
            Outcome::Translated(m) => OutcomeView::Translated(m@),
        }
    }
}

/// The limits of a gateway's stores, and how its parts are set up.
#[verifier::ext_equal]
pub struct LimitsView {
    pub stored_messages: nat,
    pub cached: nat,
    pub cache_ttl: u64,
    pub snapshots: nat,
    pub snapshot_ttl: u64,
    pub clock_offsets: nat,
    pub clock_age: u64,
    pub clock_source: NetworkTimeSource,
    /// How many failures in a row open the circuit.
    pub breaker_threshold: u32,
    /// How long the circuit stays open, in milliseconds.
    pub breaker_recovery: u64,
}

/// The state of a gateway.
#[verifier::ext_equal]
pub struct GatewayView {
    pub store: Seq<MessageView>,
    pub shards: ShardsView,
    pub cache: CacheView,
    pub snapshots: Seq<SnapshotView>,
    pub cadence: CadenceView,
    pub offsets: Seq<ClockOffset>,
    pub metrics: MetricsView,
    pub breaker: BreakerView,
    pub credentials: Option<ASTSCredentials>,
    pub telemetry: TelemetryConfig,
    pub limits: LimitsView,
}

pub struct Gateway {
    cache: AsyncCache,
    circuit_breaker: CircuitBreaker,
    metrics: Metrics,
    shard_manager: ShardManager,
    snapshot_manager: SnapshotManager,
    bitemporal_store: BiTemporalStore,
    cadence_translator: CadenceTranslator,
    clock_reconciler: ClockReconciler,
    asts_credentials: Option<ASTSCredentials>,
    telemetry_config: TelemetryConfig,
    batcher: AsyncBatcher,
    retry_policy: RetryPolicy,
}

impl View for Gateway {
    type V = GatewayView;

    closed spec fn view(&self) -> GatewayView {
        GatewayView {
            store: self.bitemporal_store@,
            shards: self.shard_manager@,
            cache: self.cache@,
            snapshots: self.snapshot_manager@,
            cadence: self.cadence_translator@,
            offsets: self.clock_reconciler@,
            metrics: self.metrics@,
            breaker: self.circuit_breaker@,
            credentials: self.asts_credentials,
            telemetry: self.telemetry_config,
            limits: LimitsView {
                stored_messages: self.bitemporal_store.bound(),
                cached: self.cache.bound(),
                cache_ttl: self.cache.lifetime(),
                snapshots: self.snapshot_manager.bound(),
                snapshot_ttl: self.snapshot_manager.lifetime(),
                clock_offsets: self.clock_reconciler.bound(),
                clock_age: self.clock_reconciler.age_limit(),
                clock_source: self.clock_reconciler.source(),
                breaker_threshold: self.circuit_breaker.threshold(),
                breaker_recovery: self.circuit_breaker.recovery(),
            },
        }
    }
}

/// A message with its event time in network time, where the offset of its device
/// is known. The hash of the payload stands for the device.
pub open spec fn corrected(g: GatewayView, m: MessageView, now: u64) -> MessageView {
    match reconciled(g.offsets, djb2(m.data), m.t_event, g.limits.clock_age, now) {
        Some(t) => MessageView { t_event: t, ..m },
        None => m,
    }
}

/// The state after a message was stored and counted.
pub open spec fn recorded(g: GatewayView, m: MessageView) -> GatewayView {
    GatewayView {
        store: stored(g.store, g.limits.stored_messages, m),
        metrics: with_protocol(g.metrics, m.protocol),
        ..g
    }
}

/// Whether a message comes from a reconnect burst: its spread is above the
/// threshold of its protocol and above the adaptive one.
pub open spec fn is_burst(m: MessageView, adaptive_ms: i64) -> bool {
    m.spread() > burst_threshold_of(m.protocol) && m.spread() > adaptive_ms
}

/// The state after a message was routed, and what became of it if it goes no
/// further.
pub open spec fn routed(g: GatewayView, m: MessageView, adaptive_ms: i64, now: u64) -> (
    GatewayView,
    Option<OutcomeView>,
) {
    if m.priority == Priority::Emergency {
        (
            GatewayView {
                shards: delivered(g.shards, 0, m).0,
                snapshots: with_snapshot(
                    g.snapshots,
                    g.limits.snapshots,
                    snapshot_of(seq![m], m.protocol, now),
                ),
                ..g
            },
            None,
        )
    } else if is_burst(m, adaptive_ms) {
        (
            GatewayView {
                shards: delivered(g.shards, spread_position(g.shards), m).0,
                metrics: with_spread(g.metrics),
                ..g
            },
            None,
        )
    } else {
        let p = Protocol::IridiumSBD;
        let limited = m.protocol == p;
        let h = if limited {
            GatewayView {
                cadence: cadence_after(g.cadence, "telemetry"@, p, m.priority, now),
                ..g
            }
        } else {
            g
        };
        if limited && action_for(g.cadence, "telemetry"@, p, m.priority, now)
            == TranslationAction::Drop {
            (h, Some(OutcomeView::Dropped))
        } else {
            let s = GatewayView { shards: pushed(g.shards, m).0, ..h };
            match pushed(g.shards, m).1 {
                Ok(_) => (s, None),
                Err(e) => (
                    GatewayView { metrics: with_error(g.metrics), ..s },
                    Some(OutcomeView::Refused(e)),
                ),
            }
        }
    }
}

/// The state after a translation was kept for later.
pub open spec fn published(g: GatewayView, m: MessageView, t: MessageView, now: u64) -> GatewayView {
    GatewayView {
        cache: with_entry(
            g.cache,
            g.limits.cached,
            cache_key(m.protocol, m.data),
            entry_of(t, now, g.limits.cache_ttl),
        ),
        snapshots: with_snapshot(
            g.snapshots,
            g.limits.snapshots,
            snapshot_of(seq![t], m.protocol, now),
        ),
        ..g
    }
}

/// The state after a translation was sent: it is counted where there is an
/// account.
pub open spec fn emitted(g: GatewayView) -> GatewayView {
    if g.credentials is Some {
        GatewayView { metrics: with_protocol(g.metrics, Protocol::ASTSpaceMobile), ..g }
    } else {
        g
    }
}

/// The state after a message was translated or its translation found.
pub open spec fn finished(g: GatewayView, m: MessageView, now: u64) -> (GatewayView, OutcomeView) {
    match found(g.cache, cache_key(m.protocol, m.data), now) {
        Some(c) => (
            emitted(GatewayView { metrics: with_translated(with_hit(g.metrics)), ..g }),
            OutcomeView::Cached(c),
        ),
        None => {
            let h = GatewayView { metrics: with_miss(g.metrics), ..g };
            match translation_of(m, now) {
                Some(t) => (emitted(published(h, m, t, now)), OutcomeView::Translated(t)),
                None => (
                    GatewayView { metrics: with_error(h.metrics), ..h },
                    OutcomeView::Failed(TranslateError::InvalidProtocol),
                ),
            }
        },
    }
}

/// The state after a message was processed, and what became of it.
pub open spec fn processed(g: GatewayView, message: MessageView, adaptive_ms: i64, now: u64) -> (
    GatewayView,
    OutcomeView,
) {
    let m = corrected(g, message, now);
    let (h, stop) = routed(recorded(g, m), m, adaptive_ms, now);
    match stop {
        Some(o) => (h, o),
        None => finished(h, m, now),
    }
}

/// The state after a message that was routed before is translated and sent.
pub open spec fn sent_on(g: GatewayView, m: MessageView, now: u64) -> GatewayView {
    match translation_of(m, now) {
        Some(t) => {
            let h = emitted(published(g, m, t, now));
            GatewayView { metrics: with_translated(h.metrics), ..h }
        },
        None => GatewayView { metrics: with_error(g.metrics), ..g },
    }
}

/// The state after several such messages, one after the other.
pub open spec fn all_sent_on(g: GatewayView, messages: Seq<MessageView>, now: u64) -> GatewayView
    decreases messages.len(),
{
    if messages.len() == 0 {
        g
    } else {
        sent_on(all_sent_on(g, messages.drop_last(), now), messages.last(), now)
    }
}

/// The translations of those messages that have one.
pub open spec fn translations(messages: Seq<MessageView>, now: u64) -> Seq<MessageView>
    decreases messages.len(),
{
    if messages.len() == 0 {
        Seq::empty()
    } else {
        match translation_of(messages.last(), now) {
            Some(t) => translations(messages.drop_last(), now).push(t),
            None => translations(messages.drop_last(), now),
        }
    }
}

/// The state after the shard for reconnect bursts was drained.
pub open spec fn burst_drained(g: GatewayView, now: u64) -> GatewayView {
    let p = spread_position(g.shards);
    all_sent_on(
        GatewayView {
            shards: taken(g.shards, crate::sharding::ShardId(p as u64), usize::MAX as nat),
            ..g
        },
        g.shards.queues[p],
        now,
    )
}

impl Gateway {
    /// What is not seen in the view keeps its invariant.
    pub closed spec fn sound(&self) -> bool {
        self.shard_manager.wf() && self.circuit_breaker.wf()
    }

    /// Every store keeps its invariant and its limit.
    pub open spec fn wf(&self) -> bool {
        &&& self.sound()
        &&& consistent(self@.shards)
        &&& 0 < self@.limits.stored_messages
        &&& self@.store.len() <= self@.limits.stored_messages
        &&& self@.offsets.len() <= self@.limits.clock_offsets
        &&& forall|i: int, j: int|
            0 <= i < j < self@.offsets.len() ==> (#[trigger] self@.offsets[i]).device_id != (
            #[trigger] self@.offsets[j]).device_id
    }

    /// The batch for callers that send in batches.
    pub closed spec fn batching(&self) -> AsyncBatcher {
        self.batcher
    }

    /// The policy for callers that send over an unreliable link.
    pub closed spec fn retrying(&self) -> RetryPolicy {
        self.retry_policy
    }

    /// Batch and policy are as in another gateway.
    pub open spec fn same_helpers(&self, other: &Self) -> bool {
        self.batching() == other.batching() && self.retrying() == other.retrying()
    }

    /// A gateway with empty stores and the default cadence rules.
    pub fn new(
        buffer_size: usize,
        batch_timeout: u64,
        cache_ttl: u64,
        asts_credentials: Option<ASTSCredentials>,
        telemetry_config: TelemetryConfig,
        now: u64,
    ) -> (r: Self)
        ensures
            r.wf(),
            r@.store == Seq::<MessageView>::empty(),
            r@.shards == (ShardsView {
                queues: Seq::new(9, |i: int| Seq::<MessageView>::empty()),
                live: Seq::new(9, |i: int| true),
                made_at: Seq::new(9, |i: int| now),
                size: 1000,
                limit: 5600,
                regular: 0,
                turn: 0,
                allocated: 0,
                dropped: 0,
                leaked: 0,
            }),
            r@.cache.entries == Map::<u128, EntryView>::empty(),
            r@.cache.order == Seq::<u128>::empty(),
            r@.snapshots == Seq::<SnapshotView>::empty(),
            r@.cadence.rules == default_rules(),
            r@.cadence.limiters == Map::<Seq<char>, RateLimiter>::empty(),
            r@.offsets == Seq::<ClockOffset>::empty(),
            r@.metrics == zero_counts(),
            r@.breaker == (BreakerView {
                state: CircuitState::Closed,
                failures: 0,
                last_failure: 0,
            }),
            r@.credentials == asts_credentials,
            r@.telemetry == telemetry_config,
            r@.limits == (LimitsView {
                stored_messages: 10000,
                cached: 1000,
                cache_ttl,
                snapshots: 100,
                snapshot_ttl: 300000,
                clock_offsets: 1000,
                clock_age: 300000,
                clock_source: NetworkTimeSource::LocalClock,
                breaker_threshold: 5,
                breaker_recovery: 30000,
            }),
            r.batching().wf(),
            r.batching().pending() == Seq::<MessageView>::empty(),
            r.batching().limit() == 10,
            r.batching().window() == batch_timeout,
            r.batching().queue_size() == buffer_size,
            r.batching().threshold() == DEFAULT_SPREAD_FLUSH_THRESHOLD_MS,
            r.batching().flushed_at() == now,
            r.retrying().max_attempts == 3,
            r.retrying().base_delay == 100,
    {
        let mut cadence_translator = CadenceTranslator::new();
        let mut rules = CadenceTranslator::default_iridium_to_asts_rules();
        let ghost all = rules@;
        let n: usize = rules.len();
        let mut i: usize = 0;
        assert(rule_views(all.subrange(0, 0)) =~= Seq::<RuleView>::empty());
        while i < n
            invariant
                i <= n == all.len(),
                rules@ == all.subrange(i as int, n as int),
                cadence_translator@.rules == rule_views(all.subrange(0, i as int)),
                cadence_translator@.limiters == Map::<Seq<char>, RateLimiter>::empty(),
            decreases n - i,
        {
            let rule: CadenceRule = rules.remove(0);
            cadence_translator.add_rule(rule);
            proof {
                assert(rules@ =~= all.subrange(i + 1, n as int));
                assert(rule_views(all.subrange(0, i + 1)) =~= rule_views(
                    all.subrange(0, i as int),
                ).push(all[i as int]@));
            }
            i = i + 1;
        }
        assert(all.subrange(0, n as int) =~= all);
        Gateway {
            cache: AsyncCache::new(1000, cache_ttl),
            circuit_breaker: CircuitBreaker::new(5, 30000),
            metrics: Metrics::new(),
            shard_manager: ShardManager::new(8, 1000, now),
            snapshot_manager: SnapshotManager::new(100, 300000),
            bitemporal_store: BiTemporalStore::new(10000),
            cadence_translator,
            clock_reconciler: ClockReconciler::new(1000, 300000, NetworkTimeSource::LocalClock),
            asts_credentials,
            telemetry_config,
            batcher: AsyncBatcher::new(10, batch_timeout, buffer_size, now),
            retry_policy: RetryPolicy::new(3, 100),
        }
    }

    /// A message with its event time in network time.
    fn correct(&self, message: Message, now: u64) -> (r: Message)
        requires
            self.wf(),
        ensures
            r@ == corrected(self@, message@, now),
    {
        let device_id: u64 = hash_data(bytes_as_slice(&message.data));
        let mut message = message;
        if let Some(t) = self.clock_reconciler.reconcile_at(device_id, message.t_event, now) {
            message.t_event = t;
        }
        message
    }

    /// The spread of a message after the correction of its event time: what an
    /// adaptive threshold is to be fed with before the message is processed.
    pub fn spread_of(&self, message: &Message, now: u64) -> (r: i64)
        requires
            self.wf(),
        ensures
            r == corrected(self@, message@, now).spread(),
    {
        self.correct(message.clone(), now).spread_ms()
    }

    /// Keeps a snapshot of one message.
    fn snapshot(&mut self, message: &Message, protocol: Protocol, now: u64)
        requires
            old(self).wf(),
        ensures
            final(self).wf(),
            final(self)@ == (GatewayView {
                snapshots: with_snapshot(
                    old(self)@.snapshots,
                    old(self)@.limits.snapshots,
                    snapshot_of(seq![message@], protocol, now),
                ),
                ..old(self)@
            }),
            final(self).same_helpers(old(self)),
    {
        let n: usize = message.size();
        let mut messages: Vec<Message> = Vec::new();
        messages.push(message.clone());
        proof {
            let s = message_views(messages@);
            assert(s =~= seq![message@]);
            assert(s.drop_last() =~= Seq::<MessageView>::empty());
            assert(batch_size(s.drop_last()) == 0);
            assert(batch_size(s) == n);
        }
        let _ = self.snapshot_manager.create_snapshot_at(messages, protocol, now);
    }

    /// Sends a message on its way. `Some` where it goes no further.
    fn route(&mut self, message: &Message, adaptive_ms: i64, now: u64) -> (r: Option<Outcome>)
        requires
            old(self).wf(),
        ensures
            final(self).wf(),
            final(self)@ == routed(old(self)@, message@, adaptive_ms, now).0,
            match r {
                Some(o) => routed(old(self)@, message@, adaptive_ms, now).1 == Some(o@),
                None => routed(old(self)@, message@, adaptive_ms, now).1 is None,
            },
            final(self).same_helpers(old(self)),
    {
        let spread_ms: i64 = message.spread_ms();
        if message.is_emergency() {
            let _ = self.shard_manager.push_deadzone(message.clone());
            self.snapshot(message, message.protocol, now);
            return None;
        }
        if spread_ms > message.protocol.spread_burst_threshold_ms() && spread_ms > adaptive_ms {
            self.metrics.record_spread_shard();
            let _ = self.shard_manager.push_spread(message.clone());
            return None;
        }
        if message.protocol == Protocol::IridiumSBD {
            let action = self.cadence_translator.translate_message_at(
                "telemetry",
                Protocol::IridiumSBD,
                message.priority,
                now,
            );
            if action == TranslationAction::Drop {
                return Some(Outcome::Dropped);
            }
        }
        match self.shard_manager.push(message.clone()) {
            Ok(_) => None,
            Err(e) => {
                self.metrics.record_error();
                Some(Outcome::Refused(e))
            },
        }
    }

    /// Keeps a translation for later.
    fn publish(&mut self, message: &Message, translated: &Message, now: u64)
        requires
            old(self).wf(),
        ensures
            final(self).wf(),
            final(self)@ == published(old(self)@, message@, translated@, now),
            final(self).same_helpers(old(self)),
    {
        self.cache.set_at(message.protocol, &message.data, translated.clone(), now);
        self.snapshot(translated, message.protocol, now);
    }

    /// Counts a translation that goes out.
    fn emit(&mut self)
        requires
            old(self).wf(),
        ensures
            final(self).wf(),
            final(self)@ == emitted(old(self)@),
            final(self).same_helpers(old(self)),
    {
        if self.asts_credentials.is_some() {
            self.metrics.record_protocol(Protocol::ASTSpaceMobile);
        }
    }

    /// Finds a translation or makes one.
    fn finish(&mut self, message: Message, now: u64) -> (r: Outcome)
        requires
            old(self).wf(),
        ensures
            final(self).wf(),
            final(self)@ == finished(old(self)@, message@, now).0,
            r@ == finished(old(self)@, message@, now).1,
            final(self).same_helpers(old(self)),
    {
        if let Some(cached) = self.cache.get_at(message.protocol, &message.data, now) {
            self.metrics.record_cache_hit();
            self.metrics.increment_translated();
            self.emit();
            return Outcome::Cached(cached);
        }
        self.metrics.record_cache_miss();
        match Translator::translate_at(message.clone(), now) {
            Ok(translated) => {
                self.publish(&message, &translated, now);
                self.emit();
                Outcome::Translated(translated)
            },
            Err(e) => {
                self.metrics.record_error();
                Outcome::Failed(e)
            },
        }
    }

    /// Processes a message: corrects its event time, stores it, routes it, and
    /// translates it or finds its translation. The adaptive threshold is computed
    /// by the caller from the spreads so far.
    pub fn process_message(&mut self, message: Message, adaptive_ms: i64, now: u64) -> (r: Outcome)
        requires
            old(self).wf(),
        ensures
            final(self).wf(),
            final(self)@ == processed(old(self)@, message@, adaptive_ms, now).0,
            r@ == processed(old(self)@, message@, adaptive_ms, now).1,
            final(self).same_helpers(old(self)),
    {
        let message = self.correct(message, now);
        self.bitemporal_store.store(message.clone());
        self.metrics.record_protocol(message.protocol);
        match self.route(&message, adaptive_ms, now) {
            Some(outcome) => outcome,
            None => self.finish(message, now),
        }
    }

    /// Counts a message and processes it.
    pub fn send(&mut self, message: Message, adaptive_ms: i64, now: u64) -> (r: Outcome)
        requires
            old(self).wf(),
        ensures
            final(self).wf(),
            ({
                let g = GatewayView {
                    metrics: with_translated(old(self)@.metrics),
                    ..old(self)@
                };
                &&& final(self)@ == processed(g, message@, adaptive_ms, now).0
                &&& r@ == processed(g, message@, adaptive_ms, now).1
            }),
            final(self).same_helpers(old(self)),
    {
        self.metrics.increment_translated();
        self.process_message(message, adaptive_ms, now)
    }

    /// Translates and sends a message that was routed before. `None` where it has
    /// no translation.
    pub fn process_shard_message(&mut self, message: Message, now: u64) -> (r: Option<Message>)
        requires
            old(self).wf(),
        ensures
            final(self).wf(),
            final(self)@ == sent_on(old(self)@, message@, now),
            match r {
                Some(t) => translation_of(message@, now) == Some(t@),
                None => translation_of(message@, now) is None,
            },
            final(self).same_helpers(old(self)),
    {
        match Translator::translate_at(message.clone(), now) {
            Ok(translated) => {
                self.publish(&message, &translated, now);
                self.emit();
                self.metrics.increment_translated();
                Some(translated)
            },
            Err(_) => {
                self.metrics.record_error();
                None
            },
        }
    }

    /// Drains the shard for reconnect bursts and translates what was there. The
    /// result goes out.
    pub fn drain_spread_shard_once(&mut self, now: u64) -> (r: Vec<Message>)
        requires
            old(self).wf(),
        ensures
            final(self).wf(),
            final(self)@ == burst_drained(old(self)@, now),
            message_views(r@) == translations(
                old(self)@.shards.queues[spread_position(old(self)@.shards)],
                now,
            ),
            final(self).same_helpers(old(self)),
    {
        let shard_id = self.shard_manager.get_spread_shard();
        let messages = self.shard_manager.drain_shard(shard_id);
        let ghost start = self@;
        let ghost all = message_views(messages@);
        let mut out: Vec<Message> = Vec::new();
        let mut i: usize = 0;
        proof {
            assert(all == old(self)@.shards.queues[spread_position(old(self)@.shards)]);
            assert(all.subrange(0, 0) =~= Seq::<MessageView>::empty());
            assert(message_views(out@) =~= Seq::<MessageView>::empty());
        }
        while i < messages.len()
            invariant
                self.wf(),
                i <= messages@.len() == all.len(),
                all == message_views(messages@),
                self@ == all_sent_on(start, all.subrange(0, i as int), now),
                message_views(out@) == translations(all.subrange(0, i as int), now),
                self.same_helpers(old(self)),
            decreases messages@.len() - i,
        {
            let ghost before = out@;
            proof {
                assert(all.subrange(0, i + 1).drop_last() =~= all.subrange(0, i as int));
                assert(all[i as int] == messages@[i as int]@);
            }
            if let Some(t) = self.process_shard_message(messages[i].clone(), now) {
                out.push(t);
                assert(message_views(out@) =~= message_views(before).push(t@));
            }
            i = i + 1;
        }
        assert(all.subrange(0, i as int) =~= all);
        out
    }

    /// Takes a measurement of a device's clock.
    pub fn register_offset(&mut self, offset: ClockOffset)
        requires
            old(self).wf(),
        ensures
            final(self).wf(),
            final(self)@ == (GatewayView {
                offsets: with_offset(old(self)@.offsets, old(self)@.limits.clock_offsets, offset),
                ..old(self)@
            }),
            final(self).same_helpers(old(self)),
    {
        self.clock_reconciler.register_offset(offset);
    }

    /// Where a telemetry ping is to go after each translation, if anywhere.
    pub fn telemetry_target(&self) -> (r: Option<&String>)
        ensures
            match r {
                Some(e) => self@.telemetry.enabled && self@.telemetry.endpoint == Some(*e),
                None => !self@.telemetry.enabled || self@.telemetry.endpoint is None,
            },
    {
        if self.telemetry_config.enabled {
            self.telemetry_config.endpoint.as_ref()
        } else {
            None
        }
    }

    /// The user's account, if any.
    pub fn credentials(&self) -> (r: Option<&ASTSCredentials>)
        ensures
            match r {
                Some(c) => self@.credentials == Some(*c),
                None => self@.credentials is None,
            },
    {
        self.asts_credentials.as_ref()
    }

    /// The batch for callers that send in batches.
    pub fn batcher(&mut self) -> (r: &mut AsyncBatcher)
        requires
            old(self).wf(),
        ensures
            *r == old(self).batching(),
            final(self).wf(),
            final(self)@ == old(self)@,
            final(self).batching() == *final(r),
            final(self).retrying() == old(self).retrying(),
    {
        &mut self.batcher
    }

    /// The policy for callers that send over an unreliable link.
    pub fn retry_policy(&self) -> (r: RetryPolicy)
        ensures
            r == self.retrying(),
    {
        self.retry_policy
    }

    /// The counters.
    pub fn metrics(&mut self) -> (r: &mut Metrics)
        requires
            old(self).wf(),
        ensures
            r@ == old(self)@.metrics,
            final(self).wf(),
            final(self)@ == (GatewayView { metrics: final(r)@, ..old(self)@ }),
            final(self).same_helpers(old(self)),
    {
        &mut self.metrics
    }

    /// The shards.
    pub fn shard_manager(&mut self) -> (r: &mut ShardManager)
        requires
            old(self).wf(),
        ensures
            r.wf(),
            r@ == old(self)@.shards,
            final(r).wf() ==> final(self).wf(),
            final(self)@ == (GatewayView { shards: final(r)@, ..old(self)@ }),
            final(self).same_helpers(old(self)),
    {
        &mut self.shard_manager
    }

    /// The snapshots.
    pub fn snapshot_manager(&self) -> (r: &SnapshotManager)
        ensures
            r@ == self@.snapshots,
            r.bound() == self@.limits.snapshots,
            r.lifetime() == self@.limits.snapshot_ttl,
    {
        &self.snapshot_manager
    }

    /// The stored messages.
    pub fn bitemporal_store(&self) -> (r: &BiTemporalStore)
        ensures
            r@ == self@.store,
            r.bound() == self@.limits.stored_messages,
    {
        &self.bitemporal_store
    }

    /// Whether the gateway is healthy: its circuit breaker is closed. Nothing in the
    /// gateway opens the breaker, since no message is handed to the network here: a
    /// gateway that was made healthy stays so.
    pub fn health_check(&self) -> (r: bool)
        ensures
            r <==> self@.breaker.state == CircuitState::Closed,
    {
        self.circuit_breaker.state() == CircuitState::Closed
    }

    /// What happened within a range of valid time.
    pub fn query_valid_time(&self, start_ms: u64, end_ms: u64) -> (r: Vec<Message>)
        ensures
            message_views(r@) == self@.store.filter(
                (BiTemporalQuery {
                    query_time: QueryTime::ValidTime,
                    start_ms,
                    end_ms,
                    protocol_filter: None,
                    max_spread_ms: None,
                }).predicate(),
            ),
    {
        self.bitemporal_store.query_valid_time(start_ms, end_ms)
    }

    /// What the system learned within a range of transaction time.
    pub fn query_transaction_time(&self, start_ms: u64, end_ms: u64) -> (r: Vec<Message>)
        ensures
            message_views(r@) == self@.store.filter(
                (BiTemporalQuery {
                    query_time: QueryTime::TransactionTime,
                    start_ms,
                    end_ms,
                    protocol_filter: None,
                    max_spread_ms: None,
                }).predicate(),
            ),
    {
        self.bitemporal_store.query_transaction_time(start_ms, end_ms)
    }

    /// The spreads of the messages that the system learned of within a range.
    pub fn spread_stats(&self, start_ms: u64, end_ms: u64) -> (r: SpreadStats)
        ensures
            stats_of(r, self@.store.filter(known_within(start_ms, end_ms))),
    {
        self.bitemporal_store.spread_stats(start_ms, end_ms)
    }

    /// What the system knew at a time.
    pub fn system_belief_at(&self, timestamp_ms: u64) -> (r: Vec<Message>)
        ensures
            message_views(r@) == self@.store.filter(known_by(timestamp_ms)),
    {
        self.bitemporal_store.system_belief_at(timestamp_ms)
    }

    /// What had happened at a time.
    pub fn actual_state_at(&self, timestamp_ms: u64) -> (r: Vec<Message>)
        ensures
            message_views(r@) == self@.store.filter(happened_by(timestamp_ms)),
    {
        self.bitemporal_store.actual_state_at(timestamp_ms)
    }

    pub fn update_asts_credentials(&mut self, credentials: ASTSCredentials)
        requires
            old(self).wf(),
        ensures
            final(self).wf(),
            final(self)@ == (GatewayView { credentials: Some(credentials), ..old(self)@ }),
            final(self).same_helpers(old(self)),
    {
        self.asts_credentials = Some(credentials);
    }

    pub fn update_telemetry_config(&mut self, config: TelemetryConfig)
        requires
            old(self).wf(),
        ensures
            final(self).wf(),
            final(self)@ == (GatewayView { telemetry: config, ..old(self)@ }),
            final(self).same_helpers(old(self)),
    {
        self.telemetry_config = config;
    }
}

/// Every message is stored with its corrected event time, whatever becomes of it.
pub proof fn every_message_is_stored(g: GatewayView, m: MessageView, adaptive_ms: i64, now: u64)
    ensures
        processed(g, m, adaptive_ms, now).0.store == stored(
            g.store,
            g.limits.stored_messages,
            corrected(g, m, now),
        ),
{
}

/// Processing a message does not touch the circuit breaker, whatever becomes of the
/// message, nor does sending on one that was routed before: health does not change.
pub proof fn processing_keeps_health(g: GatewayView, m: MessageView, adaptive_ms: i64, now: u64)
    ensures
        processed(g, m, adaptive_ms, now).0.breaker == g.breaker,
        sent_on(g, m, now).breaker == g.breaker,
{
}

/// Draining the shard for reconnect bursts does not touch the circuit breaker.
pub proof fn draining_keeps_health(g: GatewayView, now: u64)
    ensures
        burst_drained(g, now).breaker == g.breaker,
{
    let p = spread_position(g.shards);
    let h = GatewayView {
        shards: taken(g.shards, crate::sharding::ShardId(p as u64), usize::MAX as nat),
        ..g
    };
    lemma_sending_keeps_breaker(h, g.shards.queues[p], now);
}

proof fn lemma_sending_keeps_breaker(g: GatewayView, messages: Seq<MessageView>, now: u64)
    ensures
        all_sent_on(g, messages, now).breaker == g.breaker,
    decreases messages.len(),
{
    if messages.len() > 0 {
        lemma_sending_keeps_breaker(g, messages.drop_last(), now);
    }
}

/// An emergency is never dropped or refused. It is put into the shard for
/// emergencies wherever that has room, and a snapshot of it is taken.
pub proof fn emergencies_go_through(g: GatewayView, message: MessageView, adaptive_ms: i64, now: u64)
    requires
        message.priority == Priority::Emergency,
        consistent(g.shards),
    ensures
        ({
            let m = corrected(g, message, now);
            let (h, o) = processed(g, message, adaptive_ms, now);
            &&& !(o is Dropped) && !(o is Refused)
            &&& g.shards.queues[0].len() < g.shards.size ==> h.shards.queues[0]
                == g.shards.queues[0].push(m)
            &&& h.cadence == g.cadence
            &&& routed(recorded(g, m), m, adaptive_ms, now).0.snapshots == with_snapshot(
                g.snapshots,
                g.limits.snapshots,
                snapshot_of(seq![m], m.protocol, now),
            )
        }),
{
}

/// A message from a reconnect burst passes neither cadence limits nor
/// backpressure: it is never dropped or refused, and waits in the shard for
/// bursts wherever that has room.
pub proof fn bursts_go_through(g: GatewayView, message: MessageView, adaptive_ms: i64, now: u64)
    requires
        is_burst(corrected(g, message, now), adaptive_ms),
        message.priority != Priority::Emergency,
        consistent(g.shards),
    ensures
        ({
            let m = corrected(g, message, now);
            let (h, o) = processed(g, message, adaptive_ms, now);
            let p = spread_position(g.shards);
            &&& !(o is Dropped) && !(o is Refused)
            &&& g.shards.queues[p].len() < g.shards.size ==> h.shards.queues[p]
                == g.shards.queues[p].push(m)
            &&& h.cadence == g.cadence
        }),
{
}

/// What was translated once is found in the cache as long as the entry is good:
/// the same payload then gives the same translation.
pub proof fn translations_are_remembered(
    g: GatewayView,
    m: MessageView,
    t: u64,
    again: MessageView,
    now: u64,
)
    requires
        finished(g, m, t).1 is Translated,
        again.protocol == m.protocol,
        again.data == m.data,
        elapsed(t, now) < g.limits.cache_ttl,
    ensures
        finished(finished(g, m, t).0, again, now).1 == OutcomeView::Cached(
            finished(g, m, t).1->Translated_0,
        ),
{
    let x = finished(g, m, t).1->Translated_0;
    kept_is_found(
        g.cache,
        g.limits.cached,
        cache_key(m.protocol, m.data),
        entry_of(x, t, g.limits.cache_ttl),
        now,
    );
}

/// A snapshot of each new translation can be retrieved until it expires.
pub proof fn translations_are_snapshot(g: GatewayView, m: MessageView, t: u64, now: u64)
    requires
        finished(g, m, t).1 is Translated,
        elapsed(t, now) <= g.limits.snapshot_ttl,
    ensures
        ({
            let x = finished(g, m, t).1->Translated_0;
            retrieved(
                finished(g, m, t).0.snapshots,
                batch_id(m.protocol, seq![x]),
                g.limits.snapshot_ttl,
                now,
            ) == Some(snapshot_of(seq![x], m.protocol, t))
        }),
{
    let x = finished(g, m, t).1->Translated_0;
    taken_is_retrieved(
        g.snapshots,
        g.limits.snapshots,
        seq![x],
        m.protocol,
        t,
        g.limits.snapshot_ttl,
        now,
    );
}

/// With the default rules no Iridium telemetry is dropped for its cadence.
pub proof fn default_rules_drop_no_telemetry(g: GatewayView, m: MessageView, adaptive_ms: i64, now: u64)
    requires
        g.cadence.rules == default_rules(),
    ensures
        !(processed(g, m, adaptive_ms, now).1 is Dropped),
{
    let r = default_rules();
    let p = Protocol::IridiumSBD;
    reveal_strlit("heartbeat");
    reveal_strlit("location");
    reveal_strlit("telemetry");
    assert(r[0].message_type.len() == 9 && r[0].message_type[0] == 'h');
    assert(r[1].message_type.len() == 8);
    assert(r[2].message_type == "telemetry"@);
    assert("telemetry"@[0] == 't' && "telemetry"@.len() == 9);
    reveal_with_fuel(crate::cadence_translation::first_rule, 4);
    assert(r.skip(1)[0] == r[1]);
    assert(r.skip(1).skip(1)[0] == r[2]);
    assert(crate::cadence_translation::first_rule(r, "telemetry"@, p) == Some(r[2]));
}

/// Whether a message is from a reconnect burst is decided by how much later than its
/// event the system took it: its spread must be above what is usual for its protocol and
/// above what is usual for the gateway. One on time is never from a burst.
pub proof fn bursts_are_late(m: MessageView, adaptive_ms: i64)
    ensures
        is_burst(m, adaptive_ms) ==> m.t_system != m.t_event,
        m.spread() > 300000 && m.spread() > adaptive_ms ==> is_burst(m, adaptive_ms),
        m.spread() <= 5000 || m.spread() <= adaptive_ms ==> !is_burst(m, adaptive_ms),
        is_burst(m, adaptive_ms) ==> m.spread() > adaptive_ms && m.spread() > burst_threshold_of(
            m.protocol,
        ),
        m.spread() > adaptive_ms && m.spread() > burst_threshold_of(m.protocol) ==> is_burst(
            m,
            adaptive_ms,
        ),
{
}

/// Correcting a message changes nothing of it but the time of its event. Without a
/// measurement of its device, which its payload's hash stands for, it changes nothing.
pub proof fn correction_is_of_the_event_time(g: GatewayView, m: MessageView, now: u64)
    ensures
        corrected(g, m, now).protocol == m.protocol,
        corrected(g, m, now).data == m.data,
        corrected(g, m, now).priority == m.priority,
        corrected(g, m, now).timestamp == m.timestamp,
        corrected(g, m, now).t_system == m.t_system,
        (forall|i: int|
            0 <= i < g.offsets.len() ==> (#[trigger] g.offsets[i]).device_id != djb2(m.data))
            ==> corrected(g, m, now) == m,
{
    if forall|i: int|
        0 <= i < g.offsets.len() ==> (#[trigger] g.offsets[i]).device_id != djb2(m.data) {
        crate::clock_reconciliation::unknown_devices_have_no_offset(g.offsets, djb2(m.data));
    }
}

/// Once a fresh measurement of a device is registered, the events of its messages are
/// moved by what its clock was ahead.
pub proof fn registered_offsets_are_taken_off(
    g: GatewayView,
    o: ClockOffset,
    m: MessageView,
    now: u64,
)
    requires
        g.limits.clock_offsets > 0,
        o.device_id == djb2(m.data),
        o.last_updated <= now <= o.last_updated + g.limits.clock_age,
        0 <= m.t_event - o.offset_ms <= i64::MAX,
    ensures
        corrected(
            GatewayView {
                offsets: with_offset(g.offsets, g.limits.clock_offsets, o),
                ..g
            },
            m,
            now,
        ).t_event == m.t_event - o.offset_ms,
{
    crate::clock_reconciliation::registered_is_found(
        g.offsets,
        g.limits.clock_offsets,
        o,
    );
}

/// A message that is neither dropped nor refused is answered with its own translation:
/// with that which is cached for its protocol and payload, or a new one. It fails only
/// where it has none.
pub proof fn messages_get_their_translation(
    g: GatewayView,
    message: MessageView,
    adaptive_ms: i64,
    now: u64,
)
    ensures
        ({
            let m = corrected(g, message, now);
            let o = processed(g, message, adaptive_ms, now).1;
            let cached = found(g.cache, cache_key(m.protocol, m.data), now);
            !(o is Dropped) && !(o is Refused) ==> {
                &&& cached matches Some(c) ==> o == OutcomeView::Cached(c)
                &&& cached is None && translation_of(m, now) is Some ==> o
                    == OutcomeView::Translated(translation_of(m, now)->0)
                &&& cached is None && translation_of(m, now) is None ==> o == OutcomeView::Failed(
                    TranslateError::InvalidProtocol,
                )
            }
        }),
{
}

/// A message is refused only where it is neither an emergency nor from a reconnect burst,
/// and the normal shards hold as many messages as their limit, or one of them is closed
/// or full. Its urgency plays no part in this. A refused message is in no shard, and
/// goes no further.
pub proof fn refused_only_for_want_of_room(
    g: GatewayView,
    message: MessageView,
    adaptive_ms: i64,
    now: u64,
)
    requires
        consistent(g.shards),
        processed(g, message, adaptive_ms, now).1 is Refused,
    ensures
        ({
            let m = corrected(g, message, now);
            let h = processed(g, message, adaptive_ms, now).0;
            &&& m.priority != Priority::Emergency
            &&& m.spread() <= burst_threshold_of(m.protocol) || m.spread() <= adaptive_ms
            &&& {
                ||| g.shards.regular >= g.shards.limit
                ||| exists|i: int| 0 < i < g.shards.queues.len() - 1 && !#[trigger] g.shards.live[i]
                ||| exists|i: int|
                    0 < i < g.shards.queues.len() - 1 && (#[trigger] g.shards.queues[i]).len()
                        == g.shards.size
            }
            &&& h.shards.queues == g.shards.queues
            &&& h.cache == g.cache
            &&& h.snapshots == g.snapshots
        }),
{
    let m = corrected(g, message, now);
    crate::sharding::refusals_have_a_reason(g.shards, m);
    crate::sharding::refused_messages_change_no_queue(g.shards, m, 0);
    if g.shards.regular < g.shards.limit {
        let e = pushed(g.shards, m).1->Err_0;
        assert(e == ShardError::NotFound || e == ShardError::Full);
    }
}

/// A message that is neither an emergency nor from a reconnect burst, nor dropped for its
/// cadence, joins the end of exactly one normal shard wherever they have room, whatever
/// its urgency, and goes on.
pub proof fn normal_messages_wait_in_one_shard(
    g: GatewayView,
    message: MessageView,
    adaptive_ms: i64,
    now: u64,
)
    requires
        consistent(g.shards),
        g.shards.regular < g.shards.limit,
        forall|i: int|
            0 < i < g.shards.queues.len() - 1 ==> g.shards.live[i] && (
            #[trigger] g.shards.queues[i]).len() < g.shards.size,
        message.priority != Priority::Emergency,
        corrected(g, message, now).spread() <= burst_threshold_of(message.protocol) || corrected(
            g,
            message,
            now,
        ).spread() <= adaptive_ms,
        !(processed(g, message, adaptive_ms, now).1 is Dropped),
    ensures
        ({
            let m = corrected(g, message, now);
            let (h, o) = processed(g, message, adaptive_ms, now);
            &&& !(o is Refused)
            &&& exists|i: int|
                0 < i < g.shards.queues.len() - 1 && h.shards.queues == #[trigger]
                g.shards.queues.update(i, g.shards.queues[i].push(m))
        }),
{
    let m = corrected(g, message, now);
    crate::sharding::refusals_have_a_reason(g.shards, m);
    crate::sharding::normal_messages_go_to_normal_shards(g.shards, m);
    let i = (pushed(g.shards, m).1->Ok_0).0 as int;
    let h = processed(g, message, adaptive_ms, now).0;
    assert(h.shards.queues == g.shards.queues.update(i, g.shards.queues[i].push(m)));
}

/// Only telemetry of Iridium is ever dropped, and only where it is neither an emergency
/// nor from a reconnect burst and the rules for telemetry say so.
pub proof fn dropped_only_for_its_cadence(
    g: GatewayView,
    message: MessageView,
    adaptive_ms: i64,
    now: u64,
)
    ensures
        ({
            let m = corrected(g, message, now);
            processed(g, message, adaptive_ms, now).1 is Dropped <==> {
                &&& message.protocol == Protocol::IridiumSBD
                &&& message.priority != Priority::Emergency
                &&& m.spread() <= burst_threshold_of(m.protocol) || m.spread() <= adaptive_ms
                &&& action_for(
                    g.cadence,
                    "telemetry"@,
                    Protocol::IridiumSBD,
                    message.priority,
                    now,
                ) == TranslationAction::Drop
            }
        }),
{
}

/// An emergency goes to the shard for emergencies and to no other, a message from a
/// reconnect burst to the shard for bursts and to no other.
pub proof fn urgent_messages_have_their_shards(
    g: GatewayView,
    message: MessageView,
    adaptive_ms: i64,
    now: u64,
    i: int,
)
    requires
        consistent(g.shards),
        0 <= i < g.shards.queues.len(),
    ensures
        ({
            let m = corrected(g, message, now);
            let h = processed(g, message, adaptive_ms, now).0;
            let last = g.shards.queues.len() - 1;
            let late = m.spread() > burst_threshold_of(m.protocol) && m.spread() > adaptive_ms;
            &&& m.priority == Priority::Emergency && i != 0 ==> h.shards.queues[i]
                == g.shards.queues[i]
            &&& m.priority == Priority::Emergency && g.shards.queues[0].len() < g.shards.size
                ==> h.shards.queues[0] == g.shards.queues[0].push(m)
            &&& m.priority != Priority::Emergency && late && i != last ==> h.shards.queues[i]
                == g.shards.queues[i]
            &&& m.priority != Priority::Emergency && late && g.shards.queues[last].len()
                < g.shards.size ==> h.shards.queues[last] == g.shards.queues[last].push(m)
            &&& m.priority == Priority::Emergency || late ==> !(processed(
                g,
                message,
                adaptive_ms,
                now,
            ).1 is Dropped) && !(processed(g, message, adaptive_ms, now).1 is Refused)
        }),
{
}

/// Every message is counted once under its protocol, and what became of it is counted:
/// an error where it is refused or fails, a hit or a miss where its translation is looked
/// for, a burst where it is from one.
pub proof fn outcomes_are_counted(
    g: GatewayView,
    message: MessageView,
    adaptive_ms: i64,
    now: u64,
)
    requires
        g.metrics.errors < u64::MAX,
        g.metrics.cache_hits < u64::MAX,
        g.metrics.cache_misses < u64::MAX,
        g.metrics.spread_shard_messages < u64::MAX,
        g.metrics.messages_translated < u64::MAX,
        g.metrics.vsat_messages < u64::MAX,
    ensures
        ({
            let m = corrected(g, message, now);
            let (h, o) = processed(g, message, adaptive_ms, now);
            let late = m.spread() > burst_threshold_of(m.protocol) && m.spread() > adaptive_ms;
            &&& h.metrics.errors == g.metrics.errors + (if o is Refused || o is Failed {
                1int
            } else {
                0int
            })
            &&& h.metrics.cache_hits == g.metrics.cache_hits + (if o is Cached {
                1int
            } else {
                0int
            })
            &&& h.metrics.messages_translated == g.metrics.messages_translated + (if o is Cached {
                1int
            } else {
                0int
            })
            &&& h.metrics.cache_misses == g.metrics.cache_misses + (if o is Translated
                || o is Failed {
                1int
            } else {
                0int
            })
            &&& h.metrics.spread_shard_messages == g.metrics.spread_shard_messages + (if late
                && m.priority != Priority::Emergency {
                1int
            } else {
                0int
            })
            &&& h.metrics.vsat_messages == g.metrics.vsat_messages + (if message.protocol
                == Protocol::VSAT {
                1int
            } else {
                0int
            })
            &&& h.metrics.messages_batched == g.metrics.messages_batched
            &&& h.metrics.total_latency_ms == g.metrics.total_latency_ms
            &&& h.metrics.latency_samples == g.metrics.latency_samples
        }),
{
    let m = corrected(g, message, now);
    let r = recorded(g, m);
    lemma_recording_counts(g, m);
    lemma_routing_counts(r, m, adaptive_ms, now);
    let (h, stop) = routed(r, m, adaptive_ms, now);
    if stop is None {
        lemma_finishing_counts(h, m, now);
    }
}

proof fn lemma_recording_counts(g: GatewayView, m: MessageView)
    requires
        g.metrics.vsat_messages < u64::MAX,
    ensures
        recorded(g, m).metrics.vsat_messages == g.metrics.vsat_messages + (if m.protocol
            == Protocol::VSAT {
            1int
        } else {
            0int
        }),
        same_but_protocols(recorded(g, m).metrics, g.metrics),
{
}

/// The counters that are not for protocols.
spec fn same_but_protocols(a: MetricsView, b: MetricsView) -> bool {
    &&& a.errors == b.errors
    &&& a.cache_hits == b.cache_hits
    &&& a.cache_misses == b.cache_misses
    &&& a.spread_shard_messages == b.spread_shard_messages
    &&& a.messages_translated == b.messages_translated
    &&& a.messages_batched == b.messages_batched
    &&& a.total_latency_ms == b.total_latency_ms
    &&& a.latency_samples == b.latency_samples
}

proof fn lemma_routing_counts(g: GatewayView, m: MessageView, adaptive_ms: i64, now: u64)
    requires
        g.metrics.errors < u64::MAX,
        g.metrics.spread_shard_messages < u64::MAX,
    ensures
        ({
            let (h, stop) = routed(g, m, adaptive_ms, now);
            let late = m.spread() > burst_threshold_of(m.protocol) && m.spread() > adaptive_ms;
            &&& h.metrics == (MetricsView {
                errors: (g.metrics.errors + (if stop is Some && stop->0 is Refused {
                    1int
                } else {
                    0int
                })) as u64,
                spread_shard_messages: (g.metrics.spread_shard_messages + (if late && m.priority
                    != Priority::Emergency {
                    1int
                } else {
                    0int
                })) as u64,
                ..g.metrics
            })
            &&& stop is Some ==> stop->0 is Refused || stop->0 is Dropped
        }),
{
    let a = g.metrics.errors;
    let b = g.metrics.spread_shard_messages;
    assert(crate::metrics::counted(a, 1) == a + 1);
    assert(crate::metrics::counted(b, 1) == b + 1);
}

proof fn lemma_finishing_counts(g: GatewayView, m: MessageView, now: u64)
    requires
        g.metrics.errors < u64::MAX,
        g.metrics.cache_hits < u64::MAX,
        g.metrics.cache_misses < u64::MAX,
        g.metrics.messages_translated < u64::MAX,
    ensures
        ({
            let (h, o) = finished(g, m, now);
            &&& h.metrics.errors == g.metrics.errors + (if o is Failed {
                1int
            } else {
                0int
            })
            &&& h.metrics.cache_hits == g.metrics.cache_hits + (if o is Cached {
                1int
            } else {
                0int
            })
            &&& h.metrics.messages_translated == g.metrics.messages_translated + (if o is Cached {
                1int
            } else {
                0int
            })
            &&& h.metrics.cache_misses == g.metrics.cache_misses + (if o is Translated
                || o is Failed {
                1int
            } else {
                0int
            })
            &&& h.metrics.spread_shard_messages == g.metrics.spread_shard_messages
            &&& h.metrics.vsat_messages == g.metrics.vsat_messages
            &&& h.metrics.messages_batched == g.metrics.messages_batched
            &&& h.metrics.total_latency_ms == g.metrics.total_latency_ms
            &&& h.metrics.latency_samples == g.metrics.latency_samples
            &&& o is Cached || o is Translated || o is Failed
        }),
{
}

/// What a gateway was told and how it is set up do not change while it processes.
pub proof fn processing_keeps_the_setup(
    g: GatewayView,
    message: MessageView,
    adaptive_ms: i64,
    now: u64,
)
    ensures
        ({
            let h = processed(g, message, adaptive_ms, now).0;
            &&& h.credentials == g.credentials
            &&& h.telemetry == g.telemetry
            &&& h.limits == g.limits
            &&& h.offsets == g.offsets
            &&& h.cadence.rules == g.cadence.rules
        }),
{
}

/// Draining the shard for reconnect bursts sends on every message that waits there: each
/// one that has a translation goes out, in the order of the queue, and none of them twice.
pub proof fn drained_bursts_go_out(g: GatewayView, now: u64, other: int)
    requires
        consistent(g.shards),
        g.shards.queues.len() <= u64::MAX,
        0 <= other < g.shards.queues.len() - 1,
    ensures
        ({
            let last = g.shards.queues.len() - 1;
            let q = g.shards.queues[last];
            let h = burst_drained(g, now);
            &&& h.shards.queues[last] == Seq::<MessageView>::empty()
            &&& h.shards.queues[other] == g.shards.queues[other]
            &&& forall|i: int|
                0 <= i < q.len() ==> (translation_of(#[trigger] q[i], now) matches Some(t)
                    ==> translations(q, now).contains(t))
            &&& (forall|i: int| 0 <= i < q.len() ==> translation_of(#[trigger] q[i], now) is Some)
                ==> translations(q, now) == q.map_values(|m: MessageView| translation_of(m, now)->0)
        }),
{
    let last = g.shards.queues.len() - 1;
    let q = g.shards.queues[last];
    let id = crate::sharding::ShardId(last as u64);
    crate::sharding::draining_loses_nothing(g.shards, id, other);
    let start = GatewayView {
        shards: taken(g.shards, id, usize::MAX as nat),
        ..g
    };
    lemma_sending_keeps_shards(start, q, now);
    lemma_translations(q, now);
}

proof fn lemma_sending_keeps_shards(g: GatewayView, messages: Seq<MessageView>, now: u64)
    ensures
        all_sent_on(g, messages, now).shards == g.shards,
    decreases messages.len(),
{
    if messages.len() > 0 {
        lemma_sending_keeps_shards(g, messages.drop_last(), now);
    }
}

proof fn lemma_translations(q: Seq<MessageView>, now: u64)
    ensures
        forall|i: int|
            0 <= i < q.len() ==> (translation_of(#[trigger] q[i], now) matches Some(t)
                ==> translations(q, now).contains(t)),
        (forall|i: int| 0 <= i < q.len() ==> translation_of(#[trigger] q[i], now) is Some)
            ==> translations(q, now) == q.map_values(|m: MessageView| translation_of(m, now)->0),
    decreases q.len(),
{
    let all = translations(q, now);
    let f = |m: MessageView| translation_of(m, now)->0;
    if q.len() > 0 {
        let p = q.drop_last();
        let before = translations(p, now);
        lemma_translations(p, now);
        assert forall|i: int| 0 <= i < q.len() implies (translation_of(
            #[trigger] q[i],
            now,
        ) matches Some(t) ==> all.contains(t)) by {
            if translation_of(q[i], now) is Some {
                let t = translation_of(q[i], now)->0;
                if i < p.len() {
                    assert(p[i] == q[i]);
                    let k = choose|k: int| 0 <= k < before.len() && before[k] == t;
                    assert(all[k] == t);
                } else {
                    assert(all[before.len() as int] == t);
                }
            }
        }
        if forall|i: int| 0 <= i < q.len() ==> translation_of(#[trigger] q[i], now) is Some {
            assert forall|i: int| 0 <= i < p.len() implies translation_of(
                #[trigger] p[i],
                now,
            ) is Some by {
                assert(p[i] == q[i]);
            }
            assert(translation_of(q[q.len() - 1], now) is Some);
            assert(all =~= q.map_values(f));
        }
    } else {
        assert(all =~= q.map_values(f));
    }
}

/// A message that is sent on is kept like any other that was translated: its translation
/// is found for its payload until it expires.
pub proof fn sent_on_is_remembered(g: GatewayView, m: MessageView, t: u64, now: u64)
    requires
        translation_of(m, t) is Some,
        elapsed(t, now) < g.limits.cache_ttl,
    ensures
        found(sent_on(g, m, t).cache, cache_key(m.protocol, m.data), now) == translation_of(m, t),
        translation_of(m, t) is Some ==> sent_on(g, m, t).metrics.errors == g.metrics.errors,
{
    kept_is_found(
        g.cache,
        g.limits.cached,
        cache_key(m.protocol, m.data),
        entry_of(translation_of(m, t)->0, t, g.limits.cache_ttl),
        now,
    );
}

/// A translation that goes out is counted as cellular exactly where there is an account.
pub proof fn sent_is_counted_with_an_account(g: GatewayView)
    requires
        g.metrics.asts_messages < u64::MAX,
    ensures
        emitted(g).metrics.asts_messages == g.metrics.asts_messages + (if g.credentials is Some {
            1int
        } else {
            0int
        }),
        emitted(g).cache == g.cache && emitted(g).shards == g.shards && emitted(g).store == g.store
            && emitted(g).snapshots == g.snapshots,
{
}

} // verus!
