//! Counters for monitoring.
//!
//! A counter that passes its largest value starts again at 0.

use crate::protocol::Protocol;
use vstd::prelude::*;

verus! {

/// What was counted.
#[derive(Debug, Clone, Copy)]
pub struct MetricsView {
    pub messages_translated: u64,
    pub messages_batched: u64,
    pub cache_hits: u64,
    pub cache_misses: u64,
    pub errors: u64,
    pub total_latency_ms: u64,
    pub latency_samples: u64,
    pub iridium_messages: u64,
    pub inmarsat_messages: u64,
    pub vsat_messages: u64,
    pub hfvhf_messages: u64,
    pub rockblock_messages: u64,
    pub samsara_messages: u64,
    pub asts_messages: u64,
    pub nidd_messages: u64,
    pub lora_messages: u64,
    pub spread_shard_messages: u64,
}

pub struct Metrics {
    counts: MetricsView,
}

impl View for Metrics {
    type V = MetricsView;

    closed spec fn view(&self) -> MetricsView {
        self.counts
    }
}

/// The counters at one moment.
#[derive(Debug, Clone, Copy)]
pub struct MetricsSnapshot {
    pub messages_translated: u64,
    pub messages_batched: u64,
    pub cache_hits: u64,
    /// Hits and misses together; the hit rate is the share of hits in it.
    pub cache_lookups: u128,
    pub errors: u64,
    pub avg_latency_ms: u64,
    pub iridium_messages: u64,
    pub inmarsat_messages: u64,
    pub vsat_messages: u64,
    pub hfvhf_messages: u64,
    pub rockblock_messages: u64,
    pub samsara_messages: u64,
    pub asts_messages: u64,
    pub nidd_messages: u64,
    pub lora_messages: u64,
    pub spread_shard_messages: u64,
}

/// A counter after `n` more.
pub open spec fn counted(c: u64, n: u64) -> u64 {
    ((c + n) % 0x1_0000_0000_0000_0000) as u64
}

pub(crate) fn count(c: u64, n: u64) -> (r: u64)
    ensures
        r == counted(c, n),
{
    ((c as u128 + n as u128) % 0x1_0000_0000_0000_0000) as u64
}

/// The counters after a message of a protocol.
pub open spec fn with_protocol(v: MetricsView, p: Protocol) -> MetricsView {
    match p {
        Protocol::IridiumSBD => MetricsView { iridium_messages: counted(v.iridium_messages, 1), ..v },
        Protocol::InmarsatC => MetricsView { inmarsat_messages: counted(v.inmarsat_messages, 1), ..v },
        Protocol::VSAT => MetricsView { vsat_messages: counted(v.vsat_messages, 1), ..v },
        Protocol::HFVHF => MetricsView { hfvhf_messages: counted(v.hfvhf_messages, 1), ..v },
        Protocol::RockBLOCK => MetricsView {
            rockblock_messages: counted(v.rockblock_messages, 1),
            ..v
        },
        Protocol::Samsara => MetricsView { samsara_messages: counted(v.samsara_messages, 1), ..v },
        Protocol::ASTSpaceMobile => MetricsView { asts_messages: counted(v.asts_messages, 1), ..v },
        Protocol::NIDD => MetricsView { nidd_messages: counted(v.nidd_messages, 1), ..v },
        Protocol::LoRaMesh => MetricsView { lora_messages: counted(v.lora_messages, 1), ..v },
    }
}

pub open spec fn with_translated(v: MetricsView) -> MetricsView {
    MetricsView { messages_translated: counted(v.messages_translated, 1), ..v }
}

pub open spec fn with_hit(v: MetricsView) -> MetricsView {
    MetricsView { cache_hits: counted(v.cache_hits, 1), ..v }
}

pub open spec fn with_miss(v: MetricsView) -> MetricsView {
    MetricsView { cache_misses: counted(v.cache_misses, 1), ..v }
}

pub open spec fn with_error(v: MetricsView) -> MetricsView {
    MetricsView { errors: counted(v.errors, 1), ..v }
}

pub open spec fn with_spread(v: MetricsView) -> MetricsView {
    MetricsView { spread_shard_messages: counted(v.spread_shard_messages, 1), ..v }
}

/// The counters after a latency in milliseconds.
pub open spec fn with_latency(v: MetricsView, latency_ms: u64) -> MetricsView {
    MetricsView {
        total_latency_ms: counted(v.total_latency_ms, latency_ms),
        latency_samples: counted(v.latency_samples, 1),
        ..v
    }
}

/// The average latency, rounded down; 0 where none was counted.
pub open spec fn average_latency(v: MetricsView) -> int {
    if v.latency_samples > 0 {
        v.total_latency_ms as int / v.latency_samples as int
    } else {
        0
    }
}

/// The counters after some latencies.
pub open spec fn with_latencies(v: MetricsView, latencies: Seq<u64>) -> MetricsView
    decreases latencies.len(),
{
    if latencies.len() == 0 {
        v
    } else {
        with_latency(with_latencies(v, latencies.drop_last()), latencies.last())
    }
}

/// The sum of some latencies.
pub open spec fn latency_sum(latencies: Seq<u64>) -> nat
    decreases latencies.len(),
{
    if latencies.len() == 0 {
        0
    } else {
        latency_sum(latencies.drop_last()) + latencies.last() as nat
    }
}

/// Counters that have counted nothing.
pub open spec fn zero_counts() -> MetricsView {
    MetricsView {
        messages_translated: 0,
        messages_batched: 0,
        cache_hits: 0,
        cache_misses: 0,
        errors: 0,
        total_latency_ms: 0,
        latency_samples: 0,
        iridium_messages: 0,
        inmarsat_messages: 0,
        vsat_messages: 0,
        hfvhf_messages: 0,
        rockblock_messages: 0,
        samsara_messages: 0,
        asts_messages: 0,
        nidd_messages: 0,
        lora_messages: 0,
        spread_shard_messages: 0,
    }
}

impl Metrics {
    pub fn new() -> (r: Self)
        ensures
            r@ == zero_counts(),
    {
        Metrics {
            counts: MetricsView {
                messages_translated: 0,
                messages_batched: 0,
                cache_hits: 0,
                cache_misses: 0,
                errors: 0,
                total_latency_ms: 0,
                latency_samples: 0,
                iridium_messages: 0,
                inmarsat_messages: 0,
                vsat_messages: 0,
                hfvhf_messages: 0,
                rockblock_messages: 0,
                samsara_messages: 0,
                asts_messages: 0,
                nidd_messages: 0,
                lora_messages: 0,
                spread_shard_messages: 0,
            },
        }
    }

    pub fn increment_translated(&mut self)
        ensures
            final(self)@ == with_translated(old(self)@),
    {
        self.counts.messages_translated = count(self.counts.messages_translated, 1);
    }

    pub fn increment_batched(&mut self, n: u64)
        ensures
            final(self)@ == (MetricsView {
                messages_batched: counted(old(self)@.messages_batched, n),
                ..old(self)@
            }),
    {
        self.counts.messages_batched = count(self.counts.messages_batched, n);
    }

    pub fn record_cache_hit(&mut self)
        ensures
            final(self)@ == with_hit(old(self)@),
    {
        self.counts.cache_hits = count(self.counts.cache_hits, 1);
    }

    pub fn record_cache_miss(&mut self)
        ensures
            final(self)@ == with_miss(old(self)@),
    {
        self.counts.cache_misses = count(self.counts.cache_misses, 1);
    }

    pub fn record_error(&mut self)
        ensures
            final(self)@ == with_error(old(self)@),
    {
        self.counts.errors = count(self.counts.errors, 1);
    }

    /// Counts a latency in milliseconds.
    pub fn record_latency(&mut self, latency_ms: u64)
        ensures
            final(self)@ == with_latency(old(self)@, latency_ms),
    {
        self.counts.total_latency_ms = count(self.counts.total_latency_ms, latency_ms);
        self.counts.latency_samples = count(self.counts.latency_samples, 1);
    }

    /// Counts a message that went to the spread shard.
    pub fn record_spread_shard(&mut self)
        ensures
            final(self)@ == with_spread(old(self)@),
    {
        self.counts.spread_shard_messages = count(self.counts.spread_shard_messages, 1);
    }

    /// Counts a message of a protocol.
    pub fn record_protocol(&mut self, protocol: Protocol)
        ensures
            final(self)@ == with_protocol(old(self)@, protocol),
    {
        match protocol {
            Protocol::IridiumSBD => {
                self.counts.iridium_messages = count(self.counts.iridium_messages, 1);
            },
            Protocol::InmarsatC => {
                self.counts.inmarsat_messages = count(self.counts.inmarsat_messages, 1);
            },
            Protocol::VSAT => {
                self.counts.vsat_messages = count(self.counts.vsat_messages, 1);
            },
            Protocol::HFVHF => {
                self.counts.hfvhf_messages = count(self.counts.hfvhf_messages, 1);
            },
            Protocol::RockBLOCK => {
                self.counts.rockblock_messages = count(self.counts.rockblock_messages, 1);
            },
            Protocol::Samsara => {
                self.counts.samsara_messages = count(self.counts.samsara_messages, 1);
            },
            Protocol::ASTSpaceMobile => {
                self.counts.asts_messages = count(self.counts.asts_messages, 1);
            },
            Protocol::NIDD => {
                self.counts.nidd_messages = count(self.counts.nidd_messages, 1);
            },
            Protocol::LoRaMesh => {
                self.counts.lora_messages = count(self.counts.lora_messages, 1);
            },
        }
    }

    /// The counters at this moment.
    pub fn snapshot(&self) -> (r: MetricsSnapshot)
        ensures
            r.messages_translated == self@.messages_translated,
            r.messages_batched == self@.messages_batched,
            r.cache_hits == self@.cache_hits,
            r.cache_lookups == self@.cache_hits + self@.cache_misses,
            r.errors == self@.errors,
            r.avg_latency_ms == average_latency(self@),
            r.iridium_messages == self@.iridium_messages,
            r.inmarsat_messages == self@.inmarsat_messages,
            r.vsat_messages == self@.vsat_messages,
            r.hfvhf_messages == self@.hfvhf_messages,
            r.rockblock_messages == self@.rockblock_messages,
            r.samsara_messages == self@.samsara_messages,
            r.asts_messages == self@.asts_messages,
            r.nidd_messages == self@.nidd_messages,
            r.lora_messages == self@.lora_messages,
            r.spread_shard_messages == self@.spread_shard_messages,
    {
        let c = self.counts;
        let avg_latency_ms: u64 = if c.latency_samples > 0 {
            c.total_latency_ms / c.latency_samples
        } else {
            0
        };
        MetricsSnapshot {
            messages_translated: c.messages_translated,
            messages_batched: c.messages_batched,
            cache_hits: c.cache_hits,
            cache_lookups: c.cache_hits as u128 + c.cache_misses as u128,
            errors: c.errors,
            avg_latency_ms,
            iridium_messages: c.iridium_messages,
            inmarsat_messages: c.inmarsat_messages,
            vsat_messages: c.vsat_messages,
            hfvhf_messages: c.hfvhf_messages,
            rockblock_messages: c.rockblock_messages,
            samsara_messages: c.samsara_messages,
            asts_messages: c.asts_messages,
            nidd_messages: c.nidd_messages,
            lora_messages: c.lora_messages,
            spread_shard_messages: c.spread_shard_messages,
        }
    }
}

impl Default for Metrics {
    fn default() -> (r: Self)
        ensures
            r@ == zero_counts(),
    {
        Self::new()
    }
}

/// Once some latencies were counted, and none before them, their average is their sum
/// divided by their number, as long as both fit their counters. No other counter
/// changes.
pub proof fn latencies_average(v: MetricsView, latencies: Seq<u64>)
    requires
        v.total_latency_ms == 0,
        v.latency_samples == 0,
        latency_sum(latencies) < 0x1_0000_0000_0000_0000,
        latencies.len() < 0x1_0000_0000_0000_0000,
    ensures
        with_latencies(v, latencies) == (MetricsView {
            total_latency_ms: latency_sum(latencies) as u64,
            latency_samples: latencies.len() as u64,
            ..v
        }),
        average_latency(with_latencies(v, latencies)) == (if latencies.len() > 0 {
            latency_sum(latencies) as int / latencies.len() as int
        } else {
            0
        }),
    decreases latencies.len(),
{
    if latencies.len() > 0 {
        latencies_average(v, latencies.drop_last());
    }
}

/// The counter of a protocol.
pub open spec fn protocol_count(v: MetricsView, p: Protocol) -> u64 {
    match p {
        Protocol::IridiumSBD => v.iridium_messages,
        Protocol::InmarsatC => v.inmarsat_messages,
        Protocol::VSAT => v.vsat_messages,
        Protocol::HFVHF => v.hfvhf_messages,
        Protocol::RockBLOCK => v.rockblock_messages,
        Protocol::Samsara => v.samsara_messages,
        Protocol::ASTSpaceMobile => v.asts_messages,
        Protocol::NIDD => v.nidd_messages,
        Protocol::LoRaMesh => v.lora_messages,
    }
}

/// A message of a protocol adds one to the counter of that protocol and to no other.
pub proof fn protocols_are_counted_apart(v: MetricsView, p: Protocol, q: Protocol)
    requires
        protocol_count(v, p) < u64::MAX,
    ensures
        protocol_count(with_protocol(v, p), q) == protocol_count(v, q) + (if p == q {
            1int
        } else {
            0int
        }),
        with_protocol(v, p).errors == v.errors,
        with_protocol(v, p).cache_hits == v.cache_hits,
        with_protocol(v, p).cache_misses == v.cache_misses,
        with_protocol(v, p).messages_translated == v.messages_translated,
        with_protocol(v, p).messages_batched == v.messages_batched,
        with_protocol(v, p).spread_shard_messages == v.spread_shard_messages,
        with_protocol(v, p).total_latency_ms == v.total_latency_ms,
        with_protocol(v, p).latency_samples == v.latency_samples,
{
    let c = protocol_count(v, p);
    let d = counted(c, 1);
    counters_count(c, 1);
    assert(d == c + 1);
    assert(with_protocol(v, p) == (match p {
        Protocol::IridiumSBD => MetricsView { iridium_messages: d, ..v },
        Protocol::InmarsatC => MetricsView { inmarsat_messages: d, ..v },
        Protocol::VSAT => MetricsView { vsat_messages: d, ..v },
        Protocol::HFVHF => MetricsView { hfvhf_messages: d, ..v },
        Protocol::RockBLOCK => MetricsView { rockblock_messages: d, ..v },
        Protocol::Samsara => MetricsView { samsara_messages: d, ..v },
        Protocol::ASTSpaceMobile => MetricsView { asts_messages: d, ..v },
        Protocol::NIDD => MetricsView { nidd_messages: d, ..v },
        Protocol::LoRaMesh => MetricsView { lora_messages: d, ..v },
    }));
}

/// A counter grows by what is counted, and starts again at 0 once it has passed its
/// largest value.
pub proof fn counters_count(c: u64, n: u64)
    ensures
        c + n <= u64::MAX ==> counted(c, n) == c + n,
        c + n > u64::MAX ==> counted(c, n) == c + n - 0x1_0000_0000_0000_0000,
{
}

/// Each event adds one to its own counter and leaves the others alone.
pub proof fn events_have_their_counters(v: MetricsView)
    requires
        v.messages_translated < u64::MAX,
        v.cache_hits < u64::MAX,
        v.cache_misses < u64::MAX,
        v.errors < u64::MAX,
        v.spread_shard_messages < u64::MAX,
    ensures
        with_translated(v).messages_translated == v.messages_translated + 1,
        with_translated(v) == (MetricsView {
            messages_translated: with_translated(v).messages_translated,
            ..v
        }),
        with_hit(v).cache_hits == v.cache_hits + 1,
        with_hit(v) == (MetricsView { cache_hits: with_hit(v).cache_hits, ..v }),
        with_miss(v).cache_misses == v.cache_misses + 1,
        with_miss(v) == (MetricsView { cache_misses: with_miss(v).cache_misses, ..v }),
        with_error(v).errors == v.errors + 1,
        with_error(v) == (MetricsView { errors: with_error(v).errors, ..v }),
        with_spread(v).spread_shard_messages == v.spread_shard_messages + 1,
        with_spread(v) == (MetricsView {
            spread_shard_messages: with_spread(v).spread_shard_messages,
            ..v
        }),
{
}

/// A latency adds itself to the total and one to the samples, and touches no other count.
pub proof fn latencies_are_summed(v: MetricsView, latency_ms: u64)
    requires
        v.total_latency_ms + latency_ms <= u64::MAX,
        v.latency_samples < u64::MAX,
    ensures
        with_latency(v, latency_ms).total_latency_ms == v.total_latency_ms + latency_ms,
        with_latency(v, latency_ms).latency_samples == v.latency_samples + 1,
        with_latency(v, latency_ms) == (MetricsView {
            total_latency_ms: with_latency(v, latency_ms).total_latency_ms,
            latency_samples: with_latency(v, latency_ms).latency_samples,
            ..v
        }),
        average_latency(with_latency(zero_counts(), latency_ms)) == latency_ms,
{
    let w = with_latency(zero_counts(), latency_ms);
    assert(w.latency_samples == 1 && w.total_latency_ms == latency_ms);
    vstd::arithmetic::div_mod::lemma_div_basics(w.total_latency_ms as int);
}

} // verus!
