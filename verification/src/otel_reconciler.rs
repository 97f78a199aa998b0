//! Bi-temporal reconciliation of OTLP spans, for audit trails and compliance
//! reports.
//!
//! Every span is kept with its event time and its system time. An entity is a
//! trace id and a span id; what is believed of it at a time is its latest record
//! that the system had by then.

use crate::otel_compact_span::{attributes_view, AttributesView, SpanView};
use crate::otel_converter::{otlp_of, OtlpSpan, OtlpSpanView};
use crate::protocol::wrapped64;
use crate::seqs::{lemma_filter_ends, lemma_filter_next};
use crate::text::{parse_i64, parsed_i64, same_text, signed_decimal_roundtrip};
use vstd::prelude::*;
use vstd::string::StringExecFns;

verus! {

/// A span with its two times.
#[derive(Debug)]
pub struct BitemporalRecord {
    /// Trace id and span id.
    pub entity_id: String,
    /// Valid time: when the event happened.
    pub t_event: i64,
    /// Transaction time: when it was recorded.
    pub t_system: i64,
    pub span: OtlpSpan,
}

/// What a record says.
#[verifier::ext_equal]
pub struct RecordView {
    pub entity_id: Seq<char>,
    pub t_event: i64,
    pub t_system: i64,
    pub span: OtlpSpanView,
}

impl View for BitemporalRecord {
    type V = RecordView;

    open spec fn view(&self) -> RecordView {
        RecordView {
            entity_id: self.entity_id@,
            t_event: self.t_event,
            t_system: self.t_system,
            span: self.span@,
        }
    }
}

/// The spreads of a set of records. The average is the sum divided by the
/// number of records.
#[derive(Debug, Clone, Copy)]
pub struct ReconciliationStats {
    pub total_records: usize,
    /// Delayed records.
    pub positive_spread: usize,
    /// Records from the future.
    pub negative_spread: usize,
    /// Records in real time.
    pub zero_spread: usize,
    pub sum_spread_ms: i128,
    pub max_spread_ms: i64,
    pub min_spread_ms: i64,
}

/// All records, in the order in which they came.
pub struct BitemporalReconciler {
    records: Vec<BitemporalRecord>,
}

impl View for BitemporalReconciler {
    type V = Seq<RecordView>;

    closed spec fn view(&self) -> Seq<RecordView> {
        self.records@.map_values(|r: BitemporalRecord| r@)
    }
}

/// Records whose event happened within a range.
pub open spec fn event_within(start_ms: i64, end_ms: i64) -> spec_fn(RecordView) -> bool {
    |r: RecordView| start_ms <= r.t_event <= end_ms
}

/// Records that the system took within a range.
pub open spec fn system_within(start_ms: i64, end_ms: i64) -> spec_fn(RecordView) -> bool {
    |r: RecordView| start_ms <= r.t_system <= end_ms
}

/// Records of one entity.
pub open spec fn of_entity(id: Seq<char>) -> spec_fn(RecordView) -> bool {
    |r: RecordView| r.entity_id == id
}

/// The spans of records.
pub open spec fn spans_of(r: Seq<RecordView>) -> Seq<OtlpSpanView> {
    r.map_values(|x: RecordView| x.span)
}

/// What the spans behind some references say.
pub open spec fn referenced(s: Seq<&OtlpSpan>) -> Seq<OtlpSpanView> {
    s.map_values(|x: &OtlpSpan| x@)
}

/// The name of an entity.
pub open spec fn entity_of(trace_id: Seq<char>, span_id: Seq<char>) -> Seq<char> {
    trace_id + ":"@ + span_id
}

/// The first value under a key, if there is one.
pub open spec fn first_value(a: AttributesView, key: Seq<char>) -> Option<Seq<char>>
    decreases a.len(),
{
    if a.len() == 0 {
        None
    } else if a[0].0 == key {
        Some(a[0].1)
    } else {
        first_value(a.skip(1), key)
    }
}

/// The time under a key; 0 where there is none or it is no number.
pub open spec fn time_attribute(a: AttributesView, key: Seq<char>) -> int {
    match first_value(a, key) {
        Some(v) => match parsed_i64(v) {
            Some(t) => t,
            None => 0,
        },
        None => 0,
    }
}

/// The record that a span makes.
pub open spec fn record_of(s: OtlpSpanView) -> RecordView {
    RecordView {
        entity_id: entity_of(s.trace_id, s.span_id),
        t_event: time_attribute(s.attributes, "t_event"@) as i64,
        t_system: time_attribute(s.attributes, "t_system"@) as i64,
        span: s,
    }
}

/// Whether record `j` is what the system had of `i`'s entity at time `t` and is
/// not later than record `i`.
pub open spec fn not_later(s: Seq<RecordView>, j: int, i: int, t: i64) -> bool {
    s[j].entity_id == s[i].entity_id && s[j].t_system <= t ==> s[j].t_system < s[i].t_system || (
    s[j].t_system == s[i].t_system && j <= i)
}

/// Whether record `i` is what the system believed of its entity at time `t`:
/// the latest that it had by then, and among equally late ones the last.
pub open spec fn is_belief(s: Seq<RecordView>, i: int, t: i64) -> bool {
    &&& 0 <= i < s.len()
    &&& s[i].t_system <= t
    &&& forall|j: int| 0 <= j < s.len() ==> #[trigger] not_later(s, j, i, t)
}

/// The beliefs at time `t` among the first `n` records.
pub open spec fn beliefs_upto(s: Seq<RecordView>, t: i64, n: nat) -> Seq<RecordView>
    decreases n,
{
    if n == 0 {
        Seq::empty()
    } else if is_belief(s, n - 1, t) {
        beliefs_upto(s, t, (n - 1) as nat).push(s[n - 1])
    } else {
        beliefs_upto(s, t, (n - 1) as nat)
    }
}

/// What the system believed at time `t`, one record for each entity that it
/// knew of.
pub open spec fn beliefs(s: Seq<RecordView>, t: i64) -> Seq<RecordView> {
    beliefs_upto(s, t, s.len())
}

/// The spread of a record.
pub open spec fn record_spread(r: RecordView) -> int {
    wrapped64(r.t_system - r.t_event)
}

/// The sum of the spreads of records.
pub open spec fn spread_sum(s: Seq<RecordView>) -> int
    decreases s.len(),
{
    if s.len() == 0 {
        0
    } else {
        spread_sum(s.drop_last()) + record_spread(s.last())
    }
}

/// Records by the sign of their spread.
pub open spec fn delayed() -> spec_fn(RecordView) -> bool {
    |r: RecordView| record_spread(r) > 0
}

pub open spec fn from_future() -> spec_fn(RecordView) -> bool {
    |r: RecordView| record_spread(r) < 0
}

pub open spec fn real_time() -> spec_fn(RecordView) -> bool {
    |r: RecordView| record_spread(r) == 0
}

/// Whether statistics are those of some records.
pub open spec fn stats_of(st: ReconciliationStats, s: Seq<RecordView>) -> bool {
    &&& st.total_records == s.len()
    &&& st.positive_spread == s.filter(delayed()).len()
    &&& st.negative_spread == s.filter(from_future()).len()
    &&& st.zero_spread == s.filter(real_time()).len()
    &&& st.sum_spread_ms == spread_sum(s)
    &&& s.len() == 0 ==> st.max_spread_ms == 0 && st.min_spread_ms == 0
    &&& s.len() > 0 ==> {
        &&& exists|i: int| 0 <= i < s.len() && record_spread(#[trigger] s[i]) == st.max_spread_ms
        &&& exists|i: int| 0 <= i < s.len() && record_spread(#[trigger] s[i]) == st.min_spread_ms
        &&& forall|i: int|
            0 <= i < s.len() ==> st.min_spread_ms <= record_spread(#[trigger] s[i])
                <= st.max_spread_ms
    }
}

/// The time under a key; 0 where there is none or it is no number.
fn extract_time(a: &Vec<(String, String)>, key: &str) -> (r: i64)
    ensures
        r == time_attribute(attributes_view(a@), key@),
{
    let ghost all = attributes_view(a@);
    let mut i: usize = 0;
    assert(all.skip(0) =~= all);
    while i < a.len()
        invariant
            i <= a@.len(),
            all == attributes_view(a@),
            first_value(all, key@) == first_value(all.skip(i as int), key@),
        decreases a@.len() - i,
    {
        assert(all.skip(i as int).skip(1) =~= all.skip(i + 1));
        if same_text(a[i].0.as_str(), key) {
            return match parse_i64(a[i].1.as_str()) {
                Some(t) => t,
                None => 0,
            };
        }
        i = i + 1;
    }
    0
}

fn entity_name(trace_id: &str, span_id: &str) -> (r: String)
    ensures
        r@ == entity_of(trace_id@, span_id@),
{
    let mut id = String::from_str(trace_id);
    id.append(":");
    id.append(span_id);
    id
}

impl BitemporalReconciler {
    /// A reconciler without records.
    pub fn new() -> (r: Self)
        ensures
            r@ == Seq::<RecordView>::empty(),
    {
        let r = BitemporalReconciler { records: Vec::new() };
        assert(r@ =~= Seq::<RecordView>::empty());
        r
    }

    /// Takes a span with the two times that its attributes name.
    pub fn ingest(&mut self, span: OtlpSpan)
        ensures
            final(self)@ == old(self)@.push(record_of(span@)),
    {
        let t_event = self.extract_t_event(&span);
        let t_system = self.extract_t_system(&span);
        self.add(span, t_event, t_system);
    }

    fn add(&mut self, span: OtlpSpan, t_event: i64, t_system: i64)
        ensures
            final(self)@ == old(self)@.push(
                RecordView {
                    entity_id: entity_of(span@.trace_id, span@.span_id),
                    t_event,
                    t_system,
                    span: span@,
                },
            ),
    {
        let entity_id = entity_name(span.trace_id.as_str(), span.span_id.as_str());
        let record = BitemporalRecord { entity_id, t_event, t_system, span };
        self.records.push(record);
        assert(self@ =~= old(self)@.push(record@));
    }

    /// The event time that a span names, or 0.
    pub fn extract_t_event(&self, span: &OtlpSpan) -> (r: i64)
        ensures
            r == time_attribute(span@.attributes, "t_event"@),
    {
        extract_time(&span.attributes, "t_event")
    }

    /// The system time that a span names, or 0.
    pub fn extract_t_system(&self, span: &OtlpSpan) -> (r: i64)
        ensures
            r == time_attribute(span@.attributes, "t_system"@),
    {
        extract_time(&span.attributes, "t_system")
    }

    /// What happened within a range of valid time.
    pub fn query_valid_time(&self, start_ms: i64, end_ms: i64) -> (r: Vec<&OtlpSpan>)
        ensures
            referenced(r@) == spans_of(self@.filter(event_within(start_ms, end_ms))),
    {
        let mut results: Vec<&OtlpSpan> = Vec::new();
        let ghost p = event_within(start_ms, end_ms);
        let ghost all = self@;
        let mut i: usize = 0;
        proof {
            lemma_filter_ends(all, p);
            assert(referenced(results@) =~= spans_of(Seq::<RecordView>::empty()));
        }
        while i < self.records.len()
            invariant
                i <= self.records@.len() == all.len(),
                all == self@,
                p == event_within(start_ms, end_ms),
                referenced(results@) == spans_of(all.subrange(0, i as int).filter(p)),
            decreases self.records@.len() - i,
        {
            let ghost before = results@;
            let ghost kept = all.subrange(0, i as int).filter(p);
            proof {
                lemma_filter_next(all, i as int, p);
                assert(all[i as int] == self.records@[i as int]@);
            }
            if self.records[i].t_event >= start_ms && self.records[i].t_event <= end_ms {
                results.push(&self.records[i].span);
                assert(referenced(results@) =~= referenced(before).push(all[i as int].span));
                assert(spans_of(kept.push(all[i as int])) =~= spans_of(kept).push(
                    all[i as int].span,
                ));
            }
            i = i + 1;
        }
        proof {
            lemma_filter_ends(all, p);
        }
        results
    }

    /// What the system took within a range of transaction time.
    pub fn query_transaction_time(&self, start_ms: i64, end_ms: i64) -> (r: Vec<&OtlpSpan>)
        ensures
            referenced(r@) == spans_of(self@.filter(system_within(start_ms, end_ms))),
    {
        let mut results: Vec<&OtlpSpan> = Vec::new();
        let ghost p = system_within(start_ms, end_ms);
        let ghost all = self@;
        let mut i: usize = 0;
        proof {
            lemma_filter_ends(all, p);
            assert(referenced(results@) =~= spans_of(Seq::<RecordView>::empty()));
        }
        while i < self.records.len()
            invariant
                i <= self.records@.len() == all.len(),
                all == self@,
                p == system_within(start_ms, end_ms),
                referenced(results@) == spans_of(all.subrange(0, i as int).filter(p)),
            decreases self.records@.len() - i,
        {
            let ghost before = results@;
            let ghost kept = all.subrange(0, i as int).filter(p);
            proof {
                lemma_filter_next(all, i as int, p);
                assert(all[i as int] == self.records@[i as int]@);
            }
            if self.records[i].t_system >= start_ms && self.records[i].t_system <= end_ms {
                results.push(&self.records[i].span);
                assert(referenced(results@) =~= referenced(before).push(all[i as int].span));
                assert(spans_of(kept.push(all[i as int])) =~= spans_of(kept).push(
                    all[i as int].span,
                ));
            }
            i = i + 1;
        }
        proof {
            lemma_filter_ends(all, p);
        }
        results
    }

    fn believes(&self, i: usize, t: i64) -> (r: bool)
        requires
            i < self@.len(),
        ensures
            r <==> is_belief(self@, i as int, t),
    {
        if self.records[i].t_system > t {
            return false;
        }
        let ghost all = self@;
        let mut j: usize = 0;
        while j < self.records.len()
            invariant
                j <= self.records@.len() == all.len(),
                i < all.len(),
                all == self@,
                all[i as int].t_system <= t,
                forall|x: int| 0 <= x < j ==> #[trigger] not_later(all, x, i as int, t),
            decreases self.records@.len() - j,
        {
            assert(all[j as int] == self.records@[j as int]@);
            assert(all[i as int] == self.records@[i as int]@);
            let other = &self.records[j];
            let this = &self.records[i];
            if other.t_system <= t && (other.t_system > this.t_system || (other.t_system
                == this.t_system && j > i)) && same_text(
                other.entity_id.as_str(),
                this.entity_id.as_str(),
            ) {
                assert(!not_later(all, j as int, i as int, t));
                return false;
            }
            j = j + 1;
        }
        true
    }

    /// What the system believed at a transaction time: for each entity, the
    /// latest record that it had by then.
    pub fn system_belief_at(&self, transaction_time_ms: i64) -> (r: Vec<&OtlpSpan>)
        ensures
            referenced(r@) == spans_of(beliefs(self@, transaction_time_ms)),
    {
        let mut results: Vec<&OtlpSpan> = Vec::new();
        let ghost all = self@;
        let mut i: usize = 0;
        assert(referenced(results@) =~= spans_of(Seq::<RecordView>::empty()));
        while i < self.records.len()
            invariant
                i <= self.records@.len() == all.len(),
                all == self@,
                referenced(results@) == spans_of(
                    beliefs_upto(all, transaction_time_ms, i as nat),
                ),
            decreases self.records@.len() - i,
        {
            let ghost before = results@;
            let ghost kept = beliefs_upto(all, transaction_time_ms, i as nat);
            assert(all[i as int] == self.records@[i as int]@);
            if self.believes(i, transaction_time_ms) {
                results.push(&self.records[i].span);
                assert(referenced(results@) =~= referenced(before).push(all[i as int].span));
                assert(spans_of(kept.push(all[i as int])) =~= spans_of(kept).push(
                    all[i as int].span,
                ));
            }
            i = i + 1;
        }
        results
    }

    /// What happened at a valid time.
    pub fn actual_state_at(&self, valid_time_ms: i64) -> (r: Vec<&OtlpSpan>)
        ensures
            referenced(r@) == spans_of(self@.filter(event_within(valid_time_ms, valid_time_ms))),
    {
        self.query_valid_time(valid_time_ms, valid_time_ms)
    }

    /// The spreads of what the system took within a range of transaction time.
    pub fn spread_stats(&self, start_ms: i64, end_ms: i64) -> (r: ReconciliationStats)
        ensures
            stats_of(r, self@.filter(system_within(start_ms, end_ms))),
    {
        let ghost p = system_within(start_ms, end_ms);
        let ghost all = self@;
        let mut st = ReconciliationStats {
            total_records: 0,
            positive_spread: 0,
            negative_spread: 0,
            zero_spread: 0,
            sum_spread_ms: 0,
            max_spread_ms: 0,
            min_spread_ms: 0,
        };
        let mut i: usize = 0;
        proof {
            lemma_filter_ends(all, p);
            reveal(Seq::filter);
        }
        while i < self.records.len()
            invariant
                i <= self.records@.len() == all.len(),
                all == self@,
                p == system_within(start_ms, end_ms),
                stats_of(st, all.subrange(0, i as int).filter(p)),
                st.total_records <= i,
                st.positive_spread <= st.total_records,
                st.negative_spread <= st.total_records,
                st.zero_spread <= st.total_records,
                -0x8000_0000_0000_0000 * st.total_records <= st.sum_spread_ms
                    <= 0x8000_0000_0000_0000 * st.total_records,
            decreases self.records@.len() - i,
        {
            let ghost kept = all.subrange(0, i as int).filter(p);
            let ghost before = st;
            proof {
                lemma_filter_next(all, i as int, p);
                assert(all[i as int] == self.records@[i as int]@);
            }
            let record = &self.records[i];
            if record.t_system >= start_ms && record.t_system <= end_ms {
                let spread: i64 = record.t_system.wrapping_sub(record.t_event);
                if st.total_records == 0 || spread > st.max_spread_ms {
                    st.max_spread_ms = spread;
                }
                if st.total_records == 0 || spread < st.min_spread_ms {
                    st.min_spread_ms = spread;
                }
                st.total_records = st.total_records + 1;
                st.sum_spread_ms = st.sum_spread_ms + spread as i128;
                if spread > 0 {
                    st.positive_spread = st.positive_spread + 1;
                } else if spread < 0 {
                    st.negative_spread = st.negative_spread + 1;
                } else {
                    st.zero_spread = st.zero_spread + 1;
                }
                proof {
                    let x = all[i as int];
                    let now = kept.push(x);
                    assert(record_spread(x) == spread);
                    assert(now.drop_last() =~= kept);
                    assert(now.last() == x);
                    reveal(Seq::filter);
                    assert(spread_sum(now) == spread_sum(kept) + spread);
                    lemma_extremes(before, st, kept, x);
                }
            }
            i = i + 1;
        }
        proof {
            lemma_filter_ends(all, p);
        }
        st
    }

    /// All records of an entity, in the order in which they came.
    pub fn entity_history(&self, trace_id: &str, span_id: &str) -> (r: Vec<&BitemporalRecord>)
        ensures
            r@.map_values(|x: &BitemporalRecord| x@) == self@.filter(
                of_entity(entity_of(trace_id@, span_id@)),
            ),
    {
        let id = entity_name(trace_id, span_id);
        let mut results: Vec<&BitemporalRecord> = Vec::new();
        let ghost p = of_entity(id@);
        let ghost f = |x: &BitemporalRecord| x@;
        let ghost all = self@;
        let mut i: usize = 0;
        proof {
            lemma_filter_ends(all, p);
            assert(results@.map_values(f) =~= Seq::<RecordView>::empty());
        }
        while i < self.records.len()
            invariant
                i <= self.records@.len() == all.len(),
                all == self@,
                p == of_entity(id@),
                f == (|x: &BitemporalRecord| x@),
                results@.map_values(f) == all.subrange(0, i as int).filter(p),
            decreases self.records@.len() - i,
        {
            let ghost before = results@;
            proof {
                lemma_filter_next(all, i as int, p);
                assert(all[i as int] == self.records@[i as int]@);
            }
            if same_text(self.records[i].entity_id.as_str(), id.as_str()) {
                results.push(&self.records[i]);
                assert(results@.map_values(f) =~= before.map_values(f).push(all[i as int]));
            }
            i = i + 1;
        }
        proof {
            lemma_filter_ends(all, p);
        }
        results
    }

    /// Adds a record of a span with a corrected event time; the earlier records
    /// stay.
    pub fn retroactive_correction(&mut self, span: OtlpSpan, new_t_event: i64)
        ensures
            final(self)@ == old(self)@.push(
                RecordView { t_event: new_t_event, ..record_of(span@) },
            ),
    {
        let t_system = self.extract_t_system(&span);
        self.add(span, new_t_event, t_system);
    }

    pub fn clear(&mut self)
        ensures
            final(self)@ == Seq::<RecordView>::empty(),
    {
        self.records.clear();
        assert(self@ =~= Seq::<RecordView>::empty());
    }

    pub fn record_count(&self) -> (r: usize)
        ensures
            r == self@.len(),
    {
        self.records.len()
    }
}

proof fn lemma_extremes(
    before: ReconciliationStats,
    st: ReconciliationStats,
    kept: Seq<RecordView>,
    x: RecordView,
)
    requires
        stats_of(before, kept),
        st.max_spread_ms == (if kept.len() == 0 || record_spread(x) > before.max_spread_ms {
            record_spread(x)
        } else {
            before.max_spread_ms as int
        }),
        st.min_spread_ms == (if kept.len() == 0 || record_spread(x) < before.min_spread_ms {
            record_spread(x)
        } else {
            before.min_spread_ms as int
        }),
    ensures
        ({
            let s = kept.push(x);
            &&& exists|i: int| 0 <= i < s.len() && record_spread(#[trigger] s[i]) == st.max_spread_ms
            &&& exists|i: int| 0 <= i < s.len() && record_spread(#[trigger] s[i]) == st.min_spread_ms
            &&& forall|i: int|
                0 <= i < s.len() ==> st.min_spread_ms <= record_spread(#[trigger] s[i])
                    <= st.max_spread_ms
        }),
{
    let s = kept.push(x);
    assert(s[kept.len() as int] == x);
    if kept.len() > 0 {
        let a = choose|i: int|
            0 <= i < kept.len() && record_spread(#[trigger] kept[i]) == before.max_spread_ms;
        let b = choose|i: int|
            0 <= i < kept.len() && record_spread(#[trigger] kept[i]) == before.min_spread_ms;
        assert(s[a] == kept[a] && s[b] == kept[b]);
    }
    assert forall|i: int| 0 <= i < s.len() implies st.min_spread_ms <= record_spread(
        #[trigger] s[i],
    ) <= st.max_spread_ms by {
        if i < kept.len() {
            assert(s[i] == kept[i]);
        }
    }
}

impl Default for BitemporalReconciler {
    fn default() -> (r: Self)
        ensures
            r@ == Seq::<RecordView>::empty(),
    {
        Self::new()
    }
}

/// Converting a compact span and taking it in recovers both of its times.
pub proof fn conversion_keeps_times(s: SpanView)
    ensures
        record_of(otlp_of(s)).t_event == s.t_event,
        record_of(otlp_of(s)).t_system == s.t_system,
{
    let a = otlp_of(s).attributes;
    reveal_strlit("t_event");
    reveal_strlit("t_system");
    assert("t_event"@ != "t_system"@) by {
        assert("t_event"@.len() != "t_system"@.len());
    }
    reveal_with_fuel(first_value, 3);
    assert(a[0].0 == "t_event"@);
    assert(a.skip(1)[0] == a[1]);
    assert(a[1].0 == "t_system"@);
    signed_decimal_roundtrip(s.t_event);
    signed_decimal_roundtrip(s.t_system);
}

/// No entity has two beliefs at one time.
pub proof fn belief_is_unique(s: Seq<RecordView>, i: int, j: int, t: i64)
    requires
        is_belief(s, i, t),
        is_belief(s, j, t),
        s[i].entity_id == s[j].entity_id,
    ensures
        i == j,
{
    assert(not_later(s, j, i, t));
    assert(not_later(s, i, j, t));
}

/// An entity that the system knew of by a time has a belief at that time.
pub proof fn belief_exists(s: Seq<RecordView>, k: int, t: i64)
    requires
        0 <= k < s.len(),
        s[k].t_system <= t,
    ensures
        exists|i: int| #[trigger] is_belief(s, i, t) && s[i].entity_id == s[k].entity_id,
    decreases t - s[k].t_system, s.len() - k,
{
    if !is_belief(s, k, t) {
        let j = choose|j: int| 0 <= j < s.len() && !#[trigger] not_later(s, j, k, t);
        belief_exists(s, j, t);
    }
}

/// A correction adds to the history of its entity and leaves all earlier
/// records as they were.
pub proof fn correction_keeps_history(s: Seq<RecordView>, r: RecordView)
    ensures
        s.push(r).filter(of_entity(r.entity_id)) == s.filter(of_entity(r.entity_id)).push(r),
{
    reveal(Seq::filter);
    assert(s.push(r).drop_last() =~= s);
}

/// A call that changes what a reconciler holds.
pub enum ReconcilerCall {
    Ingest { span: OtlpSpanView },
    Correct { span: OtlpSpanView, t_event: i64 },
    Clear,
}

/// The records after a call.
pub open spec fn after_call(s: Seq<RecordView>, c: ReconcilerCall) -> Seq<RecordView> {
    match c {
        ReconcilerCall::Ingest { span } => s.push(record_of(span)),
        ReconcilerCall::Correct { span, t_event } => s.push(
            RecordView { t_event, ..record_of(span) },
        ),
        ReconcilerCall::Clear => Seq::empty(),
    }
}

/// The records of a new reconciler after some calls.
pub open spec fn after_calls(calls: Seq<ReconcilerCall>) -> Seq<RecordView>
    decreases calls.len(),
{
    if calls.len() == 0 {
        Seq::empty()
    } else {
        after_call(after_calls(calls.drop_last()), calls.last())
    }
}

/// The span that a call adds, if it adds one.
pub open spec fn added_span(c: ReconcilerCall) -> Option<OtlpSpanView> {
    match c {
        ReconcilerCall::Ingest { span } => Some(span),
        ReconcilerCall::Correct { span, .. } => Some(span),
        ReconcilerCall::Clear => None,
    }
}

/// What calls since the last clearing added for a trace id and a span id, in the order
/// of the calls.
pub open spec fn added_for(
    calls: Seq<ReconcilerCall>,
    trace_id: Seq<char>,
    span_id: Seq<char>,
) -> Seq<RecordView>
    decreases calls.len(),
{
    if calls.len() == 0 {
        Seq::empty()
    } else {
        let earlier = added_for(calls.drop_last(), trace_id, span_id);
        match added_span(calls.last()) {
            Some(span) => if span.trace_id == trace_id && span.span_id == span_id {
                after_call(earlier, calls.last())
            } else {
                earlier
            },
            None => Seq::empty(),
        }
    }
}

/// The history of an entity is all that was added for its trace id and span id since
/// the last clearing, in the order of the calls, where no other pair of ids that was
/// added makes up the same name.
pub proof fn history_is_what_was_added(
    calls: Seq<ReconcilerCall>,
    trace_id: Seq<char>,
    span_id: Seq<char>,
)
    requires
        forall|i: int|
            0 <= i < calls.len() ==> (added_span(#[trigger] calls[i]) matches Some(x) ==> entity_of(
                x.trace_id,
                x.span_id,
            ) == entity_of(trace_id, span_id) ==> x.trace_id == trace_id && x.span_id == span_id),
    ensures
        after_calls(calls).filter(of_entity(entity_of(trace_id, span_id))) == added_for(
            calls,
            trace_id,
            span_id,
        ),
    decreases calls.len(),
{
    reveal(Seq::filter);
    if calls.len() > 0 {
        let before = calls.drop_last();
        assert forall|i: int| 0 <= i < before.len() implies (added_span(#[trigger] before[i]) matches
            Some(x) ==> entity_of(x.trace_id, x.span_id) == entity_of(trace_id, span_id)
            ==> x.trace_id == trace_id && x.span_id == span_id) by {
            assert(before[i] == calls[i]);
        }
        history_is_what_was_added(before, trace_id, span_id);
        let c = calls[calls.len() - 1];
        let now = after_calls(calls);
        if added_span(c) is Some {
            assert(now.drop_last() =~= after_calls(before));
        }
    }
}

/// Where neither of two ids holds a colon, no other pair of ids makes up their name.
pub proof fn entity_name_is_unique(
    trace_id: Seq<char>,
    span_id: Seq<char>,
    other_trace: Seq<char>,
    other_span: Seq<char>,
)
    requires
        !trace_id.contains(':'),
        !span_id.contains(':'),
        entity_of(other_trace, other_span) == entity_of(trace_id, span_id),
    ensures
        other_trace == trace_id,
        other_span == span_id,
{
    reveal_strlit(":");
    let a = entity_of(trace_id, span_id);
    let n = trace_id.len() as int;
    let m = other_trace.len() as int;
    let b = entity_of(other_trace, other_span);
    assert(a.len() == n + 1 + span_id.len());
    assert(b.len() == m + 1 + other_span.len());
    assert(b[m] == ':');
    if m < n {
        assert(a[m] == trace_id[m]);
    } else if m > n {
        assert(a[m] == span_id[m - n - 1]);
    }
    assert(trace_id =~= a.subrange(0, n));
    assert(other_trace =~= b.subrange(0, m));
    assert(span_id =~= a.subrange(n + 1, a.len() as int));
    assert(other_span =~= b.subrange(m + 1, b.len() as int));
}

/// The history of an entity whose ids hold no colon, as those in hexadecimal do not, is
/// all that was added for them since the last clearing, in the order of the calls.
pub proof fn history_is_complete(
    calls: Seq<ReconcilerCall>,
    trace_id: Seq<char>,
    span_id: Seq<char>,
)
    requires
        !trace_id.contains(':'),
        !span_id.contains(':'),
    ensures
        after_calls(calls).filter(of_entity(entity_of(trace_id, span_id))) == added_for(
            calls,
            trace_id,
            span_id,
        ),
{
    assert forall|i: int| 0 <= i < calls.len() implies (added_span(#[trigger] calls[i]) matches Some(
        x,
    ) ==> entity_of(x.trace_id, x.span_id) == entity_of(trace_id, span_id) ==> x.trace_id
        == trace_id && x.span_id == span_id) by {
        if let Some(x) = added_span(calls[i]) {
            if entity_of(x.trace_id, x.span_id) == entity_of(trace_id, span_id) {
                entity_name_is_unique(trace_id, span_id, x.trace_id, x.span_id);
            }
        }
    }
    history_is_what_was_added(calls, trace_id, span_id);
}

/// The number of records of some entities.
pub open spec fn history_total(s: Seq<RecordView>, ids: Seq<Seq<char>>) -> nat
    decreases ids.len(),
{
    if ids.len() == 0 {
        0
    } else {
        history_total(s, ids.drop_last()) + s.filter(of_entity(ids.last())).len()
    }
}

/// The histories of all entities, each counted once, have as many records as there are.
pub proof fn histories_add_up(s: Seq<RecordView>, ids: Seq<Seq<char>>)
    requires
        ids.no_duplicates(),
        forall|i: int| 0 <= i < s.len() ==> ids.contains((#[trigger] s[i]).entity_id),
    ensures
        history_total(s, ids) == s.len(),
    decreases s.len(),
{
    if s.len() == 0 {
        lemma_total_of_none(s, ids);
    } else {
        let before = s.drop_last();
        assert forall|i: int| 0 <= i < before.len() implies ids.contains(
            (#[trigger] before[i]).entity_id,
        ) by {
            assert(before[i] == s[i]);
        }
        histories_add_up(before, ids);
        assert(ids.contains(s[s.len() - 1].entity_id));
        lemma_total_of_one_more(s, ids);
    }
}

proof fn lemma_total_of_none(s: Seq<RecordView>, ids: Seq<Seq<char>>)
    requires
        s.len() == 0,
    ensures
        history_total(s, ids) == 0,
    decreases ids.len(),
{
    reveal(Seq::filter);
    if ids.len() > 0 {
        lemma_total_of_none(s, ids.drop_last());
    }
}

proof fn lemma_total_of_one_more(s: Seq<RecordView>, ids: Seq<Seq<char>>)
    requires
        s.len() > 0,
        ids.no_duplicates(),
    ensures
        history_total(s, ids) == history_total(s.drop_last(), ids) + if ids.contains(
            s.last().entity_id,
        ) {
            1nat
        } else {
            0nat
        },
    decreases ids.len(),
{
    reveal(Seq::filter);
    if ids.len() > 0 {
        let fewer = ids.drop_last();
        let id = s.last().entity_id;
        lemma_total_of_one_more(s, fewer);
        if fewer.contains(id) {
            let i = choose|i: int| 0 <= i < fewer.len() && fewer[i] == id;
            assert(ids[i] == id);
            assert(ids[ids.len() - 1] != id);
        } else if ids.contains(id) {
            let i = choose|i: int| 0 <= i < ids.len() && ids[i] == id;
            assert(i < fewer.len() ==> fewer[i] == id);
            assert(ids.last() == id);
        } else {
            assert(ids.contains(ids.last()));
        }
    }
}

/// What a query by valid time gives are the spans whose event happened within the range,
/// one by transaction time those that the system took within it, both ends included and
/// whatever the other time is.
pub proof fn ranges_give_their_spans(s: Seq<RecordView>, r: RecordView, start_ms: i64, end_ms: i64)
    ensures
        s.filter(event_within(start_ms, end_ms)).contains(r) <==> {
            &&& s.contains(r)
            &&& start_ms <= r.t_event
            &&& r.t_event <= end_ms
        },
        s.filter(system_within(start_ms, end_ms)).contains(r) <==> {
            &&& s.contains(r)
            &&& start_ms <= r.t_system
            &&& r.t_system <= end_ms
        },
        s.filter(of_entity(r.entity_id)).contains(r) <==> s.contains(r),
{
    crate::seqs::lemma_filter_holds(s, event_within(start_ms, end_ms), r);
    crate::seqs::lemma_filter_holds(s, system_within(start_ms, end_ms), r);
    crate::seqs::lemma_filter_holds(s, of_entity(r.entity_id), r);
}

/// A record is believed at a time exactly where the system had it by then and had no
/// later one of its entity: none with a later system time by then, and none behind it
/// with the same.
pub proof fn beliefs_are_the_latest(s: Seq<RecordView>, i: int, t: i64)
    requires
        0 <= i < s.len(),
    ensures
        is_belief(s, i, t) <==> s[i].t_system <= t && forall|j: int|
            #![trigger s[j]]
            0 <= j < s.len() && s[j].entity_id == s[i].entity_id && s[j].t_system <= t
                ==> s[j].t_system < s[i].t_system || (s[j].t_system == s[i].t_system && j <= i),
{
    if is_belief(s, i, t) {
        assert forall|j: int|
            #![trigger s[j]]
            0 <= j < s.len() && s[j].entity_id == s[i].entity_id && s[j].t_system
                <= t implies s[j].t_system < s[i].t_system || (s[j].t_system == s[i].t_system && j
            <= i) by {
            assert(not_later(s, j, i, t));
        }
    }
    if s[i].t_system <= t && forall|j: int|
        #![trigger s[j]]
        0 <= j < s.len() && s[j].entity_id == s[i].entity_id && s[j].t_system <= t
            ==> s[j].t_system < s[i].t_system || (s[j].t_system == s[i].t_system && j <= i) {
        assert forall|j: int| 0 <= j < s.len() implies #[trigger] not_later(s, j, i, t) by {
            assert(s[j].entity_id == s[j].entity_id);
        }
    }
}

/// Whether a record is among those that are believed at a time.
pub open spec fn believed(s: Seq<RecordView>, t: i64, r: RecordView) -> bool {
    exists|i: int| #[trigger] is_belief(s, i, t) && s[i] == r
}

/// The beliefs at a time are listed whole: a record that is believed is among them, and
/// each of them is one that is believed.
pub proof fn beliefs_are_listed(s: Seq<RecordView>, t: i64)
    ensures
        forall|i: int| is_belief(s, i, t) ==> beliefs(s, t).contains(#[trigger] s[i]),
        forall|k: int| 0 <= k < beliefs(s, t).len() ==> believed(s, t, #[trigger] beliefs(s, t)[k]),
{
    lemma_listed(s, t, s.len());
}

proof fn lemma_listed(s: Seq<RecordView>, t: i64, n: nat)
    requires
        n <= s.len(),
    ensures
        forall|i: int| 0 <= i < n && is_belief(s, i, t) ==> beliefs_upto(s, t, n).contains(
            #[trigger] s[i],
        ),
        forall|k: int|
            0 <= k < beliefs_upto(s, t, n).len() ==> believed(
                s,
                t,
                #[trigger] beliefs_upto(s, t, n)[k],
            ),
    decreases n,
{
    if n > 0 {
        let m = (n - 1) as nat;
        lemma_listed(s, t, m);
        let a = beliefs_upto(s, t, m);
        let b = beliefs_upto(s, t, n);
        assert forall|i: int| 0 <= i < n && is_belief(s, i, t) implies b.contains(
            #[trigger] s[i],
        ) by {
            if i < m {
                let k = choose|k: int| 0 <= k < a.len() && a[k] == s[i];
                assert(b[k] == s[i]);
            } else {
                assert(b[a.len() as int] == s[i]);
            }
        }
        assert forall|k: int| 0 <= k < b.len() implies believed(s, t, #[trigger] b[k]) by {
            if k < a.len() {
                assert(a[k] == b[k]);
            } else {
                assert(is_belief(s, n - 1, t) && s[n - 1] == b[k]);
            }
        }
    }
}

/// A record takes its entity from both ids of its span, its times from the attributes of
/// these names, and holds the span as it came. A time that is not given, or is no number,
/// counts as 0; of several, the first counts.
pub proof fn records_are_of_their_spans(s: OtlpSpanView, i: int, t: i64)
    requires
        0 <= i < s.attributes.len(),
        forall|k: int|
            0 <= k < i ==> (#[trigger] s.attributes[k]).0 != s.attributes[i].0,
        parsed_i64(s.attributes[i].1) == Some(t as int),
    ensures
        record_of(s).span == s,
        record_of(s).entity_id == s.trace_id + ":"@ + s.span_id,
        s.attributes[i].0 == "t_event"@ ==> record_of(s).t_event == t,
        s.attributes[i].0 == "t_system"@ ==> record_of(s).t_system == t,
{
    lemma_first_value(s.attributes, i);
}

proof fn lemma_first_value(a: AttributesView, i: int)
    requires
        0 <= i < a.len(),
        forall|k: int| 0 <= k < i ==> (#[trigger] a[k]).0 != a[i].0,
    ensures
        first_value(a, a[i].0) == Some(a[i].1),
    decreases i,
{
    if i > 0 {
        let t = a.skip(1);
        assert(a[0].0 != a[i].0);
        assert forall|k: int| 0 <= k < i - 1 implies (#[trigger] t[k]).0 != t[i - 1].0 by {
            assert(t[k] == a[k + 1]);
        }
        lemma_first_value(t, i - 1);
    }
}

/// Without an attribute of a name, the time of that name is 0.
pub proof fn missing_times_are_zero(a: AttributesView, key: Seq<char>)
    requires
        forall|k: int| 0 <= k < a.len() ==> (#[trigger] a[k]).0 != key,
    ensures
        time_attribute(a, key) == 0,
    decreases a.len(),
{
    if a.len() > 0 {
        let t = a.skip(1);
        assert(a[0].0 != key);
        assert forall|k: int| 0 <= k < t.len() implies (#[trigger] t[k]).0 != key by {
            assert(t[k] == a[k + 1]);
        }
        missing_times_are_zero(t, key);
    }
}

/// The spread of a record is its system time less its event time; records are counted by
/// its sign, each once, and their spreads are summed up one by one.
pub proof fn spreads_are_counted_by_sign(s: Seq<RecordView>, st: ReconciliationStats, r: RecordView)
    requires
        stats_of(st, s),
    ensures
        st.positive_spread + st.negative_spread + st.zero_spread == st.total_records,
        i64::MIN <= r.t_system - r.t_event <= i64::MAX ==> record_spread(r) == r.t_system
            - r.t_event,
        s.filter(delayed()).contains(r) <==> s.contains(r) && record_spread(r) > 0,
        s.filter(from_future()).contains(r) <==> s.contains(r) && record_spread(r) < 0,
        s.filter(real_time()).contains(r) <==> s.contains(r) && r.t_system == r.t_event,
        spread_sum(Seq::empty()) == 0,
        spread_sum(s.push(r)) == spread_sum(s) + record_spread(r),
{
    crate::seqs::lemma_filter_holds(s, delayed(), r);
    crate::seqs::lemma_filter_holds(s, from_future(), r);
    crate::seqs::lemma_filter_holds(s, real_time(), r);
    lemma_signs_add_up(s);
    assert(s.push(r).drop_last() =~= s);
}

proof fn lemma_signs_add_up(s: Seq<RecordView>)
    ensures
        s.filter(delayed()).len() + s.filter(from_future()).len() + s.filter(real_time()).len()
            == s.len(),
    decreases s.len(),
{
    reveal(Seq::filter);
    if s.len() > 0 {
        lemma_signs_add_up(s.drop_last());
    }
}

} // verus!
