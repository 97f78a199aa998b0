use bytes::Bytes;
use float_protocols::batcher::AsyncBatcher;
use float_protocols::bitemporal::{BiTemporalQuery, BiTemporalStore, QueryTime};
use float_protocols::cache::{hash_data, AsyncCache};
use float_protocols::cadence_translation::{
    CadenceRule, CadenceTransformation, CadenceTranslator, MessageCadence, TranslationAction,
};
use float_protocols::clock_reconciliation::{ClockOffset, ClockReconciler, NetworkTimeSource};
use float_protocols::metrics::Metrics;
use float_protocols::protocol::{Message, Priority, Protocol};
use float_protocols::reliability::{
    elapsed_since_startup, CircuitBreaker, CircuitBreakerError, CircuitState, HealthChecker,
    RetryPolicy,
};
use float_protocols::snapshot::{fnv1a, SnapshotManager, FNV_BASIS};
use float_protocols::transmission_batcher::TransmissionBatcher;

fn at(t_event: u64, t_system: u64, data: &[u8], priority: Priority) -> Message {
    Message::new_with_temporal(
        Protocol::IridiumSBD,
        Bytes::copy_from_slice(data),
        priority,
        t_event,
        t_system,
    )
}

#[test]
fn test_emergency_bypass() {
    let mut batcher = AsyncBatcher::new(10, 100, 100, 0);

    let emergency_msg = Message::new(
        Protocol::IridiumSBD,
        Bytes::from(&b"emergency"[..]),
        Priority::Emergency,
    );

    // Emergency messages should be sent immediately
    let batch = batcher.send(emergency_msg, 1).unwrap();
    assert_eq!(batch.len(), 1);
    assert_eq!(&batch[0].data[..], b"emergency");
    assert!(!batcher.has_pending());
}

#[test]
fn batches_fill_up_or_time_out() {
    let mut batcher = AsyncBatcher::new(3, 100, 10, 0);
    assert!(batcher.send(at(0, 0, b"a", Priority::Operational), 1).is_none());
    assert!(batcher.send(at(0, 0, b"b", Priority::Operational), 2).is_none());
    let full = batcher.send(at(0, 0, b"c", Priority::Operational), 3).unwrap();
    assert_eq!(full.len(), 3);
    assert!(batcher.send(at(0, 0, b"d", Priority::Operational), 4).is_none());
    assert!(batcher.has_pending());
    let late = batcher.on_timeout(batcher.deadline()).unwrap();
    assert_eq!(late.len(), 1);
    assert_eq!(batcher.buffer_size(), 10);
}

#[test]
fn a_stale_message_flushes_its_batch() {
    let mut batcher = AsyncBatcher::new_with_spread_threshold(10, 100, 10, 1000, 0);
    assert!(batcher.send(at(0, 1000, b"a", Priority::Operational), 1).is_none());
    let out = batcher.send(at(0, 1001, b"b", Priority::Operational), 2).unwrap();
    assert_eq!(out.len(), 2);
}

#[test]
fn transmission_batches_close_with_what_is_left() {
    let mut batcher = TransmissionBatcher::new(2, 50, 5, 0);
    assert!(batcher.enqueue(at(0, 0, b"a", Priority::Operational), 1).is_none());
    assert_eq!(
        batcher.enqueue(at(0, 0, b"b", Priority::Operational), 2).unwrap().len(),
        2
    );
    assert!(batcher.enqueue(at(0, 0, b"c", Priority::Operational), 3).is_none());
    assert_eq!(batcher.close().unwrap().len(), 1);
}

#[test]
fn test_cache_get_set() {
    let mut cache = AsyncCache::new(100, 60_000);
    let message = Message::new(
        Protocol::IridiumSBD,
        Bytes::from(&b"test data"[..]),
        Priority::Operational,
    );
    cache.set(
        Protocol::IridiumSBD,
        &Bytes::from(&b"test data"[..]),
        message.clone(),
    );
    // No t_event in get: the key is protocol and payload hash only
    let cached = cache.get(Protocol::IridiumSBD, &Bytes::from(&b"test data"[..]));
    assert!(cached.is_some());
}

#[test]
fn test_cache_ttl() {
    let mut cache = AsyncCache::new(100, 100);
    let message = Message::new(
        Protocol::IridiumSBD,
        Bytes::from(&b"test data"[..]),
        Priority::Operational,
    );
    let data = Bytes::from(&b"test data"[..]);
    cache.set_at(Protocol::IridiumSBD, &data, message, 1000);
    assert!(cache.get_at(Protocol::IridiumSBD, &data, 1099).is_some());
    let cached = cache.get_at(Protocol::IridiumSBD, &data, 1150);
    assert!(cached.is_none());
}

#[test]
fn test_get_batch_hit_and_miss() {
    let mut cache = AsyncCache::new(100, 60_000);
    let msg = Message::new(
        Protocol::IridiumSBD,
        Bytes::from(&b"batchkey"[..]),
        Priority::Operational,
    );
    cache.set_at(Protocol::IridiumSBD, &Bytes::from(&b"batchkey"[..]), msg, 5);
    let results = cache.get_batch(
        &[(Protocol::IridiumSBD, &Bytes::from(&b"batchkey"[..]))],
        6,
    );
    assert!(results[0].is_some(), "should hit");
    let miss = cache.get_batch(
        &[(Protocol::InmarsatC, &Bytes::from(&b"batchkey"[..]))],
        6,
    );
    assert!(miss[0].is_none(), "different protocol is a miss");
}

#[test]
fn test_eviction_order_o1() {
    let mut cache = AsyncCache::new(2, 60_000);
    let mk = |n: u8| Bytes::from(vec![n]);
    let msg = |n: u8| Message::new(Protocol::IridiumSBD, mk(n), Priority::Operational);
    cache.set(Protocol::IridiumSBD, &mk(1), msg(1));
    cache.set(Protocol::IridiumSBD, &mk(2), msg(2));
    cache.set(Protocol::IridiumSBD, &mk(3), msg(3)); // evicts key 1
    assert!(
        cache.get(Protocol::IridiumSBD, &mk(1)).is_none(),
        "key 1 evicted"
    );
    assert!(
        cache.get(Protocol::IridiumSBD, &mk(3)).is_some(),
        "key 3 present"
    );
}

#[test]
fn cache_invalidation_is_by_protocol_and_time() {
    let mut cache = AsyncCache::new(10, 1000);
    let mk = |n: u8| Bytes::from(vec![n]);
    for n in 0..4u8 {
        let m = Message::new_with_temporal(
            Protocol::VSAT,
            mk(n),
            Priority::Operational,
            n as u64 * 100,
            500,
        );
        cache.set_at(Protocol::VSAT, &mk(n), m, 0);
    }
    cache.invalidate_protocol_time_range(Protocol::VSAT, 100, 200);
    assert_eq!(cache.stats(1).total_entries, 2);
    assert!(cache.get_at(Protocol::VSAT, &mk(1), 1).is_none());
    assert!(cache.get_at(Protocol::VSAT, &mk(3), 1).is_some());
    cache.invalidate_protocol(Protocol::InmarsatC);
    assert_eq!(cache.stats(1).total_entries, 2);
    cache.invalidate_protocol(Protocol::VSAT);
    assert_eq!(cache.stats(1).total_entries, 0);
    cache.clear();
    assert_eq!(cache.stats(1).max_entries, 10);
}

#[test]
fn payloads_are_hashed_by_djb2() {
    assert_eq!(hash_data(b""), 5381);
    assert_eq!(hash_data(b"a"), 5381 * 33 + 97);
}

#[test]
fn test_cadence_translation() {
    let mut translator = CadenceTranslator::new();
    translator.add_rule(CadenceRule {
        source_protocol: Protocol::IridiumSBD,
        source_cadence: MessageCadence::OncePerHour,
        target_protocol: Protocol::ASTSpaceMobile,
        target_cadence: MessageCadence::Every5Seconds,
        message_type: "heartbeat".to_string(),
        transformation: CadenceTransformation::Throttle {
            target_interval_ms: 5000,
        },
    });

    let action =
        translator.translate_message("heartbeat", Protocol::IridiumSBD, Priority::Operational);
    assert!(matches!(action, TranslationAction::Send));
}

#[test]
fn test_emergency_passthrough() {
    let mut translator = CadenceTranslator::new();

    let action =
        translator.translate_message("heartbeat", Protocol::IridiumSBD, Priority::Emergency);
    assert!(matches!(action, TranslationAction::Send));
}

#[test]
fn test_default_rules() {
    let rules = CadenceTranslator::default_iridium_to_asts_rules();
    assert_eq!(rules.len(), 4);
}

#[test]
fn throttled_messages_keep_their_distance() {
    let mut translator = CadenceTranslator::new();
    for rule in CadenceTranslator::default_iridium_to_asts_rules() {
        translator.add_rule(rule);
    }
    let p = Protocol::IridiumSBD;
    let o = Priority::Operational;
    assert_eq!(translator.translate_message_at("location", p, o, 50), TranslationAction::Send);
    assert_eq!(translator.translate_message_at("location", p, o, 10_049), TranslationAction::Drop);
    assert_eq!(translator.translate_message_at("location", p, o, 10_050), TranslationAction::Send);
    assert_eq!(
        translator.translate_message_at("heartbeat", p, o, 0),
        TranslationAction::Duplicate { count: 720 }
    );
    assert_eq!(
        translator.translate_message_at("location", Protocol::VSAT, o, 10_051),
        TranslationAction::Send
    );
    assert_eq!(
        translator.get_target_cadence("telemetry", p),
        Some(MessageCadence::OncePerSecond)
    );
    assert_eq!(translator.get_target_cadence("unknown", p), None);
    assert_eq!(translator.stats().total_rules, 4);
    assert_eq!(translator.stats().active_rate_limiters, 1);
    assert_eq!(MessageCadence::OncePerHour.to_duration(), 3_600_000);
    assert_eq!(MessageCadence::Custom(7).to_duration(), 7);
}

#[test]
fn test_clock_reconciliation() {
    let mut reconciler = ClockReconciler::new(10, 300_000, NetworkTimeSource::LocalClock);

    // Device clock is 1000ms ahead of network time
    let offset = ClockOffset::new(1, 1000, 0.9f64.to_bits());
    reconciler.register_offset(offset);

    // Reconcile device timestamp
    let device_time = 10000;
    let network_time = reconciler.reconcile(1, device_time).unwrap();

    // network_time = device_time - offset = 10000 - 1000 = 9000
    assert_eq!(network_time, 9000);
}

#[test]
fn test_confidence_filtering() {
    let mut reconciler = ClockReconciler::new(10, 300_000, NetworkTimeSource::LocalClock);

    let offset = ClockOffset::new(1, 1000, 0.5f64.to_bits()); // Low confidence
    reconciler.register_offset(offset);

    let device_time = 10000;
    let result = reconciler.reconcile_with_confidence(1, device_time, 0.8f64.to_bits());

    // Should return None due to low confidence
    assert!(result.is_none());
}

#[test]
fn clock_offsets_go_stale_and_give_way() {
    let mut reconciler = ClockReconciler::new(2, 100, NetworkTimeSource::GPS);
    let o = |device_id: u64, offset_ms: i64, last_updated: u64| ClockOffset {
        device_id,
        offset_ms,
        last_updated,
        confidence_bits: 1.0f64.to_bits(),
    };
    reconciler.register_offset(o(1, 10, 0));
    reconciler.register_offset(o(2, -20, 50));
    reconciler.register_offset(o(3, 30, 60));
    assert!(reconciler.get_offset_at(1, 60).is_none());
    assert_eq!(reconciler.reconcile_at(2, 100, 150), Some(120));
    assert_eq!(reconciler.reconcile_at(2, 100, 151), None);
    assert_eq!(reconciler.reconcile_at(3, 29, 60), None);
    let stats = reconciler.stats(151);
    assert_eq!((stats.total_offsets, stats.stale_offsets, stats.avg_offset_ms), (2, 1, 5));
    reconciler.update_offsets(151);
    assert_eq!(reconciler.stats(151).total_offsets, 1);
    assert_eq!(ClockReconciler::calculate_offset(1, 10, 25), -15);
}

#[test]
fn network_times_are_signed() {
    let mut reconciler = ClockReconciler::new(4, 100, NetworkTimeSource::NTP);
    reconciler.register_offset(ClockOffset::new_at(1, 0, 1.0f64.to_bits(), 7));
    reconciler.register_offset(ClockOffset::new_at(2, 10, 1.0f64.to_bits(), 7));
    let last = i64::MAX as u64;
    assert_eq!(reconciler.reconcile_at(1, last, 7), Some(last));
    assert_eq!(reconciler.reconcile_at(1, last + 1, 7), None);
    assert_eq!(reconciler.reconcile_at(1, u64::MAX, 7), None);
    assert_eq!(reconciler.reconcile_at(2, 9, 7), None);
    assert_eq!(reconciler.reconcile_at(2, 10, 7), Some(0));
    assert_eq!(reconciler.get_network_time_at(123), 123);
    assert_eq!(ClockOffset::new_at(1, -2, 3, 4).last_updated, 4);
}

#[test]
fn confidences_compare_as_numbers() {
    let mut reconciler = ClockReconciler::new(2, 100, NetworkTimeSource::GPS);
    reconciler.register_offset(ClockOffset {
        device_id: 1,
        offset_ms: 10,
        last_updated: 0,
        confidence_bits: 0.0f64.to_bits(),
    });
    let with = |minimum: f64| reconciler.reconcile_with_confidence_at(1, 25, minimum.to_bits(), 0);
    assert_eq!(with(0.0), Some(15));
    assert_eq!(with(-0.0), Some(15));
    assert_eq!(with(-0.5), Some(15));
    assert_eq!(with(f64::NEG_INFINITY), Some(15));
    assert_eq!(with(f64::NAN), Some(15));
    assert_eq!(with(-f64::NAN), Some(15));
    assert_eq!(with(f64::MIN_POSITIVE), None);
    assert_eq!(with(f64::INFINITY), None);
}

#[test]
fn latencies_are_averaged() {
    let mut metrics = Metrics::new();
    assert_eq!(metrics.snapshot().avg_latency_ms, 0);
    let mut sum = 0;
    for k in 1..=50u64 {
        metrics.record_latency(k * k);
        sum += k * k;
        assert_eq!(metrics.snapshot().avg_latency_ms, sum / k);
    }
    assert_eq!(metrics.snapshot().messages_translated, 0);
}

#[test]
fn the_breaker_opens_and_recovers() {
    let mut breaker = CircuitBreaker::new(2, 100);
    assert!(!breaker.is_open(0));
    assert!(matches!(
        breaker.call::<(), &str>(Err("down"), 1),
        Err(CircuitBreakerError::Inner("down"))
    ));
    assert_eq!(breaker.state(), CircuitState::Closed);
    breaker.on_failure(2);
    assert_eq!(breaker.state(), CircuitState::Open);
    assert!(breaker.is_open(102));
    assert!(!breaker.is_open(103));
    assert_eq!(breaker.state(), CircuitState::HalfOpen);
    assert!(matches!(breaker.call::<i32, ()>(Ok(5), 103), Ok(5)));
    assert_eq!(breaker.state(), CircuitState::Closed);
}

#[test]
fn retries_double_up_to_a_limit() {
    let policy = RetryPolicy::new(12, 100);
    let mut state = policy.start();
    let mut pauses = Vec::new();
    while let Some(pause) = policy.execute(&mut state) {
        pauses.push(pause);
    }
    assert_eq!(
        pauses,
        vec![100, 200, 400, 800, 1600, 3200, 6400, 12800, 25600, 30000, 30000]
    );
}

#[test]
fn health_lasts_two_intervals() {
    let mut health = HealthChecker::new(10);
    assert!(!health.is_healthy(5));
    health.record(true, 100);
    health.record(false, 110);
    assert_eq!(health.last_check_time(), Some(100));
    assert!(health.is_healthy(119));
    assert!(!health.is_healthy(120));
    assert_eq!(elapsed_since_startup(0, 9), 0);
    assert_eq!(elapsed_since_startup(4, 9), 5);
}

#[test]
fn metrics_add_up() {
    let mut metrics = Metrics::default();
    metrics.record_cache_hit();
    metrics.record_cache_miss();
    metrics.record_cache_miss();
    metrics.record_latency(10);
    metrics.record_latency(5);
    metrics.increment_batched(7);
    metrics.record_error();
    metrics.record_protocol(Protocol::VSAT);
    metrics.record_protocol(Protocol::ASTSpaceMobile);
    let s = metrics.snapshot();
    assert_eq!((s.cache_hits, s.cache_lookups), (1, 3));
    assert_eq!(s.avg_latency_ms, 7);
    assert_eq!((s.messages_batched, s.errors), (7, 1));
    assert_eq!((s.vsat_messages, s.asts_messages, s.iridium_messages), (1, 1, 0));
}

#[test]
fn snapshot_ids_are_stable() {
    assert_eq!(fnv1a(FNV_BASIS, b""), 0xcbf29ce484222325);
    assert_eq!(fnv1a(FNV_BASIS, b"a"), 0xaf63dc4c8601ec8c);
    assert_eq!(fnv1a(FNV_BASIS, b"foobar"), 0x85944171f73967e8);
    let mut a = SnapshotManager::new(5, 100);
    let mut b = SnapshotManager::new(5, 100);
    let id = a.create_snapshot_at(
        vec![at(1, 2, b"x", Priority::Operational)],
        Protocol::VSAT,
        10,
    );
    let again = b.create_snapshot_at(
        vec![at(3, 4, b"x", Priority::Emergency)],
        Protocol::VSAT,
        20,
    );
    assert_eq!(id, again);
    assert!(id.starts_with("snap_VSAT_"));
    assert_eq!(a.get_snapshot_at(&id, 110).unwrap().size_bytes, 1);
    assert!(a.get_snapshot_at(&id, 111).is_none());
}

#[test]
fn the_oldest_snapshot_leaves() {
    let mut pool = SnapshotManager::new(2, 100);
    let first = pool.create_snapshot_at(vec![at(0, 0, b"a", Priority::Operational)], Protocol::VSAT, 2);
    let second = pool.create_snapshot_at(vec![at(0, 0, b"b", Priority::Operational)], Protocol::VSAT, 1);
    let third = pool.create_snapshot_at(vec![at(0, 0, b"c", Priority::Operational)], Protocol::HFVHF, 3);
    assert!(pool.get_snapshot_at(&second, 3).is_none());
    assert!(pool.get_snapshot_at(&first, 3).is_some());
    assert_eq!(pool.get_protocol_snapshots(Protocol::VSAT, 3).len(), 1);
    assert_eq!(pool.get_protocol_snapshots(Protocol::VSAT, 102).len(), 0);
    let stats = pool.stats(102);
    assert_eq!((stats.total_snapshots, stats.valid_snapshots, stats.total_size_bytes), (2, 1, 2));
    pool.clear_expired(102);
    assert_eq!(pool.stats(102).total_snapshots, 1);
    assert!(pool.delete_snapshot(&third));
    assert!(!pool.delete_snapshot(&third));
}

#[test]
fn the_store_answers_both_questions() {
    let mut store = BiTemporalStore::new(3);
    store.store(at(10, 100, b"a", Priority::Operational));
    store.store(at(20, 90, b"b", Priority::Operational));
    store.store(at(30, 30, b"c", Priority::Operational));
    assert_eq!(store.query_valid_time(10, 20).len(), 2);
    assert_eq!(store.query_transaction_time(30, 90).len(), 2);
    let q = BiTemporalQuery::new(QueryTime::ValidTime, 0, 50)
        .with_protocol(Protocol::IridiumSBD)
        .with_max_spread(70);
    assert_eq!(store.query(q).len(), 2);
    assert_eq!(store.system_belief_at(90).len(), 2);
    assert_eq!(store.actual_state_at(20).len(), 2);
    let stats = store.spread_stats(0, 200);
    assert_eq!(
        (stats.message_count, stats.min_spread_ms, stats.max_spread_ms, stats.avg_spread_ms),
        (3, 0, 90, 53)
    );
    store.store(at(40, 40, b"d", Priority::Operational));
    assert_eq!(store.stats().total_messages, 3);
    assert!(store.query_valid_time(10, 10).is_empty());
}
