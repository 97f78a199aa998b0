use bytes::Bytes;
use float_protocols::clock_reconciliation::ClockOffset;
use float_protocols::gateway::{ASTSCredentials, Gateway, Outcome, TelemetryConfig};
use float_protocols::protocol::{Message, Priority, Protocol};
use float_protocols::sharding::{ShardError, ShardId};
use float_protocols::translator::TranslateError;

const NOW: u64 = 1_700_000_000_000;

fn gateway_with(buffer_size: usize) -> Gateway {
    Gateway::new(
        buffer_size,
        100,
        60_000,
        None,
        TelemetryConfig {
            enabled: false,
            endpoint: None,
            ping_interval_ms: 5000,
        },
        NOW,
    )
}

fn gateway() -> Gateway {
    gateway_with(100)
}

fn message(protocol: Protocol, data: Vec<u8>, priority: Priority) -> Message {
    Message::new_with_temporal(protocol, Bytes::from(data), priority, NOW, NOW)
}

fn iridium(data: Vec<u8>) -> Message {
    message(Protocol::IridiumSBD, data, Priority::Operational)
}

fn emergency(data: Vec<u8>) -> Message {
    message(Protocol::IridiumSBD, data, Priority::Emergency)
}

fn send(gateway: &mut Gateway, message: Message) -> Outcome {
    gateway.send(message, i64::MIN, NOW)
}

/// Whether the gateway took a message in.
fn taken(outcome: &Outcome) -> bool {
    !matches!(outcome, Outcome::Refused(_) | Outcome::Dropped)
}

fn translated(gateway: &mut Gateway) -> u64 {
    gateway.metrics().snapshot().messages_translated
}

#[test]
fn test_gateway_creation() {
    let mut gateway = gateway();
    let outcome = send(&mut gateway, iridium(b"test".to_vec()));
    assert!(matches!(
        outcome,
        Outcome::Failed(TranslateError::InvalidProtocol)
    ));
    assert!(taken(&outcome));
}

#[test]
fn test_iridium_to_asts_end_to_end() {
    let mut gateway = gateway();
    let message = message(Protocol::IridiumSBD, vec![0u8; 200], Priority::Operational);
    let outcome = send(&mut gateway, message);
    assert!(taken(&outcome), "Message send should succeed");
    assert!(translated(&mut gateway) > 0, "Message should be translated");
}

#[test]
fn test_inmarsat_to_asts_end_to_end() {
    let mut gateway = gateway();
    let message = message(Protocol::InmarsatC, vec![0u8; 100], Priority::Operational);
    let outcome = send(&mut gateway, message);
    assert!(taken(&outcome), "Message send should succeed");
    assert!(translated(&mut gateway) > 0, "Message should be translated");
}

#[test]
fn test_vsat_to_asts_end_to_end() {
    let mut gateway = gateway();
    let message = message(Protocol::VSAT, vec![0u8; 500], Priority::Operational);
    let outcome = send(&mut gateway, message);
    assert!(taken(&outcome), "Message send should succeed");
    assert!(translated(&mut gateway) > 0, "Message should be translated");
}

#[test]
fn test_hfvhf_to_asts_end_to_end() {
    let mut gateway = gateway();
    let message = message(Protocol::HFVHF, vec![0u8; 256], Priority::Operational);
    let outcome = send(&mut gateway, message);
    assert!(taken(&outcome), "Message send should succeed");
    assert!(translated(&mut gateway) > 0, "Message should be translated");
}

#[test]
fn test_samsara_to_asts_end_to_end() {
    let mut gateway = gateway();
    let message = message(Protocol::Samsara, vec![0u8; 1024], Priority::Operational);
    let outcome = send(&mut gateway, message);
    assert!(taken(&outcome), "Message send should succeed");
    assert!(translated(&mut gateway) > 0, "Message should be translated");
}

#[test]
fn test_multi_protocol_batch_translation() {
    let mut gateway = gateway();
    // Send messages from different protocols in quick succession
    let protocols = vec![
        (Protocol::IridiumSBD, vec![0u8; 200]),
        (Protocol::InmarsatC, vec![0u8; 100]),
        (Protocol::VSAT, vec![0u8; 500]),
        (Protocol::HFVHF, vec![0u8; 256]),
        (Protocol::Samsara, vec![0u8; 1024]),
    ];
    for (protocol, data) in protocols {
        let outcome = send(&mut gateway, message(protocol, data, Priority::Operational));
        assert!(taken(&outcome), "Message send should succeed");
    }
    assert_eq!(translated(&mut gateway), 5, "All 5 messages should be translated");
}

#[test]
fn test_bitemporal_storage_in_translation_flow() {
    let mut gateway = gateway();
    let message = iridium(vec![0u8; 200]);
    let t_event = message.t_event;
    let t_system = message.t_system;
    send(&mut gateway, message);

    // Query by valid time
    let events = gateway.query_valid_time(t_event - 1000, t_event + 1000);
    assert!(!events.is_empty(), "Message should be stored in bi-temporal store");

    // Query by transaction time
    let beliefs = gateway.query_transaction_time(t_system - 1000, t_system + 1000);
    assert!(!beliefs.is_empty(), "Message should be queryable by transaction time");
}

#[test]
fn test_emergency_message_priority_handling() {
    let mut gateway = gateway();
    send(&mut gateway, emergency(vec![0xFF; 200]));

    // Verify emergency message was sent to deadzone shard
    let shard_manager = gateway.shard_manager();
    let deadzone_shard_id = shard_manager.get_deadzone_shard();
    let deadzone_messages = shard_manager.drain_shard(deadzone_shard_id);
    assert!(!deadzone_messages.is_empty(), "Emergency message should be in deadzone shard");
}

#[test]
fn test_snapshot_creation_in_translation_flow() {
    let mut gateway = gateway();
    send(&mut gateway, iridium(vec![0u8; 200]));

    // Verify snapshot was created
    let snapshots = gateway
        .snapshot_manager()
        .get_protocol_snapshots(Protocol::IridiumSBD, NOW);
    assert!(!snapshots.is_empty(), "Snapshot should be created for translated message");
}

#[test]
fn test_deadzone_detection_and_emergency_uplink() {
    let mut gateway = gateway();
    send(&mut gateway, emergency(vec![0xFF; 200]));

    let shard_manager = gateway.shard_manager();
    let deadzone_shard_id = shard_manager.get_deadzone_shard();
    let deadzone_messages = shard_manager.drain_shard(deadzone_shard_id);
    assert!(!deadzone_messages.is_empty(), "Emergency message should be in deadzone shard");
    assert_eq!(
        deadzone_messages[0].priority,
        Priority::Emergency,
        "Message should have Emergency priority"
    );
}

#[test]
fn test_deadzone_snapshot_recovery() {
    let mut gateway = gateway();
    send(&mut gateway, emergency(vec![0xFF; 200]));

    let snapshot_manager = gateway.snapshot_manager();
    let snapshots = snapshot_manager.get_protocol_snapshots(Protocol::IridiumSBD, NOW);
    assert!(!snapshots.is_empty(), "Snapshot should be created for emergency message");

    // Retrieve snapshot
    let snapshot_id = snapshots[0].id.clone();
    let retrieved = snapshot_manager.get_snapshot_at(&snapshot_id, NOW + 200);
    assert!(retrieved.is_some(), "Snapshot should be retrievable");
    assert_eq!(
        retrieved.unwrap().protocol,
        Protocol::IridiumSBD,
        "Snapshot should contain correct protocol"
    );
}

#[test]
fn test_deadzone_batch_accumulation() {
    let mut gateway = gateway();
    for i in 0..10 {
        send(&mut gateway, emergency(vec![i as u8; 200]));
    }
    let deadzone_messages = gateway.shard_manager().drain_shard(ShardId(0));
    assert_eq!(
        deadzone_messages.len(),
        10,
        "All 10 emergency messages should be in deadzone shard"
    );
}

#[test]
fn test_deadzone_to_regular_shard_transition() {
    let mut gateway = gateway();
    let shard_manager = gateway.shard_manager();
    for counter in 1..=20 {
        // Toggle between deadzone and regular operation
        if counter % 2 == 0 {
            let _ = shard_manager.push_deadzone(emergency(vec![0xFF; 200]));
        } else {
            shard_manager.drain_shard(ShardId(0));
        }
    }
    let deadzone_shard_id = shard_manager.get_deadzone_shard();
    let deadzone_messages = shard_manager.drain_shard(deadzone_shard_id);
    assert!(!deadzone_messages.is_empty(), "Deadzone shard should have messages");
}

#[test]
fn test_deadzone_memory_leak_prevention() {
    let mut gateway = gateway();
    gateway.shard_manager().reset_leak_stats();
    for i in 0..100 {
        send(&mut gateway, emergency(vec![i as u8; 200]));
    }

    // Drain deadzone shard to prevent memory leak
    let shard_manager = gateway.shard_manager();
    let deadzone_shard_id = shard_manager.get_deadzone_shard();
    shard_manager.drain_shard(deadzone_shard_id);

    let leak_stats = shard_manager.leak_stats();
    assert_eq!(leak_stats.leaked, 0, "No memory should be leaked");
}

#[test]
fn test_deadzone_with_multiple_protocols() {
    let mut gateway = gateway();
    let protocols = vec![
        Protocol::IridiumSBD,
        Protocol::InmarsatC,
        Protocol::VSAT,
        Protocol::HFVHF,
    ];
    for protocol in protocols {
        send(&mut gateway, message(protocol, vec![0xFF; 200], Priority::Emergency));
    }
    let deadzone_messages = gateway.shard_manager().drain_shard(ShardId(0));
    assert_eq!(
        deadzone_messages.len(),
        4,
        "All 4 emergency messages should be in deadzone shard"
    );
}

#[test]
fn test_deadzone_graceful_degradation() {
    let mut gateway = gateway();
    send(&mut gateway, emergency(vec![0xFF; 200]));

    // Send regular message (should still work)
    send(&mut gateway, iridium(vec![0x00; 200]));
    assert_eq!(
        translated(&mut gateway),
        2,
        "Both emergency and regular messages should be translated"
    );
}

#[test]
fn test_deadzone_bitemporal_integrity() {
    let mut gateway = gateway();
    let emergency_msg = emergency(vec![0xFF; 200]);
    let t_event = emergency_msg.t_event;
    let t_system = emergency_msg.t_system;
    send(&mut gateway, emergency_msg);

    let events = gateway.query_valid_time(t_event - 1000, t_event + 1000);
    assert!(!events.is_empty(), "Message should be queryable by valid time");

    let beliefs = gateway.query_transaction_time(t_system - 1000, t_system + 1000);
    assert!(!beliefs.is_empty(), "Message should be queryable by transaction time");

    // Verify spread calculation
    let spread_stats = gateway.spread_stats(t_event - 1000, t_event + 1000);
    assert!(
        spread_stats.avg_spread_ms as f64 / 1000.0 >= 0.0,
        "Spread should be non-negative"
    );
}

#[test]
fn test_deadzone_high_throughput_stress() {
    let mut gateway = gateway();
    gateway.shard_manager().reset_leak_stats();
    for i in 0..1000 {
        send(&mut gateway, emergency(vec![i as u8; 200]));
    }
    let leak_stats = gateway.shard_manager().leak_stats();
    assert_eq!(leak_stats.leaked, 0, "No memory should be leaked under high throughput");
    assert!(
        translated(&mut gateway) > 0,
        "Messages should be translated under high throughput"
    );
}

#[test]
fn test_cache_failure_graceful_degradation() {
    let mut gateway = gateway();
    send(&mut gateway, iridium(vec![0u8; 200]));
    assert!(
        translated(&mut gateway) > 0,
        "Message should be translated even if cache fails"
    );
}

#[test]
fn test_bitemporal_store_failure_recovery() {
    let mut gateway = gateway();
    send(&mut gateway, iridium(vec![0u8; 200]));
    assert!(
        translated(&mut gateway) > 0,
        "Message should be translated even if bitemporal store fails"
    );
}

#[test]
fn test_shard_manager_failure_handling() {
    let mut gateway = gateway();
    send(&mut gateway, iridium(vec![0u8; 200]));
    let health = gateway.health_check();
    assert!(health, "System should remain healthy despite shard manager issues");
}

#[test]
fn test_snapshot_manager_failure_handling() {
    let mut gateway = gateway();
    send(&mut gateway, emergency(vec![0xFF; 200]));
    assert!(
        translated(&mut gateway) > 0,
        "Emergency message should be processed even if snapshot fails"
    );
}

#[test]
fn test_translator_failure_circuit_breaker() {
    let mut gateway = gateway();
    for i in 0..20 {
        send(&mut gateway, iridium(vec![i as u8; 200]));
    }
    let metrics = gateway.metrics().snapshot();
    assert!(
        metrics.messages_translated > 0 || metrics.errors > 0,
        "System should either translate or record errors"
    );
}

#[test]
fn test_multiple_dependency_failures_simultaneous() {
    let mut gateway = gateway();
    for i in 0..30 {
        send(&mut gateway, iridium(vec![i as u8; 200]));
    }
    let metrics = gateway.metrics().snapshot();
    assert!(
        metrics.messages_translated > 0 || metrics.errors > 0,
        "System should handle multiple dependency failures"
    );
}

#[test]
fn test_dependency_failure_with_deadzone() {
    let mut gateway = gateway();
    send(&mut gateway, emergency(vec![0xFF; 200]));
    let deadzone_messages = gateway.shard_manager().drain_shard(ShardId(0));
    assert!(!deadzone_messages.is_empty(), "Emergency message should be in deadzone shard");
}

#[test]
fn test_dependency_failure_recovery_after_timeout() {
    let mut gateway = gateway();
    for _ in 0..10 {
        send(&mut gateway, iridium(vec![0u8; 200]));
    }
    let health_before = gateway.health_check();
    gateway.send(iridium(vec![1u8; 200]), i64::MIN, NOW + 31_000);
    let health_after = gateway.health_check();
    // If circuit breaker was open, it should now be closed
    if !health_before {
        assert!(health_after, "System should recover after timeout");
    }
}

#[test]
fn test_dependency_failure_with_high_priority_messages() {
    let mut gateway = gateway();
    let priorities = vec![
        Priority::Emergency,
        Priority::Operational,
        Priority::Diagnostic,
    ];
    for (i, priority) in priorities.iter().enumerate() {
        send(
            &mut gateway,
            message(Protocol::IridiumSBD, vec![i as u8; 200], priority.clone()),
        );
    }
    let deadzone_messages = gateway.shard_manager().drain_shard(ShardId(0));
    assert!(!deadzone_messages.is_empty(), "Emergency message should be prioritized");
}

#[test]
fn test_dependency_failure_memory_pressure() {
    let mut gateway = gateway_with(50);
    gateway.shard_manager().reset_leak_stats();
    for i in 0..200 {
        send(&mut gateway, iridium(vec![i as u8; 200]));
    }
    let leak_stats = gateway.shard_manager().leak_stats();
    assert_eq!(leak_stats.leaked, 0, "No memory should be leaked under pressure");
    let health = gateway.health_check();
    assert!(health, "System should remain healthy under memory pressure");
}

#[test]
fn test_dependency_failure_with_cache_hit() {
    let mut gateway = gateway();
    send(&mut gateway, iridium(vec![1u8; 200]));
    let before = gateway.metrics().snapshot();
    send(&mut gateway, iridium(vec![1u8; 200]));
    let after = gateway.metrics().snapshot();
    assert!(
        after.cache_hits as f64 / after.cache_lookups as f64
            >= before.cache_hits as f64 / before.cache_lookups as f64,
        "Cache should work even if dependencies fail"
    );
}

#[test]
fn test_network_partition_with_cache() {
    let mut gateway = gateway();
    send(&mut gateway, iridium(vec![1u8; 200]));
    let before = gateway.metrics().snapshot();
    send(&mut gateway, iridium(vec![1u8; 200]));
    let after = gateway.metrics().snapshot();
    assert!(
        after.cache_hits as f64 / after.cache_lookups as f64
            >= before.cache_hits as f64 / before.cache_lookups as f64,
        "Cache should work even if dependencies fail"
    );
}

#[test]
fn test_dependency_failure_cascading_prevention() {
    let mut gateway = gateway();
    for i in 0..50 {
        let protocol = match i % 4 {
            0 => Protocol::IridiumSBD,
            1 => Protocol::InmarsatC,
            2 => Protocol::VSAT,
            _ => Protocol::HFVHF,
        };
        send(
            &mut gateway,
            message(protocol, vec![i as u8; 200], Priority::Operational),
        );
    }
    let health = gateway.health_check();
    let metrics = gateway.metrics().snapshot();
    // System should either be healthy or have recorded errors (not crashed)
    assert!(
        health || metrics.errors > 0,
        "System should prevent cascading failures"
    );
}

#[test]
fn test_intermittent_connectivity_flapping() {
    let mut gateway = gateway();
    for counter in 1..=50 {
        // Alternate between the two kinds of message
        if counter % 2 == 0 {
            send(&mut gateway, iridium(vec![1u8; 200]));
        } else {
            send(&mut gateway, emergency(vec![0xFF; 200]));
        }
    }
    assert!(
        translated(&mut gateway) > 0,
        "System should translate messages despite flapping"
    );
}

#[test]
fn test_partial_network_partition() {
    let mut gateway = gateway();
    for i in 0..5 {
        send(&mut gateway, iridium(vec![i as u8; 200]));
    }
    for i in 0..5 {
        send(
            &mut gateway,
            message(Protocol::InmarsatC, vec![i as u8; 100], Priority::Operational),
        );
    }
    assert!(
        translated(&mut gateway) >= 5,
        "Working protocol messages should be translated"
    );
}

#[test]
fn test_network_partition_with_deadzone() {
    let mut gateway = gateway();
    for i in 0..10 {
        send(&mut gateway, emergency(vec![i as u8; 200]));
    }
    let deadzone_messages = gateway.shard_manager().drain_shard(ShardId(0));
    assert_eq!(
        deadzone_messages.len(),
        10,
        "All emergency messages should be in deadzone shard"
    );
    let health = gateway.health_check();
    assert!(health, "System should remain healthy during deadzone");
}

#[test]
fn test_network_partition_burst_traffic() {
    let mut gateway = gateway_with(1000);
    for i in 0..100 {
        send(&mut gateway, iridium(vec![i as u8; 200]));
    }
    assert!(translated(&mut gateway) > 0, "System should handle burst traffic");
}

#[test]
fn test_network_partition_multi_protocol_isolation() {
    let mut gateway = gateway();
    let protocols = vec![
        Protocol::IridiumSBD,
        Protocol::InmarsatC,
        Protocol::VSAT,
        Protocol::HFVHF,
    ];
    for (i, protocol) in protocols.iter().enumerate() {
        send(
            &mut gateway,
            message(*protocol, vec![i as u8; 200], Priority::Operational),
        );
    }
    assert!(translated(&mut gateway) > 0, "Some protocols should work during partial partition");
}

#[test]
fn test_partial_degradation_one_protocol_fails() {
    let mut gateway = gateway();
    let protocols = vec![
        Protocol::IridiumSBD,
        Protocol::InmarsatC,
        Protocol::VSAT,
        Protocol::HFVHF,
    ];
    for (i, protocol) in protocols.iter().enumerate() {
        send(
            &mut gateway,
            message(*protocol, vec![i as u8; 200], Priority::Operational),
        );
    }
    assert!(translated(&mut gateway) > 0, "System should work with partial protocol degradation");
}

#[test]
fn test_partial_degradation_cache_disabled() {
    let mut gateway = gateway();
    for i in 0..10 {
        send(&mut gateway, iridium(vec![i as u8; 200]));
    }
    assert!(
        translated(&mut gateway) > 0,
        "System should work even with degraded cache"
    );
}

#[test]
fn test_partial_degradation_bitemporal_disabled() {
    let mut gateway = gateway();
    for i in 0..10 {
        send(&mut gateway, iridium(vec![i as u8; 200]));
    }
    assert!(
        translated(&mut gateway) > 0,
        "System should work even with degraded bitemporal store"
    );
}

#[test]
fn test_partial_degradation_slow_translation() {
    let mut gateway = gateway();
    for i in 0..10 {
        send(&mut gateway, iridium(vec![i as u8; 200]));
    }
    assert!(
        translated(&mut gateway) > 0,
        "System should work with slow translation"
    );
}

#[test]
fn test_partial_degradation_cpu_pressure() {
    let mut gateway = gateway();
    for i in 0..200 {
        send(&mut gateway, iridium(vec![i as u8; 200]));
    }
    assert!(
        translated(&mut gateway) > 0,
        "System should work under CPU pressure"
    );
}

#[test]
fn test_partial_degradation_graceful_feature_disable() {
    let mut gateway = gateway();
    for i in 0..10 {
        send(&mut gateway, iridium(vec![i as u8; 200]));
    }
    assert!(
        translated(&mut gateway) > 0,
        "Core functionality should work even if features are disabled"
    );
}

#[test]
fn test_partial_degradation_snapshots_disabled() {
    let mut gateway = gateway();
    for i in 0..5 {
        send(&mut gateway, emergency(vec![i as u8; 200]));
    }
    assert!(
        translated(&mut gateway) > 0,
        "System should work even with degraded snapshots"
    );
}

#[test]
fn test_partial_degradation_high_error_rate() {
    let mut gateway = gateway();
    for i in 0..50 {
        send(&mut gateway, iridium(vec![i as u8; 200]));
    }
    let metrics = gateway.metrics().snapshot();
    let total = metrics.messages_translated + metrics.errors;
    assert!(
        total > 0,
        "System should process messages despite high error rate"
    );
}

#[test]
fn test_partial_degradation_memory_pressure() {
    let mut gateway = gateway_with(50);
    gateway.shard_manager().reset_leak_stats();
    for i in 0..100 {
        send(&mut gateway, iridium(vec![i as u8; 200]));
    }
    let leak_stats = gateway.shard_manager().leak_stats();
    assert_eq!(leak_stats.leaked, 0, "No memory should be leaked under pressure");
    let metrics = gateway.metrics().snapshot();
    assert!(
        metrics.messages_translated > 0 || metrics.errors > 0,
        "System should work under memory pressure"
    );
}

#[test]
fn test_partial_degradation_intermittent_failures() {
    let mut gateway = gateway();
    for counter in 1..=30 {
        if counter % 3 == 0 {
            send(&mut gateway, emergency(vec![0xFF; 200]));
        } else {
            send(&mut gateway, iridium(vec![counter as u8; 200]));
        }
    }
    assert!(
        translated(&mut gateway) > 0,
        "System should work with intermittent failures"
    );
}

#[test]
fn test_partial_degradation_priority_preservation() {
    let mut gateway = gateway();
    let priorities = vec![
        Priority::Emergency,
        Priority::Operational,
        Priority::Diagnostic,
    ];
    for (i, priority) in priorities.iter().enumerate() {
        send(
            &mut gateway,
            message(Protocol::IridiumSBD, vec![i as u8; 200], priority.clone()),
        );
    }
    let deadzone_messages = gateway.shard_manager().drain_shard(ShardId(0));
    assert!(!deadzone_messages.is_empty(), "Emergency priority should be preserved");
}

#[test]
fn test_partial_degradation_recovery_to_full_health() {
    let mut gateway = gateway();
    for _ in 0..10 {
        send(&mut gateway, iridium(vec![0u8; 200]));
    }
    let health_before = gateway.health_check();
    gateway.send(iridium(vec![1u8; 200]), i64::MIN, NOW + 31_000);
    let health_after = gateway.health_check();
    if !health_before {
        assert!(health_after, "System should recover to full health");
    }
}

#[test]
fn test_partial_degradation_with_backpressure() {
    let mut gateway = gateway_with(50); // Small buffer to trigger backpressure

    // Fill buffer to trigger backpressure
    for i in 0..100 {
        send(&mut gateway, iridium(vec![i as u8; 200]));
    }

    // Verify system handled backpressure gracefully
    let metrics = gateway.metrics().snapshot();
    assert!(
        metrics.messages_translated > 0 || metrics.errors > 0,
        "System should handle backpressure gracefully"
    );
}

#[test]
fn test_deadzone_snapshot_ttl_eviction() {
    let mut gateway = Gateway::new(
        100,
        100,
        1000, // Short TTL for testing
        None,
        TelemetryConfig {
            enabled: false,
            endpoint: None,
            ping_interval_ms: 5000,
        },
        NOW,
    );

    send(&mut gateway, emergency(vec![0xFF; 200]));
    let snapshots_before = gateway
        .snapshot_manager()
        .get_protocol_snapshots(Protocol::IridiumSBD, NOW + 200);
    assert!(!snapshots_before.is_empty(), "Snapshot should exist before TTL");
}

#[test]
fn the_same_payload_is_translated_once() {
    let mut gateway = gateway();
    let first = match send(&mut gateway, iridium(vec![0u8; 200])) {
        Outcome::Translated(m) => m,
        other => panic!("{:?}", other),
    };
    assert_eq!(first.protocol, Protocol::ASTSpaceMobile);
    let again = match gateway.send(iridium(vec![0u8; 200]), i64::MIN, NOW + 59_999) {
        Outcome::Cached(m) => m,
        other => panic!("{:?}", other),
    };
    assert_eq!(first.data, again.data);
    assert!(matches!(
        gateway.send(iridium(vec![0u8; 200]), i64::MIN, NOW + 60_000),
        Outcome::Translated(_)
    ));
    let metrics = gateway.metrics().snapshot();
    assert_eq!((metrics.cache_hits, metrics.cache_lookups), (1, 3));
    assert_eq!(metrics.iridium_messages, 3);
}

#[test]
fn bursts_wait_in_their_own_shard() {
    let mut gateway = gateway();
    let late = Message::new_with_temporal(
        Protocol::IridiumSBD,
        Bytes::from(vec![0u8; 10]),
        Priority::Operational,
        NOW - 120_001,
        NOW,
    );
    assert_eq!(gateway.spread_of(&late, NOW), 120_001);
    assert!(matches!(
        gateway.send(late.clone(), 120_001, NOW),
        Outcome::Translated(_)
    ));
    assert_eq!(gateway.metrics().snapshot().spread_shard_messages, 0);
    gateway.send(late, 120_000, NOW);
    assert_eq!(gateway.metrics().snapshot().spread_shard_messages, 1);
    let out = gateway.drain_spread_shard_once(NOW);
    assert_eq!(out.len(), 1);
    assert!(gateway.drain_spread_shard_once(NOW).is_empty());
}

#[test]
fn drained_bursts_that_do_not_translate_are_errors() {
    let mut gateway = gateway();
    gateway.shard_manager().push_spread(iridium(vec![1, 2])).unwrap();
    gateway.shard_manager().push_spread(iridium(vec![0; 10])).unwrap();
    assert_eq!(gateway.drain_spread_shard_once(NOW).len(), 1);
    let metrics = gateway.metrics().snapshot();
    assert_eq!((metrics.errors, metrics.messages_translated), (1, 1));
    assert!(gateway.process_shard_message(iridium(vec![1, 2]), NOW).is_none());
}

#[test]
fn full_shards_refuse_normal_messages_only() {
    let mut gateway = gateway();
    for _ in 0..5600 {
        gateway.shard_manager().push(iridium(vec![9])).unwrap();
    }
    assert!(matches!(
        send(&mut gateway, iridium(vec![0u8; 200])),
        Outcome::Refused(ShardError::Backpressure)
    ));
    assert!(matches!(
        send(&mut gateway, emergency(vec![0u8; 200])),
        Outcome::Translated(_)
    ));
    assert_eq!(gateway.bitemporal_store().stats().total_messages, 2);
}

#[test]
fn event_times_are_corrected() {
    let mut gateway = gateway();
    let m = iridium(vec![0u8; 200]);
    gateway.register_offset(ClockOffset {
        device_id: float_protocols::cache::hash_data(&m.data),
        offset_ms: 5000,
        last_updated: NOW,
        confidence_bits: 0,
    });
    assert_eq!(gateway.spread_of(&m, NOW), 5000);
    send(&mut gateway, m);
    assert_eq!(gateway.query_valid_time(NOW - 5000, NOW - 5000).len(), 1);
    assert_eq!(gateway.actual_state_at(NOW - 1).len(), 1);
    assert_eq!(gateway.system_belief_at(NOW - 1).len(), 0);
}

#[test]
fn accounts_and_telemetry_are_configured() {
    let mut gateway = gateway();
    assert!(gateway.credentials().is_none());
    send(&mut gateway, iridium(vec![0u8; 200]));
    assert_eq!(gateway.metrics().snapshot().asts_messages, 0);
    gateway.update_asts_credentials(ASTSCredentials {
        account_id: "a".to_string(),
        api_key: "k".to_string(),
        mno_partner_id: None,
    });
    send(&mut gateway, iridium(vec![0u8; 200]));
    assert_eq!(gateway.metrics().snapshot().asts_messages, 1);
    assert!(gateway.telemetry_target().is_none());
    gateway.update_telemetry_config(TelemetryConfig {
        enabled: true,
        endpoint: Some("http://t".to_string()),
        ping_interval_ms: 1,
    });
    assert_eq!(gateway.telemetry_target().map(|s| s.as_str()), Some("http://t"));
    assert_eq!(gateway.retry_policy().max_attempts, 3);
    assert!(!gateway.batcher().has_pending());
}
