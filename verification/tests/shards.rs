use bytes::Bytes;
use float_protocols::protocol::{Message, Priority, Protocol};
use float_protocols::sharding::{MemoryShard, ShardError, ShardId, ShardManager, ShardWorker};

fn message(data: Vec<u8>) -> Message {
    Message::new(Protocol::InmarsatC, Bytes::from(data), Priority::Operational)
}

#[test]
fn test_asts_toggle_stress() {
    let mut shard_manager = ShardManager::new(8, 1000, 0);
    shard_manager.reset_leak_stats();

    // The uplink goes up and down
    let mut uplink_active = true;
    for _ in 0..200 {
        uplink_active = !uplink_active;

        if uplink_active {
            // Uplink active: drain deadzone shard
            shard_manager.drain_shard(ShardId(0));
        } else {
            // Uplink down: push to deadzone shard
            let msg = Message::new(
                Protocol::InmarsatC,
                Bytes::from(&b"deadzone"[..]),
                Priority::Emergency,
            );
            let _ = shard_manager.push_deadzone(msg);
        }
    }

    // Check leak stats
    let leak_stats = shard_manager.leak_stats();
    assert_eq!(leak_stats.leaked, 0, "Memory leaked during ASTS toggle");
}

#[test]
fn test_5000_concurrent_writes() {
    let mut shard_manager = ShardManager::new(8, 1000, 0);
    shard_manager.reset_leak_stats();

    for i in 0..5000 {
        let msg = Message::new(
            Protocol::InmarsatC,
            Bytes::from(format!("packet_{}", i)),
            Priority::Operational,
        );
        let _ = shard_manager.push(msg);
    }

    // Validate no leaks
    let leak_stats = shard_manager.leak_stats();
    assert_eq!(leak_stats.leaked, 0, "Memory leaked during concurrent writes");

    // Validate all messages accounted for
    let stats = shard_manager.stats();
    let expected_messages = leak_stats.allocated - leak_stats.dropped;
    assert_eq!(stats.total_messages as u64, expected_messages);
}

#[test]
fn test_backpressure_under_load() {
    let mut shard_manager = ShardManager::new(2, 100, 0); // Small shards to trigger backpressure
    shard_manager.reset_leak_stats();

    // Fill shards to >80% utilization
    for i in 0..200 {
        let msg = Message::new(
            Protocol::InmarsatC,
            Bytes::from(format!("fill_{}", i)),
            Priority::Operational,
        );
        let _ = shard_manager.push(msg);
    }

    // Now try to push more - should hit backpressure
    let mut backpressure_count = 0;
    for i in 0..100 {
        let msg = Message::new(
            Protocol::InmarsatC,
            Bytes::from(format!("overflow_{}", i)),
            Priority::Operational,
        );
        if let Err(_) = shard_manager.push(msg) {
            backpressure_count += 1;
        }
    }

    // Some pushes should be rejected due to backpressure
    assert!(backpressure_count > 0, "Backpressure not triggered under load");

    let leak_stats = shard_manager.leak_stats();
    assert!(
        leak_stats.dropped > 0,
        "Messages should have been dropped due to backpressure"
    );
}

#[test]
fn backpressure_comes_at_four_fifths() {
    let mut shards = ShardManager::new(3, 5, 0);
    for n in 0..8u8 {
        assert_eq!(shards.push(message(vec![n])), Ok(ShardId(1 + n as u64 % 2)));
    }
    assert_eq!(shards.push(message(vec![8])), Err(ShardError::Backpressure));
    assert_eq!(shards.stats().total_messages, 8);
    let drained = shards.drain_shard(ShardId(1));
    let first: Vec<u8> = drained.iter().map(|m| m.data[0]).collect();
    assert_eq!(first, vec![0, 2, 4, 6]);
    assert!(shards.push(message(vec![9])).is_ok());
}

#[test]
fn reserved_shards_fill_up() {
    let mut shards = ShardManager::new(2, 2, 0);
    for _ in 0..2 {
        assert_eq!(shards.push_deadzone(message(vec![1])), Ok(ShardId(0)));
        assert_eq!(shards.push_spread(message(vec![2])), Ok(ShardId(2)));
    }
    assert_eq!(shards.push_deadzone(message(vec![1])), Err(ShardError::Full));
    assert_eq!(shards.push_spread(message(vec![2])), Err(ShardError::Full));
    assert_eq!(shards.get_deadzone_shard(), ShardId(0));
    assert_eq!(shards.get_spread_shard(), ShardId(2));
    assert_eq!(shards.drain_shard(ShardId(2)).len(), 2);
    assert!(shards.drain_shard(ShardId(9)).is_empty());
    assert_eq!(shards.leak_stats().leaked, 0);
}

#[test]
fn closed_shards_take_nothing_but_are_drained() {
    let mut shards = ShardManager::new(2, 10, 100);
    assert!(shards.push(message(vec![7])).is_ok());
    shards.evict_idle(50, 149);
    assert_eq!(shards.stats().total_shards, 3);
    shards.evict_idle(50, 150);
    assert_eq!(shards.stats().total_shards, 2);
    assert_eq!(shards.push(message(vec![8])), Err(ShardError::NotFound));
    assert_eq!(shards.drain_shard(ShardId(1)).len(), 1);
    // Iridium has number 1, so its shard is the second one of two
    assert_eq!(shards.get_shard(Protocol::IridiumSBD, 200), ShardId(2));
    assert_eq!(shards.get_shard(Protocol::InmarsatC, 200), ShardId(1));
    assert_eq!(shards.stats().total_shards, 3);
    assert!(shards.push(message(vec![9])).is_ok());
}

#[test]
fn workers_take_what_a_batch_allows() {
    let mut shards = ShardManager::new(2, 10, 0);
    for n in 0..5u8 {
        shards.push(message(vec![n])).unwrap();
    }
    let worker = ShardWorker::new(ShardId(1));
    assert_eq!(worker.run(&mut shards).unwrap().data[0], 0);
    assert_eq!(worker.run_batched(&mut shards, 3).len(), 3);
    assert_eq!(worker.run_batched(&mut shards, 0).len(), 1);
    assert!(worker.run(&mut shards).is_none());
    assert!(worker.run_batched(&mut shards, 3).is_empty());
}

#[test]
fn one_shard_is_a_queue() {
    let mut shard = MemoryShard::new(ShardId(4), 1, false, 12);
    assert!(shard.is_empty());
    assert_eq!(shard.push(message(vec![1])), Ok(()));
    assert_eq!(shard.push(message(vec![2])), Err(ShardError::Full));
    assert_eq!((shard.len(), shard.last_access()), (1, 12));
    assert!(!shard.is_deadzone_shard());
    assert_eq!(shard.pop().unwrap().data[0], 1);
    assert!(shard.pop().is_none());
    let mut none = MemoryShard::new(ShardId(5), 0, true, 0);
    assert_eq!(none.push(message(vec![1])), Err(ShardError::Full));
}

#[test]
fn shard_errors_are_told_in_words() {
    assert_eq!(ShardError::Full.message(), "Shard is full");
    assert_eq!(ShardError::NotFound.message(), "Shard not found");
    assert_eq!(
        ShardError::Backpressure.message(),
        "Backpressure: buffer utilization >80%"
    );
    assert_eq!(ShardError::Timeout.message(), "Operation timeout");
}
