use bytes::Bytes;
use float_protocols::protocol::{Message, Priority, Protocol};
use float_protocols::storage::encrypted_store::{
    snapshot_path, snapshots_dir, wal_path, StoreError,
};
use float_protocols::storage::wal::{
    compacted, frame, last_sequence, load, replay, WalEntry, WalError, WalHeader,
};

fn log_with(entries: &[&[u8]]) -> Vec<u8> {
    let mut log = WalHeader::new(41).to_bytes();
    for e in entries {
        log.extend(frame(e));
    }
    log
}

#[test]
fn headers_are_exact() {
    let bytes = WalHeader::new(0x0102).to_bytes();
    assert_eq!(&bytes[..8], b"FLOATWAL");
    assert_eq!(&bytes[8..], &[0, 1, 0, 0, 0, 0, 0, 0, 1, 2]);
    let header = WalHeader::from_bytes(&bytes).unwrap();
    assert_eq!((header.version, header.sequence), (1, 0x0102));
    assert!(WalHeader::from_bytes(&bytes[..17]).is_none());
    let mut other = bytes.clone();
    other[7] = b'M';
    assert!(WalHeader::from_bytes(&other).is_none());
}

#[test]
fn entries_carry_a_crc() {
    let entry = frame(b"123456789");
    assert_eq!(&entry[..4], &[0, 0, 0, 9]);
    assert_eq!(&entry[4..13], b"123456789");
    assert_eq!(&entry[13..], &[0xCB, 0xF4, 0x39, 0x26]);
    assert_eq!(frame(b""), vec![0; 8]);
}

#[test]
fn what_was_logged_is_replayed() {
    let log = log_with(&[b"one", b"", b"three"]);
    let expected: Vec<Vec<u8>> = vec![b"one".to_vec(), vec![], b"three".to_vec()];
    assert_eq!(replay(&log).unwrap(), expected);
    let loaded = load(&log).unwrap();
    assert_eq!(loaded.sequence, 41);
    assert_eq!(loaded.entries, expected);
    assert_eq!(loaded.end, log.len());
    assert!(replay(&log_with(&[])).unwrap().is_empty());
}

#[test]
fn damage_is_passed_over() {
    let mut log = log_with(&[b"one", b"two", b"three"]);
    log[18 + 11 + 4] ^= 1;
    assert_eq!(replay(&log).unwrap(), vec![b"one".to_vec(), b"three".to_vec()]);
    assert!(matches!(load(&log), Err(WalError::CrcMismatch)));
}

#[test]
fn torn_entries_are_cut_off() {
    let whole = log_with(&[b"one", b"two"]);
    let first = log_with(&[b"one"]);
    // wherever the writing of the second entry broke off
    for n in first.len()..whole.len() {
        let log = &whole[..n];
        assert_eq!(replay(log).unwrap(), vec![b"one".to_vec()]);
        let loaded = load(log).unwrap();
        assert_eq!(loaded.entries, vec![b"one".to_vec()]);
        assert_eq!(loaded.end, first.len());
        let mut later = log[..loaded.end].to_vec();
        later.extend(frame(b"three"));
        assert_eq!(replay(&later).unwrap(), vec![b"one".to_vec(), b"three".to_vec()]);
    }
}

#[test]
fn logs_without_a_header_are_not_read() {
    let log = log_with(&[b"one", b"two"]);
    assert!(matches!(replay(&log[..17]), Err(WalError::FileRead(_))));
    assert!(matches!(load(&log[..17]), Err(WalError::FileRead(_))));
    let mut other = log;
    other[0] = 0;
    assert!(matches!(load(&other), Err(WalError::InvalidHeader)));
}

#[test]
fn sequences_go_on_after_the_last_entry() {
    assert_eq!(last_sequence(7, &vec![]), 7);
    assert_eq!(last_sequence(7, &vec![Some(8), Some(9)]), 9);
    assert_eq!(last_sequence(7, &vec![Some(8), None]), 8);
    assert_eq!(last_sequence(7, &vec![None]), 7);
}

#[test]
fn old_messages_are_left_out() {
    let at = |t: u64| {
        Message::new_with_temporal(
            Protocol::VSAT,
            Bytes::from(vec![t as u8]),
            Priority::Operational,
            t,
            t,
        )
    };
    let kept: Vec<WalEntry> = compacted(&vec![at(10), at(3), at(5), at(4)], 10, 5);
    assert_eq!(kept.len(), 2);
    assert_eq!((kept[0].sequence, kept[0].message.data[0]), (1, 10));
    assert_eq!((kept[1].sequence, kept[1].message.data[0]), (2, 5));
    assert_eq!(kept[1].timestamp_ms, 10);
    let entry = WalEntry::new(9, at(1), 2);
    assert_eq!((entry.sequence, entry.timestamp_ms), (9, 2));
}

#[test]
fn files_have_their_places() {
    assert_eq!(snapshots_dir("/mnt/s"), "/mnt/s/snapshots");
    assert_eq!(snapshot_path("/mnt/s", "snap_1"), "/mnt/s/snapshots/snap_1.bin");
    assert_eq!(wal_path("/mnt/s"), "/mnt/s/float_wal.bin");
}

#[test]
fn storage_errors_are_told_in_words() {
    let s = || "x".to_string();
    assert_eq!(WalError::FileOpen(s()).message(), "Failed to open WAL file: x");
    assert_eq!(WalError::FileRead(s()).message(), "Failed to read WAL file: x");
    assert_eq!(WalError::FileWrite(s()).message(), "Failed to write WAL file: x");
    assert_eq!(WalError::FileSeek(s()).message(), "Failed to seek WAL file: x");
    assert_eq!(WalError::Serialization(s()).message(), "Serialization error: x");
    assert_eq!(WalError::Deserialization(s()).message(), "Deserialization error: x");
    assert_eq!(WalError::InvalidHeader.message(), "Invalid WAL header");
    assert_eq!(WalError::CrcMismatch.message(), "CRC mismatch in WAL entry");
    assert_eq!(StoreError::CryptSetup(s()).message(), "cryptsetup error: x");
    assert_eq!(StoreError::MountPoint(s()).message(), "Mount point error: x");
    assert_eq!(StoreError::Mount(s()).message(), "Mount error: x");
    assert_eq!(StoreError::Unmount(s()).message(), "Unmount error: x");
    assert_eq!(StoreError::FileRead(s()).message(), "File read error: x");
    assert_eq!(StoreError::FileWrite(s()).message(), "File write error: x");
    assert_eq!(StoreError::Serialization(s()).message(), "Serialization error: x");
    assert_eq!(StoreError::Deserialization(s()).message(), "Deserialization error: x");
    assert_eq!(StoreError::Sync(s()).message(), "Sync error: x");
}
