use float_protocols::dynamic_buffer::{BufferError, DynamicBuffer, DynamicBufferPool};
use float_protocols::iridium_sbd::IridiumSBDMessage;
use float_protocols::lifetime_safe::{HybridTranslator, TranslationArena};
use float_protocols::translator::BufferPool;

#[test]
fn test_dynamic_buffer_growth() {
    let mut buffer = DynamicBuffer::new(10, 1000).unwrap();

    // Write small data
    buffer.write(&[1, 2, 3]).unwrap();
    assert_eq!(buffer.len(), 3);

    // Write larger data (should grow)
    let large_data = vec![0u8; 500];
    buffer.write(&large_data).unwrap();
    assert_eq!(buffer.len(), 500);
    assert!(buffer.capacity() >= 500);
}

#[test]
fn test_buffer_too_large() {
    let mut buffer = DynamicBuffer::new(10, 100).unwrap();

    let too_large = vec![0u8; 200];
    let result = buffer.write(&too_large);

    assert!(matches!(result, Err(BufferError::TooLarge { .. })));
}

#[test]
fn test_buffer_pool() {
    let mut pool = DynamicBufferPool::new(4, 10, 1000).unwrap();

    let buffer = pool.get_buffer().unwrap();
    buffer.write(&[1, 2, 3]).unwrap();

    assert_eq!(buffer.len(), 3);
}

#[test]
fn buffer_keeps_its_contents_on_errors() {
    let mut buffer = DynamicBuffer::new(2, 4).unwrap();
    assert!(buffer.is_empty());
    buffer.write(&[1, 2, 3]).unwrap();
    let err = buffer.write(&[0; 5]).unwrap_err();
    assert_eq!(err.message(), "Buffer too large: requested 5 bytes, max 4 bytes");
    assert_eq!(buffer.as_slice(), &[1, 2, 3]);
    assert!(buffer.reset(5).is_err());
    assert_eq!(buffer.len(), 3);
    buffer.as_mut_slice()[0] = 9;
    assert_eq!(buffer.as_slice(), &[9, 2, 3]);
    assert_eq!(buffer.max_capacity(), 4);
    buffer.clear();
    assert!(buffer.is_empty());
    buffer.write(&[7]).unwrap();
    buffer.reset(4).unwrap();
    assert_eq!(buffer.len(), 0);
    assert!(DynamicBuffer::new(5, 4).is_err());
    assert_eq!(BufferError::AllocationFailed.message(), "Buffer allocation failed");
    assert_eq!(BufferError::InvalidSize.message(), "Invalid buffer size");
}

#[test]
fn buffers_allocate_within_their_bound() {
    let mut buffer = DynamicBuffer::new(10, 1000).unwrap();
    for n in [1usize, 11, 100, 513, 999, 1000] {
        buffer.write(&vec![3u8; n]).unwrap();
        assert_eq!(buffer.len(), n);
        assert!(buffer.capacity() <= 1000);
    }
}

#[test]
fn turns_come_round_again() {
    let mut pool = BufferPool::new(3);
    for k in 0..9usize {
        assert_eq!(pool.get_buffer_at(k)[1], 0); // does not move the turn
        let buffer = pool.get_buffer();
        if k < 3 {
            assert!(buffer.iter().all(|b| *b == 0));
            assert_eq!(buffer.len(), 2048);
        } else {
            assert_eq!(buffer[0] as usize, k - 2);
        }
        buffer[0] = k as u8 + 1;
    }

    let mut pool = DynamicBufferPool::new(3, 1, 8).unwrap();
    for k in 0..9u8 {
        let buffer = pool.get_buffer().unwrap();
        if k < 3 {
            assert!(buffer.is_empty());
        } else {
            assert_eq!(buffer.as_slice(), &[k - 3]);
        }
        buffer.write(&[k]).unwrap();
    }
    assert_eq!(pool.get_buffer_at(1).unwrap().as_slice(), &[7]);
}

#[test]
fn pools_hand_out_in_turn() {
    let mut pool = DynamicBufferPool::new(2, 1, 8).unwrap();
    pool.get_buffer().unwrap().write(&[1]).unwrap();
    pool.get_buffer().unwrap().write(&[2]).unwrap();
    assert_eq!(pool.get_buffer().unwrap().as_slice(), &[1]);
    assert_eq!(pool.get_buffer_at(3).unwrap().as_slice(), &[2]);
    assert_eq!(pool.max_capacity(), 8);
    assert!(DynamicBufferPool::new(1, 9, 8).is_err());
    assert!(DynamicBufferPool::new(0, 9, 8).is_ok());

    let mut pool = BufferPool::new(2);
    pool.get_buffer()[0] = 1;
    pool.get_buffer()[0] = 2;
    assert_eq!(pool.get_buffer()[0], 1);
    assert_eq!(pool.get_buffer_at(1)[0], 2);
    assert_eq!(pool.get_buffer_at(5)[0], 2);

    let mut arena = TranslationArena::new(2, 3);
    arena.get_buffer()[1] = 5;
    arena.get_buffer()[1] = 6;
    assert_eq!(arena.get_buffer_at(0).clone(), vec![0, 5, 0]);
    assert_eq!(&arena.clone_to_bytes_at(3, 2)[..], &[0, 6]);
    assert_eq!(&arena.clone_to_bytes(&[4, 5, 6], 2)[..], &[4, 5]);
}

#[test]
fn test_safe_translation() {
    let iridium_data: Vec<u8> = vec![
        0x01, // protocol
        0x00, 0x05, // length = 5
        0x48, 0x65, 0x6c, 0x6c, 0x6f, // "Hello"
        0x00, 0x00, // checksum
    ];

    let iridium_msg = IridiumSBDMessage::parse(&iridium_data).unwrap();
    let mut translator = HybridTranslator::new(8, 2048);

    let result = translator.translate_safe(&iridium_msg).unwrap();
    assert_eq!(result.size, 12); // 7 bytes header + 5 bytes payload
    assert_eq!(result.as_slice(), b"\x01\x00\x00\x00\x00\x00\x05Hello");
    assert!(HybridTranslator::new(1, 11).translate_safe(&iridium_msg).is_none());
}
