use kvcache::cache::{OP_GET, OP_HALT, OP_INSERT, OP_REMOVE};
use kvcache::{BufferAccess, Cache, LogLevel};

// Builds a frame: command, 63-byte key, 60-byte value, 4 trailing bytes.
fn create_test_buffer(command: u8, key: &[u8; 63], value: &[u8; 60], expiration: &[u8; 4]) -> [u8; 128] {
    let mut buf = [0; 128];
    buf[0] = command;
    buf[1..64].copy_from_slice(key);
    buf[64..124].copy_from_slice(value);
    buf[124..128].copy_from_slice(expiration);
    buf
}

fn frame(command: u8, key: &[u8; 63], raw: &[u8; 64]) -> [u8; 128] {
    let mut buf = [0; 128];
    buf[0] = command;
    buf[1..64].copy_from_slice(key);
    buf[64..128].copy_from_slice(raw);
    buf
}

fn raw_value(payload: u8, offset: u16) -> [u8; 64] {
    let mut raw = [payload; 64];
    raw[56..62].copy_from_slice(&[0; 6]);
    raw[62..64].copy_from_slice(&offset.to_be_bytes());
    raw
}

#[test]
fn test_handle_in_get() {
    let key = [1; 63];
    let value = [2; 60];
    let expiration = b"0010";
    let mut full_value = [0; 64];
    full_value[0..60].copy_from_slice(&value);
    full_value[60..64].copy_from_slice(expiration);

    let mut cache = Cache::new("/tmp/cache_test.log", LogLevel::DEBUG);
    cache.handle_in(create_test_buffer(b'I', &key, &value, expiration));

    let buf = create_test_buffer(b'G', &key, &value, expiration);
    let r = cache.handle_in(buf);
    let mut expected = full_value[0..56].to_vec();
    expected.push(b'\n');
    assert_eq!(r.output, expected);

    assert_eq!(cache.get(&key), Some(full_value));
}

#[test]
fn test_handle_in_remove() {
    let key = [1; 63];
    let value = [2; 60];
    let expiration = b"0010";
    let mut full_value = [0; 64];
    full_value[0..60].copy_from_slice(&value);
    full_value[60..64].copy_from_slice(expiration);

    let mut cache = Cache::new("/tmp/cache_test.log", LogLevel::DEBUG);
    cache.handle_in(create_test_buffer(b'I', &key, &value, expiration));
    assert_eq!(cache.get(&key), Some(full_value));

    let buf = create_test_buffer(b'R', &key, &value, expiration);
    cache.handle_in(buf);

    assert_eq!(cache.get(&key), None);
}

#[test]
fn test_handle_in_insert() {
    let key = [1; 63];
    let value = [2; 60];
    let expiration = b"0010";
    let mut full_value = [0; 64];
    full_value[0..60].copy_from_slice(&value);
    full_value[60..64].copy_from_slice(expiration);

    let buf = create_test_buffer(b'I', &key, &value, expiration);
    let mut cache = Cache::new("/tmp/cache_test.log", LogLevel::DEBUG);
    let r = cache.handle_in(buf);
    assert_eq!(r.output, b"I\n".to_vec());

    assert_eq!(cache.get(&key), Some(full_value));
}

#[test]
fn test_handle_batch() {
    let mut buffers = Vec::new();

    for i in 0..3 {
        let mut key = [0u8; 63];
        let mut value = [0u8; 60];
        let expiration = b"0010";

        key[0] = i + 1;
        value[0] = i + 10;

        buffers.push(create_test_buffer(b'I', &key, &value, expiration));
    }

    let mut cache = Cache::new("/tmp/cache_test.log", LogLevel::DEBUG);
    let result = cache.handle_batch(&buffers);

    assert_eq!(result.len(), 3);

    for i in 0..3 {
        let mut key = [0u8; 63];
        key[0] = i + 1;
        assert!(cache.get(&key).is_some());
    }
}

#[test]
fn test_empty_key() {
    let key = [0u8; 63];
    let value = [2; 60];
    let expiration = b"0010";

    let buf = create_test_buffer(b'I', &key, &value, expiration);
    let mut cache = Cache::new("/tmp/cache_test.log", LogLevel::DEBUG);
    let result = cache.handle_in(buf);

    assert_eq!(result.output, b"E\n".to_vec());

    assert!(cache.get(&key).is_none());
}

#[test]
fn empty_key_get_is_rejected_and_changes_nothing() {
    let mut cache = Cache::new("log", LogLevel::NORMAL);
    let r = cache.handle_in_at(frame(OP_GET, &[0; 63], &[0; 64]), 10);
    assert_eq!(r.output, b"E\n".to_vec());
    assert_eq!(cache.len(), 0);
    assert!(!cache.is_dirty());
}

#[test]
fn remove_and_halt_ignore_key_content() {
    let mut cache = Cache::new("log", LogLevel::NORMAL);
    let r = cache.handle_in_at(frame(OP_REMOVE, &[0; 63], &[0; 64]), 10);
    assert_eq!(r.output, b"R\n".to_vec());
    assert!(!r.save_requested);
    assert!(cache.is_dirty());
    let h = cache.handle_in_at(frame(OP_HALT, &[0; 63], &[0; 64]), 10);
    assert!(h.output.is_empty());
    assert!(h.save_requested);
    let h2 = cache.handle_in_at(frame(OP_HALT, &[9; 63], &[0; 64]), 10);
    assert!(h2.output.is_empty());
    assert!(h2.save_requested);
}

#[test]
fn remove_of_absent_key_still_acks_and_dirties() {
    let mut cache = Cache::new("log", LogLevel::NORMAL);
    cache.handle_in_at(frame(OP_INSERT, &[3; 63], &raw_value(4, 0)), 5);
    cache.mark_saved();
    assert!(!cache.is_dirty());
    let r = cache.handle_in_at(frame(OP_REMOVE, &[7; 63], &[0; 64]), 6);
    assert_eq!(r.output, b"R\n".to_vec());
    assert!(cache.is_dirty());
    assert_eq!(cache.len(), 1);
    assert_eq!(cache.get(&[3; 63]), Some(raw_value(4, 0)));
}

#[test]
fn insert_then_get_returns_payload() {
    let mut cache = Cache::new("log", LogLevel::NORMAL);
    let raw = raw_value(0x2a, 60);
    cache.handle_in_at(frame(OP_INSERT, &[5; 63], &raw), 1000);
    let r = cache.handle_in_at(frame(OP_GET, &[5; 63], &[0; 64]), 1001);
    let mut expected = vec![0x2a; 56];
    expected.push(b'\n');
    assert_eq!(r.output, expected);
    let miss = cache.handle_in_at(frame(OP_GET, &[6; 63], &[0; 64]), 1001);
    assert_eq!(miss.output, b"G\n".to_vec());
}

#[test]
fn insert_stamps_entry_with_dispatch_time() {
    let mut cache = Cache::new("log", LogLevel::NORMAL);
    let mut raw = raw_value(1, 30);
    raw[61] = 99;
    cache.handle_in_at(frame(OP_INSERT, &[5; 63], &raw), 1000);
    let e = cache.entry(&[5; 63]).unwrap();
    assert_eq!(e.created_at, 1000);
    assert_eq!(e.expires_at, Some(1030));
    assert_eq!(e.value, [1; 56]);
}

#[test]
fn insert_through_clock_uses_current_time() {
    let mut cache = Cache::new("log", LogLevel::NORMAL);
    cache.handle_in(frame(OP_INSERT, &[5; 63], &raw_value(1, 10)));
    let e = cache.entry(&[5; 63]).unwrap();
    assert!(e.created_at > 1_600_000_000);
    assert_eq!(e.expires_at, Some(e.created_at + 10));
}

#[test]
fn unknown_opcode_does_nothing() {
    let mut cache = Cache::new("log", LogLevel::NORMAL);
    let r = cache.handle_in_at(frame(b'X', &[5; 63], &raw_value(1, 0)), 1);
    assert!(r.output.is_empty());
    assert!(!r.save_requested);
    assert_eq!(cache.len(), 0);
    assert!(!cache.is_dirty());
}

#[test]
fn batch_of_three_inserts_and_absent_remove() {
    let mut cache = Cache::new("log", LogLevel::NORMAL);
    let frames = vec![
        frame(OP_INSERT, &[1; 63], &raw_value(1, 0)),
        frame(OP_INSERT, &[2; 63], &raw_value(2, 0)),
        frame(OP_INSERT, &[3; 63], &raw_value(3, 0)),
        frame(OP_REMOVE, &[4; 63], &[0; 64]),
    ];
    let rs = cache.handle_batch_at(&frames, 50);
    assert_eq!(rs.len(), 4);
    assert_eq!(rs[0].output, b"I\n".to_vec());
    assert_eq!(rs[3].output, b"R\n".to_vec());
    assert_eq!(cache.len(), 3);
    assert!(cache.is_dirty());
}

#[test]
fn batch_sets_dirty_even_without_mutation() {
    let mut cache = Cache::new("log", LogLevel::NORMAL);
    let rs = cache.handle_batch_at(&[frame(OP_GET, &[1; 63], &[0; 64])], 1);
    assert_eq!(rs[0].output, b"G\n".to_vec());
    assert!(cache.is_dirty());
}

#[test]
fn sweep_becomes_due_at_threshold() {
    let mut cache = Cache::new("log", LogLevel::NORMAL);
    assert_eq!(cache.invalidation_threshold(), 100);
    for i in 0..99 {
        let r = cache.handle_in_at(frame(OP_GET, &[1; 63], &[0; 64]), i);
        assert!(!r.sweep_due);
    }
    let r = cache.handle_in_at(frame(OP_GET, &[1; 63], &[0; 64]), 100);
    assert!(r.sweep_due);
    let r = cache.handle_in_at(frame(OP_GET, &[1; 63], &[0; 64]), 101);
    assert!(!r.sweep_due);
    assert!(!cache.set_invalidation_threshold(0));
    assert_eq!(cache.invalidation_threshold(), 100);
    assert!(cache.set_invalidation_threshold(2));
    assert!(!cache.handle_in_at(frame(b'X', &[1; 63], &[0; 64]), 1).sweep_due);
    assert!(cache.handle_in_at(frame(b'X', &[1; 63], &[0; 64]), 1).sweep_due);
}

#[test]
fn chunk_of_frames_is_split_and_dispatched() {
    let mut cache = Cache::new("log", LogLevel::NORMAL);
    let mut bytes = Vec::new();
    bytes.extend_from_slice(&frame(OP_INSERT, &[1; 63], &raw_value(1, 0)));
    bytes.extend_from_slice(&frame(OP_GET, &[1; 63], &[0; 64]));
    bytes.extend_from_slice(&[7; 20]);
    let rs = cache.handle_chunk(&bytes);
    assert_eq!(rs.len(), 2);
    assert_eq!(rs[0].output, b"I\n".to_vec());
    let mut expected = vec![1; 56];
    expected.push(b'\n');
    assert_eq!(rs[1].output, expected);
    assert!(cache.handle_chunk(&[0; 100]).is_empty());
    let one = cache.handle_chunk(&frame(OP_REMOVE, &[1; 63], &[0; 64]));
    assert_eq!(one.len(), 1);
    assert_eq!(cache.len(), 0);
}

#[test]
fn flags_and_getters() {
    let mut cache = Cache::new("/tmp/some.log", LogLevel::DEBUG);
    assert_eq!(cache.log_path(), "/tmp/some.log");
    assert!(cache.level() == LogLevel::DEBUG);
    assert!(!cache.save_due());
    cache.handle_in_at(frame(OP_INSERT, &[1; 63], &raw_value(1, 0)), 1);
    assert!(cache.save_due());
    cache.request_exit();
    assert!(cache.should_exit());
    assert!(!cache.save_due());
}
